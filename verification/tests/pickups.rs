use garbage_bot::bsr::{
    choose_schedule, match_street, pick_street, pickup_from_entry, pickups_request, read_pickups, write_house_query,
    write_pickup_filter, BsrPickupEntry, BsrScheduleEntry, BsrStreetEntry, LookupError, ScheduleLookup,
};
use garbage_bot::date::Date;
use garbage_bot::pickup::{next_day_with_pickup, pickups_on, sort_by_date, Pickup};
use garbage_bot::tables::TextMap;

fn day(year: i32, month: u32, day: u32) -> Date {
    Date::new(year, month, day).unwrap()
}

fn pickup(date: Date, label: &str) -> Pickup {
    Pickup { date, label: label.to_string() }
}

fn labels_of(pickups: &[Pickup]) -> Vec<String> {
    pickups.iter().map(|p| p.label.clone()).collect()
}

fn street(value: &str) -> BsrStreetEntry {
    BsrStreetEntry { value: value.to_string() }
}

fn schedule(value: &str, label: &str) -> BsrScheduleEntry {
    BsrScheduleEntry { value: value.to_string(), label: label.to_string() }
}

fn entry(service_date: &str, category: &str) -> BsrPickupEntry {
    BsrPickupEntry { service_date: service_date.to_string(), category: category.to_string() }
}

fn labels() -> TextMap {
    let mut labels = TextMap::new();
    labels.insert("BI".to_string(), "Biogut".to_string());
    labels.insert("HM".to_string(), "Hausmüll".to_string());
    labels
}

fn lookup(street: &str, number: &str, plz: Option<&str>) -> ScheduleLookup {
    ScheduleLookup { street: street.to_string(), number: number.to_string(), plz: plz.map(str::to_string) }
}

#[test]
fn sorting_keeps_the_order_within_a_day() {
    let sorted = sort_by_date(vec![
        pickup(day(2024, 5, 3), "c"),
        pickup(day(2024, 5, 1), "a1"),
        pickup(day(2024, 5, 2), "b"),
        pickup(day(2024, 5, 1), "a2"),
        pickup(day(2023, 12, 31), "z"),
    ]);
    assert_eq!(labels_of(&sorted), vec!["z", "a1", "a2", "b", "c"]);
    assert!(sort_by_date(Vec::new()).is_empty());
}

#[test]
fn pickups_of_a_day_are_found() {
    let pickups = vec![pickup(day(2024, 5, 1), "a"), pickup(day(2024, 5, 2), "b"), pickup(day(2024, 5, 1), "c")];
    assert_eq!(labels_of(&pickups_on(&pickups, &day(2024, 5, 1))), vec!["a", "c"]);
    assert!(pickups_on(&pickups, &day(2024, 5, 3)).is_empty());
}

#[test]
fn the_next_day_may_be_today() {
    let pickups = vec![pickup(day(2024, 4, 30), "over"), pickup(day(2024, 5, 1), "a"), pickup(day(2024, 5, 2), "b")];
    assert_eq!(next_day_with_pickup(&pickups, &day(2024, 5, 1)), Some(day(2024, 5, 1)));
    assert_eq!(next_day_with_pickup(&pickups, &day(2024, 5, 2)), Some(day(2024, 5, 2)));
    assert_eq!(next_day_with_pickup(&pickups, &day(2024, 5, 3)), None);
}

#[test]
fn a_street_matches_but_for_its_case() {
    let streets = vec![street("Ährenweg Nord"), street("ÄHRENWEG"), street("ährenweg")];
    assert_eq!(match_street(&streets, "Ährenweg"), Some(1));
    assert_eq!(match_street(&streets, "Anderswo"), Some(0));
    assert_eq!(match_street(&Vec::new(), "Ährenweg"), None);
}

#[test]
fn the_first_street_of_a_name_is_picked() {
    let names = vec!["a".to_string(), "b".to_string(), "b".to_string()];
    assert_eq!(pick_street(&names, "b"), Some(1));
    assert_eq!(pick_street(&names, "B"), Some(0));
    assert_eq!(pick_street(&Vec::new(), "b"), None);
}

#[test]
fn a_schedule_is_chosen_by_its_postal_code() {
    let results = vec![schedule("1", "Allee 1, 10115 Berlin"), schedule("2", "Allee 1, 12345 Berlin")];
    assert_eq!(choose_schedule(&results, &Some("12345".to_string())), Some(1));
    assert_eq!(choose_schedule(&results, &Some("99999".to_string())), Some(0));
    assert_eq!(choose_schedule(&results, &None), Some(0));
    assert_eq!(choose_schedule(&Vec::new(), &Some("12345".to_string())), None);
}

#[test]
fn a_single_schedule_needs_no_postal_code() {
    let results = vec![schedule("1", "Allee 1, 10115 Berlin")];
    assert_eq!(choose_schedule(&results, &Some("12345".to_string())), Some(0));
}

#[test]
fn the_lookup_asks_for_the_street_first() {
    let search = lookup("Große Allee", "1 a", None);
    assert_eq!(
        search.first_request().unwrap(),
        "https://umnewforms.bsr.de/p/de.bsr.adressen.app/streetNames?searchQuery=Gro%C3%9Fe+Allee"
    );
    let house = search.second_request(&vec![street("Kleine Allee"), street("GROSSE ALLEE"), street("GROßE ALLEE")]).unwrap();
    assert_eq!(house.street, "GROßE ALLEE");
    assert_eq!(
        house.url,
        "https://umnewforms.bsr.de/p/de.bsr.adressen.app/plzSet/plzSet?searchQuery=GRO%C3%9FE+ALLEE%3A%3A%3A1+a"
    );
    assert_eq!(write_house_query("Allee", "1 a"), "Allee:::1 a");
}

#[test]
fn the_lookup_ends_in_a_schedule() {
    let search = lookup("Allee", "1", Some("12345"));
    let results = vec![schedule("one", "10115"), schedule("two", "12345")];
    assert_eq!(search.schedule_id("Allee", &results).unwrap(), "two");
}

#[test]
fn a_lookup_without_a_street_fails() {
    let error = lookup("Alle\"e", "1", None).second_request(&Vec::new()).unwrap_err();
    assert!(matches!(error, LookupError::NoStreet(_)));
    assert_eq!(error.message(), "No BSR street found for: \"Alle\\\"e\"");
    assert_eq!(error.message_quoting("«Allee»"), "No BSR street found for: «Allee»");
}

#[test]
fn a_lookup_without_an_address_fails() {
    let error = lookup("allee", "99", None).schedule_id("Allee", &Vec::new()).unwrap_err();
    assert!(matches!(error, LookupError::NoAddress(_, _)));
    assert_eq!(error.message(), "No BSR address found for: Allee 99");
}

#[test]
fn an_address_error_says_what_the_parser_said() {
    let error = LookupError::Url("empty host".to_string());
    assert_eq!(error.message(), "empty host");
}

#[test]
fn pickups_are_asked_for_a_year() {
    assert_eq!(
        write_pickup_filter("4711", &day(2024, 5, 17)),
        "AddrKey eq '4711' and DateFrom eq datetime'2024-05-01T00:00:00' and DateTo eq datetime'2025-05-01T00:00:00'"
    );
    assert_eq!(
        pickups_request("4711", &day(2024, 12, 31)).unwrap(),
        "https://umnewforms.bsr.de/p/de.bsr.adressen.app/abfuhrEvents?filter=AddrKey+eq+%274711%27+and+DateFrom+eq+\
         datetime%272024-12-01T00%3A00%3A00%27+and+DateTo+eq+datetime%272025-12-01T00%3A00%3A00%27"
    );
}

#[test]
fn reported_pickups_are_read_and_sorted() {
    let groups = vec![
        vec![entry("02.05.2024", "BI"), entry("2024-05-01", "BI"), entry("30.02.2024", "HM")],
        vec![entry("01.05.2024", "HM"), entry("01.05.2024", "XX")],
        vec![],
    ];
    let pickups = read_pickups(&groups, &labels());
    assert_eq!(labels_of(&pickups), vec!["Hausmüll", "Unbekannt (XX)", "Biogut"]);
    assert_eq!(pickups[0].date, day(2024, 5, 1));
    assert_eq!(pickups[2].date, day(2024, 5, 2));
}

#[test]
fn the_order_of_groups_makes_no_difference() {
    let forward = vec![vec![entry("02.05.2024", "BI")], vec![entry("01.05.2024", "HM")], vec![entry("03.05.2024", "XX")]];
    let backward = vec![vec![entry("03.05.2024", "XX")], vec![entry("01.05.2024", "HM")], vec![entry("02.05.2024", "BI")]];
    let first = read_pickups(&forward, &labels());
    let second = read_pickups(&backward, &labels());
    assert_eq!(labels_of(&first), labels_of(&second));
    assert_eq!(labels_of(&first), vec!["Hausmüll", "Biogut", "Unbekannt (XX)"]);
}

#[test]
fn an_entry_without_a_day_is_no_pickup() {
    assert!(pickup_from_entry(&entry("x", "BI"), None, &labels()).is_none());
    let found = pickup_from_entry(&entry("x", "BI"), Some(day(2024, 5, 1)), &labels()).unwrap();
    assert_eq!(found.label, "Biogut");
    assert_eq!(found.clone().date, day(2024, 5, 1));
}
