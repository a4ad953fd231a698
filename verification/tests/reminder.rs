use garbage_bot::date::Date;
use garbage_bot::pickup::Pickup;
use garbage_bot::reactions::{shown_name, strip_variation_selectors, Confirmations};
use garbage_bot::reminder::{after_bsr, after_recycling, build_reminder, plan_reminder, ReminderStep, StopReason};
use garbage_bot::tables::TextMap;

fn day(year: i32, month: u32, day: u32) -> Date {
    Date::new(year, month, day).unwrap()
}

fn pickup(date: Date, label: &str) -> Pickup {
    Pickup { date, label: label.to_string() }
}

fn colors() -> TextMap {
    let mut colors = TextMap::new();
    colors.insert("Biogut".to_string(), "#8b4513".to_string());
    colors
}

fn some_pickups() -> Vec<Pickup> {
    vec![
        pickup(day(2024, 4, 30), "over"),
        pickup(day(2024, 5, 3), "Biogut"),
        pickup(day(2024, 5, 3), "Hausmüll"),
        pickup(day(2024, 5, 4), "Papier"),
    ]
}

#[test]
fn the_reminder_lists_its_pickups() {
    let pickups = vec![pickup(day(2024, 5, 3), "Biogut"), pickup(day(2024, 5, 3), "Hausmüll")];
    let (plain, html) = build_reminder(&pickups, &day(2024, 5, 3), &colors());
    assert_eq!(
        plain,
        "📢 Garbage Collection Reminder\nTomorrow (Friday, 03.05.2024):\n🗑️ Biogut\n🗑️ Hausmüll\n\
         Please put them out tonight!\nReact with ✅ once it's done."
    );
    assert_eq!(
        html,
        "<strong>📢 Garbage Collection Reminder</strong><p>Tomorrow <b>Friday, 03.05.2024</b>:</p><ul>\
         <li>🗑️ <font data-mx-color=\"#8b4513\"><strong>Biogut</strong></font></li>\
         <li>🗑️ <strong>Hausmüll</strong></li></ul>\
         <p>Please put them out <b>tonight</b>!<br>React with ✅ once it's done.</p>"
    );
}

#[test]
fn the_reminder_names_the_day_of_the_week() {
    let names = ["Monday", "Tuesday", "Wednesday", "Thursday", "Friday", "Saturday", "Sunday"];
    for (number, name) in names.iter().enumerate() {
        let (plain, html) = build_reminder(&[], &day(2024, 1, 1 + number as u32), &colors());
        let expected = format!("{}, 0{}.01.2024", name, number + 1);
        assert!(plain.contains(&format!("Tomorrow ({expected}):\n")));
        assert!(html.contains(&format!("Tomorrow <b>{expected}</b>:")));
    }
}

#[test]
fn years_of_other_lengths_are_written_out() {
    let (plain, _) = build_reminder(&[], &day(5, 1, 1), &colors());
    assert!(plain.contains("01.01.0005)"));
    let (plain, _) = build_reminder(&[], &day(-5, 1, 1), &colors());
    assert!(plain.contains("01.01.-0005)"));
    let (plain, _) = build_reminder(&[], &day(12345, 1, 1), &colors());
    assert!(plain.contains("01.01.+12345)"));
}

#[test]
fn the_reminder_is_for_tomorrow() {
    match plan_reminder(&some_pickups(), &day(2024, 5, 2), false, &colors()) {
        ReminderStep::Announce(announcement) => {
            assert_eq!(announcement.date, day(2024, 5, 3));
            assert!(announcement.plain.contains("🗑️ Biogut\n🗑️ Hausmüll\nPlease"));
            assert!(announcement.html.contains("<strong>Biogut</strong>"));
        }
        other => panic!("{other:?}"),
    }
}

#[test]
fn without_pickups_tomorrow_there_is_no_reminder() {
    match plan_reminder(&some_pickups(), &day(2024, 5, 1), false, &colors()) {
        ReminderStep::Stop(StopReason::NothingOn(date)) => assert_eq!(date, day(2024, 5, 2)),
        other => panic!("{other:?}"),
    }
}

#[test]
fn the_test_reminder_is_for_the_next_pickup() {
    match plan_reminder(&some_pickups(), &day(2024, 5, 1), true, &colors()) {
        ReminderStep::Announce(announcement) => assert_eq!(announcement.date, day(2024, 5, 3)),
        other => panic!("{other:?}"),
    }
    match plan_reminder(&some_pickups(), &day(2024, 5, 4), true, &colors()) {
        ReminderStep::Announce(announcement) => assert_eq!(announcement.date, day(2024, 5, 4)),
        other => panic!("{other:?}"),
    }
    assert!(matches!(
        plan_reminder(&some_pickups(), &day(2024, 5, 5), true, &colors()),
        ReminderStep::Stop(StopReason::NothingUpcoming)
    ));
}

#[test]
fn without_the_city_there_is_no_reminder() {
    assert!(matches!(
        after_bsr(None, true, &day(2024, 5, 2), false, &colors()),
        ReminderStep::Stop(StopReason::NoData)
    ));
    assert!(matches!(
        after_bsr(None, false, &day(262142, 12, 31), false, &colors()),
        ReminderStep::Stop(StopReason::NoData)
    ));
}

#[test]
fn an_account_is_asked_before_the_reminder() {
    match after_bsr(Some(some_pickups()), true, &day(2024, 5, 2), false, &colors()) {
        ReminderStep::FetchRecycling(pickups) => assert_eq!(pickups.len(), 4),
        other => panic!("{other:?}"),
    }
    assert!(matches!(
        after_bsr(Some(some_pickups()), false, &day(2024, 5, 2), false, &colors()),
        ReminderStep::Announce(_)
    ));
}

#[test]
fn recycling_goes_among_the_pickups() {
    let more = vec![pickup(day(2024, 5, 3), "Glas"), pickup(day(2024, 5, 1), "Papier")];
    match after_recycling(some_pickups(), Some(more), &day(2024, 5, 2), false, &colors()) {
        ReminderStep::Announce(announcement) => {
            assert!(announcement.plain.contains("🗑️ Biogut\n🗑️ Hausmüll\n🗑️ Glas\nPlease"));
        }
        other => panic!("{other:?}"),
    }
    let more = vec![pickup(day(2024, 5, 1), "Papier")];
    match after_recycling(some_pickups(), Some(more), &day(2024, 5, 1), true, &colors()) {
        ReminderStep::Announce(announcement) => assert_eq!(announcement.date, day(2024, 5, 1)),
        other => panic!("{other:?}"),
    }
}

#[test]
fn without_recycling_the_city_is_enough() {
    match after_recycling(some_pickups(), None, &day(2024, 5, 2), false, &colors()) {
        ReminderStep::Announce(announcement) => {
            assert!(announcement.plain.contains("🗑️ Biogut\n🗑️ Hausmüll\nPlease"));
        }
        other => panic!("{other:?}"),
    }
}

#[test]
fn variation_selectors_are_stripped() {
    assert_eq!(strip_variation_selectors("✔\u{fe0f}"), "✔");
    assert_eq!(strip_variation_selectors("\u{fe00}a\u{fe0f}\u{fe0e}b"), "ab");
    assert_eq!(strip_variation_selectors("\u{fdff}\u{fe10}"), "\u{fdff}\u{fe10}");
    let once = strip_variation_selectors("☑\u{fe0f}\u{fe0f}");
    assert_eq!(strip_variation_selectors(&once), once);
}

#[test]
fn reactions_to_reminders_confirm() {
    let mut confirmations = Confirmations::new();
    confirmations.track("$one".to_string());
    for key in ["✅", "✔", "✔\u{fe0f}", "☑", "☑\u{fe0f}"] {
        assert!(confirmations.is_confirmation(true, "$one", key));
        assert!(!confirmations.is_confirmation(false, "$one", key));
        assert!(!confirmations.is_confirmation(true, "$two", key));
    }
    for key in ["👍", "", "✅✅", "x"] {
        assert!(!confirmations.is_confirmation(true, "$one", key));
    }
}

#[test]
fn each_name_confirms_once() {
    let mut confirmations = Confirmations::new();
    confirmations.track("$one".to_string());
    confirmations.track("$two".to_string());
    assert_eq!(
        confirmations.confirm("$one", "Zoe".to_string()).map(|c| c.message).as_deref(),
        Some("✅ Zoe put the bins out! (1 confirmed: Zoe)")
    );
    assert_eq!(
        confirmations.confirm("$one", "Ada".to_string()).map(|c| c.message).as_deref(),
        Some("✅ Ada put the bins out! (2 confirmed: Ada, Zoe)")
    );
    assert!(confirmations.confirm("$one", "Zoe".to_string()).is_none());
    assert!(confirmations.confirm("$three", "Zoe".to_string()).is_none());
    assert!(!confirmations.is_confirmation(true, "$three", "✅"));
    assert_eq!(
        confirmations.confirm("$two", "Zoe".to_string()).map(|c| c.message).as_deref(),
        Some("✅ Zoe put the bins out! (1 confirmed: Zoe)")
    );
}

#[test]
fn the_order_of_confirmations_makes_no_difference() {
    let mut one = Confirmations::new();
    let mut other = Confirmations::new();
    for confirmations in [&mut one, &mut other] {
        confirmations.track("$one".to_string());
    }
    one.confirm("$one", "Ada".to_string());
    one.confirm("$one", "Zoe".to_string());
    other.confirm("$one", "Zoe".to_string());
    other.confirm("$one", "Ada".to_string());
    let first = one.confirm("$one", "Max".to_string()).unwrap();
    let second = other.confirm("$one", "Max".to_string()).unwrap();
    assert_eq!(first.message, "✅ Max put the bins out! (3 confirmed: Ada, Max, Zoe)");
    assert_eq!(first.message, second.message);
    assert_eq!((first.total, second.total), (3, 3));
}

#[test]
fn a_reminder_that_goes_out_again_is_open_to_all() {
    let mut confirmations = Confirmations::new();
    confirmations.track("$one".to_string());
    assert!(confirmations.confirm("$one", "Ada".to_string()).is_some());
    confirmations.track("$one".to_string());
    assert_eq!(
        confirmations.confirm("$one", "Ada".to_string()).map(|c| c.message).as_deref(),
        Some("✅ Ada put the bins out! (1 confirmed: Ada)")
    );
}

#[test]
fn people_go_by_their_name_or_their_id() {
    assert_eq!(shown_name(Some("Ada".to_string()), "@ada:example.org"), "Ada");
    assert_eq!(shown_name(None, "@ada:example.org"), "@ada:example.org");
}
