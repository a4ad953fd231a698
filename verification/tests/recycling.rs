use garbage_bot::berlin_recycling::{
    pickup_of_material, read_calendar, read_calendar_rows, read_row, strip_category_code, unwrap_calendar, PortalError,
};
use garbage_bot::config::BerlinRecyclingConfig;
use garbage_bot::date::Date;
use garbage_bot::json::Json;
use garbage_bot::portal::{
    after_request, first_step, judge_login, FieldValue, PortalAction, PortalAnswer, PortalReply, PortalStep, RequestBody,
};
use garbage_bot::tables::TextMap;

fn day(year: i32, month: u32, day: u32) -> Date {
    Date::new(year, month, day).unwrap()
}

fn text(value: &str) -> Json {
    Json::Text(value.to_string())
}

fn object(members: Vec<(&str, Json)>) -> Json {
    Json::Object(members.into_iter().map(|(key, value)| (key.to_string(), value)).collect())
}

fn answer(url: &str, body: &str) -> PortalReply {
    PortalReply::Answered(PortalAnswer { status_error: None, url: url.to_string(), body: body.to_string() })
}

fn account() -> BerlinRecyclingConfig {
    BerlinRecyclingConfig { username: "someone".to_string(), password: "something".to_string() }
}

fn labels() -> TextMap {
    let mut labels = TextMap::new();
    labels.insert("Papier".to_string(), "Altpapier".to_string());
    labels
}

const CALENDAR: &str = r#"{"d":"{\"Object\":{\"data\":[{\"Task Date\":\"2024-05-02\",\"Material Description\":\"5.01 Papier\"},{\"Task Date\":\"2024-05-01\",\"Material Description\":\"Glas bunt\"},{\"Task Date\":\"01.05.2024\",\"Material Description\":\"Papier\"},{\"Task Date\":\"2024-05-01\"},{\"Task Date\":null,\"Material Description\":\"Papier\"},7]}}"}"#;

#[test]
fn category_codes_are_stripped() {
    assert_eq!(strip_category_code("5.01 Papier"), "Papier");
    assert_eq!(strip_category_code("5.01 Papier und Pappe"), "Papier und Pappe");
    assert_eq!(strip_category_code(". Papier"), "Papier");
    assert_eq!(strip_category_code("5.01  Papier"), " Papier");
    assert_eq!(strip_category_code("5.01"), "5.01");
    assert_eq!(strip_category_code("501 Papier"), "501 Papier");
    assert_eq!(strip_category_code("5.0a Papier"), "5.0a Papier");
    assert_eq!(strip_category_code(" Papier"), " Papier");
}

#[test]
fn materials_get_their_label() {
    let found = pickup_of_material(Some(day(2024, 5, 1)), Some("5.01 Papier".to_string()), &labels()).unwrap();
    assert_eq!(found.label, "Altpapier");
    assert_eq!(found.date, day(2024, 5, 1));
    let found = pickup_of_material(Some(day(2024, 5, 1)), Some("5.02 Glas".to_string()), &labels()).unwrap();
    assert_eq!(found.label, "Glas");
    assert!(pickup_of_material(None, Some("Glas".to_string()), &labels()).is_none());
    assert!(pickup_of_material(Some(day(2024, 5, 1)), None, &labels()).is_none());
}

#[test]
fn rows_need_a_day_and_a_material() {
    let row = object(vec![("Task Date", text("2024-05-01")), ("Material Description", text("5.01 Papier"))]);
    let found = read_row(&row, &labels()).unwrap();
    assert_eq!(found.label, "Altpapier");
    assert_eq!(found.date, day(2024, 5, 1));
    assert!(read_row(&object(vec![("Task Date", text("2024-05-01"))]), &labels()).is_none());
    assert!(read_row(&object(vec![("Material Description", text("Papier"))]), &labels()).is_none());
    assert!(read_row(&text("Papier"), &labels()).is_none());
}

#[test]
fn the_first_member_of_a_name_counts() {
    let json = object(vec![("a", Json::Bool(true)), ("b", text("1")), ("b", text("2"))]);
    assert_eq!(json.text_member("b").as_deref(), Some("1"));
    assert_eq!(json.text_member("a"), None);
    assert_eq!(json.text_member("c"), None);
    assert!(json.member("c").is_none());
    assert!(Json::List(Vec::new()).member("c").is_none());
    assert_eq!(Json::Number("1".to_string()).as_text(), None);
    assert_eq!(Json::Null.as_text(), None);
}

#[test]
fn the_calendar_is_read_and_sorted() {
    let pickups = read_calendar(CALENDAR, &labels()).unwrap();
    let found: Vec<(Date, &str)> = pickups.iter().map(|p| (p.date, p.label.as_str())).collect();
    assert_eq!(found, vec![(day(2024, 5, 1), "Glas bunt"), (day(2024, 5, 2), "Altpapier")]);
}

#[test]
fn rows_are_read_as_they_stand_in_the_answer() {
    let row = r#"{"Task Date":"2025-02-03","Material Description":"Papier","$serde_json::private::RawValue":"x"}"#;
    let calendar = format!(r#"{{"Object":{{"data":[{row},{{"n":1.5e300,"deep":[[[{{"a":null}}]],true]}}]}}}}"#);
    let body = serde_json::Value::from_iter([("d", calendar)]).to_string();
    let pickups = read_calendar(&body, &labels()).unwrap();
    assert_eq!(pickups.len(), 1);
    assert_eq!(pickups[0].date, day(2025, 2, 3));
    assert_eq!(pickups[0].label, "Altpapier");
    let mut step = first_step();
    for _ in 0..4 {
        match after_request(step, answer("https://kundenportal.berlin-recycling.de/", &body), &labels()) {
            PortalAction::Send(next) => step = next,
            other => panic!("{other:?}"),
        }
    }
    match after_request(step, answer("https://kundenportal.berlin-recycling.de/", &body), &labels()) {
        PortalAction::Finish(pickups) => assert_eq!(pickups.len(), 1),
        other => panic!("{other:?}"),
    }
}

#[test]
fn the_calendar_is_a_text_in_the_answer() {
    assert_eq!(unwrap_calendar(&object(vec![("d", text("x"))])).unwrap(), "x");
    assert!(matches!(unwrap_calendar(&object(vec![("d", Json::Null)])), Err(PortalError::NoPayload)));
    assert!(matches!(unwrap_calendar(&Json::Null), Err(PortalError::NoPayload)));
}

#[test]
fn the_calendar_holds_rows() {
    let calendar = object(vec![("Object", object(vec![("data", Json::List(Vec::new()))]))]);
    assert!(read_calendar_rows(&calendar, &labels()).unwrap().is_empty());
    let calendar = object(vec![("Object", object(vec![("data", Json::Null)]))]);
    assert!(matches!(read_calendar_rows(&calendar, &labels()), Err(PortalError::NoData)));
    assert!(matches!(read_calendar_rows(&Json::Null, &labels()), Err(PortalError::NoData)));
}

#[test]
fn an_answer_that_is_no_json_is_an_error() {
    let error = read_calendar("<html>", &labels()).unwrap_err();
    assert!(matches!(error, PortalError::Undecodable(_)));
    assert_eq!(error.message(), "error decoding response body");
}

#[test]
fn an_answer_without_the_calendar_is_an_error() {
    let error = read_calendar(r#"{"d":1}"#, &labels()).unwrap_err();
    assert!(matches!(error, PortalError::NoPayload));
    assert_eq!(error.message(), "Berlin Recycling: unexpected response shape (missing 'd')");
}

#[test]
fn a_calendar_that_is_no_json_is_an_error() {
    let error = read_calendar(r#"{"d":"x"}"#, &labels()).unwrap_err();
    assert!(matches!(error, PortalError::Json(_)));
    assert_eq!(error.message(), "expected value at line 1 column 1");
}

#[test]
fn a_calendar_without_rows_is_an_error() {
    let error = read_calendar(r#"{"d":"{\"Object\":{}}"}"#, &labels()).unwrap_err();
    assert!(matches!(error, PortalError::NoData));
    assert_eq!(error.message(), "Berlin Recycling: no data array in response");
}

#[test]
fn requests_follow_each_other() {
    assert_eq!(first_step(), PortalStep::Open);
    let reply = answer("https://kundenportal.berlin-recycling.de/", "");
    assert!(matches!(after_request(PortalStep::Open, reply, &labels()), PortalAction::Send(PortalStep::Login)));
    let reply = answer("https://kundenportal.berlin-recycling.de/Login.aspx/Auth", "");
    assert!(matches!(after_request(PortalStep::Login, reply, &labels()), PortalAction::Send(PortalStep::CheckLogin)));
    let reply = answer("https://kundenportal.berlin-recycling.de/Default.aspx", "");
    assert!(matches!(
        after_request(PortalStep::CheckLogin, reply, &labels()),
        PortalAction::Send(PortalStep::Dashboard)
    ));
    let reply = answer("https://elsewhere.example/", "");
    assert!(matches!(after_request(PortalStep::Dashboard, reply, &labels()), PortalAction::Send(PortalStep::Calendar)));
    match after_request(PortalStep::Calendar, answer("https://elsewhere.example/", CALENDAR), &labels()) {
        PortalAction::Finish(pickups) => assert_eq!(pickups.len(), 2),
        other => panic!("{other:?}"),
    }
}

#[test]
fn a_failed_request_ends_the_session() {
    for step in [PortalStep::Open, PortalStep::Login, PortalStep::CheckLogin, PortalStep::Dashboard, PortalStep::Calendar] {
        match after_request(step, PortalReply::Failed("no route".to_string()), &labels()) {
            PortalAction::Fail(error) => {
                assert!(matches!(error, PortalError::Request(_)));
                assert_eq!(error.message(), "no route");
            }
            other => panic!("{other:?}"),
        }
    }
}

#[test]
fn only_the_login_looks_at_the_status() {
    let refused = || {
        PortalReply::Answered(PortalAnswer {
            status_error: Some("HTTP status client error (401 Unauthorized)".to_string()),
            url: "https://kundenportal.berlin-recycling.de/".to_string(),
            body: CALENDAR.to_string(),
        })
    };
    match after_request(PortalStep::Login, refused(), &labels()) {
        PortalAction::Fail(error) => assert_eq!(error.message(), "HTTP status client error (401 Unauthorized)"),
        other => panic!("{other:?}"),
    }
    assert!(matches!(after_request(PortalStep::Open, refused(), &labels()), PortalAction::Send(PortalStep::Login)));
    assert!(matches!(after_request(PortalStep::Calendar, refused(), &labels()), PortalAction::Finish(_)));
}

#[test]
fn a_login_that_leads_elsewhere_failed() {
    match after_request(PortalStep::CheckLogin, answer("https://login.example/?back=1", ""), &labels()) {
        PortalAction::Fail(error) => {
            assert!(matches!(error, PortalError::LoginFailed(_)));
            assert_eq!(error.message(), "Berlin Recycling login failed — redirected to https://login.example/?back=1");
        }
        other => panic!("{other:?}"),
    }
}

#[test]
fn the_host_decides_about_the_login() {
    let host = Some("kundenportal.berlin-recycling.de".to_string());
    assert!(matches!(judge_login(host, "x"), PortalAction::Send(PortalStep::Dashboard)));
    assert!(matches!(judge_login(Some("example.org".to_string()), "x"), PortalAction::Fail(_)));
    assert!(matches!(judge_login(None, "x"), PortalAction::Fail(_)));
}

#[test]
fn the_login_carries_the_account() {
    let request = PortalStep::Login.request(&account());
    assert_eq!(request.url, "https://kundenportal.berlin-recycling.de/Login.aspx/Auth");
    let fields = match request.body {
        RequestBody::PostFields(fields) => fields,
        other => panic!("{other:?}"),
    };
    assert_eq!(fields.len(), 4);
    assert!(matches!(&fields[0], (key, FieldValue::Text(value)) if key == "username" && value == "someone"));
    assert!(matches!(&fields[1], (key, FieldValue::Text(value)) if key == "password" && value == "something"));
    assert!(matches!(&fields[2], (key, FieldValue::Flag(false)) if key == "rememberMe"));
    assert!(matches!(&fields[3], (key, FieldValue::Flag(false)) if key == "encrypted"));
}

#[test]
fn the_other_requests_are_fixed() {
    let open = PortalStep::Open.request(&account());
    assert_eq!(open.url, "https://kundenportal.berlin-recycling.de/");
    assert!(matches!(open.body, RequestBody::Get));
    let check = PortalStep::CheckLogin.request(&account());
    assert_eq!(check.url, "https://kundenportal.berlin-recycling.de/Default.aspx");
    assert!(matches!(check.body, RequestBody::Get));
    let dashboard = PortalStep::Dashboard.request(&account());
    assert_eq!(dashboard.url, "https://kundenportal.berlin-recycling.de/Default.aspx/GetDashboard");
    assert!(matches!(dashboard.body, RequestBody::PostEmpty));
}

#[test]
fn the_calendar_is_asked_for_by_its_code() {
    let request = PortalStep::Calendar.request(&account());
    assert_eq!(request.url, "https://kundenportal.berlin-recycling.de/Default.aspx/GetDatasetTableHead");
    let fields = match request.body {
        RequestBody::PostFields(fields) => fields,
        other => panic!("{other:?}"),
    };
    let keys: Vec<&str> = fields.iter().map(|field| field.0.as_str()).collect();
    assert_eq!(
        keys,
        vec![
            "datasettablecode", "startindex", "searchtext", "rangefilter", "ordername", "orderdir", "ClientParameters",
            "headrecid",
        ]
    );
    assert!(matches!(&fields[0].1, FieldValue::Text(value) if value == "ABFUHRKALENDER"));
    assert!(matches!(&fields[1].1, FieldValue::Number(0)));
    assert!(matches!(&fields[3].1, FieldValue::Text(value) if value == "[]"));
    for at in [2, 4, 5, 6, 7] {
        assert!(matches!(&fields[at].1, FieldValue::Text(value) if value.is_empty()));
    }
}
