use garbage_bot::access::{
    access_policy, admit_verification, already_verified, collect_users, decide_invite, decide_reset, handle_message,
    on_request_event, on_sas_event, read_reset_command, read_users, start_request, start_sas, AccessPolicy, Admission,
    InviteDecision, MessageKind, MessageOutcome, RequestAction, RequestEvent, SasAction, SasEvent,
};
use garbage_bot::config::{EncryptionStrategy, SecurityConfig};
use garbage_bot::tables::TextSet;

fn texts(texts: &[&str]) -> Vec<String> {
    texts.iter().map(|text| text.to_string()).collect()
}

fn policy(admins: &[&str], inviters: &[&str]) -> AccessPolicy {
    let security = SecurityConfig {
        admin_users: texts(admins),
        allowed_inviters: texts(inviters),
        encryption_strategy: EncryptionStrategy::OnlyTrusted,
    };
    access_policy("@bot:example.org", &security).unwrap()
}

fn message(body: &str) -> MessageKind {
    MessageKind::Text(body.to_string())
}

#[test]
fn texts_that_are_no_users_are_left_out() {
    let users = read_users(&texts(&["@ada:example.org", "ada", "", "@zoe:example.org", "#room:example.org"]));
    assert!(users.contains("@ada:example.org"));
    assert!(users.contains("@zoe:example.org"));
    assert!(!users.contains("ada"));
    assert!(!users.contains("#room:example.org"));
    assert!(read_users(&texts(&["ada"])).is_empty());
}

#[test]
fn users_are_collected_from_what_was_read() {
    let users = collect_users(&vec![Ok("a".to_string()), Err("b".to_string()), Ok("a".to_string())]);
    assert!(users.contains("a"));
    assert!(!users.contains("b"));
}

#[test]
fn the_bot_has_a_user_id() {
    let policy = policy(&["@ada:example.org"], &[]);
    assert_eq!(policy.bot_user, "@bot:example.org");
    assert!(policy.admin_users.contains("@ada:example.org"));
    assert!(policy.allowed_inviters.is_empty());
    match access_policy("bot", &SecurityConfig::default()) {
        Err(message) => assert_eq!(message, "leading sigil is incorrect or missing"),
        Ok(_) => panic!("not a user id"),
    }
}

#[test]
fn anyone_may_invite_where_nobody_is_named() {
    let policy = policy(&[], &[]);
    assert_eq!(decide_invite(&policy, "@bot:example.org", "@eve:example.org"), InviteDecision::Accept);
    assert_eq!(decide_invite(&policy, "@ada:example.org", "@eve:example.org"), InviteDecision::Ignore);
}

#[test]
fn only_those_who_are_named_may_invite() {
    let policy = policy(&[], &["@ada:example.org"]);
    assert_eq!(decide_invite(&policy, "@bot:example.org", "@ada:example.org"), InviteDecision::Accept);
    assert_eq!(decide_invite(&policy, "@bot:example.org", "@eve:example.org"), InviteDecision::Refuse);
    assert_eq!(decide_invite(&policy, "@eve:example.org", "@eve:example.org"), InviteDecision::Ignore);
}

#[test]
fn the_reset_command_names_its_target() {
    assert_eq!(read_reset_command("  !reset-trust   @eve:example.org \n").as_deref(), Some("@eve:example.org"));
    assert_eq!(read_reset_command("!reset-trust x y").as_deref(), Some("x y"));
    assert_eq!(read_reset_command("!reset-trust"), None);
    assert_eq!(read_reset_command("!reset-trust "), None);
    assert_eq!(read_reset_command("please !reset-trust x"), None);
    assert_eq!(read_reset_command("!RESET-TRUST x"), None);
}

#[test]
fn admins_reset_trust() {
    let policy = policy(&["@ada:example.org"], &[]);
    let mut resets = TextSet::new();
    let outcome =
        handle_message(&policy, &mut resets, message("!reset-trust @eve:example.org"), "@ada:example.org", true);
    assert!(matches!(outcome, MessageOutcome::ResetAllowed(user) if user == "@eve:example.org"));
    assert!(resets.contains("@eve:example.org"));
}

#[test]
fn others_do_not_reset_trust() {
    let policy = policy(&["@ada:example.org"], &[]);
    let mut resets = TextSet::new();
    let outcome =
        handle_message(&policy, &mut resets, message("!reset-trust @eve:example.org"), "@eve:example.org", true);
    assert!(matches!(outcome, MessageOutcome::NotAdmin));
    assert!(resets.is_empty());
}

#[test]
fn a_reset_needs_a_user() {
    let policy = policy(&["@ada:example.org"], &[]);
    let mut resets = TextSet::new();
    let outcome = handle_message(&policy, &mut resets, message("!reset-trust  eve "), "@ada:example.org", true);
    assert!(matches!(outcome, MessageOutcome::InvalidTarget(text) if text == "eve"));
    assert!(resets.is_empty());
}

#[test]
fn the_bot_ignores_itself_and_rooms_that_it_is_not_in() {
    let policy = policy(&["@ada:example.org", "@bot:example.org"], &[]);
    let mut resets = TextSet::new();
    let command = || message("!reset-trust @eve:example.org");
    let outcome = handle_message(&policy, &mut resets, command(), "@bot:example.org", true);
    assert!(matches!(outcome, MessageOutcome::Ignored));
    let outcome = handle_message(&policy, &mut resets, command(), "@ada:example.org", false);
    assert!(matches!(outcome, MessageOutcome::Ignored));
    let outcome = handle_message(&policy, &mut resets, message("hello"), "@ada:example.org", true);
    assert!(matches!(outcome, MessageOutcome::Ignored));
    let outcome = handle_message(&policy, &mut resets, MessageKind::Other, "@ada:example.org", true);
    assert!(matches!(outcome, MessageOutcome::Ignored));
    assert!(resets.is_empty());
}

#[test]
fn a_verification_request_is_taken_from_anyone() {
    let policy = policy(&[], &[]);
    let mut resets = TextSet::new();
    let outcome = handle_message(&policy, &mut resets, MessageKind::VerificationRequest, "@bot:example.org", false);
    assert!(matches!(outcome, MessageOutcome::StartVerification));
}

#[test]
fn resets_are_decided_by_what_was_read() {
    let target = || Some("x".to_string());
    assert!(matches!(decide_reset(true, None, Ok("x".to_string())), MessageOutcome::Ignored));
    assert!(matches!(decide_reset(false, target(), Ok("x".to_string())), MessageOutcome::NotAdmin));
    assert!(matches!(decide_reset(true, target(), Err("no".to_string())), MessageOutcome::InvalidTarget(_)));
    assert!(matches!(decide_reset(true, target(), Ok("x".to_string())), MessageOutcome::ResetAllowed(_)));
}

#[test]
fn one_verified_device_is_enough() {
    assert!(already_verified(&Some(vec![false, true, false])));
    assert!(!already_verified(&Some(vec![false, false])));
    assert!(!already_verified(&Some(vec![])));
    assert!(!already_verified(&None));
}

#[test]
fn a_reset_is_used_once() {
    let mut resets = TextSet::new();
    assert_eq!(admit_verification(&mut resets, "@eve:example.org", false), Admission::Accept);
    assert_eq!(admit_verification(&mut resets, "@eve:example.org", true), Admission::Refuse);
    resets.insert("@eve:example.org".to_string());
    assert_eq!(admit_verification(&mut resets, "@ada:example.org", true), Admission::Refuse);
    assert_eq!(admit_verification(&mut resets, "@eve:example.org", false), Admission::Accept);
    assert_eq!(admit_verification(&mut resets, "@eve:example.org", true), Admission::AcceptReset);
    assert_eq!(admit_verification(&mut resets, "@eve:example.org", true), Admission::Refuse);
}

#[test]
fn no_verification_goes_beyond_the_resets() {
    let policy = policy(&["@ada:example.org"], &[]);
    let mut resets = TextSet::new();
    let mut used = 0;
    let command = || message("!reset-trust @eve:example.org");
    handle_message(&policy, &mut resets, command(), "@ada:example.org", true);
    handle_message(&policy, &mut resets, command(), "@ada:example.org", true);
    handle_message(&policy, &mut resets, command(), "@eve:example.org", true);
    for _ in 0..4 {
        if admit_verification(&mut resets, "@eve:example.org", true) == Admission::AcceptReset {
            used += 1;
        }
    }
    assert_eq!(used, 1);
}

fn request_actions(admission: Admission, events: &[RequestEvent]) -> Vec<RequestAction> {
    let (mut phase, action) = start_request(admission);
    let mut actions = vec![action];
    for event in events {
        let (next, action) = on_request_event(phase, *event);
        phase = next;
        actions.push(action);
    }
    actions
}

fn sas_actions(events: &[SasEvent]) -> Vec<SasAction> {
    let (mut phase, action) = start_sas();
    let mut actions = vec![action];
    for event in events {
        let (next, action) = on_sas_event(phase, *event);
        phase = next;
        actions.push(action);
    }
    actions
}

#[test]
fn a_request_is_accepted_and_followed_to_the_strings() {
    for admission in [Admission::Accept, Admission::AcceptReset] {
        let events = [
            RequestEvent::Accepted(true),
            RequestEvent::Other,
            RequestEvent::OtherMethod,
            RequestEvent::ShortStrings,
            RequestEvent::ShortStrings,
        ];
        assert_eq!(
            request_actions(admission, &events),
            vec![
                RequestAction::Accept,
                RequestAction::Wait,
                RequestAction::Wait,
                RequestAction::Wait,
                RequestAction::Compare,
                RequestAction::Stop,
            ]
        );
    }
}

#[test]
fn a_refused_request_is_cancelled() {
    assert_eq!(
        request_actions(Admission::Refuse, &[RequestEvent::Accepted(true), RequestEvent::ShortStrings]),
        vec![RequestAction::Cancel, RequestAction::Stop, RequestAction::Stop]
    );
}

#[test]
fn a_request_that_cannot_be_accepted_is_left_alone() {
    assert_eq!(
        request_actions(Admission::Accept, &[RequestEvent::Accepted(false), RequestEvent::ShortStrings]),
        vec![RequestAction::Accept, RequestAction::Stop, RequestAction::Stop]
    );
}

#[test]
fn a_request_that_is_over_is_left_alone() {
    for end in [RequestEvent::Done, RequestEvent::Cancelled, RequestEvent::Ended] {
        assert_eq!(
            request_actions(Admission::Accept, &[RequestEvent::Accepted(true), end]),
            vec![RequestAction::Accept, RequestAction::Wait, RequestAction::Stop]
        );
    }
}

#[test]
fn strings_are_not_compared_before_the_request_is_accepted() {
    assert_eq!(
        request_actions(Admission::Accept, &[RequestEvent::ShortStrings]),
        vec![RequestAction::Accept, RequestAction::Wait]
    );
}

#[test]
fn a_comparison_is_accepted_and_then_confirmed() {
    let events = [
        SasEvent::Accepted(true),
        SasEvent::Other,
        SasEvent::KeysExchanged,
        SasEvent::Confirmed(true),
        SasEvent::Done,
        SasEvent::KeysExchanged,
    ];
    assert_eq!(
        sas_actions(&events),
        vec![
            SasAction::Accept,
            SasAction::Wait,
            SasAction::Wait,
            SasAction::Confirm,
            SasAction::Wait,
            SasAction::Stop,
            SasAction::Stop,
        ]
    );
}

#[test]
fn keys_that_are_exchanged_again_are_confirmed_again() {
    let events = [
        SasEvent::Accepted(true),
        SasEvent::KeysExchanged,
        SasEvent::Confirmed(true),
        SasEvent::KeysExchanged,
        SasEvent::Confirmed(false),
    ];
    assert_eq!(
        sas_actions(&events),
        vec![
            SasAction::Accept,
            SasAction::Wait,
            SasAction::Confirm,
            SasAction::Wait,
            SasAction::Confirm,
            SasAction::Stop,
        ]
    );
}

#[test]
fn a_comparison_that_cannot_be_accepted_is_left_alone() {
    assert_eq!(
        sas_actions(&[SasEvent::Accepted(false), SasEvent::KeysExchanged]),
        vec![SasAction::Accept, SasAction::Stop, SasAction::Stop]
    );
    assert_eq!(sas_actions(&[SasEvent::KeysExchanged]), vec![SasAction::Accept, SasAction::Wait]);
}

#[test]
fn a_comparison_that_is_over_is_left_alone() {
    for end in [SasEvent::Done, SasEvent::Cancelled, SasEvent::Ended] {
        assert_eq!(
            sas_actions(&[SasEvent::Accepted(true), end]),
            vec![SasAction::Accept, SasAction::Wait, SasAction::Stop]
        );
    }
}
