use garbage_bot::config::{
    default_reminder_time, read_arguments, read_reminder_time, schedule_source, store_path, BsrConfig, ConfigError,
    EncryptionStrategy, ReminderConfig, ScheduleSource, SecurityConfig,
};
use garbage_bot::numbers::{decimal_text, parse_number, signed_decimal_text, two_digit_text, NumberError};

fn arguments(texts: &[&str]) -> Vec<String> {
    texts.iter().map(|text| text.to_string()).collect()
}

fn at(time: &str) -> Result<(u32, u32), ConfigError> {
    read_reminder_time(&ReminderConfig { reminder_time: time.to_string() })
}

fn bsr(id: Option<&str>, street: Option<&str>, number: Option<&str>, plz: Option<&str>) -> BsrConfig {
    BsrConfig {
        schedule_id: id.map(str::to_string),
        street: street.map(str::to_string),
        number: number.map(str::to_string),
        plz: plz.map(str::to_string),
    }
}

#[test]
fn reminder_time_defaults_to_eight_in_the_evening() {
    assert_eq!(default_reminder_time(), "20:00");
    assert_eq!(ReminderConfig::default().reminder_time, "20:00");
    assert_eq!(read_reminder_time(&ReminderConfig::default()).unwrap(), (20, 0));
}

#[test]
fn security_defaults_trust_nobody_in_particular() {
    let security = SecurityConfig::default();
    assert!(security.admin_users.is_empty());
    assert!(security.allowed_inviters.is_empty());
    assert_eq!(security.encryption_strategy, EncryptionStrategy::IdentityBased);
    assert_eq!(EncryptionStrategy::default(), EncryptionStrategy::IdentityBased);
}

#[test]
fn command_line_defaults() {
    let launch = read_arguments(&arguments(&["garbage-bot"]));
    assert!(!launch.test_mode);
    assert_eq!(launch.config_path, "config.toml");
}

#[test]
fn command_line_takes_the_first_configuration() {
    let launch = read_arguments(&arguments(&["garbage-bot", "first.toml", "--test", "second.toml"]));
    assert!(launch.test_mode);
    assert_eq!(launch.config_path, "first.toml");
}

#[test]
fn command_line_wants_whole_words() {
    let launch = read_arguments(&arguments(&["garbage-bot", "--testing", "config.toml.bak", ".toml"]));
    assert!(!launch.test_mode);
    assert_eq!(launch.config_path, ".toml");
}

#[test]
fn store_path_comes_from_the_environment() {
    assert_eq!(store_path(None), "store");
    assert_eq!(store_path(Some("/var/lib/bot".to_string())), "/var/lib/bot");
}

#[test]
fn a_configured_schedule_wins_over_an_address() {
    match schedule_source(bsr(Some("4711"), Some("Allee"), Some("1"), None)) {
        Ok(ScheduleSource::Known(id)) => assert_eq!(id, "4711"),
        other => panic!("{other:?}"),
    }
}

#[test]
fn an_address_is_looked_up() {
    match schedule_source(bsr(None, Some("Allee"), Some("1a"), Some("10115"))) {
        Ok(ScheduleSource::Lookup(lookup)) => {
            assert_eq!(lookup.street, "Allee");
            assert_eq!(lookup.number, "1a");
            assert_eq!(lookup.plz.as_deref(), Some("10115"));
        }
        other => panic!("{other:?}"),
    }
}

#[test]
fn half_an_address_is_an_error() {
    for config in [bsr(None, None, None, None), bsr(None, Some("Allee"), None, None), bsr(None, None, Some("1"), None)] {
        match schedule_source(config) {
            Err(error) => {
                assert!(matches!(error, ConfigError::NoAddress));
                assert_eq!(error.message(), "Config: set [bsr] schedule_id OR street + number");
            }
            other => panic!("{other:?}"),
        }
    }
}

#[test]
fn reminder_times_are_read() {
    assert_eq!(at("7:05").unwrap(), (7, 5));
    assert_eq!(at("07:05").unwrap(), (7, 5));
    assert_eq!(at("+7:5").unwrap(), (7, 5));
    assert_eq!(at("99:99").unwrap(), (99, 99));
}

#[test]
fn a_reminder_time_without_a_colon_is_an_error() {
    let error = at("2000").unwrap_err();
    assert!(matches!(error, ConfigError::ReminderTime(_)));
    assert_eq!(error.message(), "Invalid reminder_time: 2000");
}

#[test]
fn a_reminder_time_has_two_numbers() {
    assert!(matches!(at("x:00").unwrap_err(), ConfigError::Number(NumberError::InvalidDigit)));
    assert!(matches!(at("20:").unwrap_err(), ConfigError::Number(NumberError::Empty)));
    assert!(matches!(at("20:00:00").unwrap_err(), ConfigError::Number(NumberError::InvalidDigit)));
    assert_eq!(at(":").unwrap_err().message(), "cannot parse integer from empty string");
}

#[test]
fn written_times_read_back() {
    for (hour, minute) in [(0u32, 0u32), (9, 59), (23, 5), (4294967295, 0)] {
        let text = format!("{}:{}", two_digit_text(hour as u64), two_digit_text(minute as u64));
        assert_eq!(at(&text).unwrap(), (hour, minute));
    }
}

#[test]
fn numbers_are_read_as_std_reads_them() {
    let texts = [
        "", "+", "-", "0", "007", "+5", "-5", "++5", "5 ", "4294967295", "4294967296", "4294967295x", "4294967296x",
        "99999999999999999999", "x99999999999999999999", "٣", "12é",
    ];
    for text in texts {
        match (parse_number(text), text.parse::<u32>()) {
            (Ok(ours), Ok(std)) => assert_eq!(ours, std, "{text}"),
            (Err(ours), Err(std)) => assert_eq!(ours.message(), std.to_string(), "{text}"),
            other => panic!("{text}: {other:?}"),
        }
    }
    assert_eq!(parse_number(""), Err(NumberError::Empty));
    assert_eq!(parse_number("4294967296"), Err(NumberError::TooLarge));
    assert_eq!(parse_number("-1"), Err(NumberError::InvalidDigit));
}

#[test]
fn numbers_are_written_in_decimal() {
    assert_eq!(decimal_text(0), "0");
    assert_eq!(decimal_text(18446744073709551615), "18446744073709551615");
    assert_eq!(signed_decimal_text(-262143), "-262143");
    assert_eq!(signed_decimal_text(-2147483648), "-2147483648");
    assert_eq!(signed_decimal_text(2024), "2024");
    assert_eq!(two_digit_text(7), "07");
    assert_eq!(two_digit_text(12), "12");
    assert_eq!(two_digit_text(123), "123");
}
