//! What the bot is told at its start: the command line and the configuration.
use vstd::prelude::*;

use crate::bsr::ScheduleLookup;
use crate::numbers::{
    decimal, is_digit, law_written_numbers_read_back, number_in, parse_number, zero_padded, NumberError,
};
use crate::text::{ends_in, lemma_split_at_first, optional_text, same_text, split_at_first, split_once};

verus! {

/// Why the bot cannot work with its configuration.
#[derive(Debug)]
pub enum ConfigError {
    /// There is neither a schedule nor a full address.
    NoAddress,
    /// The reminder time has no colon in it.
    ReminderTime(String),
    /// The hour or the minute of the reminder time is no number.
    Number(NumberError),
}

/// A configuration error, by its texts.
pub enum ConfigErrorView {
    NoAddress,
    ReminderTime(Seq<char>),
    Number(NumberError),
}

impl View for ConfigError {
    type V = ConfigErrorView;

    open spec fn view(&self) -> ConfigErrorView {
        match self {
            ConfigError::NoAddress => ConfigErrorView::NoAddress,
            ConfigError::ReminderTime(text) => ConfigErrorView::ReminderTime(text@),
            ConfigError::Number(error) => ConfigErrorView::Number(*error),
        }
    }
}

impl ConfigErrorView {
    /// What the error says.
    pub open spec fn message(self) -> Seq<char> {
        match self {
            ConfigErrorView::NoAddress => "Config: set [bsr] schedule_id OR street + number"@,
            ConfigErrorView::ReminderTime(text) => "Invalid reminder_time: "@ + text,
            ConfigErrorView::Number(error) => error.message_spec(),
        }
    }
}

impl ConfigError {
    /// What the error says.
    pub fn message(&self) -> (text: String)
        ensures
            text@ == self@.message(),
    {
        match self {
            ConfigError::NoAddress => "Config: set [bsr] schedule_id OR street + number".to_owned(),
            ConfigError::ReminderTime(text) => {
                let mut message = "Invalid reminder_time: ".to_owned();
                message.append(text.as_str());
                message
            },
            ConfigError::Number(error) => error.message(),
        }
    }
}

/// What the command line asks for.
#[derive(Debug)]
pub struct Launch {
    /// Send the next reminder at once.
    pub test_mode: bool,
    /// The file that holds the configuration.
    pub config_path: String,
}

/// Whether the argument at `at` is the first one that ends in `.toml`.
pub open spec fn is_first_config_argument(arguments: Seq<String>, at: int) -> bool {
    &&& 0 <= at < arguments.len()
    &&& ".toml"@.is_suffix_of(arguments[at]@)
    &&& forall|i: int| 0 <= i < at ==> !".toml"@.is_suffix_of((#[trigger] arguments[i])@)
}

/// Reads the command line: `--test` anywhere turns test mode on, and the first argument that ends
/// in `.toml` names the configuration, which is `config.toml` otherwise.
pub fn read_arguments(arguments: &Vec<String>) -> (r: Launch)
    ensures
        r.test_mode <==> exists|i: int| 0 <= i < arguments@.len() && (#[trigger] arguments@[i])@ == "--test"@,
        forall|at: int| is_first_config_argument(arguments@, at) ==> r.config_path@ == (#[trigger] arguments@[at])@,
        (forall|at: int| !is_first_config_argument(arguments@, at)) ==> r.config_path@ == "config.toml"@,
{
    let mut test_mode = false;
    let mut config_path: Option<String> = None;
    let mut i: usize = 0;
    while i < arguments.len()
        invariant
            i <= arguments@.len(),
            test_mode <==> exists|j: int| 0 <= j < i && (#[trigger] arguments@[j])@ == "--test"@,
            config_path is None ==> forall|j: int| 0 <= j < i ==> !".toml"@.is_suffix_of((#[trigger] arguments@[j])@),
            config_path matches Some(path) ==> exists|at: int|
                is_first_config_argument(arguments@, at) && path@ == (#[trigger] arguments@[at])@,
        decreases arguments@.len() - i,
    {
        if same_text(arguments[i].as_str(), "--test") {
            test_mode = true;
        }
        if config_path.is_none() && ends_in(arguments[i].as_str(), ".toml") {
            config_path = Some(arguments[i].clone());
            assert(is_first_config_argument(arguments@, i as int));
        }
        i += 1;
    }
    match config_path {
        Some(path) => {
            proof {
                let first = choose|at: int|
                    is_first_config_argument(arguments@, at) && path@ == (#[trigger] arguments@[at])@;
                assert forall|at: int| is_first_config_argument(arguments@, at) implies path@ == (
                #[trigger] arguments@[at])@ by {
                    if at < first {
                        assert(!".toml"@.is_suffix_of(arguments@[at]@));
                    } else if first < at {
                        assert(!".toml"@.is_suffix_of(arguments@[first]@));
                    }
                }
            }
            Launch { test_mode, config_path: path }
        },
        None => Launch { test_mode, config_path: "config.toml".to_owned() },
    }
}

/// Where the bot keeps its state: what the environment says, or `store`.
pub fn store_path(variable: Option<String>) -> (path: String)
    ensures
        path@ == match variable {
            Some(value) => value@,
            None => "store"@,
        },
{
    match variable {
        Some(value) => value,
        None => "store".to_owned(),
    }
}

/// The address that pickups are looked up for.
#[derive(Debug)]
pub struct BsrConfig {
    pub schedule_id: Option<String>,
    pub street: Option<String>,
    pub number: Option<String>,
    pub plz: Option<String>,
}

/// Where the id of the pickup schedule comes from.
#[derive(Debug)]
pub enum ScheduleSource {
    /// The configuration names it.
    Known(String),
    /// It has to be looked up by the address.
    Lookup(ScheduleLookup),
}

/// Decides where the id of the pickup schedule comes from: the configured id if there is one,
/// otherwise street and number, which then both have to be there.
pub fn schedule_source(config: BsrConfig) -> (r: Result<ScheduleSource, ConfigError>)
    ensures
        match (optional_text(config.schedule_id), optional_text(config.street), optional_text(config.number)) {
            (Some(id), _, _) => r matches Ok(ScheduleSource::Known(known)) && known@ == id,
            (None, Some(street), Some(number)) => r matches Ok(ScheduleSource::Lookup(lookup)) && lookup.street@
                == street && lookup.number@ == number && optional_text(lookup.plz) == optional_text(config.plz),
            _ => r matches Err(error) && error@ == ConfigErrorView::NoAddress,
        },
{
    match config.schedule_id {
        Some(id) => Ok(ScheduleSource::Known(id)),
        None => match (config.street, config.number) {
            (Some(street), Some(number)) => Ok(
                ScheduleSource::Lookup(ScheduleLookup { street, number, plz: config.plz }),
            ),
            _ => Err(ConfigError::NoAddress),
        },
    }
}

/// The portal account of Berlin Recycling.
#[derive(Debug)]
pub struct BerlinRecyclingConfig {
    pub username: String,
    pub password: String,
}

/// When the reminder goes out.
#[derive(Debug)]
pub struct ReminderConfig {
    pub reminder_time: String,
}

/// The time of the reminder where none is configured.
pub fn default_reminder_time() -> (r: String)
    ensures
        r@ == "20:00"@,
{
    "20:00".to_owned()
}

impl Default for ReminderConfig {
    fn default() -> (r: Self)
        ensures
            r.reminder_time@ == "20:00"@,
    {
        ReminderConfig { reminder_time: default_reminder_time() }
    }
}

/// Reading a time of day: the hour before the first colon, the minute behind it.
pub open spec fn time_in(text: Seq<char>) -> Result<(u32, u32), ConfigErrorView> {
    match split_at_first(text, ':') {
        None => Err(ConfigErrorView::ReminderTime(text)),
        Some(parts) => match (number_in(parts.0), number_in(parts.1)) {
            (Ok(hour), Ok(minute)) => Ok((hour, minute)),
            (Err(error), _) => Err(ConfigErrorView::Number(error)),
            (_, Err(error)) => Err(ConfigErrorView::Number(error)),
        },
    }
}

/// An hour and a minute that are written with a colon between them, with or without zeros before
/// either, read back as themselves.
pub proof fn law_written_times_read_back(hour: u32, minute: u32, width: nat)
    ensures
        time_in(
            zero_padded(decimal(hour as nat), width).push(':') + zero_padded(decimal(minute as nat), width),
        ) == Ok::<(u32, u32), ConfigErrorView>((hour, minute)),
{
    let before = zero_padded(decimal(hour as nat), width);
    let after = zero_padded(decimal(minute as nat), width);
    law_written_numbers_read_back(hour, width);
    law_written_numbers_read_back(minute, width);
    assert(!before.contains(':')) by {
        if before.contains(':') {
            let at = choose|i: int| 0 <= i < before.len() && before[i] == ':';
            assert(is_digit(before[at]));
        }
    }
    lemma_split_at_first(before, ':', after);
}

/// Reads the hour and the minute of the reminder time.
pub fn read_reminder_time(config: &ReminderConfig) -> (r: Result<(u32, u32), ConfigError>)
    ensures
        match r {
            Ok(time) => time_in(config.reminder_time@) == Ok::<(u32, u32), ConfigErrorView>(time),
            Err(error) => time_in(config.reminder_time@) == Err::<(u32, u32), ConfigErrorView>(error@),
        },
{
    match split_once(config.reminder_time.as_str(), ':') {
        None => Err(ConfigError::ReminderTime(config.reminder_time.clone())),
        Some((hour, minute)) => match parse_number(hour.as_str()) {
            Err(error) => Err(ConfigError::Number(error)),
            Ok(hour) => match parse_number(minute.as_str()) {
                Err(error) => Err(ConfigError::Number(error)),
                Ok(minute) => Ok((hour, minute)),
            },
        },
    }
}

/// Which devices of the room members get the keys of the bot's messages.
#[derive(Clone, Copy, Debug, PartialEq, Eq, Structural)]
pub enum EncryptionStrategy {
    AllDevices,
    IdentityBased,
    OnlyTrusted,
}

impl Default for EncryptionStrategy {
    fn default() -> (r: Self)
        ensures
            r == EncryptionStrategy::IdentityBased,
    {
        EncryptionStrategy::IdentityBased
    }
}

/// Whom the bot listens to.
#[derive(Debug)]
pub struct SecurityConfig {
    pub admin_users: Vec<String>,
    pub allowed_inviters: Vec<String>,
    pub encryption_strategy: EncryptionStrategy,
}

impl Default for SecurityConfig {
    fn default() -> (r: Self)
        ensures
            r.admin_users@ == Seq::<String>::empty(),
            r.allowed_inviters@ == Seq::<String>::empty(),
            r.encryption_strategy == EncryptionStrategy::IdentityBased,
    {
        SecurityConfig {
            admin_users: Vec::new(),
            allowed_inviters: Vec::new(),
            encryption_strategy: EncryptionStrategy::default(),
        }
    }
}

/// The argument that names the configuration is the first of those that end in `.toml`: it ends so, and
/// none before it does.
pub proof fn law_the_first_toml_argument_names_the_configuration(arguments: Seq<String>, at: int)
    ensures
        is_first_config_argument(arguments, at) <==> 0 <= at < arguments.len() && ".toml"@.is_suffix_of(
            arguments[at]@,
        ) && forall|i: int| 0 <= i < at ==> !".toml"@.is_suffix_of((#[trigger] arguments[i])@),
{
}

/// Where an argument ends in `.toml`, one is the first to do so.
proof fn lemma_first_config_argument(arguments: Seq<String>, found: int) -> (at: int)
    requires
        0 <= found < arguments.len(),
        ".toml"@.is_suffix_of(arguments[found]@),
    ensures
        is_first_config_argument(arguments, at),
    decreases found,
{
    if exists|i: int| 0 <= i < found && ".toml"@.is_suffix_of((#[trigger] arguments[i])@) {
        let earlier = choose|i: int| 0 <= i < found && ".toml"@.is_suffix_of((#[trigger] arguments[i])@);
        lemma_first_config_argument(arguments, earlier)
    } else {
        found
    }
}

/// There is an argument that names the configuration exactly when one ends in `.toml`.
pub proof fn law_any_toml_argument_will_do(arguments: Seq<String>)
    ensures
        (exists|at: int| is_first_config_argument(arguments, at)) <==> exists|i: int|
            0 <= i < arguments.len() && ".toml"@.is_suffix_of((#[trigger] arguments[i])@),
{
    if exists|i: int| 0 <= i < arguments.len() && ".toml"@.is_suffix_of((#[trigger] arguments[i])@) {
        let found = choose|i: int| 0 <= i < arguments.len() && ".toml"@.is_suffix_of((#[trigger] arguments[i])@);
        let at = lemma_first_config_argument(arguments, found);
        assert(is_first_config_argument(arguments, at));
    }
    if exists|at: int| is_first_config_argument(arguments, at) {
        let at = choose|at: int| is_first_config_argument(arguments, at);
        assert(".toml"@.is_suffix_of(arguments[at]@));
    }
}

/// A time is the number before the first colon and the number behind it. Where one is no number, the
/// first of them says why; without a colon the whole text is at fault.
pub proof fn law_a_time_is_the_numbers_around_its_colon(before: Seq<char>, after: Seq<char>)
    requires
        forall|i: int| 0 <= i < before.len() ==> #[trigger] before[i] != ':',
    ensures
        time_in(before) == Err::<(u32, u32), ConfigErrorView>(ConfigErrorView::ReminderTime(before)),
        ({
            let read = time_in(before.push(':') + after);
            &&& number_in(before) matches Err(error) ==> read == Err::<(u32, u32), ConfigErrorView>(
                ConfigErrorView::Number(error),
            )
            &&& number_in(before) matches Ok(hour) ==> {
                &&& number_in(after) matches Err(error) ==> read == Err::<(u32, u32), ConfigErrorView>(
                    ConfigErrorView::Number(error),
                )
                &&& number_in(after) matches Ok(minute) ==> read == Ok::<(u32, u32), ConfigErrorView>((hour, minute))
            }
        }),
{
    assert(!before.contains(':'));
    lemma_split_at_first(before, ':', after);
}

/// A configuration error says what is missing, or which time is at fault, or why a number is none; and
/// it is seen with what it holds.
pub proof fn law_a_configuration_error_says_what_is_wrong(error: ConfigError)
    ensures
        error is NoAddress ==> error@ == ConfigErrorView::NoAddress && error@.message()
            == "Config: set [bsr] schedule_id OR street + number"@,
        error matches ConfigError::ReminderTime(text) ==> error@ == ConfigErrorView::ReminderTime(text@)
            && error@.message() == "Invalid reminder_time: "@ + text@,
        error matches ConfigError::Number(reason) ==> error@ == ConfigErrorView::Number(reason) && error@.message()
            == reason.message_spec(),
{
}

} // verus!
