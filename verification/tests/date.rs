use garbage_bot::date::{tomorrow_of, Date, Moment};
use garbage_bot::schedule::{
    after_join_attempt, poll_rooms, scheduler_action, seconds_until_reminder, JoinStep, RoomPoll, SchedulerAction,
    FIRST_JOIN_DELAY, ROOM_TRIES,
};

fn day(year: i32, month: u32, day: u32) -> Date {
    Date::new(year, month, day).unwrap()
}

fn moment(date: Date, hour: u32, minute: u32, second: u32, nano: u32) -> Moment {
    Moment::new(date, hour * 3600 + minute * 60 + second, nano).unwrap()
}

#[test]
fn only_days_of_the_calendar_are_days() {
    assert!(Date::new(2024, 2, 29).is_some());
    assert!(Date::new(2023, 2, 29).is_none());
    assert!(Date::new(1900, 2, 29).is_none());
    assert!(Date::new(2000, 2, 29).is_some());
    assert!(Date::new(0, 2, 29).is_some());
    assert!(Date::new(-4, 2, 29).is_some());
    assert!(Date::new(-100, 2, 29).is_none());
    assert!(Date::new(2024, 4, 31).is_none());
    assert!(Date::new(2024, 0, 1).is_none());
    assert!(Date::new(2024, 13, 1).is_none());
    assert!(Date::new(2024, 1, 0).is_none());
    assert!(Date::new(262143, 1, 1).is_none());
    assert!(Date::new(-262144, 12, 31).is_none());
}

#[test]
fn days_are_those_of_chrono() {
    for year in [-262143, -1, 0, 1, 1900, 2000, 2023, 2024, 9999, 10000, 262142] {
        for month in 0..=13 {
            for number in 0..=32 {
                assert_eq!(
                    Date::new(year, month, number).is_some(),
                    chrono::NaiveDate::from_ymd_opt(year, month, number).is_some(),
                );
            }
        }
    }
}

#[test]
fn days_have_an_order() {
    assert!(day(2023, 12, 31).is_before(&day(2024, 1, 1)));
    assert!(day(2024, 1, 31).is_before(&day(2024, 2, 1)));
    assert!(day(2024, 2, 1).is_before(&day(2024, 2, 2)));
    assert!(!day(2024, 2, 2).is_before(&day(2024, 2, 2)));
    assert!(!day(2024, 2, 1).is_before(&day(2024, 1, 31)));
    assert!(day(2024, 2, 2).is_same(&day(2024, 2, 2)));
    assert!(!day(2024, 2, 2).is_same(&day(2024, 3, 2)));
    assert!(day(262142, 12, 31).is_last_day());
    assert!(!day(262142, 12, 30).is_last_day());
}

#[test]
fn tomorrow_is_the_next_day() {
    assert_eq!(tomorrow_of(&day(2024, 5, 1)), day(2024, 5, 2));
    assert_eq!(tomorrow_of(&day(2024, 2, 28)), day(2024, 2, 29));
    assert_eq!(tomorrow_of(&day(2023, 2, 28)), day(2023, 3, 1));
    assert_eq!(tomorrow_of(&day(2024, 12, 31)), day(2025, 1, 1));
    assert_eq!(tomorrow_of(&day(-1, 12, 31)), day(0, 1, 1));
    assert_eq!(tomorrow_of(&day(262142, 12, 30)), day(262142, 12, 31));
}

#[test]
fn only_moments_of_a_clock_are_moments() {
    let date = day(2024, 5, 1);
    assert!(Moment::new(date, 86399, 999_999_999).is_some());
    assert!(Moment::new(date, 86400, 0).is_none());
    assert!(Moment::new(date, 59, 1_999_999_999).is_some());
    assert!(Moment::new(date, 59, 2_000_000_000).is_none());
    assert!(Moment::new(date, 58, 1_000_000_000).is_none());
    let now = moment(date, 1, 2, 3, 4);
    assert_eq!(now.date(), date);
    assert_eq!(now.second(), 3723);
}

#[test]
fn the_wait_is_until_today_or_tomorrow() {
    let date = day(2024, 5, 1);
    assert_eq!(seconds_until_reminder(&moment(date, 19, 59, 30, 0), 20, 0), 30);
    assert_eq!(seconds_until_reminder(&moment(date, 20, 0, 0, 0), 20, 0), 86400);
    assert_eq!(seconds_until_reminder(&moment(date, 20, 0, 1, 0), 20, 0), 86399);
    assert_eq!(seconds_until_reminder(&moment(day(2024, 12, 31), 23, 0, 0, 0), 0, 0), 3600);
}

#[test]
fn parts_of_a_second_are_dropped_from_the_wait() {
    let date = day(2024, 5, 1);
    assert_eq!(seconds_until_reminder(&moment(date, 19, 59, 59, 500_000_000), 20, 0), 0);
    assert_eq!(seconds_until_reminder(&moment(date, 19, 59, 58, 1), 20, 0), 1);
    assert_eq!(seconds_until_reminder(&moment(date, 19, 59, 59, 1_500_000_000), 20, 0), 0);
    assert_eq!(seconds_until_reminder(&moment(date, 23, 59, 59, 1_500_000_000), 0, 0), 0);
}

#[test]
fn a_leap_second_is_part_of_the_wait() {
    let date = day(2024, 5, 1);
    assert_eq!(seconds_until_reminder(&moment(date, 19, 58, 59, 1_250_000_000), 20, 0), 60);
    assert_eq!(seconds_until_reminder(&moment(date, 20, 0, 59, 1_000_000_000), 20, 0), 86340);
}

#[test]
fn the_last_day_still_has_its_evening() {
    assert_eq!(seconds_until_reminder(&moment(day(262142, 12, 31), 19, 0, 0, 0), 20, 0), 3600);
}

#[test]
fn test_mode_reminds_once() {
    let now = moment(day(2024, 5, 1), 12, 0, 0, 0);
    assert_eq!(scheduler_action(true, &now, 99, 99), SchedulerAction::RemindOnce);
    assert_eq!(scheduler_action(false, &now, 20, 0), SchedulerAction::WaitAndRemind(28800));
}

#[test]
fn rooms_are_awaited_for_half_a_minute() {
    assert_eq!(poll_rooms(0, 1), RoomPoll::Ready);
    assert_eq!(poll_rooms(ROOM_TRIES, 1), RoomPoll::Ready);
    let mut tries: u32 = 0;
    let mut waited: u64 = 0;
    loop {
        match poll_rooms(tries, 0) {
            RoomPoll::Again(millis, next) => {
                waited += millis;
                tries = next;
            }
            RoomPoll::GiveUp => break,
            RoomPoll::Ready => panic!("no rooms"),
        }
    }
    assert_eq!(waited, 30_000);
    assert_eq!(tries, 60);
}

#[test]
fn join_attempts_become_rarer() {
    let mut delay = FIRST_JOIN_DELAY;
    let mut waits: Vec<u64> = Vec::new();
    for _ in 0..13 {
        match after_join_attempt(false, delay) {
            JoinStep::Retry(wait, next) => {
                waits.push(wait);
                delay = next;
            }
            JoinStep::Joined => panic!("joined"),
        }
    }
    assert_eq!(waits, vec![2, 4, 8, 16, 32, 64, 128, 256, 512, 1024, 2048, 3600, 3600]);
    assert_eq!(after_join_attempt(true, 64), JoinStep::Joined);
}
