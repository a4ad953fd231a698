//! When things happen: the daily reminder, and how long the bot waits before it tries again.
use vstd::arithmetic::power2::{lemma2_to64, pow2};
use vstd::prelude::*;

use crate::date::{
    day_after, law_day_after_is_the_successor, law_order_follows_day_numbers, nanos_between, seconds_between,
    tomorrow_of, whole_seconds, Moment, MomentView,
};

verus! {

/// The second of the day at which the reminder goes out.
pub open spec fn reminder_second(hour: int, minute: int) -> int {
    hour * 3600 + minute * 60
}

/// The next moment at which the reminder goes out: today if its time is still to come, otherwise
/// tomorrow.
pub open spec fn next_reminder(now: MomentView, hour: int, minute: int) -> MomentView {
    MomentView {
        date: if now.second < reminder_second(hour, minute) {
            now.date
        } else {
            day_after(now.date)
        },
        second: reminder_second(hour, minute),
        nano: 0,
    }
}

/// How many seconds to wait until the next reminder.
pub open spec fn wait_for_reminder(now: MomentView, hour: int, minute: int) -> int {
    let seconds = whole_seconds(nanos_between(now, next_reminder(now, hour, minute)));
    if seconds < 0 {
        0
    } else {
        seconds
    }
}

/// How many seconds to wait until the next reminder.
pub fn seconds_until_reminder(now: &Moment, hour: u32, minute: u32) -> (r: u64)
    requires
        hour < 24,
        minute < 60,
        now@.date.is_last() ==> now@.second < reminder_second(hour as int, minute as int),
    ensures
        r == wait_for_reminder(now@, hour as int, minute as int),
{
    let target: u32 = hour * 3600 + minute * 60;
    let today = now.date();
    let date = if now.second() < target { today } else { tomorrow_of(&today) };
    match Moment::new(date, target, 0) {
        Some(next) => {
            let seconds = seconds_between(now, &next);
            if seconds < 0 {
                0
            } else {
                seconds as u64
            }
        },
        None => 0,
    }
}

/// The next reminder is ahead, by a day at most; and after the wait less than a second is left until
/// it, and it is not over yet. The leap second before midnight is left out for a reminder at
/// midnight: the difference of the two moments has no room for it.
pub proof fn law_wait_ends_just_before_the_reminder(now: MomentView, hour: int, minute: int)
    requires
        now.valid(),
        0 <= hour < 24,
        0 <= minute < 60,
        now.date.is_last() ==> now.second < reminder_second(hour, minute),
        !(now.in_leap_second() && now.second == 86399 && reminder_second(hour, minute) == 0),
    ensures
        ({
            let ahead = nanos_between(now, next_reminder(now, hour, minute));
            let wait = wait_for_reminder(now, hour, minute);
            &&& 0 < ahead <= 86400 * 1_000_000_000
            &&& 0 <= wait <= 86400
            &&& 0 <= ahead - wait * 1_000_000_000 < 1_000_000_000
        }),
{
    if !now.date.is_last() {
        law_day_after_is_the_successor(now.date);
    }
    assert(reminder_second(hour, minute) % 60 == 0);
}

/// The next reminder is the earliest moment after now at which the clock shows the time of the
/// reminder.
pub proof fn law_the_next_reminder_is_the_earliest(now: MomentView, hour: int, minute: int)
    requires
        now.valid(),
        0 <= hour < 24,
        0 <= minute < 60,
        now.date.is_last() ==> now.second < reminder_second(hour, minute),
    ensures
        ({
            let next = next_reminder(now, hour, minute);
            &&& next.valid()
            &&& now.before(next)
            &&& next.second == reminder_second(hour, minute) && next.nano == 0
            &&& forall|other: MomentView|
                other.valid() && other.second == next.second && other.nano == 0 && #[trigger] now.before(other)
                    ==> !other.before(next)
        }),
{
    let next = next_reminder(now, hour, minute);
    if !now.date.is_last() {
        law_day_after_is_the_successor(now.date);
        law_order_follows_day_numbers(now.date, day_after(now.date));
    }
    assert forall|other: MomentView|
        other.valid() && other.second == next.second && other.nano == 0 && #[trigger] now.before(
            other,
        ) implies !other.before(next) by {
        law_order_follows_day_numbers(now.date, other.date);
        law_order_follows_day_numbers(other.date, next.date);
    }
}

/// What the scheduler does.
#[derive(Clone, Copy, Debug, PartialEq, Eq, Structural)]
pub enum SchedulerAction {
    /// Send the next reminder now, and end.
    RemindOnce,
    /// Wait for so many seconds, send the reminder, and start again.
    WaitAndRemind(u64),
}

/// Decides what the scheduler does now.
pub fn scheduler_action(test_mode: bool, now: &Moment, hour: u32, minute: u32) -> (r: SchedulerAction)
    requires
        !test_mode ==> hour < 24 && minute < 60,
        !test_mode && now@.date.is_last() ==> now@.second < reminder_second(hour as int, minute as int),
    ensures
        test_mode ==> r == SchedulerAction::RemindOnce,
        !test_mode ==> (r matches SchedulerAction::WaitAndRemind(seconds) && seconds == wait_for_reminder(
            now@,
            hour as int,
            minute as int,
        )),
{
    if test_mode {
        SchedulerAction::RemindOnce
    } else {
        SchedulerAction::WaitAndRemind(seconds_until_reminder(now, hour, minute))
    }
}

/// How often the bot looks again for rooms that it is in.
pub const ROOM_TRIES: u32 = 60;

/// How long the bot waits before it looks again, in milliseconds.
pub const ROOM_WAIT: u64 = 500;

/// What to do about the rooms that a reminder goes to.
#[derive(Clone, Copy, Debug, PartialEq, Eq, Structural)]
pub enum RoomPoll {
    /// There are rooms.
    Ready,
    /// Wait for so many milliseconds and look again; so many tries are used up then.
    Again(u64, u32),
    /// There are no rooms, and there were none for long enough.
    GiveUp,
}

/// What to do about the rooms that a reminder goes to, after so many tries.
pub open spec fn room_poll(tries: int, rooms: int) -> RoomPoll {
    if rooms > 0 {
        RoomPoll::Ready
    } else if tries >= ROOM_TRIES {
        RoomPoll::GiveUp
    } else {
        RoomPoll::Again(ROOM_WAIT, (tries + 1) as u32)
    }
}

/// Decides what to do about the rooms that a reminder goes to.
pub fn poll_rooms(tries: u32, rooms: usize) -> (r: RoomPoll)
    ensures
        r == room_poll(tries as int, rooms as int),
{
    if rooms > 0 {
        RoomPoll::Ready
    } else if tries >= ROOM_TRIES {
        RoomPoll::GiveUp
    } else {
        RoomPoll::Again(ROOM_WAIT, tries + 1)
    }
}

/// How long the bot waits for rooms from a try on, in milliseconds, while there never are any.
pub open spec fn wait_for_rooms(tries: int) -> int
    decreases ROOM_TRIES - tries,
{
    match room_poll(tries, 0) {
        RoomPoll::Again(millis, next) => if tries < next <= ROOM_TRIES {
            millis + wait_for_rooms(next as int)
        } else {
            0
        },
        _ => 0,
    }
}

/// Without rooms the bot waits for half a minute from its first try on, and then gives up; each
/// try takes half a second off that.
pub proof fn law_rooms_are_awaited_for_half_a_minute(tries: int)
    requires
        0 <= tries <= ROOM_TRIES,
    ensures
        wait_for_rooms(tries) == 30_000 - 500 * tries,
        room_poll(ROOM_TRIES as int, 0) == RoomPoll::GiveUp,
        tries < ROOM_TRIES ==> room_poll(tries, 0) == RoomPoll::Again(500, (tries + 1) as u32),
    decreases ROOM_TRIES - tries,
{
    if tries < ROOM_TRIES {
        law_rooms_are_awaited_for_half_a_minute(tries + 1);
    }
}

/// How long the bot waits after its first failed attempt to join a room, in seconds.
pub const FIRST_JOIN_DELAY: u64 = 2;

/// How long the bot waits at most between two attempts, in seconds.
pub const LONGEST_JOIN_DELAY: u64 = 3600;

/// What to do after an attempt to join a room.
#[derive(Clone, Copy, Debug, PartialEq, Eq, Structural)]
pub enum JoinStep {
    /// The bot is in.
    Joined,
    /// Wait for the first number of seconds and try again; the second is the next wait.
    Retry(u64, u64),
}

/// The wait that follows a wait: twice as long, but an hour at most.
pub open spec fn next_join_delay(delay: int) -> int {
    if delay * 2 < LONGEST_JOIN_DELAY {
        delay * 2
    } else {
        LONGEST_JOIN_DELAY as int
    }
}

/// Decides what to do after an attempt to join a room.
pub fn after_join_attempt(joined: bool, delay: u64) -> (r: JoinStep)
    requires
        delay <= LONGEST_JOIN_DELAY,
    ensures
        joined ==> r == JoinStep::Joined,
        !joined ==> (r matches JoinStep::Retry(wait, next) && wait == delay && next == next_join_delay(delay as int)
            && next <= LONGEST_JOIN_DELAY),
{
    if joined {
        JoinStep::Joined
    } else if delay * 2 < LONGEST_JOIN_DELAY {
        JoinStep::Retry(delay, delay * 2)
    } else {
        JoinStep::Retry(delay, LONGEST_JOIN_DELAY)
    }
}

/// The wait after so many failed attempts before.
pub open spec fn join_delay(failures: nat) -> int
    decreases failures,
{
    if failures == 0 {
        FIRST_JOIN_DELAY as int
    } else {
        next_join_delay(join_delay((failures - 1) as nat))
    }
}

/// The waits between attempts double, from two seconds up to an hour, and stay there.
pub proof fn law_join_delays_double_up_to_an_hour(failures: nat)
    ensures
        join_delay(failures) == if failures <= 10 { pow2(failures + 1) as int } else { 3600 },
        2 <= join_delay(failures) <= 3600,
        join_delay(failures) <= join_delay(failures + 1),
    decreases failures,
{
    lemma2_to64();
    if failures > 0 {
        law_join_delays_double_up_to_an_hour((failures - 1) as nat);
    }
}

/// The next reminder is at the hour and the minute of the reminder on the clock, with no seconds: on
/// this day if the clock has not come to them, and otherwise on the day that follows.
pub proof fn law_the_next_reminder_is_at_its_time_on_the_clock(now: MomentView, hour: int, minute: int)
    requires
        now.valid(),
        0 <= hour < 24,
        0 <= minute < 60,
        now.date.is_last() ==> now.second / 3600 < hour || (now.second / 3600 == hour && now.second % 3600 / 60
            < minute),
    ensures
        ({
            let next = next_reminder(now, hour, minute);
            let is_to_come = now.second / 3600 < hour || (now.second / 3600 == hour && now.second % 3600 / 60 < minute);
            &&& next.second / 3600 == hour
            &&& next.second % 3600 / 60 == minute
            &&& next.second % 60 == 0
            &&& next.nano == 0
            &&& is_to_come ==> next.date == now.date
            &&& !is_to_come ==> next.date.valid() && next.date.day_number() == now.date.day_number() + 1
        }),
{
    if !now.date.is_last() {
        law_day_after_is_the_successor(now.date);
    }
}

/// The wait is the whole seconds from now to the hour and the minute of the reminder, today if the
/// clock has not come to them and tomorrow otherwise. A leap second that is still running counts
/// where the reminder is later today; there is no wait where nothing is left.
pub proof fn law_the_wait_in_numbers(now: MomentView, hour: int, minute: int)
    requires
        now.valid(),
        0 <= hour < 24,
        0 <= minute < 60,
        now.date.is_last() ==> now.second < hour * 3600 + minute * 60,
    ensures
        ({
            let target = hour * 3600 + minute * 60;
            let seconds: int = if now.second < target { target - now.second } else { 86400 + target - now.second };
            let leap: int = if now.nano >= 1_000_000_000 && now.second < target { 1 } else { 0 };
            let ahead = (seconds + leap) * 1_000_000_000 - now.nano;
            let wait = wait_for_reminder(now, hour, minute);
            &&& ahead >= 0 ==> wait * 1_000_000_000 <= ahead < (wait + 1) * 1_000_000_000
            &&& ahead < 0 ==> wait == 0
        }),
{
    if !now.date.is_last() {
        law_day_after_is_the_successor(now.date);
    }
}

/// Rooms that are there are ready, however often the bot has looked; without any it looks again half
/// a second later, up to sixty times.
pub proof fn law_rooms_are_taken_when_they_are_there(tries: u32, rooms: usize)
    ensures
        room_poll(tries as int, rooms as int) == RoomPoll::Ready <==> rooms >= 1,
        room_poll(tries as int, rooms as int) == RoomPoll::GiveUp <==> rooms == 0 && tries >= 60,
        rooms == 0 && tries < 60 ==> room_poll(tries as int, rooms as int) == RoomPoll::Again(500, (tries + 1) as u32),
{
}

/// The wait after a wait is twice as long, or an hour where that would be more than an hour.
pub proof fn law_a_wait_is_followed_by_twice_the_wait(delay: int)
    ensures
        2 * delay <= 3600 ==> next_join_delay(delay) == 2 * delay,
        2 * delay > 3600 ==> next_join_delay(delay) == 3600,
        join_delay(0) == 2,
{
}

} // verus!
