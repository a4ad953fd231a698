//! Calendar days and moments of the proleptic Gregorian calendar.
use chrono::Datelike;
use vstd::prelude::*;

use crate::numbers::{decimal, law_a_number_is_written_digit_by_digit, zero_padded};

verus! {

/// A calendar day, in a year that chrono can hold.
#[derive(Clone, Copy, Debug, PartialEq, Eq, Structural)]
pub struct Date {
    year: i32,
    month: u32,
    day: u32,
}

/// A calendar day, by its numbers.
pub struct DateView {
    pub year: int,
    pub month: int,
    pub day: int,
}

impl View for Date {
    type V = DateView;

    closed spec fn view(&self) -> DateView {
        DateView { year: self.year as int, month: self.month as int, day: self.day as int }
    }
}

/// Whether a year has a 29th of February.
pub open spec fn is_leap_year(year: int) -> bool {
    year % 4 == 0 && (year % 100 != 0 || year % 400 == 0)
}

/// How many days a month has.
pub open spec fn days_in_month(year: int, month: int) -> int {
    if month == 2 {
        if is_leap_year(year) { 29 } else { 28 }
    } else if month == 4 || month == 6 || month == 9 || month == 11 {
        30
    } else {
        31
    }
}

/// How many days of a year pass before a month starts.
pub open spec fn days_before_month(year: int, month: int) -> int
    decreases month,
{
    if month <= 1 {
        0
    } else {
        days_before_month(year, month - 1) + days_in_month(year, month - 1)
    }
}

/// How many leap years there are from year 1 up to `year`; below year 1 they count negative.
pub open spec fn leap_years_until(year: int) -> int {
    year / 4 - year / 100 + year / 400
}

impl DateView {
    /// Whether there is such a day, in a year that chrono can hold.
    pub open spec fn valid(self) -> bool {
        &&& -262143 <= self.year <= 262142
        &&& 1 <= self.month <= 12
        &&& 1 <= self.day <= days_in_month(self.year, self.month)
    }

    /// Whether this is the last day that chrono can hold.
    pub open spec fn is_last(self) -> bool {
        self.year == 262142 && self.month == 12 && self.day == 31
    }

    /// The number of the day, where the first of January of year 1 is day 1.
    pub open spec fn day_number(self) -> int {
        365 * (self.year - 1) + leap_years_until(self.year - 1) + days_before_month(self.year, self.month) + self.day
    }

    /// Whether this day comes before `other`: by year, then month, then day.
    pub open spec fn before(self, other: DateView) -> bool {
        ||| self.year < other.year
        ||| self.year == other.year && self.month < other.month
        ||| self.year == other.year && self.month == other.month && self.day < other.day
    }

    /// The English name of the day of the week.
    pub open spec fn weekday_name(self) -> Seq<char> {
        let weekday = (self.day_number() - 1) % 7;
        if weekday == 0 {
            "Monday"@
        } else if weekday == 1 {
            "Tuesday"@
        } else if weekday == 2 {
            "Wednesday"@
        } else if weekday == 3 {
            "Thursday"@
        } else if weekday == 4 {
            "Friday"@
        } else if weekday == 5 {
            "Saturday"@
        } else {
            "Sunday"@
        }
    }

    /// The day as a reader sees it: the day of the week, then day, month and year.
    pub open spec fn long_form(self) -> Seq<char> {
        self.weekday_name() + ", "@ + zero_padded(decimal(self.day as nat), 2) + "."@
            + zero_padded(decimal(self.month as nat), 2) + "."@ + year_form(self.year)
    }
}

/// A year as chrono writes it: four digits, and a sign before them outside the years 0 to 9999.
pub open spec fn year_form(year: int) -> Seq<char> {
    if 0 <= year <= 9999 {
        zero_padded(decimal(year as nat), 4)
    } else if year < 0 {
        seq!['-'] + zero_padded(decimal((-year) as nat), 4)
    } else {
        seq!['+'] + zero_padded(decimal(year as nat), 4)
    }
}

impl Date {
    /// A `Date` is a day of the calendar.
    #[verifier::type_invariant]
    closed spec fn is_day(self) -> bool {
        self@.valid()
    }

    /// The day with these numbers, where there is one in a year that chrono can hold.
    pub fn new(year: i32, month: u32, day: u32) -> (r: Option<Date>)
        ensures
            r is Some <==> (DateView { year: year as int, month: month as int, day: day as int }).valid(),
            r matches Some(date) ==> date@ == (DateView { year: year as int, month: month as int, day: day as int }),
    {
        if -262143 <= year && year <= 262142 && 1 <= month && month <= 12 && 1 <= day && day <= length_of_month(
            year,
            month,
        ) {
            Some(Date { year, month, day })
        } else {
            None
        }
    }

    /// The year.
    pub fn year(&self) -> (r: i32)
        ensures
            r == self@.year,
            self@.valid(),
    {
        proof {
            use_type_invariant(self);
        }
        self.year
    }

    /// The month, from 1 on.
    pub fn month(&self) -> (r: u32)
        ensures
            r == self@.month,
            self@.valid(),
    {
        proof {
            use_type_invariant(self);
        }
        self.month
    }

    /// The day of the month, from 1 on.
    pub fn day(&self) -> (r: u32)
        ensures
            r == self@.day,
            self@.valid(),
    {
        proof {
            use_type_invariant(self);
        }
        self.day
    }

    /// Whether this is the last day that chrono can hold.
    pub fn is_last_day(&self) -> (r: bool)
        ensures
            r == self@.is_last(),
    {
        self.year == 262142 && self.month == 12 && self.day == 31
    }

    /// Whether this day comes before `other`.
    pub fn is_before(&self, other: &Date) -> (r: bool)
        ensures
            r == self@.before(other@),
    {
        self.year < other.year || (self.year == other.year && (self.month < other.month || (self.month
            == other.month && self.day < other.day)))
    }

    /// Whether this is the same day as `other`.
    pub fn is_same(&self, other: &Date) -> (r: bool)
        ensures
            r == (self@ == other@),
    {
        self.year == other.year && self.month == other.month && self.day == other.day
    }
}

/// How many days a month has.
fn length_of_month(year: i32, month: u32) -> (days: u32)
    requires
        -262143 <= year <= 262142,
    ensures
        days == days_in_month(year as int, month as int),
{
    if month == 2 {
        // Three hundred thousand years are a whole number of leap cycles.
        let shifted: u32 = (year + 300000) as u32;
        assert(shifted as int % 4 == year as int % 4);
        assert(shifted as int % 100 == year as int % 100);
        assert(shifted as int % 400 == year as int % 400);
        if shifted % 4 == 0 && (shifted % 100 != 0 || shifted % 400 == 0) {
            29
        } else {
            28
        }
    } else if month == 4 || month == 6 || month == 9 || month == 11 {
        30
    } else {
        31
    }
}

/// The day that chrono reads out of a text by a format, where it can read one.
pub uninterp spec fn parsed_date(text: Seq<char>, format: Seq<char>) -> Option<DateView>;

/// `chrono::NaiveDate::parse_from_str`: reads `text` by `format`. The result is the one that
/// `parsed_date` stands for; a day that comes out is a day of the calendar.
#[verifier::external_body]
pub(crate) fn parse_date(text: &str, format: &str) -> (r: Option<Date>)
    ensures
        r is Some <==> parsed_date(text@, format@) is Some,
        r matches Some(date) ==> parsed_date(text@, format@) == Some(date@) && date@.valid(),
{
    chrono::NaiveDate::parse_from_str(text, format)
        .ok()
        .map(|d| Date { year: d.year(), month: d.month(), day: d.day() })
}

/// `chrono::NaiveDate::format`, for the pattern of a day of the week, day, month and year: the
/// English name of the day of the week, and the numbers with zeros before them.
#[verifier::external_body]
pub(crate) fn format_date(date: &Date, pattern: &str) -> (text: String)
    requires
        pattern@ == "%A, %d.%m.%Y"@,
    ensures
        text@ == date@.long_form(),
{
    chrono::NaiveDate::from_ymd_opt(date.year, date.month, date.day).unwrap().format(pattern).to_string()
}

/// Adding one day, `chrono::Duration::days(1)`, to a `chrono::NaiveDate`: the day whose number is
/// one higher.
#[verifier::external_body]
pub(crate) fn following_day(date: &Date) -> (next: Date)
    requires
        !date@.is_last(),
    ensures
        next@.valid(),
        next@.day_number() == date@.day_number() + 1,
{
    let day = chrono::NaiveDate::from_ymd_opt(date.year, date.month, date.day).unwrap();
    let next = day + chrono::Duration::days(1);
    Date { year: next.year(), month: next.month(), day: next.day() }
}

/// A moment of a day: the second of the day, and the nanosecond in it. In the last second of a
/// minute the nanosecond may go beyond the second, which stands for a leap second.
#[derive(Clone, Copy, Debug)]
pub struct Moment {
    date: Date,
    second: u32,
    nano: u32,
}

/// A moment, by its numbers.
pub struct MomentView {
    pub date: DateView,
    pub second: int,
    pub nano: int,
}

impl View for Moment {
    type V = MomentView;

    closed spec fn view(&self) -> MomentView {
        MomentView { date: self.date@, second: self.second as int, nano: self.nano as int }
    }
}

impl MomentView {
    /// Whether a clock can show this moment.
    pub open spec fn valid(self) -> bool {
        &&& self.date.valid()
        &&& 0 <= self.second < 86400
        &&& 0 <= self.nano < 2_000_000_000
        &&& self.nano >= 1_000_000_000 ==> self.second % 60 == 59
    }

    /// Whether this moment comes before `other`: by day, then second, then nanosecond.
    pub open spec fn before(self, other: MomentView) -> bool {
        ||| self.date.before(other.date)
        ||| self.date == other.date && self.second < other.second
        ||| self.date == other.date && self.second == other.second && self.nano < other.nano
    }

    /// Whether this moment lies in a leap second.
    pub open spec fn in_leap_second(self) -> bool {
        self.nano >= 1_000_000_000
    }
}

impl Moment {
    /// A `Moment` is one that a clock can show.
    #[verifier::type_invariant]
    closed spec fn on_clock(self) -> bool {
        self@.valid()
    }

    /// The moment of a day, where a clock can show it.
    pub fn new(date: Date, second: u32, nano: u32) -> (r: Option<Moment>)
        ensures
            r is Some <==> second < 86400 && nano < 2_000_000_000 && (nano >= 1_000_000_000 ==> second % 60 == 59),
            r matches Some(moment) ==> moment@ == (MomentView {
                date: date@,
                second: second as int,
                nano: nano as int,
            }),
    {
        if second < 86400 && nano < 2_000_000_000 && (nano < 1_000_000_000 || second % 60 == 59) {
            proof {
                use_type_invariant(&date);
            }
            Some(Moment { date, second, nano })
        } else {
            None
        }
    }

    /// The day.
    pub fn date(&self) -> (r: Date)
        ensures
            r@ == self@.date,
    {
        self.date
    }

    /// The second of the day.
    pub fn second(&self) -> (r: u32)
        ensures
            r == self@.second,
            r < 86400,
    {
        proof {
            use_type_invariant(self);
        }
        self.second
    }
}

/// The leap second that lies between two moments, by their seconds of the day: the earlier moment
/// may be in it.
pub open spec fn leap_between(from: MomentView, to: MomentView) -> int {
    if to.second > from.second && from.in_leap_second() {
        1
    } else if to.second < from.second && to.in_leap_second() {
        -1
    } else {
        0
    }
}

/// How many nanoseconds pass from one moment to another.
pub open spec fn nanos_between(from: MomentView, to: MomentView) -> int {
    ((to.date.day_number() - from.date.day_number()) * 86400 + to.second - from.second + leap_between(from, to))
        * 1_000_000_000 + to.nano - from.nano
}

/// How many whole seconds there are in a number of nanoseconds; what is left over is dropped.
pub open spec fn whole_seconds(nanos: int) -> int {
    if nanos >= 0 {
        nanos / 1_000_000_000
    } else {
        -((-nanos) / 1_000_000_000)
    }
}

/// The difference of two moments as `chrono::NaiveDateTime` has it, in whole seconds, by
/// `chrono::TimeDelta::num_seconds`: the time between them, towards zero.
#[verifier::external_body]
pub(crate) fn seconds_between(from: &Moment, to: &Moment) -> (r: i64)
    ensures
        r == whole_seconds(nanos_between(from@, to@)),
{
    let start = chrono::NaiveDate::from_ymd_opt(from.date.year, from.date.month, from.date.day).unwrap();
    let end = chrono::NaiveDate::from_ymd_opt(to.date.year, to.date.month, to.date.day).unwrap();
    let start_time = chrono::NaiveTime::from_num_seconds_from_midnight_opt(from.second, from.nano).unwrap();
    let end_time = chrono::NaiveTime::from_num_seconds_from_midnight_opt(to.second, to.nano).unwrap();
    (end.and_time(end_time) - start.and_time(start_time)).num_seconds()
}

/// The day after a day.
pub open spec fn day_after(date: DateView) -> DateView {
    choose|next: DateView| next.valid() && next.day_number() == date.day_number() + 1
}

/// The day after a day.
pub fn tomorrow_of(today: &Date) -> (tomorrow: Date)
    requires
        !today@.is_last(),
    ensures
        tomorrow@ == day_after(today@),
        tomorrow@.valid(),
        tomorrow@.day_number() == today@.day_number() + 1,
{
    let tomorrow = following_day(today);
    proof {
        law_order_follows_day_numbers(tomorrow@, day_after(today@));
    }
    tomorrow
}

/// The quotient of a year grows by one in the years that the divisor divides.
proof fn lemma_quotient_step(year: int, divisor: int)
    requires
        divisor > 1,
    ensures
        year / divisor == (year - 1) / divisor + if year % divisor == 0 { 1int } else { 0 },
{
    let quotient = year / divisor;
    let rest = year % divisor;
    vstd::arithmetic::div_mod::lemma_fundamental_div_mod(year, divisor);
    vstd::arithmetic::div_mod::lemma_mod_bound(year, divisor);
    assert(divisor * (quotient - 1) == divisor * quotient - divisor) by (nonlinear_arith);
    assert(divisor * quotient == quotient * divisor) by (nonlinear_arith);
    assert(divisor * (quotient - 1) == (quotient - 1) * divisor) by (nonlinear_arith);
    if rest == 0 {
        vstd::arithmetic::div_mod::lemma_fundamental_div_mod_converse(year - 1, divisor, quotient - 1, divisor - 1);
    } else {
        vstd::arithmetic::div_mod::lemma_fundamental_div_mod_converse(year - 1, divisor, quotient, rest - 1);
    }
}

/// What four hundred divides, a hundred divides, and what a hundred divides, four divides.
proof fn lemma_centuries(year: int)
    ensures
        year % 100 == 0 ==> year % 4 == 0,
        year % 400 == 0 ==> year % 100 == 0,
{
}

/// The leap years up to a year grow by one with each leap year.
proof fn lemma_leap_years_step(year: int)
    ensures
        leap_years_until(year) == leap_years_until(year - 1) + if is_leap_year(year) { 1int } else { 0 },
{
    lemma_quotient_step(year, 4);
    lemma_quotient_step(year, 100);
    lemma_quotient_step(year, 400);
    lemma_centuries(year);
}

/// The leap years up to a year never become fewer.
proof fn lemma_leap_years_grow(from: int, to: int)
    requires
        from <= to,
    ensures
        leap_years_until(from) <= leap_years_until(to),
    decreases to - from,
{
    if from < to {
        lemma_leap_years_grow(from, to - 1);
        lemma_leap_years_step(to);
    }
}

/// The days before a month, written out.
proof fn lemma_days_before_month(year: int)
    ensures
        ({
            let leap = if is_leap_year(year) { 1int } else { 0 };
            &&& days_before_month(year, 1) == 0
            &&& days_before_month(year, 2) == 31
            &&& days_before_month(year, 3) == 59 + leap
            &&& days_before_month(year, 4) == 90 + leap
            &&& days_before_month(year, 5) == 120 + leap
            &&& days_before_month(year, 6) == 151 + leap
            &&& days_before_month(year, 7) == 181 + leap
            &&& days_before_month(year, 8) == 212 + leap
            &&& days_before_month(year, 9) == 243 + leap
            &&& days_before_month(year, 10) == 273 + leap
            &&& days_before_month(year, 11) == 304 + leap
            &&& days_before_month(year, 12) == 334 + leap
        }),
{
    reveal_with_fuel(days_before_month, 13);
}

/// A day that comes before another by year, month and day has the lower number.
proof fn lemma_before_is_lower(a: DateView, b: DateView)
    requires
        a.valid(),
        b.valid(),
        a.before(b),
    ensures
        a.day_number() < b.day_number(),
{
    lemma_days_before_month(a.year);
    lemma_days_before_month(b.year);
    if a.year < b.year {
        lemma_leap_years_step(a.year);
        lemma_leap_years_grow(a.year, b.year - 1);
    }
}

/// Days are ordered as their numbers are: one day comes before another exactly when its number is
/// lower.
pub proof fn law_order_follows_day_numbers(a: DateView, b: DateView)
    requires
        a.valid(),
        b.valid(),
    ensures
        a.before(b) <==> a.day_number() < b.day_number(),
        a == b <==> a.day_number() == b.day_number(),
{
    if a.before(b) {
        lemma_before_is_lower(a, b);
    } else if b.before(a) {
        lemma_before_is_lower(b, a);
    } else {
        assert(a == b);
    }
}

/// The day after a day of the calendar, written out.
pub open spec fn successor(date: DateView) -> DateView {
    if date.day < days_in_month(date.year, date.month) {
        DateView { year: date.year, month: date.month, day: date.day + 1 }
    } else if date.month < 12 {
        DateView { year: date.year, month: date.month + 1, day: 1 }
    } else {
        DateView { year: date.year + 1, month: 1, day: 1 }
    }
}

/// The day after a day is the next day of the month, or the first of the next month or year.
pub proof fn law_day_after_is_the_successor(date: DateView)
    requires
        date.valid(),
        !date.is_last(),
    ensures
        day_after(date) == successor(date),
        day_after(date).valid(),
        day_after(date).day_number() == date.day_number() + 1,
{
    let next = successor(date);
    lemma_days_before_month(date.year);
    lemma_days_before_month(next.year);
    lemma_leap_years_step(date.year);
    assert(next.valid());
    assert(next.day_number() == date.day_number() + 1);
    law_order_follows_day_numbers(next, day_after(date));
}

/// How many days each month has: February has 29 in every fourth year, but for the years that divide
/// by a hundred and not by four hundred.
pub proof fn law_the_months_have_their_days(year: int, month: int)
    requires
        1 <= month <= 12,
    ensures
        ({
            let february: int = if year % 400 == 0 || (year % 4 == 0 && year % 100 != 0) { 29 } else { 28 };
            days_in_month(year, month) == seq![31, february, 31, 30, 31, 30, 31, 31, 30, 31, 30, 31][month - 1]
        }),
{
    assert(year % 400 == 0 ==> year % 4 == 0);
}

/// There is such a day exactly when month and day are those of a calendar and the year is one that
/// chrono can hold.
pub proof fn law_the_days_of_the_calendar(date: DateView)
    ensures
        date.valid() <==> -262143 <= date.year <= 262142 && 1 <= date.month <= 12 && 1 <= date.day <= days_in_month(
            date.year,
            date.month,
        ),
{
}

/// The number of a day: the days of the years before, one more for each leap year among them, the
/// days of the months before in a common year, one more behind a leap February, and the day of the
/// month.
pub proof fn law_the_number_of_a_day(date: DateView)
    requires
        date.valid(),
    ensures
        ({
            let past = date.year - 1;
            let months: int = seq![0int, 31, 59, 90, 120, 151, 181, 212, 243, 273, 304, 334][date.month - 1];
            let leap_day: int = if date.month > 2 && days_in_month(date.year, 2) == 29 { 1 } else { 0 };
            date.day_number() == past * 365 + past / 4 - past / 100 + past / 400 + months + leap_day + date.day
        }),
{
    lemma_days_before_month(date.year);
}

/// One day comes before another exactly when the numbers that year, month and day make together, in
/// this order, are lower.
pub proof fn law_days_are_ordered_by_year_month_and_day(a: DateView, b: DateView)
    requires
        a.valid(),
        b.valid(),
    ensures
        a.before(b) <==> a.year * 512 + a.month * 32 + a.day < b.year * 512 + b.month * 32 + b.day,
{
}

/// The last day is the one that no day comes after.
pub proof fn law_no_day_comes_after_the_last(date: DateView)
    requires
        date.valid(),
    ensures
        date.is_last() <==> forall|other: DateView| #[trigger] other.valid() ==> !date.before(other),
{
    let last = DateView { year: 262142, month: 12, day: 31 };
    assert(last.valid());
    assert forall|other: DateView| date.is_last() && #[trigger] other.valid() implies !date.before(other) by {}
}

/// The days of the week take turns, and day 1 is a Monday.
pub proof fn law_the_days_of_the_week_take_turns(date: DateView)
    ensures
        date.weekday_name() == seq![
            "Monday"@,
            "Tuesday"@,
            "Wednesday"@,
            "Thursday"@,
            "Friday"@,
            "Saturday"@,
            "Sunday"@,
        ][(date.day_number() - 1) % 7],
{
}

/// A number below a hundred, padded to two characters, is its two digits.
pub(crate) proof fn lemma_two_digits(n: nat)
    requires
        n < 100,
    ensures
        zero_padded(decimal(n), 2) == seq![(48 + n / 10) as char, (48 + n % 10) as char],
{
    law_a_number_is_written_digit_by_digit(0, n % 10);
    law_a_number_is_written_digit_by_digit(0, n / 10);
    law_a_number_is_written_digit_by_digit(n / 10, n % 10);
    assert(zero_padded(decimal(n), 2) =~= seq![(48 + n / 10) as char, (48 + n % 10) as char]);
}

/// A day is written as its weekday, two digits for the day, two for the month, and the year.
pub proof fn law_a_day_is_written_out(date: DateView)
    requires
        date.valid(),
    ensures
        date.long_form() == date.weekday_name() + ", "@ + seq![
            (48 + date.day / 10) as char,
            (48 + date.day % 10) as char,
        ] + "."@ + seq![(48 + date.month / 10) as char, (48 + date.month % 10) as char] + "."@ + year_form(date.year),
{
    lemma_two_digits(date.day as nat);
    lemma_two_digits(date.month as nat);
}

/// A year of four digits is written as these; a year that is not has a sign, and at least four digits
/// behind it.
pub proof fn law_a_year_has_four_digits(year: int)
    ensures
        0 <= year <= 9999 ==> year_form(year) == seq![
            (48 + year / 1000) as char,
            (48 + year / 100 % 10) as char,
            (48 + year / 10 % 10) as char,
            (48 + year % 10) as char,
        ],
        year > 9999 ==> year_form(year) == seq!['+'] + decimal(year as nat),
        year < 0 ==> year_form(year) == seq!['-'] + zero_padded(decimal((-year) as nat), 4),
{
    if 0 <= year {
        let n = year as nat;
        law_a_number_is_written_digit_by_digit(0, n % 10);
        law_a_number_is_written_digit_by_digit(n / 10, n % 10);
        law_a_number_is_written_digit_by_digit(0, n / 10 % 10);
        law_a_number_is_written_digit_by_digit(n / 100, n / 10 % 10);
        law_a_number_is_written_digit_by_digit(0, n / 100 % 10);
        law_a_number_is_written_digit_by_digit(n / 1000, n / 100 % 10);
        assert(n / 10 / 10 == n / 100);
        assert(n / 100 / 10 == n / 1000);
        if year <= 9999 {
            law_a_number_is_written_digit_by_digit(0, n / 1000);
            assert(year_form(year) =~= seq![
                (48 + year / 1000) as char,
                (48 + year / 100 % 10) as char,
                (48 + year / 10 % 10) as char,
                (48 + year % 10) as char,
            ]);
        } else {
            lemma_five_digits(n);
        }
    }
}

/// A number from ten thousand on has at least four digits.
proof fn lemma_five_digits(n: nat)
    requires
        n >= 10000,
    ensures
        decimal(n).len() >= 4,
{
    reveal_with_fuel(decimal, 5);
    assert(n / 10 / 10 / 10 >= 10);
}

} // verus!
