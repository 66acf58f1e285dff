//! Points in time, their calendar fields, and their RFC 3339 text with milliseconds.

use chrono::{Datelike, Timelike};
use vstd::arithmetic::div_mod;
use vstd::prelude::*;

use crate::json;
use crate::text;

verus! {

/// Whether a year of the proleptic Gregorian calendar has a 29th of February.
pub open spec fn is_leap_year(year: int) -> bool {
    year % 4 == 0 && (year % 100 != 0 || year % 400 == 0)
}

/// The number of days of a month.
pub open spec fn days_in_month(year: int, month: int) -> int {
    if month == 2 {
        if is_leap_year(year) {
            29
        } else {
            28
        }
    } else if month == 4 || month == 6 || month == 9 || month == 11 {
        30
    } else {
        31
    }
}

/// The number of days of a year that come before a month.
pub open spec fn days_before_month(year: int, month: int) -> int
    decreases month,
{
    if month <= 1 {
        0
    } else {
        days_before_month(year, month - 1) + days_in_month(year, month - 1)
    }
}

/// The number of days from the first day of year 1 to the first day of a year.
pub open spec fn days_before_year(year: int) -> int {
    365 * (year - 1) + (year - 1) / 4 - (year - 1) / 100 + (year - 1) / 400
}

/// A day of the proleptic Gregorian calendar.
pub struct CivilDate {
    pub year: int,
    pub month: int,
    pub day: int,
}

impl CivilDate {
    /// Whether the calendar has this day.
    pub open spec fn valid(self) -> bool {
        1 <= self.month <= 12 && 1 <= self.day <= days_in_month(self.year, self.month)
    }

    /// The number of days from the first of January 1970 to this day.
    pub open spec fn epoch_day(self) -> int {
        days_before_year(self.year) + days_before_month(self.year, self.month) + self.day - 1
            - 719162
    }
}

/// The day that is `epoch_day` days behind the first of January 1970.
pub open spec fn civil_date(epoch_day: int) -> CivilDate {
    choose|date: CivilDate| #[trigger] date.valid() && date.epoch_day() == epoch_day
}

/// The first second that is covered: the start of year -262143.
pub open spec fn first_second() -> int {
    (CivilDate { year: -262143, month: 1, day: 1 }).epoch_day() * 86400
}

/// The first second behind those that are covered: the start of year 262143.
pub open spec fn end_second() -> int {
    (CivilDate { year: 262143, month: 1, day: 1 }).epoch_day() * 86400
}

/// Whether seconds since the epoch, and nanoseconds behind them, are a point in time. Nanoseconds
/// of a whole second and more stand for a leap second, which only ends a minute.
pub open spec fn representable(seconds: int, nanos: int) -> bool {
    &&& first_second() <= seconds < end_second()
    &&& 0 <= nanos < 1_000_000_000 || (1_000_000_000 <= nanos < 2_000_000_000 && seconds % 60 == 59)
}

/// The calendar fields of a point in time.
#[derive(Clone, Copy)]
pub struct CivilTime {
    pub year: i32,
    pub month: u32,
    pub day: u32,
    pub hour: u32,
    pub minute: u32,
    pub second: u32,
    pub millis: u32,
}

impl CivilTime {
    pub open spec fn date(self) -> CivilDate {
        CivilDate { year: self.year as int, month: self.month as int, day: self.day as int }
    }

    /// Whether these are the calendar fields of a point in time.
    pub open spec fn describes(self, seconds: int, nanos: int) -> bool {
        &&& self.date().valid()
        &&& self.date().epoch_day() == seconds / 86400
        &&& self.hour == seconds % 86400 / 3600
        &&& self.minute == seconds % 3600 / 60
        &&& self.second == seconds % 60
        &&& self.millis == nanos / 1_000_000
    }
}

/// `chrono::DateTime::from_timestamp` finds the point in time that lies so many seconds, and
/// nanoseconds behind them, after the start of 1970 in UTC, and gives nothing where there is no
/// such point or its year is outside -262143 to 262142. The getters read its fields in the
/// proleptic Gregorian calendar; `timestamp_subsec_millis` rounds the nanoseconds down.
#[verifier::external_body]
fn civil_time(seconds: i64, nanos: u32) -> (civil: Option<CivilTime>)
    ensures
        civil is Some <==> representable(seconds as int, nanos as int),
        civil matches Some(c) ==> c.describes(seconds as int, nanos as int),
{
    chrono::DateTime::from_timestamp(seconds, nanos).map(
        |t| CivilTime {
            year: t.year(),
            month: t.month(),
            day: t.day(),
            hour: t.hour(),
            minute: t.minute(),
            second: t.second(),
            millis: t.timestamp_subsec_millis(),
        },
    )
}

/// `chrono::DateTime::from` turns what `std::time::SystemTime::now` reads from the system clock into
/// a point in time, also where the clock is set before 1970; `timestamp` and
/// `timestamp_subsec_nanos` give the seconds since the start of 1970 and the nanoseconds behind them,
/// which are below a second. The clock is taken to be set inside the years that `chrono` covers.
#[verifier::external_body]
fn system_now() -> (now: (i64, u32))
    ensures
        representable(now.0 as int, now.1 as int),
        now.1 < 1_000_000_000,
{
    let now = chrono::DateTime::<chrono::Utc>::from(std::time::SystemTime::now());
    (now.timestamp(), now.timestamp_subsec_nanos())
}

/// A point in time in UTC.
#[derive(Clone, Copy)]
pub struct Timestamp {
    seconds: i64,
    nanos: u32,
}

impl Timestamp {
    #[verifier::type_invariant]
    closed spec fn inv(self) -> bool {
        representable(self.seconds as int, self.nanos as int)
    }

    /// Whole seconds since the start of 1970.
    pub closed spec fn secs(self) -> int {
        self.seconds as int
    }

    /// Nanoseconds behind the whole seconds.
    pub closed spec fn subsec_nanos(self) -> int {
        self.nanos as int
    }

    /// Milliseconds since the start of 1970.
    pub open spec fn millis(self) -> int {
        self.secs() * 1000 + self.subsec_nanos() / 1_000_000
    }

    /// Whether this point lies inside a leap second.
    pub open spec fn in_leap_second(self) -> bool {
        self.subsec_nanos() >= 1_000_000_000
    }

    /// The text `YYYY-MM-DDTHH:MM:SS.mmmZ` of this point.
    pub open spec fn rfc3339(self) -> Seq<char> {
        rfc3339_text(self.secs(), self.subsec_nanos() / 1_000_000)
    }

    /// The point so many seconds, and nanoseconds behind them, after the start of 1970.
    pub fn from_timestamp(seconds: i64, nanos: u32) -> (timestamp: Option<Timestamp>)
        ensures
            timestamp is Some <==> representable(seconds as int, nanos as int),
            timestamp matches Some(t) ==> t.secs() == seconds && t.subsec_nanos() == nanos,
    {
        match civil_time(seconds, nanos) {
            Some(_) => Some(Timestamp { seconds, nanos }),
            None => None,
        }
    }

    /// Whether this is what the clock gave when it was read. It holds of no point that the clock has
    /// not given.
    pub closed spec fn is_what_the_clock_gave(self) -> bool {
        call_ensures(system_now, (), (self.seconds, self.nanos))
    }

    /// The current time.
    pub fn now() -> (timestamp: Timestamp)
        ensures
            !timestamp.in_leap_second(),
            representable(timestamp.secs(), timestamp.subsec_nanos()),
            timestamp.is_what_the_clock_gave(),
    {
        let (seconds, nanos) = system_now();
        Timestamp { seconds, nanos }
    }

    /// Whole seconds since the start of 1970.
    pub fn timestamp(&self) -> (seconds: i64)
        ensures
            seconds == self.secs(),
            representable(self.secs(), self.subsec_nanos()),
    {
        proof {
            use_type_invariant(self);
        }
        self.seconds
    }

    /// Nanoseconds behind the whole seconds.
    pub fn timestamp_subsec_nanos(&self) -> (nanos: u32)
        ensures
            nanos == self.subsec_nanos(),
            representable(self.secs(), self.subsec_nanos()),
    {
        proof {
            use_type_invariant(self);
        }
        self.nanos
    }

    /// Milliseconds since the start of 1970.
    pub fn timestamp_millis(&self) -> (millis: i64)
        ensures
            millis == self.millis(),
            representable(self.secs(), self.subsec_nanos()),
    {
        proof {
            use_type_invariant(self);
        }
        self.seconds * 1000 + (self.nanos / 1_000_000) as i64
    }

    /// Nanoseconds since the start of 1970, where they fit.
    pub fn timestamp_nanos_opt(&self) -> (nanos: Option<i64>)
        ensures
            nanos == {
                let total = self.secs() * 1_000_000_000 + self.subsec_nanos();
                if i64::MIN <= total <= i64::MAX {
                    Some(total as i64)
                } else {
                    None
                }
            },
    {
        proof {
            use_type_invariant(self);
        }
        let total: i128 = self.seconds as i128 * 1_000_000_000 + self.nanos as i128;
        if total >= i64::MIN as i128 && total <= i64::MAX as i128 {
            Some(total as i64)
        } else {
            None
        }
    }
}

/// The text of a year: at least four digits, or a minus sign and the digits.
pub open spec fn year_text(year: int) -> Seq<char> {
    if year < 0 {
        text::decimal(year)
    } else {
        text::padded(year as nat, 4)
    }
}

/// The text `YYYY-MM-DDTHH:MM:SS.mmmZ` of a second and the milliseconds behind it.
pub open spec fn rfc3339_text(seconds: int, millis: int) -> Seq<char> {
    let date = civil_date(seconds / 86400);
    date_text(date.year, date.month, date.day) + seq!['T'] + time_text(
        seconds % 86400 / 3600,
        seconds % 3600 / 60,
        seconds % 60,
    ) + seq!['.'] + text::padded(millis as nat, 3) + seq!['Z']
}

/// The text `YYYY-MM-DD` of a date.
pub open spec fn date_text(year: int, month: int, day: int) -> Seq<char> {
    year_text(year) + seq!['-'] + text::padded(month as nat, 2) + seq!['-'] + text::padded(
        day as nat,
        2,
    )
}

/// The text `HH:MM:SS` of a time of day.
pub open spec fn time_text(hour: int, minute: int, second: int) -> Seq<char> {
    text::padded(hour as nat, 2) + seq![':'] + text::padded(minute as nat, 2) + seq![':']
        + text::padded(second as nat, 2)
}

fn write_date(buf: &mut String, civil: &CivilTime)
    ensures
        final(buf)@ == old(buf)@ + date_text(
            civil.year as int,
            civil.month as int,
            civil.day as int,
        ),
{
    let ghost start = buf@;
    if civil.year < 0 {
        let year = text::format_integer(civil.year as i128);
        buf.append(year.as_str());
    } else {
        text::append_padded(buf, civil.year as u32, 4);
    }
    buf.push('-');
    text::append_padded(buf, civil.month, 2);
    buf.push('-');
    text::append_padded(buf, civil.day, 2);
    assert(buf@ =~= start + date_text(civil.year as int, civil.month as int, civil.day as int));
}

fn write_time(buf: &mut String, civil: &CivilTime)
    ensures
        final(buf)@ == old(buf)@ + time_text(
            civil.hour as int,
            civil.minute as int,
            civil.second as int,
        ),
{
    let ghost start = buf@;
    text::append_padded(buf, civil.hour, 2);
    buf.push(':');
    text::append_padded(buf, civil.minute, 2);
    buf.push(':');
    text::append_padded(buf, civil.second, 2);
    assert(buf@ =~= start + time_text(
        civil.hour as int,
        civil.minute as int,
        civil.second as int,
    ));
}

proof fn lemma_month_offsets(year: int)
    ensures
        days_before_month(year, 1) == 0,
        days_before_month(year, 2) == 31,
        days_before_month(year, 3) == 31 + days_in_month(year, 2),
        days_before_month(year, 4) == 62 + days_in_month(year, 2),
        days_before_month(year, 5) == 92 + days_in_month(year, 2),
        days_before_month(year, 6) == 123 + days_in_month(year, 2),
        days_before_month(year, 7) == 153 + days_in_month(year, 2),
        days_before_month(year, 8) == 184 + days_in_month(year, 2),
        days_before_month(year, 9) == 215 + days_in_month(year, 2),
        days_before_month(year, 10) == 245 + days_in_month(year, 2),
        days_before_month(year, 11) == 276 + days_in_month(year, 2),
        days_before_month(year, 12) == 306 + days_in_month(year, 2),
{
    reveal_with_fuel(days_before_month, 13);
}

proof fn lemma_year_length(y: int)
    ensures
        days_before_year(y + 1) == days_before_year(y) + 365 + (if is_leap_year(y) {
            1int
        } else {
            0
        }),
{
    lemma_quotient_step(y, 4);
    lemma_quotient_step(y, 100);
    lemma_quotient_step(y, 400);
    lemma_multiples(y, 100, 4, 25);
    lemma_multiples(y, 400, 100, 4);
}

proof fn lemma_quotient_step(y: int, d: int)
    requires
        d > 1,
    ensures
        y / d == (y - 1) / d + (if y % d == 0 {
            1int
        } else {
            0
        }),
{
    let q = (y - 1) / d;
    let r = (y - 1) % d;
    div_mod::lemma_fundamental_div_mod(y - 1, d);
    div_mod::lemma_mod_bound(y - 1, d);
    if r == d - 1 {
        assert(y == (q + 1) * d + 0) by (nonlinear_arith)
            requires
                y - 1 == d * q + r,
                r == d - 1,
        ;
        div_mod::lemma_fundamental_div_mod_converse(y, d, q + 1, 0);
    } else {
        assert(y == q * d + (r + 1)) by (nonlinear_arith)
            requires
                y - 1 == d * q + r,
        ;
        div_mod::lemma_fundamental_div_mod_converse(y, d, q, r + 1);
    }
}

proof fn lemma_multiples(y: int, big: int, small: int, factor: int)
    requires
        small > 0,
        factor > 0,
        big == small * factor,
    ensures
        y % big == 0 ==> y % small == 0,
{
    if y % big == 0 {
        assert(big > 0) by (nonlinear_arith)
            requires
                big == small * factor,
                small > 0,
                factor > 0,
        ;
        div_mod::lemma_fundamental_div_mod(y, big);
        let k = y / big;
        assert(y == (factor * k) * small + 0) by (nonlinear_arith)
            requires
                y == big * k,
                big == small * factor,
        ;
        div_mod::lemma_fundamental_div_mod_converse(y, small, factor * k, 0);
    }
}

proof fn lemma_year_offsets(a: int, b: int)
    requires
        a < b,
    ensures
        days_before_year(b) >= days_before_year(a) + 365 + (if is_leap_year(a) {
            1int
        } else {
            0
        }),
    decreases b - a,
{
    if a + 1 < b {
        lemma_year_offsets(a, b - 1);
    }
    lemma_year_length(b - 1);
}

/// No two days of the calendar have the same number.
pub proof fn law_epoch_days_are_distinct(a: CivilDate, b: CivilDate)
    requires
        a.valid(),
        b.valid(),
        a.epoch_day() == b.epoch_day(),
    ensures
        a == b,
{
    lemma_month_offsets(a.year);
    lemma_month_offsets(b.year);
    if a.year < b.year {
        lemma_year_offsets(a.year, b.year);
    } else if b.year < a.year {
        lemma_year_offsets(b.year, a.year);
    }
}

/// Every day number is that of a day of the calendar.
pub proof fn law_every_epoch_day_has_a_date(epoch_day: int)
    ensures
        civil_date(epoch_day).valid(),
        civil_date(epoch_day).epoch_day() == epoch_day,
    decreases
            if epoch_day < 0 {
                -epoch_day
            } else {
                epoch_day
            },
{
    let date = if epoch_day == 0 {
        CivilDate { year: 1970, month: 1, day: 1 }
    } else if epoch_day > 0 {
        law_every_epoch_day_has_a_date(epoch_day - 1);
        let d = civil_date(epoch_day - 1);
        lemma_month_offsets(d.year);
        lemma_month_offsets(d.year + 1);
        lemma_year_length(d.year);
        if d.day < days_in_month(d.year, d.month) {
            CivilDate { year: d.year, month: d.month, day: d.day + 1 }
        } else if d.month < 12 {
            CivilDate { year: d.year, month: d.month + 1, day: 1 }
        } else {
            CivilDate { year: d.year + 1, month: 1, day: 1 }
        }
    } else {
        law_every_epoch_day_has_a_date(epoch_day + 1);
        let d = civil_date(epoch_day + 1);
        lemma_month_offsets(d.year);
        lemma_month_offsets(d.year - 1);
        lemma_year_length(d.year - 1);
        if d.day > 1 {
            CivilDate { year: d.year, month: d.month, day: d.day - 1 }
        } else if d.month > 1 {
            CivilDate {
                year: d.year,
                month: d.month - 1,
                day: days_in_month(d.year, d.month - 1),
            }
        } else {
            CivilDate { year: d.year - 1, month: 12, day: 31 }
        }
    };
    assert(date.valid() && date.epoch_day() == epoch_day);
}

/// Whether a text is made of digits.
pub open spec fn all_digits(s: Seq<char>) -> bool {
    forall|i: int| 0 <= i < s.len() ==> json::is_digit(#[trigger] s[i])
}

/// Whether a place of a timestamp holds a separator.
pub open spec fn is_separator_place(i: int) -> bool {
    i == 4 || i == 7 || i == 10 || i == 13 || i == 16 || i == 19 || i == 23
}

proof fn lemma_decimal_is_digits(n: nat)
    ensures
        all_digits(text::decimal_nat(n)),
    decreases n,
{
    let last = text::digit((n % 10) as int);
    assert(json::is_digit(last));
    if n >= 10 {
        lemma_decimal_is_digits(n / 10);
        let front = text::decimal_nat(n / 10);
        assert(text::decimal_nat(n) == front.push(last));
    }
}

proof fn lemma_padded_is_digits(n: nat, width: nat)
    requires
        text::decimal_nat(n).len() <= width,
    ensures
        all_digits(text::padded(n, width)),
        text::padded(n, width).len() == width,
{
    lemma_decimal_is_digits(n);
}

proof fn lemma_three_groups(a: Seq<char>, b: Seq<char>, c: Seq<char>, separator: char, i: int)
    requires
        all_digits(a),
        all_digits(b),
        all_digits(c),
        b.len() == 2,
        c.len() == 2,
        0 <= i < a.len() + 6,
        i != a.len(),
        i != a.len() + 3,
    ensures
        json::is_digit((a + seq![separator] + b + seq![separator] + c)[i]),
{
    let all = a + seq![separator] + b + seq![separator] + c;
    if i < a.len() {
        assert(all[i] == a[i]);
    } else if i < a.len() + 3 {
        assert(all[i] == b[i - a.len() - 1]);
    } else {
        assert(all[i] == c[i - a.len() - 4]);
    }
}

/// Inside the years 0 to 9999, and outside leap seconds, the text of a point in time has 24
/// characters: fixed separators, with digits in every other place.
pub proof fn law_timestamp_text_is_fixed_width(seconds: int, millis: int)
    requires
        0 <= civil_date(seconds / 86400).year <= 9999,
        0 <= millis < 1000,
    ensures
        ({
            let t = rfc3339_text(seconds, millis);
            &&& t.len() == 24
            &&& t[4] == '-' && t[7] == '-' && t[10] == 'T' && t[13] == ':' && t[16] == ':'
            &&& t[19] == '.' && t[23] == 'Z'
            &&& forall|i: int|
                0 <= i < 24 && !is_separator_place(i) ==> json::is_digit(#[trigger] t[i])
        }),
{
    let date = civil_date(seconds / 86400);
    let hour = seconds % 86400 / 3600;
    let minute = seconds % 3600 / 60;
    let second = seconds % 60;
    law_every_epoch_day_has_a_date(seconds / 86400);
    text::lemma_decimal_len(date.year as nat);
    text::lemma_decimal_len(date.month as nat);
    text::lemma_decimal_len(date.day as nat);
    text::lemma_decimal_len(hour as nat);
    text::lemma_decimal_len(minute as nat);
    text::lemma_decimal_len(second as nat);
    text::lemma_decimal_len(millis as nat);
    lemma_padded_is_digits(date.year as nat, 4);
    lemma_padded_is_digits(date.month as nat, 2);
    lemma_padded_is_digits(date.day as nat, 2);
    lemma_padded_is_digits(hour as nat, 2);
    lemma_padded_is_digits(minute as nat, 2);
    lemma_padded_is_digits(second as nat, 2);
    lemma_padded_is_digits(millis as nat, 3);
    let y = year_text(date.year);
    let ymd = date_text(date.year, date.month, date.day);
    let hms = time_text(hour, minute, second);
    let t = rfc3339_text(seconds, millis);
    assert forall|i: int| 0 <= i < 24 && !is_separator_place(i) implies json::is_digit(
        #[trigger] t[i],
    ) by {
        if i < 10 {
            assert(t[i] == ymd[i]);
            lemma_three_groups(
                y,
                text::padded(date.month as nat, 2),
                text::padded(date.day as nat, 2),
                '-',
                i,
            );
        } else if i < 19 {
            assert(t[i] == hms[i - 11]);
            lemma_three_groups(
                text::padded(hour as nat, 2),
                text::padded(minute as nat, 2),
                text::padded(second as nat, 2),
                ':',
                i - 11,
            );
        } else {
            assert(t[i] == text::padded(millis as nat, 3)[i - 20]);
        }
    }
}

/// The milliseconds since the start of 1970 that a text `YYYY-MM-DDTHH:MM:SS.mmmZ` stands for.
pub open spec fn read_millis(t: Seq<char>) -> int {
    let date = CivilDate {
        year: text::number(t.subrange(0, 4)),
        month: text::number(t.subrange(5, 7)),
        day: text::number(t.subrange(8, 10)),
    };
    date.epoch_day() * 86_400_000 + text::number(t.subrange(11, 13)) * 3_600_000 + text::number(
        t.subrange(14, 16),
    ) * 60_000 + text::number(t.subrange(17, 19)) * 1000 + text::number(t.subrange(20, 23))
}

proof fn lemma_timestamp_fields(seconds: int, millis: int)
    requires
        0 <= civil_date(seconds / 86400).year <= 9999,
        0 <= millis < 1000,
    ensures
        ({
            let t = rfc3339_text(seconds, millis);
            let date = civil_date(seconds / 86400);
            &&& t.subrange(0, 4) == text::padded(date.year as nat, 4)
            &&& t.subrange(5, 7) == text::padded(date.month as nat, 2)
            &&& t.subrange(8, 10) == text::padded(date.day as nat, 2)
            &&& t.subrange(11, 13) == text::padded((seconds % 86400 / 3600) as nat, 2)
            &&& t.subrange(14, 16) == text::padded((seconds % 3600 / 60) as nat, 2)
            &&& t.subrange(17, 19) == text::padded((seconds % 60) as nat, 2)
            &&& t.subrange(20, 23) == text::padded(millis as nat, 3)
        }),
{
    let date = civil_date(seconds / 86400);
    let hour = seconds % 86400 / 3600;
    let minute = seconds % 3600 / 60;
    let second = seconds % 60;
    law_every_epoch_day_has_a_date(seconds / 86400);
    text::lemma_decimal_len(date.year as nat);
    text::lemma_decimal_len(date.month as nat);
    text::lemma_decimal_len(date.day as nat);
    text::lemma_decimal_len(hour as nat);
    text::lemma_decimal_len(minute as nat);
    text::lemma_decimal_len(second as nat);
    text::lemma_decimal_len(millis as nat);
    let t = rfc3339_text(seconds, millis);
    assert(t.subrange(0, 4) =~= text::padded(date.year as nat, 4));
    assert(t.subrange(5, 7) =~= text::padded(date.month as nat, 2));
    assert(t.subrange(8, 10) =~= text::padded(date.day as nat, 2));
    assert(t.subrange(11, 13) =~= text::padded(hour as nat, 2));
    assert(t.subrange(14, 16) =~= text::padded(minute as nat, 2));
    assert(t.subrange(17, 19) =~= text::padded(second as nat, 2));
    assert(t.subrange(20, 23) =~= text::padded(millis as nat, 3));
}

proof fn lemma_clock_fields(seconds: int)
    ensures
        seconds == seconds / 86400 * 86400 + seconds % 86400 / 3600 * 3600 + seconds % 3600 / 60
            * 60 + seconds % 60,
        0 <= seconds % 86400 / 3600 < 24,
        0 <= seconds % 3600 / 60 < 60,
        0 <= seconds % 60 < 60,
{
    let day = seconds / 86400;
    let rest = seconds % 86400;
    let hour = rest / 3600;
    let late = rest % 3600;
    let minute = late / 60;
    let second = late % 60;
    div_mod::lemma_fundamental_div_mod(seconds, 86400);
    div_mod::lemma_fundamental_div_mod(rest, 3600);
    div_mod::lemma_fundamental_div_mod(late, 60);
    assert(0 <= rest < 86400 && 0 <= late < 3600 && 0 <= second < 60);
    div_mod::lemma_fundamental_div_mod_converse(seconds, 3600, 24 * day + hour, late);
    div_mod::lemma_fundamental_div_mod_converse(
        seconds,
        60,
        1440 * day + 60 * hour + minute,
        second,
    );
}

/// Inside the years 0 to 9999, and outside leap seconds, the text of a point in time reads back as
/// that point, cut to milliseconds.
pub proof fn law_timestamp_text_reads_back(seconds: int, millis: int)
    requires
        0 <= civil_date(seconds / 86400).year <= 9999,
        0 <= millis < 1000,
    ensures
        read_millis(rfc3339_text(seconds, millis)) == seconds * 1000 + millis,
{
    let t = rfc3339_text(seconds, millis);
    let date = civil_date(seconds / 86400);
    let hour = seconds % 86400 / 3600;
    let minute = seconds % 3600 / 60;
    let second = seconds % 60;
    lemma_timestamp_fields(seconds, millis);
    lemma_clock_fields(seconds);
    text::lemma_padded_number(date.year as nat, 4);
    text::lemma_padded_number(date.month as nat, 2);
    text::lemma_padded_number(date.day as nat, 2);
    text::lemma_padded_number(hour as nat, 2);
    text::lemma_padded_number(minute as nat, 2);
    text::lemma_padded_number(second as nat, 2);
    text::lemma_padded_number(millis as nat, 3);
    law_every_epoch_day_has_a_date(seconds / 86400);
    assert(CivilDate { year: date.year, month: date.month, day: date.day } == date);
    assert(read_millis(t) == seconds / 86400 * 86_400_000 + hour * 3_600_000 + minute * 60_000
        + second * 1000 + millis);
}

proof fn lemma_later_dates(a: CivilDate, b: CivilDate)
    requires
        a.valid(),
        b.valid(),
        a.year < b.year || a.year == b.year && (a.month < b.month || a.month == b.month && a.day
            < b.day),
    ensures
        a.epoch_day() < b.epoch_day(),
{
    lemma_month_offsets(a.year);
    lemma_month_offsets(b.year);
    if a.year < b.year {
        lemma_year_offsets(a.year, b.year);
    }
}

proof fn lemma_digits_in_order(a: Seq<char>, b: Seq<char>)
    requires
        a.len() == b.len(),
        2 <= a.len() <= 4,
        all_digits(a),
        all_digits(b),
    ensures
        text::precedes(a, b) <==> text::number(a) < text::number(b),
        a == b <==> text::number(a) == text::number(b),
{
    reveal_with_fuel(text::precedes, 5);
    reveal_with_fuel(text::number, 5);
    if text::number(a) == text::number(b) {
        assert(a =~= b);
    }
}

proof fn lemma_precedes_between(a: Seq<char>, b: Seq<char>, i: int, j: int)
    requires
        a.len() == b.len(),
        0 <= i <= j <= a.len(),
    ensures
        text::precedes(a.skip(i), b.skip(i)) <==> text::precedes(a.subrange(i, j), b.subrange(i, j))
            || (a.subrange(i, j) == b.subrange(i, j) && text::precedes(a.skip(j), b.skip(j))),
{
    text::lemma_precedes_by_parts(a.skip(i), b.skip(i), j - i);
    assert(a.skip(i).take(j - i) =~= a.subrange(i, j));
    assert(b.skip(i).take(j - i) =~= b.subrange(i, j));
    assert(a.skip(i).skip(j - i) =~= a.skip(j));
    assert(b.skip(i).skip(j - i) =~= b.skip(j));
}

proof fn lemma_precedes_past(a: Seq<char>, b: Seq<char>, i: int, j: int)
    requires
        a.len() == b.len(),
        0 <= i < j < a.len(),
        a[j] == b[j],
    ensures
        text::precedes(a.skip(i), b.skip(i)) <==> text::precedes(a.subrange(i, j), b.subrange(i, j))
            || (a.subrange(i, j) == b.subrange(i, j) && text::precedes(
            a.skip(j + 1),
            b.skip(j + 1),
        )),
{
    lemma_precedes_between(a, b, i, j);
    lemma_precedes_between(a, b, j, j + 1);
    assert(a.subrange(j, j + 1) =~= b.subrange(j, j + 1));
    text::lemma_precedes_is_strict(a.subrange(j, j + 1), a.subrange(j, j + 1));
}

/// Inside the years 0 to 9999, and outside leap seconds, the texts of points in time are ordered as
/// the points are, cut to milliseconds.
pub proof fn law_timestamp_texts_are_in_order(
    seconds: int,
    millis: int,
    other_seconds: int,
    other_millis: int,
)
    requires
        0 <= civil_date(seconds / 86400).year <= 9999,
        0 <= millis < 1000,
        0 <= civil_date(other_seconds / 86400).year <= 9999,
        0 <= other_millis < 1000,
    ensures
        text::precedes(
            rfc3339_text(seconds, millis),
            rfc3339_text(other_seconds, other_millis),
        ) <==> seconds * 1000 + millis < other_seconds * 1000 + other_millis,
{
    let a = rfc3339_text(seconds, millis);
    let b = rfc3339_text(other_seconds, other_millis);
    let x = civil_date(seconds / 86400);
    let y = civil_date(other_seconds / 86400);
    law_every_epoch_day_has_a_date(seconds / 86400);
    law_every_epoch_day_has_a_date(other_seconds / 86400);
    law_timestamp_text_is_fixed_width(seconds, millis);
    law_timestamp_text_is_fixed_width(other_seconds, other_millis);
    lemma_timestamp_fields(seconds, millis);
    lemma_timestamp_fields(other_seconds, other_millis);
    lemma_fields_in_order(x.year, y.year, 4);
    lemma_fields_in_order(x.month, y.month, 2);
    lemma_fields_in_order(x.day, y.day, 2);
    lemma_fields_in_order(seconds % 86400 / 3600, other_seconds % 86400 / 3600, 2);
    lemma_fields_in_order(seconds % 3600 / 60, other_seconds % 3600 / 60, 2);
    lemma_fields_in_order(seconds % 60, other_seconds % 60, 2);
    lemma_fields_in_order(millis, other_millis, 3);
    lemma_clock_fields(seconds);
    lemma_clock_fields(other_seconds);
    assert(a.skip(0) =~= a);
    assert(b.skip(0) =~= b);
    lemma_precedes_past(a, b, 0, 4);
    lemma_precedes_past(a, b, 5, 7);
    lemma_precedes_past(a, b, 8, 10);
    lemma_precedes_past(a, b, 11, 13);
    lemma_precedes_past(a, b, 14, 16);
    lemma_precedes_past(a, b, 17, 19);
    lemma_precedes_past(a, b, 20, 23);
    assert(!text::precedes(a.skip(24), b.skip(24)));
    lemma_times_in_order(seconds, millis, other_seconds, other_millis);
}

/// Whether a point in time comes before another, field by field.
spec fn is_earlier(seconds: int, millis: int, other_seconds: int, other_millis: int) -> bool {
    let x = civil_date(seconds / 86400);
    let y = civil_date(other_seconds / 86400);
    let hours = (seconds % 86400 / 3600, other_seconds % 86400 / 3600);
    let minutes = (seconds % 3600 / 60, other_seconds % 3600 / 60);
    let ends = (seconds % 60, other_seconds % 60);
    x.year < y.year || x.year == y.year && (x.month < y.month || x.month == y.month && (x.day
        < y.day || x.day == y.day && (hours.0 < hours.1 || hours.0 == hours.1 && (minutes.0
        < minutes.1 || minutes.0 == minutes.1 && (ends.0 < ends.1 || ends.0 == ends.1 && millis
        < other_millis)))))
}

proof fn lemma_times_in_order(seconds: int, millis: int, other_seconds: int, other_millis: int)
    requires
        0 <= millis < 1000,
        0 <= other_millis < 1000,
    ensures
        is_earlier(seconds, millis, other_seconds, other_millis) <==> seconds * 1000 + millis
            < other_seconds * 1000 + other_millis,
{
    let x = civil_date(seconds / 86400);
    let y = civil_date(other_seconds / 86400);
    law_every_epoch_day_has_a_date(seconds / 86400);
    law_every_epoch_day_has_a_date(other_seconds / 86400);
    lemma_clock_fields(seconds);
    lemma_clock_fields(other_seconds);
    if x.year == y.year && x.month == y.month && x.day == y.day {
        assert(x == y);
    } else if x.year < y.year || x.year == y.year && (x.month < y.month || x.month == y.month
        && x.day < y.day) {
        lemma_later_dates(x, y);
    } else {
        lemma_later_dates(y, x);
    }
}

proof fn lemma_fields_in_order(a: int, b: int, width: nat)
    requires
        2 <= width <= 4,
        0 <= a < 10000,
        0 <= b < 10000,
        width == 2 ==> a < 100 && b < 100,
        width == 3 ==> a < 1000 && b < 1000,
    ensures
        text::precedes(text::padded(a as nat, width), text::padded(b as nat, width)) <==> a < b,
        text::padded(a as nat, width) == text::padded(b as nat, width) <==> a == b,
{
    text::lemma_decimal_len(a as nat);
    text::lemma_decimal_len(b as nat);
    lemma_padded_is_digits(a as nat, width);
    lemma_padded_is_digits(b as nat, width);
    text::lemma_padded_number(a as nat, width);
    text::lemma_padded_number(b as nat, width);
    lemma_digits_in_order(text::padded(a as nat, width), text::padded(b as nat, width));
}

/// Whether JSON escapes no character of a text.
pub open spec fn all_plain(s: Seq<char>) -> bool {
    forall|i: int| 0 <= i < s.len() ==> json::is_plain(#[trigger] s[i])
}

proof fn lemma_decimal_is_plain(n: nat)
    ensures
        all_plain(text::decimal_nat(n)),
    decreases n,
{
    let last = text::digit((n % 10) as int);
    assert(json::is_plain(last));
    if n >= 10 {
        lemma_decimal_is_plain(n / 10);
        let front = text::decimal_nat(n / 10);
        assert(text::decimal_nat(n) == front.push(last));
    }
}

proof fn lemma_padded_is_plain(n: nat, width: nat)
    ensures
        all_plain(text::padded(n, width)),
{
    lemma_decimal_is_plain(n);
}

proof fn lemma_plain_behind(a: Seq<char>, separator: char, b: Seq<char>)
    requires
        all_plain(a),
        json::is_plain(separator),
        all_plain(b),
    ensures
        all_plain(a + seq![separator] + b),
{
    let all = a + seq![separator] + b;
    assert forall|i: int| 0 <= i < all.len() implies json::is_plain(#[trigger] all[i]) by {
        if i < a.len() {
            assert(all[i] == a[i]);
        } else if i > a.len() {
            assert(all[i] == b[i - a.len() - 1]);
        }
    }
}

/// The text of a point in time holds no character that JSON escapes.
pub proof fn lemma_rfc3339_is_plain(seconds: int, millis: int)
    ensures
        all_plain(rfc3339_text(seconds, millis)),
{
    let date = civil_date(seconds / 86400);
    let year = year_text(date.year);
    let month = text::padded(date.month as nat, 2);
    let day = text::padded(date.day as nat, 2);
    let hour = text::padded((seconds % 86400 / 3600) as nat, 2);
    let minute = text::padded((seconds % 3600 / 60) as nat, 2);
    let second = text::padded((seconds % 60) as nat, 2);
    assert(all_plain(year)) by {
        if date.year < 0 {
            lemma_decimal_is_plain((-date.year) as nat);
        } else {
            lemma_padded_is_plain(date.year as nat, 4);
        }
    }
    lemma_padded_is_plain(date.month as nat, 2);
    lemma_padded_is_plain(date.day as nat, 2);
    lemma_padded_is_plain((seconds % 86400 / 3600) as nat, 2);
    lemma_padded_is_plain((seconds % 3600 / 60) as nat, 2);
    lemma_padded_is_plain((seconds % 60) as nat, 2);
    lemma_padded_is_plain(millis as nat, 3);
    lemma_plain_behind(year, '-', month);
    lemma_plain_behind(year + seq!['-'] + month, '-', day);
    lemma_plain_behind(hour, ':', minute);
    lemma_plain_behind(hour + seq![':'] + minute, ':', second);
    let ymd = date_text(date.year, date.month, date.day);
    let hms = time_text(seconds % 86400 / 3600, seconds % 3600 / 60, seconds % 60);
    lemma_plain_behind(ymd, 'T', hms);
    lemma_plain_behind(ymd + seq!['T'] + hms, '.', text::padded(millis as nat, 3));
    let front = ymd + seq!['T'] + hms + seq!['.'] + text::padded(millis as nat, 3);
    lemma_plain_behind(front, 'Z', Seq::empty());
    assert(front + seq!['Z'] + Seq::<char>::empty() =~= front + seq!['Z']);
}

/// Appends the RFC 3339 text of a point in time, with milliseconds.
pub fn write_timestamp_rfc3339(buf: &mut String, ts: &Timestamp)
    ensures
        final(buf)@ == old(buf)@ + ts.rfc3339(),
{
    proof {
        use_type_invariant(ts);
    }
    let civil = civil_time(ts.seconds, ts.nanos).unwrap();
    proof {
        assert(civil.date().valid());
        law_epoch_days_are_distinct(civil.date(), civil_date(ts.secs() / 86400));
    }
    let ghost start = buf@;
    write_date(buf, &civil);
    buf.push('T');
    write_time(buf, &civil);
    buf.push('.');
    text::append_padded(buf, civil.millis, 3);
    buf.push('Z');
    assert(buf@ =~= start + rfc3339_text(ts.secs(), civil.millis as int));
}

/// Keeps the text of the last millisecond that was written, so that lines of the same millisecond
/// share it.
pub struct TimestampCache {
    last_millis: i64,
    formatted: String,
}

impl TimestampCache {
    /// A cache that holds nothing yet, or the text of its millisecond.
    pub closed spec fn wf(&self) -> bool {
        self.last_millis == i64::MIN || self.formatted@ == rfc3339_text(
            self.last_millis as int / 1000,
            self.last_millis as int % 1000,
        )
    }

    /// A cache that holds nothing yet.
    pub fn new() -> (cache: TimestampCache)
        ensures
            cache.wf(),
    {
        TimestampCache { last_millis: i64::MIN, formatted: String::new() }
    }

    /// Appends the text of a point in time, from the cache where it holds that millisecond.
    pub fn write(&mut self, buf: &mut String, now: &Timestamp)
        requires
            old(self).wf(),
            !now.in_leap_second(),
        ensures
            final(self).wf(),
            final(buf)@ == old(buf)@ + now.rfc3339(),
    {
        let millis: i64 = now.timestamp_millis();
        assert(millis as int / 1000 == now.secs());
        assert(millis as int % 1000 == now.subsec_nanos() / 1_000_000);
        assert(millis != i64::MIN);
        if self.last_millis != millis {
            self.last_millis = millis;
            self.formatted = String::new();
            write_timestamp_rfc3339(&mut self.formatted, now);
            assert(self.formatted@ =~= now.rfc3339());
        }
        buf.append(self.formatted.as_str());
    }
}

/// Appends the text of the current time, from the cache where it holds that millisecond, and gives
/// the time that was read.
pub fn write_timestamp_rfc3339_now_cached(
    buf: &mut String,
    cache: &mut TimestampCache,
) -> (now: Timestamp)
    requires
        old(cache).wf(),
    ensures
        final(cache).wf(),
        final(buf)@ == old(buf)@ + now.rfc3339(),
        !now.in_leap_second(),
        call_ensures(Timestamp::now, (), now),
{
    let now = Timestamp::now();
    cache.write(buf, &now);
    now
}

}
