//! The proleptic Gregorian calendar and UTC timestamps.

use crate::reading::is_decimal;
use crate::text::{
    law_padded_is_read_back, lemma_padded_four, lemma_padded_injective,
    lemma_padded_starts_with_digit, lemma_padded_two, number, padded, push_padded,
};
use vstd::prelude::*;

verus! {

/// A day of the Gregorian calendar, as year, month and day of the month.
pub struct CivilDate {
    pub year: int,
    pub month: int,
    pub day: int,
}

/// Whether `year` has a 29th of February.
pub open spec fn is_leap_year(year: int) -> bool {
    year % 4 == 0 && (year % 100 != 0 || year % 400 == 0)
}

/// The number of days of a month.
pub open spec fn days_in_month(year: int, month: int) -> int {
    if month == 2 {
        if is_leap_year(year) {
            29
        } else {
            28
        }
    } else if month == 4 || month == 6 || month == 9 || month == 11 {
        30
    } else {
        31
    }
}

/// The number of days of `year` that precede the first of `month`.
pub open spec fn days_before_month(year: int, month: int) -> int
    decreases month,
{
    if month <= 1 {
        0
    } else {
        days_before_month(year, month - 1) + days_in_month(year, month - 1)
    }
}

/// The number of days from the first of January of the year 1 to the first of
/// January of `year`.
pub open spec fn days_before_year(year: int) -> int {
    365 * (year - 1) + (year - 1) / 4 - (year - 1) / 100 + (year - 1) / 400
}

impl CivilDate {
    /// Whether the calendar has this day.
    pub open spec fn valid(self) -> bool {
        &&& 1 <= self.month <= 12
        &&& 1 <= self.day <= days_in_month(self.year, self.month)
    }

    /// The number of days from 1970-01-01 to this day, negative before it.
    pub open spec fn day_number(self) -> int {
        days_before_year(self.year) - days_before_year(1970) + days_before_month(
            self.year,
            self.month,
        ) + self.day - 1
    }
}

/// The day that lies `days` days after 1970-01-01.
pub open spec fn civil_date(days: int) -> CivilDate {
    choose|date: CivilDate| date.valid() && date.day_number() == days
}

/// The days of a year that precede a month, month by month.
proof fn lemma_days_before_month(year: int)
    ensures
        days_before_month(year, 1) == 0,
        days_before_month(year, 2) == 31,
        ({
            let leap: int = if is_leap_year(year) {
                1
            } else {
                0
            };
            &&& days_before_month(year, 3) == 59 + leap
            &&& days_before_month(year, 4) == 90 + leap
            &&& days_before_month(year, 5) == 120 + leap
            &&& days_before_month(year, 6) == 151 + leap
            &&& days_before_month(year, 7) == 181 + leap
            &&& days_before_month(year, 8) == 212 + leap
            &&& days_before_month(year, 9) == 243 + leap
            &&& days_before_month(year, 10) == 273 + leap
            &&& days_before_month(year, 11) == 304 + leap
            &&& days_before_month(year, 12) == 334 + leap
            &&& days_before_month(year, 13) == 365 + leap
        }),
{
    reveal_with_fuel(days_before_month, 13);
}

/// The leap day of a year, counted through the multiples of 4, 100 and 400.
proof fn lemma_leap_day(year: int)
    ensures
        (year / 4 - year / 100 + year / 400) - ((year - 1) / 4 - (year - 1) / 100 + (year - 1)
            / 400) == if is_leap_year(year) {
            1int
        } else {
            0int
        },
{
    assert(year / 4 - (year - 1) / 4 == if year % 4 == 0 {
        1int
    } else {
        0int
    });
    assert(year / 100 - (year - 1) / 100 == if year % 100 == 0 {
        1int
    } else {
        0int
    });
    assert(year / 400 - (year - 1) / 400 == if year % 400 == 0 {
        1int
    } else {
        0int
    });
    assert(year % 100 == 0 ==> year % 4 == 0);
    assert(year % 400 == 0 ==> year % 100 == 0);
}

/// Each year has 365 days, a leap year 366: `days_before_year` counts the
/// lengths of the years one after the other.
pub proof fn law_year_lengths(year: int)
    ensures
        days_before_year(1) == 0,
        days_before_year(year + 1) == days_before_year(year) + days_before_month(year, 13),
        days_before_month(year, 13) == if is_leap_year(year) {
            366int
        } else {
            365int
        },
{
    lemma_days_before_month(year);
    lemma_leap_day(year);
}

/// A valid day lies within its year.
proof fn lemma_day_in_year(date: CivilDate)
    requires
        date.valid(),
    ensures
        days_before_year(date.year) <= date.day_number() + days_before_year(1970),
        date.day_number() + days_before_year(1970) < days_before_year(date.year + 1),
{
    lemma_days_before_month(date.year);
    law_year_lengths(date.year);
}

/// Years follow one another.
proof fn lemma_days_before_year_monotone(a: int, b: int)
    requires
        a <= b,
    ensures
        days_before_year(a) <= days_before_year(b),
    decreases b - a,
{
    if a < b {
        lemma_days_before_year_monotone(a, b - 1);
        law_year_lengths(b - 1);
    }
}

/// No two days of the calendar have the same number.
pub proof fn law_day_number_identifies_date(a: CivilDate, b: CivilDate)
    requires
        a.valid(),
        b.valid(),
        a.day_number() == b.day_number(),
    ensures
        a == b,
{
    lemma_day_in_year(a);
    lemma_day_in_year(b);
    if a.year < b.year {
        lemma_days_before_year_monotone(a.year + 1, b.year);
    }
    if b.year < a.year {
        lemma_days_before_year_monotone(b.year + 1, a.year);
    }
    lemma_days_before_month(a.year);
}

/// The year within a 400 year era, counted from March, of a day of the era.
#[verifier::spinoff_prover]
proof fn lemma_year_of_era(doe: int)
    requires
        0 <= doe < 146_097,
    ensures
        ({
            let yoe = (doe - doe / 1_460 + doe / 36_524 - doe / 146_096) / 365;
            let doy = doe - (365 * yoe + yoe / 4 - yoe / 100);
            &&& 0 <= yoe <= 399
            &&& 0 <= doy <= 365
            &&& doy == 365 ==> (yoe + 1) % 4 == 0 && ((yoe + 1) % 100 != 0 || yoe == 399)
        }),
{
}

/// The month and the day of the month of a day of a year counted from March.
proof fn lemma_month_of_year(doy: int)
    requires
        0 <= doy <= 365,
    ensures
        ({
            let mp = (5 * doy + 2) / 153;
            let day = doy - (153 * mp + 2) / 5 + 1;
            let before: int = if mp == 0 {
                0
            } else if mp == 1 {
                31
            } else if mp == 2 {
                61
            } else if mp == 3 {
                92
            } else if mp == 4 {
                122
            } else if mp == 5 {
                153
            } else if mp == 6 {
                184
            } else if mp == 7 {
                214
            } else if mp == 8 {
                245
            } else if mp == 9 {
                275
            } else if mp == 10 {
                306
            } else {
                337
            };
            &&& 0 <= mp <= 11
            &&& day == doy - before + 1
            &&& 1 <= day <= 31
            &&& mp == 1 || mp == 3 || mp == 6 || mp == 8 ==> day <= 30
            &&& mp == 11 ==> day <= 29 && (day == 29 <==> doy == 365)
        }),
{
}

/// The days from the first of March of the year 0 to the first of March of
/// another year.
spec fn march_days(year: int) -> int {
    365 * year + year / 4 - year / 100 + year / 400
}

/// The first of March of a year, and the first of January that follows it.
proof fn lemma_march_days(year: int)
    ensures
        days_before_year(year) + 59 + (if is_leap_year(year) {
            1int
        } else {
            0int
        }) == march_days(year) - 306,
        days_before_year(year + 1) == march_days(year),
{
    lemma_leap_day(year);
}

/// An era has 146097 days, and leap years fall alike in all eras.
proof fn lemma_march_days_of_era(era: int, yoe: int)
    requires
        0 <= yoe <= 399,
    ensures
        march_days(yoe + era * 400) == era * 146_097 + 365 * yoe + yoe / 4 - yoe / 100,
        is_leap_year(yoe + era * 400 + 1) == is_leap_year(yoe + 1),
{
    vstd::arithmetic::div_mod::lemma_hoist_over_denominator(yoe, era * 100, 4);
    vstd::arithmetic::div_mod::lemma_hoist_over_denominator(yoe, era * 4, 100);
    vstd::arithmetic::div_mod::lemma_hoist_over_denominator(yoe, era, 400);
    vstd::arithmetic::div_mod::lemma_mod_multiples_vanish(era * 100, yoe + 1, 4);
    vstd::arithmetic::div_mod::lemma_mod_multiples_vanish(era * 4, yoe + 1, 100);
    vstd::arithmetic::div_mod::lemma_mod_multiples_vanish(era, yoe + 1, 400);
    assert(yoe / 400 == 0);
}

/// The year of a day as the calendar counts it, from its era, the year of the
/// era and the month, both counted from March.
proof fn lemma_civil_from_march(era: int, yoe: int, doy: int)
    requires
        0 <= yoe <= 399,
        0 <= doy <= 365,
        doy == 365 ==> (yoe + 1) % 4 == 0 && ((yoe + 1) % 100 != 0 || yoe == 399),
    ensures
        ({
            let mp = (5 * doy + 2) / 153;
            let day = doy - (153 * mp + 2) / 5 + 1;
            let month = if mp < 10 {
                mp + 3
            } else {
                mp - 9
            };
            let year = yoe + era * 400 + if month <= 2 {
                1int
            } else {
                0int
            };
            let date = CivilDate { year, month, day };
            &&& date.valid()
            &&& date.day_number() == era * 146_097 + 365 * yoe + yoe / 4 - yoe / 100 + doy - 719_468
        }),
{
    lemma_month_of_year(doy);
    let mp = (5 * doy + 2) / 153;
    let march_year = yoe + era * 400;
    let year = march_year + if mp < 10 {
        0int
    } else {
        1int
    };
    lemma_days_before_month(year);
    lemma_march_days(march_year);
    lemma_march_days_of_era(era, yoe);
    assert(days_before_year(1970) == 719_162);
    let day = doy - (153 * mp + 2) / 5 + 1;
    let month = if mp < 10 {
        mp + 3
    } else {
        mp - 9
    };
    let date = CivilDate { year, month, day };
    if mp < 10 {
        assert(date.day_number() == march_days(march_year) + doy - 719_468);
    } else {
        assert(doy == 365 ==> is_leap_year(yoe + 1));
        assert(date.day_number() == march_days(march_year) + doy - 719_468);
    }
}

/// Every number of days leads to a day of the calendar.
pub proof fn law_every_day_has_a_date(days: int)
    ensures
        civil_date(days).valid(),
        civil_date(days).day_number() == days,
{
    let z = days + 719_468;
    let era = z / 146_097;
    let doe = z % 146_097;
    lemma_year_of_era(doe);
    let yoe = (doe - doe / 1_460 + doe / 36_524 - doe / 146_096) / 365;
    let doy = doe - (365 * yoe + yoe / 4 - yoe / 100);
    lemma_civil_from_march(era, yoe, doy);
    let mp = (5 * doy + 2) / 153;
    let day = doy - (153 * mp + 2) / 5 + 1;
    let month = if mp < 10 {
        mp + 3
    } else {
        mp - 9
    };
    let year = yoe + era * 400 + if month <= 2 {
        1int
    } else {
        0int
    };
    let date = CivilDate { year, month, day };
    assert(date.valid() && date.day_number() == days);
}

/// A day of the calendar is found again by its number.
pub proof fn law_civil_date_round_trip(date: CivilDate)
    requires
        date.valid(),
    ensures
        civil_date(date.day_number()) == date,
{
    law_every_day_has_a_date(date.day_number());
    law_day_number_identifies_date(date, civil_date(date.day_number()));
}

/// Days follow one another as in the calendar on the wall: the day after the last
/// of a month is the first of the next, the day after the last of December is
/// the first of January of the next year, and day 0 is 1970-01-01.
pub proof fn law_next_day(days: int)
    ensures
        civil_date(0) == (CivilDate { year: 1970, month: 1, day: 1 }),
        ({
            let today = civil_date(days);
            let year = today.year;
            let last: int = if today.month == 2 {
                if year % 400 == 0 || (year % 4 == 0 && year % 100 != 0) {
                    29
                } else {
                    28
                }
            } else if today.month == 4 || today.month == 6 || today.month == 9 || today.month
                == 11 {
                30
            } else {
                31
            };
            &&& 1 <= today.month <= 12
            &&& 1 <= today.day <= last
            &&& civil_date(days + 1) == if today.day < last {
                CivilDate { year, month: today.month, day: today.day + 1 }
            } else if today.month < 12 {
                CivilDate { year, month: today.month + 1, day: 1 }
            } else {
                CivilDate { year: year + 1, month: 1, day: 1 }
            }
        }),
{
    let first = CivilDate { year: 1970, month: 1, day: 1 };
    lemma_days_before_month(1970);
    law_every_day_has_a_date(0);
    law_day_number_identifies_date(first, civil_date(0));
    law_every_day_has_a_date(days);
    law_every_day_has_a_date(days + 1);
    let today = civil_date(days);
    lemma_days_before_month(today.year);
    lemma_days_before_month(today.year + 1);
    law_year_lengths(today.year);
    let next = if today.day < days_in_month(today.year, today.month) {
        CivilDate { year: today.year, month: today.month, day: today.day + 1 }
    } else if today.month < 12 {
        CivilDate { year: today.year, month: today.month + 1, day: 1 }
    } else {
        CivilDate { year: today.year + 1, month: 1, day: 1 }
    };
    assert(next.valid());
    assert(next.day_number() == days + 1);
    law_day_number_identifies_date(next, civil_date(days + 1));
}

/// The day that lies `days_since_epoch` days after 1970-01-01, as year, month
/// and day of the month. The year is cut to 32 bits.
pub fn civil_from_days(days_since_epoch: i64) -> (date: (i32, u32, u32))
    requires
        days_since_epoch + 719_468 <= i64::MAX,
    ensures
        civil_date(days_since_epoch as int).valid(),
        civil_date(days_since_epoch as int).day_number() == days_since_epoch,
        date.0 == civil_date(days_since_epoch as int).year as i32,
        date.1 == civil_date(days_since_epoch as int).month,
        date.2 == civil_date(days_since_epoch as int).day,
{
    let z: i64 = days_since_epoch + 719_468;
    let era: i64 = (if z >= 0 {
        z
    } else {
        z - 146_096
    }) / 146_097;
    let doe: i64 = z - era * 146_097;
    proof {
        lemma_year_of_era(doe as int);
    }
    let yoe: i64 = (doe - doe / 1_460 + doe / 36_524 - doe / 146_096) / 365;
    let y: i64 = yoe + era * 400;
    let doy: i64 = doe - (365 * yoe + yoe / 4 - yoe / 100);
    let mp: i64 = (5 * doy + 2) / 153;
    let d: i64 = doy - (153 * mp + 2) / 5 + 1;
    let m: i64 = mp + if mp < 10 {
        3
    } else {
        -9
    };
    let year: i64 = y + if m <= 2 {
        1
    } else {
        0
    };
    proof {
        lemma_civil_from_march(era as int, yoe as int, doy as int);
        let date = CivilDate { year: year as int, month: m as int, day: d as int };
        law_day_number_identifies_date(date, civil_date(days_since_epoch as int));
    }
    (year as i32, m as u32, d as u32)
}

/// A year in at least four characters, the sign of a negative year among them.
pub open spec fn year_text(year: int) -> Seq<char> {
    if year >= 0 {
        padded(year as nat, 4)
    } else {
        seq!['-'] + padded((-year) as nat, 3)
    }
}

/// Month, day and time of day, as they follow the year in a timestamp.
pub open spec fn date_time_tail(month: nat, day: nat, second_of_day: nat) -> Seq<char> {
    seq!['-'] + padded(month, 2) + seq!['-'] + padded(day, 2) + seq!['T'] + padded(
        second_of_day / 3_600,
        2,
    ) + seq![':'] + padded((second_of_day % 3_600) / 60, 2) + seq![':'] + padded(
        second_of_day % 60,
        2,
    ) + seq!['Z']
}

/// The timestamp `YYYY-MM-DDThh:mm:ssZ` of the second that lies `seconds`
/// seconds after 1970-01-01T00:00:00Z. The year is cut to 32 bits.
pub open spec fn timestamp_text(seconds: nat) -> Seq<char> {
    let date = civil_date((seconds / 86_400) as int);
    year_text((date.year as i32) as int) + date_time_tail(
        date.month as nat,
        date.day as nat,
        seconds % 86_400,
    )
}

/// Where the fields of the tail of a timestamp stand.
proof fn lemma_date_time_tail(month: nat, day: nat, second_of_day: nat)
    requires
        month < 100,
        day < 100,
        second_of_day < 86_400,
    ensures
        ({
            let tail = date_time_tail(month, day, second_of_day);
            &&& tail.len() == 16
            &&& tail.subrange(1, 3) == padded(month, 2)
            &&& tail.subrange(4, 6) == padded(day, 2)
            &&& tail.subrange(7, 9) == padded(second_of_day / 3_600, 2)
            &&& tail.subrange(10, 12) == padded((second_of_day % 3_600) / 60, 2)
            &&& tail.subrange(13, 15) == padded(second_of_day % 60, 2)
        }),
{
    lemma_padded_two(month);
    lemma_padded_two(day);
    lemma_padded_two(second_of_day / 3_600);
    lemma_padded_two((second_of_day % 3_600) / 60);
    lemma_padded_two(second_of_day % 60);
    let tail = date_time_tail(month, day, second_of_day);
    assert(tail.subrange(1, 3) =~= padded(month, 2));
    assert(tail.subrange(4, 6) =~= padded(day, 2));
    assert(tail.subrange(7, 9) =~= padded(second_of_day / 3_600, 2));
    assert(tail.subrange(10, 12) =~= padded((second_of_day % 3_600) / 60, 2));
    assert(tail.subrange(13, 15) =~= padded(second_of_day % 60, 2));
}

/// The text of a year identifies it.
proof fn lemma_year_text_injective(a: int, b: int)
    requires
        year_text(a) == year_text(b),
    ensures
        a == b,
{
    if a >= 0 {
        lemma_padded_starts_with_digit(a as nat, 4);
    } else {
        assert(year_text(a).skip(1) =~= padded((-a) as nat, 3));
    }
    if b >= 0 {
        lemma_padded_starts_with_digit(b as nat, 4);
    } else {
        assert(year_text(b).skip(1) =~= padded((-b) as nat, 3));
    }
    if a >= 0 && b >= 0 {
        lemma_padded_injective(a as nat, b as nat, 4);
    } else if a < 0 && b < 0 {
        lemma_padded_injective((-a) as nat, (-b) as nat, 3);
    }
}

/// A timestamp identifies its second, as long as the year fits in 32 bits.
pub proof fn law_timestamp_identifies_second(a: u64, b: u64)
    requires
        civil_date((a / 86_400) as int).year <= i32::MAX,
        civil_date((b / 86_400) as int).year <= i32::MAX,
        timestamp_text(a as nat) == timestamp_text(b as nat),
    ensures
        a == b,
{
    let da = civil_date((a / 86_400) as int);
    let db = civil_date((b / 86_400) as int);
    law_every_day_has_a_date((a / 86_400) as int);
    law_every_day_has_a_date((b / 86_400) as int);
    lemma_epoch_year(da);
    lemma_epoch_year(db);
    let ya = year_text(da.year);
    let yb = year_text(db.year);
    let ta = date_time_tail(da.month as nat, da.day as nat, (a % 86_400) as nat);
    let tb = date_time_tail(db.month as nat, db.day as nat, (b % 86_400) as nat);
    lemma_date_time_tail(da.month as nat, da.day as nat, (a % 86_400) as nat);
    lemma_date_time_tail(db.month as nat, db.day as nat, (b % 86_400) as nat);
    assert(ya + ta == yb + tb);
    assert((ya + ta).take(ya.len() as int) =~= ya);
    assert((yb + tb).take(yb.len() as int) =~= yb);
    assert((ya + ta).skip(ya.len() as int) =~= ta);
    assert((yb + tb).skip(yb.len() as int) =~= tb);
    lemma_year_text_injective(da.year, db.year);
    lemma_padded_injective(da.month as nat, db.month as nat, 2);
    lemma_padded_injective(da.day as nat, db.day as nat, 2);
    lemma_padded_injective((a % 86_400) as nat / 3_600, (b % 86_400) as nat / 3_600, 2);
    lemma_padded_injective(
        ((a % 86_400) as nat % 3_600) / 60,
        ((b % 86_400) as nat % 3_600) / 60,
        2,
    );
    lemma_padded_injective((a % 86_400) as nat % 60, (b % 86_400) as nat % 60, 2);
}

/// The marks between the fields of the tail of a timestamp.
proof fn lemma_date_time_marks(month: nat, day: nat, second_of_day: nat)
    requires
        month < 100,
        day < 100,
        second_of_day < 86_400,
    ensures
        ({
            let tail = date_time_tail(month, day, second_of_day);
            &&& tail.len() == 16
            &&& tail[0] == '-'
            &&& tail[3] == '-'
            &&& tail[6] == 'T'
            &&& tail[9] == ':'
            &&& tail[12] == ':'
            &&& tail[15] == 'Z'
        }),
{
    lemma_padded_two(month);
    lemma_padded_two(day);
    lemma_padded_two(second_of_day / 3_600);
    lemma_padded_two((second_of_day % 3_600) / 60);
    lemma_padded_two(second_of_day % 60);
}

/// The date that a timestamp shows.
pub open spec fn date_shown(timestamp: Seq<char>) -> CivilDate {
    let n = timestamp.len() as int;
    CivilDate {
        year: number(timestamp.take(n - 16)),
        month: number(timestamp.subrange(n - 15, n - 13)),
        day: number(timestamp.subrange(n - 12, n - 10)),
    }
}

/// The second of the day that a timestamp shows.
pub open spec fn second_of_day_shown(timestamp: Seq<char>) -> int {
    let n = timestamp.len() as int;
    number(timestamp.subrange(n - 9, n - 7)) * 3_600 + number(timestamp.subrange(n - 6, n - 4)) * 60
        + number(timestamp.subrange(n - 3, n - 1))
}

/// The number that the text of a year stands for.
pub open spec fn year_shown(text: Seq<char>) -> int {
    if text.len() > 0 && text[0] == '-' {
        -number(text.skip(1))
    } else {
        number(text)
    }
}

/// The text of a year is read as that year. It fills four characters, and has no
/// leading zeros where it is longer.
pub proof fn law_year_is_read_back(year: int)
    ensures
        year_shown(year_text(year)) == year,
        year_text(year).len() >= 4,
        year_text(year).len() > 4 ==> is_decimal(
            if year >= 0 {
                year_text(year)
            } else {
                year_text(year).skip(1)
            },
        ),
{
    if year >= 0 {
        law_padded_is_read_back(year as nat, 4);
    } else {
        law_padded_is_read_back((-year) as nat, 3);
        assert(year_text(year).skip(1) =~= padded((-year) as nat, 3));
    }
}

/// A timestamp shows the day of its second, the year cut to 32 bits, and the
/// time of that day.
pub proof fn law_timestamp_fields(seconds: nat)
    ensures
        ({
            let text = timestamp_text(seconds);
            let n = text.len() as int;
            let date = civil_date((seconds / 86_400) as int);
            &&& n >= 20
            &&& text[n - 16] == '-'
            &&& text[n - 13] == '-'
            &&& text[n - 10] == 'T'
            &&& text[n - 7] == ':'
            &&& text[n - 4] == ':'
            &&& text[n - 1] == 'Z'
            &&& year_shown(text.take(n - 16)) == date.year as i32
            &&& date_shown(text).month == date.month
            &&& date_shown(text).day == date.day
            &&& second_of_day_shown(text) == seconds % 86_400
        }),
{
    let date = civil_date((seconds / 86_400) as int);
    law_every_day_has_a_date((seconds / 86_400) as int);
    let of_day = seconds % 86_400;
    let year = year_text((date.year as i32) as int);
    let tail = date_time_tail(date.month as nat, date.day as nat, of_day);
    let text = timestamp_text(seconds);
    law_year_is_read_back((date.year as i32) as int);
    lemma_date_time_tail(date.month as nat, date.day as nat, of_day);
    lemma_date_time_marks(date.month as nat, date.day as nat, of_day);
    law_padded_is_read_back(date.month as nat, 2);
    law_padded_is_read_back(date.day as nat, 2);
    law_padded_is_read_back(of_day / 3_600, 2);
    law_padded_is_read_back((of_day % 3_600) / 60, 2);
    law_padded_is_read_back(of_day % 60, 2);
    assert(text == year + tail);
    let n = text.len() as int;
    assert(text.take(n - 16) =~= year);
    assert(text.subrange(n - 15, n - 13) =~= tail.subrange(1, 3));
    assert(text.subrange(n - 12, n - 10) =~= tail.subrange(4, 6));
    assert(text.subrange(n - 9, n - 7) =~= tail.subrange(7, 9));
    assert(text.subrange(n - 6, n - 4) =~= tail.subrange(10, 12));
    assert(text.subrange(n - 3, n - 1) =~= tail.subrange(13, 15));
}

/// A timestamp is read as the second that it was made of: it has the form
/// `YYYY-MM-DDThh:mm:ssZ`, and the day and the time that it shows are those of
/// the second. The years that do not fit in 32 bits are left out.
pub proof fn law_timestamp_is_read_back(seconds: nat)
    requires
        civil_date((seconds / 86_400) as int).year <= i32::MAX,
    ensures
        ({
            let text = timestamp_text(seconds);
            let n = text.len() as int;
            &&& n >= 20
            &&& text[n - 16] == '-'
            &&& text[n - 13] == '-'
            &&& text[n - 10] == 'T'
            &&& text[n - 7] == ':'
            &&& text[n - 4] == ':'
            &&& text[n - 1] == 'Z'
            &&& forall|i: int|
                0 <= i < n && i != n - 16 && i != n - 13 && i != n - 10 && i != n - 7 && i != n - 4
                    && i != n - 1 ==> '0' <= #[trigger] text[i] <= '9'
            &&& n > 20 ==> text[0] != '0'
            &&& date_shown(text) == civil_date((seconds / 86_400) as int)
            &&& number(text.subrange(n - 9, n - 7)) < 24
            &&& number(text.subrange(n - 6, n - 4)) < 60
            &&& number(text.subrange(n - 3, n - 1)) < 60
            &&& date_shown(text).day_number() * 86_400 + second_of_day_shown(text) == seconds
        }),
{
    let date = civil_date((seconds / 86_400) as int);
    law_every_day_has_a_date((seconds / 86_400) as int);
    lemma_epoch_year(date);
    let of_day = seconds % 86_400;
    let year = padded(date.year as nat, 4);
    let tail = date_time_tail(date.month as nat, date.day as nat, of_day);
    let text = timestamp_text(seconds);
    lemma_date_time_tail(date.month as nat, date.day as nat, of_day);
    lemma_date_time_marks(date.month as nat, date.day as nat, of_day);
    law_padded_is_read_back(date.year as nat, 4);
    law_padded_is_read_back(date.month as nat, 2);
    law_padded_is_read_back(date.day as nat, 2);
    law_padded_is_read_back(of_day / 3_600, 2);
    law_padded_is_read_back((of_day % 3_600) / 60, 2);
    law_padded_is_read_back(of_day % 60, 2);
    assert(text == year + tail);
    let n = text.len() as int;
    let y = year.len() as int;
    assert(text.take(n - 16) =~= year);
    assert(text.subrange(n - 15, n - 13) =~= tail.subrange(1, 3));
    assert(text.subrange(n - 12, n - 10) =~= tail.subrange(4, 6));
    assert(text.subrange(n - 9, n - 7) =~= tail.subrange(7, 9));
    assert(text.subrange(n - 6, n - 4) =~= tail.subrange(10, 12));
    assert(text.subrange(n - 3, n - 1) =~= tail.subrange(13, 15));
    assert forall|i: int|
        0 <= i < n && i != n - 16 && i != n - 13 && i != n - 10 && i != n - 7 && i != n - 4 && i
            != n - 1 implies '0' <= #[trigger] text[i] <= '9' by {
        if i < y {
            assert(text[i] == year[i]);
        } else {
            let k = i - y;
            assert(text[i] == tail[k]);
            if k < 3 {
                assert(tail[k] == tail.subrange(1, 3)[k - 1]);
            } else if k < 6 {
                assert(tail[k] == tail.subrange(4, 6)[k - 4]);
            } else if k < 9 {
                assert(tail[k] == tail.subrange(7, 9)[k - 7]);
            } else if k < 12 {
                assert(tail[k] == tail.subrange(10, 12)[k - 10]);
            } else {
                assert(tail[k] == tail.subrange(13, 15)[k - 13]);
            }
        }
    }
}

/// No day from 1970-01-01 on lies in an earlier year.
proof fn lemma_epoch_year(date: CivilDate)
    requires
        date.valid(),
        date.day_number() >= 0,
    ensures
        date.year >= 1970,
{
    if date.year < 1970 {
        lemma_day_in_year(date);
        lemma_days_before_year_monotone(date.year + 1, 1970);
    }
}

/// Up to the year 9999 a timestamp has the twenty characters of
/// `YYYY-MM-DDThh:mm:ssZ`.
pub proof fn law_timestamp_has_fixed_width(seconds: nat)
    requires
        civil_date((seconds / 86_400) as int).year <= 9_999,
    ensures
        timestamp_text(seconds).len() == 20,
{
    let date = civil_date((seconds / 86_400) as int);
    law_every_day_has_a_date((seconds / 86_400) as int);
    lemma_epoch_year(date);
    lemma_padded_four(date.year as nat);
    lemma_date_time_tail(date.month as nat, date.day as nat, seconds % 86_400);
}

/// Appends a two digit number and the mark that follows it.
fn push_field(out: &mut String, n: u64, mark: char)
    ensures
        final(out)@ == old(out)@ + padded(n as nat, 2) + seq![mark],
{
    push_padded(out, n, 2);
    out.push(mark);
    assert(out@ =~= old(out)@ + padded(n as nat, 2) + seq![mark]);
}

/// The UTC timestamp of a second, counted from 1970-01-01T00:00:00Z.
pub fn format_unix_timestamp_utc(seconds: u64) -> (text: String)
    ensures
        text@ == timestamp_text(seconds as nat),
{
    let days: i64 = (seconds / 86_400) as i64;
    let secs_of_day: u64 = seconds % 86_400;
    let (year, month, day) = civil_from_days(days);
    let hour: u64 = secs_of_day / 3_600;
    let minute: u64 = (secs_of_day % 3_600) / 60;
    let second: u64 = secs_of_day % 60;

    let mut text = String::new();
    if year >= 0 {
        push_padded(&mut text, year as u64, 4);
    } else {
        text.push('-');
        push_padded(&mut text, (-(year as i64)) as u64, 3);
    }
    assert(text@ =~= year_text(year as int));

    let mut tail = String::new();
    tail.push('-');
    assert(tail@ =~= seq!['-']);
    push_field(&mut tail, month as u64, '-');
    push_field(&mut tail, day as u64, 'T');
    push_field(&mut tail, hour, ':');
    push_field(&mut tail, minute, ':');
    push_field(&mut tail, second, 'Z');
    text.append(tail.as_str());
    text
}

} // verus!
