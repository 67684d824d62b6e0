//! Dates and times: days by number, weeks by year and number, and timestamps in words.

use crate::text::{
    decimal, decimal_signed, decimals_have_their_value, push_decimal, push_signed, value_of,
};
use chrono::Datelike;
use vstd::prelude::*;

verus! {

/// The number of days before the first of a year, the first day of year 1 being day 1.
pub open spec fn days_before(year: int) -> int {
    365 * (year - 1) + (year - 1) / 4 - (year - 1) / 100 + (year - 1) / 400
}

/// Whether a day is one that can be computed with, from the years -262143 to 262142.
pub open spec fn valid_day(day: int) -> bool {
    days_before(-262143) < day <= days_before(262143)
}

/// The number of a day's week, counted from Monday, the first day of year 1.
pub open spec fn week_of(day: int) -> int {
    (day - 1) / 7
}

/// The Thursday of a week.
pub open spec fn thursday(week: int) -> int {
    7 * week + 4
}

/// Whether a week is the one of that number in that year of the ISO calendar: a week belongs to
/// the year of its Thursday, and is counted from the first in that year.
pub open spec fn is_iso_week(week: int, year: int, number: int) -> bool {
    &&& days_before(year) < thursday(week) <= days_before(year + 1)
    &&& number == (thursday(week) - days_before(year) - 1) / 7 + 1
}

/// The date that `NaiveDate::parse_from_str` reads in a text by a format, as the number of a day, or
/// its error in words.
pub uninterp spec fn parsed_date(text: Seq<char>, format: Seq<char>) -> Result<i32, Seq<char>>;

/// What `DateTime::parse_from_rfc3339` reads in a text: the day in the text's own time zone, and the
/// instant in seconds since 1970 and nanoseconds on top.
pub uninterp spec fn timestamp(text: Seq<char>) -> Option<(i32, i64, u32)>;

/// `NaiveDate::parse_from_str`, with the date as the number of its day; such a day is one that can
/// be computed with.
#[verifier::external_body]
pub(crate) fn parse_date(text: &str, format: &str) -> (r: Result<i32, String>)
    ensures
        match r {
            Ok(day) => parsed_date(text@, format@) == Ok::<i32, Seq<char>>(day) && valid_day(
                day as int,
            ),
            Err(error) => parsed_date(text@, format@) == Err::<i32, Seq<char>>(error@),
        },
{
    chrono::NaiveDate::parse_from_str(text, format)
        .map(|date| date.num_days_from_ce())
        .map_err(|err| err.to_string())
}

/// `DateTime::parse_from_rfc3339`, with the instant as the number of its day, its seconds and its
/// nanoseconds.
#[verifier::external_body]
pub(crate) fn parse_timestamp(text: &str) -> (r: Option<(i32, i64, u32)>)
    ensures
        r == timestamp(text@),
{
    chrono::DateTime::parse_from_rfc3339(text).ok().map(
        |t|
            (t.date_naive().num_days_from_ce(), t.timestamp(), t.timestamp_subsec_nanos()),
    )
}

/// `Datelike::iso_week` of the day with the given number: the year and the number of its week in the
/// ISO calendar, for every day that can be computed with.
#[verifier::external_body]
fn iso_week(day: i32) -> (r: Option<(i32, u32)>)
    ensures
        match r {
            Some((year, number)) => valid_day(day as int) && is_iso_week(
                week_of(day as int),
                year as int,
                number as int,
            ),
            None => !valid_day(day as int),
        },
{
    chrono::NaiveDate::from_num_days_from_ce_opt(day).map(
        |date| (date.iso_week().year(), date.iso_week().week()),
    )
}

/// An instant
#[derive(Debug)]
pub struct Now {
    /// In words, as RFC 3339 has them
    pub text: String,
    /// The number of the day
    pub day: i32,
}

/// Whether a text is as long as a timestamp in whole seconds, which has 25 characters where its year
/// has four digits. Then it can be read, unless its offset from UTC is one of 24 hours.
pub open spec fn tells_time(text: Seq<char>) -> bool {
    &&& text.len() >= 25
    &&& text.len() == 25 && !"24:00"@.is_suffix_of(text) ==> timestamp(text) is Some
}

/// Whether a text tells a time of the day with the given number.
pub open spec fn tells_day(text: Seq<char>, day: int) -> bool {
    &&& tells_time(text)
    &&& text.len() == 25 <==> days_before(0) < day <= days_before(10000)
    &&& timestamp(text) matches Some(t) ==> t.0 == day
}

/// `Local::now`, as text by `to_rfc3339_opts` in whole seconds, and as the number of the day. The
/// text has the date of that day: 25 characters in the years 0 to 9999, and more in others, which are
/// written with a sign. `parse_from_rfc3339` reads those of 25 characters, with one exception: an
/// offset from UTC that is within half a minute of 24 hours is written as 24 hours, and not read.
/// What the time is, is left open.
#[verifier::external_body]
pub(crate) fn local_now() -> (r: Now)
    ensures
        valid_day(r.day as int),
        tells_day(r.text@, r.day as int),
{
    let now = chrono::Local::now();
    Now {
        text: now.to_rfc3339_opts(chrono::SecondsFormat::Secs, false),
        day: now.date_naive().num_days_from_ce(),
    }
}

/// A year has days.
proof fn lemma_year_has_days(year: int)
    ensures
        days_before(year) < days_before(year + 1),
{
}

/// Later years begin later.
proof fn lemma_later_years(a: int, b: int)
    requires
        a <= b,
    ensures
        days_before(a) <= days_before(b),
        a < b ==> days_before(a) < days_before(b),
    decreases b - a,
{
    if a < b {
        lemma_later_years(a, b - 1);
        lemma_year_has_days(b - 1);
    }
}

/// A week has one number in one year, and no two weeks share them.
pub proof fn weeks_have_their_own_numbers(
    week: int,
    year: int,
    number: int,
    other_week: int,
    other_year: int,
    other_number: int,
)
    requires
        is_iso_week(week, year, number),
        is_iso_week(other_week, other_year, other_number),
    ensures
        week == other_week <==> year == other_year && number == other_number,
{
    if year < other_year {
        lemma_later_years(year + 1, other_year);
    } else if other_year < year {
        lemma_later_years(other_year + 1, year);
    }
}

/// The text for the week of that number in that year.
pub open spec fn week_text(year: int, number: int) -> Seq<char> {
    decimal_signed(year) + "-w"@ + decimal(number as nat) + ".json"@
}

/// Whether a text is the name of the file for a week.
pub open spec fn is_week_file(name: Seq<char>, week: int) -> bool {
    exists|year: int, number: int| #[trigger]
        is_iso_week(week, year, number) && number >= 0 && name == week_text(year, number)
}

/// Find the worklog filename corresponding to the given day.
pub fn date_to_fname(day: i32) -> (r: String)
    requires
        valid_day(day as int),
    ensures
        is_week_file(r@, week_of(day as int)),
{
    let mut name = String::new();
    match iso_week(day) {
        Some((year, number)) => {
            push_signed(&mut name, year as isize);
            name.append("-w");
            push_decimal(&mut name, number as usize);
            name.append(".json");
            proof {
                assert(name@ =~= week_text(year as int, number as int));
                assert(is_iso_week(week_of(day as int), year as int, number as int));
            }
        },
        None => {},
    }
    name
}

/// Decimal digits only.
spec fn only_digits(s: Seq<char>) -> bool {
    forall|i: int| 0 <= i < s.len() ==> 48 <= (#[trigger] s[i]) as u32 <= 57
}

/// Numbers are written in digits, and different ones differently.
proof fn lemma_decimal(a: nat, b: nat)
    ensures
        only_digits(decimal(a)),
        decimal(a).len() >= 1,
        decimal(a) == decimal(b) ==> a == b,
    decreases a,
{
    let da = decimal(a);
    let db = decimal(b);
    assert(decimal(b).len() >= 1);
    if a >= 10 {
        lemma_decimal(a / 10, b / 10);
        assert(da == decimal(a / 10).push(crate::text::digit(a % 10)));
    }
    if da == db {
        assert(da.last() == db.last());
        if a >= 10 && b >= 10 {
            assert(da.drop_last() =~= decimal(a / 10));
            assert(db.drop_last() =~= decimal(b / 10));
        } else if a >= 10 {
            assert(da.len() == decimal(a / 10).len() + 1);
            assert(db.len() == 1);
        } else if b >= 10 {
            lemma_decimal_nonempty(b / 10);
            assert(db.len() == decimal(b / 10).len() + 1);
            assert(da.len() == 1);
        }
    }
}

/// A number has a digit.
proof fn lemma_decimal_nonempty(a: nat)
    ensures
        decimal(a).len() >= 1,
{
}

/// Signed numbers are written differently too, and without the letter `w`.
proof fn lemma_decimal_signed(a: int, b: int)
    ensures
        !decimal_signed(a).contains('w'),
        decimal_signed(a) == decimal_signed(b) ==> a == b,
{
    let x = if a < 0 {
        (-a) as nat
    } else {
        a as nat
    };
    let y = if b < 0 {
        (-b) as nat
    } else {
        b as nat
    };
    lemma_decimal(x, y);
    lemma_decimal(y, x);
    if a < 0 {
        assert(decimal_signed(a).skip(1) =~= decimal(x));
    }
    if b < 0 {
        assert(decimal_signed(b).skip(1) =~= decimal(y));
    }
    if decimal_signed(a) == decimal_signed(b) {
        if a < 0 && b >= 0 {
            assert(decimal_signed(a)[0] == '-');
            assert(decimal(y)[0] as u32 >= 48);
        } else if a >= 0 && b < 0 {
            assert(decimal_signed(b)[0] == '-');
            assert(decimal(x)[0] as u32 >= 48);
        }
    }
    assert forall|i: int| 0 <= i < decimal_signed(a).len() implies decimal_signed(a)[i] != 'w' by {
        if a < 0 && i > 0 {
            assert(decimal_signed(a)[i] == decimal(x)[i - 1]);
        }
    }
}

/// Each week has its own file: a name is that of one week only.
#[verifier::spinoff_prover]
pub proof fn weeks_have_their_own_files(name: Seq<char>, a: int, b: int)
    requires
        is_week_file(name, a),
        is_week_file(name, b),
    ensures
        a == b,
{
    let (ya, na) = choose|year: int, number: int| #[trigger]
        is_iso_week(a, year, number) && number >= 0 && name == week_text(year, number);
    let (yb, nb) = choose|year: int, number: int| #[trigger]
        is_iso_week(b, year, number) && number >= 0 && name == week_text(year, number);
    reveal_strlit("-w");
    reveal_strlit(".json");
    lemma_decimal_signed(ya, yb);
    lemma_decimal_signed(yb, ya);
    let la = decimal_signed(ya).len() as int;
    let lb = decimal_signed(yb).len() as int;
    assert(name[la + 1] == 'w');
    assert(name[lb + 1] == 'w');
    if la < lb {
        if la + 1 < lb {
            assert(decimal_signed(yb)[la + 1] == name[la + 1]);
        } else {
            assert(name[lb] == '-');
        }
    } else if lb < la {
        if lb + 1 < la {
            assert(decimal_signed(ya)[lb + 1] == name[lb + 1]);
        } else {
            assert(name[la] == '-');
        }
    }
    assert(decimal_signed(ya) =~= name.take(la));
    assert(decimal_signed(yb) =~= name.take(lb));
    let da = decimal(na as nat);
    let db = decimal(nb as nat);
    assert(da =~= name.subrange(la + 2, name.len() - 5));
    assert(db =~= name.subrange(lb + 2, name.len() - 5));
    lemma_decimal(na as nat, nb as nat);
    weeks_have_their_own_numbers(a, ya, na, b, yb, nb);
}

/// What the model is told of the time.
pub fn time_message(weekday: &str, time: &str) -> (r: String)
    ensures
        r@ == "The current date and time is "@ + weekday@ + ", "@ + time@,
{
    let mut out = String::new();
    out.append("The current date and time is ");
    out.append(weekday);
    out.append(", ");
    out.append(time);
    assert(out@ =~= "The current date and time is "@ + weekday@ + ", "@ + time@);
    out
}

/// The file of a week is named by the year and the number of the week: the year, then `-w` and the
/// number, in digits that have their value, then the ending of JSON files.
pub proof fn week_files_are_named_by_year_and_number(year: int, number: nat)
    ensures
        ({
            let name = week_text(year, number as int);
            let start = decimal_signed(year).len() as int;
            let end = name.len() - 5;
            &&& name.take(start) == decimal_signed(year)
            &&& name[start] == '-' && name[start + 1] == 'w'
            &&& value_of(name.subrange(start + 2, end)) == number
            &&& name.skip(end) == seq!['.', 'j', 's', 'o', 'n']
        }),
{
    reveal_strlit("-w");
    reveal_strlit(".json");
    let name = week_text(year, number as int);
    let start = decimal_signed(year).len() as int;
    let end = name.len() - 5;
    decimals_have_their_value(number);
    assert(name.take(start) =~= decimal_signed(year));
    assert(name.subrange(start + 2, end) =~= decimal(number));
    assert(name.skip(end) =~= seq!['.', 'j', 's', 'o', 'n']);
}

/// Seven days that follow each other from a Monday on are one week, and the next day is in the next.
pub proof fn weeks_have_seven_days(week: int, day: int)
    ensures
        week_of(day) == week <==> 7 * week + 1 <= day <= 7 * week + 7,
        week_of(day + 7) == week_of(day) + 1,
{
}

} // verus!
