//! Elapsed-time spans, calendar dates and times of day.

use chrono::{Datelike, NaiveDate};
use vstd::prelude::*;
use vstd::string::*;

use crate::text::{padded_digits, push_padded, push_signed, signed_digits};

verus! {

/// An elapsed-time span in whole seconds. Negative spans run backwards.
#[derive(Clone, Copy, Debug, PartialEq, Eq, Structural)]
pub struct Duration {
    seconds: i64,
}

impl View for Duration {
    type V = int;

    closed spec fn view(&self) -> int {
        self.seconds as int
    }
}

/// The text of a span of so many hours, minutes and seconds, as in
/// `1h 2m 5s`.
pub open spec fn parts_text(hours: int, minutes: int, seconds: int) -> Seq<char> {
    signed_digits(hours, 1) + seq!['h', ' '] + signed_digits(minutes, 1) + seq!['m', ' ']
        + signed_digits(seconds, 1) + seq!['s']
}

/// The text of a span of `seconds` seconds: its whole hours, the minutes
/// past the hour and the seconds past the minute. Only the minutes and
/// the seconds stay below sixty. The parts of a negative span are those
/// of the span of the same length, each negated.
pub open spec fn duration_text(seconds: int) -> Seq<char> {
    if seconds < 0 {
        parts_text(-((-seconds) / 3600), -(((-seconds) / 60) % 60), -((-seconds) % 60))
    } else {
        parts_text(seconds / 3600, (seconds / 60) % 60, seconds % 60)
    }
}

/// The sum of the seconds of `spans`.
pub open spec fn total_seconds(spans: Seq<Duration>) -> int
    decreases spans.len(),
{
    if spans.len() == 0 {
        0
    } else {
        total_seconds(spans.drop_last()) + spans.last()@
    }
}

/// Summing spans is associative, and the zero span changes no sum: the
/// sum of two runs of spans, one after the other, is the sum of their
/// sums, and the sum of no spans is zero.
pub proof fn lemma_total_seconds_concat(first: Seq<Duration>, second: Seq<Duration>)
    ensures
        total_seconds(first + second) == total_seconds(first) + total_seconds(second),
        total_seconds(Seq::<Duration>::empty()) == 0,
    decreases second.len(),
{
    if second.len() == 0 {
        assert(first + second =~= first);
    } else {
        lemma_total_seconds_concat(first, second.drop_last());
        assert((first + second).drop_last() =~= first + second.drop_last());
        assert((first + second).last() == second.last());
    }
}

impl Duration {
    /// The text of the span, as in `1h 2m 5s`.
    pub fn render(&self) -> (r: String)
        ensures
            r@ == duration_text(self@),
    {
        proof {
            reveal_strlit("h ");
            reveal_strlit("m ");
            reveal_strlit("s");
        }
        let negative: bool = self.seconds < 0;
        let magnitude: u64 = if negative {
            (-(self.seconds as i128)) as u64
        } else {
            self.seconds as u64
        };
        let hours: i64 = (magnitude / 3600) as i64;
        let minutes: i64 = ((magnitude / 60) % 60) as i64;
        let seconds: i64 = (magnitude % 60) as i64;
        let mut out = String::new();
        push_signed(
            &mut out,
            if negative {
                -hours
            } else {
                hours
            },
            1,
        );
        out.append("h ");
        push_signed(
            &mut out,
            if negative {
                -minutes
            } else {
                minutes
            },
            1,
        );
        out.append("m ");
        push_signed(
            &mut out,
            if negative {
                -seconds
            } else {
                seconds
            },
            1,
        );
        out.append("s");
        assert(out@ =~= duration_text(self@));
        out
    }

    /// The sum of `spans`, or nothing where it does not fit 64 bits. The
    /// sum of no spans is the zero span.
    pub fn sum(spans: &Vec<Duration>) -> (r: Option<Duration>)
        ensures
            match r {
                Some(total) => total@ == total_seconds(spans@),
                None => !(i64::MIN <= total_seconds(spans@) <= i64::MAX),
            },
    {
        let count: usize = spans.len();
        let mut total: i128 = 0;
        let mut at: usize = 0;
        while at < count
            invariant
                count == spans@.len(),
                at <= count,
                total == total_seconds(spans@.take(at as int)),
                -(at * 0x8000_0000_0000_0000) <= total <= at * 0x8000_0000_0000_0000,
            decreases count - at,
        {
            assert(spans@.take(at + 1).drop_last() =~= spans@.take(at as int));
            assert(spans@.take(at + 1).last() == spans@[at as int]);
            total = total + spans[at].seconds as i128;
            at = at + 1;
        }
        assert(spans@.take(count as int) =~= spans@);
        if total < i64::MIN as i128 || total > i64::MAX as i128 {
            None
        } else {
            Some(Duration { seconds: total as i64 })
        }
    }

    /// The span of `seconds` seconds.
    pub fn from_seconds(seconds: i64) -> (r: Self)
        ensures
            r@ == seconds,
    {
        Duration { seconds }
    }

    /// A span holds a number of seconds that fits 64 bits.
    pub proof fn lemma_fits(self)
        ensures
            i64::MIN <= self@ <= i64::MAX,
    {
    }

    /// The whole number of seconds in the span.
    pub fn to_seconds(&self) -> (r: i64)
        ensures
            r == self@,
    {
        self.seconds
    }
}

/// A calendar date.
#[derive(Clone, Copy, Debug, PartialEq, Eq, Structural)]
pub struct Date {
    pub year: i32,
    pub month: u32,
    pub day: u32,
}

/// The text of `date`: the year in at least four digits, the month and
/// the day in at least two each, with `separator` between them.
pub open spec fn date_text(date: Date, separator: Seq<char>) -> Seq<char> {
    signed_digits(date.year as int, 4) + separator + padded_digits(date.month as nat, 2)
        + separator + padded_digits(date.day as nat, 2)
}

impl Date {
    /// The text of the date, year first, with `separator` between year,
    /// month and day.
    pub fn render(&self, separator: &str) -> (r: String)
        ensures
            r@ == date_text(*self, separator@),
    {
        let mut out = String::new();
        push_signed(&mut out, self.year as i64, 4);
        out.append(separator);
        push_padded(&mut out, self.month as u64, 2);
        out.append(separator);
        push_padded(&mut out, self.day as u64, 2);
        assert(out@ =~= date_text(*self, separator@));
        out
    }
}

/// The year, month and day that chrono reads at the start of `text` as a
/// date written `%d%m%y`: day, month and the last two digits of the year.
/// Nothing where chrono reads no date there.
pub uninterp spec fn chrono_ddmmyy(text: Seq<char>) -> Option<(i32, u32, u32)>;

/// Reads the date at the start of `text` with chrono's
/// `NaiveDate::parse_and_remainder` and the format `%d%m%y`, and hands out
/// its year, month and day. What follows the date in `text` is left
/// unread. The contract only gives the outcome its name: which texts
/// chrono takes for a date, and for which, is not stated here.
#[verifier::external_body]
pub(crate) fn parse_ddmmyy(text: &str) -> (r: Option<(i32, u32, u32)>)
    ensures
        r == chrono_ddmmyy(text@),
{
    match NaiveDate::parse_and_remainder(text, "%d%m%y") {
        Ok((date, _)) => Some((date.year(), date.month(), date.day())),
        Err(_) => None,
    }
}

/// A moment in UTC: a calendar date and the seconds since its midnight.
#[derive(Clone, Copy, Debug, PartialEq, Eq, Structural)]
pub struct Timestamp {
    pub date: Date,
    pub seconds: u32,
}

} // verus!
