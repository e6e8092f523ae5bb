//! The log of all flights and its index.

use vstd::prelude::*;

use crate::datetime::{Date, Duration, Timestamp};
use crate::flight::Flight;
use crate::ui::{entry_name, FlightlogEntry};

verus! {

/// One line of the index: a flight's takeoff and its name.
#[derive(Debug)]
pub struct FlightLogIndexEntry {
    pub date: Timestamp,
    pub name: String,
}

/// The index of a flight log: one line for each flight, in order.
#[derive(Debug)]
pub struct FlightLogIndex {
    pub entries: Vec<FlightLogIndexEntry>,
}

/// The flights of a log, in the order in which they were added.
#[derive(Debug)]
pub struct FlightLog {
    pub entries: Vec<FlightlogEntry>,
}

/// The sum of the airborne seconds of the flights of `entries`.
pub open spec fn total_flight_seconds(entries: Seq<FlightlogEntry>) -> int
    decreases entries.len(),
{
    if entries.len() == 0 {
        0
    } else {
        total_flight_seconds(entries.drop_last()) + entries.last().flight.duration@
    }
}

/// How many of the first `upto` flights of `entries` were flown on `date`.
pub open spec fn flights_on(entries: Seq<FlightlogEntry>, date: Date, upto: int) -> int
    decreases upto,
{
    if upto <= 0 {
        0
    } else {
        flights_on(entries, date, upto - 1) + if entries[upto - 1].flight.date == date {
            1int
        } else {
            0int
        }
    }
}

/// Whether `line` is the line of the index for `entry`.
pub open spec fn indexes(line: FlightLogIndexEntry, entry: FlightlogEntry) -> bool {
    &&& line.date == entry.flight.takeoff
    &&& line.name@ == entry_name(entry.flight.date, seq!['-'], entry.date_index as int)
}

impl FlightLog {
    pub fn new(entries: Vec<FlightlogEntry>) -> (r: Self)
        ensures
            r.entries == entries,
    {
        Self { entries }
    }

    /// The time spent flying on all flights of the log together, or
    /// nothing where it does not fit 64 bits.
    pub fn get_total_flight_duration(self) -> (r: Option<Duration>)
        ensures
            match r {
                Some(total) => total@ == total_flight_seconds(self.entries@),
                None => !(i64::MIN <= total_flight_seconds(self.entries@) <= i64::MAX),
            },
    {
        let count: usize = self.entries.len();
        let mut total: i128 = 0;
        let mut at: usize = 0;
        while at < count
            invariant
                count == self.entries@.len(),
                at <= count,
                total == total_flight_seconds(self.entries@.take(at as int)),
                -(at * 0x8000_0000_0000_0000) <= total <= at * 0x8000_0000_0000_0000,
            decreases count - at,
        {
            assert(self.entries@.take(at + 1).drop_last() =~= self.entries@.take(at as int));
            assert(self.entries@.take(at + 1).last() == self.entries@[at as int]);
            total = total + self.entries[at].flight.duration.to_seconds() as i128;
            at = at + 1;
        }
        assert(self.entries@.take(count as int) =~= self.entries@);
        if total < i64::MIN as i128 || total > i64::MAX as i128 {
            None
        } else {
            Some(Duration::from_seconds(total as i64))
        }
    }

    /// The index that tells a new flight on `date` apart from the flights
    /// of that day in the log: their number. Nothing where the index does
    /// not fit.
    pub fn next_date_index(&self, date: &Date) -> (r: Option<i8>)
        ensures
            match r {
                Some(index) => index == flights_on(self.entries@, *date, self.entries@.len() as int),
                None => flights_on(self.entries@, *date, self.entries@.len() as int) > i8::MAX,
            },
    {
        let count: usize = self.entries.len();
        let mut found: usize = 0;
        let mut at: usize = 0;
        while at < count
            invariant
                count == self.entries@.len(),
                at <= count,
                found <= at,
                found == flights_on(self.entries@, *date, at as int),
            decreases count - at,
        {
            if self.entries[at].flight.date == *date {
                found = found + 1;
            }
            at = at + 1;
        }
        if found <= 127 {
            Some(found as i8)
        } else {
            None
        }
    }

    /// Adds `flight` to the log, under the index that tells it apart from
    /// the flights of its day that the log holds, and gives that index.
    /// Where the index does not fit, the log stays as it is and the flight
    /// comes back.
    pub fn push(&mut self, flight: Flight) -> (r: Result<i8, Flight>)
        ensures
            match r {
                Ok(index) => {
                    &&& index == flights_on(
                        old(self).entries@,
                        flight.date,
                        old(self).entries@.len() as int,
                    )
                    &&& final(self).entries@ == old(self).entries@.push(
                        FlightlogEntry { date_index: index, flight },
                    )
                },
                Err(back) => {
                    &&& back == flight
                    &&& final(self).entries@ == old(self).entries@
                    &&& flights_on(
                        old(self).entries@,
                        flight.date,
                        old(self).entries@.len() as int,
                    ) > i8::MAX
                },
            },
            indexed_by_day(old(self).entries@) ==> indexed_by_day(final(self).entries@),
    {
        match self.next_date_index(&flight.date) {
            Some(index) => {
                let ghost before = self.entries@;
                self.entries.push(FlightlogEntry::new(index, flight));
                proof {
                    let after = self.entries@;
                    if indexed_by_day(before) {
                        assert forall|i: int| 0 <= i < after.len() implies (#[trigger] after[i]).date_index
                            == flights_on(after, after[i].flight.date, i) by {
                            lemma_flights_on_prefix(
                                before,
                                after[before.len() as int],
                                after[i].flight.date,
                                i,
                            );
                            if i < before.len() {
                                assert(after[i] == before[i]);
                            }
                        }
                    }
                }
                Ok(index)
            },
            None => Err(flight),
        }
    }

    /// The index of the log: for each flight its takeoff and its name,
    /// which is its date, a hyphen and its index among the flights of
    /// that day.
    pub fn index(&self) -> (r: FlightLogIndex)
        ensures
            r.entries@.len() == self.entries@.len(),
            forall|i: int|
                0 <= i < self.entries@.len() ==> indexes(
                    #[trigger] r.entries@[i],
                    self.entries@[i],
                ),
    {
        proof {
            reveal_strlit("-");
            assert("-"@ =~= seq!['-']);
        }
        let count: usize = self.entries.len();
        let mut lines: Vec<FlightLogIndexEntry> = Vec::new();
        let mut at: usize = 0;
        while at < count
            invariant
                count == self.entries@.len(),
                at <= count,
                lines@.len() == at,
                "-"@ == seq!['-'],
                forall|i: int| 0 <= i < at ==> indexes(#[trigger] lines@[i], self.entries@[i]),
            decreases count - at,
        {
            let entry = &self.entries[at];
            lines.push(FlightLogIndexEntry { date: entry.flight.takeoff, name: entry.name("-") });
            at = at + 1;
        }
        FlightLogIndex { entries: lines }
    }
}

/// A flight added at the end of a log changes no count over the flights
/// before it.
pub proof fn lemma_flights_on_prefix(
    entries: Seq<FlightlogEntry>,
    added: FlightlogEntry,
    date: Date,
    upto: int,
)
    requires
        0 <= upto <= entries.len(),
    ensures
        flights_on(entries.push(added), date, upto) == flights_on(entries, date, upto),
    decreases upto,
{
    if upto > 0 {
        lemma_flights_on_prefix(entries, added, date, upto - 1);
    }
}

/// Whether each flight of `entries` has for its index the number of
/// flights of its day that stand before it in the log.
pub open spec fn indexed_by_day(entries: Seq<FlightlogEntry>) -> bool {
    forall|i: int|
        0 <= i < entries.len() ==> (#[trigger] entries[i]).date_index == flights_on(
            entries,
            entries[i].flight.date,
            i,
        )
}

/// The number of flights of a day among the first `upto` never falls as
/// `upto` grows, and it grows past a flight of that day.
pub proof fn lemma_flights_on_grows(
    entries: Seq<FlightlogEntry>,
    date: Date,
    upto: int,
    later: int,
)
    requires
        0 <= upto <= later <= entries.len(),
    ensures
        flights_on(entries, date, upto) <= flights_on(entries, date, later),
        upto < later && entries[upto].flight.date == date ==> flights_on(entries, date, upto)
            < flights_on(entries, date, later),
    decreases later - upto,
{
    if upto < later {
        lemma_flights_on_grows(entries, date, upto, later - 1);
    }
}

/// In a log whose flights are indexed by day, the index tells the flights
/// of one day apart: no two flights share both date and index.
pub proof fn lemma_index_tells_apart(entries: Seq<FlightlogEntry>, i: int, j: int)
    requires
        indexed_by_day(entries),
        0 <= i < j < entries.len(),
        entries[i].flight.date == entries[j].flight.date,
    ensures
        entries[i].date_index < entries[j].date_index,
{
    lemma_flights_on_grows(entries, entries[i].flight.date, i, j);
}

} // verus!
