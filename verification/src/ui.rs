//! One flight of a flight log, as it is written out.

use vstd::prelude::*;
use vstd::string::*;

use crate::datetime::{date_text, Date};
use crate::flight::Flight;
use crate::text::{push_signed, signed_digits};

verus! {

/// The name of the flight with index `index` among those of `date`: the
/// date, a hyphen and the index.
pub open spec fn entry_name(date: Date, separator: Seq<char>, index: int) -> Seq<char> {
    date_text(date, separator) + seq!['-'] + signed_digits(index, 1)
}

/// The path of the file of the flight with index `index` among those of
/// `date`, below the directory of the log: a directory for the year, one
/// for the month, and a JSON file named by day and index.
pub open spec fn file_name(date: Date, index: int) -> Seq<char> {
    entry_name(date, seq!['/'], index) + seq!['.', 'j', 's', 'o', 'n']
}

/// A flight with its place among the flights of its day.
#[derive(Debug)]
pub struct FlightlogEntry {
    /// Tells the flights of one day apart.
    pub date_index: i8,
    pub flight: Flight,
}

impl FlightlogEntry {
    pub fn new(date_index: i8, flight: Flight) -> (r: Self)
        ensures
            r.date_index == date_index,
            r.flight == flight,
    {
        Self { date_index, flight }
    }

    /// The name of the flight: its date, written with `separator`, a
    /// hyphen and its index.
    pub fn name(&self, separator: &str) -> (r: String)
        ensures
            r@ == entry_name(self.flight.date, separator@, self.date_index as int),
    {
        proof {
            reveal_strlit("-");
        }
        let mut out = self.flight.date.render(separator);
        out.append("-");
        push_signed(&mut out, self.date_index as i64, 1);
        assert(out@ =~= entry_name(self.flight.date, separator@, self.date_index as int));
        out
    }

    /// The path of the file of the flight, below the directory of the
    /// log.
    pub fn get_filename(&self) -> (r: String)
        ensures
            r@ == file_name(self.flight.date, self.date_index as int),
    {
        proof {
            reveal_strlit("/");
            reveal_strlit(".json");
            assert("/"@ =~= seq!['/']);
            assert(".json"@ =~= seq!['.', 'j', 's', 'o', 'n']);
        }
        let mut out = self.name("/");
        out.append(".json");
        out
    }
}

} // verus!
