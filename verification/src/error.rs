//! What can go wrong while reading a tracklog or analysing a flight.

use vstd::prelude::*;

verus! {

/// Why a record could not be read.
#[derive(Clone, Copy, Debug, PartialEq, Eq, Structural)]
pub enum ParseErrorKind {
    /// The line ends before the last field of its record type.
    TooShort,
    /// A digit field holds something else than digits.
    NotANumber,
    /// The digits of the time field are no time of day.
    InvalidTime,
    /// The letter after a latitude is not `N` or `S`, or the one after a
    /// longitude is not `E` or `W`.
    InvalidHemisphere,
    /// The date header does not hold a calendar date.
    InvalidDate,
}

/// A record that could not be read, with the text of its line.
#[derive(Clone, Debug, PartialEq, Eq)]
pub struct ParseError {
    pub line: String,
    pub reason: ParseErrorKind,
}

/// Why no flight could be made of a document.
#[derive(Clone, Copy, Debug, PartialEq, Eq, Structural)]
pub enum FlightError {
    /// The document holds no date header.
    MissingDateHeader,
    /// The document holds fewer than two fixes.
    DegenerateTrack,
    /// The ground distances are not one for each pair of neighbouring
    /// fixes.
    DistanceMismatch,
    /// The airborne time does not fit 64 bits.
    DurationOverflow,
}

} // verus!
