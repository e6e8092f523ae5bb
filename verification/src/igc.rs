//! IGC tracklog records: fixes, the date header, and whole documents.

use vstd::prelude::*;
use vstd::string::*;

use crate::datetime::{chrono_ddmmyy, parse_ddmmyy, Date, Duration};
use crate::error::{FlightError, ParseError, ParseErrorKind};
use crate::text::{
    all_digits, decimal_value, fixed_digits, has_prefix, is_digit, lemma_decimal_value_bound,
    lemma_fixed_digits_shape, lemma_fixed_digits_value, lemma_pow10_bound, number_at,
    padded_digits, parse_digits, parse_signed, pow10, push_padded, signed_value, starts_with,
};

verus! {

/// One entry of a document's header.
#[derive(Clone, Copy, Debug, PartialEq, Eq, Structural)]
pub enum IgcHeaderEntry {
    /// The date of the flight.
    Date { date: Date },
    /// A header of any other kind.
    Unsupported,
}

/// One recorded GPS sample.
///
/// Angles are in thousandths of an arc minute, which is the resolution of
/// the record: one degree is 60 000 of them. South and west are negative.
#[derive(Clone, Copy, Debug, PartialEq, Eq, Structural)]
pub struct IgcFix {
    /// Time of day, in seconds since midnight.
    pub ts: u32,
    /// Latitude, north positive.
    pub lat: i32,
    /// Longitude, east positive.
    pub lon: i32,
    /// Altitude in metres.
    pub alt: i32,
}

/// What one line of a tracklog holds.
#[derive(Clone, Copy, Debug, PartialEq, Eq, Structural)]
pub enum Record {
    /// A fix record.
    Fix(IgcFix),
    /// A header record.
    Header(IgcHeaderEntry),
    /// A record of a kind that is not read.
    Ignored,
}

/// The least number of characters of a fix record: it ends with the
/// altitude.
pub const FIX_WIDTH: usize = 35;

/// Thousandths of an arc minute in one degree.
pub const PER_DEGREE: i32 = 60_000;

/// Seconds in one day.
pub const SECONDS_PER_DAY: u32 = 86_400;

/// The time of day written `HHMMSS` in the six characters of `field`, in
/// seconds since midnight.
pub open spec fn time_of(field: Seq<char>) -> Result<u32, ParseErrorKind> {
    match (number_at(field, 0, 2), number_at(field, 2, 4), number_at(field, 4, 6)) {
        (Some(hours), Some(minutes), Some(seconds)) => if hours < 24 && minutes < 60 && seconds
            < 60 {
            Ok((hours * 3600 + minutes * 60 + seconds) as u32)
        } else {
            Err(ParseErrorKind::InvalidTime)
        },
        _ => Err(ParseErrorKind::NotANumber),
    }
}

/// The angle written in `field` as `degree_digits` digits of degrees, five
/// digits of thousandths of a minute and a letter: `positive` leaves the
/// angle as written, `negative` turns its sign.
pub open spec fn angle_of(field: Seq<char>, degree_digits: int, positive: char, negative: char)
    -> Result<i32, ParseErrorKind> {
    match (number_at(field, 0, degree_digits), number_at(field, degree_digits, degree_digits + 5)) {
        (Some(degrees), Some(minutes)) => if field[degree_digits + 5] == positive {
            Ok((degrees * PER_DEGREE + minutes) as i32)
        } else if field[degree_digits + 5] == negative {
            Ok((-(degrees * PER_DEGREE + minutes)) as i32)
        } else {
            Err(ParseErrorKind::InvalidHemisphere)
        },
        _ => Err(ParseErrorKind::NotANumber),
    }
}

/// The latitude written in the eight characters of `field`: two digits of
/// degrees, five of thousandths of a minute, and `N` or `S`. South is
/// negative.
pub open spec fn latitude_of(field: Seq<char>) -> Result<i32, ParseErrorKind> {
    angle_of(field, 2, 'N', 'S')
}

/// The longitude written in the nine characters of `field`: three digits
/// of degrees, five of thousandths of a minute, and `E` or `W`. West is
/// negative.
pub open spec fn longitude_of(field: Seq<char>) -> Result<i32, ParseErrorKind> {
    angle_of(field, 3, 'E', 'W')
}

/// The fix written in the record `line`: the time of day in characters 2
/// to 7, counted from one, the latitude in 8 to 15, the longitude in 16 to
/// 24 and the altitude, a signed number of metres, in 31 to 35. The first
/// field that cannot be read decides the error.
pub open spec fn fix_of(line: Seq<char>) -> Result<IgcFix, ParseErrorKind> {
    if line.len() < FIX_WIDTH {
        Err(ParseErrorKind::TooShort)
    } else {
        match time_of(line.subrange(1, 7)) {
            Err(e) => Err(e),
            Ok(ts) => match latitude_of(line.subrange(7, 15)) {
                Err(e) => Err(e),
                Ok(lat) => match longitude_of(line.subrange(15, 24)) {
                    Err(e) => Err(e),
                    Ok(lon) => match signed_value(line.subrange(30, 35)) {
                        None => Err(ParseErrorKind::NotANumber),
                        Some(alt) => Ok(IgcFix { ts, lat, lon, alt: alt as i32 }),
                    },
                },
            },
        }
    }
}

/// The tag of the header that holds the date of the flight.
pub open spec fn date_tag() -> Seq<char> {
    seq!['H', 'F', 'D', 'T', 'E']
}

/// The tag of the date header in its long form, with the colon that ends
/// it.
pub open spec fn long_date_tag() -> Seq<char> {
    seq!['H', 'F', 'D', 'T', 'E', 'D', 'A', 'T', 'E', ':']
}

/// Where the date begins in the header `line`, if it is a date header:
/// after `HFDTEDATE:`, after `HFDTE:`, or right after `HFDTE`.
pub open spec fn date_start(line: Seq<char>) -> Option<int> {
    if has_prefix(line, long_date_tag()) {
        Some(10)
    } else if has_prefix(line, date_tag().push(':')) {
        Some(6)
    } else if has_prefix(line, date_tag()) {
        Some(5)
    } else {
        None
    }
}

/// The header entry that comes of what chrono read in a date header.
pub open spec fn date_entry_of(read: Option<(i32, u32, u32)>) -> Result<
    IgcHeaderEntry,
    ParseErrorKind,
> {
    match read {
        Some((year, month, day)) => Ok(IgcHeaderEntry::Date { date: Date { year, month, day } }),
        None => Err(ParseErrorKind::InvalidDate),
    }
}

/// The entry written in the header record `line`. A date header holds
/// what chrono reads as a date at the place where its date begins; every
/// other header is unsupported.
pub open spec fn header_of(line: Seq<char>) -> Result<IgcHeaderEntry, ParseErrorKind> {
    match date_start(line) {
        Some(start) => date_entry_of(chrono_ddmmyy(line.subrange(start, line.len() as int))),
        None => Ok(IgcHeaderEntry::Unsupported),
    }
}

/// What the line `line` holds: a fix where it begins with `B`, a header
/// entry where it begins with `H`, and nothing that is read otherwise.
pub open spec fn record_of(line: Seq<char>) -> Result<Record, ParseErrorKind> {
    if line.len() > 0 && line[0] == 'B' {
        match fix_of(line) {
            Ok(fix) => Ok(Record::Fix(fix)),
            Err(e) => Err(e),
        }
    } else if line.len() > 0 && line[0] == 'H' {
        match header_of(line) {
            Ok(entry) => Ok(Record::Header(entry)),
            Err(e) => Err(e),
        }
    } else {
        Ok(Record::Ignored)
    }
}

/// Whether `r` is what reading `line` gives: the record, or the error
/// with its kind and the text of the line.
pub open spec fn reads_as<T>(
    r: Result<T, ParseError>,
    line: Seq<char>,
    expected: Result<T, ParseErrorKind>,
) -> bool {
    match r {
        Ok(value) => expected == Ok::<T, ParseErrorKind>(value),
        Err(e) => expected == Err::<T, ParseErrorKind>(e.reason) && e.line@ == line,
    }
}

/// The error of kind `reason` on the line `line`.
pub fn error_on(line: &str, reason: ParseErrorKind) -> (e: ParseError)
    ensures
        e.reason == reason,
        e.line@ == line@,
{
    ParseError { line: line.to_owned(), reason }
}

/// Reads one line of a tracklog.
pub fn parse_line(raw: &str) -> (r: Result<Record, ParseError>)
    ensures
        reads_as(r, raw@, record_of(raw@)),
{
    if raw.unicode_len() == 0 {
        return Ok(Record::Ignored);
    }
    let kind = raw.get_char(0);
    if kind == 'B' {
        match IgcFile::read_igc_record_b(raw) {
            Ok(fix) => Ok(Record::Fix(fix)),
            Err(e) => Err(e),
        }
    } else if kind == 'H' {
        match IgcFile::read_igc_record_h(raw) {
            Ok(entry) => Ok(Record::Header(entry)),
            Err(e) => Err(e),
        }
    } else {
        Ok(Record::Ignored)
    }
}

/// The header entry for what chrono read in the date header `line`, or
/// the error on that line where chrono read no date.
pub fn date_entry(read: Option<(i32, u32, u32)>, line: &str) -> (r: Result<
    IgcHeaderEntry,
    ParseError,
>)
    ensures
        reads_as(r, line@, date_entry_of(read)),
{
    match read {
        Some((year, month, day)) => Ok(IgcHeaderEntry::Date { date: Date { year, month, day } }),
        None => Err(error_on(line, ParseErrorKind::InvalidDate)),
    }
}

/// The records of one tracklog, in file order.
#[derive(Clone, Debug, PartialEq, Eq)]
pub struct IgcFile {
    pub header: Vec<IgcHeaderEntry>,
    pub fixes: Vec<IgcFix>,
}

/// The fixes written in `lines`, in order.
pub open spec fn fixes_of(lines: Seq<Seq<char>>) -> Seq<IgcFix>
    decreases lines.len(),
{
    if lines.len() == 0 {
        Seq::empty()
    } else {
        match record_of(lines.last()) {
            Ok(Record::Fix(fix)) => fixes_of(lines.drop_last()).push(fix),
            _ => fixes_of(lines.drop_last()),
        }
    }
}

/// The header entries written in `lines`, in order.
pub open spec fn header_entries_of(lines: Seq<Seq<char>>) -> Seq<IgcHeaderEntry>
    decreases lines.len(),
{
    if lines.len() == 0 {
        Seq::empty()
    } else {
        match record_of(lines.last()) {
            Ok(Record::Header(entry)) => header_entries_of(lines.drop_last()).push(entry),
            _ => header_entries_of(lines.drop_last()),
        }
    }
}

/// Whether line `k` is the first of `lines` that cannot be read.
pub open spec fn is_first_unreadable(lines: Seq<Seq<char>>, k: int) -> bool {
    &&& 0 <= k < lines.len()
    &&& record_of(lines[k]) is Err
    &&& forall|j: int| 0 <= j < k ==> record_of(#[trigger] lines[j]) is Ok
}

/// The text of each line.
pub open spec fn texts(lines: Seq<String>) -> Seq<Seq<char>> {
    Seq::new(lines.len(), |i: int| lines[i]@)
}

/// The date of the first date entry of `header`, if it holds one.
pub open spec fn first_date(header: Seq<IgcHeaderEntry>) -> Option<Date>
    decreases header.len(),
{
    if header.len() == 0 {
        None
    } else {
        match header[0] {
            IgcHeaderEntry::Date { date } => Some(date),
            IgcHeaderEntry::Unsupported => first_date(header.drop_first()),
        }
    }
}

/// Whether no fix is earlier in the day than a fix before it.
pub open spec fn time_ordered(fixes: Seq<IgcFix>) -> bool {
    forall|i: int, j: int|
        #![trigger fixes[i], fixes[j]]
        0 <= i <= j < fixes.len() ==> fixes[i].ts <= fixes[j].ts
}

impl IgcFile {
    /// Reads a tracklog from its lines. The first line that cannot be read
    /// ends the reading with its error.
    pub fn new(lines: &Vec<String>) -> (r: Result<IgcFile, ParseError>)
        ensures
            match r {
                Ok(file) => {
                    &&& forall|k: int|
                        0 <= k < lines@.len() ==> record_of(#[trigger] texts(lines@)[k]) is Ok
                    &&& file.header@ == header_entries_of(texts(lines@))
                    &&& file.fixes@ == fixes_of(texts(lines@))
                },
                Err(e) => exists|k: int|
                    {
                        &&& is_first_unreadable(texts(lines@), k)
                        &&& record_of(texts(lines@)[k]) == Err::<Record, ParseErrorKind>(e.reason)
                        &&& e.line@ == texts(lines@)[k]
                    },
            },
    {
        let ghost all = texts(lines@);
        let count: usize = lines.len();
        let mut header: Vec<IgcHeaderEntry> = Vec::new();
        let mut fixes: Vec<IgcFix> = Vec::new();
        let mut at: usize = 0;
        while at < count
            invariant
                all == texts(lines@),
                count == lines@.len(),
                at <= count,
                forall|k: int| 0 <= k < at ==> record_of(#[trigger] all[k]) is Ok,
                header@ == header_entries_of(all.take(at as int)),
                fixes@ == fixes_of(all.take(at as int)),
            decreases count - at,
        {
            assert(all.take(at + 1).drop_last() =~= all.take(at as int));
            assert(all.take(at + 1).last() == all[at as int]);
            assert(all[at as int] == lines@[at as int]@);
            match parse_line(lines[at].as_str()) {
                Ok(Record::Fix(fix)) => {
                    fixes.push(fix);
                },
                Ok(Record::Header(entry)) => {
                    header.push(entry);
                },
                Ok(Record::Ignored) => {},
                Err(e) => {
                    assert(is_first_unreadable(all, at as int));
                    return Err(e);
                },
            }
            at = at + 1;
        }
        assert(all.take(count as int) =~= all);
        Ok(IgcFile { header, fixes })
    }

    /// Reads a header record.
    pub fn read_igc_record_h(record: &str) -> (r: Result<IgcHeaderEntry, ParseError>)
        ensures
            reads_as(r, record@, header_of(record@)),
    {
        proof {
            reveal_strlit("HFDTEDATE:");
            reveal_strlit("HFDTE:");
            reveal_strlit("HFDTE");
            assert("HFDTEDATE:"@ =~= long_date_tag());
            assert("HFDTE:"@ =~= date_tag().push(':'));
            assert("HFDTE"@ =~= date_tag());
        }
        let start: usize = if starts_with(record, "HFDTEDATE:") {
            10
        } else if starts_with(record, "HFDTE:") {
            6
        } else if starts_with(record, "HFDTE") {
            5
        } else {
            return Ok(IgcHeaderEntry::Unsupported);
        };
        let payload = record.substring_char(start, record.unicode_len());
        date_entry(parse_ddmmyy(payload), record)
    }

    /// Reads the time of day written `HHMMSS` in the six characters of
    /// `field`.
    pub fn read_time(field: &str) -> (r: Result<u32, ParseErrorKind>)
        requires
            field@.len() == 6,
        ensures
            r == time_of(field@),
    {
        let hours = parse_digits(field, 0, 2);
        let minutes = parse_digits(field, 2, 4);
        let seconds = parse_digits(field, 4, 6);
        match (hours, minutes, seconds) {
            (Some(h), Some(m), Some(s)) => {
                proof {
                    lemma_pow10_bound(2);
                    reveal_with_fuel(pow10, 3);
                }
                if h < 24 && m < 60 && s < 60 {
                    Ok(h * 3600 + m * 60 + s)
                } else {
                    Err(ParseErrorKind::InvalidTime)
                }
            },
            _ => Err(ParseErrorKind::NotANumber),
        }
    }

    /// Reads an angle: `degree_digits` digits of degrees, five digits of
    /// thousandths of a minute, and the letter of its hemisphere.
    fn read_angle(field: &str, degree_digits: usize, positive: char, negative: char) -> (r: Result<
        i32,
        ParseErrorKind,
    >)
        requires
            2 <= degree_digits <= 3,
            field@.len() == degree_digits + 6,
        ensures
            r == angle_of(field@, degree_digits as int, positive, negative),
    {
        let degrees = parse_digits(field, 0, degree_digits);
        let minutes = parse_digits(field, degree_digits, degree_digits + 5);
        match (degrees, minutes) {
            (Some(d), Some(m)) => {
                proof {
                    reveal_with_fuel(pow10, 6);
                }
                let magnitude: i32 = (d * 60_000 + m) as i32;
                let letter = field.get_char(degree_digits + 5);
                if letter == positive {
                    Ok(magnitude)
                } else if letter == negative {
                    Ok(-magnitude)
                } else {
                    Err(ParseErrorKind::InvalidHemisphere)
                }
            },
            _ => Err(ParseErrorKind::NotANumber),
        }
    }

    /// Reads the latitude written in the eight characters of `record`.
    pub fn read_lat_degrees(record: &str) -> (r: Result<i32, ParseErrorKind>)
        requires
            record@.len() == 8,
        ensures
            r == latitude_of(record@),
    {
        Self::read_angle(record, 2, 'N', 'S')
    }

    /// Reads the longitude written in the nine characters of `record`.
    pub fn read_lon_degrees(record: &str) -> (r: Result<i32, ParseErrorKind>)
        requires
            record@.len() == 9,
        ensures
            r == longitude_of(record@),
    {
        Self::read_angle(record, 3, 'E', 'W')
    }

    /// Reads a fix record.
    pub fn read_igc_record_b(record: &str) -> (r: Result<IgcFix, ParseError>)
        ensures
            reads_as(r, record@, fix_of(record@)),
    {
        if record.unicode_len() < FIX_WIDTH {
            return Err(error_on(record, ParseErrorKind::TooShort));
        }
        let ts = match Self::read_time(record.substring_char(1, 7)) {
            Ok(ts) => ts,
            Err(kind) => {
                return Err(error_on(record, kind));
            },
        };
        let lat = match Self::read_lat_degrees(record.substring_char(7, 15)) {
            Ok(lat) => lat,
            Err(kind) => {
                return Err(error_on(record, kind));
            },
        };
        let lon = match Self::read_lon_degrees(record.substring_char(15, 24)) {
            Ok(lon) => lon,
            Err(kind) => {
                return Err(error_on(record, kind));
            },
        };
        let alt = match parse_signed(record, 30, 35) {
            Some(alt) => alt,
            None => {
                return Err(error_on(record, ParseErrorKind::NotANumber));
            },
        };
        Ok(IgcFix { ts, lat, lon, alt })
    }

    /// The time from the first fix to the last. A document with fewer than
    /// two fixes has no such span.
    pub fn duration(&self) -> (r: Result<Duration, FlightError>)
        ensures
            match r {
                Ok(d) => self.fixes@.len() >= 2 && d@ == self.fixes@.last().ts
                    - self.fixes@.first().ts,
                Err(e) => self.fixes@.len() < 2 && e == FlightError::DegenerateTrack,
            },
    {
        let count: usize = self.fixes.len();
        if count < 2 {
            return Err(FlightError::DegenerateTrack);
        }
        let first: i64 = self.fixes[0].ts as i64;
        let last: i64 = self.fixes[count - 1].ts as i64;
        Ok(Duration::from_seconds(last - first))
    }

    /// Whether the fixes are in the order of their times. Where they are
    /// not, the recorder's clock jumped or the flight ran over midnight,
    /// and the durations mean little.
    pub fn is_time_ordered(&self) -> (r: bool)
        ensures
            r == time_ordered(self.fixes@),
    {
        let count: usize = self.fixes.len();
        if count == 0 {
            return true;
        }
        let mut at: usize = 1;
        while at < count
            invariant
                count == self.fixes@.len(),
                1 <= at <= count,
                time_ordered(self.fixes@.take(at as int)),
            decreases count - at,
        {
            if self.fixes[at - 1].ts > self.fixes[at].ts {
                assert(self.fixes@[at - 1].ts > self.fixes@[at as int].ts);
                return false;
            }
            let ghost before = self.fixes@.take(at as int);
            let ghost now = self.fixes@.take(at + 1);
            assert forall|i: int, j: int|
                #![trigger now[i], now[j]]
                0 <= i <= j < now.len() implies now[i].ts <= now[j].ts by {
                if j < at {
                    assert(before[i].ts <= before[j].ts);
                } else if i < at {
                    assert(before[i].ts <= before[at - 1].ts);
                }
            }
            at = at + 1;
        }
        assert(self.fixes@.take(count as int) =~= self.fixes@);
        true
    }

    /// The document in a few words: the number of its fixes.
    pub fn to_text(&self) -> (r: String)
        ensures
            r@ == padded_digits(self.fixes@.len(), 1) + seq![' ', 'f', 'i', 'x', 'e', 's'],
    {
        proof {
            reveal_strlit(" fixes");
            assert(" fixes"@ =~= seq![' ', 'f', 'i', 'x', 'e', 's']);
        }
        let mut out = String::new();
        push_padded(&mut out, self.fixes.len() as u64, 1);
        out.append(" fixes");
        assert(out@ =~= padded_digits(self.fixes@.len(), 1) + seq![' ', 'f', 'i', 'x', 'e', 's']);
        out
    }

    /// The date of the flight: that of the first date entry of the header,
    /// if it holds one.
    pub fn get_date(&self) -> (r: Option<Date>)
        ensures
            r == first_date(self.header@),
    {
        let count: usize = self.header.len();
        let mut at: usize = 0;
        assert(self.header@.skip(0) =~= self.header@);
        while at < count
            invariant
                count == self.header@.len(),
                at <= count,
                first_date(self.header@) == first_date(self.header@.skip(at as int)),
            decreases count - at,
        {
            let ghost rest = self.header@.skip(at as int);
            assert(rest[0] == self.header@[at as int]);
            assert(rest.drop_first() =~= self.header@.skip(at + 1));
            match self.header[at] {
                IgcHeaderEntry::Date { date } => {
                    return Some(date);
                },
                IgcHeaderEntry::Unsupported => {},
            }
            at = at + 1;
        }
        None
    }
}

/// The time of day `ts`, in seconds since midnight, written `HHMMSS`.
pub open spec fn time_text(ts: int) -> Seq<char> {
    fixed_digits((ts / 3600) as nat, 2) + fixed_digits(((ts / 60) % 60) as nat, 2) + fixed_digits(
        (ts % 60) as nat,
        2,
    )
}

/// The angle `angle` written as `degree_digits` digits of degrees, five
/// digits of thousandths of a minute, and `negative` for an angle below
/// zero, `positive` for any other.
pub open spec fn angle_text(angle: int, degree_digits: nat, positive: char, negative: char) -> Seq<
    char,
> {
    let magnitude = if angle < 0 {
        -angle
    } else {
        angle
    };
    fixed_digits((magnitude / 60_000) as nat, degree_digits) + fixed_digits(
        (magnitude % 60_000) as nat,
        5,
    ) + seq![
        if angle < 0 {
            negative
        } else {
            positive
        },
    ]
}

/// The altitude `alt` written in five characters: five digits, or a minus
/// sign and four digits.
pub open spec fn altitude_text(alt: int) -> Seq<char> {
    if alt < 0 {
        seq!['-'] + fixed_digits((-alt) as nat, 4)
    } else {
        fixed_digits(alt as nat, 5)
    }
}

/// The fix record that writes `fix`: it is marked valid, and holds zero
/// for the pressure altitude, which a fix does not keep.
pub open spec fn fix_record(fix: IgcFix) -> Seq<char> {
    seq!['B'] + time_text(fix.ts as int) + angle_text(fix.lat as int, 2, 'N', 'S') + angle_text(
        fix.lon as int,
        3,
        'E',
        'W',
    ) + seq!['A'] + fixed_digits(0, 5) + altitude_text(fix.alt as int)
}

/// Whether the fields of a fix record are wide enough to write `fix`.
pub open spec fn writable(fix: IgcFix) -> bool {
    &&& fix.ts < SECONDS_PER_DAY
    &&& -100 * PER_DEGREE < fix.lat < 100 * PER_DEGREE
    &&& -1000 * PER_DEGREE < fix.lon < 1000 * PER_DEGREE
    &&& -10_000 < fix.alt < 100_000
}

/// The magnitude of the angle written in `field`: its degrees and its
/// thousandths of a minute, whatever its letter.
pub open spec fn angle_magnitude(field: Seq<char>, degree_digits: int) -> int {
    decimal_value(field.subrange(0, degree_digits)) * PER_DEGREE + decimal_value(
        field.subrange(degree_digits, degree_digits + 5),
    )
}

/// The letter of the hemisphere decides the sign of an angle, and nothing
/// else of it: in a field whose digit fields hold digits, the letter
/// `positive` gives the magnitude as written and the letter `negative`
/// gives it negated.
pub proof fn lemma_angle_sign(field: Seq<char>, degree_digits: int, positive: char, negative: char)
    requires
        2 <= degree_digits <= 3,
        field.len() == degree_digits + 6,
        all_digits(field.subrange(0, degree_digits + 5)),
        positive != negative,
    ensures
        0 <= angle_magnitude(field, degree_digits) <= i32::MAX,
        field[degree_digits + 5] == positive ==> angle_of(field, degree_digits, positive, negative)
            == Ok::<i32, ParseErrorKind>(angle_magnitude(field, degree_digits) as i32),
        field[degree_digits + 5] == negative ==> angle_of(field, degree_digits, positive, negative)
            == Ok::<i32, ParseErrorKind>((-angle_magnitude(field, degree_digits)) as i32),
{
    let digits = field.subrange(0, degree_digits + 5);
    let degrees = field.subrange(0, degree_digits);
    let minutes = field.subrange(degree_digits, degree_digits + 5);
    assert forall|i: int| 0 <= i < degrees.len() implies is_digit(#[trigger] degrees[i]) by {
        assert(is_digit(digits[i]));
    }
    assert forall|i: int| 0 <= i < minutes.len() implies is_digit(#[trigger] minutes[i]) by {
        assert(is_digit(digits[i + degree_digits]));
    }
    lemma_decimal_value_bound(degrees);
    lemma_decimal_value_bound(minutes);
    reveal_with_fuel(pow10, 6);
}

/// In a latitude, `S` negates the magnitude and `N` leaves it positive.
pub proof fn lemma_latitude_sign(field: Seq<char>)
    requires
        field.len() == 8,
        all_digits(field.subrange(0, 7)),
    ensures
        angle_magnitude(field, 2) >= 0,
        field[7] == 'N' ==> latitude_of(field) == Ok::<i32, ParseErrorKind>(
            angle_magnitude(field, 2) as i32,
        ),
        field[7] == 'S' ==> latitude_of(field) == Ok::<i32, ParseErrorKind>(
            (-angle_magnitude(field, 2)) as i32,
        ),
{
    lemma_angle_sign(field, 2, 'N', 'S');
}

/// In a longitude, `W` negates the magnitude and `E` leaves it positive.
pub proof fn lemma_longitude_sign(field: Seq<char>)
    requires
        field.len() == 9,
        all_digits(field.subrange(0, 8)),
    ensures
        angle_magnitude(field, 3) >= 0,
        field[8] == 'E' ==> longitude_of(field) == Ok::<i32, ParseErrorKind>(
            angle_magnitude(field, 3) as i32,
        ),
        field[8] == 'W' ==> longitude_of(field) == Ok::<i32, ParseErrorKind>(
            (-angle_magnitude(field, 3)) as i32,
        ),
{
    lemma_angle_sign(field, 3, 'E', 'W');
}

/// Reading a digit field that was written with `fixed_digits` gives the
/// number back.
proof fn lemma_number_at_written(s: Seq<char>, from: int, n: nat, width: nat)
    requires
        0 <= from,
        from + width <= s.len(),
        s.subrange(from, from + width) == fixed_digits(n, width),
        n < pow10(width),
    ensures
        number_at(s, from, from + width) == Some(n as int),
{
    lemma_fixed_digits_shape(n, width);
    lemma_fixed_digits_value(n, width);
}

/// Reading a written time of day gives it back.
pub proof fn lemma_time_round_trip(ts: int)
    requires
        0 <= ts < SECONDS_PER_DAY,
    ensures
        time_text(ts).len() == 6,
        time_of(time_text(ts)) == Ok::<u32, ParseErrorKind>(ts as u32),
{
    let hours = (ts / 3600) as nat;
    let minutes = ((ts / 60) % 60) as nat;
    let seconds = (ts % 60) as nat;
    let text = time_text(ts);
    reveal_with_fuel(pow10, 3);
    lemma_fixed_digits_shape(hours, 2);
    lemma_fixed_digits_shape(minutes, 2);
    lemma_fixed_digits_shape(seconds, 2);
    assert(text.subrange(0, 2) =~= fixed_digits(hours, 2));
    assert(text.subrange(2, 4) =~= fixed_digits(minutes, 2));
    assert(text.subrange(4, 6) =~= fixed_digits(seconds, 2));
    lemma_number_at_written(text, 0, hours, 2);
    lemma_number_at_written(text, 2, minutes, 2);
    lemma_number_at_written(text, 4, seconds, 2);
    assert(hours * 3600 + minutes * 60 + seconds == ts);
}

/// Reading a written angle gives it back.
pub proof fn lemma_angle_round_trip(angle: int, degree_digits: nat, positive: char, negative: char)
    requires
        2 <= degree_digits <= 3,
        -pow10(degree_digits) * PER_DEGREE < angle < pow10(degree_digits) * PER_DEGREE,
        positive != negative,
    ensures
        angle_text(angle, degree_digits, positive, negative).len() == degree_digits + 6,
        angle_of(
            angle_text(angle, degree_digits, positive, negative),
            degree_digits as int,
            positive,
            negative,
        ) == Ok::<i32, ParseErrorKind>(angle as i32),
{
    let magnitude = if angle < 0 {
        -angle
    } else {
        angle
    };
    let degrees = (magnitude / 60_000) as nat;
    let minutes = (magnitude % 60_000) as nat;
    let text = angle_text(angle, degree_digits, positive, negative);
    reveal_with_fuel(pow10, 6);
    lemma_fixed_digits_shape(degrees, degree_digits);
    lemma_fixed_digits_shape(minutes, 5);
    assert(text.subrange(0, degree_digits as int) =~= fixed_digits(degrees, degree_digits));
    assert(text.subrange(degree_digits as int, (degree_digits + 5) as int) =~= fixed_digits(
        minutes,
        5,
    ));
    lemma_number_at_written(text, 0, degrees, degree_digits);
    lemma_number_at_written(text, degree_digits as int, minutes, 5);
    assert(degrees * 60_000 + minutes == magnitude);
}

/// Reading a written altitude gives it back.
pub proof fn lemma_altitude_round_trip(alt: int)
    requires
        -10_000 < alt < 100_000,
    ensures
        altitude_text(alt).len() == 5,
        signed_value(altitude_text(alt)) == Some(alt),
{
    let text = altitude_text(alt);
    reveal_with_fuel(pow10, 6);
    if alt < 0 {
        lemma_fixed_digits_shape((-alt) as nat, 4);
        lemma_fixed_digits_value((-alt) as nat, 4);
        assert(text.subrange(1, 5) =~= fixed_digits((-alt) as nat, 4));
    } else {
        lemma_fixed_digits_shape(alt as nat, 5);
        lemma_fixed_digits_value(alt as nat, 5);
        assert(is_digit(text[0]));
    }
}

/// Reading the record that writes a fix gives the fix back: its time,
/// latitude, longitude and altitude.
pub proof fn lemma_fix_round_trip(fix: IgcFix)
    requires
        writable(fix),
    ensures
        fix_of(fix_record(fix)) == Ok::<IgcFix, ParseErrorKind>(fix),
        record_of(fix_record(fix)) == Ok::<Record, ParseErrorKind>(Record::Fix(fix)),
{
    let line = fix_record(fix);
    reveal_with_fuel(pow10, 4);
    lemma_time_round_trip(fix.ts as int);
    lemma_angle_round_trip(fix.lat as int, 2, 'N', 'S');
    lemma_angle_round_trip(fix.lon as int, 3, 'E', 'W');
    lemma_altitude_round_trip(fix.alt as int);
    lemma_fixed_digits_shape(0, 5);
    assert(line.len() == 35);
    assert(line.subrange(1, 7) =~= time_text(fix.ts as int));
    assert(line.subrange(7, 15) =~= angle_text(fix.lat as int, 2, 'N', 'S'));
    assert(line.subrange(15, 24) =~= angle_text(fix.lon as int, 3, 'E', 'W'));
    assert(line.subrange(30, 35) =~= altitude_text(fix.alt as int));
    assert(line[0] == 'B');
}

} // verus!
