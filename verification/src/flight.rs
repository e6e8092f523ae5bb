//! Flight analytics: trajectory speed, airborne time, takeoff and the
//! state of flight at each fix.

use vstd::prelude::*;

use crate::datetime::{date_text, Date, Duration, Timestamp};
use crate::error::FlightError;
use crate::igc::{first_date, time_ordered, IgcFile, IgcFix, IgcHeaderEntry};

verus! {

/// A pair of fixes counts as flying when its trajectory speed is above this.
pub const MIN_FLYING_SPEED: u32 = 2;

/// A fix is on the ground when its trajectory speed is below this.
pub const LANDED_SPEED: u32 = 1;

/// Square millimetres in one square metre.
pub const MM2_PER_M2: u64 = 1_000_000;

/// Vertical behaviour of the flight at one fix.
#[derive(Clone, Copy, Debug, PartialEq, Eq, Structural)]
pub enum TrackState {
    Landed,
    Gliding,
    Climbing,
}

/// The trajectory speed between two fixes, `(dv² + dh²) / t`, kept as an
/// exact fraction.
///
/// `dv` is the change of altitude and `dh` the distance over ground. The
/// value only serves to be compared with a threshold; it is no speed in
/// metres per second.
#[derive(Clone, Copy, Debug, PartialEq, Eq, Structural)]
pub struct TrajectorySpeed {
    /// Change of altitude, in metres.
    pub climb: i64,
    /// Distance over ground, in millimetres.
    pub ground: u64,
    /// Elapsed time, in seconds.
    pub elapsed: i64,
}

impl TrajectorySpeed {
    /// `dv² + dh²`, in square millimetres.
    pub open spec fn numerator(self) -> int {
        self.climb * self.climb * MM2_PER_M2 + self.ground * self.ground
    }

    /// Whether the speed is above `threshold`. With no time elapsed the
    /// speed is undefined and above nothing.
    pub open spec fn above(self, threshold: nat) -> bool {
        self.elapsed > 0 && self.numerator() > threshold * MM2_PER_M2 * self.elapsed
    }

    /// Whether the speed is below `threshold`. With no time elapsed the
    /// speed is undefined and below nothing; with time running backwards
    /// the speed is negative or zero.
    pub open spec fn below(self, threshold: nat) -> bool {
        ||| self.elapsed > 0 && self.numerator() < threshold * MM2_PER_M2 * self.elapsed
        ||| self.elapsed < 0 && self.numerator() > threshold * MM2_PER_M2 * self.elapsed
    }

    /// `dv² + dh²` where it fits 128 bits.
    fn checked_numerator(&self) -> (r: Option<u128>)
        ensures
            match r {
                Some(n) => n == self.numerator(),
                None => self.numerator() > u128::MAX,
            },
    {
        let rise: u128 = if self.climb >= 0 {
            self.climb as u128
        } else {
            (-(self.climb as i128)) as u128
        };
        assert(rise * rise == self.climb * self.climb) by (nonlinear_arith)
            requires
                rise == self.climb || rise == -self.climb,
        ;
        assert(rise * rise <= 0x8000_0000_0000_0000 * 0x8000_0000_0000_0000) by (nonlinear_arith)
            requires
                0 <= rise <= 0x8000_0000_0000_0000,
        ;
        let rise2: u128 = rise * rise;
        let run: u128 = self.ground as u128;
        assert(run * run <= 0xffff_ffff_ffff_ffff * 0xffff_ffff_ffff_ffff) by (nonlinear_arith)
            requires
                0 <= run <= 0xffff_ffff_ffff_ffff,
        ;
        let run2: u128 = run * run;
        match rise2.checked_mul(MM2_PER_M2 as u128) {
            None => None,
            Some(vertical) => vertical.checked_add(run2),
        }
    }

    /// Whether the speed is above `threshold`.
    pub fn is_above(&self, threshold: u32) -> (r: bool)
        ensures
            r == self.above(threshold as nat),
    {
        if self.elapsed <= 0 {
            return false;
        }
        let bound: u128 = Self::scaled(threshold, self.elapsed);
        match self.checked_numerator() {
            None => true,
            Some(n) => n > bound,
        }
    }

    /// Whether the speed is below `threshold`.
    pub fn is_below(&self, threshold: u32) -> (r: bool)
        ensures
            r == self.below(threshold as nat),
    {
        if self.elapsed == 0 {
            false
        } else if self.elapsed < 0 {
            proof {
                self.lemma_backwards(threshold as nat);
            }
            threshold > 0 || self.climb != 0 || self.ground != 0
        } else {
            let bound: u128 = Self::scaled(threshold, self.elapsed);
            match self.checked_numerator() {
                None => false,
                Some(n) => n < bound,
            }
        }
    }

    /// With time running backwards the bound is negative or zero and the
    /// numerator is not, so the speed is below every threshold but a zero
    /// one met by a pair that did not move.
    proof fn lemma_backwards(self, threshold: nat)
        requires
            self.elapsed < 0,
        ensures
            self.below(threshold) == (threshold > 0 || self.climb != 0 || self.ground != 0),
    {
        let c = self.climb as int;
        let g = self.ground as int;
        let t = self.elapsed as int;
        let k = threshold as int;
        assert(c * c * 1_000_000 + g * g >= 0) by (nonlinear_arith);
        assert((c != 0 || g != 0) ==> c * c * 1_000_000 + g * g > 0) by (nonlinear_arith)
            requires
                g >= 0,
        ;
        assert((c == 0 && g == 0) ==> c * c * 1_000_000 + g * g == 0) by (nonlinear_arith);
        assert(k * 1_000_000 * t <= 0) by (nonlinear_arith)
            requires
                k >= 0,
                t < 0,
        ;
        assert(k > 0 ==> k * 1_000_000 * t < 0) by (nonlinear_arith)
            requires
                k >= 0,
                t < 0,
        ;
        assert(k == 0 ==> k * 1_000_000 * t == 0) by (nonlinear_arith);
    }

    /// `threshold` per second over `elapsed` seconds, in square millimetres.
    fn scaled(threshold: u32, elapsed: i64) -> (r: u128)
        requires
            elapsed > 0,
        ensures
            r == threshold * MM2_PER_M2 * elapsed,
            r < 0x1_0000_0000_0000_0000_0000_0000_0000_0000,
    {
        let rate: u128 = (threshold as u128) * 1_000_000;
        assert(rate * elapsed <= 0xffff_ffff * 1_000_000 * 0x7fff_ffff_ffff_ffff) by (nonlinear_arith)
            requires
                0 <= rate <= 0xffff_ffff * 1_000_000,
                0 < elapsed <= 0x7fff_ffff_ffff_ffff,
        ;
        rate * (elapsed as u128)
    }
}

/// One position of the track's line: longitude first, then latitude, as
/// GeoJSON orders them, then altitude.
#[derive(Clone, Copy, Debug, PartialEq, Eq, Structural)]
pub struct Position {
    /// Longitude in thousandths of an arc minute, east positive.
    pub lon: i32,
    /// Latitude in thousandths of an arc minute, north positive.
    pub lat: i32,
    /// Altitude in metres.
    pub alt: i32,
}

/// Whether `ground` holds one distance for each pair of neighbouring fixes
/// of a track that has at least one pair.
pub open spec fn paired(fixes: Seq<IgcFix>, ground: Seq<u64>) -> bool {
    fixes.len() >= 2 && ground.len() + 1 == fixes.len()
}

/// The trajectory speed from fix `i` to fix `i + 1`, over the ground
/// distance `ground[i]`.
pub open spec fn pair_speed(fixes: Seq<IgcFix>, ground: Seq<u64>, i: int) -> TrajectorySpeed {
    TrajectorySpeed {
        climb: (fixes[i + 1].alt - fixes[i].alt) as i64,
        ground: ground[i],
        elapsed: (fixes[i + 1].ts - fixes[i].ts) as i64,
    }
}

/// Whether the pair of fixes `i` and `i + 1` counts as flying.
pub open spec fn flying(fixes: Seq<IgcFix>, ground: Seq<u64>, i: int) -> bool {
    pair_speed(fixes, ground, i).above(MIN_FLYING_SPEED as nat)
}

/// Whether the pair of fixes `i` and `i + 1` hardly moved.
pub open spec fn resting(fixes: Seq<IgcFix>, ground: Seq<u64>, i: int) -> bool {
    pair_speed(fixes, ground, i).below(LANDED_SPEED as nat)
}

/// The time spent flying over the first `pairs` pairs of fixes: the sum of
/// the elapsed seconds of those that count as flying.
pub open spec fn airborne_seconds(fixes: Seq<IgcFix>, ground: Seq<u64>, pairs: int) -> int
    decreases pairs,
{
    if pairs <= 0 {
        0
    } else {
        airborne_seconds(fixes, ground, pairs - 1) + if flying(fixes, ground, pairs - 1) {
            fixes[pairs].ts - fixes[pairs - 1].ts
        } else {
            0
        }
    }
}

/// The first pair at or after `from` that counts as flying, if there is
/// one.
pub open spec fn first_flying(fixes: Seq<IgcFix>, ground: Seq<u64>, from: int) -> Option<int>
    decreases fixes.len() - from,
{
    if from < 0 || from + 1 >= fixes.len() {
        None
    } else if flying(fixes, ground, from) {
        Some(from)
    } else {
        first_flying(fixes, ground, from + 1)
    }
}

/// The time of day of takeoff: that of the earlier fix of the first pair
/// that counts as flying, or that of the first fix when no pair does.
pub open spec fn takeoff_seconds(fixes: Seq<IgcFix>, ground: Seq<u64>) -> int {
    match first_flying(fixes, ground, 0) {
        Some(i) => fixes[i].ts as int,
        None => fixes[0].ts as int,
    }
}

/// The state of flight at fix `i`.
///
/// A fix between two others is climbing when it is higher than the fix
/// before it; else landed when the pair that ends in it hardly moved; else
/// gliding. The first and the last fix never climb: each is landed when
/// its only pair hardly moved, and gliding otherwise.
pub open spec fn state_at(fixes: Seq<IgcFix>, ground: Seq<u64>, i: int) -> TrackState {
    if i == 0 {
        if resting(fixes, ground, 0) {
            TrackState::Landed
        } else {
            TrackState::Gliding
        }
    } else if i == fixes.len() - 1 {
        if resting(fixes, ground, i - 1) {
            TrackState::Landed
        } else {
            TrackState::Gliding
        }
    } else if fixes[i].alt > fixes[i - 1].alt {
        TrackState::Climbing
    } else if resting(fixes, ground, i - 1) {
        TrackState::Landed
    } else {
        TrackState::Gliding
    }
}

/// The position of each fix, in order.
pub open spec fn line_of(fixes: Seq<IgcFix>) -> Seq<Position> {
    Seq::new(
        fixes.len(),
        |i: int| (Position { lon: fixes[i].lon, lat: fixes[i].lat, alt: fixes[i].alt }),
    )
}

/// Why no flight can be made of a document with these records and ground
/// distances, if anything stands against it.
pub open spec fn refusal(
    header: Seq<IgcHeaderEntry>,
    fixes: Seq<IgcFix>,
    ground: Seq<u64>,
) -> Option<FlightError> {
    if first_date(header) is None {
        Some(FlightError::MissingDateHeader)
    } else if fixes.len() < 2 {
        Some(FlightError::DegenerateTrack)
    } else if ground.len() + 1 != fixes.len() {
        Some(FlightError::DistanceMismatch)
    } else if airborne_seconds(fixes, ground, ground.len() as int) > i64::MAX {
        Some(FlightError::DurationOverflow)
    } else {
        None
    }
}

/// What was learnt of one flight.
#[derive(Clone, Debug, PartialEq, Eq)]
pub struct Flight {
    /// The day of the flight.
    pub date: Date,
    /// The moment of takeoff.
    pub takeoff: Timestamp,
    /// The line of the track.
    pub geojson: Vec<Position>,
    /// The time spent flying.
    pub duration: Duration,
    /// The time from the first fix to the last.
    pub track_duration: Duration,
    /// The state of flight at each fix.
    pub states: Vec<TrackState>,
}

impl Flight {
    /// Analyses the flight recorded in `track`, whose neighbouring fixes
    /// lie `ground` millimetres apart over ground: `ground[i]` is the
    /// distance from fix `i` to fix `i + 1`.
    pub fn new(track: IgcFile, ground: &Vec<u64>) -> (r: Result<Flight, FlightError>)
        ensures
            match r {
                Ok(flight) => {
                    &&& refusal(track.header@, track.fixes@, ground@) is None
                    &&& Some(flight.date) == first_date(track.header@)
                    &&& flight.takeoff.date == flight.date
                    &&& flight.takeoff.seconds == takeoff_seconds(track.fixes@, ground@)
                    &&& flight.geojson@ == line_of(track.fixes@)
                    &&& flight.duration@ == airborne_seconds(
                        track.fixes@,
                        ground@,
                        ground@.len() as int,
                    )
                    &&& flight.track_duration@ == track.fixes@.last().ts - track.fixes@.first().ts
                    &&& flight.states@.len() == track.fixes@.len()
                    &&& forall|i: int|
                        0 <= i < flight.states@.len() ==> flight.states@[i] == state_at(
                            track.fixes@,
                            ground@,
                            i,
                        )
                    &&& time_ordered(track.fixes@) ==> {
                        &&& 0 <= flight.duration@ <= flight.track_duration@
                        &&& track.fixes@.first().ts <= flight.takeoff.seconds
                            <= track.fixes@.last().ts
                    }
                },
                Err(e) => refusal(track.header@, track.fixes@, ground@) == Some(e),
            },
    {
        let date = match track.get_date() {
            Some(date) => date,
            None => {
                return Err(FlightError::MissingDateHeader);
            },
        };
        let track_duration = match track.duration() {
            Ok(span) => span,
            Err(e) => {
                return Err(e);
            },
        };
        if ground.len() != track.fixes.len() - 1 {
            return Err(FlightError::DistanceMismatch);
        }
        let duration = match Self::duration(&track, ground) {
            Some(span) => span,
            None => {
                return Err(FlightError::DurationOverflow);
            },
        };
        proof {
            duration.lemma_fits();
            if time_ordered(track.fixes@) {
                lemma_flight_invariants(track.fixes@, ground@);
            }
        }
        Ok(
            Flight {
                date,
                takeoff: Self::takeoff(&track, ground),
                geojson: Self::geojson(&track),
                duration,
                track_duration,
                states: Self::states(&track, ground),
            },
        )
    }

    /// The flight in a few words: its date, as in `2018-07-16`.
    pub fn to_text(&self) -> (r: String)
        ensures
            r@ == date_text(self.date, seq!['-']),
    {
        proof {
            reveal_strlit("-");
            assert("-"@ =~= seq!['-']);
        }
        self.date.render("-")
    }

    /// The trajectory speed from `start` to `end`, which lie `ground`
    /// millimetres apart over ground.
    pub fn speed_on_trajectory(start: &IgcFix, end: &IgcFix, ground: u64) -> (r: TrajectorySpeed)
        ensures
            r.climb == end.alt - start.alt,
            r.ground == ground,
            r.elapsed == end.ts - start.ts,
    {
        TrajectorySpeed {
            climb: end.alt as i64 - start.alt as i64,
            ground,
            elapsed: end.ts as i64 - start.ts as i64,
        }
    }

    /// The line of the track: the position of each fix, in order.
    pub fn geojson(track: &IgcFile) -> (r: Vec<Position>)
        ensures
            r@ == line_of(track.fixes@),
    {
        let count: usize = track.fixes.len();
        let mut line: Vec<Position> = Vec::new();
        let mut at: usize = 0;
        while at < count
            invariant
                count == track.fixes@.len(),
                at <= count,
                line@.len() == at,
                forall|i: int| 0 <= i < at ==> line@[i] == line_of(track.fixes@)[i],
            decreases count - at,
        {
            let fix = &track.fixes[at];
            line.push(Position { lon: fix.lon, lat: fix.lat, alt: fix.alt });
            at = at + 1;
        }
        assert(line@ =~= line_of(track.fixes@));
        line
    }

    /// The moment of takeoff: on the day of the flight, the time of the
    /// earlier fix of the first pair that counts as flying, or of the
    /// first fix when no pair does.
    pub fn takeoff(track: &IgcFile, ground: &Vec<u64>) -> (r: Timestamp)
        requires
            paired(track.fixes@, ground@),
            first_date(track.header@) is Some,
        ensures
            r.date == first_date(track.header@).unwrap(),
            r.seconds == takeoff_seconds(track.fixes@, ground@),
    {
        let date = track.get_date().unwrap();
        let pairs: usize = ground.len();
        let mut at: usize = 0;
        while at < pairs
            invariant
                paired(track.fixes@, ground@),
                pairs == ground@.len(),
                at <= pairs,
                date == first_date(track.header@).unwrap(),
                first_flying(track.fixes@, ground@, 0) == first_flying(
                    track.fixes@,
                    ground@,
                    at as int,
                ),
            decreases pairs - at,
        {
            let speed = Self::speed_on_trajectory(
                &track.fixes[at],
                &track.fixes[at + 1],
                ground[at],
            );
            assert(speed == pair_speed(track.fixes@, ground@, at as int));
            if speed.is_above(MIN_FLYING_SPEED) {
                return Timestamp { date, seconds: track.fixes[at].ts };
            }
            at = at + 1;
        }
        Timestamp { date, seconds: track.fixes[0].ts }
    }

    /// The time spent flying, or nothing when it does not fit 64 bits.
    pub fn duration(track: &IgcFile, ground: &Vec<u64>) -> (r: Option<Duration>)
        requires
            paired(track.fixes@, ground@),
        ensures
            match r {
                Some(d) => d@ == airborne_seconds(track.fixes@, ground@, ground@.len() as int),
                None => airborne_seconds(track.fixes@, ground@, ground@.len() as int) > i64::MAX,
            },
    {
        let pairs: usize = ground.len();
        let mut total: u128 = 0;
        let mut at: usize = 0;
        while at < pairs
            invariant
                paired(track.fixes@, ground@),
                pairs == ground@.len(),
                at <= pairs,
                total == airborne_seconds(track.fixes@, ground@, at as int),
                total <= at * 0x1_0000_0000,
            decreases pairs - at,
        {
            let speed = Self::speed_on_trajectory(
                &track.fixes[at],
                &track.fixes[at + 1],
                ground[at],
            );
            assert(speed == pair_speed(track.fixes@, ground@, at as int));
            if speed.is_above(MIN_FLYING_SPEED) {
                total = total + speed.elapsed as u128;
            }
            at = at + 1;
        }
        if total <= i64::MAX as u128 {
            Some(Duration::from_seconds(total as i64))
        } else {
            None
        }
    }

    /// The state of flight at each fix of `track`, whose neighbouring
    /// fixes lie `ground` millimetres apart.
    pub fn states(track: &IgcFile, ground: &Vec<u64>) -> (r: Vec<TrackState>)
        requires
            paired(track.fixes@, ground@),
        ensures
            r@.len() == track.fixes@.len(),
            forall|i: int| 0 <= i < r@.len() ==> r@[i] == state_at(track.fixes@, ground@, i),
    {
        let count: usize = track.fixes.len();
        let mut states: Vec<TrackState> = Vec::new();
        let mut at: usize = 0;
        while at < count
            invariant
                paired(track.fixes@, ground@),
                count == track.fixes@.len(),
                at <= count,
                states@.len() == at,
                forall|i: int| 0 <= i < at ==> states@[i] == state_at(track.fixes@, ground@, i),
            decreases count - at,
        {
            let pair: usize = if at == 0 {
                0
            } else {
                at - 1
            };
            let speed = Self::speed_on_trajectory(
                &track.fixes[pair],
                &track.fixes[pair + 1],
                ground[pair],
            );
            assert(speed == pair_speed(track.fixes@, ground@, pair as int));
            let inner: bool = 0 < at && at < count - 1;
            let state = if inner && track.fixes[at].alt > track.fixes[pair].alt {
                TrackState::Climbing
            } else if speed.is_below(LANDED_SPEED) {
                TrackState::Landed
            } else {
                TrackState::Gliding
            };
            states.push(state);
            at = at + 1;
        }
        states
    }
}

/// The pair of neighbouring fixes that decides the state at fix `i`: the
/// pair that ends in it, or for the first fix the pair that begins with
/// it.
pub open spec fn deciding_pair(i: int) -> int {
    if i == 0 {
        0
    } else {
        i - 1
    }
}

/// Climbing comes first: a fix between two others that is higher than the
/// fix before it is climbing, however little it moved.
pub proof fn lemma_climbing_wins(fixes: Seq<IgcFix>, ground: Seq<u64>, i: int)
    requires
        paired(fixes, ground),
        0 < i < fixes.len() - 1,
        fixes[i].alt > fixes[i - 1].alt,
    ensures
        state_at(fixes, ground, i) == TrackState::Climbing,
{
}

/// The state at a fix is decided by its place in the track and by its
/// deciding pair alone: two tracks of one length that agree on the two
/// fixes of that pair and on the distance between them agree on the state,
/// whatever the states around it.
pub proof fn lemma_state_is_local(
    fixes: Seq<IgcFix>,
    ground: Seq<u64>,
    other_fixes: Seq<IgcFix>,
    other_ground: Seq<u64>,
    i: int,
)
    requires
        paired(fixes, ground),
        paired(other_fixes, other_ground),
        fixes.len() == other_fixes.len(),
        0 <= i < fixes.len(),
        fixes[deciding_pair(i)] == other_fixes[deciding_pair(i)],
        fixes[deciding_pair(i) + 1] == other_fixes[deciding_pair(i) + 1],
        ground[deciding_pair(i)] == other_ground[deciding_pair(i)],
    ensures
        state_at(fixes, ground, i) == state_at(other_fixes, other_ground, i),
{
}

/// The airborne time over the first `pairs` pairs is never negative, and
/// it is zero when none of those pairs counts as flying.
pub proof fn lemma_airborne_sign(fixes: Seq<IgcFix>, ground: Seq<u64>, pairs: int)
    ensures
        airborne_seconds(fixes, ground, pairs) >= 0,
        (forall|i: int| 0 <= i < pairs ==> !flying(fixes, ground, i)) ==> airborne_seconds(
            fixes,
            ground,
            pairs,
        ) == 0,
    decreases pairs,
{
    if pairs > 0 {
        lemma_airborne_sign(fixes, ground, pairs - 1);
    }
}

/// Where no pair at or after `from` counts as flying, none is the first
/// that does.
pub proof fn lemma_no_first_flying(fixes: Seq<IgcFix>, ground: Seq<u64>, from: int)
    requires
        0 <= from,
        forall|i: int| from <= i < fixes.len() - 1 ==> !flying(fixes, ground, i),
    ensures
        first_flying(fixes, ground, from) is None,
    decreases fixes.len() - from,
{
    if from + 1 < fixes.len() {
        lemma_no_first_flying(fixes, ground, from + 1);
    }
}

/// Where pair `k` counts as flying and no pair from `from` up to it does,
/// pair `k` is the first that does.
pub proof fn lemma_first_flying_is(fixes: Seq<IgcFix>, ground: Seq<u64>, from: int, k: int)
    requires
        0 <= from <= k < fixes.len() - 1,
        flying(fixes, ground, k),
        forall|i: int| from <= i < k ==> !flying(fixes, ground, i),
    ensures
        first_flying(fixes, ground, from) == Some(k),
    decreases k - from,
{
    if from < k {
        lemma_first_flying_is(fixes, ground, from + 1, k);
    }
}

/// A track on which no pair of neighbouring fixes counts as flying takes
/// off at its first fix and has no airborne time.
pub proof fn lemma_never_flying(fixes: Seq<IgcFix>, ground: Seq<u64>)
    requires
        paired(fixes, ground),
        forall|i: int| 0 <= i < ground.len() ==> !flying(fixes, ground, i),
    ensures
        takeoff_seconds(fixes, ground) == fixes.first().ts,
        airborne_seconds(fixes, ground, ground.len() as int) == 0,
{
    lemma_no_first_flying(fixes, ground, 0);
    lemma_airborne_sign(fixes, ground, ground.len() as int);
}

/// The airborne time over the first `pairs` pairs when `k` is the only
/// pair of the track that counts as flying: its elapsed time once `k` is
/// among them, zero before.
proof fn lemma_airborne_single(fixes: Seq<IgcFix>, ground: Seq<u64>, k: int, pairs: int)
    requires
        paired(fixes, ground),
        0 <= k < ground.len(),
        0 <= pairs <= ground.len(),
        flying(fixes, ground, k),
        forall|i: int| 0 <= i < ground.len() && i != k ==> !flying(fixes, ground, i),
    ensures
        airborne_seconds(fixes, ground, pairs) == if k < pairs {
            fixes[k + 1].ts - fixes[k].ts
        } else {
            0
        },
    decreases pairs,
{
    if pairs > 0 {
        lemma_airborne_single(fixes, ground, k, pairs - 1);
    }
}

/// A track on which exactly one pair of neighbouring fixes counts as
/// flying, the pair `k`, takes off at the earlier fix of that pair, and
/// its airborne time is the time between the two fixes of that pair.
pub proof fn lemma_single_flying_pair(fixes: Seq<IgcFix>, ground: Seq<u64>, k: int)
    requires
        paired(fixes, ground),
        0 <= k < ground.len(),
        flying(fixes, ground, k),
        forall|i: int| 0 <= i < ground.len() && i != k ==> !flying(fixes, ground, i),
    ensures
        takeoff_seconds(fixes, ground) == fixes[k].ts,
        airborne_seconds(fixes, ground, ground.len() as int) == fixes[k + 1].ts - fixes[k].ts,
{
    lemma_first_flying_is(fixes, ground, 0, k);
    lemma_airborne_single(fixes, ground, k, ground.len() as int);
}

/// On a track whose fixes are in the order of their times, the airborne
/// time over the first `pairs` pairs is no longer than the time from the
/// first fix to the last of those pairs.
pub proof fn lemma_airborne_within_track(fixes: Seq<IgcFix>, ground: Seq<u64>, pairs: int)
    requires
        paired(fixes, ground),
        time_ordered(fixes),
        0 <= pairs <= ground.len(),
    ensures
        0 <= airborne_seconds(fixes, ground, pairs) <= fixes[pairs].ts - fixes[0].ts,
    decreases pairs,
{
    if pairs > 0 {
        lemma_airborne_within_track(fixes, ground, pairs - 1);
        assert(fixes[pairs - 1].ts <= fixes[pairs].ts);
    }
}

/// The first pair at or after `from` that counts as flying lies at or
/// after `from` and is a pair of the track.
pub proof fn lemma_first_flying_range(fixes: Seq<IgcFix>, ground: Seq<u64>, from: int)
    requires
        0 <= from,
    ensures
        first_flying(fixes, ground, from) matches Some(k) ==> from <= k < fixes.len() - 1,
    decreases fixes.len() - from,
{
    if from + 1 < fixes.len() && !flying(fixes, ground, from) {
        lemma_first_flying_range(fixes, ground, from + 1);
    }
}

/// On a track whose fixes are in the order of their times: the time from
/// the first fix to the last is at least the airborne time, which is not
/// negative, and takeoff lies between the first fix and the last.
pub proof fn lemma_flight_invariants(fixes: Seq<IgcFix>, ground: Seq<u64>)
    requires
        paired(fixes, ground),
        time_ordered(fixes),
    ensures
        0 <= airborne_seconds(fixes, ground, ground.len() as int) <= fixes.last().ts
            - fixes.first().ts,
        fixes.first().ts <= takeoff_seconds(fixes, ground) <= fixes.last().ts,
{
    lemma_airborne_within_track(fixes, ground, ground.len() as int);
    lemma_first_flying_range(fixes, ground, 0);
    match first_flying(fixes, ground, 0) {
        Some(k) => {
            assert(fixes[0].ts <= fixes[k].ts);
            assert(fixes[k].ts <= fixes[fixes.len() - 1].ts);
        },
        None => {
            assert(fixes[0].ts <= fixes[fixes.len() - 1].ts);
        },
    }
}

} // verus!
