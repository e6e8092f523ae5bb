use tracklog::datetime::{Date, Duration, Timestamp};
use tracklog::error::FlightError;
use tracklog::flight::{Flight, Position, TrackState, TrajectorySpeed, LANDED_SPEED, MIN_FLYING_SPEED};
use tracklog::igc::{IgcFile, IgcFix, IgcHeaderEntry};

const DAY: Date = Date { year: 2018, month: 7, day: 16 };

fn fix(ts: u32, alt: i32) -> IgcFix {
    IgcFix { ts, lat: 3_126_343, lon: -6_198, alt }
}

fn track(fixes: Vec<IgcFix>) -> IgcFile {
    IgcFile { header: vec![IgcHeaderEntry::Unsupported, IgcHeaderEntry::Date { date: DAY }], fixes }
}

fn speed(climb: i64, ground: u64, elapsed: i64) -> TrajectorySpeed {
    TrajectorySpeed { climb, ground, elapsed }
}

#[test]
fn thresholds_have_their_values() {
    assert_eq!(MIN_FLYING_SPEED, 2);
    assert_eq!(LANDED_SPEED, 1);
}

#[test]
fn speed_is_squares_over_time() {
    // (3² + 4²) / 5 = 5
    let s = speed(3, 4_000, 5);
    assert!(s.is_above(4));
    assert!(!s.is_above(5));
    assert!(!s.is_below(5));
    assert!(s.is_below(6));
}

#[test]
fn speed_at_the_threshold_is_neither_above_nor_below() {
    // (1² + 1²) / 1 = 2
    let s = speed(1, 1_000, 1);
    assert!(!s.is_above(MIN_FLYING_SPEED));
    assert!(!s.is_below(MIN_FLYING_SPEED));
    assert!(speed(1, 1_001, 1).is_above(MIN_FLYING_SPEED));
    assert!(speed(1, 999, 1).is_below(MIN_FLYING_SPEED));
    // 1.414² < 2 < 1.415²
    assert!(!speed(0, 1_414, 1).is_above(MIN_FLYING_SPEED));
    assert!(speed(0, 1_415, 1).is_above(MIN_FLYING_SPEED));
    assert!(speed(0, 999, 1).is_below(LANDED_SPEED));
    assert!(!speed(0, 1_000, 1).is_below(LANDED_SPEED));
}

#[test]
fn speed_counts_descent_like_climb() {
    assert!(speed(-3, 0, 2).is_above(4));
    assert!(!speed(-3, 0, 2).is_above(5));
    assert!(speed(-1, 0, 2).is_below(1));
}

#[test]
fn speed_without_elapsed_time_compares_with_nothing() {
    let s = speed(50, 55_000, 0);
    assert!(!s.is_above(MIN_FLYING_SPEED));
    assert!(!s.is_above(0));
    assert!(!s.is_below(LANDED_SPEED));
    let still = speed(0, 0, 0);
    assert!(!still.is_above(0));
    assert!(!still.is_below(LANDED_SPEED));
}

#[test]
fn speed_with_time_running_backwards_is_not_positive() {
    let s = speed(50, 55_000, -10);
    assert!(!s.is_above(MIN_FLYING_SPEED));
    assert!(!s.is_above(0));
    assert!(s.is_below(LANDED_SPEED));
    assert!(s.is_below(0));
    assert!(!speed(0, 0, -10).is_below(0));
    assert!(speed(0, 0, -10).is_below(1));
}

#[test]
fn speed_of_extreme_values_is_compared_exactly() {
    let far = speed(i64::MIN, u64::MAX, i64::MAX);
    assert!(far.is_above(u32::MAX));
    assert!(!far.is_below(u32::MAX));
    let slow = speed(0, 1, i64::MAX);
    assert!(!slow.is_above(1));
    assert!(slow.is_below(1));
    assert!(slow.is_above(0));
    assert!(speed(0, u64::MAX, 1).is_above(u32::MAX));
}

#[test]
fn speed_on_trajectory_takes_differences() {
    let s = Flight::speed_on_trajectory(&fix(36_000, 1_000), &fix(36_010, 1_050), 55_000);
    assert_eq!(s, speed(50, 55_000, 10));
    let back = Flight::speed_on_trajectory(&fix(36_010, 1_050), &fix(36_000, 1_000), 55_000);
    assert_eq!(back, speed(-50, 55_000, -10));
    let wide = Flight::speed_on_trajectory(
        &IgcFix { ts: u32::MAX, lat: 0, lon: 0, alt: i32::MAX },
        &IgcFix { ts: 0, lat: 0, lon: 0, alt: i32::MIN },
        0,
    );
    assert_eq!(wide, speed(i32::MIN as i64 - i32::MAX as i64, 0, -(u32::MAX as i64)));
}

#[test]
fn three_fix_scenario() {
    let flight = Flight::new(
        track(vec![fix(36_000, 1_000), fix(36_010, 1_050), fix(36_020, 1_040)]),
        &vec![55_000, 100],
    )
    .unwrap();
    assert_eq!(flight.states, vec![TrackState::Gliding, TrackState::Climbing, TrackState::Gliding]);
    assert_eq!(flight.date, DAY);
    assert_eq!(flight.takeoff, Timestamp { date: DAY, seconds: 36_000 });
    assert_eq!(flight.duration, Duration::from_seconds(20));
    assert_eq!(flight.track_duration, Duration::from_seconds(20));
    assert_eq!(flight.geojson.len(), 3);
}

#[test]
fn three_fix_scenario_with_a_still_last_pair() {
    let fixes = track(vec![fix(36_000, 1_000), fix(36_010, 1_050), fix(36_020, 1_048)]);
    // (2² + 0.1²) / 10 < 1
    let states = Flight::states(&fixes, &vec![55_000, 100]);
    assert_eq!(states, vec![TrackState::Gliding, TrackState::Climbing, TrackState::Landed]);
}

#[test]
fn climbing_wins_over_landed() {
    let fixes = track(vec![fix(0, 100), fix(100, 101), fix(200, 101), fix(300, 101)]);
    let states = Flight::states(&fixes, &vec![0, 0, 0]);
    assert_eq!(
        states,
        vec![TrackState::Landed, TrackState::Climbing, TrackState::Landed, TrackState::Landed]
    );
}

#[test]
fn boundary_fixes_never_climb() {
    let fixes = track(vec![fix(0, 100), fix(10, 200), fix(20, 300)]);
    let states = Flight::states(&fixes, &vec![0, 0]);
    assert_eq!(states, vec![TrackState::Gliding, TrackState::Climbing, TrackState::Gliding]);
    let slow = track(vec![fix(0, 100), fix(10, 101), fix(20, 102)]);
    assert_eq!(
        Flight::states(&slow, &vec![0, 0]),
        vec![TrackState::Landed, TrackState::Climbing, TrackState::Landed]
    );
}

#[test]
fn two_fixes_share_their_pair() {
    let still = track(vec![fix(0, 100), fix(10, 100)]);
    assert_eq!(Flight::states(&still, &vec![0]), vec![TrackState::Landed, TrackState::Landed]);
    let moving = track(vec![fix(0, 100), fix(10, 100)]);
    assert_eq!(
        Flight::states(&moving, &vec![10_000]),
        vec![TrackState::Gliding, TrackState::Gliding]
    );
}

#[test]
fn pair_without_elapsed_time_is_neither_flying_nor_landed() {
    let fixes = track(vec![fix(0, 100), fix(0, 100), fix(0, 50), fix(10, 50)]);
    let ground = vec![90_000, 0, 0];
    assert_eq!(
        Flight::states(&fixes, &ground),
        vec![TrackState::Gliding, TrackState::Gliding, TrackState::Gliding, TrackState::Landed]
    );
    assert_eq!(Flight::duration(&fixes, &ground), Some(Duration::from_seconds(0)));
    assert_eq!(Flight::takeoff(&fixes, &ground).seconds, 0);
}

#[test]
fn one_state_for_each_fix() {
    for count in 2..40u32 {
        let fixes: Vec<IgcFix> = (0..count).map(|i| fix(i * 10, 1_000 + (i as i32 % 3) * 5)).collect();
        let ground: Vec<u64> = (1..count).map(|i| (i as u64 % 4) * 3_000).collect();
        let states = Flight::states(&track(fixes.clone()), &ground);
        assert_eq!(states.len(), fixes.len());
        let flight = Flight::new(track(fixes.clone()), &ground).unwrap();
        assert_eq!(flight.states.len(), fixes.len());
        assert_eq!(flight.geojson.len(), fixes.len());
    }
}

#[test]
fn no_flying_pair_means_takeoff_at_first_fix() {
    let fixes = track(vec![fix(100, 10), fix(110, 10), fix(120, 11), fix(130, 10)]);
    let ground = vec![1_000, 2_000, 4_000];
    assert_eq!(Flight::takeoff(&fixes, &ground), Timestamp { date: DAY, seconds: 100 });
    assert_eq!(Flight::duration(&fixes, &ground), Some(Duration::from_seconds(0)));
}

#[test]
fn single_flying_pair_gives_takeoff_and_airborne_time() {
    let fixes = track(vec![fix(100, 10), fix(110, 10), fix(125, 40), fix(130, 40)]);
    let ground = vec![1_000, 2_000, 3_000];
    assert_eq!(Flight::takeoff(&fixes, &ground), Timestamp { date: DAY, seconds: 110 });
    assert_eq!(Flight::duration(&fixes, &ground), Some(Duration::from_seconds(15)));
}

#[test]
fn takeoff_is_the_first_flying_pair() {
    let fixes = track(vec![fix(100, 10), fix(110, 10), fix(120, 40), fix(130, 40), fix(150, 90)]);
    let ground = vec![0, 0, 0, 0];
    assert_eq!(Flight::takeoff(&fixes, &ground).seconds, 110);
    assert_eq!(Flight::duration(&fixes, &ground), Some(Duration::from_seconds(30)));
    let flight = Flight::new(fixes, &ground).unwrap();
    assert_eq!(flight.duration.to_seconds(), 30);
    assert_eq!(flight.track_duration.to_seconds(), 50);
    assert!(flight.track_duration.to_seconds() >= flight.duration.to_seconds());
}

#[test]
fn ground_distance_alone_makes_a_pair_fly() {
    let fixes = track(vec![fix(0, 100), fix(10, 100), fix(20, 100)]);
    // 4.472² < 20 < 4.473²
    assert_eq!(Flight::duration(&fixes, &vec![4_472, 4_473]), Some(Duration::from_seconds(10)));
    assert_eq!(Flight::takeoff(&fixes, &vec![4_472, 4_473]).seconds, 10);
}

#[test]
fn line_is_longitude_latitude_altitude() {
    let fixes = track(vec![
        IgcFix { ts: 0, lat: 1, lon: 2, alt: 3 },
        IgcFix { ts: 1, lat: -4, lon: -5, alt: -6 },
    ]);
    assert_eq!(
        Flight::geojson(&fixes),
        vec![Position { lon: 2, lat: 1, alt: 3 }, Position { lon: -5, lat: -4, alt: -6 }]
    );
    assert!(Flight::geojson(&track(Vec::new())).is_empty());
}

#[test]
fn raw_duration_is_last_minus_first() {
    let fixes = track(vec![fix(100, 10), fix(50, 10), fix(130, 40)]);
    assert_eq!(fixes.duration(), Ok(Duration::from_seconds(30)));
    let backwards = track(vec![fix(100, 10), fix(50, 10)]);
    assert_eq!(backwards.duration(), Ok(Duration::from_seconds(-50)));
}

#[test]
fn degenerate_track_has_no_duration() {
    assert_eq!(track(Vec::new()).duration(), Err(FlightError::DegenerateTrack));
    assert_eq!(track(vec![fix(100, 10)]).duration(), Err(FlightError::DegenerateTrack));
}

#[test]
fn time_order_is_checked() {
    assert!(track(Vec::new()).is_time_ordered());
    assert!(track(vec![fix(5, 0)]).is_time_ordered());
    assert!(track(vec![fix(5, 0), fix(5, 0), fix(6, 0)]).is_time_ordered());
    assert!(!track(vec![fix(5, 0), fix(4, 0), fix(6, 0)]).is_time_ordered());
    assert!(!track(vec![fix(86_399, 0), fix(0, 0)]).is_time_ordered());
}

#[test]
fn flight_needs_a_date() {
    let file = IgcFile {
        header: vec![IgcHeaderEntry::Unsupported],
        fixes: vec![fix(0, 0), fix(1, 0)],
    };
    assert_eq!(Flight::new(file, &vec![0]).unwrap_err(), FlightError::MissingDateHeader);
    let bare = IgcFile { header: Vec::new(), fixes: Vec::new() };
    assert_eq!(Flight::new(bare, &Vec::new()).unwrap_err(), FlightError::MissingDateHeader);
}

#[test]
fn flight_needs_two_fixes() {
    assert_eq!(Flight::new(track(Vec::new()), &Vec::new()).unwrap_err(), FlightError::DegenerateTrack);
    assert_eq!(
        Flight::new(track(vec![fix(0, 0)]), &Vec::new()).unwrap_err(),
        FlightError::DegenerateTrack
    );
}

#[test]
fn flight_needs_a_distance_for_each_pair() {
    let fixes = vec![fix(0, 0), fix(1, 0), fix(2, 0)];
    assert_eq!(Flight::new(track(fixes.clone()), &vec![0]).unwrap_err(), FlightError::DistanceMismatch);
    assert_eq!(
        Flight::new(track(fixes.clone()), &vec![0, 0, 0]).unwrap_err(),
        FlightError::DistanceMismatch
    );
    assert!(Flight::new(track(fixes), &vec![0, 0]).is_ok());
}

#[test]
fn flight_takes_the_first_date_header() {
    let file = IgcFile {
        header: vec![
            IgcHeaderEntry::Date { date: DAY },
            IgcHeaderEntry::Date { date: Date { year: 2019, month: 1, day: 1 } },
        ],
        fixes: vec![fix(0, 0), fix(1, 0)],
    };
    let flight = Flight::new(file, &vec![0]).unwrap();
    assert_eq!(flight.date, DAY);
    assert_eq!(flight.takeoff.date, DAY);
}

#[test]
fn flight_from_lines() {
    let lines: Vec<String> = [
        "HFDTE160718",
        "B1000005206343N00006198WA0058701000",
        "B1000105206343N00006248WA0058701050",
        "B1000205206343N00006248WA0058701040",
    ]
    .iter()
    .map(|line| line.to_string())
    .collect();
    let file = IgcFile::new(&lines).unwrap();
    assert!(file.is_time_ordered());
    let flight = Flight::new(file, &vec![56_900, 0]).unwrap();
    assert_eq!(flight.states, vec![TrackState::Gliding, TrackState::Climbing, TrackState::Gliding]);
    assert_eq!(flight.takeoff, Timestamp { date: DAY, seconds: 36_000 });
    assert_eq!(flight.duration.render(), "0h 0m 20s");
    assert_eq!(flight.geojson[1], Position { lon: -6_248, lat: 3_126_343, alt: 1_050 });
}

#[test]
fn flight_is_named_by_its_date() {
    let flight = Flight::new(track(vec![fix(0, 0), fix(1, 0)]), &vec![0]).unwrap();
    assert_eq!(flight.to_text(), "2018-07-16");
}

#[test]
fn document_tells_the_number_of_its_fixes() {
    assert_eq!(track(Vec::new()).to_text(), "0 fixes");
    assert_eq!(track(vec![fix(0, 0), fix(1, 0)]).to_text(), "2 fixes");
    assert_eq!(track((0..120).map(|i| fix(i, 0)).collect()).to_text(), "120 fixes");
}
