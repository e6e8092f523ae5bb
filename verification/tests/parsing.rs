use tracklog::datetime::Date;
use tracklog::error::ParseErrorKind;
use tracklog::igc::{parse_line, IgcFile, IgcFix, IgcHeaderEntry, Record};

const SAMPLE: &str = "B1101355206343N00006198WA0058700558";

fn write_fix(fix: &IgcFix) -> String {
    let lat = fix.lat.unsigned_abs();
    let lon = fix.lon.unsigned_abs();
    let altitude = if fix.alt < 0 {
        format!("-{:04}", -fix.alt)
    } else {
        format!("{:05}", fix.alt)
    };
    format!(
        "B{:02}{:02}{:02}{:02}{:05}{}{:03}{:05}{}A00000{}",
        fix.ts / 3600,
        fix.ts / 60 % 60,
        fix.ts % 60,
        lat / 60_000,
        lat % 60_000,
        if fix.lat < 0 { 'S' } else { 'N' },
        lon / 60_000,
        lon % 60_000,
        if fix.lon < 0 { 'W' } else { 'E' },
        altitude
    )
}

fn fix_in(line: &str) -> IgcFix {
    match parse_line(line) {
        Ok(Record::Fix(fix)) => fix,
        other => panic!("no fix in {}: {:?}", line, other),
    }
}

fn kind_of(line: &str) -> ParseErrorKind {
    match parse_line(line) {
        Err(e) => {
            assert_eq!(e.line, line);
            e.reason
        }
        Ok(record) => panic!("{} was read as {:?}", line, record),
    }
}

#[test]
fn reads_a_fix_record() {
    let fix = fix_in(SAMPLE);
    assert_eq!(fix.ts, 11 * 3600 + 60 + 35);
    assert_eq!(fix.lat, 52 * 60_000 + 6_343);
    assert_eq!(fix.lon, -6_198);
    assert_eq!(fix.alt, 558);
}

#[test]
fn reads_fields_at_their_offsets() {
    let fix = fix_in("B2359598959999S17959999EV9999999999trailing");
    assert_eq!(fix.ts, 86_399);
    assert_eq!(fix.lat, -(89 * 60_000 + 59_999));
    assert_eq!(fix.lon, 179 * 60_000 + 59_999);
    assert_eq!(fix.alt, 99_999);
}

#[test]
fn hemisphere_letter_sets_the_sign() {
    let north = fix_in("B1101355206343N00006198EA0058700558");
    let south = fix_in("B1101355206343S00006198EA0058700558");
    let east = fix_in("B1101355206343N00006198EA0058700558");
    let west = fix_in("B1101355206343N00006198WA0058700558");
    assert_eq!(north.lat, 3_126_343);
    assert_eq!(south.lat, -3_126_343);
    assert_eq!(east.lon, 6_198);
    assert_eq!(west.lon, -6_198);
}

#[test]
fn hemisphere_readers_take_the_bare_field() {
    assert_eq!(IgcFile::read_lat_degrees("5206343N"), Ok(3_126_343));
    assert_eq!(IgcFile::read_lat_degrees("5206343S"), Ok(-3_126_343));
    assert_eq!(IgcFile::read_lon_degrees("00006198E"), Ok(6_198));
    assert_eq!(IgcFile::read_lon_degrees("00006198W"), Ok(-6_198));
    assert_eq!(IgcFile::read_lat_degrees("5206343E"), Err(ParseErrorKind::InvalidHemisphere));
    assert_eq!(IgcFile::read_lon_degrees("00006198N"), Err(ParseErrorKind::InvalidHemisphere));
    assert_eq!(IgcFile::read_lat_degrees("52o6343N"), Err(ParseErrorKind::NotANumber));
    assert_eq!(IgcFile::read_time("110135"), Ok(39_695));
    assert_eq!(IgcFile::read_time("000000"), Ok(0));
}

#[test]
fn negative_altitude_is_read() {
    assert_eq!(fix_in("B1101355206343N00006198WA00587-0042").alt, -42);
    assert_eq!(fix_in("B1101355206343N00006198WA00587+0042").alt, 42);
    assert_eq!(fix_in("B1101355206343N00006198WA0058700000").alt, 0);
}

#[test]
fn written_fixes_are_read_back() {
    let fixes = [
        IgcFix { ts: 0, lat: 0, lon: 0, alt: 0 },
        IgcFix { ts: 86_399, lat: 5_999_999, lon: 59_999_999, alt: 99_999 },
        IgcFix { ts: 39_695, lat: -5_999_999, lon: -59_999_999, alt: -9_999 },
        IgcFix { ts: 36_000, lat: 3_126_343, lon: -6_198, alt: 558 },
        IgcFix { ts: 1, lat: -1, lon: 1, alt: -1 },
        IgcFix { ts: 3_600, lat: 60_000, lon: -60_000, alt: 10_000 },
    ];
    for fix in fixes {
        let line = write_fix(&fix);
        assert_eq!(line.len(), 35);
        assert_eq!(fix_in(&line), fix);
    }
}

#[test]
fn written_sample_is_the_sample_but_for_pressure_altitude() {
    let fix = fix_in(SAMPLE);
    assert_eq!(write_fix(&fix), "B1101355206343N00006198WA0000000558");
}

#[test]
fn too_short_fix_record_is_an_error() {
    assert_eq!(kind_of("B"), ParseErrorKind::TooShort);
    assert_eq!(kind_of("B1101355206343N00006198WA005870055"), ParseErrorKind::TooShort);
}

#[test]
fn non_digit_in_a_digit_field_is_an_error() {
    assert_eq!(kind_of("B11o1355206343N00006198WA0058700558"), ParseErrorKind::NotANumber);
    assert_eq!(kind_of("B 101355206343N00006198WA0058700558"), ParseErrorKind::NotANumber);
    assert_eq!(kind_of("B11013552.6343N00006198WA0058700558"), ParseErrorKind::NotANumber);
    assert_eq!(kind_of("B1101355206343N0000619xWA0058700558"), ParseErrorKind::NotANumber);
    assert_eq!(kind_of("B1101355206343N00006198WA005870055x"), ParseErrorKind::NotANumber);
    assert_eq!(kind_of("B1101355206343N00006198WA00587-----"), ParseErrorKind::NotANumber);
    assert_eq!(kind_of("B1101355206343N00006198WA0058700-58"), ParseErrorKind::NotANumber);
}

#[test]
fn time_out_of_the_day_is_an_error() {
    assert_eq!(kind_of("B2401355206343N00006198WA0058700558"), ParseErrorKind::InvalidTime);
    assert_eq!(kind_of("B1160355206343N00006198WA0058700558"), ParseErrorKind::InvalidTime);
    assert_eq!(kind_of("B1101605206343N00006198WA0058700558"), ParseErrorKind::InvalidTime);
}

#[test]
fn unknown_hemisphere_is_an_error() {
    assert_eq!(kind_of("B1101355206343X00006198WA0058700558"), ParseErrorKind::InvalidHemisphere);
    assert_eq!(kind_of("B1101355206343N00006198XA0058700558"), ParseErrorKind::InvalidHemisphere);
    assert_eq!(kind_of("B1101355206343E00006198WA0058700558"), ParseErrorKind::InvalidHemisphere);
    assert_eq!(kind_of("B1101355206343n00006198WA0058700558"), ParseErrorKind::InvalidHemisphere);
}

#[test]
fn first_unreadable_field_decides_the_error() {
    assert_eq!(kind_of("B2501355206343X0000619xWA0058700558"), ParseErrorKind::InvalidTime);
    assert_eq!(kind_of("B1101355206343X0000619xWA0058700558"), ParseErrorKind::InvalidHemisphere);
    assert_eq!(kind_of("B110135520634xX00006198WA0058700558"), ParseErrorKind::NotANumber);
}

#[test]
fn date_header_is_read() {
    let expected = Record::Header(IgcHeaderEntry::Date { date: Date { year: 2018, month: 7, day: 16 } });
    assert_eq!(parse_line("HFDTE160718").unwrap(), expected);
    assert_eq!(parse_line("HFDTEDATE:160718,01").unwrap(), expected);
    assert_eq!(parse_line("HFDTE:160718").unwrap(), expected);
    assert_eq!(
        parse_line("HFDTE010199").unwrap(),
        Record::Header(IgcHeaderEntry::Date { date: Date { year: 1999, month: 1, day: 1 } })
    );
}

#[test]
fn other_headers_are_unsupported() {
    let unsupported = Record::Header(IgcHeaderEntry::Unsupported);
    assert_eq!(parse_line("HFPLTPILOTINCHARGE:Somebody").unwrap(), unsupported);
    assert_eq!(parse_line("HFDTM100GPSDATUM:WGS-1984").unwrap(), unsupported);
    assert_eq!(parse_line("H").unwrap(), unsupported);
    assert_eq!(parse_line("HFDT").unwrap(), unsupported);
}

#[test]
fn unreadable_date_is_an_error() {
    assert_eq!(kind_of("HFDTE"), ParseErrorKind::InvalidDate);
    assert_eq!(kind_of("HFDTE320718"), ParseErrorKind::InvalidDate);
    assert_eq!(kind_of("HFDTE161318"), ParseErrorKind::InvalidDate);
    assert_eq!(kind_of("HFDTEDATE:"), ParseErrorKind::InvalidDate);
    assert_eq!(kind_of("HFDTEDATE:xx0718"), ParseErrorKind::InvalidDate);
    assert_eq!(kind_of("HFDTE290219"), ParseErrorKind::InvalidDate);
}

#[test]
fn other_records_are_ignored() {
    assert_eq!(parse_line("").unwrap(), Record::Ignored);
    assert_eq!(parse_line("AXXX001").unwrap(), Record::Ignored);
    assert_eq!(parse_line("b1101355206343N00006198WA0058700558").unwrap(), Record::Ignored);
    assert_eq!(parse_line("I013638FXA").unwrap(), Record::Ignored);
    assert_eq!(parse_line(" B").unwrap(), Record::Ignored);
}

fn lines(text: &[&str]) -> Vec<String> {
    text.iter().map(|line| line.to_string()).collect()
}

#[test]
fn document_keeps_records_in_file_order() {
    let file = IgcFile::new(&lines(&[
        "AXXX001",
        "HFDTE160718",
        "HFPLTPILOTINCHARGE:Somebody",
        "B1000005206343N00006198WA0058701000",
        "LXXX a comment",
        "B1000105206343N00006198WA0058701050",
        "HFDTE170718",
        "B1000205206343N00006198WA0058701040",
    ]))
    .unwrap();
    assert_eq!(
        file.header,
        vec![
            IgcHeaderEntry::Date { date: Date { year: 2018, month: 7, day: 16 } },
            IgcHeaderEntry::Unsupported,
            IgcHeaderEntry::Date { date: Date { year: 2018, month: 7, day: 17 } },
        ]
    );
    assert_eq!(file.fixes.len(), 3);
    assert_eq!(file.fixes[0].ts, 36_000);
    assert_eq!(file.fixes[1].alt, 1_050);
    assert_eq!(file.fixes[2].ts, 36_020);
    assert_eq!(file.get_date(), Some(Date { year: 2018, month: 7, day: 16 }));
}

#[test]
fn document_without_date_header_has_no_date() {
    let file = IgcFile::new(&lines(&["HFPLTPILOTINCHARGE:Somebody", SAMPLE])).unwrap();
    assert_eq!(file.get_date(), None);
    let empty = IgcFile::new(&lines(&[])).unwrap();
    assert_eq!(empty.get_date(), None);
    assert!(empty.fixes.is_empty());
    assert!(empty.header.is_empty());
}

#[test]
fn malformed_file_does_not_stop_the_next() {
    let bad = lines(&["HFDTE160718", SAMPLE, "B", "B11o1355206343N00006198WA0058700558"]);
    let good = lines(&["HFDTE160718", SAMPLE, SAMPLE]);
    let mut read = 0;
    let mut failed = Vec::new();
    for file in [&bad, &good] {
        match IgcFile::new(file) {
            Ok(document) => {
                read += 1;
                assert_eq!(document.fixes.len(), 2);
            }
            Err(e) => failed.push(e),
        }
    }
    assert_eq!(read, 1);
    assert_eq!(failed.len(), 1);
    assert_eq!(failed[0].line, "B");
    assert_eq!(failed[0].reason, ParseErrorKind::TooShort);
}

#[test]
fn non_ascii_lines_are_read_by_character() {
    assert_eq!(parse_line("LXXX Zürich").unwrap(), Record::Ignored);
    assert_eq!(
        parse_line("HFPLTPILOTINCHARGE:Jürg").unwrap(),
        Record::Header(IgcHeaderEntry::Unsupported)
    );
    assert_eq!(kind_of("B11013552063é3N00006198WA0058700558"), ParseErrorKind::NotANumber);
    assert_eq!(fix_in("B1101355206343N00006198WA0058700558é").alt, 558);
}
