use geoutils::Location;
use nmea_replay::fields::{field_at, field_bounds};
use nmea_replay::navigation::NavState;
use nmea_replay::number::{decimal_field, parse_decimal, unsigned_field_or};
use nmea_replay::pacing::PlaybackClock;
use nmea_replay::replay::{datagram, Pause, Replay};
use nmea_replay::start_filter::{parse_time_of_day, StartFilter};
use nmea_replay::sentence::{kind, parse_sentence, read_fix, read_zda, Kind, Sentence, ZdaTime};
use nmea_replay::survey::{km_tenths, nm_tenths, GeoPoint, Survey};

fn zda(line: &str) -> ZdaTime {
    match parse_sentence(line) {
        Sentence::Zda(z) => z,
        other => panic!("not a ZDA sentence: {:?}", other),
    }
}

fn leg_mm(a: GeoPoint, b: GeoPoint) -> u64 {
    let la = Location::new(a.latitude as f64 / 1e6, a.longitude as f64 / 1e6);
    let lb = Location::new(b.latitude as f64 / 1e6, b.longitude as f64 / 1e6);
    (la.haversine_distance_to(&lb).meters() * 1000.0).round() as u64
}

#[test]
fn fields_split_on_commas() {
    let line = b"$GPDPT,10.38,,x";
    assert_eq!(field_at(line, 0), b"$GPDPT");
    assert_eq!(field_at(line, 1), b"10.38");
    assert_eq!(field_at(line, 2), b"");
    assert_eq!(field_at(line, 3), b"x");
    assert_eq!(field_at(line, 4), b"");
    assert_eq!(field_at(line, 9), b"");
    assert_eq!(field_bounds(line, 1), (7, 12));
    assert_eq!(field_at(b"", 0), b"");
}

#[test]
fn decimals_read_in_millionths() {
    assert_eq!(parse_decimal(b"10.38"), Some(10_380_000));
    assert_eq!(parse_decimal(b"-1.5"), Some(-1_500_000));
    assert_eq!(parse_decimal(b"+2"), Some(2_000_000));
    assert_eq!(parse_decimal(b".5"), Some(500_000));
    assert_eq!(parse_decimal(b"7."), Some(7_000_000));
    assert_eq!(parse_decimal(b"1.23456789"), Some(1_234_567));
    assert_eq!(parse_decimal(b"4937.8509"), Some(4_937_850_900));
    assert_eq!(parse_decimal(b"999999999.999999"), Some(999_999_999_999_999));
    assert_eq!(parse_decimal(b"1000000000"), None);
    assert_eq!(parse_decimal(b"."), None);
    assert_eq!(parse_decimal(b""), None);
    assert_eq!(parse_decimal(b"-"), None);
    assert_eq!(parse_decimal(b"1.2.3"), None);
    assert_eq!(parse_decimal(b"12a"), None);
    assert_eq!(decimal_field(b"abc"), 0);
    assert_eq!(decimal_field(b"0.1"), 100_000);
}

#[test]
fn unsigned_fields_fall_back_to_default() {
    assert_eq!(unsigned_field_or(b"2021", 1970), 2021);
    assert_eq!(unsigned_field_or(b"02", 1), 2);
    assert_eq!(unsigned_field_or(b"", 1970), 1970);
    assert_eq!(unsigned_field_or(b"2x", 1), 1);
    assert_eq!(unsigned_field_or(b"1234567890", 7), 7);
}

#[test]
fn kinds_are_read_from_the_tag() {
    assert_eq!(kind(b"$GPZDA,1"), Kind::Zda);
    assert_eq!(kind(b"$GPGGA,1"), Kind::Gga);
    assert_eq!(kind(b"$IIVTG"), Kind::Vtg);
    assert_eq!(kind(b"$SDDPT,1"), Kind::Dpt);
    assert_eq!(kind(b"$WIVWR,1"), Kind::Vwr);
    assert_eq!(kind(b"$GPRMC,1"), Kind::Other);
    assert_eq!(kind(b"GPGGA,1"), Kind::Other);
    assert_eq!(kind(b"$GGA,1"), Kind::Other);
    assert_eq!(kind(b""), Kind::Other);
}

#[test]
fn zda_gives_date_and_time() {
    let z = zda("$GPZDA,234626.99,22,02,2021,08,00*6A");
    assert_eq!(
        z,
        ZdaTime { year: 2021, month: 2, day: 22, hour: 23, minute: 46, second: 26 }
    );
    assert_eq!(z.millis_or(-1), 1_614_037_586_000);
    assert_eq!(read_zda(b"$GPZDA,234626.99,22,02,2021,08,00*6A"), z);
}

#[test]
fn zda_carries_sixty_seconds_once() {
    let z = zda("$GPZDA,120561,22,02,2021");
    assert_eq!((z.hour, z.minute, z.second), (12, 6, 0));
    assert_eq!(z.millis_or(-1), 1_613_995_560_000);
    let z = zda("$GPZDA,125960,22,02,2021");
    assert_eq!((z.hour, z.minute, z.second), (13, 0, 0));
}

#[test]
fn zda_with_missing_fields_uses_defaults() {
    let z = zda("$GPZDA");
    assert_eq!(z, ZdaTime { year: 1970, month: 1, day: 1, hour: 0, minute: 0, second: 0 });
    assert_eq!(z.millis_or(-1), 0);
    let z = zda("$GPZDA,12");
    assert_eq!((z.hour, z.minute, z.second), (12, 0, 0));
}

#[test]
fn invalid_zda_falls_back() {
    assert_eq!(zda("$GPZDA,120000,30,02,2021").millis_or(42), 42);
    assert_eq!(zda("$GPZDA,120000,29,02,2021").millis_or(42), 42);
    assert_eq!(zda("$GPZDA,000000,29,02,2024").millis_or(42), 1_709_164_800_000);
    assert_eq!(zda("$GPZDA,235960,22,02,2021").millis_or(42), 42);
    assert_eq!(zda("$GPZDA,120000,01,13,2021").millis_or(42), 42);
    assert_eq!(zda("$GPZDA,120000,01,01,300000").millis_or(42), 42);
}

#[test]
fn gga_example_position() {
    let line = "$GPGGA,020659.21,4937.8509,N,12401.4384,W,2,9,0.83,,M,,M*44";
    let f = match parse_sentence(line) {
        Sentence::Gga(f) => f,
        other => panic!("not a fix: {:?}", other),
    };
    assert_eq!(f.latitude.degrees, 49);
    assert_eq!(f.latitude.minutes, 37_850_900);
    assert!(!f.latitude.negative);
    assert_eq!(f.latitude.micro_degrees, 49_630_848);
    assert_eq!(f.longitude.degrees, 124);
    assert_eq!(f.longitude.minutes, 1_438_400);
    assert!(f.longitude.negative);
    assert_eq!(f.longitude.micro_degrees, -124_023_973);
    assert!((f.latitude.micro_degrees as f64 / 1e6 - 49.6308).abs() < 1e-3);
    assert!((f.longitude.micro_degrees as f64 / 1e6 + 124.0240).abs() < 1e-3);
    assert_eq!(read_fix(line.as_bytes()), f);
}

#[test]
fn gga_south_east_and_missing_fields() {
    let f = read_fix(b"$GPGGA,0,3352.0000,S,01830.0000,E");
    assert_eq!(f.latitude.micro_degrees, -33_866_666);
    assert_eq!(f.longitude.micro_degrees, 18_500_000);
    let f = read_fix(b"$GPGGA");
    assert_eq!(f.latitude.micro_degrees, 0);
    assert_eq!(f.longitude.micro_degrees, 0);
    let f = read_fix(b"$GPGGA,0,-4937.8509,N,x,W");
    assert_eq!(f.latitude.micro_degrees, 0);
    assert_eq!(f.longitude.micro_degrees, 0);
}

#[test]
fn depth_example() {
    match parse_sentence("$GPDPT,10.38,0,*6F") {
        Sentence::Dpt { depth } => assert_eq!(depth, 10_380_000),
        other => panic!("not a depth: {:?}", other),
    }
    match parse_sentence("$SDDPT,10.38,0.5,*6F") {
        Sentence::Dpt { depth } => assert_eq!(depth, 10_880_000),
        other => panic!("not a depth: {:?}", other),
    }
    match parse_sentence("$SDDPT,,x") {
        Sentence::Dpt { depth } => assert_eq!(depth, 0),
        other => panic!("not a depth: {:?}", other),
    }
}

#[test]
fn course_and_speed_example() {
    match parse_sentence("$IIVTG,359.5,T,,M,0.1,N,0.1,K,D*15") {
        Sentence::Vtg { course, speed } => {
            assert_eq!(course, 359_500_000);
            assert_eq!(speed, 100_000);
        }
        other => panic!("not a course: {:?}", other),
    }
}

#[test]
fn wind_example() {
    match parse_sentence("$WIVWR,31.7,L,0.5,N,0.3,M,0.9,K*73") {
        Sentence::Vwr { angle, side, speed } => {
            assert_eq!(angle, 31_700_000);
            assert_eq!(side, b"L".to_vec());
            assert_eq!(speed, 500_000);
        }
        other => panic!("not a wind: {:?}", other),
    }
}

#[test]
fn other_lines_are_passed_over() {
    assert!(matches!(parse_sentence("$GPRMC,1,2,3"), Sentence::Other));
    assert!(matches!(parse_sentence("hello"), Sentence::Other));
    assert!(matches!(parse_sentence(""), Sentence::Other));
}

#[test]
fn navigation_values_are_sticky() {
    let mut nav = NavState::new();
    nav.apply(parse_sentence("$GPGGA,0,4937.8509,N,12401.4384,W"));
    nav.apply(parse_sentence("$IIVTG,359.5,T,,M,0.1,N"));
    nav.apply(parse_sentence("$GPZDA,234626.99,22,02,2021"));
    nav.apply(parse_sentence("$GPRMC,1"));
    assert_eq!(nav.fix.map(|f| f.latitude.micro_degrees), Some(49_630_848));
    assert_eq!(nav.course, Some(359_500_000));
    assert_eq!(nav.speed, Some(100_000));
    assert_eq!(nav.depth, None);
    nav.apply(parse_sentence("$IIVTG,10,T,,M,2,N"));
    assert_eq!(nav.course, Some(10_000_000));
    assert_eq!(nav.fix.map(|f| f.longitude.micro_degrees), Some(-124_023_973));
    nav.apply(parse_sentence("$WIVWR,31.7,R,0.5"));
    let w = nav.wind.as_ref().unwrap();
    assert_eq!((w.angle, w.side.clone(), w.speed), (31_700_000, b"R".to_vec(), 500_000));
}

#[test]
fn file_start_latches_on_first_time_stamp() {
    let mut c = PlaybackClock::new();
    assert!(!c.synced);
    assert_eq!(c.observe(5_000, 100_000), 0);
    assert!(c.synced);
    assert_eq!((c.file_start, c.local_start, c.drift), (5_000, 100_000, 0));
    assert_eq!(c.observe(7_000, 100_500), 1_500);
    assert_eq!(c.observe(9_000, 105_000), 0);
    assert_eq!(c.drift, -1_000);
    assert_eq!((c.file_start, c.local_start, c.file_time), (5_000, 100_000, 9_000));
}

#[test]
fn drift_is_zero_at_synchronisation() {
    let mut c = PlaybackClock::new();
    assert_eq!(c.observe(1_614_037_586_000, 7), 0);
    assert_eq!(c.drift, 0);
    assert_eq!(c.line_pause(60), 0);
}

#[test]
fn line_pause_follows_the_serial_link() {
    let c = PlaybackClock::new();
    assert_eq!(c.line_pause(60), 100);
    assert_eq!(c.line_pause(0), 0);
    assert_eq!(c.line_pause(1), 1);
    assert_eq!(c.line_pause(599), 998);
    let mut ahead = PlaybackClock::new();
    ahead.observe(0, 0);
    ahead.observe(2_000, 1_000);
    assert_eq!(ahead.line_pause(60), 100);
    let mut behind = PlaybackClock::new();
    behind.observe(0, 0);
    behind.observe(1_000, 2_000);
    assert_eq!(behind.line_pause(60), 0);
}

#[test]
fn log_without_time_stamps_only_waits_per_line() {
    let lines = ["$GPGGA,0,4937.8509,N,12401.4384,W", "$IIVTG,359.5,T,,M,0.1,N", "x"];
    let mut r = Replay::new();
    for (i, line) in lines.iter().enumerate() {
        let p = r.step(line, i as i64 * 1_000);
        assert_eq!(p, Pause { drift_ms: 0, line_ms: (line.len() as u64 * 1000) / 600 });
    }
    assert!(!r.clock.synced);
    assert!(r.nav.fix.is_some());
}

#[test]
fn replay_paces_by_time_stamps() {
    let mut r = Replay::new();
    let p = r.step("$GPZDA,120000,22,02,2021", 50_000);
    assert_eq!(p.drift_ms, 0);
    assert_eq!(p.line_ms, 0);
    let p = r.step("$GPZDA,120002,22,02,2021", 50_500);
    assert_eq!(p.drift_ms, 1_500);
    assert_eq!(p.line_ms, 40);
    let p = r.step("$GPZDA,120003,22,02,2021", 60_000);
    assert_eq!(p.drift_ms, 0);
    assert_eq!(p.line_ms, 0);
    let p = r.step("$GPZDA,120000,31,02,2021", 60_000);
    assert_eq!(r.clock.file_time, 60_000);
    assert_eq!(p.drift_ms, 0);
}

#[test]
fn distance_accumulates_by_legs() {
    let fixes = [
        GeoPoint { latitude: 0, longitude: 0 },
        GeoPoint { latitude: 0, longitude: 1_000_000 },
        GeoPoint { latitude: 1_000_000, longitude: 0 },
    ];
    let mut s = Survey::new();
    s.record_fix(fixes[0], 123);
    assert_eq!(s.distance_mm, 0);
    let d12 = leg_mm(fixes[0], fixes[1]);
    s.record_fix(fixes[1], d12);
    assert_eq!(s.distance_mm, d12);
    assert!((d12 as f64 / 1e6 - 111.19).abs() < 0.1);
    let d23 = leg_mm(fixes[1], fixes[2]);
    s.record_fix(fixes[2], d23);
    assert_eq!(s.distance_mm, d12 + d23);
    assert_eq!(s.last_point, Some(fixes[2]));
    s.record_fix(fixes[2], u64::MAX);
    assert_eq!(s.distance_mm, u64::MAX);
}

#[test]
fn places_are_listed_once() {
    let mut s = Survey::new();
    assert!(s.record_place("Nanaimo, BC".to_string()));
    assert!(!s.record_place("Nanaimo, BC".to_string()));
    assert!(s.record_place("Unknown location.".to_string()));
    assert!(!s.record_place("Unknown location.".to_string()));
    assert!(!s.record_place("Nanaimo, BC".to_string()));
    assert_eq!(s.places, vec!["Nanaimo, BC".to_string(), "Unknown location.".to_string()]);
}

fn scan(lines: &[&str]) -> Survey {
    let mut s = Survey::new();
    for line in lines {
        if let Some(f) = s.scan_line(line, 0) {
            let p = f.point();
            let leg = match s.last_point {
                Some(q) => leg_mm(q, p),
                None => 0,
            };
            s.record_fix(p, leg);
            s.record_place(format!("{}", p.latitude / 1_000_000));
        }
    }
    s
}

#[test]
fn scanning_twice_gives_the_same_survey() {
    let lines = [
        "$GPZDA,234626.99,22,02,2021,08,00*6A",
        "$GPGGA,020659.21,4937.8509,N,12401.4384,W,2,9,0.83,,M,,M*44",
        "$GPGGA,020700.21,4938.8509,N,12402.4384,W,2,9,0.83,,M,,M*44",
        "$GPZDA,234627.99,22,02,2021,08,00*6A",
        "$GPGGA,020701.21,5001.0000,N,12402.4384,W,2,9,0.83,,M,,M*44",
    ];
    let a = scan(&lines);
    let b = scan(&lines);
    assert_eq!(a.time_stamps, 2);
    assert_eq!(a.first_time, Some(1_614_037_586_000));
    assert_eq!(a.last_time, Some(1_614_037_587_000));
    assert_eq!(a.places, vec!["49".to_string(), "50".to_string()]);
    assert_eq!(
        (a.time_stamps, a.first_time, a.last_time, a.distance_mm, a.places.clone()),
        (b.time_stamps, b.first_time, b.last_time, b.distance_mm, b.places.clone())
    );
    assert!(a.distance_mm > 0);
}

#[test]
fn scan_line_hands_out_fixes_only() {
    let mut s = Survey::new();
    assert_eq!(s.scan_line("$SDDPT,10.38,0", 0), None);
    assert_eq!(s.time_stamps, 0);
    let f = s.scan_line("$GPGGA,0,4937.8509,N,12401.4384,W", 0).unwrap();
    assert_eq!(f.point(), GeoPoint { latitude: 49_630_848, longitude: -124_023_973 });
    assert_eq!(s.last_point, None);
    assert_eq!(s.scan_line("$GPZDA,120000,30,02,2021", 99), None);
    assert_eq!(s.first_time, Some(99));
}

#[test]
fn distances_in_kilometres_and_nautical_miles() {
    assert_eq!(km_tenths(0), 0);
    assert_eq!(km_tenths(111_195_000), 1_112);
    assert_eq!(km_tenths(49_999), 0);
    assert_eq!(km_tenths(50_000), 1);
    assert_eq!(nm_tenths(1_852_000), 10);
    assert_eq!(nm_tenths(111_195_000), 600);
    assert_eq!(nm_tenths(0), 0);
    assert_eq!(nm_tenths(u64::MAX), 99_604_449_004_592);
}

#[test]
fn datagram_ends_with_crlf() {
    assert_eq!(datagram("$GPDPT,10.38,0,*6F"), b"$GPDPT,10.38,0,*6F\r\n".to_vec());
    assert_eq!(datagram(""), b"\r\n".to_vec());
}

#[test]
fn start_times_are_read_as_seconds_of_day() {
    assert_eq!(parse_time_of_day("00:00:00"), Some(0));
    assert_eq!(parse_time_of_day("23:46:26"), Some(85_586));
    assert_eq!(parse_time_of_day("12:05:07.25"), Some(43_507));
    assert_eq!(parse_time_of_day("12:05:07."), Some(43_507));
    assert_eq!(parse_time_of_day("24:00:00"), None);
    assert_eq!(parse_time_of_day("12:60:00"), None);
    assert_eq!(parse_time_of_day("12:00:60"), None);
    assert_eq!(parse_time_of_day("12:00"), None);
    assert_eq!(parse_time_of_day("12-00-00"), None);
    assert_eq!(parse_time_of_day("12:00:00x"), None);
    assert_eq!(parse_time_of_day("12:00:00.5x"), None);
    assert_eq!(parse_time_of_day("1a:00:00"), None);
}

#[test]
fn start_filter_holds_back_lines_before_the_start() {
    let mut all = StartFilter::new(0);
    assert!(all.admits("$GPGGA,0,4937.8509,N"));
    let mut f = StartFilter::new(43_200);
    assert!(!f.admits("$GPGGA,0,4937.8509,N"));
    assert!(!f.admits("$GPZDA,115959,22,02,2021"));
    assert!(!f.admits("$SDDPT,10.38,0"));
    assert!(f.admits("$GPZDA,120000,22,02,2021"));
    assert!(f.admits("$SDDPT,10.38,0"));
    assert!(f.admits("$GPZDA,010000,23,02,2021"));
}
