use pace::distance::Distance;
use pace::errors::PaceError;
use pace::modes::{do_distance, do_pace, expand_alias_str, km_to_miles, miles_to_km};
use pace::projector::{convert_to_per_km, display_distances, get_distances};
use pace::render::sec_to_string;
use pace::scaled::Scaled;
use pace::time::{t_to_sec, TimeError};

#[test]
fn test_sec_to_string() {
    // just hours
    assert_eq!("1h00m", sec_to_string(3600));
    // just minutes
    assert_eq!("1m", sec_to_string(60));
    // just seconds
    assert_eq!("01s", sec_to_string(1));
    // normal
    assert_eq!("3h05m12s", sec_to_string(3 * 3600 + 5 * 60 + 12));
    // no minutes
    assert_eq!("3h00m01s", sec_to_string(3 * 3600 + 1));
    // fractional seconds are floored before rendering
    assert_eq!("3h00m03s", sec_to_string(10803.409_f64.floor() as u128));
}

#[test]
fn test_get_distances() {
    let three_hour_marathon = convert_to_per_km(Scaled::from_units(6 * 60 + 52));
    let d = get_distances(&three_hour_marathon);
    let m_time = d
        .iter()
        .find(|entry| entry.0 == Distance::Marathon)
        .unwrap()
        .1;
    assert_eq!(m_time.floor_units(), 3 * 3600 + 3);
}

#[test]
fn test_parse_time() {
    // seconds
    assert_eq!(t_to_sec("1s"), Ok(1));
    // minutes
    assert_eq!(t_to_sec("10m"), Ok(600));
    // hours
    assert_eq!(t_to_sec("1h"), Ok(3600));
    // all
    assert_eq!(t_to_sec("1h01m01"), Ok(3600 + 60 + 1));
    // with colon for minutes
    assert_eq!(t_to_sec("1:01"), Ok(61));
}

#[test]
fn test_sec_to_string_zero_is_empty() {
    assert_eq!("", sec_to_string(0));
}

#[test]
fn test_parse_time_empty_is_zero() {
    assert_eq!(t_to_sec(""), Ok(0));
}

#[test]
fn test_parse_time_errors() {
    assert_eq!(t_to_sec("1:2:3"), Err(TimeError::InvalidColonFormat));
    assert_eq!(t_to_sec(":5"), Err(TimeError::InvalidNumber));
    assert_eq!(t_to_sec("abc"), Err(TimeError::InvalidNumber));
    assert_eq!(t_to_sec("h05m"), Err(TimeError::InvalidNumber));
    assert_eq!(t_to_sec("5000000000"), Err(TimeError::TooLarge));
    assert_eq!(t_to_sec("2000000h"), Err(TimeError::TooLarge));
}

#[test]
fn test_expand_aliases() {
    assert_eq!(expand_alias_str("marathon"), "42.2k");
    assert_eq!(expand_alias_str("half"), "21.1k");
    assert_eq!(expand_alias_str("10k"), "10k");
}

#[test]
fn test_distance_mode_kilometres() {
    let lines = do_distance("10k", "1h").unwrap();
    assert_eq!(lines.len(), 3);
    assert_eq!(lines[0], "10.00 km / 6.21 miles in 1h:");
    assert_eq!(lines[1], "\t6m / km");
    assert_eq!(lines[2], "\t9m39s / mile");
}

#[test]
fn test_distance_mode_marathon_alias() {
    let lines = do_distance("marathon", "3h").unwrap();
    assert_eq!(lines[0], "42.20 km / 26.22 miles in 3h:");
    assert_eq!(lines[1], "\t4m15s / km");
    assert_eq!(lines[2], "\t6m51s / mile");
}

#[test]
fn test_distance_mode_miles() {
    let lines = do_distance("26.2m", "3h30m").unwrap();
    // 26.2 miles is 42.1558 km; 12600 s over those distances
    assert_eq!(lines[0], "42.16 km / 26.20 miles in 3h30m:");
    assert_eq!(lines[1], "\t4m58s / km");
    assert_eq!(lines[2], "\t8m / mile");
}

#[test]
fn test_distance_mode_bad_unit_reports() {
    let e = do_distance("10x", "1h").unwrap_err();
    assert_eq!(e, PaceError::BadDistanceUnit('x'));
    assert_eq!(e.message(), "Invalid distance unit 'x'. Must be 'k' or 'm'");
}

#[test]
fn test_distance_mode_bad_colon_time_reports() {
    let e = do_distance("10k", "1:2:3").unwrap_err();
    assert_eq!(
        e,
        PaceError::BadTime(String::from("1:2:3"), TimeError::InvalidColonFormat)
    );
    assert_eq!(e.message(), "1:2:3 invalid format, expected e.g. '7:30'");
}

#[test]
fn test_distance_mode_number_errors() {
    assert_eq!(do_distance("", "1h").unwrap_err(), PaceError::EmptyToken);
    assert_eq!(
        do_distance("abck", "1h").unwrap_err(),
        PaceError::BadDistanceNumber(String::from("abc"))
    );
    assert_eq!(
        do_distance("1.2.3k", "1h").unwrap_err(),
        PaceError::BadDistanceNumber(String::from("1.2.3"))
    );
    assert_eq!(
        do_distance("0k", "1h").unwrap_err(),
        PaceError::ZeroDistance(String::from("0"))
    );
    assert_eq!(
        do_distance("1234567890123k", "1h").unwrap_err(),
        PaceError::DistanceTooLarge(String::from("1234567890123"))
    );
    assert_eq!(
        do_distance("10k", "abc").unwrap_err(),
        PaceError::BadTime(String::from("abc"), TimeError::InvalidNumber)
    );
}

#[test]
fn test_error_messages() {
    assert_eq!(
        PaceError::EmptyToken.message(),
        "empty token, expected e.g. '10k'"
    );
    assert_eq!(
        PaceError::BadDistanceNumber(String::from("abc")).message(),
        "abc invalid distance, expected e.g. '10k' or '26.2m'"
    );
    assert_eq!(
        PaceError::DistanceTooLarge(String::from("1234567890123")).message(),
        "1234567890123 is too large a distance"
    );
    assert_eq!(
        PaceError::ZeroDistance(String::from("0")).message(),
        "0 is not a positive distance"
    );
    assert_eq!(
        PaceError::BadTime(String::from("abc"), TimeError::InvalidNumber).message(),
        "abc invalid number, expected e.g. '1h05m10s'"
    );
    assert_eq!(
        PaceError::BadTime(String::from("9999999999"), TimeError::TooLarge).message(),
        "9999999999 is too large a duration"
    );
}

#[test]
fn test_pace_mode_km() {
    let lines = do_pace("4:30k").unwrap();
    assert_eq!(lines.len(), 6);
    assert_eq!(lines[0], "At that pace:");
    assert_eq!(lines[1], "\t50k            3h45m");
    assert_eq!(lines[2], "\tMarathon       3h09m54s");
    assert_eq!(lines[3], "\tHalf-Marathon  1h34m57s");
    assert_eq!(lines[4], "\t10k            45m");
    assert_eq!(lines[5], "\t5k             22m30s");
}

#[test]
fn test_pace_mode_miles_unit_converts() {
    // 6:52 per mile is the three-hour-marathon pace
    let lines = do_pace("6:52m").unwrap();
    assert_eq!(lines[2], "\tMarathon       3h00m03s");
}

#[test]
fn test_pace_mode_errors() {
    assert_eq!(do_pace("").unwrap_err(), PaceError::EmptyToken);
    let e = do_pace("4:30x").unwrap_err();
    assert_eq!(e, PaceError::BadPaceUnit('x'));
    assert_eq!(e.message(), "Invalid pace unit 'x'. Must be 'k' or 'm'");
    assert_eq!(
        do_pace("4:30:1k").unwrap_err(),
        PaceError::BadTime(String::from("4:30:1"), TimeError::InvalidColonFormat)
    );
}

#[test]
fn test_projected_times_are_exact_products() {
    // time == distance_km * pace exactly, before any rounding
    let pace = Scaled::from_units(270); // 4:30 per km
    let table = get_distances(&pace);
    let expect = [
        (Distance::FiftyK, 500u128),
        (Distance::Marathon, 422),
        (Distance::HalfMarathon, 211),
        (Distance::TenK, 100),
        (Distance::FiveK, 50),
    ];
    assert_eq!(table.len(), 5);
    for (i, (d, tenths)) in expect.iter().enumerate() {
        assert_eq!(table[i].0, *d);
        assert_eq!(table[i].1.num, tenths * 270);
        assert_eq!(table[i].1.scale, 1);
    }
}

#[test]
fn test_display_distances_order_and_heading() {
    let lines = display_distances(&Scaled::from_units(300));
    assert_eq!(lines[0], "At that pace:");
    assert!(lines[1].contains("50k"));
    assert!(lines[2].contains("Marathon"));
    assert!(lines[3].contains("Half-Marathon"));
    assert!(lines[4].contains("10k"));
    assert!(lines[5].contains("5k"));
}

#[test]
fn test_km_miles_round_trip_within_one_percent() {
    // 10 km to miles and back: the two factors are not exact inverses,
    // but the drift stays under one percent
    let d = Scaled { num: 10, scale: 0 };
    let back = miles_to_km(km_to_miles(d));
    assert_eq!(back.scale, 11);
    let original_at_11 = 10u128 * 100_000_000_000;
    assert!(back.num < original_at_11);
    assert!(100 * (original_at_11 - back.num) < original_at_11);
}

#[test]
fn test_unit_labels() {
    assert_eq!(pace::distance::DistUnit::Miles.label(), "miles");
    assert_eq!(pace::distance::DistUnit::Kilometers.label(), "km");
}

#[test]
fn test_race_names_and_lengths() {
    let all = Distance::all();
    let names: Vec<&str> = all.iter().map(|d| d.name()).collect();
    assert_eq!(names, vec!["50k", "Marathon", "Half-Marathon", "10k", "5k"]);
    let tenths: Vec<u64> = all.iter().map(|d| d.km_tenths()).collect();
    assert_eq!(tenths, vec![500, 422, 211, 100, 50]);
}
