use mdsorto::app::{CountdownApp, DEFAULT_PREP_TIME, DEFAULT_TIME_EACH, PREP_TIME_STR};
use mdsorto::names::{split_names, MAX_PEOPLE};
use mdsorto::setup::ConfigSection;
use mdsorto::time_config::{check_time_config, parse_time_config, TimeConfig, MAX_TIME, MIN_TIME};

/// One millisecond, in the library's nanoseconds.
const MS: i64 = 1_000_000;

#[test]
fn test_parse_time_config_valid() {
    let result = parse_time_config("45.5", DEFAULT_TIME_EACH);
    assert_eq!(result, 45_500 * MS);
}

#[test]
fn test_parse_time_config_too_low() {
    let result = parse_time_config("0.5", DEFAULT_TIME_EACH);
    assert_eq!(result, DEFAULT_TIME_EACH); // Should use default
}

#[test]
fn test_parse_time_config_too_high() {
    let result = parse_time_config("5000.0", DEFAULT_TIME_EACH);
    assert_eq!(result, DEFAULT_TIME_EACH); // Should use default
}

#[test]
fn test_parse_time_config_invalid() {
    let result = parse_time_config("not_a_number", DEFAULT_TIME_EACH);
    assert_eq!(result, DEFAULT_TIME_EACH); // Should use default
}

#[test]
fn test_parse_time_config_negative() {
    let result = parse_time_config("-10.0", DEFAULT_TIME_EACH);
    assert_eq!(result, DEFAULT_TIME_EACH); // Should use default
}

#[test]
fn test_parse_time_config_at_min_boundary() {
    let result = parse_time_config("1.0", DEFAULT_TIME_EACH);
    assert_eq!(result, MIN_TIME); // MIN_TIME, should be accepted
}

#[test]
fn test_parse_time_config_at_max_boundary() {
    let result = parse_time_config("3600.0", DEFAULT_TIME_EACH);
    assert_eq!(result, MAX_TIME); // MAX_TIME, should be accepted
}

#[test]
fn time_config_number_forms() {
    assert_eq!(check_time_config("60"), TimeConfig::Valid(60_000 * MS));
    assert_eq!(check_time_config("+2"), TimeConfig::Valid(2_000 * MS));
    assert_eq!(check_time_config("5."), TimeConfig::Valid(5_000 * MS));
    assert_eq!(check_time_config(".5e1"), TimeConfig::Valid(5_000 * MS));
    assert_eq!(check_time_config("1e3"), TimeConfig::Valid(1_000_000 * MS));
    assert_eq!(check_time_config("3.6E3"), TimeConfig::Valid(3_600_000 * MS));
    assert_eq!(check_time_config("36000e-1"), TimeConfig::Valid(3_600_000 * MS));
    assert_eq!(check_time_config("0001.5"), TimeConfig::Valid(1_500 * MS));
    assert_eq!(check_time_config("1.0005"), TimeConfig::Valid(1_000_500_000));
    assert_eq!(check_time_config("12.34567"), TimeConfig::Valid(12_345_670_000));
    assert_eq!(check_time_config("1e+1"), TimeConfig::Valid(10_000 * MS));
    // digits below a nanosecond are dropped
    assert_eq!(check_time_config("1.0000000019"), TimeConfig::Valid(1_000_000_001));
    assert_eq!(check_time_config("3599.9999999999"), TimeConfig::Valid(3_599_999_999_999));
}

#[test]
fn time_config_out_of_range() {
    assert_eq!(check_time_config("0.9999"), TimeConfig::OutOfRange);
    assert_eq!(check_time_config("3600.0001"), TimeConfig::OutOfRange);
    assert_eq!(check_time_config("-10.0"), TimeConfig::OutOfRange);
    assert_eq!(check_time_config("0"), TimeConfig::OutOfRange);
    assert_eq!(check_time_config("-0"), TimeConfig::OutOfRange);
    assert_eq!(check_time_config("1e400"), TimeConfig::OutOfRange);
    assert_eq!(check_time_config("1e-400"), TimeConfig::OutOfRange);
    assert_eq!(check_time_config("1e99999999999999999999999"), TimeConfig::OutOfRange);
    assert_eq!(check_time_config("inf"), TimeConfig::OutOfRange);
    assert_eq!(check_time_config("-Infinity"), TimeConfig::OutOfRange);
    assert_eq!(check_time_config("NaN"), TimeConfig::OutOfRange);
}

#[test]
fn time_config_invalid() {
    assert_eq!(check_time_config(""), TimeConfig::Invalid);
    assert_eq!(check_time_config("."), TimeConfig::Invalid);
    assert_eq!(check_time_config(" 5"), TimeConfig::Invalid);
    assert_eq!(check_time_config("5 "), TimeConfig::Invalid);
    assert_eq!(check_time_config("1e"), TimeConfig::Invalid);
    assert_eq!(check_time_config("e5"), TimeConfig::Invalid);
    assert_eq!(check_time_config("1_000"), TimeConfig::Invalid);
    assert_eq!(check_time_config("infinit"), TimeConfig::Invalid);
    assert_eq!(check_time_config("+-1"), TimeConfig::Invalid);
    assert_eq!(check_time_config("not_a_number"), TimeConfig::Invalid);
}

#[test]
fn split_names_trims_and_drops_empty() {
    let names = split_names(" Ann , Bob,,\tCy ,  ,Dee");
    assert_eq!(names, vec!["Ann", "Bob", "Cy", "Dee"]);
    assert!(split_names("").is_empty());
    assert!(split_names(" , ,").is_empty());
    assert_eq!(split_names("Solo"), vec!["Solo"]);
    assert_eq!(split_names("\u{3000}Zoë\u{a0}"), vec!["Zoë"]);
}

#[test]
fn split_names_keeps_at_most_max_people() {
    let list: Vec<String> = (0..150).map(|i| format!("P{}", i)).collect();
    let names = split_names(&list.join(","));
    assert_eq!(names.len(), MAX_PEOPLE);
    assert_eq!(names[0], "P0");
    assert_eq!(names[MAX_PEOPLE - 1], "P99");
}

fn section(timeeach: Option<&str>, preptime: Option<&str>, people: Option<&str>) -> ConfigSection {
    ConfigSection {
        timeeach: timeeach.map(|s| s.to_string()),
        preptime: preptime.map(|s| s.to_string()),
        people: people.map(|s| s.to_string()),
    }
}

#[test]
fn apply_config_sets_times_and_people() {
    let mut app = CountdownApp::new();
    app.apply_config(&section(Some("45"), Some("20.5"), Some("Ann, Bob")));
    assert_eq!(app.time_each, 45_000 * MS);
    assert_eq!(app.prep_time, 20_500 * MS);
    assert_eq!(app.time_left, 20_500 * MS);
    assert_eq!(app.people, vec![PREP_TIME_STR, "Ann", "Bob"]);
}

#[test]
fn apply_config_bad_times_use_defaults() {
    let mut app = CountdownApp::new();
    app.apply_config(&section(Some("9999"), None, None));
    assert_eq!(app.time_each, DEFAULT_TIME_EACH);
    assert_eq!(app.time_left, DEFAULT_TIME_EACH);
    app.apply_config(&section(None, Some("abc"), None));
    assert_eq!(app.prep_time, DEFAULT_PREP_TIME);
    assert_eq!(app.time_left, DEFAULT_PREP_TIME);
    assert_eq!(app.people.len(), 4);
}

#[test]
fn apply_config_empty_people_gets_defaults() {
    let mut app = CountdownApp::new();
    app.apply_config(&section(None, None, Some(" , ")));
    assert_eq!(app.people, vec![PREP_TIME_STR, "Person 1", "Person 2"]);
}

#[test]
fn apply_config_single_person() {
    let mut app = CountdownApp::new();
    app.apply_config(&section(None, None, Some("Ann")));
    assert_eq!(app.people, vec![PREP_TIME_STR, "Ann"]);
}

#[test]
fn shuffle_keeps_prep_time_first_and_same_people() {
    let names: Vec<String> = (0..10).map(|i| format!("P{}", i)).collect();
    let mut changed = false;
    for _ in 0..5 {
        let mut app = CountdownApp::new();
        app.apply_config(&section(None, None, Some(&names.join(","))));
        let before = app.people.clone();
        app.shuffle_people();
        assert_eq!(app.people[0], PREP_TIME_STR);
        let mut a = app.people.clone();
        let mut b = before.clone();
        a.sort();
        b.sort();
        assert_eq!(a, b);
        if app.people != before {
            changed = true;
        }
    }
    assert!(changed);
}
