use dce_lib::airbases::{validate_airbase_side, AirbaseNames, BaseRef};
use dce_lib::campaign_header::HeaderInternal;
use dce_lib::targets::TargetFirepower;
use dce_lib::validation::{delete_by_name, position_by_name, ValidationError, ValidationResult};
use dce_lib::trigger::Trigger;

#[test]
fn validation_error_new_keeps_fields() {
    let e = ValidationError::new("side", "Airbase Side", "Side must be blue/red/neutral");
    assert_eq!(e.field_name, "side");
    assert_eq!(e.display_name, "Airbase Side");
    assert_eq!(e.error, "Side must be blue/red/neutral");
}

#[test]
fn firepower_min_above_max_fails() {
    assert_eq!(TargetFirepower { min: 1, max: 2 }.validate(), ValidationResult::Pass);
    assert_eq!(TargetFirepower { min: 2, max: 2 }.validate(), ValidationResult::Pass);
    match (TargetFirepower { min: 3, max: 2 }).validate() {
        ValidationResult::Fail(errors) => {
            assert_eq!(errors.len(), 1);
            assert_eq!(errors[0].field_name, "min");
            assert_eq!(errors[0].error, "Minimum firepower must be <= Max Firepower");
        }
        ValidationResult::Pass => panic!("expected a failure"),
    }
}

#[test]
fn airbase_side_must_be_known() {
    assert_eq!(validate_airbase_side("blue"), ValidationResult::Pass);
    assert_eq!(validate_airbase_side("red"), ValidationResult::Pass);
    assert_eq!(validate_airbase_side("neutral"), ValidationResult::Pass);
    assert!(matches!(validate_airbase_side("Blue"), ValidationResult::Fail(_)));
}

fn header(dawn: u32, dusk: u32, units: &str) -> HeaderInternal<f64> {
    HeaderInternal {
        original: true,
        title: "New Campaign".into(),
        version: "V0.1".into(),
        date_str: "1982-05-01".into(),
        time: 11700,
        dawn,
        dusk,
        mission_duration: 5400,
        idle_time_min: 10800,
        idle_time_max: 14400,
        startup: 600,
        units: units.into(),
        weather_high_prob: 20.0,
        weather_low_prob: 80.0,
        weather_reference_temp: 8.0,
        mag_var: 2.0,
        debug: true,
    }
}

#[test]
fn header_checks_dawn_and_units() {
    assert_eq!(header(19800, 68880, "imperial").validate(), ValidationResult::Pass);
    assert_eq!(header(19800, 68880, "metric").validate(), ValidationResult::Pass);
    match header(68880, 19800, "furlongs").validate() {
        ValidationResult::Fail(errors) => {
            assert_eq!(errors.len(), 2);
            assert_eq!(errors[0].field_name, "dawn");
            assert_eq!(errors[1].field_name, "units");
        }
        ValidationResult::Pass => panic!("expected a failure"),
    }
    match header(100, 100, "metric").validate() {
        ValidationResult::Fail(errors) => assert_eq!(errors[0].error, "Dawn must be earlier than Dusk"),
        ValidationResult::Pass => panic!("expected a failure"),
    }
}

fn base(name: &str, side: &str) -> BaseRef {
    BaseRef { name: name.into(), side: side.into() }
}

#[test]
fn airbase_exists_looks_in_every_kind() {
    let names = AirbaseNames {
        fixed: vec![base("Stanley", "blue")],
        ship: vec![base("CV_Hermes", "blue")],
        farp: vec![base("FARP A", "red")],
        reserve: vec![],
        air_start: vec![base("North", "red")],
    };
    assert!(names.airbase_exists("Stanley"));
    assert!(names.airbase_exists("CV_Hermes"));
    assert!(names.airbase_exists("FARP A"));
    assert!(names.airbase_exists("North"));
    assert!(!names.airbase_exists("Goose Green"));
}

#[test]
fn delete_by_name_removes_first_match() {
    let mut v = vec![
        Trigger::new("a", "true", &["x"], true, false),
        Trigger::new("b", "true", &["y"], true, false),
        Trigger::new("a", "false", &[], true, false),
    ];
    assert_eq!(position_by_name(&v, "a"), Some(0));
    assert_eq!(position_by_name(&v, "c"), None);
    assert!(delete_by_name(&mut v, "a").is_ok());
    assert_eq!(v.len(), 2);
    assert_eq!(v[0]._name, "b");
    assert_eq!(v[1].condition, "false");
    assert!(delete_by_name(&mut v, "c").is_err());
    assert_eq!(v.len(), 2);
}

use dce_lib::campaign_header::{date_of_str, date_str_of, is_valid_date, Date, Header};

#[test]
fn dates_written_as_chrono_writes_them() {
    let d = |y, m, day| Date { year: y, month: m, day };
    assert_eq!(date_str_of(&d(1982, 5, 1)), Some("1982-05-01".to_string()));
    assert_eq!(date_str_of(&d(45, 12, 31)), Some("0045-12-31".to_string()));
    assert_eq!(date_str_of(&d(-1, 1, 1)), Some("-0001-01-01".to_string()));
    assert_eq!(date_str_of(&d(10000, 1, 1)), Some("+10000-01-01".to_string()));
    assert_eq!(date_str_of(&d(2023, 2, 29)), None);
    assert_eq!(date_str_of(&d(2024, 2, 29)), Some("2024-02-29".to_string()));
    assert_eq!(date_str_of(&d(1900, 2, 29)), None);
    assert_eq!(date_str_of(&d(2000, 2, 29)), Some("2000-02-29".to_string()));
    assert_eq!(date_str_of(&d(2023, 4, 31)), None);
    assert_eq!(date_str_of(&d(2023, 13, 1)), None);
    assert_eq!(date_str_of(&d(400000, 1, 1)), None);
    assert!(is_valid_date(&d(-4, 2, 29)));
    for (y, m, day) in [(1982, 5, 1), (45, 12, 31), (-1, 1, 1), (10000, 1, 1), (2024, 2, 29)] {
        let expected = chrono::NaiveDate::from_ymd_opt(y, m, day).unwrap().format("%Y-%m-%d").to_string();
        assert_eq!(date_str_of(&d(y, m, day)), Some(expected));
    }
}

#[test]
fn dates_read_back() {
    assert_eq!(date_of_str("1982-05-01"), Some(Date { year: 1982, month: 5, day: 1 }));
    assert_eq!(date_of_str("+10000-01-01"), Some(Date { year: 10000, month: 1, day: 1 }));
    assert_eq!(date_of_str("2023-02-29"), None);
    assert_eq!(date_of_str("yesterday"), None);
}

#[test]
fn settings_round_trip_through_edit_form() {
    let h = Header {
        original: true,
        title: "T".into(),
        version: "V0.1".into(),
        mission: 1,
        date: Date { year: 1982, month: 5, day: 1 },
        time: 11700,
        dawn: 19800,
        dusk: 68880,
        mission_duration: 5400,
        idle_time_min: 10800,
        idle_time_max: 14400,
        startup: 600,
        units: "imperial".into(),
        weather_high_prob: 20.0,
        weather_low_prob: 80.0,
        weather_reference_temp: 8.0,
        mag_var: 2.0,
        debug: true,
    };
    let internal = HeaderInternal::from_header(h.clone());
    assert_eq!(internal.date_str, "1982-05-01");
    let back = Header::try_from_internal(internal).unwrap();
    assert_eq!(back.date, h.date);
    assert_eq!(back.mission, 0);
    assert_eq!(back.title, "T");
    let mut bad = HeaderInternal::from_header(h);
    bad.date_str = "not a date".into();
    assert!(Header::try_from_internal(bad).is_none());
}

#[test]
fn new_campaign_settings_take_the_mission_date() {
    let date = Date { day: 1, month: 5, year: 1982 };
    let h: Header<f64> = Header::new_from_mission(date, 20.0, 80.0, 8.0, 2.0);
    assert_eq!(h.title, "New Campaign");
    assert_eq!(h.version, "V0.1");
    assert_eq!(h.mission, 1);
    assert_eq!(h.date, date);
    assert_eq!((h.time, h.dawn, h.dusk), (11700, 19800, 68880));
    assert_eq!((h.mission_duration, h.idle_time_min, h.idle_time_max, h.startup), (5400, 10800, 14400, 600));
    assert_eq!(h.units, "imperial");
    assert_eq!(h.mag_var, 2.0);
    assert!(h.original && h.debug);
    let internal = HeaderInternal::from_header(h);
    assert_eq!(internal.date_str, "1982-05-01");
}
