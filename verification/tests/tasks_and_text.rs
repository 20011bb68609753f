use dce_lib::edit_items::{parse_usize, stringvec_for_field};
use dce_lib::task::{str_to_task, task_from_lowercase, Task};
use dce_lib::text::{contains_str, decimal_string, ends_with_str, split_on, starts_with_str, str_eq};

#[test]
fn str_to_task_matches_any_case() {
    assert_eq!(str_to_task("strike").unwrap(), "Strike");
    assert_eq!(str_to_task("STRIKE").unwrap(), "Strike");
    assert_eq!(str_to_task("Anti-Ship Strike").unwrap(), "Anti-ship Strike");
    assert_eq!(str_to_task("cap").unwrap(), "CAP");
    assert_eq!(str_to_task("AwAcS").unwrap(), "AWACS");
    assert_eq!(str_to_task("refueling").unwrap(), "Refueling");
    assert_eq!(str_to_task("sead").unwrap(), "SEAD");
    assert_eq!(str_to_task("escort").unwrap(), "Escort");
    assert_eq!(str_to_task("intercept").unwrap(), "Intercept");
    assert_eq!(str_to_task("Fighter Sweep").unwrap(), "Fighter Sweep");
    assert_eq!(str_to_task("transport").unwrap(), "Transport");
}

#[test]
fn str_to_task_rejects_unknown_task() {
    let e = str_to_task("Bombing").unwrap_err();
    assert_eq!(e.task, "Bombing");
    assert!(str_to_task("").is_err());
}

#[test]
fn task_from_lowercase_needs_lower_case() {
    assert_eq!(task_from_lowercase("cap"), Some(Task::Cap));
    assert_eq!(task_from_lowercase("CAP"), None);
}

#[test]
fn split_keeps_empty_pieces() {
    assert_eq!(split_on("a__b", '_'), vec!["a", "", "b"]);
    assert_eq!(split_on("", '_'), vec![""]);
    assert_eq!(split_on("_x_", '_'), vec!["", "x", ""]);
}

#[test]
fn text_searches() {
    assert!(contains_str("F-16 lgb day", " lgb "));
    assert!(!contains_str("F-16 lgbday", " lgb "));
    assert!(contains_str("abc", ""));
    assert!(ends_with_str("F-16 day", " day"));
    assert!(!ends_with_str("day", " day"));
    assert!(starts_with_str("BLUE_FARP_A_1", "BLUE"));
    assert!(!starts_with_str("BL", "BLUE"));
    assert!(str_eq("x", "x"));
    assert!(!str_eq("x", "X"));
    assert_eq!(decimal_string(0), "0");
    assert_eq!(decimal_string(1207), "1207");
}

#[test]
fn parse_usize_follows_std() {
    assert_eq!(parse_usize("0"), Some(0));
    assert_eq!(parse_usize("42"), Some(42));
    assert_eq!(parse_usize("+7"), Some(7));
    assert_eq!(parse_usize("007"), Some(7));
    assert_eq!(parse_usize(""), None);
    assert_eq!(parse_usize("+"), None);
    assert_eq!(parse_usize("-1"), None);
    assert_eq!(parse_usize("1a"), None);
    assert_eq!(parse_usize(" 1"), None);
    assert_eq!(parse_usize("99999999999999999999999"), None);
    for s in ["0", "12", "+3", "18446744073709551615", "18446744073709551616", "x", "1.5"] {
        assert_eq!(parse_usize(s), s.parse::<usize>().ok());
    }
}

fn kv(k: &str, v: &str) -> (String, String) {
    (k.to_string(), v.to_string())
}

#[test]
fn stringvec_for_field_orders_by_number() {
    let values = vec![
        kv("tags.2", "c"),
        kv("name", "x"),
        kv("tags.0", "a"),
        kv("tags.10", "d"),
        kv("tags.1", "b"),
        kv("other.0", "z"),
        kv("tags.x", "bad"),
        kv("tags.1.2", "bad"),
    ];
    assert_eq!(stringvec_for_field(&values, "tags"), vec!["a", "b", "c", "d"]);
    assert_eq!(stringvec_for_field(&values, "other"), vec!["z"]);
    assert!(stringvec_for_field(&values, "missing").is_empty());
}

#[test]
fn stringvec_for_field_breaks_ties_by_value() {
    let values = vec![kv("t.1", "b"), kv("t.+1", "a"), kv("t.0", "z")];
    assert_eq!(stringvec_for_field(&values, "t"), vec!["z", "a", "b"]);
}
