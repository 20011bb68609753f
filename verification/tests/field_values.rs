use dce_lib::field_values::{edit_value_from_str, list_rows, parse_u32, value_from_rows, value_text, EditError, EditKind, EditValue, FieldValue, ListKind};
use dce_lib::trigger::Actions;

#[test]
fn typed_text_becomes_field_values() {
    assert_eq!(edit_value_from_str(EditKind::Text, "abc"), Ok(EditValue::Text("abc".into())));
    assert_eq!(edit_value_from_str(EditKind::OptionText, ""), Ok(EditValue::OptionText(None)));
    assert_eq!(edit_value_from_str(EditKind::OptionText, "x"), Ok(EditValue::OptionText(Some("x".into()))));
    assert_eq!(edit_value_from_str(EditKind::Int, "42"), Ok(EditValue::Int(42)));
    assert_eq!(edit_value_from_str(EditKind::Int, "4x"), Ok(EditValue::Unchanged));
    assert_eq!(edit_value_from_str(EditKind::IntTime, "05:30:00"), Ok(EditValue::Int(19800)));
    assert_eq!(edit_value_from_str(EditKind::IntTime, "19:08"), Ok(EditValue::Int(68880)));
    assert_eq!(edit_value_from_str(EditKind::IntTime, "late"), Err(EditError::NotATime));
    assert_eq!(edit_value_from_str(EditKind::Bool, "true"), Ok(EditValue::Flag(true)));
    assert_eq!(edit_value_from_str(EditKind::Bool, "yes"), Ok(EditValue::Flag(false)));
    assert_eq!(edit_value_from_str(EditKind::DurationMin, "90"), Ok(EditValue::Int(5400)));
    assert_eq!(edit_value_from_str(EditKind::DurationMin, "ninety"), Err(EditError::NotANumber));
    assert_eq!(edit_value_from_str(EditKind::DurationMin, "4294967295"), Err(EditError::TooLarge));
    assert_eq!(edit_value_from_str(EditKind::Nested, "x"), Err(EditError::NeedsList));
}

#[test]
fn u32_parsing_follows_std() {
    assert_eq!(parse_u32("+7"), Some(7));
    assert_eq!(parse_u32("4294967295"), Some(4294967295));
    assert_eq!(parse_u32("4294967296"), None);
    assert_eq!(parse_u32(""), None);
    assert_eq!(parse_u32("-1"), None);
}

#[test]
fn field_values_shown_as_text() {
    assert_eq!(value_text(&FieldValue::Time(11700)), "03:15:00");
    assert_eq!(value_text(&FieldValue::Time(68880)), "19:08:00");
    assert_eq!(value_text(&FieldValue::Minutes(5400)), "90");
    assert_eq!(value_text(&FieldValue::Minutes(119)), "1");
    assert_eq!(value_text(&FieldValue::Int(600)), "600");
    assert_eq!(value_text(&FieldValue::Flag(false)), "false");
    assert_eq!(value_text(&FieldValue::OptionText(None)), "");
    assert_eq!(value_text(&FieldValue::List(vec!["a".into(), "b".into(), "c".into()])), "a, b, c");
    assert_eq!(value_text(&FieldValue::List(vec![])), "");
    assert_eq!(value_text(&FieldValue::Actions(Actions::Many(vec!["x".into(), "y".into()]))), "2");
    assert_eq!(value_text(&FieldValue::Actions(Actions::One("x".into()))), "1");
}

#[test]
fn list_fields_as_rows() {
    assert_eq!(list_rows(&FieldValue::List(vec![])), vec!["".to_string()]);
    assert_eq!(list_rows(&FieldValue::List(vec!["a".into(), "b".into()])), vec!["a".to_string(), "b".to_string()]);
    assert_eq!(list_rows(&FieldValue::Actions(Actions::One("x".into()))), vec!["x".to_string()]);
    assert_eq!(list_rows(&FieldValue::Actions(Actions::Many(vec!["x".into(), "y".into()]))), vec!["x".to_string(), "y".to_string()]);
    assert_eq!(list_rows(&FieldValue::Time(19800)), vec!["05:30:00".to_string()]);
    match value_from_rows(ListKind::List, vec!["".into()]) {
        FieldValue::List(items) => assert!(items.is_empty()),
        _ => panic!("expected a list"),
    }
    match value_from_rows(ListKind::List, vec!["a".into(), "".into()]) {
        FieldValue::List(items) => assert_eq!(items, vec!["a".to_string(), "".to_string()]),
        _ => panic!("expected a list"),
    }
    match value_from_rows(ListKind::Actions, vec!["x".into()]) {
        FieldValue::Actions(Actions::Many(xs)) => assert_eq!(xs, vec!["x".to_string()]),
        _ => panic!("expected trigger actions"),
    }
}

#[test]
fn field_text_round_trips() {
    for secs in [0u32, 59, 3600, 19800, 68880, 86399] {
        let text = value_text(&FieldValue::Time(secs));
        assert_eq!(edit_value_from_str(EditKind::IntTime, &text), Ok(EditValue::Int(secs)));
    }
    let text = value_text(&FieldValue::Minutes(5400));
    assert_eq!(edit_value_from_str(EditKind::DurationMin, &text), Ok(EditValue::Int(5400)));
    for b in [true, false] {
        let text = value_text(&FieldValue::Flag(b));
        assert_eq!(edit_value_from_str(EditKind::Bool, &text), Ok(EditValue::Flag(b)));
    }
}
