use dce_lib::generate::{hide_strike_target, NotAVehicleStrike};
use dce_lib::targets::{Strike, TargetFirepower};
use dce_lib::trigger::{add_new_trigger, default_triggers, flat_to_triggers, new_trigger_name, triggers_to_flat, Actions, Trigger};
use dce_lib::validation::ValidationResult;
use dce_lib::lua::{lua_step, LuaStep};

#[test]
fn new_trigger_keeps_its_parts() {
    let t = Trigger::new("Briefing", "true", &["Action.Text(\"x\")"], true, false);
    assert_eq!(t._name, "Briefing");
    assert_eq!(t.condition, "true");
    assert!(t.active);
    assert!(!t.once);
    match &t.action {
        Actions::Many(v) => assert_eq!(v, &vec!["Action.Text(\"x\")".to_string()]),
        Actions::One(_) => panic!("expected a list of actions"),
    }
}

#[test]
fn new_trigger_names_count_up() {
    let mut v: Vec<Trigger> = Vec::new();
    assert_eq!(new_trigger_name(&v), "New Action");
    add_new_trigger(&mut v);
    assert_eq!(v[0]._name, "New Action");
    assert_eq!(v[0].condition, "true");
    add_new_trigger(&mut v);
    assert_eq!(v[1]._name, "New Action_1");
    add_new_trigger(&mut v);
    assert_eq!(v[2]._name, "New Action_1_1");
}

#[test]
fn flat_and_keyed_round_trip() {
    let keyed = default_triggers();
    let flat = triggers_to_flat(&keyed);
    assert_eq!(flat.len(), keyed.len());
    let back = flat_to_triggers(&flat);
    assert_eq!(back.len(), keyed.len());
    for (i, (k, t)) in back.entries().iter().enumerate() {
        assert_eq!(k, &flat[i]._name);
        assert_eq!(t._name, flat[i]._name);
        assert_eq!(t.condition, keyed.entries()[i].1.condition);
    }
}

#[test]
fn default_triggers_exist() {
    let keyed = default_triggers();
    assert!(keyed.len() > 0);
    assert!(keyed.contains_key("Campaign Briefing"));
}

#[test]
fn validate_with_reports_lua_error_and_bad_characters() {
    let t = Trigger::new("T", "a == 'b';", &[], true, false);
    match t.validate_with(Some("boom".to_string())) {
        ValidationResult::Fail(errors) => {
            assert_eq!(errors.len(), 3);
            assert_eq!(errors[0].error, "Lua error: boom");
            assert_eq!(errors[1].error, "Lua snippets must not contain ', use double quotes");
            assert_eq!(errors[2].error, "Lua snippets must not contain ;");
        }
        ValidationResult::Pass => panic!("expected failure"),
    }
    let ok = Trigger::new("T", "true", &[], true, false);
    assert_eq!(ok.validate_with(None), ValidationResult::Pass);
}

#[test]
fn lua_chunks_list_mocks_condition_and_actions() {
    let t = Trigger::new("T", "x > 1", &["a()", "b()"], true, false);
    let chunks = t.lua_chunks("MOCKS");
    assert_eq!(chunks.len(), 4);
    assert_eq!(chunks[0], "MOCKS");
    assert!(chunks[1].contains("return x > 1"));
    assert_eq!(chunks[3], "b()");
}

#[test]
fn trigger_checks_take_the_lua_outcome() {
    let t = Trigger::new("T", "true", &["y = 2"], true, false);
    let chunks = t.lua_chunks("mock = 1");
    assert_eq!(chunks.len(), 3);
    assert_eq!(chunks[0], "mock = 1");
    assert_eq!(chunks[2], "y = 2");
    assert_eq!(t.validate_with(None), ValidationResult::Pass);
    match t.validate_with(Some("boom".to_string())) {
        ValidationResult::Fail(errors) => assert_eq!(errors.len(), 1),
        ValidationResult::Pass => panic!("expected the Lua error"),
    }
    let bad = Trigger::new("T", "a == 'b';", &[], true, false);
    match bad.validate_with(None) {
        ValidationResult::Fail(errors) => assert_eq!(errors.len(), 2),
        ValidationResult::Pass => panic!("expected the condition errors"),
    }
}

#[test]
fn hiding_a_vehicle_strike_adds_a_trigger() {
    let mut s: Strike<()> = Strike {
        priority: 1,
        text: "Bridge".into(),
        inactive: false,
        firepower: TargetFirepower { min: 1, max: 2 },
        class: Some("vehicle".into()),
        class_template: Some("STRIKE_Bridge".into()),
        elements: None,
        _name: "Bridge".into(),
        _side: "blue".into(),
        attributes: Vec::new(),
        picture: Vec::new(),
    };
    let mut triggers: Vec<Trigger> = Vec::new();
    assert!(hide_strike_target(&mut s, &mut triggers).is_ok());
    assert!(s.inactive);
    assert_eq!(triggers.len(), 1);
    let t = &triggers[0];
    assert_eq!(t._name, "Bridge - Hide");
    assert_eq!(t.condition, "true");
    assert!(t.active && !t.once);
    match &t.action {
        Actions::Many(a) => assert_eq!(
            a,
            &vec![
                "Action.TargetActive(\"Bridge\", false)".to_string(),
                "Action.GroupHidden(\"STRIKE_Bridge\", true)".to_string(),
                "Action.GroupProbability(\"STRIKE_Bridge\", 0)".to_string(),
            ]
        ),
        Actions::One(_) => panic!("expected several actions"),
    }

    let mut fixed: Strike<()> = Strike { class: Some("static".into()), inactive: false, ..s };
    let before = triggers.len();
    assert_eq!(hide_strike_target(&mut fixed, &mut triggers), Err(NotAVehicleStrike));
    assert!(!fixed.inactive);
    assert_eq!(triggers.len(), before);
}

#[test]
fn lua_step_stops_at_an_error() {
    assert_eq!(lua_step(3, 0, Some("bad".to_string())), LuaStep::Stop("bad".to_string()));
    assert_eq!(lua_step(3, 0, None), LuaStep::Next(1));
    assert_eq!(lua_step(3, 2, None), LuaStep::Done);
    assert_eq!(lua_step(1, 0, Some("x".to_string())), LuaStep::Stop("x".to_string()));
}
