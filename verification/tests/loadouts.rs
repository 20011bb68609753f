use dce_lib::loadouts::{flatten_loadouts, nest_loadouts, plan_loadouts, strike_rules_for, task_defaults, KeyedLoadout, LoadoutTable, LoadoutUnit};
use dce_lib::strmap::StrMap;
use dce_lib::task::Task;

#[test]
fn plain_strike_loadout() {
    let r = strike_rules_for("Mirage_Strike_Bombs");
    assert!(r.night);
    assert!(r.adverse_weather);
    assert_eq!(r.weapon_type, "Bombs");
    assert_eq!(r.expend, "All");
    assert_eq!(r.capability, 1);
    assert_eq!(r.sortie_rate, 6);
    assert_eq!(r.range, 500000);
    assert_eq!(r.standoff, None);
    assert!(r.support.escort && r.support.sead && !r.support.escort_jammer);
    assert!(r.attributes.is_empty());
}

#[test]
fn day_and_lgb_rules() {
    let r = strike_rules_for("F-16_Strike_Paveway day lgb");
    assert!(!r.night);
    assert!(!r.adverse_weather);
    assert_eq!(r.weapon_type, "Guided Bombs");
    assert_eq!(r.capability, 2);
    assert_eq!(r.expend, "Auto");
    assert_eq!(r.standoff, Some(9000));
    assert_eq!(r.attributes, vec!["precise".to_string()]);
}

#[test]
fn rules_apply_in_listed_order() {
    let r = strike_rules_for("A_Strike_mix cbu jdam rockets");
    assert_eq!(r.weapon_type, "Rockets");
    assert!(!r.adverse_weather);
    assert_eq!(r.sortie_rate, 3);
    assert_eq!(r.attributes, vec!["soft", "parked_aircraft", "precise", "soft", "parked_aircraft"]);
}

#[test]
fn saturation_rule() {
    let r = strike_rules_for("Tu-22_Strike_x saturation");
    assert_eq!(r.capability, 10);
    assert_eq!(r.firepower, 4);
    assert_eq!(r.sortie_rate, 1);
    assert_eq!(r.range, 1000000);
    assert_eq!(r.weapon_type, "ASM");
    assert_eq!(r.standoff, Some(150000));
    assert!(!r.support.sead);
    assert_eq!(r.attributes, vec!["saturation".to_string()]);
}

#[test]
fn tags_must_stand_alone() {
    let r = strike_rules_for("A_Strike_daylight lgbx");
    assert!(r.night);
    assert_eq!(r.weapon_type, "Bombs");
}

fn u(name: &str, airframe: &str) -> LoadoutUnit {
    LoadoutUnit { name: name.into(), airframe: airframe.into() }
}

#[test]
fn plan_loadouts_reads_task_of_each_unit() {
    let units = vec![u("VF1_CAP_Sparrow", "F-14"), u("VF1_Anti-ship strike_Harpoon", "F-18"), u("X_fighter sweep_y", "F-15")];
    let plan = plan_loadouts(&units).unwrap();
    assert_eq!(plan.len(), 3);
    assert_eq!(plan[0].task, Task::Cap);
    assert_eq!(plan[1].task, Task::AntiShipStrike);
    assert_eq!(plan[2].task, Task::FighterSweep);
    assert_eq!(plan[1].airframe, "F-18");
}

#[test]
fn plan_loadouts_reports_unknown_task() {
    let units = vec![u("VF1_CAP_Sparrow", "F-14"), u("VF1_Recon_Pod", "F-14"), u("VF1_Nope_x", "F-14")];
    let e = plan_loadouts(&units).unwrap_err();
    assert_eq!(e.name, "VF1_Recon_Pod");
}

fn keyed(af: &str, name: &str, l: u32) -> KeyedLoadout<u32> {
    KeyedLoadout { airframe: af.into(), name: name.into(), loadout: l }
}

#[test]
fn nest_then_flatten_keeps_loadouts() {
    let flat = vec![keyed("F-14", "a", 1), keyed("F-18", "b", 2), keyed("F-14", "c", 3), keyed("F-14", "a", 4)];
    let table = nest_loadouts(flat);
    assert_eq!(table.airframes.len(), 2);
    let f14 = table.airframes.get("F-14").unwrap();
    assert_eq!(f14.get("a"), Some(&4));
    assert_eq!(f14.get("c"), Some(&3));
    let back = flatten_loadouts(table);
    assert_eq!(back.len(), 3);
    let again = nest_loadouts(back);
    assert_eq!(again.airframes.get("F-18").unwrap().get("b"), Some(&2));
    assert_eq!(again.airframes.get("F-14").unwrap().len(), 2);
}

#[test]
fn flatten_stamps_airframe_and_name() {
    let mut inner = StrMap::new();
    inner.insert("x".to_string(), 9u32);
    let mut outer = StrMap::new();
    outer.insert("Su-27".to_string(), inner);
    let flat = flatten_loadouts(LoadoutTable { airframes: outer });
    assert_eq!(flat.len(), 1);
    assert_eq!(flat[0].airframe, "Su-27");
    assert_eq!(flat[0].name, "x");
    assert_eq!(flat[0].loadout, 9);
}

#[test]
fn task_defaults_per_task() {
    let s = task_defaults(Task::Strike);
    assert_eq!((s.capability, s.sortie_rate, s.station_time, s.ldsd, s.self_escort), (None, None, Some(0), Some(false), Some(false)));
    let a = task_defaults(Task::AntiShipStrike);
    assert_eq!(a.weapon_type, Some("Bombs".to_string()));
    assert_eq!(a.expend, Some("All".to_string()));
    assert_eq!((a.capability, a.sortie_rate), (Some(1), Some(6)));
    assert_eq!(a.support.map(|x| (x.escort, x.sead, x.escort_jammer)), Some((true, true, false)));
    let c = task_defaults(Task::Cap);
    assert_eq!((c.capability, c.sortie_rate, c.station_time, c.ldsd), (Some(1), Some(6), Some(2400), Some(true)));
    let w = task_defaults(Task::Awacs);
    assert_eq!((w.capability, w.sortie_rate, w.station_time, w.ldsd), (Some(10), Some(12), Some(14400), None));
    let r = task_defaults(Task::Refueling);
    assert_eq!(r.station_time, Some(10800));
    assert_eq!(task_defaults(Task::FighterSweep).ldsd, Some(false));
    assert_eq!(task_defaults(Task::Transport).ldsd, None);
}
