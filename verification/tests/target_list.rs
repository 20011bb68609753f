use dce_lib::target_list::{zone_readable, MissionZone, SideGroup, Target, TargetList, TargetListInternal};
use dce_lib::targets::StrikeElement;

fn zone(name: &str, x: f64, y: f64, orbit: Option<(f64, f64)>) -> MissionZone<f64> {
    MissionZone { name: name.into(), x, y, orbit }
}

fn group(name: &str, side: &str) -> SideGroup {
    SideGroup { name: name.into(), side: side.into() }
}

fn sample_list() -> TargetList<f64> {
    let zones = vec![
        zone("BLUE_CAP_90_40", 1.0, 2.0, Some((90.0, 40000.0))),
        zone("red_Refueling_180_20", 3.0, 4.0, Some((180.0, 20000.0))),
        zone("Blue_AWACS_0_30", 5.0, 6.0, Some((0.0, 30000.0))),
        zone("RED_FIGHTERSWEEP_x", 7.0, 8.0, None),
        zone("BLUE_STATICSTRIKE_Bridge_North", 9.0, 10.0, None),
        zone("BLUE_STATICSTRIKE_Bridge_South", 11.0, 12.0, None),
        zone("RED_something", 0.0, 0.0, None),
    ];
    let vehicles = vec![group("STRIKE_Convoy", "red"), group("Patrol", "red"), group("strike_Depot_2", "blue")];
    let ships = vec![group("Belgrano", "red")];
    let statics = vec![
        group("STATICSTRIKE_Fuel_Tank1", "blue"),
        group("STATICSTRIKE_Fuel_Tank2", "blue"),
        group("Hangar", "red"),
    ];
    TargetList::new_from_mission(&zones, &vehicles, &ships, &statics)
}

#[test]
fn zones_become_orbits_and_sweeps() {
    let tl = sample_list();
    match tl.blue.get("BLUE_CAP_90_40") {
        Some(Target::CAP(c)) => {
            assert_eq!(c.priority, 1);
            assert_eq!(c.radius, 40000.0);
            assert_eq!(c.axis, 90.0);
            assert_eq!(c._side, "blue");
            assert_eq!(c.ref_point, "BLUE_CAP_90_40");
            assert_eq!(c.firepower.min, 2);
        }
        other => panic!("expected a CAP, got {:?}", other),
    }
    match tl.red.get("red_Refueling_180_20") {
        Some(Target::Refueling(r)) => {
            assert_eq!(r.priority, 10);
            assert_eq!(r.firepower.max, 1);
            assert_eq!(r._side, "red");
        }
        other => panic!("expected a refueling orbit, got {:?}", other),
    }
    assert!(matches!(tl.blue.get("Blue_AWACS_0_30"), Some(Target::AWACS(_))));
    match tl.red.get("RED_FIGHTERSWEEP_x") {
        Some(Target::FighterSweep(s)) => {
            assert_eq!(s.x, 7.0);
            assert_eq!(s.y, 8.0);
        }
        other => panic!("expected a sweep, got {:?}", other),
    }
    assert!(!tl.red.contains_key("RED_something"));
}

#[test]
fn static_strike_zones_share_a_target() {
    let tl = sample_list();
    match tl.blue.get("Bridge") {
        Some(Target::Strike(s)) => {
            let els = s.elements.as_ref().unwrap();
            assert_eq!(els.len(), 2);
            match &els[1] {
                StrikeElement::FixedCoord(c) => {
                    assert_eq!(c.name, "South");
                    assert_eq!(c.x, 11.0);
                }
                other => panic!("expected a fixed point, got {:?}", other),
            }
            assert_eq!(s.firepower.max, 4);
            assert_eq!(s.class, None);
        }
        other => panic!("expected a strike, got {:?}", other),
    }
}

#[test]
fn vehicle_and_ship_groups_are_targets_of_the_other_side() {
    let tl = sample_list();
    match tl.blue.get("Convoy") {
        Some(Target::Strike(s)) => {
            assert_eq!(s.class.as_deref(), Some("vehicle"));
            assert_eq!(s.class_template.as_deref(), Some("STRIKE_Convoy"));
            assert!(s.elements.is_none());
            assert_eq!(s._side, "blue");
        }
        other => panic!("expected a strike, got {:?}", other),
    }
    assert!(matches!(tl.red.get("Depot"), Some(Target::Strike(_))));
    assert!(!tl.blue.contains_key("Patrol"));
    match tl.blue.get("Belgrano") {
        Some(Target::AntiShipStrike(a)) => {
            assert_eq!(a.class, "ship");
            assert_eq!(a.priority, 2);
        }
        other => panic!("expected an anti-ship target, got {:?}", other),
    }
}

#[test]
fn static_groups_join_targets_of_the_other_side() {
    let tl = sample_list();
    match tl.red.get("Fuel") {
        Some(Target::Strike(s)) => {
            assert_eq!(s.class.as_deref(), Some("static"));
            let els = s.elements.as_ref().unwrap();
            assert_eq!(els.len(), 2);
            assert!(matches!(&els[0], StrikeElement::NamedStatic(n) if n.name == "STATICSTRIKE_Fuel_Tank1"));
            assert_eq!(s._side, "blue");
        }
        other => panic!("expected a strike, got {:?}", other),
    }
    assert!(!tl.blue.contains_key("Hangar"));
}

#[test]
fn static_group_check_reports_clash_with_vehicle_strike() {
    let mut tl: TargetList<f64> = TargetList::new();
    tl.add_vehicle_group(&group("STRIKE_Depot", "red"));
    assert!(!tl.static_group_ok(&group("STATICSTRIKE_Depot_Shed", "red")));
    assert!(tl.static_group_ok(&group("STATICSTRIKE_Other_Shed", "red")));
    assert!(!tl.static_group_ok(&group("STATICSTRIKE_Short", "red")));
    assert!(tl.static_group_ok(&group("Anything", "red")));
}

#[test]
fn internal_lists_round_trip() {
    let tl = sample_list();
    let blue_len = tl.blue.len();
    let red_len = tl.red.len();
    let internal = TargetListInternal::from_target_list(tl);
    assert_eq!(internal.cap.len(), 1);
    assert_eq!(internal.cap[0]._name, "BLUE_CAP_90_40");
    assert_eq!(internal.strike.len(), 4);
    assert_eq!(internal.antiship.len(), 1);
    let back = internal.to_target_list().unwrap();
    assert_eq!(back.blue.len(), blue_len);
    assert_eq!(back.red.len(), red_len);
    assert!(matches!(back.blue.get("Convoy"), Some(Target::Strike(_))));
}

#[test]
fn to_target_list_rejects_unknown_side() {
    let mut internal = TargetListInternal::from_target_list(sample_list());
    internal.cap[0]._side = "green".into();
    let e = internal.to_target_list().unwrap_err();
    assert_eq!(e.side, "green");
}

#[test]
fn zone_readable_checks_names() {
    assert!(zone_readable(&zone("BLUE_CAP_90_40", 0.0, 0.0, Some((90.0, 40000.0)))));
    assert!(!zone_readable(&zone("BLUE_CAP_90", 0.0, 0.0, None)));
    assert!(!zone_readable(&zone("NOUNDERSCORE", 0.0, 0.0, None)));
    assert!(!zone_readable(&zone("BLUE_STATICSTRIKE_Bridge", 0.0, 0.0, None)));
    assert!(zone_readable(&zone("BLUE_STATICSTRIKE_Bridge_North", 0.0, 0.0, None)));
    assert!(zone_readable(&zone("BLUE_AIRSTART_North", 0.0, 0.0, None)));
}
