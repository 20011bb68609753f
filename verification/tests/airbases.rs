use std::collections::HashMap;

use dce_lib::airbases::{get_first_freq, get_first_uhf_freq, tacan_for_airport, BeaconRef, FrequencyItem, Warehouse, Warehouses};
use dce_lib::db_airbases::{AirBase, BaseDefaults, DBAirbases, DBAirbasesInternal, DcsAirfield, ShipUnit, StaticGroup, StaticUnit};
use dce_lib::target_list::MissionZone;

#[test]
fn first_frequency_and_first_uhf() {
    let items = vec![FrequencyItem::Many(vec![118100000, 251000000]), FrequencyItem::One(300000000)];
    assert_eq!(get_first_freq(&items), Some(118100000));
    assert_eq!(get_first_uhf_freq(&items), Some(251000000));
    let vhf = vec![FrequencyItem::One(118100000)];
    assert_eq!(get_first_uhf_freq(&vhf), None);
    assert_eq!(get_first_freq(&vec![]), None);
    assert_eq!(get_first_uhf_freq(&vec![FrequencyItem::One(225000000)]), Some(225000000));
    assert_eq!(get_first_uhf_freq(&vec![FrequencyItem::One(400000001)]), None);
}

#[test]
fn tacan_of_airport() {
    let beacons = vec![
        BeaconRef { id: "other".into(), beacon_type: 4, channel: Some(1) },
        BeaconRef { id: "air1".into(), beacon_type: 2, channel: Some(2) },
        BeaconRef { id: "air1".into(), beacon_type: 5, channel: None },
        BeaconRef { id: "air1".into(), beacon_type: 4, channel: Some(77) },
    ];
    let ids = vec!["air1".to_string()];
    assert_eq!(tacan_for_airport(&beacons, &ids), Some("77X".to_string()));
    assert_eq!(tacan_for_airport(&beacons, &vec!["none".to_string()]), None);
}

fn warehouses() -> Warehouses {
    let mut airports = HashMap::new();
    airports.insert(1, Warehouse { coalition: "BLUE".into() });
    airports.insert(2, Warehouse { coalition: "Red".into() });
    Warehouses { airports }
}

#[test]
fn side_of_airdrome_is_lower_cased() {
    let w = warehouses();
    assert_eq!(w.side_of_airdrome(1), Some("blue".to_string()));
    assert_eq!(w.side_of_airdrome(3), None);
}

#[test]
fn database_from_mission() {
    let airfields = vec![
        DcsAirfield { name: "Stanley".into(), airdrome_id: 1, x: 1.0, y: 2.0, height: 20.0, uhf_frequency: "251".into(), stands: 70000 },
        DcsAirfield { name: "Goose".into(), airdrome_id: 2, x: 3.0, y: 4.0, height: 5.0, uhf_frequency: "".into(), stands: 3 },
    ];
    let ships = vec![
        ShipUnit { name: "CV_Hermes".into(), side: "blue".into(), frequency: "127.5".into() },
        ShipUnit { name: "Frigate".into(), side: "blue".into(), frequency: "1".into() },
    ];
    let zones = vec![
        MissionZone { name: "red_AirStart_North".into(), x: 9.0, y: 9.0, orbit: None },
        MissionZone { name: "BLUE_AIRSTART".into(), x: 0.0, y: 0.0, orbit: None },
    ];
    let statics = vec![
        StaticGroup {
            name: "FARP A".into(),
            side: "blue".into(),
            x: 5.0,
            y: 6.0,
            units: vec![StaticUnit { unit_type: "FARP".into(), category: "Heliports".into(), unit_id: 7, heliport_frequency: Some("128.0".into()) }],
        },
        StaticGroup {
            name: "Pads".into(),
            side: "red".into(),
            x: 5.0,
            y: 6.0,
            units: vec![
                StaticUnit { unit_type: "Invisible FARP".into(), category: "Heliports".into(), unit_id: 8, heliport_frequency: Some("128.2".into()) },
                StaticUnit { unit_type: "Invisible FARP".into(), category: "Heliports".into(), unit_id: 9, heliport_frequency: Some("128.2".into()) },
            ],
        },
        StaticGroup {
            name: "Tent".into(),
            side: "red".into(),
            x: 1.0,
            y: 1.0,
            units: vec![StaticUnit { unit_type: "Tent".into(), category: "Fortifications".into(), unit_id: 10, heliport_frequency: None }],
        },
    ];
    let defaults = BaseDefaults { ship_startup: 600.0, farp_elevation: 0.0, air_start_elevation: 6000.0 };
    let db = DBAirbases::new_from_mission(&airfields, &warehouses(), &ships, &zones, &statics, defaults);
    assert_eq!(db.bases.len(), 6);
    match db.bases.get("Stanley") {
        Some(AirBase::Fixed(f)) => {
            assert_eq!(f.side, "blue");
            assert_eq!(f.limited_park_number, (70000 % 65536) as u16);
            assert_eq!(f.startup, 600);
            assert_eq!(f.atc_frequency, "251");
        }
        other => panic!("expected an airfield, got {:?}", other),
    }
    match db.bases.get("Goose") {
        Some(AirBase::Fixed(f)) => assert_eq!(f.side, "red"),
        other => panic!("expected an airfield, got {:?}", other),
    }
    match db.bases.get("CV_Hermes") {
        Some(AirBase::Ship(s)) => {
            assert_eq!(s.limited_park_number, 4);
            assert_eq!(s.startup, Some(600.0));
            assert_eq!(s.atc_frequency.as_deref(), Some("127.5"));
        }
        other => panic!("expected a ship, got {:?}", other),
    }
    assert!(db.bases.get("Frigate").is_none());
    match db.bases.get("North") {
        Some(AirBase::AirStart(a)) => {
            assert_eq!(a.side, "red");
            assert_eq!(a.elevation, 6000.0);
            assert!(a.base_air_start);
        }
        other => panic!("expected an air start, got {:?}", other),
    }
    match db.bases.get("FARP A") {
        Some(AirBase::Farp(f)) => {
            assert_eq!(f.limited_park_number, Some(4));
            assert_eq!(f.airdrome_id, 7);
            assert_eq!(f.atc_frequency, "128.0");
        }
        other => panic!("expected a FARP, got {:?}", other),
    }
    match db.bases.get("Pads") {
        Some(AirBase::Farp(f)) => assert_eq!(f.limited_park_number, Some(2)),
        other => panic!("expected a FARP, got {:?}", other),
    }
    assert!(db.bases.get("Tent").is_none());
    assert_eq!(db.bases.get("Pads").unwrap().get_side(), "red");
}

#[test]
fn database_lists_round_trip() {
    let airfields = vec![
        DcsAirfield { name: "Stanley".into(), airdrome_id: 1, x: 1.0, y: 2.0, height: 20.0, uhf_frequency: "251".into(), stands: 4 },
    ];
    let ships = vec![ShipUnit { name: "CV_Hermes".into(), side: "blue".into(), frequency: "127.5".into() }];
    let defaults = BaseDefaults { ship_startup: 600.0, farp_elevation: 0.0, air_start_elevation: 6000.0 };
    let db = DBAirbases::new_from_mission(&airfields, &warehouses(), &ships, &vec![], &vec![], defaults);
    let mut changed_warehouses = warehouses();
    changed_warehouses.airports.insert(1, Warehouse { coalition: "Neutral".into() });
    let lists = DBAirbasesInternal::from_db_airbases(db, &changed_warehouses);
    assert_eq!(lists.fixed.len(), 1);
    assert_eq!(lists.fixed[0].side, "neutral");
    assert_eq!(lists.fixed[0]._name, "Stanley");
    assert_eq!(lists.ship.len(), 1);
    assert!(lists.farp.is_empty());
    let back = lists.to_db_airbases();
    assert_eq!(back.bases.len(), 2);
    assert!(matches!(back.bases.get("CV_Hermes"), Some(AirBase::Ship(_))));
}
