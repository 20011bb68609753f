use dce_lib::airbases::BaseRef;
use dce_lib::generate::{generate_airbase_strikes, generate_intercepts, generate_runway_strikes};
use dce_lib::oob::{LiveryEnum, OobAir, Squadron};
use dce_lib::squadrons::{side_to_squadrons, PlaneGroupRef, PlaneUnitRef};
use dce_lib::strmap::StrMap;
use dce_lib::targets::{Intercept, RunwayAttack, Strike};

fn unit(name: &str, airframe: &str, livery: &str) -> PlaneUnitRef {
    PlaneUnitRef { name: name.into(), airframe: airframe.into(), skill: "High".into(), livery: livery.into() }
}

fn plane_group(name: &str, units: Vec<PlaneUnitRef>) -> PlaneGroupRef {
    PlaneGroupRef { name: name.into(), country: "UK".into(), units }
}

#[test]
fn groups_of_one_squadron_merge() {
    let groups = vec![
        plane_group("800NAS_1", vec![unit("800NAS_CAP_1", "Harrier", "a"), unit("800NAS_cap_2", "Harrier", "b")]),
        plane_group("1SQN_1", vec![unit("1SQN_Strike_1", "GR3", "c")]),
        plane_group("800NAS_2", vec![unit("800NAS_Intercept_1", "Harrier", "a")]),
    ];
    let squadrons = side_to_squadrons(&groups, "Hermes").unwrap();
    assert_eq!(squadrons.len(), 2);
    let s = &squadrons[0];
    assert_eq!(s.name, "800NAS");
    assert_eq!(s._type, "Harrier");
    assert_eq!(s.base, "Hermes");
    assert_eq!(s.number, 12);
    assert_eq!(s.reserve, 6);
    match &s.livery {
        LiveryEnum::Many(v) => assert_eq!(v, &vec!["a".to_string(), "b".to_string()]),
        LiveryEnum::One(_) => panic!("expected a list of liveries"),
    }
    assert_eq!(s.tasks.len(), 2);
    assert_eq!(s.tasks.get("CAP"), Some(&true));
    assert_eq!(s.tasks.get("Intercept"), Some(&true));
    assert_eq!(squadrons[1].tasks.get("Strike"), Some(&true));
}

#[test]
fn unknown_task_fails_squadrons() {
    let groups = vec![
        plane_group("A_1", vec![unit("A_CAP_1", "F-5", "x")]),
        plane_group("B_1", vec![unit("B_Bombing_1", "F-5", "x"), unit("B_Recon_1", "F-5", "x")]),
    ];
    let e = side_to_squadrons(&groups, "Base").unwrap_err();
    assert_eq!(e.task, "Bombing");
}

fn squadron(name: &str, base: &str, tasks: &[&str]) -> Squadron {
    let mut t = StrMap::new();
    for task in tasks {
        t.insert(task.to_string(), true);
    }
    Squadron {
        name: name.into(),
        inactive: false,
        player: false,
        _type: "F-4E".into(),
        country: "USA".into(),
        livery: LiveryEnum::Many(vec![]),
        base: base.into(),
        skill: "High".into(),
        tasks: t,
        number: 12,
        reserve: 6,
    }
}

fn sample_oob() -> OobAir {
    OobAir {
        blue: vec![squadron("VF-1", "Alpha", &["CAP"]), squadron("VF-2", "Bravo", &["Intercept"])],
        red: vec![squadron("R-1", "Charlie", &["Intercept"]), squadron("R-2", "Delta", &["Strike"])],
    }
}

#[test]
fn player_defaults_pick_first_blue_squadron() {
    let mut oob = sample_oob();
    oob.red[1].player = true;
    oob.set_player_defaults();
    assert!(oob.blue[0].player);
    assert!(!oob.blue[1].player);
    assert!(oob.red.iter().all(|s| !s.player));
    oob.set_player_squadron("R-1");
    assert!(!oob.blue[0].player);
    assert!(oob.red[0].player);
}

#[test]
fn squadrons_for_airbase_and_delete() {
    let mut oob = sample_oob();
    let at = oob.squadrons_for_airbase("Bravo");
    assert_eq!(at.len(), 1);
    assert_eq!(at[0].name, "VF-2");
    assert!(oob.delete_by_name("R-2").is_ok());
    assert_eq!(oob.red.len(), 1);
    assert!(oob.delete_by_name("R-2").is_err());
}

fn base(name: &str, side: &str) -> BaseRef {
    BaseRef { name: name.into(), side: side.into() }
}

#[test]
fn oca_strikes_for_bases_with_squadrons() {
    let oob = sample_oob();
    let fixed = vec![base("Alpha", "blue"), base("Echo", "blue"), base("Charlie", "red"), base("Delta", "neutral")];
    let mut strikes: Vec<Strike<()>> = Vec::new();
    generate_airbase_strikes(&fixed, &oob, &mut strikes);
    assert_eq!(strikes.len(), 2);
    assert_eq!(strikes[0].text, "Alpha OCA Strike");
    assert_eq!(strikes[0]._side, "red");
    assert_eq!(strikes[0].class.as_deref(), Some("airbase"));
    assert_eq!(strikes[0].attributes, vec!["parked_aircraft".to_string()]);
    assert_eq!(strikes[1]._side, "blue");
    let mut attacks: Vec<RunwayAttack> = Vec::new();
    generate_runway_strikes(&fixed, &oob, &mut attacks);
    assert_eq!(attacks.len(), 2);
    assert_eq!(attacks[1].airbase_name, "Charlie");
}

#[test]
fn intercepts_for_bases_with_interceptors() {
    let oob = sample_oob();
    let fixed = vec![base("Alpha", "blue"), base("Bravo", "blue"), base("Charlie", "red")];
    let ships: Vec<BaseRef> = vec![];
    let mut intercepts: Vec<Intercept<f64>> = Vec::new();
    generate_intercepts(&fixed, &ships, &oob, 100000.0, &mut intercepts);
    assert_eq!(intercepts.len(), 2);
    assert_eq!(intercepts[0].text, "Bravo Alert");
    assert_eq!(intercepts[0].base, "Bravo");
    assert_eq!(intercepts[0]._side, "blue");
    assert_eq!(intercepts[0].radius, 100000.0);
    assert_eq!(intercepts[1]._side, "red");
}
