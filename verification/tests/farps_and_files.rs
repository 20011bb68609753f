use dce_lib::miz::{miz_entry, MizError};
use dce_lib::bin_data::BinItem;
use dce_lib::cmp_file::CMPFile;
use dce_lib::farps::{max_id, plan_farps};
use dce_lib::target_list::MissionZone;

fn zone(name: &str, x: f64) -> MissionZone<f64> {
    MissionZone { name: name.into(), x, y: 0.0, orbit: None }
}

#[test]
fn max_id_of_ids() {
    assert_eq!(max_id(&vec![]), 0);
    assert_eq!(max_id(&vec![3, 9, 2]), 9);
}

#[test]
fn farp_zones_make_groups() {
    let zones = vec![
        zone("BLUE_FARP_Mt Death_1", 1.0),
        zone("BLUE_FARP_Mt Death_2", 2.0),
        zone("RED_CAP_0_10", 0.0),
        zone("RED_FARP_Hill_1", 3.0),
        zone("BLUE_FARP_Mt Death_3", 4.0),
    ];
    let groups = plan_farps(&zones, 100, 50);
    assert_eq!(groups.len(), 3);
    assert_eq!(groups[0].name, "Mt Death");
    assert_eq!(groups[0].group_id, 50);
    assert_eq!(groups[0].callsign_id, 1);
    assert_eq!(groups[0].freq_index, 0);
    assert!(groups[0].blue);
    assert_eq!(groups[0].units.len(), 2);
    assert_eq!(groups[0].units[0].unit_id, 100);
    assert_eq!(groups[0].units[1].unit_id, 101);
    assert_eq!(groups[0].x, 1.0);
    assert_eq!(groups[1].name, "Hill");
    assert!(!groups[1].blue);
    assert_eq!(groups[1].units[0].unit_id, 102);
    assert_eq!(groups[1].freq_index, 1);
    assert_eq!(groups[2].name, "Mt Death");
    assert_eq!(groups[2].group_id, 52);
    assert_eq!(groups[2].callsign_id, 3);
    assert_eq!(groups[2].units[0].unit_id, 103);
    assert_eq!(groups[2].units[0].name, "BLUE_FARP_Mt Death_3");
}

#[test]
fn no_farp_zones_no_groups() {
    assert!(plan_farps(&vec![zone("BLUE_CAP_1_1", 0.0)], 1, 1).is_empty());
}

#[test]
fn cmp_file_for_campaign() {
    let c = CMPFile::new("Falklands".to_string());
    assert_eq!(c.picture, "dummy.png");
    assert_eq!(c.start_stage, 1);
    assert_eq!(c.name, "Falklands");
    assert_eq!(c.stages.len(), 2);
    assert_eq!(c.stages[0].name, "Stage 1");
    assert_eq!(c.stages[0].missions[0].file, "Falklands_first.miz");
    assert_eq!(c.stages[0].missions[0].interval, vec![0, 100]);
    assert_eq!(c.stages[1].name, "Stage 2");
    assert_eq!(c.stages[1].missions[0].file, "Falklands_ongoing.miz");
}

#[test]
fn stored_resource_copies_bytes() {
    let b = BinItem::from_stored_resource("alarme.wav", &[1, 2, 3]);
    assert_eq!(b.name, "alarme.wav");
    assert_eq!(b.data, vec![1, 2, 3]);
}

#[test]
fn base64_round_trip() {
    let b = BinItem::from_stored_resource("x", &[0, 255, 16, 7, 9]);
    let text = b.encoded_data();
    assert_eq!(text, "AP8QBwk");
    let back = BinItem::from_encoded("x".to_string(), &text).unwrap();
    assert_eq!(back.data, b.data);
    assert!(BinItem::from_encoded("x".to_string(), "AP8QBwk=").is_err());
    assert!(BinItem::from_encoded("x".to_string(), "!!").is_err());
    assert_eq!(BinItem::from_stored_resource("e", &[]).encoded_data(), "");
}

fn small_archive() -> Vec<u8> {
    let mut data: Vec<u8> = Vec::new();
    {
        let mut w = zip::ZipWriter::new(std::io::Cursor::new(&mut data));
        let options = zip::write::FileOptions::default();
        w.start_file("mission", options).unwrap();
        std::io::Write::write_all(&mut w, b"mission = {}").unwrap();
        w.finish().unwrap();
    }
    data
}

#[test]
fn miz_entries_are_read_by_name() {
    let archive = small_archive();
    assert_eq!(miz_entry(&archive, "mission").unwrap(), b"mission = {}".to_vec());
    assert_eq!(miz_entry(&archive, "warehouses"), Err(MizError { entry: "warehouses".to_string() }));
    assert_eq!(miz_entry(b"not a zip", "mission"), Err(MizError { entry: "mission".to_string() }));
}
