use polar_store::polar::{
    Foil, Hull, Penalty, PenaltyBoundaries, PenaltyCase, Polar, PolarError, Sail, Winch,
};
use polar_store::store::{Location, PolarService, UpdateEffect};

fn penalty() -> Penalty {
    Penalty { ratio: (0.5f64).to_bits(), timer: 30 }
}

fn penalty_case() -> PenaltyCase {
    PenaltyCase {
        std_timer_sec: 300,
        std_ratio: (0.5f64).to_bits(),
        pro_timer_sec: 180,
        pro_ratio: (0.75f64).to_bits(),
        std: PenaltyBoundaries { lw: penalty(), hw: penalty() },
    }
}

fn sample(id: Option<&str>, polar_id: u8, label: &str) -> Polar {
    Polar {
        id: id.map(|s| s.to_string()),
        polar_id,
        archived: false,
        label: label.to_string(),
        global_speed_ratio: (1.0f64).to_bits(),
        ice_speed_ratio: (0.3f64).to_bits(),
        auto_sail_change_tolerance: (1.02f64).to_bits(),
        bad_sail_tolerance: (0.7f64).to_bits(),
        max_speed: (40.0f64).to_bits(),
        foil: Foil {
            speed_ratio: (1.04f64).to_bits(),
            twa_min: (70.0f64).to_bits(),
            twa_max: (160.0f64).to_bits(),
            twa_merge: (5.0f64).to_bits(),
            tws_min: (11.0f64).to_bits(),
            tws_max: (35.0f64).to_bits(),
            tws_merge: (2.0f64).to_bits(),
        },
        hull: Hull { speed_ratio: (1.0f64).to_bits() },
        winch: Winch {
            tack: penalty_case(),
            gybe: penalty_case(),
            sail_change: penalty_case(),
            lws: 10,
            hws: 25,
        },
        tws: vec![4, 8, 12, 16],
        twa: vec![30, 60, 90, 120],
        sail: vec![Sail {
            id: 1,
            name: "JIB".to_string(),
            speed: vec![vec![(1.0f64).to_bits(), (2.5f64).to_bits()]],
        }],
    }
}

fn same_sail(a: &Sail, b: &Sail) -> bool {
    a.id == b.id && a.name == b.name && a.speed == b.speed
}

fn same_content(a: &Polar, b: &Polar) -> bool {
    a.polar_id == b.polar_id
        && a.label == b.label
        && a.global_speed_ratio == b.global_speed_ratio
        && a.ice_speed_ratio == b.ice_speed_ratio
        && a.auto_sail_change_tolerance == b.auto_sail_change_tolerance
        && a.bad_sail_tolerance == b.bad_sail_tolerance
        && a.max_speed == b.max_speed
        && a.foil == b.foil
        && a.hull == b.hull
        && a.winch == b.winch
        && a.tws == b.tws
        && a.twa == b.twa
        && a.sail.len() == b.sail.len()
        && a.sail.iter().zip(b.sail.iter()).all(|(x, y)| same_sail(x, y))
}

fn new_store() -> PolarService {
    PolarService::new("polars".to_string(), "archived".to_string())
}

#[test]
fn create_then_get_returns_input_unarchived() {
    let mut store = new_store();
    let polar = sample(Some("boat1"), 3, "fleet/boat1");
    assert!(store.create(&polar).is_ok());
    let got = store.get("boat1".to_string()).expect("record must be found");
    assert_eq!(got.id.as_deref(), Some("boat1"));
    assert!(!got.archived);
    assert!(same_content(&got, &polar));
}

#[test]
fn create_conflict_leaves_existing_record_untouched() {
    let mut store = new_store();
    let first = sample(Some("boat1"), 3, "fleet/boat1");
    let second = sample(Some("boat1"), 9, "other/boat1");
    assert!(store.create(&first).is_ok());
    match store.create(&second) {
        Err(PolarError::AlreadyExists(id)) => assert_eq!(id, "boat1"),
        other => panic!("expected a conflict, got {:?}", other),
    }
    let got = store.get("boat1".to_string()).unwrap();
    assert!(same_content(&got, &first));
    assert_eq!(got.polar_id, 3);
}

#[test]
fn create_without_id_is_refused() {
    let mut store = new_store();
    let polar = sample(None, 3, "fleet/boat1");
    match store.create(&polar) {
        Err(PolarError::IdIsMandatory()) => {}
        other => panic!("expected the mandatory-id error, got {:?}", other),
    }
}

#[test]
fn create_with_derived_id_uses_last_label_segment() {
    let mut store = new_store();
    let polar = sample(None, 3, "fleet/boat1");
    assert!(store.create_with_derived_id(polar).is_ok());
    let got = store.get("boat1".to_string()).expect("derived id must resolve");
    assert_eq!(got.id.as_deref(), Some("boat1"));
}

#[test]
fn create_with_no_derivable_id_is_refused() {
    let mut store = new_store();
    match store.create_with_derived_id(sample(None, 3, "")) {
        Err(PolarError::IdIsMandatory()) => {}
        other => panic!("expected the mandatory-id error, got {:?}", other),
    }
    match store.create_with_derived_id(sample(None, 3, "fleet/")) {
        Err(PolarError::IdIsMandatory()) => {}
        other => panic!("expected the mandatory-id error, got {:?}", other),
    }
}

#[test]
fn archive_then_restore_round_trip_preserves_record() {
    let mut store = new_store();
    let polar = sample(Some("boat1"), 3, "fleet/boat1");
    store.create(&polar).unwrap();
    let before = store.get("boat1".to_string()).unwrap();
    store.archive("boat1".to_string()).unwrap();
    let while_archived = store.get("boat1".to_string()).unwrap();
    assert!(while_archived.archived);
    store.restore("boat1".to_string()).unwrap();
    let after = store.get("boat1".to_string()).unwrap();
    assert!(!after.archived);
    assert_eq!(after.id, before.id);
    assert!(same_content(&after, &before));
}

#[test]
fn archive_missing_record_is_not_found() {
    let mut store = new_store();
    match store.archive("ghost".to_string()) {
        Err(PolarError::NotFound(id)) => assert_eq!(id, "ghost"),
        other => panic!("expected not-found, got {:?}", other),
    }
}

#[test]
fn restore_conflict_leaves_archived_copy_untouched() {
    let mut store = new_store();
    let original = sample(Some("boat1"), 3, "fleet/boat1");
    store.create(&original).unwrap();
    store.archive("boat1".to_string()).unwrap();
    // create may shadow an archived record of the same id
    let shadow = sample(Some("boat1"), 9, "other/boat1");
    store.create(&shadow).unwrap();
    match store.restore("boat1".to_string()) {
        Err(PolarError::AlreadyExists(id)) => assert_eq!(id, "boat1"),
        other => panic!("expected a conflict, got {:?}", other),
    }
    // the active shadow still answers the lookup; the archived copy is intact
    let active = store.get("boat1".to_string()).unwrap();
    assert_eq!(active.polar_id, 9);
    store.delete("boat1".to_string()).unwrap();
    let archived = store.get("boat1".to_string()).unwrap();
    assert!(archived.archived);
    assert!(same_content(&archived, &original));
}

#[test]
fn restore_missing_record_is_not_found() {
    let mut store = new_store();
    match store.restore("ghost".to_string()) {
        Err(PolarError::NotFound(id)) => assert_eq!(id, "ghost"),
        other => panic!("expected not-found, got {:?}", other),
    }
}

#[test]
fn delete_active_record_makes_get_miss() {
    let mut store = new_store();
    store.create(&sample(Some("boat1"), 3, "fleet/boat1")).unwrap();
    assert!(matches!(store.delete("boat1".to_string()), Ok(Location::Active)));
    assert!(store.get("boat1".to_string()).is_none());
}

#[test]
fn delete_archived_record_makes_get_miss() {
    let mut store = new_store();
    store.create(&sample(Some("boat1"), 3, "fleet/boat1")).unwrap();
    store.archive("boat1".to_string()).unwrap();
    assert!(matches!(store.delete("boat1".to_string()), Ok(Location::Archived)));
    assert!(store.get("boat1".to_string()).is_none());
}

#[test]
fn delete_missing_record_is_not_found() {
    let mut store = new_store();
    match store.delete("ghost".to_string()) {
        Err(PolarError::NotFound(id)) => assert_eq!(id, "ghost"),
        other => panic!("expected not-found, got {:?}", other),
    }
}

#[test]
fn update_in_place_overwrites_content() {
    let mut store = new_store();
    store.create(&sample(Some("boat1"), 3, "fleet/boat1")).unwrap();
    let newer = sample(Some("boat1"), 7, "fleet/boat1");
    match store.update("boat1".to_string(), &newer) {
        Ok(UpdateEffect::InPlace(id)) => assert_eq!(id, "boat1"),
        other => panic!("expected an in-place update, got {:?}", other),
    }
    assert_eq!(store.get("boat1".to_string()).unwrap().polar_id, 7);
}

#[test]
fn update_with_new_id_renames_the_record() {
    let mut store = new_store();
    store.create(&sample(Some("boat1"), 3, "fleet/boat1")).unwrap();
    let renamed = sample(Some("boat2"), 5, "fleet/boat2");
    match store.update("boat1".to_string(), &renamed) {
        Ok(UpdateEffect::Renamed(from, to)) => {
            assert_eq!(from, "boat1");
            assert_eq!(to, "boat2");
        }
        other => panic!("expected a rename, got {:?}", other),
    }
    assert!(store.get("boat1".to_string()).is_none());
    let got = store.get("boat2".to_string()).unwrap();
    assert_eq!(got.polar_id, 5);
    assert!(same_content(&got, &renamed));
}

#[test]
fn update_missing_record_is_not_found() {
    let mut store = new_store();
    match store.update("ghost".to_string(), &sample(Some("ghost"), 1, "x")) {
        Err(PolarError::NotFound(id)) => assert_eq!(id, "ghost"),
        other => panic!("expected not-found, got {:?}", other),
    }
}

#[test]
fn empty_store_lists_nothing() {
    let store = new_store();
    assert!(store.list(None).is_empty());
    assert!(store.list(Some(true)).is_empty());
    assert!(store.list(Some(false)).is_empty());
}

#[test]
fn list_separates_active_and_archived() {
    let mut store = new_store();
    store.create(&sample(Some("boat1"), 1, "a")).unwrap();
    store.create(&sample(Some("boat2"), 2, "b")).unwrap();
    store.archive("boat2".to_string()).unwrap();
    let active = store.list(Some(false));
    assert_eq!(active.len(), 1);
    assert_eq!(active[0].id.as_deref(), Some("boat1"));
    assert!(active.iter().all(|p| !p.archived));
    let archived = store.list(Some(true));
    assert_eq!(archived.len(), 1);
    assert_eq!(archived[0].id.as_deref(), Some("boat2"));
    assert!(archived.iter().all(|p| p.archived));
    // the flag absent reads the active directory
    assert_eq!(store.list(None).len(), 1);
}

#[test]
fn find_by_polar_id_prefers_active_match() {
    let mut store = new_store();
    store.create(&sample(Some("old"), 3, "old")).unwrap();
    store.archive("old".to_string()).unwrap();
    store.create(&sample(Some("new"), 3, "new")).unwrap();
    let found = store.find_by_polar_id(3).unwrap();
    assert_eq!(found.id.as_deref(), Some("new"));
    assert!(!found.archived);
}

#[test]
fn find_by_polar_id_falls_back_to_archived() {
    let mut store = new_store();
    store.create(&sample(Some("old"), 3, "old")).unwrap();
    store.archive("old".to_string()).unwrap();
    let found = store.find_by_polar_id(3).unwrap();
    assert_eq!(found.id.as_deref(), Some("old"));
    assert!(found.archived);
    assert!(store.find_by_polar_id(4).is_none());
}

#[test]
fn scan_skips_what_did_not_decode() {
    // a directory scan hands the store only what decoded; a malformed file
    // contributes nothing and the rest is still listed
    let mut store = new_store();
    assert!(store.insert_scanned("boat1".to_string(), sample(None, 1, "a"), false));
    // "boat2.yaml" failed to decode: never handed to the store
    assert!(store.insert_scanned("boat3".to_string(), sample(None, 3, "c"), false));
    let listed = store.list(None);
    assert_eq!(listed.len(), 2);
    assert_eq!(listed[0].id.as_deref(), Some("boat1"));
    assert_eq!(listed[1].id.as_deref(), Some("boat3"));
}

#[test]
fn scan_refuses_a_duplicate_stem() {
    let mut store = new_store();
    assert!(store.insert_scanned("boat1".to_string(), sample(None, 1, "a"), false));
    assert!(!store.insert_scanned("boat1".to_string(), sample(None, 2, "b"), false));
    assert_eq!(store.list(None).len(), 1);
    assert_eq!(store.list(None)[0].polar_id, 1);
}

#[test]
fn error_messages_name_the_record() {
    assert_eq!(
        PolarError::AlreadyExists("boat1".to_string()).message(),
        "Polar boat1 already exists."
    );
    assert_eq!(
        PolarError::NotFound("boat1".to_string()).message(),
        "Polar boat1 does not exist."
    );
    assert_eq!(PolarError::IdIsMandatory().message(), "Id is mandatory");
}
