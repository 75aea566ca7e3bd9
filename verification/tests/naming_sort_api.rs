use polar_store::api::{init, routes, ApiRoute};
use polar_store::config::Config;
use polar_store::naming::{derive_id, doc_stem_of, file_name_for};
use polar_store::polar::{
    Foil, Hull, Penalty, PenaltyBoundaries, PenaltyCase, Polar, Sail, Winch,
};
use polar_store::sort::{sort_polars, SortOrder};

fn small(id: Option<&str>, polar_id: u8) -> Polar {
    let penalty = Penalty { ratio: (0.5f64).to_bits(), timer: 30 };
    let case = PenaltyCase {
        std_timer_sec: 300,
        std_ratio: (0.5f64).to_bits(),
        pro_timer_sec: 180,
        pro_ratio: (0.75f64).to_bits(),
        std: PenaltyBoundaries { lw: penalty, hw: penalty },
    };
    Polar {
        id: id.map(|s| s.to_string()),
        polar_id,
        archived: false,
        label: "x".to_string(),
        global_speed_ratio: (1.0f64).to_bits(),
        ice_speed_ratio: (0.3f64).to_bits(),
        auto_sail_change_tolerance: (1.02f64).to_bits(),
        bad_sail_tolerance: (0.7f64).to_bits(),
        max_speed: (40.0f64).to_bits(),
        foil: Foil {
            speed_ratio: (1.04f64).to_bits(),
            twa_min: (70.0f64).to_bits(),
            twa_max: (160.0f64).to_bits(),
            twa_merge: (5.0f64).to_bits(),
            tws_min: (11.0f64).to_bits(),
            tws_max: (35.0f64).to_bits(),
            tws_merge: (2.0f64).to_bits(),
        },
        hull: Hull { speed_ratio: (1.0f64).to_bits() },
        winch: Winch { tack: case, gybe: case, sail_change: case, lws: 10, hws: 25 },
        tws: vec![4, 8],
        twa: vec![30, 60],
        sail: vec![Sail { id: 1, name: "JIB".to_string(), speed: vec![vec![0]] }],
    }
}

fn ids(polars: &[Polar]) -> Vec<Option<&str>> {
    polars.iter().map(|p| p.id.as_deref()).collect()
}

#[test]
fn record_files_carry_the_document_extension() {
    assert_eq!(file_name_for("boat1"), "boat1.yaml");
}

#[test]
fn scanned_names_yield_their_stem() {
    assert_eq!(doc_stem_of("boat1.yaml").as_deref(), Some("boat1"));
    assert_eq!(doc_stem_of("boat1.txt"), None);
    assert_eq!(doc_stem_of(".yaml"), None);
    assert_eq!(doc_stem_of("boat1"), None);
    // the stem stops at the first dot, as the scan reads names
    assert_eq!(doc_stem_of("a.b.yaml").as_deref(), Some("a"));
}

#[test]
fn derive_id_takes_the_last_path_segment() {
    assert_eq!(derive_id("fleet/boat1").as_deref(), Some("boat1"));
    assert_eq!(derive_id("boat1").as_deref(), Some("boat1"));
    assert_eq!(derive_id(""), None);
    assert_eq!(derive_id("fleet/"), None);
    assert_eq!(derive_id("a/b/c").as_deref(), Some("c"));
}

#[test]
fn sort_by_primary_key_ascending() {
    let polars = vec![small(Some("c"), 1), small(Some("a"), 2), small(Some("b"), 3)];
    let sorted = sort_polars(polars, "id", SortOrder::Asc);
    assert_eq!(ids(&sorted), vec![Some("a"), Some("b"), Some("c")]);
}

#[test]
fn sort_by_primary_key_descending() {
    let polars = vec![small(Some("c"), 1), small(Some("a"), 2), small(Some("b"), 3)];
    let sorted = sort_polars(polars, "id", SortOrder::Desc);
    assert_eq!(ids(&sorted), vec![Some("c"), Some("b"), Some("a")]);
}

#[test]
fn sort_by_secondary_id() {
    let polars = vec![small(Some("c"), 2), small(Some("a"), 3), small(Some("b"), 1)];
    let asc = sort_polars(polars, "_id", SortOrder::Asc);
    assert_eq!(asc.iter().map(|p| p.polar_id).collect::<Vec<u8>>(), vec![1, 2, 3]);
    let desc = sort_polars(asc, "_id", SortOrder::Desc);
    assert_eq!(desc.iter().map(|p| p.polar_id).collect::<Vec<u8>>(), vec![3, 2, 1]);
}

#[test]
fn unrecognized_sort_key_sorts_by_primary_key_ascending() {
    let polars = vec![small(Some("c"), 1), small(Some("a"), 2), small(Some("b"), 3)];
    let sorted = sort_polars(polars, "label", SortOrder::Desc);
    assert_eq!(ids(&sorted), vec![Some("a"), Some("b"), Some("c")]);
}

#[test]
fn missing_primary_key_sorts_first() {
    let polars = vec![small(Some("a"), 1), small(None, 2)];
    let sorted = sort_polars(polars, "id", SortOrder::Asc);
    assert_eq!(ids(&sorted), vec![None, Some("a")]);
}

#[test]
fn routes_are_mounted_in_order() {
    let r = routes();
    assert_eq!(
        r,
        vec![
            ApiRoute::List,
            ApiRoute::Get,
            ApiRoute::FindByPolarId,
            ApiRoute::Post,
            ApiRoute::Put,
            ApiRoute::Delete,
            ApiRoute::Archive,
            ApiRoute::Restore,
        ]
    );
}

#[test]
fn the_service_mounts_under_its_versioned_base() {
    let api = init();
    assert_eq!(api.base, "/polars/api/v1");
    assert_eq!(api.routes.len(), 8);
}

#[test]
fn default_config_is_empty() {
    let config = Config::default();
    assert_eq!(config.polars_dir, "");
    assert_eq!(config.archived_dir, "");
}
