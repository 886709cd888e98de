//! Material and reaction registry behavior: loading, lookup, clamping,
//! error cases, and the dump/reload round trip.

use coinage::material::{ColorRgba, MaterialDb, MaterialDef, MaterialLoadError, DIFF_MAX};
use coinage::reaction::{ReactionDb, ReactionLoadError, ReactionRef};
use coinage::FIXED_ONE;

fn color(r: u8, g: u8, b: u8) -> ColorRgba {
    ColorRgba { r, g, b, a: 255 }
}

fn def(name: &str, diffusivity: u32) -> MaterialDef {
    MaterialDef {
        name: name.to_string(),
        color_raw: color(10, 20, 30),
        diffusivity,
        transform_cold_mat_name: None,
        transform_cold_temp: None,
        transform_hot_mat_name: None,
        transform_hot_temp: None,
    }
}

fn base_defs() -> Vec<MaterialDef> {
    let mut water = def("base:water", 16000);
    water.transform_cold_mat_name = Some("base:ice".to_string());
    water.transform_cold_temp = Some(-100);
    water.transform_hot_mat_name = Some("base:steam".to_string());
    water.transform_hot_temp = Some(1000);
    vec![
        def("base:air", 4000),
        water,
        def("base:ice", 200),
        def("base:steam", 9000),
        def("base:rock", 0),
    ]
}

#[test]
fn material_load_assigns_dense_ids_in_order() {
    let mut db = MaterialDb::new();
    db.load_defs(&base_defs()).unwrap();
    assert_eq!(db.get_mat_count(), 5);
    assert_eq!(db.get_id(&"base:air".to_string()).unwrap().0, 0);
    assert_eq!(db.get_id(&"base:water".to_string()).unwrap().0, 1);
    assert_eq!(db.get_id(&"base:rock".to_string()).unwrap().0, 4);
    assert!(db.get_id(&"base:lava".to_string()).is_none());
}

#[test]
fn material_transforms_resolve_to_ids() {
    let mut db = MaterialDb::new();
    db.load_defs(&base_defs()).unwrap();
    let water = db.get_id(&"base:water".to_string()).unwrap();
    let m = db.get(water).unwrap();
    let cold = m.transform_cold.unwrap();
    let hot = m.transform_hot.unwrap();
    assert_eq!(cold.target, db.get_id(&"base:ice".to_string()).unwrap());
    assert_eq!(cold.threshold, -100);
    assert_eq!(hot.target, db.get_id(&"base:steam".to_string()).unwrap());
    assert_eq!(hot.threshold, 1000);
}

#[test]
fn material_diffusivity_is_clamped_on_load() {
    let mut db = MaterialDb::new();
    db.load_defs(&vec![def("base:hot", FIXED_ONE)]).unwrap();
    let table = db.get_diffusivity_of();
    assert_eq!(table[0], DIFF_MAX);
}

#[test]
fn material_duplicate_name_is_fatal() {
    let mut db = MaterialDb::new();
    let r = db.load_defs(&vec![def("base:air", 1), def("base:air", 2)]);
    assert!(matches!(r, Err(MaterialLoadError::DuplicateName { .. })));
    assert_eq!(db.get_mat_count(), 0);
}

#[test]
fn material_unknown_transform_target_is_fatal() {
    let mut db = MaterialDb::new();
    let mut bad = def("base:water", 1);
    bad.transform_cold_mat_name = Some("base:unobtainium".to_string());
    let r = db.load_defs(&vec![bad]);
    assert!(matches!(r, Err(MaterialLoadError::UnknownTransformTarget { .. })));
}

#[test]
fn material_contradictory_thresholds_are_fatal() {
    let mut db = MaterialDb::new();
    let mut bad = def("base:water", 1);
    bad.transform_cold_mat_name = Some("base:water".to_string());
    bad.transform_cold_temp = Some(100);
    bad.transform_hot_mat_name = Some("base:water".to_string());
    bad.transform_hot_temp = Some(100);
    let r = db.load_defs(&vec![bad]);
    assert!(matches!(r, Err(MaterialLoadError::ContradictoryThresholds { .. })));
}

#[test]
fn material_dump_reload_yields_identical_registry() {
    let mut db = MaterialDb::new();
    db.load_defs(&base_defs()).unwrap();
    let dumped = db.dump();
    let mut db2 = MaterialDb::new();
    db2.load_defs(&dumped).unwrap();
    assert_eq!(db.get_mat_count(), db2.get_mat_count());
    let dumped2 = db2.dump();
    assert_eq!(dumped.len(), dumped2.len());
    for (a, b) in dumped.iter().zip(dumped2.iter()) {
        assert_eq!(a.name, b.name);
        assert_eq!(a.color_raw, b.color_raw);
        assert_eq!(a.diffusivity, b.diffusivity);
        assert_eq!(a.transform_cold_mat_name, b.transform_cold_mat_name);
        assert_eq!(a.transform_cold_temp, b.transform_cold_temp);
        assert_eq!(a.transform_hot_mat_name, b.transform_hot_mat_name);
        assert_eq!(a.transform_hot_temp, b.transform_hot_temp);
    }
}

fn rref(name: &str, ina: &str, inb: &str, outa: &str, outb: &str, rate: i64) -> ReactionRef {
    ReactionRef {
        name: name.to_string(),
        in_a: ina.to_string(),
        in_b: inb.to_string(),
        out_a: outa.to_string(),
        out_b: outb.to_string(),
        rate,
    }
}

#[test]
fn reaction_lookup_is_symmetric() {
    let mut mats = MaterialDb::new();
    mats.load_defs(&base_defs()).unwrap();
    let mut db = ReactionDb::new();
    db.load_refs(
        &mats,
        &vec![rref("quench", "base:steam", "base:ice", "base:water", "base:water", FIXED_ONE as i64)],
    )
    .unwrap();
    let steam = mats.get_id(&"base:steam".to_string()).unwrap();
    let ice = mats.get_id(&"base:ice".to_string()).unwrap();
    let air = mats.get_id(&"base:air".to_string()).unwrap();
    let ab = db.get_reaction_by_mats(steam, ice);
    let ba = db.get_reaction_by_mats(ice, steam);
    assert!(ab.is_some());
    assert_eq!(ab, ba);
    assert!(db.get_reaction_by_mats(air, steam).is_none());
    let react = db.get(ab.unwrap()).unwrap();
    assert_eq!(react.in_a, steam);
    assert_eq!(react.in_b, ice);
    assert_eq!(react.rate, FIXED_ONE);
}

#[test]
fn reaction_nonpositive_rate_is_silently_dropped() {
    let mut mats = MaterialDb::new();
    mats.load_defs(&base_defs()).unwrap();
    let mut db = ReactionDb::new();
    db.load_refs(
        &mats,
        &vec![
            rref("noop", "base:steam", "base:ice", "base:water", "base:water", 0),
            rref("melt", "base:ice", "base:rock", "base:water", "base:rock", 100),
        ],
    )
    .unwrap();
    assert_eq!(db.get_reaction_count(), 1);
    assert!(db.get_id(&"noop".to_string()).is_none());
    assert!(db.get_id(&"melt".to_string()).is_some());
}

#[test]
fn reaction_duplicate_pair_is_fatal() {
    let mut mats = MaterialDb::new();
    mats.load_defs(&base_defs()).unwrap();
    let mut db = ReactionDb::new();
    let r = db.load_refs(
        &mats,
        &vec![
            rref("one", "base:steam", "base:ice", "base:water", "base:water", 10),
            rref("two", "base:ice", "base:steam", "base:rock", "base:rock", 10),
        ],
    );
    assert!(matches!(r, Err(ReactionLoadError::DuplicatePair { .. })));
    assert_eq!(db.get_reaction_count(), 0);
}

#[test]
fn reaction_unknown_material_is_fatal() {
    let mut mats = MaterialDb::new();
    mats.load_defs(&base_defs()).unwrap();
    let mut db = ReactionDb::new();
    let r = db.load_refs(
        &mats,
        &vec![rref("bad", "base:steam", "base:mystery", "base:water", "base:water", 10)],
    );
    assert!(matches!(r, Err(ReactionLoadError::UnknownMaterial { .. })));
}

#[test]
fn reaction_rate_is_clamped_to_fixed_one() {
    let mut mats = MaterialDb::new();
    mats.load_defs(&base_defs()).unwrap();
    let mut db = ReactionDb::new();
    db.load_refs(
        &mats,
        &vec![rref("fast", "base:steam", "base:ice", "base:water", "base:water", i64::MAX)],
    )
    .unwrap();
    let id = db.get_id(&"fast".to_string()).unwrap();
    assert_eq!(db.get(id).unwrap().rate, FIXED_ONE);
}
