//! Building blocks: deterministic streams, traversal primitives, the
//! configuration bag, double buffering, staged writes, and the
//! checkerboard phasing of thermal transforms.

use coinage::config::ConfigBag;
use coinage::material::{ColorRgba, MaterialDb, MaterialDef, MaterialId};
use coinage::physics::engine::Engine;
use coinage::physics::module::EngineModule;
use coinage::physics::module_transforms_thermal::ModuleTransformsThermal;
use coinage::physics::util::{random_dir_permutation, scan_cell};
use coinage::reaction::ReactionDb;
use coinage::rng::SimRng;
use coinage::sim::{DoubleBuffer, Entity, Snapshot};
use coinage::world::{contains, index, World};

#[test]
fn streams_with_equal_seeds_are_identical() {
    let mut a = SimRng::seed_from_u64(42);
    let mut b = SimRng::seed_from_u64(42);
    let mut c = SimRng::seed_from_u64(43);
    let mut all_equal = true;
    let mut any_diff = false;
    for _ in 0..64 {
        let va = a.next_u64();
        all_equal = all_equal && va == b.next_u64();
        any_diff = any_diff || va != c.next_u64();
    }
    assert!(all_equal);
    assert!(any_diff);
}

#[test]
fn next_below_stays_below_its_bound() {
    let mut rng = SimRng::seed_from_u64(7);
    for n in 1..40u64 {
        let v = rng.next_below(n);
        assert!(v < n);
    }
}

#[test]
fn every_scan_order_visits_every_cell_once() {
    let (w, h) = (5usize, 4usize);
    for dir in 0..4u64 {
        let mut seen = vec![0u32; w * h];
        for k in 0..w * h {
            let c = scan_cell(dir, w, h, k);
            assert!(c.x < w && c.y < h);
            seen[c.y * w + c.x] += 1;
        }
        assert!(seen.iter().all(|&n| n == 1));
    }
}

#[test]
fn scan_orders_start_from_the_four_corners() {
    let (w, h) = (3usize, 2usize);
    let firsts: Vec<(usize, usize)> = (0..4u64)
        .map(|d| {
            let c = scan_cell(d, w, h, 0);
            (c.x, c.y)
        })
        .collect();
    assert_eq!(firsts, vec![(0, 0), (0, 1), (2, 1), (2, 0)]);
}

#[test]
fn dir_permutation_is_a_permutation() {
    let mut rng = SimRng::seed_from_u64(11);
    for &use_4 in &[true, false] {
        let dirs = random_dir_permutation(&mut rng, use_4);
        assert_eq!(dirs.len(), if use_4 { 4 } else { 8 });
        for i in 0..dirs.len() {
            let (dx, dy) = dirs[i];
            assert!((-1..=1).contains(&dx) && (-1..=1).contains(&dy));
            assert!(!(dx == 0 && dy == 0));
            if use_4 {
                assert!(dx == 0 || dy == 0);
            }
            for j in 0..i {
                assert_ne!(dirs[i], dirs[j]);
            }
        }
    }
}

#[test]
fn config_returns_first_binding_for_a_key() {
    let mut c = ConfigBag::new();
    c.insert("world_width".to_string(), 512);
    c.insert("steam_fade_chance".to_string(), 3277);
    c.insert("world_width".to_string(), 9999);
    assert_eq!(c.get(&"world_width".to_string()), Some(512));
    assert_eq!(c.get(&"steam_fade_chance".to_string()), Some(3277));
    assert_eq!(c.get(&"tooltip_scale".to_string()), None);
}

#[test]
fn double_buffer_sync_and_swap() {
    let mut buf = DoubleBuffer::new(vec![1u8, 2, 3]);
    buf.next[0] = 9;
    buf.swap();
    assert_eq!(buf.cur, vec![9, 2, 3]);
    assert_eq!(buf.next, vec![1, 2, 3]);
    buf.sync();
    assert_eq!(buf.next, vec![9, 2, 3]);
    let _ = Entity::empty();
}

#[test]
fn staged_temperature_adds_saturate() {
    let mut mats = MaterialDb::new();
    mats.load_defs(&vec![MaterialDef {
        name: "base:air".to_string(),
        color_raw: ColorRgba { r: 0, g: 0, b: 0, a: 0 },
        diffusivity: 0,
        transform_cold_mat_name: None,
        transform_cold_temp: None,
        transform_hot_mat_name: None,
        transform_hot_temp: None,
    }])
    .unwrap();
    let mut reacts = ReactionDb::new();
    reacts.load_refs(&mats, &vec![]).unwrap();
    let mut world = World::new(2, 1, mats, reacts);
    let mut next = world.take_next();
    next.set_temp(0, 0, i64::MAX - 5);
    next.add_temp(0, 0, 10);
    assert_eq!(next.peek_future_temp(0, 0), i64::MAX);
    next.set_temp(1, 0, i64::MIN + 5);
    next.add_temp(1, 0, -10);
    assert_eq!(next.peek_future_temp(1, 0), i64::MIN);
    next.add_temp(1, 0, 7);
    assert_eq!(next.peek_future_temp(1, 0), i64::MIN + 7);
    world.restore_next(next);
}

#[test]
fn grid_index_and_bounds_check() {
    assert_eq!(index(7, 3, 2), 17);
    assert!(contains(7, 5, 6, 4));
    assert!(!contains(7, 5, 7, 4));
    assert!(!contains(7, 5, 6, 5));
}

#[test]
fn snapshot_reads_back_cells() {
    let s = Snapshot {
        w: 2,
        h: 2,
        cell_mat_ids: vec![MaterialId(0), MaterialId(1), MaterialId(2), MaterialId(3)],
        cell_temps: vec![10, 20, 30, 40],
    };
    assert_eq!(s.mat_id_at(1, 0), MaterialId(1));
    assert_eq!(s.temp_at(0, 1), 30);
}

#[test]
fn checkerboard_transforms_cover_the_grid_in_two_ticks() {
    let mut mats = MaterialDb::new();
    let mut water = MaterialDef {
        name: "base:water".to_string(),
        color_raw: ColorRgba { r: 0, g: 0, b: 255, a: 255 },
        diffusivity: 0,
        transform_cold_mat_name: None,
        transform_cold_temp: None,
        transform_hot_mat_name: None,
        transform_hot_temp: None,
    };
    water.transform_hot_mat_name = Some("base:steam".to_string());
    water.transform_hot_temp = Some(1000);
    let steam = MaterialDef {
        name: "base:steam".to_string(),
        color_raw: ColorRgba { r: 200, g: 200, b: 200, a: 255 },
        diffusivity: 0,
        transform_cold_mat_name: None,
        transform_cold_temp: None,
        transform_hot_mat_name: None,
        transform_hot_temp: None,
    };
    mats.load_defs(&vec![water, steam]).unwrap();
    let water_id = mats.get_id(&"base:water".to_string()).unwrap();
    let steam_id = mats.get_id(&"base:steam".to_string()).unwrap();
    let mut reacts = ReactionDb::new();
    reacts.load_refs(&mats, &vec![]).unwrap();
    let mut world = World::new(4, 4, mats, reacts);
    {
        let mut next = world.take_next();
        for y in 0..4 {
            for x in 0..4 {
                next.set_mat_id(x, y, water_id);
                next.set_temp(x, y, 5000);
            }
        }
        world.restore_next(next);
        world.swap_all();
    }
    let mut engine = Engine::new(ConfigBag::new(), 4, 4);
    engine
        .add(EngineModule::TransformsThermal(ModuleTransformsThermal::new(5)))
        .unwrap();
    // One tick transforms exactly the cells of one checkerboard phase.
    engine.step(&mut world);
    let s1 = world.make_snapshot();
    let mut transformed = 0;
    for y in 0..4 {
        for x in 0..4 {
            if s1.mat_id_at(x, y) == steam_id {
                transformed += 1;
                assert_eq!((x + y) % 2, 0);
            }
        }
    }
    assert_eq!(transformed, 8);
    // The second tick visits the other phase: now every cell transformed.
    engine.step(&mut world);
    let s2 = world.make_snapshot();
    for y in 0..4 {
        for x in 0..4 {
            assert_eq!(s2.mat_id_at(x, y), steam_id);
        }
    }
}
