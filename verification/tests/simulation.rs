//! Whole-simulation behavior with the real module set: exact diffusion
//! deltas, insulator boundaries, conductance refresh after material
//! changes, homogeneous no-op ticks, and bit-identical reruns from fixed
//! seeds.

use coinage::config::ConfigBag;
use coinage::material::{ColorRgba, MaterialDb, MaterialDef, DIFF_MAX};
use coinage::physics::intent::ModuleOutput;
use coinage::physics::module::EngineModule;
use coinage::physics::intent::CellIntent;
use coinage::physics::module_behavior_steam::ModuleBehaviorSteam;
use coinage::physics::module_diffusion_thermal::ModuleDiffusionThermal;
use coinage::physics::module_reactions_basic::ModuleReactionsBasic;
use coinage::reaction::ReactionRef;
use coinage::reaction::ReactionDb;
use coinage::sim::build_engine_for;
use coinage::world::World;
use coinage::FIXED_ONE;

fn mat(name: &str, diffusivity: u32) -> MaterialDef {
    MaterialDef {
        name: name.to_string(),
        color_raw: ColorRgba { r: 0, g: 0, b: 0, a: 255 },
        diffusivity,
        transform_cold_mat_name: None,
        transform_cold_temp: None,
        transform_hot_mat_name: None,
        transform_hot_temp: None,
    }
}

fn base_world(w: usize, h: usize) -> World {
    let mut mats = MaterialDb::new();
    mats.load_defs(&vec![
        mat("base:air", 4000),
        mat("base:water", DIFF_MAX),
        mat("base:steam", 8000),
        mat("base:wall", 0),
    ])
    .unwrap();
    let mut reacts = ReactionDb::new();
    reacts.load_refs(&mats, &vec![]).unwrap();
    World::new(w, h, mats, reacts)
}

fn config() -> ConfigBag {
    let mut c = ConfigBag::new();
    // Fade chance of one eighth, in fixed-point units.
    c.insert("steam_fade_chance".to_string(), (FIXED_ONE / 8) as i64);
    c
}

#[test]
fn diffusion_delta_is_exact_on_a_pair() {
    let mut world = base_world(2, 1);
    let water = world.mat_db.get_id(&"base:water".to_string()).unwrap();
    {
        let mut next = world.take_next();
        next.set_mat_id(0, 0, water);
        next.set_mat_id(1, 0, water);
        next.set_temp(0, 0, FIXED_ONE as i64);
        world.restore_next(next);
        world.swap_all();
    }
    let mut diffusion = ModuleDiffusionThermal::new(&world.curr_ctx(), 7);
    let out = diffusion.run(&world.curr_ctx());
    match out {
        ModuleOutput::DeltaTemp { delta_temp } => {
            // Conductance between two quarter-diffusivity cells is the
            // harmonic mean DIFF_MAX; the flux is g * dt / FIXED_ONE.
            assert_eq!(delta_temp.len(), 2);
            assert_eq!(delta_temp[0], -(DIFF_MAX as i64));
            assert_eq!(delta_temp[1], DIFF_MAX as i64);
            assert_eq!(delta_temp[0] + delta_temp[1], 0);
        },
        _ => panic!("diffusion must produce a temperature delta"),
    }
}

#[test]
fn diffusion_conserves_total_heat_on_a_grid() {
    let mut world = base_world(4, 3);
    let water = world.mat_db.get_id(&"base:water".to_string()).unwrap();
    {
        let mut next = world.take_next();
        let mut t = 0i64;
        for y in 0..3 {
            for x in 0..4 {
                next.set_mat_id(x, y, water);
                next.set_temp(x, y, t * t - 40 * t + 11);
                t += 7;
            }
        }
        world.restore_next(next);
        world.swap_all();
    }
    let mut diffusion = ModuleDiffusionThermal::new(&world.curr_ctx(), 7);
    match diffusion.run(&world.curr_ctx()) {
        ModuleOutput::DeltaTemp { delta_temp } => {
            let total: i64 = delta_temp.iter().sum();
            assert_eq!(total, 0);
        },
        _ => panic!("diffusion must produce a temperature delta"),
    }
}

#[test]
fn corner_cell_exchanges_with_two_neighbors_only() {
    let mut world = base_world(3, 3);
    let water = world.mat_db.get_id(&"base:water".to_string()).unwrap();
    {
        let mut next = world.take_next();
        for y in 0..3 {
            for x in 0..3 {
                next.set_mat_id(x, y, water);
            }
        }
        // Hot corner; all other cells at zero.
        next.set_temp(0, 0, FIXED_ONE as i64);
        world.restore_next(next);
        world.swap_all();
    }
    let mut diffusion = ModuleDiffusionThermal::new(&world.curr_ctx(), 7);
    match diffusion.run(&world.curr_ctx()) {
        ModuleOutput::DeltaTemp { delta_temp } => {
            // The corner loses across exactly its two in-bounds edges.
            assert_eq!(delta_temp[0], -2 * DIFF_MAX as i64);
            // Its two neighbors each gain one edge's worth.
            assert_eq!(delta_temp[1], DIFF_MAX as i64);
            assert_eq!(delta_temp[3], DIFF_MAX as i64);
            // The diagonal neighbor exchanges nothing with the corner.
            assert_eq!(delta_temp[4], 0);
        },
        _ => panic!("diffusion must produce a temperature delta"),
    }
}

#[test]
fn insulator_blocks_all_heat_flow() {
    let mut world = base_world(3, 1);
    let water = world.mat_db.get_id(&"base:water".to_string()).unwrap();
    let wall = world.mat_db.get_id(&"base:wall".to_string()).unwrap();
    {
        let mut next = world.take_next();
        next.set_mat_id(0, 0, water);
        next.set_mat_id(1, 0, wall);
        next.set_mat_id(2, 0, water);
        next.set_temp(0, 0, 1_000_000);
        next.set_temp(2, 0, -1_000_000);
        world.restore_next(next);
        world.swap_all();
    }
    let mut diffusion = ModuleDiffusionThermal::new(&world.curr_ctx(), 7);
    match diffusion.run(&world.curr_ctx()) {
        ModuleOutput::DeltaTemp { delta_temp } => {
            assert_eq!(delta_temp, vec![0, 0, 0]);
        },
        _ => panic!("diffusion must produce a temperature delta"),
    }
}

#[test]
fn homogeneous_nonreactive_world_keeps_materials() {
    let mut world = base_world(4, 4);
    let water = world.mat_db.get_id(&"base:water".to_string()).unwrap();
    {
        let mut next = world.take_next();
        for y in 0..4 {
            for x in 0..4 {
                next.set_mat_id(x, y, water);
                next.set_temp(x, y, 250);
            }
        }
        world.restore_next(next);
        world.swap_all();
    }
    let mut engine = build_engine_for(&world, config(), 99).unwrap();
    for _ in 0..3 {
        engine.step(&mut world);
    }
    let s = world.make_snapshot();
    for y in 0..4 {
        for x in 0..4 {
            assert_eq!(s.mat_id_at(x, y), water);
            // Uniform temperatures see no diffusion flux either.
            assert_eq!(s.temp_at(x, y), 250);
        }
    }
}

#[test]
fn fixed_seeds_reproduce_identical_snapshots() {
    let build = || {
        let mut world = base_world(6, 5);
        let water = world.mat_db.get_id(&"base:water".to_string()).unwrap();
        let steam = world.mat_db.get_id(&"base:steam".to_string()).unwrap();
        {
            let mut next = world.take_next();
            for y in 0..5 {
                for x in 0..6 {
                    next.set_mat_id(x, y, if (x + 2 * y) % 5 == 0 { steam } else { water });
                    next.set_temp(x, y, (x as i64) * 1000 - (y as i64) * 777);
                }
            }
            world.restore_next(next);
            world.swap_all();
        }
        let engine = build_engine_for(&world, config(), 123456789).unwrap();
        (world, engine)
    };
    let (mut world_a, mut engine_a) = build();
    let (mut world_b, mut engine_b) = build();
    for _ in 0..8 {
        engine_a.step(&mut world_a);
        engine_b.step(&mut world_b);
        let sa = world_a.make_snapshot();
        let sb = world_b.make_snapshot();
        assert_eq!(sa.cell_mat_ids, sb.cell_mat_ids);
        assert_eq!(sa.cell_temps, sb.cell_temps);
    }
}

#[test]
fn conductance_cache_follows_material_changes() {
    // A steam cell next to walls drifts or fades over ticks; after every
    // tick the diffusion deltas must match a freshly built module, which
    // holds exactly when the incremental cache refresh is exact.
    let mut world = base_world(4, 4);
    let water = world.mat_db.get_id(&"base:water".to_string()).unwrap();
    let steam = world.mat_db.get_id(&"base:steam".to_string()).unwrap();
    let wall = world.mat_db.get_id(&"base:wall".to_string()).unwrap();
    {
        let mut next = world.take_next();
        for y in 0..4 {
            for x in 0..4 {
                let id = if x == 2 { wall } else if (x + y) % 3 == 0 { steam } else { water };
                next.set_mat_id(x, y, id);
                next.set_temp(x, y, (y as i64) * 500);
            }
        }
        world.restore_next(next);
        world.swap_all();
    }
    let mut engine = build_engine_for(&world, config(), 4242).unwrap();
    for _ in 0..5 {
        engine.step(&mut world);
        let cached = match &mut engine.modules[0] {
            EngineModule::DiffusionThermal(d) => match d.run(&world.curr_ctx()) {
                ModuleOutput::DeltaTemp { delta_temp } => delta_temp,
                _ => panic!("diffusion must produce a temperature delta"),
            },
            _ => panic!("the diffusion module registers first"),
        };
        let mut fresh = ModuleDiffusionThermal::new(&world.curr_ctx(), 1);
        let rebuilt = match fresh.run(&world.curr_ctx()) {
            ModuleOutput::DeltaTemp { delta_temp } => delta_temp,
            _ => panic!("diffusion must produce a temperature delta"),
        };
        assert_eq!(cached, rebuilt);
    }
}

#[test]
fn certain_reaction_always_fires_on_a_match() {
    let mut mats = MaterialDb::new();
    mats.load_defs(&vec![mat("base:air", 0), mat("base:acid", 0), mat("base:rock", 0)]).unwrap();
    let acid = mats.get_id(&"base:acid".to_string()).unwrap();
    let rock = mats.get_id(&"base:rock".to_string()).unwrap();
    let air = mats.get_id(&"base:air".to_string()).unwrap();
    let mut reacts = ReactionDb::new();
    reacts
        .load_refs(
            &mats,
            &vec![ReactionRef {
                name: "dissolve".to_string(),
                in_a: "base:acid".to_string(),
                in_b: "base:rock".to_string(),
                out_a: "base:air".to_string(),
                out_b: "base:air".to_string(),
                rate: FIXED_ONE as i64,
            }],
        )
        .unwrap();
    let mut world = World::new(2, 1, mats, reacts);
    {
        let mut next = world.take_next();
        next.set_mat_id(0, 0, acid);
        next.set_mat_id(1, 0, rock);
        world.restore_next(next);
        world.swap_all();
    }
    let mut module = ModuleReactionsBasic::new(7);
    match module.run(&world.curr_ctx()) {
        ModuleOutput::CellIntents { intents } => {
            // A rate of FIXED_ONE fires on every matching origin: both
            // cells find the pair, in canonical operand order.
            assert_eq!(intents.len(), 2);
            for it in intents {
                match it {
                    CellIntent::Reaction { cell_a, cell_b, out_a, out_b } => {
                        assert_eq!((cell_a.x, cell_a.y), (0, 0));
                        assert_eq!((cell_b.x, cell_b.y), (1, 0));
                        assert_eq!(out_a, air);
                        assert_eq!(out_b, air);
                    },
                    _ => panic!("the reaction module emits only reaction intents"),
                }
            }
        },
        _ => panic!("the reaction module emits an intent list"),
    }
}

#[test]
fn steam_with_air_neighbors_always_moves_when_fade_is_zero() {
    let mut world = base_world(3, 3);
    let steam = world.mat_db.get_id(&"base:steam".to_string()).unwrap();
    {
        let mut next = world.take_next();
        next.set_mat_id(1, 1, steam);
        world.restore_next(next);
        world.swap_all();
    }
    let mut module = ModuleBehaviorSteam::new(&world.curr_ctx(), 7).unwrap();
    // fade_chance stays 0, so the only possible outcome is a swap into
    // one of the eight surrounding air cells.
    match module.run(&world.curr_ctx()) {
        ModuleOutput::CellIntents { intents } => {
            assert_eq!(intents.len(), 1);
            match intents[0] {
                CellIntent::MoveSwap { from, to } => {
                    assert_eq!((from.x, from.y), (1, 1));
                    assert!(to.x <= 2 && to.y <= 2 && !(to.x == 1 && to.y == 1));
                },
                _ => panic!("a zero fade chance cannot produce a transform"),
            }
        },
        _ => panic!("the steam module emits an intent list"),
    }
}
