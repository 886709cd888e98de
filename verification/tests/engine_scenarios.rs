//! End-to-end engine scenarios on a 2x2 grid with materials air, water
//! and rock, driven by scripted modules with known outputs: the merge
//! engine's conflict rules, atomic skips, temperature deltas, and swap
//! semantics.

use coinage::material::{ColorRgba, MaterialDb, MaterialDef, MaterialId};
use coinage::physics::engine::Engine;
use coinage::physics::intent::{Cell, CellIntent, ModuleOutput};
use coinage::physics::module::{EngineModule, ModuleScripted};
use coinage::reaction::ReactionDb;
use coinage::config::ConfigBag;
use coinage::sim::Snapshot;
use coinage::world::World;

fn mat(name: &str) -> MaterialDef {
    MaterialDef {
        name: name.to_string(),
        color_raw: ColorRgba { r: 0, g: 0, b: 0, a: 255 },
        diffusivity: 0,
        transform_cold_mat_name: None,
        transform_cold_temp: None,
        transform_hot_mat_name: None,
        transform_hot_temp: None,
    }
}

/// A 2x2 world over air (id 0), water and rock, with no reactions.
fn tiny_world() -> (World, MaterialId, MaterialId, MaterialId) {
    let mut mats = MaterialDb::new();
    mats.load_defs(&vec![mat("air"), mat("water"), mat("rock")]).unwrap();
    let air = mats.get_id(&"air".to_string()).unwrap();
    let water = mats.get_id(&"water".to_string()).unwrap();
    let rock = mats.get_id(&"rock".to_string()).unwrap();
    let mut reacts = ReactionDb::new();
    reacts.load_refs(&mats, &vec![]).unwrap();
    let world = World::new(2, 2, mats, reacts);
    (world, air, water, rock)
}

fn scripted_engine(outputs_per_module: Vec<Vec<ModuleOutput>>) -> Engine {
    let mut engine = Engine::new(ConfigBag::new(), 2, 2);
    for outputs in outputs_per_module {
        engine.add(EngineModule::Scripted(ModuleScripted::new(outputs))).unwrap();
    }
    engine
}

fn cell(x: usize, y: usize) -> Cell {
    Cell { x, y }
}

fn snap(world: &World) -> Snapshot {
    world.make_snapshot()
}

#[test]
fn lone_transform_changes_exactly_one_cell() {
    let (mut world, air, water, _rock) = tiny_world();
    let mut engine = scripted_engine(vec![vec![ModuleOutput::CellIntents {
        intents: vec![CellIntent::Transform { cell: cell(1, 1), out: water }],
    }]]);
    engine.step(&mut world);
    let s = snap(&world);
    assert_eq!(s.mat_id_at(0, 0), air);
    assert_eq!(s.mat_id_at(1, 0), air);
    assert_eq!(s.mat_id_at(0, 1), air);
    assert_eq!(s.mat_id_at(1, 1), water);
    for y in 0..2 {
        for x in 0..2 {
            assert_eq!(s.temp_at(x, y), 0);
        }
    }
}

#[test]
fn atomic_reaction_win_drops_conflicting_reaction_entirely() {
    let (mut world, air, water, rock) = tiny_world();
    let module_a = vec![ModuleOutput::CellIntents {
        intents: vec![CellIntent::Reaction {
            cell_a: cell(0, 1),
            cell_b: cell(1, 0),
            out_a: water,
            out_b: water,
        }],
    }];
    let module_b = vec![ModuleOutput::CellIntents {
        intents: vec![CellIntent::Reaction {
            cell_a: cell(1, 0),
            cell_b: cell(1, 1),
            out_a: rock,
            out_b: rock,
        }],
    }];
    let mut engine = scripted_engine(vec![module_a, module_b]);
    engine.step(&mut world);
    let s = snap(&world);
    // B's reaction is atomically dropped because (1,0) is claimed: its
    // other cell (1,1) is untouched too.
    assert_eq!(s.mat_id_at(0, 0), air);
    assert_eq!(s.mat_id_at(1, 0), water);
    assert_eq!(s.mat_id_at(0, 1), water);
    assert_eq!(s.mat_id_at(1, 1), air);
}

#[test]
fn moveswap_carries_temperature() {
    let (mut world, _air, water, rock) = tiny_world();
    {
        let mut next = world.take_next();
        next.set_mat_id(0, 0, rock);
        next.set_temp(0, 0, 500);
        next.set_mat_id(1, 0, water);
        next.set_temp(1, 0, -20);
        world.restore_next(next);
        world.swap_all();
    }
    let mut engine = scripted_engine(vec![vec![ModuleOutput::CellIntents {
        intents: vec![CellIntent::MoveSwap { from: cell(0, 0), to: cell(1, 0) }],
    }]]);
    engine.step(&mut world);
    let s = snap(&world);
    assert_eq!(s.mat_id_at(0, 0), water);
    assert_eq!(s.temp_at(0, 0), -20);
    assert_eq!(s.mat_id_at(1, 0), rock);
    assert_eq!(s.temp_at(1, 0), 500);
}

#[test]
fn delta_temp_outputs_compose_additively() {
    let (mut world, _air, _water, _rock) = tiny_world();
    let module_a = vec![ModuleOutput::DeltaTemp { delta_temp: vec![1, 2, 3, 4] }];
    let module_b = vec![ModuleOutput::DeltaTemp { delta_temp: vec![10, 20, 30, 40] }];
    let mut engine = scripted_engine(vec![module_a, module_b]);
    engine.step(&mut world);
    let s = snap(&world);
    assert_eq!(s.temp_at(0, 0), 11);
    assert_eq!(s.temp_at(1, 0), 22);
    assert_eq!(s.temp_at(0, 1), 33);
    assert_eq!(s.temp_at(1, 1), 44);
}

#[test]
fn transform_blocks_later_moveswap() {
    let (mut world, air, water, _rock) = tiny_world();
    let module_1 = vec![ModuleOutput::CellIntents {
        intents: vec![CellIntent::Transform { cell: cell(1, 0), out: water }],
    }];
    let module_2 = vec![ModuleOutput::CellIntents {
        intents: vec![CellIntent::MoveSwap { from: cell(1, 0), to: cell(0, 0) }],
    }];
    let mut engine = scripted_engine(vec![module_1, module_2]);
    engine.step(&mut world);
    let s = snap(&world);
    // The swap is dropped: the transformed cell keeps its new material
    // and the would-be destination keeps air.
    assert_eq!(s.mat_id_at(1, 0), water);
    assert_eq!(s.mat_id_at(0, 0), air);
}

#[test]
fn delta_temp_composes_with_moveswap() {
    let (mut world, _air, _water, _rock) = tiny_world();
    let module_1 = vec![ModuleOutput::DeltaTemp { delta_temp: vec![0, 500, 0, 0] }];
    let module_2 = vec![ModuleOutput::CellIntents {
        intents: vec![CellIntent::MoveSwap { from: cell(1, 0), to: cell(0, 0) }],
    }];
    let mut engine = scripted_engine(vec![module_1, module_2]);
    engine.step(&mut world);
    let s = snap(&world);
    // The swap reads the staged temperature, so the delta travels with
    // the particle.
    assert_eq!(s.temp_at(0, 0), 500);
    assert_eq!(s.temp_at(1, 0), 0);
}

#[test]
fn earliest_wins_within_one_module_output() {
    let (mut world, _air, water, rock) = tiny_world();
    let module = vec![ModuleOutput::CellIntents {
        intents: vec![
            CellIntent::Transform { cell: cell(0, 0), out: water },
            CellIntent::Transform { cell: cell(0, 0), out: rock },
        ],
    }];
    let mut engine = scripted_engine(vec![module]);
    engine.step(&mut world);
    let s = snap(&world);
    assert_eq!(s.mat_id_at(0, 0), water);
}

#[test]
fn changed_set_resets_between_ticks() {
    let (mut world, _air, water, rock) = tiny_world();
    let module = vec![
        ModuleOutput::CellIntents {
            intents: vec![CellIntent::Transform { cell: cell(0, 0), out: water }],
        },
        ModuleOutput::CellIntents {
            intents: vec![CellIntent::Transform { cell: cell(0, 0), out: rock }],
        },
    ];
    let mut engine = scripted_engine(vec![module]);
    engine.step(&mut world);
    assert_eq!(snap(&world).mat_id_at(0, 0), water);
    // The claim on (0,0) does not persist into the next tick.
    engine.step(&mut world);
    assert_eq!(snap(&world).mat_id_at(0, 0), rock);
}
