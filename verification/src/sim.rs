//! Simulation support types: the generic double buffer that backs every
//! per-cell array, the reserved entity slot, and the immutable snapshot
//! handed to observers.

use vstd::prelude::*;

verus! {

use crate::config::ConfigBag;
use crate::material::MaterialId;
use crate::physics::engine::Engine;
use crate::physics::module::EngineModule;
use crate::physics::module_behavior_steam::ModuleBehaviorSteam;
use crate::physics::module_diffusion_thermal::ModuleDiffusionThermal;
use crate::physics::module_reactions_basic::ModuleReactionsBasic;
use crate::physics::module_transforms_thermal::ModuleTransformsThermal;
use crate::world::World;

/// A double-buffered per-cell array: `cur` is the committed frame, `next`
/// is the staging frame the engine mutates during a tick.
#[derive(Debug)]
pub struct DoubleBuffer<T> {
    pub cur: Vec<T>,
    pub next: Vec<T>,
}

impl<T: Copy> DoubleBuffer<T> {
    /// Both frames start as copies of the initial contents.
    pub fn new(initial: Vec<T>) -> (r: Self)
        ensures
            r.cur@ == initial@,
            r.next@ == initial@,
    {
        let mut next: Vec<T> = Vec::new();
        let n = initial.len();
        for i in 0..n
            invariant
                n == initial.len(),
                next@ =~= initial@.take(i as int),
        {
            next.push(initial[i]);
            proof {
                assert(next@ =~= initial@.take(i + 1 as int));
            }
        }
        proof {
            assert(initial@.take(n as int) =~= initial@);
        }
        Self { cur: initial, next }
    }

    /// Copy the committed frame into the staging frame, so a tick's
    /// changes are made on top of the current state.
    pub fn sync(&mut self)
        ensures
            final(self).cur@ == old(self).cur@,
            final(self).next@ == old(self).cur@,
    {
        self.next.clear();
        let n = self.cur.len();
        for i in 0..n
            invariant
                n == self.cur.len(),
                self.cur@ == old(self).cur@,
                self.next@ =~= self.cur@.take(i as int),
        {
            let v = self.cur[i];
            self.next.push(v);
            proof {
                assert(self.next@ =~= self.cur@.take(i + 1 as int));
            }
        }
        proof {
            assert(self.cur@.take(n as int) =~= self.cur@);
        }
    }

    /// Commit the staging frame by exchanging the two frames.
    pub fn swap(&mut self)
        ensures
            final(self).cur@ == old(self).next@,
            final(self).next@ == old(self).cur@,
    {
        core::mem::swap(&mut self.cur, &mut self.next);
    }
}

/// Reserved for future per-cell entities; carries no state yet.
#[derive(Copy, Clone, Debug, PartialEq, Eq, Structural)]
pub struct Entity {}

impl Entity {
    pub fn empty() -> (r: Self)
        ensures
            r == (Entity {  }),
    {
        Self {  }
    }
}

/// A frozen view of world state at a tick boundary, produced by the
/// simulation for observers; readers never touch the live buffers.
pub struct Snapshot {
    pub w: usize,
    pub h: usize,
    pub cell_mat_ids: Vec<MaterialId>,
    pub cell_temps: Vec<i64>,
}

impl Snapshot {
    /// Both per-cell arrays cover the whole grid.
    pub open spec fn wf(&self) -> bool {
        &&& self.w * self.h <= isize::MAX
        &&& self.cell_mat_ids@.len() == self.w * self.h
        &&& self.cell_temps@.len() == self.w * self.h
    }

    /// Material id at a cell.
    pub fn mat_id_at(&self, x: usize, y: usize) -> (r: MaterialId)
        requires
            self.wf(),
            x < self.w,
            y < self.h,
        ensures
            r == self.cell_mat_ids@[y * self.w + x],
    {
        proof {
            crate::world::lemma_grid_index(self.w as int, self.h as int, x as int, y as int);
        }
        self.cell_mat_ids[y * self.w + x]
    }

    /// Temperature at a cell.
    pub fn temp_at(&self, x: usize, y: usize) -> (r: i64)
        requires
            self.wf(),
            x < self.w,
            y < self.h,
        ensures
            r == self.cell_temps@[y * self.w + x],
    {
        proof {
            crate::world::lemma_grid_index(self.w as int, self.h as int, x as int, y as int);
        }
        self.cell_temps[y * self.w + x]
    }
}

/// Wire the standard module set for a world, in the documented stage
/// order: state changers first (thermal diffusion), then material
/// changers (thermal transforms, reactions), then movers (steam), so a
/// moving particle carries temperature changes made earlier in the tick.
/// Each module's streams are seeded from the base seed XORed with a
/// module-specific constant. `None` exactly when the steam module cannot
/// resolve its materials or the required configuration key is missing.
#[verifier::rlimit(60)]
pub fn build_engine_for(world: &World, config: ConfigBag, base_seed: u64) -> (r: Option<Engine>)
    requires
        world.wf(),
        world.w > 0,
        world.h > 0,
    ensures
        r is Some <==> {
            &&& crate::material::first_index_of(world.mat_db@, "base:steam"@) is Some
            &&& crate::material::first_index_of(world.mat_db@, "base:air"@) is Some
            &&& crate::config::config_lookup(config@, "steam_fade_chance"@) is Some
        },
        match r {
            Some(e) => {
                &&& e.wf(world.mat_db@)
                &&& e.clean()
                &&& e.consistent(world.cell_mat_ids.cur@)
                &&& e.w == world.w
                &&& e.h == world.h
                &&& e.config == config
                &&& e.modules@.len() == 4
                &&& e.modules@[0] is DiffusionThermal && {
                    let d = e.modules@[0]->DiffusionThermal_0;
                    &&& d.rng == crate::rng::seed_spec(base_seed ^ 0x0FEDCBA123456789)
                    &&& d.w == world.w
                    &&& d.h == world.h
                    &&& d.grid@ == world.cell_mat_ids.cur@
                }
                &&& e.modules@[1] == (EngineModule::TransformsThermal(
                    ModuleTransformsThermal {
                        rng: crate::rng::seed_spec(base_seed ^ 0x345289A01DEFCB67),
                        checkerboard_toggle: false,
                    },
                ))
                &&& e.modules@[2] == (EngineModule::ReactionsBasic(
                    ModuleReactionsBasic {
                        rng_a: crate::rng::seed_spec(base_seed ^ 0x0123456789ABCDEF),
                        rng_b: crate::rng::seed_spec(
                            (base_seed ^ 0x0123456789ABCDEF) ^ 0xBBBBBBBBBBBBBBBB,
                        ),
                    },
                ))
                &&& e.modules@[3] is BehaviorSteam && {
                    let s = e.modules@[3]->BehaviorSteam_0;
                    &&& match crate::material::first_index_of(world.mat_db@, "base:steam"@) {
                        Some(i) => s.mat_id_steam == crate::material::MaterialId(i as u16),
                        None => false,
                    }
                    &&& match crate::material::first_index_of(world.mat_db@, "base:air"@) {
                        Some(i) => s.mat_id_air == crate::material::MaterialId(i as u16),
                        None => false,
                    }
                    &&& s.rng_a == crate::rng::seed_spec(base_seed ^ 0xF0E1D2C3B4A59687)
                    &&& s.rng_b == crate::rng::seed_spec(
                        (base_seed ^ 0xF0E1D2C3B4A59687) ^ 0xBBBBBBBBBBBBBBBB,
                    )
                    &&& match crate::config::config_lookup(config@, "steam_fade_chance"@) {
                        Some(v) => s.fade_chance == (if v < 0 {
                            0u32
                        } else if v > crate::FIXED_ONE as i64 {
                            crate::FIXED_ONE
                        } else {
                            v as u32
                        }),
                        None => false,
                    }
                }
            },
            None => true,
        },
{
    let ghost mats_reg = world.mat_db@;
    let ghost cur_grid = world.cell_mat_ids.cur@;
    let ghost wi = world.w as int;
    let ghost hi = world.h as int;
    let mut engine = Engine::new(config, world.w, world.h);
    let curr = world.curr_ctx();
    let base = base_seed;
    // Stage 1: modules that modify cell state (temperature).
    let diffusion = ModuleDiffusionThermal::new(&curr, base ^ 0x0FEDCBA123456789);
    let ghost m0 = EngineModule::DiffusionThermal(diffusion);
    proof {
        assert(m0.wf(wi, hi, mats_reg) && m0.consistent(cur_grid));
    }
    match engine.add(EngineModule::DiffusionThermal(diffusion)) {
        Ok(()) => (),
        Err(_) => {
            // Unreachable: modules that need no configuration register
            // without error.
            proof {
                assert(false);
            }
            return None;
        },
    }
    proof {
        assert(engine.modules@[0].wf(wi, hi, mats_reg) && engine.modules@[0].consistent(cur_grid));
    }
    // Stage 2: modules that change the material of a cell.
    let transforms = ModuleTransformsThermal::new(base ^ 0x345289A01DEFCB67);
    match engine.add(EngineModule::TransformsThermal(transforms)) {
        Ok(()) => (),
        Err(_) => {
            proof {
                assert(false);
            }
            return None;
        },
    }
    proof {
        assert(engine.modules@[1].wf(wi, hi, mats_reg) && engine.modules@[1].consistent(cur_grid));
    }
    let reactions = ModuleReactionsBasic::new(base ^ 0x0123456789ABCDEF);
    match engine.add(EngineModule::ReactionsBasic(reactions)) {
        Ok(()) => (),
        Err(_) => {
            proof {
                assert(false);
            }
            return None;
        },
    }
    proof {
        assert(engine.modules@[2].wf(wi, hi, mats_reg) && engine.modules@[2].consistent(cur_grid));
    }
    // Stage 3: modules that move cell contents around; swaps run last so
    // they pick up the temperatures already staged this tick.
    let steam = match ModuleBehaviorSteam::new(&curr, base ^ 0xF0E1D2C3B4A59687) {
        Some(s) => s,
        None => {
            return None;
        },
    };
    let ghost msteam = EngineModule::BehaviorSteam(steam);
    proof {
        assert(msteam.wf(wi, hi, mats_reg));
    }
    match engine.add(EngineModule::BehaviorSteam(steam)) {
        Ok(()) => (),
        Err(_) => {
            return None;
        },
    }
    proof {
        assert(engine.modules@.len() == 4);
        assert(engine.modules@[3].wf(wi, hi, mats_reg) && engine.modules@[3].consistent(cur_grid));
        assert forall|j: int| 0 <= j < engine.modules@.len() implies (
        #[trigger] engine.modules@[j]).wf(wi, hi, mats_reg) by {
            assert(j == 0 || j == 1 || j == 2 || j == 3);
        }
        assert forall|j: int| 0 <= j < engine.modules@.len() implies (
        #[trigger] engine.modules@[j]).consistent(cur_grid) by {
            assert(j == 0 || j == 1 || j == 2 || j == 3);
        }
    }
    Some(engine)
}

} // verus!
