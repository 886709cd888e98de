//! The module interface: every physics module supports `apply_config`
//! (one-shot at registration), `run` (once per tick, producing exactly
//! one output), and `post_run` (after apply, for incremental caches).
//! Modules are realized as a tagged variant list with monomorphized
//! dispatch; modules are leaf siblings, not a hierarchy.

use vstd::prelude::*;

verus! {

use crate::FIXED_ONE;
use crate::config::{ConfigBag, ConfigError};
use crate::material::{MaterialId, MaterialView};
use crate::physics::intent::{CellIntent, ModuleOutput, output_wf};
use crate::physics::module_behavior_steam::ModuleBehaviorSteam;
use crate::physics::module_diffusion_thermal::{ModuleDiffusionThermal, touched};
use crate::physics::module_reactions_basic::ModuleReactionsBasic;
use crate::physics::module_transforms_thermal::ModuleTransformsThermal;
use crate::world::{CurrCtx, PostRunCtx};

/// A module that replays a fixed list of outputs, one per tick, and then
/// goes quiet. It drives end-to-end engine scenarios from known inputs.
pub struct ModuleScripted {
    pub pending: Vec<ModuleOutput>,
}

impl ModuleScripted {
    /// Every queued output fits the grid and the registry.
    pub open spec fn wf(&self, w: int, h: int, count: nat) -> bool {
        forall|i: int|
            0 <= i < self.pending@.len() ==> output_wf(#[trigger] self.pending@[i], w, h, count)
    }

    pub fn new(outputs: Vec<ModuleOutput>) -> (r: Self)
        ensures
            r.pending == outputs,
    {
        Self { pending: outputs }
    }

    pub fn new_empty() -> (r: Self)
        ensures
            r.pending@.len() == 0,
    {
        Self { pending: Vec::new() }
    }

    /// Emit the next queued output, or an empty intent list once the
    /// queue is exhausted.
    pub fn run(&mut self) -> (out: ModuleOutput)
        ensures
            if old(self).pending@.len() > 0 {
                out == old(self).pending@[0] && final(self).pending@ == old(
                    self,
                ).pending@.drop_first()
            } else {
                *final(self) == *old(self) && (out matches ModuleOutput::CellIntents { intents }
                    && intents@.len() == 0)
            },
    {
        if self.pending.len() > 0 {
            let out = self.pending.remove(0);
            proof {
                assert(self.pending@ =~= old(self).pending@.drop_first());
            }
            out
        } else {
            ModuleOutput::CellIntents { intents: Vec::new() }
        }
    }
}

/// One registered physics module.
pub enum EngineModule {
    DiffusionThermal(ModuleDiffusionThermal),
    TransformsThermal(ModuleTransformsThermal),
    ReactionsBasic(ModuleReactionsBasic),
    BehaviorSteam(ModuleBehaviorSteam),
    Scripted(ModuleScripted),
}

impl EngineModule {
    /// The module's internal state fits the grid and the registries.
    pub open spec fn wf(&self, w: int, h: int, mats: Seq<MaterialView>) -> bool {
        match self {
            EngineModule::DiffusionThermal(d) => d.wf(mats) && d.w == w && d.h == h,
            EngineModule::TransformsThermal(_) => true,
            EngineModule::ReactionsBasic(_) => true,
            EngineModule::BehaviorSteam(s) => s.ids_wf(mats.len()),
            EngineModule::Scripted(sc) => sc.wf(w, h, mats.len()),
        }
    }

    /// The module's caches agree with the given material grid.
    pub open spec fn consistent(&self, grid: Seq<MaterialId>) -> bool {
        match self {
            EngineModule::DiffusionThermal(d) => d.consistent() && d.grid@ == grid,
            _ => true,
        }
    }

    /// One-shot configuration at registration. Only modules that require
    /// configuration read it; a missing required key fails loudly.
    pub fn apply_config(&mut self, config: &ConfigBag) -> (r: Result<(), ConfigError>)
        ensures
            match *old(self) {
                EngineModule::BehaviorSteam(s) => {
                    let fin = *final(self);
                    &&& fin is BehaviorSteam
                    &&& fin->BehaviorSteam_0.mat_id_steam == s.mat_id_steam
                    &&& fin->BehaviorSteam_0.mat_id_air == s.mat_id_air
                    &&& fin->BehaviorSteam_0.rng_a == s.rng_a
                    &&& fin->BehaviorSteam_0.rng_b == s.rng_b
                    &&& (r is Ok <==> crate::config::config_lookup(
                        config@,
                        "steam_fade_chance"@,
                    ) is Some)
                    &&& match crate::config::config_lookup(config@, "steam_fade_chance"@) {
                        Some(v) => fin->BehaviorSteam_0.fade_chance == (if v < 0 {
                            0u32
                        } else if v > FIXED_ONE as i64 {
                            FIXED_ONE
                        } else {
                            v as u32
                        }),
                        None => fin->BehaviorSteam_0.fade_chance == s.fade_chance,
                    }
                },
                _ => *final(self) == *old(self) && r is Ok,
            },
            forall|w: int, h: int, mats: Seq<MaterialView>|
                old(self).wf(w, h, mats) ==> final(self).wf(w, h, mats),
            forall|grid: Seq<MaterialId>|
                old(self).consistent(grid) ==> final(self).consistent(grid),
    {
        match self {
            EngineModule::BehaviorSteam(s) => s.apply_config(config),
            _ => Ok(()),
        }
    }

    /// One tick: read the committed frame and produce exactly one output.
    pub fn run(&mut self, curr: &CurrCtx<'_>) -> (out: ModuleOutput)
        requires
            curr.wf(),
            curr.w > 0,
            curr.h > 0,
            old(self).wf(curr.w as int, curr.h as int, curr.mat_db@),
            old(self).consistent(curr.cell_mat_ids@),
        ensures
            output_wf(out, curr.w as int, curr.h as int, curr.mat_db@.len()),
            final(self).wf(curr.w as int, curr.h as int, curr.mat_db@),
            final(self).consistent(curr.cell_mat_ids@),
            crate::physics::engine::output_pinned(
                *old(self),
                crate::physics::engine::view_output(out),
                curr.mat_db@,
                curr.react_db@.defs,
                curr.cell_mat_ids@,
                curr.cell_temps@,
                curr.w as int,
                curr.h as int,
            ),
            crate::physics::engine::module_ticked(
                *old(self),
                *final(self),
                curr.react_db@.defs,
                curr.cell_mat_ids@,
                curr.w as int,
                curr.h as int,
            ),
            (*old(self)) is DiffusionThermal ==> (*final(self)) is DiffusionThermal && (out matches
                ModuleOutput::DeltaTemp { delta_temp } && delta_temp@.len() == curr.w * curr.h
                && forall|x: int, y: int|
                0 <= x < curr.w && 0 <= y < curr.h ==> #[trigger] delta_temp@[
                    crate::physics::module_diffusion_thermal::gidx(curr.w as int, x, y)
                ] == crate::physics::module_diffusion_thermal::clamp_to_i64(
                    (*old(self))->DiffusionThermal_0.diffusion_flux(curr.cell_temps@, x, y),
                )),
            (*old(self)) is TransformsThermal ==> (*final(self)) is TransformsThermal && (out matches
                ModuleOutput::CellIntents { intents } && intents@
                == crate::physics::module_transforms_thermal::transform_intents_spec(
                curr.mat_db@,
                curr.cell_mat_ids@,
                curr.cell_temps@,
                !(*old(self))->TransformsThermal_0.checkerboard_toggle,
                (crate::rng::rng_out((*old(self))->TransformsThermal_0.rng) % 4) as int,
                curr.w as int,
                curr.h as int,
                0,
            )),
            (*old(self)) is ReactionsBasic ==> (*final(self)) is ReactionsBasic && (out matches
                ModuleOutput::CellIntents { intents } && forall|i: int|
                0 <= i < intents@.len()
                    ==> crate::physics::module_reactions_basic::reaction_intent_sound(
                    curr.react_db@.defs,
                    curr.cell_mat_ids@,
                    curr.w as int,
                    #[trigger] intents@[i],
                )),
            (*old(self)) is BehaviorSteam ==> (*final(self)) is BehaviorSteam && (out matches
                ModuleOutput::CellIntents { intents } && forall|i: int|
                0 <= i < intents@.len()
                    ==> crate::physics::module_behavior_steam::steam_intent_sound(
                    curr.cell_mat_ids@,
                    curr.w as int,
                    (*old(self))->BehaviorSteam_0.mat_id_steam,
                    (*old(self))->BehaviorSteam_0.mat_id_air,
                    #[trigger] intents@[i],
                )),
            (*old(self)) is Scripted ==> (*final(self)) is Scripted && (if (*old(
                self,
            ))->Scripted_0.pending@.len() > 0 {
                out == (*old(self))->Scripted_0.pending@[0]
            } else {
                out matches ModuleOutput::CellIntents { intents } && intents@.len() == 0
            }),
    {
        match self {
            EngineModule::DiffusionThermal(d) => d.run(curr),
            EngineModule::TransformsThermal(t) => t.run(curr),
            EngineModule::ReactionsBasic(rb) => rb.run(curr),
            EngineModule::BehaviorSteam(s) => s.run(curr),
            EngineModule::Scripted(sc) => {
                let out = sc.run();
                proof {
                    if (*old(self))->Scripted_0.pending@.len() > 0 {
                        assert(output_wf(
                            (*old(self))->Scripted_0.pending@[0],
                            curr.w as int,
                            curr.h as int,
                            curr.mat_db@.len(),
                        ));
                        assert forall|i: int| 0 <= i < sc.pending@.len() implies output_wf(
                            #[trigger] sc.pending@[i],
                            curr.w as int,
                            curr.h as int,
                            curr.mat_db@.len(),
                        ) by {
                            assert(sc.pending@[i] == (*old(self))->Scripted_0.pending@[i + 1]);
                        }
                    } else {
                        match &out {
                            ModuleOutput::CellIntents { intents } => {
                                assert(intents@ =~= Seq::<CellIntent>::empty());
                            },
                            _ => {
                                assert(false);
                            },
                        }
                    }
                    assert(crate::physics::engine::view_output(out)
                        == crate::physics::engine::scripted_head_view(
                        (*old(self))->Scripted_0,
                    ));
                }
                out
            },
        }
    }

    /// Post-run bookkeeping with the list of cells changed this tick, in
    /// application order: modules refresh incremental caches from the
    /// staged frame.
    pub fn post_run(&mut self, post: &PostRunCtx<'_>, changed_cells: &Vec<usize>)
        requires
            post.wf(),
            old(self).wf(post.w as int, post.h as int, post.mat_db@),
            forall|j: int|
                0 <= j < changed_cells@.len() ==> (#[trigger] changed_cells@[j]) < post.w * post.h,
            match *old(self) {
                EngineModule::DiffusionThermal(d) => d.consistent() && forall|i: int|
                    0 <= i < post.w * post.h && !touched(
                        changed_cells@,
                        changed_cells@.len() as int,
                        i,
                    ) ==> post.next_mat_ids@[i] == d.grid@[i],
                _ => true,
            },
        ensures
            final(self).wf(post.w as int, post.h as int, post.mat_db@),
            final(self).consistent(post.next_mat_ids@),
            match *old(self) {
                EngineModule::DiffusionThermal(d) => (*final(self)) is DiffusionThermal && {
                    let d1 = (*final(self))->DiffusionThermal_0;
                    &&& d1.rng == d.rng
                    &&& d1.w == d.w
                    &&& d1.h == d.h
                    &&& d1.diff_of == d.diff_of
                },
                _ => *final(self) == *old(self),
            },
    {
        match self {
            EngineModule::DiffusionThermal(d) => d.post_run(post, changed_cells),
            EngineModule::TransformsThermal(_) => (),
            EngineModule::ReactionsBasic(_) => (),
            EngineModule::BehaviorSteam(_) => (),
            EngineModule::Scripted(_) => (),
        }
    }
}

} // verus!
