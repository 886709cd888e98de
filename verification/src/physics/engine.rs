//! The merge engine: drives one tick — sync, gather, serialized apply
//! under the earliest-wins conflict policy, post-run, reset, swap.
//!
//! The apply phase is specified exactly: the staged frame, the dense
//! changed bitmap and the sparse changed list after applying a list of
//! intents are pinned as a mathematical fold over that list.

use vstd::prelude::*;

verus! {

use crate::config::{ConfigBag, ConfigError};
use crate::material::{MaterialId, MaterialView};
use crate::physics::intent::{
    Cell, CellIntent, ModuleOutput, intent_cells, intent_mats_valid, intent_wf, output_wf,
};
use crate::physics::module::EngineModule;
use crate::physics::module::ModuleScripted;
use crate::physics::module_behavior_steam::steam_intent_sound;
use crate::physics::module_diffusion_thermal::{clamp_to_i64, gidx, lemma_gidx_injective, touched};
use crate::physics::module_reactions_basic::reaction_intent_sound;
use crate::physics::module_transforms_thermal::transform_intents_spec;
use crate::reaction::ReactionView;
use crate::rng::{rng_out, rng_step};
use crate::sat_add_i64;
use crate::world::{CurrCtx, NextCtx, PostRunCtx, World, lemma_grid_index, mats_valid};
use vstd::pervasive::VecAdditionalExecFns;

/// The state the apply phase folds over: the staged per-cell arrays and
/// the changed-set in both its dense and sparse forms.
#[verifier::ext_equal]
pub ghost struct ApplyState {
    pub mats: Seq<MaterialId>,
    pub temps: Seq<i64>,
    pub changed: Seq<bool>,
    pub sparse: Seq<usize>,
}

/// Row-major index of a cell.
pub open spec fn cidx(w: int, c: Cell) -> int {
    gidx(w, c.x as int, c.y as int)
}

/// The sparse list holds exactly the set indices of the dense bitmap,
/// without duplicates.
pub open spec fn changed_wf(changed: Seq<bool>, sparse: Seq<usize>) -> bool {
    &&& forall|j: int|
        0 <= j < sparse.len() ==> (#[trigger] sparse[j]) < changed.len() && changed[sparse[j] as int]
    &&& forall|i: int|
        0 <= i < changed.len() && #[trigger] changed[i] ==> touched(sparse, sparse.len() as int, i)
    &&& forall|j1: int, j2: int|
        0 <= j1 < sparse.len() && 0 <= j2 < sparse.len() && j1 != j2 ==> sparse[j1] != sparse[j2]
}

/// Apply-phase well-formedness of a state.
pub open spec fn state_wf(st: ApplyState, w: int, h: int, count: nat) -> bool {
    &&& st.mats.len() == w * h
    &&& st.temps.len() == w * h
    &&& st.changed.len() == w * h
    &&& changed_wf(st.changed, st.sparse)
    &&& mats_valid(st.mats, count)
}

/// Is some cell the intent would write already marked changed this tick?
pub open spec fn intent_blocked(st: ApplyState, it: CellIntent, w: int) -> bool {
    exists|i: int|
        0 <= i < intent_cells(it).len() && st.changed[cidx(w, #[trigger] intent_cells(it)[i])]
}

/// Mark one cell changed, in both the dense bitmap and the sparse list.
pub open spec fn mark_cell(st: ApplyState, w: int, c: Cell) -> ApplyState {
    ApplyState {
        changed: st.changed.update(cidx(w, c), true),
        sparse: st.sparse.push(cidx(w, c) as usize),
        ..st
    }
}

/// One intent applied under the earliest-wins conflict policy: if any
/// affected cell is already marked, skip the intent entirely; otherwise
/// mark every affected cell and perform the writes of the variant.
/// A `MoveSwap` takes its materials from the committed frame and swaps
/// the staged temperatures, so a particle carries this tick's thermal
/// changes with it.
pub open spec fn apply_intent_spec(
    cur_mats: Seq<MaterialId>,
    st: ApplyState,
    it: CellIntent,
    w: int,
) -> ApplyState {
    if intent_blocked(st, it, w) {
        st
    } else {
        match it {
            CellIntent::Transform { cell, out } => {
                let st1 = mark_cell(st, w, cell);
                ApplyState { mats: st1.mats.update(cidx(w, cell), out), ..st1 }
            },
            CellIntent::Reaction { cell_a, cell_b, out_a, out_b } => {
                let st1 = mark_cell(mark_cell(st, w, cell_a), w, cell_b);
                ApplyState {
                    mats: st1.mats.update(cidx(w, cell_a), out_a).update(cidx(w, cell_b), out_b),
                    ..st1
                }
            },
            CellIntent::MoveSwap { from, to } => {
                let st1 = mark_cell(mark_cell(st, w, from), w, to);
                let ia = cidx(w, from);
                let ib = cidx(w, to);
                ApplyState {
                    mats: st1.mats.update(ia, cur_mats[ib]).update(ib, cur_mats[ia]),
                    temps: st1.temps.update(ia, st1.temps[ib]).update(ib, st1.temps[ia]),
                    ..st1
                }
            },
        }
    }
}

/// A whole intent list applied in order.
pub open spec fn apply_intents_spec(
    cur_mats: Seq<MaterialId>,
    st: ApplyState,
    intents: Seq<CellIntent>,
    w: int,
) -> ApplyState
    decreases intents.len(),
{
    if intents.len() == 0 {
        st
    } else {
        apply_intent_spec(
            cur_mats,
            apply_intents_spec(cur_mats, st, intents.drop_last(), w),
            intents.last(),
            w,
        )
    }
}

/// The mathematical content of one module output.
#[verifier::ext_equal]
pub ghost enum OutputView {
    Intents(Seq<CellIntent>),
    Delta(Seq<i64>),
}

/// The view of an output value.
pub open spec fn view_output(out: ModuleOutput) -> OutputView {
    match out {
        ModuleOutput::CellIntents { intents } => OutputView::Intents(intents@),
        ModuleOutput::DeltaTemp { delta_temp } => OutputView::Delta(delta_temp@),
    }
}

/// The output a scripted module emits this tick: the head of its queue,
/// or an empty intent list once exhausted.
pub open spec fn scripted_head_view(sc: crate::physics::module::ModuleScripted) -> OutputView {
    if sc.pending@.len() > 0 {
        view_output(sc.pending@[0])
    } else {
        OutputView::Intents(Seq::empty())
    }
}

/// What a module's run pins about its output this tick, per module kind:
/// the diffusion and transform modules' outputs are exact functions of
/// the committed frame and the module state; the reaction and steam
/// modules promise that every emitted intent is sound for the committed
/// frame; a scripted module replays the head of its queue.
pub open spec fn output_pinned(
    m: EngineModule,
    ov: OutputView,
    mats_reg: Seq<MaterialView>,
    defs: Seq<ReactionView>,
    cur_mats: Seq<MaterialId>,
    cur_temps: Seq<i64>,
    w: int,
    h: int,
) -> bool {
    match m {
        EngineModule::DiffusionThermal(d) => ov matches OutputView::Delta(delta) && delta.len() == w
            * h && forall|x: int, y: int|
            0 <= x < w && 0 <= y < h ==> #[trigger] delta[gidx(w, x, y)] == clamp_to_i64(
                d.diffusion_flux(cur_temps, x, y),
            ),
        EngineModule::TransformsThermal(t) => ov == OutputView::Intents(
            transform_intents_spec(
                mats_reg,
                cur_mats,
                cur_temps,
                !t.checkerboard_toggle,
                (rng_out(t.rng) % 4) as int,
                w,
                h,
                0,
            ),
        ),
        EngineModule::ReactionsBasic(rb) => {
            &&& ov == OutputView::Intents(
                crate::physics::module_reactions_basic::react_scan_spec(
                    defs,
                    cur_mats,
                    w,
                    h,
                    (rng_out(rb.rng_a) % 4) as int,
                    0,
                    rb.rng_b,
                ).0,
            )
            &&& ov matches OutputView::Intents(l) && forall|k: int|
                0 <= k < l.len() ==> reaction_intent_sound(defs, cur_mats, w, #[trigger] l[k])
        },
        EngineModule::BehaviorSteam(st) => {
            &&& ov == OutputView::Intents(
                crate::physics::module_behavior_steam::steam_scan_spec(
                    cur_mats,
                    w,
                    h,
                    (rng_out(st.rng_a) % 4) as int,
                    st.mat_id_steam,
                    st.mat_id_air,
                    st.fade_chance,
                    0,
                    st.rng_b,
                ).0,
            )
            &&& ov matches OutputView::Intents(l) && forall|k: int|
                0 <= k < l.len() ==> steam_intent_sound(
                    cur_mats,
                    w,
                    st.mat_id_steam,
                    st.mat_id_air,
                    #[trigger] l[k],
                )
        },
        EngineModule::Scripted(sc) => ov == scripted_head_view(sc),
    }
}

/// How one whole tick advances a module's private state, per kind: the
/// scan stream steps once, the transform phase flips, a scripted queue
/// pops, and resolved ids, fade chances and the packed diffusivity copy
/// are unchanged. (The diffusion caches are tracked separately through
/// [`EngineModule::consistent`]; the reaction and steam roll streams are
/// not pinned.)
pub open spec fn module_ticked(
    m0: EngineModule,
    m1: EngineModule,
    defs: Seq<ReactionView>,
    cur_mats: Seq<MaterialId>,
    w: int,
    h: int,
) -> bool {
    match m0 {
        EngineModule::DiffusionThermal(d) => m1 is DiffusionThermal && {
            let d1 = m1->DiffusionThermal_0;
            &&& d1.rng == rng_step(d.rng)
            &&& d1.w == d.w
            &&& d1.h == d.h
            &&& d1.diff_of == d.diff_of
        },
        EngineModule::TransformsThermal(t) => m1 == (EngineModule::TransformsThermal(
            crate::physics::module_transforms_thermal::ModuleTransformsThermal {
                rng: rng_step(t.rng),
                checkerboard_toggle: !t.checkerboard_toggle,
            },
        )),
        EngineModule::ReactionsBasic(rb) => m1 is ReactionsBasic && m1->ReactionsBasic_0.rng_a
            == rng_step(rb.rng_a) && m1->ReactionsBasic_0.rng_b
            == crate::physics::module_reactions_basic::react_scan_spec(
            defs,
            cur_mats,
            w,
            h,
            (rng_out(rb.rng_a) % 4) as int,
            0,
            rb.rng_b,
        ).1,
        EngineModule::BehaviorSteam(st) => m1 is BehaviorSteam && {
            let s1 = m1->BehaviorSteam_0;
            &&& s1.mat_id_steam == st.mat_id_steam
            &&& s1.mat_id_air == st.mat_id_air
            &&& s1.fade_chance == st.fade_chance
            &&& s1.rng_a == rng_step(st.rng_a)
            &&& s1.rng_b == crate::physics::module_behavior_steam::steam_scan_spec(
                cur_mats,
                w,
                h,
                (rng_out(st.rng_a) % 4) as int,
                st.mat_id_steam,
                st.mat_id_air,
                st.fade_chance,
                0,
                st.rng_b,
            ).1
        },
        EngineModule::Scripted(sc) => m1 is Scripted && m1->Scripted_0.pending@ == (if sc.pending@.len()
            > 0 {
            sc.pending@.drop_first()
        } else {
            sc.pending@
        }),
    }
}

/// One module output applied to the staging state: an intent list goes
/// through conflict arbitration; a temperature delta adds cell-wise,
/// saturating, touching neither materials nor the changed-set.
pub open spec fn apply_output_spec(
    cur_mats: Seq<MaterialId>,
    st: ApplyState,
    ov: OutputView,
    w: int,
) -> ApplyState {
    match ov {
        OutputView::Intents(intents) => apply_intents_spec(cur_mats, st, intents, w),
        OutputView::Delta(delta) => ApplyState {
            temps: Seq::new(st.temps.len(), |i: int| sat_add_i64(st.temps[i], delta[i])),
            ..st
        },
    }
}

/// A whole tick's outputs applied in registration order.
pub open spec fn apply_outputs_spec(
    cur_mats: Seq<MaterialId>,
    st: ApplyState,
    outs: Seq<OutputView>,
    w: int,
) -> ApplyState
    decreases outs.len(),
{
    if outs.len() == 0 {
        st
    } else {
        apply_output_spec(
            cur_mats,
            apply_outputs_spec(cur_mats, st, outs.drop_last(), w),
            outs.last(),
            w,
        )
    }
}

/// Conflict atomicity: a blocked intent writes nothing at all — not its
/// materials, not its temperatures, not the changed-set.
pub proof fn lemma_conflict_atomicity(
    cur_mats: Seq<MaterialId>,
    st: ApplyState,
    it: CellIntent,
    w: int,
)
    requires
        intent_blocked(st, it, w),
    ensures
        apply_intent_spec(cur_mats, st, it, w) == st,
{
}

/// Applying one well-formed intent keeps the state well-formed.
pub proof fn lemma_apply_intent_wf(
    cur_mats: Seq<MaterialId>,
    st: ApplyState,
    it: CellIntent,
    w: int,
    h: int,
    count: nat,
)
    requires
        state_wf(st, w, h, count),
        w * h <= usize::MAX,
        intent_wf(it, w, h),
        intent_mats_valid(it, count),
        cur_mats.len() == w * h,
        mats_valid(cur_mats, count),
        w > 0,
        h > 0,
    ensures
        state_wf(apply_intent_spec(cur_mats, st, it, w), w, h, count),
{
    let st2 = apply_intent_spec(cur_mats, st, it, w);
    if !intent_blocked(st, it, w) {
        let cells = intent_cells(it);
        assert forall|i: int| 0 <= i < cells.len() implies !st.changed[cidx(
            w,
            #[trigger] cells[i],
        )] by {}
        match it {
            CellIntent::Transform { cell, out } => {
                lemma_grid_index(w, h, cell.x as int, cell.y as int);
                assert(cells[0] == cell);
                lemma_mark_changed_wf(st, w, h, cell);
            },
            CellIntent::Reaction { cell_a, cell_b, out_a, out_b } => {
                lemma_grid_index(w, h, cell_a.x as int, cell_a.y as int);
                lemma_grid_index(w, h, cell_b.x as int, cell_b.y as int);
                assert(cells[0] == cell_a && cells[1] == cell_b);
                if cidx(w, cell_a) == cidx(w, cell_b) {
                    lemma_gidx_injective(
                        w,
                        h,
                        cell_a.x as int,
                        cell_a.y as int,
                        cell_b.x as int,
                        cell_b.y as int,
                    );
                }
                lemma_mark_changed_wf(st, w, h, cell_a);
                lemma_mark_changed_wf(mark_cell(st, w, cell_a), w, h, cell_b);
            },
            CellIntent::MoveSwap { from, to } => {
                lemma_grid_index(w, h, from.x as int, from.y as int);
                lemma_grid_index(w, h, to.x as int, to.y as int);
                assert(cells[0] == from && cells[1] == to);
                if cidx(w, from) == cidx(w, to) {
                    lemma_gidx_injective(
                        w,
                        h,
                        from.x as int,
                        from.y as int,
                        to.x as int,
                        to.y as int,
                    );
                }
                lemma_mark_changed_wf(st, w, h, from);
                lemma_mark_changed_wf(mark_cell(st, w, from), w, h, to);
            },
        }
    }
}

/// Marking an unmarked in-bounds cell preserves the changed-set shape.
proof fn lemma_mark_changed_wf(st: ApplyState, w: int, h: int, c: Cell)
    requires
        changed_wf(st.changed, st.sparse),
        st.changed.len() == w * h,
        w * h <= usize::MAX,
        0 <= c.x < w,
        0 <= c.y < h,
        !st.changed[cidx(w, c)],
        w > 0,
        h > 0,
    ensures
        changed_wf(mark_cell(st, w, c).changed, mark_cell(st, w, c).sparse),
        mark_cell(st, w, c).changed.len() == w * h,
        mark_cell(st, w, c).changed[cidx(w, c)],
    decreases 0int,
{
    lemma_grid_index(w, h, c.x as int, c.y as int);
    let st1 = mark_cell(st, w, c);
    let i0 = cidx(w, c);
    assert forall|i: int| 0 <= i < st1.changed.len() && #[trigger] st1.changed[i] implies touched(
        st1.sparse,
        st1.sparse.len() as int,
        i,
    ) by {
        if i == i0 {
            assert(st1.sparse[st1.sparse.len() - 1] == i0 as usize);
            assert(i0 as usize as int == i0);
        } else {
            assert(st.changed[i]);
            assert(touched(st.sparse, st.sparse.len() as int, i));
            let j = choose|j: int| 0 <= j < st.sparse.len() as int && st.sparse[j] == i;
            assert(st1.sparse[j] == i);
        }
    }
    assert forall|j1: int, j2: int|
        0 <= j1 < st1.sparse.len() && 0 <= j2 < st1.sparse.len() && j1 != j2 implies st1.sparse[j1]
        != st1.sparse[j2] by {
        if j1 == st.sparse.len() || j2 == st.sparse.len() {
            let jo = if j1 == st.sparse.len() {
                j2
            } else {
                j1
            };
            assert(st.sparse[jo] == st1.sparse[jo]);
            assert(st.changed[st.sparse[jo] as int]);
        }
    }
}

/// Changes are monotone, writes land only on marked cells, and the
/// sparse list only grows: the changed-set correctness of one step.
pub proof fn lemma_apply_intent_frame(
    cur_mats: Seq<MaterialId>,
    st: ApplyState,
    it: CellIntent,
    w: int,
    h: int,
)
    requires
        st.mats.len() == w * h,
        st.temps.len() == w * h,
        st.changed.len() == w * h,
        intent_wf(it, w, h),
        w > 0,
        h > 0,
    ensures
        ({
            let st2 = apply_intent_spec(cur_mats, st, it, w);
            &&& forall|i: int| 0 <= i < w * h && #[trigger] st.changed[i] ==> st2.changed[i]
            &&& forall|i: int|
                0 <= i < w * h && (st2.mats[i] != st.mats[i] || st2.temps[i] != st.temps[i])
                    ==> #[trigger] st2.changed[i]
            &&& forall|i: int|
                0 <= i < w * h && !(#[trigger] st2.changed[i]) ==> st2.mats[i] == st.mats[i]
                    && st2.temps[i] == st.temps[i]
        }),
{
    let st2 = apply_intent_spec(cur_mats, st, it, w);
    if !intent_blocked(st, it, w) {
        match it {
            CellIntent::Transform { cell, out } => {
                lemma_grid_index(w, h, cell.x as int, cell.y as int);
            },
            CellIntent::Reaction { cell_a, cell_b, out_a, out_b } => {
                lemma_grid_index(w, h, cell_a.x as int, cell_a.y as int);
                lemma_grid_index(w, h, cell_b.x as int, cell_b.y as int);
            },
            CellIntent::MoveSwap { from, to } => {
                lemma_grid_index(w, h, from.x as int, from.y as int);
                lemma_grid_index(w, h, to.x as int, to.y as int);
            },
        }
    }
}

/// Applying a list of well-formed intents keeps the state well-formed.
pub proof fn lemma_apply_intents_wf(
    cur_mats: Seq<MaterialId>,
    st: ApplyState,
    intents: Seq<CellIntent>,
    w: int,
    h: int,
    count: nat,
)
    requires
        state_wf(st, w, h, count),
        w * h <= usize::MAX,
        cur_mats.len() == w * h,
        mats_valid(cur_mats, count),
        w > 0,
        h > 0,
        forall|k: int|
            0 <= k < intents.len() ==> intent_wf(#[trigger] intents[k], w, h) && intent_mats_valid(
                intents[k],
                count,
            ),
    ensures
        state_wf(apply_intents_spec(cur_mats, st, intents, w), w, h, count),
    decreases intents.len(),
{
    if intents.len() > 0 {
        lemma_apply_intents_wf(cur_mats, st, intents.drop_last(), w, h, count);
        lemma_apply_intent_wf(
            cur_mats,
            apply_intents_spec(cur_mats, st, intents.drop_last(), w),
            intents.last(),
            w,
            h,
            count,
        );
    }
}

/// Changed-set correctness over a whole list: marks are monotone, and a
/// cell whose staged material or temperature differs from the baseline
/// is marked changed (so its index is in the sparse list).
pub proof fn lemma_apply_intents_frame(
    cur_mats: Seq<MaterialId>,
    st: ApplyState,
    intents: Seq<CellIntent>,
    w: int,
    h: int,
)
    requires
        st.mats.len() == w * h,
        st.temps.len() == w * h,
        st.changed.len() == w * h,
        w > 0,
        h > 0,
        forall|k: int| 0 <= k < intents.len() ==> intent_wf(#[trigger] intents[k], w, h),
    ensures
        ({
            let st2 = apply_intents_spec(cur_mats, st, intents, w);
            &&& forall|i: int| 0 <= i < w * h && #[trigger] st.changed[i] ==> st2.changed[i]
            &&& forall|i: int|
                0 <= i < w * h && !(#[trigger] st2.changed[i]) ==> st2.mats[i] == st.mats[i]
                    && st2.temps[i] == st.temps[i]
            &&& st2.mats.len() == w * h
            &&& st2.temps.len() == w * h
            &&& st2.changed.len() == w * h
        }),
    decreases intents.len(),
{
    if intents.len() > 0 {
        assert forall|k: int| 0 <= k < intents.drop_last().len() implies intent_wf(
            #[trigger] intents.drop_last()[k],
            w,
            h,
        ) by {
            assert(intents.drop_last()[k] == intents[k]);
        }
        lemma_apply_intents_frame(cur_mats, st, intents.drop_last(), w, h);
        assert(intents.last() == intents[intents.len() - 1]);
        let st_mid = apply_intents_spec(cur_mats, st, intents.drop_last(), w);
        lemma_apply_intent_frame(cur_mats, st_mid, intents.last(), w, h);
        let st2 = apply_intents_spec(cur_mats, st, intents, w);
        assert(st2 == apply_intent_spec(cur_mats, st_mid, intents.last(), w));
        if intent_blocked(st_mid, intents.last(), w) {
            assert(st2 == st_mid);
        } else {
            match intents.last() {
                CellIntent::Transform { cell, out } => {
                    lemma_grid_index(w, h, cell.x as int, cell.y as int);
                    let st1 = mark_cell(st_mid, w, cell);
                    assert(st2 == ApplyState { mats: st1.mats.update(cidx(w, cell), out), ..st1 });
                    assert(st2.mats.len() == st_mid.mats.len());
                },
                CellIntent::Reaction { cell_a, cell_b, out_a, out_b } => {
                    lemma_grid_index(w, h, cell_a.x as int, cell_a.y as int);
                    lemma_grid_index(w, h, cell_b.x as int, cell_b.y as int);
                    let st1 = mark_cell(mark_cell(st_mid, w, cell_a), w, cell_b);
                    assert(st2 == ApplyState {
                        mats: st1.mats.update(cidx(w, cell_a), out_a).update(
                            cidx(w, cell_b),
                            out_b,
                        ),
                        ..st1
                    });
                    assert(st2.mats.len() == st_mid.mats.len());
                },
                CellIntent::MoveSwap { from, to } => {
                    lemma_grid_index(w, h, from.x as int, from.y as int);
                    lemma_grid_index(w, h, to.x as int, to.y as int);
                    let st1 = mark_cell(mark_cell(st_mid, w, from), w, to);
                    let ia = cidx(w, from);
                    let ib = cidx(w, to);
                    assert(st2 == ApplyState {
                        mats: st1.mats.update(ia, cur_mats[ib]).update(ib, cur_mats[ia]),
                        temps: st1.temps.update(ia, st1.temps[ib]).update(ib, st1.temps[ia]),
                        ..st1
                    });
                    assert(st2.mats.len() == st_mid.mats.len());
                },
            }
        }
        assert(st2.mats.len() == w * h && st2.temps.len() == w * h && st2.changed.len() == w * h);
        assert forall|i: int|
            0 <= i < w * h && !(#[trigger] st2.changed[i]) implies st2.mats[i] == st.mats[i]
            && st2.temps[i] == st.temps[i] by {
            assert(!st_mid.changed[i]);
        }
    }
}

/// The merge engine: the registered modules in registration order, the
/// configuration they were registered against, and the per-tick
/// changed-set in dense and sparse form.
pub struct Engine {
    pub modules: Vec<EngineModule>,
    pub config: ConfigBag,
    pub w: usize,
    pub h: usize,
    pub changed: Vec<bool>,
    pub changed_sparse: Vec<usize>,
}

impl Engine {
    /// Between ticks the changed-set is empty.
    pub open spec fn clean(&self) -> bool {
        &&& forall|i: int| 0 <= i < self.changed@.len() ==> !(#[trigger] self.changed@[i])
        &&& self.changed_sparse@.len() == 0
    }

    /// The engine fits its world and registry.
    pub open spec fn wf(&self, mats: Seq<MaterialView>) -> bool {
        &&& self.w > 0
        &&& self.h > 0
        &&& self.w * self.h <= isize::MAX
        &&& self.changed@.len() == self.w * self.h
        &&& changed_wf(self.changed@, self.changed_sparse@)
        &&& forall|i: int|
            0 <= i < self.modules@.len() ==> (#[trigger] self.modules@[i]).wf(
                self.w as int,
                self.h as int,
                mats,
            )
    }

    /// Every module's caches agree with this material grid.
    pub open spec fn consistent(&self, grid: Seq<MaterialId>) -> bool {
        forall|i: int| 0 <= i < self.modules@.len() ==> (#[trigger] self.modules@[i]).consistent(grid)
    }

    /// A fresh engine for a `world_w` by `world_h` world, with no modules
    /// and an empty changed-set.
    pub fn new(config: ConfigBag, world_w: usize, world_h: usize) -> (r: Engine)
        requires
            world_w > 0,
            world_h > 0,
            world_w * world_h <= isize::MAX,
        ensures
            r.w == world_w,
            r.h == world_h,
            r.config == config,
            r.modules@.len() == 0,
            r.changed@.len() == world_w * world_h,
            r.clean(),
            forall|mats: Seq<MaterialView>| r.wf(mats),
    {
        let n = world_w * world_h;
        let mut changed: Vec<bool> = Vec::new();
        for i in 0..n
            invariant
                changed@.len() == i,
                forall|j: int| 0 <= j < i ==> !(#[trigger] changed@[j]),
        {
            changed.push(false);
        }
        Engine { modules: Vec::new(), config, w: world_w, h: world_h, changed, changed_sparse: Vec::new() }
    }

    /// Register a module: apply the configuration to it once, then append
    /// it. Modules run in registration order.
    pub fn add(&mut self, m: EngineModule) -> (r: Result<(), ConfigError>)
        ensures
            final(self).config == old(self).config,
            final(self).w == old(self).w,
            final(self).h == old(self).h,
            final(self).changed == old(self).changed,
            final(self).changed_sparse == old(self).changed_sparse,
            match r {
                Ok(()) => {
                    &&& final(self).modules@.len() == old(self).modules@.len() + 1
                    &&& forall|j: int|
                        0 <= j < old(self).modules@.len() ==> final(self).modules@[j] == old(
                            self,
                        ).modules@[j]
                    &&& (!(m is BehaviorSteam) ==> final(self).modules@.last() == m)
                    &&& (m is BehaviorSteam ==> final(self).modules@.last() is BehaviorSteam
                        && final(self).modules@.last()->BehaviorSteam_0.mat_id_steam
                        == m->BehaviorSteam_0.mat_id_steam
                        && final(self).modules@.last()->BehaviorSteam_0.mat_id_air
                        == m->BehaviorSteam_0.mat_id_air)
                },
                Err(_) => final(self).modules == old(self).modules,
            },
            !(m is BehaviorSteam) ==> r is Ok,
            m is BehaviorSteam ==> {
                &&& (r is Ok <==> crate::config::config_lookup(
                    old(self).config@,
                    "steam_fade_chance"@,
                ) is Some)
                &&& (r is Ok ==> {
                    let last = final(self).modules@.last();
                    &&& last is BehaviorSteam
                    &&& last->BehaviorSteam_0.rng_a == m->BehaviorSteam_0.rng_a
                    &&& last->BehaviorSteam_0.rng_b == m->BehaviorSteam_0.rng_b
                    &&& match crate::config::config_lookup(
                        old(self).config@,
                        "steam_fade_chance"@,
                    ) {
                        Some(v) => last->BehaviorSteam_0.fade_chance == (if v < 0 {
                            0u32
                        } else if v > crate::FIXED_ONE as i64 {
                            crate::FIXED_ONE
                        } else {
                            v as u32
                        }),
                        None => true,
                    }
                })
            },
    {
        let mut m = m;
        match m.apply_config(&self.config) {
            Ok(()) => {
                self.modules.push(m);
                Ok(())
            },
            Err(e) => Err(e),
        }
    }

    /// Apply a module's intent list to the staging frame in emission
    /// order, under the earliest-wins conflict policy. The result is
    /// exactly the fold of [`apply_intent_spec`] over the list.
    #[verifier::loop_isolation(false)]
    fn apply_intents(&mut self, curr: &CurrCtx<'_>, next: &mut NextCtx, intents: &Vec<CellIntent>)
        requires
            curr.wf(),
            old(self).w == curr.w,
            old(self).h == curr.h,
            old(self).w * old(self).h <= isize::MAX,
            old(next).wf(),
            old(next).w == curr.w,
            old(next).h == curr.h,
            old(self).changed@.len() == curr.w * curr.h,
            changed_wf(old(self).changed@, old(self).changed_sparse@),
            forall|k: int|
                0 <= k < intents@.len() ==> intent_wf(
                    #[trigger] intents@[k],
                    curr.w as int,
                    curr.h as int,
                ) && intent_mats_valid(intents@[k], curr.mat_db@.len()),
        ensures
            final(self).modules == old(self).modules,
            final(self).config == old(self).config,
            final(self).w == old(self).w,
            final(self).h == old(self).h,
            final(next).w == old(next).w,
            final(next).h == old(next).h,
            final(next).entities@ == old(next).entities@,
            ({
                let st0 = ApplyState {
                    mats: old(next).cell_mat_ids@,
                    temps: old(next).cell_temps@,
                    changed: old(self).changed@,
                    sparse: old(self).changed_sparse@,
                };
                let st2 = apply_intents_spec(
                    curr.cell_mat_ids@,
                    st0,
                    intents@,
                    curr.w as int,
                );
                &&& final(next).cell_mat_ids@ == st2.mats
                &&& final(next).cell_temps@ == st2.temps
                &&& final(self).changed@ == st2.changed
                &&& final(self).changed_sparse@ == st2.sparse
            }),
    {
        let w = self.w;
        let h = self.h;
        let ghost cur_mats = curr.cell_mat_ids@;
        let ghost st0 = ApplyState {
            mats: next.cell_mat_ids@,
            temps: next.cell_temps@,
            changed: self.changed@,
            sparse: self.changed_sparse@,
        };
        let n = intents.len();
        for k in 0..n
            invariant
                n == intents@.len(),
                next.w == w,
                next.h == h,
                next.wf(),
                next.entities@ == old(next).entities@,
                self.modules == old(self).modules,
                self.config == old(self).config,
                self.w == w,
                self.h == h,
                self.changed@.len() == w * h,
                ({
                    let stk = apply_intents_spec(cur_mats, st0, intents@.take(k as int), w as int);
                    &&& next.cell_mat_ids@ == stk.mats
                    &&& next.cell_temps@ == stk.temps
                    &&& self.changed@ == stk.changed
                    &&& self.changed_sparse@ == stk.sparse
                }),
        {
            let ghost stk = apply_intents_spec(cur_mats, st0, intents@.take(k as int), w as int);
            proof {
                assert(intents@.take(k + 1).drop_last() =~= intents@.take(k as int));
                assert(intents@.take(k + 1).last() == intents@[k as int]);
            }
            let it = &intents[k];
            match *it {
                CellIntent::Transform { cell, out } => {
                    proof {
                        lemma_grid_index(w as int, h as int, cell.x as int, cell.y as int);
                    }
                    let ia = cell.y * w + cell.x;
                    if !self.changed[ia] {
                        proof {
                            assert forall|i: int|
                                0 <= i < intent_cells(*it).len() implies !stk.changed[cidx(
                                w as int,
                                intent_cells(*it)[i],
                            )] by {
                                assert(intent_cells(*it)[i] == cell);
                            }
                            assert(!intent_blocked(stk, *it, w as int));
                        }
                        self.changed[ia] = true;
                        self.changed_sparse.push(ia);
                        next.set_mat_id(cell.x, cell.y, out);
                    } else {
                        proof {
                            assert(intent_cells(*it)[0] == cell);
                            assert(intent_blocked(stk, *it, w as int));
                        }
                    }
                },
                CellIntent::Reaction { cell_a, cell_b, out_a, out_b } => {
                    proof {
                        lemma_grid_index(w as int, h as int, cell_a.x as int, cell_a.y as int);
                        lemma_grid_index(w as int, h as int, cell_b.x as int, cell_b.y as int);
                    }
                    let ia = cell_a.y * w + cell_a.x;
                    let ib = cell_b.y * w + cell_b.x;
                    if !self.changed[ia] && !self.changed[ib] {
                        proof {
                            assert forall|i: int|
                                0 <= i < intent_cells(*it).len() implies !stk.changed[cidx(
                                w as int,
                                intent_cells(*it)[i],
                            )] by {
                                assert(intent_cells(*it)[i] == cell_a || intent_cells(*it)[i]
                                    == cell_b);
                            }
                            assert(!intent_blocked(stk, *it, w as int));
                        }
                        self.changed[ia] = true;
                        self.changed_sparse.push(ia);
                        self.changed[ib] = true;
                        self.changed_sparse.push(ib);
                        next.set_mat_id(cell_a.x, cell_a.y, out_a);
                        next.set_mat_id(cell_b.x, cell_b.y, out_b);
                    } else {
                        proof {
                            assert(intent_cells(*it)[0] == cell_a && intent_cells(*it)[1] == cell_b);
                            assert(intent_blocked(stk, *it, w as int));
                        }
                    }
                },
                CellIntent::MoveSwap { from, to } => {
                    proof {
                        lemma_grid_index(w as int, h as int, from.x as int, from.y as int);
                        lemma_grid_index(w as int, h as int, to.x as int, to.y as int);
                    }
                    let ia = from.y * w + from.x;
                    let ib = to.y * w + to.x;
                    if !self.changed[ia] && !self.changed[ib] {
                        proof {
                            assert forall|i: int|
                                0 <= i < intent_cells(*it).len() implies !stk.changed[cidx(
                                w as int,
                                intent_cells(*it)[i],
                            )] by {
                                assert(intent_cells(*it)[i] == from || intent_cells(*it)[i] == to);
                            }
                            assert(!intent_blocked(stk, *it, w as int));
                        }
                        self.changed[ia] = true;
                        self.changed_sparse.push(ia);
                        self.changed[ib] = true;
                        self.changed_sparse.push(ib);
                        let mat_from = curr.get_mat_id(from.x, from.y);
                        let mat_to = curr.get_mat_id(to.x, to.y);
                        next.set_mat_id(from.x, from.y, mat_to);
                        next.set_mat_id(to.x, to.y, mat_from);
                        let tf = next.peek_future_temp(from.x, from.y);
                        let tt = next.peek_future_temp(to.x, to.y);
                        next.set_temp(from.x, from.y, tt);
                        next.set_temp(to.x, to.y, tf);
                    } else {
                        proof {
                            assert(intent_cells(*it)[0] == from && intent_cells(*it)[1] == to);
                            assert(intent_blocked(stk, *it, w as int));
                        }
                    }
                },
            }
            proof {
                let stk1 = apply_intents_spec(cur_mats, st0, intents@.take(k + 1), w as int);
                assert(stk1 == apply_intent_spec(cur_mats, stk, intents@[k as int], w as int));
                assert(next.cell_mat_ids@ =~= stk1.mats);
                assert(next.cell_temps@ =~= stk1.temps);
                assert(self.changed@ =~= stk1.changed);
                assert(self.changed_sparse@ =~= stk1.sparse);
            }
        }
        proof {
            assert(intents@.take(n as int) =~= intents@);
        }
    }

    /// Add a module's temperature delta cell-wise to the staging frame,
    /// saturating at the representation's limits. Delta-temp writes are
    /// not subject to the changed-set and never conflict.
    fn apply_delta_temp(&self, next: &mut NextCtx, delta_temp: &Vec<i64>)
        requires
            old(next).wf(),
            delta_temp@.len() == old(next).w * old(next).h,
        ensures
            final(next).wf(),
            final(next).w == old(next).w,
            final(next).h == old(next).h,
            final(next).cell_mat_ids@ == old(next).cell_mat_ids@,
            final(next).entities@ == old(next).entities@,
            final(next).cell_temps@.len() == old(next).cell_temps@.len(),
            forall|i: int|
                0 <= i < old(next).cell_temps@.len() ==> final(next).cell_temps@[i] == sat_add_i64(
                    old(next).cell_temps@[i],
                    #[trigger] delta_temp@[i],
                ),
    {
        let n = next.cell_temps.len();
        for i in 0..n
            invariant
                n == next.cell_temps@.len(),
                next.wf(),
                next.w == old(next).w,
                next.h == old(next).h,
                n == next.w * next.h,
                delta_temp@.len() == n,
                next.cell_mat_ids@ == old(next).cell_mat_ids@,
                next.entities@ == old(next).entities@,
                forall|j: int|
                    0 <= j < i ==> next.cell_temps@[j] == sat_add_i64(
                        old(next).cell_temps@[j],
                        #[trigger] delta_temp@[j],
                    ),
                forall|j: int|
                    i <= j < n ==> #[trigger] next.cell_temps@[j] == old(next).cell_temps@[j],
        {
            next.add_temp_i(i, delta_temp[i]);
        }
    }
}

impl Engine {
    /// Drive one tick: sync the staging frame, gather one output per
    /// module in registration order, apply the outputs in that order
    /// under the conflict rules, run every module's post-run with the
    /// changed list, reset the changed-set, and commit the frame.
    ///
    /// Afterwards the world is well-formed again — in particular every
    /// cell's material id still references an existing material — and
    /// every module's caches (the diffusion module's edge conductances)
    /// are consistent with the newly committed material grid.
    #[verifier::loop_isolation(false)]
    pub fn step(&mut self, world: &mut World)
        requires
            old(world).wf(),
            old(self).wf(old(world).mat_db@),
            old(self).clean(),
            old(self).w == old(world).w,
            old(self).h == old(world).h,
            old(self).consistent(old(world).cell_mat_ids.cur@),
        ensures
            final(world).wf(),
            final(world).w == old(world).w,
            final(world).h == old(world).h,
            final(world).mat_db == old(world).mat_db,
            final(world).react_db == old(world).react_db,
            final(self).wf(old(world).mat_db@),
            final(self).clean(),
            final(self).w == old(self).w,
            final(self).h == old(self).h,
            final(self).config == old(self).config,
            final(self).modules@.len() == old(self).modules@.len(),
            final(self).consistent(final(world).cell_mat_ids.cur@),
            old(self).modules@.len() == 0 ==> final(world).cell_mat_ids.cur@ == old(
                world,
            ).cell_mat_ids.cur@ && final(world).cell_temps.cur@ == old(world).cell_temps.cur@,
            forall|i: int|
                0 <= i < old(self).modules@.len() ==> module_ticked(
                    #[trigger] old(self).modules@[i],
                    final(self).modules@[i],
                    old(world).react_db@.defs,
                    old(world).cell_mat_ids.cur@,
                    old(self).w as int,
                    old(self).h as int,
                ),
            exists|views: Seq<OutputView>|
                {
                    &&& #[trigger] views.len() == old(self).modules@.len()
                    &&& (forall|i: int|
                        0 <= i < views.len() ==> output_pinned(
                            #[trigger] old(self).modules@[i],
                            views[i],
                            old(world).mat_db@,
                            old(world).react_db@.defs,
                            old(world).cell_mat_ids.cur@,
                            old(world).cell_temps.cur@,
                            old(self).w as int,
                            old(self).h as int,
                        ))
                    &&& ({
                        let st0 = ApplyState {
                            mats: old(world).cell_mat_ids.cur@,
                            temps: old(world).cell_temps.cur@,
                            changed: old(self).changed@,
                            sparse: old(self).changed_sparse@,
                        };
                        let st2 = apply_outputs_spec(
                            old(world).cell_mat_ids.cur@,
                            st0,
                            views,
                            old(self).w as int,
                        );
                        &&& final(world).cell_mat_ids.cur@ == st2.mats
                        &&& final(world).cell_temps.cur@ == st2.temps
                    })
                },
    {
        let w = self.w;
        let h = self.h;
        let ghost mats_reg = world.mat_db@;
        let ghost count = world.mat_db@.len();
        // 1. Sync: copy the committed frame into the staging frame.
        world.sync_all();
        // 2. Gather: one output per module, in registration order.
        let nm = self.modules.len();
        let mut outputs: Vec<ModuleOutput> = Vec::new();
        let curr = world.curr_ctx();
            for i in 0..nm
                invariant
                    nm == self.modules@.len(),
                    outputs@.len() == i,
                    forall|j: int|
                        0 <= j < i ==> output_wf(
                            #[trigger] outputs@[j],
                            w as int,
                            h as int,
                            count,
                        ),
                    forall|j: int|
                        0 <= j < nm ==> (#[trigger] self.modules@[j]).wf(
                            w as int,
                            h as int,
                            mats_reg,
                        ),
                    forall|j: int|
                        0 <= j < nm ==> (#[trigger] self.modules@[j]).consistent(
                            curr.cell_mat_ids@,
                        ),
                    forall|j: int|
                        i <= j < nm ==> #[trigger] self.modules@[j] == old(self).modules@[j],
                    forall|j: int|
                        0 <= j < i ==> output_pinned(
                            #[trigger] old(self).modules@[j],
                            view_output(outputs@[j]),
                            curr.mat_db@,
                            curr.react_db@.defs,
                            curr.cell_mat_ids@,
                            curr.cell_temps@,
                            w as int,
                            h as int,
                        ),
                    forall|j: int|
                        0 <= j < i ==> module_ticked(
                            #[trigger] old(self).modules@[j],
                            self.modules@[j],
                            curr.react_db@.defs,
                            curr.cell_mat_ids@,
                            w as int,
                            h as int,
                        ),
                    self.w == w,
                    self.h == h,
                    self.config == old(self).config,
                    self.changed@ == old(self).changed@,
                    self.changed_sparse@ == old(self).changed_sparse@,
            {
                let mut m = EngineModule::Scripted(
                    crate::physics::module::ModuleScripted::new_empty(),
                );
                self.modules.set_and_swap(i, &mut m);
                let ghost m_before = m;
                let out = m.run(&curr);
                self.modules.set_and_swap(i, &mut m);
                let ghost out_view = view_output(out);
                proof {
                    assert(m_before == old(self).modules@[i as int]);
                }
                outputs.push(out);
                proof {
                    assert(self.modules@.len() == nm);
                }
            }
        // 3. Apply: serialized, in gather order.
        let mut next = world.take_next();
        let curr = world.curr_ctx();
        let ghost cur_mats = curr.cell_mat_ids@;
        let ghost all_views = Seq::new(outputs@.len() as nat, |j: int| view_output(outputs@[j]));
        proof {
            assert forall|j: int| 0 <= j < nm implies output_pinned(
                #[trigger] old(self).modules@[j],
                all_views[j],
                old(world).mat_db@,
                old(world).react_db@.defs,
                old(world).cell_mat_ids.cur@,
                old(world).cell_temps.cur@,
                w as int,
                h as int,
            ) by {
                assert(all_views[j] == view_output(outputs@[j]));
            }
        }
        let ghost st0a = ApplyState {
            mats: next.cell_mat_ids@,
            temps: next.cell_temps@,
            changed: self.changed@,
            sparse: self.changed_sparse@,
        };
        let ghost mut done: int = 0;
        proof {
            assert(all_views.take(0int) =~= Seq::<OutputView>::empty());
        }
        while outputs.len() > 0
            invariant
                next.wf(),
                next.w == w,
                next.h == h,
                next.entities@.len() == w * h,
                self.w == w,
                self.h == h,
                self.config == old(self).config,
                nm == self.modules@.len(),
                self.changed@.len() == w * h,
                changed_wf(self.changed@, self.changed_sparse@),
                mats_valid(next.cell_mat_ids@, count),
                forall|i: int|
                    0 <= i < w * h && !(#[trigger] self.changed@[i]) ==> next.cell_mat_ids@[i]
                        == cur_mats[i],
                forall|j: int|
                    0 <= j < outputs@.len() ==> output_wf(
                        #[trigger] outputs@[j],
                        w as int,
                        h as int,
                        count,
                    ),
                forall|j: int|
                    0 <= j < nm ==> (#[trigger] self.modules@[j]).wf(w as int, h as int, mats_reg),
                forall|j: int| 0 <= j < nm ==> (#[trigger] self.modules@[j]).consistent(cur_mats),
                forall|j: int|
                    0 <= j < nm ==> module_ticked(
                        #[trigger] old(self).modules@[j],
                        self.modules@[j],
                        old(world).react_db@.defs,
                        old(world).cell_mat_ids.cur@,
                        w as int,
                        h as int,
                    ),
                outputs@.len() <= nm,
                nm == 0 ==> next.cell_mat_ids@ == old(world).cell_mat_ids.cur@
                    && next.cell_temps@ == old(world).cell_temps.cur@,
                0 <= done,
                done + outputs@.len() == all_views.len(),
                forall|j: int|
                    0 <= j < outputs@.len() ==> #[trigger] view_output(outputs@[j]) == all_views[done
                        + j],
                ({
                    let stc = apply_outputs_spec(cur_mats, st0a, all_views.take(done), w as int);
                    &&& next.cell_mat_ids@ == stc.mats
                    &&& next.cell_temps@ == stc.temps
                    &&& self.changed@ == stc.changed
                    &&& self.changed_sparse@ == stc.sparse
                }),
            decreases outputs@.len()
        {
            let ghost outputs_before = outputs@;
            let out = outputs.remove(0);
            proof {
                assert(outputs@ =~= outputs_before.drop_first());
                assert forall|j: int| 0 <= j < outputs@.len() implies output_wf(
                    #[trigger] outputs@[j],
                    w as int,
                    h as int,
                    count,
                ) by {
                    assert(outputs@[j] == outputs_before[j + 1]);
                }
                assert(output_wf(out, w as int, h as int, count));
                assert(view_output(out) == all_views[done]);
                assert forall|j: int| 0 <= j < outputs@.len() implies #[trigger] view_output(
                    outputs@[j],
                ) == all_views[done + 1 + j] by {
                    assert(outputs@[j] == outputs_before[j + 1]);
                }
                assert(all_views.take(done + 1).drop_last() =~= all_views.take(done));
                assert(all_views.take(done + 1).last() == all_views[done]);
            }
            let ghost stc = apply_outputs_spec(cur_mats, st0a, all_views.take(done), w as int);
            let ghost stc1 = apply_outputs_spec(
                cur_mats,
                st0a,
                all_views.take(done + 1),
                w as int,
            );
            match out {
                ModuleOutput::CellIntents { intents } => {
                    let ghost st0 = ApplyState {
                        mats: next.cell_mat_ids@,
                        temps: next.cell_temps@,
                        changed: self.changed@,
                        sparse: self.changed_sparse@,
                    };
                    proof {
                        assert(state_wf(st0, w as int, h as int, count));
                    }
                    self.apply_intents(&curr, &mut next, &intents);
                    proof {
                        lemma_apply_intents_wf(
                            cur_mats,
                            st0,
                            intents@,
                            w as int,
                            h as int,
                            count,
                        );
                        lemma_apply_intents_frame(cur_mats, st0, intents@, w as int, h as int);
                        assert forall|i: int|
                            0 <= i < w * h && !(#[trigger] self.changed@[i]) implies next.cell_mat_ids@[i]
                            == cur_mats[i] by {
                            assert(!st0.changed[i]);
                        }
                        assert(stc1 == apply_output_spec(
                            cur_mats,
                            stc,
                            OutputView::Intents(intents@),
                            w as int,
                        ));
                        assert(next.cell_mat_ids@ == stc1.mats && next.cell_temps@ == stc1.temps
                            && self.changed@ == stc1.changed && self.changed_sparse@
                            == stc1.sparse);
                    }
                },
                ModuleOutput::DeltaTemp { delta_temp } => {
                    self.apply_delta_temp(&mut next, &delta_temp);
                    proof {
                        assert(stc1 == apply_output_spec(
                            cur_mats,
                            stc,
                            OutputView::Delta(delta_temp@),
                            w as int,
                        ));
                        assert(next.cell_temps@ =~= Seq::new(
                            stc.temps.len(),
                            |i: int| sat_add_i64(stc.temps[i], delta_temp@[i]),
                        ));
                        assert(next.cell_mat_ids@ == stc1.mats && next.cell_temps@ == stc1.temps
                            && self.changed@ == stc1.changed && self.changed_sparse@
                            == stc1.sparse);
                    }
                },
            }
            proof {
                done = done + 1;
            }
        }
        proof {
            assert(all_views.take(done) =~= all_views);
        }
        // 4. Post-run: every module sees the same changed list and the
        // staged frame.
        let post = PostRunCtx {
                w,
                h,
                cur_mat_ids: &world.cell_mat_ids.cur,
                next_mat_ids: &next.cell_mat_ids,
                next_temps: &next.cell_temps,
                mat_db: &world.mat_db,
            };
            proof {
                assert(post.wf());
            }
            for i in 0..nm
                invariant
                    nm == self.modules@.len(),
                    self.w == w,
                    self.h == h,
                    self.config == old(self).config,
                    self.changed@.len() == w * h,
                    changed_wf(self.changed@, self.changed_sparse@),
                    forall|ii: int|
                        0 <= ii < w * h && !(#[trigger] self.changed@[ii]) ==> next.cell_mat_ids@[ii]
                            == cur_mats[ii],
                    forall|j: int|
                        0 <= j < nm ==> (#[trigger] self.modules@[j]).wf(
                            w as int,
                            h as int,
                            mats_reg,
                        ),
                    forall|j: int|
                        i <= j < nm ==> (#[trigger] self.modules@[j]).consistent(cur_mats),
                    forall|j: int|
                        0 <= j < i ==> (#[trigger] self.modules@[j]).consistent(
                            next.cell_mat_ids@,
                        ),
                    forall|j: int|
                        0 <= j < nm ==> module_ticked(
                            #[trigger] old(self).modules@[j],
                            self.modules@[j],
                            old(world).react_db@.defs,
                            old(world).cell_mat_ids.cur@,
                            w as int,
                            h as int,
                        ),
            {
                let mut m = EngineModule::Scripted(
                    crate::physics::module::ModuleScripted::new_empty(),
                );
                self.modules.set_and_swap(i, &mut m);
                proof {
                    match &m {
                        EngineModule::DiffusionThermal(d) => {
                            assert(d.consistent() && d.grid@ == cur_mats);
                            assert forall|ii: int|
                                0 <= ii < post.w * post.h && !touched(
                                    self.changed_sparse@,
                                    self.changed_sparse@.len() as int,
                                    ii,
                                ) implies post.next_mat_ids@[ii] == d.grid@[ii] by {
                                if self.changed@[ii] {
                                    assert(touched(
                                        self.changed_sparse@,
                                        self.changed_sparse@.len() as int,
                                        ii,
                                    ));
                                }
                            }
                        },
                        _ => {},
                    }
                }
                m.post_run(&post, &self.changed_sparse);
                self.modules.set_and_swap(i, &mut m);
            }
        // 5. Reset: clear exactly the dense bits named by the sparse
        // list, then clear the list.
        let ns = self.changed_sparse.len();
        for j in 0..ns
            invariant
                ns == self.changed_sparse@.len(),
                self.w == w,
                self.h == h,
                self.config == old(self).config,
                nm == self.modules@.len(),
                self.changed@.len() == w * h,
                forall|jj: int|
                    0 <= jj < nm ==> (#[trigger] self.modules@[jj]).wf(
                        w as int,
                        h as int,
                        mats_reg,
                    ),
                forall|jj: int|
                    0 <= jj < nm ==> (#[trigger] self.modules@[jj]).consistent(
                        next.cell_mat_ids@,
                    ),
                forall|jj: int|
                    0 <= jj < nm ==> module_ticked(
                        #[trigger] old(self).modules@[jj],
                        self.modules@[jj],
                        old(world).react_db@.defs,
                        old(world).cell_mat_ids.cur@,
                        w as int,
                        h as int,
                    ),
                forall|j2: int|
                    0 <= j2 < ns ==> (#[trigger] self.changed_sparse@[j2]) < w * h,
                forall|i: int|
                    0 <= i < w * h && #[trigger] self.changed@[i] ==> exists|j2: int|
                        j <= j2 < ns && self.changed_sparse@[j2] == i,
        {
            let idx = self.changed_sparse[j];
            self.changed[idx] = false;
            proof {
                assert forall|i: int|
                    0 <= i < w * h && #[trigger] self.changed@[i] implies exists|j2: int|
                    j + 1 <= j2 < ns && self.changed_sparse@[j2] == i by {
                    let j2 = choose|j2: int|
                        j <= j2 < ns && self.changed_sparse@[j2] == i;
                    assert(j2 != j);
                }
            }
        }
        self.changed_sparse.clear();
        proof {
            assert(forall|i: int| 0 <= i < w * h ==> !(#[trigger] self.changed@[i]));
            assert(changed_wf(self.changed@, self.changed_sparse@));
        }
        // 6. Commit the frame.
        world.restore_next(next);
        world.swap_all();
        proof {
            let st0 = ApplyState {
                mats: old(world).cell_mat_ids.cur@,
                temps: old(world).cell_temps.cur@,
                changed: old(self).changed@,
                sparse: old(self).changed_sparse@,
            };
            assert(st0a == st0);
            let stf = apply_outputs_spec(cur_mats, st0, all_views, w as int);
            assert(world.cell_mat_ids.cur@ == stf.mats && world.cell_temps.cur@ == stf.temps);
            assert(all_views.len() == old(self).modules@.len());
        }
    }
}

/// MoveSwap carries this-tick heat: if a temperature delta lands on the
/// source cell in the same tick as a swap from `from` to `to` (with no
/// earlier claim on either cell), the destination ends the apply phase
/// holding the source's delta-adjusted temperature, and the source holds
/// the destination's.
pub proof fn lemma_moveswap_carries_heat(
    cur_mats: Seq<MaterialId>,
    temps0: Seq<i64>,
    delta: Seq<i64>,
    from: Cell,
    to: Cell,
    w: int,
    h: int,
)
    requires
        w > 0,
        h > 0,
        w * h <= usize::MAX,
        cur_mats.len() == w * h,
        temps0.len() == w * h,
        delta.len() == w * h,
        from.x < w,
        from.y < h,
        to.x < w,
        to.y < h,
        from != to,
    ensures
        ({
            let temps1 = Seq::new((w * h) as nat, |i: int| sat_add_i64(temps0[i], delta[i]));
            let st = ApplyState {
                mats: cur_mats,
                temps: temps1,
                changed: Seq::new((w * h) as nat, |i: int| false),
                sparse: Seq::empty(),
            };
            let st2 = apply_intent_spec(cur_mats, st, CellIntent::MoveSwap { from, to }, w);
            &&& st2.temps[cidx(w, to)] == sat_add_i64(
                temps0[cidx(w, from)],
                delta[cidx(w, from)],
            )
            &&& st2.temps[cidx(w, from)] == sat_add_i64(temps0[cidx(w, to)], delta[cidx(w, to)])
            &&& st2.mats[cidx(w, to)] == cur_mats[cidx(w, from)]
            &&& st2.mats[cidx(w, from)] == cur_mats[cidx(w, to)]
        }),
{
    lemma_grid_index(w, h, from.x as int, from.y as int);
    lemma_grid_index(w, h, to.x as int, to.y as int);
    if cidx(w, from) == cidx(w, to) {
        lemma_gidx_injective(w, h, from.x as int, from.y as int, to.x as int, to.y as int);
    }
    let it = CellIntent::MoveSwap { from, to };
    let temps1 = Seq::new((w * h) as nat, |i: int| sat_add_i64(temps0[i], delta[i]));
    let st = ApplyState {
        mats: cur_mats,
        temps: temps1,
        changed: Seq::new((w * h) as nat, |i: int| false),
        sparse: Seq::empty(),
    };
    assert forall|i: int| 0 <= i < intent_cells(it).len() implies !st.changed[cidx(
        w,
        intent_cells(it)[i],
    )] by {
        assert(intent_cells(it)[i] == from || intent_cells(it)[i] == to);
    }
    assert(!intent_blocked(st, it, w));
    let st1 = mark_cell(mark_cell(st, w, from), w, to);
    let st2 = apply_intent_spec(cur_mats, st, it, w);
    assert(st2.temps == st1.temps.update(cidx(w, from), st1.temps[cidx(w, to)]).update(
        cidx(w, to),
        st1.temps[cidx(w, from)],
    ));
}

/// Changed-set correctness: starting from a well-formed state, every
/// cell whose staged material or temperature was written by the applied
/// intents has its index in the sparse changed list afterwards — and a
/// cell only touched by temperature deltas never enters it, since delta
/// application leaves the changed-set alone by construction.
pub proof fn lemma_changed_set_correctness(
    cur_mats: Seq<MaterialId>,
    st: ApplyState,
    intents: Seq<CellIntent>,
    w: int,
    h: int,
    count: nat,
)
    requires
        state_wf(st, w, h, count),
        w * h <= usize::MAX,
        cur_mats.len() == w * h,
        mats_valid(cur_mats, count),
        w > 0,
        h > 0,
        forall|k: int|
            0 <= k < intents.len() ==> intent_wf(#[trigger] intents[k], w, h) && intent_mats_valid(
                intents[k],
                count,
            ),
    ensures
        ({
            let st2 = apply_intents_spec(cur_mats, st, intents, w);
            forall|i: int|
                0 <= i < w * h && (st2.mats[i] != st.mats[i] || st2.temps[i] != st.temps[i])
                    ==> touched(st2.sparse, st2.sparse.len() as int, i)
        }),
{
    lemma_apply_intents_wf(cur_mats, st, intents, w, h, count);
    lemma_apply_intents_frame(cur_mats, st, intents, w, h);
    let st2 = apply_intents_spec(cur_mats, st, intents, w);
    assert forall|i: int|
        0 <= i < w * h && (st2.mats[i] != st.mats[i] || st2.temps[i] != st.temps[i]) implies touched(
        st2.sparse,
        st2.sparse.len() as int,
        i,
    ) by {
        assert(st2.changed[i]);
    }
}

/// Determinism of the gather phase: the per-kind pinning determines each
/// module's output completely, so two output lists pinned against the
/// same modules and the same committed frame are equal. Together with
/// the apply fold in [`Engine::step`]'s postcondition, equal engines and
/// equal worlds yield bit-identical committed frames.
pub proof fn lemma_pinned_outputs_unique(
    modules: Seq<EngineModule>,
    views_a: Seq<OutputView>,
    views_b: Seq<OutputView>,
    mats_reg: Seq<MaterialView>,
    defs: Seq<ReactionView>,
    cur_mats: Seq<MaterialId>,
    cur_temps: Seq<i64>,
    w: int,
    h: int,
)
    requires
        w > 0,
        h > 0,
        views_a.len() == modules.len(),
        views_b.len() == modules.len(),
        forall|i: int|
            0 <= i < modules.len() ==> output_pinned(
                #[trigger] modules[i],
                views_a[i],
                mats_reg,
                defs,
                cur_mats,
                cur_temps,
                w,
                h,
            ),
        forall|i: int|
            0 <= i < modules.len() ==> output_pinned(
                #[trigger] modules[i],
                views_b[i],
                mats_reg,
                defs,
                cur_mats,
                cur_temps,
                w,
                h,
            ),
    ensures
        views_a == views_b,
{
    assert forall|i: int| 0 <= i < modules.len() implies views_a[i] == views_b[i] by {
        match modules[i] {
            EngineModule::DiffusionThermal(d) => {
                let da = views_a[i]->Delta_0;
                let db = views_b[i]->Delta_0;
                assert forall|j: int| 0 <= j < da.len() implies da[j] == db[j] by {
                    crate::physics::util::lemma_div_mod_grid(w, h, j);
                    let x = j % w;
                    let y = j / w;
                    assert(gidx(w, x, y) == j) by (nonlinear_arith)
                        requires
                            j == (j / w) * w + (j % w),
                            x == j % w,
                            y == j / w,
                    ;
                    assert(da[gidx(w, x, y)] == clamp_to_i64(d.diffusion_flux(cur_temps, x, y)));
                    assert(db[gidx(w, x, y)] == clamp_to_i64(d.diffusion_flux(cur_temps, x, y)));
                }
                assert(da =~= db);
                assert(views_a[i] =~= views_b[i]);
            },
            EngineModule::TransformsThermal(_) => {},
            EngineModule::ReactionsBasic(_) => {},
            EngineModule::BehaviorSteam(_) => {},
            EngineModule::Scripted(_) => {},
        }
    }
    assert(views_a =~= views_b);
}

/// A tick whose outputs are all temperature deltas or empty intent lists
/// leaves the material grid alone: the engine-level half of the
/// homogeneous-world no-op, whose other half is the modules' quiet
/// lemmas showing each intent list empty over a uniform non-reactive
/// grid.
pub proof fn lemma_quiet_outputs_preserve_mats(
    cur_mats: Seq<MaterialId>,
    st: ApplyState,
    outs: Seq<OutputView>,
    w: int,
)
    requires
        forall|j: int|
            0 <= j < outs.len() ==> ((#[trigger] outs[j]) is Delta || (outs[j] matches
            OutputView::Intents(l) && l.len() == 0)),
    ensures
        apply_outputs_spec(cur_mats, st, outs, w).mats == st.mats,
        apply_outputs_spec(cur_mats, st, outs, w).changed == st.changed,
        apply_outputs_spec(cur_mats, st, outs, w).sparse == st.sparse,
    decreases outs.len(),
{
    if outs.len() > 0 {
        assert forall|j: int| 0 <= j < outs.drop_last().len() implies ((
        #[trigger] outs.drop_last()[j]) is Delta || (outs.drop_last()[j] matches
        OutputView::Intents(l) && l.len() == 0)) by {
            assert(outs.drop_last()[j] == outs[j]);
        }
        lemma_quiet_outputs_preserve_mats(cur_mats, st, outs.drop_last(), w);
        assert(outs.last() == outs[outs.len() - 1]);
        let st_mid = apply_outputs_spec(cur_mats, st, outs.drop_last(), w);
        match outs.last() {
            OutputView::Intents(l) => {
                assert(l.len() == 0);
                assert(apply_intents_spec(cur_mats, st_mid, l, w) == st_mid);
            },
            OutputView::Delta(_) => {},
        }
    }
}

/// Over a world uniformly filled with one material that has no thermal
/// transforms, reacts with nothing, and is not any steam module's steam
/// material, every pinned module output is quiet: a temperature delta or
/// an empty intent list. Combined with [`lemma_quiet_outputs_preserve_mats`]
/// and [`Engine::step`]'s postcondition, such a tick is a no-op on the
/// material grid.
pub proof fn lemma_uniform_world_outputs_empty(
    modules: Seq<EngineModule>,
    views: Seq<OutputView>,
    mats_reg: Seq<MaterialView>,
    defs: Seq<ReactionView>,
    cur_mats: Seq<MaterialId>,
    cur_temps: Seq<i64>,
    w: int,
    h: int,
    m: MaterialId,
)
    requires
        w > 0,
        h > 0,
        views.len() == modules.len(),
        cur_mats.len() == w * h,
        forall|i: int|
            0 <= i < modules.len() ==> output_pinned(
                #[trigger] modules[i],
                views[i],
                mats_reg,
                defs,
                cur_mats,
                cur_temps,
                w,
                h,
            ),
        forall|i: int| 0 <= i < cur_mats.len() ==> #[trigger] cur_mats[i] == m,
        mats_valid(cur_mats, mats_reg.len()),
        crate::material::registry_wf(mats_reg),
        m.0 < mats_reg.len(),
        mats_reg[m.0 as int].transform_cold is None,
        mats_reg[m.0 as int].transform_hot is None,
        crate::reaction::first_reaction_index(defs, m.0 as int, m.0 as int) is None,
        forall|i: int|
            0 <= i < modules.len() && ((#[trigger] modules[i]) is BehaviorSteam)
                ==> modules[i]->BehaviorSteam_0.mat_id_steam != m,
        forall|i: int| !((#[trigger] modules[i]) is Scripted),
    ensures
        forall|j: int|
            0 <= j < views.len() ==> ((#[trigger] views[j]) is Delta || (views[j] matches
            OutputView::Intents(l) && l.len() == 0)),
{
    assert forall|j: int|
        0 <= j < views.len() implies ((#[trigger] views[j]) is Delta || (views[j] matches
    OutputView::Intents(l) && l.len() == 0)) by {
        match modules[j] {
            EngineModule::DiffusionThermal(_) => {},
            EngineModule::TransformsThermal(t) => {
                crate::physics::module_transforms_thermal::lemma_transform_intents_empty(
                    mats_reg,
                    cur_mats,
                    cur_temps,
                    !t.checkerboard_toggle,
                    (rng_out(t.rng) % 4) as int,
                    w,
                    h,
                    0,
                );
            },
            EngineModule::ReactionsBasic(_) => {
                let l = views[j]->Intents_0;
                if l.len() > 0 {
                    crate::physics::module_reactions_basic::lemma_reactions_quiet_when_uniform(
                        defs,
                        cur_mats,
                        w,
                        m,
                        l[0],
                    );
                }
            },
            EngineModule::BehaviorSteam(st) => {
                let l = views[j]->Intents_0;
                if l.len() > 0 {
                    crate::physics::module_behavior_steam::lemma_steam_quiet_without_steam(
                        cur_mats,
                        w,
                        st.mat_id_steam,
                        st.mat_id_air,
                        m,
                        l[0],
                    );
                }
            },
            EngineModule::Scripted(_) => {
                assert(false);
            },
        }
    }
}

} // verus!
