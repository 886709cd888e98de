//! Thermal transform module: emits transform intents for cells whose
//! temperature crosses their material's cold or hot threshold, visiting
//! half the grid each tick in a checkerboard phase.

use vstd::prelude::*;

verus! {

use crate::material::MaterialView;
use crate::physics::intent::{Cell, CellIntent, ModuleOutput, intent_mats_valid, intent_wf};
use crate::physics::util::{pick_scan_dir, scan_cell, scan_cell_spec, lemma_scan_cell_in_range};
use crate::rng::{SimRng, rng_out, rng_step};
use crate::world::CurrCtx;
use crate::material::MaterialId;

/// Parity of a cell: which half of the checkerboard it belongs to.
pub open spec fn cell_parity(x: int, y: int) -> int {
    (x + y) % 2
}

/// Is the cell scanned in the tick whose phase is `phase`? Cells whose
/// parity equals the phase bit are skipped.
pub open spec fn transform_eligible(x: int, y: int, phase: bool) -> bool {
    cell_parity(x, y) != (if phase {
        1int
    } else {
        0int
    })
}

/// Over any two consecutive ticks (phases `phase` and `!phase`), every
/// cell is eligible for a transform exactly once.
pub proof fn lemma_transform_checkerboard(x: int, y: int, phase: bool)
    ensures
        transform_eligible(x, y, phase) != transform_eligible(x, y, !phase),
{
}

/// The transform an eligible cell undergoes, if any: the cold transform
/// when the temperature is below its threshold, else the hot transform
/// when above its threshold. Cold wins over hot on the same tick.
pub open spec fn cell_transform(db: Seq<MaterialView>, id: MaterialId, t: i64) -> Option<
    MaterialId,
> {
    let m = db[id.0 as int];
    match m.transform_cold {
        Some(r) => if t < r.threshold {
            Some(r.target)
        } else {
            cell_transform_hot(m, t)
        },
        None => cell_transform_hot(m, t),
    }
}

/// The hot half of the transform check.
pub open spec fn cell_transform_hot(m: MaterialView, t: i64) -> Option<MaterialId> {
    match m.transform_hot {
        Some(r) => if t > r.threshold {
            Some(r.target)
        } else {
            None
        },
        None => None,
    }
}

/// The intents the module emits from scan position `k` onward, in scan
/// order `dir` with checkerboard phase `phase`.
pub open spec fn transform_intents_spec(
    db: Seq<MaterialView>,
    mats: Seq<MaterialId>,
    temps: Seq<i64>,
    phase: bool,
    dir: int,
    w: int,
    h: int,
    k: int,
) -> Seq<CellIntent>
    decreases w * h - k,
{
    if k < 0 || k >= w * h || w <= 0 || h <= 0 {
        Seq::empty()
    } else {
        let c = scan_cell_spec(dir, w, h, k);
        let i = c.y * w + c.x;
        let rest = transform_intents_spec(db, mats, temps, phase, dir, w, h, k + 1);
        if !transform_eligible(c.x as int, c.y as int, phase) {
            rest
        } else {
            match cell_transform(db, mats[i], temps[i]) {
                Some(out) => seq![CellIntent::Transform { cell: c, out }] + rest,
                None => rest,
            }
        }
    }
}

/// Every emitted intent is an in-bounds transform whose target exists,
/// provided every cell's material and every transform target does.
pub proof fn lemma_transform_intents_wf(
    db: Seq<MaterialView>,
    mats: Seq<MaterialId>,
    temps: Seq<i64>,
    phase: bool,
    dir: int,
    w: int,
    h: int,
    k: int,
)
    requires
        0 <= dir < 4,
        mats.len() == w * h,
        temps.len() == w * h,
        crate::material::registry_wf(db),
        crate::world::mats_valid(mats, db.len()),
    ensures
        forall|i: int|
            0 <= i < transform_intents_spec(db, mats, temps, phase, dir, w, h, k).len() ==> {
                let it = #[trigger] transform_intents_spec(db, mats, temps, phase, dir, w, h, k)[i];
                &&& intent_wf(it, w, h)
                &&& intent_mats_valid(it, db.len())
            },
    decreases w * h - k,
{
    if 0 <= k < w * h && w > 0 && h > 0 {
        lemma_transform_intents_wf(db, mats, temps, phase, dir, w, h, k + 1);
        lemma_scan_cell_in_range(dir, w, h, k);
        let c = scan_cell_spec(dir, w, h, k);
        crate::world::lemma_grid_index(w, h, c.x as int, c.y as int);
        let i = c.y * w + c.x;
        assert(mats[i].0 < db.len());
        assert(crate::material::mat_wf(db[mats[i].0 as int], db.len() as int));
    }
}

/// If no cell's material defines a transform, the module emits nothing.
pub proof fn lemma_transform_intents_empty(
    db: Seq<MaterialView>,
    mats: Seq<MaterialId>,
    temps: Seq<i64>,
    phase: bool,
    dir: int,
    w: int,
    h: int,
    k: int,
)
    requires
        0 <= dir < 4,
        mats.len() == w * h,
        crate::world::mats_valid(mats, db.len()),
        forall|i: int|
            0 <= i < mats.len() ==> db[(#[trigger] mats[i]).0 as int].transform_cold is None && db[
                mats[i].0 as int
            ].transform_hot is None,
    ensures
        transform_intents_spec(db, mats, temps, phase, dir, w, h, k) == Seq::<CellIntent>::empty(),
    decreases w * h - k,
{
    if 0 <= k < w * h && w > 0 && h > 0 {
        lemma_transform_intents_empty(db, mats, temps, phase, dir, w, h, k + 1);
        lemma_scan_cell_in_range(dir, w, h, k);
        let c = scan_cell_spec(dir, w, h, k);
        crate::world::lemma_grid_index(w, h, c.x as int, c.y as int);
    }
}

/// The thermal transform module: a pure intent producer with a private
/// deterministic stream and the checkerboard phase bit.
pub struct ModuleTransformsThermal {
    pub rng: SimRng,
    pub checkerboard_toggle: bool,
}

impl ModuleTransformsThermal {
    /// A fresh module with its stream seeded; the first tick runs phase
    /// `true`.
    pub fn new(rng_seed: u64) -> (r: Self)
        ensures
            r.rng == crate::rng::seed_spec(rng_seed),
            r.checkerboard_toggle == false,
    {
        Self { rng: SimRng::seed_from_u64(rng_seed), checkerboard_toggle: false }
    }

    /// One tick: flip the phase, pick a scan order, and emit a transform
    /// intent for every eligible cell whose temperature crosses one of
    /// its material's thresholds.
    pub fn run(&mut self, curr: &CurrCtx<'_>) -> (out: ModuleOutput)
        requires
            curr.wf(),
            curr.w > 0,
            curr.h > 0,
        ensures
            final(self).checkerboard_toggle == !old(self).checkerboard_toggle,
            final(self).rng == rng_step(old(self).rng),
            out matches ModuleOutput::CellIntents { intents } && intents@
                == transform_intents_spec(
                curr.mat_db@,
                curr.cell_mat_ids@,
                curr.cell_temps@,
                !old(self).checkerboard_toggle,
                (rng_out(old(self).rng) % 4) as int,
                curr.w as int,
                curr.h as int,
                0,
            ),
            crate::physics::intent::output_wf(
                out,
                curr.w as int,
                curr.h as int,
                curr.mat_db@.len(),
            ),
    {
        let ghost db = curr.mat_db@;
        let ghost gmats = curr.cell_mat_ids@;
        let ghost gtemps = curr.cell_temps@;
        self.checkerboard_toggle = !self.checkerboard_toggle;
        let phase = self.checkerboard_toggle;
        let dir = pick_scan_dir(&mut self.rng);
        let ghost whole = transform_intents_spec(
            db,
            gmats,
            gtemps,
            phase,
            dir as int,
            curr.w as int,
            curr.h as int,
            0,
        );
        let mut intents: Vec<CellIntent> = Vec::new();
        let n = curr.w * curr.h;
        for k in 0..n
            invariant
                n == curr.w * curr.h,
                curr.wf(),
                curr.w > 0,
                curr.h > 0,
                dir < 4,
                db == curr.mat_db@,
                gmats == curr.cell_mat_ids@,
                gtemps == curr.cell_temps@,
                whole == transform_intents_spec(
                    db,
                    gmats,
                    gtemps,
                    phase,
                    dir as int,
                    curr.w as int,
                    curr.h as int,
                    0,
                ),
                intents@ + transform_intents_spec(
                    db,
                    gmats,
                    gtemps,
                    phase,
                    dir as int,
                    curr.w as int,
                    curr.h as int,
                    k as int,
                ) == whole,
        {
            let ghost tail_k = transform_intents_spec(
                db,
                gmats,
                gtemps,
                phase,
                dir as int,
                curr.w as int,
                curr.h as int,
                k as int,
            );
            let ghost tail_k1 = transform_intents_spec(
                db,
                gmats,
                gtemps,
                phase,
                dir as int,
                curr.w as int,
                curr.h as int,
                k + 1 as int,
            );
            let c = scan_cell(dir, curr.w, curr.h, k);
            proof {
                crate::world::lemma_grid_index(
                    curr.w as int,
                    curr.h as int,
                    c.x as int,
                    c.y as int,
                );
            }
            // Checkerboard phasing: skip cells whose parity equals the
            // phase bit.
            let px = c.x % 2;
            let py = c.y % 2;
            let parity = (px + py) % 2;
            proof {
                vstd::arithmetic::div_mod::lemma_add_mod_noop(c.x as int, c.y as int, 2);
            }
            let eligible = parity != (if phase {
                1usize
            } else {
                0usize
            });
            proof {
                assert(eligible == transform_eligible(c.x as int, c.y as int, phase));
            }
            if eligible {
                let id = curr.get_mat_id(c.x, c.y);
                let t = curr.get_temp(c.x, c.y);
                match curr.mat_db.get(id) {
                    Some(m) => {
                        let mut emitted = false;
                        match &m.transform_cold {
                            Some(r) => {
                                if t < r.threshold {
                                    intents.push(
                                        CellIntent::Transform { cell: c, out: r.target },
                                    );
                                    emitted = true;
                                }
                            },
                            None => {},
                        }
                        if !emitted {
                            match &m.transform_hot {
                                Some(r) => {
                                    if t > r.threshold {
                                        intents.push(
                                            CellIntent::Transform { cell: c, out: r.target },
                                        );
                                    }
                                },
                                None => {},
                            }
                        }
                    },
                    None => {
                        proof {
                            assert(false);
                        }
                    },
                }
            }
            proof {
                match cell_transform(db, gmats[c.y * curr.w + c.x], gtemps[c.y * curr.w + c.x]) {
                    Some(outm) => {
                        if transform_eligible(c.x as int, c.y as int, phase) {
                            assert(tail_k == seq![
                                CellIntent::Transform { cell: c, out: outm },
                            ] + tail_k1);
                        }
                    },
                    None => {},
                }
                assert(intents@ + tail_k1 =~= whole);
            }
        }
        proof {
            assert(transform_intents_spec(
                db,
                gmats,
                gtemps,
                phase,
                dir as int,
                curr.w as int,
                curr.h as int,
                n as int,
            ) == Seq::<CellIntent>::empty());
            assert(intents@ =~= whole);
            lemma_transform_intents_wf(
                db,
                gmats,
                gtemps,
                phase,
                dir as int,
                curr.w as int,
                curr.h as int,
                0,
            );
        }
        ModuleOutput::CellIntents { intents }
    }
}

} // verus!
