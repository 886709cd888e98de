//! Basic reaction module: for each cell in a randomized scan, inspect the
//! 4-neighborhood in a fixed deterministic order for a matching reaction,
//! roll against the reaction's rate, and emit at most one canonicalized
//! reaction intent per origin cell per tick.

use vstd::prelude::*;

verus! {

use crate::FIXED_ONE;
use crate::material::MaterialId;
use crate::physics::intent::{Cell, CellIntent, ModuleOutput, intent_mats_valid, intent_wf};
use crate::physics::util::{neighbor_4, pick_scan_dir, scan_cell, scan_cell_spec};
use crate::physics::module_diffusion_thermal::gidx;
use crate::reaction::{ReactionView, first_reaction_index, lemma_first_reaction_index};
use crate::rng::{SimRng, rng_out, rng_step};
use crate::world::CurrCtx;

/// The two cells share an edge.
pub open spec fn adjacent_4(a: Cell, b: Cell) -> bool {
    ||| (a.x == b.x && (a.y + 1 == b.y || b.y + 1 == a.y))
    ||| (a.y == b.y && (a.x + 1 == b.x || b.x + 1 == a.x))
}

/// An intent this module may emit: a reaction between two adjacent cells
/// whose committed materials match an interned reaction, outputs taken
/// from that reaction with the operand order canonicalized (the cell
/// matching `in_a` becomes `cell_a`).
pub open spec fn reaction_intent_sound(
    defs: Seq<ReactionView>,
    mats: Seq<MaterialId>,
    w: int,
    it: CellIntent,
) -> bool {
    match it {
        CellIntent::Reaction { cell_a, cell_b, out_a, out_b } => {
            let ia = cell_a.y * w + cell_a.x;
            let ib = cell_b.y * w + cell_b.x;
            &&& adjacent_4(cell_a, cell_b)
            &&& 0 <= ia < mats.len()
            &&& 0 <= ib < mats.len()
            &&& exists|rid: int|
                {
                    &&& 0 <= rid < defs.len()
                    &&& first_reaction_index(defs, mats[ia].0 as int, mats[ib].0 as int) == Some(
                        rid,
                    )
                    &&& (#[trigger] defs[rid]).in_a == mats[ia]
                    &&& defs[rid].in_b == mats[ib]
                    &&& out_a == defs[rid].out_a
                    &&& out_b == defs[rid].out_b
                }
        },
        _ => false,
    }
}

/// The outcome of probing the 4-neighborhood of cell `(x, y)` from fixed
/// position `j` onward, threading the roll stream: the intent emitted at
/// this origin cell (if any) and the stream afterwards. A roll is drawn
/// only when a neighbor pair matches an interned reaction; a failed roll
/// moves on to the next neighbor.
pub open spec fn react_neigh_spec(
    defs: Seq<ReactionView>,
    mats: Seq<MaterialId>,
    w: int,
    h: int,
    x: int,
    y: int,
    j: int,
    rng: SimRng,
) -> (Option<CellIntent>, SimRng)
    decreases 4 - j,
{
    if j < 0 || j >= 4 {
        (None, rng)
    } else {
        let off = neighbor_4(j);
        let nx = x + off.0 as int;
        let ny = y + off.1 as int;
        if !(0 <= nx < w && 0 <= ny < h) {
            react_neigh_spec(defs, mats, w, h, x, y, j + 1, rng)
        } else {
            let mat = mats[gidx(w, x, y)];
            let nmat = mats[gidx(w, nx, ny)];
            match first_reaction_index(defs, mat.0 as int, nmat.0 as int) {
                None => react_neigh_spec(defs, mats, w, h, x, y, j + 1, rng),
                Some(rid) => {
                    let roll = rng_out(rng) % (crate::FIXED_ONE as u64);
                    let rng1 = rng_step(rng);
                    if roll < defs[rid].rate as u64 {
                        let r = defs[rid];
                        let origin = Cell { x: x as usize, y: y as usize };
                        let neigh = Cell { x: nx as usize, y: ny as usize };
                        (
                            Some(
                                CellIntent::Reaction {
                                    cell_a: if r.in_a == mat {
                                        origin
                                    } else {
                                        neigh
                                    },
                                    cell_b: if r.in_a == mat {
                                        neigh
                                    } else {
                                        origin
                                    },
                                    out_a: r.out_a,
                                    out_b: r.out_b,
                                },
                            ),
                            rng1,
                        )
                    } else {
                        react_neigh_spec(defs, mats, w, h, x, y, j + 1, rng1)
                    }
                },
            }
        }
    }
}

/// The whole tick from scan position `k` onward: the emitted intents in
/// scan order (at most one per origin cell) and the roll stream
/// afterwards.
pub open spec fn react_scan_spec(
    defs: Seq<ReactionView>,
    mats: Seq<MaterialId>,
    w: int,
    h: int,
    dir: int,
    k: int,
    rng: SimRng,
) -> (Seq<CellIntent>, SimRng)
    decreases w * h - k,
{
    if k < 0 || k >= w * h || w <= 0 || h <= 0 {
        (Seq::empty(), rng)
    } else {
        let c = scan_cell_spec(dir, w, h, k);
        let rn = react_neigh_spec(defs, mats, w, h, c.x as int, c.y as int, 0, rng);
        let rest = react_scan_spec(defs, mats, w, h, dir, k + 1, rn.1);
        match rn.0 {
            Some(it) => (seq![it] + rest.0, rest.1),
            None => rest,
        }
    }
}

/// The basic reaction module, with one stream for the scan order and one
/// for the rate rolls.
pub struct ModuleReactionsBasic {
    pub rng_a: SimRng,
    pub rng_b: SimRng,
}

impl ModuleReactionsBasic {
    /// A fresh module with both streams seeded.
    pub fn new(rng_seed: u64) -> (r: Self)
        ensures
            r.rng_a == crate::rng::seed_spec(rng_seed),
            r.rng_b == crate::rng::seed_spec(rng_seed ^ 0xBBBBBBBBBBBBBBBB),
    {
        Self {
            rng_a: SimRng::seed_from_u64(rng_seed),
            rng_b: SimRng::seed_from_u64(rng_seed ^ 0xBBBBBBBBBBBBBBBB),
        }
    }

    /// One tick: emit at most one reaction intent per origin cell, each
    /// backed by an interned reaction over the committed materials of an
    /// adjacent pair and gated by a rate roll. The whole output and the
    /// final roll stream are exact functions of the committed frame and
    /// the two stream states.
    pub fn run(&mut self, curr: &CurrCtx<'_>) -> (out: ModuleOutput)
        requires
            curr.wf(),
            curr.w > 0,
            curr.h > 0,
        ensures
            final(self).rng_a == rng_step(old(self).rng_a),
            final(self).rng_b == react_scan_spec(
                curr.react_db@.defs,
                curr.cell_mat_ids@,
                curr.w as int,
                curr.h as int,
                (rng_out(old(self).rng_a) % 4) as int,
                0,
                old(self).rng_b,
            ).1,
            out matches ModuleOutput::CellIntents { intents } && intents@ == react_scan_spec(
                curr.react_db@.defs,
                curr.cell_mat_ids@,
                curr.w as int,
                curr.h as int,
                (rng_out(old(self).rng_a) % 4) as int,
                0,
                old(self).rng_b,
            ).0,
            out matches ModuleOutput::CellIntents { intents } && forall|i: int|
                0 <= i < intents@.len() ==> {
                    let it = #[trigger] intents@[i];
                    &&& reaction_intent_sound(
                        curr.react_db@.defs,
                        curr.cell_mat_ids@,
                        curr.w as int,
                        it,
                    )
                    &&& intent_wf(it, curr.w as int, curr.h as int)
                    &&& intent_mats_valid(it, curr.mat_db@.len())
                },
            crate::physics::intent::output_wf(
                out,
                curr.w as int,
                curr.h as int,
                curr.mat_db@.len(),
            ),
    {
        let ghost defs = curr.react_db@.defs;
        let ghost gmats = curr.cell_mat_ids@;
        let w = curr.w;
        let h = curr.h;
        let dir = pick_scan_dir(&mut self.rng_a);
        let ghost rng_b0 = self.rng_b;
        let ghost full = react_scan_spec(
            defs,
            gmats,
            w as int,
            h as int,
            dir as int,
            0,
            rng_b0,
        );
        let mut intents: Vec<CellIntent> = Vec::new();
        let n = w * h;
        for k in 0..n
            invariant
                n == w * h,
                w == curr.w,
                h == curr.h,
                curr.wf(),
                w > 0,
                h > 0,
                dir < 4,
                defs == curr.react_db@.defs,
                gmats == curr.cell_mat_ids@,
                self.rng_a == rng_step(old(self).rng_a),
                full == react_scan_spec(defs, gmats, w as int, h as int, dir as int, 0, rng_b0),
                full.0 == intents@ + react_scan_spec(
                    defs,
                    gmats,
                    w as int,
                    h as int,
                    dir as int,
                    k as int,
                    self.rng_b,
                ).0,
                full.1 == react_scan_spec(
                    defs,
                    gmats,
                    w as int,
                    h as int,
                    dir as int,
                    k as int,
                    self.rng_b,
                ).1,
                forall|i: int|
                    0 <= i < intents@.len() ==> {
                        let it = #[trigger] intents@[i];
                        &&& reaction_intent_sound(defs, gmats, w as int, it)
                        &&& intent_wf(it, w as int, h as int)
                        &&& intent_mats_valid(it, curr.mat_db@.len())
                    },
        {
            let c = scan_cell(dir, w, h, k);
            let x = c.x;
            let y = c.y;
            let mat = curr.get_mat_id(x, y);
            proof {
                crate::world::lemma_grid_index(w as int, h as int, x as int, y as int);
            }
            let ghost rng_c = self.rng_b;
            let ghost pre_intents = intents@;
            let mut emitted = false;
            // Check the neighbors in a fixed deterministic order.
            for j in 0..4usize
                invariant
                    n == w * h,
                    w == curr.w,
                    h == curr.h,
                    curr.wf(),
                    w > 0,
                    h > 0,
                    x < w,
                    y < h,
                    defs == curr.react_db@.defs,
                    gmats == curr.cell_mat_ids@,
                    self.rng_a == rng_step(old(self).rng_a),
                    mat == gmats[y * w + x],
                    mat.0 < curr.mat_db@.len(),
                    if emitted {
                        &&& intents@ == pre_intents.push(intents@.last())
                        &&& react_neigh_spec(
                            defs,
                            gmats,
                            w as int,
                            h as int,
                            x as int,
                            y as int,
                            0,
                            rng_c,
                        ) == (Some(intents@.last()), self.rng_b)
                    } else {
                        &&& intents@ == pre_intents
                        &&& react_neigh_spec(
                            defs,
                            gmats,
                            w as int,
                            h as int,
                            x as int,
                            y as int,
                            0,
                            rng_c,
                        ) == react_neigh_spec(
                            defs,
                            gmats,
                            w as int,
                            h as int,
                            x as int,
                            y as int,
                            j as int,
                            self.rng_b,
                        )
                    },
                    forall|i: int|
                        0 <= i < intents@.len() ==> {
                            let it = #[trigger] intents@[i];
                            &&& reaction_intent_sound(defs, gmats, w as int, it)
                            &&& intent_wf(it, w as int, h as int)
                            &&& intent_mats_valid(it, curr.mat_db@.len())
                        },
            {
                if !emitted {
                    // Neighbor coordinates, in the fixed order up, left,
                    // right, down.
                    let mut nx = x;
                    let mut ny = y;
                    let mut in_bounds = false;
                    if j == 0 {
                        if y > 0 {
                            ny = y - 1;
                            in_bounds = true;
                        }
                    } else if j == 1 {
                        if x > 0 {
                            nx = x - 1;
                            in_bounds = true;
                        }
                    } else if j == 2 {
                        if x + 1 < w {
                            nx = x + 1;
                            in_bounds = true;
                        }
                    } else {
                        if y + 1 < h {
                            ny = y + 1;
                            in_bounds = true;
                        }
                    }
                    proof {
                        let off = neighbor_4(j as int);
                        let sx = x as int + off.0 as int;
                        let sy = y as int + off.1 as int;
                        assert(in_bounds == (0 <= sx && sx < w && 0 <= sy && sy < h));
                        if in_bounds {
                            assert(nx as int == sx && ny as int == sy);
                        }
                    }
                    if in_bounds {
                        let neigh_mat = curr.get_mat_id(nx, ny);
                        proof {
                            crate::world::lemma_grid_index(
                                w as int,
                                h as int,
                                nx as int,
                                ny as int,
                            );
                        }
                        match curr.react_db.get_reaction_by_mats(mat, neigh_mat) {
                            Some(react_id) => {
                                proof {
                                    lemma_first_reaction_index(
                                        defs,
                                        mat.0 as int,
                                        neigh_mat.0 as int,
                                    );
                                }
                                match curr.react_db.get(react_id) {
                                    Some(react) => {
                                        // Roll the dice for the rate.
                                        let roll = self.rng_b.next_below(FIXED_ONE as u64);
                                        if roll < react.rate as u64 {
                                            // Reaction found; canonicalize
                                            // which cell is a and which is b.
                                            let origin = Cell { x, y };
                                            let neigh = Cell { x: nx, y: ny };
                                            let (ca, cb) = if react.in_a == mat {
                                                (origin, neigh)
                                            } else {
                                                (neigh, origin)
                                            };
                                            let it = CellIntent::Reaction {
                                                cell_a: ca,
                                                cell_b: cb,
                                                out_a: react.out_a,
                                                out_b: react.out_b,
                                            };
                                            proof {
                                                crate::world::lemma_grid_index(
                                                    w as int,
                                                    h as int,
                                                    x as int,
                                                    y as int,
                                                );
                                                crate::world::lemma_grid_index(
                                                    w as int,
                                                    h as int,
                                                    nx as int,
                                                    ny as int,
                                                );
                                                let rid = react_id.0 as int;
                                                crate::reaction::lemma_first_reaction_index_symm(
                                                    defs,
                                                    mat.0 as int,
                                                    neigh_mat.0 as int,
                                                );
                                                assert(reaction_intent_sound(
                                                    defs,
                                                    gmats,
                                                    w as int,
                                                    it,
                                                ));
                                            }
                                            intents.push(it);
                                            emitted = true;
                                        }
                                    },
                                    None => {},
                                }
                            },
                            None => {},
                        }
                    }
                }
            }
            proof {
                assert(react_scan_spec(
                    defs,
                    gmats,
                    w as int,
                    h as int,
                    dir as int,
                    k + 1,
                    self.rng_b,
                ).0 == react_scan_spec(defs, gmats, w as int, h as int, dir as int, k + 1, self.rng_b).0);
                if emitted {
                    assert(intents@ + react_scan_spec(
                        defs,
                        gmats,
                        w as int,
                        h as int,
                        dir as int,
                        k + 1,
                        self.rng_b,
                    ).0 =~= pre_intents + (seq![intents@.last()] + react_scan_spec(
                        defs,
                        gmats,
                        w as int,
                        h as int,
                        dir as int,
                        k + 1,
                        self.rng_b,
                    ).0));
                }
            }
        }
        proof {
            assert(react_scan_spec(
                defs,
                gmats,
                w as int,
                h as int,
                dir as int,
                n as int,
                self.rng_b,
            ).0 =~= Seq::<CellIntent>::empty());
            assert(full.0 =~= intents@);
        }
        ModuleOutput::CellIntents { intents }
    }
}

/// In a world uniformly filled with one material that reacts with
/// nothing — not even itself — no reaction intent is sound, so the
/// module emits nothing.
pub proof fn lemma_reactions_quiet_when_uniform(
    defs: Seq<ReactionView>,
    mats: Seq<MaterialId>,
    w: int,
    m: MaterialId,
    it: CellIntent,
)
    requires
        forall|i: int| 0 <= i < mats.len() ==> #[trigger] mats[i] == m,
        first_reaction_index(defs, m.0 as int, m.0 as int) is None,
    ensures
        !reaction_intent_sound(defs, mats, w, it),
{
}

} // verus!
