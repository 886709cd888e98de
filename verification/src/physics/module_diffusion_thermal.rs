//! Thermal diffusion module: computes a per-cell temperature delta from
//! cached edge conductances, and keeps those caches exactly consistent
//! with the material grid through incremental post-run refreshes.
//!
//! The conductance of an edge is the harmonic mean of the two adjacent
//! cells' diffusivities: a zero-diffusivity neighbor blocks heat flow
//! completely. Missing neighbors exchange nothing (open boundary).

use vstd::prelude::*;

verus! {

use crate::material::{DIFF_MAX, MaterialId, MaterialView};
use crate::physics::intent::ModuleOutput;
use crate::physics::util::{
    pick_scan_dir, scan_cell, lemma_scan_roundtrip, lemma_scan_injective, scan_index_spec,
};
use crate::rng::{SimRng, rng_step};
use crate::world::{CurrCtx, PostRunCtx, lemma_grid_index, mats_valid};
use crate::FIXED_ONE;

/// Row-major index of cell `(x, y)` in a grid `w` wide.
pub open spec fn gidx(w: int, x: int, y: int) -> int {
    y * w + x
}

/// Index of the horizontal edge between `(x, y)` and `(x + 1, y)`.
pub open spec fn hedge(w: int, x: int, y: int) -> int {
    y * (w - 1) + x
}

/// Harmonic mean `2ab / (a + b)`, and 0 when both inputs are 0.
pub open spec fn hmean_spec(a: int, b: int) -> int {
    if a + b == 0 {
        0
    } else {
        2 * a * b / (a + b)
    }
}

/// Fixed-point product scale-down, rounding toward zero.
pub open spec fn div_fixed_trunc(a: int) -> int {
    if a >= 0 {
        a / (FIXED_ONE as int)
    } else {
        -((-a) / (FIXED_ONE as int))
    }
}

/// The heat one neighbor at temperature `tn` contributes to a cell at
/// temperature `tl` across an edge of conductance `g`.
pub open spec fn flux_term(g: int, tn: int, tl: int) -> int {
    div_fixed_trunc(g * (tn - tl))
}

/// An integer clamped into the `i64` range.
pub open spec fn clamp_to_i64(v: int) -> i64 {
    if v > i64::MAX {
        i64::MAX
    } else if v < i64::MIN {
        i64::MIN
    } else {
        v as i64
    }
}

/// Reversing the edge reverses the sign of the flux exactly: truncation
/// toward zero is symmetric, so paired exchanges cancel.
pub proof fn lemma_flux_term_antisymmetric(g: int, ta: int, tb: int)
    ensures
        flux_term(g, ta, tb) == -flux_term(g, tb, ta),
{
    let s = FIXED_ONE as int;
    let x = g * (ta - tb);
    assert(g * (tb - ta) == -x) by (nonlinear_arith)
        requires
            x == g * (ta - tb),
    ;
    assert(0int / s == 0) by (nonlinear_arith)
        requires
            s > 0,
    ;
}

/// The harmonic mean of two clamped diffusivities is itself clamped, and
/// an insulator (diffusivity 0) gives conductance 0.
pub proof fn lemma_hmean_bounds(a: int, b: int)
    requires
        0 <= a <= DIFF_MAX,
        0 <= b <= DIFF_MAX,
    ensures
        0 <= hmean_spec(a, b) <= DIFF_MAX,
        a == 0 || b == 0 ==> hmean_spec(a, b) == 0,
{
    if a + b != 0 {
        assert(0 <= 2 * a * b && 2 * a * b <= (a + b) * DIFF_MAX) by (nonlinear_arith)
            requires
                0 <= a <= DIFF_MAX,
                0 <= b <= DIFF_MAX,
        ;
        vstd::arithmetic::div_mod::lemma_div_is_ordered(2 * a * b, (a + b) * DIFF_MAX, a + b);
        vstd::arithmetic::div_mod::lemma_div_by_multiple(DIFF_MAX as int, a + b);
        assert(((a + b) * DIFF_MAX) / (a + b) == (DIFF_MAX as int * (a + b)) / (a + b))
            by (nonlinear_arith);
        vstd::arithmetic::div_mod::lemma_div_pos_is_pos(2 * a * b, a + b);
        if a == 0 || b == 0 {
            if a == 0 {
                assert(2 * a * b == 0) by (nonlinear_arith)
                    requires
                        a == 0,
                ;
            } else {
                assert(2 * a * b == 0) by (nonlinear_arith)
                    requires
                        b == 0,
                ;
            }
            assert(hmean_spec(a, b) == 0int / (a + b));
            assert(0int / (a + b) == 0) by (nonlinear_arith)
                requires
                    a + b > 0,
            ;
        }
    }
}

/// Harmonic mean of two fixed-point diffusivities.
fn hmean(a: u32, b: u32) -> (g: u32)
    requires
        a <= DIFF_MAX,
        b <= DIFF_MAX,
    ensures
        g as int == hmean_spec(a as int, b as int),
        g <= DIFF_MAX,
{
    proof {
        lemma_hmean_bounds(a as int, b as int);
    }
    let s = (a as u64) + (b as u64);
    if s == 0 {
        0
    } else {
        proof {
            assert(2 * (a as int) * (b as int) <= 0x20000001) by (nonlinear_arith)
                requires
                    0 <= a <= 16384,
                    0 <= b <= 16384,
            ;
        }
        ((2 * (a as u64) * (b as u64)) / s) as u32
    }
}

/// One neighbor's flux contribution, computed exactly in wide integers.
fn calc_flux_term(g: u32, tn: i64, tl: i64) -> (r: i128)
    requires
        g <= DIFF_MAX,
    ensures
        r as int == flux_term(g as int, tn as int, tl as int),
        -0x80000000000000000000i128 <= r <= 0x80000000000000000000i128,
{
    let dt: i128 = (tn as i128) - (tl as i128);
    if dt >= 0 {
        proof {
            assert(0 <= (g as int) * (dt as int) <= 0x80000000000000000000) by (nonlinear_arith)
                requires
                    0 <= g <= 16384,
                    0 <= dt <= 0x20000000000000000,
            ;
        }
        let q: u128 = ((g as u128) * (dt as u128)) / (FIXED_ONE as u128);
        proof {
            vstd::arithmetic::div_mod::lemma_div_is_ordered(
                0,
                (g as int) * (dt as int),
                FIXED_ONE as int,
            );
            vstd::arithmetic::div_mod::lemma_div_is_ordered(
                (g as int) * (dt as int),
                0x80000000000000000000,
                FIXED_ONE as int,
            );
            vstd::arithmetic::div_mod::lemma_div_pos_is_pos((g as int) * (dt as int), FIXED_ONE as int);
        }
        q as i128
    } else {
        let m: u128 = (-dt) as u128;
        proof {
            assert(0 <= (g as int) * (m as int) <= 0x80000000000000000000 && (g as int) * (
            dt as int) == -((g as int) * (m as int))) by (nonlinear_arith)
                requires
                    0 <= g <= 16384,
                    0 <= m <= 0x20000000000000000,
                    dt as int == -(m as int),
            ;
        }
        let q: u128 = ((g as u128) * m) / (FIXED_ONE as u128);
        proof {
            vstd::arithmetic::div_mod::lemma_div_is_ordered(
                (g as int) * (m as int),
                0x80000000000000000000,
                FIXED_ONE as int,
            );
            vstd::arithmetic::div_mod::lemma_div_pos_is_pos((g as int) * (m as int), FIXED_ONE as int);
        }
        -(q as i128)
    }
}

/// A wide flux sum clamped into the temperature representation.
fn clamp_flux(v: i128) -> (r: i64)
    ensures
        r == clamp_to_i64(v as int),
{
    if v > i64::MAX as i128 {
        i64::MAX
    } else if v < i64::MIN as i128 {
        i64::MIN
    } else {
        v as i64
    }
}

/// The thermal diffusion module: a private stream, a packed copy of the
/// per-material diffusivities, and the two edge conductance caches
/// together with (ghost) the material grid they were computed from.
pub struct ModuleDiffusionThermal {
    pub rng: SimRng,
    pub w: usize,
    pub h: usize,
    pub diff_of: Vec<u32>,
    pub gx: Vec<u32>,
    pub gy: Vec<u32>,
    pub grid: Ghost<Seq<MaterialId>>,
}

impl ModuleDiffusionThermal {
    /// The diffusivity of the cell at grid index `i` of `grid`.
    pub open spec fn diff_at(&self, grid: Seq<MaterialId>, i: int) -> int {
        self.diff_of@[grid[i].0 as int] as int
    }

    /// The packed diffusivity copy matches the registry.
    pub open spec fn wf(&self, mats: Seq<MaterialView>) -> bool {
        &&& self.w > 0
        &&& self.h > 0
        &&& self.w * self.h <= isize::MAX
        &&& self.diff_of@.len() == mats.len()
        &&& forall|i: int|
            0 <= i < mats.len() ==> #[trigger] self.diff_of@[i] == mats[i].diffusivity
        &&& forall|i: int| 0 <= i < mats.len() ==> #[trigger] self.diff_of@[i] <= DIFF_MAX
    }

    /// Conductance consistency: every cached edge conductance is the
    /// harmonic mean of its two cells' diffusivities over the grid the
    /// cache was computed from.
    pub open spec fn consistent(&self) -> bool {
        let w = self.w as int;
        let h = self.h as int;
        &&& self.grid@.len() == w * h
        &&& mats_valid(self.grid@, self.diff_of@.len() as nat)
        &&& self.gx@.len() == (w - 1) * h
        &&& self.gy@.len() == w * (h - 1)
        &&& forall|x: int, y: int|
            0 <= x < w - 1 && 0 <= y < h ==> #[trigger] self.gx@[hedge(w, x, y)] as int
                == hmean_spec(
                self.diff_at(self.grid@, gidx(w, x, y)),
                self.diff_at(self.grid@, gidx(w, x + 1, y)),
            )
        &&& forall|x: int, y: int|
            0 <= x < w && 0 <= y < h - 1 ==> #[trigger] self.gy@[gidx(w, x, y)] as int
                == hmean_spec(
                self.diff_at(self.grid@, gidx(w, x, y)),
                self.diff_at(self.grid@, gidx(w, x, y + 1)),
            )
    }

    /// The exact per-cell temperature delta: the sum of the flux across
    /// each in-bounds incident edge. Missing neighbors exchange nothing.
    pub open spec fn diffusion_flux(&self, temps: Seq<i64>, x: int, y: int) -> int {
        let w = self.w as int;
        let h = self.h as int;
        let t = temps[gidx(w, x, y)] as int;
        (if y > 0 {
            flux_term(self.gy@[gidx(w, x, y - 1)] as int, temps[gidx(w, x, y - 1)] as int, t)
        } else {
            0
        }) + (if y < h - 1 {
            flux_term(self.gy@[gidx(w, x, y)] as int, temps[gidx(w, x, y + 1)] as int, t)
        } else {
            0
        }) + (if x > 0 {
            flux_term(self.gx@[hedge(w, x - 1, y)] as int, temps[gidx(w, x - 1, y)] as int, t)
        } else {
            0
        }) + (if x < w - 1 {
            flux_term(self.gx@[hedge(w, x, y)] as int, temps[gidx(w, x + 1, y)] as int, t)
        } else {
            0
        })
    }

    /// A fresh module: diffusivities copied from the registry and every
    /// edge conductance computed from the current material grid.
    pub fn new(curr: &CurrCtx<'_>, rng_seed: u64) -> (r: Self)
        requires
            curr.wf(),
            curr.w > 0,
            curr.h > 0,
        ensures
            r.wf(curr.mat_db@),
            r.consistent(),
            r.grid@ == curr.cell_mat_ids@,
            r.w == curr.w,
            r.h == curr.h,
            r.rng == crate::rng::seed_spec(rng_seed),
    {
        let w = curr.w;
        let h = curr.h;
        let ghost gmats = curr.cell_mat_ids@;
        let table = curr.mat_db.get_diffusivity_of();
        let mut diff_of: Vec<u32> = Vec::new();
        let nm = table.len();
        for i in 0..nm
            invariant
                nm == table@.len(),
                table@.len() == curr.mat_db@.len(),
                forall|j: int| 0 <= j < nm ==> #[trigger] table@[j] == curr.mat_db@[j].diffusivity,
                curr.wf(),
                diff_of@.len() == i,
                forall|j: int| 0 <= j < i ==> #[trigger] diff_of@[j] == table@[j],
        {
            let v = table[i];
            diff_of.push(v);
        }
        let mut gx: Vec<u32> = Vec::new();
        let mut gy: Vec<u32> = Vec::new();
        proof {
            assert(0int * (w as int - 1) == 0 && 0int * (w as int) == 0) by (nonlinear_arith);
        }
        for y in 0..h
            invariant
                curr.wf(),
                w == curr.w,
                h == curr.h,
                w > 0,
                h > 0,
                gmats == curr.cell_mat_ids@,
                diff_of@.len() == curr.mat_db@.len(),
                forall|j: int|
                    0 <= j < diff_of@.len() ==> #[trigger] diff_of@[j] == curr.mat_db@[j].diffusivity,
                gx@.len() == y * (w - 1),
                forall|xx: int, yy: int|
                    0 <= xx < w - 1 && 0 <= yy < y ==> #[trigger] gx@[hedge(w as int, xx, yy)] as int
                        == hmean_spec(
                        diff_of@[gmats[gidx(w as int, xx, yy)].0 as int] as int,
                        diff_of@[gmats[gidx(w as int, xx + 1, yy)].0 as int] as int,
                    ),
        {
            for x in 0..w - 1
                invariant
                    curr.wf(),
                    w == curr.w,
                    h == curr.h,
                    w > 0,
                    h > 0,
                    y < h,
                    gmats == curr.cell_mat_ids@,
                    diff_of@.len() == curr.mat_db@.len(),
                    forall|j: int|
                        0 <= j < diff_of@.len() ==> #[trigger] diff_of@[j]
                            == curr.mat_db@[j].diffusivity,
                    gx@.len() == y * (w - 1) + x,
                    forall|xx: int, yy: int|
                        0 <= xx < w - 1 && 0 <= yy < y ==> #[trigger] gx@[
                            hedge(w as int, xx, yy)
                        ] as int == hmean_spec(
                            diff_of@[gmats[gidx(w as int, xx, yy)].0 as int] as int,
                            diff_of@[gmats[gidx(w as int, xx + 1, yy)].0 as int] as int,
                        ),
                    forall|xx: int|
                        0 <= xx < x ==> #[trigger] gx@[hedge(w as int, xx, y as int)] as int
                            == hmean_spec(
                            diff_of@[gmats[gidx(w as int, xx, y as int)].0 as int] as int,
                            diff_of@[gmats[gidx(w as int, xx + 1, y as int)].0 as int] as int,
                        ),
            {
                proof {
                    lemma_grid_index(w as int, h as int, x as int, y as int);
                    lemma_grid_index(w as int, h as int, x + 1, y as int);
                }
                let ia = curr.get_mat_id(x, y);
                let ib = curr.get_mat_id(x + 1, y);
                let da = diff_of[ia.0 as usize];
                let db = diff_of[ib.0 as usize];
                let g = hmean(da, db);
                gx.push(g);
                proof {
                    assert forall|xx: int, yy: int|
                        0 <= xx < w - 1 && 0 <= yy < y implies #[trigger] gx@[
                        hedge(w as int, xx, yy)
                    ] as int == hmean_spec(
                        diff_of@[gmats[gidx(w as int, xx, yy)].0 as int] as int,
                        diff_of@[gmats[gidx(w as int, xx + 1, yy)].0 as int] as int,
                    ) by {
                        lemma_grid_index(w as int - 1, h as int, xx, yy);
                        assert(hedge(w as int, xx, yy) < y * (w - 1)) by (nonlinear_arith)
                            requires
                                0 <= xx < w - 1,
                                0 <= yy < y,
                        ;
                    }
                }
            }
            proof {
                assert((y as int + 1) * (w as int - 1) == y as int * (w as int - 1) + (
                w as int - 1)) by (nonlinear_arith);
            }
        }
        for y in 0..h - 1
            invariant
                curr.wf(),
                w == curr.w,
                h == curr.h,
                w > 0,
                h > 0,
                gmats == curr.cell_mat_ids@,
                diff_of@.len() == curr.mat_db@.len(),
                forall|j: int|
                    0 <= j < diff_of@.len() ==> #[trigger] diff_of@[j] == curr.mat_db@[j].diffusivity,
                gy@.len() == y * w,
                forall|xx: int, yy: int|
                    0 <= xx < w && 0 <= yy < y ==> #[trigger] gy@[gidx(w as int, xx, yy)] as int
                        == hmean_spec(
                        diff_of@[gmats[gidx(w as int, xx, yy)].0 as int] as int,
                        diff_of@[gmats[gidx(w as int, xx, yy + 1)].0 as int] as int,
                    ),
        {
            for x in 0..w
                invariant
                    curr.wf(),
                    w == curr.w,
                    h == curr.h,
                    w > 0,
                    h > 0,
                    y < h - 1,
                    gmats == curr.cell_mat_ids@,
                    diff_of@.len() == curr.mat_db@.len(),
                    forall|j: int|
                        0 <= j < diff_of@.len() ==> #[trigger] diff_of@[j]
                            == curr.mat_db@[j].diffusivity,
                    gy@.len() == y * w + x,
                    forall|xx: int, yy: int|
                        0 <= xx < w && 0 <= yy < y ==> #[trigger] gy@[gidx(w as int, xx, yy)] as int
                            == hmean_spec(
                            diff_of@[gmats[gidx(w as int, xx, yy)].0 as int] as int,
                            diff_of@[gmats[gidx(w as int, xx, yy + 1)].0 as int] as int,
                        ),
                    forall|xx: int|
                        0 <= xx < x ==> #[trigger] gy@[gidx(w as int, xx, y as int)] as int
                            == hmean_spec(
                            diff_of@[gmats[gidx(w as int, xx, y as int)].0 as int] as int,
                            diff_of@[gmats[gidx(w as int, xx, y as int + 1)].0 as int] as int,
                        ),
            {
                proof {
                    lemma_grid_index(w as int, h as int, x as int, y as int);
                    lemma_grid_index(w as int, h as int, x as int, y + 1);
                }
                let ia = curr.get_mat_id(x, y);
                let ib = curr.get_mat_id(x, y + 1);
                let g = hmean(diff_of[ia.0 as usize], diff_of[ib.0 as usize]);
                gy.push(g);
                proof {
                    assert forall|xx: int, yy: int|
                        0 <= xx < w && 0 <= yy < y implies #[trigger] gy@[
                        gidx(w as int, xx, yy)
                    ] as int == hmean_spec(
                        diff_of@[gmats[gidx(w as int, xx, yy)].0 as int] as int,
                        diff_of@[gmats[gidx(w as int, xx, yy + 1)].0 as int] as int,
                    ) by {
                        lemma_grid_index(w as int, h as int, xx, yy);
                        assert(gidx(w as int, xx, yy) < y * w) by (nonlinear_arith)
                            requires
                                0 <= xx < w,
                                0 <= yy < y,
                        ;
                    }
                }
            }
            proof {
                assert((y as int + 1) * (w as int) == y as int * (w as int) + (w as int))
                    by (nonlinear_arith);
            }
        }
        let r = ModuleDiffusionThermal {
            rng: SimRng::seed_from_u64(rng_seed),
            w,
            h,
            diff_of,
            gx,
            gy,
            grid: Ghost(curr.cell_mat_ids@),
        };
        proof {
            assert((h as int - 1) * (w as int) == (w as int) * (h as int - 1)) by (nonlinear_arith);
            assert((h as int) * (w as int - 1) == (w as int - 1) * (h as int)) by (nonlinear_arith);
        }
        r
    }
}

/// Cell index `i` occurs in the first `k` entries of `l`.
pub open spec fn touched(l: Seq<usize>, k: int, i: int) -> bool {
    exists|j: int| 0 <= j < k && l[j] == i
}

/// Distinct in-range cells have distinct row-major indices.
pub proof fn lemma_gidx_injective(w: int, h: int, x1: int, y1: int, x2: int, y2: int)
    by (nonlinear_arith)
    requires
        0 <= x1 < w,
        0 <= y1 < h,
        0 <= x2 < w,
        0 <= y2 < h,
        gidx(w, x1, y1) == gidx(w, x2, y2),
    ensures
        x1 == x2,
        y1 == y2,
{
}

/// Distinct in-range horizontal edges have distinct indices.
pub proof fn lemma_hedge_injective(w: int, h: int, x1: int, y1: int, x2: int, y2: int)
    by (nonlinear_arith)
    requires
        0 <= x1 < w - 1,
        0 <= y1 < h,
        0 <= x2 < w - 1,
        0 <= y2 < h,
        hedge(w, x1, y1) == hedge(w, x2, y2),
    ensures
        x1 == x2,
        y1 == y2,
{
}

/// There are no more edges than cells.
proof fn lemma_edge_counts(w: int, h: int)
    by (nonlinear_arith)
    requires
        w >= 1,
        h >= 1,
    ensures
        0 <= (w - 1) * h <= w * h,
        0 <= w * (h - 1) <= w * h,
{
}

impl ModuleDiffusionThermal {
    /// One tick: one scan-order draw, then the exact per-cell delta from
    /// the cached conductances and the committed temperatures. The scan
    /// order does not affect the result; each cell is written once.
    pub fn run(&mut self, curr: &CurrCtx<'_>) -> (out: ModuleOutput)
        requires
            curr.wf(),
            old(self).wf(curr.mat_db@),
            old(self).consistent(),
            old(self).w == curr.w,
            old(self).h == curr.h,
            old(self).grid@ == curr.cell_mat_ids@,
        ensures
            final(self).rng == rng_step(old(self).rng),
            final(self).w == old(self).w,
            final(self).h == old(self).h,
            final(self).gx == old(self).gx,
            final(self).gy == old(self).gy,
            final(self).diff_of == old(self).diff_of,
            final(self).grid == old(self).grid,
            final(self).wf(curr.mat_db@),
            final(self).consistent(),
            out matches ModuleOutput::DeltaTemp { delta_temp } && delta_temp@.len()
                == old(self).w * old(self).h && forall|x: int, y: int|
                0 <= x < old(self).w && 0 <= y < old(self).h ==> #[trigger] delta_temp@[
                    gidx(old(self).w as int, x, y)
                ] == clamp_to_i64(old(self).diffusion_flux(curr.cell_temps@, x, y)),
            crate::physics::intent::output_wf(
                out,
                curr.w as int,
                curr.h as int,
                curr.mat_db@.len(),
            ),
    {
        let w = self.w;
        let h = self.h;
        let ghost temps = curr.cell_temps@;
        let dir = pick_scan_dir(&mut self.rng);
        let mut delta: Vec<i64> = Vec::new();
        let n = w * h;
        for i in 0..n
            invariant
                n == w * h,
                delta@.len() == i,
        {
            delta.push(0i64);
        }
        for k in 0..n
            invariant
                n == w * h,
                w == self.w,
                h == self.h,
                w == curr.w,
                h == curr.h,
                w > 0,
                h > 0,
                dir < 4,
                curr.wf(),
                temps == curr.cell_temps@,
                self.rng == rng_step(old(self).rng),
                self.gx == old(self).gx,
                self.gy == old(self).gy,
                self.diff_of == old(self).diff_of,
                self.grid == old(self).grid,
                self.wf(curr.mat_db@),
                self.consistent(),
                self.grid@ == curr.cell_mat_ids@,
                delta@.len() == n,
                forall|x: int, y: int|
                    0 <= x < w && 0 <= y < h && scan_index_spec(dir as int, w as int, h as int, x, y)
                        < k ==> #[trigger] delta@[gidx(w as int, x, y)] == clamp_to_i64(
                        self.diffusion_flux(temps, x, y),
                    ),
        {
            let c = scan_cell(dir, w, h, k);
            let x = c.x;
            let y = c.y;
            proof {
                lemma_grid_index(w as int, h as int, x as int, y as int);
            }
            let i = y * w + x;
            let t = curr.get_temp(x, y);
            let mut flux: i128 = 0;
            if y > 0 {
                proof {
                    lemma_edge_counts(w as int, h as int);
                    lemma_grid_index(w as int, h as int - 1, x as int, y as int - 1);
                    lemma_grid_index(w as int, h as int, x as int, y as int - 1);
                    assert(self.gy@[gidx(w as int, x as int, y as int - 1)] as int == hmean_spec(
                        self.diff_at(self.grid@, gidx(w as int, x as int, y as int - 1)),
                        self.diff_at(self.grid@, gidx(w as int, x as int, y as int)),
                    ));
                    lemma_hmean_bounds(
                        self.diff_at(self.grid@, gidx(w as int, x as int, y as int - 1)),
                        self.diff_at(self.grid@, gidx(w as int, x as int, y as int)),
                    );
                }
                let g = self.gy[(y - 1) * w + x];
                let tn = curr.get_temp(x, y - 1);
                flux = flux + calc_flux_term(g, tn, t);
            }
            if y + 1 < h {
                proof {
                    lemma_edge_counts(w as int, h as int);
                    lemma_grid_index(w as int, h as int - 1, x as int, y as int);
                    lemma_grid_index(w as int, h as int, x as int, y as int + 1);
                    assert(self.gy@[gidx(w as int, x as int, y as int)] as int == hmean_spec(
                        self.diff_at(self.grid@, gidx(w as int, x as int, y as int)),
                        self.diff_at(self.grid@, gidx(w as int, x as int, y as int + 1)),
                    ));
                    lemma_hmean_bounds(
                        self.diff_at(self.grid@, gidx(w as int, x as int, y as int)),
                        self.diff_at(self.grid@, gidx(w as int, x as int, y as int + 1)),
                    );
                }
                let g = self.gy[y * w + x];
                let tn = curr.get_temp(x, y + 1);
                flux = flux + calc_flux_term(g, tn, t);
            }
            if x > 0 {
                proof {
                    lemma_edge_counts(w as int, h as int);
                    lemma_grid_index(w as int - 1, h as int, x as int - 1, y as int);
                    lemma_grid_index(w as int, h as int, x as int - 1, y as int);
                    assert(self.gx@[hedge(w as int, x as int - 1, y as int)] as int == hmean_spec(
                        self.diff_at(self.grid@, gidx(w as int, x as int - 1, y as int)),
                        self.diff_at(self.grid@, gidx(w as int, x as int, y as int)),
                    ));
                    lemma_hmean_bounds(
                        self.diff_at(self.grid@, gidx(w as int, x as int - 1, y as int)),
                        self.diff_at(self.grid@, gidx(w as int, x as int, y as int)),
                    );
                }
                let g = self.gx[y * (w - 1) + (x - 1)];
                let tn = curr.get_temp(x - 1, y);
                flux = flux + calc_flux_term(g, tn, t);
            }
            if x + 1 < w {
                proof {
                    lemma_edge_counts(w as int, h as int);
                    lemma_grid_index(w as int - 1, h as int, x as int, y as int);
                    lemma_grid_index(w as int, h as int, x as int + 1, y as int);
                    assert(self.gx@[hedge(w as int, x as int, y as int)] as int == hmean_spec(
                        self.diff_at(self.grid@, gidx(w as int, x as int, y as int)),
                        self.diff_at(self.grid@, gidx(w as int, x as int + 1, y as int)),
                    ));
                    lemma_hmean_bounds(
                        self.diff_at(self.grid@, gidx(w as int, x as int, y as int)),
                        self.diff_at(self.grid@, gidx(w as int, x as int + 1, y as int)),
                    );
                }
                let g = self.gx[y * (w - 1) + x];
                let tn = curr.get_temp(x + 1, y);
                flux = flux + calc_flux_term(g, tn, t);
            }
            let v = clamp_flux(flux);
            proof {
                assert(flux as int == self.diffusion_flux(temps, x as int, y as int));
            }
            let ghost delta_before = delta@;
            delta[i] = v;
            proof {
                lemma_scan_roundtrip(dir as int, w as int, h as int, x as int, y as int);
                lemma_scan_injective(
                    dir as int,
                    w as int,
                    h as int,
                    scan_index_spec(dir as int, w as int, h as int, x as int, y as int),
                    k as int,
                );
                assert forall|xx: int, yy: int|
                    0 <= xx < w && 0 <= yy < h && scan_index_spec(
                        dir as int,
                        w as int,
                        h as int,
                        xx,
                        yy,
                    ) < k + 1 implies #[trigger] delta@[gidx(w as int, xx, yy)] == clamp_to_i64(
                    self.diffusion_flux(temps, xx, yy),
                ) by {
                    lemma_grid_index(w as int, h as int, xx, yy);
                    if scan_index_spec(dir as int, w as int, h as int, xx, yy) == k {
                        lemma_scan_roundtrip(dir as int, w as int, h as int, xx, yy);
                        lemma_gidx_injective(w as int, h as int, xx, yy, x as int, y as int);
                    } else {
                        if gidx(w as int, xx, yy) == gidx(w as int, x as int, y as int) {
                            lemma_gidx_injective(w as int, h as int, xx, yy, x as int, y as int);
                            lemma_scan_roundtrip(dir as int, w as int, h as int, xx, yy);
                        }
                        assert(delta@[gidx(w as int, xx, yy)] == delta_before[gidx(
                            w as int,
                            xx,
                            yy,
                        )]);
                    }
                }
            }
        }
        proof {
            assert forall|x: int, y: int| 0 <= x < w && 0 <= y < h implies #[trigger] delta@[
                gidx(w as int, x, y)
            ] == clamp_to_i64(self.diffusion_flux(temps, x, y)) by {
                lemma_scan_roundtrip(dir as int, w as int, h as int, x, y);
            }
        }
        ModuleOutput::DeltaTemp { delta_temp: delta }
    }

    /// Post-run refresh: recompute the four edges incident to each
    /// changed cell from the staged material grid. Because material
    /// changes are the only way edge conductances can change, and every
    /// other cell kept its material, this incremental refresh restores
    /// exact conductance consistency with the staged grid.
    #[verifier::rlimit(30)]
    pub fn post_run(&mut self, post: &PostRunCtx<'_>, changed_cells: &Vec<usize>)
        requires
            post.wf(),
            old(self).wf(post.mat_db@),
            old(self).consistent(),
            old(self).w == post.w,
            old(self).h == post.h,
            forall|j: int|
                0 <= j < changed_cells@.len() ==> (#[trigger] changed_cells@[j]) < post.w * post.h,
            forall|i: int|
                0 <= i < post.w * post.h && !touched(changed_cells@, changed_cells@.len() as int, i)
                    ==> post.next_mat_ids@[i] == old(self).grid@[i],
        ensures
            final(self).rng == old(self).rng,
            final(self).w == old(self).w,
            final(self).h == old(self).h,
            final(self).diff_of == old(self).diff_of,
            final(self).wf(post.mat_db@),
            final(self).grid@ == post.next_mat_ids@,
            final(self).consistent(),
    {
        let w = self.w;
        let h = self.h;
        let ghost full = changed_cells@;
        let ghost nmats = post.next_mat_ids@;
        let ghost len = changed_cells@.len() as int;
        let n = changed_cells.len();
        proof {
            assert forall|xx: int, yy: int|
                0 <= xx < w - 1 && 0 <= yy < h && (touched(full, 0int, gidx(w as int, xx, yy))
                    || touched(full, 0int, gidx(w as int, xx + 1, yy)) || (!touched(
                    full,
                    len,
                    gidx(w as int, xx, yy),
                ) && !touched(full, len, gidx(w as int, xx + 1, yy)))) implies #[trigger] self.gx@[
                hedge(w as int, xx, yy)
            ] as int == hmean_spec(
                self.diff_at(nmats, gidx(w as int, xx, yy)),
                self.diff_at(nmats, gidx(w as int, xx + 1, yy)),
            ) by {
                lemma_grid_index(w as int, h as int, xx, yy);
                lemma_grid_index(w as int, h as int, xx + 1, yy);
                lemma_grid_index(w as int - 1, h as int, xx, yy);
                assert(nmats[gidx(w as int, xx, yy)] == self.grid@[gidx(w as int, xx, yy)]);
                assert(nmats[gidx(w as int, xx + 1, yy)] == self.grid@[gidx(w as int, xx + 1, yy)]);
            }
            assert forall|xx: int, yy: int|
                0 <= xx < w && 0 <= yy < h - 1 && (touched(full, 0int, gidx(w as int, xx, yy))
                    || touched(full, 0int, gidx(w as int, xx, yy + 1)) || (!touched(
                    full,
                    len,
                    gidx(w as int, xx, yy),
                ) && !touched(full, len, gidx(w as int, xx, yy + 1)))) implies #[trigger] self.gy@[
                gidx(w as int, xx, yy)
            ] as int == hmean_spec(
                self.diff_at(nmats, gidx(w as int, xx, yy)),
                self.diff_at(nmats, gidx(w as int, xx, yy + 1)),
            ) by {
                lemma_grid_index(w as int, h as int, xx, yy);
                lemma_grid_index(w as int, h as int, xx, yy + 1);
                lemma_grid_index(w as int, h as int - 1, xx, yy);
                assert(nmats[gidx(w as int, xx, yy)] == self.grid@[gidx(w as int, xx, yy)]);
                assert(nmats[gidx(w as int, xx, yy + 1)] == self.grid@[gidx(w as int, xx, yy + 1)]);
            }
        }
        for k in 0..n
            invariant
                n == changed_cells@.len(),
                full == changed_cells@,
                nmats == post.next_mat_ids@,
                len == full.len(),
                w == self.w,
                h == self.h,
                w == post.w,
                h == post.h,
                post.wf(),
                self.wf(post.mat_db@),
                self.rng == old(self).rng,
                self.diff_of == old(self).diff_of,
                self.grid == old(self).grid,
                self.grid@.len() == w * h,
                mats_valid(self.grid@, self.diff_of@.len() as nat),
                self.gx@.len() == (w as int - 1) * h,
                self.gy@.len() == w as int * (h as int - 1),
                forall|j: int| 0 <= j < full.len() ==> (#[trigger] full[j]) < w * h,
                forall|i: int|
                    0 <= i < w * h && !touched(full, len, i) ==> nmats[i] == self.grid@[i],
                forall|xx: int, yy: int|
                    0 <= xx < w - 1 && 0 <= yy < h && (touched(full, k as int, gidx(w as int, xx, yy))
                        || touched(full, k as int, gidx(w as int, xx + 1, yy)) || (!touched(
                        full,
                        len,
                        gidx(w as int, xx, yy),
                    ) && !touched(full, len, gidx(w as int, xx + 1, yy)))) ==> #[trigger] self.gx@[
                        hedge(w as int, xx, yy)
                    ] as int == hmean_spec(
                        self.diff_at(nmats, gidx(w as int, xx, yy)),
                        self.diff_at(nmats, gidx(w as int, xx + 1, yy)),
                    ),
                forall|xx: int, yy: int|
                    0 <= xx < w && 0 <= yy < h - 1 && (touched(full, k as int, gidx(w as int, xx, yy))
                        || touched(full, k as int, gidx(w as int, xx, yy + 1)) || (!touched(
                        full,
                        len,
                        gidx(w as int, xx, yy),
                    ) && !touched(full, len, gidx(w as int, xx, yy + 1)))) ==> #[trigger] self.gy@[
                        gidx(w as int, xx, yy)
                    ] as int == hmean_spec(
                        self.diff_at(nmats, gidx(w as int, xx, yy)),
                        self.diff_at(nmats, gidx(w as int, xx, yy + 1)),
                    ),
        {
            let idx = changed_cells[k];
            proof {
                crate::physics::util::lemma_div_mod_grid(w as int, h as int, idx as int);
            }
            let x = idx % w;
            let y = idx / w;
            proof {
                assert(gidx(w as int, x as int, y as int) == idx);
            }
            let ghost gx_before = self.gx@;
            let ghost gy_before = self.gy@;
            if x > 0 {
                proof {
                    lemma_edge_counts(w as int, h as int);
                    lemma_grid_index(w as int - 1, h as int, x as int - 1, y as int);
                    lemma_grid_index(w as int, h as int, x as int - 1, y as int);
                }
                let da = self.diff_of[self.look_next(post, idx - 1).0 as usize];
                let db = self.diff_of[self.look_next(post, idx).0 as usize];
                let g = hmean(da, db);
                let e = y * (w - 1) + (x - 1);
                self.gx[e] = g;
            }
            if x + 1 < w {
                proof {
                    lemma_edge_counts(w as int, h as int);
                    lemma_grid_index(w as int - 1, h as int, x as int, y as int);
                    lemma_grid_index(w as int, h as int, x as int + 1, y as int);
                }
                let da = self.diff_of[self.look_next(post, idx).0 as usize];
                let db = self.diff_of[self.look_next(post, idx + 1).0 as usize];
                let g = hmean(da, db);
                let e = y * (w - 1) + x;
                self.gx[e] = g;
            }
            if y > 0 {
                proof {
                    lemma_edge_counts(w as int, h as int);
                    lemma_grid_index(w as int, h as int - 1, x as int, y as int - 1);
                    lemma_grid_index(w as int, h as int, x as int, y as int - 1);
                    assert(idx as int - w as int == gidx(w as int, x as int, y as int - 1))
                        by (nonlinear_arith)
                        requires
                            idx as int == y as int * w as int + x as int,
                    ;
                }
                let da = self.diff_of[self.look_next(post, idx - w).0 as usize];
                let db = self.diff_of[self.look_next(post, idx).0 as usize];
                let g = hmean(da, db);
                let e = (y - 1) * w + x;
                self.gy[e] = g;
            }
            if y + 1 < h {
                proof {
                    lemma_edge_counts(w as int, h as int);
                    lemma_grid_index(w as int, h as int - 1, x as int, y as int);
                    lemma_grid_index(w as int, h as int, x as int, y as int + 1);
                    assert(idx as int + w as int == gidx(w as int, x as int, y as int + 1))
                        by (nonlinear_arith)
                        requires
                            idx as int == y as int * w as int + x as int,
                    ;
                }
                let da = self.diff_of[self.look_next(post, idx).0 as usize];
                let db = self.diff_of[self.look_next(post, idx + w).0 as usize];
                let g = hmean(da, db);
                let e = y * w + x;
                self.gy[e] = g;
            }
            proof {
                assert forall|xx: int, yy: int|
                    0 <= xx < w - 1 && 0 <= yy < h && (touched(full, k + 1, gidx(w as int, xx, yy))
                        || touched(full, k + 1, gidx(w as int, xx + 1, yy)) || (!touched(
                        full,
                        len,
                        gidx(w as int, xx, yy),
                    ) && !touched(full, len, gidx(w as int, xx + 1, yy)))) implies #[trigger] self.gx@[
                    hedge(w as int, xx, yy)
                ] as int == hmean_spec(
                    self.diff_at(nmats, gidx(w as int, xx, yy)),
                    self.diff_at(nmats, gidx(w as int, xx + 1, yy)),
                ) by {
                    lemma_grid_index(w as int, h as int, xx, yy);
                    lemma_grid_index(w as int, h as int, xx + 1, yy);
                    lemma_grid_index(w as int - 1, h as int, xx, yy);
                    let left = gidx(w as int, xx, yy);
                    let right = gidx(w as int, xx + 1, yy);
                    if left == idx || right == idx {
                        // an edge incident to the refreshed cell: freshly
                        // written with staged-grid values
                        if left == idx {
                            lemma_gidx_injective(w as int, h as int, xx, yy, x as int, y as int);
                        } else {
                            lemma_gidx_injective(
                                w as int,
                                h as int,
                                xx + 1,
                                yy,
                                x as int,
                                y as int,
                            );
                        }
                        if x as int - 1 >= 0 && (x as int) < w - 1 && hedge(
                            w as int,
                            x as int - 1,
                            y as int,
                        ) == hedge(w as int, x as int, y as int) {
                            lemma_hedge_injective(
                                w as int,
                                h as int,
                                x as int - 1,
                                y as int,
                                x as int,
                                y as int,
                            );
                        }
                    } else {
                        // untouched edge this iteration: its value is
                        // unchanged, and its hypothesis already held
                        assert(self.gx@[hedge(w as int, xx, yy)] == gx_before[hedge(
                            w as int,
                            xx,
                            yy,
                        )]) by {
                            if x as int - 1 >= 0 && hedge(w as int, xx, yy) == hedge(
                                w as int,
                                x as int - 1,
                                y as int,
                            ) {
                                lemma_hedge_injective(
                                    w as int,
                                    h as int,
                                    xx,
                                    yy,
                                    x as int - 1,
                                    y as int,
                                );
                            }
                            if (x as int) < w - 1 && hedge(w as int, xx, yy) == hedge(
                                w as int,
                                x as int,
                                y as int,
                            ) {
                                lemma_hedge_injective(
                                    w as int,
                                    h as int,
                                    xx,
                                    yy,
                                    x as int,
                                    y as int,
                                );
                            }
                        }
                        if touched(full, k + 1, left) || touched(full, k + 1, right) {
                            let j = if touched(full, k + 1, left) {
                                choose|j: int| 0 <= j < k + 1 && full[j] == left
                            } else {
                                choose|j: int| 0 <= j < k + 1 && full[j] == right
                            };
                            if j == k {
                                assert(false);
                            } else {
                                assert(touched(full, k as int, left) || touched(
                                    full,
                                    k as int,
                                    right,
                                ));
                            }
                        }
                    }
                }
                assert forall|xx: int, yy: int|
                    0 <= xx < w && 0 <= yy < h - 1 && (touched(full, k + 1, gidx(w as int, xx, yy))
                        || touched(full, k + 1, gidx(w as int, xx, yy + 1)) || (!touched(
                        full,
                        len,
                        gidx(w as int, xx, yy),
                    ) && !touched(full, len, gidx(w as int, xx, yy + 1)))) implies #[trigger] self.gy@[
                    gidx(w as int, xx, yy)
                ] as int == hmean_spec(
                    self.diff_at(nmats, gidx(w as int, xx, yy)),
                    self.diff_at(nmats, gidx(w as int, xx, yy + 1)),
                ) by {
                    lemma_grid_index(w as int, h as int, xx, yy);
                    lemma_grid_index(w as int, h as int, xx, yy + 1);
                    lemma_grid_index(w as int, h as int - 1, xx, yy);
                    let top = gidx(w as int, xx, yy);
                    let bot = gidx(w as int, xx, yy + 1);
                    if top == idx || bot == idx {
                        if top == idx {
                            lemma_gidx_injective(w as int, h as int, xx, yy, x as int, y as int);
                        } else {
                            lemma_gidx_injective(
                                w as int,
                                h as int,
                                xx,
                                yy + 1,
                                x as int,
                                y as int,
                            );
                        }
                        if y as int - 1 >= 0 && (y as int) < h - 1 && gidx(
                            w as int,
                            x as int,
                            y as int - 1,
                        ) == gidx(w as int, x as int, y as int) {
                            lemma_gidx_injective(
                                w as int,
                                h as int - 1,
                                x as int,
                                y as int - 1,
                                x as int,
                                y as int,
                            );
                        }
                    } else {
                        assert(self.gy@[gidx(w as int, xx, yy)] == gy_before[gidx(
                            w as int,
                            xx,
                            yy,
                        )]) by {
                            if y as int - 1 >= 0 && gidx(w as int, xx, yy) == gidx(
                                w as int,
                                x as int,
                                y as int - 1,
                            ) {
                                lemma_gidx_injective(
                                    w as int,
                                    h as int - 1,
                                    xx,
                                    yy,
                                    x as int,
                                    y as int - 1,
                                );
                            }
                            if (y as int) < h - 1 && gidx(w as int, xx, yy) == gidx(
                                w as int,
                                x as int,
                                y as int,
                            ) {
                                lemma_gidx_injective(
                                    w as int,
                                    h as int - 1,
                                    xx,
                                    yy,
                                    x as int,
                                    y as int,
                                );
                            }
                        }
                        if touched(full, k + 1, top) || touched(full, k + 1, bot) {
                            let j = if touched(full, k + 1, top) {
                                choose|j: int| 0 <= j < k + 1 && full[j] == top
                            } else {
                                choose|j: int| 0 <= j < k + 1 && full[j] == bot
                            };
                            if j == k {
                                assert(false);
                            } else {
                                assert(touched(full, k as int, top) || touched(full, k as int, bot));
                            }
                        }
                    }
                }
            }
        }
        proof {
            self.grid = Ghost(nmats);
            assert forall|xx: int, yy: int| 0 <= xx < w - 1 && 0 <= yy < h implies #[trigger] self.gx@[
                hedge(w as int, xx, yy)
            ] as int == hmean_spec(
                self.diff_at(self.grid@, gidx(w as int, xx, yy)),
                self.diff_at(self.grid@, gidx(w as int, xx + 1, yy)),
            ) by {
                lemma_grid_index(w as int, h as int, xx, yy);
                lemma_grid_index(w as int, h as int, xx + 1, yy);
            }
            assert forall|xx: int, yy: int| 0 <= xx < w && 0 <= yy < h - 1 implies #[trigger] self.gy@[
                gidx(w as int, xx, yy)
            ] as int == hmean_spec(
                self.diff_at(self.grid@, gidx(w as int, xx, yy)),
                self.diff_at(self.grid@, gidx(w as int, xx, yy + 1)),
            ) by {
                lemma_grid_index(w as int, h as int, xx, yy);
                lemma_grid_index(w as int, h as int, xx, yy + 1);
            }
        }
    }

    /// The staged material id at a grid index.
    fn look_next(&self, post: &PostRunCtx<'_>, i: usize) -> (r: MaterialId)
        requires
            post.wf(),
            self.wf(post.mat_db@),
            self.w == post.w,
            self.h == post.h,
            i < post.w * post.h,
        ensures
            r == post.next_mat_ids@[i as int],
            r.0 < self.diff_of@.len(),
    {
        self.next_at(post, i)
    }

    /// Index into the staged material array.
    #[inline]
    fn next_at(&self, post: &PostRunCtx<'_>, i: usize) -> (r: MaterialId)
        requires
            post.wf(),
            i < post.w * post.h,
            self.diff_of@.len() == post.mat_db@.len(),
        ensures
            r == post.next_mat_ids@[i as int],
            r.0 < self.diff_of@.len(),
    {
        post.next_mat_ids[i]
    }
}

impl ModuleDiffusionThermal {
    /// A cell at a world corner exchanges heat with its two in-bounds
    /// neighbors and none else: its delta is exactly the sum of the two
    /// in-bounds edge terms.
    pub proof fn lemma_corner_two_neighbors(&self, temps: Seq<i64>, x: int, y: int)
        requires
            self.consistent(),
            self.w >= 2,
            self.h >= 2,
            x == 0 || x == self.w - 1,
            y == 0 || y == self.h - 1,
        ensures
            ({
                let w = self.w as int;
                let h = self.h as int;
                let t = temps[gidx(w, x, y)] as int;
                let xn = if x == 0 {
                    x + 1
                } else {
                    x - 1
                };
                let yn = if y == 0 {
                    y + 1
                } else {
                    y - 1
                };
                let hterm = flux_term(
                    self.gx@[hedge(w, if x == 0 {
                        x
                    } else {
                        x - 1
                    }, y)] as int,
                    temps[gidx(w, xn, y)] as int,
                    t,
                );
                let vterm = flux_term(
                    self.gy@[gidx(w, x, if y == 0 {
                        y
                    } else {
                        y - 1
                    })] as int,
                    temps[gidx(w, x, yn)] as int,
                    t,
                );
                self.diffusion_flux(temps, x, y) == hterm + vterm
            }),
    {
    }

    /// An insulator cell (diffusivity 0) produces zero flux across every
    /// incident edge: all its incident edge conductances are zero and its
    /// own delta is zero.
    pub proof fn lemma_insulator_no_flux(&self, temps: Seq<i64>, x: int, y: int)
        requires
            self.consistent(),
            forall|i: int|
                0 <= i < self.diff_of@.len() ==> #[trigger] self.diff_of@[i] <= DIFF_MAX,
            0 <= x < self.w,
            0 <= y < self.h,
            self.diff_at(self.grid@, gidx(self.w as int, x, y)) == 0,
        ensures
            x > 0 ==> self.gx@[hedge(self.w as int, x - 1, y)] == 0,
            x < self.w - 1 ==> self.gx@[hedge(self.w as int, x, y)] == 0,
            y > 0 ==> self.gy@[gidx(self.w as int, x, y - 1)] == 0,
            y < self.h - 1 ==> self.gy@[gidx(self.w as int, x, y)] == 0,
            self.diffusion_flux(temps, x, y) == 0,
    {
        let w = self.w as int;
        let h = self.h as int;
        crate::world::lemma_grid_index(w, h, x, y);
        let d0 = self.diff_at(self.grid@, gidx(w, x, y));
        if x > 0 {
            crate::world::lemma_grid_index(w, h, x - 1, y);
            lemma_hmean_bounds(self.diff_at(self.grid@, gidx(w, x - 1, y)), d0);
            lemma_flux_term_zero_conductance(temps[gidx(w, x - 1, y)] as int, temps[gidx(w, x, y)] as int);
        }
        if x < w - 1 {
            crate::world::lemma_grid_index(w, h, x + 1, y);
            lemma_hmean_bounds(d0, self.diff_at(self.grid@, gidx(w, x + 1, y)));
            lemma_flux_term_zero_conductance(temps[gidx(w, x + 1, y)] as int, temps[gidx(w, x, y)] as int);
        }
        if y > 0 {
            crate::world::lemma_grid_index(w, h, x, y - 1);
            lemma_hmean_bounds(self.diff_at(self.grid@, gidx(w, x, y - 1)), d0);
            lemma_flux_term_zero_conductance(temps[gidx(w, x, y - 1)] as int, temps[gidx(w, x, y)] as int);
        }
        if y < h - 1 {
            crate::world::lemma_grid_index(w, h, x, y + 1);
            lemma_hmean_bounds(d0, self.diff_at(self.grid@, gidx(w, x, y + 1)));
            lemma_flux_term_zero_conductance(temps[gidx(w, x, y + 1)] as int, temps[gidx(w, x, y)] as int);
        }
    }
}

/// No conductance, no flux.
pub proof fn lemma_flux_term_zero_conductance(tn: int, tl: int)
    ensures
        flux_term(0, tn, tl) == 0,
{
    assert(0int * (tn - tl) == 0) by (nonlinear_arith);
    assert(0int / (FIXED_ONE as int) == 0) by (nonlinear_arith);
}

/// Sum of the first `k` entries of a sequence of integers.
pub open spec fn sum_prefix(s: Seq<int>, k: int) -> int
    decreases k,
{
    if k <= 0 {
        0
    } else {
        sum_prefix(s, k - 1) + s[k - 1]
    }
}

/// Sums add pointwise.
proof fn lemma_sum_pointwise_add(a: Seq<int>, b: Seq<int>, c: Seq<int>, k: int)
    requires
        forall|i: int| 0 <= i < k ==> #[trigger] c[i] == a[i] + b[i],
    ensures
        sum_prefix(c, k) == sum_prefix(a, k) + sum_prefix(b, k),
    decreases k,
{
    if k > 0 {
        lemma_sum_pointwise_add(a, b, c, k - 1);
    }
}

/// A sequence that is the negated, `d`-shifted image of another sums to
/// the negation of the other's shortened sum.
proof fn lemma_sum_shifted_negation(a: Seq<int>, b: Seq<int>, d: int, k: int)
    requires
        d > 0,
        forall|i: int|
            0 <= i < k ==> #[trigger] a[i] == if i < d {
                0
            } else {
                -b[i - d]
            },
    ensures
        sum_prefix(a, k) == -sum_prefix(b, k - d),
    decreases k,
{
    if k > 0 {
        lemma_sum_shifted_negation(a, b, d, k - 1);
    }
}

/// Trailing zero entries do not change a sum.
proof fn lemma_sum_zero_tail(b: Seq<int>, k1: int, k2: int)
    requires
        k1 <= k2,
        forall|j: int| k1 <= j < k2 ==> #[trigger] b[j] == 0,
    ensures
        sum_prefix(b, k2) == sum_prefix(b, k1),
    decreases k2 - k1,
{
    if k1 < k2 {
        lemma_sum_zero_tail(b, k1, k2 - 1);
    }
}

impl ModuleDiffusionThermal {
    /// The flux a cell receives across its upper edge, by cell index.
    pub open spec fn up_term(&self, temps: Seq<i64>, i: int) -> int {
        let w = self.w as int;
        let x = i % w;
        let y = i / w;
        if y > 0 {
            flux_term(self.gy@[gidx(w, x, y - 1)] as int, temps[i - w] as int, temps[i] as int)
        } else {
            0
        }
    }

    /// The flux a cell receives across its lower edge, by cell index.
    pub open spec fn down_term(&self, temps: Seq<i64>, i: int) -> int {
        let w = self.w as int;
        let h = self.h as int;
        let x = i % w;
        let y = i / w;
        if y < h - 1 {
            flux_term(self.gy@[gidx(w, x, y)] as int, temps[i + w] as int, temps[i] as int)
        } else {
            0
        }
    }

    /// The flux a cell receives across its left edge, by cell index.
    pub open spec fn left_term(&self, temps: Seq<i64>, i: int) -> int {
        let w = self.w as int;
        let x = i % w;
        let y = i / w;
        if x > 0 {
            flux_term(self.gx@[hedge(w, x - 1, y)] as int, temps[i - 1] as int, temps[i] as int)
        } else {
            0
        }
    }

    /// The flux a cell receives across its right edge, by cell index.
    pub open spec fn right_term(&self, temps: Seq<i64>, i: int) -> int {
        let w = self.w as int;
        let x = i % w;
        let y = i / w;
        if x < w - 1 {
            flux_term(self.gx@[hedge(w, x, y)] as int, temps[i + 1] as int, temps[i] as int)
        } else {
            0
        }
    }

    /// Diffusion conserves total heat: over the whole grid — whose
    /// missing neighbors exchange nothing, so the world is a closed
    /// region — the per-cell fluxes sum to exactly zero. Truncation
    /// toward zero makes the two sides of every edge cancel exactly,
    /// whatever the conductances are.
    pub proof fn lemma_diffusion_conserves(&self, temps: Seq<i64>)
        requires
            self.w > 0,
            self.h > 0,
        ensures
            ({
                let w = self.w as int;
                let h = self.h as int;
                let flux = Seq::new(
                    (w * h) as nat,
                    |i: int| self.diffusion_flux(temps, i % w, i / w),
                );
                sum_prefix(flux, w * h) == 0
            }),
    {
        let w = self.w as int;
        let h = self.h as int;
        let n = w * h;
        let flux = Seq::new(n as nat, |i: int| self.diffusion_flux(temps, i % w, i / w));
        let up = Seq::new(n as nat, |i: int| self.up_term(temps, i));
        let down = Seq::new(n as nat, |i: int| self.down_term(temps, i));
        let left = Seq::new(n as nat, |i: int| self.left_term(temps, i));
        let right = Seq::new(n as nat, |i: int| self.right_term(temps, i));
        let vertical = Seq::new(n as nat, |i: int| self.up_term(temps, i) + self.down_term(temps, i));
        let horizontal = Seq::new(
            n as nat,
            |i: int| self.left_term(temps, i) + self.right_term(temps, i),
        );
        assert(n > 0 && n >= w && n >= h) by (nonlinear_arith)
            requires
                n == w * h,
                w > 0,
                h > 0,
        ;
        // Each cell's flux is the sum of its four directional terms.
        assert forall|i: int| 0 <= i < n implies #[trigger] flux[i] == vertical[i]
            + horizontal[i] by {
            crate::physics::util::lemma_div_mod_grid(w, h, i);
            let x = i % w;
            let y = i / w;
            assert(gidx(w, x, y) == i) by (nonlinear_arith)
                requires
                    i == (i / w) * w + (i % w),
                    x == i % w,
                    y == i / w,
            ;
            assert(i - w == gidx(w, x, y - 1) && i + w == gidx(w, x, y + 1) && i - 1 == gidx(
                w,
                x - 1,
                y,
            ) && i + 1 == gidx(w, x + 1, y)) by (nonlinear_arith)
                requires
                    i == y * w + x,
                    x == i % w,
                    y == i / w,
            ;
        }
        lemma_sum_pointwise_add(vertical, horizontal, flux, n);
        lemma_sum_pointwise_add(up, down, vertical, n);
        lemma_sum_pointwise_add(left, right, horizontal, n);
        // A cell's upper-edge flux is the exact negation of the cell
        // above's lower-edge flux: vertical terms cancel in pairs.
        assert forall|i: int| 0 <= i < n implies #[trigger] up[i] == (if i < w {
            0
        } else {
            -down[i - w]
        }) by {
            crate::physics::util::lemma_div_mod_grid(w, h, i);
            if i >= w {
                let x = i % w;
                let y = i / w;
                assert(y >= 1) by (nonlinear_arith)
                    requires
                        i >= w,
                        i == y * w + x,
                        0 <= x < w,
                        w > 0,
                        y >= 0,
                ;
                assert((i - w) % w == x && (i - w) / w == y - 1) by (nonlinear_arith)
                    requires
                        i == y * w + x,
                        0 <= x < w,
                        1 <= y,
                ;
                lemma_flux_term_antisymmetric(
                    self.gy@[gidx(w, x, y - 1)] as int,
                    temps[i - w] as int,
                    temps[i] as int,
                );
            } else {
                assert(i / w == 0) by (nonlinear_arith)
                    requires
                        0 <= i < w,
                ;
            }
        }
        lemma_sum_shifted_negation(up, down, w, n);
        // Cells in the bottom row have no lower edge.
        assert forall|j: int| n - w <= j < n implies #[trigger] down[j] == 0 by {
            crate::physics::util::lemma_div_mod_grid(w, h, j);
            assert(j / w == h - 1) by (nonlinear_arith)
                requires
                    w * h - w <= j < w * h,
                    w > 0,
                    h > 0,
                    j == (j / w) * w + (j % w),
                    0 <= j % w < w,
                    0 <= j / w < h,
            ;
        }
        lemma_sum_zero_tail(down, n - w, n);
        // A cell's left-edge flux is the exact negation of its left
        // neighbor's right-edge flux; at row starts both sides are zero.
        assert forall|i: int| 0 <= i < n implies #[trigger] left[i] == (if i < 1 {
            0
        } else {
            -right[i - 1]
        }) by {
            crate::physics::util::lemma_div_mod_grid(w, h, i);
            if i >= 1 {
                let x = i % w;
                let y = i / w;
                if x > 0 {
                    assert((i - 1) % w == x - 1 && (i - 1) / w == y) by (nonlinear_arith)
                        requires
                            i == y * w + x,
                            1 <= x < w,
                            0 <= y < h,
                    ;
                    lemma_flux_term_antisymmetric(
                        self.gx@[hedge(w, x - 1, y)] as int,
                        temps[i - 1] as int,
                        temps[i] as int,
                    );
                } else {
                    // Row start: the previous cell ends its row, so its
                    // right edge does not exist either.
                    assert(y >= 1) by (nonlinear_arith)
                        requires
                            i >= 1,
                            i == y * w,
                            w > 0,
                            y >= 0,
                    ;
                    assert((i - 1) % w == w - 1) by (nonlinear_arith)
                        requires
                            i == y * w,
                            1 <= y,
                            w > 0,
                    ;
                }
            }
        }
        lemma_sum_shifted_negation(left, right, 1, n);
        // The last cell ends its row: no right edge.
        assert forall|j: int| n - 1 <= j < n implies #[trigger] right[j] == 0 by {
            crate::physics::util::lemma_div_mod_grid(w, h, j);
            assert(j % w == w - 1) by (nonlinear_arith)
                requires
                    j == w * h - 1,
                    w > 0,
                    h > 0,
                    j == (j / w) * w + (j % w),
                    0 <= j % w < w,
                    0 <= j / w < h,
            ;
        }
        lemma_sum_zero_tail(right, n - 1, n);
    }
}

} // verus!
