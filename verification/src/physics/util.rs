//! Deterministic randomized traversal primitives.
//!
//! Iteration bias is a major source of visible artifacts in cellular
//! automata: rotating the scan direction each tick cancels directional
//! bias while preserving determinism, and visiting neighbors in a random
//! permutation does the same for local choices.

use vstd::prelude::*;

verus! {

use crate::physics::intent::Cell;
use crate::rng::{SimRng, rng_out, rng_step};

/// The four edge-adjacent neighbor offsets, in fixed scan order.
pub open spec fn neighbor_4(i: int) -> (isize, isize) {
    if i == 0 {
        (0isize, -1isize)
    } else if i == 1 {
        (-1isize, 0isize)
    } else if i == 2 {
        (1isize, 0isize)
    } else {
        (0isize, 1isize)
    }
}

/// The eight neighbor offsets, in fixed scan order.
pub open spec fn neighbor_8(i: int) -> (isize, isize) {
    if i == 0 {
        (-1isize, -1isize)
    } else if i == 1 {
        (0isize, -1isize)
    } else if i == 2 {
        (1isize, -1isize)
    } else if i == 3 {
        (-1isize, 0isize)
    } else if i == 4 {
        (1isize, 0isize)
    } else if i == 5 {
        (-1isize, 1isize)
    } else if i == 6 {
        (0isize, 1isize)
    } else {
        (1isize, 1isize)
    }
}

/// The `i`-th edge-adjacent neighbor offset.
pub fn get_neighbor_4(i: usize) -> (r: (isize, isize))
    requires
        i < 4,
    ensures
        r == neighbor_4(i as int),
{
    if i == 0 {
        (0, -1)
    } else if i == 1 {
        (-1, 0)
    } else if i == 2 {
        (1, 0)
    } else {
        (0, 1)
    }
}

/// The `i`-th neighbor offset of the eight-cell neighborhood.
pub fn get_neighbor_8(i: usize) -> (r: (isize, isize))
    requires
        i < 8,
    ensures
        r == neighbor_8(i as int),
{
    if i == 0 {
        (-1, -1)
    } else if i == 1 {
        (0, -1)
    } else if i == 2 {
        (1, -1)
    } else if i == 3 {
        (-1, 0)
    } else if i == 4 {
        (1, 0)
    } else if i == 5 {
        (-1, 1)
    } else if i == 6 {
        (0, 1)
    } else {
        (1, 1)
    }
}

/// The `k`-th cell of scan order `dir` over a `w` by `h` grid. The four
/// orders are row-major from each of the four corners.
pub open spec fn scan_cell_spec(dir: int, w: int, h: int, k: int) -> Cell {
    let row = k / w;
    let col = k % w;
    if dir == 0 {
        Cell { x: col as usize, y: row as usize }
    } else if dir == 1 {
        Cell { x: col as usize, y: (h - 1 - row) as usize }
    } else if dir == 2 {
        Cell { x: (w - 1 - col) as usize, y: (h - 1 - row) as usize }
    } else {
        Cell { x: (w - 1 - col) as usize, y: row as usize }
    }
}

/// The scan position of cell `(x, y)` in scan order `dir`.
pub open spec fn scan_index_spec(dir: int, w: int, h: int, x: int, y: int) -> int {
    if dir == 0 {
        y * w + x
    } else if dir == 1 {
        (h - 1 - y) * w + x
    } else if dir == 2 {
        (h - 1 - y) * w + (w - 1 - x)
    } else {
        y * w + (w - 1 - x)
    }
}

/// Row-major decomposition of an in-range index.
pub proof fn lemma_div_mod_grid(w: int, h: int, k: int)
    by (nonlinear_arith)
    requires
        w > 0,
        h > 0,
        0 <= k < w * h,
    ensures
        0 <= k / w < h,
        0 <= k % w < w,
        (k / w) * w + (k % w) == k,
{
}

/// Scan positions are in range and every scanned cell is on the grid.
pub proof fn lemma_scan_cell_in_range(dir: int, w: int, h: int, k: int)
    requires
        0 <= dir < 4,
        w > 0,
        h > 0,
        0 <= k < w * h,
    ensures
        scan_cell_spec(dir, w, h, k).x < w,
        scan_cell_spec(dir, w, h, k).y < h,
{
    lemma_div_mod_grid(w, h, k);
}

/// Every grid cell appears in every scan order, at its scan position.
pub proof fn lemma_scan_roundtrip(dir: int, w: int, h: int, x: int, y: int)
    requires
        0 <= dir < 4,
        0 <= x < w,
        0 <= y < h,
    ensures
        0 <= scan_index_spec(dir, w, h, x, y) < w * h,
        scan_cell_spec(dir, w, h, scan_index_spec(dir, w, h, x, y)) == (Cell {
            x: x as usize,
            y: y as usize,
        }),
{
    let row = if dir == 0 || dir == 3 {
        y
    } else {
        h - 1 - y
    };
    let col = if dir == 0 || dir == 1 {
        x
    } else {
        w - 1 - x
    };
    let k = scan_index_spec(dir, w, h, x, y);
    assert(k == row * w + col && 0 <= k < w * h && k / w == row && k % w == col)
        by (nonlinear_arith)
        requires
            0 <= row < h,
            0 <= col < w,
            k == row * w + col,
    ;
}

/// Distinct scan positions land on distinct cells.
pub proof fn lemma_scan_injective(dir: int, w: int, h: int, k1: int, k2: int)
    requires
        0 <= dir < 4,
        w > 0,
        h > 0,
        w <= usize::MAX,
        h <= usize::MAX,
        0 <= k1 < w * h,
        0 <= k2 < w * h,
        scan_cell_spec(dir, w, h, k1) == scan_cell_spec(dir, w, h, k2),
    ensures
        k1 == k2,
{
    lemma_div_mod_grid(w, h, k1);
    lemma_div_mod_grid(w, h, k2);
    assert(k1 == (k1 / w) * w + (k1 % w) && k2 == (k2 / w) * w + (k2 % w));
    assert(k1 / w == k2 / w && k1 % w == k2 % w);
}

/// The `k`-th cell of scan order `dir`.
pub fn scan_cell(dir: u64, w: usize, h: usize, k: usize) -> (r: Cell)
    requires
        dir < 4,
        w > 0,
        h > 0,
        k < w * h,
        w * h <= usize::MAX,
    ensures
        r == scan_cell_spec(dir as int, w as int, h as int, k as int),
        r.x < w,
        r.y < h,
{
    proof {
        lemma_div_mod_grid(w as int, h as int, k as int);
    }
    let row = k / w;
    let col = k % w;
    if dir == 0 {
        Cell { x: col, y: row }
    } else if dir == 1 {
        Cell { x: col, y: h - 1 - row }
    } else if dir == 2 {
        Cell { x: w - 1 - col, y: h - 1 - row }
    } else {
        Cell { x: w - 1 - col, y: row }
    }
}

/// Pick one of the four scan orders for this tick, uniformly at random.
pub fn pick_scan_dir(rng: &mut SimRng) -> (r: u64)
    ensures
        r == rng_out(*old(rng)) % 4,
        r < 4,
        *final(rng) == rng_step(*old(rng)),
{
    rng.next_below(4)
}

/// The stream state after `n` draws.
pub open spec fn rng_step_n(s: SimRng, n: nat) -> SimRng
    decreases n,
{
    if n == 0 {
        s
    } else {
        rng_step_n(rng_step(s), (n - 1) as nat)
    }
}

/// The offset table indexed by `random_dir_permutation`.
pub open spec fn neighbor_offset(use_4: bool, d: int) -> (isize, isize) {
    if use_4 {
        neighbor_4(d)
    } else {
        neighbor_8(d)
    }
}

/// `o` is one of the 4 or 8 neighbor offsets.
pub open spec fn is_neighbor_offset(use_4: bool, o: (isize, isize)) -> bool {
    exists|d: int|
        0 <= d < (if use_4 {
            4int
        } else {
            8int
        }) && o == neighbor_offset(use_4, d)
}

/// Distinct table positions hold distinct offsets.
proof fn lemma_neighbor_offset_injective(use_4: bool, d1: int, d2: int)
    requires
        0 <= d1 < (if use_4 {
            4int
        } else {
            8int
        }),
        0 <= d2 < (if use_4 {
            4int
        } else {
            8int
        }),
        d1 != d2,
    ensures
        neighbor_offset(use_4, d1) != neighbor_offset(use_4, d2),
{
}

/// The Fisher-Yates pick order over a pool of table positions: the
/// picked positions in draw order and the stream afterwards, one draw
/// per pick.
pub open spec fn fisher_yates_spec(rem: Seq<usize>, rng: SimRng) -> (Seq<usize>, SimRng)
    decreases rem.len(),
{
    if rem.len() == 0 {
        (Seq::empty(), rng)
    } else {
        let draw = (rng_out(rng) % (rem.len() as u64)) as int;
        let r = if 0 <= draw < rem.len() {
            draw
        } else {
            0
        };
        let picked = rem[r];
        let rest = fisher_yates_spec(rem.update(r, rem.last()).drop_last(), rng_step(rng));
        (seq![picked] + rest.0, rest.1)
    }
}

/// The exact permutation `random_dir_permutation` draws from a stream.
pub open spec fn dir_permutation_spec(use_4: bool, rng: SimRng) -> (Seq<(isize, isize)>, SimRng) {
    let count: int = if use_4 {
        4
    } else {
        8
    };
    let fy = fisher_yates_spec(Seq::new(count as nat, |i: int| i as usize), rng);
    (fy.0.map_values(|d: usize| neighbor_offset(use_4, d as int)), fy.1)
}

/// The 4 or 8 neighbor offsets in a uniformly random permutation
/// (Fisher-Yates over the fixed offset table): the result and the final
/// stream are exact functions of the starting stream; every entry is an
/// offset of the chosen neighborhood, no offset repeats, and the stream
/// advances by exactly one draw per entry.
pub fn random_dir_permutation(rng: &mut SimRng, use_4: bool) -> (r: Vec<(isize, isize)>)
    ensures
        r@.len() == if use_4 {
            4int
        } else {
            8int
        },
        forall|i: int| 0 <= i < r@.len() ==> is_neighbor_offset(use_4, #[trigger] r@[i]),
        forall|i: int, j: int| 0 <= i < r@.len() && 0 <= j < r@.len() && i != j ==> r@[i] != r@[j],
        *final(rng) == rng_step_n(*old(rng), r@.len() as nat),
        r@ == dir_permutation_spec(use_4, *old(rng)).0,
        *final(rng) == dir_permutation_spec(use_4, *old(rng)).1,
{
    let count: usize = if use_4 {
        4
    } else {
        8
    };
    let mut rem: Vec<usize> = Vec::new();
    for i in 0..count
        invariant
            rem@.len() == i,
            forall|j: int| 0 <= j < i ==> #[trigger] rem@[j] == j,
    {
        rem.push(i);
    }
    proof {
        assert(rem@ =~= Seq::new(count as nat, |i: int| i as usize));
    }
    let mut out: Vec<(isize, isize)> = Vec::new();
    let ghost rng0 = *rng;
    let ghost fy_full = fisher_yates_spec(rem@, rng0);
    let ghost mut picked: Seq<usize> = Seq::empty();
    let mut drawn: usize = 0;
    while rem.len() > 0
        invariant
            count == if use_4 {
                4usize
            } else {
                8usize
            },
            rem@.len() + out@.len() == count,
            drawn == out@.len(),
            picked.len() == out@.len(),
            forall|j: int| 0 <= j < rem@.len() ==> #[trigger] rem@[j] < count,
            forall|j1: int, j2: int|
                0 <= j1 < rem@.len() && 0 <= j2 < rem@.len() && j1 != j2 ==> rem@[j1] != rem@[j2],
            forall|i: int|
                0 <= i < picked.len() ==> (#[trigger] picked[i]) < count && out@[i]
                    == neighbor_offset(use_4, picked[i] as int),
            forall|i1: int, i2: int|
                0 <= i1 < picked.len() && 0 <= i2 < picked.len() && i1 != i2 ==> picked[i1]
                    != picked[i2],
            forall|j: int, i: int|
                0 <= j < rem@.len() && 0 <= i < picked.len() ==> rem@[j] != picked[i],
            *rng == rng_step_n(rng0, drawn as nat),
            fy_full == fisher_yates_spec(Seq::new(count as nat, |i: int| i as usize), rng0),
            fy_full.0 == picked + fisher_yates_spec(rem@, *rng).0,
            fy_full.1 == fisher_yates_spec(rem@, *rng).1,
        decreases rem@.len(),
    {
        let len = rem.len();
        let ri = rng.next_below(len as u64) as usize;
        proof {
            lemma_rng_step_n_snoc(rng0, drawn as nat);
        }
        drawn = drawn + 1;
        let idx = rem[ri];
        let last = rem[len - 1];
        let ghost rem_before = rem@;
        rem[ri] = last;
        rem.pop();
        let off = if use_4 {
            get_neighbor_4(idx)
        } else {
            get_neighbor_8(idx)
        };
        out.push(off);
        proof {
            assert(fisher_yates_spec(rem_before, rng_step_n(rng0, (drawn - 1) as nat)).0
                == seq![idx] + fisher_yates_spec(rem@, *rng).0);
            picked = picked.push(idx);
            assert(picked + fisher_yates_spec(rem@, *rng).0 =~= picked.drop_last() + (seq![idx]
                + fisher_yates_spec(rem@, *rng).0));
            assert(out@[out@.len() - 1] == neighbor_offset(use_4, idx as int));
        }
    }
    proof {
        assert(fisher_yates_spec(rem@, *rng).0 =~= Seq::<usize>::empty());
        assert(fy_full.0 =~= picked);
        assert(out@ =~= picked.map_values(|d: usize| neighbor_offset(use_4, d as int)));
        assert forall|i: int, j: int|
            0 <= i < out@.len() && 0 <= j < out@.len() && i != j implies out@[i] != out@[j] by {
            lemma_neighbor_offset_injective(use_4, picked[i] as int, picked[j] as int);
        }
        assert forall|i: int| 0 <= i < out@.len() implies is_neighbor_offset(
            use_4,
            #[trigger] out@[i],
        ) by {
            let d = picked[i] as int;
            assert(0 <= d < (if use_4 {
                4int
            } else {
                8int
            }) && out@[i] == neighbor_offset(use_4, d));
        }
    }
    out
}

/// Advancing `n + 1` draws is one more draw after `n`.
proof fn lemma_rng_step_n_snoc(s: SimRng, n: nat)
    ensures
        rng_step_n(s, n + 1) == rng_step(rng_step_n(s, n)),
    decreases n,
{
    if n == 0 {
        assert(rng_step_n(s, 1) == rng_step_n(rng_step(s), 0));
    } else {
        lemma_rng_step_n_snoc(rng_step(s), (n - 1) as nat);
        assert(rng_step_n(s, n + 1) == rng_step_n(rng_step(s), n));
        assert(rng_step_n(s, n) == rng_step_n(rng_step(s), (n - 1) as nat));
    }
}

} // verus!
