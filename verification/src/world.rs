//! The world: double-buffered per-cell arrays plus the registries, and the
//! context views the engine serves during a tick.
//!
//! During the parallel gather phase modules see only [`CurrCtx`], a
//! read-only view of the committed frame. During the serialized apply
//! phase only the engine holds [`NextCtx`], the staging frame taken out of
//! the world. During post-run modules receive [`PostRunCtx`], read-only
//! over both frames' material ids and the staged temperatures.

use vstd::prelude::*;

verus! {

use crate::material::{Material, MaterialDb, MaterialId};
use crate::reaction::ReactionDb;
use crate::sim::{DoubleBuffer, Entity, Snapshot};

/// Every cell's material id references an existing material.
pub open spec fn mats_valid(mats: Seq<MaterialId>, count: nat) -> bool {
    forall|i: int| 0 <= i < mats.len() ==> (#[trigger] mats[i]).0 < count
}

/// A grid coordinate's row-major index lies inside the grid.
pub proof fn lemma_grid_index(w: int, h: int, x: int, y: int)
    by (nonlinear_arith)
    requires
        0 <= x < w,
        0 <= y < h,
    ensures
        0 <= y * w + x < w * h,
{
}

/// Convert a 2D coordinate to its row-major 1D index.
#[inline]
pub fn index(w: usize, x: usize, y: usize) -> (r: usize)
    requires
        y * w + x <= usize::MAX,
    ensures
        r == y * w + x,
{
    y * w + x
}

/// Is `(x, y)` inside a `w` by `h` grid?
#[inline]
pub fn contains(w: usize, h: usize, x: usize, y: usize) -> (r: bool)
    ensures
        r == (x < w && y < h),
{
    x < w && y < h
}

/// A vector of `n` copies of `v`.
fn filled_vec<T: Copy>(n: usize, v: T) -> (r: Vec<T>)
    ensures
        r@.len() == n,
        forall|i: int| 0 <= i < n ==> #[trigger] r@[i] == v,
{
    let mut out: Vec<T> = Vec::new();
    for i in 0..n
        invariant
            out@.len() == i,
            forall|j: int| 0 <= j < i ==> #[trigger] out@[j] == v,
    {
        out.push(v);
    }
    out
}

/// The world: dimensions, double-buffered cell state, and the registries.
/// Created at startup, mutated only by the engine's tick loop.
pub struct World {
    pub w: usize,
    pub h: usize,
    pub cell_mat_ids: DoubleBuffer<MaterialId>,
    pub cell_temps: DoubleBuffer<i64>,
    pub entities: DoubleBuffer<Entity>,
    pub mat_db: MaterialDb,
    pub react_db: ReactionDb,
}

impl World {
    /// Well-formedness at a tick boundary: every per-cell array covers the
    /// grid, the registries are coherent, and every stored material id
    /// references an existing material.
    pub open spec fn wf(&self) -> bool {
        &&& self.w * self.h <= isize::MAX
        &&& self.cell_mat_ids.cur@.len() == self.w * self.h
        &&& self.cell_mat_ids.next@.len() == self.w * self.h
        &&& self.cell_temps.cur@.len() == self.w * self.h
        &&& self.cell_temps.next@.len() == self.w * self.h
        &&& self.entities.cur@.len() == self.w * self.h
        &&& self.entities.next@.len() == self.w * self.h
        &&& self.mat_db.wf()
        &&& self.react_db.wf()
        &&& self.react_db@.mat_count == self.mat_db@.len()
        &&& self.mat_db@.len() > 0
        &&& mats_valid(self.cell_mat_ids.cur@, self.mat_db@.len())
        &&& mats_valid(self.cell_mat_ids.next@, self.mat_db@.len())
    }

    /// A fresh world: every cell holds the default material (id 0) at
    /// temperature zero.
    pub fn new(w: usize, h: usize, mat_db: MaterialDb, react_db: ReactionDb) -> (r: World)
        requires
            w * h <= isize::MAX,
            mat_db.wf(),
            react_db.wf(),
            react_db@.mat_count == mat_db@.len(),
            mat_db@.len() > 0,
        ensures
            r.wf(),
            r.w == w,
            r.h == h,
            r.mat_db == mat_db,
            r.react_db == react_db,
            forall|i: int| 0 <= i < w * h ==> #[trigger] r.cell_mat_ids.cur@[i] == MaterialId(0),
            forall|i: int| 0 <= i < w * h ==> #[trigger] r.cell_temps.cur@[i] == 0i64,
            r.cell_mat_ids.next@ == r.cell_mat_ids.cur@,
            r.cell_temps.next@ == r.cell_temps.cur@,
            r.entities.next@ == r.entities.cur@,
    {
        let n = w * h;
        let mats = filled_vec(n, MaterialId(0));
        let temps = filled_vec(n, 0i64);
        let ents = filled_vec(n, Entity::empty());
        World {
            w,
            h,
            cell_mat_ids: DoubleBuffer::new(mats),
            cell_temps: DoubleBuffer::new(temps),
            entities: DoubleBuffer::new(ents),
            mat_db,
            react_db,
        }
    }

    /// Copy every committed frame into its staging frame.
    pub fn sync_all(&mut self)
        ensures
            final(self).w == old(self).w,
            final(self).h == old(self).h,
            final(self).mat_db == old(self).mat_db,
            final(self).react_db == old(self).react_db,
            final(self).cell_mat_ids.cur@ == old(self).cell_mat_ids.cur@,
            final(self).cell_mat_ids.next@ == old(self).cell_mat_ids.cur@,
            final(self).cell_temps.cur@ == old(self).cell_temps.cur@,
            final(self).cell_temps.next@ == old(self).cell_temps.cur@,
            final(self).entities.cur@ == old(self).entities.cur@,
            final(self).entities.next@ == old(self).entities.cur@,
    {
        self.cell_mat_ids.sync();
        self.cell_temps.sync();
        self.entities.sync();
    }

    /// Commit every staging frame.
    pub fn swap_all(&mut self)
        ensures
            final(self).w == old(self).w,
            final(self).h == old(self).h,
            final(self).mat_db == old(self).mat_db,
            final(self).react_db == old(self).react_db,
            final(self).cell_mat_ids.cur@ == old(self).cell_mat_ids.next@,
            final(self).cell_mat_ids.next@ == old(self).cell_mat_ids.cur@,
            final(self).cell_temps.cur@ == old(self).cell_temps.next@,
            final(self).cell_temps.next@ == old(self).cell_temps.cur@,
            final(self).entities.cur@ == old(self).entities.next@,
            final(self).entities.next@ == old(self).entities.cur@,
    {
        self.cell_mat_ids.swap();
        self.cell_temps.swap();
        self.entities.swap();
    }

    /// Material id of a committed cell; `None` out of bounds.
    pub fn get_curr_mat_id_at(&self, x: usize, y: usize) -> (r: Option<MaterialId>)
        requires
            self.wf(),
        ensures
            match r {
                Some(id) => x < self.w && y < self.h && id == self.cell_mat_ids.cur@[y * self.w
                    + x],
                None => !(x < self.w && y < self.h),
            },
    {
        if x < self.w && y < self.h {
            proof {
                lemma_grid_index(self.w as int, self.h as int, x as int, y as int);
            }
            Some(self.cell_mat_ids.cur[y * self.w + x])
        } else {
            None
        }
    }

    /// Material of a committed cell; `None` out of bounds.
    pub fn get_curr_mat_at(&self, x: usize, y: usize) -> (r: Option<&Material>)
        requires
            self.wf(),
        ensures
            match r {
                Some(m) => x < self.w && y < self.h && m@ == self.mat_db@[self.cell_mat_ids.cur@[y
                    * self.w + x].0 as int],
                None => !(x < self.w && y < self.h),
            },
    {
        match self.get_curr_mat_id_at(x, y) {
            Some(id) => {
                proof {
                    lemma_grid_index(self.w as int, self.h as int, x as int, y as int);
                }
                self.mat_db.get(id)
            },
            None => None,
        }
    }

    /// The committed material ids, copied out for observers.
    pub fn export_cell_mat_ids(&self) -> (r: Vec<MaterialId>)
        ensures
            r@ == self.cell_mat_ids.cur@,
    {
        let n = self.cell_mat_ids.cur.len();
        let mut out: Vec<MaterialId> = Vec::new();
        for i in 0..n
            invariant
                n == self.cell_mat_ids.cur@.len(),
                out@ =~= self.cell_mat_ids.cur@.take(i as int),
        {
            out.push(self.cell_mat_ids.cur[i]);
            proof {
                assert(out@ =~= self.cell_mat_ids.cur@.take(i + 1 as int));
            }
        }
        proof {
            assert(self.cell_mat_ids.cur@.take(n as int) =~= self.cell_mat_ids.cur@);
        }
        out
    }

    /// The committed temperatures, copied out for observers.
    pub fn export_cell_temps(&self) -> (r: Vec<i64>)
        ensures
            r@ == self.cell_temps.cur@,
    {
        let n = self.cell_temps.cur.len();
        let mut out: Vec<i64> = Vec::new();
        for i in 0..n
            invariant
                n == self.cell_temps.cur@.len(),
                out@ =~= self.cell_temps.cur@.take(i as int),
        {
            out.push(self.cell_temps.cur[i]);
            proof {
                assert(out@ =~= self.cell_temps.cur@.take(i + 1 as int));
            }
        }
        proof {
            assert(self.cell_temps.cur@.take(n as int) =~= self.cell_temps.cur@);
        }
        out
    }

    /// A frozen snapshot of the committed frame.
    pub fn make_snapshot(&self) -> (r: Snapshot)
        requires
            self.wf(),
        ensures
            r.wf(),
            r.w == self.w,
            r.h == self.h,
            r.cell_mat_ids@ == self.cell_mat_ids.cur@,
            r.cell_temps@ == self.cell_temps.cur@,
    {
        Snapshot {
            w: self.w,
            h: self.h,
            cell_mat_ids: self.export_cell_mat_ids(),
            cell_temps: self.export_cell_temps(),
        }
    }

    /// The committed half of well-formedness: enough to serve read-only
    /// views while the staging frame is taken out.
    pub open spec fn cur_wf(&self) -> bool {
        &&& self.w * self.h <= isize::MAX
        &&& self.cell_mat_ids.cur@.len() == self.w * self.h
        &&& self.cell_temps.cur@.len() == self.w * self.h
        &&& self.mat_db.wf()
        &&& self.react_db.wf()
        &&& self.react_db@.mat_count == self.mat_db@.len()
        &&& self.mat_db@.len() > 0
        &&& mats_valid(self.cell_mat_ids.cur@, self.mat_db@.len())
    }

    /// The read-only view of the committed frame served to modules
    /// during gather.
    pub fn curr_ctx(&self) -> (r: CurrCtx<'_>)
        requires
            self.cur_wf(),
        ensures
            r.wf(),
            r.w == self.w,
            r.h == self.h,
            r.cell_mat_ids@ == self.cell_mat_ids.cur@,
            r.cell_temps@ == self.cell_temps.cur@,
            r.mat_db == &self.mat_db,
            r.react_db == &self.react_db,
            r.mat_db@ == self.mat_db@,
            r.react_db@ == self.react_db@,
    {
        CurrCtx {
            w: self.w,
            h: self.h,
            cell_mat_ids: &self.cell_mat_ids.cur,
            cell_temps: &self.cell_temps.cur,
            entities: &self.entities.cur,
            mat_db: &self.mat_db,
            react_db: &self.react_db,
        }
    }

    /// Move the staging frame out of the world so the engine can mutate
    /// it while modules still read the committed frame.
    pub fn take_next(&mut self) -> (r: NextCtx)
        ensures
            r.w == old(self).w,
            r.h == old(self).h,
            r.cell_mat_ids@ == old(self).cell_mat_ids.next@,
            r.cell_temps@ == old(self).cell_temps.next@,
            r.entities@ == old(self).entities.next@,
            final(self).w == old(self).w,
            final(self).h == old(self).h,
            final(self).mat_db == old(self).mat_db,
            final(self).react_db == old(self).react_db,
            final(self).cell_mat_ids.cur@ == old(self).cell_mat_ids.cur@,
            final(self).cell_temps.cur@ == old(self).cell_temps.cur@,
            final(self).entities.cur@ == old(self).entities.cur@,
    {
        let mut mats: Vec<MaterialId> = Vec::new();
        let mut temps: Vec<i64> = Vec::new();
        let mut ents: Vec<Entity> = Vec::new();
        core::mem::swap(&mut mats, &mut self.cell_mat_ids.next);
        core::mem::swap(&mut temps, &mut self.cell_temps.next);
        core::mem::swap(&mut ents, &mut self.entities.next);
        NextCtx { w: self.w, h: self.h, cell_mat_ids: mats, cell_temps: temps, entities: ents }
    }

    /// Put the staging frame back after apply.
    pub fn restore_next(&mut self, next: NextCtx)
        requires
            next.w == old(self).w,
            next.h == old(self).h,
        ensures
            final(self).w == old(self).w,
            final(self).h == old(self).h,
            final(self).mat_db == old(self).mat_db,
            final(self).react_db == old(self).react_db,
            final(self).cell_mat_ids.cur@ == old(self).cell_mat_ids.cur@,
            final(self).cell_temps.cur@ == old(self).cell_temps.cur@,
            final(self).entities.cur@ == old(self).entities.cur@,
            final(self).cell_mat_ids.next@ == next.cell_mat_ids@,
            final(self).cell_temps.next@ == next.cell_temps@,
            final(self).entities.next@ == next.entities@,
    {
        self.cell_mat_ids.next = next.cell_mat_ids;
        self.cell_temps.next = next.cell_temps;
        self.entities.next = next.entities;
    }
}

/// Read-only view of the committed frame plus the registries; safe to
/// share across module workers during gather.
pub struct CurrCtx<'a> {
    pub w: usize,
    pub h: usize,
    pub cell_mat_ids: &'a Vec<MaterialId>,
    pub cell_temps: &'a Vec<i64>,
    pub entities: &'a Vec<Entity>,
    pub mat_db: &'a MaterialDb,
    pub react_db: &'a ReactionDb,
}

impl<'a> CurrCtx<'a> {
    /// Coherence of the view: arrays cover the grid, registries agree,
    /// and every cell's material id references an existing material.
    pub open spec fn wf(&self) -> bool {
        &&& self.w * self.h <= isize::MAX
        &&& self.cell_mat_ids@.len() == self.w * self.h
        &&& self.cell_temps@.len() == self.w * self.h
        &&& self.mat_db.wf()
        &&& self.react_db.wf()
        &&& self.react_db@.mat_count == self.mat_db@.len()
        &&& self.mat_db@.len() > 0
        &&& mats_valid(self.cell_mat_ids@, self.mat_db@.len())
    }

    /// Material id at a committed cell.
    #[inline]
    pub fn get_mat_id(&self, x: usize, y: usize) -> (r: MaterialId)
        requires
            self.wf(),
            x < self.w,
            y < self.h,
        ensures
            r == self.cell_mat_ids@[y * self.w + x],
            r.0 < self.mat_db@.len(),
    {
        proof {
            lemma_grid_index(self.w as int, self.h as int, x as int, y as int);
        }
        self.cell_mat_ids[y * self.w + x]
    }

    /// Temperature at a committed cell.
    #[inline]
    pub fn get_temp(&self, x: usize, y: usize) -> (r: i64)
        requires
            self.wf(),
            x < self.w,
            y < self.h,
        ensures
            r == self.cell_temps@[y * self.w + x],
    {
        proof {
            lemma_grid_index(self.w as int, self.h as int, x as int, y as int);
        }
        self.cell_temps[y * self.w + x]
    }

    /// Boundary-check predicate for possibly-signed coordinates.
    pub fn contains(&self, x: isize, y: isize) -> (r: bool)
        ensures
            r == (0 <= x < self.w && 0 <= y < self.h),
    {
        x >= 0 && y >= 0 && (x as usize) < self.w && (y as usize) < self.h
    }

    /// The whole committed material id array.
    pub fn get_mat_ids(&self) -> (r: &Vec<MaterialId>)
        ensures
            r@ == self.cell_mat_ids@,
    {
        self.cell_mat_ids
    }

    /// The whole committed temperature array.
    pub fn get_temps(&self) -> (r: &Vec<i64>)
        ensures
            r@ == self.cell_temps@,
    {
        self.cell_temps
    }
}

/// Exclusive write access to the staging frame; held only by the engine
/// during the serialized apply phase.
pub struct NextCtx {
    pub w: usize,
    pub h: usize,
    pub cell_mat_ids: Vec<MaterialId>,
    pub cell_temps: Vec<i64>,
    pub entities: Vec<Entity>,
}

impl NextCtx {
    /// Arrays cover the grid.
    pub open spec fn wf(&self) -> bool {
        &&& self.w * self.h <= isize::MAX
        &&& self.cell_mat_ids@.len() == self.w * self.h
        &&& self.cell_temps@.len() == self.w * self.h
    }

    /// Write a cell's staged material id.
    #[inline]
    pub fn set_mat_id(&mut self, x: usize, y: usize, material_id: MaterialId)
        requires
            old(self).wf(),
            x < old(self).w,
            y < old(self).h,
        ensures
            final(self).wf(),
            final(self).w == old(self).w,
            final(self).h == old(self).h,
            final(self).cell_mat_ids@ == old(self).cell_mat_ids@.update(
                y * old(self).w + x,
                material_id,
            ),
            final(self).cell_temps@ == old(self).cell_temps@,
            final(self).entities@ == old(self).entities@,
    {
        proof {
            lemma_grid_index(self.w as int, self.h as int, x as int, y as int);
        }
        let i = y * self.w + x;
        self.cell_mat_ids[i] = material_id;
    }

    /// Read a cell's staged material id.
    #[inline]
    pub fn get_mat_id(&self, x: usize, y: usize) -> (r: MaterialId)
        requires
            self.wf(),
            x < self.w,
            y < self.h,
        ensures
            r == self.cell_mat_ids@[y * self.w + x],
    {
        proof {
            lemma_grid_index(self.w as int, self.h as int, x as int, y as int);
        }
        self.cell_mat_ids[y * self.w + x]
    }

    /// Write a cell's staged temperature.
    #[inline]
    pub fn set_temp(&mut self, x: usize, y: usize, temp: i64)
        requires
            old(self).wf(),
            x < old(self).w,
            y < old(self).h,
        ensures
            final(self).wf(),
            final(self).w == old(self).w,
            final(self).h == old(self).h,
            final(self).cell_mat_ids@ == old(self).cell_mat_ids@,
            final(self).cell_temps@ == old(self).cell_temps@.update(y * old(self).w + x, temp),
            final(self).entities@ == old(self).entities@,
    {
        proof {
            lemma_grid_index(self.w as int, self.h as int, x as int, y as int);
        }
        let i = y * self.w + x;
        self.cell_temps[i] = temp;
    }

    /// Read a cell's staged temperature as it stands mid-tick, after
    /// earlier outputs have been applied.
    #[inline]
    pub fn peek_future_temp(&self, x: usize, y: usize) -> (r: i64)
        requires
            self.wf(),
            x < self.w,
            y < self.h,
        ensures
            r == self.cell_temps@[y * self.w + x],
    {
        proof {
            lemma_grid_index(self.w as int, self.h as int, x as int, y as int);
        }
        self.cell_temps[y * self.w + x]
    }

    /// Add to a cell's staged temperature, saturating at the
    /// representation's limits.
    #[inline]
    pub fn add_temp_i(&mut self, i: usize, delta: i64)
        requires
            old(self).wf(),
            i < old(self).cell_temps@.len(),
        ensures
            final(self).wf(),
            final(self).w == old(self).w,
            final(self).h == old(self).h,
            final(self).cell_mat_ids@ == old(self).cell_mat_ids@,
            final(self).cell_temps@ == old(self).cell_temps@.update(
                i as int,
                crate::sat_add_i64(old(self).cell_temps@[i as int], delta),
            ),
            final(self).entities@ == old(self).entities@,
    {
        let cur = self.cell_temps[i];
        let v = match cur.checked_add(delta) {
            Some(v) => v,
            None => if delta > 0 {
                i64::MAX
            } else {
                i64::MIN
            },
        };
        self.cell_temps[i] = v;
    }

    /// Add to a cell's staged temperature by coordinate, saturating.
    #[inline]
    pub fn add_temp(&mut self, x: usize, y: usize, delta: i64)
        requires
            old(self).wf(),
            x < old(self).w,
            y < old(self).h,
        ensures
            final(self).wf(),
            final(self).w == old(self).w,
            final(self).h == old(self).h,
            final(self).cell_mat_ids@ == old(self).cell_mat_ids@,
            final(self).cell_temps@ == old(self).cell_temps@.update(
                y * old(self).w + x,
                crate::sat_add_i64(old(self).cell_temps@[y * old(self).w + x], delta),
            ),
            final(self).entities@ == old(self).entities@,
    {
        proof {
            lemma_grid_index(self.w as int, self.h as int, x as int, y as int);
        }
        let i = y * self.w + x;
        self.add_temp_i(i, delta);
    }
}

/// Read-only view handed to modules during post-run: both frames'
/// material ids, the staged temperatures, and the material registry.
pub struct PostRunCtx<'a> {
    pub w: usize,
    pub h: usize,
    pub cur_mat_ids: &'a Vec<MaterialId>,
    pub next_mat_ids: &'a Vec<MaterialId>,
    pub next_temps: &'a Vec<i64>,
    pub mat_db: &'a MaterialDb,
}

impl<'a> PostRunCtx<'a> {
    /// Coherence of the view.
    pub open spec fn wf(&self) -> bool {
        &&& self.w * self.h <= isize::MAX
        &&& self.cur_mat_ids@.len() == self.w * self.h
        &&& self.next_mat_ids@.len() == self.w * self.h
        &&& self.next_temps@.len() == self.w * self.h
        &&& self.mat_db.wf()
        &&& self.mat_db@.len() > 0
        &&& mats_valid(self.next_mat_ids@, self.mat_db@.len())
    }

    /// Staged material id at a cell.
    #[inline]
    pub fn get_next_mat_id(&self, x: usize, y: usize) -> (r: MaterialId)
        requires
            self.wf(),
            x < self.w,
            y < self.h,
        ensures
            r == self.next_mat_ids@[y * self.w + x],
            r.0 < self.mat_db@.len(),
    {
        proof {
            lemma_grid_index(self.w as int, self.h as int, x as int, y as int);
        }
        self.next_mat_ids[y * self.w + x]
    }
}

} // verus!
