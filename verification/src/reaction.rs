//! Reaction registry: interns reaction definitions and provides O(1)
//! unordered-pair lookup over material ids through a dense `M x M` table.

use vstd::prelude::*;

verus! {

use crate::FIXED_ONE;
use crate::material::{MaterialDb, MaterialId, MaterialView, first_index_of, lemma_first_index_of};

/// Dense identifier of a reaction.
#[derive(Copy, Clone, Debug, PartialEq, Eq, Hash, Structural)]
pub struct ReactionId(pub u16);

/// An interned reaction: when materials `in_a` and `in_b` sit next to each
/// other they may become `out_a` and `out_b`; `rate` is the fixed-point
/// per-encounter probability in `(0, FIXED_ONE]`.
#[derive(Clone, Debug)]
pub struct Reaction {
    pub name: String,
    pub in_a: MaterialId,
    pub in_b: MaterialId,
    pub out_a: MaterialId,
    pub out_b: MaterialId,
    pub rate: u32,
}

/// Mathematical image of a [`Reaction`].
#[verifier::ext_equal]
pub ghost struct ReactionView {
    pub name: Seq<char>,
    pub in_a: MaterialId,
    pub in_b: MaterialId,
    pub out_a: MaterialId,
    pub out_b: MaterialId,
    pub rate: u32,
}

impl View for Reaction {
    type V = ReactionView;

    open spec fn view(&self) -> ReactionView {
        ReactionView {
            name: self.name@,
            in_a: self.in_a,
            in_b: self.in_b,
            out_a: self.out_a,
            out_b: self.out_b,
            rate: self.rate,
        }
    }
}

/// One entry of a reaction definition file, decoded to plain values:
/// materials are still names, and `rate` is a raw fixed-point value that
/// may be non-positive (such entries are dropped at load).
#[derive(Clone, Debug)]
pub struct ReactionRef {
    pub name: String,
    pub in_a: String,
    pub in_b: String,
    pub out_a: String,
    pub out_b: String,
    pub rate: i64,
}

/// Mathematical image of a [`ReactionRef`].
#[verifier::ext_equal]
pub ghost struct ReactionRefView {
    pub name: Seq<char>,
    pub in_a: Seq<char>,
    pub in_b: Seq<char>,
    pub out_a: Seq<char>,
    pub out_b: Seq<char>,
    pub rate: i64,
}

impl View for ReactionRef {
    type V = ReactionRefView;

    open spec fn view(&self) -> ReactionRefView {
        ReactionRefView {
            name: self.name@,
            in_a: self.in_a@,
            in_b: self.in_b@,
            out_a: self.out_a@,
            out_b: self.out_b@,
            rate: self.rate,
        }
    }
}

/// Views of a batch of reaction references.
pub open spec fn ref_views(rs: Seq<ReactionRef>) -> Seq<ReactionRefView> {
    rs.map_values(|r: ReactionRef| r@)
}

/// Does reaction `r` consume the unordered material pair `{a, b}`?
pub open spec fn pair_matches(r: ReactionView, a: int, b: int) -> bool {
    ||| (r.in_a.0 == a && r.in_b.0 == b)
    ||| (r.in_a.0 == b && r.in_b.0 == a)
}

/// Index of the first reaction consuming the unordered pair `{a, b}`.
pub open spec fn first_reaction_index(defs: Seq<ReactionView>, a: int, b: int) -> Option<int>
    decreases defs.len(),
{
    if defs.len() == 0 {
        None
    } else if pair_matches(defs[0], a, b) {
        Some(0int)
    } else {
        match first_reaction_index(defs.drop_first(), a, b) {
            None => None,
            Some(i) => Some(i + 1),
        }
    }
}

/// `first_reaction_index` finds the first match, and `None` means no match.
pub proof fn lemma_first_reaction_index(defs: Seq<ReactionView>, a: int, b: int)
    ensures
        match first_reaction_index(defs, a, b) {
            None => forall|i: int| 0 <= i < defs.len() ==> !pair_matches(#[trigger] defs[i], a, b),
            Some(i) => {
                &&& 0 <= i < defs.len()
                &&& pair_matches(defs[i], a, b)
                &&& forall|j: int| 0 <= j < i ==> !pair_matches(#[trigger] defs[j], a, b)
            },
        },
    decreases defs.len(),
{
    if defs.len() > 0 && !pair_matches(defs[0], a, b) {
        lemma_first_reaction_index(defs.drop_first(), a, b);
        assert forall|i: int| 1 <= i < defs.len() implies defs.drop_first()[i - 1] == defs[i] by {}
    }
}

/// Appending a reaction changes lookups only for the new reaction's own
/// pair, and only where no earlier reaction already claimed it.
proof fn lemma_first_reaction_index_push(defs: Seq<ReactionView>, r: ReactionView, a: int, b: int)
    ensures
        first_reaction_index(defs.push(r), a, b) == match first_reaction_index(defs, a, b) {
            Some(i) => Some(i),
            None => if pair_matches(r, a, b) {
                Some(defs.len() as int)
            } else {
                None
            },
        },
    decreases defs.len(),
{
    let p = defs.push(r);
    if defs.len() == 0 {
        assert(p[0] == r);
        if pair_matches(r, a, b) {
            assert(first_reaction_index(p, a, b) == Some(0int));
        } else {
            assert(p.drop_first() =~= Seq::<ReactionView>::empty());
            assert(first_reaction_index(p.drop_first(), a, b) is None);
        }
    } else {
        assert(p[0] == defs[0]);
        if !pair_matches(defs[0], a, b) {
            assert(p.drop_first() =~= defs.drop_first().push(r));
            lemma_first_reaction_index_push(defs.drop_first(), r, a, b);
            assert(defs.drop_first().len() + 1 == defs.len());
        }
    }
}

/// Well-formedness of the interned reaction list against `mat_count`
/// materials: ids in range, rates in `(0, FIXED_ONE]`, and pairwise
/// distinct names and unordered pairs.
pub open spec fn reactions_wf(defs: Seq<ReactionView>, mat_count: int) -> bool {
    &&& defs.len() <= 65535
    &&& forall|i: int|
        0 <= i < defs.len() ==> {
            let r = #[trigger] defs[i];
            &&& r.in_a.0 < mat_count
            &&& r.in_b.0 < mat_count
            &&& r.out_a.0 < mat_count
            &&& r.out_b.0 < mat_count
            &&& 0 < r.rate <= FIXED_ONE
        }
    &&& forall|i: int, j: int|
        0 <= i < defs.len() && 0 <= j < defs.len() && i != j ==> (#[trigger] defs[i]).name != (
        #[trigger] defs[j]).name
    &&& forall|i: int, j: int|
        0 <= i < defs.len() && 0 <= j < defs.len() && i != j ==> !pair_matches(
            #[trigger] defs[j],
            (#[trigger] defs[i]).in_a.0 as int,
            defs[i].in_b.0 as int,
        )
}

/// Mathematical image of a [`ReactionDb`]: the interned reactions and the
/// number of materials the pair table is sized for.
#[verifier::ext_equal]
pub ghost struct ReactionDbView {
    pub defs: Seq<ReactionView>,
    pub mat_count: nat,
}

/// The reaction registry. Ids are dense and assigned in load order; the
/// `lookup` table maps both orderings of a pair to the same id.
pub struct ReactionDb {
    defs: Vec<Reaction>,
    total_material_count: usize,
    lookup: Vec<Option<ReactionId>>,
}

impl View for ReactionDb {
    type V = ReactionDbView;

    closed spec fn view(&self) -> ReactionDbView {
        ReactionDbView {
            defs: self.defs@.map_values(|r: Reaction| r@),
            mat_count: self.total_material_count as nat,
        }
    }
}

impl ReactionDb {
    /// The dense pair table agrees with first-match lookup over the
    /// interned list.
    pub closed spec fn lookup_wf(&self) -> bool {
        &&& self.lookup@.len() == self@.mat_count * self@.mat_count
        &&& forall|a: int, b: int|
            0 <= a < self@.mat_count && 0 <= b < self@.mat_count ==> #[trigger] self.lookup@[a
                * self@.mat_count + b] == match first_reaction_index(self@.defs, a, b) {
                None => None,
                Some(i) => Some(ReactionId(i as u16)),
            }
    }

    /// Full registry invariant.
    pub open spec fn wf(&self) -> bool {
        &&& self@.mat_count <= 65535
        &&& reactions_wf(self@.defs, self@.mat_count as int)
        &&& self.lookup_wf()
    }

    pub fn new() -> (r: Self)
        ensures
            r@.defs == Seq::<ReactionView>::empty(),
            r@.mat_count == 0,
            r.wf(),
    {
        let r = Self { defs: Vec::new(), total_material_count: 0, lookup: Vec::new() };
        assert(r@.defs =~= Seq::<ReactionView>::empty());
        r
    }

    /// Position of the ordered pair `(a, b)` in the dense table.
    pub fn calc_lookup_index(&self, a: MaterialId, b: MaterialId) -> (r: usize)
        requires
            self.wf(),
            a.0 < self@.mat_count,
            b.0 < self@.mat_count,
        ensures
            r == a.0 * self@.mat_count + b.0,
    {
        proof {
            let aa = a.0 as int;
            let bb = b.0 as int;
            let mm = self.total_material_count as int;
            assert(aa * mm + bb < mm * mm && mm * mm <= 65535 * 65535) by (nonlinear_arith)
                requires
                    0 <= aa < mm,
                    0 <= bb < mm,
                    mm <= 65535,
            ;
        }
        (a.0 as usize) * self.total_material_count + (b.0 as usize)
    }

    /// Id of the reaction consuming the unordered pair `{a, b}`, if any.
    pub fn get_reaction_by_mats(&self, a: MaterialId, b: MaterialId) -> (r: Option<ReactionId>)
        requires
            self.wf(),
            a.0 < self@.mat_count,
            b.0 < self@.mat_count,
        ensures
            r == match first_reaction_index(self@.defs, a.0 as int, b.0 as int) {
                None => None::<ReactionId>,
                Some(i) => Some(ReactionId(i as u16)),
            },
    {
        let i = self.calc_lookup_index(a, b);
        proof {
            let aa = a.0 as int;
            let bb = b.0 as int;
            let mm = self@.mat_count as int;
            assert(aa * mm + bb < mm * mm) by (nonlinear_arith)
                requires
                    0 <= aa < mm,
                    0 <= bb < mm,
            ;
        }
        self.lookup[i]
    }

    /// Id of the reaction with this name, if one is loaded.
    pub fn get_id(&self, name: &String) -> (r: Option<ReactionId>)
        requires
            self.wf(),
        ensures
            match r {
                Some(id) => id.0 < self@.defs.len() && self@.defs[id.0 as int].name == name@,
                None => forall|i: int|
                    0 <= i < self@.defs.len() ==> (#[trigger] self@.defs[i]).name != name@,
            },
    {
        let n = self.defs.len();
        for k in 0..n
            invariant
                n == self.defs.len(),
                self.wf(),
                forall|j: int| 0 <= j < k ==> (#[trigger] self@.defs[j]).name != name@,
        {
            if self.defs[k].name == *name {
                proof {
                    assert(self@.defs[k as int].name == name@);
                }
                return Some(ReactionId(k as u16));
            }
            proof {
                assert(self@.defs[k as int].name != name@);
            }
        }
        None
    }

    /// The reaction interned under this id.
    pub fn get(&self, id: ReactionId) -> (r: Option<&Reaction>)
        ensures
            match r {
                Some(rc) => id.0 < self@.defs.len() && rc@ == self@.defs[id.0 as int],
                None => id.0 >= self@.defs.len(),
            },
    {
        self.defs.get(id.0 as usize)
    }

    /// Number of loaded reactions.
    pub fn get_reaction_count(&self) -> (r: usize)
        ensures
            r == self@.defs.len(),
    {
        self.defs.len()
    }
}

/// Rate as stored: positive input, clamped to at most `FIXED_ONE`.
pub open spec fn clamp_rate(x: i64) -> u32 {
    if x > FIXED_ONE as i64 {
        FIXED_ONE
    } else {
        x as u32
    }
}

/// All four material names of `r` resolve in the material registry.
pub open spec fn ref_resolves(mats: Seq<MaterialView>, r: ReactionRefView) -> bool {
    &&& first_index_of(mats, r.in_a) is Some
    &&& first_index_of(mats, r.in_b) is Some
    &&& first_index_of(mats, r.out_a) is Some
    &&& first_index_of(mats, r.out_b) is Some
}

/// Material id resolved from a name; meaningful only when the name is known.
pub open spec fn resolved_id(mats: Seq<MaterialView>, name: Seq<char>) -> MaterialId {
    match first_index_of(mats, name) {
        Some(i) => MaterialId(i as u16),
        None => MaterialId(0),
    }
}

/// The reaction interned for reference `r`.
pub open spec fn resolve_ref_spec(mats: Seq<MaterialView>, r: ReactionRefView) -> ReactionView {
    ReactionView {
        name: r.name,
        in_a: resolved_id(mats, r.in_a),
        in_b: resolved_id(mats, r.in_b),
        out_a: resolved_id(mats, r.out_a),
        out_b: resolved_id(mats, r.out_b),
        rate: clamp_rate(r.rate),
    }
}

/// The reactions interned by loading `refs` in order: entries with
/// non-positive rate are silently dropped, the rest resolve and intern.
pub open spec fn load_result_reactions(mats: Seq<MaterialView>, refs: Seq<ReactionRefView>) -> Seq<
    ReactionView,
>
    decreases refs.len(),
{
    if refs.len() == 0 {
        Seq::empty()
    } else {
        let prev = load_result_reactions(mats, refs.drop_last());
        if refs.last().rate > 0 {
            prev.push(resolve_ref_spec(mats, refs.last()))
        } else {
            prev
        }
    }
}

/// Loading `refs` succeeds: every named material exists (even in dropped
/// entries), the kept reactions fit in dense `u16` ids, and no two kept
/// reactions share a name or an unordered material pair.
pub open spec fn load_ok_reactions(mats: Seq<MaterialView>, refs: Seq<ReactionRefView>) -> bool {
    let res = load_result_reactions(mats, refs);
    &&& forall|j: int| 0 <= j < refs.len() ==> ref_resolves(mats, #[trigger] refs[j])
    &&& res.len() <= 65535
    &&& forall|i: int, j: int|
        0 <= i < res.len() && 0 <= j < res.len() && i != j ==> (#[trigger] res[i]).name != (
        #[trigger] res[j]).name
    &&& forall|i: int, j: int|
        0 <= i < res.len() && 0 <= j < res.len() && i != j ==> !pair_matches(
            #[trigger] res[j],
            (#[trigger] res[i]).in_a.0 as int,
            res[i].in_b.0 as int,
        )
}

/// Why loading a batch of reaction references failed. Load errors are
/// fatal at startup.
#[derive(Debug)]
pub enum ReactionLoadError {
    /// More kept reactions than dense `u16` ids can address.
    TooManyReactions,
    /// A kept reaction reuses a name that is already taken.
    DuplicateName { name: String },
    /// A reference names a material the registry does not know.
    UnknownMaterial { reaction: String, material: String },
    /// A kept reaction's unordered material pair is already claimed.
    DuplicatePair { reaction: String, existing: String },
}

/// Lookups ignore the order of the pair.
pub proof fn lemma_first_reaction_index_symm(defs: Seq<ReactionView>, a: int, b: int)
    ensures
        first_reaction_index(defs, a, b) == first_reaction_index(defs, b, a),
    decreases defs.len(),
{
    if defs.len() > 0 {
        lemma_first_reaction_index_symm(defs.drop_first(), a, b);
    }
}

/// Interning a prefix of the references yields a prefix of the final
/// reaction list.
proof fn lemma_load_result_prefix(mats: Seq<MaterialView>, refs: Seq<ReactionRefView>, k: int)
    requires
        0 <= k <= refs.len(),
    ensures
        load_result_reactions(mats, refs.take(k)).len() <= load_result_reactions(mats, refs).len(),
        load_result_reactions(mats, refs.take(k)) == load_result_reactions(mats, refs).take(
            load_result_reactions(mats, refs.take(k)).len() as int,
        ),
    decreases refs.len() - k,
{
    let full = load_result_reactions(mats, refs);
    if k == refs.len() {
        assert(refs.take(k) =~= refs);
        assert(full.take(full.len() as int) =~= full);
    } else {
        lemma_load_result_prefix(mats, refs, k + 1);
        let res_k = load_result_reactions(mats, refs.take(k));
        let res_k1 = load_result_reactions(mats, refs.take(k + 1));
        assert(refs.take(k + 1).drop_last() =~= refs.take(k));
        assert(refs.take(k + 1).last() == refs[k]);
        if refs[k].rate > 0 {
            assert(res_k1 == res_k.push(resolve_ref_spec(mats, refs[k])));
        } else {
            assert(res_k1 == res_k);
        }
        assert(res_k == res_k1.take(res_k.len() as int));
        assert(full.take(res_k1.len() as int).take(res_k.len() as int) =~= full.take(
            res_k.len() as int,
        ));
    }
}

impl ReactionDb {
    /// Load a batch of decoded reaction references against the material
    /// registry: resolve all names (unknown names are fatal even in
    /// dropped entries), silently drop entries with non-positive rate,
    /// and intern the rest in input order, rebuilding the dense pair
    /// table for the registry's current material count. On any error the
    /// registry is left unchanged.
    #[verifier::loop_isolation(false)]
    pub fn load_refs(&mut self, material_db: &MaterialDb, refs: &Vec<ReactionRef>) -> (r: Result<
        (),
        ReactionLoadError,
    >)
        requires
            old(self).wf(),
            material_db.wf(),
        ensures
            final(self).wf(),
            r is Ok <==> load_ok_reactions(material_db@, ref_views(refs@)),
            r is Ok ==> final(self)@.defs == load_result_reactions(material_db@, ref_views(refs@))
                && final(self)@.mat_count == material_db@.len(),
            r is Err ==> final(self)@ == old(self)@,
    {
        let ghost mats = material_db@;
        let ghost rvs = ref_views(refs@);
        let m = material_db.get_mat_count();
        let mut new_defs: Vec<Reaction> = Vec::new();
        let mut new_lookup: Vec<Option<ReactionId>> = Vec::new();
        proof {
            let mm = m as int;
            assert(mm * mm <= 65535 * 65535) by (nonlinear_arith)
                requires
                    0 <= mm <= 65535,
            ;
        }
        let total = m * m;
        for i in 0..total
            invariant
                total == m * m,
                new_lookup@.len() == i,
                forall|j: int| 0 <= j < i ==> (#[trigger] new_lookup@[j]) is None,
        {
            new_lookup.push(None);
        }
        proof {
            assert(new_defs@.map_values(|r: Reaction| r@) =~= Seq::<ReactionView>::empty());
            assert(rvs.take(0int) =~= Seq::<ReactionRefView>::empty());
            let mm = m as int;
            assert forall|a: int, b: int| 0 <= a < mm && 0 <= b < mm implies 0 <= #[trigger] (a
                * mm + b) < mm * mm by {
                assert(0 <= a * mm + b < mm * mm) by (nonlinear_arith)
                    requires
                        0 <= a < mm,
                        0 <= b < mm,
                ;
            }
        }
        let n = refs.len();
        for k in 0..n
            invariant
                n == refs.len(),
                m == mats.len(),
                m <= 65535,
                material_db.wf(),
                mats == material_db@,
                rvs == ref_views(refs@),
                rvs.len() == n,
                new_defs@.map_values(|r: Reaction| r@) == load_result_reactions(
                    mats,
                    rvs.take(k as int),
                ),
                forall|j: int| 0 <= j < k ==> ref_resolves(mats, #[trigger] rvs[j]),
                reactions_wf(new_defs@.map_values(|r: Reaction| r@), m as int),
                new_lookup@.len() == m * m,
                forall|a: int, b: int|
                    0 <= a < m && 0 <= b < m ==> #[trigger] new_lookup@[a * m + b]
                        == match first_reaction_index(
                        new_defs@.map_values(|r: Reaction| r@),
                        a,
                        b,
                    ) {
                        None => None,
                        Some(i) => Some(ReactionId(i as u16)),
                    },
        {
            let ghost res_k = load_result_reactions(mats, rvs.take(k as int));
            proof {
                assert(rvs[k as int] == refs@[k as int]@);
                assert(rvs.take(k + 1 as int).drop_last() =~= rvs.take(k as int));
                assert(rvs.take(k + 1 as int).last() == rvs[k as int]);
            }
            let ida = match material_db.get_id(&refs[k].in_a) {
                Some(id) => id,
                None => {
                    proof {
                        lemma_first_index_of(mats, rvs[k as int].in_a);
                    }
                    return Err(
                        ReactionLoadError::UnknownMaterial {
                            reaction: refs[k].name.clone(),
                            material: refs[k].in_a.clone(),
                        },
                    );
                },
            };
            let idb = match material_db.get_id(&refs[k].in_b) {
                Some(id) => id,
                None => {
                    return Err(
                        ReactionLoadError::UnknownMaterial {
                            reaction: refs[k].name.clone(),
                            material: refs[k].in_b.clone(),
                        },
                    );
                },
            };
            let oa = match material_db.get_id(&refs[k].out_a) {
                Some(id) => id,
                None => {
                    return Err(
                        ReactionLoadError::UnknownMaterial {
                            reaction: refs[k].name.clone(),
                            material: refs[k].out_a.clone(),
                        },
                    );
                },
            };
            let ob = match material_db.get_id(&refs[k].out_b) {
                Some(id) => id,
                None => {
                    return Err(
                        ReactionLoadError::UnknownMaterial {
                            reaction: refs[k].name.clone(),
                            material: refs[k].out_b.clone(),
                        },
                    );
                },
            };
            proof {
                lemma_first_index_of(mats, rvs[k as int].in_a);
                lemma_first_index_of(mats, rvs[k as int].in_b);
                lemma_first_index_of(mats, rvs[k as int].out_a);
                lemma_first_index_of(mats, rvs[k as int].out_b);
                assert(ref_resolves(mats, rvs[k as int]));
                assert(ida == resolved_id(mats, rvs[k as int].in_a));
                assert(idb == resolved_id(mats, rvs[k as int].in_b));
                assert(ida.0 < m && idb.0 < m && oa.0 < m && ob.0 < m);
            }
            if refs[k].rate <= 0 {
                proof {
                    assert(load_result_reactions(mats, rvs.take(k + 1 as int)) == res_k);
                }
            } else {
            let ghost rv = resolve_ref_spec(mats, rvs[k as int]);
            proof {
                assert(load_result_reactions(mats, rvs.take(k + 1 as int)) == res_k.push(rv));
                lemma_load_result_prefix(mats, rvs, k + 1 as int);
            }
            if new_defs.len() >= 65535 {
                proof {
                    assert(load_result_reactions(mats, rvs).len() > 65535);
                }
                return Err(ReactionLoadError::TooManyReactions);
            }
            let rate: u32 = if refs[k].rate > FIXED_ONE as i64 {
                FIXED_ONE
            } else {
                refs[k].rate as u32
            };
            let nd = new_defs.len();
            for j in 0..nd
                invariant
                    nd == new_defs.len(),
                    res_k == new_defs@.map_values(|r: Reaction| r@),
                    rvs.len() == n,
                    0 <= k < n,
                    forall|jj: int| 0 <= jj < j ==> (#[trigger] res_k[jj]).name != rvs[k as int].name,
            {
                if new_defs[j].name == refs[k].name {
                    proof {
                        assert(res_k[j as int].name == rvs[k as int].name);
                        assert(rv.name == rvs[k as int].name);
                        lemma_load_result_prefix(mats, rvs, k + 1 as int);
                        let full = load_result_reactions(mats, rvs);
                        let res_k1 = load_result_reactions(mats, rvs.take(k + 1 as int));
                        assert(res_k1 == res_k.push(rv));
                        assert(res_k1 == full.take(res_k1.len() as int));
                        assert(res_k1[j as int] == res_k[j as int]);
                        assert(full[j as int] == res_k1[j as int]);
                        assert(full[res_k.len() as int] == res_k1[res_k.len() as int]);
                        assert(full[res_k.len() as int] == rv);
                    }
                    return Err(ReactionLoadError::DuplicateName { name: refs[k].name.clone() });
                }
                proof {
                    assert(res_k[j as int].name != rvs[k as int].name);
                }
            }
            proof {
                let aa = ida.0 as int;
                let bb = idb.0 as int;
                let mm = m as int;
                assert(aa * mm + bb < mm * mm && bb * mm + aa < mm * mm) by (nonlinear_arith)
                    requires
                        0 <= aa < mm,
                        0 <= bb < mm,
                ;
            }
            let idx_ab = (ida.0 as usize) * m + (idb.0 as usize);
            let idx_ba = (idb.0 as usize) * m + (ida.0 as usize);
            match new_lookup[idx_ab] {
                Some(existing) => {
                    proof {
                        lemma_first_reaction_index(res_k, ida.0 as int, idb.0 as int);
                        lemma_load_result_prefix(mats, rvs, k + 1 as int);
                        let full = load_result_reactions(mats, rvs);
                        let res_k1 = load_result_reactions(mats, rvs.take(k + 1 as int));
                        let ex = first_reaction_index(res_k, ida.0 as int, idb.0 as int)->Some_0;
                        assert(res_k1 == res_k.push(rv));
                        assert(res_k1 == full.take(res_k1.len() as int));
                        assert(full[ex] == res_k1[ex]);
                        assert(full[ex] == res_k[ex]);
                        assert(full[res_k.len() as int] == res_k1[res_k.len() as int]);
                        assert(full[res_k.len() as int] == rv);
                        assert(pair_matches(full[ex], rv.in_a.0 as int, rv.in_b.0 as int));
                    }
                    let e = existing.0 as usize;
                    return Err(
                        ReactionLoadError::DuplicatePair {
                            reaction: refs[k].name.clone(),
                            existing: new_defs[e].name.clone(),
                        },
                    );
                },
                None => {},
            }
            proof {
                lemma_first_reaction_index_symm(res_k, ida.0 as int, idb.0 as int);
            }
            let new_id = ReactionId(new_defs.len() as u16);
            let rec = Reaction {
                name: refs[k].name.clone(),
                in_a: ida,
                in_b: idb,
                out_a: oa,
                out_b: ob,
                rate,
            };
            proof {
                assert(rec@ =~= rv);
            }
            new_defs.push(rec);
            new_lookup[idx_ab] = Some(new_id);
            new_lookup[idx_ba] = Some(new_id);
            proof {
                let res_k1 = res_k.push(rv);
                assert(new_defs@.map_values(|r: Reaction| r@) =~= res_k1);
                lemma_first_reaction_index(res_k, ida.0 as int, idb.0 as int);
                assert forall|i: int| 0 <= i < res_k1.len() implies {
                    let r = #[trigger] res_k1[i];
                    &&& r.in_a.0 < m
                    &&& r.in_b.0 < m
                    &&& r.out_a.0 < m
                    &&& r.out_b.0 < m
                    &&& 0 < r.rate <= FIXED_ONE
                } by {
                    if i < res_k.len() {
                        assert(res_k1[i] == res_k[i]);
                    }
                }
                assert forall|i: int, j: int|
                    0 <= i < res_k1.len() && 0 <= j < res_k1.len() && i != j implies !pair_matches(
                    #[trigger] res_k1[j],
                    (#[trigger] res_k1[i]).in_a.0 as int,
                    res_k1[i].in_b.0 as int,
                ) by {
                    if i < res_k.len() && j < res_k.len() {
                        assert(res_k1[i] == res_k[i] && res_k1[j] == res_k[j]);
                    } else if j == res_k.len() && i < res_k.len() {
                        assert(res_k1[i] == res_k[i] && res_k1[j] == rv);
                        assert(!pair_matches(res_k[i], ida.0 as int, idb.0 as int));
                    } else if i == res_k.len() && j < res_k.len() {
                        assert(res_k1[j] == res_k[j] && res_k1[i] == rv);
                        assert(!pair_matches(res_k[j], ida.0 as int, idb.0 as int));
                    }
                }
                assert forall|a: int, b: int| 0 <= a < m && 0 <= b < m implies #[trigger] new_lookup@[a
                    * m + b] == match first_reaction_index(res_k1, a, b) {
                    None => None,
                    Some(i) => Some(ReactionId(i as u16)),
                } by {
                    lemma_first_reaction_index_push(res_k, rv, a, b);
                    let mm = m as int;
                    assert((a * mm + b == (ida.0 as int) * mm + (idb.0 as int) ==> a == ida.0 as int
                        && b == idb.0 as int) && (a * mm + b == (idb.0 as int) * mm + (ida.0 as int)
                        ==> a == idb.0 as int && b == ida.0 as int)) by (nonlinear_arith)
                        requires
                            0 <= a < mm,
                            0 <= b < mm,
                            0 <= ida.0 < mm,
                            0 <= idb.0 < mm,
                    ;
                    if pair_matches(rv, a, b) && first_reaction_index(res_k, a, b) is None {
                        lemma_first_reaction_index_symm(res_k, a, b);
                        assert(a == ida.0 as int && b == idb.0 as int || a == idb.0 as int && b
                            == ida.0 as int);
                    }
                }
            }
            }
        }
        proof {
            assert(rvs.take(n as int) =~= rvs);
        }
        self.defs = new_defs;
        self.total_material_count = m;
        self.lookup = new_lookup;
        Ok(())
    }
}

} // verus!
