//! Material registry: interns material definitions, assigns dense ids in
//! load order, and publishes a packed diffusivity lookup table for hot loops.

use vstd::prelude::*;

verus! {

/// Largest admissible fixed-point diffusivity: `FIXED_ONE / 4`, i.e. 0.25.
/// Diffusivity is clamped to `[0, DIFF_MAX]` on load to keep the explicit
/// diffusion update stable on a 4-connected stencil.
pub const DIFF_MAX: u32 = 16384;

/// An RGBA display color, as raw bytes.
#[derive(Copy, Clone, Debug, PartialEq, Eq, Structural)]
pub struct ColorRgba {
    pub r: u8,
    pub g: u8,
    pub b: u8,
    pub a: u8,
}

/// Dense identifier of a material; id 0 is the default ("air-like") id.
#[derive(Copy, Clone, Debug, PartialEq, Eq, Hash, Structural)]
pub struct MaterialId(pub u16);

/// A temperature-driven material change: when a cell's temperature crosses
/// `threshold`, the cell's material becomes `target`.
#[derive(Copy, Clone, Debug, PartialEq, Eq, Structural)]
pub struct TransformRule {
    pub target: MaterialId,
    pub threshold: i64,
}

/// An interned material. `diffusivity` is a fixed-point scalar in
/// `[0, DIFF_MAX]`; transform targets are resolved ids.
#[derive(Clone, Debug)]
pub struct Material {
    pub name: String,
    pub color_raw: ColorRgba,
    pub diffusivity: u32,
    pub transform_cold: Option<TransformRule>,
    pub transform_hot: Option<TransformRule>,
}

/// Mathematical image of a [`Material`].
#[verifier::ext_equal]
pub ghost struct MaterialView {
    pub name: Seq<char>,
    pub color_raw: ColorRgba,
    pub diffusivity: u32,
    pub transform_cold: Option<TransformRule>,
    pub transform_hot: Option<TransformRule>,
}

impl View for Material {
    type V = MaterialView;

    open spec fn view(&self) -> MaterialView {
        MaterialView {
            name: self.name@,
            color_raw: self.color_raw,
            diffusivity: self.diffusivity,
            transform_cold: self.transform_cold,
            transform_hot: self.transform_hot,
        }
    }
}

/// One entry of a material definition file, already decoded to plain values.
/// Transform targets are still names; they are resolved against the whole
/// registry in a second pass.
#[derive(Clone, Debug)]
pub struct MaterialDef {
    pub name: String,
    pub color_raw: ColorRgba,
    pub diffusivity: u32,
    pub transform_cold_mat_name: Option<String>,
    pub transform_cold_temp: Option<i64>,
    pub transform_hot_mat_name: Option<String>,
    pub transform_hot_temp: Option<i64>,
}

/// Mathematical image of a [`MaterialDef`].
#[verifier::ext_equal]
pub ghost struct MaterialDefView {
    pub name: Seq<char>,
    pub color_raw: ColorRgba,
    pub diffusivity: u32,
    pub transform_cold_mat_name: Option<Seq<char>>,
    pub transform_cold_temp: Option<i64>,
    pub transform_hot_mat_name: Option<Seq<char>>,
    pub transform_hot_temp: Option<i64>,
}

impl View for MaterialDef {
    type V = MaterialDefView;

    open spec fn view(&self) -> MaterialDefView {
        MaterialDefView {
            name: self.name@,
            color_raw: self.color_raw,
            diffusivity: self.diffusivity,
            transform_cold_mat_name: match self.transform_cold_mat_name {
                Some(ref n) => Some(n@),
                None => None,
            },
            transform_cold_temp: self.transform_cold_temp,
            transform_hot_mat_name: match self.transform_hot_mat_name {
                Some(ref n) => Some(n@),
                None => None,
            },
            transform_hot_temp: self.transform_hot_temp,
        }
    }
}

/// Index of the first material in `defs` whose name is `name`, if any.
pub open spec fn first_index_of(defs: Seq<MaterialView>, name: Seq<char>) -> Option<int>
    decreases defs.len(),
{
    if defs.len() == 0 {
        None
    } else if defs[0].name == name {
        Some(0int)
    } else {
        match first_index_of(defs.drop_first(), name) {
            None => None,
            Some(i) => Some(i + 1),
        }
    }
}

/// `first_index_of` finds the first match, and `None` means no match.
pub proof fn lemma_first_index_of(defs: Seq<MaterialView>, name: Seq<char>)
    ensures
        match first_index_of(defs, name) {
            None => forall|i: int| 0 <= i < defs.len() ==> (#[trigger] defs[i]).name != name,
            Some(i) => {
                &&& 0 <= i < defs.len()
                &&& defs[i].name == name
                &&& forall|j: int| 0 <= j < i ==> (#[trigger] defs[j]).name != name
            },
        },
    decreases defs.len(),
{
    if defs.len() > 0 && defs[0].name != name {
        lemma_first_index_of(defs.drop_first(), name);
        assert forall|i: int| 1 <= i < defs.len() implies defs.drop_first()[i - 1] == defs[i] by {}
    }
}

/// Well-formedness of one material relative to a registry of `count` entries.
pub open spec fn mat_wf(m: MaterialView, count: int) -> bool {
    &&& m.diffusivity <= DIFF_MAX
    &&& match m.transform_cold {
        Some(r) => r.target.0 < count,
        None => true,
    }
    &&& match m.transform_hot {
        Some(r) => r.target.0 < count,
        None => true,
    }
    &&& match (m.transform_cold, m.transform_hot) {
        (Some(c), Some(h)) => h.threshold > c.threshold,
        _ => true,
    }
}

/// Well-formedness of a whole registry: few enough materials for dense
/// `u16` ids, clamped diffusivities, resolved in-range transform targets,
/// ordered thresholds, and pairwise-distinct names.
pub open spec fn registry_wf(defs: Seq<MaterialView>) -> bool {
    &&& defs.len() <= 65535
    &&& forall|i: int| 0 <= i < defs.len() ==> mat_wf(#[trigger] defs[i], defs.len() as int)
    &&& forall|i: int, j: int|
        0 <= i < defs.len() && 0 <= j < defs.len() && i != j ==> (#[trigger] defs[i]).name != (
        #[trigger] defs[j]).name
}

/// The material registry. Ids are dense and assigned in load order.
pub struct MaterialDb {
    defs: Vec<Material>,
    diffusivity_of: Vec<u32>,
}

impl View for MaterialDb {
    type V = Seq<MaterialView>;

    closed spec fn view(&self) -> Seq<MaterialView> {
        self.defs@.map_values(|m: Material| m@)
    }
}

impl MaterialDb {
    /// The packed `diffusivity_of` table mirrors the interned definitions.
    pub closed spec fn packed_wf(&self) -> bool {
        &&& self.diffusivity_of@.len() == self@.len()
        &&& forall|i: int|
            0 <= i < self@.len() ==> #[trigger] self.diffusivity_of@[i] == self@[i].diffusivity
    }

    /// Full registry invariant.
    pub open spec fn wf(&self) -> bool {
        &&& registry_wf(self@)
        &&& self.packed_wf()
    }

    pub fn new() -> (r: Self)
        ensures
            r@ == Seq::<MaterialView>::empty(),
            r.wf(),
    {
        let r = Self { defs: Vec::new(), diffusivity_of: Vec::new() };
        assert(r@ =~= Seq::<MaterialView>::empty());
        r
    }

    /// Id of the material with this name, if one is loaded.
    pub fn get_id(&self, name: &String) -> (r: Option<MaterialId>)
        requires
            self.wf(),
        ensures
            match first_index_of(self@, name@) {
                None => r is None,
                Some(i) => r == Some(MaterialId(i as u16)),
            },
    {
        proof {
            lemma_first_index_of(self@, name@);
        }
        let n = self.defs.len();
        for k in 0..n
            invariant
                n == self.defs.len(),
                self.wf(),
                forall|j: int| 0 <= j < k ==> (#[trigger] self@[j]).name != name@,
        {
            if self.defs[k].name == *name {
                proof {
                    assert(self@[k as int].name == name@);
                    lemma_first_index_of(self@, name@);
                }
                return Some(MaterialId(k as u16));
            }
        }
        None
    }

    /// The material interned under this id.
    pub fn get(&self, id: MaterialId) -> (r: Option<&Material>)
        ensures
            match r {
                Some(m) => id.0 < self@.len() && m@ == self@[id.0 as int],
                None => id.0 >= self@.len(),
            },
    {
        self.defs.get(id.0 as usize)
    }

    /// Number of loaded materials.
    pub fn get_mat_count(&self) -> (r: usize)
        ensures
            r == self@.len(),
    {
        self.defs.len()
    }

    /// Packed per-id diffusivity table, for hot loops.
    pub fn get_diffusivity_of(&self) -> (r: &Vec<u32>)
        requires
            self.wf(),
        ensures
            r@.len() == self@.len(),
            forall|i: int| 0 <= i < self@.len() ==> #[trigger] r@[i] == self@[i].diffusivity,
    {
        &self.diffusivity_of
    }
}

/// Why loading a batch of material definitions failed. Load errors are fatal
/// at startup: a misconfigured world is not recoverable.
#[derive(Debug)]
pub enum MaterialLoadError {
    /// More materials than dense `u16` ids can address.
    TooManyMaterials,
    /// A definition reuses a name that is already taken.
    DuplicateName { name: String },
    /// A transform names a target material that does not exist after load.
    UnknownTransformTarget { material: String, target: String },
    /// Both transforms are present but the hot threshold does not exceed
    /// the cold one.
    ContradictoryThresholds { material: String },
}

/// Diffusivity as stored: clamped to `[0, DIFF_MAX]`.
pub open spec fn clamp_diff(d: u32) -> u32 {
    if d > DIFF_MAX {
        DIFF_MAX
    } else {
        d
    }
}

/// Threshold of a transform whose temperature key was omitted.
pub open spec fn temp_or_zero(t: Option<i64>) -> i64 {
    match t {
        Some(v) => v,
        None => 0,
    }
}

/// A definition as interned by the first pass: diffusivity clamped,
/// transforms not yet resolved.
pub open spec fn inserted_mat_spec(d: MaterialDefView) -> MaterialView {
    MaterialView {
        name: d.name,
        color_raw: d.color_raw,
        diffusivity: clamp_diff(d.diffusivity),
        transform_cold: None,
        transform_hot: None,
    }
}

/// The registry as it stands between the two load passes: existing
/// materials followed by the new batch, transforms unresolved.
pub open spec fn load_base(old: Seq<MaterialView>, ds: Seq<MaterialDefView>) -> Seq<MaterialView> {
    old + ds.map_values(|d: MaterialDefView| inserted_mat_spec(d))
}

/// The resolved transform rule for one optional target name.
pub open spec fn rule_of(
    base: Seq<MaterialView>,
    name_opt: Option<Seq<char>>,
    temp_opt: Option<i64>,
) -> Option<TransformRule> {
    match name_opt {
        None => None,
        Some(n) => match first_index_of(base, n) {
            None => None,
            Some(i) => Some(TransformRule { target: MaterialId(i as u16), threshold: temp_or_zero(temp_opt) }),
        },
    }
}

/// A definition fully resolved against `base` by the second pass.
pub open spec fn resolve_def_spec(base: Seq<MaterialView>, d: MaterialDefView) -> MaterialView {
    MaterialView {
        name: d.name,
        color_raw: d.color_raw,
        diffusivity: clamp_diff(d.diffusivity),
        transform_cold: rule_of(base, d.transform_cold_mat_name, d.transform_cold_temp),
        transform_hot: rule_of(base, d.transform_hot_mat_name, d.transform_hot_temp),
    }
}

/// Both named transform targets of `d` exist in `base`.
pub open spec fn def_targets_known(base: Seq<MaterialView>, d: MaterialDefView) -> bool {
    &&& match d.transform_cold_mat_name {
        Some(n) => first_index_of(base, n) is Some,
        None => true,
    }
    &&& match d.transform_hot_mat_name {
        Some(n) => first_index_of(base, n) is Some,
        None => true,
    }
}

/// If both transforms are present, the hot threshold exceeds the cold one.
pub open spec fn def_thresholds_ok(d: MaterialDefView) -> bool {
    match (d.transform_cold_mat_name, d.transform_hot_mat_name) {
        (Some(_), Some(_)) => temp_or_zero(d.transform_hot_temp) > temp_or_zero(d.transform_cold_temp),
        _ => true,
    }
}

/// Views of a batch of definitions.
pub open spec fn def_views(ds: Seq<MaterialDef>) -> Seq<MaterialDefView> {
    ds.map_values(|d: MaterialDef| d@)
}

/// Loading `ds` on top of registry `old` succeeds: the result still fits in
/// dense `u16` ids, every new name's first occurrence is its own entry (no
/// clashes with `old` or within the batch), every transform target resolves,
/// and thresholds are ordered.
pub open spec fn load_ok_spec(old: Seq<MaterialView>, ds: Seq<MaterialDefView>) -> bool {
    let base = load_base(old, ds);
    &&& old.len() + ds.len() <= 65535
    &&& forall|k: int|
        0 <= k < ds.len() ==> first_index_of(base, (#[trigger] ds[k]).name) == Some(
            old.len() + k,
        )
    &&& forall|k: int| 0 <= k < ds.len() ==> def_targets_known(base, #[trigger] ds[k])
    &&& forall|k: int| 0 <= k < ds.len() ==> def_thresholds_ok(#[trigger] ds[k])
}

/// The registry produced by a successful load of `ds` on top of `old`.
pub open spec fn load_result_spec(old: Seq<MaterialView>, ds: Seq<MaterialDefView>) -> Seq<
    MaterialView,
> {
    let base = load_base(old, ds);
    old + Seq::new(ds.len(), |k: int| resolve_def_spec(base, ds[k]))
}

impl MaterialDb {
    /// First index in the two-pass base (current registry, then the new
    /// batch) holding a material named `name`.
    fn find_in_base(&self, defs: &Vec<MaterialDef>, name: &String) -> (r: Option<usize>)
        requires
            self.wf(),
            self@.len() + defs@.len() <= 65535,
        ensures
            match first_index_of(load_base(self@, def_views(defs@)), name@) {
                None => r is None,
                Some(i) => r == Some(i as usize),
            },
    {
        let ghost base = load_base(self@, def_views(defs@));
        proof {
            lemma_first_index_of(base, name@);
            assert(forall|j: int|
                0 <= j < self@.len() ==> (#[trigger] base[j]).name == self@[j].name);
            assert(forall|j: int|
                self@.len() <= j < base.len() ==> (#[trigger] base[j]).name == def_views(defs@)[j
                    - self@.len()].name);
        }
        let n = self.defs.len();
        for k in 0..n
            invariant
                n == self.defs.len(),
                self.wf(),
                base == load_base(self@, def_views(defs@)),
                forall|j: int| 0 <= j < k ==> (#[trigger] base[j]).name != name@,
        {
            if self.defs[k].name == *name {
                proof {
                    assert(base[k as int].name == name@);
                    lemma_first_index_of(base, name@);
                }
                return Some(k);
            }
            proof {
                assert(base[k as int].name == self@[k as int].name);
            }
        }
        let m = defs.len();
        for k in 0..m
            invariant
                n == self.defs.len(),
                m == defs.len(),
                self.wf(),
                self@.len() + defs@.len() <= 65535,
                base == load_base(self@, def_views(defs@)),
                forall|j: int| 0 <= j < n + k ==> (#[trigger] base[j]).name != name@,
        {
            if defs[k].name == *name {
                proof {
                    assert(base[n + k as int].name == def_views(defs@)[k as int].name);
                    lemma_first_index_of(base, name@);
                }
                return Some(n + k);
            }
            proof {
                assert(base[n + k as int].name == def_views(defs@)[k as int].name);
            }
        }
        proof {
            lemma_first_index_of(base, name@);
        }
        None
    }

    /// Load a batch of decoded material definitions: insert them with
    /// clamped diffusivity in input order (dense ids), then resolve
    /// transform target names against the whole registry. On any error
    /// the registry is left unchanged.
    pub fn load_defs(&mut self, defs: &Vec<MaterialDef>) -> (r: Result<(), MaterialLoadError>)
        requires
            old(self).wf(),
        ensures
            final(self).wf(),
            r is Ok <==> load_ok_spec(old(self)@, def_views(defs@)),
            r is Ok ==> final(self)@ == load_result_spec(old(self)@, def_views(defs@)),
            r is Err ==> final(self)@ == old(self)@,
            r matches Err(MaterialLoadError::TooManyMaterials) ==> old(self)@.len() + defs@.len()
                > 65535,
    {
        let ghost old_view = self@;
        let ghost dvs = def_views(defs@);
        let ghost base = load_base(old_view, dvs);
        let old_len = self.defs.len();
        if defs.len() > 65535 - old_len {
            return Err(MaterialLoadError::TooManyMaterials);
        }
        // Pass over the batch: check names and resolve transform targets
        // before any mutation, so errors leave the registry untouched.
        let mut rules: Vec<(Option<TransformRule>, Option<TransformRule>)> = Vec::new();
        let n = defs.len();
        for k in 0..n
            invariant
                n == defs.len(),
                old_len == self.defs.len(),
                self.wf(),
                old_view == self@,
                dvs == def_views(defs@),
                base == load_base(old_view, dvs),
                old_view.len() + dvs.len() <= 65535,
                rules@.len() == k,
                forall|j: int|
                    0 <= j < k ==> (#[trigger] rules@[j]).0 == rule_of(
                        base,
                        dvs[j].transform_cold_mat_name,
                        dvs[j].transform_cold_temp,
                    ),
                forall|j: int|
                    0 <= j < k ==> (#[trigger] rules@[j]).1 == rule_of(
                        base,
                        dvs[j].transform_hot_mat_name,
                        dvs[j].transform_hot_temp,
                    ),
                forall|j: int|
                    0 <= j < k ==> first_index_of(base, (#[trigger] dvs[j]).name) == Some(
                        old_view.len() + j,
                    ),
                forall|j: int| 0 <= j < k ==> def_targets_known(base, #[trigger] dvs[j]),
                forall|j: int| 0 <= j < k ==> def_thresholds_ok(#[trigger] dvs[j]),
        {
            // The name's first occurrence must be this very entry.
            match self.find_in_base(defs, &defs[k].name) {
                Some(i) => {
                    if i != old_len + k {
                        return Err(
                            MaterialLoadError::DuplicateName { name: defs[k].name.clone() },
                        );
                    }
                },
                None => {
                    proof {
                        assert(dvs[k as int] == defs@[k as int]@);
                        lemma_first_index_of(base, dvs[k as int].name);
                        assert(base[old_view.len() + k].name == dvs[k as int].name);
                        assert(false);
                    }
                    return Err(MaterialLoadError::DuplicateName { name: defs[k].name.clone() });
                },
            }
            proof {
                assert(dvs[k as int] == defs@[k as int]@);
                lemma_first_index_of(base, dvs[k as int].name);
                assert(first_index_of(base, dvs[k as int].name) == Some(old_view.len() + k));
            }
            let cold: Option<TransformRule> = match &defs[k].transform_cold_mat_name {
                None => None,
                Some(tn) => match self.find_in_base(defs, tn) {
                    None => {
                        return Err(
                            MaterialLoadError::UnknownTransformTarget {
                                material: defs[k].name.clone(),
                                target: tn.clone(),
                            },
                        );
                    },
                    Some(i) => {
                        proof {
                            lemma_first_index_of(base, tn@);
                        }
                        let thr: i64 = match defs[k].transform_cold_temp {
                            Some(t) => t,
                            None => 0,
                        };
                        Some(TransformRule { target: MaterialId(i as u16), threshold: thr })
                    },
                },
            };
            proof {
                assert(cold == rule_of(
                    base,
                    dvs[k as int].transform_cold_mat_name,
                    dvs[k as int].transform_cold_temp,
                ));
            }
            let hot: Option<TransformRule> = match &defs[k].transform_hot_mat_name {
                None => None,
                Some(tn) => match self.find_in_base(defs, tn) {
                    None => {
                        return Err(
                            MaterialLoadError::UnknownTransformTarget {
                                material: defs[k].name.clone(),
                                target: tn.clone(),
                            },
                        );
                    },
                    Some(i) => {
                        proof {
                            lemma_first_index_of(base, tn@);
                        }
                        let thr: i64 = match defs[k].transform_hot_temp {
                            Some(t) => t,
                            None => 0,
                        };
                        Some(TransformRule { target: MaterialId(i as u16), threshold: thr })
                    },
                },
            };
            proof {
                assert(hot == rule_of(
                    base,
                    dvs[k as int].transform_hot_mat_name,
                    dvs[k as int].transform_hot_temp,
                ));
                assert(def_targets_known(base, dvs[k as int]));
            }
            match (&cold, &hot) {
                (Some(c), Some(h)) => {
                    if !(h.threshold > c.threshold) {
                        return Err(
                            MaterialLoadError::ContradictoryThresholds {
                                material: defs[k].name.clone(),
                            },
                        );
                    }
                },
                _ => {},
            }
            proof {
                assert(def_thresholds_ok(dvs[k as int]));
            }
            rules.push((cold, hot));
        }
        // All checks passed: intern the batch.
        for k in 0..n
            invariant
                n == defs.len(),
                n == rules@.len(),
                dvs == def_views(defs@),
                base == load_base(old_view, dvs),
                old_view.len() + dvs.len() <= 65535,
                old_len == old_view.len(),
                self.defs@.len() == old_len + k,
                self@ == old_view + Seq::new(k as nat, |j: int| resolve_def_spec(base, dvs[j])),
                self.diffusivity_of@.len() == self@.len(),
                forall|i: int|
                    0 <= i < self@.len() ==> #[trigger] self.diffusivity_of@[i]
                        == self@[i].diffusivity,
                forall|j: int|
                    0 <= j < n ==> (#[trigger] rules@[j]).0 == rule_of(
                        base,
                        dvs[j].transform_cold_mat_name,
                        dvs[j].transform_cold_temp,
                    ),
                forall|j: int|
                    0 <= j < n ==> (#[trigger] rules@[j]).1 == rule_of(
                        base,
                        dvs[j].transform_hot_mat_name,
                        dvs[j].transform_hot_temp,
                    ),
        {
            let d = defs[k].diffusivity;
            let diff = if d > DIFF_MAX {
                DIFF_MAX
            } else {
                d
            };
            let rk = rules[k];
            let m = Material {
                name: defs[k].name.clone(),
                color_raw: defs[k].color_raw,
                diffusivity: diff,
                transform_cold: rk.0,
                transform_hot: rk.1,
            };
            proof {
                assert(m@ == resolve_def_spec(base, dvs[k as int]));
            }
            let ghost prev = self@;
            self.defs.push(m);
            self.diffusivity_of.push(diff);
            proof {
                assert(self@ =~= prev.push(resolve_def_spec(base, dvs[k as int])));
                assert(old_view + Seq::new((k + 1) as nat, |j: int| resolve_def_spec(base, dvs[j]))
                    =~= prev.push(resolve_def_spec(base, dvs[k as int])));
            }
        }
        proof {
            assert(self@ =~= load_result_spec(old_view, dvs));
            lemma_load_result_wf(old_view, dvs);
        }
        Ok(())
    }
}

/// Names are unchanged by resolution: the loaded registry and the two-pass
/// base agree on every name.
proof fn lemma_load_names(old: Seq<MaterialView>, ds: Seq<MaterialDefView>)
    ensures
        load_result_spec(old, ds).len() == load_base(old, ds).len(),
        forall|i: int|
            0 <= i < load_base(old, ds).len() ==> (#[trigger] load_result_spec(old, ds)[i]).name
                == load_base(old, ds)[i].name,
{
}

/// A successful load yields a well-formed registry.
proof fn lemma_load_result_wf(old: Seq<MaterialView>, ds: Seq<MaterialDefView>)
    requires
        registry_wf(old),
        load_ok_spec(old, ds),
    ensures
        registry_wf(load_result_spec(old, ds)),
{
    let base = load_base(old, ds);
    let res = load_result_spec(old, ds);
    lemma_load_names(old, ds);
    assert forall|i: int| 0 <= i < res.len() implies mat_wf(#[trigger] res[i], res.len() as int) by {
        if i < old.len() {
            assert(mat_wf(old[i], old.len() as int));
        } else {
            let d = ds[i - old.len()];
            lemma_first_index_of(base, temp_name_cold(d));
            lemma_first_index_of(base, temp_name_hot(d));
        }
    }
    assert forall|i: int, j: int|
        0 <= i < res.len() && 0 <= j < res.len() && i != j implies (#[trigger] res[i]).name != (
    #[trigger] res[j]).name by {
        let a = if i < j {
            i
        } else {
            j
        };
        let b = if i < j {
            j
        } else {
            i
        };
        if b >= old.len() {
            assert(first_index_of(base, ds[b - old.len()].name) == Some(old.len() + (b - old.len())));
            lemma_first_index_of(base, ds[b - old.len()].name);
            assert(base[a].name == res[a].name);
        }
    }
}

/// The cold target name of `d`, or an arbitrary name if there is none.
spec fn temp_name_cold(d: MaterialDefView) -> Seq<char> {
    match d.transform_cold_mat_name {
        Some(n) => n,
        None => Seq::empty(),
    }
}

/// The hot target name of `d`, or an arbitrary name if there is none.
spec fn temp_name_hot(d: MaterialDefView) -> Seq<char> {
    match d.transform_hot_mat_name {
        Some(n) => n,
        None => Seq::empty(),
    }
}

/// The definition that `dump` writes for one material: transform targets
/// are written back as names.
pub open spec fn dump_def_spec(defs: Seq<MaterialView>, m: MaterialView) -> MaterialDefView {
    MaterialDefView {
        name: m.name,
        color_raw: m.color_raw,
        diffusivity: m.diffusivity,
        transform_cold_mat_name: match m.transform_cold {
            None => None,
            Some(r) => Some(defs[r.target.0 as int].name),
        },
        transform_cold_temp: match m.transform_cold {
            None => None,
            Some(r) => Some(r.threshold),
        },
        transform_hot_mat_name: match m.transform_hot {
            None => None,
            Some(r) => Some(defs[r.target.0 as int].name),
        },
        transform_hot_temp: match m.transform_hot {
            None => None,
            Some(r) => Some(r.threshold),
        },
    }
}

/// The whole registry as a batch of definitions, in id order.
pub open spec fn dump_spec(defs: Seq<MaterialView>) -> Seq<MaterialDefView> {
    Seq::new(defs.len(), |i: int| dump_def_spec(defs, defs[i]))
}

impl MaterialDb {
    /// Write the registry back out as a batch of definitions, in id order.
    /// Loading the dump into an empty registry reproduces this registry
    /// (see [`lemma_dump_load_round_trip`]).
    pub fn dump(&self) -> (r: Vec<MaterialDef>)
        requires
            self.wf(),
        ensures
            def_views(r@) == dump_spec(self@),
    {
        let mut out: Vec<MaterialDef> = Vec::new();
        let n = self.defs.len();
        for i in 0..n
            invariant
                n == self.defs.len(),
                self.wf(),
                out@.len() == i,
                forall|j: int| 0 <= j < i ==> #[trigger] out@[j]@ == dump_def_spec(self@, self@[j]),
        {
            let m = &self.defs[i];
            let cold_name: Option<String> = match &m.transform_cold {
                None => None,
                Some(r) => Some(self.defs[r.target.0 as usize].name.clone()),
            };
            let cold_temp: Option<i64> = match &m.transform_cold {
                None => None,
                Some(r) => Some(r.threshold),
            };
            let hot_name: Option<String> = match &m.transform_hot {
                None => None,
                Some(r) => Some(self.defs[r.target.0 as usize].name.clone()),
            };
            let hot_temp: Option<i64> = match &m.transform_hot {
                None => None,
                Some(r) => Some(r.threshold),
            };
            let d = MaterialDef {
                name: m.name.clone(),
                color_raw: m.color_raw,
                diffusivity: m.diffusivity,
                transform_cold_mat_name: cold_name,
                transform_cold_temp: cold_temp,
                transform_hot_mat_name: hot_name,
                transform_hot_temp: hot_temp,
            };
            proof {
                assert(d@ =~= dump_def_spec(self@, self@[i as int]));
            }
            out.push(d);
        }
        proof {
            assert(def_views(out@) =~= dump_spec(self@));
        }
        out
    }
}

/// Two registries that agree on every name agree on every name lookup.
proof fn lemma_first_index_of_names(a: Seq<MaterialView>, b: Seq<MaterialView>, name: Seq<char>)
    requires
        a.len() == b.len(),
        forall|i: int| 0 <= i < a.len() ==> (#[trigger] a[i]).name == b[i].name,
    ensures
        first_index_of(a, name) == first_index_of(b, name),
    decreases a.len(),
{
    if a.len() > 0 {
        assert(a[0].name == b[0].name);
        assert forall|i: int| 0 <= i < a.drop_first().len() implies (#[trigger] a.drop_first()[i]).name
            == b.drop_first()[i].name by {
            assert(a.drop_first()[i] == a[i + 1]);
            assert(b.drop_first()[i] == b[i + 1]);
        }
        lemma_first_index_of_names(a.drop_first(), b.drop_first(), name);
    }
}

/// In a registry with pairwise-distinct names, looking up the name of
/// entry `i` finds exactly entry `i`.
proof fn lemma_lookup_own_name(db: Seq<MaterialView>, i: int)
    requires
        registry_wf(db),
        0 <= i < db.len(),
    ensures
        first_index_of(db, db[i].name) == Some(i),
{
    lemma_first_index_of(db, db[i].name);
    match first_index_of(db, db[i].name) {
        None => {
            assert(false);
        },
        Some(j) => {
            if i != j {
                assert(db[i].name != db[j].name);
                assert(false);
            }
        },
    }
}

/// Dumping a registry and loading the dump into an empty registry yields
/// the identical registry.
pub proof fn lemma_dump_load_round_trip(db: Seq<MaterialView>)
    requires
        registry_wf(db),
    ensures
        load_ok_spec(Seq::<MaterialView>::empty(), dump_spec(db)),
        load_result_spec(Seq::<MaterialView>::empty(), dump_spec(db)) == db,
{
    let ds = dump_spec(db);
    let base = load_base(Seq::<MaterialView>::empty(), ds);
    assert(base.len() == db.len());
    assert forall|i: int| 0 <= i < base.len() implies (#[trigger] base[i]).name == db[i].name by {
        assert(base[i] == inserted_mat_spec(ds[i]));
    }
    assert forall|k: int| 0 <= k < ds.len() implies first_index_of(
        base,
        (#[trigger] ds[k]).name,
    ) == Some(0 + k) by {
        lemma_first_index_of_names(base, db, ds[k].name);
        lemma_lookup_own_name(db, k);
    }
    assert forall|k: int| 0 <= k < ds.len() implies def_targets_known(base, #[trigger] ds[k]) by {
        match db[k].transform_cold {
            Some(r) => {
                lemma_first_index_of_names(base, db, db[r.target.0 as int].name);
                lemma_lookup_own_name(db, r.target.0 as int);
            },
            None => {},
        }
        match db[k].transform_hot {
            Some(r) => {
                lemma_first_index_of_names(base, db, db[r.target.0 as int].name);
                lemma_lookup_own_name(db, r.target.0 as int);
            },
            None => {},
        }
    }
    assert forall|k: int| 0 <= k < ds.len() implies def_thresholds_ok(#[trigger] ds[k]) by {
        assert(mat_wf(db[k], db.len() as int));
    }
    let res = load_result_spec(Seq::<MaterialView>::empty(), ds);
    assert forall|k: int| 0 <= k < db.len() implies res[k] == db[k] by {
        assert(res[k] == resolve_def_spec(base, ds[k]));
        match db[k].transform_cold {
            Some(r) => {
                lemma_first_index_of_names(base, db, db[r.target.0 as int].name);
                lemma_lookup_own_name(db, r.target.0 as int);
            },
            None => {},
        }
        match db[k].transform_hot {
            Some(r) => {
                lemma_first_index_of_names(base, db, db[r.target.0 as int].name);
                lemma_lookup_own_name(db, r.target.0 as int);
            },
            None => {},
        }
        assert(mat_wf(db[k], db.len() as int));
        assert(res[k] =~= db[k]);
    }
    assert(res =~= db);
}

} // verus!
