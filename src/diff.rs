//! Structural diff of two artifacts: which metadata keys and tensors were
//! added, removed or changed.
use vstd::prelude::*;
use crate::keyed::KeyedMap;
use crate::types::{copy_dims, dims_equal, values_equal, Artifact, CanonicalValue, Tensor, TensorModel, ValueModel};

verus! {

/// A metadata key whose value differs between the two artifacts.
#[derive(Debug)]
pub struct MetadataChange {
    pub key: String,
    pub old_value: CanonicalValue,
    pub new_value: CanonicalValue,
}

impl View for MetadataChange {
    type V = (Seq<char>, ValueModel, ValueModel);

    open spec fn view(&self) -> (Seq<char>, ValueModel, ValueModel) {
        (self.key@, self.old_value@, self.new_value@)
    }
}

/// A tensor present in both artifacts whose descriptor differs. Each pair of
/// fields is `Some` only where that field differs.
#[derive(Debug)]
pub struct TensorChange {
    pub name: String,
    pub dtype_old: Option<String>,
    pub dtype_new: Option<String>,
    pub shape_old: Option<Vec<u64>>,
    pub shape_new: Option<Vec<u64>>,
    pub byte_length_old: Option<u64>,
    pub byte_length_new: Option<u64>,
}

pub struct TensorChangeModel {
    pub name: Seq<char>,
    pub dtype_old: Option<Seq<char>>,
    pub dtype_new: Option<Seq<char>>,
    pub shape_old: Option<Seq<u64>>,
    pub shape_new: Option<Seq<u64>>,
    pub byte_length_old: Option<u64>,
    pub byte_length_new: Option<u64>,
}

pub open spec fn opt_text(o: Option<String>) -> Option<Seq<char>> {
    match o {
        Some(s) => Some(s@),
        None => None,
    }
}

pub open spec fn opt_dims(o: Option<Vec<u64>>) -> Option<Seq<u64>> {
    match o {
        Some(v) => Some(v@),
        None => None,
    }
}

impl View for TensorChange {
    type V = TensorChangeModel;

    open spec fn view(&self) -> TensorChangeModel {
        TensorChangeModel {
            name: self.name@,
            dtype_old: opt_text(self.dtype_old),
            dtype_new: opt_text(self.dtype_new),
            shape_old: opt_dims(self.shape_old),
            shape_new: opt_dims(self.shape_new),
            byte_length_old: self.byte_length_old,
            byte_length_new: self.byte_length_new,
        }
    }
}

/// The change record for tensor `name`, which is `x` in the first artifact
/// and `y` in the second: `None` where all three fields agree.
pub open spec fn tensor_change(name: Seq<char>, x: TensorModel, y: TensorModel) -> Option<TensorChangeModel> {
    if x.dtype == y.dtype && x.shape == y.shape && x.byte_length == y.byte_length {
        None
    } else {
        Some(TensorChangeModel {
            name,
            dtype_old: if x.dtype != y.dtype { Some(x.dtype) } else { None },
            dtype_new: if x.dtype != y.dtype { Some(y.dtype) } else { None },
            shape_old: if x.shape != y.shape { Some(x.shape) } else { None },
            shape_new: if x.shape != y.shape { Some(y.shape) } else { None },
            byte_length_old: if x.byte_length != y.byte_length { Some(x.byte_length) } else { None },
            byte_length_new: if x.byte_length != y.byte_length { Some(y.byte_length) } else { None },
        })
    }
}

/// The keys of `x` that `y` lacks, in key order.
pub open spec fn keys_only_in<V: View, W: View>(x: KeyedMap<V>, y: KeyedMap<W>) -> Seq<Seq<char>> {
    x.pairs().filter_map(|p: (Seq<char>, V::V)| if !y@.contains_key(p.0) { Some(p.0) } else { None })
}

/// The metadata keys of both artifacts whose values differ, with the old and
/// the new value, in key order.
pub open spec fn metadata_changes(a: Artifact, b: Artifact) -> Seq<(Seq<char>, ValueModel, ValueModel)> {
    a.metadata.pairs().filter_map(
        |p: (Seq<char>, ValueModel)|
            if b.metadata@.contains_key(p.0) && b.metadata@[p.0] != p.1 {
                Some((p.0, p.1, b.metadata@[p.0]))
            } else {
                None
            },
    )
}

/// The change records of the tensors in both artifacts, in name order.
pub open spec fn tensor_changes(a: Artifact, b: Artifact) -> Seq<TensorChangeModel> {
    a.tensors.pairs().filter_map(
        |p: (Seq<char>, TensorModel)|
            if b.tensors@.contains_key(p.0) {
                tensor_change(p.0, p.1, b.tensors@[p.0])
            } else {
                None
            },
    )
}

pub open spec fn texts(v: Seq<String>) -> Seq<Seq<char>> {
    v.map_values(|s: String| s@)
}

/// The outcome of comparing two artifacts.
#[derive(Debug, Default)]
pub struct DiffResult {
    pub schema: u32,
    pub format_equal: bool,
    /// Set by the caller, which hashes both artifacts.
    pub hash_equal: bool,
    pub tensor_count_equal: bool,
    pub metadata_count_equal: bool,
    pub metadata_added: Vec<String>,
    pub metadata_removed: Vec<String>,
    pub metadata_changed: Vec<MetadataChange>,
    pub tensors_added: Vec<String>,
    pub tensors_removed: Vec<String>,
    pub tensor_changes: Vec<TensorChange>,
}

impl DiffResult {
    /// A result of schema 1 with no flags set and no changes.
    pub fn new() -> (r: DiffResult)
        ensures
            r.schema == 1,
            !r.format_equal && !r.hash_equal && !r.tensor_count_equal && !r.metadata_count_equal,
            r.metadata_added@.len() == 0,
            r.metadata_removed@.len() == 0,
            r.metadata_changed@.len() == 0,
            r.tensors_added@.len() == 0,
            r.tensors_removed@.len() == 0,
            r.tensor_changes@.len() == 0,
    {
        DiffResult {
            schema: 1,
            format_equal: false,
            hash_equal: false,
            tensor_count_equal: false,
            metadata_count_equal: false,
            metadata_added: Vec::new(),
            metadata_removed: Vec::new(),
            metadata_changed: Vec::new(),
            tensors_added: Vec::new(),
            tensors_removed: Vec::new(),
            tensor_changes: Vec::new(),
        }
    }

    /// Any of the six change lists is non-empty.
    pub open spec fn changed(&self) -> bool {
        self.metadata_added@.len() > 0 || self.metadata_removed@.len() > 0
            || self.metadata_changed@.len() > 0 || self.tensors_added@.len() > 0
            || self.tensors_removed@.len() > 0 || self.tensor_changes@.len() > 0
    }

    /// Whether the two artifacts differ in any metadata entry or tensor.
    pub fn has_changes(&self) -> (r: bool)
        ensures
            r == self.changed(),
    {
        !self.metadata_added.is_empty() || !self.metadata_removed.is_empty()
            || !self.metadata_changed.is_empty() || !self.tensors_added.is_empty()
            || !self.tensors_removed.is_empty() || !self.tensor_changes.is_empty()
    }
}

/// The keys of `x` that `y` lacks, in key order.
fn keys_missing_from<V: View, W: View>(x: &KeyedMap<V>, y: &KeyedMap<W>) -> (r: Vec<String>)
    requires
        x.wf(),
        y.wf(),
    ensures
        texts(r@) == keys_only_in(*x, *y),
{
    let mut out: Vec<String> = Vec::new();
    let mut i: usize = 0;
    while i < x.entries.len()
        invariant
            0 <= i <= x.entries@.len(),
            x.wf(),
            y.wf(),
            texts(out@) == x.pairs().subrange(0, i as int).filter_map(
                |p: (Seq<char>, V::V)| if !y@.contains_key(p.0) { Some(p.0) } else { None },
            ),
        decreases x.entries@.len() - i,
    {
        let ghost prev = x.pairs().subrange(0, i as int);
        let ghost before = out@;
        if !y.contains_key(x.entries[i].0.as_str()) {
            out.push(x.entries[i].0.clone());
            assert(texts(out@) =~= texts(before).push(x.entries@[i as int].0@));
        }
        i = i + 1;
        proof {
            let cur = x.pairs().subrange(0, i as int);
            assert(cur.drop_last() =~= prev);
        }
    }
    assert(x.pairs().subrange(0, i as int) =~= x.pairs());
    out
}

/// Compares two artifacts. Key and name lists come out in key order;
/// `hash_equal` is left false for the caller to set.
pub fn diff(a: &Artifact, b: &Artifact) -> (r: DiffResult)
    requires
        a.wf(),
        b.wf(),
    ensures
        r.schema == 1,
        r.format_equal == (a.format == b.format),
        !r.hash_equal,
        r.tensor_count_equal == (a.tensors.entries@.len() == b.tensors.entries@.len()),
        r.metadata_count_equal == (a.metadata.entries@.len() == b.metadata.entries@.len()),
        texts(r.metadata_added@) == keys_only_in(b.metadata, a.metadata),
        texts(r.metadata_removed@) == keys_only_in(a.metadata, b.metadata),
        r.metadata_changed@.map_values(|c: MetadataChange| c@) == metadata_changes(*a, *b),
        texts(r.tensors_added@) == keys_only_in(b.tensors, a.tensors),
        texts(r.tensors_removed@) == keys_only_in(a.tensors, b.tensors),
        r.tensor_changes@.map_values(|c: TensorChange| c@) == tensor_changes(*a, *b),
{
    let mut result = DiffResult::new();
    result.format_equal = a.format == b.format;
    result.tensor_count_equal = a.tensors.len() == b.tensors.len();
    result.metadata_count_equal = a.metadata.len() == b.metadata.len();
    result.metadata_added = keys_missing_from(&b.metadata, &a.metadata);
    result.metadata_removed = keys_missing_from(&a.metadata, &b.metadata);
    result.metadata_changed = changed_metadata(a, b);
    result.tensors_added = keys_missing_from(&b.tensors, &a.tensors);
    result.tensors_removed = keys_missing_from(&a.tensors, &b.tensors);
    result.tensor_changes = changed_tensors(a, b);
    result
}

fn changed_metadata(a: &Artifact, b: &Artifact) -> (r: Vec<MetadataChange>)
    requires
        a.wf(),
        b.wf(),
    ensures
        r@.map_values(|c: MetadataChange| c@) == metadata_changes(*a, *b),
{
    let mut out: Vec<MetadataChange> = Vec::new();
    let mut i: usize = 0;
    while i < a.metadata.entries.len()
        invariant
            0 <= i <= a.metadata.entries@.len(),
            a.wf(),
            b.wf(),
            out@.map_values(|c: MetadataChange| c@) == a.metadata.pairs().subrange(0, i as int).filter_map(
                |p: (Seq<char>, ValueModel)|
                    if b.metadata@.contains_key(p.0) && b.metadata@[p.0] != p.1 {
                        Some((p.0, p.1, b.metadata@[p.0]))
                    } else {
                        None
                    },
            ),
        decreases a.metadata.entries@.len() - i,
    {
        let ghost prev = a.metadata.pairs().subrange(0, i as int);
        let ghost before = out@;
        let key = &a.metadata.entries[i].0;
        let old_value = &a.metadata.entries[i].1;
        match b.metadata.get(key.as_str()) {
            Some(new_value) => {
                if !values_equal(old_value, new_value) {
                    out.push(
                        MetadataChange {
                            key: key.clone(),
                            old_value: old_value.duplicate(),
                            new_value: new_value.duplicate(),
                        },
                    );
                    assert(out@.map_values(|c: MetadataChange| c@) =~= before.map_values(
                        |c: MetadataChange| c@,
                    ).push((key@, old_value@, new_value@)));
                }
            },
            None => {},
        }
        i = i + 1;
        proof {
            let cur = a.metadata.pairs().subrange(0, i as int);
            assert(cur.drop_last() =~= prev);
        }
    }
    assert(a.metadata.pairs().subrange(0, i as int) =~= a.metadata.pairs());
    out
}

/// The change record of one tensor present in both artifacts.
fn compare_tensors(name: &String, x: &Tensor, y: &Tensor) -> (r: Option<TensorChange>)
    ensures
        match r {
            Some(c) => tensor_change(name@, x@, y@) == Some(c@),
            None => tensor_change(name@, x@, y@) is None,
        },
{
    let mut change = TensorChange {
        name: name.clone(),
        dtype_old: None,
        dtype_new: None,
        shape_old: None,
        shape_new: None,
        byte_length_old: None,
        byte_length_new: None,
    };
    if x.dtype != y.dtype {
        change.dtype_old = Some(x.dtype.clone());
        change.dtype_new = Some(y.dtype.clone());
    }
    if !dims_equal(&x.shape, &y.shape) {
        change.shape_old = Some(copy_dims(&x.shape));
        change.shape_new = Some(copy_dims(&y.shape));
    }
    if x.byte_length != y.byte_length {
        change.byte_length_old = Some(x.byte_length);
        change.byte_length_new = Some(y.byte_length);
    }
    if change.dtype_old.is_some() || change.shape_old.is_some() || change.byte_length_old.is_some() {
        Some(change)
    } else {
        None
    }
}

fn changed_tensors(a: &Artifact, b: &Artifact) -> (r: Vec<TensorChange>)
    requires
        a.wf(),
        b.wf(),
    ensures
        r@.map_values(|c: TensorChange| c@) == tensor_changes(*a, *b),
{
    let mut out: Vec<TensorChange> = Vec::new();
    let mut i: usize = 0;
    while i < a.tensors.entries.len()
        invariant
            0 <= i <= a.tensors.entries@.len(),
            a.wf(),
            b.wf(),
            out@.map_values(|c: TensorChange| c@) == a.tensors.pairs().subrange(0, i as int).filter_map(
                |p: (Seq<char>, TensorModel)|
                    if b.tensors@.contains_key(p.0) {
                        tensor_change(p.0, p.1, b.tensors@[p.0])
                    } else {
                        None
                    },
            ),
        decreases a.tensors.entries@.len() - i,
    {
        let ghost prev = a.tensors.pairs().subrange(0, i as int);
        let ghost before = out@;
        let name = &a.tensors.entries[i].0;
        match b.tensors.get(name.as_str()) {
            Some(y) => {
                match compare_tensors(name, &a.tensors.entries[i].1, y) {
                    Some(c) => {
                        let ghost cm = c@;
                        out.push(c);
                        assert(out@.map_values(|c: TensorChange| c@) =~= before.map_values(
                            |c: TensorChange| c@,
                        ).push(cm));
                    },
                    None => {},
                }
            },
            None => {},
        }
        i = i + 1;
        proof {
            let cur = a.tensors.pairs().subrange(0, i as int);
            assert(cur.drop_last() =~= prev);
        }
    }
    assert(a.tensors.pairs().subrange(0, i as int) =~= a.tensors.pairs());
    out
}

/// An element is in `s.filter_map(f)` exactly when `f` maps some element of
/// `s` to it.
pub proof fn lemma_filter_map_contains<A, B>(s: Seq<A>, f: spec_fn(A) -> Option<B>, y: B)
    ensures
        s.filter_map(f).contains(y) <==> exists|i: int| 0 <= i < s.len() && f(s[i]) == Some(y),
    decreases s.len(),
{
    if s.len() > 0 {
        let rest = s.drop_last();
        lemma_filter_map_contains(rest, f, y);
        if s.filter_map(f).contains(y) {
            match f(s.last()) {
                Some(z) => {
                    let j = choose|j: int| 0 <= j < s.filter_map(f).len() && s.filter_map(f)[j] == y;
                    if j == rest.filter_map(f).len() {
                        assert(f(s[s.len() - 1]) == Some(y));
                    } else {
                        assert(rest.filter_map(f)[j] == y);
                        let i = choose|i: int| 0 <= i < rest.len() && f(rest[i]) == Some(y);
                        assert(s[i] == rest[i]);
                    }
                },
                None => {
                    let i = choose|i: int| 0 <= i < rest.len() && f(rest[i]) == Some(y);
                    assert(s[i] == rest[i]);
                },
            }
        }
        if exists|i: int| 0 <= i < s.len() && f(s[i]) == Some(y) {
            let i = choose|i: int| 0 <= i < s.len() && f(s[i]) == Some(y);
            if i == s.len() - 1 {
                assert(s.filter_map(f) == rest.filter_map(f) + seq![y]);
                assert(s.filter_map(f)[rest.filter_map(f).len() as int] == y);
            } else {
                assert(rest[i] == s[i]);
                assert(rest.filter_map(f).contains(y));
                let j = choose|j: int| 0 <= j < rest.filter_map(f).len() && rest.filter_map(f)[j] == y;
                match f(s.last()) {
                    Some(z) => {
                        assert(s.filter_map(f)[j] == y);
                    },
                    None => {},
                }
            }
        }
    }
}

/// The `i`-th pair of a map is its `i`-th key with the value the map holds there.
proof fn lemma_pair<V: View>(m: KeyedMap<V>, i: int)
    requires
        m.wf(),
        0 <= i < m.entries@.len(),
    ensures
        m.pairs()[i] == (m.key(i), m@[m.key(i)]),
        m@.contains_key(m.key(i)),
{
    m.lemma_entry(i);
}

/// A key is listed as only in `x` exactly when `x` has it and `y` has not.
pub proof fn lemma_keys_only_in<V: View, W: View>(x: KeyedMap<V>, y: KeyedMap<W>, k: Seq<char>)
    requires
        x.wf(),
        y.wf(),
    ensures
        keys_only_in(x, y).contains(k) <==> x@.contains_key(k) && !y@.contains_key(k),
{
    let f = |p: (Seq<char>, V::V)| if !y@.contains_key(p.0) { Some(p.0) } else { None };
    lemma_filter_map_contains(x.pairs(), f, k);
    if x@.contains_key(k) && !y@.contains_key(k) {
        let i = x.index_of(k);
        lemma_pair(x, i);
        assert(f(x.pairs()[i]) == Some(k));
    }
    if keys_only_in(x, y).contains(k) {
        let i = choose|i: int| 0 <= i < x.pairs().len() && f(x.pairs()[i]) == Some(k);
        lemma_pair(x, i);
    }
}

/// The diff's three metadata lists partition the keys that are not
/// unchanged: a key is added exactly when only the second artifact has it,
/// removed exactly when only the first has it, and changed exactly when both
/// have it with different values. So no key is in two of the lists, and a
/// key in neither is in both artifacts with equal values.
pub proof fn lemma_metadata_partition(a: Artifact, b: Artifact, k: Seq<char>)
    requires
        a.wf(),
        b.wf(),
    ensures
        keys_only_in(b.metadata, a.metadata).contains(k) <==> b.metadata@.contains_key(k)
            && !a.metadata@.contains_key(k),
        keys_only_in(a.metadata, b.metadata).contains(k) <==> a.metadata@.contains_key(k)
            && !b.metadata@.contains_key(k),
        metadata_changes(a, b).map_values(|c: (Seq<char>, ValueModel, ValueModel)| c.0).contains(k)
            <==> a.metadata@.contains_key(k) && b.metadata@.contains_key(k) && a.metadata@[k]
            != b.metadata@[k],
{
    lemma_keys_only_in(b.metadata, a.metadata, k);
    lemma_keys_only_in(a.metadata, b.metadata, k);
    let f = |p: (Seq<char>, ValueModel)|
        if b.metadata@.contains_key(p.0) && b.metadata@[p.0] != p.1 {
            Some((p.0, p.1, b.metadata@[p.0]))
        } else {
            None
        };
    let changes = metadata_changes(a, b);
    let names = changes.map_values(|c: (Seq<char>, ValueModel, ValueModel)| c.0);
    if names.contains(k) {
        let j = choose|j: int| 0 <= j < names.len() && names[j] == k;
        assert(changes.contains(changes[j]));
        lemma_filter_map_contains(a.metadata.pairs(), f, changes[j]);
        let i = choose|i: int| 0 <= i < a.metadata.pairs().len() && f(a.metadata.pairs()[i]) == Some(changes[j]);
        lemma_pair(a.metadata, i);
    }
    if a.metadata@.contains_key(k) && b.metadata@.contains_key(k) && a.metadata@[k] != b.metadata@[k] {
        let i = a.metadata.index_of(k);
        lemma_pair(a.metadata, i);
        let c = (k, a.metadata@[k], b.metadata@[k]);
        assert(f(a.metadata.pairs()[i]) == Some(c));
        lemma_filter_map_contains(a.metadata.pairs(), f, c);
        let j = choose|j: int| 0 <= j < changes.len() && changes[j] == c;
        assert(names[j] == k);
    }
}

/// The same partition for tensors: a name is added exactly when only the
/// second artifact has it, removed exactly when only the first has it, and
/// has a change record exactly when both have it and its dtype, shape or
/// byte length differs.
pub proof fn lemma_tensor_partition(a: Artifact, b: Artifact, k: Seq<char>)
    requires
        a.wf(),
        b.wf(),
    ensures
        keys_only_in(b.tensors, a.tensors).contains(k) <==> b.tensors@.contains_key(k)
            && !a.tensors@.contains_key(k),
        keys_only_in(a.tensors, b.tensors).contains(k) <==> a.tensors@.contains_key(k)
            && !b.tensors@.contains_key(k),
        tensor_changes(a, b).map_values(|c: TensorChangeModel| c.name).contains(k)
            <==> a.tensors@.contains_key(k) && b.tensors@.contains_key(k)
            && tensor_change(k, a.tensors@[k], b.tensors@[k]) is Some,
{
    lemma_keys_only_in(b.tensors, a.tensors, k);
    lemma_keys_only_in(a.tensors, b.tensors, k);
    let f = |p: (Seq<char>, TensorModel)|
        if b.tensors@.contains_key(p.0) {
            tensor_change(p.0, p.1, b.tensors@[p.0])
        } else {
            None
        };
    let changes = tensor_changes(a, b);
    let names = changes.map_values(|c: TensorChangeModel| c.name);
    if names.contains(k) {
        let j = choose|j: int| 0 <= j < names.len() && names[j] == k;
        assert(changes.contains(changes[j]));
        lemma_filter_map_contains(a.tensors.pairs(), f, changes[j]);
        let i = choose|i: int| 0 <= i < a.tensors.pairs().len() && f(a.tensors.pairs()[i]) == Some(changes[j]);
        lemma_pair(a.tensors, i);
    }
    if a.tensors@.contains_key(k) && b.tensors@.contains_key(k) && tensor_change(k, a.tensors@[k], b.tensors@[k]) is Some {
        let i = a.tensors.index_of(k);
        lemma_pair(a.tensors, i);
        let c = tensor_change(k, a.tensors@[k], b.tensors@[k])->0;
        assert(f(a.tensors.pairs()[i]) == Some(c));
        lemma_filter_map_contains(a.tensors.pairs(), f, c);
        let j = choose|j: int| 0 <= j < changes.len() && changes[j] == c;
        assert(names[j] == k);
    }
}

/// Comparing an artifact with itself finds no change: all six lists that
/// `diff` returns are empty.
pub proof fn lemma_diff_self(a: Artifact)
    requires
        a.wf(),
    ensures
        keys_only_in(a.metadata, a.metadata).len() == 0,
        metadata_changes(a, a).len() == 0,
        keys_only_in(a.tensors, a.tensors).len() == 0,
        tensor_changes(a, a).len() == 0,
{
    assert forall|k: Seq<char>| !keys_only_in(a.metadata, a.metadata).contains(k) by {
        lemma_keys_only_in(a.metadata, a.metadata, k);
    }
    if keys_only_in(a.metadata, a.metadata).len() > 0 {
        assert(keys_only_in(a.metadata, a.metadata).contains(keys_only_in(a.metadata, a.metadata)[0]));
    }
    assert forall|k: Seq<char>| !keys_only_in(a.tensors, a.tensors).contains(k) by {
        lemma_keys_only_in(a.tensors, a.tensors, k);
    }
    if keys_only_in(a.tensors, a.tensors).len() > 0 {
        assert(keys_only_in(a.tensors, a.tensors).contains(keys_only_in(a.tensors, a.tensors)[0]));
    }
    let mc = metadata_changes(a, a);
    if mc.len() > 0 {
        let k = mc[0].0;
        lemma_metadata_partition(a, a, k);
        assert(mc.map_values(|c: (Seq<char>, ValueModel, ValueModel)| c.0)[0] == k);
    }
    let tc = tensor_changes(a, a);
    if tc.len() > 0 {
        let k = tc[0].name;
        lemma_tensor_partition(a, a, k);
        assert(tc.map_values(|c: TensorChangeModel| c.name)[0] == k);
    }
}

} // verus!
