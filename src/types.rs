//! The common model that every parser produces: an [`Artifact`] with its
//! metadata values and tensor descriptors.
use vstd::prelude::*;
use crate::keyed::KeyedMap;

verus! {

/// The file format an artifact was read from.
#[derive(Clone, Copy, Debug, PartialEq, Eq, Structural)]
pub enum Format {
    GGUF,
    Safetensors,
    Onnx,
}

/// A metadata value. Floating-point variants hold the raw bit pattern of the
/// value, so that equality and hashing are total and bitwise.
#[derive(Debug, Hash)]
pub enum CanonicalValue {
    Null,
    Bool(bool),
    Int(i64),
    /// The bit pattern of a 64-bit float.
    Float(u64),
    String(String),
    Array(Vec<CanonicalValue>),
    Uint8(i64),
    Int8(i64),
    Uint16(i64),
    Int16(i64),
    Uint32(i64),
    Int32(i64),
    Uint64(i64),
    Int64(i64),
    /// The bit pattern of a 32-bit float.
    Float32(u32),
}

/// The mathematical model of a [`CanonicalValue`]; two values are equal
/// exactly when their models are.
pub enum ValueModel {
    Null,
    Bool(bool),
    Int(i64),
    Float(u64),
    Text(Seq<char>),
    Array(Seq<ValueModel>),
    Uint8(i64),
    Int8(i64),
    Uint16(i64),
    Int16(i64),
    Uint32(i64),
    Int32(i64),
    Uint64(i64),
    Int64(i64),
    Float32(u32),
}

pub open spec fn value_model(v: CanonicalValue) -> ValueModel
    decreases v,
{
    match v {
        CanonicalValue::Null => ValueModel::Null,
        CanonicalValue::Bool(b) => ValueModel::Bool(b),
        CanonicalValue::Int(i) => ValueModel::Int(i),
        CanonicalValue::Float(f) => ValueModel::Float(f),
        CanonicalValue::String(s) => ValueModel::Text(s@),
        CanonicalValue::Array(a) => ValueModel::Array(value_models(a@)),
        CanonicalValue::Uint8(i) => ValueModel::Uint8(i),
        CanonicalValue::Int8(i) => ValueModel::Int8(i),
        CanonicalValue::Uint16(i) => ValueModel::Uint16(i),
        CanonicalValue::Int16(i) => ValueModel::Int16(i),
        CanonicalValue::Uint32(i) => ValueModel::Uint32(i),
        CanonicalValue::Int32(i) => ValueModel::Int32(i),
        CanonicalValue::Uint64(i) => ValueModel::Uint64(i),
        CanonicalValue::Int64(i) => ValueModel::Int64(i),
        CanonicalValue::Float32(f) => ValueModel::Float32(f),
    }
}

/// The models of a sequence of values, element by element.
pub open spec fn value_models(s: Seq<CanonicalValue>) -> Seq<ValueModel>
    decreases s,
{
    if s.len() == 0 {
        Seq::empty()
    } else {
        value_models(s.drop_last()).push(value_model(s.last()))
    }
}

pub proof fn lemma_value_models(s: Seq<CanonicalValue>)
    ensures
        value_models(s).len() == s.len(),
        forall|i: int| 0 <= i < s.len() ==> #[trigger] value_models(s)[i] == value_model(s[i]),
    decreases s.len(),
{
    if s.len() > 0 {
        lemma_value_models(s.drop_last());
    }
}

impl View for CanonicalValue {
    type V = ValueModel;

    open spec fn view(&self) -> ValueModel {
        value_model(*self)
    }
}

impl CanonicalValue {
    /// A deep copy of the value.
    pub fn duplicate(&self) -> (r: CanonicalValue)
        ensures
            r@ == self@,
        decreases self,
    {
        match self {
            CanonicalValue::Null => CanonicalValue::Null,
            CanonicalValue::Bool(b) => CanonicalValue::Bool(*b),
            CanonicalValue::Int(i) => CanonicalValue::Int(*i),
            CanonicalValue::Float(f) => CanonicalValue::Float(*f),
            CanonicalValue::String(s) => CanonicalValue::String(s.clone()),
            CanonicalValue::Array(a) => {
                let mut out: Vec<CanonicalValue> = Vec::new();
                let mut i: usize = 0;
                while i < a.len()
                    invariant
                        0 <= i <= a@.len(),
                        *self == CanonicalValue::Array(*a),
                        out@.len() == i,
                        forall|j: int| 0 <= j < i ==> #[trigger] value_model(out@[j]) == value_model(a@[j]),
                    decreases a@.len() - i,
                {
                    proof {
                        vstd::std_specs::vec::axiom_vec_index_decreases(*a, i as int);
                        assert(*a == self->Array_0);
                        assert(decreases_to!(*self => self->Array_0));
                        assert(decreases_to!(self->Array_0 => a[i as int]));
                    }
                    let c = a[i].duplicate();
                    out.push(c);
                    i = i + 1;
                }
                let r = CanonicalValue::Array(out);
                proof {
                    lemma_value_models(out@);
                    lemma_value_models(a@);
                    assert(value_models(out@) =~= value_models(a@));
                }
                r
            },
            CanonicalValue::Uint8(i) => CanonicalValue::Uint8(*i),
            CanonicalValue::Int8(i) => CanonicalValue::Int8(*i),
            CanonicalValue::Uint16(i) => CanonicalValue::Uint16(*i),
            CanonicalValue::Int16(i) => CanonicalValue::Int16(*i),
            CanonicalValue::Uint32(i) => CanonicalValue::Uint32(*i),
            CanonicalValue::Int32(i) => CanonicalValue::Int32(*i),
            CanonicalValue::Uint64(i) => CanonicalValue::Uint64(*i),
            CanonicalValue::Int64(i) => CanonicalValue::Int64(*i),
            CanonicalValue::Float32(f) => CanonicalValue::Float32(*f),
        }
    }
}

/// Bitwise equality of two values: floats compare by bit pattern, so a NaN
/// equals itself.
pub fn values_equal(a: &CanonicalValue, b: &CanonicalValue) -> (r: bool)
    ensures
        r == (a@ == b@),
    decreases a,
{
    match (a, b) {
        (CanonicalValue::Null, CanonicalValue::Null) => true,
        (CanonicalValue::Bool(x), CanonicalValue::Bool(y)) => *x == *y,
        (CanonicalValue::Int(x), CanonicalValue::Int(y)) => *x == *y,
        (CanonicalValue::Float(x), CanonicalValue::Float(y)) => *x == *y,
        (CanonicalValue::String(x), CanonicalValue::String(y)) => *x == *y,
        (CanonicalValue::Array(x), CanonicalValue::Array(y)) => {
            proof {
                lemma_value_models(x@);
                lemma_value_models(y@);
            }
            if x.len() != y.len() {
                return false;
            }
            let mut i: usize = 0;
            while i < x.len()
                invariant
                    0 <= i <= x@.len(),
                    x@.len() == y@.len(),
                    *a == CanonicalValue::Array(*x),
                    *b == CanonicalValue::Array(*y),
                    value_models(x@).len() == x@.len(),
                    value_models(y@).len() == y@.len(),
                    forall|j: int| 0 <= j < x@.len() ==> #[trigger] value_models(x@)[j] == value_model(x@[j]),
                    forall|j: int| 0 <= j < y@.len() ==> #[trigger] value_models(y@)[j] == value_model(y@[j]),
                    forall|j: int| 0 <= j < i ==> value_model(#[trigger] x@[j]) == value_model(y@[j]),
                decreases x@.len() - i,
            {
                proof {
                    vstd::std_specs::vec::axiom_vec_index_decreases(*x, i as int);
                    assert(decreases_to!(*a => a->Array_0));
                    assert(decreases_to!(a->Array_0 => x[i as int]));
                }
                if !values_equal(&x[i], &y[i]) {
                    assert(value_models(x@)[i as int] != value_models(y@)[i as int]);
                    assert(a@ == ValueModel::Array(value_models(x@)));
                    assert(b@ == ValueModel::Array(value_models(y@)));
                    return false;
                }
                i = i + 1;
            }
            assert(value_models(x@) =~= value_models(y@));
            true
        },
        (CanonicalValue::Uint8(x), CanonicalValue::Uint8(y)) => *x == *y,
        (CanonicalValue::Int8(x), CanonicalValue::Int8(y)) => *x == *y,
        (CanonicalValue::Uint16(x), CanonicalValue::Uint16(y)) => *x == *y,
        (CanonicalValue::Int16(x), CanonicalValue::Int16(y)) => *x == *y,
        (CanonicalValue::Uint32(x), CanonicalValue::Uint32(y)) => *x == *y,
        (CanonicalValue::Int32(x), CanonicalValue::Int32(y)) => *x == *y,
        (CanonicalValue::Uint64(x), CanonicalValue::Uint64(y)) => *x == *y,
        (CanonicalValue::Int64(x), CanonicalValue::Int64(y)) => *x == *y,
        (CanonicalValue::Float32(x), CanonicalValue::Float32(y)) => *x == *y,
        _ => false,
    }
}

impl PartialEq for CanonicalValue {
    fn eq(&self, other: &CanonicalValue) -> (r: bool) {
        values_equal(self, other)
    }
}

impl Eq for CanonicalValue {}

impl vstd::std_specs::cmp::PartialEqSpecImpl for CanonicalValue {
    open spec fn obeys_eq_spec() -> bool {
        true
    }

    open spec fn eq_spec(&self, other: &CanonicalValue) -> bool {
        self@ == other@
    }
}

impl Clone for CanonicalValue {
    fn clone(&self) -> (r: Self)
        ensures
            r@ == self@,
    {
        self.duplicate()
    }
}

/// The structural descriptor of one weight tensor (not its data).
#[derive(Clone, Debug, PartialEq)]
pub struct Tensor {
    pub name: String,
    /// Lower-case element type name, such as `f32` or `q4_k`.
    pub dtype: String,
    pub shape: Vec<u64>,
    /// Payload size in bytes; 0 where the encoding's size is unknown.
    pub byte_length: u64,
}

pub struct TensorModel {
    pub name: Seq<char>,
    pub dtype: Seq<char>,
    pub shape: Seq<u64>,
    pub byte_length: u64,
}

impl View for Tensor {
    type V = TensorModel;

    open spec fn view(&self) -> TensorModel {
        TensorModel {
            name: self.name@,
            dtype: self.dtype@,
            shape: self.shape@,
            byte_length: self.byte_length,
        }
    }
}

/// A copy of a vector of dimensions.
pub fn copy_dims(v: &Vec<u64>) -> (r: Vec<u64>)
    ensures
        r@ == v@,
{
    let mut out: Vec<u64> = Vec::new();
    let mut i: usize = 0;
    while i < v.len()
        invariant
            0 <= i <= v@.len(),
            out@ == v@.subrange(0, i as int),
        decreases v@.len() - i,
    {
        out.push(v[i]);
        i = i + 1;
        assert(out@ =~= v@.subrange(0, i as int));
    }
    assert(out@ =~= v@);
    out
}

/// Whether two dimension vectors are equal.
pub fn dims_equal(a: &Vec<u64>, b: &Vec<u64>) -> (r: bool)
    ensures
        r == (a@ == b@),
{
    if a.len() != b.len() {
        return false;
    }
    let mut i: usize = 0;
    while i < a.len()
        invariant
            0 <= i <= a@.len(),
            a@.len() == b@.len(),
            forall|j: int| 0 <= j < i ==> a@[j] == b@[j],
        decreases a@.len() - i,
    {
        if a[i] != b[i] {
            return false;
        }
        i = i + 1;
    }
    assert(a@ =~= b@);
    true
}

impl Tensor {
    /// A copy of the descriptor.
    pub fn duplicate(&self) -> (r: Tensor)
        ensures
            r@ == self@,
    {
        Tensor {
            name: self.name.clone(),
            dtype: self.dtype.clone(),
            shape: copy_dims(&self.shape),
            byte_length: self.byte_length,
        }
    }
}

/// The canonical description of one model file.
#[derive(Clone, Debug)]
pub struct Artifact {
    pub format: Format,
    /// The format revision: the GGUF version or the ONNX IR version; `None`
    /// for safetensors.
    pub gguf_version: Option<i64>,
    pub metadata: KeyedMap<CanonicalValue>,
    pub tensors: KeyedMap<Tensor>,
}

pub struct ArtifactModel {
    pub format: Format,
    pub version: Option<i64>,
    pub metadata: Map<Seq<char>, ValueModel>,
    pub tensors: Map<Seq<char>, TensorModel>,
}

impl View for Artifact {
    type V = ArtifactModel;

    open spec fn view(&self) -> ArtifactModel {
        ArtifactModel {
            format: self.format,
            version: self.gguf_version,
            metadata: self.metadata@,
            tensors: self.tensors@,
        }
    }
}

impl Artifact {
    /// Both maps keep their entries sorted by key.
    pub open spec fn wf(&self) -> bool {
        self.metadata.wf() && self.tensors.wf()
    }

    /// A deep copy: the same entries in the same order.
    pub fn duplicate(&self) -> (r: Artifact)
        ensures
            r.format == self.format,
            r.gguf_version == self.gguf_version,
            r.metadata.pairs() == self.metadata.pairs(),
            r.tensors.pairs() == self.tensors.pairs(),
            self.wf() ==> r.wf() && r@ == self@,
    {
        let mut metadata: Vec<(String, CanonicalValue)> = Vec::new();
        let mut i: usize = 0;
        while i < self.metadata.entries.len()
            invariant
                0 <= i <= self.metadata.entries@.len(),
                metadata@.len() == i,
                forall|j: int| 0 <= j < i ==> #[trigger] metadata@[j].0@ == self.metadata.entries@[j].0@
                    && metadata@[j].1@ == self.metadata.entries@[j].1@,
            decreases self.metadata.entries@.len() - i,
        {
            let e = &self.metadata.entries[i];
            metadata.push((e.0.clone(), e.1.duplicate()));
            i = i + 1;
        }
        let mut tensors: Vec<(String, Tensor)> = Vec::new();
        let mut j: usize = 0;
        while j < self.tensors.entries.len()
            invariant
                0 <= j <= self.tensors.entries@.len(),
                tensors@.len() == j,
                forall|k: int| 0 <= k < j ==> #[trigger] tensors@[k].0@ == self.tensors.entries@[k].0@
                    && tensors@[k].1@ == self.tensors.entries@[k].1@,
            decreases self.tensors.entries@.len() - j,
        {
            let e = &self.tensors.entries[j];
            tensors.push((e.0.clone(), e.1.duplicate()));
            j = j + 1;
        }
        let r = Artifact {
            format: self.format,
            gguf_version: self.gguf_version,
            metadata: KeyedMap { entries: metadata },
            tensors: KeyedMap { entries: tensors },
        };
        assert(r.metadata.pairs() =~= self.metadata.pairs());
        assert(r.tensors.pairs() =~= self.tensors.pairs());
        proof {
            self.metadata.lemma_same_pairs(&r.metadata);
            self.tensors.lemma_same_pairs(&r.tensors);
        }
        r
    }
}

} // verus!
