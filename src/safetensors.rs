//! The safetensors header decoder: an 8-byte little-endian length, then that
//! many bytes of JSON describing the tensors and an optional `__metadata__`
//! map. The length is checked against its ceiling before anything else is
//! read.
use vstd::prelude::*;
use vstd::utf8::{decode_utf8, valid_utf8};
use crate::gguf::{le_value, read_u64};
use crate::json::{
    json_entry_models, json_models, json_of_text, lemma_json_entry_models, lemma_json_models,
    parse_json, JsonModel, JsonValue,
};
use crate::keyed::KeyedMap;
use crate::text::{lower_of, lowercase, utf8_text};
use crate::types::{Artifact, ArtifactModel, CanonicalValue, Format, Tensor, TensorModel, ValueModel};

verus! {

pub const MAX_HEADER_SIZE: u64 = 100 * 1024 * 1024;

/// Why a safetensors header was rejected.
#[derive(Debug)]
pub enum SafetensorsParserError {
    /// The header is not UTF-8, not JSON, or not a JSON object.
    InvalidHeader,
    HeaderTooLarge { size: u64, max: u64 },
    /// A tensor whose end offset is not past its start offset.
    InvalidByteLength { name: String, offset: u64, end: u64 },
    MissingField { name: String, field: String },
    /// A shape entry at `index` that is not a non-negative integer.
    InvalidShape { name: String, index: usize },
    /// The input ends before the header does.
    Truncated,
}

pub enum HeaderErrorModel {
    InvalidHeader,
    HeaderTooLarge { size: u64, max: u64 },
    InvalidByteLength { name: Seq<char>, offset: u64, end: u64 },
    MissingField { name: Seq<char>, field: Seq<char> },
    InvalidShape { name: Seq<char>, index: usize },
    Truncated,
}

impl View for SafetensorsParserError {
    type V = HeaderErrorModel;

    open spec fn view(&self) -> HeaderErrorModel {
        match self {
            SafetensorsParserError::InvalidHeader => HeaderErrorModel::InvalidHeader,
            SafetensorsParserError::HeaderTooLarge { size, max } => HeaderErrorModel::HeaderTooLarge { size: *size, max: *max },
            SafetensorsParserError::InvalidByteLength { name, offset, end } => HeaderErrorModel::InvalidByteLength {
                name: name@,
                offset: *offset,
                end: *end,
            },
            SafetensorsParserError::MissingField { name, field } => HeaderErrorModel::MissingField { name: name@, field: field@ },
            SafetensorsParserError::InvalidShape { name, index } => HeaderErrorModel::InvalidShape { name: name@, index: *index },
            SafetensorsParserError::Truncated => HeaderErrorModel::Truncated,
        }
    }
}

/// The value of the first entry of `es` with key `key`.
pub open spec fn json_get(es: Seq<(Seq<char>, JsonModel)>, key: Seq<char>) -> Option<JsonModel>
    decreases es.len(),
{
    if es.len() == 0 {
        None
    } else if es[0].0 == key {
        Some(es[0].1)
    } else {
        json_get(es.drop_first(), key)
    }
}

/// A JSON value read as a `u64`, where it is a non-negative integer that fits.
pub open spec fn json_u64(j: JsonModel) -> Option<u64> {
    match j {
        JsonModel::Number(n) => n.as_u64,
        _ => None,
    }
}

/// The dimensions a shape array lists, or the index of its first entry that
/// is not a `u64`.
pub open spec fn dims_of(items: Seq<JsonModel>) -> Result<Seq<u64>, int>
    decreases items.len(),
{
    if items.len() == 0 {
        Ok(Seq::empty())
    } else {
        match dims_of(items.drop_last()) {
            Err(i) => Err(i),
            Ok(d) => match json_u64(items.last()) {
                Some(x) => Ok(d.push(x)),
                None => Err(items.len() - 1),
            },
        }
    }
}

/// The tensor that descriptor object `obj` for tensor `name` describes: its
/// `dtype` (a string, lower-cased), `shape` (an array of `u64`) and
/// `data_offsets` (at least two `u64`s, `[start, end]` with `end > start`).
pub open spec fn spec_tensor_entry(name: Seq<char>, obj: Seq<(Seq<char>, JsonModel)>) -> Result<TensorModel, HeaderErrorModel> {
    match json_get(obj, "dtype"@) {
        Some(JsonModel::Str(d)) => match json_get(obj, "shape"@) {
            Some(JsonModel::Array(items, _)) => match dims_of(items) {
                Err(i) => Err(HeaderErrorModel::InvalidShape { name, index: i as usize }),
                Ok(shape) => match json_get(obj, "data_offsets"@) {
                    Some(JsonModel::Array(offs, _)) => if offs.len() < 2 {
                        Err(HeaderErrorModel::MissingField { name, field: "data_offsets"@ })
                    } else {
                        match json_u64(offs[0]) {
                            None => Err(HeaderErrorModel::MissingField { name, field: "data_offsets[0]"@ }),
                            Some(start) => match json_u64(offs[1]) {
                                None => Err(HeaderErrorModel::MissingField { name, field: "data_offsets[1]"@ }),
                                Some(end) => if end <= start {
                                    Err(HeaderErrorModel::InvalidByteLength { name, offset: start, end })
                                } else {
                                    Ok(TensorModel { name, dtype: lower_of(d), shape, byte_length: (end - start) as u64 })
                                },
                            },
                        }
                    },
                    _ => Err(HeaderErrorModel::MissingField { name, field: "data_offsets"@ }),
                },
            },
            _ => Err(HeaderErrorModel::MissingField { name, field: "shape"@ }),
        },
        _ => Err(HeaderErrorModel::MissingField { name, field: "dtype"@ }),
    }
}

/// A `__metadata__` value as a canonical value: strings, integers, floats,
/// booleans and null keep their kind; anything else becomes its JSON text.
pub open spec fn metadata_value(j: JsonModel) -> ValueModel {
    match j {
        JsonModel::Str(s) => ValueModel::Text(s),
        JsonModel::Number(n) => if n.as_i64 is Some {
            ValueModel::Int(n.as_i64->0)
        } else if n.f64_bits is Some {
            ValueModel::Float(n.f64_bits->0)
        } else {
            ValueModel::Text(n.text)
        },
        JsonModel::Bool(b) => ValueModel::Bool(b),
        JsonModel::Null => ValueModel::Null,
        JsonModel::Array(_, t) => ValueModel::Text(t),
        JsonModel::Object(_, t) => ValueModel::Text(t),
    }
}

/// `acc` with the `__metadata__` entries `es` added in order.
pub open spec fn metadata_entries(es: Seq<(Seq<char>, JsonModel)>, acc: Map<Seq<char>, ValueModel>) -> Map<Seq<char>, ValueModel>
    decreases es.len(),
{
    if es.len() == 0 {
        acc
    } else {
        metadata_entries(es.drop_first(), acc.insert(es[0].0, metadata_value(es[0].1)))
    }
}

/// The artifact that the top-level header entries `es` describe, after the
/// metadata and tensors already gathered. Entries that are neither
/// `__metadata__` nor an object are ignored; the first bad tensor descriptor
/// in key order decides the error.
pub open spec fn spec_entries(
    es: Seq<(Seq<char>, JsonModel)>,
    metadata: Map<Seq<char>, ValueModel>,
    tensors: Map<Seq<char>, TensorModel>,
) -> Result<ArtifactModel, HeaderErrorModel>
    decreases es.len(),
{
    if es.len() == 0 {
        Ok(ArtifactModel { format: Format::Safetensors, version: None, metadata, tensors })
    } else if es[0].0 == "__metadata__"@ {
        match es[0].1 {
            JsonModel::Object(m, _) => spec_entries(es.drop_first(), metadata_entries(m, metadata), tensors),
            _ => spec_entries(es.drop_first(), metadata, tensors),
        }
    } else {
        match es[0].1 {
            JsonModel::Object(obj, _) => match spec_tensor_entry(es[0].0, obj) {
                Ok(t) => spec_entries(es.drop_first(), metadata, tensors.insert(es[0].0, t)),
                Err(e) => Err(e),
            },
            _ => spec_entries(es.drop_first(), metadata, tensors),
        }
    }
}

/// The artifact a parsed safetensors header describes.
pub open spec fn spec_header(j: JsonModel) -> Result<ArtifactModel, HeaderErrorModel> {
    match j {
        JsonModel::Object(es, _) => spec_entries(es, Map::empty(), Map::empty()),
        _ => Err(HeaderErrorModel::InvalidHeader),
    }
}

/// What a safetensors file's header describes, or why it is rejected.
pub open spec fn spec_safetensors(b: Seq<u8>) -> Result<ArtifactModel, HeaderErrorModel> {
    if b.len() < 8 {
        Err(HeaderErrorModel::Truncated)
    } else {
        let size = le_value(b, 0, 8) as int;
        if size > MAX_HEADER_SIZE {
            Err(HeaderErrorModel::HeaderTooLarge { size: size as u64, max: MAX_HEADER_SIZE })
        } else if 8 + size > b.len() {
            Err(HeaderErrorModel::Truncated)
        } else if !valid_utf8(b.subrange(8, 8 + size)) {
            Err(HeaderErrorModel::InvalidHeader)
        } else {
            match json_of_text(decode_utf8(b.subrange(8, 8 + size))) {
                None => Err(HeaderErrorModel::InvalidHeader),
                Some(j) => spec_header(j),
            }
        }
    }
}

proof fn lemma_entries_lengths_positive(
    es: Seq<(Seq<char>, JsonModel)>,
    metadata: Map<Seq<char>, ValueModel>,
    tensors: Map<Seq<char>, TensorModel>,
)
    requires
        forall|k: Seq<char>| #[trigger] tensors.contains_key(k) ==> tensors[k].byte_length > 0,
    ensures
        spec_entries(es, metadata, tensors) matches Ok(a) ==> forall|k: Seq<char>|
            #[trigger] a.tensors.contains_key(k) ==> a.tensors[k].byte_length > 0,
    decreases es.len(),
{
    if es.len() > 0 {
        if es[0].0 == "__metadata__"@ {
            match es[0].1 {
                JsonModel::Object(m, _) => lemma_entries_lengths_positive(es.drop_first(), metadata_entries(m, metadata), tensors),
                _ => lemma_entries_lengths_positive(es.drop_first(), metadata, tensors),
            }
        } else {
            match es[0].1 {
                JsonModel::Object(obj, _) => match spec_tensor_entry(es[0].0, obj) {
                    Ok(t) => {
                        let t2 = tensors.insert(es[0].0, t);
                        assert forall|k: Seq<char>| #[trigger] t2.contains_key(k) implies t2[k].byte_length > 0 by {
                            if k != es[0].0 {
                                assert(tensors.contains_key(k));
                            }
                        }
                        lemma_entries_lengths_positive(es.drop_first(), metadata, t2);
                    },
                    Err(_) => {},
                },
                _ => lemma_entries_lengths_positive(es.drop_first(), metadata, tensors),
            }
        }
    }
}

/// No zero-length tensor: every tensor of an accepted safetensors header
/// has a positive byte length, its end offset minus its start offset; a
/// descriptor whose end is not past its start is rejected with
/// `InvalidByteLength`, as `spec_tensor_entry` states.
pub proof fn lemma_byte_lengths_positive(b: Seq<u8>)
    ensures
        spec_safetensors(b) matches Ok(a) ==> forall|k: Seq<char>|
            #[trigger] a.tensors.contains_key(k) ==> a.tensors[k].byte_length > 0,
{
    if b.len() >= 8 && le_value(b, 0, 8) <= MAX_HEADER_SIZE && 8 + le_value(b, 0, 8) <= b.len() {
        let hb = b.subrange(8, 8 + le_value(b, 0, 8) as int);
        if valid_utf8(hb) {
            match json_of_text(decode_utf8(hb)) {
                Some(JsonModel::Object(es, _)) => {
                    lemma_entries_lengths_positive(es, Map::empty(), Map::empty());
                },
                _ => {},
            }
        }
    }
}

/// A header length over the ceiling is rejected for that length, whatever
/// bytes follow it.
pub proof fn lemma_header_ceiling(b: Seq<u8>)
    requires
        b.len() >= 8,
        le_value(b, 0, 8) > MAX_HEADER_SIZE,
    ensures
        spec_safetensors(b) == Err::<ArtifactModel, HeaderErrorModel>(
            HeaderErrorModel::HeaderTooLarge { size: le_value(b, 0, 8) as u64, max: MAX_HEADER_SIZE },
        ),
{
}

/// Reads the 8-byte header length and checks it against its ceiling.
pub fn read_header_size(b: &[u8]) -> (r: Result<u64, SafetensorsParserError>)
    ensures
        match r {
            Ok(size) => b@.len() >= 8 && size == le_value(b@, 0, 8) && size <= MAX_HEADER_SIZE,
            Err(e) => (b@.len() < 8 && e@ == HeaderErrorModel::Truncated) || (b@.len() >= 8
                && le_value(b@, 0, 8) > MAX_HEADER_SIZE && e@ == HeaderErrorModel::HeaderTooLarge {
                size: le_value(b@, 0, 8) as u64,
                max: MAX_HEADER_SIZE,
            }),
        },
{
    let size = match read_u64(b, 0) {
        Ok((size, _)) => size,
        Err(_) => {
            return Err(SafetensorsParserError::Truncated);
        },
    };
    if size > MAX_HEADER_SIZE {
        return Err(SafetensorsParserError::HeaderTooLarge { size, max: MAX_HEADER_SIZE });
    }
    Ok(size)
}

/// The first entry of `es` with key `key`.
fn json_lookup<'a>(es: &'a Vec<(String, JsonValue)>, key: &str) -> (r: Option<&'a JsonValue>)
    ensures
        match r {
            Some(v) => json_get(json_entry_models(es@), key@) == Some(v@),
            None => json_get(json_entry_models(es@), key@) is None,
        },
{
    let ghost all = json_entry_models(es@);
    proof {
        lemma_json_entry_models(es@);
        assert(all.subrange(0, all.len() as int) =~= all);
    }
    let mut i: usize = 0;
    while i < es.len()
        invariant
            0 <= i <= es@.len(),
            all == json_entry_models(es@),
            all.len() == es@.len(),
            forall|j: int| 0 <= j < es@.len() ==> #[trigger] all[j] == (es@[j].0@, es@[j].1@),
            json_get(all, key@) == json_get(all.subrange(i as int, all.len() as int), key@),
        decreases es@.len() - i,
    {
        let ghost rest = all.subrange(i as int, all.len() as int);
        assert(rest[0] == all[i as int]);
        assert(rest.drop_first() =~= all.subrange(i + 1, all.len() as int));
        if crate::keyed::compare_keys(es[i].0.as_str(), key) == 0 {
            return Some(&es[i].1);
        }
        i = i + 1;
    }
    None
}

fn json_u64_exec(j: &JsonValue) -> (r: Option<u64>)
    ensures
        r == json_u64(j@),
{
    match j {
        JsonValue::Number(n) => n.as_u64,
        _ => None,
    }
}

proof fn lemma_dims_prefix_err(s: Seq<JsonModel>, k: int, e: int)
    requires
        0 <= k <= s.len(),
        dims_of(s.subrange(0, k)) == Err::<Seq<u64>, int>(e),
    ensures
        dims_of(s) == Err::<Seq<u64>, int>(e),
    decreases s.len() - k,
{
    if k < s.len() {
        assert(s.subrange(0, k + 1).drop_last() =~= s.subrange(0, k));
        lemma_dims_prefix_err(s, k + 1, e);
    } else {
        assert(s.subrange(0, k) =~= s);
    }
}

/// The dimensions a shape array lists, or the index of its first entry that
/// is not a `u64`.
fn shape_dims(items: &Vec<JsonValue>) -> (r: Result<Vec<u64>, usize>)
    ensures
        match r {
            Ok(d) => dims_of(json_models(items@)) == Ok::<Seq<u64>, int>(d@),
            Err(i) => dims_of(json_models(items@)) == Err::<Seq<u64>, int>(i as int),
        },
{
    let ghost all = json_models(items@);
    proof {
        lemma_json_models(items@);
        assert(all.subrange(0, 0) =~= Seq::<JsonModel>::empty());
    }
    let mut dims: Vec<u64> = Vec::new();
    let mut i: usize = 0;
    while i < items.len()
        invariant
            0 <= i <= items@.len(),
            all == json_models(items@),
            all.len() == items@.len(),
            forall|j: int| 0 <= j < items@.len() ==> #[trigger] all[j] == items@[j]@,
            dims_of(all.subrange(0, i as int)) == Ok::<Seq<u64>, int>(dims@),
        decreases items@.len() - i,
    {
        let ghost prev = all.subrange(0, i as int);
        proof {
            assert(all.subrange(0, i + 1).drop_last() =~= prev);
            assert(all.subrange(0, i + 1).last() == all[i as int]);
        }
        match json_u64_exec(&items[i]) {
            Some(d) => {
                dims.push(d);
            },
            None => {
                proof {
                    lemma_dims_prefix_err(all, i + 1, i as int);
                }
                return Err(i);
            },
        }
        i = i + 1;
    }
    assert(all.subrange(0, i as int) =~= all);
    Ok(dims)
}

/// The tensor that descriptor object `obj` for tensor `name` describes.
fn tensor_entry(name: &String, obj: &Vec<(String, JsonValue)>) -> (r: Result<Tensor, SafetensorsParserError>)
    ensures
        match r {
            Ok(t) => spec_tensor_entry(name@, json_entry_models(obj@)) == Ok::<TensorModel, HeaderErrorModel>(t@),
            Err(e) => spec_tensor_entry(name@, json_entry_models(obj@)) == Err::<TensorModel, HeaderErrorModel>(e@),
        },
{
    let dtype = match json_lookup(obj, "dtype") {
        Some(JsonValue::String(d)) => lowercase(d.as_str()),
        _ => {
            return Err(SafetensorsParserError::MissingField { name: name.clone(), field: "dtype".to_owned() });
        },
    };
    let items = match json_lookup(obj, "shape") {
        Some(JsonValue::Array(items, _)) => items,
        _ => {
            return Err(SafetensorsParserError::MissingField { name: name.clone(), field: "shape".to_owned() });
        },
    };
    let shape = match shape_dims(items) {
        Ok(d) => d,
        Err(index) => {
            return Err(SafetensorsParserError::InvalidShape { name: name.clone(), index });
        },
    };
    let offsets = match json_lookup(obj, "data_offsets") {
        Some(JsonValue::Array(o, _)) => o,
        _ => {
            return Err(
                SafetensorsParserError::MissingField { name: name.clone(), field: "data_offsets".to_owned() },
            );
        },
    };
    proof {
        lemma_json_models(offsets@);
    }
    if offsets.len() < 2 {
        return Err(
            SafetensorsParserError::MissingField { name: name.clone(), field: "data_offsets".to_owned() },
        );
    }
    let start = match json_u64_exec(&offsets[0]) {
        Some(x) => x,
        None => {
            return Err(
                SafetensorsParserError::MissingField { name: name.clone(), field: "data_offsets[0]".to_owned() },
            );
        },
    };
    let end = match json_u64_exec(&offsets[1]) {
        Some(x) => x,
        None => {
            return Err(
                SafetensorsParserError::MissingField { name: name.clone(), field: "data_offsets[1]".to_owned() },
            );
        },
    };
    if end <= start {
        return Err(SafetensorsParserError::InvalidByteLength { name: name.clone(), offset: start, end });
    }
    Ok(Tensor { name: name.clone(), dtype, shape, byte_length: end - start })
}

/// A `__metadata__` value as a canonical value.
fn metadata_value_of(j: &JsonValue) -> (r: CanonicalValue)
    ensures
        r@ == metadata_value(j@),
{
    match j {
        JsonValue::String(s) => CanonicalValue::String(s.clone()),
        JsonValue::Number(n) => {
            if let Some(i) = n.as_i64 {
                CanonicalValue::Int(i)
            } else if let Some(f) = n.f64_bits {
                CanonicalValue::Float(f)
            } else {
                CanonicalValue::String(n.text.clone())
            }
        },
        JsonValue::Bool(b) => CanonicalValue::Bool(*b),
        JsonValue::Null => CanonicalValue::Null,
        JsonValue::Array(_, t) => CanonicalValue::String(t.clone()),
        JsonValue::Object(_, t) => CanonicalValue::String(t.clone()),
    }
}

/// Builds the artifact that a parsed safetensors header describes.
pub fn artifact_from_header(json: &JsonValue) -> (r: Result<Artifact, SafetensorsParserError>)
    ensures
        match r {
            Ok(a) => a.wf() && spec_header(json@) == Ok::<ArtifactModel, HeaderErrorModel>(a@),
            Err(e) => spec_header(json@) == Err::<ArtifactModel, HeaderErrorModel>(e@),
        },
{
    let entries = match json {
        JsonValue::Object(entries, _) => entries,
        _ => {
            return Err(SafetensorsParserError::InvalidHeader);
        },
    };
    let ghost all = json_entry_models(entries@);
    proof {
        lemma_json_entry_models(entries@);
        assert(all.subrange(0, all.len() as int) =~= all);
    }
    let mut metadata: KeyedMap<CanonicalValue> = KeyedMap::new();
    let mut tensors: KeyedMap<Tensor> = KeyedMap::new();
    let mut i: usize = 0;
    while i < entries.len()
        invariant
            0 <= i <= entries@.len(),
            all == json_entry_models(entries@),
            all.len() == entries@.len(),
            forall|j: int| 0 <= j < entries@.len() ==> #[trigger] all[j] == (entries@[j].0@, entries@[j].1@),
            metadata.wf(),
            tensors.wf(),
            spec_header(json@) == spec_entries(all.subrange(i as int, all.len() as int), metadata@, tensors@),
        decreases entries@.len() - i,
    {
        let ghost rest = all.subrange(i as int, all.len() as int);
        assert(rest[0] == all[i as int]);
        assert(rest.drop_first() =~= all.subrange(i + 1, all.len() as int));
        let key = &entries[i].0;
        let value = &entries[i].1;
        if crate::keyed::compare_keys(key.as_str(), "__metadata__") == 0 {
            match value {
                JsonValue::Object(m, _) => {
                    let ghost mall = json_entry_models(m@);
                    proof {
                        lemma_json_entry_models(m@);
                        assert(mall.subrange(0, mall.len() as int) =~= mall);
                    }
                    let ghost target = metadata_entries(mall, metadata@);
                    let mut k: usize = 0;
                    while k < m.len()
                        invariant
                            0 <= k <= m@.len(),
                            mall == json_entry_models(m@),
                            mall.len() == m@.len(),
                            forall|j: int| 0 <= j < m@.len() ==> #[trigger] mall[j] == (m@[j].0@, m@[j].1@),
                            metadata.wf(),
                            target == metadata_entries(mall.subrange(k as int, mall.len() as int), metadata@),
                        decreases m@.len() - k,
                    {
                        let ghost mrest = mall.subrange(k as int, mall.len() as int);
                        assert(mrest[0] == mall[k as int]);
                        assert(mrest.drop_first() =~= mall.subrange(k + 1, mall.len() as int));
                        let v = metadata_value_of(&m[k].1);
                        metadata.insert(m[k].0.clone(), v);
                        k = k + 1;
                    }
                    assert(mall.subrange(k as int, mall.len() as int) =~= Seq::<(Seq<char>, JsonModel)>::empty());
                },
                _ => {},
            }
        } else {
            match value {
                JsonValue::Object(obj, _) => {
                    match tensor_entry(key, obj) {
                        Ok(t) => {
                            tensors.insert(key.clone(), t);
                        },
                        Err(e) => {
                            return Err(e);
                        },
                    }
                },
                _ => {},
            }
        }
        i = i + 1;
    }
    Ok(Artifact { format: Format::Safetensors, gguf_version: None, metadata, tensors })
}

/// Decodes a safetensors header into an artifact. Only the length prefix and
/// the header are read, never the tensor data after them.
pub fn parse_safetensors(b: &[u8]) -> (r: Result<Artifact, SafetensorsParserError>)
    ensures
        match r {
            Ok(a) => a.wf() && spec_safetensors(b@) == Ok::<ArtifactModel, HeaderErrorModel>(a@),
            Err(e) => spec_safetensors(b@) == Err::<ArtifactModel, HeaderErrorModel>(e@),
        },
{
    let size = read_header_size(b)?;
    let len = b.len();
    if ((len - 8) as u64) < size {
        return Err(SafetensorsParserError::Truncated);
    }
    let end: usize = 8 + size as usize;
    let header = vstd::slice::slice_subrange(b, 8, end);
    let text = match utf8_text(header) {
        Some(t) => t,
        None => {
            return Err(SafetensorsParserError::InvalidHeader);
        },
    };
    let json = match parse_json(text.as_str()) {
        Some(j) => j,
        None => {
            return Err(SafetensorsParserError::InvalidHeader);
        },
    };
    artifact_from_header(&json)
}

} // verus!
