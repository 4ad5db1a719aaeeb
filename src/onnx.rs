//! The ONNX decoder. It reads a model message that a protocol-buffer library
//! has already decoded: model-level fields become metadata, graph
//! initializers become tensors, and the graph's inputs and outputs are
//! recorded as name lists.
use vstd::prelude::*;
use crate::keyed::{key_lt, KeyedMap};
use crate::gguf::{count_elements, element_count};
use crate::text::{chars_of, push_signed_decimal, signed_decimal, string_of};
use crate::types::{Artifact, ArtifactModel, CanonicalValue, Format, Tensor, TensorModel, ValueModel};

verus! {

/// Why an ONNX model could not be read.
#[derive(Debug)]
pub enum OnnxParserError {
    /// The protocol-buffer decoder rejected the bytes; the message says why.
    ParseError(String),
}

/// An operator set the model imports.
#[derive(Debug)]
pub struct OnnxOperatorSet {
    pub version: Option<i64>,
}

/// A computation node of the graph.
#[derive(Debug)]
pub struct OnnxNode {
    pub op_type: Option<String>,
}

/// A stored tensor (a graph initializer): its name, dimensions and element
/// type code.
#[derive(Debug)]
pub struct OnnxTensor {
    pub name: Option<String>,
    pub dims: Vec<i64>,
    pub data_type: i32,
}

/// A graph input or output.
#[derive(Debug)]
pub struct OnnxValueInfo {
    pub name: Option<String>,
}

#[derive(Debug)]
pub struct OnnxGraph {
    pub node: Vec<OnnxNode>,
    pub initializer: Vec<OnnxTensor>,
    pub input: Vec<OnnxValueInfo>,
    pub output: Vec<OnnxValueInfo>,
}

/// The fields of a decoded ONNX model message that describe its structure.
#[derive(Debug)]
pub struct OnnxModel {
    pub ir_version: Option<i64>,
    pub producer_name: Option<String>,
    pub producer_version: Option<String>,
    pub domain: Option<String>,
    pub model_version: Option<i64>,
    pub opset_import: Vec<OnnxOperatorSet>,
    pub graph: Option<OnnxGraph>,
}

/// The name of an ONNX element type code; unknown codes read `unknown_<code>`.
pub open spec fn onnx_dtype_name(d: i32) -> Seq<char> {
    if d == 1 { "float32"@ }
    else if d == 2 { "uint8"@ }
    else if d == 3 { "int8"@ }
    else if d == 4 { "uint16"@ }
    else if d == 5 { "int16"@ }
    else if d == 6 { "int32"@ }
    else if d == 7 { "int64"@ }
    else if d == 8 { "string"@ }
    else if d == 9 { "bool"@ }
    else if d == 10 { "float16"@ }
    else if d == 11 { "float64"@ }
    else if d == 12 { "uint32"@ }
    else if d == 13 { "uint64"@ }
    else if d == 14 { "complex64"@ }
    else if d == 15 { "complex128"@ }
    else if d == 16 { "bfloat16"@ }
    else { "unknown_"@ + signed_decimal(d as int) }
}

/// Bytes per element of an ONNX element type; 1 for unknown codes.
pub open spec fn onnx_element_width(d: i32) -> nat {
    if d == 1 || d == 6 || d == 12 { 4 }
    else if d == 2 || d == 3 || d == 8 || d == 9 { 1 }
    else if d == 4 || d == 5 || d == 10 || d == 16 { 2 }
    else if d == 7 || d == 11 || d == 13 || d == 14 { 8 }
    else if d == 15 { 16 }
    else { 1 }
}

/// The name of an ONNX element type code.
pub fn onnx_dtype_str(dtype: i32) -> (r: String)
    ensures
        r@ == onnx_dtype_name(dtype),
{
    let name: &str = if dtype == 1 { "float32" }
    else if dtype == 2 { "uint8" }
    else if dtype == 3 { "int8" }
    else if dtype == 4 { "uint16" }
    else if dtype == 5 { "int16" }
    else if dtype == 6 { "int32" }
    else if dtype == 7 { "int64" }
    else if dtype == 8 { "string" }
    else if dtype == 9 { "bool" }
    else if dtype == 10 { "float16" }
    else if dtype == 11 { "float64" }
    else if dtype == 12 { "uint32" }
    else if dtype == 13 { "uint64" }
    else if dtype == 14 { "complex64" }
    else if dtype == 15 { "complex128" }
    else if dtype == 16 { "bfloat16" }
    else {
        let mut out = chars_of("unknown_");
        push_signed_decimal(dtype as i64, &mut out);
        return string_of(&out);
    };
    name.to_owned()
}

/// Bytes per element of an ONNX element type; 1 for unknown codes.
pub fn dtype_size(dtype: i32) -> (r: usize)
    ensures
        r == onnx_element_width(dtype),
{
    if dtype == 1 || dtype == 6 || dtype == 12 {
        4
    } else if dtype == 2 || dtype == 3 || dtype == 8 || dtype == 9 {
        1
    } else if dtype == 4 || dtype == 5 || dtype == 10 || dtype == 16 {
        2
    } else if dtype == 7 || dtype == 11 || dtype == 13 || dtype == 14 {
        8
    } else if dtype == 15 {
        16
    } else {
        1
    }
}

/// A dimension as an unsigned size: negative values wrap, as a cast does.
pub open spec fn dim_as_u64(x: i64) -> u64 {
    if x >= 0 { x as u64 } else { (x + 0x1_0000_0000_0000_0000) as u64 }
}

/// The `Debug` text of a list of strings, as `format!("{:?}", v)` writes it
/// for a `Vec<String>`.
pub uninterp spec fn debug_list(items: Seq<Seq<char>>) -> Seq<char>;

/// The order of `String`'s `Ord`: by code point, shorter first on a tie.
pub open spec fn text_leq(a: Seq<char>, b: Seq<char>) -> bool {
    !key_lt(b, a)
}

pub open spec fn texts_of(v: Seq<String>) -> Seq<Seq<char>> {
    v.map_values(|s: String| s@)
}

/// Relies on the `Debug` impl of `Vec<String>`: the text depends on the
/// strings alone.
#[verifier::external_body]
fn debug_text(items: &Vec<String>) -> (r: String)
    ensures
        r@ == debug_list(texts_of(items@)),
{
    format!("{:?}", items)
}

/// Relies on `slice::sort` for `String`: ascending by `String`'s `Ord`, which
/// compares the UTF-8 bytes, the same order as the code points.
#[verifier::external_body]
fn sort_texts(items: &mut Vec<String>)
    ensures
        texts_of(final(items)@) == texts_of(old(items)@).sort_by(|a: Seq<char>, b: Seq<char>| text_leq(a, b)),
{
    items.sort();
}

pub open spec fn some_texts(v: Seq<Option<String>>) -> Seq<Seq<char>> {
    v.filter_map(|o: Option<String>| match o { Some(s) => Some(s@), None => None })
}

/// The opset versions, each as its decimal text, skipping absent ones.
pub open spec fn opset_texts(v: Seq<OnnxOperatorSet>) -> Seq<Seq<char>> {
    v.filter_map(|o: OnnxOperatorSet| match o.version { Some(x) => Some(signed_decimal(x as int)), None => None })
}

/// The operator types of the nodes that have one, in node order.
pub open spec fn op_types(v: Seq<OnnxNode>) -> Seq<Seq<char>> {
    some_texts(v.map_values(|n: OnnxNode| n.op_type))
}

/// The names of the inputs or outputs that have one, in order.
pub open spec fn value_names(v: Seq<OnnxValueInfo>) -> Seq<Seq<char>> {
    some_texts(v.map_values(|n: OnnxValueInfo| n.name))
}

pub open spec fn put_int(m: Map<Seq<char>, ValueModel>, k: Seq<char>, v: Option<i64>) -> Map<Seq<char>, ValueModel> {
    match v {
        Some(x) => m.insert(k, ValueModel::Int(x)),
        None => m,
    }
}

pub open spec fn put_text(m: Map<Seq<char>, ValueModel>, k: Seq<char>, v: Option<String>) -> Map<Seq<char>, ValueModel> {
    match v {
        Some(s) => m.insert(k, ValueModel::Text(s@)),
        None => m,
    }
}

/// The metadata of the model-level fields; absent fields are left out.
pub open spec fn model_metadata(m: OnnxModel) -> Map<Seq<char>, ValueModel> {
    let m1 = put_int(Map::empty(), "ir_version"@, m.ir_version);
    let m2 = put_text(m1, "producer_name"@, m.producer_name);
    let m3 = put_text(m2, "producer_version"@, m.producer_version);
    let m4 = put_text(m3, "domain"@, m.domain);
    let m5 = put_int(m4, "model_version"@, m.model_version);
    if m.opset_import@.len() > 0 {
        m5.insert("opset_imports"@, ValueModel::Text(debug_list(opset_texts(m.opset_import@))))
    } else {
        m5
    }
}

/// The metadata the graph adds: its sorted operator types and node count
/// (where it has nodes), and its input and output names (where it has any).
pub open spec fn graph_metadata(g: OnnxGraph, m: Map<Seq<char>, ValueModel>) -> Map<Seq<char>, ValueModel> {
    let m1 = if g.node@.len() > 0 {
        m.insert(
            "node_types"@,
            ValueModel::Text(debug_list(op_types(g.node@).sort_by(|a: Seq<char>, b: Seq<char>| text_leq(a, b)))),
        ).insert("node_count"@, ValueModel::Int(g.node@.len() as i64))
    } else {
        m
    };
    let m2 = if g.input@.len() > 0 {
        m1.insert("input_names"@, ValueModel::Text(debug_list(value_names(g.input@))))
    } else {
        m1
    };
    if g.output@.len() > 0 {
        m2.insert("output_names"@, ValueModel::Text(debug_list(value_names(g.output@))))
    } else {
        m2
    }
}

/// The tensor an initializer describes: unnamed ones get the empty name;
/// the byte length is the element count times the element width, 0 where
/// that overflows.
pub open spec fn initializer_tensor(t: OnnxTensor) -> TensorModel {
    let name = match t.name { Some(s) => s@, None => Seq::empty() };
    let shape = t.dims@.map_values(|x: i64| dim_as_u64(x));
    let n = element_count(shape) * onnx_element_width(t.data_type);
    TensorModel {
        name,
        dtype: onnx_dtype_name(t.data_type),
        shape,
        byte_length: if n > u64::MAX { 0 } else { n as u64 },
    }
}

/// The tensors of the initializers, later ones replacing earlier ones of
/// the same name.
pub open spec fn initializer_tensors(v: Seq<OnnxTensor>) -> Map<Seq<char>, TensorModel>
    decreases v.len(),
{
    if v.len() == 0 {
        Map::empty()
    } else {
        let t = initializer_tensor(v.last());
        initializer_tensors(v.drop_last()).insert(t.name, t)
    }
}

/// What a decoded ONNX model describes. The version is the IR version, 0
/// where the model gives none.
pub open spec fn spec_onnx(m: OnnxModel) -> ArtifactModel {
    ArtifactModel {
        format: Format::Onnx,
        version: Some(match m.ir_version { Some(v) => v, None => 0 }),
        metadata: match m.graph {
            Some(g) => graph_metadata(g, model_metadata(m)),
            None => model_metadata(m),
        },
        tensors: match m.graph {
            Some(g) => initializer_tensors(g.initializer@),
            None => Map::empty(),
        },
    }
}

/// The decimal texts of the opset versions that are present.
fn opset_version_texts(v: &Vec<OnnxOperatorSet>) -> (r: Vec<String>)
    ensures
        texts_of(r@) == opset_texts(v@),
{
    let mut out: Vec<String> = Vec::new();
    let mut i: usize = 0;
    while i < v.len()
        invariant
            0 <= i <= v@.len(),
            texts_of(out@) == opset_texts(v@.subrange(0, i as int)),
        decreases v@.len() - i,
    {
        let ghost prev = v@.subrange(0, i as int);
        let ghost before = out@;
        if let Some(x) = v[i].version {
            let mut cs: Vec<char> = Vec::new();
            push_signed_decimal(x, &mut cs);
            out.push(string_of(&cs));
            assert(texts_of(out@) =~= texts_of(before).push(signed_decimal(x as int)));
        }
        i = i + 1;
        assert(v@.subrange(0, i as int).drop_last() =~= prev);
    }
    assert(v@.subrange(0, i as int) =~= v@);
    out
}

/// The operator types of the nodes that have one, in node order.
fn node_op_types(v: &Vec<OnnxNode>) -> (r: Vec<String>)
    ensures
        texts_of(r@) == op_types(v@),
{
    let mut out: Vec<String> = Vec::new();
    let mut i: usize = 0;
    while i < v.len()
        invariant
            0 <= i <= v@.len(),
            texts_of(out@) == op_types(v@.subrange(0, i as int)),
        decreases v@.len() - i,
    {
        let ghost prev = v@.subrange(0, i as int);
        let ghost before = out@;
        proof {
            assert(v@.subrange(0, i + 1).map_values(|n: OnnxNode| n.op_type).drop_last()
                =~= prev.map_values(|n: OnnxNode| n.op_type));
        }
        match &v[i].op_type {
            Some(t) => {
                out.push(t.clone());
                assert(texts_of(out@) =~= texts_of(before).push(t@));
            },
            None => {},
        }
        i = i + 1;
    }
    assert(v@.subrange(0, i as int) =~= v@);
    out
}

/// The names of the inputs or outputs that have one, in order.
fn names_of(v: &Vec<OnnxValueInfo>) -> (r: Vec<String>)
    ensures
        texts_of(r@) == value_names(v@),
{
    let mut out: Vec<String> = Vec::new();
    let mut i: usize = 0;
    while i < v.len()
        invariant
            0 <= i <= v@.len(),
            texts_of(out@) == value_names(v@.subrange(0, i as int)),
        decreases v@.len() - i,
    {
        let ghost prev = v@.subrange(0, i as int);
        let ghost before = out@;
        proof {
            assert(v@.subrange(0, i + 1).map_values(|n: OnnxValueInfo| n.name).drop_last()
                =~= prev.map_values(|n: OnnxValueInfo| n.name));
        }
        match &v[i].name {
            Some(t) => {
                out.push(t.clone());
                assert(texts_of(out@) =~= texts_of(before).push(t@));
            },
            None => {},
        }
        i = i + 1;
    }
    assert(v@.subrange(0, i as int) =~= v@);
    out
}

/// A dimension as an unsigned size, wrapping negative values.
fn dim_to_u64(x: i64) -> (r: u64)
    ensures
        r == dim_as_u64(x),
{
    if x >= 0 {
        x as u64
    } else {
        ((x + 0x7fff_ffff_ffff_ffff + 1) as u64) + 0x8000_0000_0000_0000
    }
}

/// The tensor descriptor of one initializer.
fn initializer_to_tensor(t: &OnnxTensor) -> (r: Tensor)
    ensures
        r@ == initializer_tensor(*t),
{
    let name = match &t.name {
        Some(s) => s.clone(),
        None => String::new(),
    };
    let mut shape: Vec<u64> = Vec::new();
    let mut i: usize = 0;
    while i < t.dims.len()
        invariant
            0 <= i <= t.dims@.len(),
            shape@ == t.dims@.subrange(0, i as int).map_values(|x: i64| dim_as_u64(x)),
        decreases t.dims@.len() - i,
    {
        shape.push(dim_to_u64(t.dims[i]));
        i = i + 1;
        assert(shape@ =~= t.dims@.subrange(0, i as int).map_values(|x: i64| dim_as_u64(x)));
    }
    assert(t.dims@.subrange(0, i as int) =~= t.dims@);
    let elements = count_elements(shape.as_slice());
    let width = dtype_size(t.data_type) as u64;
    assert((elements as int) * (width as int) <= 0xffff_ffff_ffff_ffff * 16) by (nonlinear_arith)
        requires elements <= 0xffff_ffff_ffff_ffff, width <= 16;
    let total: u128 = elements as u128 * width as u128;
    let byte_length: u64 = if total > 0xffff_ffff_ffff_ffff { 0 } else { total as u64 };
    Tensor { name, dtype: onnx_dtype_str(t.data_type), shape, byte_length }
}

/// Builds the artifact a decoded ONNX model describes. Absent fields are
/// left out of the metadata; nothing here can fail.
pub fn parse_onnx(model: &OnnxModel) -> (r: Artifact)
    ensures
        r.wf(),
        r@ == spec_onnx(*model),
{
    let mut metadata: KeyedMap<CanonicalValue> = KeyedMap::new();
    if let Some(v) = model.ir_version {
        metadata.insert("ir_version".to_owned(), CanonicalValue::Int(v));
    }
    if let Some(s) = &model.producer_name {
        metadata.insert("producer_name".to_owned(), CanonicalValue::String(s.clone()));
    }
    if let Some(s) = &model.producer_version {
        metadata.insert("producer_version".to_owned(), CanonicalValue::String(s.clone()));
    }
    if let Some(s) = &model.domain {
        metadata.insert("domain".to_owned(), CanonicalValue::String(s.clone()));
    }
    if let Some(v) = model.model_version {
        metadata.insert("model_version".to_owned(), CanonicalValue::Int(v));
    }
    if model.opset_import.len() > 0 {
        let versions = opset_version_texts(&model.opset_import);
        metadata.insert("opset_imports".to_owned(), CanonicalValue::String(debug_text(&versions)));
    }
    assert(metadata@ == model_metadata(*model));
    let mut tensors: KeyedMap<Tensor> = KeyedMap::new();
    match &model.graph {
        Some(g) => {
            let ghost base = metadata@;
            if g.node.len() > 0 {
                let mut ops = node_op_types(&g.node);
                sort_texts(&mut ops);
                metadata.insert("node_types".to_owned(), CanonicalValue::String(debug_text(&ops)));
                metadata.insert("node_count".to_owned(), CanonicalValue::Int(g.node.len() as i64));
            }
            if g.input.len() > 0 {
                let names = names_of(&g.input);
                metadata.insert("input_names".to_owned(), CanonicalValue::String(debug_text(&names)));
            }
            if g.output.len() > 0 {
                let names = names_of(&g.output);
                metadata.insert("output_names".to_owned(), CanonicalValue::String(debug_text(&names)));
            }
            assert(metadata@ == graph_metadata(*g, base));
            let mut i: usize = 0;
            while i < g.initializer.len()
                invariant
                    0 <= i <= g.initializer@.len(),
                    tensors.wf(),
                    tensors@ == initializer_tensors(g.initializer@.subrange(0, i as int)),
                decreases g.initializer@.len() - i,
            {
                let ghost prev = g.initializer@.subrange(0, i as int);
                let t = initializer_to_tensor(&g.initializer[i]);
                let name = t.name.clone();
                tensors.insert(name, t);
                i = i + 1;
                assert(g.initializer@.subrange(0, i as int).drop_last() =~= prev);
            }
            assert(g.initializer@.subrange(0, i as int) =~= g.initializer@);
        },
        None => {
            assert(tensors@ =~= Map::<Seq<char>, TensorModel>::empty());
        },
    }
    let version = match model.ir_version {
        Some(v) => v,
        None => 0,
    };
    Artifact { format: Format::Onnx, gguf_version: Some(version), metadata, tensors }
}

} // verus!
