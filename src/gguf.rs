//! The GGUF header decoder. A GGUF file starts with the magic `GGUF`, a
//! version, a tensor count and a metadata count, then the metadata entries and
//! the tensor records, all little-endian. Every count is checked against its
//! ceiling before anything it sizes is read.
use vstd::prelude::*;
use vstd::utf8::{decode_utf8, valid_utf8};
use crate::keyed::KeyedMap;
use crate::text::{chars_of, decimal, push_decimal, string_of, utf8_text};
use crate::types::{
    value_models, Artifact, ArtifactModel, CanonicalValue, Format, Tensor, TensorModel, ValueModel,
};

verus! {

/// Why a GGUF header was rejected.
#[derive(Debug, PartialEq, Eq, Structural)]
pub enum GGUFParserError {
    /// A malformed key or string, or an unknown value type.
    InvalidHeader,
    InvalidMagic,
    UnsupportedVersion(u32),
    ArrayTooLarge { count: u64, max: u64 },
    ShapeTooLarge(u64),
    TensorCountTooLarge { count: u64, max: u64 },
    MetadataCountTooLarge { count: u64, max: u64 },
    DimensionsTooLarge { dims: u32, max: u32 },
    ShapeTooLargeOverflow,
    /// The input ends before the header does.
    Truncated,
}

pub const MAX_ARRAY_ELEMENTS: u64 = 100_000;
pub const GGUF_MAGIC: u32 = 0x46554747;
pub const MAX_TENSOR_COUNT: u64 = 100_000;
pub const MAX_METADATA_COUNT: u64 = 10_000;
pub const MAX_DIMENSIONS: u32 = 32;
pub const MAX_STRING_LENGTH: u64 = 1_000_000;

/// The little-endian value of the `n` bytes of `b` from `p`.
pub open spec fn le_value(b: Seq<u8>, p: int, n: nat) -> nat
    decreases n,
{
    if n == 0 {
        0
    } else {
        b[p] as nat + 256 * le_value(b, p + 1, (n - 1) as nat)
    }
}

pub open spec fn pow256(n: nat) -> nat
    decreases n,
{
    if n == 0 { 1 } else { 256 * pow256((n - 1) as nat) }
}

/// Reading `n` bytes at `p`: their value and the position after them.
pub open spec fn spec_read(b: Seq<u8>, p: int, n: nat) -> Result<(nat, int), GGUFParserError> {
    if 0 <= p && p + n <= b.len() {
        Ok((le_value(b, p, n), p + n))
    } else {
        Err(GGUFParserError::Truncated)
    }
}

/// The two's-complement reading of an unsigned value below `modulus`.
pub open spec fn twos(u: nat, modulus: nat) -> int {
    if u < modulus / 2 { u as int } else { u - modulus }
}

/// A length-prefixed UTF-8 string at `p`.
pub open spec fn spec_string(b: Seq<u8>, p: int) -> Result<(Seq<char>, int), GGUFParserError> {
    match spec_read(b, p, 8) {
        Err(e) => Err(e),
        Ok((len, q)) => if len == 0 {
            Ok((Seq::empty(), q))
        } else if len > MAX_STRING_LENGTH {
            Err(GGUFParserError::InvalidHeader)
        } else if q + len > b.len() {
            Err(GGUFParserError::Truncated)
        } else if !valid_utf8(b.subrange(q, q + len)) {
            Err(GGUFParserError::InvalidHeader)
        } else {
            Ok((decode_utf8(b.subrange(q, q + len)), q + len))
        },
    }
}

/// Maps a read of `n` bytes through `f`.
pub open spec fn spec_read_as(b: Seq<u8>, p: int, n: nat, f: spec_fn(nat) -> ValueModel) -> Result<(ValueModel, int), GGUFParserError> {
    match spec_read(b, p, n) {
        Ok((u, q)) => Ok((f(u), q)),
        Err(e) => Err(e),
    }
}

/// A scalar of value type `tag` at `p` (array excluded).
pub open spec fn spec_scalar(b: Seq<u8>, p: int, tag: u32) -> Result<(ValueModel, int), GGUFParserError> {
    if tag == 0 {
        spec_read_as(b, p, 1, |u: nat| ValueModel::Uint8(u as i64))
    } else if tag == 1 {
        spec_read_as(b, p, 1, |u: nat| ValueModel::Int8(twos(u, 0x100) as i64))
    } else if tag == 2 {
        spec_read_as(b, p, 2, |u: nat| ValueModel::Uint16(u as i64))
    } else if tag == 3 {
        spec_read_as(b, p, 2, |u: nat| ValueModel::Int16(twos(u, 0x1_0000) as i64))
    } else if tag == 4 {
        spec_read_as(b, p, 4, |u: nat| ValueModel::Uint32(u as i64))
    } else if tag == 5 {
        spec_read_as(b, p, 4, |u: nat| ValueModel::Int32(twos(u, 0x1_0000_0000) as i64))
    } else if tag == 6 {
        spec_read_as(b, p, 4, |u: nat| ValueModel::Float32(u as u32))
    } else if tag == 7 {
        spec_read_as(b, p, 1, |u: nat| ValueModel::Bool(u != 0))
    } else if tag == 8 {
        match spec_string(b, p) {
            Ok((s, q)) => Ok((ValueModel::Text(s), q)),
            Err(e) => Err(e),
        }
    } else if tag == 10 {
        spec_read_as(b, p, 8, |u: nat| ValueModel::Uint64(twos(u, 0x1_0000_0000_0000_0000) as i64))
    } else if tag == 11 {
        spec_read_as(b, p, 8, |u: nat| ValueModel::Int64(twos(u, 0x1_0000_0000_0000_0000) as i64))
    } else if tag == 12 {
        spec_read_as(b, p, 8, |u: nat| ValueModel::Float(u as u64))
    } else {
        Err(GGUFParserError::InvalidHeader)
    }
}

/// Whether `elem` may be the element type of an array: any scalar type
/// (arrays do not nest).
pub open spec fn array_element_type(elem: u32) -> bool {
    elem <= 12 && elem != 9
}

/// `n` more array elements of type `elem` at `p`, after those in `acc`.
pub open spec fn spec_elements(b: Seq<u8>, p: int, elem: u32, n: nat, acc: Seq<ValueModel>) -> Result<(Seq<ValueModel>, int), GGUFParserError>
    decreases n,
{
    if n == 0 {
        Ok((acc, p))
    } else {
        match spec_scalar(b, p, elem) {
            Ok((v, q)) => spec_elements(b, q, elem, (n - 1) as nat, acc.push(v)),
            Err(e) => Err(e),
        }
    }
}

/// The array value that a run of elements makes.
pub open spec fn array_result(r: Result<(Seq<ValueModel>, int), GGUFParserError>) -> Result<(ValueModel, int), GGUFParserError> {
    match r {
        Ok((items, s)) => Ok((ValueModel::Array(items), s)),
        Err(e) => Err(e),
    }
}

/// A value of type `tag` at `p`: a scalar, or for type 9 an array (element
/// type, count, elements). The count is checked against its ceiling, then the
/// element type, whatever the count, before any element is read.
pub open spec fn spec_value(b: Seq<u8>, p: int, tag: u32) -> Result<(ValueModel, int), GGUFParserError> {
    if tag == 9 {
        match spec_read(b, p, 4) {
            Err(e) => Err(e),
            Ok((elem, q)) => match spec_read(b, q, 8) {
                Err(e) => Err(e),
                Ok((n, r)) => if n > MAX_ARRAY_ELEMENTS {
                    Err(GGUFParserError::ArrayTooLarge { count: n as u64, max: MAX_ARRAY_ELEMENTS })
                } else if !array_element_type(elem as u32) {
                    Err(GGUFParserError::InvalidHeader)
                } else {
                    array_result(spec_elements(b, r, elem as u32, n, Seq::empty()))
                },
            },
        }
    } else {
        spec_scalar(b, p, tag)
    }
}

/// A metadata entry at `p`: key, value type, value.
pub open spec fn spec_kv(b: Seq<u8>, p: int) -> Result<((Seq<char>, ValueModel), int), GGUFParserError> {
    match spec_string(b, p) {
        Err(e) => Err(e),
        Ok((k, q)) => match spec_read(b, q, 4) {
            Err(e) => Err(e),
            Ok((tag, r)) => match spec_value(b, r, tag as u32) {
                Err(e) => Err(e),
                Ok((v, s)) => Ok(((k, v), s)),
            },
        },
    }
}

/// `n` more metadata entries at `p`, added to `acc`; a later entry with the
/// same key replaces an earlier one.
pub open spec fn spec_kvs(b: Seq<u8>, p: int, n: nat, acc: Map<Seq<char>, ValueModel>) -> Result<(Map<Seq<char>, ValueModel>, int), GGUFParserError>
    decreases n,
{
    if n == 0 {
        Ok((acc, p))
    } else {
        match spec_kv(b, p) {
            Ok(((k, v), q)) => spec_kvs(b, q, (n - 1) as nat, acc.insert(k, v)),
            Err(e) => Err(e),
        }
    }
}

/// `n` more dimensions at `p`, after those in `acc`.
pub open spec fn spec_dims(b: Seq<u8>, p: int, n: nat, acc: Seq<u64>) -> Result<(Seq<u64>, int), GGUFParserError>
    decreases n,
{
    if n == 0 {
        Ok((acc, p))
    } else {
        match spec_read(b, p, 8) {
            Ok((d, q)) => spec_dims(b, q, (n - 1) as nat, acc.push(d as u64)),
            Err(e) => Err(e),
        }
    }
}

/// The name of a GGUF tensor type code; unknown codes read `unknown_<code>`.
pub open spec fn gguf_dtype_name(d: u32) -> Seq<char> {
    if d == 0 { "f32"@ }
    else if d == 1 { "f16"@ }
    else if d == 2 { "q4_0"@ }
    else if d == 3 { "q4_1"@ }
    else if d == 6 { "q5_0"@ }
    else if d == 7 { "q5_1"@ }
    else if d == 8 { "q8_0"@ }
    else if d == 9 { "q8_1"@ }
    else if d == 10 { "q2_k"@ }
    else if d == 11 { "q3_k"@ }
    else if d == 12 { "q4_k"@ }
    else if d == 13 { "q5_k"@ }
    else if d == 14 { "q6_k"@ }
    else if d == 15 { "q8_k"@ }
    else if d == 16 { "iq2_xxs"@ }
    else if d == 17 { "iq2_xs"@ }
    else if d == 18 { "iq3_xxs"@ }
    else if d == 19 { "iq1_s"@ }
    else if d == 20 { "iq4_nl"@ }
    else if d == 21 { "iq3_s"@ }
    else if d == 22 { "iq2_s"@ }
    else if d == 23 { "iq4_xs"@ }
    else if d == 24 { "i8"@ }
    else if d == 25 { "i16"@ }
    else if d == 26 { "i32"@ }
    else if d == 27 { "i64"@ }
    else if d == 28 { "f64"@ }
    else if d == 29 { "iq1_m"@ }
    else if d == 30 { "bf16"@ }
    else if d == 34 { "tq1_0"@ }
    else if d == 35 { "tq2_0"@ }
    else if d == 39 { "mxfp4"@ }
    else { "unknown_"@ + decimal(d as nat) }
}

/// The product of the dimensions; once a partial product overflows 64 bits
/// it becomes 0, and stays 0.
pub open spec fn element_count(shape: Seq<u64>) -> nat
    decreases shape.len(),
{
    if shape.len() == 0 {
        1
    } else {
        let p = element_count(shape.drop_last()) * shape.last();
        if p > u64::MAX { 0 } else { p as nat }
    }
}

/// Bytes per element of the plain GGUF types; 0 for block-quantized and
/// unknown ones, whose size is not a per-element multiple.
pub open spec fn gguf_element_width(d: u32) -> nat {
    if d == 0 || d == 26 { 4 }
    else if d == 1 || d == 25 || d == 30 { 2 }
    else if d == 24 { 1 }
    else if d == 27 || d == 28 { 8 }
    else { 0 }
}

/// The payload size of a tensor: element count times element width, 0 where
/// that overflows 64 bits.
pub open spec fn gguf_byte_length(shape: Seq<u64>, d: u32) -> u64 {
    let n = element_count(shape) * gguf_element_width(d);
    if n > u64::MAX { 0 } else { n as u64 }
}

/// A tensor record at `p`: name, dimension count, dimensions, type code,
/// data offset (read, not kept).
pub open spec fn spec_tensor(b: Seq<u8>, p: int) -> Result<((Seq<char>, TensorModel), int), GGUFParserError> {
    match spec_string(b, p) {
        Err(e) => Err(e),
        Ok((name, q)) => match spec_read(b, q, 4) {
            Err(e) => Err(e),
            Ok((nd, r)) => if nd > MAX_DIMENSIONS {
                Err(GGUFParserError::DimensionsTooLarge { dims: nd as u32, max: MAX_DIMENSIONS })
            } else {
                match spec_dims(b, r, nd, Seq::empty()) {
                    Err(e) => Err(e),
                    Ok((shape, s)) => match spec_read(b, s, 4) {
                        Err(e) => Err(e),
                        Ok((d, t)) => match spec_read(b, t, 8) {
                            Err(e) => Err(e),
                            Ok((_, u)) => Ok((
                                (
                                    name,
                                    TensorModel {
                                        name,
                                        dtype: gguf_dtype_name(d as u32),
                                        shape,
                                        byte_length: gguf_byte_length(shape, d as u32),
                                    },
                                ),
                                u,
                            )),
                        },
                    },
                }
            },
        },
    }
}

/// `n` more tensor records at `p`, added to `acc`.
pub open spec fn spec_tensors(b: Seq<u8>, p: int, n: nat, acc: Map<Seq<char>, TensorModel>) -> Result<Map<Seq<char>, TensorModel>, GGUFParserError>
    decreases n,
{
    if n == 0 {
        Ok(acc)
    } else {
        match spec_tensor(b, p) {
            Ok(((k, t), q)) => spec_tensors(b, q, (n - 1) as nat, acc.insert(k, t)),
            Err(e) => Err(e),
        }
    }
}

/// The artifact that `mc` metadata entries and then `tc` tensor records at
/// `p` describe.
pub open spec fn spec_gguf_records(b: Seq<u8>, p: int, version: u32, tc: nat, mc: nat) -> Result<ArtifactModel, GGUFParserError> {
    match spec_kvs(b, p, mc, Map::empty()) {
        Err(e) => Err(e),
        Ok((metadata, q)) => match spec_tensors(b, q, tc, Map::empty()) {
            Err(e) => Err(e),
            Ok(tensors) => Ok(ArtifactModel {
                format: Format::GGUF,
                version: Some(version as i64),
                metadata,
                tensors,
            }),
        },
    }
}

/// What a GGUF file's header describes, or why it is rejected.
pub open spec fn spec_gguf(b: Seq<u8>) -> Result<ArtifactModel, GGUFParserError> {
    match spec_read(b, 0, 4) {
        Err(e) => Err(e),
        Ok((magic, after_magic)) => if magic != GGUF_MAGIC {
            Err(GGUFParserError::InvalidMagic)
        } else {
            match spec_read(b, after_magic, 4) {
                Err(e) => Err(e),
                Ok((version, after_version)) => if version < 1 || version > 4 {
                    Err(GGUFParserError::UnsupportedVersion(version as u32))
                } else {
                    match spec_read(b, after_version, 8) {
                        Err(e) => Err(e),
                        Ok((tc, after_tensor_count)) => if tc > MAX_TENSOR_COUNT {
                            Err(GGUFParserError::TensorCountTooLarge { count: tc as u64, max: MAX_TENSOR_COUNT })
                        } else {
                            match spec_read(b, after_tensor_count, 8) {
                                Err(e) => Err(e),
                                Ok((mc, after_counts)) => if mc > MAX_METADATA_COUNT {
                                    Err(GGUFParserError::MetadataCountTooLarge { count: mc as u64, max: MAX_METADATA_COUNT })
                                } else {
                                    spec_gguf_records(b, after_counts, version as u32, tc, mc)
                                },
                            }
                        },
                    }
                },
            }
        },
    }
}

/// Count ceilings come first: a header with the GGUF magic, a supported
/// version and a tensor count over the ceiling is rejected for that count,
/// whatever bytes follow the 24-byte preamble; so is one whose tensor count
/// is in bounds and whose metadata count is over its ceiling.
pub proof fn lemma_count_ceilings(b: Seq<u8>)
    requires
        b.len() >= 24,
        le_value(b, 0, 4) == GGUF_MAGIC,
        1 <= le_value(b, 4, 4) <= 4,
    ensures
        le_value(b, 8, 8) > MAX_TENSOR_COUNT ==> spec_gguf(b) == Err::<ArtifactModel, GGUFParserError>(
            GGUFParserError::TensorCountTooLarge { count: le_value(b, 8, 8) as u64, max: MAX_TENSOR_COUNT },
        ),
        le_value(b, 8, 8) <= MAX_TENSOR_COUNT && le_value(b, 16, 8) > MAX_METADATA_COUNT ==> spec_gguf(b)
            == Err::<ArtifactModel, GGUFParserError>(
            GGUFParserError::MetadataCountTooLarge { count: le_value(b, 16, 8) as u64, max: MAX_METADATA_COUNT },
        ),
{
}

/// `r` is the read `s` describes, its value taken through `f`.
pub open spec fn read_matches<T>(s: Result<(nat, int), GGUFParserError>, r: Result<(T, usize), GGUFParserError>, f: spec_fn(nat) -> T) -> bool {
    match (s, r) {
        (Ok((u, q)), Ok((v, q2))) => v == f(u) && q == q2 as int,
        (Err(e1), Err(e2)) => e1 == e2,
        _ => false,
    }
}

/// `r` is the decoded value `s` describes.
pub open spec fn value_matches(s: Result<(ValueModel, int), GGUFParserError>, r: Result<(CanonicalValue, usize), GGUFParserError>) -> bool {
    match (s, r) {
        (Ok((u, q)), Ok((v, q2))) => v@ == u && q == q2 as int,
        (Err(e1), Err(e2)) => e1 == e2,
        _ => false,
    }
}

proof fn lemma_le_value_bound(b: Seq<u8>, p: int, n: nat)
    ensures
        le_value(b, p, n) < pow256(n),
    decreases n,
{
    if n > 0 {
        lemma_le_value_bound(b, p + 1, (n - 1) as nat);
    }
}

/// Reads the `n`-byte little-endian value at `p`.
fn read_le(b: &[u8], p: usize, n: usize) -> (r: Result<(u64, usize), GGUFParserError>)
    requires
        n <= 8,
        p <= b@.len(),
    ensures
        read_matches(spec_read(b@, p as int, n as nat), r, |u: nat| u as u64),
        spec_read(b@, p as int, n as nat) matches Ok((u, _)) ==> u < pow256(n as nat),
        r matches Ok((_, q)) ==> p <= q <= b@.len(),
{
    proof {
        lemma_le_value_bound(b@, p as int, n as nat);
    }
    let len = b.len();
    if len - p < n {
        return Err(GGUFParserError::Truncated);
    }
    let mut acc: u64 = 0;
    let mut j: usize = n;
    while j > 0
        invariant
            0 <= j <= n <= 8,
            len == b@.len(),
            p + n <= b@.len(),
            acc == le_value(b@, p + j, (n - j) as nat),
            acc < pow256((n - j) as nat),
        decreases j,
    {
        proof {
            reveal_with_fuel(pow256, 9);
            assert(pow256(7) == 0x100_0000_0000_0000);
            assert(pow256((n - j) as nat) <= pow256(7));
            assert(acc < 0x100_0000_0000_0000);
        }
        j = j - 1;
        assert(p + j < b@.len());
        let byte = b[p + j];
        acc = acc * 256 + byte as u64;
        proof {
            assert(pow256((n - j) as nat) == 256 * pow256((n - j - 1) as nat));
        }
    }
    Ok((acc, p + n))
}

pub fn read_u8(b: &[u8], p: usize) -> (r: Result<(u8, usize), GGUFParserError>)
    requires
        p <= b@.len(),
    ensures
        read_matches(spec_read(b@, p as int, 1), r, |u: nat| u as u8),
        spec_read(b@, p as int, 1) matches Ok((u, _)) ==> u < 0x100,
        r matches Ok((_, q)) ==> p <= q <= b@.len(),
{
    proof {
        reveal_with_fuel(pow256, 2);
    }
    let (v, q) = read_le(b, p, 1)?;
    Ok((v as u8, q))
}

pub fn read_i8(b: &[u8], p: usize) -> (r: Result<(i8, usize), GGUFParserError>)
    requires
        p <= b@.len(),
    ensures
        read_matches(spec_read(b@, p as int, 1), r, |u: nat| twos(u, 0x100) as i8),
        spec_read(b@, p as int, 1) matches Ok((u, _)) ==> u < 0x100,
        r matches Ok((_, q)) ==> p <= q <= b@.len(),
{
    proof {
        reveal_with_fuel(pow256, 2);
    }
    let (v, q) = read_le(b, p, 1)?;
    let x: i8 = if v < 0x80 { v as i8 } else { (v as i16 - 0x100) as i8 };
    Ok((x, q))
}

pub fn read_u16(b: &[u8], p: usize) -> (r: Result<(u16, usize), GGUFParserError>)
    requires
        p <= b@.len(),
    ensures
        read_matches(spec_read(b@, p as int, 2), r, |u: nat| u as u16),
        spec_read(b@, p as int, 2) matches Ok((u, _)) ==> u < 0x1_0000,
        r matches Ok((_, q)) ==> p <= q <= b@.len(),
{
    proof {
        reveal_with_fuel(pow256, 3);
    }
    let (v, q) = read_le(b, p, 2)?;
    Ok((v as u16, q))
}

pub fn read_i16(b: &[u8], p: usize) -> (r: Result<(i16, usize), GGUFParserError>)
    requires
        p <= b@.len(),
    ensures
        read_matches(spec_read(b@, p as int, 2), r, |u: nat| twos(u, 0x1_0000) as i16),
        spec_read(b@, p as int, 2) matches Ok((u, _)) ==> u < 0x1_0000,
        r matches Ok((_, q)) ==> p <= q <= b@.len(),
{
    proof {
        reveal_with_fuel(pow256, 3);
    }
    let (v, q) = read_le(b, p, 2)?;
    let x: i16 = if v < 0x8000 { v as i16 } else { (v as i32 - 0x1_0000) as i16 };
    Ok((x, q))
}

pub fn read_u32(b: &[u8], p: usize) -> (r: Result<(u32, usize), GGUFParserError>)
    requires
        p <= b@.len(),
    ensures
        read_matches(spec_read(b@, p as int, 4), r, |u: nat| u as u32),
        spec_read(b@, p as int, 4) matches Ok((u, _)) ==> u < 0x1_0000_0000,
        r matches Ok((_, q)) ==> p <= q <= b@.len(),
{
    proof {
        reveal_with_fuel(pow256, 5);
    }
    let (v, q) = read_le(b, p, 4)?;
    Ok((v as u32, q))
}

pub fn read_i32(b: &[u8], p: usize) -> (r: Result<(i32, usize), GGUFParserError>)
    requires
        p <= b@.len(),
    ensures
        read_matches(spec_read(b@, p as int, 4), r, |u: nat| twos(u, 0x1_0000_0000) as i32),
        spec_read(b@, p as int, 4) matches Ok((u, _)) ==> u < 0x1_0000_0000,
        r matches Ok((_, q)) ==> p <= q <= b@.len(),
{
    proof {
        reveal_with_fuel(pow256, 5);
    }
    let (v, q) = read_le(b, p, 4)?;
    let x: i32 = if v < 0x8000_0000 { v as i32 } else { (v as i64 - 0x1_0000_0000) as i32 };
    Ok((x, q))
}

pub fn read_u64(b: &[u8], p: usize) -> (r: Result<(u64, usize), GGUFParserError>)
    requires
        p <= b@.len(),
    ensures
        read_matches(spec_read(b@, p as int, 8), r, |u: nat| u as u64),
        spec_read(b@, p as int, 8) matches Ok((u, _)) ==> u <= u64::MAX,
        r matches Ok((_, q)) ==> p <= q <= b@.len(),
{
    proof {
        reveal_with_fuel(pow256, 9);
    }
    read_le(b, p, 8)
}

pub fn read_i64(b: &[u8], p: usize) -> (r: Result<(i64, usize), GGUFParserError>)
    requires
        p <= b@.len(),
    ensures
        read_matches(spec_read(b@, p as int, 8), r, |u: nat| twos(u, 0x1_0000_0000_0000_0000) as i64),
        spec_read(b@, p as int, 8) matches Ok((u, _)) ==> u < 0x1_0000_0000_0000_0000,
        r matches Ok((_, q)) ==> p <= q <= b@.len(),
{
    proof {
        reveal_with_fuel(pow256, 9);
    }
    let (v, q) = read_le(b, p, 8)?;
    let x: i64 = if v < 0x8000_0000_0000_0000 {
        v as i64
    } else {
        (v - 0x8000_0000_0000_0000) as i64 + i64::MIN
    };
    Ok((x, q))
}

pub fn read_bool(b: &[u8], p: usize) -> (r: Result<(bool, usize), GGUFParserError>)
    requires
        p <= b@.len(),
    ensures
        read_matches(spec_read(b@, p as int, 1), r, |u: nat| u != 0),
        spec_read(b@, p as int, 1) matches Ok((u, _)) ==> u < 0x100,
        r matches Ok((_, q)) ==> p <= q <= b@.len(),
{
    proof {
        reveal_with_fuel(pow256, 2);
    }
    let (v, q) = read_le(b, p, 1)?;
    Ok((v != 0, q))
}

/// Reads a length-prefixed UTF-8 string; the length is checked against its
/// ceiling before the bytes are read.
pub fn read_string(b: &[u8], p: usize) -> (r: Result<(String, usize), GGUFParserError>)
    requires
        p <= b@.len(),
    ensures
        match (spec_string(b@, p as int), r) {
            (Ok((s, q)), Ok((t, q2))) => t@ == s && q == q2 as int,
            (Err(e1), Err(e2)) => e1 == e2,
            _ => false,
        },
        r matches Ok((_, q)) ==> p <= q <= b@.len(),
{
    let (len, q) = read_u64(b, p)?;
    if len == 0 {
        return Ok((String::new(), q));
    }
    if len > MAX_STRING_LENGTH {
        return Err(GGUFParserError::InvalidHeader);
    }
    if ((b.len() - q) as u64) < len {
        return Err(GGUFParserError::Truncated);
    }
    let end = q + len as usize;
    let bytes = vstd::slice::slice_subrange(b, q, end);
    match utf8_text(bytes) {
        Some(t) => Ok((t, end)),
        None => Err(GGUFParserError::InvalidHeader),
    }
}

/// Reads a scalar of value type `tag` (array excluded).
fn read_scalar(b: &[u8], p: usize, tag: u32) -> (r: Result<(CanonicalValue, usize), GGUFParserError>)
    requires
        p <= b@.len(),
    ensures
        value_matches(spec_scalar(b@, p as int, tag), r),
        r matches Ok((_, q)) ==> p <= q <= b@.len(),
{
    if tag == 0 {
        let (v, q) = read_u8(b, p)?;
        Ok((CanonicalValue::Uint8(v as i64), q))
    } else if tag == 1 {
        let (v, q) = read_i8(b, p)?;
        Ok((CanonicalValue::Int8(v as i64), q))
    } else if tag == 2 {
        let (v, q) = read_u16(b, p)?;
        Ok((CanonicalValue::Uint16(v as i64), q))
    } else if tag == 3 {
        let (v, q) = read_i16(b, p)?;
        Ok((CanonicalValue::Int16(v as i64), q))
    } else if tag == 4 {
        let (v, q) = read_u32(b, p)?;
        Ok((CanonicalValue::Uint32(v as i64), q))
    } else if tag == 5 {
        let (v, q) = read_i32(b, p)?;
        Ok((CanonicalValue::Int32(v as i64), q))
    } else if tag == 6 {
        let (v, q) = read_u32(b, p)?;
        Ok((CanonicalValue::Float32(v), q))
    } else if tag == 7 {
        let (v, q) = read_bool(b, p)?;
        Ok((CanonicalValue::Bool(v), q))
    } else if tag == 8 {
        let (v, q) = read_string(b, p)?;
        Ok((CanonicalValue::String(v), q))
    } else if tag == 10 {
        let (v, q) = read_i64(b, p)?;
        Ok((CanonicalValue::Uint64(v), q))
    } else if tag == 11 {
        let (v, q) = read_i64(b, p)?;
        Ok((CanonicalValue::Int64(v), q))
    } else if tag == 12 {
        let (v, q) = read_u64(b, p)?;
        Ok((CanonicalValue::Float(v), q))
    } else {
        Err(GGUFParserError::InvalidHeader)
    }
}

/// Reads a value of type `tag`; for an array, its element count is checked
/// against the ceiling before any element is read.
fn read_value(b: &[u8], p: usize, tag: u32) -> (r: Result<(CanonicalValue, usize), GGUFParserError>)
    requires
        p <= b@.len(),
    ensures
        value_matches(spec_value(b@, p as int, tag), r),
        r matches Ok((_, q)) ==> p <= q <= b@.len(),
{
    if tag != 9 {
        return read_scalar(b, p, tag);
    }
    let (elem, q) = read_u32(b, p)?;
    let (n, r0) = read_u64(b, q)?;
    if n > MAX_ARRAY_ELEMENTS {
        return Err(GGUFParserError::ArrayTooLarge { count: n, max: MAX_ARRAY_ELEMENTS });
    }
    if elem > 12 || elem == 9 {
        return Err(GGUFParserError::InvalidHeader);
    }
    let mut items: Vec<CanonicalValue> = Vec::new();
    let mut pos = r0;
    let mut i: u64 = 0;
    proof {
        assert(value_models(items@) =~= Seq::<ValueModel>::empty());
    }
    while i < n
        invariant
            i <= n <= MAX_ARRAY_ELEMENTS,
            spec_value(b@, p as int, tag) == array_result(spec_elements(b@, r0 as int, elem, n as nat, Seq::empty())),
            r0 <= pos <= b@.len(),
            spec_elements(b@, r0 as int, elem, n as nat, Seq::empty()) == spec_elements(
                b@,
                pos as int,
                elem,
                (n - i) as nat,
                value_models(items@),
            ),
        decreases n - i,
    {
        let (v, q2) = match read_scalar(b, pos, elem) {
            Ok(x) => x,
            Err(e) => {
                assert(spec_elements(b@, pos as int, elem, (n - i) as nat, value_models(items@))
                    == Err::<(Seq<ValueModel>, int), GGUFParserError>(e));
                return Err(e);
            },
        };
        let ghost before = items@;
        items.push(v);
        proof {
            assert(items@.drop_last() =~= before);
        }
        pos = q2;
        i = i + 1;
    }
    Ok((CanonicalValue::Array(items), pos))
}

/// Reads one metadata entry: key, value type, value.
pub fn read_kv(b: &[u8], p: usize) -> (r: Result<((String, CanonicalValue), usize), GGUFParserError>)
    requires
        p <= b@.len(),
    ensures
        match (spec_kv(b@, p as int), r) {
            (Ok(((k, v), q)), Ok(((k2, v2), q2))) => k2@ == k && v2@ == v && q == q2 as int,
            (Err(e1), Err(e2)) => e1 == e2,
            _ => false,
        },
        r matches Ok((_, q)) ==> p <= q <= b@.len(),
{
    let (key, q) = read_string(b, p)?;
    let (tag, q2) = read_u32(b, q)?;
    let (value, q3) = read_value(b, q2, tag)?;
    Ok(((key, value), q3))
}

/// Reads `n` dimensions.
fn read_dims(b: &[u8], p: usize, n: u32) -> (r: Result<(Vec<u64>, usize), GGUFParserError>)
    requires
        p <= b@.len(),
    ensures
        match (spec_dims(b@, p as int, n as nat, Seq::empty()), r) {
            (Ok((d, q)), Ok((d2, q2))) => d2@ == d && q == q2 as int,
            (Err(e1), Err(e2)) => e1 == e2,
            _ => false,
        },
        r matches Ok((_, q)) ==> p <= q <= b@.len(),
{
    let mut dims: Vec<u64> = Vec::new();
    let mut pos = p;
    let mut i: u32 = 0;
    while i < n
        invariant
            i <= n,
            p <= pos <= b@.len(),
            spec_dims(b@, p as int, n as nat, Seq::empty()) == spec_dims(b@, pos as int, (n - i) as nat, dims@),
        decreases n - i,
    {
        let (d, q) = match read_u64(b, pos) {
            Ok(x) => x,
            Err(e) => {
                assert(spec_dims(b@, pos as int, (n - i) as nat, dims@)
                    == Err::<(Seq<u64>, int), GGUFParserError>(e));
                return Err(e);
            },
        };
        dims.push(d);
        pos = q;
        i = i + 1;
    }
    Ok((dims, pos))
}

/// The name of a GGUF tensor type code; unknown codes read `unknown_<code>`.
pub fn gguf_dtype_str(dtype: u32) -> (r: String)
    ensures
        r@ == gguf_dtype_name(dtype),
{
    let name: &str = if dtype == 0 { "f32" }
    else if dtype == 1 { "f16" }
    else if dtype == 2 { "q4_0" }
    else if dtype == 3 { "q4_1" }
    else if dtype == 6 { "q5_0" }
    else if dtype == 7 { "q5_1" }
    else if dtype == 8 { "q8_0" }
    else if dtype == 9 { "q8_1" }
    else if dtype == 10 { "q2_k" }
    else if dtype == 11 { "q3_k" }
    else if dtype == 12 { "q4_k" }
    else if dtype == 13 { "q5_k" }
    else if dtype == 14 { "q6_k" }
    else if dtype == 15 { "q8_k" }
    else if dtype == 16 { "iq2_xxs" }
    else if dtype == 17 { "iq2_xs" }
    else if dtype == 18 { "iq3_xxs" }
    else if dtype == 19 { "iq1_s" }
    else if dtype == 20 { "iq4_nl" }
    else if dtype == 21 { "iq3_s" }
    else if dtype == 22 { "iq2_s" }
    else if dtype == 23 { "iq4_xs" }
    else if dtype == 24 { "i8" }
    else if dtype == 25 { "i16" }
    else if dtype == 26 { "i32" }
    else if dtype == 27 { "i64" }
    else if dtype == 28 { "f64" }
    else if dtype == 29 { "iq1_m" }
    else if dtype == 30 { "bf16" }
    else if dtype == 34 { "tq1_0" }
    else if dtype == 35 { "tq2_0" }
    else if dtype == 39 { "mxfp4" }
    else {
        let mut out = chars_of("unknown_");
        push_decimal(dtype as u64, &mut out);
        return string_of(&out);
    };
    name.to_owned()
}

/// The product of the dimensions, 0 once a partial product overflows.
pub fn count_elements(shape: &[u64]) -> (r: u64)
    ensures
        r == element_count(shape@),
{
    let mut elements: u64 = 1;
    let mut i: usize = 0;
    while i < shape.len()
        invariant
            0 <= i <= shape@.len(),
            elements == element_count(shape@.subrange(0, i as int)),
        decreases shape@.len() - i,
    {
        let ghost prev = shape@.subrange(0, i as int);
        let d = shape[i];
        assert((elements as int) * (d as int) <= 0xffff_ffff_ffff_ffff_ffff_ffff_ffff_ffff) by (nonlinear_arith)
            requires elements <= 0xffff_ffff_ffff_ffff, d <= 0xffff_ffff_ffff_ffff;
        let product: u128 = elements as u128 * d as u128;
        elements = if product > 0xffff_ffff_ffff_ffff { 0 } else { product as u64 };
        i = i + 1;
        proof {
            let cur = shape@.subrange(0, i as int);
            assert(cur.drop_last() =~= prev);
        }
    }
    assert(shape@.subrange(0, i as int) =~= shape@);
    elements
}

/// The payload size of a tensor of this shape and GGUF type code.
pub fn compute_byte_length(shape: &[u64], dtype: u32) -> (r: u64)
    ensures
        r == gguf_byte_length(shape@, dtype),
{
    let elements = count_elements(shape);
    let width: u64 = if dtype == 0 || dtype == 26 {
        4
    } else if dtype == 1 || dtype == 25 || dtype == 30 {
        2
    } else if dtype == 24 {
        1
    } else if dtype == 27 || dtype == 28 {
        8
    } else {
        0
    };
    assert((elements as int) * (width as int) <= 0xffff_ffff_ffff_ffff * 8) by (nonlinear_arith)
        requires elements <= 0xffff_ffff_ffff_ffff, width <= 8;
    let total: u128 = elements as u128 * width as u128;
    if total > 0xffff_ffff_ffff_ffff { 0 } else { total as u64 }
}

/// Reads one tensor record. The dimension count is checked against its
/// ceiling before any dimension is read.
fn read_tensor(b: &[u8], p: usize) -> (r: Result<(Tensor, usize), GGUFParserError>)
    requires
        p <= b@.len(),
    ensures
        match (spec_tensor(b@, p as int), r) {
            (Ok(((k, t), q)), Ok((t2, q2))) => t2@ == t && t2.name@ == k && q == q2 as int,
            (Err(e1), Err(e2)) => e1 == e2,
            _ => false,
        },
        r matches Ok((_, q)) ==> p <= q <= b@.len(),
{
    let (name, q) = read_string(b, p)?;
    let (n_dims, q2) = read_u32(b, q)?;
    if n_dims > MAX_DIMENSIONS {
        return Err(GGUFParserError::DimensionsTooLarge { dims: n_dims, max: MAX_DIMENSIONS });
    }
    let (shape, q3) = read_dims(b, q2, n_dims)?;
    let (dtype, q4) = read_u32(b, q3)?;
    let (_offset, q5) = read_u64(b, q4)?;
    let byte_length = compute_byte_length(shape.as_slice(), dtype);
    Ok((Tensor { name, dtype: gguf_dtype_str(dtype), shape, byte_length }, q5))
}

/// Decodes a GGUF header into an artifact. Reading stops at the end of the
/// tensor records; no tensor data is read.
pub fn parse_gguf(b: &[u8]) -> (r: Result<Artifact, GGUFParserError>)
    ensures
        match r {
            Ok(a) => a.wf() && spec_gguf(b@) == Ok::<ArtifactModel, GGUFParserError>(a@),
            Err(e) => spec_gguf(b@) == Err::<ArtifactModel, GGUFParserError>(e),
        },
{
    let (magic, after_magic) = read_u32(b, 0)?;
    if magic != GGUF_MAGIC {
        return Err(GGUFParserError::InvalidMagic);
    }
    let (version, after_version) = read_u32(b, after_magic)?;
    if version < 1 || version > 4 {
        return Err(GGUFParserError::UnsupportedVersion(version));
    }
    let (tensor_count, after_tensor_count) = read_u64(b, after_version)?;
    if tensor_count > MAX_TENSOR_COUNT {
        return Err(GGUFParserError::TensorCountTooLarge { count: tensor_count, max: MAX_TENSOR_COUNT });
    }
    let (metadata_count, after_counts) = read_u64(b, after_tensor_count)?;
    if metadata_count > MAX_METADATA_COUNT {
        return Err(
            GGUFParserError::MetadataCountTooLarge { count: metadata_count, max: MAX_METADATA_COUNT },
        );
    }
    let mut metadata: KeyedMap<CanonicalValue> = KeyedMap::new();
    let mut pos = after_counts;
    let mut i: u64 = 0;
    while i < metadata_count
        invariant
            i <= metadata_count,
            spec_gguf(b@) == spec_gguf_records(b@, after_counts as int, version, tensor_count as nat, metadata_count as nat),
            pos <= b@.len(),
            metadata.wf(),
            spec_kvs(b@, after_counts as int, metadata_count as nat, Map::empty()) == spec_kvs(
                b@,
                pos as int,
                (metadata_count - i) as nat,
                metadata@,
            ),
        decreases metadata_count - i,
    {
        let ((key, value), q) = match read_kv(b, pos) {
            Ok(x) => x,
            Err(e) => {
                assert(spec_kvs(b@, pos as int, (metadata_count - i) as nat, metadata@)
                    == Err::<(Map<Seq<char>, ValueModel>, int), GGUFParserError>(e));
                return Err(e);
            },
        };
        metadata.insert(key, value);
        pos = q;
        i = i + 1;
    }
    let after_metadata = pos;
    assert(spec_gguf(b@) == match spec_tensors(b@, after_metadata as int, tensor_count as nat, Map::empty()) {
        Err(e) => Err(e),
        Ok(tensors) => Ok(ArtifactModel { format: Format::GGUF, version: Some(version as i64), metadata: metadata@, tensors }),
    });
    let mut tensors: KeyedMap<Tensor> = KeyedMap::new();
    let mut j: u64 = 0;
    while j < tensor_count
        invariant
            j <= tensor_count,
            metadata.wf(),
            spec_gguf(b@) == match spec_tensors(b@, after_metadata as int, tensor_count as nat, Map::empty()) {
                Err(e) => Err(e),
                Ok(tensors) => Ok(ArtifactModel { format: Format::GGUF, version: Some(version as i64), metadata: metadata@, tensors }),
            },
            pos <= b@.len(),
            tensors.wf(),
            spec_tensors(b@, after_metadata as int, tensor_count as nat, Map::empty()) == spec_tensors(
                b@,
                pos as int,
                (tensor_count - j) as nat,
                tensors@,
            ),
        decreases tensor_count - j,
    {
        let (tensor, q) = match read_tensor(b, pos) {
            Ok(x) => x,
            Err(e) => {
                assert(spec_tensors(b@, pos as int, (tensor_count - j) as nat, tensors@)
                    == Err::<Map<Seq<char>, TensorModel>, GGUFParserError>(e));
                return Err(e);
            },
        };
        let name = tensor.name.clone();
        tensors.insert(name, tensor);
        pos = q;
        j = j + 1;
    }
    Ok(Artifact { format: Format::GGUF, gguf_version: Some(version as i64), metadata, tensors })
}

} // verus!
