use weight_inspect::diff::diff;
use weight_inspect::gguf::{
    compute_byte_length, gguf_dtype_str, parse_gguf, read_kv, read_string, GGUFParserError,
};
use weight_inspect::hash::compute_structural_hash;
use weight_inspect::types::{CanonicalValue, Format};

fn put_string(out: &mut Vec<u8>, s: &str) {
    out.extend_from_slice(&(s.len() as u64).to_le_bytes());
    out.extend_from_slice(s.as_bytes());
}

fn header(version: u32, tensors: u64, metadata: u64) -> Vec<u8> {
    let mut out = b"GGUF".to_vec();
    out.extend_from_slice(&version.to_le_bytes());
    out.extend_from_slice(&tensors.to_le_bytes());
    out.extend_from_slice(&metadata.to_le_bytes());
    out
}

fn put_tensor(out: &mut Vec<u8>, name: &str, dims: &[u64], dtype: u32) {
    put_string(out, name);
    out.extend_from_slice(&(dims.len() as u32).to_le_bytes());
    for d in dims {
        out.extend_from_slice(&d.to_le_bytes());
    }
    out.extend_from_slice(&dtype.to_le_bytes());
    out.extend_from_slice(&0u64.to_le_bytes());
}

fn one_tensor_file(dims: &[u64]) -> Vec<u8> {
    let mut out = header(3, 1, 1);
    put_string(&mut out, "general.name");
    out.extend_from_slice(&8u32.to_le_bytes());
    put_string(&mut out, "tiny");
    put_tensor(&mut out, "layer.weight", dims, 0);
    out
}

#[test]
fn example_end_to_end() {
    let a = parse_gguf(&one_tensor_file(&[4, 4])).unwrap();
    assert_eq!(a.format, Format::GGUF);
    assert_eq!(a.gguf_version, Some(3));
    assert_eq!(a.metadata.get("general.name"), Some(&CanonicalValue::String("tiny".to_string())));
    let t = a.tensors.get("layer.weight").unwrap();
    assert_eq!(t.dtype, "f32");
    assert_eq!(t.shape, vec![4, 4]);
    assert_eq!(t.byte_length, 64);

    let b = parse_gguf(&one_tensor_file(&[8, 4])).unwrap();
    let r = diff(&a, &b);
    assert_eq!(r.tensor_changes.len(), 1);
    let c = &r.tensor_changes[0];
    assert_eq!(c.name, "layer.weight");
    assert_eq!(c.shape_old, Some(vec![4, 4]));
    assert_eq!(c.shape_new, Some(vec![8, 4]));
    assert_eq!(c.dtype_old, None);
    assert_eq!(c.dtype_new, None);
    assert_eq!(c.byte_length_old, Some(64));
    assert_eq!(c.byte_length_new, Some(128));
    assert_ne!(compute_structural_hash(&a), compute_structural_hash(&b));
}

#[test]
fn tensor_count_over_ceiling_is_rejected_before_records() {
    let data = header(3, 100_001, 0);
    assert_eq!(
        parse_gguf(&data).unwrap_err(),
        GGUFParserError::TensorCountTooLarge { count: 100_001, max: 100_000 }
    );
    let data = header(3, 0, 10_001);
    assert_eq!(
        parse_gguf(&data).unwrap_err(),
        GGUFParserError::MetadataCountTooLarge { count: 10_001, max: 10_000 }
    );
    let data = header(3, 100_000, 0);
    assert_eq!(parse_gguf(&data).unwrap_err(), GGUFParserError::Truncated);
}

#[test]
fn magic_and_version_are_checked() {
    let mut data = header(3, 0, 0);
    data[0] = b'X';
    assert_eq!(parse_gguf(&data).unwrap_err(), GGUFParserError::InvalidMagic);
    assert_eq!(parse_gguf(&header(5, 0, 0)).unwrap_err(), GGUFParserError::UnsupportedVersion(5));
    assert_eq!(parse_gguf(&header(0, 0, 0)).unwrap_err(), GGUFParserError::UnsupportedVersion(0));
    assert_eq!(parse_gguf(b"GG").unwrap_err(), GGUFParserError::Truncated);
    let empty = parse_gguf(&header(1, 0, 0)).unwrap();
    assert_eq!(empty.gguf_version, Some(1));
    assert_eq!(empty.tensors.len(), 0);
    assert_eq!(empty.metadata.len(), 0);
}

#[test]
fn dimension_and_array_ceilings() {
    let mut data = header(3, 1, 0);
    put_string(&mut data, "t");
    data.extend_from_slice(&33u32.to_le_bytes());
    assert_eq!(parse_gguf(&data).unwrap_err(), GGUFParserError::DimensionsTooLarge { dims: 33, max: 32 });

    let mut data = header(3, 0, 1);
    put_string(&mut data, "arr");
    data.extend_from_slice(&9u32.to_le_bytes());
    data.extend_from_slice(&0u32.to_le_bytes());
    data.extend_from_slice(&100_001u64.to_le_bytes());
    assert_eq!(
        parse_gguf(&data).unwrap_err(),
        GGUFParserError::ArrayTooLarge { count: 100_001, max: 100_000 }
    );
}

#[test]
fn unknown_value_types_are_rejected() {
    let mut data = header(3, 0, 1);
    put_string(&mut data, "k");
    data.extend_from_slice(&13u32.to_le_bytes());
    assert_eq!(parse_gguf(&data).unwrap_err(), GGUFParserError::InvalidHeader);

    for (elem, count) in [(13u32, 0u64), (13, 1), (9, 0), (9, 2)] {
        let mut data = header(3, 0, 1);
        put_string(&mut data, "k");
        data.extend_from_slice(&9u32.to_le_bytes());
        data.extend_from_slice(&elem.to_le_bytes());
        data.extend_from_slice(&count.to_le_bytes());
        assert_eq!(parse_gguf(&data).unwrap_err(), GGUFParserError::InvalidHeader, "element type {}", elem);
    }
}

#[test]
fn arrays_of_wide_scalars_and_empty_arrays() {
    let mut data = header(3, 0, 2);
    put_string(&mut data, "wide");
    data.extend_from_slice(&9u32.to_le_bytes());
    data.extend_from_slice(&10u32.to_le_bytes());
    data.extend_from_slice(&1u64.to_le_bytes());
    data.extend_from_slice(&7u64.to_le_bytes());
    put_string(&mut data, "none");
    data.extend_from_slice(&9u32.to_le_bytes());
    data.extend_from_slice(&8u32.to_le_bytes());
    data.extend_from_slice(&0u64.to_le_bytes());
    let a = parse_gguf(&data).unwrap();
    assert_eq!(a.metadata.get("wide"), Some(&CanonicalValue::Array(vec![CanonicalValue::Uint64(7)])));
    assert_eq!(a.metadata.get("none"), Some(&CanonicalValue::Array(vec![])));
}

#[test]
fn every_scalar_kind_decodes() {
    let mut data = header(2, 0, 12);
    let mut kv = |key: &str, tag: u32, bytes: &[u8]| {
        put_string(&mut data, key);
        data.extend_from_slice(&tag.to_le_bytes());
        data.extend_from_slice(bytes);
    };
    kv("u8", 0, &[200]);
    kv("i8", 1, &[0xff]);
    kv("u16", 2, &500u16.to_le_bytes());
    kv("i16", 3, &(-2i16).to_le_bytes());
    kv("u32", 4, &70000u32.to_le_bytes());
    kv("i32", 5, &(-70000i32).to_le_bytes());
    kv("f32", 6, &1.5f32.to_le_bytes());
    kv("bool", 7, &[2]);
    kv("u64", 10, &u64::MAX.to_le_bytes());
    kv("i64", 11, &(-5i64).to_le_bytes());
    kv("f64", 12, &2.5f64.to_le_bytes());
    let mut arr = Vec::new();
    arr.extend_from_slice(&2u32.to_le_bytes());
    arr.extend_from_slice(&2u64.to_le_bytes());
    arr.extend_from_slice(&7u16.to_le_bytes());
    arr.extend_from_slice(&8u16.to_le_bytes());
    kv("arr", 9, &arr);
    let a = parse_gguf(&data).unwrap();
    let m = &a.metadata;
    assert_eq!(m.get("u8"), Some(&CanonicalValue::Uint8(200)));
    assert_eq!(m.get("i8"), Some(&CanonicalValue::Int8(-1)));
    assert_eq!(m.get("u16"), Some(&CanonicalValue::Uint16(500)));
    assert_eq!(m.get("i16"), Some(&CanonicalValue::Int16(-2)));
    assert_eq!(m.get("u32"), Some(&CanonicalValue::Uint32(70000)));
    assert_eq!(m.get("i32"), Some(&CanonicalValue::Int32(-70000)));
    assert_eq!(m.get("f32"), Some(&CanonicalValue::Float32(1.5f32.to_bits())));
    assert_eq!(m.get("bool"), Some(&CanonicalValue::Bool(true)));
    assert_eq!(m.get("u64"), Some(&CanonicalValue::Uint64(-1)));
    assert_eq!(m.get("i64"), Some(&CanonicalValue::Int64(-5)));
    assert_eq!(m.get("f64"), Some(&CanonicalValue::Float(2.5f64.to_bits())));
    assert_eq!(
        m.get("arr"),
        Some(&CanonicalValue::Array(vec![CanonicalValue::Uint16(7), CanonicalValue::Uint16(8)]))
    );
}

#[test]
fn strings_are_bounded_and_utf8() {
    let mut data = Vec::new();
    data.extend_from_slice(&1_000_001u64.to_le_bytes());
    assert_eq!(read_string(&data, 0).unwrap_err(), GGUFParserError::InvalidHeader);
    let mut data = Vec::new();
    data.extend_from_slice(&2u64.to_le_bytes());
    data.extend_from_slice(&[0xc3, 0x28]);
    assert_eq!(read_string(&data, 0).unwrap_err(), GGUFParserError::InvalidHeader);
    let mut data = Vec::new();
    put_string(&mut data, "héllo");
    let (s, end) = read_string(&data, 0).unwrap();
    assert_eq!(s, "héllo");
    assert_eq!(end, data.len());
    let mut data = Vec::new();
    put_string(&mut data, "k");
    data.extend_from_slice(&7u32.to_le_bytes());
    data.push(0);
    let ((k, v), end) = read_kv(&data, 0).unwrap();
    assert_eq!(k, "k");
    assert_eq!(v, CanonicalValue::Bool(false));
    assert_eq!(end, data.len());
}

#[test]
fn dtype_names_and_byte_lengths() {
    assert_eq!(gguf_dtype_str(0), "f32");
    assert_eq!(gguf_dtype_str(12), "q4_k");
    assert_eq!(gguf_dtype_str(30), "bf16");
    assert_eq!(gguf_dtype_str(39), "mxfp4");
    assert_eq!(gguf_dtype_str(4), "unknown_4");
    assert_eq!(gguf_dtype_str(1000), "unknown_1000");
    assert_eq!(compute_byte_length(&[4, 4], 0), 64);
    assert_eq!(compute_byte_length(&[3], 1), 6);
    assert_eq!(compute_byte_length(&[3], 24), 3);
    assert_eq!(compute_byte_length(&[3], 28), 24);
    assert_eq!(compute_byte_length(&[], 26), 4);
    assert_eq!(compute_byte_length(&[256, 256], 12), 0);
    assert_eq!(compute_byte_length(&[u64::MAX, 2], 0), 0);
    assert_eq!(compute_byte_length(&[u64::MAX], 0), 0);
    assert_eq!(compute_byte_length(&[0, u64::MAX, u64::MAX], 0), 0);
}
