use sha2::Digest;
use weight_inspect::hash::{canonical_text, compute_structural_hash};
use weight_inspect::keyed::KeyedMap;
use weight_inspect::types::{Artifact, CanonicalValue, Format, Tensor};

fn empty(format: Format, version: Option<i64>) -> Artifact {
    Artifact { format, gguf_version: version, metadata: KeyedMap::new(), tensors: KeyedMap::new() }
}

fn tensor(name: &str) -> Tensor {
    Tensor { name: name.to_string(), dtype: "f32".to_string(), shape: vec![10], byte_length: 40 }
}

#[test]
fn test_hash_determinism() {
    let mut artifact1 = empty(Format::GGUF, Some(3));
    artifact1.metadata.insert("test".to_string(), CanonicalValue::String("value".to_string()));
    let hash1 = compute_structural_hash(&artifact1);

    let mut artifact2 = empty(Format::GGUF, Some(3));
    artifact2.metadata.insert("test".to_string(), CanonicalValue::String("value".to_string()));
    let hash2 = compute_structural_hash(&artifact2);

    assert_eq!(hash1, hash2, "same artifact should produce same hash");
}

#[test]
fn test_hash_different_artifacts_different_hashes() {
    let mut artifact1 = empty(Format::GGUF, Some(3));
    artifact1.metadata.insert("test".to_string(), CanonicalValue::String("value1".to_string()));
    let mut artifact2 = empty(Format::GGUF, Some(3));
    artifact2.metadata.insert("test".to_string(), CanonicalValue::String("value2".to_string()));

    let hash1 = compute_structural_hash(&artifact1);
    let hash2 = compute_structural_hash(&artifact2);

    assert_ne!(hash1, hash2, "different artifacts should produce different hashes");
}

#[test]
fn test_hash_format_affects_hash() {
    let artifact1 = empty(Format::GGUF, Some(3));
    let artifact2 = empty(Format::Safetensors, None);

    let hash1 = compute_structural_hash(&artifact1);
    let hash2 = compute_structural_hash(&artifact2);

    assert_ne!(hash1, hash2, "different formats should produce different hashes");
}

#[test]
fn test_hash_tensor_count_affects_hash() {
    let mut artifact1 = empty(Format::GGUF, Some(3));
    artifact1.tensors.insert("tensor1".to_string(), tensor("tensor1"));
    let mut artifact2 = empty(Format::GGUF, Some(3));
    artifact2.tensors.insert("tensor1".to_string(), tensor("tensor1"));
    artifact2.tensors.insert("tensor2".to_string(), tensor("tensor2"));

    let hash1 = compute_structural_hash(&artifact1);
    let hash2 = compute_structural_hash(&artifact2);

    assert_ne!(hash1, hash2, "different tensor counts should produce different hashes");
}

#[test]
fn canonical_text_is_the_field_tagged_json() {
    let mut a = empty(Format::GGUF, Some(3));
    a.metadata.insert("b\"k".to_string(), CanonicalValue::String("v\n".to_string()));
    a.metadata.insert("a".to_string(), CanonicalValue::Int(-1));
    a.tensors.insert("t\u{1}".to_string(), Tensor {
        name: "t\u{1}".to_string(),
        dtype: "f16".to_string(),
        shape: vec![2, 3],
        byte_length: 12,
    });
    let expected = String::from("{\"format\":\"gguf\",\"gguf_version\":3,")
        + "\"metadata\":{\"a\":\"-1\",\"b\\\"k\":\"\\\"v\\\\n\\\"\"},"
        + "\"tensors\":{\"t\\u0001\":{\"name\":\"t\\u0001\",\"dtype\":\"f16\",\"shape\":[2,3],\"byte_length\":12}}}";
    assert_eq!(canonical_text(&a), expected);
    let b = empty(Format::Safetensors, None);
    assert_eq!(canonical_text(&b), "{\"format\":\"safetensors\",\"metadata\":{},\"tensors\":{}}");
}

#[test]
fn hash_is_hex_sha256_of_canonical_text() {
    let mut a = empty(Format::Onnx, Some(7));
    a.metadata.insert("k".to_string(), CanonicalValue::Float32(1.0f32.to_bits()));
    let text = canonical_text(&a);
    let digest = sha2::Sha256::digest(text.as_bytes());
    let expected: String = digest.iter().map(|b| format!("{:02x}", b)).collect();
    let h = compute_structural_hash(&a);
    assert_eq!(h, expected);
    assert_eq!(h.len(), 64);
    assert_ne!(h, text);
    let empty_hash = compute_structural_hash(&empty(Format::Safetensors, None));
    let empty_expected: String = sha2::Sha256::digest(b"{\"format\":\"safetensors\",\"metadata\":{},\"tensors\":{}}")
        .iter()
        .map(|b| format!("{:02x}", b))
        .collect();
    assert_eq!(empty_hash, empty_expected);
}

#[test]
fn each_field_change_changes_the_hash() {
    let mut base = empty(Format::GGUF, Some(3));
    base.metadata.insert("k".to_string(), CanonicalValue::Int(1));
    base.tensors.insert("t".to_string(), tensor("t"));
    let h = compute_structural_hash(&base);

    let mut v = base.clone();
    v.gguf_version = Some(2);
    assert_ne!(compute_structural_hash(&v), h);

    let mut v = base.clone();
    v.format = Format::Onnx;
    assert_ne!(compute_structural_hash(&v), h);

    let mut v = base.clone();
    v.metadata.insert("k".to_string(), CanonicalValue::Int(2));
    assert_ne!(compute_structural_hash(&v), h);

    let mut v = base.clone();
    v.metadata.insert("k".to_string(), CanonicalValue::String("1".to_string()));
    assert_ne!(compute_structural_hash(&v), h);

    let mut v = base.clone();
    let mut t = tensor("t");
    t.dtype = "f16".to_string();
    v.tensors.insert("t".to_string(), t);
    assert_ne!(compute_structural_hash(&v), h);

    let mut v = base.clone();
    let mut t = tensor("t");
    t.shape = vec![10, 1];
    v.tensors.insert("t".to_string(), t);
    assert_ne!(compute_structural_hash(&v), h);

    let mut v = base.clone();
    let mut t = tensor("t");
    t.byte_length = 41;
    v.tensors.insert("t".to_string(), t);
    assert_ne!(compute_structural_hash(&v), h);
}

#[test]
fn integer_width_does_not_reach_the_hash() {
    let mut a = empty(Format::GGUF, Some(3));
    a.metadata.insert("k".to_string(), CanonicalValue::Int(1));
    let mut b = empty(Format::GGUF, Some(3));
    b.metadata.insert("k".to_string(), CanonicalValue::Uint8(1));
    assert_ne!(a.metadata.get("k"), b.metadata.get("k"));
    assert_eq!(compute_structural_hash(&a), compute_structural_hash(&b));
}

#[test]
fn duplicate_keeps_every_entry_and_the_hash() {
    let mut a = empty(Format::GGUF, Some(3));
    a.metadata.insert("k".to_string(), CanonicalValue::Array(vec![CanonicalValue::Float(f64::NAN.to_bits())]));
    a.tensors.insert("t".to_string(), tensor("t"));
    let b = a.duplicate();
    assert_eq!(b.format, a.format);
    assert_eq!(b.gguf_version, a.gguf_version);
    assert_eq!(b.metadata.get("k"), a.metadata.get("k"));
    assert_eq!(b.tensors.get("t").unwrap().shape, vec![10]);
    assert_eq!(compute_structural_hash(&a), compute_structural_hash(&b));
}
