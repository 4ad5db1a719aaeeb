use weight_inspect::diff::{diff, DiffResult};
use weight_inspect::hash::compute_structural_hash;
use weight_inspect::keyed::KeyedMap;
use weight_inspect::types::{Artifact, CanonicalValue, Format, Tensor};

fn tensor(name: &str, dtype: &str, shape: Vec<u64>, byte_length: u64) -> Tensor {
    Tensor { name: name.to_string(), dtype: dtype.to_string(), shape, byte_length }
}

fn create_test_artifact(format: Format, metadata_count: usize, tensor_count: usize) -> Artifact {
    let mut metadata = KeyedMap::new();
    for i in 0..metadata_count {
        metadata.insert(format!("key_{}", i), CanonicalValue::String(format!("value_{}", i)));
    }
    let mut tensors = KeyedMap::new();
    for i in 0..tensor_count {
        let name = format!("tensor_{}", i);
        tensors.insert(name.clone(), tensor(&name, "f32", vec![10, 10], 400));
    }
    Artifact { format, gguf_version: Some(3), metadata, tensors }
}

#[test]
fn test_diff_identical_artifacts() {
    let a = create_test_artifact(Format::GGUF, 5, 3);
    let b = a.clone();

    let result = diff(&a, &b);

    assert!(result.format_equal);
    assert!(result.tensor_count_equal);
    assert!(result.metadata_count_equal);
    assert!(result.metadata_added.is_empty());
    assert!(result.metadata_removed.is_empty());
    assert!(result.metadata_changed.is_empty());
    assert!(result.tensors_added.is_empty());
    assert!(result.tensors_removed.is_empty());
    assert!(result.tensor_changes.is_empty());
}

#[test]
fn test_diff_format_mismatch() {
    let a = create_test_artifact(Format::GGUF, 5, 3);
    let b = create_test_artifact(Format::Safetensors, 5, 3);

    let result = diff(&a, &b);

    assert!(!result.format_equal);
}

#[test]
fn test_diff_metadata_added() {
    let a = create_test_artifact(Format::GGUF, 3, 0);
    let mut b = a.clone();
    b.metadata.insert("new_key".to_string(), CanonicalValue::String("new_value".to_string()));

    let result = diff(&a, &b);

    assert!(result.metadata_added.contains(&"new_key".to_string()));
}

#[test]
fn test_diff_metadata_removed() {
    let a = create_test_artifact(Format::GGUF, 3, 0);
    let mut b = a.clone();
    b.metadata.remove("key_0");

    let result = diff(&a, &b);

    assert!(result.metadata_removed.contains(&"key_0".to_string()));
}

#[test]
fn test_diff_metadata_changed() {
    let mut a = create_test_artifact(Format::GGUF, 3, 0);
    let mut b = a.clone();
    a.metadata.insert("key_0".to_string(), CanonicalValue::String("old_value".to_string()));
    b.metadata.insert("key_0".to_string(), CanonicalValue::String("new_value".to_string()));

    let result = diff(&a, &b);

    assert_eq!(result.metadata_changed.len(), 1);
    assert_eq!(result.metadata_changed[0].key, "key_0");
}

#[test]
fn test_diff_tensor_added() {
    let a = create_test_artifact(Format::GGUF, 0, 2);
    let mut b = a.clone();
    b.tensors.insert("new_tensor".to_string(), tensor("new_tensor", "f32", vec![10], 40));

    let result = diff(&a, &b);

    assert!(result.tensors_added.contains(&"new_tensor".to_string()));
}

#[test]
fn test_diff_tensor_shape_changed() {
    let a = create_test_artifact(Format::GGUF, 0, 2);
    let mut b = a.clone();
    let mut t = b.tensors.get("tensor_0").unwrap().clone();
    t.shape = vec![20, 20];
    b.tensors.insert("tensor_0".to_string(), t);

    let result = diff(&a, &b);

    assert_eq!(result.tensor_changes.len(), 1);
    assert_eq!(result.tensor_changes[0].name, "tensor_0");
    assert!(result.tensor_changes[0].shape_old.is_some());
}

#[test]
fn test_diff_tensor_dtype_changed() {
    let a = create_test_artifact(Format::GGUF, 0, 2);
    let mut b = a.clone();
    let mut t = b.tensors.get("tensor_0").unwrap().clone();
    t.dtype = "f16".to_string();
    b.tensors.insert("tensor_0".to_string(), t);

    let result = diff(&a, &b);

    assert_eq!(result.tensor_changes.len(), 1);
    assert_eq!(result.tensor_changes[0].dtype_old, Some("f32".to_string()));
    assert_eq!(result.tensor_changes[0].dtype_new, Some("f16".to_string()));
}

#[test]
fn test_diff_has_changes() {
    let a = create_test_artifact(Format::GGUF, 3, 2);
    let b = create_test_artifact(Format::GGUF, 5, 4);

    let result = diff(&a, &b);

    assert!(result.has_changes());
}

#[test]
fn test_diff_no_changes() {
    let a = create_test_artifact(Format::GGUF, 3, 2);
    let b = a.clone();

    let result = diff(&a, &b);

    assert!(!result.has_changes());
}

#[test]
fn test_determinism_metadata_order() {
    let mut a = create_test_artifact(Format::GGUF, 3, 0);
    let mut b = create_test_artifact(Format::GGUF, 3, 0);

    a.metadata.insert("zzz_key".to_string(), CanonicalValue::String("zzz".to_string()));
    a.metadata.insert("aaa_key".to_string(), CanonicalValue::String("aaa".to_string()));

    b.metadata.insert("aaa_key".to_string(), CanonicalValue::String("aaa".to_string()));
    b.metadata.insert("zzz_key".to_string(), CanonicalValue::String("zzz".to_string()));

    let hash_a = compute_structural_hash(&a);
    let hash_b = compute_structural_hash(&b);

    assert_eq!(hash_a, hash_b, "Metadata order should not affect hash");
}

#[test]
fn test_determinism_tensor_order() {
    let mut a = create_test_artifact(Format::GGUF, 0, 2);
    let mut b = create_test_artifact(Format::GGUF, 0, 2);

    a.tensors.insert("zzz_tensor".to_string(), tensor("zzz_tensor", "f32", vec![10], 40));
    a.tensors.insert("aaa_tensor".to_string(), tensor("aaa_tensor", "f32", vec![10], 40));

    b.tensors.insert("aaa_tensor".to_string(), tensor("aaa_tensor", "f32", vec![10], 40));
    b.tensors.insert("zzz_tensor".to_string(), tensor("zzz_tensor", "f32", vec![10], 40));

    let hash_a = compute_structural_hash(&a);
    let hash_b = compute_structural_hash(&b);

    assert_eq!(hash_a, hash_b, "Tensor order should not affect hash");
}

#[test]
fn diff_lists_come_out_sorted_and_disjoint() {
    let mut a = create_test_artifact(Format::GGUF, 0, 0);
    let mut b = create_test_artifact(Format::GGUF, 0, 0);
    a.metadata.insert("m".to_string(), CanonicalValue::Int(1));
    a.metadata.insert("gone".to_string(), CanonicalValue::Null);
    a.metadata.insert("same".to_string(), CanonicalValue::Bool(true));
    b.metadata.insert("m".to_string(), CanonicalValue::Int(2));
    b.metadata.insert("same".to_string(), CanonicalValue::Bool(true));
    b.metadata.insert("zeta".to_string(), CanonicalValue::Null);
    b.metadata.insert("alpha".to_string(), CanonicalValue::Null);
    a.tensors.insert("w".to_string(), tensor("w", "f32", vec![2, 2], 16));
    b.tensors.insert("w".to_string(), tensor("w", "f32", vec![2, 2], 32));

    let r = diff(&a, &b);

    assert_eq!(r.schema, 1);
    assert!(!r.hash_equal);
    assert!(!r.metadata_count_equal);
    assert_eq!(r.metadata_added, vec!["alpha".to_string(), "zeta".to_string()]);
    assert_eq!(r.metadata_removed, vec!["gone".to_string()]);
    assert_eq!(r.metadata_changed.len(), 1);
    assert_eq!(r.metadata_changed[0].key, "m");
    assert_eq!(r.metadata_changed[0].old_value, CanonicalValue::Int(1));
    assert_eq!(r.metadata_changed[0].new_value, CanonicalValue::Int(2));
    assert_eq!(r.tensor_changes.len(), 1);
    let c = &r.tensor_changes[0];
    assert_eq!(c.dtype_old, None);
    assert_eq!(c.shape_old, None);
    assert_eq!(c.byte_length_old, Some(16));
    assert_eq!(c.byte_length_new, Some(32));
}

#[test]
fn new_result_is_empty() {
    let r = DiffResult::new();
    assert_eq!(r.schema, 1);
    assert!(!r.has_changes());
}

#[test]
fn keyed_map_keeps_keys_sorted_and_unique() {
    let mut m: KeyedMap<CanonicalValue> = KeyedMap::new();
    m.insert("b".to_string(), CanonicalValue::Int(1));
    m.insert("a".to_string(), CanonicalValue::Int(2));
    m.insert("é".to_string(), CanonicalValue::Int(3));
    m.insert("b".to_string(), CanonicalValue::Int(4));
    let keys: Vec<&str> = m.entries.iter().map(|e| e.0.as_str()).collect();
    assert_eq!(keys, vec!["a", "b", "é"]);
    assert_eq!(m.len(), 3);
    assert_eq!(m.get("b"), Some(&CanonicalValue::Int(4)));
    assert!(m.contains_key("é"));
    assert_eq!(m.remove("a"), Some(CanonicalValue::Int(2)));
    assert_eq!(m.remove("a"), None);
    assert!(!m.contains_key("a"));
}
