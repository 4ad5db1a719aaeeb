use weight_inspect::onnx::{
    dtype_size, onnx_dtype_str, parse_onnx, OnnxGraph, OnnxModel, OnnxNode, OnnxOperatorSet, OnnxTensor,
    OnnxValueInfo,
};
use weight_inspect::types::{CanonicalValue, Format};

#[test]
fn test_onnx_dtype_str() {
    assert_eq!(onnx_dtype_str(1), "float32");
    assert_eq!(onnx_dtype_str(7), "int64");
    assert_eq!(onnx_dtype_str(10), "float16");
}

#[test]
fn test_dtype_size() {
    assert_eq!(dtype_size(1), 4);
    assert_eq!(dtype_size(7), 8);
    assert_eq!(dtype_size(10), 2);
}

#[test]
fn unknown_onnx_codes() {
    assert_eq!(onnx_dtype_str(99), "unknown_99");
    assert_eq!(onnx_dtype_str(-3), "unknown_-3");
    assert_eq!(dtype_size(99), 1);
    assert_eq!(dtype_size(15), 16);
}

fn sample_model() -> OnnxModel {
    OnnxModel {
        ir_version: Some(8),
        producer_name: Some("pytorch".to_string()),
        producer_version: None,
        domain: None,
        model_version: Some(1),
        opset_import: vec![OnnxOperatorSet { version: Some(17) }, OnnxOperatorSet { version: None }],
        graph: Some(OnnxGraph {
            node: vec![
                OnnxNode { op_type: Some("Relu".to_string()) },
                OnnxNode { op_type: Some("Gemm".to_string()) },
                OnnxNode { op_type: None },
            ],
            initializer: vec![
                OnnxTensor { name: Some("fc.weight".to_string()), dims: vec![10, 784], data_type: 1 },
                OnnxTensor { name: Some("odd".to_string()), dims: vec![2], data_type: 42 },
                OnnxTensor { name: Some("huge".to_string()), dims: vec![i64::MAX, 4], data_type: 7 },
            ],
            input: vec![OnnxValueInfo { name: Some("input".to_string()) }],
            output: vec![],
        }),
    }
}

#[test]
fn onnx_model_to_artifact() {
    let a = parse_onnx(&sample_model());
    assert_eq!(a.format, Format::Onnx);
    assert_eq!(a.gguf_version, Some(8));
    assert_eq!(a.metadata.get("ir_version"), Some(&CanonicalValue::Int(8)));
    assert_eq!(a.metadata.get("producer_name"), Some(&CanonicalValue::String("pytorch".to_string())));
    assert!(!a.metadata.contains_key("producer_version"));
    assert_eq!(a.metadata.get("model_version"), Some(&CanonicalValue::Int(1)));
    assert_eq!(a.metadata.get("opset_imports"), Some(&CanonicalValue::String("[\"17\"]".to_string())));
    assert_eq!(
        a.metadata.get("node_types"),
        Some(&CanonicalValue::String("[\"Gemm\", \"Relu\"]".to_string()))
    );
    assert_eq!(a.metadata.get("node_count"), Some(&CanonicalValue::Int(3)));
    assert_eq!(a.metadata.get("input_names"), Some(&CanonicalValue::String("[\"input\"]".to_string())));
    assert!(!a.metadata.contains_key("output_names"));
    let w = a.tensors.get("fc.weight").unwrap();
    assert_eq!(w.dtype, "float32");
    assert_eq!(w.shape, vec![10, 784]);
    assert_eq!(w.byte_length, 31360);
    let odd = a.tensors.get("odd").unwrap();
    assert_eq!(odd.dtype, "unknown_42");
    assert_eq!(odd.byte_length, 2);
    assert_eq!(a.tensors.get("huge").unwrap().byte_length, 0);
}

#[test]
fn onnx_model_without_graph() {
    let m = OnnxModel {
        ir_version: None,
        producer_name: None,
        producer_version: None,
        domain: Some("ai.onnx".to_string()),
        model_version: None,
        opset_import: vec![],
        graph: None,
    };
    let a = parse_onnx(&m);
    assert_eq!(a.gguf_version, Some(0));
    assert_eq!(a.metadata.len(), 1);
    assert_eq!(a.tensors.len(), 0);
}
