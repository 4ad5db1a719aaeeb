use weight_inspect::safetensors::{parse_safetensors, SafetensorsParserError, MAX_HEADER_SIZE};
use weight_inspect::types::{CanonicalValue, Format};

fn make_safetensors(header_json: &str) -> Vec<u8> {
    let header_bytes = header_json.as_bytes();
    let header_len = header_bytes.len() as u64;
    let padded_len = ((header_len as usize) + 7) / 8 * 8;

    let mut data = Vec::new();
    data.extend_from_slice(&header_len.to_le_bytes());
    data.extend_from_slice(header_bytes);
    data.extend(vec![0u8; padded_len - header_bytes.len()]);
    data.extend(vec![0u8; 100]);
    data
}

#[test]
fn test_parse_valid_safetensors() {
    let header = r#"{"test.weight":{"dtype":"F32","shape":[2,3],"data_offsets":[0,24]}}"#;
    let data = make_safetensors(header);

    let artifact = parse_safetensors(&data).unwrap();

    assert_eq!(artifact.format, Format::Safetensors);
    assert!(artifact.tensors.contains_key("test.weight"));
    let tensor = artifact.tensors.get("test.weight").unwrap();
    assert_eq!(tensor.dtype, "f32");
    assert_eq!(tensor.shape, vec![2, 3]);
    assert_eq!(tensor.byte_length, 24);
}

#[test]
fn test_parse_with_metadata() {
    let header = r#"{"__metadata__":{"format_version":"1"},"test.weight":{"dtype":"F16","shape":[4],"data_offsets":[0,8]}}"#;
    let data = make_safetensors(header);

    let artifact = parse_safetensors(&data).unwrap();

    assert!(artifact.metadata.contains_key("format_version"));
    assert_eq!(
        artifact.metadata.get("format_version"),
        Some(&CanonicalValue::String("1".to_string()))
    );
}

#[test]
fn test_missing_dtype_field() {
    let header = r#"{"test.weight":{"shape":[2,3],"data_offsets":[0,24]}}"#;
    let data = make_safetensors(header);

    let result = parse_safetensors(&data);
    assert!(result.is_err());
    let err = result.unwrap_err();
    assert!(matches!(err, SafetensorsParserError::MissingField { field, .. } if field == "dtype"));
}

#[test]
fn test_missing_shape_field() {
    let header = r#"{"test.weight":{"dtype":"F32","data_offsets":[0,24]}}"#;
    let data = make_safetensors(header);

    let result = parse_safetensors(&data);
    assert!(result.is_err());
    let err = result.unwrap_err();
    assert!(matches!(err, SafetensorsParserError::MissingField { field, .. } if field == "shape"));
}

#[test]
fn test_missing_data_offsets_field() {
    let header = r#"{"test.weight":{"dtype":"F32","shape":[2,3]}}"#;
    let data = make_safetensors(header);

    let result = parse_safetensors(&data);
    assert!(result.is_err());
    let err = result.unwrap_err();
    assert!(matches!(err, SafetensorsParserError::MissingField { field, .. } if field == "data_offsets"));
}

#[test]
fn test_invalid_shape_dimension() {
    let header = r#"{"test.weight":{"dtype":"F32","shape":["not","a","number"],"data_offsets":[0,24]}}"#;
    let data = make_safetensors(header);

    let result = parse_safetensors(&data);
    assert!(result.is_err());
    assert!(matches!(result.unwrap_err(), SafetensorsParserError::InvalidShape { .. }));
}

#[test]
fn test_invalid_byte_length() {
    let header = r#"{"test.weight":{"dtype":"F32","shape":[2,3],"data_offsets":[10,5]}}"#;
    let data = make_safetensors(header);

    let result = parse_safetensors(&data);
    assert!(result.is_err());
    assert!(matches!(result.unwrap_err(), SafetensorsParserError::InvalidByteLength { .. }));
}

#[test]
fn test_invalid_json_header() {
    let header_json = b"not valid json";
    let header_len = header_json.len() as u64;

    let mut data = Vec::new();
    data.extend_from_slice(&header_len.to_le_bytes());
    data.extend_from_slice(header_json);

    let result = parse_safetensors(&data);
    assert!(result.is_err());
}

#[test]
fn test_header_too_large() {
    let mut data = vec![0u8; 8];
    let too_big = MAX_HEADER_SIZE + 1;
    data[0..8].copy_from_slice(&too_big.to_le_bytes());

    let result = parse_safetensors(&data);
    assert!(result.is_err());
    assert!(matches!(result.unwrap_err(), SafetensorsParserError::HeaderTooLarge { .. }));
}

#[test]
fn test_multiple_tensors() {
    let header = r#"{
        "tensor1": {"dtype": "F32", "shape": [2], "data_offsets": [0, 8]},
        "tensor2": {"dtype": "I64", "shape": [3], "data_offsets": [8, 32]}
    }"#;
    let data = make_safetensors(header);

    let artifact = parse_safetensors(&data).unwrap();

    assert_eq!(artifact.tensors.len(), 2);
    assert!(artifact.tensors.contains_key("tensor1"));
    assert!(artifact.tensors.contains_key("tensor2"));
}

#[test]
fn test_dtype_normalization() {
    let header = r#"{"test.weight":{"dtype":"F32","shape":[1],"data_offsets":[0,4]}}"#;
    let data = make_safetensors(header);

    let artifact = parse_safetensors(&data).unwrap();

    assert_eq!(artifact.tensors.get("test.weight").unwrap().dtype, "f32");
}

#[test]
fn equal_offsets_are_rejected_not_zero_length() {
    let header = r#"{"w":{"dtype":"F32","shape":[0],"data_offsets":[8,8]}}"#;
    match parse_safetensors(&make_safetensors(header)) {
        Err(SafetensorsParserError::InvalidByteLength { name, offset, end }) => {
            assert_eq!(name, "w");
            assert_eq!(offset, 8);
            assert_eq!(end, 8);
        },
        other => panic!("unexpected {:?}", other),
    }
}

#[test]
fn header_length_at_the_ceiling_is_read() {
    let mut data = vec![0u8; 8];
    data[0..8].copy_from_slice(&MAX_HEADER_SIZE.to_le_bytes());
    assert!(matches!(parse_safetensors(&data), Err(SafetensorsParserError::Truncated)));
    match parse_safetensors(&data[0..8]) {
        Err(SafetensorsParserError::Truncated) => {},
        other => panic!("unexpected {:?}", other),
    }
    match parse_safetensors(&[1u8, 2, 3]) {
        Err(SafetensorsParserError::Truncated) => {},
        other => panic!("unexpected {:?}", other),
    }
    let mut big = vec![0u8; 8];
    big[0..8].copy_from_slice(&(100u64 * 1024 * 1024 + 1).to_le_bytes());
    match parse_safetensors(&big) {
        Err(SafetensorsParserError::HeaderTooLarge { size, max }) => {
            assert_eq!(size, 104857601);
            assert_eq!(max, 104857600);
        },
        other => panic!("unexpected {:?}", other),
    }
}

#[test]
fn field_errors_name_the_tensor_and_field() {
    let cases = [
        (r#"{"w":{"dtype":3,"shape":[1],"data_offsets":[0,4]}}"#, "dtype"),
        (r#"{"w":{"dtype":"F32","shape":4,"data_offsets":[0,4]}}"#, "shape"),
        (r#"{"w":{"dtype":"F32","shape":[1],"data_offsets":[0]}}"#, "data_offsets"),
        (r#"{"w":{"dtype":"F32","shape":[1],"data_offsets":[-1,4]}}"#, "data_offsets[0]"),
        (r#"{"w":{"dtype":"F32","shape":[1],"data_offsets":[0,"x"]}}"#, "data_offsets[1]"),
    ];
    for (header, field) in cases {
        match parse_safetensors(&make_safetensors(header)) {
            Err(SafetensorsParserError::MissingField { name, field: f }) => {
                assert_eq!(name, "w");
                assert_eq!(f, field);
            },
            other => panic!("unexpected {:?}", other),
        }
    }
    match parse_safetensors(&make_safetensors(r#"{"w":{"dtype":"F32","shape":[1,-2],"data_offsets":[0,4]}}"#)) {
        Err(SafetensorsParserError::InvalidShape { name, index }) => {
            assert_eq!(name, "w");
            assert_eq!(index, 1);
        },
        other => panic!("unexpected {:?}", other),
    }
}

#[test]
fn metadata_kinds_and_ignored_entries() {
    let header = r#"{"__metadata__":{"s":"x","i":-3,"f":1.5,"b":true,"n":null,"a":[1,2]},"note":"ignored"}"#;
    let a = parse_safetensors(&make_safetensors(header)).unwrap();
    assert_eq!(a.gguf_version, None);
    assert_eq!(a.tensors.len(), 0);
    assert_eq!(a.metadata.get("s"), Some(&CanonicalValue::String("x".to_string())));
    assert_eq!(a.metadata.get("i"), Some(&CanonicalValue::Int(-3)));
    assert_eq!(a.metadata.get("f"), Some(&CanonicalValue::Float(1.5f64.to_bits())));
    assert_eq!(a.metadata.get("b"), Some(&CanonicalValue::Bool(true)));
    assert_eq!(a.metadata.get("n"), Some(&CanonicalValue::Null));
    assert_eq!(a.metadata.get("a"), Some(&CanonicalValue::String("[1,2]".to_string())));
}

#[test]
fn non_object_or_non_utf8_header_is_invalid() {
    assert!(matches!(parse_safetensors(&make_safetensors("[1,2]")), Err(SafetensorsParserError::InvalidHeader)));
    let mut data = vec![2u8, 0, 0, 0, 0, 0, 0, 0];
    data.extend_from_slice(&[0xff, 0xfe]);
    assert!(matches!(parse_safetensors(&data), Err(SafetensorsParserError::InvalidHeader)));
    assert!(matches!(
        parse_safetensors(&make_safetensors("not valid json")),
        Err(SafetensorsParserError::InvalidHeader)
    ));
}
