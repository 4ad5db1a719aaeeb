use weight_inspect::canonical::{escape_string, unescape_string, CanonicalSerializer};
use weight_inspect::types::CanonicalValue;

fn float_bits(s: &str) -> Option<u64> {
    s.parse::<f64>().ok().map(f64::to_bits)
}

fn decode(token: &str) -> CanonicalValue {
    CanonicalValue::deserialize(token, float_bits(token))
}

#[test]
fn test_nan_equality() {
    let nan = CanonicalValue::Float(f64::NAN.to_bits());
    assert_eq!(nan, nan, "NaN should equal NaN (by bit comparison)");
}

#[test]
fn test_float_equality() {
    let a = CanonicalValue::Float(1.5f64.to_bits());
    let b = CanonicalValue::Float(1.5f64.to_bits());
    assert_eq!(a, b);
}

#[test]
fn test_float32_equality() {
    let a = CanonicalValue::Float32(1.5f32.to_bits());
    let b = CanonicalValue::Float32(1.5f32.to_bits());
    assert_eq!(a, b);
}

#[test]
fn test_string_serialization() {
    let value = CanonicalValue::String("test".to_string());
    let serialized = serde_json::to_string(&CanonicalSerializer::serialize_value(&value)).unwrap();
    assert_eq!(serialized, "\"\\\"test\\\"\"");
}

#[test]
fn test_bool_serialization() {
    let value = CanonicalValue::Bool(true);
    let serialized = serde_json::to_string(&CanonicalSerializer::serialize_value(&value)).unwrap();
    assert_eq!(serialized, "\"true\"");
}

#[test]
fn test_int_parsing() {
    let token: String = serde_json::from_str("\"123\"").unwrap();
    let value = decode(&token);
    assert_eq!(value, CanonicalValue::Int(123));
}

#[test]
fn test_float_parsing() {
    let token: String = serde_json::from_str("\"1.5\"").unwrap();
    let value = decode(&token);
    assert_eq!(value, CanonicalValue::Float(1.5f64.to_bits()));
}

#[test]
fn test_float_scientific_notation() {
    let token: String = serde_json::from_str("\"1e2\"").unwrap();
    let value = decode(&token);
    assert_eq!(value, CanonicalValue::Float(100.0f64.to_bits()));
}

#[test]
fn test_escaped_string_roundtrip() {
    let value = CanonicalValue::String("hello\nworld".to_string());
    let serialized = serde_json::to_string(&CanonicalSerializer::serialize_value(&value)).unwrap();
    let token: String = serde_json::from_str(&serialized).unwrap();
    let deserialized = decode(&token);
    assert_eq!(deserialized, value);
}

#[test]
fn tokens_of_each_kind() {
    assert_eq!(CanonicalSerializer::serialize_value(&CanonicalValue::Null), "null");
    assert_eq!(CanonicalSerializer::serialize_value(&CanonicalValue::Bool(false)), "false");
    assert_eq!(CanonicalSerializer::serialize_value(&CanonicalValue::Int(-42)), "-42");
    assert_eq!(CanonicalSerializer::serialize_value(&CanonicalValue::Uint8(7)), "7");
    assert_eq!(CanonicalSerializer::serialize_value(&CanonicalValue::Int64(i64::MIN)), "-9223372036854775808");
    assert_eq!(
        CanonicalSerializer::serialize_value(&CanonicalValue::Float(1.5f64.to_bits())),
        "4609434218613702656"
    );
    assert_eq!(
        CanonicalSerializer::serialize_value(&CanonicalValue::Float32(1.5f32.to_bits())),
        "f32:1069547520"
    );
    let arr = CanonicalValue::Array(vec![
        CanonicalValue::Int(1),
        CanonicalValue::String("a".to_string()),
        CanonicalValue::Array(vec![]),
    ]);
    assert_eq!(CanonicalSerializer::serialize_value(&arr), "[1,\"a\",[]]");
}

#[test]
fn escapes_control_quote_backslash_and_non_ascii() {
    assert_eq!(escape_string("a\"b\\c\n\r\t"), "a\\\"b\\\\c\\n\\r\\t");
    assert_eq!(escape_string("\u{1}\u{7f}é"), "\\u0001\\u007f\\u00e9");
    assert_eq!(escape_string("\u{1F600}"), "\\u1f600");
    assert_eq!(escape_string(""), "");
}

#[test]
fn unescapes_every_escape() {
    assert_eq!(unescape_string("a\\\"b\\\\c\\n\\r\\t"), "a\"b\\c\n\r\t");
    assert_eq!(unescape_string("\\u0041\\u00e9"), "Aé");
    assert_eq!(unescape_string("\\q"), "q");
    assert_eq!(unescape_string("end\\"), "end");
    assert_eq!(unescape_string("\\uzzzzx"), "x");
    assert_eq!(unescape_string("\\ud800"), "");
}

#[test]
fn round_trip_of_each_kind() {
    let values = vec![
        CanonicalValue::Null,
        CanonicalValue::Bool(true),
        CanonicalValue::Bool(false),
        CanonicalValue::Int(0),
        CanonicalValue::Int(i64::MAX),
        CanonicalValue::Int(i64::MIN),
        CanonicalValue::Float32(f32::NAN.to_bits()),
        CanonicalValue::Float32(f32::INFINITY.to_bits()),
        CanonicalValue::Float32(0x7fc0_0001),
        CanonicalValue::String("quote \" backslash \\ tab \t bell \u{7} é".to_string()),
        CanonicalValue::String("123".to_string()),
        CanonicalValue::String("null".to_string()),
        CanonicalValue::String(String::new()),
    ];
    for v in values {
        let token = CanonicalSerializer::serialize_value(&v);
        assert_eq!(decode(&token), v, "token {}", token);
    }
}

#[test]
fn decoding_falls_back_to_opaque_text() {
    assert_eq!(decode("f32:notanumber"), CanonicalValue::String("f32:notanumber".to_string()));
    assert_eq!(decode("hello"), CanonicalValue::String("hello".to_string()));
    assert_eq!(decode("\""), CanonicalValue::String("\"".to_string()));
    assert_eq!(decode("+5"), CanonicalValue::Int(5));
    assert_eq!(decode("99999999999999999999"), CanonicalValue::String("99999999999999999999".to_string()));
}

#[test]
fn different_kinds_are_unequal() {
    assert_ne!(CanonicalValue::Int(5), CanonicalValue::Uint8(5));
    assert_ne!(CanonicalValue::Float(1), CanonicalValue::Float(2));
    assert_eq!(
        CanonicalValue::Array(vec![CanonicalValue::Null]),
        CanonicalValue::Array(vec![CanonicalValue::Null])
    );
    assert_ne!(
        CanonicalValue::Array(vec![CanonicalValue::Null]),
        CanonicalValue::Array(vec![CanonicalValue::Bool(true)])
    );
    assert_eq!(CanonicalValue::Int(3).clone(), CanonicalValue::Int(3));
}

#[test]
fn nan_values_hash_and_compare_bitwise() {
    let mut set = std::collections::HashSet::new();
    set.insert(CanonicalValue::Float(f64::NAN.to_bits()));
    set.insert(CanonicalValue::Float(f64::NAN.to_bits()));
    set.insert(CanonicalValue::Float((-f64::NAN).to_bits()));
    assert_eq!(set.len(), 2);
}
