use phab_form::encode::{compose, encode, int_string, reduce_key, uint_string};
use phab_form::value::{EncodeError, KeyKind, Value};

fn text(x: &str) -> Value {
    Value::Str(x.to_string())
}

fn record(fields: Vec<(&str, Value)>) -> Value {
    Value::Struct(fields.into_iter().map(|(k, v)| (k.to_string(), v)).collect())
}

fn some(v: Value) -> Value {
    Value::Optional(Some(Box::new(v)))
}

fn pairs(expected: &[(&str, &str)]) -> Vec<(String, String)> {
    expected.iter().map(|(k, v)| (k.to_string(), v.to_string())).collect()
}

fn urlencode(p: &[(String, String)]) -> String {
    form_urlencoded::Serializer::new(String::new()).extend_pairs(p.iter()).finish()
}

fn encoded(v: &Value) -> String {
    urlencode(&encode(v).unwrap())
}

#[test]
fn mod_basic() {
    let w = record(vec![("badger", text("mushroom"))]);
    assert_eq!(encoded(&w), "badger=mushroom");
}

#[test]
fn simple_array() {
    let w = record(vec![("badgers", Value::Sequence(vec![text("mushroom"), text("snake")]))]);
    assert_eq!(encoded(&w), "badgers%5B0%5D=mushroom&badgers%5B1%5D=snake");
}

#[test]
fn option_array() {
    let w = record(vec![("badgers", some(Value::Sequence(vec![text("mushroom"), text("snake")])))]);
    assert_eq!(encoded(&w), "badgers%5B0%5D=mushroom&badgers%5B1%5D=snake");
}

#[test]
fn option_array_none() {
    let w = record(vec![("badgers", Value::Optional(None))]);
    assert_eq!(encoded(&w), "");
}

#[test]
fn nested_array() {
    let items = |a: &str, b: &str| record(vec![("items", Value::Sequence(vec![text(a), text(b)]))]);
    let w = record(vec![("badgers", Value::Sequence(vec![items("a", "b"), items("c", "d")]))]);
    let expected = pairs(&[
        ("badgers[0][items][0]", "a"),
        ("badgers[0][items][1]", "b"),
        ("badgers[1][items][0]", "c"),
        ("badgers[1][items][1]", "d"),
    ]);
    assert_eq!(encoded(&w), urlencode(&expected));
}

#[test]
fn newtype_variant() {
    let w = Value::NewtypeVariant("N".to_string(), Box::new(Value::UInt(42)));
    assert_eq!(encode(&w).unwrap(), pairs(&[("N", "42")]));
}

#[test]
fn newtype_variant_seq() {
    let w = Value::NewtypeVariant("N".to_string(), Box::new(Value::Sequence(vec![Value::UInt(42)])));
    assert_eq!(encode(&w).unwrap(), pairs(&[("N[0]", "42")]));
}

#[test]
fn nested_newtype_variant() {
    let e = Value::NewtypeVariant("N".to_string(), Box::new(Value::Sequence(vec![Value::UInt(42)])));
    let w = record(vec![("enums", Value::Sequence(vec![e]))]);
    assert_eq!(encode(&w).unwrap(), pairs(&[("enums[0][N][0]", "42")]));
}

#[test]
fn unit_variant() {
    let w = record(vec![("e", Value::UnitVariant("A".to_string()))]);
    assert_eq!(encode(&w).unwrap(), pairs(&[("e", "A")]));
}

#[test]
fn newtype_struct() {
    // A newtype struct is transparent: `S(42)` is its field.
    let w = record(vec![("s", Value::UInt(42))]);
    assert_eq!(encode(&w).unwrap(), pairs(&[("s", "42")]));
}

#[test]
fn nested_newtype_struct() {
    let w = record(vec![("s", Value::Sequence(vec![Value::UInt(42), Value::UInt(47)]))]);
    assert_eq!(encode(&w).unwrap(), pairs(&[("s[0]", "42"), ("s[1]", "47")]));
}

#[test]
fn struct_variant() {
    let s = Value::StructVariant(
        "S".to_string(),
        vec![("a".to_string(), Value::UInt(42)), ("b".to_string(), Value::UInt(47))],
    );
    let w = record(vec![("e", s)]);
    assert_eq!(encode(&w).unwrap(), pairs(&[("e[S][a]", "42"), ("e[S][b]", "47")]));
}

#[test]
fn map() {
    let w = Value::Mapping(vec![(text("badger"), Value::Int(42))]);
    assert_eq!(encode(&w).unwrap(), pairs(&[("badger", "42")]));
}

#[test]
fn map_seq() {
    let w = Value::Mapping(vec![(text("badger"), Value::Sequence(vec![Value::Int(42), Value::Int(47)]))]);
    assert_eq!(encode(&w).unwrap(), pairs(&[("badger[0]", "42"), ("badger[1]", "47")]));
}

#[test]
fn nested_map() {
    let h = Value::Mapping(vec![(text("badger"), Value::Sequence(vec![Value::UInt(42), Value::UInt(47)]))]);
    let w = record(vec![("h", h)]);
    assert_eq!(encode(&w).unwrap(), pairs(&[("h[badger][0]", "42"), ("h[badger][1]", "47")]));
}

#[test]
fn scalar_field_gives_one_pair() {
    let cases = vec![
        (Value::Bool(true), "true"),
        (Value::Bool(false), "false"),
        (Value::Int(-17), "-17"),
        (Value::Int(i64::MIN), "-9223372036854775808"),
        (Value::UInt(u64::MAX), "18446744073709551615"),
        (Value::UInt(0), "0"),
        (Value::Char('x'), "x"),
        (text("a b"), "a b"),
        (Value::Bytes(b"raw".to_vec()), "raw"),
    ];
    for (v, t) in cases {
        let w = record(vec![("f", v)]);
        assert_eq!(encode(&w).unwrap(), pairs(&[("f", t)]));
    }
}

#[test]
fn empty_sequence_gives_no_pairs() {
    let w = record(vec![("f", Value::Sequence(vec![]))]);
    assert_eq!(encode(&w).unwrap(), pairs(&[]));
}

#[test]
fn empty_map_gives_no_pairs() {
    let w = record(vec![("f", Value::Mapping(vec![]))]);
    assert_eq!(encode(&w).unwrap(), pairs(&[]));
}

#[test]
fn absent_field_is_dropped_at_depth() {
    let inner = record(vec![("a", Value::Optional(None)), ("b", Value::UInt(1))]);
    let with = record(vec![("x", Value::Optional(None)), ("o", inner)]);
    let without = record(vec![("o", record(vec![("b", Value::UInt(1))]))]);
    assert_eq!(encode(&with).unwrap(), encode(&without).unwrap());
    assert_eq!(encode(&with).unwrap(), pairs(&[("o[b]", "1")]));
}

#[test]
fn present_optional_is_transparent() {
    let a = record(vec![("f", some(Value::Sequence(vec![text("x")])))]);
    let b = record(vec![("f", Value::Sequence(vec![text("x")]))]);
    assert_eq!(encode(&a).unwrap(), encode(&b).unwrap());
}

#[test]
fn nested_struct_keys_concatenate() {
    let w = record(vec![("outer", record(vec![("inner", Value::Sequence(vec![Value::UInt(5)]))]))]);
    assert_eq!(encode(&w).unwrap(), pairs(&[("outer[inner][0]", "5")]));
}

#[test]
fn integer_key_is_unsupported() {
    let w = record(vec![("m", Value::Mapping(vec![(Value::Int(1), text("x"))]))]);
    assert_eq!(encode(&w), Err(EncodeError::UnsupportedKeyType(KeyKind::Int)));
    let w = Value::Mapping(vec![(Value::UInt(1), text("x"))]);
    assert_eq!(encode(&w), Err(EncodeError::UnsupportedKeyType(KeyKind::UInt)));
}

#[test]
fn bad_key_aborts_after_good_entries() {
    let w = Value::Mapping(vec![
        (text("ok"), text("x")),
        (Value::Sequence(vec![]), text("y")),
        (Value::Int(3), text("z")),
    ]);
    assert_eq!(encode(&w), Err(EncodeError::UnsupportedKeyType(KeyKind::Sequence)));
}

#[test]
fn bool_and_char_keys_are_text() {
    let w = Value::Mapping(vec![(Value::Bool(true), Value::UInt(1)), (Value::Bool(false), Value::UInt(0)), (Value::Char('c'), Value::UInt(2))]);
    assert_eq!(encode(&w).unwrap(), pairs(&[("true", "1"), ("false", "0"), ("c", "2")]));
}

#[test]
fn reduce_key_kinds() {
    assert_eq!(reduce_key(&text("k")).unwrap(), "k");
    assert_eq!(reduce_key(&Value::Bool(false)).unwrap(), "false");
    assert_eq!(reduce_key(&Value::Char('z')).unwrap(), "z");
    assert_eq!(reduce_key(&Value::Bytes(vec![1])), Err(EncodeError::UnsupportedKeyType(KeyKind::Bytes)));
    assert_eq!(reduce_key(&Value::Unit), Err(EncodeError::UnsupportedKeyType(KeyKind::Unit)));
    assert_eq!(reduce_key(&Value::Optional(None)), Err(EncodeError::UnsupportedKeyType(KeyKind::Optional)));
    assert_eq!(reduce_key(&record(vec![])), Err(EncodeError::UnsupportedKeyType(KeyKind::Struct)));
    assert_eq!(reduce_key(&Value::UnitVariant("A".to_string())), Err(EncodeError::UnsupportedKeyType(KeyKind::Variant)));
    assert_eq!(reduce_key(&Value::Mapping(vec![])), Err(EncodeError::UnsupportedKeyType(KeyKind::Mapping)));
}

#[test]
fn compose_keeps_brackets_in_segments() {
    assert_eq!(compose("", "a"), "a");
    assert_eq!(compose("a", "b"), "a[b]");
    assert_eq!(compose("a[b]", "c]d["), "a[b][c]d[]");
}

#[test]
fn decimal_text() {
    assert_eq!(uint_string(0), "0");
    assert_eq!(uint_string(1234567890), "1234567890");
    assert_eq!(int_string(-1), "-1");
    assert_eq!(int_string(i64::MAX), "9223372036854775807");
}

#[test]
fn unit_gives_no_pairs() {
    let w = record(vec![("u", Value::Unit)]);
    assert_eq!(encode(&w).unwrap(), pairs(&[]));
}

#[test]
fn invalid_utf8_bytes_are_replaced() {
    let w = record(vec![("b", Value::Bytes(vec![b'a', 0xff]))]);
    assert_eq!(encode(&w).unwrap(), pairs(&[("b", "a\u{FFFD}")]));
}

#[test]
fn error_message() {
    assert_eq!(
        EncodeError::UnsupportedKeyType(KeyKind::Int).message(),
        "unsupported key type for nested form key"
    );
}
