use phab_form::encode::encode;
use phab_form::params::{ParamError, Params};
use phab_form::value::Value;

#[test]
fn key_value() {
    let p = Params::new(b"key=value").expect("Failed to create params");
    assert_eq!(Some("value"), p.get(&["key"]));
}

#[test]
fn one_level() {
    let p = Params::new(b"key[level]=value").expect("Failed to create params");
    assert_eq!(Some("value"), p.get(&["key", "level"]));
}

#[test]
fn array() {
    let p = Params::new(b"key[0]=value0&key[1]=value1&key[2]=value2")
        .expect("Failed to create params");
    let values = p.get_values(&["key"]).expect("Missing key");
    assert_eq!(["value0", "value1", "value2"], values.as_slice());
}

#[test]
fn one_level_array() {
    let p = Params::new(b"key[bla][0]=value0&key[bla][1]=value1&key[bla][2]=value2")
        .expect("Failed to create params");
    let values = p.get_values(&["key", "bla"]).expect("Missing key");
    assert_eq!(["value0", "value1", "value2"], values.as_slice());
}

#[test]
fn duplicate_value() {
    let p = Params::new(b"key=value0&key=value1");
    assert!(p.is_err());
}

#[test]
fn inconsistent_hierachy() {
    let p = Params::new(b"key[bla]=value0&key[bla][0]=value1");
    assert!(p.is_err());
}

#[test]
fn incorrect_index() {
    let p = Params::new(b"key[bla=value0");
    assert!(p.is_err());
}

#[test]
fn percent_encoded_brackets_and_plus() {
    let p = Params::new(b"a%5Bb%5D=x+y&c=%26").unwrap();
    assert_eq!(p.get(&["a", "b"]), Some("x y"));
    assert_eq!(p.get(&["c"]), Some("&"));
}

#[test]
fn empty_body() {
    let p = Params::new(b"").unwrap();
    assert_eq!(p.get(&["a"]), None);
}

#[test]
fn error_kinds() {
    assert_eq!(Params::new(b"k[bla=v").err(), Some(ParamError::MalformedKey));
    assert_eq!(Params::new(b"k[0][a]=v").err(), Some(ParamError::IndexNotLast));
    assert_eq!(Params::new(b"k[1]=v").err(), Some(ParamError::IndexOutOfOrder));
    assert_eq!(Params::new(b"k[0]=a&k[0]=b").err(), Some(ParamError::IndexOutOfOrder));
    assert_eq!(Params::new(b"k=v&k[0]=w").err(), Some(ParamError::InconsistentHierarchy));
    assert_eq!(Params::new(b"k[a]=v&k[0]=w").err(), Some(ParamError::InconsistentHierarchy));
    assert_eq!(Params::new(b"k[0]=v&k[0][a]=w").err(), Some(ParamError::IndexNotLast));
    assert_eq!(Params::new(b"k=v&k[a]=w").err(), Some(ParamError::InvalidParameters));
    assert_eq!(Params::new(b"k[a]=v&k=w").err(), Some(ParamError::DuplicateKey));
}

#[test]
fn lookups_by_kind() {
    let p = Params::new(b"a=1&b[0]=2&c[d]=3").unwrap();
    assert_eq!(p.get(&["a"]), Some("1"));
    assert_eq!(p.get_values(&["a"]), None);
    assert_eq!(p.get(&["b"]), None);
    assert_eq!(p.get_values(&["b"]).unwrap().as_slice(), ["2"]);
    assert_eq!(p.get(&["c"]), None);
    assert_eq!(p.get(&["c", "d"]), Some("3"));
    assert_eq!(p.get(&[]), None);
}

#[test]
fn plus_index_reads_as_index() {
    let p = Params::new(b"k[%2B0]=a&k[1]=b").unwrap();
    assert_eq!(p.get_values(&["k"]).unwrap().as_slice(), ["a", "b"]);
}

#[test]
fn huge_index_is_a_key() {
    let p = Params::new(b"k[99999999999999999999999]=a").unwrap();
    assert_eq!(p.get(&["k", "99999999999999999999999"]), Some("a"));
}

#[test]
fn from_pairs_builds_in_order() {
    let pairs = vec![("x[0]".to_string(), "1".to_string()), ("x[1]".to_string(), "2".to_string())];
    let p = Params::from_pairs(&pairs).unwrap();
    assert_eq!(p.get_values(&["x"]).unwrap().as_slice(), ["1", "2"]);
}

#[test]
fn error_messages() {
    assert_eq!(ParamError::DuplicateKey.message(), "Duplicate key in parameters");
    assert_eq!(ParamError::MalformedKey.message(), "index didn't end in ]");
}

#[test]
fn encoded_request_decodes_back() {
    let v = Value::Struct(vec![
        ("a".to_string(), Value::Str("x y".to_string())),
        ("names".to_string(), Value::Sequence(vec![Value::Str("T100".to_string()), Value::Str("T200".to_string())])),
    ]);
    let pairs = encode(&v).unwrap();
    let body = form_urlencoded::Serializer::new(String::new()).extend_pairs(pairs.iter()).finish();
    let p = Params::new(body.as_bytes()).unwrap();
    assert_eq!(p.get(&["a"]), Some("x y"));
    assert_eq!(p.get_values(&["names"]).unwrap().as_slice(), ["T100", "T200"]);
    let direct = Params::from_pairs(&pairs).unwrap();
    assert_eq!(direct.get(&["a"]), Some("x y"));
}
