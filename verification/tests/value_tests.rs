use home_mng::cbor::CborValue;
use home_mng::payload::{PayloadSource, RequestPayload, ValType};
use home_mng::text::IntErrorKind;
use home_mng::value::{Value, ValueError};
use std::str::FromStr;

fn text_of(v: &CborValue) -> &str {
    match v {
        CborValue::Text(s) => s.as_str(),
        _ => panic!("not a text"),
    }
}

#[test]
fn value_from_str_is_text() {
    let v = Value::from_str("hello").unwrap();
    assert_eq!(text_of(&v.0), "hello");
    let t = Value::from_type_and_str("str", "hello").unwrap();
    assert_eq!(text_of(&t.0), "hello");
}

#[test]
fn from_type_and_str_int() {
    match Value::from_type_and_str("int", "-42").unwrap().0 {
        CborValue::Integer(n) => assert_eq!(n, -42),
        _ => panic!("not an integer"),
    }
    match Value::from_type_and_str("int", "2147483647").unwrap().0 {
        CborValue::Integer(n) => assert_eq!(n, 2147483647),
        _ => panic!("not an integer"),
    }
}

#[test]
fn from_type_and_str_int_errors() {
    match Value::from_type_and_str("int", "4x") {
        Err(e) => {
            assert_eq!(e, ValueError::InvalidInteger(IntErrorKind::InvalidDigit));
            assert_eq!(e.message(), "invalid digit found in string");
        }
        Ok(_) => panic!("accepted"),
    }
    match Value::from_type_and_str("int", "") {
        Err(e) => assert_eq!(e.message(), "cannot parse integer from empty string"),
        Ok(_) => panic!("accepted"),
    }
    match Value::from_type_and_str("int", "2147483648") {
        Err(e) => assert_eq!(e.message(), "number too large to fit in target type"),
        Ok(_) => panic!("accepted"),
    }
    match Value::from_type_and_str("int", "-2147483649") {
        Err(e) => assert_eq!(e.message(), "number too small to fit in target type"),
        Ok(_) => panic!("accepted"),
    }
}

#[test]
fn from_type_and_str_messages_match_std() {
    let int_err = "x".parse::<i32>().unwrap_err().to_string();
    assert_eq!(ValueError::InvalidInteger(IntErrorKind::InvalidDigit).message(), int_err);
    let bool_err = "x".parse::<bool>().unwrap_err().to_string();
    assert_eq!(ValueError::InvalidBool.message(), bool_err);
}

#[test]
fn from_type_and_str_bin_is_empty() {
    match Value::from_type_and_str("bin", "a1b2").unwrap().0 {
        CborValue::Bytes(b) => assert!(b.is_empty()),
        _ => panic!("not bytes"),
    }
}

#[test]
fn from_type_and_str_bool() {
    match Value::from_type_and_str("bool", "true").unwrap().0 {
        CborValue::Bool(b) => assert!(b),
        _ => panic!("not a bool"),
    }
    match Value::from_type_and_str("bool", "false").unwrap().0 {
        CborValue::Bool(b) => assert!(!b),
        _ => panic!("not a bool"),
    }
    match Value::from_type_and_str("bool", "yes") {
        Err(e) => {
            assert_eq!(e, ValueError::InvalidBool);
            assert_eq!(e.message(), "provided string was not `true` or `false`");
        }
        Ok(_) => panic!("accepted"),
    }
}

#[test]
fn from_type_and_str_unknown_type() {
    match Value::from_type_and_str("float", "1") {
        Err(e) => {
            assert_eq!(e, ValueError::InvalidType);
            assert_eq!(e.message(), "Invalid value's type");
        }
        Ok(_) => panic!("accepted"),
    }
}

#[test]
fn val_type_names_round_trip() {
    for t in [ValType::StringType, ValType::IntType, ValType::BinType, ValType::BoolType] {
        assert_eq!(ValType::parse(&t.to_string()), Ok(t));
    }
    assert_eq!(ValType::IntType.to_string(), "int");
    assert_eq!(ValType::StringType.to_string(), "str");
    assert_eq!(ValType::BinType.to_string(), "bin");
    assert_eq!(ValType::BoolType.to_string(), "bool");
}

#[test]
fn val_type_unknown_name() {
    let e = ValType::parse("float").unwrap_err();
    assert_eq!(e.message(), "Unknown value type. Use int, str, or bin");
    assert!(ValType::from_str("Int").is_err());
    assert_eq!(ValType::from_str("bool"), Ok(ValType::BoolType));
}

fn payload(key: Option<&str>, value: Option<&str>, value_type: ValType, hexstring: bool) -> RequestPayload {
    RequestPayload {
        key: key.map(|k| k.to_string()),
        value: value.map(|v| v.to_string()),
        value_type,
        hexstring,
    }
}

fn single_entry(source: PayloadSource) -> (String, CborValue) {
    match source {
        PayloadSource::Data(CborValue::Mapping(mut entries)) => {
            assert_eq!(entries.len(), 1);
            let (k, v) = entries.pop().unwrap();
            (text_of(&k).to_string(), v)
        }
        _ => panic!("not a map"),
    }
}

#[test]
fn payload_string_value() {
    let (k, v) = single_entry(payload(Some("name"), Some("lamp"), ValType::StringType, false).source().ok().unwrap());
    assert_eq!(k, "name");
    assert_eq!(text_of(&v), "lamp");
}

#[test]
fn payload_int_value() {
    let (k, v) = single_entry(payload(Some("level"), Some("-7"), ValType::IntType, false).source().ok().unwrap());
    assert_eq!(k, "level");
    match v {
        CborValue::Integer(n) => assert_eq!(n, -7),
        _ => panic!("not an integer"),
    }
}

#[test]
fn payload_bin_value() {
    let (_, v) = single_entry(payload(Some("key"), Some("00a1FF"), ValType::BinType, false).source().ok().unwrap());
    match v {
        CborValue::Bytes(b) => assert_eq!(b, vec![0x00, 0xa1, 0xff]),
        _ => panic!("not bytes"),
    }
}

#[test]
fn payload_bool_value() {
    let (_, v) = single_entry(payload(Some("on"), Some("true"), ValType::BoolType, false).source().ok().unwrap());
    match v {
        CborValue::Bool(b) => assert!(b),
        _ => panic!("not a bool"),
    }
}

#[test]
fn payload_missing_data() {
    for p in [
        payload(None, Some("v"), ValType::StringType, false),
        payload(Some("k"), None, ValType::StringType, false),
        payload(None, None, ValType::IntType, false),
    ] {
        match p.source() {
            Err(e) => assert_eq!(e.message(), "Missing data in the passed structure"),
            Ok(_) => panic!("accepted"),
        }
    }
}

#[test]
fn payload_hexstring_reads_input() {
    match payload(Some("k"), Some("v"), ValType::StringType, true).source() {
        Ok(PayloadSource::HexInput) => {}
        _ => panic!("expected hex input"),
    }
    match payload(None, None, ValType::StringType, true).source() {
        Ok(PayloadSource::HexInput) => {}
        _ => panic!("expected hex input"),
    }
}

#[test]
fn duplicate_keeps_nested_items() {
    let v = CborValue::Mapping(vec![(
        CborValue::Text("a".to_string()),
        CborValue::Array(vec![CborValue::Integer(1), CborValue::Tag(7, Box::new(CborValue::Null))]),
    )]);
    let d = v.duplicate();
    match d {
        CborValue::Mapping(entries) => {
            assert_eq!(text_of(&entries[0].0), "a");
            match &entries[0].1 {
                CborValue::Array(items) => {
                    assert!(matches!(items[0], CborValue::Integer(1)));
                    assert!(matches!(&items[1], CborValue::Tag(7, b) if matches!(**b, CborValue::Null)));
                }
                _ => panic!("not an array"),
            }
        }
        _ => panic!("not a map"),
    }
}
