use base64::Engine;
use pydynox::codec::decode;
use pydynox::codec::encode;
use pydynox::errors::PydynoError;
use pydynox::expr::build_set_expression;
use pydynox::expr::merge_entries;
use pydynox::kms::is_encrypted;
use pydynox::kms::unwrap_ciphertext;
use pydynox::kms::wrap_ciphertext;
use pydynox::numtext::check_float_text;
use pydynox::numtext::has_marker;
use pydynox::numtext::i64_to_decimal;
use pydynox::numtext::parse_i64;
use pydynox::numtext::u64_to_decimal;
use pydynox::value::AttributeValue;
use pydynox::value::NativeValue;

fn s(x: &str) -> String {
    String::from(x)
}

fn round_trips(v: NativeValue, again: NativeValue) {
    let encoded = encode(&v).expect("encode");
    let decoded = decode(&encoded).expect("decode");
    assert_eq!(decoded, again);
}

#[test]
fn round_trip_scalars() {
    round_trips(NativeValue::Null, NativeValue::Null);
    round_trips(NativeValue::Bool(true), NativeValue::Bool(true));
    round_trips(NativeValue::Bool(false), NativeValue::Bool(false));
    round_trips(NativeValue::Int(0), NativeValue::Int(0));
    round_trips(NativeValue::Int(42), NativeValue::Int(42));
    round_trips(NativeValue::Int(-42), NativeValue::Int(-42));
    round_trips(NativeValue::Int(i64::MAX), NativeValue::Int(i64::MAX));
    round_trips(NativeValue::Int(i64::MIN), NativeValue::Int(i64::MIN));
    round_trips(NativeValue::Float(s("1.5")), NativeValue::Float(s("1.5")));
    round_trips(NativeValue::Float(s("-2.25e10")), NativeValue::Float(s("-2.25e10")));
    round_trips(NativeValue::Str(s("hello")), NativeValue::Str(s("hello")));
    round_trips(NativeValue::Bytes(vec![1, 2, 3]), NativeValue::Bytes(vec![1, 2, 3]));
}

#[test]
fn round_trip_containers() {
    let v = NativeValue::List(vec![
        NativeValue::Int(1),
        NativeValue::Str(s("two")),
        NativeValue::List(vec![NativeValue::Bool(true), NativeValue::Null]),
        NativeValue::Dict(vec![(s("k"), NativeValue::Float(s("0.5")))]),
    ]);
    let again = NativeValue::List(vec![
        NativeValue::Int(1),
        NativeValue::Str(s("two")),
        NativeValue::List(vec![NativeValue::Bool(true), NativeValue::Null]),
        NativeValue::Dict(vec![(s("k"), NativeValue::Float(s("0.5")))]),
    ]);
    round_trips(v, again);
}

#[test]
fn round_trip_sets() {
    round_trips(
        NativeValue::SetVal(vec![NativeValue::Str(s("a")), NativeValue::Str(s("b"))]),
        NativeValue::SetVal(vec![NativeValue::Str(s("a")), NativeValue::Str(s("b"))]),
    );
    round_trips(
        NativeValue::SetVal(vec![NativeValue::Int(3), NativeValue::Float(s("4.5"))]),
        NativeValue::SetVal(vec![NativeValue::Int(3), NativeValue::Float(s("4.5"))]),
    );
    round_trips(
        NativeValue::SetVal(vec![NativeValue::Bytes(vec![9]), NativeValue::Bytes(vec![8, 7])]),
        NativeValue::SetVal(vec![NativeValue::Bytes(vec![9]), NativeValue::Bytes(vec![8, 7])]),
    );
}

#[test]
fn round_trip_is_lossy_on_unmarked_float_text() {
    // A float whose decimal text carries no marker reads back as an
    // integer: the documented, accepted lossiness.
    let encoded = encode(&NativeValue::Float(s("5"))).expect("encode");
    assert_eq!(encoded, AttributeValue::N(s("5")));
    let decoded = decode(&encoded).expect("decode");
    assert_eq!(decoded, NativeValue::Int(5));
}

#[test]
fn empty_set_fails_with_validation_error() {
    let r = encode(&NativeValue::SetVal(vec![]));
    match r {
        Err(PydynoError::Validation(m)) => {
            assert_eq!(m, "DynamoDB does not support empty sets");
        }
        other => panic!("expected a validation error, got {:?}", other),
    }
}

#[test]
fn mixed_sets_fail() {
    let r = encode(&NativeValue::SetVal(vec![
        NativeValue::Str(s("a")),
        NativeValue::Int(1),
    ]));
    match r {
        Err(PydynoError::Serialization(m)) => {
            assert_eq!(m, "String set must contain only strings");
        }
        other => panic!("expected a serialization error, got {:?}", other),
    }
    let r = encode(&NativeValue::SetVal(vec![
        NativeValue::Int(1),
        NativeValue::Str(s("a")),
    ]));
    match r {
        Err(PydynoError::Serialization(m)) => {
            assert_eq!(m, "Number set must contain only numbers");
        }
        other => panic!("expected a serialization error, got {:?}", other),
    }
    let r = encode(&NativeValue::SetVal(vec![
        NativeValue::Bytes(vec![1]),
        NativeValue::Null,
    ]));
    match r {
        Err(PydynoError::Serialization(m)) => {
            assert_eq!(m, "Binary set must contain only bytes");
        }
        other => panic!("expected a serialization error, got {:?}", other),
    }
}

#[test]
fn set_of_unsupported_elements_fails() {
    let r = encode(&NativeValue::SetVal(vec![NativeValue::Null]));
    match r {
        Err(PydynoError::Serialization(m)) => {
            assert_eq!(m, "Sets can only contain strings, numbers, or bytes");
        }
        other => panic!("expected a serialization error, got {:?}", other),
    }
}

#[test]
fn booleans_encode_to_boolean_never_number() {
    assert_eq!(encode(&NativeValue::Bool(true)).unwrap(), AttributeValue::Bool(true));
    assert_eq!(encode(&NativeValue::Bool(false)).unwrap(), AttributeValue::Bool(false));
}

#[test]
fn numbers_encode_to_decimal_text() {
    assert_eq!(encode(&NativeValue::Int(123)).unwrap(), AttributeValue::N(s("123")));
    assert_eq!(encode(&NativeValue::Int(-7)).unwrap(), AttributeValue::N(s("-7")));
    assert_eq!(encode(&NativeValue::Int(0)).unwrap(), AttributeValue::N(s("0")));
    assert_eq!(
        encode(&NativeValue::Float(s("2.75"))).unwrap(),
        AttributeValue::N(s("2.75"))
    );
}

#[test]
fn number_decode_chooses_by_marker() {
    assert_eq!(decode(&AttributeValue::N(s("5"))).unwrap(), NativeValue::Int(5));
    assert_eq!(decode(&AttributeValue::N(s("-5"))).unwrap(), NativeValue::Int(-5));
    assert_eq!(decode(&AttributeValue::N(s("+5"))).unwrap(), NativeValue::Int(5));
    assert_eq!(
        decode(&AttributeValue::N(s("5.0"))).unwrap(),
        NativeValue::Float(s("5.0"))
    );
    assert_eq!(
        decode(&AttributeValue::N(s("1e3"))).unwrap(),
        NativeValue::Float(s("1e3"))
    );
    assert_eq!(
        decode(&AttributeValue::N(s(".5"))).unwrap(),
        NativeValue::Float(s(".5"))
    );
}

#[test]
fn invalid_number_text_fails_decode() {
    match decode(&AttributeValue::N(s("abc"))) {
        Err(PydynoError::Serialization(m)) => assert_eq!(m, "Invalid number: abc"),
        other => panic!("expected a serialization error, got {:?}", other),
    }
    match decode(&AttributeValue::N(s("1.2.3"))) {
        Err(PydynoError::Serialization(m)) => assert_eq!(m, "Invalid number: 1.2.3"),
        other => panic!("expected a serialization error, got {:?}", other),
    }
    match decode(&AttributeValue::N(s("9223372036854775808"))) {
        Err(PydynoError::Serialization(m)) => {
            assert_eq!(m, "Invalid number: 9223372036854775808");
        }
        other => panic!("expected a serialization error, got {:?}", other),
    }
    match decode(&AttributeValue::N(s(""))) {
        Err(PydynoError::Serialization(m)) => assert_eq!(m, "Invalid number: "),
        other => panic!("expected a serialization error, got {:?}", other),
    }
}

#[test]
fn number_set_elements_reparse_individually() {
    let v = decode(&AttributeValue::Ns(vec![s("1"), s("2.5")])).unwrap();
    assert_eq!(
        v,
        NativeValue::SetVal(vec![NativeValue::Int(1), NativeValue::Float(s("2.5"))])
    );
}

#[test]
fn decimal_text_of_integers() {
    assert_eq!(u64_to_decimal(0), "0");
    assert_eq!(u64_to_decimal(10), "10");
    assert_eq!(u64_to_decimal(90210), "90210");
    assert_eq!(i64_to_decimal(0), "0");
    assert_eq!(i64_to_decimal(-1), "-1");
    assert_eq!(i64_to_decimal(i64::MIN), "-9223372036854775808");
    assert_eq!(i64_to_decimal(i64::MAX), "9223372036854775807");
}

#[test]
fn integer_text_parsing() {
    assert_eq!(parse_i64("0"), Some(0));
    assert_eq!(parse_i64("-0"), Some(0));
    assert_eq!(parse_i64("007"), Some(7));
    assert_eq!(parse_i64("+12"), Some(12));
    assert_eq!(parse_i64("-9223372036854775808"), Some(i64::MIN));
    assert_eq!(parse_i64("9223372036854775807"), Some(i64::MAX));
    assert_eq!(parse_i64("9223372036854775808"), None);
    assert_eq!(parse_i64("-9223372036854775809"), None);
    assert_eq!(parse_i64(""), None);
    assert_eq!(parse_i64("-"), None);
    assert_eq!(parse_i64("+"), None);
    assert_eq!(parse_i64("1 2"), None);
    assert_eq!(parse_i64("12a"), None);
}

#[test]
fn float_markers_and_float_text() {
    assert!(has_marker("1.5"));
    assert!(has_marker("1e5"));
    assert!(has_marker("1E5"));
    assert!(!has_marker("15"));
    assert!(!has_marker("-15"));
    assert!(check_float_text("1.5"));
    assert!(check_float_text("-1.5"));
    assert!(check_float_text("+.5"));
    assert!(check_float_text("5."));
    assert!(check_float_text("1e5"));
    assert!(check_float_text("1.5E-3"));
    assert!(check_float_text("1e+3"));
    assert!(!check_float_text(""));
    assert!(!check_float_text("."));
    assert!(!check_float_text("1e"));
    assert!(!check_float_text("e5"));
    assert!(!check_float_text("1.2.3"));
    assert!(!check_float_text("1x5"));
}

#[test]
fn set_expression_text_and_placeholders() {
    let updates = vec![
        (s("name"), NativeValue::Str(s("John"))),
        (s("age"), NativeValue::Int(30)),
    ];
    let (expr, names, values) = build_set_expression(&updates).expect("build");
    assert_eq!(expr, "SET #f0 = :v0, #f1 = :v1");
    assert_eq!(names, vec![(s("#f0"), s("name")), (s("#f1"), s("age"))]);
    assert_eq!(
        values,
        vec![
            (s(":v0"), AttributeValue::S(s("John"))),
            (s(":v1"), AttributeValue::N(s("30"))),
        ]
    );
}

#[test]
fn set_expression_of_no_fields() {
    let updates: Vec<(String, NativeValue)> = vec![];
    let (expr, names, values) = build_set_expression(&updates).expect("build");
    assert_eq!(expr, "SET ");
    assert!(names.is_empty());
    assert!(values.is_empty());
}

#[test]
fn set_expression_fails_on_unencodable_value() {
    let updates = vec![(s("bad"), NativeValue::SetVal(vec![]))];
    match build_set_expression(&updates) {
        Err(PydynoError::Validation(m)) => {
            assert_eq!(m, "DynamoDB does not support empty sets");
        }
        other => panic!("expected a validation error, got {:?}", other),
    }
}

#[test]
fn merge_prefers_caller_entries() {
    let auto = vec![(s("#f0"), s("name")), (s("#f1"), s("age"))];
    let user = vec![(s("#f1"), s("years")), (s("#x"), s("extra"))];
    let merged = merge_entries(auto, user);
    assert_eq!(
        merged,
        vec![(s("#f0"), s("name")), (s("#f1"), s("years")), (s("#x"), s("extra"))]
    );
}

#[test]
fn ciphertext_framing_round_trip() {
    let raw = vec![0u8, 1, 2, 250, 255];
    let framed = wrap_ciphertext(&raw);
    assert!(is_encrypted(&framed));
    assert!(framed.starts_with("ENC:"));
    let back = unwrap_ciphertext(&framed).expect("unwrap");
    assert_eq!(back, raw);
}

#[test]
fn ciphertext_framing_matches_standard_encoding() {
    let raw = b"hello world".to_vec();
    let framed = wrap_ciphertext(&raw);
    let expected = base64::engine::general_purpose::STANDARD.encode(&raw);
    assert_eq!(framed, format!("ENC:{}", expected));
}

#[test]
fn unwrap_rejects_missing_prefix_and_bad_body() {
    match unwrap_ciphertext("plaintext") {
        Err(PydynoError::Validation(m)) => {
            assert_eq!(m, "Ciphertext must start with 'ENC:' prefix");
        }
        other => panic!("expected a validation error, got {:?}", other),
    }
    match unwrap_ciphertext("ENC:!!!") {
        Err(PydynoError::Validation(m)) => {
            assert_eq!(m, "Invalid base64 in ciphertext");
        }
        other => panic!("expected a validation error, got {:?}", other),
    }
    // A non-canonical body is refused by the strict decoder.
    match unwrap_ciphertext("ENC:QQ") {
        Err(PydynoError::Validation(m)) => {
            assert_eq!(m, "Invalid base64 in ciphertext");
        }
        other => panic!("expected a validation error, got {:?}", other),
    }
}

#[test]
fn is_encrypted_inspects_prefix_only() {
    assert!(is_encrypted("ENC:anything"));
    assert!(is_encrypted("ENC:"));
    assert!(!is_encrypted("EN"));
    assert!(!is_encrypted("plain"));
    assert!(!is_encrypted(""));
}
