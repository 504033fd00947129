use datafix::codec::{Bound, Codecs, Conv, DefaultCodec, RecordCodecBuilder};
use datafix::context::TracePoint;
use datafix::result::DataError;
use datafix::value::Value;

fn obj(pairs: Vec<(&str, Value)>) -> Value {
    Value::Object(pairs.into_iter().map(|(k, v)| (k.to_string(), v)).collect())
}

fn s(text: &str) -> Value {
    Value::Str(text.to_string())
}

#[test]
fn string_codec() {
    let value = s("Hello!");
    let encoded = String::codec().encode(&value).unwrap();
    let decoded = String::codec().decode(&encoded).unwrap();

    assert_eq!(value, decoded);
}

#[test]
fn bool_codec() {
    let value = Value::Bool(true);
    let encoded = bool::codec().encode(&value).unwrap();
    let decoded = bool::codec().decode(&encoded).unwrap();

    assert_eq!(value, decoded);
}

#[test]
fn numeric_codec() {
    let value = Value::Int(10);
    let encoded = i32::codec().encode(&value).unwrap();
    let decoded = i32::codec().decode(&encoded).unwrap();

    assert_eq!(value, decoded);

    let value = Value::Long(10);
    let encoded = i64::codec().encode(&value).unwrap();
    let decoded = i64::codec().decode(&encoded).unwrap();

    assert_eq!(value, decoded);
}

#[test]
fn list_codec() {
    let value = Value::List(vec![Value::Int(10), Value::Int(20), Value::Int(30)]);
    let codec = i32::codec().list_of();
    let encoded = codec.encode(&value).unwrap();
    let decoded = codec.decode(&encoded).unwrap();

    assert_eq!(value, decoded);
}

#[test]
fn vec_codec() {
    let value = Value::List(vec![Value::Long(10), Value::Long(20), Value::Long(30)]);
    let codec = i64::codec().list_of();
    let encoded = codec.encode(&value).unwrap();
    let decoded = codec.decode(&encoded).unwrap();

    assert_eq!(value, decoded);
}

#[test]
fn xmap_codec() {
    let value = Value::Int(15);
    let codec = i32::codec().xmap(Conv::MulBy(5), Conv::DivBy(5));
    let encoded = codec.encode(&value).unwrap();
    assert_eq!(encoded, Value::Int(3));
    let decoded = codec.decode(&encoded).unwrap();

    assert_eq!(value, decoded);
}

#[test]
fn pair_codec() {
    let value = obj(vec![("left", Value::Int(15)), ("right", s("Hello"))]);
    let codec = i32::codec().pair(String::codec());
    let encoded = codec.encode(&value).unwrap();
    let decoded = codec.decode(&encoded).unwrap();

    assert_eq!(value, decoded);
}

#[test]
fn bounded_codec() {
    let value = Value::Int(15);
    let codec = i32::codec().bounded(Bound::Included(1), Bound::Excluded(30));
    let encoded = codec.encode(&value).unwrap();
    let decoded = codec.decode(&encoded).unwrap();

    assert_eq!(value, decoded);

    assert!(codec.encode(&Value::Int(75)).is_err());
    assert!(codec.encode(&Value::Int(1)).is_ok());
    assert!(codec.encode(&Value::Int(30)).is_err());
}

#[test]
fn bounded_error_message() {
    let codec = i32::codec().bounded(Bound::Included(1), Bound::Excluded(30));
    let failure = codec.encode(&Value::Int(75)).unwrap_err();
    match failure.error {
        DataError::Custom { message } => assert_eq!(message, "value must be in bounds"),
        other => panic!("unexpected error: {:?}", other),
    }
}

#[test]
fn try_else_codec() {
    let codec = i32::codec().try_else(String::codec());
    assert_eq!(codec.decode(&Value::Int(4)).unwrap(), Value::Int(4));
    assert_eq!(codec.decode(&s("x")).unwrap(), s("x"));
    assert!(codec.decode(&Value::Bool(true)).is_err());
}

#[test]
fn or_else_codec() {
    let codec = i32::codec().or_else(Value::Int(7));
    assert_eq!(codec.decode(&Value::Int(4)).unwrap(), Value::Int(4));
    assert_eq!(codec.decode(&s("x")).unwrap(), Value::Int(7));
}

#[test]
fn constant_codec() {
    let codec = i32::codec().constant(Value::Int(1));
    assert_eq!(codec.decode(&Value::Int(1)).unwrap(), Value::Int(1));
    assert!(codec.decode(&Value::Int(2)).is_err());
    assert!(codec.encode(&Value::Int(2)).is_err());
}

#[test]
fn unit_codec() {
    let codec = Codecs::unit();
    let encoded = codec.encode(&Value::Unit).unwrap();
    assert_eq!(codec.decode(&encoded).unwrap(), Value::Unit);
    assert!(codec.decode(&Value::Int(3)).is_err());
}

#[test]
fn untyped_map_codec() {
    let value = obj(vec![
        ("x", Value::Int(10)),
        ("y", Value::Int(20)),
        ("z", Value::Int(30)),
    ]);
    let codec = Codecs::map_of(i32::codec());
    let encoded = codec.encode(&value).unwrap();
    let decoded = codec.decode(&encoded).unwrap();

    assert_eq!(value, decoded);
}

#[test]
fn recursive_codec() {
    let codec = Codecs::recursive(
        RecordCodecBuilder::new()
            .field(i32::codec(), "value")
            .optional_field(Codecs::rec(), "next")
            .build(),
    );

    let value = obj(vec![
        ("value", Value::Int(1)),
        (
            "next",
            obj(vec![
                ("value", Value::Int(2)),
                ("next", obj(vec![("value", Value::Int(3))])),
            ]),
        ),
    ]);

    let encoded = codec.encode(&value).unwrap();
    let decoded = codec.decode(&encoded).unwrap();

    assert_eq!(value, decoded);
}

#[test]
fn recursive_decode_failure_context() {
    let codec = Codecs::recursive(
        RecordCodecBuilder::new()
            .field(i32::codec(), "value")
            .optional_field(Codecs::rec(), "next")
            .build(),
    );

    let broken = obj(vec![
        ("value", Value::Int(1)),
        (
            "next",
            obj(vec![
                ("value", Value::Int(2)),
                ("next", obj(vec![("value", s("three"))])),
            ]),
        ),
    ]);

    let error = codec.decode_start(&broken).unwrap_err();
    match error.error() {
        DataError::UnexpectedType { expected } => assert_eq!(expected, "i32"),
        other => panic!("unexpected error: {:?}", other),
    }
    let points = error.span().points();
    assert_eq!(
        points,
        &vec![
            TracePoint::Root,
            TracePoint::Field { name: "next".to_string() },
            TracePoint::Field { name: "next".to_string() },
            TracePoint::Field { name: "value".to_string() },
            TracePoint::Codec { name: "i32".to_string() },
        ],
    );
}

#[test]
fn either_codec() {
    let codec = Codecs::either(i32::codec(), String::codec());

    let encoded = codec.encode(either::Either::Left(Value::Int(10))).unwrap();
    assert_eq!(encoded, Value::Int(10));
    match codec.decode(&encoded).unwrap() {
        either::Either::Left(v) => assert_eq!(v, Value::Int(10)),
        either::Either::Right(v) => panic!("decoded to the right case: {:?}", v),
    }

    let encoded = codec.encode(either::Either::Right(s("foobar"))).unwrap();
    assert_eq!(encoded, s("foobar"));
    match codec.decode(&encoded).unwrap() {
        either::Either::Right(v) => assert_eq!(v, s("foobar")),
        either::Either::Left(v) => panic!("decoded to the left case: {:?}", v),
    }

    assert!(codec.decode(&Value::Bool(true)).is_err());
    assert!(codec.encode(either::Either::Left(s("not a number"))).is_err());
}

#[test]
fn list_decode_failure_context() {
    let codec = i32::codec().list_of();
    let broken = Value::List(vec![Value::Int(1), s("two"), Value::Int(3)]);
    let error = codec.decode_start(&broken).unwrap_err();
    let points = error.span().points();
    assert_eq!(
        points,
        &vec![
            TracePoint::Root,
            TracePoint::Array { index: 1 },
            TracePoint::Codec { name: "i32".to_string() },
        ],
    );
}

#[test]
fn rec_marker_needs_recursive_scope() {
    let failure = Codecs::rec().decode(&Value::Int(1)).unwrap_err();
    match failure.error {
        DataError::Custom { message } => {
            assert_eq!(message, "recursion marker outside a recursive codec");
        },
        other => panic!("unexpected error: {:?}", other),
    }
}
