use datafix::codec::{Codecs, DefaultCodec, RecordCodecBuilder};
use datafix::result::DataError;
use datafix::value::Value;

fn obj(pairs: Vec<(&str, Value)>) -> Value {
    Value::Object(pairs.into_iter().map(|(k, v)| (k.to_string(), v)).collect())
}

#[test]
fn simple_record() {
    let codec = RecordCodecBuilder::new()
        .field(i64::codec(), "x")
        .field(i64::codec(), "y")
        .field(i64::codec(), "z")
        .field(i64::codec(), "w")
        .build();

    let value = obj(vec![
        ("x", Value::Long(10)),
        ("y", Value::Long(15)),
        ("z", Value::Long(20)),
        ("w", Value::Long(30)),
    ]);

    let encoded = codec.encode(&value).unwrap();
    let decoded = codec.decode(&encoded).unwrap();

    assert_eq!(decoded, value);
}

#[test]
fn nested_structs() {
    let nested = RecordCodecBuilder::new().field(i64::codec(), "value").build();
    let codec = RecordCodecBuilder::new().field(nested, "nested").build();

    let value = obj(vec![("nested", obj(vec![("value", Value::Long(10))]))]);

    let encoded = codec.encode(&value).unwrap();
    let decoded = codec.decode(&encoded).unwrap();

    assert_eq!(value, decoded);
}

#[test]
fn very_big_record() {
    let codec = RecordCodecBuilder::new()
        .field(i64::codec(), "a")
        .field(i64::codec(), "b")
        .field(i64::codec(), "c")
        .field(i64::codec(), "d")
        .field(i64::codec(), "e")
        .field(i64::codec(), "f")
        .field(i64::codec(), "g")
        .build();

    let value = obj(vec![
        ("a", Value::Long(0)),
        ("b", Value::Long(5)),
        ("c", Value::Long(56)),
        ("d", Value::Long(-56)),
        ("e", Value::Long(0)),
        ("f", Value::Long(0)),
        ("g", Value::Long(13)),
    ]);

    let encoded = codec.encode(&value).unwrap();
    let decoded = codec.decode(&encoded).unwrap();

    assert_eq!(value, decoded);
}

#[test]
fn optional_codec() {
    let codec = RecordCodecBuilder::new()
        .optional_field(i64::codec(), "value")
        .build();

    let value = obj(vec![]);
    let encoded = codec.encode(&value).unwrap();
    let decoded = codec.decode(&encoded).unwrap();
    assert_eq!(value, decoded);
}

#[test]
fn optional_field_symmetry() {
    let codec = RecordCodecBuilder::new()
        .field(i64::codec(), "kept")
        .optional_field(i64::codec(), "maybe")
        .build();

    let absent = obj(vec![("kept", Value::Long(1))]);
    let encoded = codec.encode(&absent).unwrap();
    assert_eq!(encoded, obj(vec![("kept", Value::Long(1))]));
    assert_eq!(codec.decode(&encoded).unwrap(), absent);

    let present = obj(vec![("kept", Value::Long(1)), ("maybe", Value::Long(2))]);
    let encoded = codec.encode(&present).unwrap();
    assert_eq!(encoded, present);
    assert_eq!(codec.decode(&encoded).unwrap(), present);
}

#[test]
fn default_codec() {
    let codec = RecordCodecBuilder::new()
        .default_field(i32::codec(), "value", Value::Int(12))
        .build();

    let decoded = codec.decode(&obj(vec![])).unwrap();
    assert_eq!(decoded, obj(vec![("value", Value::Int(12))]));

    let value = obj(vec![("value", Value::Int(12))]);
    let encoded = codec.encode(&value).unwrap();
    assert_eq!(codec.decode(&encoded).unwrap(), value);
}

#[test]
fn record_round_trip_settings() {
    let codec = RecordCodecBuilder::new()
        .field(i32::codec(), "volume")
        .field(i32::codec(), "gamma")
        .field(i8::codec(), "render_distance")
        .build();

    let value = obj(vec![
        ("volume", Value::Int(100)),
        ("gamma", Value::Int(50)),
        ("render_distance", Value::Byte(12)),
    ]);

    let encoded = codec.encode(&value).unwrap();
    assert_eq!(encoded, value);
    let decoded = codec.decode(&encoded).unwrap();
    assert_eq!(decoded, value);
}

#[test]
fn unknown_key_rejection() {
    let codec = RecordCodecBuilder::new()
        .field(i32::codec(), "volume")
        .field(i32::codec(), "gamma")
        .field(i8::codec(), "render_distance")
        .build();

    let extra = obj(vec![
        ("volume", Value::Int(100)),
        ("gamma", Value::Int(50)),
        ("render_distance", Value::Byte(12)),
        ("extra", Value::Int(0)),
    ]);

    let failure = codec.decode(&extra).unwrap_err();
    match failure.error {
        DataError::Custom { message } => {
            assert_eq!(message, "unsupported key \"extra\" in object");
        },
        other => panic!("unexpected error: {:?}", other),
    }
}

#[test]
fn missing_required_key() {
    let codec = RecordCodecBuilder::new().field(i32::codec(), "volume").build();
    let failure = codec.decode(&obj(vec![])).unwrap_err();
    match failure.error {
        DataError::KeyNotFoundInMap { key } => assert_eq!(key, "volume"),
        other => panic!("unexpected error: {:?}", other),
    }
}

#[test]
fn record_rejects_non_map() {
    let codec = RecordCodecBuilder::new().field(i32::codec(), "volume").build();
    let failure = codec.decode(&Value::Int(3)).unwrap_err();
    match failure.error {
        DataError::UnexpectedType { expected } => assert_eq!(expected, "object"),
        other => panic!("unexpected error: {:?}", other),
    }
}

#[test]
fn field_of_descriptors_build_records() {
    let fields = vec![
        i32::codec().field_of("a"),
        i32::codec().optional_field_of("b"),
        i32::codec().default_field_of("c", Value::Int(9)),
    ];
    let codec = Codecs::record(fields);

    let value = obj(vec![("a", Value::Int(1))]);
    let decoded = codec.decode(&value).unwrap();
    assert_eq!(decoded, obj(vec![("a", Value::Int(1)), ("c", Value::Int(9))]));
}
