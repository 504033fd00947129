use datafix::context::{Context, TracePoint};
use datafix::dynamic::Dynamic;
use datafix::ops::DynamicOps;
use datafix::result::{CodecError, DataError};
use datafix::value::Value;

fn obj(pairs: Vec<(&str, Value)>) -> Value {
    Value::Object(pairs.into_iter().map(|(k, v)| (k.to_string(), v)).collect())
}

#[test]
fn value_duplicate_is_deep() {
    let v = obj(vec![
        ("list", Value::List(vec![Value::Int(1), Value::Str("two".to_string())])),
        ("flag", Value::Bool(false)),
    ]);
    let copy = v.duplicate();
    assert_eq!(copy, v);
    assert!(copy.same_as(&v));
}

#[test]
fn value_same_as_spots_differences() {
    let a = obj(vec![("x", Value::Int(1))]);
    let b = obj(vec![("x", Value::Int(2))]);
    let c = obj(vec![("y", Value::Int(1))]);
    assert!(!a.same_as(&b));
    assert!(!a.same_as(&c));
    assert!(!a.same_as(&Value::Unit));
}

#[test]
fn dynamic_ops_constructors_and_accessors() {
    let ops = DynamicOps;
    assert_eq!(ops.get_byte(&ops.create_byte(5)).unwrap(), 5);
    assert_eq!(ops.get_short(&ops.create_short(300)).unwrap(), 300);
    assert_eq!(ops.get_int(&ops.create_int(70000)).unwrap(), 70000);
    assert_eq!(ops.get_long(&ops.create_long(1 << 40)).unwrap(), 1 << 40);
    assert_eq!(ops.get_string(&ops.create_string("hi")).unwrap(), "hi");
    assert!(ops.get_boolean(&ops.create_boolean(true)).unwrap());
    assert!(ops.get_unit(&ops.create_unit()).is_ok());

    let list = ops.create_list(vec![Value::Int(1), Value::Int(2)]);
    assert_eq!(ops.get_list(&list).unwrap().len(), 2);

    let map = ops.create_map(vec![("k".to_string(), Value::Int(3))]);
    assert_eq!(ops.get_map(&map).unwrap().len(), 1);

    match ops.get_int(&Value::Bool(true)) {
        Err(DataError::UnexpectedType { expected }) => assert_eq!(expected, "int"),
        other => panic!("unexpected result: {:?}", other),
    }
}

#[test]
fn error_constructors_carry_their_payloads() {
    match DataError::new_custom("boom") {
        DataError::Custom { message } => assert_eq!(message, "boom"),
        other => panic!("unexpected error: {:?}", other),
    }
    match DataError::unexpected_type("string") {
        DataError::UnexpectedType { expected } => assert_eq!(expected, "string"),
        other => panic!("unexpected error: {:?}", other),
    }
    match DataError::key_not_found("k") {
        DataError::KeyNotFoundInMap { key } => assert_eq!(key, "k"),
        other => panic!("unexpected error: {:?}", other),
    }
    match DataError::list_index_out_of_bounds(5, 3) {
        DataError::ListIndexOutOfBounds { list_length, index } => {
            assert_eq!(index, 5);
            assert_eq!(list_length, 3);
        },
        other => panic!("unexpected error: {:?}", other),
    }
}

#[test]
fn context_stack_discipline() {
    let mut ctx = Context::new();
    ctx.push_field("users");
    ctx.push_array(3);
    ctx.push_codec("i32");
    assert_eq!(
        ctx.points(),
        &vec![
            TracePoint::Root,
            TracePoint::Field { name: "users".to_string() },
            TracePoint::Array { index: 3 },
            TracePoint::Codec { name: "i32".to_string() },
        ],
    );
    assert_eq!(ctx.pop(), Some(TracePoint::Codec { name: "i32".to_string() }));
    assert_eq!(ctx.pop(), Some(TracePoint::Array { index: 3 }));
}

#[test]
fn context_save_and_restore() {
    let mut ctx = Context::new();
    ctx.push_field("a");
    ctx.save();
    ctx.push_field("b");
    ctx.load_save();
    assert_eq!(
        ctx.points(),
        &vec![TracePoint::Root, TracePoint::Field { name: "a".to_string() }],
    );

    ctx.save();
    let saved = ctx.pop_save().unwrap();
    assert_eq!(saved.points(), ctx.points());
    assert!(ctx.pop_save().is_none());
}

#[test]
fn codec_error_accessors() {
    let mut ctx = Context::new();
    ctx.push_field("x");
    let err = CodecError::new(DataError::new_custom("boom"), ctx);
    match err.error() {
        DataError::Custom { message } => assert_eq!(message, "boom"),
        other => panic!("unexpected error: {:?}", other),
    }
    assert_eq!(err.span().points().len(), 2);
}

#[test]
fn dynamic_handle_reads_and_writes() {
    let mut d = Dynamic::new(obj(vec![("x", Value::Int(10))]), DynamicOps);
    assert_eq!(d.get_field("x").unwrap().as_int().unwrap(), 10);
    assert!(d.get_field("missing").is_err());
    d.insert_field("y", Value::Int(20)).unwrap();
    assert_eq!(
        d.into_inner(),
        obj(vec![("x", Value::Int(10)), ("y", Value::Int(20))]),
    );

    let n = Dynamic::new(Value::Unit, DynamicOps).create_long(9);
    assert_eq!(n.as_long().unwrap(), 9);
    assert!(n.as_string().is_err());
}
