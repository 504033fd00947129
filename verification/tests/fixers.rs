use datafix::ops::DynamicOps;
use datafix::tyval::TyVal;
use datafix::rules::{FieldInit, Fixers, Rules};
use datafix::types::{ObjectType, Type};
use datafix::value::Value;

fn obj(pairs: Vec<(&str, Value)>) -> Value {
    Value::Object(pairs.into_iter().map(|(k, v)| (k.to_string(), v)).collect())
}

#[test]
pub fn default_field() {
    let object = obj(vec![("x", Value::Int(10))]);

    let rule = Rules::new_field("y", FieldInit::Constant(Value::Int(20)), Type::Int);

    let fixed = DynamicOps.repair(object, &rule);
    assert_eq!(fixed, obj(vec![("x", Value::Int(10)), ("y", Value::Int(20))]));
}

#[test]
pub fn copy_field_with_context() {
    let object = obj(vec![("x", Value::Int(10))]);

    let rule = Rules::new_field(
        "y",
        FieldInit::FieldOr { name: "x".to_string(), fallback: Value::Int(0) },
        Type::Int,
    );

    let fixed = DynamicOps.repair(object, &rule);
    assert_eq!(fixed, obj(vec![("x", Value::Int(10)), ("y", Value::Int(10))]));
}

#[test]
pub fn and_then_rule() {
    let object = obj(vec![("x", Value::Int(10))]);

    let rule = Rules::new_field("y", FieldInit::Constant(Value::Int(20)), Type::Int).and_then(
        Rules::new_field("z", FieldInit::Constant(Value::Int(30)), Type::Int),
    );

    let fixed = DynamicOps.repair(object, &rule);
    assert_eq!(
        fixed,
        obj(vec![
            ("x", Value::Int(10)),
            ("y", Value::Int(20)),
            ("z", Value::Int(30)),
        ]),
    );
}

#[test]
pub fn field_removal_rule() {
    let object = obj(vec![("x", Value::Int(10))]);

    let rule = Rules::remove_field("x");

    let fixed = DynamicOps.repair(object, &rule);
    assert_eq!(fixed, obj(vec![]));
}

#[test]
pub fn nested_field_application() {
    let nested = obj(vec![("a", Value::Int(10))]);
    let object = obj(vec![("i", nested)]);

    let rule = Rules::apply_to_field(
        "i",
        Rules::new_field("b", FieldInit::Constant(Value::Int(20)), Type::Int),
    );

    let fixed = DynamicOps.repair(object, &rule);
    assert_eq!(
        fixed,
        obj(vec![("i", obj(vec![("a", Value::Int(10)), ("b", Value::Int(20))]))]),
    );
}

#[test]
fn add_field_type_channel() {
    let rule = Rules::new_field("y", FieldInit::Constant(Value::Int(20)), Type::Int);

    let ty = Type::Object(ObjectType::new().field("x", Type::Int));
    let fixed = rule.fix_type(ty);
    assert_eq!(
        fixed,
        Type::Object(ObjectType::new().field("x", Type::Int).field("y", Type::Int)),
    );
}

#[test]
fn rules_pass_non_maps_through() {
    let rule = Rules::new_field("y", FieldInit::Constant(Value::Int(20)), Type::Int);
    assert_eq!(rule.fix_data(Value::Int(5)), Value::Int(5));
    assert_eq!(rule.fix_type(Type::Str), Type::Str);

    let rule = Rules::remove_field("y");
    assert_eq!(rule.fix_data(Value::Bool(true)), Value::Bool(true));
}

#[test]
fn and_then_is_associative() {
    let r1 = Rules::new_field("a", FieldInit::Constant(Value::Int(1)), Type::Int);
    let r2 = Rules::remove_field("x");
    let r3 = Rules::new_field("b", FieldInit::Constant(Value::Int(2)), Type::Int);

    let left = Rules::new_field("a", FieldInit::Constant(Value::Int(1)), Type::Int)
        .and_then(Rules::remove_field("x"))
        .and_then(Rules::new_field("b", FieldInit::Constant(Value::Int(2)), Type::Int));
    let right = r1.and_then(r2.and_then(r3));

    let input = obj(vec![("x", Value::Int(10)), ("y", Value::Int(11))]);
    let other = obj(vec![("x", Value::Int(10)), ("y", Value::Int(11))]);
    assert_eq!(left.fix_data(input), right.fix_data(other));
}

#[test]
fn field_rename_fix() {
    let fixer = Fixers::field_rename("old_id", "new_id");
    let fixed = fixer.fix(obj(vec![("old_id", Value::Int(3)), ("other", Value::Int(4))]));
    assert_eq!(fixed, obj(vec![("other", Value::Int(4)), ("new_id", Value::Int(3))]));

    let untouched = fixer.fix(obj(vec![("other", Value::Int(4))]));
    assert_eq!(untouched, obj(vec![("other", Value::Int(4))]));
}

#[test]
fn rule_duality_example() {
    let rule = Rules::new_field("y", FieldInit::Constant(Value::Int(20)), Type::Int);

    let data = obj(vec![("x", Value::Int(10))]);
    let fixed_data = rule.fix_data(data);
    assert_eq!(fixed_data, obj(vec![("x", Value::Int(10)), ("y", Value::Int(20))]));

    let ty = Type::Object(ObjectType::new().field("x", Type::Int));
    let fixed_ty = rule.fix_type(ty);
    assert_eq!(
        fixed_ty,
        Type::Object(ObjectType::new().field("x", Type::Int).field("y", Type::Int)),
    );
}

#[test]
fn tyval_take_and_with() {
    let tv = TyVal::Value(obj(vec![("a", Value::Int(1))]), DynamicOps);
    let taken = tv.take("a").unwrap();
    assert_eq!(taken.value().unwrap(), Value::Int(1));

    let tv = TyVal::Value(obj(vec![("a", Value::Int(1))]), DynamicOps);
    let widened = tv.with("b", TyVal::Value(Value::Int(2), DynamicOps));
    assert_eq!(
        widened.value().unwrap(),
        obj(vec![("a", Value::Int(1)), ("b", Value::Int(2))]),
    );

    let tv = TyVal::Type(Type::Object(ObjectType::new().field("a", Type::Int)));
    let widened = tv.with("b", TyVal::Type(Type::Bool));
    assert_eq!(
        widened.ty().unwrap(),
        Type::Object(ObjectType::new().field("a", Type::Int).field("b", Type::Bool)),
    );
    assert!(TyVal::Type(Type::Int).take("a").is_err());
}
