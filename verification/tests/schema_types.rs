use datafix::schema::{FieldRenameFixer, Schema, TypeReference};
use datafix::types::{ArrayType, ObjectType, Type};

#[test]
pub fn type_finds() {
    let mut schema = Schema::new_root();
    schema.insert_type_by_name("TestType", Type::Double);
    let mut schema = Schema::new(schema);
    schema.insert_type_by_name("TestType", Type::Str);

    assert_eq!(schema.find_type_by_name("TestType").unwrap(), Type::Str);
}

#[test]
fn test_field_rename_type() {
    let mut schema = Schema::new_root();
    schema.insert_type_by_name(
        "SomeObject",
        Type::Object(ObjectType::new().field("user_id", Type::Double)),
    );
    let schema = schema.fixer(&FieldRenameFixer {
        old_name: "user_id".to_string(),
        new_name: "user_number".to_string(),
        targetting: TypeReference { name: "SomeObject".to_string() },
    });
    assert_eq!(
        schema.find_type_by_name("SomeObject"),
        Some(Type::Object(ObjectType::new().field("user_number", Type::Double))),
    );
}

#[test]
fn find_walks_parents() {
    let mut root = Schema::new_root();
    root.insert_type(&TypeReference::new("Base"), Type::Long);
    let child = Schema::new(root);
    assert_eq!(child.find_type(&TypeReference::new("Base")), Some(Type::Long));
    assert_eq!(child.find_type(&TypeReference::new("Missing")), None);
}

#[test]
fn find_all_types_deduplicates() {
    let mut root = Schema::new_root();
    root.insert_type_by_name("A", Type::Int);
    root.insert_type_by_name("B", Type::Str);
    let mut child = Schema::new(root);
    child.insert_type_by_name("A", Type::Long);

    let names: Vec<String> =
        child.find_all_types().into_iter().map(|r| r.name).collect();
    assert_eq!(names, vec!["A".to_string(), "B".to_string()]);
}

#[test]
fn object_type_operations() {
    let mut ty = ObjectType::new();
    ty.insert("a", Type::Int);
    ty.insert("b", Type::Bool);
    assert_eq!(ty.get("a").unwrap(), Type::Int);
    assert!(ty.get("missing").is_err());
    assert_eq!(ty.remove("a").unwrap(), Type::Int);
    assert!(ty.get("a").is_err());
}

#[test]
fn array_type_holds_element_shape() {
    let arr = ArrayType::new(Type::Str);
    assert_eq!(*arr.ty(), Type::Str);
    assert_eq!(Type::Array(ArrayType::new(Type::Str)), Type::Array(ArrayType::new(Type::Str)));
}

#[test]
fn type_same_as_is_structural() {
    let a = Type::Object(ObjectType::new().field("x", Type::Int));
    let b = Type::Object(ObjectType::new().field("x", Type::Int));
    let c = Type::Object(ObjectType::new().field("x", Type::Long));
    assert!(a.same_as(&b));
    assert!(!a.same_as(&c));
    assert!(!a.same_as(&Type::Int));
}
