use std::collections::HashMap;

use fastapi_verified::schema::{JsonSchema, PrimitiveSchema, Schema, SchemaType};

fn primitive(s: &Schema) -> &PrimitiveSchema {
    match s {
        Schema::Primitive(p) => p,
        _ => panic!("expected a primitive schema"),
    }
}

#[test]
fn primitive_constructors() {
    let s = Schema::string();
    assert_eq!(primitive(&s).schema_type, SchemaType::String);
    assert!(primitive(&s).format.is_none());
    let i = Schema::integer(Some("int64"));
    assert_eq!(primitive(&i).schema_type, SchemaType::Integer);
    assert_eq!(primitive(&i).format.as_deref(), Some("int64"));
    let n = Schema::number(None);
    assert_eq!(primitive(&n).schema_type, SchemaType::Number);
    assert!(primitive(&n).format.is_none());
    let b = Schema::boolean();
    assert_eq!(primitive(&b).schema_type, SchemaType::Boolean);
    assert!(!primitive(&b).nullable);
}

#[test]
fn reference_points_into_components() {
    match Schema::reference("Item") {
        Schema::Ref(r) => assert_eq!(r.reference, "#/components/schemas/Item"),
        _ => panic!("expected a reference"),
    }
}

#[test]
fn array_has_no_bounds() {
    match Schema::array(Schema::string()) {
        Schema::Array(a) => {
            assert!(a.min_items.is_none());
            assert!(a.max_items.is_none());
            assert_eq!(primitive(&a.items).schema_type, SchemaType::String);
        }
        _ => panic!("expected an array"),
    }
}

#[test]
fn object_title_and_description() {
    let mut props = HashMap::new();
    props.insert("name".to_string(), Schema::string());
    let s = Schema::object(props, vec!["name".to_string()])
        .with_title("User")
        .with_description("A user");
    match s {
        Schema::Object(o) => {
            assert_eq!(o.title.as_deref(), Some("User"));
            assert_eq!(o.description.as_deref(), Some("A user"));
            assert_eq!(o.required, vec!["name".to_string()]);
            assert!(o.properties.contains_key("name"));
            assert!(o.additional_properties.is_none());
        }
        _ => panic!("expected an object"),
    }
}

#[test]
fn nullable_only_changes_primitives() {
    let s = Schema::integer(Some("int32")).nullable();
    assert!(primitive(&s).nullable);
    assert_eq!(primitive(&s).format.as_deref(), Some("int32"));
    match Schema::Boolean(true).nullable() {
        Schema::Boolean(b) => assert!(b),
        _ => panic!("expected the boolean schema back"),
    }
}

#[test]
fn title_on_non_object_is_ignored() {
    let s = Schema::string().with_title("ignored").with_description("ignored");
    assert_eq!(primitive(&s).schema_type, SchemaType::String);
}

#[test]
fn builtin_json_schemas() {
    assert_eq!(primitive(&String::schema()).schema_type, SchemaType::String);
    assert_eq!(primitive(&i64::schema()).format.as_deref(), Some("int64"));
    assert_eq!(primitive(&i32::schema()).format.as_deref(), Some("int32"));
    assert_eq!(primitive(&bool::schema()).schema_type, SchemaType::Boolean);
    assert!(String::schema_name().is_none());
}

#[test]
fn option_and_vec_schemas() {
    let o = <Option<i64>>::schema();
    assert!(primitive(&o).nullable);
    assert_eq!(primitive(&o).schema_type, SchemaType::Integer);
    match <Vec<bool>>::schema() {
        Schema::Array(a) => assert_eq!(primitive(&a.items).schema_type, SchemaType::Boolean),
        _ => panic!("expected an array"),
    }
}
