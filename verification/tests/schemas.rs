use kelp_db::error::Error;
use kelp_db::object::Object;
use kelp_db::schema::{FieldDef, FieldId, FieldType, ObjectType, Schema};
use kelp_db::shell::{parse_field_spec, ShellConfig};
use kelp_db::validation::Validator;
use kelp_db::value::Value;

#[test]
fn test_field_def_creation() {
    let field = FieldDef::new("name", FieldType::String).required().nullable();
    assert_eq!(field.name, "name");
    assert_eq!(field.field_type, FieldType::String);
    assert!(field.required);
    assert!(field.nullable);
}

#[test]
fn field_def_defaults_and_builders() {
    let field = FieldDef::new("owner", FieldType::Reference).references("User").with_default("User/root");
    assert!(!field.required);
    assert!(!field.nullable);
    assert_eq!(field.reference_type, Some("User".to_string()));
    assert_eq!(field.default, Some("User/root".to_string()));
    assert_eq!(FieldType::Reference.as_str(), "Reference");
    assert_eq!(FieldType::Float.as_str(), "Float");
}

#[test]
fn test_schema_creation() {
    let schema = Schema::new("Customer")
        .add_field(FieldDef::new("id", FieldType::String).required())
        .add_field(FieldDef::new("name", FieldType::String).required())
        .add_field(FieldDef::new("email", FieldType::String).nullable());

    assert!(schema.has_field("id"));
    assert!(schema.has_field("name"));
    assert!(schema.has_field("email"));
    assert!(!schema.has_field("nonexistent"));
}

#[test]
fn test_schema_validation() {
    let valid_schema = Schema::new("Customer")
        .add_field(FieldDef::new("id", FieldType::String).required())
        .add_field(FieldDef::new("order", FieldType::Reference).references("Order"));

    assert!(valid_schema.validate().is_ok());

    let invalid_schema = Schema::new("Customer").add_field(FieldDef::new("ref", FieldType::Reference));

    assert!(invalid_schema.validate().is_err());
}

#[test]
fn schema_validation_errors() {
    assert!(matches!(Schema::new("").validate(), Err(Error::SchemaError { .. })));
    let both = Schema::new("T").add_field(FieldDef::new("x", FieldType::String).required().nullable());
    assert!(matches!(both.validate(), Err(Error::SchemaError { .. })));
    let mut zero = Schema::new("T");
    zero.schema_version = 0;
    assert!(matches!(zero.validate(), Err(Error::SchemaError { .. })));
}

#[test]
fn schema_add_field_replaces_in_place() {
    let schema = Schema::new("T")
        .add_field(FieldDef::new("a", FieldType::String))
        .add_field(FieldDef::new("b", FieldType::Integer))
        .add_field(FieldDef::new("a", FieldType::Boolean));
    assert_eq!(schema.field_names(), vec!["a".to_string(), "b".to_string()]);
    assert_eq!(schema.get_field("a").unwrap().field_type, FieldType::Boolean);
    assert_eq!(schema.field_id("b"), Some(FieldId::new(2)));
}

#[test]
fn test_schema_field_ids_are_stable() {
    let schema = Schema::new("Order")
        .add_field(FieldDef::new("id", FieldType::String))
        .add_field(FieldDef::new("status", FieldType::String))
        .add_field(FieldDef::new("total", FieldType::Float));

    assert_eq!(schema.field_id("id"), Some(FieldId::new(1)));
    assert_eq!(schema.field_id("status"), Some(FieldId::new(2)));
    assert_eq!(schema.field_id("total"), Some(FieldId::new(3)));

    let layout = schema.layout();
    assert_eq!(layout.fields.len(), 3);
    assert_eq!(layout.fixed_size, 8);
    assert_eq!(layout.variable_fields.len(), 2);
}

#[test]
fn schema_layout_offsets() {
    let schema = Schema::new("R")
        .add_field(FieldDef::new("n", FieldType::Integer))
        .add_field(FieldDef::new("s", FieldType::String))
        .add_field(FieldDef::new("b", FieldType::Boolean));
    let layout = schema.layout();
    assert_eq!(layout.fixed_size, 9);
    assert_eq!(layout.fields[0].offset, 0);
    assert_eq!(layout.fields[0].width, Some(8));
    assert_eq!(layout.fields[2].offset, 8);
    assert_eq!(layout.fields[2].width, Some(1));
    assert!(layout.fields[1].is_variable);
    let by_id = layout.field_for_id(FieldId::new(3)).unwrap();
    assert_eq!(by_id.name, "b");
    assert!(layout.field_for_id(FieldId::new(4)).is_none());
    let (name, def) = schema.field_by_id(FieldId::new(2)).unwrap();
    assert_eq!(name, "s");
    assert_eq!(def.field_type, FieldType::String);
    // id 0 counts as the first field, as ids below 1 saturate
    assert_eq!(schema.field_by_id(FieldId::new(0)).unwrap().0, "n");
    assert!(schema.field_by_id(FieldId::new(4)).is_none());
    assert_eq!(FieldId::new(5).as_u16(), 5);
    assert_eq!(ObjectType::new("X").name, "X");
}

#[test]
fn test_validate_required_field() {
    let schema = Schema::new("Customer")
        .add_field(FieldDef::new("id", FieldType::String).required())
        .add_field(FieldDef::new("name", FieldType::String).required());

    let mut obj = Object::new("Customer", "c1");
    obj.set_field("id", Value::String("c1".to_string()));
    // missing name

    assert!(Validator::validate(&obj, &schema).is_err());

    obj.set_field("name", Value::String("Alice".to_string()));
    assert!(Validator::validate(&obj, &schema).is_ok());
}

#[test]
fn test_validate_nullable_field() {
    let schema = Schema::new("Customer")
        .add_field(FieldDef::new("id", FieldType::String).required())
        .add_field(FieldDef::new("email", FieldType::String).nullable());

    let mut obj = Object::new("Customer", "c1");
    obj.set_field("id", Value::String("c1".to_string()));
    obj.set_field("email", Value::Null);

    assert!(Validator::validate(&obj, &schema).is_ok());
}

#[test]
fn test_validate_type_mismatch() {
    let schema = Schema::new("Customer")
        .add_field(FieldDef::new("id", FieldType::String).required())
        .add_field(FieldDef::new("age", FieldType::Integer).required());

    let mut obj = Object::new("Customer", "c1");
    obj.set_field("id", Value::String("c1".to_string()));
    obj.set_field("age", Value::String("not_an_age".to_string()));

    let result = Validator::validate(&obj, &schema);
    assert!(result.is_err());
    assert!(result.unwrap_err().message().contains("Type mismatch"));
}

#[test]
fn test_validate_nullable_constraint() {
    let schema = Schema::new("Customer")
        .add_field(FieldDef::new("id", FieldType::String).required())
        .add_field(FieldDef::new("name", FieldType::String)); // not nullable

    let mut obj = Object::new("Customer", "c1");
    obj.set_field("id", Value::String("c1".to_string()));
    obj.set_field("name", Value::Null);

    assert!(Validator::validate(&obj, &schema).is_err());
}

#[test]
fn validation_error_kinds_and_order() {
    let schema = Schema::new("C")
        .add_field(FieldDef::new("a", FieldType::String).required())
        .add_field(FieldDef::new("b", FieldType::Float))
        .add_field(FieldDef::new("c", FieldType::Boolean));
    let mut obj = Object::new("C", "1");
    obj.set_field("a", Value::Null);
    obj.set_field("c", Value::Null);
    match Validator::validate(&obj, &schema) {
        Err(Error::RequiredFieldMissing { field }) => assert_eq!(field, "a"),
        other => panic!("unexpected: {:?}", other),
    }
    obj.set_field("a", Value::String("x".to_string()));
    match Validator::validate(&obj, &schema) {
        Err(Error::FieldNotNullable { field }) => assert_eq!(field, "c"),
        other => panic!("unexpected: {:?}", other),
    }
    obj.set_field("c", Value::Boolean(true));
    obj.set_field("b", Value::Integer(3));
    assert!(Validator::validate(&obj, &schema).is_ok());
    obj.set_field("b", Value::Boolean(false));
    match Validator::validate(&obj, &schema) {
        Err(Error::TypeMismatch { field, expected, actual }) => {
            assert_eq!(field, "b");
            assert_eq!(expected, "Float");
            assert_eq!(actual, "Boolean");
        }
        other => panic!("unexpected: {:?}", other),
    }
    obj.set_field("undeclared", Value::Integer(1));
    obj.set_field("b", Value::Float(1.0f64.to_bits()));
    assert!(Validator::validate(&obj, &schema).is_ok());
}

#[test]
fn value_matches_type_table() {
    assert!(Validator::value_matches_type(&Value::Integer(1), FieldType::Float));
    assert!(!Validator::value_matches_type(&Value::Float(0), FieldType::Integer));
    assert!(Validator::value_matches_type(&Value::Reference("A/b".to_string()), FieldType::Reference));
    assert!(!Validator::value_matches_type(&Value::String("A/b".to_string()), FieldType::Reference));
    assert!(!Validator::value_matches_type(&Value::Null, FieldType::String));
}

#[test]
fn error_messages() {
    assert_eq!(Error::TypeNotFound { typename: "User".to_string() }.message(), "Object type 'User' not found");
    assert_eq!(
        Error::ObjectNotFound { typename: "User".to_string(), object_id: "u1".to_string() }.message(),
        "Object 'u1' of type 'User' not found"
    );
    assert_eq!(
        Error::TypeMismatch {
            field: "age".to_string(),
            expected: "Integer".to_string(),
            actual: "String".to_string()
        }
        .message(),
        "Type mismatch for field 'age': expected Integer, got String"
    );
    assert_eq!(
        Error::InvalidReference { typename: "A".to_string(), object_id: "b".to_string() }.message(),
        "Reference to 'A/b' is invalid"
    );
    assert_eq!(
        Error::ValidationError { field: "f".to_string(), reason: "bad".to_string() }.message(),
        "Validation failed for field 'f': bad"
    );
    assert_eq!(Error::RequiredFieldMissing { field: "f".to_string() }.message(), "Field 'f' is required");
    assert_eq!(Error::FieldNotNullable { field: "f".to_string() }.message(), "Field 'f' does not allow null");
    assert_eq!(Error::StorageError { reason: "r".to_string() }.message(), "Storage error: r");
    assert_eq!(Error::Internal("boom".to_string()).message(), "Internal error: boom");
    assert_eq!(Error::IoError("disk".to_string()).message(), "IO error: disk");
}

#[test]
fn parse_field_spec_reads_type_and_options() {
    let f = parse_field_spec("name:string:required");
    assert_eq!(f.name, "name");
    assert_eq!(f.field_type, FieldType::String);
    assert!(f.required);
    assert!(!f.nullable);

    let g = parse_field_spec("age:int:nullable");
    assert_eq!(g.field_type, FieldType::Integer);
    assert!(g.nullable);

    let r = parse_field_spec("owner:reference:User:required");
    assert_eq!(r.field_type, FieldType::Reference);
    assert_eq!(r.reference_type, Some("User".to_string()));
    assert!(r.required);

    let s = parse_field_spec("x:string:User");
    assert_eq!(s.reference_type, None);

    let unknown = parse_field_spec("y:weird");
    assert_eq!(unknown.field_type, FieldType::String);
    assert_eq!(parse_field_spec("p:Boolean").field_type, FieldType::Boolean);
    assert_eq!(parse_field_spec("p:float").field_type, FieldType::Float);
}

#[test]
fn shell_config_default_is_all_off() {
    let c = ShellConfig::default();
    assert!(!c.debug && !c.show_timing && !c.track_storage);
}
