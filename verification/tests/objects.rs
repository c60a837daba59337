use kelp_db::error::Error;
use kelp_db::model::{FieldProjection, Model, ModelProjector};
use kelp_db::object::{Object, ObjectId};
use kelp_db::reference::{Reference, ReferenceTracker};
use kelp_db::transaction::Transaction;
use kelp_db::value::Value;

#[test]
fn test_object_id_creation() {
    let id = ObjectId::new("Customer", "c1");
    assert_eq!(id.typename, "Customer");
    assert_eq!(id.object_id, "c1");
    assert_eq!(id.to_text(), "Customer/c1");
}

#[test]
fn test_object_id_parse() {
    let id = ObjectId::parse("Customer/c1").unwrap();
    assert_eq!(id.typename, "Customer");
    assert_eq!(id.object_id, "c1");
}

#[test]
fn test_object_id_parse_invalid() {
    assert!(ObjectId::parse("InvalidFormat").is_err());
    assert!(ObjectId::parse("A/B/C").is_err());
}

#[test]
fn object_id_parse_error_is_internal_with_message() {
    match ObjectId::parse("InvalidFormat") {
        Err(Error::Internal(msg)) => {
            assert_eq!(msg, "Invalid object ID format: InvalidFormat. Expected 'Type/id'")
        }
        other => panic!("unexpected result: {:?}", other),
    }
}

#[test]
fn object_id_text_parses_back() {
    let id = ObjectId::new("Order", "o-17");
    let back = ObjectId::parse(&id.to_text()).unwrap();
    assert_eq!(back, id);
}

#[test]
fn object_id_parse_keeps_empty_parts() {
    let id = ObjectId::parse("/x").unwrap();
    assert_eq!(id.typename, "");
    assert_eq!(id.object_id, "x");
}

#[test]
fn test_object_creation() {
    let mut obj = Object::new("Customer", "c1");
    obj.set_field("name", Value::String("Alice".to_string()));

    assert_eq!(obj.id.typename, "Customer");
    assert_eq!(obj.id.object_id, "c1");
    assert_eq!(obj.get_field("name"), Some(&Value::String("Alice".to_string())));
}

#[test]
fn test_object_field_operations() {
    let mut obj = Object::new("Customer", "c1");
    obj.set_field("name", Value::String("Alice".to_string()));
    obj.set_field("age", Value::Integer(30));

    assert!(obj.has_field("name"));
    assert!(obj.has_field("age"));
    assert!(!obj.has_field("nonexistent"));

    let removed = obj.remove_field("age");
    assert!(removed.is_some());
    assert!(!obj.has_field("age"));
}

#[test]
fn object_set_field_replaces_value() {
    let mut obj = Object::new("Customer", "c1");
    obj.set_field("age", Value::Integer(30));
    obj.set_field("age", Value::Integer(31));
    assert_eq!(obj.get_field("age"), Some(&Value::Integer(31)));
    assert_eq!(obj.fields.len(), 1);
}

#[test]
fn object_remove_field_gives_value_back() {
    let mut obj = Object::new("Customer", "c1");
    obj.set_field("age", Value::Integer(30));
    assert_eq!(obj.remove_field("age"), Some(Value::Integer(30)));
    assert_eq!(obj.remove_field("age"), None);
}

#[test]
fn object_get_field_mut_changes_value() {
    let mut obj = Object::new("Customer", "c1");
    obj.set_field("age", Value::Integer(30));
    if let Some(v) = obj.get_field_mut("age") {
        *v = Value::Integer(40);
    }
    assert_eq!(obj.get_field("age"), Some(&Value::Integer(40)));
    assert!(obj.get_field_mut("missing").is_none());
}

#[test]
fn object_with_id_has_no_fields() {
    let obj = Object::with_id(ObjectId::new("T", "1"));
    assert_eq!(obj.id, ObjectId::new("T", "1"));
    assert!(obj.fields.is_empty());
}

#[test]
fn value_accessors() {
    assert_eq!(Value::String("a".to_string()).typename(), "String");
    assert_eq!(Value::Integer(3).typename(), "Integer");
    assert_eq!(Value::Float(1.5f64.to_bits()).typename(), "Float");
    assert_eq!(Value::Boolean(true).typename(), "Boolean");
    assert_eq!(Value::Null.typename(), "Null");
    assert_eq!(Value::Reference("A/b".to_string()).typename(), "Reference");
    assert!(Value::Null.is_null());
    assert!(!Value::Integer(0).is_null());
    assert_eq!(Value::String("x".to_string()).as_string(), Some("x"));
    assert_eq!(Value::Integer(7).as_integer(), Some(7));
    assert_eq!(Value::Integer(7).as_string(), None);
    assert_eq!(Value::Float(2.5f64.to_bits()).as_float(), Some(2.5f64.to_bits()));
    assert_eq!(Value::Boolean(false).as_bool(), Some(false));
    assert_eq!(Value::Reference("A/b".to_string()).as_reference(), Some("A/b"));
    assert_eq!(Value::String("A/b".to_string()).as_reference(), None);
}

#[test]
fn test_reference_creation() {
    let r = Reference::new("Customer", "c1");
    assert_eq!(r.target.typename, "Customer");
    assert_eq!(r.target.object_id, "c1");
}

#[test]
fn test_reference_parse() {
    let r = Reference::parse("Order/o1").unwrap();
    assert_eq!(r.target.typename, "Order");
    assert_eq!(r.target.object_id, "o1");
}

#[test]
fn reference_parse_rejects_bad_text() {
    assert!(matches!(Reference::parse("Order"), Err(Error::Internal(_))));
    assert_eq!(Reference::parse("A/b").unwrap().target_id(), &ObjectId::new("A", "b"));
}

#[test]
fn test_circular_reference_detection() {
    let mut tracker = ReferenceTracker::new(5);

    assert!(tracker.visit("obj1").is_ok());
    assert!(tracker.visit("obj2").is_ok());
    // Revisiting should fail
    assert!(tracker.visit("obj1").is_err());
}

#[test]
fn test_max_depth_limit() {
    let mut tracker = ReferenceTracker::new(2);

    assert!(tracker.visit("obj1").is_ok());
    assert!(tracker.visit("obj2").is_ok());
    // Third visit should fail due to max depth
    assert!(tracker.visit("obj3").is_err());
}

#[test]
fn tracker_errors_and_depth() {
    let mut tracker = ReferenceTracker::new(3);
    tracker.visit("a").unwrap();
    match tracker.visit("a") {
        Err(Error::CircularReference { path }) => {
            assert_eq!(path, "Circular reference detected at: a")
        }
        other => panic!("unexpected: {:?}", other),
    }
    assert_eq!(tracker.depth(), 1);
    let child = tracker.child();
    assert_eq!(child.depth(), 2);
    tracker.pop_visit();
    assert_eq!(tracker.depth(), 0);
    tracker.pop_visit();
    assert_eq!(tracker.depth(), 0);
    let mut full = ReferenceTracker::new(0);
    match full.visit("x") {
        Err(Error::CircularReference { path }) => {
            assert_eq!(path, "Maximum reference depth exceeded")
        }
        other => panic!("unexpected: {:?}", other),
    }
}

#[test]
fn test_transaction_lifecycle() {
    let mut tx = Transaction::new();
    assert!(!tx.is_active());

    assert!(tx.begin().is_ok());
    assert!(tx.is_active());

    assert!(tx.commit().is_ok());
    assert!(!tx.is_active());
}

#[test]
fn test_nested_transaction_error() {
    let mut tx = Transaction::new();
    assert!(tx.begin().is_ok());
    assert!(tx.begin().is_err()); // Cannot nest
}

#[test]
fn transaction_commit_and_rollback_need_a_transaction() {
    let mut tx = Transaction::default();
    assert!(matches!(tx.commit(), Err(Error::TransactionError { .. })));
    assert!(matches!(tx.rollback(), Err(Error::TransactionError { .. })));
    tx.begin().unwrap();
    assert!(tx.rollback().is_ok());
    assert!(!tx.is_active());
}

#[test]
fn test_model_creation() {
    let model = Model::new("OrderCard", "Order")
        .add_field("id", "id")
        .add_field("total", "total")
        .add_field("status", "status");

    assert_eq!(model.name, "OrderCard");
    assert_eq!(model.base_type, "Order");
    assert_eq!(model.fields.len(), 3);
}

#[test]
fn test_model_validation() {
    let valid_model = Model::new("OrderCard", "Order").add_field("id", "id");
    assert!(valid_model.validate().is_ok());

    let invalid_model = Model::new("", "Order");
    assert!(invalid_model.validate().is_err());
}

#[test]
fn model_validation_errors() {
    assert!(matches!(
        Model::new("M", "").add_field("a", "a").validate(),
        Err(Error::ModelError { .. })
    ));
    assert!(matches!(Model::new("M", "T").validate(), Err(Error::ModelError { .. })));
}

#[test]
fn model_nested_field_is_recorded() {
    let model = Model::new("Card", "Order").add_nested_field("customer_name", "customer", "name");
    assert_eq!(model.fields.len(), 1);
    assert_eq!(model.fields[0].0, "customer_name");
    match &model.fields[0].1 {
        FieldProjection::Nested { reference_field, nested_field } => {
            assert_eq!(reference_field, "customer");
            assert_eq!(nested_field, "name");
        }
        FieldProjection::Direct { .. } => panic!("expected a nested projection"),
    }
}

#[test]
fn test_direct_projection() {
    let mut obj = Object::new("Order", "o1");
    obj.set_field("id", Value::String("o1".to_string()));
    obj.set_field("total", Value::Float(500.0f64.to_bits()));

    let model = Model::new("OrderCard", "Order").add_field("id", "id").add_field("total", "total");

    let projected = ModelProjector::project(&obj, &model, |_| Ok(None)).unwrap();
    assert_eq!(projected[0], ("id".to_string(), Value::String("o1".to_string())));
    assert_eq!(projected[1], ("total".to_string(), Value::Float(500.0f64.to_bits())));
}

#[test]
fn nested_projection_follows_reference() {
    let mut order = Object::new("Order", "o1");
    order.set_field("customer", Value::Reference("Customer/c1".to_string()));
    let model = Model::new("Card", "Order")
        .add_nested_field("customer_name", "customer", "name")
        .add_field("missing", "nope");
    let projected = ModelProjector::project(&order, &model, |r| {
        assert_eq!(r, "Customer/c1");
        let mut c = Object::new("Customer", "c1");
        c.set_field("name", Value::String("Alice".to_string()));
        Ok(Some(c))
    })
    .unwrap();
    assert_eq!(projected[0], ("customer_name".to_string(), Value::String("Alice".to_string())));
    assert_eq!(projected[1], ("missing".to_string(), Value::Null));
}

#[test]
fn nested_projection_unresolved_is_null() {
    let mut order = Object::new("Order", "o1");
    order.set_field("customer", Value::Reference("Customer/c9".to_string()));
    let model = Model::new("Card", "Order").add_nested_field("n", "customer", "name");
    let projected = ModelProjector::project(&order, &model, |_| Ok(None)).unwrap();
    assert_eq!(projected[0].1, Value::Null);
}
