use kelp_db::database::{check_base_type, follow_reference, replaces_name, with_field_set, Database};
use kelp_db::error::Error;
use kelp_db::model::Model;
use kelp_db::object::Object;
use kelp_db::reference::{Reference, ReferenceTracker};
use kelp_db::schema::{FieldDef, FieldType, Schema};
use kelp_db::server::update_unless_created;
use kelp_db::shell::{create_assignments, update_assignments};
use kelp_db::value::Value;

#[test]
fn following_a_missing_target_is_an_invalid_reference() {
    let reference = Reference::new("Customer", "c9");
    let mut tracker = ReferenceTracker::new(10);
    match follow_reference(&reference, None, &mut tracker) {
        Err(Error::InvalidReference { typename, object_id }) => {
            assert_eq!(typename, "Customer");
            assert_eq!(object_id, "c9");
        }
        other => panic!("unexpected: {:?}", other),
    }
    assert_eq!(tracker.depth(), 0);
}

#[test]
fn following_back_to_a_visited_object_is_circular() {
    let reference = Reference::new("Node", "a");
    let mut tracker = ReferenceTracker::new(10);
    tracker.visit("Node/a").unwrap();
    let target = Object::new("Node", "a");
    assert!(matches!(
        follow_reference(&reference, Some(target), &mut tracker),
        Err(Error::CircularReference { .. })
    ));
    assert_eq!(tracker.depth(), 1);
}

#[test]
fn following_past_the_depth_limit_is_circular() {
    let reference = Reference::new("Node", "b");
    let mut tracker = ReferenceTracker::new(1);
    tracker.visit("Node/a").unwrap();
    let target = Object::new("Node", "b");
    assert!(matches!(
        follow_reference(&reference, Some(target), &mut tracker),
        Err(Error::CircularReference { .. })
    ));
}

#[test]
fn following_to_a_new_object_goes_on_there() {
    let reference = Reference::new("Customer", "c1");
    let mut tracker = ReferenceTracker::new(10);
    tracker.visit("Order/o1").unwrap();
    let mut target = Object::new("Customer", "c1");
    target.set_field("name", Value::String("Alice".to_string()));
    let reached = follow_reference(&reference, Some(target), &mut tracker).unwrap();
    assert_eq!(reached.id.to_text(), "Customer/c1");
    assert_eq!(tracker.depth(), 2);
}

#[test]
fn setting_a_field_needs_the_object() {
    match with_field_set("Customer", "c1", "name", Value::Integer(1), None) {
        Err(Error::ObjectNotFound { typename, object_id }) => {
            assert_eq!(typename, "Customer");
            assert_eq!(object_id, "c1");
        }
        other => panic!("unexpected: {:?}", other),
    }
    let mut obj = Object::new("Customer", "c1");
    obj.set_field("name", Value::String("Alice".to_string()));
    let updated = with_field_set("Customer", "c1", "name", Value::String("Bob".to_string()), Some(obj)).unwrap();
    assert_eq!(updated.get_field("name"), Some(&Value::String("Bob".to_string())));
    assert_eq!(updated.id.to_text(), "Customer/c1");
}

#[test]
fn a_model_needs_its_base_type() {
    let model = Model::new("Card", "Customer").add_field("n", "name");
    assert!(check_base_type(&model, Ok(Some(Schema::new("Customer")))).is_ok());
    match check_base_type(&model, Ok(None)) {
        Err(Error::TypeNotFound { typename }) => assert_eq!(typename, "Customer"),
        other => panic!("unexpected: {:?}", other),
    }
    assert!(matches!(
        check_base_type(&model, Err(Error::Internal("down".to_string()))),
        Err(Error::Internal(_))
    ));
}

#[test]
fn opening_replaces_only_the_placeholder_name() {
    assert!(replaces_name(&Ok("kelp-db".to_string()), "shop", &Ok("kelp-db".to_string())));
    assert!(!replaces_name(&Ok("shop".to_string()), "shop", &Ok("shop".to_string())));
    assert!(replaces_name(&Err(Error::Internal("none".to_string())), "kelp-db", &Err(Error::Internal("none".to_string()))));
    assert!(!replaces_name(&Err(Error::Internal("none".to_string())), "shop", &Err(Error::Internal("none".to_string()))));
}

#[test]
fn a_created_object_is_not_updated() {
    let mut db = Database::memory().unwrap();
    db.create_type(&Schema::new("Customer").add_field(FieldDef::new("name", FieldType::String)))
        .unwrap();
    let mut obj = Object::new("Customer", "c1");
    obj.set_field("name", Value::String("Alice".to_string()));
    // Creation reported success: the database is left as it is, so the
    // object is still absent.
    assert!(update_unless_created(&mut db, &obj, Ok(())).is_ok());
    assert!(db.get_object("Customer", "c1").unwrap().is_none());
    // Creation failed: the object is written as an update, which needs it
    // to exist.
    let failed = Err(Error::Internal("exists".to_string()));
    assert!(matches!(
        update_unless_created(&mut db, &obj, failed),
        Err(Error::ObjectNotFound { .. })
    ));
}

#[test]
fn create_assignments_stop_at_the_first_without_equals() {
    let ok = vec!["name=Alice".to_string(), "age=30".to_string()];
    let pairs = create_assignments(&ok).unwrap();
    assert_eq!(pairs, vec![("name".to_string(), "Alice".to_string()), ("age".to_string(), "30".to_string())]);
    let bad = vec!["name=Alice".to_string(), "oops".to_string(), "x".to_string()];
    assert_eq!(create_assignments(&bad), Err("oops".to_string()));
}

#[test]
fn update_assignments_skip_those_without_equals() {
    let mixed = vec!["oops".to_string(), "name=Bob".to_string(), "a=b=c".to_string()];
    assert_eq!(
        update_assignments(&mixed),
        vec![("name".to_string(), "Bob".to_string()), ("a".to_string(), "b=c".to_string())]
    );
}
