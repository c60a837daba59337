use kelp_db::database::{check_absent, check_present, nested_step, schema_for, Database, NestedStep};
use kelp_db::error::Error;
use kelp_db::model::Model;
use kelp_db::object::{Object, ObjectId};
use kelp_db::reference::Reference;
use kelp_db::schema::{FieldDef, FieldType, Schema};
use kelp_db::storage::{MemoryStorage, StorageBackend};
use kelp_db::value::Value;

fn customer_schema() -> Schema {
    Schema::new("Customer").add_field(FieldDef::new("id", FieldType::String).required())
}

#[test]
fn test_memory_storage_schema() {
    let mut storage = MemoryStorage::new();
    let schema = Schema::new("Customer").add_field(FieldDef::new("id", FieldType::String).required());

    assert!(storage.put_schema(&schema).is_ok());
    let retrieved = storage.get_schema("Customer").unwrap();
    assert!(retrieved.is_some());
}

#[test]
fn test_memory_storage_object() {
    let mut storage = MemoryStorage::new();
    let mut obj = Object::new("Customer", "c1");
    obj.set_field("name", Value::String("Alice".to_string()));

    assert!(storage.put_object(&obj).is_ok());
    let retrieved = storage.get_object("Customer", "c1").unwrap();
    assert!(retrieved.is_some());
}

#[test]
fn memory_storage_objects_lifecycle() {
    let mut storage = MemoryStorage::default();
    let mut a = Object::new("T", "a");
    a.set_field("n", Value::Integer(1));
    storage.put_object(&a).unwrap();
    storage.put_object(&Object::new("T", "b")).unwrap();
    a.set_field("n", Value::Integer(2));
    storage.put_object(&a).unwrap();
    let got = storage.get_object("T", "a").unwrap().unwrap();
    assert_eq!(got.get_field("n"), Some(&Value::Integer(2)));
    assert_eq!(storage.list_objects("T").unwrap().len(), 2);
    assert!(storage.object_exists("T", "b").unwrap());
    storage.delete_object("T", "b").unwrap();
    assert!(!storage.object_exists("T", "b").unwrap());
    assert!(storage.delete_object("Other", "x").is_ok());
    assert!(storage.get_object("Other", "x").unwrap().is_none());
    assert!(storage.list_objects("Other").unwrap().is_empty());
    let summary = storage.inspect().unwrap();
    assert_eq!(summary.storage_backend, "memory");
    assert_eq!(summary.total_size_bytes, 0);
    assert_eq!(summary.object_type_count, 1);
    assert_eq!(summary.object_count, 1);
    assert_eq!(summary.schema_count, 0);
}

#[test]
fn memory_storage_rejects_invalid_schema() {
    let mut storage = MemoryStorage::new();
    let bad = Schema::new("T").add_field(FieldDef::new("r", FieldType::Reference));
    assert!(matches!(storage.put_schema(&bad), Err(Error::SchemaError { .. })));
    assert!(storage.get_schema("T").unwrap().is_none());
    assert!(storage.list_schemas().unwrap().is_empty());
}

#[test]
fn memory_storage_names_and_queries() {
    let mut storage = MemoryStorage::new();
    assert_eq!(storage.database_name().unwrap(), "kelp-db");
    storage.set_database_name("shop").unwrap();
    assert_eq!(storage.database_name().unwrap(), "shop");
    storage.set_database_name(" \t ").unwrap();
    assert_eq!(storage.database_name().unwrap(), "kelp-db");
    storage.save_precomputed_query("recent", "query Order status=new").unwrap();
    storage.save_precomputed_query("recent", "query Order status=old").unwrap();
    storage.save_precomputed_query("all", "list Order").unwrap();
    let mut names = storage.list_precomputed_queries().unwrap();
    names.sort();
    assert_eq!(names, vec!["all".to_string(), "recent".to_string()]);
    assert_eq!(storage.inspect().unwrap().precomputed_queries.len(), 2);
}

#[test]
fn memory_storage_rollback_restores_and_commit_keeps() {
    let mut storage = MemoryStorage::new();
    storage.put_schema(&customer_schema()).unwrap();
    storage.put_object(&Object::new("Customer", "c1")).unwrap();
    storage.begin_transaction().unwrap();
    assert!(matches!(storage.begin_transaction(), Err(Error::TransactionError { .. })));
    storage.put_object(&Object::new("Customer", "c2")).unwrap();
    storage.delete_object("Customer", "c1").unwrap();
    storage.put_schema(&Schema::new("Order")).unwrap();
    storage.rollback().unwrap();
    assert!(storage.object_exists("Customer", "c1").unwrap());
    assert!(!storage.object_exists("Customer", "c2").unwrap());
    assert!(storage.get_schema("Order").unwrap().is_none());
    assert!(matches!(storage.rollback(), Err(Error::TransactionError { .. })));
    assert!(matches!(storage.commit(), Err(Error::TransactionError { .. })));

    storage.begin_transaction().unwrap();
    storage.put_object(&Object::new("Customer", "c3")).unwrap();
    storage.commit().unwrap();
    assert!(storage.object_exists("Customer", "c3").unwrap());
}

#[test]
fn test_database_create_type() {
    let mut db = Database::memory().unwrap();
    let schema = Schema::new("Customer").add_field(FieldDef::new("id", FieldType::String).required());

    assert!(db.create_type(&schema).is_ok());
    let retrieved = db.get_type("Customer").unwrap();
    assert!(retrieved.is_some());
}

#[test]
fn test_database_create_object() {
    let mut db = Database::memory().unwrap();

    let schema = Schema::new("Customer")
        .add_field(FieldDef::new("id", FieldType::String).required())
        .add_field(FieldDef::new("name", FieldType::String).required());
    db.create_type(&schema).unwrap();

    let mut obj = Object::new("Customer", "c1");
    obj.set_field("id", Value::String("c1".to_string()));
    obj.set_field("name", Value::String("Alice".to_string()));

    assert!(db.create_object(&obj).is_ok());
    let retrieved = db.get_object("Customer", "c1").unwrap();
    assert!(retrieved.is_some());
}

#[test]
fn test_database_query() {
    let mut db = Database::memory().unwrap();

    let schema = Schema::new("Order")
        .add_field(FieldDef::new("id", FieldType::String).required())
        .add_field(FieldDef::new("status", FieldType::String).required());
    db.create_type(&schema).unwrap();

    let mut o1 = Object::new("Order", "o1");
    o1.set_field("id", Value::String("o1".to_string()));
    o1.set_field("status", Value::String("pending".to_string()));

    let mut o2 = Object::new("Order", "o2");
    o2.set_field("id", Value::String("o2".to_string()));
    o2.set_field("status", Value::String("shipped".to_string()));

    db.create_object(&o1).unwrap();
    db.create_object(&o2).unwrap();

    let pending = Value::String("pending".to_string());
    let results = db.query_matching("Order", |o: &Object| Ok(o.get_field("status") == Some(&pending))).unwrap();

    assert_eq!(results.len(), 1);
}

#[test]
fn database_object_rules() {
    let mut db = Database::memory().unwrap();
    let mut c = Object::new("Customer", "c1");
    c.set_field("id", Value::String("c1".to_string()));
    match db.create_object(&c) {
        Err(Error::TypeNotFound { typename }) => assert_eq!(typename, "Customer"),
        other => panic!("unexpected: {:?}", other),
    }
    db.create_type(&customer_schema()).unwrap();
    assert!(matches!(db.create_object(&Object::new("Customer", "c0")), Err(Error::RequiredFieldMissing { .. })));
    db.create_object(&c).unwrap();
    match db.create_object(&c) {
        Err(Error::Internal(msg)) => assert_eq!(msg, "Object Customer/c1 already exists"),
        other => panic!("unexpected: {:?}", other),
    }
    let mut ghost = Object::new("Customer", "c9");
    ghost.set_field("id", Value::String("c9".to_string()));
    assert!(matches!(db.update_object(&ghost), Err(Error::ObjectNotFound { .. })));
    assert!(matches!(db.delete_object("Customer", "c9"), Err(Error::ObjectNotFound { .. })));
    db.update_field("Customer", "c1", "nick", Value::String("Al".to_string())).unwrap();
    assert_eq!(
        db.get_object("Customer", "c1").unwrap().unwrap().get_field("nick"),
        Some(&Value::String("Al".to_string()))
    );
    assert!(matches!(
        db.update_field("Customer", "c1", "id", Value::Integer(3)),
        Err(Error::TypeMismatch { .. })
    ));
    assert!(matches!(
        db.update_field("Customer", "zz", "id", Value::Null),
        Err(Error::ObjectNotFound { .. })
    ));
    assert_eq!(db.count_objects("Customer").unwrap(), 1);
    assert_eq!(db.list_objects("Customer").unwrap().len(), 1);
    db.delete_object("Customer", "c1").unwrap();
    assert_eq!(db.count_objects("Customer").unwrap(), 0);
    assert_eq!(db.list_types().unwrap(), vec!["Customer".to_string()]);
    assert!(matches!(db.create_type(&Schema::new("")), Err(Error::SchemaError { .. })));
}

#[test]
fn database_references_and_nested_paths() {
    let mut db = Database::memory().unwrap();
    db.create_type(&Schema::new("Customer")).unwrap();
    db.create_type(&Schema::new("Order")).unwrap();
    let mut c = Object::new("Customer", "c1");
    c.set_field("name", Value::String("Alice".to_string()));
    db.create_object(&c).unwrap();
    let mut o = Object::new("Order", "o1");
    o.set_field("customer", Value::Reference("Customer/c1".to_string()));
    o.set_field("lost", Value::Reference("Customer/c7".to_string()));
    o.set_field("total", Value::Integer(9));
    db.create_object(&o).unwrap();

    let resolved = db.resolve_reference(&Reference::new("Customer", "c1")).unwrap().unwrap();
    assert_eq!(resolved.id, ObjectId::new("Customer", "c1"));
    assert!(db.resolve_reference_value(&Value::Reference("Customer/c1".to_string())).unwrap().is_some());
    assert!(matches!(db.resolve_reference_value(&Value::Integer(1)), Err(Error::Internal(_))));

    assert_eq!(
        db.resolve_nested(&o, &["customer", "name"]).unwrap(),
        Some(Value::String("Alice".to_string()))
    );
    assert_eq!(db.resolve_nested(&o, &["total"]).unwrap(), Some(Value::Integer(9)));
    assert_eq!(db.resolve_nested(&o, &["total", "x"]).unwrap(), None);
    assert_eq!(db.resolve_nested(&o, &["nothing"]).unwrap(), None);
    assert!(matches!(db.resolve_nested(&o, &[]), Err(Error::Internal(_))));
    match db.resolve_nested(&o, &["lost", "name"]) {
        Err(Error::InvalidReference { typename, object_id }) => {
            assert_eq!(typename, "Customer");
            assert_eq!(object_id, "c7");
        }
        other => panic!("unexpected: {:?}", other),
    }
}

#[test]
fn database_cycle_is_detected() {
    let mut db = Database::memory().unwrap();
    db.create_type(&Schema::new("Node")).unwrap();
    let mut a = Object::new("Node", "a");
    a.set_field("next", Value::Reference("Node/b".to_string()));
    let mut b = Object::new("Node", "b");
    b.set_field("next", Value::Reference("Node/a".to_string()));
    db.create_object(&a).unwrap();
    db.create_object(&b).unwrap();
    let path = ["next", "next", "next"];
    assert!(matches!(db.resolve_nested(&a, &path), Err(Error::CircularReference { .. })));
}

#[test]
fn database_models_and_projection() {
    let mut db = Database::memory().unwrap();
    db.create_type(&Schema::new("Customer")).unwrap();
    db.create_type(&Schema::new("Order")).unwrap();
    let mut c = Object::new("Customer", "c1");
    c.set_field("name", Value::String("Alice".to_string()));
    db.create_object(&c).unwrap();
    let mut o = Object::new("Order", "o1");
    o.set_field("customer", Value::Reference("Customer/c1".to_string()));
    let model = Model::new("Card", "Order").add_nested_field("who", "customer", "name");
    assert!(db.create_model(&model).is_ok());
    assert!(matches!(db.create_model(&Model::new("X", "Missing").add_field("a", "a")), Err(Error::TypeNotFound { .. })));
    assert!(matches!(db.create_model(&Model::new("X", "Order")), Err(Error::ModelError { .. })));
    let projected = db.project_object(&o, &model).unwrap();
    assert_eq!(projected, vec![("who".to_string(), Value::String("Alice".to_string()))]);
    assert!(matches!(db.project_object(&c, &model), Err(Error::ModelError { .. })));
}

#[test]
fn database_transactions_and_metadata() {
    let mut db = Database::memory().unwrap();
    db.create_type(&customer_schema()).unwrap();
    db.begin_transaction().unwrap();
    assert!(db.begin_transaction().is_err());
    let mut c = Object::new("Customer", "c1");
    c.set_field("id", Value::String("c1".to_string()));
    db.create_object(&c).unwrap();
    db.rollback().unwrap();
    assert!(db.get_object("Customer", "c1").unwrap().is_none());
    assert!(db.commit().is_err());
    db.begin_transaction().unwrap();
    db.create_object(&c).unwrap();
    db.commit().unwrap();
    assert!(db.get_object("Customer", "c1").unwrap().is_some());

    assert_eq!(db.name().unwrap(), "memory");
    db.set_name("shop").unwrap();
    db.save_precomputed_query("q", "query Customer id=c1").unwrap();
    assert_eq!(db.list_precomputed_queries().unwrap(), vec!["q".to_string()]);
    let summary = db.inspect().unwrap();
    assert_eq!(summary.name, "shop");
    assert_eq!(summary.path, "memory://kelp");
    assert_eq!(summary.storage_backend, "memory");
    assert_eq!(summary.schema_count, 1);
    assert_eq!(summary.object_count, 1);
    assert_eq!(db.path(), "memory://kelp");
}

#[test]
fn open_with_storage_replaces_placeholder_name() {
    let db = Database::open_with_storage(Box::new(MemoryStorage::new()), "/tmp/shop", "shop");
    assert_eq!(db.name().unwrap(), "shop");
    let mut named = MemoryStorage::new();
    named.set_database_name("kept").unwrap();
    let db2 = Database::open_with_storage(Box::new(named), "/tmp/x", "x");
    assert_eq!(db2.name().unwrap(), "kept");
}

#[test]
fn decision_functions() {
    let id = ObjectId::new("T", "1");
    assert!(matches!(schema_for(&id, Ok(None)), Err(Error::TypeNotFound { .. })));
    assert_eq!(schema_for(&id, Ok(Some(Schema::new("T")))).unwrap().name, "T");
    assert!(matches!(schema_for(&id, Err(Error::Internal("x".to_string()))), Err(Error::Internal(_))));
    assert!(check_absent(&id, Ok(false)).is_ok());
    assert!(matches!(check_absent(&id, Ok(true)), Err(Error::Internal(_))));
    assert!(check_present("T", "1", Ok(true)).is_ok());
    assert!(matches!(check_present("T", "1", Ok(false)), Err(Error::ObjectNotFound { .. })));
    assert!(matches!(check_present("T", "1", Err(Error::IoError("e".to_string()))), Err(Error::IoError(_))));

    let mut o = Object::new("T", "1");
    o.set_field("r", Value::Reference("U/2".to_string()));
    o.set_field("bad", Value::Reference("U".to_string()));
    match nested_step(&o, "r", false).unwrap() {
        NestedStep::Follow(r) => assert_eq!(r.target, ObjectId::new("U", "2")),
        _ => panic!("expected to follow the reference"),
    }
    assert!(matches!(nested_step(&o, "r", true).unwrap(), NestedStep::Done(Some(_))));
    assert!(matches!(nested_step(&o, "x", true).unwrap(), NestedStep::Done(None)));
    assert!(matches!(nested_step(&o, "x", false).unwrap(), NestedStep::Stop));
    assert!(nested_step(&o, "bad", false).is_err());
}

#[test]
fn database_transaction_states() {
    let mut db = Database::memory().unwrap();
    assert!(db.commit().is_err());
    assert!(db.rollback().is_err());
    db.begin_transaction().unwrap();
    assert!(db.begin_transaction().is_err());
    db.commit().unwrap();
    assert!(db.commit().is_err());
    db.begin_transaction().unwrap();
    db.rollback().unwrap();
    assert!(db.rollback().is_err());
    assert_eq!(db.path(), "memory://kelp");
}
