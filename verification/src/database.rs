//! The database: schemas, objects, references, models and transactions over
//! a storage backend. The storage decides what is stored; the database
//! decides what may be stored, and the decisions stand as functions of what
//! the storage answered.
use crate::error::{Error, Result};
use crate::model::{model_fields, Model, ModelProjector};
use crate::object::{object_id_text, Object, ObjectId};
use crate::query::QueryResult;
use crate::reference::{Reference, ReferenceTracker};
use crate::schema::Schema;
use crate::storage::{MemoryStorage, StorageBackend, StorageSummary};
use crate::text::{join2, join3, split_at_slash, text_is};
use crate::validation::field_value;
use crate::transaction::Transaction;
use crate::validation::Validator;
use crate::value::{Value, ValueView};
use vstd::prelude::*;

verus! {

/// A compact overview of the current database state.
#[derive(Debug)]
pub struct DatabaseSummary {
    /// User-facing name of the database.
    pub name: String,
    /// Where the database lives.
    pub path: String,
    /// Storage backend label.
    pub storage_backend: String,
    /// Total bytes the database takes.
    pub total_size_bytes: u64,
    /// Number of schema definitions.
    pub schema_count: usize,
    /// Number of object types currently stored.
    pub object_type_count: usize,
    /// Number of objects stored across all types.
    pub object_count: usize,
    /// Named precomputed queries saved for this database.
    pub precomputed_queries: Vec<String>,
}

/// The schema an object must satisfy, from what the storage answered when
/// asked for its type: a missing type is an error, and so is a failed lookup.
pub fn schema_for(id: &ObjectId, lookup: Result<Option<Schema>>) -> (r: Result<Schema>)
    ensures
        lookup matches Ok(Some(s)) ==> (r matches Ok(t) && t == s),
        lookup matches Ok(None) ==> (r matches Err(Error::TypeNotFound { typename })
            && typename@ == id.typename@),
        lookup matches Err(e) ==> (r matches Err(e2) && e2 == e),
{
    match lookup {
        Ok(Some(s)) => Ok(s),
        Ok(None) => Err(Error::TypeNotFound { typename: id.typename.clone() }),
        Err(e) => Err(e),
    }
}

/// The message for creating an object that exists already.
pub open spec fn already_exists_message(id: ObjectId) -> Seq<char> {
    seq!['O', 'b', 'j', 'e', 'c', 't', ' '] + id.typename@ + seq!['/'] + id.object_id@ + seq![
        ' ',
        'a',
        'l',
        'r',
        'e',
        'a',
        'd',
        'y',
        ' ',
        'e',
        'x',
        'i',
        's',
        't',
        's',
    ]
}

/// Whether an object may be created, from what the storage answered when
/// asked whether it exists: only an object not stored yet may be.
pub fn check_absent(id: &ObjectId, exists: Result<bool>) -> (r: Result<()>)
    ensures
        exists matches Ok(false) ==> (r is Ok),
        exists matches Ok(true) ==> (r matches Err(Error::Internal(msg))
            && msg@ == already_exists_message(*id)),
        exists matches Err(e) ==> (r matches Err(e2) && e2 == e),
{
    match exists {
        Ok(false) => Ok(()),
        Ok(true) => {
            let head = join3("Object ", id.typename.as_str(), "/");
            let msg = join3(head.as_str(), id.object_id.as_str(), " already exists");
            proof {
                reveal_strlit("Object ");
                reveal_strlit("/");
                reveal_strlit(" already exists");
                assert(msg@ =~= already_exists_message(*id));
            }
            Err(Error::Internal(msg))
        },
        Err(e) => Err(e),
    }
}

/// Whether an object may be changed or deleted, from what the storage
/// answered when asked whether it exists: only a stored object may be.
pub fn check_present(typename: &str, object_id: &str, exists: Result<bool>) -> (r: Result<()>)
    ensures
        exists matches Ok(true) ==> (r is Ok),
        exists matches Ok(false) ==> (r matches Err(Error::ObjectNotFound { typename: t, object_id: o })
            && t@ == typename@ && o@ == object_id@),
        exists matches Err(e) ==> (r matches Err(e2) && e2 == e),
{
    match exists {
        Ok(true) => Ok(()),
        Ok(false) => Err(
            Error::ObjectNotFound { typename: typename.to_owned(), object_id: object_id.to_owned() },
        ),
        Err(e) => Err(e),
    }
}

/// What one step along a path of fields gives.
pub enum NestedStep {
    /// The path ends here, with this field's value if the object has it.
    Done(Option<Value>),
    /// The field is a reference to follow.
    Follow(Reference),
    /// The field is missing or not a reference: nothing is reached.
    Stop,
}

/// One step of a nested lookup: at the last field, its value; before it, the
/// reference the field holds, to follow (a malformed reference is an error).
pub fn nested_step(object: &Object, field: &str, last: bool) -> (r: Result<NestedStep>)
    ensures
        last ==> match r {
            Ok(NestedStep::Done(v)) => match v {
                Some(x) => object@.fields.contains_key(field@) && x@ == object@.fields[field@],
                None => !object@.fields.contains_key(field@),
            },
            _ => false,
        },
        !last ==> match field_value(object@.fields, field@) {
            Some(ValueView::Ref(s)) => match split_at_slash(s) {
                Some((t, o)) => r matches Ok(NestedStep::Follow(rf)) && rf.target.typename@ == t
                    && rf.target.object_id@ == o,
                None => r matches Err(Error::Internal(_)),
            },
            _ => r matches Ok(NestedStep::Stop),
        },
{
    if last {
        return match object.get_field(field) {
            Some(v) => Ok(NestedStep::Done(Some(v.clone()))),
            None => Ok(NestedStep::Done(None)),
        };
    }
    match object.get_field(field) {
        Some(Value::Reference(s)) => {
            let reference = Reference::parse(s.as_str())?;
            Ok(NestedStep::Follow(reference))
        },
        _ => Ok(NestedStep::Stop),
    }
}

/// Where a step along a reference leads, from what the storage answered
/// when asked for its target: a missing target makes the reference invalid;
/// a target already visited on this walk, or one past the depth limit, makes
/// it circular; otherwise the walk goes on at the target, now visited.
pub fn follow_reference(
    reference: &Reference,
    answer: Option<Object>,
    tracker: &mut ReferenceTracker,
) -> (r: Result<Object>)
    ensures
        final(tracker).spec_max_depth() == old(tracker).spec_max_depth(),
        match answer {
            None => {
                &&& r matches Err(Error::InvalidReference { typename: t, object_id: o })
                &&& t@ == reference.target.typename@
                &&& o@ == reference.target.object_id@
                &&& *final(tracker) == *old(tracker)
            },
            Some(target) => {
                let text = object_id_text(target.id.typename@, target.id.object_id@);
                if old(tracker).spec_depth() >= old(tracker).spec_max_depth() || old(
                    tracker,
                ).visited_ids().contains(text) {
                    &&& r matches Err(Error::CircularReference { .. })
                    &&& *final(tracker) == *old(tracker)
                } else {
                    &&& r == Ok::<Object, Error>(target)
                    &&& final(tracker).visited_ids() == old(tracker).visited_ids().insert(text)
                    &&& final(tracker).spec_depth() == old(tracker).spec_depth() + 1
                }
            },
        },
{
    match answer {
        Some(target) => {
            let text = target.id.to_text();
            match tracker.visit(text.as_str()) {
                Ok(()) => Ok(target),
                Err(e) => Err(e),
            }
        },
        None => Err(
            Error::InvalidReference {
                typename: reference.target.typename.clone(),
                object_id: reference.target.object_id.clone(),
            },
        ),
    }
}

/// The object that setting one field gives, from what the storage answered
/// when asked for the object: a missing object is an error.
pub fn with_field_set(
    typename: &str,
    object_id: &str,
    field: &str,
    value: Value,
    found: Option<Object>,
) -> (r: Result<Object>)
    ensures
        match found {
            None => {
                &&& r matches Err(Error::ObjectNotFound { typename: t, object_id: o })
                &&& t@ == typename@
                &&& o@ == object_id@
            },
            Some(obj) => {
                &&& r matches Ok(updated)
                &&& updated.id == obj.id
                &&& updated@.fields == obj@.fields.insert(field@, value@)
            },
        },
{
    match found {
        Some(obj) => {
            let mut updated = obj;
            updated.set_field(field, value);
            Ok(updated)
        },
        None => Err(
            Error::ObjectNotFound { typename: typename.to_owned(), object_id: object_id.to_owned() },
        ),
    }
}

/// Whether a model may be defined, from what the storage answered when asked
/// for its base type: only a model over a defined type may be.
pub fn check_base_type(model: &Model, lookup: Result<Option<Schema>>) -> (r: Result<()>)
    ensures
        lookup matches Ok(Some(_)) ==> r is Ok,
        lookup matches Ok(None) ==> (r matches Err(Error::TypeNotFound { typename })
            && typename@ == model.base_type@),
        lookup matches Err(e) ==> (r matches Err(e2) && e2 == e),
{
    match lookup {
        Ok(Some(_)) => Ok(()),
        Ok(None) => Err(Error::TypeNotFound { typename: model.base_type.clone() }),
        Err(e) => Err(e),
    }
}

/// The name a database goes by when opened: the name the storage answered,
/// or the default when it gave none.
pub open spec fn name_or(read: Result<String>, default_name: Seq<char>) -> Seq<char> {
    match read {
        Ok(n) => n@,
        Err(_) => default_name,
    }
}

/// Whether opening replaces the stored name with the default, from what the
/// storage answered when asked for the name twice (before and at the check):
/// when the name (or the default, if none was given) is the placeholder
/// "kelp-db", or the stored name is.
pub fn replaces_name(read: &Result<String>, default_name: &str, stored: &Result<String>) -> (r: bool)
    ensures
        r == (name_or(*read, default_name@) == "kelp-db"@ || (stored matches Ok(n) && n@
            == "kelp-db"@)),
{
    let by_name = match read {
        Ok(n) => text_is(n, "kelp-db"),
        Err(_) => {
            let d = default_name.to_owned();
            text_is(&d, "kelp-db")
        },
    };
    let by_stored = match stored {
        Ok(n) => text_is(n, "kelp-db"),
        Err(_) => false,
    };
    by_name || by_stored
}

/// The main database API: define object types (schemas); create, read,
/// update and delete objects; follow references; project objects through
/// models; manage transactions.
pub struct Database {
    storage: Box<dyn StorageBackend>,
    transaction: Transaction,
    path: String,
    fallback_name: String,
}

impl Database {
    /// Where the database lives.
    pub closed spec fn spec_path(&self) -> Seq<char> {
        self.path@
    }

    /// Whether the database has a transaction in progress.
    pub closed spec fn in_transaction(&self) -> bool {
        self.transaction.active()
    }

    /// Whether `objects` is what the storage answers for the objects of
    /// type `typename`.
    pub closed spec fn storage_lists(&self, typename: Seq<char>, objects: Seq<Object>) -> bool {
        self.storage.lists(typename, objects)
    }

    /// Whether `summary` is what the storage answers for its summary.
    pub closed spec fn storage_summarizes(&self, summary: StorageSummary) -> bool {
        self.storage.summarizes(summary)
    }

    /// A database over a storage backend, bound to `path`. A stored name
    /// that is missing or still the placeholder "kelp-db" is replaced by
    /// `default_name`.
    pub fn open_with_storage(
        storage: Box<dyn StorageBackend>,
        path: &str,
        default_name: &str,
    ) -> (r: Self)
        ensures
            r.spec_path() == path@,
            !r.in_transaction(),
    {
        let mut storage = storage;
        match storage.database_name() {
            Ok(_) => {},
            Err(_) => {
                let _ = storage.set_database_name(default_name);
            },
        }
        let read = storage.database_name();
        let stored = storage.database_name();
        if replaces_name(&read, default_name, &stored) {
            let _ = storage.set_database_name(default_name);
        }
        Self {
            storage,
            transaction: Transaction::new(),
            path: path.to_owned(),
            fallback_name: default_name.to_owned(),
        }
    }

    /// A new in-memory database, named "memory".
    pub fn memory() -> (r: Result<Self>)
        ensures
            r matches Ok(db) && db.spec_path() == "memory://kelp"@ && !db.in_transaction(),
    {
        let mut storage = MemoryStorage::new();
        let _ = storage.set_database_name("memory");
        let path = "memory://kelp".to_owned();
        Ok(
            Self {
                storage: Box::new(storage),
                transaction: Transaction::new(),
                path,
                fallback_name: "kelp".to_owned(),
            },
        )
    }

    /// Where the database lives.
    pub fn path(&self) -> (r: &str)
        ensures
            r@ == self.spec_path(),
    {
        self.path.as_str()
    }

    /// A compact summary of this database.
    pub fn inspect(&self) -> (r: Result<DatabaseSummary>)
        ensures
            r matches Ok(s) ==> s.path@ == self.spec_path(),
            r matches Ok(s) ==> self.storage_summarizes(
                (StorageSummary {
                    storage_backend: s.storage_backend,
                    total_size_bytes: s.total_size_bytes,
                    schema_count: s.schema_count,
                    object_type_count: s.object_type_count,
                    object_count: s.object_count,
                    precomputed_queries: s.precomputed_queries,
                }),
            ),
    {
        let summary = self.storage.inspect()?;
        let name = match self.name() {
            Ok(n) => n,
            Err(_) => self.fallback_name.clone(),
        };
        Ok(
            DatabaseSummary {
                name,
                path: self.path.clone(),
                storage_backend: summary.storage_backend,
                total_size_bytes: summary.total_size_bytes,
                schema_count: summary.schema_count,
                object_type_count: summary.object_type_count,
                object_count: summary.object_count,
                precomputed_queries: summary.precomputed_queries,
            },
        )
    }

    /// Save a named query so it can be reused and surfaced in inspections.
    pub fn save_precomputed_query(&mut self, name: &str, query: &str) -> (r: Result<()>)
        ensures
            final(self).in_transaction() == old(self).in_transaction(),
            final(self).spec_path() == old(self).spec_path(),
    {
        self.storage.save_precomputed_query(name, query)
    }

    /// The names of the saved queries.
    pub fn list_precomputed_queries(&self) -> Result<Vec<String>> {
        self.storage.list_precomputed_queries()
    }

    /// The database's name.
    pub fn name(&self) -> Result<String> {
        self.storage.database_name()
    }

    /// Give the database a name, kept in its metadata.
    pub fn set_name(&mut self, name: &str) -> (r: Result<()>)
        ensures
            final(self).in_transaction() == old(self).in_transaction(),
            final(self).spec_path() == old(self).spec_path(),
    {
        self.storage.set_database_name(name)
    }

    /// Set one field of a stored object: the object must exist, and the
    /// changed object is validated and stored as by `update_object`.
    pub fn update_field(&mut self, typename: &str, object_id: &str, field: &str, value: Value) -> (r:
        Result<()>)
        ensures
            final(self).in_transaction() == old(self).in_transaction(),
            final(self).spec_path() == old(self).spec_path(),
    {
        let found = self.get_object(typename, object_id)?;
        let object = with_field_set(typename, object_id, field, value, found)?;
        self.update_object(&object)
    }

    /// Create or update an object type; an invalid schema is refused before
    /// the storage sees it.
    pub fn create_type(&mut self, schema: &Schema) -> (r: Result<()>)
        ensures
            final(self).in_transaction() == old(self).in_transaction(),
            final(self).spec_path() == old(self).spec_path(),
            !crate::schema::schema_valid(schema@, schema.fields@) ==> r matches Err(
                Error::SchemaError { .. },
            ),
    {
        schema.validate()?;
        self.storage.put_schema(schema)
    }

    /// The schema of a type, if it is defined.
    pub fn get_type(&self, name: &str) -> Result<Option<Schema>> {
        self.storage.get_schema(name)
    }

    /// The names of all defined types.
    pub fn list_types(&self) -> Result<Vec<String>> {
        self.storage.list_schemas()
    }

    /// Create a new object. Its type must be defined, the object must
    /// satisfy the type's schema, and no object with its id may exist yet.
    pub fn create_object(&mut self, object: &Object) -> (r: Result<()>)
        ensures
            final(self).in_transaction() == old(self).in_transaction(),
            final(self).spec_path() == old(self).spec_path(),
    {
        let schema = schema_for(&object.id, self.get_type(object.id.typename.as_str()))?;
        Validator::validate(object, &schema)?;
        check_absent(
            &object.id,
            self.storage.object_exists(object.id.typename.as_str(), object.id.object_id.as_str()),
        )?;
        self.storage.put_object(object)
    }

    /// An object by type and id, if it exists.
    pub fn get_object(&self, typename: &str, object_id: &str) -> Result<Option<Object>> {
        self.storage.get_object(typename, object_id)
    }

    /// Replace a stored object. Its type must be defined, the object must
    /// satisfy the schema, and the object must exist.
    pub fn update_object(&mut self, object: &Object) -> (r: Result<()>)
        ensures
            final(self).in_transaction() == old(self).in_transaction(),
            final(self).spec_path() == old(self).spec_path(),
    {
        let schema = schema_for(&object.id, self.get_type(object.id.typename.as_str()))?;
        Validator::validate(object, &schema)?;
        check_present(
            object.id.typename.as_str(),
            object.id.object_id.as_str(),
            self.storage.object_exists(object.id.typename.as_str(), object.id.object_id.as_str()),
        )?;
        self.storage.put_object(object)
    }

    /// Delete a stored object; deleting one that does not exist is an error.
    pub fn delete_object(&mut self, typename: &str, object_id: &str) -> (r: Result<()>)
        ensures
            final(self).in_transaction() == old(self).in_transaction(),
            final(self).spec_path() == old(self).spec_path(),
    {
        check_present(typename, object_id, self.storage.object_exists(typename, object_id))?;
        self.storage.delete_object(typename, object_id)
    }

    /// All objects of a type.
    pub fn list_objects(&self, typename: &str) -> (r: Result<QueryResult>)
        ensures
            r matches Ok(q) ==> self.storage_lists(typename@, q.objects@),
    {
        let objects = self.storage.list_objects(typename)?;
        Ok(QueryResult::new(objects))
    }

    /// The objects of a type that a test accepts, in the order the storage
    /// lists them; the first test that fails makes the query fail.
    pub fn query_matching<F: Fn(&Object) -> Result<bool>>(&self, typename: &str, test: F) -> (r:
        Result<QueryResult>)
        requires
            forall|o: &Object| call_requires(test, (o,)),
        ensures
            r matches Ok(q) ==> exists|objects: Seq<Object>, picked: Seq<int>|
                self.storage_lists(typename@, objects) && #[trigger] picks(
                    q.objects@,
                    objects,
                    test,
                    picked,
                ),
    {
        let objects = self.storage.list_objects(typename)?;
        let ghost listed = objects@;
        let r = select_matching(objects, test);
        proof {
            if r is Ok {
                let q = r->Ok_0;
                let picked = choose|picked: Seq<int>| #[trigger] picks(q.objects@, listed, test, picked);
                assert(self.storage_lists(typename@, listed) && picks(q.objects@, listed, test, picked));
            }
        }
        r
    }

    /// The number of objects of a type.
    pub fn count_objects(&self, typename: &str) -> (r: Result<usize>)
        ensures
            r matches Ok(n) ==> exists|objects: Seq<Object>|
                #[trigger] self.storage_lists(typename@, objects) && n == objects.len(),
    {
        let list = self.list_objects(typename)?;
        Ok(list.len())
    }

    /// The object a reference points to, if it exists.
    pub fn resolve_reference(&self, reference: &Reference) -> Result<Option<Object>> {
        self.get_object(reference.target.typename.as_str(), reference.target.object_id.as_str())
    }

    /// The object a reference value points to; a value that is not a
    /// reference, or a malformed reference, is an error.
    pub fn resolve_reference_value(&self, value: &Value) -> (r: Result<Option<Object>>)
        ensures
            !(value is Reference) ==> r matches Err(Error::Internal(_)),
            value matches Value::Reference(s) && split_at_slash(s@) is None ==> r matches Err(
                Error::Internal(_),
            ),
    {
        match value.as_reference() {
            Some(ref_str) => {
                let reference = Reference::parse(ref_str)?;
                self.resolve_reference(&reference)
            },
            None => Err(Error::Internal("Value is not a reference".to_owned())),
        }
    }

    /// Follow a path of fields from an object (e.g. order.customer.name):
    /// every field but the last must be a reference, which is resolved to
    /// the next object; the last field's value is the result. A path through
    /// a missing or non-reference field gives None, a reference to a missing
    /// object is an error, and so is a cycle or a path deeper than ten
    /// objects.
    pub fn resolve_nested(&self, object: &Object, path: &[&str]) -> (r: Result<Option<Value>>)
        ensures
            path@.len() == 0 ==> r matches Err(Error::Internal(_)),
            path@.len() == 1 ==> match r {
                Ok(Some(v)) => object@.fields.contains_key(path@[0]@) && v@ == object@.fields[path@[0]@],
                Ok(None) => !object@.fields.contains_key(path@[0]@),
                Err(_) => false,
            },
            path@.len() >= 2 ==> match field_value(object@.fields, path@[0]@) {
                Some(ValueView::Ref(s)) => split_at_slash(s) is None ==> r matches Err(
                    Error::Internal(_),
                ),
                _ => r matches Ok(None),
            },
    {
        if path.len() == 0 {
            return Err(Error::Internal("Empty path".to_owned()));
        }
        let mut tracker = ReferenceTracker::new(10);
        let first = object.id.to_text();
        tracker.visit(first.as_str())?;
        let mut current = object.clone();
        let mut i: usize = 0;
        while i < path.len()
            invariant
                0 < path@.len(),
                i <= path@.len(),
                i == 0 || i < path@.len(),
                i == 0 ==> current@ == object@,
                tracker.spec_max_depth() == 10,
                tracker.spec_depth() == i + 1,
                i > 0 ==> (field_value(object@.fields, path@[0]@) matches Some(ValueView::Ref(s))
                    && split_at_slash(s) is Some),
            decreases path@.len() - i,
        {
            let last = i + 1 == path.len();
            match nested_step(&current, path[i], last)? {
                NestedStep::Done(v) => {
                    return Ok(v);
                },
                NestedStep::Stop => {
                    return Ok(None);
                },
                NestedStep::Follow(reference) => {
                    let answer = self.resolve_reference(&reference)?;
                    current = follow_reference(&reference, answer, &mut tracker)?;
                },
            }
            i = i + 1;
        }
        Ok(None)
    }

    /// Define a model: it must be valid and its base type must exist.
    pub fn create_model(&self, model: &Model) -> (r: Result<()>)
        ensures
            !(model.name@.len() > 0 && model.base_type@.len() > 0 && model_fields(*model).dom().len()
                > 0) ==> r matches Err(Error::ModelError { .. }),
    {
        model.validate()?;
        check_base_type(model, self.get_type(model.base_type.as_str()))
    }

    /// Project an object through a model: the object must be of the model's
    /// base type; references are resolved through the storage.
    pub fn project_object(&self, object: &Object, model: &Model) -> (r: Result<Vec<(String, Value)>>)
        ensures
            object.id.typename@ != model.base_type@ ==> r matches Err(Error::ModelError { .. }),
    {
        if object.id.typename != model.base_type {
            let head = join3("Object type ", object.id.typename.as_str(), " does not match model base type ");
            return Err(Error::ModelError { reason: join2(head.as_str(), model.base_type.as_str()) });
        }
        let storage = &self.storage;
        ModelProjector::project(
            object,
            model,
            |ref_str: &str|
                {
                    let reference = Reference::parse(ref_str)?;
                    storage.get_object(
                        reference.target.typename.as_str(),
                        reference.target.object_id.as_str(),
                    )
                },
        )
    }

    /// Begin a transaction in the storage and in the database; with one in
    /// progress already, the database refuses a second.
    pub fn begin_transaction(&mut self) -> (r: Result<()>)
        ensures
            old(self).in_transaction() ==> r is Err && final(self).in_transaction(),
            r is Ok ==> !old(self).in_transaction() && final(self).in_transaction(),
            r is Err && !old(self).in_transaction() ==> !final(self).in_transaction(),
            final(self).spec_path() == old(self).spec_path(),
    {
        self.storage.begin_transaction()?;
        self.transaction.begin()
    }

    /// Commit the current transaction; without one in progress it is an
    /// error. Once the storage has committed, the database's transaction ends.
    pub fn commit(&mut self) -> (r: Result<()>)
        ensures
            !old(self).in_transaction() ==> r is Err && !final(self).in_transaction(),
            r is Ok ==> old(self).in_transaction() && !final(self).in_transaction(),
            final(self).spec_path() == old(self).spec_path(),
    {
        self.storage.commit()?;
        self.transaction.commit()
    }

    /// Roll back the current transaction; without one in progress it is an
    /// error. Once the storage has rolled back, the database's transaction
    /// ends.
    pub fn rollback(&mut self) -> (r: Result<()>)
        ensures
            !old(self).in_transaction() ==> r is Err && !final(self).in_transaction(),
            r is Ok ==> old(self).in_transaction() && !final(self).in_transaction(),
            final(self).spec_path() == old(self).spec_path(),
    {
        self.storage.rollback()?;
        self.transaction.rollback()
    }
}

/// `selected` lists, in order, the objects at the increasing positions
/// `picked`: the test accepted each of them and turned down each object
/// left out.
pub open spec fn picks<F: Fn(&Object) -> Result<bool>>(
    selected: Seq<Object>,
    objects: Seq<Object>,
    test: F,
    picked: Seq<int>,
) -> bool {
    &&& picked.len() == selected.len()
    &&& forall|k: int|
        0 <= k < picked.len() ==> 0 <= #[trigger] picked[k] < objects.len() && selected[k]@
            == objects[picked[k]]@
    &&& forall|k: int, l: int| 0 <= k < l < picked.len() ==> picked[k] < picked[l]
    &&& forall|k: int|
        0 <= k < picked.len() ==> call_ensures(test, (&objects[#[trigger] picked[k]],), Ok(true))
    &&& forall|i: int|
        0 <= i < objects.len() && !(exists|k: int| 0 <= k < picked.len() && picked[k] == i)
            ==> call_ensures(test, (&objects[i],), Ok(false))
}

/// The objects that a test accepts, in order; the first test that fails
/// makes the selection fail.
pub fn select_matching<F: Fn(&Object) -> Result<bool>>(objects: Vec<Object>, test: F) -> (r:
    Result<QueryResult>)
    requires
        forall|o: &Object| call_requires(test, (o,)),
    ensures
        match r {
            Ok(q) => exists|picked: Seq<int>| #[trigger] picks(q.objects@, objects@, test, picked),
            Err(e) => exists|i: int|
                0 <= i < objects@.len() && call_ensures(test, (&objects@[i],), Err(e)),
        },
{
    let mut results: Vec<Object> = Vec::new();
    let ghost mut picked: Seq<int> = Seq::empty();
    let ghost all = objects@;
    let mut i: usize = 0;
    while i < objects.len()
        invariant
            objects@ == all,
            i <= all.len(),
            forall|o: &Object| call_requires(test, (o,)),
            picked.len() == results@.len(),
            forall|k: int|
                0 <= k < picked.len() ==> 0 <= #[trigger] picked[k] < i && results@[k]@
                    == all[picked[k]]@,
            forall|k: int, l: int| 0 <= k < l < picked.len() ==> picked[k] < picked[l],
            forall|k: int|
                0 <= k < picked.len() ==> call_ensures(test, (&all[#[trigger] picked[k]],), Ok(true)),
            forall|j: int|
                0 <= j < i && !(exists|k: int| 0 <= k < picked.len() && picked[k] == j)
                    ==> call_ensures(test, (&all[j],), Ok(false)),
        decreases all.len() - i,
    {
        let keep = test(&objects[i]);
        let ghost before = picked;
        match keep {
            Ok(true) => {
                let o = objects[i].clone();
                results.push(o);
                proof {
                    picked = picked.push(i as int);
                    assert forall|j: int|
                        0 <= j < i + 1 && !(exists|k: int| 0 <= k < picked.len() && picked[k] == j)
                        implies call_ensures(test, (&all[j],), Ok(false)) by {
                        if j == i {
                            assert(picked[picked.len() - 1] == j);
                        }
                        if exists|k: int| 0 <= k < before.len() && before[k] == j {
                            let k = choose|k: int| 0 <= k < before.len() && before[k] == j;
                            assert(picked[k] == j);
                        }
                    }
                    assert forall|k: int| 0 <= k < picked.len() implies call_ensures(
                        test,
                        (&all[#[trigger] picked[k]],),
                        Ok(true),
                    ) by {
                        if k < before.len() {
                            assert(picked[k] == before[k]);
                        }
                    }
                }
            },
            Ok(false) => {
                proof {
                    assert forall|j: int|
                        0 <= j < i + 1 && !(exists|k: int| 0 <= k < picked.len() && picked[k] == j)
                        implies call_ensures(test, (&all[j],), Ok(false)) by {}
                }
            },
            Err(e) => {
                assert(call_ensures(test, (&all[i as int],), Err(e)));
                return Err(e);
            },
        }
        i = i + 1;
    }
    let r: Result<QueryResult> = Ok(QueryResult::new(results));
    assert(picks(r->Ok_0.objects@, objects@, test, picked));
    r
}

/// A selection the picks relation describes holds exactly the objects the
/// test accepts, in their order: for a test that gives each object one
/// answer, an object is picked exactly when the test answers `Ok(true)` for
/// it, every selected object is the one at its picked position, and the
/// objects the test turns down are left out.
pub proof fn lemma_selection_is_the_accepted<F: Fn(&Object) -> Result<bool>>(
    selected: Seq<Object>,
    objects: Seq<Object>,
    test: F,
    picked: Seq<int>,
)
    requires
        picks(selected, objects, test, picked),
        forall|i: int, a: Result<bool>, b: Result<bool>|
            0 <= i < objects.len() && call_ensures(test, (&objects[i],), a) && call_ensures(
                test,
                (&objects[i],),
                b,
            ) ==> a == b,
    ensures
        forall|i: int|
            0 <= i < objects.len() ==> ((exists|k: int| 0 <= k < picked.len() && picked[k] == i)
                <==> call_ensures(test, (&objects[i],), Ok(true))),
        forall|i: int|
            0 <= i < objects.len() && call_ensures(test, (&objects[i],), Ok(false)) ==> !(exists|
                k: int,
            | 0 <= k < picked.len() && picked[k] == i),
        forall|k: int|
            0 <= k < selected.len() ==> (#[trigger] selected[k])@ == objects[picked[k]]@
                && call_ensures(test, (&objects[picked[k]],), Ok(true)),
{
    assert forall|i: int|
        0 <= i < objects.len() implies ((exists|k: int| 0 <= k < picked.len() && picked[k] == i)
        <==> call_ensures(test, (&objects[i],), Ok(true))) by {
        if exists|k: int| 0 <= k < picked.len() && picked[k] == i {
            let k = choose|k: int| 0 <= k < picked.len() && picked[k] == i;
            assert(call_ensures(test, (&objects[picked[k]],), Ok(true)));
        } else if call_ensures(test, (&objects[i],), Ok(true)) {
            assert(call_ensures(test, (&objects[i],), Ok(false)));
            assert(Ok::<bool, Error>(true) != Ok::<bool, Error>(false));
        }
    }
    assert forall|i: int|
        0 <= i < objects.len() && call_ensures(test, (&objects[i],), Ok(false)) implies !(exists|
        k: int,
    | 0 <= k < picked.len() && picked[k] == i) by {
        if exists|k: int| 0 <= k < picked.len() && picked[k] == i {
            let k = choose|k: int| 0 <= k < picked.len() && picked[k] == i;
            assert(call_ensures(test, (&objects[picked[k]],), Ok(true)));
            assert(Ok::<bool, Error>(true) != Ok::<bool, Error>(false));
        }
    }
    assert forall|k: int| 0 <= k < selected.len() implies (#[trigger] selected[k])@
        == objects[picked[k]]@ && call_ensures(test, (&objects[picked[k]],), Ok(true)) by {
        assert(0 <= picked[k] < objects.len());
    }
}

} // verus!

