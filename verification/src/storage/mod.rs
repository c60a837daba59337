pub mod page;
pub mod slotted_page;
pub mod wal;
pub mod binary_codec;
pub mod location_index;
pub mod cache;
pub mod page_manager;
pub mod paged_storage;

use crate::assoc::{
    assoc_map, entry_count, find_key, key_views, keys_of, lemma_assoc_contains,
    lemma_assoc_finite, lemma_assoc_keys_set, lemma_assoc_len_distinct, lemma_entry_count_prefix,
    lemma_pairs_count, lemma_viewed_absent, lemma_viewed_first, lemma_viewed_keys,
    lemma_viewed_put, lemma_viewed_remove, list_keys, pair_set, put_entry, viewed,
};
use crate::error::{Error, Result};
use crate::object::{Object, ObjectView};
use crate::schema::{schema_valid, Schema, SchemaView};
use crate::text::{
    copy_strings, ends_with, ends_with_spec, string_views, trim_end_matches, trim_spec, trim_suffix_all,
    trim_text,
};
use vstd::prelude::*;

verus! {

/// A compact summary of a storage layer.
#[derive(Debug)]
pub struct StorageSummary {
    /// A human readable storage backend label.
    pub storage_backend: String,
    /// Total disk or memory usage for the currently loaded database state.
    pub total_size_bytes: u64,
    /// Number of object types / schemas currently defined.
    pub schema_count: usize,
    /// Number of known object kinds.
    pub object_type_count: usize,
    /// Total number of stored objects across all types.
    pub object_count: usize,
    /// Named query artifacts that have been precomputed for this database.
    pub precomputed_queries: Vec<String>,
}

impl Clone for StorageSummary {
    fn clone(&self) -> (r: Self)
        ensures
            r.storage_backend@ == self.storage_backend@,
            r.total_size_bytes == self.total_size_bytes,
            r.schema_count == self.schema_count,
            r.object_type_count == self.object_type_count,
            r.object_count == self.object_count,
            r.precomputed_queries@ == self.precomputed_queries@,
    {
        StorageSummary {
            storage_backend: self.storage_backend.clone(),
            total_size_bytes: self.total_size_bytes,
            schema_count: self.schema_count,
            object_type_count: self.object_type_count,
            object_count: self.object_count,
            precomputed_queries: copy_strings(&self.precomputed_queries),
        }
    }
}

impl Default for StorageSummary {
    fn default() -> (r: Self)
        ensures
            r.storage_backend@ == Seq::<char>::empty(),
            r.total_size_bytes == 0,
            r.schema_count == 0,
            r.object_type_count == 0,
            r.object_count == 0,
            r.precomputed_queries@ == Seq::<String>::empty(),
    {
        StorageSummary {
            storage_backend: String::new(),
            total_size_bytes: 0,
            schema_count: 0,
            object_type_count: 0,
            object_count: 0,
            precomputed_queries: Vec::new(),
        }
    }
}

/// A storage backend. This abstraction lets different storage
/// implementations (local files, remote servers, memory) stand behind the
/// same object model; what each call does is the implementation's to decide.
pub trait StorageBackend: Send + Sync {
    /// Whether `objects` is what this storage answers when asked for the
    /// objects of type `typename`. An implementation that says nothing more
    /// allows any answer.
    closed spec fn lists(&self, typename: Seq<char>, objects: Seq<Object>) -> bool {
        true
    }

    /// Whether `summary` is what this storage answers when asked for its
    /// summary. An implementation that says nothing more allows any answer.
    closed spec fn summarizes(&self, summary: StorageSummary) -> bool {
        true
    }

    /// Create or update a schema.
    fn put_schema(&mut self, schema: &Schema) -> Result<()>;

    /// Retrieve a schema by name.
    fn get_schema(&self, name: &str) -> Result<Option<Schema>>;

    /// List all schema names.
    fn list_schemas(&self) -> Result<Vec<String>>;

    /// Create or update an object.
    fn put_object(&mut self, object: &Object) -> Result<()>;

    /// Retrieve an object by type and ID.
    fn get_object(&self, typename: &str, object_id: &str) -> Result<Option<Object>>;

    /// Delete an object.
    fn delete_object(&mut self, typename: &str, object_id: &str) -> Result<()>;

    /// List all objects of a given type.
    fn list_objects(&self, typename: &str) -> (r: Result<Vec<Object>>)
        ensures
            r matches Ok(v) ==> self.lists(typename@, v@),
    ;

    /// Check if an object exists.
    fn object_exists(&self, typename: &str, object_id: &str) -> Result<bool>;

    /// Get a compact summary for the storage layer.
    fn inspect(&self) -> (r: Result<StorageSummary>)
        ensures
            r matches Ok(s) ==> self.summarizes(s),
    ;

    /// Store a user-friendly database name.
    fn set_database_name(&mut self, name: &str) -> Result<()>;

    /// Read the current database name.
    fn database_name(&self) -> Result<String>;

    /// Store a named precomputed query for later reuse.
    fn save_precomputed_query(&mut self, name: &str, query: &str) -> Result<()>;

    /// List all named precomputed queries.
    fn list_precomputed_queries(&self) -> Result<Vec<String>>;

    /// Begin a transaction.
    fn begin_transaction(&mut self) -> Result<()>;

    /// Commit the current transaction.
    fn commit(&mut self) -> Result<()>;

    /// Roll back the current transaction.
    fn rollback(&mut self) -> Result<()>;
}

/// The schema a file of the schema directory holds: only a `.json` file
/// holds one, named by the file name with every trailing `.json` taken off.
pub open spec fn schema_file_name(file_name: Seq<char>) -> Option<Seq<char>> {
    if ends_with_spec(file_name, ".json"@) {
        Some(trim_suffix_all(file_name, ".json"@))
    } else {
        None
    }
}

/// The name of the schema a file of the schema directory holds, if it
/// holds one.
pub fn schema_name_from_file(file_name: &str) -> (r: Option<String>)
    ensures
        match r {
            Some(n) => schema_file_name(file_name@) == Some(n@),
            None => schema_file_name(file_name@) is None,
        },
{
    proof {
        reveal_strlit(".json");
    }
    if ends_with(file_name, ".json") {
        Some(trim_end_matches(file_name, ".json"))
    } else {
        None
    }
}

/// The schemas of a table, by name.
pub open spec fn schema_map(v: Seq<(String, Schema)>) -> Map<Seq<char>, SchemaView> {
    assoc_map(viewed(v, |s: Schema| s@))
}

/// The objects of one type's table, by id.
pub open spec fn object_map(v: Seq<(String, Object)>) -> Map<Seq<char>, ObjectView> {
    assoc_map(viewed(v, |o: Object| o@))
}

/// The entries of the table of types, each type with its objects by id.
pub open spec fn type_tables(v: Seq<(String, Vec<(String, Object)>)>) -> Seq<
    (Seq<char>, Map<Seq<char>, ObjectView>),
> {
    viewed(v, |w: Vec<(String, Object)>| object_map(w@))
}

/// The objects of every type, by type name and id.
pub open spec fn objects_map(v: Seq<(String, Vec<(String, Object)>)>) -> Map<
    Seq<char>,
    Map<Seq<char>, ObjectView>,
> {
    assoc_map(type_tables(v))
}

/// The objects stored under a type; none for a type never stored.
pub open spec fn objects_under(m: Map<Seq<char>, Map<Seq<char>, ObjectView>>, t: Seq<char>) -> Map<
    Seq<char>,
    ObjectView,
> {
    if m.contains_key(t) {
        m[t]
    } else {
        Map::empty()
    }
}

/// The object stored under a type and id, if any.
pub open spec fn stored_object(
    m: Map<Seq<char>, Map<Seq<char>, ObjectView>>,
    t: Seq<char>,
    o: Seq<char>,
) -> Option<ObjectView> {
    if m.contains_key(t) && m[t].contains_key(o) {
        Some(m[t][o])
    } else {
        None
    }
}

/// The name a database gets when given a blank one.
pub open spec fn default_database_name() -> Seq<char> {
    seq!['k', 'e', 'l', 'p', '-', 'd', 'b']
}

spec fn schema_table_ok(v: Seq<(String, Schema)>) -> bool {
    keys_of(viewed(v, |s: Schema| s@)).no_duplicates()
}

spec fn object_table_ok(v: Seq<(String, Object)>) -> bool {
    keys_of(viewed(v, |o: Object| o@)).no_duplicates()
}

spec fn filed_under(t: Seq<char>, v: Seq<(String, Object)>) -> bool {
    forall|j: int|
        0 <= j < v.len() ==> (#[trigger] v[j]).1.id.typename@ == t && v[j].1.id.object_id@
            == v[j].0@
}

spec fn objects_table_ok(v: Seq<(String, Vec<(String, Object)>)>) -> bool {
    &&& keys_of(type_tables(v)).no_duplicates()
    &&& forall|i: int| 0 <= i < v.len() ==> object_table_ok(#[trigger] v[i].1@)
    &&& forall|i: int| 0 <= i < v.len() ==> filed_under(v[i].0@, #[trigger] v[i].1@)
}

/// The content of an in-memory storage.
pub struct MemoryStorageView {
    pub schemas: Map<Seq<char>, SchemaView>,
    pub objects: Map<Seq<char>, Map<Seq<char>, ObjectView>>,
    pub in_transaction: bool,
    /// The schemas and objects as they were when the open transaction began.
    pub snapshot: Option<(Map<Seq<char>, SchemaView>, Map<Seq<char>, Map<Seq<char>, ObjectView>>)>,
    pub precomputed_queries: Map<Seq<char>, Seq<char>>,
    pub database_name: Seq<char>,
}

/// In-memory storage, for tests and for databases that need no persistence.
pub struct MemoryStorage {
    schemas: Vec<(String, Schema)>,
    objects: Vec<(String, Vec<(String, Object)>)>,
    in_transaction: bool,
    transaction_snapshot: Option<(Vec<(String, Schema)>, Vec<(String, Vec<(String, Object)>)>)>,
    precomputed_queries: Vec<(String, String)>,
    database_name: String,
}

impl View for MemoryStorage {
    type V = MemoryStorageView;

    closed spec fn view(&self) -> MemoryStorageView {
        MemoryStorageView {
            schemas: schema_map(self.schemas@),
            objects: objects_map(self.objects@),
            in_transaction: self.in_transaction,
            snapshot: match self.transaction_snapshot {
                Some((s, o)) => Some((schema_map(s@), objects_map(o@))),
                None => None,
            },
            precomputed_queries: assoc_map(viewed(self.precomputed_queries@, |q: String| q@)),
            database_name: self.database_name@,
        }
    }
}

/// Copies a table of schemas.
fn copy_schema_table(v: &Vec<(String, Schema)>) -> (r: Vec<(String, Schema)>)
    ensures
        viewed(r@, |s: Schema| s@) == viewed(v@, |s: Schema| s@),
{
    let mut r: Vec<(String, Schema)> = Vec::new();
    let mut i: usize = 0;
    while i < v.len()
        invariant
            i <= v@.len(),
            viewed(r@, |s: Schema| s@) == viewed(v@.take(i as int), |s: Schema| s@),
        decreases v@.len() - i,
    {
        let name = v[i].0.clone();
        let schema = v[i].1.clone();
        assert(schema@ == v@[i as int].1@);
        let ghost prev = r@;
        r.push((name, schema));
        assert(viewed(r@, |s: Schema| s@) =~= viewed(prev, |s: Schema| s@).push(
            (v@[i as int].0@, v@[i as int].1@),
        ));
        assert(viewed(v@.take(i + 1), |s: Schema| s@) =~= viewed(v@.take(i as int), |s: Schema| s@).push(
            (v@[i as int].0@, v@[i as int].1@),
        ));
        i = i + 1;
    }
    assert(v@.take(v@.len() as int) =~= v@);
    r
}

/// Copies one type's table of objects.
fn copy_object_table(v: &Vec<(String, Object)>) -> (r: Vec<(String, Object)>)
    ensures
        viewed(r@, |o: Object| o@) == viewed(v@, |o: Object| o@),
{
    let mut r: Vec<(String, Object)> = Vec::new();
    let mut i: usize = 0;
    while i < v.len()
        invariant
            i <= v@.len(),
            viewed(r@, |o: Object| o@) == viewed(v@.take(i as int), |o: Object| o@),
        decreases v@.len() - i,
    {
        let id = v[i].0.clone();
        let obj = v[i].1.clone();
        let ghost prev = r@;
        r.push((id, obj));
        assert(viewed(r@, |o: Object| o@) =~= viewed(prev, |o: Object| o@).push(
            (v@[i as int].0@, v@[i as int].1@),
        ));
        assert(viewed(v@.take(i + 1), |o: Object| o@) =~= viewed(v@.take(i as int), |o: Object| o@).push(
            (v@[i as int].0@, v@[i as int].1@),
        ));
        i = i + 1;
    }
    assert(v@.take(v@.len() as int) =~= v@);
    r
}

/// Copies the table of all types.
fn copy_objects_table(v: &Vec<(String, Vec<(String, Object)>)>) -> (r: Vec<
    (String, Vec<(String, Object)>),
>)
    ensures
        type_tables(r@) == type_tables(v@),
        forall|i: int|
            0 <= i < r@.len() ==> viewed(#[trigger] r@[i].1@, |o: Object| o@) == viewed(
                v@[i].1@,
                |o: Object| o@,
            ),
        r@.len() == v@.len(),
{
    let mut r: Vec<(String, Vec<(String, Object)>)> = Vec::new();
    let mut i: usize = 0;
    while i < v.len()
        invariant
            i <= v@.len(),
            r@.len() == i,
            type_tables(r@) == type_tables(v@.take(i as int)),
            forall|k: int|
                0 <= k < i ==> viewed(#[trigger] r@[k].1@, |o: Object| o@) == viewed(
                    v@[k].1@,
                    |o: Object| o@,
                ),
        decreases v@.len() - i,
    {
        let name = v[i].0.clone();
        let table = copy_object_table(&v[i].1);
        let ghost prev = r@;
        r.push((name, table));
        assert(type_tables(r@) =~= type_tables(prev).push(
            (v@[i as int].0@, object_map(v@[i as int].1@)),
        ));
        assert(type_tables(v@.take(i + 1)) =~= type_tables(v@.take(i as int)).push(
            (v@[i as int].0@, object_map(v@[i as int].1@)),
        ));
        proof {
            assert forall|k: int| 0 <= k < i + 1 implies viewed(
                #[trigger] r@[k].1@,
                |o: Object| o@,
            ) == viewed(v@[k].1@, |o: Object| o@) by {
                if k < i {
                    assert(r@[k] == prev[k]);
                }
            }
        }
        i = i + 1;
    }
    assert(v@.take(v@.len() as int) =~= v@);
    r
}

impl MemoryStorage {
    #[verifier::type_invariant]
    spec fn inv(&self) -> bool {
        &&& schema_table_ok(self.schemas@)
        &&& objects_table_ok(self.objects@)
        &&& keys_of(viewed(self.precomputed_queries@, |q: String| q@)).no_duplicates()
        &&& self.in_transaction ==> self.transaction_snapshot is Some
        &&& match self.transaction_snapshot {
            Some((s, o)) => schema_table_ok(s@) && objects_table_ok(o@),
            None => true,
        }
    }

    /// Create a new, empty in-memory storage named "kelp-db".
    pub fn new() -> (r: Self)
        ensures
            r@.schemas == Map::<Seq<char>, SchemaView>::empty(),
            r@.objects == Map::<Seq<char>, Map<Seq<char>, ObjectView>>::empty(),
            !r@.in_transaction,
            r@.snapshot is None,
            r@.precomputed_queries == Map::<Seq<char>, Seq<char>>::empty(),
            r@.database_name == default_database_name(),
    {
        let r = Self {
            schemas: Vec::new(),
            objects: Vec::new(),
            in_transaction: false,
            transaction_snapshot: None,
            precomputed_queries: Vec::new(),
            database_name: "kelp-db".to_owned(),
        };
        proof {
            reveal_strlit("kelp-db");
            assert(viewed(r.schemas@, |s: Schema| s@) =~= Seq::empty());
            assert(keys_of(viewed(r.schemas@, |s: Schema| s@)) =~= Seq::empty());
            assert(type_tables(r.objects@) =~= Seq::empty());
            assert(keys_of(type_tables(r.objects@)) =~= Seq::empty());
            assert(viewed(r.precomputed_queries@, |q: String| q@) =~= Seq::empty());
            assert(keys_of(viewed(r.precomputed_queries@, |q: String| q@)) =~= Seq::empty());
            assert(r.database_name@ =~= default_database_name());
        }
        r
    }
}

impl Default for MemoryStorage {
    fn default() -> (r: Self)
        ensures
            r@.schemas == Map::<Seq<char>, SchemaView>::empty(),
            r@.objects == Map::<Seq<char>, Map<Seq<char>, ObjectView>>::empty(),
            !r@.in_transaction,
            r@.snapshot is None,
            r@.precomputed_queries == Map::<Seq<char>, Seq<char>>::empty(),
            r@.database_name == default_database_name(),
    {
        Self::new()
    }
}


/// The storage once a transaction has begun: the schemas and objects of the
/// moment kept aside.
pub open spec fn begun(v: MemoryStorageView) -> MemoryStorageView {
    MemoryStorageView { in_transaction: true, snapshot: Some((v.schemas, v.objects)), ..v }
}

/// The storage once its transaction is committed: the changes stay.
pub open spec fn committed(v: MemoryStorageView) -> MemoryStorageView {
    MemoryStorageView { in_transaction: false, snapshot: None, ..v }
}

/// The storage after a rollback: schemas and objects as the snapshot holds
/// them, no transaction open.
pub open spec fn rolled_back(v: MemoryStorageView) -> MemoryStorageView {
    match v.snapshot {
        Some((schemas, objects)) => MemoryStorageView {
            schemas,
            objects,
            in_transaction: false,
            snapshot: None,
            ..v
        },
        None => MemoryStorageView { in_transaction: false, ..v },
    }
}

/// The view of a storage with one part changed.
pub open spec fn with_schemas(v: MemoryStorageView, s: Map<Seq<char>, SchemaView>) -> MemoryStorageView {
    MemoryStorageView { schemas: s, ..v }
}

/// The view of a storage with its objects changed.
pub open spec fn with_objects(
    v: MemoryStorageView,
    o: Map<Seq<char>, Map<Seq<char>, ObjectView>>,
) -> MemoryStorageView {
    MemoryStorageView { objects: o, ..v }
}

/// Objects of a type's table, seen by id; with ids distinct and each object
/// filed under its own id, the table's view is determined by its objects.
proof fn lemma_table_entry(v: Seq<(String, Object)>, j: int)
    requires
        object_table_ok(v),
        0 <= j < v.len(),
    ensures
        object_map(v).contains_key(v[j].0@),
        object_map(v)[v[j].0@] == v[j].1@,
{
    lemma_viewed_remove(v, j, |o: Object| o@);
}

impl StorageBackend for MemoryStorage {
    /// The objects of the type, each once: every one listed is the stored
    /// object under its id, and as many are listed as the type holds.
    open spec fn lists(&self, typename: Seq<char>, objects: Seq<Object>) -> bool {
        let m = objects_under(self@.objects, typename);
        &&& m.dom().finite()
        &&& objects.len() == m.dom().len()
        &&& forall|i: int|
            #![trigger objects[i]]
            0 <= i < objects.len() ==> m.contains_key(objects[i].id.object_id@)
                && m[objects[i].id.object_id@] == objects[i]@
        &&& forall|i: int, j: int|
            0 <= i < j < objects.len() ==> objects[i].id.object_id@ != objects[j].id.object_id@
    }

    /// The label "memory", no bytes on disk, and the numbers of schemas,
    /// object types and objects, with the saved queries' names.
    open spec fn summarizes(&self, s: StorageSummary) -> bool {
        &&& s.storage_backend@ == seq!['m', 'e', 'm', 'o', 'r', 'y']
        &&& s.total_size_bytes == 0
        &&& s.schema_count == self@.schemas.dom().len()
        &&& s.object_type_count == self@.objects.dom().len()
        &&& s.object_count == if pair_set(self@.objects).len() <= usize::MAX {
            pair_set(self@.objects).len()
        } else {
            usize::MAX as nat
        }
        &&& string_views(s.precomputed_queries@).no_duplicates()
        &&& string_views(s.precomputed_queries@).to_set() == self@.precomputed_queries.dom()
    }

    fn put_schema(&mut self, schema: &Schema) -> (r: Result<()>)
        ensures
            r is Ok <==> schema_valid(schema@, schema.fields@),
            r matches Err(e) ==> e is SchemaError,
            r is Ok ==> final(self)@ == with_schemas(
                old(self)@,
                old(self)@.schemas.insert(schema@.name, schema@),
            ),
            r is Err ==> final(self)@ == old(self)@,
    {
        proof {
            use_type_invariant(&*self);
        }
        schema.validate()?;
        let mut schemas: Vec<(String, Schema)> = Vec::new();
        std::mem::swap(&mut schemas, &mut self.schemas);
        let ghost before = schemas@;
        let copy = schema.clone();
        let ghost c = copy;
        assert(c@ == schema@);
        let at = put_entry(&mut schemas, schema.name.as_str(), copy);
        proof {
            lemma_viewed_put(before, schemas@, schema.name@, c, at as int, |s: Schema| s@);
        }
        self.schemas = schemas;
        Ok(())
    }

    fn get_schema(&self, name: &str) -> (r: Result<Option<Schema>>)
        ensures
            r matches Ok(o) && match o {
                Some(s) => self@.schemas.contains_key(name@) && s@ == self@.schemas[name@],
                None => !self@.schemas.contains_key(name@),
            },
    {
        match find_key(&self.schemas, name) {
            Some(i) => {
                proof {
                    lemma_viewed_first(self.schemas@, name@, i as int, |s: Schema| s@);
                }
                let s = self.schemas[i].1.clone();
                Ok(Some(s))
            },
            None => {
                proof {
                    lemma_viewed_absent(self.schemas@, name@, |s: Schema| s@);
                }
                Ok(None)
            },
        }
    }

    fn list_schemas(&self) -> (r: Result<Vec<String>>)
        ensures
            r matches Ok(names) && string_views(names@).no_duplicates() && string_views(
                names@,
            ).to_set() == self@.schemas.dom(),
    {
        proof {
            use_type_invariant(self);
            lemma_viewed_keys(self.schemas@, |s: Schema| s@);
            lemma_assoc_keys_set(viewed(self.schemas@, |s: Schema| s@));
        }
        let names = list_keys(&self.schemas);
        assert(string_views(names@) == key_views(self.schemas@));
        Ok(names)
    }

    fn put_object(&mut self, object: &Object) -> (r: Result<()>)
        ensures
            r is Ok,
            final(self)@ == with_objects(
                old(self)@,
                old(self)@.objects.insert(
                    object.id.typename@,
                    objects_under(old(self)@.objects, object.id.typename@).insert(
                        object.id.object_id@,
                        object@,
                    ),
                ),
            ),
    {
        proof {
            use_type_invariant(&*self);
        }
        let mut objects: Vec<(String, Vec<(String, Object)>)> = Vec::new();
        std::mem::swap(&mut objects, &mut self.objects);
        let ghost before = objects@;
        let ghost e = type_tables(before);
        let ghost t = object.id.typename@;
        let ghost o = object.id.object_id@;
        let copy = object.clone();
        let ghost c = copy;
        match find_key(&objects, object.id.typename.as_str()) {
            Some(i) => {
                proof {
                    lemma_viewed_remove(before, i as int, |w: Vec<(String, Object)>| object_map(w@));
                }
                let (name, mut table) = objects.remove(i);
                let ghost tb = table@;
                assert(object_table_ok(tb) && filed_under(t, tb)) by {
                    assert(tb == before[i as int].1@);
                }
                let at = put_entry(&mut table, object.id.object_id.as_str(), copy);
                proof {
                    lemma_viewed_put(tb, table@, o, c, at as int, |x: Object| x@);
                    assert forall|j: int| 0 <= j < table@.len() implies (#[trigger] table@[j]).1.id.typename@
                        == t && table@[j].1.id.object_id@ == table@[j].0@ by {
                        if at < tb.len() {
                            if j != at {
                                assert(table@[j] == tb[j]);
                            }
                        } else {
                            if j < tb.len() {
                                assert(table@[j] == table@.drop_last()[j]);
                            }
                        }
                    }
                }
                let ghost entry = (name, table);
                objects.insert(i, (name, table));
                proof {
                    assert(objects@ =~= before.update(i as int, entry));
                    lemma_viewed_put(before, objects@, t, entry.1, i as int, |w: Vec<(String, Object)>| object_map(w@));
                    assert forall|k: int| 0 <= k < objects@.len() implies object_table_ok(#[trigger] objects@[k].1@) && filed_under(objects@[k].0@, objects@[k].1@) by {
                        if k != i {
                            assert(objects@[k] == before[k]);
                        }
                    }
                }
            },
            None => {
                let mut table: Vec<(String, Object)> = Vec::new();
                let ghost empty = table@;
                let at = put_entry(&mut table, object.id.object_id.as_str(), copy);
                proof {
                    assert(viewed(empty, |x: Object| x@) =~= Seq::empty());
                    assert(keys_of(viewed(empty, |x: Object| x@)) =~= Seq::empty());
                    assert(object_map(empty) =~= Map::<Seq<char>, ObjectView>::empty());
                    lemma_viewed_put(empty, table@, o, c, at as int, |x: Object| x@);
                    lemma_viewed_absent(before, t, |w: Vec<(String, Object)>| object_map(w@));
                }
                let ghost tbl = table;
                let at2 = put_entry(&mut objects, object.id.typename.as_str(), table);
                proof {
                    lemma_viewed_put(before, objects@, t, tbl, at2 as int, |w: Vec<(String, Object)>| object_map(w@));
                    assert forall|k: int| 0 <= k < objects@.len() implies object_table_ok(#[trigger] objects@[k].1@) && filed_under(objects@[k].0@, objects@[k].1@) by {
                        if k < before.len() {
                            assert(objects@[k] == objects@.drop_last()[k]);
                        }
                    }
                }
            },
        }
        self.objects = objects;
        Ok(())
    }

    fn get_object(&self, typename: &str, object_id: &str) -> (r: Result<Option<Object>>)
        ensures
            r matches Ok(o) && match o {
                Some(obj) => {
                    &&& stored_object(self@.objects, typename@, object_id@) == Some(obj@)
                    &&& obj@.typename == typename@
                    &&& obj@.object_id == object_id@
                },
                None => stored_object(self@.objects, typename@, object_id@) is None,
            },
    {
        proof {
            use_type_invariant(self);
        }
        match find_key(&self.objects, typename) {
            Some(i) => {
                proof {
                    lemma_viewed_first(self.objects@, typename@, i as int, |w: Vec<(String, Object)>| object_map(w@));
                }
                let table = &self.objects[i].1;
                match find_key(table, object_id) {
                    Some(j) => {
                        proof {
                            lemma_viewed_first(table@, object_id@, j as int, |x: Object| x@);
                            assert(filed_under(self.objects@[i as int].0@, table@));
                            assert(table@[j as int].1.id.typename@ == typename@);
                        }
                        Ok(Some(table[j].1.clone()))
                    },
                    None => {
                        proof {
                            lemma_viewed_absent(table@, object_id@, |x: Object| x@);
                        }
                        Ok(None)
                    },
                }
            },
            None => {
                proof {
                    lemma_viewed_absent(self.objects@, typename@, |w: Vec<(String, Object)>| object_map(w@));
                }
                Ok(None)
            },
        }
    }

    fn delete_object(&mut self, typename: &str, object_id: &str) -> (r: Result<()>)
        ensures
            r is Ok,
            final(self)@ == with_objects(
                old(self)@,
                objects_without(old(self)@.objects, typename@, object_id@),
            ),
    {
        proof {
            use_type_invariant(&*self);
        }
        let mut objects: Vec<(String, Vec<(String, Object)>)> = Vec::new();
        std::mem::swap(&mut objects, &mut self.objects);
        let ghost before = objects@;
        match find_key(&objects, typename) {
            Some(i) => {
                proof {
                    lemma_viewed_remove(before, i as int, |w: Vec<(String, Object)>| object_map(w@));
                }
                let (name, mut table) = objects.remove(i);
                let ghost tb = table@;
                assert(object_table_ok(tb) && filed_under(typename@, tb)) by {
                    assert(tb == before[i as int].1@);
                }
                match find_key(&table, object_id) {
                    Some(j) => {
                        proof {
                            lemma_viewed_remove(tb, j as int, |x: Object| x@);
                        }
                        table.remove(j);
                        proof {
                            assert forall|k: int| 0 <= k < table@.len() implies (#[trigger] table@[k]).1.id.typename@
                                == typename@ && table@[k].1.id.object_id@ == table@[k].0@ by {
                                if k < j {
                                    assert(table@[k] == tb[k]);
                                } else {
                                    assert(table@[k] == tb[k + 1]);
                                }
                            }
                        }
                    },
                    None => {
                        proof {
                            lemma_viewed_absent(tb, object_id@, |x: Object| x@);
                            assert(object_map(tb).remove(object_id@) =~= object_map(tb));
                        }
                    },
                }
                let ghost entry = (name, table);
                objects.insert(i, (name, table));
                proof {
                    assert(objects@ =~= before.update(i as int, entry));
                    lemma_viewed_put(before, objects@, typename@, entry.1, i as int, |w: Vec<(String, Object)>| object_map(w@));
                    assert forall|k: int| 0 <= k < objects@.len() implies object_table_ok(#[trigger] objects@[k].1@) && filed_under(objects@[k].0@, objects@[k].1@) by {
                        if k != i {
                            assert(objects@[k] == before[k]);
                        }
                    }
                }
            },
            None => {
                proof {
                    lemma_viewed_absent(before, typename@, |w: Vec<(String, Object)>| object_map(w@));
                }
            },
        }
        self.objects = objects;
        Ok(())
    }

    fn list_objects(&self, typename: &str) -> (r: Result<Vec<Object>>)
        ensures
            r matches Ok(list) && {
                let m = objects_under(self@.objects, typename@);
                &&& m.dom().finite()
                &&& list@.len() == m.dom().len()
                &&& forall|i: int| #![trigger list@[i]]
                    0 <= i < list@.len() ==> m.contains_key(list@[i].id.object_id@)
                        && m[list@[i].id.object_id@] == list@[i]@
                &&& forall|i: int, j: int|
                    0 <= i < j < list@.len() ==> list@[i].id.object_id@ != list@[j].id.object_id@
            },
    {
        proof {
            use_type_invariant(self);
        }
        match find_key(&self.objects, typename) {
            Some(i) => {
                proof {
                    lemma_viewed_first(self.objects@, typename@, i as int, |w: Vec<(String, Object)>| object_map(w@));
                }
                let table = &self.objects[i].1;
                let ghost tb = table@;
                assert(object_table_ok(tb) && filed_under(self.objects@[i as int].0@, tb));
                let mut list: Vec<Object> = Vec::new();
                let mut j: usize = 0;
                while j < table.len()
                    invariant
                        j <= tb.len(),
                        tb == table@,
                        list@.len() == j,
                        forall|k: int| 0 <= k < j ==> (#[trigger] list@[k])@ == tb[k].1@,
                    decreases tb.len() - j,
                {
                    list.push(table[j].1.clone());
                    j = j + 1;
                }
                proof {
                    lemma_assoc_finite(viewed(tb, |x: Object| x@));
                    lemma_viewed_keys(tb, |x: Object| x@);
                    lemma_assoc_keys_set(viewed(tb, |x: Object| x@));
                    assert forall|k: int| 0 <= k < list@.len() implies object_map(tb).contains_key(
                        (#[trigger] list@[k]).id.object_id@,
                    ) && object_map(tb)[list@[k].id.object_id@] == list@[k]@ by {
                        lemma_table_entry(tb, k);
                    }
                    assert forall|a: int, b: int|
                        0 <= a < b < list@.len() implies list@[a].id.object_id@
                        != list@[b].id.object_id@ by {
                        assert(keys_of(viewed(tb, |x: Object| x@))[a] == tb[a].0@);
                        assert(keys_of(viewed(tb, |x: Object| x@))[b] == tb[b].0@);
                    }
                }
                Ok(list)
            },
            None => {
                proof {
                    lemma_viewed_absent(self.objects@, typename@, |w: Vec<(String, Object)>| object_map(w@));
                    assert(Map::<Seq<char>, ObjectView>::empty().dom() =~= Set::empty());
                }
                Ok(Vec::new())
            },
        }
    }

    fn object_exists(&self, typename: &str, object_id: &str) -> (r: Result<bool>)
        ensures
            r matches Ok(b) && b == stored_object(self@.objects, typename@, object_id@) is Some,
    {
        match self.get_object(typename, object_id)? {
            Some(_) => Ok(true),
            None => Ok(false),
        }
    }

    fn inspect(&self) -> (r: Result<StorageSummary>)
        ensures
            r matches Ok(s) && {
                &&& s.storage_backend@ == seq!['m', 'e', 'm', 'o', 'r', 'y']
                &&& s.total_size_bytes == 0
                &&& s.schema_count == self@.schemas.dom().len()
                &&& s.object_type_count == self@.objects.dom().len()
                &&& s.object_count == if pair_set(self@.objects).len() <= usize::MAX {
                    pair_set(self@.objects).len()
                } else {
                    usize::MAX as nat
                }
                &&& string_views(s.precomputed_queries@).no_duplicates()
                &&& string_views(s.precomputed_queries@).to_set() == self@.precomputed_queries.dom()
            },
    {
        proof {
            use_type_invariant(self);
        }
        let ghost e = type_tables(self.objects@);
        proof {
            assert forall|k: int| 0 <= k < e.len() implies (#[trigger] e[k]).1.dom().finite() by {
                lemma_assoc_finite(viewed(self.objects@[k].1@, |x: Object| x@));
            }
            lemma_pairs_count(e);
            lemma_assoc_len_distinct(viewed(self.schemas@, |s: Schema| s@));
            lemma_assoc_len_distinct(e);
        }
        let mut total: usize = 0;
        let mut saturated = false;
        let mut i: usize = 0;
        while i < self.objects.len()
            invariant
                i <= self.objects@.len(),
                e == type_tables(self.objects@),
                forall|k: int| 0 <= k < self.objects@.len() ==> object_table_ok(#[trigger] self.objects@[k].1@),
                !saturated ==> total == entry_count(e.take(i as int)),
                saturated ==> total == usize::MAX && entry_count(e) > usize::MAX,
            decreases self.objects@.len() - i,
        {
            proof {
                assert(e.take(i + 1).drop_last() =~= e.take(i as int));
                lemma_entry_count_prefix(e, i + 1);
                lemma_assoc_len_distinct(viewed(self.objects@[i as int].1@, |x: Object| x@));
                assert(e[i as int].1 == object_map(self.objects@[i as int].1@));
            }
            let n = self.objects[i].1.len();
            if !saturated {
                match total.checked_add(n) {
                    Some(t) => {
                        total = t;
                    },
                    None => {
                        total = usize::MAX;
                        saturated = true;
                    },
                }
            }
            i = i + 1;
        }
        assert(e.take(i as int) =~= e);
        proof {
            lemma_viewed_keys(self.precomputed_queries@, |q: String| q@);
            lemma_assoc_keys_set(viewed(self.precomputed_queries@, |q: String| q@));
        }
        let queries = list_keys(&self.precomputed_queries);
        let label = "memory".to_owned();
        proof {
            reveal_strlit("memory");
            assert(label@ =~= seq!['m', 'e', 'm', 'o', 'r', 'y']);
        }
        Ok(
            StorageSummary {
                storage_backend: label,
                total_size_bytes: 0,
                schema_count: self.schemas.len(),
                object_type_count: self.objects.len(),
                object_count: total,
                precomputed_queries: queries,
            },
        )
    }

    fn set_database_name(&mut self, name: &str) -> (r: Result<()>)
        ensures
            r is Ok,
            final(self)@ == (MemoryStorageView {
                database_name: if trim_spec(name@).len() == 0 {
                    default_database_name()
                } else {
                    name@
                },
                ..old(self)@
            }),
    {
        proof {
            use_type_invariant(&*self);
        }
        let trimmed = trim_text(name);
        if trimmed.as_str().is_empty() {
            self.database_name = "kelp-db".to_owned();
            proof {
                reveal_strlit("kelp-db");
                assert(self.database_name@ =~= default_database_name());
            }
        } else {
            self.database_name = name.to_owned();
        }
        Ok(())
    }

    fn database_name(&self) -> (r: Result<String>)
        ensures
            r matches Ok(n) && n@ == self@.database_name,
    {
        Ok(self.database_name.clone())
    }

    fn save_precomputed_query(&mut self, name: &str, query: &str) -> (r: Result<()>)
        ensures
            r is Ok,
            final(self)@ == (MemoryStorageView {
                precomputed_queries: old(self)@.precomputed_queries.insert(name@, query@),
                ..old(self)@
            }),
    {
        proof {
            use_type_invariant(&*self);
        }
        let mut queries: Vec<(String, String)> = Vec::new();
        std::mem::swap(&mut queries, &mut self.precomputed_queries);
        let ghost before = queries@;
        let q = query.to_owned();
        let ghost qv = q;
        let at = put_entry(&mut queries, name, q);
        proof {
            lemma_viewed_put(before, queries@, name@, qv, at as int, |x: String| x@);
        }
        self.precomputed_queries = queries;
        Ok(())
    }

    fn list_precomputed_queries(&self) -> (r: Result<Vec<String>>)
        ensures
            r matches Ok(names) && string_views(names@).no_duplicates() && string_views(
                names@,
            ).to_set() == self@.precomputed_queries.dom(),
    {
        proof {
            use_type_invariant(self);
            lemma_viewed_keys(self.precomputed_queries@, |q: String| q@);
            lemma_assoc_keys_set(viewed(self.precomputed_queries@, |q: String| q@));
        }
        let names = list_keys(&self.precomputed_queries);
        assert(string_views(names@) == key_views(self.precomputed_queries@));
        Ok(names)
    }

    fn begin_transaction(&mut self) -> (r: Result<()>)
        ensures
            old(self)@.in_transaction ==> {
                &&& r matches Err(Error::TransactionError { .. })
                &&& final(self)@ == old(self)@
            },
            !old(self)@.in_transaction ==> {
                &&& r is Ok
                &&& final(self)@ == begun(old(self)@)
            },
    {
        proof {
            use_type_invariant(&*self);
        }
        if self.in_transaction {
            return Err(
                Error::TransactionError { reason: "Transaction already in progress".to_owned() },
            );
        }
        let schemas = copy_schema_table(&self.schemas);
        let objects = copy_objects_table(&self.objects);
        proof {
            assert(keys_of(type_tables(objects@)) == keys_of(type_tables(self.objects@)));
            assert forall|k: int| 0 <= k < objects@.len() implies object_table_ok(#[trigger] objects@[k].1@) && filed_under(objects@[k].0@, objects@[k].1@) by {
                assert(object_table_ok(self.objects@[k].1@));
                assert(filed_under(self.objects@[k].0@, self.objects@[k].1@));
                assert(keys_of(viewed(objects@[k].1@, |o: Object| o@)) == keys_of(viewed(self.objects@[k].1@, |o: Object| o@)));
                assert(type_tables(objects@)[k].0 == type_tables(self.objects@)[k].0);
                assert forall|j: int| 0 <= j < objects@[k].1@.len() implies (#[trigger] objects@[k].1@[j]).1.id.typename@ == objects@[k].0@ && objects@[k].1@[j].1.id.object_id@ == objects@[k].1@[j].0@ by {
                    assert(viewed(objects@[k].1@, |o: Object| o@)[j] == viewed(self.objects@[k].1@, |o: Object| o@)[j]);
                    assert(self.objects@[k].1@[j].1.id.typename@ == self.objects@[k].0@);
                }
            }
        }
        self.transaction_snapshot = Some((schemas, objects));
        self.in_transaction = true;
        Ok(())
    }

    fn commit(&mut self) -> (r: Result<()>)
        ensures
            !old(self)@.in_transaction ==> {
                &&& r matches Err(Error::TransactionError { .. })
                &&& final(self)@ == old(self)@
            },
            old(self)@.in_transaction ==> {
                &&& r is Ok
                &&& final(self)@ == committed(old(self)@)
            },
    {
        proof {
            use_type_invariant(&*self);
        }
        if !self.in_transaction {
            return Err(Error::TransactionError { reason: "No transaction in progress".to_owned() });
        }
        self.in_transaction = false;
        self.transaction_snapshot = None;
        Ok(())
    }

    fn rollback(&mut self) -> (r: Result<()>)
        ensures
            !old(self)@.in_transaction ==> {
                &&& r matches Err(Error::TransactionError { .. })
                &&& final(self)@ == old(self)@
            },
            old(self)@.in_transaction ==> {
                &&& r is Ok
                &&& old(self)@.snapshot is Some
                &&& final(self)@ == rolled_back(old(self)@)
            },
    {
        proof {
            use_type_invariant(&*self);
        }
        if !self.in_transaction {
            return Err(Error::TransactionError { reason: "No transaction in progress".to_owned() });
        }
        self.in_transaction = false;
        let mut snapshot: Option<(Vec<(String, Schema)>, Vec<(String, Vec<(String, Object)>)>)> = None;
        std::mem::swap(&mut snapshot, &mut self.transaction_snapshot);
        if let Some((schemas, objects)) = snapshot {
            self.schemas = schemas;
            self.objects = objects;
        }
        Ok(())
    }
}

/// The objects after deleting one: its type's table loses the id, and a
/// type never stored stays so.
pub open spec fn objects_without(
    m: Map<Seq<char>, Map<Seq<char>, ObjectView>>,
    t: Seq<char>,
    o: Seq<char>,
) -> Map<Seq<char>, Map<Seq<char>, ObjectView>> {
    if m.contains_key(t) {
        m.insert(t, m[t].remove(o))
    } else {
        m
    }
}

/// What a read gives back of a write: after an object is put, reading its
/// type and id gives that object; after the object under a type and id is
/// deleted, reading it gives nothing; and neither changes what any other
/// type and id read as.
pub proof fn lemma_read_after_write(
    m: Map<Seq<char>, Map<Seq<char>, ObjectView>>,
    obj: ObjectView,
    t: Seq<char>,
    o: Seq<char>,
    t2: Seq<char>,
    o2: Seq<char>,
)
    ensures
        stored_object(
            m.insert(obj.typename, objects_under(m, obj.typename).insert(obj.object_id, obj)),
            obj.typename,
            obj.object_id,
        ) == Some(obj),
        !(t2 == obj.typename && o2 == obj.object_id) ==> stored_object(
            m.insert(obj.typename, objects_under(m, obj.typename).insert(obj.object_id, obj)),
            t2,
            o2,
        ) == stored_object(m, t2, o2),
        stored_object(objects_without(m, t, o), t, o) is None,
        !(t2 == t && o2 == o) ==> stored_object(objects_without(m, t, o), t2, o2) == stored_object(
            m,
            t2,
            o2,
        ),
{
}

/// A rollback undoes every change of schemas and objects made since the
/// transaction began: whatever the schemas and objects became, rolling back
/// gives back those of the moment the transaction began, with no
/// transaction open. Names and saved queries are not part of a transaction.
pub proof fn lemma_rollback_restores(
    start: MemoryStorageView,
    schemas: Map<Seq<char>, SchemaView>,
    objects: Map<Seq<char>, Map<Seq<char>, ObjectView>>,
)
    ensures
        rolled_back(with_objects(with_schemas(begun(start), schemas), objects)) == committed(
            start,
        ),
{
}

/// A commit keeps every change of schemas and objects made since the
/// transaction began.
pub proof fn lemma_commit_keeps(
    start: MemoryStorageView,
    schemas: Map<Seq<char>, SchemaView>,
    objects: Map<Seq<char>, Map<Seq<char>, ObjectView>>,
)
    ensures
        committed(with_objects(with_schemas(begun(start), schemas), objects)) == committed(
            with_objects(with_schemas(start, schemas), objects),
        ),
{
}

/// What a memory storage answers for the objects of a type is every object
/// it holds of that type, each once and as stored: an id is listed exactly
/// when the storage holds an object of the type under it, and the number
/// listed is the number it holds.
pub proof fn lemma_memory_lists_every_object(m: MemoryStorage, t: Seq<char>, v: Seq<Object>)
    requires
        m.lists(t, v),
    ensures
        v.len() == objects_under(m@.objects, t).dom().len(),
        forall|id: Seq<char>|
            #[trigger] objects_under(m@.objects, t).contains_key(id) <==> exists|i: int|
                0 <= i < v.len() && v[i].id.object_id@ == id,
        forall|i: int|
            0 <= i < v.len() ==> objects_under(m@.objects, t)[(#[trigger] v[i]).id.object_id@] == v[i]@,
{
    let under = objects_under(m@.objects, t);
    let ids = v.map_values(|o: Object| o.id.object_id@);
    assert forall|a: int, b: int| 0 <= a < ids.len() && 0 <= b < ids.len() && a != b implies ids[a]
        != ids[b] by {
        if a < b {
            assert(v[a].id.object_id@ != v[b].id.object_id@);
        } else {
            assert(v[b].id.object_id@ != v[a].id.object_id@);
        }
    }
    ids.unique_seq_to_set();
    assert forall|id: Seq<char>| ids.to_set().contains(id) implies under.dom().contains(id) by {
        let i = choose|i: int| 0 <= i < ids.len() && ids[i] == id;
        assert(under.contains_key(v[i].id.object_id@));
    }
    vstd::set_lib::lemma_subset_equality(ids.to_set(), under.dom());
    assert forall|id: Seq<char>| #[trigger] under.contains_key(id) <==> exists|i: int|
        0 <= i < v.len() && v[i].id.object_id@ == id by {
        if under.contains_key(id) {
            assert(ids.to_set().contains(id));
            let i = choose|i: int| 0 <= i < ids.len() && ids[i] == id;
            assert(v[i].id.object_id@ == id);
        }
        if exists|i: int| 0 <= i < v.len() && v[i].id.object_id@ == id {
            let i = choose|i: int| 0 <= i < v.len() && v[i].id.object_id@ == id;
            assert(ids[i] == id);
        }
    }
}

/// What a memory storage answers for its summary counts its schemas and
/// its object types as it holds them.
pub proof fn lemma_memory_summary_counts(m: MemoryStorage, s: StorageSummary)
    requires
        m.summarizes(s),
    ensures
        s.schema_count == m@.schemas.dom().len(),
        s.object_type_count == m@.objects.dom().len(),
{
}

} // verus!

