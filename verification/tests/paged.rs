use kelp_db::error::{Error, Result};
use kelp_db::object::{Object, ObjectId};
use kelp_db::schema::{FieldDef, FieldType, Schema};
use kelp_db::storage::location_index::ObjectLocationIndex;
use kelp_db::storage::page::{Page, PageId, PageType, RecordLocation, SlotId, PAGE_SIZE};
use kelp_db::storage::page_manager::{PageManager, PageStorage};
use kelp_db::storage::paged_storage::{
    decode_record, index_from_entries, location_entries, replay_change, LogPayload, PagedFiles,
    PagedStorage,
};
use kelp_db::storage::wal::{committed_changes, parse_log_records, WalRecordType};
use kelp_db::storage::{MemoryStorage, StorageBackend, StorageSummary};
use kelp_db::value::Value;
use std::collections::HashMap;
use std::sync::{Arc, Mutex};

/// Pages kept in memory, shared by every storage opened over them.
#[derive(Clone)]
struct SharedPages {
    pages: Arc<Mutex<(HashMap<u32, Page>, u32)>>,
}

impl SharedPages {
    fn new() -> Self {
        Self { pages: Arc::new(Mutex::new((HashMap::new(), 1))) }
    }
}

impl PageStorage for SharedPages {
    fn read_page(&self, page_id: PageId) -> Result<Page> {
        let guard = self.pages.lock().unwrap();
        guard
            .0
            .get(&page_id.0)
            .cloned()
            .ok_or(Error::StorageError { reason: format!("Page not found: {}", page_id.0) })
    }

    fn write_page(&mut self, page: &Page) -> Result<()> {
        self.pages.lock().unwrap().0.insert(page.page_id.0, page.clone());
        Ok(())
    }

    fn allocate_page(&mut self, page_type: PageType) -> Result<PageId> {
        let mut guard = self.pages.lock().unwrap();
        let id = PageId::new(guard.1);
        guard.1 += 1;
        guard.0.insert(id.0, Page::new(id, page_type));
        Ok(id)
    }

    fn free_page(&mut self, page_id: PageId) -> Result<()> {
        self.pages.lock().unwrap().0.remove(&page_id.0);
        Ok(())
    }

    fn sync(&mut self) -> Result<()> {
        Ok(())
    }

    fn size(&self) -> Result<u64> {
        let guard = self.pages.lock().unwrap();
        Ok((guard.0.len() as u64 + 1) * (PAGE_SIZE as u64))
    }
}

/// A log and a location list kept in memory, shared across reopenings.
#[derive(Clone)]
struct SharedFiles {
    state: Arc<Mutex<(Vec<u8>, Vec<(String, String, u32, u16)>)>>,
}

impl SharedFiles {
    fn new() -> Self {
        Self { state: Arc::new(Mutex::new((Vec::new(), Vec::new()))) }
    }

    fn log(&self) -> Vec<u8> {
        self.state.lock().unwrap().0.clone()
    }

    fn locations(&self) -> Vec<(String, String, u32, u16)> {
        self.state.lock().unwrap().1.clone()
    }
}

impl PagedFiles for SharedFiles {
    fn append_log(&mut self, bytes: &[u8]) -> Result<()> {
        self.state.lock().unwrap().0.extend_from_slice(bytes);
        Ok(())
    }

    fn save_locations(&mut self, entries: &[(String, String, u32, u16)]) -> Result<()> {
        self.state.lock().unwrap().1 = entries.to_vec();
        Ok(())
    }

    fn encode_payload(&self, payload: &LogPayload) -> Result<Vec<u8>> {
        let text = format!("{}\n{}\n{}\n{}", payload.op, payload.typename, payload.object_id, payload.data);
        Ok(text.into_bytes())
    }
}

fn decode_payload(bytes: &[u8]) -> Option<LogPayload> {
    let text = String::from_utf8(bytes.to_vec()).ok()?;
    let parts: Vec<&str> = text.split('\n').collect();
    if parts.len() != 4 {
        return None;
    }
    Some(LogPayload {
        op: parts[0].to_string(),
        typename: parts[1].to_string(),
        object_id: parts[2].to_string(),
        data: parts[3].to_string(),
    })
}

/// Schemas kept in memory, shared across reopenings.
#[derive(Clone)]
struct SharedLocal {
    inner: Arc<Mutex<MemoryStorage>>,
}

impl SharedLocal {
    fn new() -> Self {
        Self { inner: Arc::new(Mutex::new(MemoryStorage::new())) }
    }
}

impl StorageBackend for SharedLocal {
    fn put_schema(&mut self, schema: &Schema) -> Result<()> {
        self.inner.lock().unwrap().put_schema(schema)
    }
    fn get_schema(&self, name: &str) -> Result<Option<Schema>> {
        self.inner.lock().unwrap().get_schema(name)
    }
    fn list_schemas(&self) -> Result<Vec<String>> {
        self.inner.lock().unwrap().list_schemas()
    }
    fn put_object(&mut self, object: &Object) -> Result<()> {
        self.inner.lock().unwrap().put_object(object)
    }
    fn get_object(&self, typename: &str, object_id: &str) -> Result<Option<Object>> {
        self.inner.lock().unwrap().get_object(typename, object_id)
    }
    fn delete_object(&mut self, typename: &str, object_id: &str) -> Result<()> {
        self.inner.lock().unwrap().delete_object(typename, object_id)
    }
    fn list_objects(&self, typename: &str) -> Result<Vec<Object>> {
        self.inner.lock().unwrap().list_objects(typename)
    }
    fn object_exists(&self, typename: &str, object_id: &str) -> Result<bool> {
        self.inner.lock().unwrap().object_exists(typename, object_id)
    }
    fn inspect(&self) -> Result<StorageSummary> {
        self.inner.lock().unwrap().inspect()
    }
    fn set_database_name(&mut self, name: &str) -> Result<()> {
        self.inner.lock().unwrap().set_database_name(name)
    }
    fn database_name(&self) -> Result<String> {
        self.inner.lock().unwrap().database_name()
    }
    fn save_precomputed_query(&mut self, name: &str, query: &str) -> Result<()> {
        self.inner.lock().unwrap().save_precomputed_query(name, query)
    }
    fn list_precomputed_queries(&self) -> Result<Vec<String>> {
        self.inner.lock().unwrap().list_precomputed_queries()
    }
    fn begin_transaction(&mut self) -> Result<()> {
        self.inner.lock().unwrap().begin_transaction()
    }
    fn commit(&mut self) -> Result<()> {
        self.inner.lock().unwrap().commit()
    }
    fn rollback(&mut self) -> Result<()> {
        self.inner.lock().unwrap().rollback()
    }
}

/// Everything a paged database keeps, shared so that it can be reopened.
struct Disk {
    local: SharedLocal,
    pages: SharedPages,
    files: SharedFiles,
}

impl Disk {
    fn new() -> Self {
        Self { local: SharedLocal::new(), pages: SharedPages::new(), files: SharedFiles::new() }
    }

    fn replay(&self) -> Vec<(WalRecordType, Option<LogPayload>)> {
        let records = parse_log_records(&self.files.log());
        committed_changes(&records).into_iter().map(|r| (r.record_type, decode_payload(&r.payload))).collect()
    }

    fn open(&self) -> PagedStorage {
        PagedStorage::new(
            Box::new(self.local.clone()),
            Box::new(self.files.clone()),
            PageManager::new(Box::new(self.pages.clone())),
            self.files.locations(),
            Some(self.replay()),
        )
        .unwrap()
    }
}

#[test]
fn smoke_create_and_get() {
    let disk = Disk::new();
    let mut s = disk.open();

    let schema = Schema::new("User").add_field(FieldDef::new("id", FieldType::String));
    s.put_schema(&schema).unwrap();

    let mut obj = Object::new("User", "u1");
    obj.set_field("id", Value::String("u1".to_string()));
    s.put_object(&obj).unwrap();

    let got = s.get_object("User", "u1").unwrap();
    assert!(got.is_some());
}

#[test]
fn restart_replays_wal_insert_update_delete() {
    let disk = Disk::new();

    {
        let mut s = disk.open();
        let schema = Schema::new("Note")
            .add_field(FieldDef::new("id", FieldType::String))
            .add_field(FieldDef::new("text", FieldType::String));
        s.put_schema(&schema).unwrap();

        let mut n = Object::new("Note", "n1");
        n.set_field("id", Value::String("n1".to_string()));
        n.set_field("text", Value::String("first".to_string()));
        s.put_object(&n).unwrap();

        n.set_field("text", Value::String("updated".to_string()));
        s.put_object(&n).unwrap();

        s.delete_object("Note", "n1").unwrap();
    }

    {
        let s2 = disk.open();
        let got = s2.get_object("Note", "n1").unwrap();
        assert!(got.is_none());
    }
}

#[test]
fn restart_persists_insert() {
    let disk = Disk::new();
    {
        let mut s = disk.open();
        let schema = Schema::new("Task")
            .add_field(FieldDef::new("id", FieldType::String))
            .add_field(FieldDef::new("title", FieldType::String));
        s.put_schema(&schema).unwrap();

        let mut t = Object::new("Task", "t1");
        t.set_field("id", Value::String("t1".to_string()));
        t.set_field("title", Value::String("task".to_string()));
        s.put_object(&t).unwrap();
    }

    {
        let s2 = disk.open();
        let got = s2.get_object("Task", "t1").unwrap();
        assert!(got.is_some());
        let obj = got.unwrap();
        assert_eq!(obj.get_field("title").unwrap(), &Value::String("task".to_string()));
    }
}

fn note_schema() -> Schema {
    Schema::new("Note")
        .add_field(FieldDef::new("id", FieldType::String))
        .add_field(FieldDef::new("text", FieldType::String))
}

fn note(id: &str, text: &str) -> Object {
    let mut n = Object::new("Note", id);
    n.set_field("id", Value::String(id.to_string()));
    n.set_field("text", Value::String(text.to_string()));
    n
}

#[test]
fn paged_put_without_schema_is_type_not_found() {
    let disk = Disk::new();
    let mut s = disk.open();
    let err = s.put_object(&note("n1", "x")).unwrap_err();
    assert!(matches!(err, Error::TypeNotFound { ref typename } if typename == "Note"));
    assert_eq!(s.object_exists("Note", "n1").unwrap(), false);
}

#[test]
fn paged_update_in_place_keeps_location_and_reads_new_value() {
    let disk = Disk::new();
    let mut s = disk.open();
    s.put_schema(&note_schema()).unwrap();
    s.put_object(&note("n1", "long text here")).unwrap();
    let before = disk.files.locations();
    s.put_object(&note("n1", "short")).unwrap();
    let after = disk.files.locations();
    assert_eq!(before, after);
    let got = s.get_object("Note", "n1").unwrap().unwrap();
    assert_eq!(got.get_field("text").unwrap(), &Value::String("short".to_string()));
}

#[test]
fn paged_update_that_grows_moves_the_record() {
    let disk = Disk::new();
    let mut s = disk.open();
    s.put_schema(&note_schema()).unwrap();
    s.put_object(&note("n1", "a")).unwrap();
    let before = disk.files.locations();
    s.put_object(&note("n1", "a much longer text than before")).unwrap();
    let after = disk.files.locations();
    assert_eq!(after.len(), 1);
    assert_ne!(before[0].3, after[0].3);
    let got = s.get_object("Note", "n1").unwrap().unwrap();
    assert_eq!(got.get_field("text").unwrap(), &Value::String("a much longer text than before".to_string()));
}

#[test]
fn paged_delete_missing_object_is_not_found() {
    let disk = Disk::new();
    let mut s = disk.open();
    let err = s.delete_object("Note", "nope").unwrap_err();
    assert!(matches!(err, Error::ObjectNotFound { ref typename, ref object_id } if typename == "Note" && object_id == "nope"));
}

#[test]
fn paged_exists_after_put_and_not_after_delete() {
    let disk = Disk::new();
    let mut s = disk.open();
    s.put_schema(&note_schema()).unwrap();
    s.put_object(&note("n1", "x")).unwrap();
    s.put_object(&note("n2", "y")).unwrap();
    assert!(s.object_exists("Note", "n1").unwrap());
    s.delete_object("Note", "n1").unwrap();
    assert!(!s.object_exists("Note", "n1").unwrap());
    assert!(s.object_exists("Note", "n2").unwrap());
    assert_eq!(s.list_objects("Note").unwrap().len(), 1);
}

#[test]
fn paged_inspect_counts_types_and_objects() {
    let disk = Disk::new();
    let mut s = disk.open();
    s.put_schema(&note_schema()).unwrap();
    s.put_object(&note("n1", "x")).unwrap();
    s.put_object(&note("n2", "y")).unwrap();
    let summary = s.inspect().unwrap();
    assert_eq!(summary.storage_backend, "paged-storage");
    assert_eq!(summary.object_type_count, 1);
    assert_eq!(summary.object_count, 2);
    assert_eq!(summary.schema_count, 1);
}

#[test]
fn paged_transactions() {
    let disk = Disk::new();
    let mut s = disk.open();
    assert!(matches!(s.commit(), Err(Error::TransactionError { .. })));
    s.begin_transaction().unwrap();
    assert!(matches!(s.begin_transaction(), Err(Error::TransactionError { .. })));
    s.commit().unwrap();
    s.begin_transaction().unwrap();
    assert!(matches!(s.rollback(), Err(Error::TransactionError { .. })));
    assert!(matches!(s.rollback(), Err(Error::TransactionError { .. })));
    s.begin_transaction().unwrap();
}

#[test]
fn uncommitted_transaction_is_not_replayed() {
    let disk = Disk::new();
    {
        let mut s = disk.open();
        s.put_schema(&note_schema()).unwrap();
        s.begin_transaction().unwrap();
        s.put_object(&note("n1", "x")).unwrap();
    }
    // the index entry was persisted, but drop it to see what replay alone gives
    disk.files.state.lock().unwrap().1.clear();
    let s2 = disk.open();
    assert!(!s2.object_exists("Note", "n1").unwrap());
}

#[test]
fn location_entries_reload_to_same_locations() {
    let mut index = ObjectLocationIndex::new();
    index.insert(&ObjectId::new("User", "u1"), RecordLocation::new(PageId::new(1), SlotId::new(0)));
    index.insert(&ObjectId::new("User", "u2"), RecordLocation::new(PageId::new(1), SlotId::new(1)));
    index.insert(&ObjectId::new("Post", "p1"), RecordLocation::new(PageId::new(2), SlotId::new(0)));
    let entries = location_entries(&index);
    assert_eq!(entries.len(), 3);
    let back = index_from_entries(&entries);
    assert_eq!(back.get(&ObjectId::new("User", "u1")), Some(RecordLocation::new(PageId::new(1), SlotId::new(0))));
    assert_eq!(back.get(&ObjectId::new("User", "u2")), Some(RecordLocation::new(PageId::new(1), SlotId::new(1))));
    assert_eq!(back.get(&ObjectId::new("Post", "p1")), Some(RecordLocation::new(PageId::new(2), SlotId::new(0))));
    assert_eq!(back.get(&ObjectId::new("Post", "p2")), None);
}

#[test]
fn index_from_entries_later_entry_wins() {
    let entries = vec![
        ("User".to_string(), "u1".to_string(), 1u32, 0u16),
        ("User".to_string(), "u1".to_string(), 3u32, 2u16),
    ];
    let index = index_from_entries(&entries);
    assert_eq!(index.get(&ObjectId::new("User", "u1")), Some(RecordLocation::new(PageId::new(3), SlotId::new(2))));
    assert_eq!(index.total_objects(), 1);
}

#[test]
fn replay_change_insert_update_delete() {
    let mut pm = PageManager::new(Box::new(SharedPages::new()));
    let mut index = ObjectLocationIndex::new();
    let id = ObjectId::new("Note", "n1");
    replay_change(&mut pm, &mut index, WalRecordType::Insert, &id, b"first").unwrap();
    let first = index.get(&id).unwrap();
    // a second insert of a placed object changes nothing
    replay_change(&mut pm, &mut index, WalRecordType::Insert, &id, b"again").unwrap();
    assert_eq!(index.get(&id), Some(first));
    replay_change(&mut pm, &mut index, WalRecordType::Update, &id, b"second").unwrap();
    let second = index.get(&id).unwrap();
    assert_ne!(first, second);
    replay_change(&mut pm, &mut index, WalRecordType::Commit, &id, b"").unwrap();
    assert_eq!(index.get(&id), Some(second));
    replay_change(&mut pm, &mut index, WalRecordType::Delete, &id, b"").unwrap();
    assert_eq!(index.get(&id), None);
}

#[test]
fn put_under_a_missing_or_failed_schema_lookup() {
    let disk = Disk::new();
    let mut s = disk.open();
    let err = s.put_object_under(&note("n1", "x"), Ok(None)).unwrap_err();
    assert!(matches!(err, Error::TypeNotFound { ref typename } if typename == "Note"));
    let err = s
        .put_object_under(&note("n1", "x"), Err(Error::StorageError { reason: "down".to_string() }))
        .unwrap_err();
    assert!(matches!(err, Error::StorageError { ref reason } if reason == "down"));
    assert!(!s.object_exists("Note", "n1").unwrap());
    s.put_object_under(&note("n1", "x"), Ok(Some(note_schema()))).unwrap();
    assert!(s.object_exists("Note", "n1").unwrap());
}

#[test]
fn writes_are_logged_before_pages_change() {
    let disk = Disk::new();
    let mut s = disk.open();
    s.put_schema(&note_schema()).unwrap();
    s.put_object(&note("n1", "x")).unwrap();
    let records = parse_log_records(&disk.files.log());
    let kinds: Vec<WalRecordType> = records.iter().map(|r| r.record_type).collect();
    assert_eq!(kinds, vec![WalRecordType::Begin, WalRecordType::Insert, WalRecordType::Commit]);
    let payload = decode_payload(&records[1].payload).unwrap();
    assert_eq!(payload.op, "insert");
    assert_eq!(payload.typename, "Note");
    assert_eq!(payload.object_id, "n1");
    assert!(!payload.data.is_empty());
    s.delete_object("Note", "n1").unwrap();
    let records = parse_log_records(&disk.files.log());
    assert_eq!(records.len(), 6);
    assert_eq!(records[4].record_type, WalRecordType::Delete);
    assert_eq!(decode_payload(&records[4].payload).unwrap().op, "delete");
}

#[test]
fn stored_records_decode_under_their_schema() {
    let schema = note_schema();
    let obj = note("n1", "hello");
    let bytes = kelp_db::storage::binary_codec::BinaryEncoder::encode_object(&obj, &schema).unwrap();
    let back = decode_record("Note", &bytes, Ok(Some(schema))).unwrap();
    assert_eq!(back.get_field("text"), Some(&Value::String("hello".to_string())));
    assert!(matches!(decode_record("Note", &bytes, Ok(None)), Err(Error::TypeNotFound { .. })));
}
