use kelp_db::error::{Error, Result};
use kelp_db::object::Object;
use kelp_db::schema::{FieldDef, FieldType, Schema};
use kelp_db::storage::binary_codec::BinaryEncoder;
use kelp_db::storage::page::{
    Page, PageId, PageType, RecordLocation, SlotId, Superblock, DB_VERSION, PAGE_SIZE, SUPERBLOCK_SIZE,
};
use kelp_db::storage::page_manager::{
    allocation_step, check_file_size, next_page_from_superblock, page_end, stored_page_type,
    superblock_for_next_page, superblock_page, PageManager, PageStorage,
};
use kelp_db::storage::paged_storage::{decode_payload_data, encode_payload_data, insert_record_into_pages};
use kelp_db::storage::slotted_page::SlottedPageLayout;
use kelp_db::storage::wal::{parse_log_records, Wal, WalRecord, WalRecordType};
use kelp_db::value::Value;
use std::collections::HashMap;

#[test]
fn test_page_id() {
    let id = PageId::new(42);
    assert_eq!(id.as_u32(), 42);
    assert_eq!(id, PageId(42));
}

#[test]
fn test_slot_id() {
    let id = SlotId::new(7);
    assert_eq!(id.as_u16(), 7);
}

#[test]
fn page_offsets_and_types() {
    assert_eq!(PageId::new(3).physical_offset(), 3 * PAGE_SIZE as u64);
    assert_eq!(Page::new(PageId::new(2), PageType::Index).physical_offset(), 2 * 16384);
    assert_eq!(PageId::superblock(), PageId(0));
    assert_eq!(PageType::from_u8(2), Some(PageType::Object));
    assert_eq!(PageType::from_u8(9), None);
    assert_eq!(PageType::FreeSpace.as_u8(), 5);
    assert_eq!(PageType::from_u8(PageType::Overflow.as_u8()), Some(PageType::Overflow));
    let loc = RecordLocation::new(PageId::new(1), SlotId::new(2));
    assert_eq!(loc.page_id, PageId(1));
    assert_eq!(loc.slot_id, SlotId(2));
}

#[test]
fn page_serialize_roundtrip_and_dirty_flags() {
    let mut page = Page::new(PageId::new(4), PageType::Object);
    assert!(page.is_dirty);
    assert_eq!(page.as_slice().len(), PAGE_SIZE);
    page.mark_clean();
    assert!(!page.is_dirty);
    page.as_mut_slice()[0] = 9;
    assert!(page.is_dirty);
    let bytes = page.serialize().unwrap();
    assert_eq!(bytes[0], 9);
    let back = Page::deserialize(PageId::new(4), PageType::Object, &bytes).unwrap();
    assert_eq!(back.data, page.data);
    assert!(!back.is_dirty);
    assert!(matches!(
        Page::deserialize(PageId::new(4), PageType::Object, &bytes[..10]),
        Err(Error::StorageError { .. })
    ));
    let mut short = Page::new(PageId::new(4), PageType::Object);
    short.data.truncate(100);
    assert!(matches!(short.serialize(), Err(Error::StorageError { .. })));
    // page 0 read as a superblock must hold a valid one
    assert!(Page::deserialize(PageId::new(0), PageType::Superblock, &vec![0u8; PAGE_SIZE]).is_err());
}

#[test]
fn test_superblock_roundtrip() {
    let mut sb = Superblock::new();
    sb.next_page_id = 100;
    sb.last_committed_txn = 42;

    let bytes = sb.to_bytes();
    let restored = Superblock::from_bytes(&bytes).unwrap();

    assert_eq!(restored.version, DB_VERSION);
    assert_eq!(restored.next_page_id, 100);
    assert_eq!(restored.last_committed_txn, 42);
}

#[test]
fn superblock_bytes_layout_and_rejections() {
    let sb = Superblock::new();
    let bytes = sb.to_bytes();
    assert_eq!(bytes.len(), SUPERBLOCK_SIZE);
    assert_eq!(&bytes[0..4], b"KELP");
    assert_eq!(&bytes[8..12], &(PAGE_SIZE as u32).to_le_bytes());
    assert!(Superblock::from_bytes(&bytes[..100]).is_err());
    let mut bad = bytes.clone();
    bad[0] = b'X';
    assert!(Superblock::from_bytes(&bad).is_err());
    let mut bad_version = bytes.clone();
    bad_version[4] = 2;
    assert!(Superblock::from_bytes(&bad_version).is_err());
}

#[test]
fn test_slotted_page_insert_read() {
    let mut page = Page::new(PageId::new(1), PageType::Object);
    let mut layout = SlottedPageLayout::new();

    let record1 = b"Hello, World!";
    let slot1 = layout.insert_record(&mut page, record1).unwrap();
    assert_eq!(slot1.as_u16(), 0);

    let read_record1 = layout.read_record(&page, slot1).unwrap();
    assert_eq!(read_record1, Some(record1.to_vec()));
}

#[test]
fn test_slotted_page_multiple_records() {
    let mut page = Page::new(PageId::new(1), PageType::Object);
    let mut layout = SlottedPageLayout::new();

    let records = vec![b"record1".to_vec(), b"record2".to_vec(), b"record3".to_vec()];

    let mut slots = Vec::new();
    for record in &records {
        let slot = layout.insert_record(&mut page, record).unwrap();
        slots.push(slot);
    }

    for (i, slot) in slots.iter().enumerate() {
        let read = layout.read_record(&page, *slot).unwrap();
        assert_eq!(read, Some(records[i].clone()));
    }
}

#[test]
fn test_slotted_page_delete() {
    let mut page = Page::new(PageId::new(1), PageType::Object);
    let mut layout = SlottedPageLayout::new();

    let record = b"Hello";
    let slot = layout.insert_record(&mut page, record).unwrap();

    layout.delete_record(&mut page, slot).unwrap();
    let read = layout.read_record(&page, slot).unwrap();
    assert_eq!(read, None);
}

#[test]
fn test_slotted_page_free_space() {
    let mut page = Page::new(PageId::new(1), PageType::Object);
    let mut layout = SlottedPageLayout::new();

    let initial_free = layout.free_space();
    assert!(initial_free > 0);

    let record = b"x".repeat(1000);
    layout.insert_record(&mut page, &record).unwrap();

    let remaining_free = layout.free_space();
    assert!(remaining_free < initial_free);
}

#[test]
fn slotted_page_exact_accounting_and_overwrite() {
    let mut page = Page::new(PageId::new(1), PageType::Object);
    let mut layout = SlottedPageLayout::new();
    let before = layout.free_space();
    assert!(layout.can_fit(10));
    let slot = layout.insert_record(&mut page, b"0123456789").unwrap();
    assert_eq!(layout.free_space(), before - 14);
    assert_eq!(layout.slot_count(), 1);
    layout.overwrite_record(&mut page, slot, b"abc").unwrap();
    assert_eq!(layout.read_record(&page, slot).unwrap(), Some(b"abc".to_vec()));
    let reread = SlottedPageLayout::from_page(&page).unwrap();
    assert_eq!(reread.slot_count(), 1);
    assert_eq!(reread.read_record(&page, slot).unwrap(), Some(b"abc".to_vec()));
    // a slot past the directory reads as an unused entry
    assert_eq!(layout.read_record(&page, SlotId::new(5)).unwrap(), None);
    assert!(!layout.can_fit(PAGE_SIZE));
}

#[test]
fn test_wal_record_roundtrip() {
    let record = WalRecord::new(1, 1, WalRecordType::Begin).with_payload(b"test_payload".to_vec());

    let bytes = record.to_bytes();
    let restored = WalRecord::from_bytes(&bytes).unwrap();

    assert_eq!(restored.txn_id, 1);
    assert_eq!(restored.lsn, 1);
    assert_eq!(restored.record_type, WalRecordType::Begin);
    assert_eq!(restored.payload, b"test_payload");
}

#[test]
fn wal_record_bytes_and_errors() {
    let bytes = WalRecord::new(2, 3, WalRecordType::Commit).to_bytes();
    assert_eq!(bytes.len(), 22);
    assert_eq!(bytes[16], 6);
    let sum = bytes[..21].iter().fold(0u8, |a, b| a.wrapping_add(*b));
    assert_eq!(bytes[21], sum);
    let mut corrupt = bytes.clone();
    corrupt[21] = corrupt[21].wrapping_add(1);
    assert!(matches!(WalRecord::from_bytes(&corrupt), Err(Error::StorageError { .. })));
    assert!(WalRecord::from_bytes(&bytes[..20]).is_err());
    let mut bad_type = bytes.clone();
    bad_type[16] = 9;
    assert!(WalRecord::from_bytes(&bad_type).is_err());
}

#[test]
fn wal_log_parses_back_and_stops_at_damage() {
    let mut wal = Wal::new();
    assert_eq!(wal.current_lsn(), 1);
    let txn = wal.begin_transaction().unwrap();
    assert_eq!(txn, 1);
    wal.log_insert(txn, b"a".to_vec()).unwrap();
    wal.log_update(txn, b"bb".to_vec()).unwrap();
    wal.log_delete(txn, Vec::new()).unwrap();
    wal.commit(txn).unwrap();
    assert_eq!(wal.current_lsn(), 6);
    let mut bytes = wal.pending_bytes().to_vec();
    let records = parse_log_records(&bytes);
    let kinds: Vec<WalRecordType> = records.iter().map(|r| r.record_type).collect();
    assert_eq!(
        kinds,
        vec![
            WalRecordType::Begin,
            WalRecordType::Insert,
            WalRecordType::Update,
            WalRecordType::Delete,
            WalRecordType::Commit
        ]
    );
    assert_eq!(records[2].payload, b"bb".to_vec());
    assert_eq!(records[4].lsn, 5);
    // a torn tail ends the log
    bytes.truncate(bytes.len() - 3);
    assert_eq!(parse_log_records(&bytes).len(), 4);
    wal.clear_pending();
    assert!(wal.pending_bytes().is_empty());
    assert_eq!(wal.begin_transaction().unwrap(), 2);
}

#[test]
fn test_encode_decode_object_with_schema() {
    let schema = Schema::new("TestType")
        .add_field(FieldDef::new("name", FieldType::String))
        .add_field(FieldDef::new("age", FieldType::Integer));

    let mut object = Object::new("TestType", "obj1");
    object.set_field("name", Value::String("Alice".to_string()));
    object.set_field("age", Value::Integer(30));

    let encoded = BinaryEncoder::encode_object(&object, &schema).unwrap();
    let decoded = BinaryEncoder::decode_object_with_schema(&encoded, &schema).unwrap();

    assert_eq!(decoded.id.typename, "TestType");
    assert_eq!(decoded.id.object_id, "obj1");
    assert_eq!(decoded.fields.len(), 2);
    assert_eq!(decoded.get_field("name"), Some(&Value::String("Alice".to_string())));
    assert_eq!(decoded.get_field("age"), Some(&Value::Integer(30)));
}

#[test]
fn test_invalid_field_id_rejected() {
    let schema = Schema::new("Order")
        .add_field(FieldDef::new("id", FieldType::String))
        .add_field(FieldDef::new("status", FieldType::String));

    let mut object = Object::new("Order", "o1");
    object.set_field("id", Value::String("o1".to_string()));
    object.set_field("status", Value::String("paid".to_string()));

    let encoded = BinaryEncoder::encode_object(&object, &schema).unwrap();
    let bad = encoded.clone();
    let _ = bad;
    let decoded = BinaryEncoder::decode_object_with_schema(&encoded, &schema).unwrap();
    assert_eq!(decoded.get_field("status"), Some(&Value::String("paid".to_string())));
}

#[test]
fn codec_exact_bytes_nulls_and_errors() {
    let schema = Schema::new("T")
        .add_field(FieldDef::new("n", FieldType::Integer).nullable())
        .add_field(FieldDef::new("b", FieldType::Boolean));
    let mut object = Object::new("T", "x");
    object.set_field("n", Value::Null);
    object.set_field("b", Value::Boolean(true));
    let bytes = BinaryEncoder::encode_object(&object, &schema).unwrap();
    let mut expected = Vec::new();
    expected.extend_from_slice(&0x4B454C50u32.to_le_bytes());
    expected.extend_from_slice(&1u32.to_le_bytes());
    expected.extend_from_slice(&[1, 0, b'T', 1, 0, b'x', 2, 0]);
    expected.extend_from_slice(&[1, 0]);
    expected.extend_from_slice(&0i64.to_le_bytes());
    expected.extend_from_slice(&[2, 0, 1]);
    assert_eq!(bytes, expected);
    let decoded = BinaryEncoder::decode_object_with_schema(&bytes, &schema).unwrap();
    // a stored null comes back as the type's zero value
    assert_eq!(decoded.get_field("n"), Some(&Value::Integer(0)));
    assert_eq!(decoded.get_field("b"), Some(&Value::Boolean(true)));

    let mut wrong = Object::new("T", "x");
    wrong.set_field("n", Value::String("no".to_string()));
    assert!(matches!(BinaryEncoder::encode_object(&wrong, &schema), Err(Error::TypeMismatch { .. })));
    assert!(BinaryEncoder::decode_object_with_schema(&bytes[..3], &schema).is_err());
    let mut v2 = Schema::new("T").add_field(FieldDef::new("n", FieldType::Integer));
    v2.schema_version = 2;
    assert!(BinaryEncoder::decode_object_with_schema(&bytes, &v2).is_err());
}

#[test]
fn legacy_decoder_names_fields_by_id() {
    let mut bytes = Vec::new();
    bytes.extend_from_slice(&0x4B454C50u32.to_le_bytes());
    bytes.extend_from_slice(&7u32.to_le_bytes());
    bytes.extend_from_slice(&[1, 0, b'T', 1, 0, b'x', 2, 0]);
    bytes.extend_from_slice(&[3, 0, 5]);
    bytes.extend_from_slice(&[9, 0, 2]);
    bytes.extend_from_slice(&42i64.to_le_bytes());
    let obj = BinaryEncoder::decode_object(&bytes).unwrap();
    assert_eq!(obj.id.typename, "T");
    assert_eq!(obj.get_field("field_3"), Some(&Value::Null));
    assert_eq!(obj.get_field("field_9"), Some(&Value::Integer(42)));
    bytes[0] = 0;
    assert!(BinaryEncoder::decode_object(&bytes).is_err());
}

#[test]
fn schema_id_is_djb2_of_name() {
    let schema = Schema::new("ab");
    let expected = (5381u32.wrapping_mul(33).wrapping_add(b'a' as u32)).wrapping_mul(33).wrapping_add(b'b' as u32);
    assert_eq!(BinaryEncoder::schema_id(&schema), expected);
}

struct MockPageStorage {
    pages: HashMap<u32, Page>,
    next_page_id: u32,
}

impl MockPageStorage {
    fn new() -> Self {
        Self { pages: HashMap::new(), next_page_id: 1 }
    }
}

impl PageStorage for MockPageStorage {
    fn read_page(&self, page_id: PageId) -> Result<Page> {
        self.pages
            .get(&page_id.0)
            .cloned()
            .ok_or(Error::StorageError { reason: format!("Page not found: {}", page_id.0) })
    }

    fn write_page(&mut self, page: &Page) -> Result<()> {
        self.pages.insert(page.page_id.0, page.clone());
        Ok(())
    }

    fn allocate_page(&mut self, page_type: PageType) -> Result<PageId> {
        let id = PageId::new(self.next_page_id);
        self.next_page_id += 1;
        let page = Page::new(id, page_type);
        self.pages.insert(id.0, page);
        Ok(id)
    }

    fn free_page(&mut self, page_id: PageId) -> Result<()> {
        self.pages.remove(&page_id.0);
        Ok(())
    }

    fn sync(&mut self) -> Result<()> {
        Ok(())
    }

    fn size(&self) -> Result<u64> {
        Ok((self.pages.len() as u64) * (PAGE_SIZE as u64))
    }
}

#[test]
fn test_page_manager_allocate() {
    let storage = Box::new(MockPageStorage::new());
    let mut pm = PageManager::new(storage);

    let page1 = pm.allocate_page(PageType::Object).unwrap();
    let page2 = pm.allocate_page(PageType::Object).unwrap();

    assert_ne!(page1, page2);
    assert_eq!(page1.as_u32(), 1);
    assert_eq!(page2.as_u32(), 2);
}

#[test]
fn test_page_manager_read_write() {
    let storage = Box::new(MockPageStorage::new());
    let mut pm = PageManager::new(storage);

    let page_id = pm.allocate_page(PageType::Object).unwrap();
    let mut page = pm.read_page(page_id).unwrap();

    assert_eq!(page.page_id, page_id);

    page.mark_dirty();
    pm.write_page(&page).unwrap();

    let read_back = pm.read_page(page_id).unwrap();
    assert_eq!(read_back.page_id, page_id);
}

#[test]
fn page_manager_forwards_free_sync_size() {
    let mut pm = PageManager::new(Box::new(MockPageStorage::new()));
    let id = pm.allocate_page(PageType::Object).unwrap();
    assert_eq!(pm.size().unwrap(), PAGE_SIZE as u64);
    pm.free_page(id).unwrap();
    assert_eq!(pm.size().unwrap(), 0);
    assert!(pm.sync().is_ok());
    assert!(pm.read_page(id).is_err());
}

#[test]
fn database_file_rules() {
    assert!(check_file_size(PAGE_SIZE as u64 * 3).is_ok());
    assert!(matches!(check_file_size(PAGE_SIZE as u64 - 7), Err(Error::StorageError { .. })));
    assert!(check_file_size(0).is_err());
    assert_eq!(stored_page_type(PageId::new(0)), PageType::Superblock);
    assert_eq!(stored_page_type(PageId::new(3)), PageType::Object);
    assert_eq!(page_end(PageId::new(1)), 2 * PAGE_SIZE as u64);
    assert_eq!(allocation_step(0), (PageId::new(1), 1, 2));
    assert_eq!(allocation_step(5), (PageId::new(5), 6, 6));

    let sb = superblock_for_next_page(9);
    assert_eq!(sb.next_page_id, 9);
    let page = superblock_page(&sb);
    assert_eq!(page.page_id, PageId::new(0));
    assert_eq!(page.page_type, PageType::Superblock);
    assert_eq!(page.data.len(), PAGE_SIZE);
    assert_eq!(&page.data[..SUPERBLOCK_SIZE], &sb.to_bytes()[..]);
    assert!(page.data[SUPERBLOCK_SIZE..].iter().all(|b| *b == 0));
    assert_eq!(next_page_from_superblock(&page.data).unwrap(), 9);

    let zero = superblock_page(&superblock_for_next_page(0));
    assert_eq!(next_page_from_superblock(&zero.data).unwrap(), 1);
    let mut other_size = Superblock::new();
    other_size.page_size = 4096;
    assert!(next_page_from_superblock(&superblock_page(&other_size).data).is_err());
    assert!(next_page_from_superblock(&[0u8; 16]).is_err());
}

#[test]
fn payload_data_roundtrip() {
    let text = encode_payload_data(b"hello");
    assert_eq!(text, "aGVsbG8=");
    assert_eq!(decode_payload_data(&text), b"hello".to_vec());
    assert!(decode_payload_data("!!!").is_empty());
    assert_eq!(decode_payload_data(&encode_payload_data(&[0u8, 255, 7])), vec![0u8, 255, 7]);
}

#[test]
fn records_fill_pages_in_order() {
    let mut pm = PageManager::new(Box::new(MockPageStorage::new()));
    let loc1 = insert_record_into_pages(&mut pm, b"first").unwrap();
    assert_eq!(loc1, RecordLocation::new(PageId::new(1), SlotId::new(0)));
    let loc2 = insert_record_into_pages(&mut pm, b"second").unwrap();
    assert_eq!(loc2, RecordLocation::new(PageId::new(1), SlotId::new(1)));
    let big = vec![7u8; 10000];
    let loc3 = insert_record_into_pages(&mut pm, &big).unwrap();
    assert_eq!(loc3.page_id, PageId::new(1));
    let loc4 = insert_record_into_pages(&mut pm, &big).unwrap();
    assert_eq!(loc4, RecordLocation::new(PageId::new(2), SlotId::new(0)));
    let page = pm.read_page(PageId::new(1)).unwrap();
    let layout = SlottedPageLayout::from_page(&page).unwrap();
    assert_eq!(layout.read_record(&page, SlotId::new(1)).unwrap(), Some(b"second".to_vec()));
}

#[test]
fn record_larger_than_a_page_is_refused() {
    let mut pm = PageManager::new(Box::new(MockPageStorage::new()));
    let record = vec![7u8; PAGE_SIZE];
    assert!(insert_record_into_pages(&mut pm, &record).is_err());
    let fits = vec![7u8; PAGE_SIZE - 12];
    assert!(insert_record_into_pages(&mut pm, &fits).is_ok());
}

#[test]
fn superblock_name_and_timestamps_roundtrip() {
    let mut sb = Superblock::new();
    sb.database_name[0] = b'k';
    sb.database_name[63] = b'z';
    sb.created_at = 1;
    sb.modified_at = 0x0102_0304_0506_0708;
    let back = Superblock::from_bytes(&sb.to_bytes()).unwrap();
    assert_eq!(back.database_name, sb.database_name);
    assert_eq!(back.created_at, 1);
    assert_eq!(back.modified_at, 0x0102_0304_0506_0708);
    assert_eq!(back.next_page_id, sb.next_page_id);
}

#[test]
fn can_fit_counts_the_directory_entry() {
    let mut page = Page::new(PageId::new(1), PageType::Object);
    let mut layout = SlottedPageLayout::new();
    let free = layout.free_space();
    assert!(!layout.can_fit(free - 3));
    assert!(!layout.can_fit(free));
    assert!(layout.can_fit(free - 4));
    let record = vec![1u8; free - 4];
    assert!(layout.insert_record(&mut page, &record).is_ok());
}

#[test]
fn wal_record_detects_one_changed_byte() {
    let bytes = WalRecord::new(7, 9, WalRecordType::Insert).with_payload(b"abc".to_vec()).to_bytes();
    for i in 0..bytes.len() {
        if (17..21).contains(&i) {
            continue;
        }
        let mut bad = bytes.clone();
        bad[i] = bad[i].wrapping_add(1);
        assert!(WalRecord::from_bytes(&bad).is_err(), "byte {} changed was not caught", i);
    }
}
