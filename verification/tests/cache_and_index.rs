use kelp_db::error::Error;
use kelp_db::object::ObjectId;
use kelp_db::storage::cache::{EvictionPolicy, PageCache};
use kelp_db::storage::location_index::ObjectLocationIndex;
use kelp_db::storage::page::{Page, PageId, PageType, RecordLocation, SlotId, PAGE_SIZE};

#[test]
fn test_cache_get_insert() {
    let mut cache = PageCache::new(1024 * 1024);
    let page = Page::new(PageId::new(1), PageType::Object);

    cache.insert(page.clone()).unwrap();
    let retrieved = cache.get(PageId::new(1));

    assert!(retrieved.is_some());
    assert_eq!(retrieved.unwrap().page_id, PageId::new(1));
}

#[test]
fn test_cache_eviction() {
    let page_count = 5;
    let max_bytes = PAGE_SIZE * (page_count - 1); // Only fit 4 pages
    let mut cache = PageCache::new(max_bytes);

    for i in 0..page_count {
        let page = Page::new(PageId::new(i as u32), PageType::Object);
        cache.insert(page).unwrap();
    }

    // Should have evicted something
    assert!(cache.page_count() <= page_count - 1);
    assert!(cache.stats().evictions > 0);
}

#[test]
fn test_cache_lru_order() {
    let mut cache = PageCache::new(1024 * 1024);

    // Insert 3 pages
    for i in 0..3 {
        let page = Page::new(PageId::new(i), PageType::Object);
        cache.insert(page).unwrap();
    }

    // Access page 0, making it recently used
    cache.get(PageId::new(0));

    // Now fill up cache and trigger eviction
    // Page 1 should be evicted (least recently used)
    let max_bytes = PAGE_SIZE * 3;
    let mut cache2 = PageCache::new(max_bytes);

    for i in 0..3 {
        let page = Page::new(PageId::new(i), PageType::Object);
        cache2.insert(page).unwrap();
    }

    // Access page 0
    cache2.get(PageId::new(0));

    // Insert a 4th page, should evict page 1
    let page4 = Page::new(PageId::new(3), PageType::Object);
    cache2.insert(page4).unwrap();

    // Page 2 should be in cache (more recently used than 1)
    assert!(cache2.get(PageId::new(2)).is_some());
}

#[test]
fn cache_evicts_exactly_the_least_recently_used() {
    let mut cache = PageCache::new(PAGE_SIZE * 3);
    for i in 0..3 {
        cache.insert(Page::new(PageId::new(i), PageType::Object)).unwrap();
    }
    cache.get(PageId::new(0));
    cache.insert(Page::new(PageId::new(3), PageType::Object)).unwrap();
    assert!(cache.get(PageId::new(1)).is_none());
    assert!(cache.get(PageId::new(0)).is_some());
    assert!(cache.get(PageId::new(3)).is_some());
    assert_eq!(cache.page_count(), 3);
    assert_eq!(cache.current_bytes(), 3 * PAGE_SIZE);
    assert_eq!(cache.max_bytes(), 3 * PAGE_SIZE);
    assert_eq!(cache.stats().evictions, 1);
    assert_eq!(cache.stats().hits, 3);
    assert_eq!(cache.stats().misses, 1);
}

#[test]
fn cache_with_budget_below_a_page_holds_one_page() {
    let mut cache = PageCache::new(10);
    cache.insert(Page::new(PageId::new(1), PageType::Object)).unwrap();
    assert_eq!(cache.page_count(), 1);
    cache.insert(Page::new(PageId::new(2), PageType::Object)).unwrap();
    assert_eq!(cache.page_count(), 1);
    assert!(cache.get(PageId::new(2)).is_some());
    assert_eq!(cache.current_bytes(), PAGE_SIZE);
}

#[test]
fn cache_replacing_a_page_keeps_its_place() {
    let mut cache = PageCache::new(PAGE_SIZE * 2);
    cache.insert(Page::new(PageId::new(1), PageType::Object)).unwrap();
    cache.insert(Page::new(PageId::new(2), PageType::Object)).unwrap();
    let mut changed = Page::new(PageId::new(1), PageType::Object);
    changed.data[0] = 7;
    cache.insert(changed).unwrap();
    assert_eq!(cache.page_count(), 2);
    assert_eq!(cache.stats().evictions, 0);
    // page 1 is still the least recently used: it goes first
    cache.insert(Page::new(PageId::new(3), PageType::Object)).unwrap();
    assert!(cache.get(PageId::new(1)).is_none());
    assert_eq!(cache.get(PageId::new(2)).unwrap().data[0], 0);
}

#[test]
fn test_cache_dirty_tracking() {
    let mut cache = PageCache::new(1024 * 1024);
    let page = Page::new(PageId::new(1), PageType::Object);

    cache.insert(page).unwrap();
    cache.mark_dirty(PageId::new(1)).unwrap();

    let dirty = cache.get_dirty_pages();
    assert_eq!(dirty.len(), 1);

    cache.mark_all_clean();
    let dirty = cache.get_dirty_pages();
    assert_eq!(dirty.len(), 0);
}

#[test]
fn cache_dirty_pages_remove_and_clear() {
    let mut cache = PageCache::default();
    assert_eq!(cache.max_bytes(), 256 * 1024 * 1024);
    let mut clean = Page::new(PageId::new(1), PageType::Object);
    clean.mark_clean();
    cache.insert(clean).unwrap();
    cache.insert(Page::new(PageId::new(2), PageType::Object)).unwrap();
    let dirty = cache.get_dirty_pages();
    assert_eq!(dirty.len(), 1);
    assert_eq!(dirty[0].page_id, PageId::new(2));
    cache.mark_dirty(PageId::new(9)).unwrap();
    assert_eq!(cache.stats().dirty_pages, 0);
    cache.mark_dirty(PageId::new(1)).unwrap();
    assert_eq!(cache.stats().dirty_pages, 1);
    assert_eq!(cache.get_dirty_pages().len(), 2);
    cache.mark_all_clean();
    assert_eq!(cache.stats().dirty_pages, 0);
    let removed = cache.remove(PageId::new(1)).unwrap();
    assert_eq!(removed.page_id, PageId::new(1));
    assert!(cache.remove(PageId::new(1)).is_none());
    assert_eq!(cache.current_bytes(), PAGE_SIZE);
    cache.clear();
    assert_eq!(cache.page_count(), 0);
    assert_eq!(cache.current_bytes(), 0);
    assert_ne!(EvictionPolicy::LRU, EvictionPolicy::FIFO);
}

#[test]
fn test_location_index_insert_get() {
    let mut index = ObjectLocationIndex::new();
    let obj_id = ObjectId::new("User", "u1");
    let location = RecordLocation::new(PageId::new(1), SlotId::new(0));

    index.insert(&obj_id, location);
    assert_eq!(index.get(&obj_id), Some(location));
}

#[test]
fn test_location_index_update() {
    let mut index = ObjectLocationIndex::new();
    let obj_id = ObjectId::new("User", "u1");
    let loc1 = RecordLocation::new(PageId::new(1), SlotId::new(0));
    let loc2 = RecordLocation::new(PageId::new(2), SlotId::new(5));

    index.insert(&obj_id, loc1);
    assert_eq!(index.get(&obj_id), Some(loc1));

    index.insert(&obj_id, loc2);
    assert_eq!(index.get(&obj_id), Some(loc2));
}

#[test]
fn test_location_index_remove() {
    let mut index = ObjectLocationIndex::new();
    let obj_id = ObjectId::new("User", "u1");
    let location = RecordLocation::new(PageId::new(1), SlotId::new(0));

    index.insert(&obj_id, location);
    assert!(index.object_exists(&obj_id));

    let removed = index.remove(&obj_id);
    assert_eq!(removed, Some(location));
    assert!(!index.object_exists(&obj_id));
}

#[test]
fn test_location_index_by_type() {
    let mut index = ObjectLocationIndex::new();

    for i in 0..5 {
        let obj_id = ObjectId::new("User", &format!("u{}", i));
        let location = RecordLocation::new(PageId::new(1), SlotId::new(i));
        index.insert(&obj_id, location);
    }

    let users = index.get_all_by_type("User");
    assert_eq!(users.len(), 5);

    let count = index.object_count_by_type("User");
    assert_eq!(count, 5);
}

#[test]
fn test_location_index_total() {
    let mut index = ObjectLocationIndex::new();

    for i in 0..3 {
        index.insert(
            &ObjectId::new("User", &format!("u{}", i)),
            RecordLocation::new(PageId::new(1), SlotId::new(i as u16)),
        );
    }

    for i in 0..2 {
        index.insert(
            &ObjectId::new("Order", &format!("o{}", i)),
            RecordLocation::new(PageId::new(2), SlotId::new(i as u16)),
        );
    }

    assert_eq!(index.total_objects(), 5);
    let types = index.types();
    assert_eq!(types.len(), 2);
}

#[test]
fn location_index_update_and_empty_types() {
    let mut index = ObjectLocationIndex::default();
    let a = ObjectId::new("User", "a");
    let loc = RecordLocation::new(PageId::new(3), SlotId::new(1));
    match index.update_location(&a, loc) {
        Err(Error::ObjectNotFound { typename, object_id }) => {
            assert_eq!(typename, "User");
            assert_eq!(object_id, "a");
        }
        other => panic!("unexpected: {:?}", other),
    }
    index.insert(&a, RecordLocation::new(PageId::new(1), SlotId::new(0)));
    index.update_location(&a, loc).unwrap();
    assert_eq!(index.get(&a), Some(loc));
    assert_eq!(index.remove(&ObjectId::new("Nope", "a")), None);
    assert_eq!(index.remove(&a), Some(loc));
    // the type stays known with no objects
    assert_eq!(index.types(), vec!["User".to_string()]);
    assert_eq!(index.object_count_by_type("User"), 0);
    assert_eq!(index.object_count_by_type("Other"), 0);
    assert_eq!(index.total_objects(), 0);
    assert!(index.get_all_by_type("Other").is_empty());
}
