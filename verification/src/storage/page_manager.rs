//! Page management: reading, writing, allocating and freeing pages through a
//! storage backend, and the rules of the database file that holds them.
use crate::error::{storage_error, Result};
use crate::storage::page::{
    superblock_bytes, superblock_parses, u32_at, Page, PageId, PageType, Superblock, DB_VERSION,
    PAGE_SIZE, SUPERBLOCK_SIZE,
};
use vstd::prelude::*;

verus! {

/// A page storage backend. Implementations can target local files, memory,
/// remote storage, and so on; what each call does is theirs to decide.
pub trait PageStorage: Send + Sync {
    /// Read a page from storage.
    fn read_page(&self, page_id: PageId) -> Result<Page>;

    /// Write a page to storage.
    fn write_page(&mut self, page: &Page) -> Result<()>;

    /// Allocate a new page.
    fn allocate_page(&mut self, page_type: PageType) -> Result<PageId>;

    /// Free a page (it may not be reclaimed at once).
    fn free_page(&mut self, page_id: PageId) -> Result<()>;

    /// Make all pending writes durable.
    fn sync(&mut self) -> Result<()>;

    /// The current database size in bytes.
    fn size(&self) -> Result<u64>;
}

/// Coordinates page allocation, reading and writing over a storage backend.
pub struct PageManager {
    storage: Box<dyn PageStorage>,
}

impl PageManager {
    pub fn new(storage: Box<dyn PageStorage>) -> (r: Self) {
        Self { storage }
    }

    /// Read a page from storage.
    pub fn read_page(&self, page_id: PageId) -> Result<Page> {
        self.storage.read_page(page_id)
    }

    /// Write a page to storage.
    pub fn write_page(&mut self, page: &Page) -> Result<()> {
        self.storage.write_page(page)
    }

    /// Allocate a new page of a given type.
    pub fn allocate_page(&mut self, page_type: PageType) -> Result<PageId> {
        self.storage.allocate_page(page_type)
    }

    /// Free a page (for compaction or cleanup).
    pub fn free_page(&mut self, page_id: PageId) -> Result<()> {
        self.storage.free_page(page_id)
    }

    /// Make all pending writes durable.
    pub fn sync(&mut self) -> Result<()> {
        self.storage.sync()
    }

    /// The database size in bytes.
    pub fn size(&self) -> Result<u64> {
        self.storage.size()
    }
}

/// Page 0 of a database file holding the given superblock, zero-padded to a
/// full page.
pub fn superblock_page(sb: &Superblock) -> (p: Page)
    ensures
        p.page_id == PageId(0),
        p.page_type == PageType::Superblock,
        p.data@ == superblock_bytes(*sb) + Seq::new((PAGE_SIZE - SUPERBLOCK_SIZE) as nat, |i: int| 0u8),
        p.is_dirty,
{
    let mut data = sb.to_bytes();
    let ghost head = data@;
    while data.len() < PAGE_SIZE
        invariant
            head.len() == SUPERBLOCK_SIZE,
            SUPERBLOCK_SIZE <= data@.len() <= PAGE_SIZE,
            data@ == head + Seq::new((data@.len() - SUPERBLOCK_SIZE) as nat, |i: int| 0u8),
        decreases PAGE_SIZE - data.len(),
    {
        data.push(0u8);
        assert(data@ =~= head + Seq::new((data@.len() - SUPERBLOCK_SIZE) as nat, |i: int| 0u8));
    }
    Page { page_id: PageId::superblock(), page_type: PageType::Superblock, data, is_dirty: true }
}

/// The superblock of a file that has just been given page `next_page_id - 1`:
/// a fresh superblock recording the next page to allocate.
pub fn superblock_for_next_page(next_page_id: u32) -> (sb: Superblock)
    ensures
        sb.version == DB_VERSION,
        sb.page_size == PAGE_SIZE,
        sb.next_page_id == next_page_id,
        sb.location_index_root == 0,
        sb.schema_root == 0,
        sb.wal_tail == 0,
        sb.last_committed_txn == 0,
{
    let mut sb = Superblock::new();
    sb.next_page_id = next_page_id;
    sb.page_size = PAGE_SIZE as u32;
    sb
}

/// Checks the size of an existing, non-empty database file: a whole number
/// of pages, at least the superblock page.
pub fn check_file_size(len: u64) -> (r: Result<()>)
    ensures
        r is Ok <==> (len % (PAGE_SIZE as u64) == 0 && len >= PAGE_SIZE),
        r matches Err(e) ==> e is StorageError,
{
    if len % (PAGE_SIZE as u64) != 0 {
        return Err(storage_error("Database file size is not a multiple of PAGE_SIZE"));
    }
    if len < PAGE_SIZE as u64 {
        return Err(storage_error("Database file is too small for a valid superblock"));
    }
    Ok(())
}

/// The next page to allocate, read from the superblock page of an existing
/// file: the stored counter, but never the superblock page itself. A
/// superblock that does not parse, or that was written with another page
/// size, is an error.
pub fn next_page_from_superblock(bytes: &[u8]) -> (r: Result<u32>)
    ensures
        match r {
            Ok(n) => {
                &&& superblock_parses(bytes@)
                &&& u32_at(bytes@, 8) == PAGE_SIZE
                &&& n == if u32_at(bytes@, 12) >= 1 { u32_at(bytes@, 12) } else { 1 }
            },
            Err(e) => {
                &&& e is StorageError
                &&& (!superblock_parses(bytes@) || u32_at(bytes@, 8) != PAGE_SIZE)
            },
        },
{
    let sb = Superblock::from_bytes(bytes)?;
    if sb.page_size as usize != PAGE_SIZE {
        return Err(storage_error("Database page size mismatch"));
    }
    if sb.next_page_id >= 1 {
        Ok(sb.next_page_id)
    } else {
        Ok(1)
    }
}

/// The type a page is read back as: page 0 is the superblock, every other
/// page holds objects.
pub fn stored_page_type(page_id: PageId) -> (t: PageType)
    ensures
        t == if page_id.0 == 0 { PageType::Superblock } else { PageType::Object },
{
    if page_id == PageId::superblock() {
        PageType::Superblock
    } else {
        PageType::Object
    }
}

/// The file length a page needs: its offset plus one page.
pub fn page_end(page_id: PageId) -> (r: u64)
    ensures
        r == page_id.0 * PAGE_SIZE + PAGE_SIZE,
{
    page_id.physical_offset() + PAGE_SIZE as u64
}

/// One allocation from the page counter: the page handed out (never the
/// superblock page), the counter after it (which wraps as the atomic counter
/// does), and the next-page value to record in the superblock.
pub fn allocation_step(counter: u32) -> (r: (PageId, u32, u32))
    requires
        counter < u32::MAX,
    ensures
        r.0.0 == if counter >= 1 { counter } else { 1 },
        r.1 == counter + 1,
        r.2 == r.0.0 + 1,
{
    let next = if counter >= 1 { counter } else { 1 };
    (PageId::new(next), counter + 1, next + 1)
}

} // verus!
