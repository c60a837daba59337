//! Page-based storage model: every persistent byte lives in a fixed-size page.
use crate::error::{storage_error, Error, Result};
use vstd::bytes::*;
use vstd::prelude::*;
use vstd::slice::{slice_subrange, slice_to_vec};

verus! {

/// Physical page size: 16 KiB.
pub const PAGE_SIZE: usize = 16384;

/// Maximum number of slots on a single page.
pub const MAX_SLOTS_PER_PAGE: usize = 200;

/// Magic bytes that open a database file: "KELP".
pub const MAGIC_BYTES: [u8; 4] = [75u8, 69u8, 76u8, 80u8];

/// Current database format version.
pub const DB_VERSION: u32 = 1;

/// Size of the serialized superblock header.
pub const SUPERBLOCK_SIZE: usize = 512;

/// The magic bytes as a sequence.
pub open spec fn magic() -> Seq<u8> {
    seq![75u8, 69u8, 76u8, 80u8]
}

/// Page type identifiers.
#[derive(Debug, Clone, Copy, PartialEq, Eq, Structural)]
pub enum PageType {
    /// Superblock (database header)
    Superblock,
    /// Object data pages
    Object,
    /// Index pages
    Index,
    /// Overflow pages (for large values)
    Overflow,
    /// Free-space management pages
    FreeSpace,
}

/// The byte code of each page type.
pub open spec fn page_type_code(t: PageType) -> u8 {
    match t {
        PageType::Superblock => 1,
        PageType::Object => 2,
        PageType::Index => 3,
        PageType::Overflow => 4,
        PageType::FreeSpace => 5,
    }
}

/// The page type with a given byte code, if any.
pub open spec fn page_type_of_code(v: u8) -> Option<PageType> {
    if v == 1 {
        Some(PageType::Superblock)
    } else if v == 2 {
        Some(PageType::Object)
    } else if v == 3 {
        Some(PageType::Index)
    } else if v == 4 {
        Some(PageType::Overflow)
    } else if v == 5 {
        Some(PageType::FreeSpace)
    } else {
        None
    }
}

impl PageType {
    pub fn from_u8(v: u8) -> (r: Option<Self>)
        ensures
            r == page_type_of_code(v),
    {
        match v {
            1 => Some(PageType::Superblock),
            2 => Some(PageType::Object),
            3 => Some(PageType::Index),
            4 => Some(PageType::Overflow),
            5 => Some(PageType::FreeSpace),
            _ => None,
        }
    }

    pub fn as_u8(self) -> (r: u8)
        ensures
            r == page_type_code(self),
    {
        match self {
            PageType::Superblock => 1,
            PageType::Object => 2,
            PageType::Index => 3,
            PageType::Overflow => 4,
            PageType::FreeSpace => 5,
        }
    }
}

/// Decoding the code of a page type gives that page type back, and only the
/// codes 1 to 5 decode at all.
pub proof fn lemma_page_type_code_roundtrip(t: PageType, v: u8)
    ensures
        page_type_of_code(page_type_code(t)) == Some(t),
        page_type_of_code(v) is Some <==> 1 <= v <= 5,
        page_type_of_code(v) matches Some(u) ==> page_type_code(u) == v,
{
}

/// A logical page identifier.
#[derive(Debug, Clone, Copy, PartialEq, Eq, PartialOrd, Ord, Hash, Structural)]
pub struct PageId(pub u32);

impl PageId {
    /// The superblock page, page 0.
    pub fn superblock() -> (r: Self)
        ensures
            r.0 == 0,
    {
        PageId(0)
    }

    pub fn new(id: u32) -> (r: Self)
        ensures
            r.0 == id,
    {
        PageId(id)
    }

    pub fn as_u32(self) -> (r: u32)
        ensures
            r == self.0,
    {
        self.0
    }

    /// Offset, in bytes, where this page starts in the database file.
    pub fn physical_offset(self) -> (r: u64)
        ensures
            r == self.0 * PAGE_SIZE,
    {
        assert(self.0 * 16384 <= 0xffff_ffff * 16384) by (nonlinear_arith)
            requires
                self.0 <= 0xffff_ffff,
        ;
        self.0 as u64 * PAGE_SIZE as u64
    }
}

/// A slot identifier within a page.
#[derive(Debug, Clone, Copy, PartialEq, Eq, Hash, Structural)]
pub struct SlotId(pub u16);

impl SlotId {
    pub fn new(id: u16) -> (r: Self)
        ensures
            r.0 == id,
    {
        SlotId(id)
    }

    pub fn as_u16(self) -> (r: u16)
        ensures
            r == self.0,
    {
        self.0
    }
}

/// Location of a record on the physical storage.
#[derive(Debug, Clone, Copy, PartialEq, Eq, Structural)]
pub struct RecordLocation {
    pub page_id: PageId,
    pub slot_id: SlotId,
}

impl RecordLocation {
    pub fn new(page_id: PageId, slot_id: SlotId) -> (r: Self)
        ensures
            r.page_id == page_id,
            r.slot_id == slot_id,
    {
        Self { page_id, slot_id }
    }
}

/// In-memory representation of a page.
#[derive(Debug)]
pub struct Page {
    pub page_id: PageId,
    pub page_type: PageType,
    pub data: Vec<u8>,
    /// Whether this page has been modified since last write
    pub is_dirty: bool,
}

/// The content of a page: its identity, its type, its bytes and whether it
/// has changed since it was last written.
pub struct PageView {
    pub page_id: PageId,
    pub page_type: PageType,
    pub data: Seq<u8>,
    pub is_dirty: bool,
}

impl View for Page {
    type V = PageView;

    open spec fn view(&self) -> PageView {
        PageView {
            page_id: self.page_id,
            page_type: self.page_type,
            data: self.data@,
            is_dirty: self.is_dirty,
        }
    }
}

/// A page of zero bytes.
pub open spec fn zero_page() -> Seq<u8> {
    Seq::new(PAGE_SIZE as nat, |i: int| 0u8)
}

impl Clone for Page {
    fn clone(&self) -> (r: Self)
        ensures
            r.page_id == self.page_id,
            r.page_type == self.page_type,
            r.data@ == self.data@,
            r.is_dirty == self.is_dirty,
            r@ == self@,
    {
        Page {
            page_id: self.page_id,
            page_type: self.page_type,
            data: copy_bytes(&self.data),
            is_dirty: self.is_dirty,
        }
    }
}

/// Copies a byte vector.
pub fn copy_bytes(v: &Vec<u8>) -> (r: Vec<u8>)
    ensures
        r@ == v@,
{
    let mut r: Vec<u8> = Vec::with_capacity(v.len());
    let mut i: usize = 0;
    while i < v.len()
        invariant
            i <= v.len(),
            r@ == v@.subrange(0, i as int),
        decreases v.len() - i,
    {
        r.push(v[i]);
        i = i + 1;
        assert(r@ =~= v@.subrange(0, i as int));
    }
    assert(v@.subrange(0, v.len() as int) =~= v@);
    r
}

/// A vector of `n` zero bytes.
pub fn zero_bytes(n: usize) -> (r: Vec<u8>)
    ensures
        r@ == Seq::new(n as nat, |i: int| 0u8),
{
    let mut r: Vec<u8> = Vec::with_capacity(n);
    let mut i: usize = 0;
    while i < n
        invariant
            i <= n,
            r@ == Seq::new(i as nat, |k: int| 0u8),
        decreases n - i,
    {
        r.push(0u8);
        i = i + 1;
        assert(r@ =~= Seq::new(i as nat, |k: int| 0u8));
    }
    r
}

impl Page {
    /// Create a new empty page of a given type.
    pub fn new(page_id: PageId, page_type: PageType) -> (p: Self)
        ensures
            p.page_id == page_id,
            p.page_type == page_type,
            p.data@ == zero_page(),
            p.is_dirty,
    {
        Self { page_id, page_type, data: zero_bytes(PAGE_SIZE), is_dirty: true }
    }

    /// Get a slice of the page data.
    pub fn as_slice(&self) -> (s: &[u8])
        ensures
            s@ == self.data@,
    {
        self.data.as_slice()
    }

    /// A mutable view of the page data; the page counts as changed.
    pub fn as_mut_slice(&mut self) -> (s: &mut [u8])
        ensures
            s@ == old(self).data@,
            final(self).data@ == final(s)@,
            final(self).page_id == old(self).page_id,
            final(self).page_type == old(self).page_type,
            final(self).is_dirty,
    {
        self.is_dirty = true;
        self.data.as_mut_slice()
    }

    /// Mark page as clean (not dirty).
    pub fn mark_clean(&mut self)
        ensures
            final(self).page_id == old(self).page_id,
            final(self).page_type == old(self).page_type,
            final(self).data@ == old(self).data@,
            !final(self).is_dirty,
    {
        self.is_dirty = false;
    }

    /// Mark page as dirty.
    pub fn mark_dirty(&mut self)
        ensures
            final(self).page_id == old(self).page_id,
            final(self).page_type == old(self).page_type,
            final(self).data@ == old(self).data@,
            final(self).is_dirty,
    {
        self.is_dirty = true;
    }

    /// Serialize a page to its exact on-disk representation.
    pub fn serialize(&self) -> (r: Result<Vec<u8>>)
        ensures
            self.data@.len() == PAGE_SIZE ==> (r matches Ok(b) && b@ == self.data@),
            self.data@.len() != PAGE_SIZE ==> r matches Err(Error::StorageError { .. }),
    {
        if self.data.len() != PAGE_SIZE {
            return Err(storage_error("Page does not hold exactly PAGE_SIZE bytes"));
        }
        Ok(copy_bytes(&self.data))
    }

    /// Deserialize a page from an exact fixed-size on-disk buffer.
    pub fn deserialize(page_id: PageId, page_type: PageType, bytes: &[u8]) -> (r: Result<Self>)
        ensures
            match r {
                Ok(p) => {
                    &&& bytes@.len() == PAGE_SIZE
                    &&& (page_id == PageId(0) && page_type == PageType::Superblock)
                        ==> superblock_parses(bytes@)
                    &&& p.page_id == page_id
                    &&& p.page_type == page_type
                    &&& p.data@ == bytes@
                    &&& !p.is_dirty
                },
                Err(e) => {
                    &&& e is StorageError
                    &&& (bytes@.len() != PAGE_SIZE || (page_id == PageId(0) && page_type
                        == PageType::Superblock && !superblock_parses(bytes@)))
                },
            },
    {
        if bytes.len() != PAGE_SIZE {
            return Err(storage_error("Page buffer does not hold exactly PAGE_SIZE bytes"));
        }
        let data = slice_to_vec(bytes);
        if page_id == PageId::superblock() && page_type == PageType::Superblock {
            match Superblock::from_bytes(bytes) {
                Ok(_) => {},
                Err(e) => {
                    return Err(e);
                },
            }
        }
        Ok(Self { page_id, page_type, data, is_dirty: false })
    }

    /// Compute the on-disk byte offset for a page.
    pub fn physical_offset(&self) -> (r: u64)
        ensures
            r == self.page_id.0 * PAGE_SIZE,
    {
        self.page_id.physical_offset()
    }
}

/// Superblock header: database metadata stored at page 0.
#[derive(Debug)]
pub struct Superblock {
    pub version: u32,
    pub page_size: u32,
    pub next_page_id: u32,
    pub location_index_root: u32,
    pub schema_root: u32,
    pub wal_tail: u64,
    pub last_committed_txn: u64,
    pub database_name: [u8; 64],
    pub created_at: u64,
    pub modified_at: u64,
    pub reserved: [u8; 256],
}

impl Clone for Superblock {
    fn clone(&self) -> (r: Self)
        ensures
            r == *self,
    {
        Superblock {
            version: self.version,
            page_size: self.page_size,
            next_page_id: self.next_page_id,
            location_index_root: self.location_index_root,
            schema_root: self.schema_root,
            wal_tail: self.wal_tail,
            last_committed_txn: self.last_committed_txn,
            database_name: self.database_name,
            created_at: self.created_at,
            modified_at: self.modified_at,
            reserved: self.reserved,
        }
    }
}

/// The bytes that `Superblock::to_bytes` writes, in order, before padding.
pub open spec fn superblock_fields_bytes(sb: Superblock) -> Seq<u8> {
    magic() + spec_u32_to_le_bytes(sb.version) + spec_u32_to_le_bytes(sb.page_size)
        + spec_u32_to_le_bytes(sb.next_page_id) + spec_u32_to_le_bytes(sb.location_index_root)
        + spec_u32_to_le_bytes(sb.schema_root) + spec_u64_to_le_bytes(sb.wal_tail)
        + spec_u64_to_le_bytes(sb.last_committed_txn) + sb.database_name@
        + spec_u64_to_le_bytes(sb.created_at) + spec_u64_to_le_bytes(sb.modified_at)
        + sb.reserved@
}

/// The serialized superblock: its fields, padded with zeros to 512 bytes.
pub open spec fn superblock_bytes(sb: Superblock) -> Seq<u8> {
    let f = superblock_fields_bytes(sb);
    f + Seq::new((SUPERBLOCK_SIZE - f.len()) as nat, |i: int| 0u8)
}

/// Whether `Superblock::from_bytes` accepts these bytes.
pub open spec fn superblock_parses(b: Seq<u8>) -> bool {
    &&& b.len() >= SUPERBLOCK_SIZE
    &&& b.subrange(0, 4) == magic()
    &&& spec_u32_from_le_bytes(b.subrange(4, 8)) == DB_VERSION
}

/// The little-endian u32 at `pos`.
pub open spec fn u32_at(b: Seq<u8>, pos: int) -> u32 {
    spec_u32_from_le_bytes(b.subrange(pos, pos + 4))
}

/// The little-endian u64 at `pos`.
pub open spec fn u64_at(b: Seq<u8>, pos: int) -> u64 {
    spec_u64_from_le_bytes(b.subrange(pos, pos + 8))
}

/// Reads the little-endian u16 at `pos`.
pub fn read_u16_le(b: &[u8], pos: usize) -> (x: u16)
    requires
        pos + 2 <= b@.len(),
    ensures
        x == spec_u16_from_le_bytes(b@.subrange(pos as int, pos + 2)),
{
    let _len = b.len();
    u16_from_le_bytes(slice_subrange(b, pos, pos + 2))
}

/// Reads the little-endian u32 at `pos`.
pub fn read_u32_le(b: &[u8], pos: usize) -> (x: u32)
    requires
        pos + 4 <= b@.len(),
    ensures
        x == u32_at(b@, pos as int),
{
    let _len = b.len();
    u32_from_le_bytes(slice_subrange(b, pos, pos + 4))
}

/// Reads the little-endian u64 at `pos`.
pub fn read_u64_le(b: &[u8], pos: usize) -> (x: u64)
    requires
        pos + 8 <= b@.len(),
    ensures
        x == u64_at(b@, pos as int),
{
    let _len = b.len();
    u64_from_le_bytes(slice_subrange(b, pos, pos + 8))
}

/// Appends the little-endian bytes of a u16.
pub fn push_u16_le(out: &mut Vec<u8>, x: u16)
    ensures
        final(out)@ == old(out)@ + spec_u16_to_le_bytes(x),
{
    let mut b = u16_to_le_bytes(x);
    out.append(&mut b);
}

/// Appends the little-endian bytes of a u32.
pub fn push_u32_le(out: &mut Vec<u8>, x: u32)
    ensures
        final(out)@ == old(out)@ + spec_u32_to_le_bytes(x),
{
    let mut b = u32_to_le_bytes(x);
    out.append(&mut b);
}

/// Appends the little-endian bytes of a u64.
pub fn push_u64_le(out: &mut Vec<u8>, x: u64)
    ensures
        final(out)@ == old(out)@ + spec_u64_to_le_bytes(x),
{
    let mut b = u64_to_le_bytes(x);
    out.append(&mut b);
}

/// Appends all bytes of a slice.
pub fn push_bytes(out: &mut Vec<u8>, s: &[u8])
    ensures
        final(out)@ == old(out)@ + s@,
{
    let mut b = slice_to_vec(s);
    out.append(&mut b);
}

/// The clock type of std, carried through without looking inside.
#[verifier::external_type_specification]
#[verifier::external_body]
pub struct ExSystemTime(std::time::SystemTime);

/// `std::time::SystemTime::now`: the machine's clock at the call. Nothing is
/// stated of it.
#[verifier::external_body]
fn clock_now() -> std::time::SystemTime {
    std::time::SystemTime::now()
}

/// `SystemTime::duration_since` with `UNIX_EPOCH`: how long after the Unix
/// epoch a time lies, or None for a time before the epoch (std's error).
/// Nothing is stated of which it is.
#[verifier::external_body]
fn since_unix_epoch(t: &std::time::SystemTime) -> Option<std::time::Duration> {
    match t.duration_since(std::time::UNIX_EPOCH) {
        Ok(d) => Some(d),
        Err(_) => None,
    }
}

/// `Duration::as_secs`: the whole seconds of a duration. Nothing is stated
/// of it, since the duration is opaque here.
#[verifier::external_body]
fn whole_seconds(d: &std::time::Duration) -> u64 {
    d.as_secs()
}

/// Seconds since the Unix epoch on this machine's clock, or 0 when the clock
/// reads earlier than the epoch.
fn clock_seconds() -> u64 {
    let now = clock_now();
    match since_unix_epoch(&now) {
        Some(d) => whole_seconds(&d),
        None => 0,
    }
}

/// Writing a superblock and reading it back gives back every field it
/// writes: version, page size, next page id, index and schema roots, WAL
/// tail, last committed transaction, name and timestamps.
pub proof fn lemma_superblock_roundtrip(sb: Superblock)
    requires
        sb.version == DB_VERSION,
    ensures
        superblock_parses(superblock_bytes(sb)),
        u32_at(superblock_bytes(sb), 8) == sb.page_size,
        u32_at(superblock_bytes(sb), 12) == sb.next_page_id,
        u32_at(superblock_bytes(sb), 16) == sb.location_index_root,
        u32_at(superblock_bytes(sb), 20) == sb.schema_root,
        u64_at(superblock_bytes(sb), 24) == sb.wal_tail,
        u64_at(superblock_bytes(sb), 32) == sb.last_committed_txn,
        superblock_bytes(sb).subrange(40, 104) == sb.database_name@,
        u64_at(superblock_bytes(sb), 104) == sb.created_at,
        u64_at(superblock_bytes(sb), 112) == sb.modified_at,
{
    lemma_auto_spec_u32_to_from_le_bytes();
    lemma_auto_spec_u64_to_from_le_bytes();
    let b = superblock_bytes(sb);
    let f = superblock_fields_bytes(sb);
    assert(f.len() == 376);
    assert(b.subrange(0, 4) =~= magic());
    assert(b.subrange(4, 8) =~= spec_u32_to_le_bytes(sb.version));
    assert(b.subrange(8, 12) =~= spec_u32_to_le_bytes(sb.page_size));
    assert(b.subrange(12, 16) =~= spec_u32_to_le_bytes(sb.next_page_id));
    assert(b.subrange(16, 20) =~= spec_u32_to_le_bytes(sb.location_index_root));
    assert(b.subrange(20, 24) =~= spec_u32_to_le_bytes(sb.schema_root));
    assert(b.subrange(24, 32) =~= spec_u64_to_le_bytes(sb.wal_tail));
    assert(b.subrange(32, 40) =~= spec_u64_to_le_bytes(sb.last_committed_txn));
    assert(b.subrange(40, 104) =~= sb.database_name@);
    assert(b.subrange(104, 112) =~= spec_u64_to_le_bytes(sb.created_at));
    assert(b.subrange(112, 120) =~= spec_u64_to_le_bytes(sb.modified_at));
}

impl Superblock {
    pub fn new() -> (sb: Self)
        ensures
            sb.version == DB_VERSION,
            sb.page_size == PAGE_SIZE,
            sb.next_page_id == 1,
            sb.location_index_root == 0,
            sb.schema_root == 0,
            sb.wal_tail == 0,
            sb.last_committed_txn == 0,
            sb.database_name@ == Seq::new(64, |i: int| 0u8),
            sb.reserved@ == Seq::new(256, |i: int| 0u8),
    {
        let created_at = clock_seconds();
        let modified_at = clock_seconds();
        let sb = Self {
            version: DB_VERSION,
            page_size: PAGE_SIZE as u32,
            next_page_id: 1,
            location_index_root: 0,
            schema_root: 0,
            wal_tail: 0,
            last_committed_txn: 0,
            database_name: [0u8; 64],
            created_at,
            modified_at,
            reserved: [0u8; 256],
        };
        assert(sb.database_name@ =~= Seq::new(64, |i: int| 0u8));
        assert(sb.reserved@ =~= Seq::new(256, |i: int| 0u8));
        sb
    }

    /// Serialize superblock to bytes.
    pub fn to_bytes(&self) -> (bytes: Vec<u8>)
        ensures
            bytes@ == superblock_bytes(*self),
            bytes@.len() == SUPERBLOCK_SIZE,
    {
        proof {
            lemma_auto_spec_u32_to_from_le_bytes();
            lemma_auto_spec_u64_to_from_le_bytes();
        }
        let mut bytes: Vec<u8> = Vec::with_capacity(512);
        push_bytes(&mut bytes, MAGIC_BYTES.as_slice());
        assert(MAGIC_BYTES@ =~= magic());
        push_u32_le(&mut bytes, self.version);
        push_u32_le(&mut bytes, self.page_size);
        push_u32_le(&mut bytes, self.next_page_id);
        push_u32_le(&mut bytes, self.location_index_root);
        push_u32_le(&mut bytes, self.schema_root);
        push_u64_le(&mut bytes, self.wal_tail);
        push_u64_le(&mut bytes, self.last_committed_txn);
        push_bytes(&mut bytes, self.database_name.as_slice());
        push_u64_le(&mut bytes, self.created_at);
        push_u64_le(&mut bytes, self.modified_at);
        push_bytes(&mut bytes, self.reserved.as_slice());
        assert(bytes@ =~= superblock_fields_bytes(*self));
        let ghost fields = bytes@;
        // Ensure a fixed header size for persistence.
        while bytes.len() < 512
            invariant
                fields.len() <= bytes@.len() <= 512,
                bytes@ == fields + Seq::new((bytes@.len() - fields.len()) as nat, |i: int| 0u8),
            decreases 512 - bytes.len(),
        {
            bytes.push(0u8);
            assert(bytes@ =~= fields + Seq::new((bytes@.len() - fields.len()) as nat, |i: int| 0u8));
        }
        bytes
    }

    /// Deserialize superblock from bytes.
    pub fn from_bytes(bytes: &[u8]) -> (r: Result<Self>)
        ensures
            match r {
                Ok(sb) => {
                    &&& superblock_parses(bytes@)
                    &&& sb.version == DB_VERSION
                    &&& sb.page_size == u32_at(bytes@, 8)
                    &&& sb.next_page_id == u32_at(bytes@, 12)
                    &&& sb.location_index_root == u32_at(bytes@, 16)
                    &&& sb.schema_root == u32_at(bytes@, 20)
                    &&& sb.wal_tail == u64_at(bytes@, 24)
                    &&& sb.last_committed_txn == u64_at(bytes@, 32)
                    &&& sb.database_name@ == bytes@.subrange(40, 104)
                    &&& sb.created_at == u64_at(bytes@, 104)
                    &&& sb.modified_at == u64_at(bytes@, 112)
                    &&& sb.reserved@ == Seq::new(256, |i: int| 0u8)
                },
                Err(e) => e is StorageError && !superblock_parses(bytes@),
            },
    {
        if bytes.len() < 512 {
            return Err(storage_error("Superblock too small"));
        }
        if bytes[0] != 75u8 || bytes[1] != 69u8 || bytes[2] != 76u8 || bytes[3] != 80u8 {
            assert(bytes@.subrange(0, 4) != magic()) by {
                if bytes@.subrange(0, 4) == magic() {
                    assert(bytes@.subrange(0, 4)[0] == bytes@[0]);
                    assert(bytes@.subrange(0, 4)[1] == bytes@[1]);
                    assert(bytes@.subrange(0, 4)[2] == bytes@[2]);
                    assert(bytes@.subrange(0, 4)[3] == bytes@[3]);
                }
            }
            return Err(storage_error("Invalid database magic bytes"));
        }
        assert(bytes@.subrange(0, 4) =~= magic());
        let version = read_u32_le(bytes, 4);
        if version != DB_VERSION {
            return Err(storage_error("Unsupported database version"));
        }
        let mut database_name = [0u8; 64];
        let mut i: usize = 0;
        while i < 64
            invariant
                i <= 64,
                bytes@.len() >= 512,
                forall|k: int| 0 <= k < i ==> database_name@[k] == bytes@[40 + k],
            decreases 64 - i,
        {
            database_name[i] = bytes[40 + i];
            i = i + 1;
        }
        assert(database_name@ =~= bytes@.subrange(40, 104));
        let sb = Self {
            version,
            page_size: read_u32_le(bytes, 8),
            next_page_id: read_u32_le(bytes, 12),
            location_index_root: read_u32_le(bytes, 16),
            schema_root: read_u32_le(bytes, 20),
            wal_tail: read_u64_le(bytes, 24),
            last_committed_txn: read_u64_le(bytes, 32),
            database_name,
            created_at: read_u64_le(bytes, 104),
            modified_at: read_u64_le(bytes, 112),
            reserved: [0u8; 256],
        };
        assert(sb.reserved@ =~= Seq::new(256, |i: int| 0u8));
        Ok(sb)
    }
}

impl Default for Superblock {
    fn default() -> (sb: Self)
        ensures
            sb.version == DB_VERSION,
            sb.page_size == PAGE_SIZE,
            sb.next_page_id == 1,
            sb.location_index_root == 0,
            sb.schema_root == 0,
            sb.wal_tail == 0,
            sb.last_committed_txn == 0,
            sb.database_name@ == Seq::new(64, |i: int| 0u8),
            sb.reserved@ == Seq::new(256, |i: int| 0u8),
    {
        Self::new()
    }
}

} // verus!
