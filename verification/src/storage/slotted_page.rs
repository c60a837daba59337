//! Slotted page layout for variable-sized records.
//!
//! Layout of a page:
//! - header (8 bytes): slot count (u16 LE), free space start (u16 LE), 4 zero bytes
//! - slot directory: 4 bytes per slot, record offset (u16 LE) and length (u16 LE)
//! - free space
//! - records, growing downward from the end of the page
//!
//! A slot whose directory entry is (0, 0) is unused.
use crate::error::{storage_error, Error, Result};
use crate::storage::page::{read_u16_le, Page, SlotId, PAGE_SIZE};
use vstd::bytes::*;
use vstd::prelude::*;

verus! {

pub const HEADER_SIZE: usize = 8;

pub const SLOT_ENTRY_SIZE: usize = 4;

/// `s` with the bytes `b` written at `pos`.
pub open spec fn splice(s: Seq<u8>, pos: int, b: Seq<u8>) -> Seq<u8> {
    s.subrange(0, pos) + b + s.subrange(pos + b.len(), s.len() as int)
}

/// The 8 header bytes of a slotted page.
pub open spec fn header_bytes(slot_count: u16, free_space_start: u16) -> Seq<u8> {
    spec_u16_to_le_bytes(slot_count) + spec_u16_to_le_bytes(free_space_start) + seq![
        0u8,
        0u8,
        0u8,
        0u8,
    ]
}

/// The 4 directory bytes of a slot entry.
pub open spec fn entry_bytes(offset: u16, length: u16) -> Seq<u8> {
    spec_u16_to_le_bytes(offset) + spec_u16_to_le_bytes(length)
}

/// Byte position of a slot's directory entry.
pub open spec fn entry_pos(slot: int) -> int {
    HEADER_SIZE + slot * SLOT_ENTRY_SIZE
}

/// The raw (offset, length) pair stored in a slot's directory entry.
pub open spec fn raw_entry(data: Seq<u8>, slot: int) -> (u16, u16) {
    (
        spec_u16_from_le_bytes(data.subrange(entry_pos(slot), entry_pos(slot) + 2)),
        spec_u16_from_le_bytes(data.subrange(entry_pos(slot) + 2, entry_pos(slot) + 4)),
    )
}

/// The directory entry of a slot, or None if the slot lies past the page
/// or is unused (offset 0 and length 0).
pub open spec fn slot_entry(data: Seq<u8>, slot: int) -> Option<(u16, u16)> {
    if entry_pos(slot) + SLOT_ENTRY_SIZE > PAGE_SIZE {
        None
    } else {
        let e = raw_entry(data, slot);
        if e.0 == 0 && e.1 == 0 {
            None
        } else {
            Some(e)
        }
    }
}

/// The record stored in a slot, if its entry is used and lies inside the page.
pub open spec fn record_at(data: Seq<u8>, slot: int) -> Option<Seq<u8>> {
    match slot_entry(data, slot) {
        Some((o, l)) => if o + l <= PAGE_SIZE {
            Some(data.subrange(o as int, o + l))
        } else {
            None
        },
        None => None,
    }
}

/// Two byte ranges do not overlap.
pub open spec fn disjoint(o1: int, l1: int, o2: int, l2: int) -> bool {
    o1 + l1 <= o2 || o2 + l2 <= o1
}


/// The records of slots `0..count`.
pub open spec fn records_of(data: Seq<u8>, count: int) -> Seq<Option<Seq<u8>>> {
    Seq::new(count as nat, |i: int| record_at(data, i))
}

/// Page bytes whose directory of `count` slots lies below the record area
/// starting at `free_start`, where every used slot holds a record inside the
/// record area that overlaps no other slot's record.
pub open spec fn layout_wf(data: Seq<u8>, count: int, free_start: int) -> bool {
    &&& data.len() >= PAGE_SIZE
    &&& HEADER_SIZE + count * SLOT_ENTRY_SIZE <= free_start <= PAGE_SIZE
    &&& forall|i: int|
        0 <= i < count ==> (#[trigger] slot_entry(data, i) matches Some((o, l)) ==> (free_start
            <= o && o + l <= PAGE_SIZE))
    &&& forall|i: int, j: int|
        0 <= i < count && 0 <= j < count && i != j ==> (#[trigger] slot_entry(data, i) matches Some(
            (o1, l1),
        ) ==> (#[trigger] slot_entry(data, j) matches Some((o2, l2)) ==> disjoint(
            o1 as int,
            l1 as int,
            o2 as int,
            l2 as int,
        )))
}

/// Inserting a record below the record area adds one slot holding it, keeps
/// every other slot's record, and keeps the layout well formed.
proof fn lemma_insert_records(d: Seq<u8>, c: int, f: int, rec: Seq<u8>)
    requires
        layout_wf(d, c, f),
        0 <= c,
        rec.len() + HEADER_SIZE + (c + 1) * SLOT_ENTRY_SIZE <= f,
        c + 1 <= 0xffff,
    ensures
        ({
            let off = f - rec.len();
            let d3 = splice(
                splice(
                    splice(d, off, rec),
                    entry_pos(c),
                    entry_bytes(off as u16, rec.len() as u16),
                ),
                0,
                header_bytes((c + 1) as u16, off as u16),
            );
            &&& layout_wf(d3, c + 1, off)
            &&& records_of(d3, c + 1) == records_of(d, c).push(Some(rec))
        }),
{
    let off = f - rec.len();
    let d1 = splice(d, off, rec);
    let d2 = splice(d1, entry_pos(c), entry_bytes(off as u16, rec.len() as u16));
    let hb = header_bytes((c + 1) as u16, off as u16);
    let d3 = splice(d2, 0, hb);
    assert(hb.len() == 8) by {
        lemma_auto_spec_u16_to_from_le_bytes();
    }
    assert(entry_bytes(off as u16, rec.len() as u16).len() == 4) by {
        lemma_auto_spec_u16_to_from_le_bytes();
    }
    lemma_splice_read(d, off, rec, 0, 0);
    lemma_splice_read(d1, entry_pos(c), entry_bytes(off as u16, rec.len() as u16), 0, 0);
    lemma_splice_read(d2, 0, hb, 0, 0);
    assert forall|i: int| 0 <= i < c implies slot_entry(d3, i) == slot_entry(d, i) && record_at(
        d3,
        i,
    ) == record_at(d, i) by {
        lemma_write_misses_slot(d, off, rec, i);
        lemma_write_misses_slot(d1, entry_pos(c), entry_bytes(off as u16, rec.len() as u16), i);
        lemma_write_misses_slot(d2, 0, hb, i);
    }
    // the new slot
    lemma_write_entry(d1, c, off as u16, rec.len() as u16);
    lemma_splice_read(d2, 0, hb, entry_pos(c), entry_pos(c) + 2);
    lemma_splice_read(d2, 0, hb, entry_pos(c) + 2, entry_pos(c) + 4);
    lemma_splice_read(d1, entry_pos(c), entry_bytes(off as u16, rec.len() as u16), entry_pos(c), entry_pos(c) + 2);
    assert(raw_entry(d3, c) == raw_entry(d2, c));
    assert(slot_entry(d3, c) == Some((off as u16, rec.len() as u16)));
    lemma_splice_read(d, off, rec, off, f);
    lemma_splice_read(d1, entry_pos(c), entry_bytes(off as u16, rec.len() as u16), off, f);
    lemma_splice_read(d2, 0, hb, off, f);
    assert(record_at(d3, c) == Some(rec));
    assert(records_of(d3, c + 1) =~= records_of(d, c).push(Some(rec)));
}


/// Clearing the directory entry of an allocated slot leaves that slot unused
/// and every other slot's record unchanged.
proof fn lemma_delete_records(d: Seq<u8>, c: int, f: int, slot: int)
    requires
        layout_wf(d, c, f),
        0 <= slot < c,
        c <= 0xffff,
        0 <= f <= 0xffff,
    ensures
        ({
            let d3 = splice(
                splice(d, entry_pos(slot), entry_bytes(0, 0)),
                0,
                header_bytes(c as u16, f as u16),
            );
            &&& layout_wf(d3, c, f)
            &&& records_of(d3, c) == records_of(d, c).update(slot, None)
        }),
{
    let d2 = splice(d, entry_pos(slot), entry_bytes(0, 0));
    let hb = header_bytes(c as u16, f as u16);
    let d3 = splice(d2, 0, hb);
    assert(hb.len() == 8 && entry_bytes(0, 0).len() == 4) by {
        lemma_auto_spec_u16_to_from_le_bytes();
    }
    lemma_splice_read(d, entry_pos(slot), entry_bytes(0, 0), 0, 0);
    lemma_splice_read(d2, 0, hb, 0, 0);
    assert forall|i: int| 0 <= i < c && i != slot implies slot_entry(d3, i) == slot_entry(d, i)
        && record_at(d3, i) == record_at(d, i) by {
        lemma_write_misses_slot(d, entry_pos(slot), entry_bytes(0, 0), i);
        lemma_write_misses_slot(d2, 0, hb, i);
    }
    lemma_write_entry(d, slot, 0, 0);
    lemma_splice_read(d2, 0, hb, entry_pos(slot), entry_pos(slot) + 2);
    lemma_splice_read(d2, 0, hb, entry_pos(slot) + 2, entry_pos(slot) + 4);
    assert(raw_entry(d3, slot) == raw_entry(d2, slot));
    assert(slot_entry(d3, slot) is None);
    assert(records_of(d3, c) =~= records_of(d, c).update(slot, None));
}

/// Overwriting an allocated slot's record in place with one no longer than it
/// makes the slot hold the new record and leaves every other slot unchanged.
proof fn lemma_overwrite_records(
    d: Seq<u8>,
    c: int,
    f: int,
    slot: int,
    o: u16,
    l: u16,
    rec: Seq<u8>,
)
    requires
        layout_wf(d, c, f),
        0 <= slot < c,
        c <= 0xffff,
        0 <= f <= 0xffff,
        slot_entry(d, slot) == Some((o, l)),
        rec.len() <= l,
    ensures
        ({
            let d3 = splice(
                splice(splice(d, o as int, rec), entry_pos(slot), entry_bytes(o, rec.len() as u16)),
                0,
                header_bytes(c as u16, f as u16),
            );
            &&& layout_wf(d3, c, f)
            &&& records_of(d3, c) == records_of(d, c).update(slot, Some(rec))
        }),
{
    let d1 = splice(d, o as int, rec);
    let eb = entry_bytes(o, rec.len() as u16);
    let d2 = splice(d1, entry_pos(slot), eb);
    let hb = header_bytes(c as u16, f as u16);
    let d3 = splice(d2, 0, hb);
    assert(hb.len() == 8 && eb.len() == 4) by {
        lemma_auto_spec_u16_to_from_le_bytes();
    }
    lemma_splice_read(d, o as int, rec, 0, 0);
    lemma_splice_read(d1, entry_pos(slot), eb, 0, 0);
    lemma_splice_read(d2, 0, hb, 0, 0);
    assert forall|i: int| 0 <= i < c && i != slot implies slot_entry(d3, i) == slot_entry(d, i)
        && record_at(d3, i) == record_at(d, i) by {
        assert(slot_entry(d, slot) matches Some((o1, l1)) ==> (slot_entry(d, i) matches Some(
            (o2, l2),
        ) ==> disjoint(o1 as int, l1 as int, o2 as int, l2 as int)));
        lemma_write_misses_slot(d, o as int, rec, i);
        lemma_write_misses_slot(d1, entry_pos(slot), eb, i);
        lemma_write_misses_slot(d2, 0, hb, i);
    }
    lemma_write_entry(d1, slot, o, rec.len() as u16);
    lemma_splice_read(d2, 0, hb, entry_pos(slot), entry_pos(slot) + 2);
    lemma_splice_read(d2, 0, hb, entry_pos(slot) + 2, entry_pos(slot) + 4);
    assert(raw_entry(d3, slot) == raw_entry(d2, slot));
    assert(slot_entry(d3, slot) == Some((o, rec.len() as u16)));
    lemma_splice_read(d, o as int, rec, o as int, o + rec.len());
    lemma_splice_read(d1, entry_pos(slot), eb, o as int, o + rec.len());
    lemma_splice_read(d2, 0, hb, o as int, o + rec.len());
    assert(record_at(d3, slot) == Some(rec));
    assert forall|i: int, j: int|
        0 <= i < c && 0 <= j < c && i != j && #[trigger] slot_entry(d3, i) is Some
            && #[trigger] slot_entry(d3, j) is Some implies {
        let (o1, l1) = slot_entry(d3, i)->0;
        let (o2, l2) = slot_entry(d3, j)->0;
        disjoint(o1 as int, l1 as int, o2 as int, l2 as int)
    } by {
        assert(slot_entry(d, i) is Some);
        assert(slot_entry(d, j) is Some);
    }
    assert(records_of(d3, c) =~= records_of(d, c).update(slot, Some(rec)));
}


/// Writing a layout's header into a page and loading the layout back from
/// that page gives the same slot count and free-space start.
pub proof fn lemma_header_roundtrip(d: Seq<u8>, slot_count: u16, free_space_start: u16)
    requires
        d.len() >= HEADER_SIZE,
    ensures
        ({
            let t = splice(d, 0, header_bytes(slot_count, free_space_start));
            &&& t.len() == d.len()
            &&& spec_u16_from_le_bytes(t.subrange(0, 2)) == slot_count
            &&& spec_u16_from_le_bytes(t.subrange(2, 4)) == free_space_start
        }),
{
    lemma_auto_spec_u16_to_from_le_bytes();
    let t = splice(d, 0, header_bytes(slot_count, free_space_start));
    assert(t.subrange(0, 2) =~= spec_u16_to_le_bytes(slot_count));
    assert(t.subrange(2, 4) =~= spec_u16_to_le_bytes(free_space_start));
}

/// Header of a slotted page.
#[derive(Debug, Clone, Copy)]
struct SlottedPageHeader {
    /// Number of used slots
    slot_count: u16,
    /// Offset where free space ends (records grow from here)
    free_space_start: u16,
}

impl SlottedPageHeader {
    fn to_bytes(self) -> (b: [u8; 8])
        ensures
            b@ == header_bytes(self.slot_count, self.free_space_start),
    {
        proof {
            lemma_auto_spec_u16_to_from_le_bytes();
        }
        let c = u16_to_le_bytes(self.slot_count);
        let f = u16_to_le_bytes(self.free_space_start);
        let b = [c[0], c[1], f[0], f[1], 0u8, 0u8, 0u8, 0u8];
        assert(b@ =~= header_bytes(self.slot_count, self.free_space_start));
        b
    }

    fn from_bytes(bytes: &[u8; 8]) -> (h: Self)
        ensures
            h.slot_count == spec_u16_from_le_bytes(bytes@.subrange(0, 2)),
            h.free_space_start == spec_u16_from_le_bytes(bytes@.subrange(2, 4)),
    {
        let s = bytes.as_slice();
        Self { slot_count: read_u16_le(s, 0), free_space_start: read_u16_le(s, 2) }
    }
}

/// Manager for a slotted page's record layout.
#[derive(Debug)]
pub struct SlottedPageLayout {
    header: SlottedPageHeader,
}

/// Writes `src` into `dst` at `pos`.
fn write_bytes_at(dst: &mut Vec<u8>, pos: usize, src: &[u8])
    requires
        pos + src@.len() <= old(dst)@.len(),
    ensures
        final(dst)@ == splice(old(dst)@, pos as int, src@),
        final(dst)@.len() == old(dst)@.len(),
{
    let n = dst.len();
    let mut i: usize = 0;
    while i < src.len()
        invariant
            n == dst@.len(),
            pos + src@.len() <= dst@.len(),
            dst@.len() == old(dst)@.len(),
            i <= src@.len(),
            dst@ == old(dst)@.subrange(0, pos as int) + src@.subrange(0, i as int) + old(
                dst,
            )@.subrange(pos + i, old(dst)@.len() as int),
        decreases src@.len() - i,
    {
        dst[pos + i] = src[i];
        i = i + 1;
        assert(dst@ =~= old(dst)@.subrange(0, pos as int) + src@.subrange(0, i as int) + old(
            dst,
        )@.subrange(pos + i, old(dst)@.len() as int));
    }
    assert(src@.subrange(0, i as int) =~= src@);
}

/// Reading inside the written range gives the written bytes; reading outside
/// it gives the old bytes.
pub proof fn lemma_splice_read(s: Seq<u8>, pos: int, b: Seq<u8>, a: int, c: int)
    requires
        0 <= pos,
        pos + b.len() <= s.len(),
        0 <= a <= c <= s.len(),
    ensures
        splice(s, pos, b).len() == s.len(),
        (a == pos && c == pos + b.len()) ==> splice(s, pos, b).subrange(a, c) == b,
        (c <= pos || a >= pos + b.len()) ==> splice(s, pos, b).subrange(a, c) == s.subrange(a, c),
{
    let t = splice(s, pos, b);
    assert(t.len() == s.len());
    if a == pos && c == pos + b.len() {
        assert(t.subrange(a, c) =~= b);
    }
    if c <= pos || a >= pos + b.len() {
        assert(t.subrange(a, c) =~= s.subrange(a, c));
    }
}


/// A write that misses a slot's directory entry and its record leaves that
/// slot's entry and record unchanged.
pub proof fn lemma_write_misses_slot(d: Seq<u8>, pos: int, b: Seq<u8>, i: int)
    requires
        0 <= pos,
        pos + b.len() <= d.len(),
        d.len() >= PAGE_SIZE,
        0 <= i,
        entry_pos(i) + SLOT_ENTRY_SIZE <= PAGE_SIZE,
        disjoint(pos, b.len() as int, entry_pos(i), SLOT_ENTRY_SIZE as int),
        slot_entry(d, i) matches Some((o, l)) ==> (o + l <= PAGE_SIZE ==> disjoint(
            pos,
            b.len() as int,
            o as int,
            l as int,
        )),
    ensures
        slot_entry(splice(d, pos, b), i) == slot_entry(d, i),
        record_at(splice(d, pos, b), i) == record_at(d, i),
{
    let e = entry_pos(i);
    lemma_splice_read(d, pos, b, e, e + 2);
    lemma_splice_read(d, pos, b, e + 2, e + 4);
    if let Some((o, l)) = slot_entry(d, i) {
        if o + l <= PAGE_SIZE {
            lemma_splice_read(d, pos, b, o as int, o + l);
        }
    }
}

/// After writing the entry bytes (offset, length) for a slot, the slot reads
/// as that entry.
pub proof fn lemma_write_entry(d: Seq<u8>, i: int, offset: u16, length: u16)
    requires
        d.len() >= PAGE_SIZE,
        0 <= i,
        entry_pos(i) + SLOT_ENTRY_SIZE <= PAGE_SIZE,
    ensures
        raw_entry(splice(d, entry_pos(i), entry_bytes(offset, length)), i) == (offset, length),
{
    lemma_auto_spec_u16_to_from_le_bytes();
    let e = entry_pos(i);
    let t = splice(d, e, entry_bytes(offset, length));
    assert(t.subrange(e, e + 2) =~= spec_u16_to_le_bytes(offset));
    assert(t.subrange(e + 2, e + 4) =~= spec_u16_to_le_bytes(length));
}

impl SlottedPageLayout {
    /// The number of slots allocated.
    pub closed spec fn count(&self) -> u16 {
        self.header.slot_count
    }

    /// Where the record area begins.
    pub closed spec fn free_start(&self) -> u16 {
        self.header.free_space_start
    }

    /// The records of the allocated slots, in slot order.
    pub open spec fn records(&self, data: Seq<u8>) -> Seq<Option<Seq<u8>>> {
        records_of(data, self.count() as int)
    }

    /// The free bytes between the slot directory and the record area.
    pub open spec fn spec_free_space(&self) -> int {
        let used = self.count() * SLOT_ENTRY_SIZE + HEADER_SIZE + (PAGE_SIZE - self.free_start());
        if used <= PAGE_SIZE {
            PAGE_SIZE - used
        } else {
            0
        }
    }

    /// Whether a record of `len` bytes can be inserted: it must fit below
    /// the record area together with one more directory entry.
    pub open spec fn spec_fits(&self, len: int) -> bool {
        len + HEADER_SIZE + (self.count() + 1) * SLOT_ENTRY_SIZE <= self.free_start()
    }

    /// A layout and page bytes that agree: the directory lies below the record
    /// area, and every used slot holds a record inside the record area that
    /// overlaps no other slot's record.
    pub open spec fn wf(&self, data: Seq<u8>) -> bool {
        layout_wf(data, self.count() as int, self.free_start() as int)
    }

    /// Create a new slotted page layout.
    pub fn new() -> (r: Self)
        ensures
            r.count() == 0,
            r.free_start() == PAGE_SIZE,
            forall|d: Seq<u8>| d.len() >= PAGE_SIZE ==> #[trigger] r.wf(d),
    {
        Self { header: SlottedPageHeader { slot_count: 0, free_space_start: PAGE_SIZE as u16 } }
    }

    /// Load layout from page data.
    pub fn from_page(page: &Page) -> (r: Result<Self>)
        ensures
            match r {
                Ok(l) => {
                    &&& page.data@.len() >= HEADER_SIZE
                    &&& l.count() == spec_u16_from_le_bytes(page.data@.subrange(0, 2))
                    &&& l.free_start() == spec_u16_from_le_bytes(page.data@.subrange(2, 4))
                },
                Err(e) => e is StorageError && page.data@.len() < HEADER_SIZE,
            },
    {
        if page.data.len() < HEADER_SIZE {
            return Err(storage_error("Page too small for slotted layout"));
        }
        let mut header_bytes = [0u8; 8];
        let mut i: usize = 0;
        while i < 8
            invariant
                i <= 8,
                page.data@.len() >= 8,
                forall|k: int| 0 <= k < i ==> header_bytes@[k] == page.data@[k],
            decreases 8 - i,
        {
            header_bytes[i] = page.data[i];
            i = i + 1;
        }
        assert(header_bytes@.subrange(0, 2) =~= page.data@.subrange(0, 2));
        assert(header_bytes@.subrange(2, 4) =~= page.data@.subrange(2, 4));
        let header = SlottedPageHeader::from_bytes(&header_bytes);
        Ok(Self { header })
    }

    /// Write layout back to page data.
    pub fn to_page(&self, page: &mut Page) -> (r: Result<()>)
        requires
            old(page).data@.len() >= HEADER_SIZE,
        ensures
            r is Ok,
            final(page).data@ == splice(
                old(page).data@,
                0,
                header_bytes(self.count(), self.free_start()),
            ),
            final(page).page_id == old(page).page_id,
            final(page).page_type == old(page).page_type,
            final(page).is_dirty == old(page).is_dirty,
    {
        let header_bytes = self.header.to_bytes();
        write_bytes_at(&mut page.data, 0, header_bytes.as_slice());
        Ok(())
    }

    /// Calculate the offset of a slot in the directory.
    fn slot_offset(&self, slot_id: SlotId) -> (r: usize)
        ensures
            r == entry_pos(slot_id.0 as int),
    {
        HEADER_SIZE + (slot_id.as_u16() as usize) * SLOT_ENTRY_SIZE
    }

    /// Get the directory entry for a slot.
    fn get_slot_entry(&self, page: &Page, slot_id: SlotId) -> (r: Result<Option<(u16, u16)>>)
        requires
            page.data@.len() >= PAGE_SIZE,
        ensures
            r == Ok::<Option<(u16, u16)>, Error>(slot_entry(page.data@, slot_id.0 as int)),
    {
        let offset = self.slot_offset(slot_id);
        if offset + SLOT_ENTRY_SIZE > PAGE_SIZE {
            return Ok(None);
        }
        let data = page.data.as_slice();
        let record_offset = read_u16_le(data, offset);
        let record_length = read_u16_le(data, offset + 2);
        // A slot with offset 0 and length 0 is unused
        if record_offset == 0 && record_length == 0 {
            return Ok(None);
        }
        Ok(Some((record_offset, record_length)))
    }

    /// Set a slot directory entry.
    fn set_slot_entry(&mut self, page: &mut Page, slot_id: SlotId, offset: u16, length: u16) -> (r:
        Result<()>)
        requires
            old(page).data@.len() >= PAGE_SIZE,
        ensures
            *final(self) == *old(self),
            final(page).page_id == old(page).page_id,
            final(page).page_type == old(page).page_type,
            final(page).is_dirty == old(page).is_dirty,
            match r {
                Ok(()) => {
                    &&& entry_pos(slot_id.0 as int) + SLOT_ENTRY_SIZE <= PAGE_SIZE
                    &&& final(page).data@ == splice(
                        old(page).data@,
                        entry_pos(slot_id.0 as int),
                        entry_bytes(offset, length),
                    )
                },
                Err(e) => {
                    &&& e is StorageError
                    &&& entry_pos(slot_id.0 as int) + SLOT_ENTRY_SIZE > PAGE_SIZE
                    &&& final(page).data@ == old(page).data@
                },
            },
    {
        proof {
            lemma_auto_spec_u16_to_from_le_bytes();
        }
        let dir_offset = self.slot_offset(slot_id);
        if dir_offset + SLOT_ENTRY_SIZE > PAGE_SIZE {
            return Err(storage_error("Slot directory overflow"));
        }
        let o = u16_to_le_bytes(offset);
        let l = u16_to_le_bytes(length);
        let entry = [o[0], o[1], l[0], l[1]];
        assert(entry@ =~= entry_bytes(offset, length));
        write_bytes_at(&mut page.data, dir_offset, entry.as_slice());
        Ok(())
    }

    /// Insert a record and return the slot ID.
    pub fn insert_record(&mut self, page: &mut Page, record: &[u8]) -> (r: Result<SlotId>)
        requires
            old(page).data@.len() >= PAGE_SIZE,
            old(self).free_start() <= PAGE_SIZE,
        ensures
            final(page).page_id == old(page).page_id,
            final(page).page_type == old(page).page_type,
            final(page).is_dirty == old(page).is_dirty,
            match r {
                Ok(slot) => {
                    let off = (old(self).free_start() - record@.len()) as u16;
                    &&& old(self).spec_fits(record@.len() as int)
                    &&& slot.0 == old(self).count()
                    &&& final(self).count() == old(self).count() + 1
                    &&& final(self).free_start() == off
                    &&& old(self).wf(old(page).data@) ==> {
                        &&& final(self).wf(final(page).data@)
                        &&& final(self).records(final(page).data@) == old(self).records(
                            old(page).data@,
                        ).push(Some(record@))
                        &&& final(self).spec_free_space() == old(self).spec_free_space()
                            - record@.len() - SLOT_ENTRY_SIZE
                    }
                    &&& final(page).data@ == splice(
                        splice(
                            splice(old(page).data@, off as int, record@),
                            entry_pos(slot.0 as int),
                            entry_bytes(off, record@.len() as u16),
                        ),
                        0,
                        header_bytes(final(self).count(), final(self).free_start()),
                    )
                },
                Err(e) => {
                    &&& e is StorageError
                    &&& !old(self).spec_fits(record@.len() as int)
                    &&& *final(self) == *old(self)
                    &&& final(page).data@ == old(page).data@
                },
            },
    {
        let record_len = record.len();
        if !self.can_fit(record_len) {
            return Err(storage_error("Page cannot fit record"));
        }
        let dir_entries_size = (self.header.slot_count as usize + 1) * SLOT_ENTRY_SIZE;
        let record_offset = self.header.free_space_start as usize - record_len;
        if record_offset < dir_entries_size + HEADER_SIZE {
            return Err(storage_error("Page full - insufficient space for record"));
        }
        // Write the record
        write_bytes_at(&mut page.data, record_offset, record);
        // Add directory entry
        let slot_id = SlotId::new(self.header.slot_count);
        let entry = self.set_slot_entry(page, slot_id, record_offset as u16, record_len as u16);
        if entry.is_err() {
            return Err(storage_error("Slot directory overflow"));
        }
        proof {
            if old(self).wf(old(page).data@) {
                lemma_insert_records(
                    old(page).data@,
                    old(self).count() as int,
                    old(self).free_start() as int,
                    record@,
                );
            }
        }
        // Update header
        self.header.slot_count = self.header.slot_count + 1;
        self.header.free_space_start = record_offset as u16;
        let _ = self.to_page(page);
        Ok(slot_id)
    }

    /// Read a record from a slot.
    pub fn read_record(&self, page: &Page, slot_id: SlotId) -> (r: Result<Option<Vec<u8>>>)
        requires
            page.data@.len() >= PAGE_SIZE,
        ensures
            match slot_entry(page.data@, slot_id.0 as int) {
                None => r matches Ok(None),
                Some((o, l)) => if o + l > PAGE_SIZE {
                    r matches Err(Error::StorageError { .. })
                } else {
                    r matches Ok(Some(v)) && v@ == page.data@.subrange(o as int, o + l)
                },
            },
            (self.wf(page.data@) && slot_id.0 < self.count()) ==> match r {
                Ok(Some(v)) => self.records(page.data@)[slot_id.0 as int] == Some(v@),
                Ok(None) => self.records(page.data@)[slot_id.0 as int] is None,
                Err(_) => false,
            },
    {
        match self.get_slot_entry(page, slot_id) {
            Ok(Some((offset, length))) => {
                let offset = offset as usize;
                let length = length as usize;
                if offset + length > PAGE_SIZE {
                    return Err(storage_error("Invalid slot entry: exceeds page size"));
                }
                let mut out: Vec<u8> = Vec::with_capacity(length);
                let mut i: usize = 0;
                while i < length
                    invariant
                        offset + length <= PAGE_SIZE <= page.data@.len(),
                        i <= length,
                        out@ == page.data@.subrange(offset as int, offset + i),
                    decreases length - i,
                {
                    out.push(page.data[offset + i]);
                    i = i + 1;
                    assert(out@ =~= page.data@.subrange(offset as int, offset + i));
                }
                Ok(Some(out))
            },
            _ => Ok(None),
        }
    }

    /// Delete a record (mark slot as unused).
    pub fn delete_record(&mut self, page: &mut Page, slot_id: SlotId) -> (r: Result<()>)
        requires
            old(page).data@.len() >= PAGE_SIZE,
        ensures
            *final(self) == *old(self),
            final(page).page_id == old(page).page_id,
            final(page).page_type == old(page).page_type,
            final(page).is_dirty == old(page).is_dirty,
            match r {
                Ok(()) => {
                    &&& entry_pos(slot_id.0 as int) + SLOT_ENTRY_SIZE <= PAGE_SIZE
                    &&& (old(self).wf(old(page).data@) && slot_id.0 < old(self).count()) ==> {
                        &&& final(self).wf(final(page).data@)
                        &&& final(self).records(final(page).data@) == old(self).records(
                            old(page).data@,
                        ).update(slot_id.0 as int, None)
                    }
                    &&& final(page).data@ == splice(
                        splice(old(page).data@, entry_pos(slot_id.0 as int), entry_bytes(0, 0)),
                        0,
                        header_bytes(old(self).count(), old(self).free_start()),
                    )
                },
                Err(e) => {
                    &&& e is StorageError
                    &&& entry_pos(slot_id.0 as int) + SLOT_ENTRY_SIZE > PAGE_SIZE
                    &&& final(page).data@ == old(page).data@
                },
            },
    {
        let r = self.set_slot_entry(page, slot_id, 0, 0);
        match r {
            Ok(()) => {
                proof {
                    if old(self).wf(old(page).data@) && slot_id.0 < old(self).count() {
                        lemma_delete_records(
                            old(page).data@,
                            old(self).count() as int,
                            old(self).free_start() as int,
                            slot_id.0 as int,
                        );
                    }
                }
            },
            Err(e) => {
                return Err(e);
            },
        }
        let _ = self.to_page(page);
        Ok(())
    }

    /// Overwrite an existing record in place when the new record is no longer
    /// than the one in the slot; the slot keeps its offset and takes the new
    /// length.
    pub fn overwrite_record(&mut self, page: &mut Page, slot_id: SlotId, record: &[u8]) -> (r:
        Result<()>)
        requires
            old(page).data@.len() >= PAGE_SIZE,
            slot_entry(old(page).data@, slot_id.0 as int) matches Some((o, l)) ==> (record@.len()
                <= l ==> o + record@.len() <= old(page).data@.len()),
        ensures
            *final(self) == *old(self),
            final(page).page_id == old(page).page_id,
            final(page).page_type == old(page).page_type,
            final(page).is_dirty == old(page).is_dirty,
            match r {
                Ok(()) => slot_entry(old(page).data@, slot_id.0 as int) matches Some((o, l)) && {
                    &&& record@.len() <= l
                    &&& (old(self).wf(old(page).data@) && slot_id.0 < old(self).count()) ==> {
                        &&& final(self).wf(final(page).data@)
                        &&& final(self).records(final(page).data@) == old(self).records(
                            old(page).data@,
                        ).update(slot_id.0 as int, Some(record@))
                    }
                    &&& final(page).data@ == splice(
                        splice(
                            splice(old(page).data@, o as int, record@),
                            entry_pos(slot_id.0 as int),
                            entry_bytes(o, record@.len() as u16),
                        ),
                        0,
                        header_bytes(old(self).count(), old(self).free_start()),
                    )
                },
                Err(e) => {
                    &&& e is StorageError
                    &&& final(page).data@ == old(page).data@
                    &&& match slot_entry(old(page).data@, slot_id.0 as int) {
                        None => true,
                        Some((o, l)) => record@.len() > l,
                    }
                },
            },
    {
        match self.get_slot_entry(page, slot_id) {
            Ok(Some((offset, length))) => {
                let existing_len = length as usize;
                let new_len = record.len();
                if new_len > existing_len {
                    return Err(storage_error("New record does not fit in existing slot"));
                }
                let off = offset as usize;
                proof {
                    if old(self).wf(old(page).data@) && slot_id.0 < old(self).count() {
                        lemma_overwrite_records(
                            old(page).data@,
                            old(self).count() as int,
                            old(self).free_start() as int,
                            slot_id.0 as int,
                            offset,
                            length,
                            record@,
                        );
                    }
                }
                write_bytes_at(&mut page.data, off, record);
                let r = self.set_slot_entry(page, slot_id, offset, new_len as u16);
                if r.is_err() {
                    return Err(storage_error("Slot directory overflow"));
                }
                let _ = self.to_page(page);
                Ok(())
            },
            _ => Err(storage_error("Slot not found")),
        }
    }

    /// Calculate free space on this page.
    pub fn free_space(&self) -> (r: usize)
        requires
            self.free_start() <= PAGE_SIZE,
        ensures
            r == self.spec_free_space(),
    {
        let dir_size = (self.header.slot_count as usize) * SLOT_ENTRY_SIZE;
        let used_space = dir_size + HEADER_SIZE + (PAGE_SIZE - self.header.free_space_start as usize);
        PAGE_SIZE.saturating_sub(used_space)
    }

    /// Can this page accommodate a record of this size, together with the
    /// directory entry that records it?
    pub fn can_fit(&self, record_size: usize) -> (r: bool)
        requires
            self.free_start() <= PAGE_SIZE,
        ensures
            r == (record_size + SLOT_ENTRY_SIZE <= self.spec_free_space()),
            r == self.spec_fits(record_size as int),
    {
        if record_size > PAGE_SIZE {
            return false;
        }
        let dir_size = (self.header.slot_count as usize) * SLOT_ENTRY_SIZE;
        let used_space = HEADER_SIZE + dir_size + (PAGE_SIZE - self.header.free_space_start as usize);
        let free_space = PAGE_SIZE.saturating_sub(used_space);
        free_space >= record_size + SLOT_ENTRY_SIZE
    }

    /// Whether the header's free-space start lies within the page.
    pub fn fits_page(&self) -> (r: bool)
        ensures
            r == (self.free_start() <= PAGE_SIZE),
    {
        self.header.free_space_start as usize <= PAGE_SIZE
    }

    /// Get number of slots allocated.
    pub fn slot_count(&self) -> (r: u16)
        ensures
            r == self.count(),
    {
        self.header.slot_count
    }
}

} // verus!
