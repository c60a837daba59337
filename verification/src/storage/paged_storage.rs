//! The logic of paged storage that needs no file: placing encoded records in
//! slotted pages through a page manager, and the base64 text in which the
//! write-ahead log carries a record.
use crate::assoc::{assoc_map, keys_of, pair_set, lemma_assoc_contains, lemma_assoc_first, lemma_distinct_first};
use crate::error::{storage_error, Error, Result};
use crate::object::{Object, ObjectId, ObjectView};
use crate::schema::{schema_valid, Schema};
use crate::storage::binary_codec::{decode_spec, record_spec, BinaryEncoder, MAX_INLINE_RECORD_SIZE};
use crate::storage::{StorageBackend, StorageSummary};
use crate::storage::location_index::{ids_under, loc_entries, location_of, ObjectLocationIndex};
use crate::storage::page::{Page, PageId, PageType, RecordLocation, SlotId, PAGE_SIZE};
use crate::storage::page_manager::PageManager;
use crate::storage::slotted_page::{entry_pos, record_at, SlottedPageLayout, HEADER_SIZE, SLOT_ENTRY_SIZE};
use crate::storage::wal::{record_bytes, Wal, WalRecordType, WalRecordView};
use base64::Engine;
use vstd::bytes::spec_u16_from_le_bytes;
use vstd::prelude::*;

verus! {

/// The standard base64 text (with padding) of some bytes.
pub uninterp spec fn base64_encoded(bytes: Seq<u8>) -> Seq<char>;

/// The bytes a standard base64 text decodes to, if it is valid.
pub uninterp spec fn base64_decoded(text: Seq<char>) -> Option<Seq<u8>>;

/// `base64::engine::general_purpose::STANDARD.encode`: the padded standard
/// base64 text of the bytes, which the same engine decodes back to them. The
/// length bound keeps the output length from overflowing, where the crate
/// panics.
#[verifier::external_body]
fn encode_base64(bytes: &[u8]) -> (r: String)
    requires
        bytes@.len() / 3 * 4 + 4 <= usize::MAX,
    ensures
        r@ == base64_encoded(bytes@),
        base64_decoded(r@) == Some(bytes@),
{
    base64::engine::general_purpose::STANDARD.encode(bytes)
}

/// `base64::engine::general_purpose::STANDARD.decode`: the bytes a standard
/// base64 text stands for, or None when the text is not valid base64.
#[verifier::external_body]
fn decode_base64(text: &str) -> (r: Option<Vec<u8>>)
    ensures
        match r {
            Some(b) => base64_decoded(text@) == Some(b@),
            None => base64_decoded(text@) is None,
        },
{
    match base64::engine::general_purpose::STANDARD.decode(text) {
        Ok(b) => Some(b),
        Err(_) => None,
    }
}

/// The text in which the log carries an encoded record; reading the text
/// back with `decode_payload_data` gives the record unchanged.
pub fn encode_payload_data(record: &[u8]) -> (r: String)
    requires
        record@.len() / 3 * 4 + 4 <= usize::MAX,
    ensures
        r@ == base64_encoded(record@),
        base64_decoded(r@) == Some(record@),
{
    encode_base64(record)
}

/// The record a log entry carries; text that is not valid base64 carries
/// no bytes.
pub fn decode_payload_data(text: &str) -> (r: Vec<u8>)
    ensures
        r@ == match base64_decoded(text@) {
            Some(b) => b,
            None => Seq::<u8>::empty(),
        },
{
    match decode_base64(text) {
        Some(b) => b,
        None => Vec::new(),
    }
}

/// Places an encoded record in the first object page that has room for it,
/// scanning the pages the storage holds from page 1 on; when none has room,
/// allocates a new object page for it. A page that is not a full page, or
/// whose header points past its end, is refused as corrupt. The scan that
/// led to the location is stated step by step by `place_record`.
pub fn insert_record_into_pages(pm: &mut PageManager, record: &[u8]) -> (r: Result<RecordLocation>)
    ensures
        r is Ok ==> record@.len() + HEADER_SIZE + SLOT_ENTRY_SIZE <= PAGE_SIZE,
        r matches Ok(loc) ==> exists|steps: Seq<Effect>|
            #[trigger] placement_steps(record@.len() as int, loc, steps),
{
    let mut steps: Ghost<Seq<Effect>> = Ghost(Seq::empty());
    let r = place_record(pm, record, &mut steps);
    proof {
        if r is Ok {
            assert(steps@.skip(0) =~= steps@);
        }
    }
    r
}

/// Whether a page read back takes a record of `len` bytes: an object page,
/// a full page, whose header's free-space start lies within the page and
/// leaves room below it for the record and one more directory entry.
pub open spec fn page_takes(t: PageType, d: Seq<u8>, len: int) -> bool {
    let count = spec_u16_from_le_bytes(d.subrange(0, 2));
    let free = spec_u16_from_le_bytes(d.subrange(2, 4));
    &&& t == PageType::Object
    &&& d.len() >= PAGE_SIZE
    &&& free <= PAGE_SIZE
    &&& len + HEADER_SIZE + (count + 1) * SLOT_ENTRY_SIZE <= free
}

/// A step of the scan for a page with room that passes over page `pid`:
/// it could not be read, or it does not take the record.
pub open spec fn passes_over(e: Effect, pid: int, len: int) -> bool {
    ||| e == Effect::PageReadFailed(PageId(pid as u32))
    ||| e matches Effect::PageScanned(p, t, d) && p.0 == pid && !page_takes(t, d, len)
}

/// The steps of placing a record of `len` bytes at `loc`: the storage size
/// read; then pages 1, 2, ... scanned in turn, passing over each that does
/// not take the record, up to the first that does, where the record goes
/// into the next slot of its directory; or, when none of the pages the size
/// counts takes it, a new page allocated, where the record takes slot 0.
pub open spec fn placement_steps(len: int, loc: RecordLocation, steps: Seq<Effect>) -> bool {
    let n = size_of_step(steps[0]);
    let last = (n / (PAGE_SIZE as u64)) as u32 as int;
    &&& steps.len() >= 2
    &&& steps[0] == Effect::SizeRead(n)
    &&& steps.last() == Effect::RecordPlaced(loc)
    &&& {
        ||| {
            &&& 3 <= steps.len() <= last + 2
            &&& forall|j: int| 1 <= j < steps.len() - 2 ==> passes_over(#[trigger] steps[j], j, len)
            &&& steps[steps.len() - 2] matches Effect::PageScanned(p, t, d) && p.0
                == steps.len() - 2 && page_takes(t, d, len) && loc.page_id == p && loc.slot_id.0
                == spec_u16_from_le_bytes(d.subrange(0, 2))
        }
        ||| {
            &&& steps.len() == last + 3
            &&& forall|j: int| 1 <= j <= last ==> passes_over(#[trigger] steps[j], j, len)
            &&& steps[last + 1] == Effect::PageAllocated(loc.page_id)
            &&& loc.slot_id.0 == 0
        }
    }
}

/// The size a `SizeRead` step records.
pub open spec fn size_of_step(e: Effect) -> u64 {
    match e {
        Effect::SizeRead(n) => n,
        _ => 0,
    }
}

/// `insert_record_into_pages`, with the steps it takes appended to
/// `effects`: the size read, each page scanned, and where the record went.
pub fn place_record(pm: &mut PageManager, record: &[u8], effects: &mut Ghost<Seq<Effect>>) -> (r: Result<
    RecordLocation,
>)
    ensures
        r is Ok ==> record@.len() + HEADER_SIZE + SLOT_ENTRY_SIZE <= PAGE_SIZE,
        r is Ok ==> final(effects)@.len() >= old(effects)@.len(),
        r is Ok ==> final(effects)@.take(old(effects)@.len() as int) == old(effects)@,
        r matches Ok(loc) ==> placement_steps(
            record@.len() as int,
            loc,
            final(effects)@.skip(old(effects)@.len() as int),
        ),
{
    let ghost start = effects@;
    let ghost len = record@.len() as int;
    let size = pm.size()?;
    proof {
        effects@ = effects@.push(Effect::SizeRead(size));
    }
    let last: u32 = (size / (PAGE_SIZE as u64)) as u32;
    let mut pid: u64 = 1;
    while pid <= last as u64
        invariant
            1 <= pid <= last as u64 + 1,
            last == (size / (PAGE_SIZE as u64)) as u32,
            len == record@.len(),
            start == old(effects)@,
            effects@.len() == start.len() + pid,
            effects@.take(start.len() as int) == start,
            effects@[start.len() as int] == Effect::SizeRead(size),
            forall|j: int| 1 <= j < pid ==> passes_over(#[trigger] effects@[start.len() + j], j, len),
        decreases last as u64 + 1 - pid,
    {
        let ghost before = effects@;
        let page_id = PageId::new(pid as u32);
        match pm.read_page(page_id) {
            Ok(mut page) => {
                let ghost step = Effect::PageScanned(page_id, page.page_type, page.data@);
                proof {
                    effects@ = effects@.push(step);
                }
                if page.page_type == PageType::Object {
                    if page.data.len() < PAGE_SIZE {
                        return Err(storage_error("Object page is shorter than a page"));
                    }
                    let mut layout = SlottedPageLayout::from_page(&page)?;
                    if !layout.fits_page() {
                        return Err(storage_error("Slotted page header points past the page"));
                    }
                    if layout.can_fit(record.len()) {
                        let slot = layout.insert_record(&mut page, record)?;
                        pm.write_page(&page)?;
                        let loc = RecordLocation::new(page_id, slot);
                        proof {
                            effects@ = effects@.push(Effect::RecordPlaced(loc));
                            let steps = effects@.skip(start.len() as int);
                            assert(effects@.take(start.len() as int) =~= start);
                            assert forall|j: int| 1 <= j < steps.len() - 2 implies passes_over(
                                #[trigger] steps[j],
                                j,
                                len,
                            ) by {
                                assert(steps[j] == effects@[start.len() + j]);
                            }
                            assert(steps[0] == Effect::SizeRead(size));
                            assert(steps[steps.len() - 2] == step);
                            assert(page_takes(page.page_type, before_data(step), len));
                        }
                        return Ok(loc);
                    }
                }
                proof {
                    assert(passes_over(step, pid as int, len));
                }
            },
            Err(_) => {
                proof {
                    effects@ = effects@.push(Effect::PageReadFailed(page_id));
                }
            },
        }
        proof {
            assert forall|j: int| 1 <= j < pid + 1 implies passes_over(
                #[trigger] effects@[start.len() + j],
                j,
                len,
            ) by {
                if j < pid {
                    assert(effects@[start.len() + j] == before[start.len() + j]);
                }
            }
            assert(effects@.take(start.len() as int) =~= start);
        }
        pid = pid + 1;
    }
    let page_id = pm.allocate_page(PageType::Object)?;
    proof {
        effects@ = effects@.push(Effect::PageAllocated(page_id));
    }
    let mut page = pm.read_page(page_id)?;
    if page.data.len() < PAGE_SIZE {
        return Err(storage_error("Allocated page is shorter than a page"));
    }
    let mut layout = SlottedPageLayout::new();
    let slot = layout.insert_record(&mut page, record)?;
    pm.write_page(&page)?;
    let loc = RecordLocation::new(page_id, slot);
    proof {
        effects@ = effects@.push(Effect::RecordPlaced(loc));
        let steps = effects@.skip(start.len() as int);
        assert(effects@.take(start.len() as int) =~= start);
        assert forall|j: int| 1 <= j <= last implies passes_over(#[trigger] steps[j], j, len) by {
            assert(steps[j] == effects@[start.len() + j]);
        }
        assert(steps[0] == Effect::SizeRead(size));
    }
    Ok(loc)
}

/// The bytes a `PageScanned` step records.
pub open spec fn before_data(e: Effect) -> Seq<u8> {
    match e {
        Effect::PageScanned(_, _, d) => d,
        _ => Seq::empty(),
    }
}

/// The location a persisted index entry (type, id, page, slot) records.
pub open spec fn entry_location(e: (String, String, u32, u16)) -> RecordLocation {
    RecordLocation { page_id: PageId(e.2), slot_id: SlotId(e.3) }
}

/// The index that loading persisted entries in order builds: each entry
/// places its object, a later entry for the same object winning.
pub open spec fn entries_index(e: Seq<(String, String, u32, u16)>) -> Map<
    Seq<char>,
    Map<Seq<char>, RecordLocation>,
>
    decreases e.len(),
{
    if e.len() == 0 {
        Map::empty()
    } else {
        let m = entries_index(e.drop_last());
        let x = e.last();
        m.insert(x.0@, ids_under(m, x.0@).insert(x.1@, entry_location(x)))
    }
}

/// Loading entries that agree with a location function gives, for every
/// object, the location of its entries, or none when it has no entry.
pub proof fn lemma_entries_index_agree(
    e: Seq<(String, String, u32, u16)>,
    t: Seq<char>,
    o: Seq<char>,
    loc: RecordLocation,
)
    requires
        forall|k: int|
            0 <= k < e.len() && (#[trigger] e[k]).0@ == t && e[k].1@ == o ==> entry_location(e[k])
                == loc,
    ensures
        location_of(entries_index(e), t, o) == if exists|k: int|
            0 <= k < e.len() && (#[trigger] e[k]).0@ == t && e[k].1@ == o {
            Some(loc)
        } else {
            None::<RecordLocation>
        },
    decreases e.len(),
{
    if e.len() > 0 {
        let d = e.drop_last();
        assert forall|k: int|
            0 <= k < d.len() && (#[trigger] d[k]).0@ == t && d[k].1@ == o implies entry_location(d[k])
            == loc by {
            assert(d[k] == e[k]);
        }
        lemma_entries_index_agree(d, t, o, loc);
        if exists|k: int| 0 <= k < d.len() && (#[trigger] d[k]).0@ == t && d[k].1@ == o {
            let k = choose|k: int| 0 <= k < d.len() && (#[trigger] d[k]).0@ == t && d[k].1@ == o;
            assert(e[k] == d[k]);
        }
        if exists|k: int| 0 <= k < e.len() && (#[trigger] e[k]).0@ == t && e[k].1@ == o {
            let k = choose|k: int| 0 <= k < e.len() && (#[trigger] e[k]).0@ == t && e[k].1@ == o;
            if k < d.len() {
                assert(d[k] == e[k]);
            }
        }
    }
}

/// Builds the location index from persisted entries, in order.
pub fn index_from_entries(entries: &Vec<(String, String, u32, u16)>) -> (r: ObjectLocationIndex)
    ensures
        r.wf(),
        r@ == entries_index(entries@),
{
    let mut index = ObjectLocationIndex::new();
    let mut i: usize = 0;
    while i < entries.len()
        invariant
            i <= entries@.len(),
            index.wf(),
            index@ == entries_index(entries@.take(i as int)),
        decreases entries@.len() - i,
    {
        let e = &entries[i];
        let id = ObjectId::new(e.0.as_str(), e.1.as_str());
        index.insert(&id, RecordLocation::new(PageId::new(e.2), SlotId::new(e.3)));
        assert(entries@.take(i + 1).drop_last() =~= entries@.take(i as int));
        i = i + 1;
    }
    assert(entries@.take(i as int) =~= entries@);
    index
}

/// The entries to persist for an index: one (type, id, page, slot) entry
/// for each object the index places, each recording that object's
/// location.
pub fn location_entries(index: &ObjectLocationIndex) -> (r: Vec<(String, String, u32, u16)>)
    requires
        index.wf(),
    ensures
        forall|k: int|
            0 <= k < r@.len() ==> location_of(index@, (#[trigger] r@[k]).0@, r@[k].1@) == Some(
                entry_location(r@[k]),
            ),
        forall|t: Seq<char>, o: Seq<char>|
            #[trigger] location_of(index@, t, o) is Some ==> exists|k: int|
                0 <= k < r@.len() && (#[trigger] r@[k]).0@ == t && r@[k].1@ == o,
{
    let types = index.types();
    let ghost tv = types@.map_values(|s: String| s@);
    let mut out: Vec<(String, String, u32, u16)> = Vec::new();
    let mut i: usize = 0;
    while i < types.len()
        invariant
            i <= types@.len(),
            index.wf(),
            tv == types@.map_values(|s: String| s@),
            tv.to_set() == index@.dom(),
            forall|k: int|
                0 <= k < out@.len() ==> location_of(index@, (#[trigger] out@[k]).0@, out@[k].1@)
                    == Some(entry_location(out@[k])),
            forall|t: Seq<char>, o: Seq<char>|
                #![trigger location_of(index@, t, o)]
                location_of(index@, t, o) is Some && tv.take(i as int).contains(t) ==> exists|k: int|
                    0 <= k < out@.len() && (#[trigger] out@[k]).0@ == t && out@[k].1@ == o,
        decreases types@.len() - i,
    {
        let t = &types[i];
        let ids = index.get_all_by_type(t.as_str());
        let ghost f = loc_entries(ids@);
        let ghost start = out@.len();
        let mut j: usize = 0;
        while j < ids.len()
            invariant
                j <= ids@.len(),
                start <= out@.len(),
                index.wf(),
                f == loc_entries(ids@),
                assoc_map(f) == ids_under(index@, t@),
                keys_of(f).no_duplicates(),
                forall|k: int|
                    0 <= k < out@.len() ==> location_of(
                        index@,
                        (#[trigger] out@[k]).0@,
                        out@[k].1@,
                    ) == Some(entry_location(out@[k])),
                forall|m: int|
                    0 <= m < j ==> exists|k: int|
                        start <= k < out@.len() && (#[trigger] out@[k]).0@ == t@ && out@[k].1@
                            == (#[trigger] ids@[m]).0@,
                forall|t2: Seq<char>, o: Seq<char>|
                    #![trigger location_of(index@, t2, o)]
                    location_of(index@, t2, o) is Some && tv.take(i as int).contains(t2)
                        ==> exists|k: int|
                        0 <= k < out@.len() && (#[trigger] out@[k]).0@ == t2 && out@[k].1@ == o,
            decreases ids@.len() - j,
        {
            proof {
                lemma_distinct_first(f, j as int);
                lemma_assoc_first(f, f[j as int].0, j as int);
            }
            let entry = (
                t.clone(),
                ids[j].0.clone(),
                ids[j].1.page_id.as_u32(),
                ids[j].1.slot_id.as_u16(),
            );
            let ghost prev = out@;
            out.push(entry);
            proof {
                let last = out@.len() - 1;
                assert(out@[last].0@ == t@);
                assert(out@[last].1@ == ids@[j as int].0@);
                assert forall|m: int| 0 <= m < j + 1 implies exists|k: int|
                    start <= k < out@.len() && (#[trigger] out@[k]).0@ == t@ && out@[k].1@
                        == (#[trigger] ids@[m]).0@ by {
                    if m == j {
                        assert(out@[last].1@ == ids@[m].0@);
                    } else {
                        let k = choose|k: int|
                            start <= k < prev.len() && (#[trigger] prev[k]).0@ == t@ && prev[k].1@
                                == ids@[m].0@;
                        assert(out@[k] == prev[k]);
                    }
                }
                assert forall|t2: Seq<char>, o: Seq<char>|
                    #![trigger location_of(index@, t2, o)]
                    location_of(index@, t2, o) is Some && tv.take(i as int).contains(t2)
                        implies exists|k: int|
                        0 <= k < out@.len() && (#[trigger] out@[k]).0@ == t2 && out@[k].1@ == o by {
                    let k = choose|k: int|
                        0 <= k < prev.len() && (#[trigger] prev[k]).0@ == t2 && prev[k].1@ == o;
                    assert(out@[k] == prev[k]);
                }
            }
            j = j + 1;
        }
        proof {
            assert forall|t2: Seq<char>, o: Seq<char>|
                #![trigger location_of(index@, t2, o)]
                location_of(index@, t2, o) is Some && tv.take(i + 1).contains(t2) implies exists|k: int|
                    0 <= k < out@.len() && (#[trigger] out@[k]).0@ == t2 && out@[k].1@ == o by {
                let n = choose|n: int| 0 <= n < i + 1 && #[trigger] tv.take(i + 1)[n] == t2;
                if n < i {
                    assert(tv.take(i as int)[n] == t2);
                } else {
                    assert(t2 == t@);
                    lemma_assoc_contains(f, o);
                    let m = choose|m: int| 0 <= m < f.len() && f[m].0 == o;
                    assert(ids@[m].0@ == o);
                }
            }
        }
        i = i + 1;
    }
    proof {
        assert(tv.take(i as int) =~= tv);
        assert forall|t: Seq<char>, o: Seq<char>|
            #[trigger] location_of(index@, t, o) is Some implies exists|k: int|
                0 <= k < out@.len() && (#[trigger] out@[k]).0@ == t && out@[k].1@ == o by {
            assert(index@.dom().contains(t));
            assert(tv.to_set().contains(t));
        }
    }
    out
}

/// Persisting an index and loading the entries back places every object
/// where the index placed it, and no other object.
pub proof fn lemma_locations_roundtrip(
    index: Map<Seq<char>, Map<Seq<char>, RecordLocation>>,
    entries: Seq<(String, String, u32, u16)>,
    t: Seq<char>,
    o: Seq<char>,
)
    requires
        forall|k: int|
            0 <= k < entries.len() ==> location_of(index, (#[trigger] entries[k]).0@, entries[k].1@)
                == Some(entry_location(entries[k])),
        forall|t: Seq<char>, o: Seq<char>|
            #[trigger] location_of(index, t, o) is Some ==> exists|k: int|
                0 <= k < entries.len() && (#[trigger] entries[k]).0@ == t && entries[k].1@ == o,
    ensures
        location_of(entries_index(entries), t, o) == location_of(index, t, o),
{
    match location_of(index, t, o) {
        Some(loc) => {
            lemma_entries_index_agree(entries, t, o, loc);
        },
        None => {
            assert forall|k: int|
                0 <= k < entries.len() && (#[trigger] entries[k]).0@ == t && entries[k].1@ == o
                    implies entry_location(entries[k]) == RecordLocation {
                    page_id: PageId(0),
                    slot_id: SlotId(0),
                } by {
                assert(location_of(index, entries[k].0@, entries[k].1@) is Some);
            }
            lemma_entries_index_agree(
                entries,
                t,
                o,
                RecordLocation { page_id: PageId(0), slot_id: SlotId(0) },
            );
        },
    }
}

/// What a log record of paged storage carries: the operation ("insert",
/// "update" or "delete"), the object, and the base64 text of its encoded
/// record (empty for a delete).
pub struct LogPayload {
    pub op: String,
    pub typename: String,
    pub object_id: String,
    pub data: String,
}

/// Where paged storage keeps, besides its pages, what must outlive the
/// process: the write-ahead log and the persisted location index; and the
/// byte form in which a log record carries its payload. What each call does
/// is the implementation's to decide.
pub trait PagedFiles: Send + Sync {
    /// Append bytes to the write-ahead log and make them durable.
    fn append_log(&mut self, bytes: &[u8]) -> Result<()>;

    /// Persist the location index as (type, id, page, slot) entries.
    fn save_locations(&mut self, entries: &[(String, String, u32, u16)]) -> Result<()>;

    /// The bytes a log record carries for a payload.
    fn encode_payload(&self, payload: &LogPayload) -> Result<Vec<u8>>;

}

/// The index with an object placed at a location.
pub open spec fn with_location(
    m: Map<Seq<char>, Map<Seq<char>, RecordLocation>>,
    t: Seq<char>,
    o: Seq<char>,
    loc: RecordLocation,
) -> Map<Seq<char>, Map<Seq<char>, RecordLocation>> {
    m.insert(t, ids_under(m, t).insert(o, loc))
}

/// The index with an object taken out; its type stays known.
pub open spec fn without_location(
    m: Map<Seq<char>, Map<Seq<char>, RecordLocation>>,
    t: Seq<char>,
    o: Seq<char>,
) -> Map<Seq<char>, Map<Seq<char>, RecordLocation>> {
    if location_of(m, t, o) is Some {
        m.insert(t, m[t].remove(o))
    } else {
        m
    }
}

/// Placing an object makes the index find it at that location and taking
/// it out makes the index not find it; neither moves any other object.
pub proof fn lemma_location_updates(
    m: Map<Seq<char>, Map<Seq<char>, RecordLocation>>,
    t: Seq<char>,
    o: Seq<char>,
    loc: RecordLocation,
    t2: Seq<char>,
    o2: Seq<char>,
)
    ensures
        location_of(with_location(m, t, o, loc), t, o) == Some(loc),
        location_of(without_location(m, t, o), t, o) is None,
        !(t2 == t && o2 == o) ==> location_of(with_location(m, t, o, loc), t2, o2) == location_of(
            m,
            t2,
            o2,
        ),
        !(t2 == t && o2 == o) ==> location_of(without_location(m, t, o), t2, o2) == location_of(
            m,
            t2,
            o2,
        ),
{
}

/// Whether a record kind changes an object: insert, update or delete.
pub open spec fn is_change(kind: WalRecordType) -> bool {
    kind == WalRecordType::Insert || kind == WalRecordType::Update || kind == WalRecordType::Delete
}

/// Whether a change to replay, with its decoded payload, is about an object.
pub open spec fn touches(c: (WalRecordType, Option<LogPayload>), t: Seq<char>, o: Seq<char>) -> bool {
    &&& is_change(c.0)
    &&& c.1 matches Some(p) && p.typename@ == t && p.object_id@ == o
}

/// Whether any change to replay is about an object.
pub open spec fn touched(changes: Seq<(WalRecordType, Option<LogPayload>)>, t: Seq<char>, o: Seq<char>) -> bool {
    exists|k: int| 0 <= k < changes.len() && #[trigger] touches(changes[k], t, o)
}

/// The objects placed after replaying changes in order: an insert or an
/// update places its object, a delete takes it out; a change whose payload
/// did not decode, and any other record kind, changes nothing.
pub open spec fn replayed_pairs(
    placed: Set<(Seq<char>, Seq<char>)>,
    changes: Seq<(WalRecordType, Option<LogPayload>)>,
) -> Set<(Seq<char>, Seq<char>)>
    decreases changes.len(),
{
    if changes.len() == 0 {
        placed
    } else {
        let before = replayed_pairs(placed, changes.drop_last());
        let c = changes.last();
        match c.1 {
            Some(p) => if c.0 == WalRecordType::Insert || c.0 == WalRecordType::Update {
                before.insert((p.typename@, p.object_id@))
            } else if c.0 == WalRecordType::Delete {
                before.remove((p.typename@, p.object_id@))
            } else {
                before
            },
            None => before,
        }
    }
}

/// An object not touched by a prefix's last change is touched by the
/// prefix exactly when it is touched by the prefix without it.
proof fn lemma_not_touched_prefix(
    changes: Seq<(WalRecordType, Option<LogPayload>)>,
    i: int,
    t: Seq<char>,
    o: Seq<char>,
)
    requires
        0 <= i && i + 1 == changes.len(),
        !touches(changes[i], t, o),
    ensures
        touched(changes, t, o) == touched(changes.drop_last(), t, o),
{
    if touched(changes, t, o) {
        let k = choose|k: int| 0 <= k < changes.len() && #[trigger] touches(changes[k], t, o);
        assert(k < i);
        assert(changes.drop_last()[k] == changes[k]);
    }
    if touched(changes.drop_last(), t, o) {
        let k = choose|k: int| 0 <= k < changes.drop_last().len() && #[trigger] touches(
            changes.drop_last()[k],
            t,
            o,
        );
        assert(changes[k] == changes.drop_last()[k]);
    }
}

/// How one replayed change moves the placed objects, and that it moves no
/// other object.
proof fn lemma_replay_step(
    before: Map<Seq<char>, Map<Seq<char>, RecordLocation>>,
    after: Map<Seq<char>, Map<Seq<char>, RecordLocation>>,
    kind: WalRecordType,
    t: Seq<char>,
    o: Seq<char>,
)
    requires
        match kind {
            WalRecordType::Insert => if location_of(before, t, o) is Some {
                after == before
            } else {
                exists|loc: RecordLocation| after == with_location(before, t, o, loc)
            },
            WalRecordType::Update => exists|loc: RecordLocation| after == with_location(before, t, o, loc),
            WalRecordType::Delete => after == without_location(before, t, o),
            _ => after == before,
        },
    ensures
        pair_set(after) == if kind == WalRecordType::Insert || kind == WalRecordType::Update {
            pair_set(before).insert((t, o))
        } else if kind == WalRecordType::Delete {
            pair_set(before).remove((t, o))
        } else {
            pair_set(before)
        },
        forall|t2: Seq<char>, o2: Seq<char>|
            !(t2 == t && o2 == o) ==> #[trigger] location_of(after, t2, o2) == location_of(before, t2, o2),
        !is_change(kind) ==> after == before,
{
    if kind == WalRecordType::Insert || kind == WalRecordType::Update {
        if after == before {
            assert(pair_set(before).contains((t, o)));
            assert(pair_set(after) =~= pair_set(before).insert((t, o)));
        } else {
            let loc = choose|loc: RecordLocation| after == with_location(before, t, o, loc);
            assert(pair_set(after) =~= pair_set(before).insert((t, o)));
            assert forall|t2: Seq<char>, o2: Seq<char>|
                !(t2 == t && o2 == o) implies #[trigger] location_of(after, t2, o2) == location_of(
                    before,
                    t2,
                    o2,
                ) by {
                lemma_location_updates(before, t, o, loc, t2, o2);
            }
        }
    } else if kind == WalRecordType::Delete {
        assert(pair_set(after) =~= pair_set(before).remove((t, o)));
        assert forall|t2: Seq<char>, o2: Seq<char>|
            !(t2 == t && o2 == o) implies #[trigger] location_of(after, t2, o2) == location_of(
                before,
                t2,
                o2,
            ) by {
            lemma_location_updates(before, t, o, RecordLocation { page_id: PageId(0), slot_id: SlotId(0) }, t2, o2);
        }
    }
}

/// What paged storage has done through its files and its pages, one step
/// each, in the order the steps happened.
pub enum Effect {
    /// A log payload (operation, type name, object id, record text) handed
    /// to the files, with the bytes they gave for it.
    Encoded(Seq<char>, Seq<char>, Seq<char>, Seq<char>, Seq<u8>),
    /// Bytes appended to the write-ahead log and made durable.
    Logged(Seq<u8>),
    /// A page read back, with its bytes.
    PageRead(PageId, Seq<u8>),
    /// A page that could not be read.
    PageReadFailed(PageId),
    /// The size of the page storage read, in bytes.
    SizeRead(u64),
    /// A page read back while looking for room: its id, type and bytes.
    PageScanned(PageId, PageType, Seq<u8>),
    /// A new page allocated.
    PageAllocated(PageId),
    /// A record written to a new slot, at this location.
    RecordPlaced(RecordLocation),
    /// A record written over the one in this slot.
    RecordOverwritten(RecordLocation),
    /// The record in this slot cleared.
    SlotCleared(RecordLocation),
    /// The location index persisted as these entries.
    LocationsSaved(Seq<(String, String, u32, u16)>),
    /// The pages made durable.
    PagesSynced,
}

/// Whether entries persist an index: each records where the index places
/// its object, and each object the index places has an entry.
pub open spec fn saves(
    e: Seq<(String, String, u32, u16)>,
    m: Map<Seq<char>, Map<Seq<char>, RecordLocation>>,
) -> bool {
    &&& forall|k: int|
        0 <= k < e.len() ==> location_of(m, (#[trigger] e[k]).0@, e[k].1@) == Some(
            entry_location(e[k]),
        )
    &&& forall|t: Seq<char>, o: Seq<char>|
        #[trigger] location_of(m, t, o) is Some ==> exists|k: int|
            0 <= k < e.len() && (#[trigger] e[k]).0@ == t && e[k].1@ == o
}

/// Whether the page bytes read back hold, in a slot, a record at least
/// `len` bytes long, so that a new record of `len` bytes can overwrite it.
pub open spec fn fits_in_place(data: Seq<u8>, slot: SlotId, len: int) -> bool {
    &&& data.len() >= PAGE_SIZE
    &&& record_at(data, slot.0 as int) matches Some(prev) && len <= prev.len()
}

/// The bytes logged for a change: those already pending, the begin record
/// of a transaction of its own (numbered `txn` at `lsn`), and the change
/// record carrying the payload bytes.
pub open spec fn logged_change(
    pending: Seq<u8>,
    own: bool,
    txn: u64,
    lsn: u64,
    kind: WalRecordType,
    payload: Seq<u8>,
) -> Seq<u8> {
    let begin = if own {
        record_bytes(
            WalRecordView {
                txn_id: txn,
                lsn,
                record_type: WalRecordType::Begin,
                payload: Seq::empty(),
            },
        )
    } else {
        Seq::empty()
    };
    let change_lsn = if own { (lsn + 1) as u64 } else { lsn };
    pending + begin + record_bytes(
        WalRecordView { txn_id: txn, lsn: change_lsn, record_type: kind, payload },
    )
}

/// The last steps of a change made in a transaction of its own: its commit
/// record logged, then the pages synced; none inside an open transaction.
pub open spec fn commit_effects(own: bool, txn: u64, lsn: u64) -> Seq<Effect> {
    if own {
        seq![
            Effect::Logged(
                record_bytes(
                    WalRecordView {
                        txn_id: txn,
                        lsn: (lsn + 2) as u64,
                        record_type: WalRecordType::Commit,
                        payload: Seq::empty(),
                    },
                ),
            ),
            Effect::PagesSynced,
        ]
    } else {
        Seq::empty()
    }
}

/// The payload bytes an `Encoded` step records.
pub open spec fn encoded_bytes(e: Effect) -> Seq<u8> {
    match e {
        Effect::Encoded(_, _, _, _, b) => b,
        _ => Seq::empty(),
    }
}

/// A first read of the old slot's page that rules out writing in place.
pub open spec fn rules_out_in_place(e: Effect, prev: RecordLocation, len: int) -> bool {
    ||| e == Effect::PageReadFailed(prev.page_id)
    ||| e matches Effect::PageRead(pid, d) && pid == prev.page_id && !fits_in_place(d, prev.slot_id, len)
}

/// The steps of a successful write of an encoded record for object `(t,
/// o)`, starting from an index `before`, a log with `pending` bytes whose
/// next record is `lsn` and next transaction `next_txn`, and the
/// transaction in progress `current`:
/// - first the payload (operation, object, base64 of the record) is handed
///   to the files;
/// - a new object: its change is logged, then the record placed (in the
///   steps `placement_steps` lists) at a new location, which the index
///   takes;
/// - a placed object whose old record is at least as long: the old page is
///   read, the change logged, the record overwritten in its slot, and the
///   index stays;
/// - a placed object otherwise (its page unreadable or the old record
///   shorter): the change is logged, the record placed (in the steps
///   `placement_steps` lists) at a new location, which the index takes, and the old slot cleared (unless its page cannot
///   be read);
/// - then the index is persisted, and, without a transaction in progress,
///   the commit is logged and the pages synced.
/// The step after a moved record that deals with its old slot: the slot
/// cleared, or its page found unreadable.
pub open spec fn clears(e: Effect, prev: RecordLocation) -> bool {
    e == Effect::SlotCleared(prev) || e == Effect::PageReadFailed(prev.page_id)
}

pub open spec fn store_steps(
    before: Map<Seq<char>, Map<Seq<char>, RecordLocation>>,
    after: Map<Seq<char>, Map<Seq<char>, RecordLocation>>,
    pending: Seq<u8>,
    lsn: u64,
    next_txn: u64,
    current: Option<u64>,
    t: Seq<char>,
    o: Seq<char>,
    record: Seq<u8>,
    steps: Seq<Effect>,
) -> bool {
    let own = current is None;
    let txn = if own { next_txn } else { current->0 };
    let tail = commit_effects(own, txn, lsn);
    let b = encoded_bytes(steps[0]);
    let placed = location_of(before, t, o);
    let op = if placed is Some { "update"@ } else { "insert"@ };
    &&& steps.len() >= 1
    &&& steps[0] == Effect::Encoded(op, t, o, base64_encoded(record), b)
    &&& match placed {
        None => exists|
            loc: RecordLocation,
            placement: Seq<Effect>,
            e: Seq<(String, String, u32, u16)>,
        |
            #![trigger with_location(before, t, o, loc), placement_steps(record.len() as int, loc, placement), saves(e, after)]
            {
                &&& placement_steps(record.len() as int, loc, placement)
                &&& steps == seq![
                    steps[0],
                    Effect::Logged(logged_change(pending, own, txn, lsn, WalRecordType::Insert, b)),
                ] + placement + seq![Effect::LocationsSaved(e)] + tail
                &&& after == with_location(before, t, o, loc)
                &&& saves(e, after)
            },
        Some(prev) => {
            ||| exists|d: Seq<u8>, e: Seq<(String, String, u32, u16)>|
                #![trigger fits_in_place(d, prev.slot_id, record.len() as int), saves(e, after)]
                {
                    &&& fits_in_place(d, prev.slot_id, record.len() as int)
                    &&& steps == seq![
                        steps[0],
                        Effect::PageRead(prev.page_id, d),
                        Effect::Logged(
                            logged_change(pending, own, txn, lsn, WalRecordType::Update, b),
                        ),
                        Effect::RecordOverwritten(prev),
                        Effect::LocationsSaved(e),
                    ] + tail
                    &&& after == before
                    &&& saves(e, after)
                }
            ||| exists|
                first: Effect,
                loc: RecordLocation,
                placement: Seq<Effect>,
                cleared: Effect,
                e: Seq<(String, String, u32, u16)>,
            |
                #![trigger rules_out_in_place(first, prev, record.len() as int), with_location(before, t, o, loc), placement_steps(record.len() as int, loc, placement), clears(cleared, prev), saves(e, after)]
                {
                    &&& rules_out_in_place(first, prev, record.len() as int)
                    &&& placement_steps(record.len() as int, loc, placement)
                    &&& clears(cleared, prev)
                    &&& steps == seq![
                        steps[0],
                        first,
                        Effect::Logged(
                            logged_change(pending, own, txn, lsn, WalRecordType::Update, b),
                        ),
                    ] + placement + seq![cleared, Effect::LocationsSaved(e)] + tail
                    &&& after == with_location(before, t, o, loc)
                    &&& saves(e, after)
                }
        },
    }
}

/// Writes the log's pending records out through the files and forgets them.
fn flush_log(wal: &mut Wal, files: &mut Box<dyn PagedFiles>, effects: &mut Ghost<Seq<Effect>>) -> (r:
    Result<()>)
    ensures
        final(wal).spec_next_lsn() == old(wal).spec_next_lsn(),
        final(wal).spec_next_txn_id() == old(wal).spec_next_txn_id(),
        r is Ok ==> final(wal).pending() == Seq::<u8>::empty(),
        r is Ok ==> final(effects)@ == old(effects)@.push(Effect::Logged(old(wal).pending())),
        r is Err ==> final(wal).pending() == old(wal).pending(),
        r is Err ==> final(effects)@ == old(effects)@,
{
    files.append_log(wal.pending_bytes())?;
    proof {
        effects@ = effects@.push(Effect::Logged(wal.pending()));
    }
    wal.clear_pending();
    Ok(())
}

/// Marks the record in a slot of a page as deleted and writes the page back.
/// A page that is shorter than a page is refused as corrupt.
fn delete_slot(pm: &mut PageManager, loc: RecordLocation, page: Page) -> (r: Result<()>)
    ensures
        page.data@.len() < PAGE_SIZE ==> r matches Err(Error::StorageError { .. }),
        r is Ok ==> entry_pos(loc.slot_id.0 as int) + SLOT_ENTRY_SIZE <= PAGE_SIZE,
{
    let mut page = page;
    if page.data.len() < PAGE_SIZE {
        return Err(storage_error("Object page is shorter than a page"));
    }
    let mut layout = SlottedPageLayout::from_page(&page)?;
    layout.delete_record(&mut page, loc.slot_id)?;
    pm.write_page(&page)
}

/// Applies one committed change of the write-ahead log to the pages and the
/// index after a restart. An insert of an object the index already places
/// changes nothing; otherwise an insert or an update writes the record to a
/// page and places the object there, an update also clearing the slot it
/// held. A delete clears the object's slot and takes it out of the index.
/// Other record kinds change nothing. When an error stops the change, the
/// index is as it was.
pub fn replay_change(
    pm: &mut PageManager,
    index: &mut ObjectLocationIndex,
    kind: WalRecordType,
    id: &ObjectId,
    record: &[u8],
) -> (r: Result<()>)
    requires
        old(index).wf(),
    ensures
        final(index).wf(),
        r is Err ==> final(index)@ == old(index)@,
        kind == WalRecordType::Insert && location_of(old(index)@, id.typename@, id.object_id@)
            is Some ==> r is Ok,
        kind == WalRecordType::Delete && location_of(old(index)@, id.typename@, id.object_id@)
            is None ==> r is Ok,
        !(kind == WalRecordType::Insert || kind == WalRecordType::Update || kind
            == WalRecordType::Delete) ==> r is Ok,
        r is Ok ==> match kind {
            WalRecordType::Insert => if location_of(old(index)@, id.typename@, id.object_id@) is Some {
                final(index)@ == old(index)@
            } else {
                exists|loc: RecordLocation|
                    final(index)@ == with_location(old(index)@, id.typename@, id.object_id@, loc)
            },
            WalRecordType::Update => exists|loc: RecordLocation|
                final(index)@ == with_location(old(index)@, id.typename@, id.object_id@, loc),
            WalRecordType::Delete => final(index)@ == without_location(
                old(index)@,
                id.typename@,
                id.object_id@,
            ),
            _ => final(index)@ == old(index)@,
        },
{
    match kind {
        WalRecordType::Insert => {
            if !index.object_exists(id) {
                let loc = insert_record_into_pages(pm, record)?;
                index.insert(id, loc);
                assert(index@ == with_location(old(index)@, id.typename@, id.object_id@, loc));
            }
            Ok(())
        },
        WalRecordType::Update => {
            let new_loc = insert_record_into_pages(pm, record)?;
            match index.get(id) {
                Some(old_loc) => {
                    match pm.read_page(old_loc.page_id) {
                        Ok(page) => {
                            if page.data.len() < PAGE_SIZE {
                                return Err(storage_error("Object page is shorter than a page"));
                            }
                            let mut page = page;
                            let mut layout = SlottedPageLayout::from_page(&page)?;
                            let _ = layout.delete_record(&mut page, old_loc.slot_id);
                            let _ = pm.write_page(&page);
                        },
                        Err(_) => {},
                    }
                },
                None => {},
            }
            index.insert(id, new_loc);
            assert(index@ == with_location(old(index)@, id.typename@, id.object_id@, new_loc));
            Ok(())
        },
        WalRecordType::Delete => {
            match index.get(id) {
                Some(loc) => {
                    match pm.read_page(loc.page_id) {
                        Ok(page) => {
                            if page.data.len() < PAGE_SIZE {
                                return Err(storage_error("Object page is shorter than a page"));
                            }
                            let mut page = page;
                            let mut layout = SlottedPageLayout::from_page(&page)?;
                            let _ = layout.delete_record(&mut page, loc.slot_id);
                            let _ = pm.write_page(&page);
                        },
                        Err(_) => {},
                    }
                    index.remove(id);
                },
                None => {},
            }
            Ok(())
        },
        _ => Ok(()),
    }
}

/// Writes an encoded record for an object under the write-ahead log; the
/// steps it takes are those `store_steps` lists, appended to `effects`.
/// When an error stops the write, the index is either as it was or already
/// places the object.
#[verifier::rlimit(40)]
#[verifier::spinoff_prover]
fn store_record(
    pm: &mut PageManager,
    wal: &mut Wal,
    files: &mut Box<dyn PagedFiles>,
    index: &mut ObjectLocationIndex,
    current_txn: Option<u64>,
    id: &ObjectId,
    encoded: &[u8],
    effects: &mut Ghost<Seq<Effect>>,
) -> (r: Result<()>)
    requires
        old(index).wf(),
        old(wal).spec_next_lsn() < u64::MAX - 3,
        old(wal).spec_next_txn_id() < u64::MAX,
        encoded@.len() <= PAGE_SIZE,
    ensures
        final(index).wf(),
        r is Ok ==> final(effects)@.len() >= old(effects)@.len(),
        r is Ok ==> final(effects)@.take(old(effects)@.len() as int) == old(effects)@,
        r is Ok ==> final(wal).pending() == Seq::<u8>::empty(),
        r is Ok ==> exists|loc: RecordLocation|
            final(index)@ == with_location(old(index)@, id.typename@, id.object_id@, loc),
        r is Ok ==> store_steps(
            old(index)@,
            final(index)@,
            old(wal).pending(),
            old(wal).spec_next_lsn(),
            old(wal).spec_next_txn_id(),
            current_txn,
            id.typename@,
            id.object_id@,
            encoded@,
            final(effects)@.skip(old(effects)@.len() as int),
        ),
        r is Err ==> final(index)@ == old(index)@ || exists|loc: RecordLocation|
            final(index)@ == with_location(old(index)@, id.typename@, id.object_id@, loc),
{
    let ghost before = index@;
    let ghost t = id.typename@;
    let ghost o = id.object_id@;
    let ghost start = effects@;
    let ghost pending = wal.pending();
    let ghost lsn = wal.spec_next_lsn();
    let ghost next_txn = wal.spec_next_txn_id();
    let own_txn = current_txn.is_none();
    let txn = match current_txn {
        Some(t) => t,
        None => wal.begin_transaction()?,
    };
    let ghost begun = wal.pending();
    assert(begun == pending + (if own_txn {
        record_bytes(
            WalRecordView {
                txn_id: txn,
                lsn,
                record_type: WalRecordType::Begin,
                payload: Seq::empty(),
            },
        )
    } else {
        Seq::<u8>::empty()
    }));
    let data = encode_payload_data(encoded);
    let ghost data_text = data@;
    match index.get(id) {
        Some(old_loc) => {
            let p = LogPayload {
                op: "update".to_owned(),
                typename: id.typename.clone(),
                object_id: id.object_id.clone(),
                data,
            };
            let payload = files.encode_payload(&p)?;
            let ghost b = payload@;
            let ghost first_step = Effect::Encoded(p.op@, p.typename@, p.object_id@, p.data@, b);
            proof {
                effects@ = effects@.push(first_step);
            }
            match pm.read_page(old_loc.page_id) {
                Ok(page) => {
                    let ghost read_step = Effect::PageRead(old_loc.page_id, page.data@);
                    proof {
                        effects@ = effects@.push(read_step);
                    }
                    let mut page = page;
                    let mut layout = SlottedPageLayout::from_page(&page)?;
                    if page.data.len() < PAGE_SIZE {
                        return Err(storage_error("Object page is shorter than a page"));
                    }
                    match layout.read_record(&page, old_loc.slot_id)? {
                        Some(old_bytes) => {
                            if encoded.len() <= old_bytes.len() {
                                wal.log_update(txn, payload)?;
                                let ghost logged = wal.pending();
                                flush_log(wal, files, effects)?;
                                layout.overwrite_record(&mut page, old_loc.slot_id, encoded)?;
                                pm.write_page(&page)?;
                                proof {
                                    effects@ = effects@.push(Effect::RecordOverwritten(old_loc));
                                    assert(ids_under(before, t).insert(o, old_loc) =~= before[t]);
                                    assert(with_location(before, t, o, old_loc) =~= before);
                                }
                                let entries = location_entries(index);
                                files.save_locations(entries.as_slice())?;
                                proof {
                                    effects@ = effects@.push(Effect::LocationsSaved(entries@));
                                }
                                if own_txn {
                                    wal.commit(txn)?;
                                    flush_log(wal, files, effects)?;
                                    pm.sync()?;
                                    proof {
                                        effects@ = effects@.push(Effect::PagesSynced);
                                    }
                                }
                                proof {
                                    let steps = effects@.skip(start.len() as int);
                                    let tail = commit_effects(own_txn, txn, lsn);
                                    assert(logged == logged_change(pending, own_txn, txn, lsn, WalRecordType::Update, b));
                                    assert(fits_in_place(page_data_before_write(read_step), old_loc.slot_id, encoded@.len() as int));
                                    assert(steps =~= seq![
                                        first_step,
                                        read_step,
                                        Effect::Logged(logged),
                                        Effect::RecordOverwritten(old_loc),
                                        Effect::LocationsSaved(entries@),
                                    ] + tail);
                                    assert(effects@.take(start.len() as int) =~= start);
                                    let d = page_data_before_write(read_step);
                                    assert(saves(entries@, index@));
                                    assert(fits_in_place(d, old_loc.slot_id, encoded@.len() as int)
                                        && steps == seq![
                                        steps[0],
                                        Effect::PageRead(old_loc.page_id, d),
                                        Effect::Logged(logged),
                                        Effect::RecordOverwritten(old_loc),
                                        Effect::LocationsSaved(entries@),
                                    ] + tail && index@ == before && saves(entries@, index@));
                                }
                                return Ok(());
                            }
                        },
                        None => {},
                    }
                    proof {
                        assert(rules_out_in_place(read_step, old_loc, encoded@.len() as int));
                    }
                },
                Err(_) => {
                    proof {
                        effects@ = effects@.push(Effect::PageReadFailed(old_loc.page_id));
                    }
                },
            }
            let ghost first = effects@.last();
            assert(rules_out_in_place(first, old_loc, encoded@.len() as int));
            wal.log_update(txn, payload)?;
            let ghost logged = wal.pending();
            flush_log(wal, files, effects)?;
            let ghost mid = effects@;
            let new_loc = place_record(pm, encoded, effects)?;
            let ghost placement = effects@.skip(mid.len() as int);
            let ghost placed_all = effects@;
            match pm.read_page(old_loc.page_id) {
                Ok(page) => {
                    delete_slot(pm, old_loc, page)?;
                    proof {
                        effects@ = effects@.push(Effect::SlotCleared(old_loc));
                    }
                },
                Err(_) => {
                    proof {
                        effects@ = effects@.push(Effect::PageReadFailed(old_loc.page_id));
                    }
                },
            }
            let ghost cleared = effects@.last();
            index.insert(id, new_loc);
            assert(index@ == with_location(before, t, o, new_loc));
            let entries = location_entries(index);
            files.save_locations(entries.as_slice())?;
            proof {
                effects@ = effects@.push(Effect::LocationsSaved(entries@));
            }
            if own_txn {
                wal.commit(txn)?;
                flush_log(wal, files, effects)?;
                pm.sync()?;
                proof {
                    effects@ = effects@.push(Effect::PagesSynced);
                }
            }
            proof {
                let steps = effects@.skip(start.len() as int);
                let tail = commit_effects(own_txn, txn, lsn);
                assert(logged == logged_change(pending, own_txn, txn, lsn, WalRecordType::Update, b));
                assert(mid =~= start + seq![first_step, first, Effect::Logged(logged)]);
                assert(placed_all =~= mid + placement);
                assert(steps =~= seq![
                    first_step,
                    first,
                    Effect::Logged(logged),
                ] + placement + seq![cleared, Effect::LocationsSaved(entries@)] + tail);
                assert(effects@.take(start.len() as int) =~= start);
                assert(saves(entries@, index@));
                assert(rules_out_in_place(first, old_loc, encoded@.len() as int));
                assert(clears(cleared, old_loc));
                assert(index@ == with_location(before, t, o, new_loc));
                assert(placement_steps(encoded@.len() as int, new_loc, placement));
                assert(steps == seq![
                    steps[0],
                    first,
                    Effect::Logged(logged),
                ] + placement + seq![cleared, Effect::LocationsSaved(entries@)] + tail
                    && index@ == with_location(before, t, o, new_loc) && saves(entries@, index@));
            }
            Ok(())
        },
        None => {
            let p = LogPayload {
                op: "insert".to_owned(),
                typename: id.typename.clone(),
                object_id: id.object_id.clone(),
                data,
            };
            let payload = files.encode_payload(&p)?;
            let ghost b = payload@;
            let ghost first_step = Effect::Encoded(p.op@, p.typename@, p.object_id@, p.data@, b);
            proof {
                effects@ = effects@.push(first_step);
            }
            wal.log_insert(txn, payload)?;
            let ghost logged = wal.pending();
            flush_log(wal, files, effects)?;
            let ghost mid = effects@;
            let loc = place_record(pm, encoded, effects)?;
            let ghost placement = effects@.skip(mid.len() as int);
            let ghost placed_all = effects@;
            index.insert(id, loc);
            assert(index@ == with_location(before, t, o, loc));
            let entries = location_entries(index);
            files.save_locations(entries.as_slice())?;
            proof {
                effects@ = effects@.push(Effect::LocationsSaved(entries@));
            }
            if own_txn {
                wal.commit(txn)?;
                flush_log(wal, files, effects)?;
                pm.sync()?;
                proof {
                    effects@ = effects@.push(Effect::PagesSynced);
                }
            }
            proof {
                let steps = effects@.skip(start.len() as int);
                let tail = commit_effects(own_txn, txn, lsn);
                assert(logged == logged_change(pending, own_txn, txn, lsn, WalRecordType::Insert, b));
                assert(mid =~= start + seq![first_step, Effect::Logged(logged)]);
                assert(placed_all =~= mid + placement);
                assert(steps =~= seq![
                    first_step,
                    Effect::Logged(logged),
                ] + placement + seq![Effect::LocationsSaved(entries@)] + tail);
                assert(effects@.take(start.len() as int) =~= start);
                assert(saves(entries@, index@));
                assert(index@ == with_location(before, t, o, loc));
                assert(placement_steps(encoded@.len() as int, loc, placement));
                assert(steps == seq![
                    steps[0],
                    Effect::Logged(logged),
                ] + placement + seq![Effect::LocationsSaved(entries@)] + tail
                    && index@ == with_location(before, t, o, loc) && saves(entries@, index@));
            }
            Ok(())
        },
    }
}

/// The steps of a successful delete of object `(t, o)` placed at `loc`,
/// with a log holding `pending` bytes whose next record is `lsn` and next
/// transaction `next_txn`, and the transaction in progress `current`: the
/// payload (operation "delete", the object, no record text) handed to the
/// files, the delete logged, the object's slot cleared, the index
/// persisted, and, without a transaction in progress, the commit logged and
/// the pages synced.
pub open spec fn delete_steps(
    after: Map<Seq<char>, Map<Seq<char>, RecordLocation>>,
    pending: Seq<u8>,
    lsn: u64,
    next_txn: u64,
    current: Option<u64>,
    t: Seq<char>,
    o: Seq<char>,
    loc: RecordLocation,
    steps: Seq<Effect>,
) -> bool {
    let own = current is None;
    let txn = if own { next_txn } else { current->0 };
    let b = encoded_bytes(steps[0]);
    &&& steps.len() >= 1
    &&& steps[0] == Effect::Encoded("delete"@, t, o, Seq::empty(), b)
    &&& exists|e: Seq<(String, String, u32, u16)>|
        {
            &&& steps == seq![
                steps[0],
                Effect::Logged(logged_change(pending, own, txn, lsn, WalRecordType::Delete, b)),
                Effect::SlotCleared(loc),
                Effect::LocationsSaved(e),
            ] + commit_effects(own, txn, lsn)
            &&& saves(e, after)
        }
}

/// The bytes a `PageRead` step records.
pub open spec fn page_data_before_write(e: Effect) -> Seq<u8> {
    match e {
        Effect::PageRead(_, d) => d,
        _ => Seq::empty(),
    }
}

/// `o` is what the record in `slot` of the page bytes `data` decodes to under
/// the valid schema `s`.
pub open spec fn decoded_from(data: Seq<u8>, slot: int, s: Schema, o: ObjectView) -> bool {
    &&& data.len() >= PAGE_SIZE
    &&& schema_valid(s@, s.fields@)
    &&& match record_at(data, slot) {
        Some(rec) => decode_spec(rec, s) == Some(o),
        None => false,
    }
}

/// `o` was read back from the slot of `loc`: it is the decoding, under a valid
/// schema, of the record in that slot of a page the page store handed out.
pub open spec fn read_back(loc: RecordLocation, o: ObjectView) -> bool {
    exists|data: Seq<u8>, s: Schema| #[trigger] decoded_from(data, loc.slot_id.0 as int, s, o)
}

/// `o` was read back from the location of one of the ids in `under`.
pub open spec fn read_back_under(under: Map<Seq<char>, RecordLocation>, o: ObjectView) -> bool {
    exists|id: Seq<char>| #[trigger] under.contains_key(id) && read_back(under[id], o)
}

/// Each object of `objs` was read back from the location of one of the ids
/// in `under`.
pub open spec fn each_read_back(under: Map<Seq<char>, RecordLocation>, objs: Seq<Object>) -> bool {
    forall|k: int| 0 <= k < objs.len() ==> read_back_under(under, #[trigger] objs[k]@)
}

/// The object a stored record holds, under the schema that the schema
/// backend answered for its type: a failed lookup gives its error, no
/// schema gives `TypeNotFound`, and otherwise the record is decoded with the
/// schema.
pub fn decode_record(typename: &str, record: &[u8], lookup: Result<Option<Schema>>) -> (r: Result<
    Object,
>)
    ensures
        match lookup {
            Err(e) => r == Err::<Object, Error>(e),
            Ok(None) => r matches Err(Error::TypeNotFound { typename: t }) && t@ == typename@,
            Ok(Some(s)) => if !schema_valid(s@, s.fields@) {
                r matches Err(Error::SchemaError { .. })
            } else {
                match decode_spec(record@, s) {
                    Some(v) => r matches Ok(o) && o@ == v,
                    None => r matches Err(Error::StorageError { .. }),
                }
            },
        },
{
    match lookup {
        Ok(Some(schema)) => BinaryEncoder::decode_object_with_schema(record, &schema),
        Ok(None) => Err(Error::TypeNotFound { typename: typename.to_owned() }),
        Err(e) => Err(e),
    }
}

/// Persistent storage backed by fixed-size pages and a write-ahead log.
/// Schemas, the database name and precomputed queries live in another
/// backend; objects are encoded with their schema into slotted pages and
/// found through the location index.
pub struct PagedStorage {
    local: Box<dyn StorageBackend>,
    files: Box<dyn PagedFiles>,
    pm: PageManager,
    wal: Wal,
    table: LocationTable,
    current_txn: Option<u64>,
    effects: Ghost<Seq<Effect>>,
}

/// A location index that is always well formed.
struct LocationTable {
    index: ObjectLocationIndex,
}

impl LocationTable {
    #[verifier::type_invariant]
    spec fn index_ok(&self) -> bool {
        self.index.wf()
    }

    closed spec fn map(&self) -> Map<Seq<char>, Map<Seq<char>, RecordLocation>> {
        self.index@
    }

    fn new(index: ObjectLocationIndex) -> (r: Self)
        requires
            index.wf(),
        ensures
            r.map() == index@,
    {
        LocationTable { index }
    }

    fn index(&self) -> (r: &ObjectLocationIndex)
        ensures
            r.wf(),
            r@ == self.map(),
    {
        proof {
            use_type_invariant(self);
        }
        &self.index
    }

    /// Takes the index out, leaving an empty one.
    fn take(&mut self) -> (r: ObjectLocationIndex)
        ensures
            r.wf(),
            r@ == old(self).map(),
    {
        proof {
            use_type_invariant(&*self);
        }
        let mut index = ObjectLocationIndex::new();
        std::mem::swap(&mut index, &mut self.index);
        index
    }

    fn put(&mut self, index: ObjectLocationIndex)
        requires
            index.wf(),
        ensures
            final(self).map() == index@,
    {
        self.index = index;
    }
}

impl PagedStorage {
    /// Where the index places each object, by type name and id.
    pub closed spec fn locations(&self) -> Map<Seq<char>, Map<Seq<char>, RecordLocation>> {
        self.table.map()
    }

    /// The transaction in progress, if any.
    pub closed spec fn transaction(&self) -> Option<u64> {
        self.current_txn
    }

    /// The id the log gives the next transaction.
    pub closed spec fn next_txn(&self) -> u64 {
        self.wal.spec_next_txn_id()
    }

    /// The sequence number of the log's next record.
    pub closed spec fn next_lsn(&self) -> u64 {
        self.wal.spec_next_lsn()
    }

    /// The log records written since the log was last flushed.
    pub closed spec fn log_pending(&self) -> Seq<u8> {
        self.wal.pending()
    }

    /// What the storage has done through its files and pages so far.
    pub closed spec fn history(&self) -> Seq<Effect> {
        self.effects@
    }

    /// Writes an object under the schema that the schema backend answered
    /// for its type: a failed lookup gives its error; no schema gives
    /// `TypeNotFound`; a schema with more fields than field ids, one that is
    /// not valid, or an object that does not encode under it is refused;
    /// so is a write when the log's counters are exhausted. Otherwise the
    /// encoded record is written in the steps `store_steps` lists.
    pub fn put_object_under(&mut self, object: &Object, lookup: Result<Option<Schema>>) -> (r:
        Result<()>)
        ensures
            final(self).transaction() == old(self).transaction(),
            r is Ok ==> final(self).history().len() >= old(self).history().len(),
            r is Ok ==> final(self).history().take(old(self).history().len() as int) == old(
                self,
            ).history(),
            r is Ok ==> exists|loc: RecordLocation|
                final(self).locations() == with_location(
                    old(self).locations(),
                    object.id.typename@,
                    object.id.object_id@,
                    loc,
                ),
            r is Err ==> final(self).locations() == old(self).locations() || exists|
                loc: RecordLocation,
            |
                final(self).locations() == with_location(
                    old(self).locations(),
                    object.id.typename@,
                    object.id.object_id@,
                    loc,
                ),
            match lookup {
                Err(e) => r == Err::<(), Error>(e) && final(self).locations() == old(
                    self,
                ).locations(),
                Ok(None) => (r matches Err(Error::TypeNotFound { typename }) && typename@
                    == object.id.typename@) && final(self).locations() == old(self).locations(),
                Ok(Some(s)) => if s.fields@.len() > 65535 {
                    r matches Err(Error::StorageError { .. })
                } else if !schema_valid(s@, s.fields@) {
                    r matches Err(Error::SchemaError { .. })
                } else {
                    match record_spec(object@, s) {
                        None => r matches Err(e) && (e is StorageError || e is TypeMismatch),
                        Some(b) => if b.len() > MAX_INLINE_RECORD_SIZE {
                            r matches Err(Error::StorageError { .. })
                        } else if !old(self).log_has_room() {
                            r matches Err(Error::StorageError { .. })
                        } else {
                            r is Ok ==> {
                                &&& final(self).log_pending() == Seq::<u8>::empty()
                                &&& store_steps(
                                    old(self).locations(),
                                    final(self).locations(),
                                    old(self).log_pending(),
                                    old(self).next_lsn(),
                                    old(self).next_txn(),
                                    old(self).transaction(),
                                    object.id.typename@,
                                    object.id.object_id@,
                                    b,
                                    final(self).history().skip(old(self).history().len() as int),
                                )
                            }
                        },
                    }
                },
            },
    {
        let schema = match lookup {
            Ok(Some(s)) => s,
            Ok(None) => {
                return Err(Error::TypeNotFound { typename: object.id.typename.clone() });
            },
            Err(e) => {
                return Err(e);
            },
        };
        if schema.fields.len() > 65535 {
            return Err(storage_error("Schema has more fields than field ids"));
        }
        let encoded = BinaryEncoder::encode_object(object, &schema)?;
        if !self.log_room() {
            return Err(storage_error("Write-ahead log sequence numbers are exhausted"));
        }
        let mut index = self.table.take();
        let ghost before = index@;
        let r = store_record(
            &mut self.pm,
            &mut self.wal,
            &mut self.files,
            &mut index,
            self.current_txn,
            &object.id,
            encoded.as_slice(),
            &mut self.effects,
        );
        self.table.put(index);
        proof {
            let t = object.id.typename@;
            let o = object.id.object_id@;
            if exists|loc: RecordLocation| index@ == with_location(before, t, o, loc) {
                let loc = choose|loc: RecordLocation| index@ == with_location(before, t, o, loc);
                assert(self.locations() == with_location(old(self).locations(), t, o, loc));
            }
        }
        r
    }

    /// Whether the log's counters can still number a whole change.
    pub closed spec fn log_has_room(&self) -> bool {
        self.wal.spec_next_lsn() < u64::MAX - 3 && self.wal.spec_next_txn_id() < u64::MAX
    }

    fn log_room(&self) -> (r: bool)
        ensures
            r == self.log_has_room(),
    {
        self.wal.current_lsn() < u64::MAX - 3 && self.wal.next_txn_id() < u64::MAX
    }

    /// Opens paged storage over a backend for schemas and metadata, the
    /// files, and a page manager. The index starts from the persisted
    /// entries. When the committed changes of the write-ahead log are given
    /// (in log order, each with its payload as it decodes, or None where it
    /// does not), each change whose payload decoded is replayed in order:
    /// inserts and updates place their object, deletes take it out; the
    /// index is then persisted again. No transaction is in progress, and
    /// the log numbers its records and transactions from 1 again.
    pub fn new(
        local: Box<dyn StorageBackend>,
        files: Box<dyn PagedFiles>,
        pm: PageManager,
        locations: Vec<(String, String, u32, u16)>,
        replay: Option<Vec<(WalRecordType, Option<LogPayload>)>>,
    ) -> (r: Result<Self>)
        ensures
            r matches Ok(s) ==> {
                &&& s.transaction() is None
                &&& s.next_txn() == 1
                &&& s.log_has_room()
                &&& replay is None ==> s.locations() == entries_index(locations@)
                &&& replay matches Some(changes) ==> {
                    &&& pair_set(s.locations()) == replayed_pairs(
                        pair_set(entries_index(locations@)),
                        changes@,
                    )
                    &&& forall|t: Seq<char>, o: Seq<char>|
                        !touched(changes@, t, o) ==> #[trigger] location_of(s.locations(), t, o)
                            == location_of(entries_index(locations@), t, o)
                }
            },
            replay is None ==> r is Ok,
    {
        let mut index = index_from_entries(&locations);
        let ghost start = entries_index(locations@);
        let mut pm = pm;
        let mut files = files;
        match replay {
            Some(changes) => {
                let mut i: usize = 0;
                while i < changes.len()
                    invariant
                        index.wf(),
                        replay == Some(changes),
                        i <= changes@.len(),
                        pair_set(index@) == replayed_pairs(pair_set(start), changes@.take(i as int)),
                        forall|t: Seq<char>, o: Seq<char>|
                            !touched(changes@.take(i as int), t, o) ==> #[trigger] location_of(
                                index@,
                                t,
                                o,
                            ) == location_of(start, t, o),
                    decreases changes@.len() - i,
                {
                    let ghost before = index@;
                    let ghost prefix = changes@.take(i as int);
                    proof {
                        assert(changes@.take(i + 1).drop_last() =~= prefix);
                        assert(changes@.take(i + 1).last() == changes@[i as int]);
                    }
                    match &changes[i].1 {
                        Some(p) => {
                            let data = decode_payload_data(p.data.as_str());
                            let id = ObjectId::new(p.typename.as_str(), p.object_id.as_str());
                            replay_change(&mut pm, &mut index, changes[i].0, &id, &data)?;
                            proof {
                                lemma_replay_step(before, index@, changes@[i as int].0, id.typename@, id.object_id@);
                                assert forall|t: Seq<char>, o: Seq<char>|
                                    !touched(changes@.take(i + 1), t, o) implies #[trigger] location_of(
                                        index@,
                                        t,
                                        o,
                                    ) == location_of(start, t, o) by {
                                    if !touched(prefix, t, o) {
                                        if (t == id.typename@ && o == id.object_id@) {
                                            if is_change(changes@[i as int].0) {
                                                assert(touches(changes@.take(i + 1)[i as int], t, o));
                                            }
                                        } else {
                                            lemma_not_touched_prefix(changes@.take(i + 1), i as int, t, o);
                                        }
                                    } else {
                                        lemma_not_touched_prefix(changes@.take(i + 1), i as int, t, o);
                                    }
                                }
                            }
                        },
                        None => {
                            proof {
                                assert forall|t: Seq<char>, o: Seq<char>|
                                    !touched(changes@.take(i + 1), t, o) implies #[trigger] location_of(
                                        index@,
                                        t,
                                        o,
                                    ) == location_of(start, t, o) by {
                                    lemma_not_touched_prefix(changes@.take(i + 1), i as int, t, o);
                                }
                            }
                        },
                    }
                    i = i + 1;
                }
                assert(changes@.take(i as int) =~= changes@);
                let entries = location_entries(&index);
                files.save_locations(entries.as_slice())?;
            },
            None => {},
        }
        Ok(
            PagedStorage {
                local,
                files,
                pm,
                wal: Wal::new(),
                table: LocationTable::new(index),
                current_txn: None,
                effects: Ghost(Seq::empty()),
            },
        )
    }
}

impl StorageBackend for PagedStorage {
    /// No more objects than the type has ids in the index, each read back
    /// from the location of one of them.
    open spec fn lists(&self, typename: Seq<char>, objects: Seq<Object>) -> bool {
        &&& objects.len() <= ids_under(self.locations(), typename).len()
        &&& each_read_back(ids_under(self.locations(), typename), objects)
    }

    /// The label "paged-storage", with the numbers of object types and of
    /// objects the location index holds.
    open spec fn summarizes(&self, s: StorageSummary) -> bool {
        &&& s.storage_backend@ == seq!['p', 'a', 'g', 'e', 'd', '-', 's', 't', 'o', 'r', 'a', 'g', 'e']
        &&& s.object_type_count == self.locations().dom().len()
        &&& s.object_count == if crate::storage::location_index::indexed_pairs(self.locations()).len()
            <= usize::MAX {
            crate::storage::location_index::indexed_pairs(self.locations()).len()
        } else {
            usize::MAX as nat
        }
    }

    fn put_schema(&mut self, schema: &Schema) -> (r: Result<()>)
        ensures
            final(self).locations() == old(self).locations(),
            final(self).transaction() == old(self).transaction(),
    {
        self.local.put_schema(schema)
    }

    fn get_schema(&self, name: &str) -> (r: Result<Option<Schema>>) {
        self.local.get_schema(name)
    }

    fn list_schemas(&self) -> (r: Result<Vec<String>>) {
        self.local.list_schemas()
    }

    /// Writes an object: its schema is looked up in the schema backend, and
    /// what follows is `put_object_under` with that answer.
    fn put_object(&mut self, object: &Object) -> (r: Result<()>)
        ensures
            final(self).transaction() == old(self).transaction(),
            r is Ok ==> final(self).history().len() >= old(self).history().len(),
            r is Ok ==> final(self).history().take(old(self).history().len() as int) == old(
                self,
            ).history(),
            r is Ok ==> exists|loc: RecordLocation|
                final(self).locations() == with_location(
                    old(self).locations(),
                    object.id.typename@,
                    object.id.object_id@,
                    loc,
                ),
            r is Err ==> final(self).locations() == old(self).locations() || exists|
                loc: RecordLocation,
            |
                final(self).locations() == with_location(
                    old(self).locations(),
                    object.id.typename@,
                    object.id.object_id@,
                    loc,
                ),
    {
        let lookup = self.local.get_schema(object.id.typename.as_str());
        self.put_object_under(object, lookup)
    }

    fn get_object(&self, typename: &str, object_id: &str) -> (r: Result<Option<Object>>)
        ensures
            location_of(self.locations(), typename@, object_id@) is None ==> r matches Ok(None),
            r matches Ok(Some(o)) ==> location_of(self.locations(), typename@, object_id@) matches Some(
                loc,
            ) && read_back(loc, o@),
    {
        let id = ObjectId::new(typename, object_id);
        match self.table.index().get(&id) {
            Some(loc) => {
                let page = self.pm.read_page(loc.page_id)?;
                let layout = SlottedPageLayout::from_page(&page)?;
                if page.data.len() < PAGE_SIZE {
                    return Err(storage_error("Object page is shorter than a page"));
                }
                match layout.read_record(&page, loc.slot_id)? {
                    Some(bytes) => {
                        let lookup = self.local.get_schema(typename);
                        let ghost answered = lookup;
                        let obj = decode_record(typename, bytes.as_slice(), lookup)?;
                        proof {
                            let s = answered->Ok_0->Some_0;
                            assert(decoded_from(page.data@, loc.slot_id.0 as int, s, obj@));
                        }
                        Ok(Some(obj))
                    },
                    None => Ok(None),
                }
            },
            None => Ok(None),
        }
    }

    fn delete_object(&mut self, typename: &str, object_id: &str) -> (r: Result<()>)
        ensures
            final(self).transaction() == old(self).transaction(),
            r is Ok ==> final(self).history().len() >= old(self).history().len(),
            r is Ok ==> final(self).history().take(old(self).history().len() as int) == old(
                self,
            ).history(),
            location_of(old(self).locations(), typename@, object_id@) is None ==> {
                &&& r matches Err(Error::ObjectNotFound { typename: t, object_id: o })
                &&& t@ == typename@
                &&& o@ == object_id@
            },
            location_of(old(self).locations(), typename@, object_id@) is Some
                && !old(self).log_has_room() ==> r matches Err(Error::StorageError { .. }),
            r is Ok ==> final(self).locations() == without_location(
                old(self).locations(),
                typename@,
                object_id@,
            ),
            r is Ok ==> final(self).log_pending() == Seq::<u8>::empty(),
            r is Ok ==> (location_of(old(self).locations(), typename@, object_id@) matches Some(loc)
                && delete_steps(
                final(self).locations(),
                old(self).log_pending(),
                old(self).next_lsn(),
                old(self).next_txn(),
                old(self).transaction(),
                typename@,
                object_id@,
                loc,
                final(self).history().skip(old(self).history().len() as int),
            )),
            r is Err ==> final(self).locations() == old(self).locations() || final(self).locations()
                == without_location(old(self).locations(), typename@, object_id@),
    {
        let id = ObjectId::new(typename, object_id);
        let loc = match self.table.index().get(&id) {
            Some(l) => l,
            None => {
                return Err(
                    Error::ObjectNotFound {
                        typename: typename.to_owned(),
                        object_id: object_id.to_owned(),
                    },
                );
            },
        };
        if !self.log_room() {
            return Err(storage_error("Write-ahead log sequence numbers are exhausted"));
        }
        let ghost start = self.effects@;
        let ghost pending = self.wal.pending();
        let ghost lsn = self.wal.spec_next_lsn();
        let own_txn = self.current_txn.is_none();
        let txn = match self.current_txn {
            Some(t) => t,
            None => self.wal.begin_transaction()?,
        };
        let p = LogPayload {
            op: "delete".to_owned(),
            typename: typename.to_owned(),
            object_id: object_id.to_owned(),
            data: String::new(),
        };
        let payload = self.files.encode_payload(&p)?;
        let ghost b = payload@;
        let ghost first_step = Effect::Encoded(p.op@, p.typename@, p.object_id@, p.data@, b);
        proof {
            self.effects@ = self.effects@.push(first_step);
        }
        self.wal.log_delete(txn, payload)?;
        let ghost logged = self.wal.pending();
        flush_log(&mut self.wal, &mut self.files, &mut self.effects)?;
        let page = self.pm.read_page(loc.page_id)?;
        delete_slot(&mut self.pm, loc, page)?;
        proof {
            self.effects@ = self.effects@.push(Effect::SlotCleared(loc));
        }
        let mut index = self.table.take();
        index.remove(&id);
        self.table.put(index);
        let entries = location_entries(self.table.index());
        self.files.save_locations(entries.as_slice())?;
        proof {
            self.effects@ = self.effects@.push(Effect::LocationsSaved(entries@));
        }
        if own_txn {
            self.wal.commit(txn)?;
            flush_log(&mut self.wal, &mut self.files, &mut self.effects)?;
            self.pm.sync()?;
            proof {
                self.effects@ = self.effects@.push(Effect::PagesSynced);
            }
        }
        proof {
            let steps = self.effects@.skip(start.len() as int);
            assert(logged == logged_change(pending, own_txn, txn, lsn, WalRecordType::Delete, b));
            assert(steps =~= seq![
                first_step,
                Effect::Logged(logged),
                Effect::SlotCleared(loc),
                Effect::LocationsSaved(entries@),
            ] + commit_effects(own_txn, txn, lsn));
            assert(self.effects@.take(start.len() as int) =~= start);
            assert(saves(entries@, self.locations()));
            assert(steps == seq![
                steps[0],
                Effect::Logged(logged),
                Effect::SlotCleared(loc),
                Effect::LocationsSaved(entries@),
            ] + commit_effects(own_txn, txn, lsn) && saves(entries@, self.locations()));
        }
        Ok(())
    }

    fn list_objects(&self, typename: &str) -> (r: Result<Vec<Object>>)
        ensures
            r matches Ok(v) && v@.len() <= ids_under(self.locations(), typename@).len(),
            r matches Ok(v) ==> each_read_back(ids_under(self.locations(), typename@), v@),
    {
        let ids = self.table.index().get_all_by_type(typename);
        proof {
            crate::assoc::lemma_assoc_len_distinct(loc_entries(ids@));
        }
        let ghost under = ids_under(self.locations(), typename@);
        let mut out: Vec<Object> = Vec::new();
        let mut i: usize = 0;
        while i < ids.len()
            invariant
                i <= ids@.len(),
                out@.len() <= i,
                under == ids_under(self.locations(), typename@),
                each_read_back(under, out@),
            decreases ids@.len() - i,
        {
            match self.get_object(typename, ids[i].0.as_str()) {
                Ok(Some(obj)) => {
                    let ghost before = out@;
                    proof {
                        let id = ids@[i as int].0@;
                        assert(under.contains_key(id) && read_back(under[id], obj@));
                    }
                    out.push(obj);
                    proof {
                        assert forall|k: int| 0 <= k < out@.len() implies read_back_under(
                            under,
                            #[trigger] out@[k]@,
                        ) by {
                            if k < before.len() {
                                assert(out@[k] == before[k]);
                            }
                        }
                    }
                },
                _ => {},
            }
            i = i + 1;
        }
        Ok(out)
    }

    fn object_exists(&self, typename: &str, object_id: &str) -> (r: Result<bool>)
        ensures
            r == Ok::<bool, Error>(location_of(self.locations(), typename@, object_id@) is Some),
    {
        Ok(self.table.index().object_exists(&ObjectId::new(typename, object_id)))
    }

    fn inspect(&self) -> (r: Result<StorageSummary>)
        ensures
            r matches Ok(s) ==> {
                &&& s.storage_backend@ == seq![
                    'p', 'a', 'g', 'e', 'd', '-', 's', 't', 'o', 'r', 'a', 'g', 'e'
                ]
                &&& s.object_type_count == self.locations().dom().len()
                &&& s.object_count == if crate::storage::location_index::indexed_pairs(
                    self.locations(),
                ).len() <= usize::MAX {
                    crate::storage::location_index::indexed_pairs(self.locations()).len()
                } else {
                    usize::MAX as nat
                }
            },
    {
        let mut s = self.local.inspect()?;
        let label = "paged-storage".to_owned();
        proof {
            reveal_strlit("paged-storage");
            assert(label@ =~= seq!['p', 'a', 'g', 'e', 'd', '-', 's', 't', 'o', 'r', 'a', 'g', 'e']);
        }
        s.storage_backend = label;
        s.total_size_bytes = self.pm.size()?;
        s.schema_count = self.local.list_schemas()?.len();
        s.object_type_count = self.table.index().types().len();
        s.object_count = self.table.index().total_objects_saturating();
        Ok(s)
    }

    fn set_database_name(&mut self, name: &str) -> (r: Result<()>)
        ensures
            final(self).locations() == old(self).locations(),
            final(self).transaction() == old(self).transaction(),
    {
        self.local.set_database_name(name)
    }

    fn database_name(&self) -> (r: Result<String>) {
        self.local.database_name()
    }

    fn save_precomputed_query(&mut self, name: &str, query: &str) -> (r: Result<()>)
        ensures
            final(self).locations() == old(self).locations(),
            final(self).transaction() == old(self).transaction(),
    {
        self.local.save_precomputed_query(name, query)
    }

    fn list_precomputed_queries(&self) -> (r: Result<Vec<String>>) {
        self.local.list_precomputed_queries()
    }

    fn begin_transaction(&mut self) -> (r: Result<()>)
        ensures
            final(self).locations() == old(self).locations(),
            old(self).transaction() is Some ==> {
                &&& r matches Err(Error::TransactionError { .. })
                &&& final(self).transaction() == old(self).transaction()
            },
            old(self).transaction() is None && old(self).log_has_room() ==> {
                &&& r is Ok
                &&& final(self).transaction() == Some(old(self).next_txn())
            },
            r is Err ==> final(self).transaction() == old(self).transaction(),
    {
        if self.current_txn.is_some() {
            return Err(
                Error::TransactionError { reason: "Transaction already in progress".to_owned() },
            );
        }
        if !self.log_room() {
            return Err(storage_error("Write-ahead log sequence numbers are exhausted"));
        }
        let txn = self.wal.begin_transaction()?;
        self.current_txn = Some(txn);
        Ok(())
    }

    fn commit(&mut self) -> (r: Result<()>)
        ensures
            final(self).locations() == old(self).locations(),
            old(self).transaction() is None ==> r matches Err(Error::TransactionError { .. }),
            r is Ok ==> final(self).transaction() is None,
            r is Err ==> final(self).transaction() == old(self).transaction(),
    {
        match self.current_txn {
            Some(txn) => {
                if !self.log_room() {
                    return Err(storage_error("Write-ahead log sequence numbers are exhausted"));
                }
                self.wal.commit(txn)?;
                flush_log(&mut self.wal, &mut self.files, &mut self.effects)?;
                self.pm.sync()?;
                self.current_txn = None;
                Ok(())
            },
            None => Err(Error::TransactionError { reason: "No transaction in progress".to_owned() }),
        }
    }

    /// Paged storage cannot undo its changes: a rollback is logged, the
    /// transaction ends, and the answer is an error saying so.
    fn rollback(&mut self) -> (r: Result<()>)
        ensures
            final(self).locations() == old(self).locations(),
            r matches Err(Error::TransactionError { .. }),
            final(self).transaction() is None,
    {
        match self.current_txn {
            Some(txn) => {
                if self.log_room() {
                    let _ = self.wal.rollback(txn);
                    let _ = flush_log(&mut self.wal, &mut self.files, &mut self.effects);
                }
                self.current_txn = None;
                Err(
                    Error::TransactionError {
                        reason: "Rollback is not supported for paged storage in this version".to_owned(),
                    },
                )
            },
            None => Err(Error::TransactionError { reason: "No transaction in progress".to_owned() }),
        }
    }
}

} // verus!
