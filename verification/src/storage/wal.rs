//! Write-ahead log records and the log's in-memory state.
//!
//! A record is encoded as: transaction id (u64 LE), log sequence number
//! (u64 LE), record type (1 byte), payload length (u32 LE), payload, and a
//! one-byte checksum that is the wrapping sum of all preceding bytes.
use crate::error::{storage_error, Error, Result};
use crate::storage::page::{
    copy_bytes, push_bytes, push_u32_le, push_u64_le, read_u32_le, read_u64_le, u32_at, u64_at,
};
use vstd::bytes::*;
use vstd::prelude::*;
use vstd::slice::{slice_subrange, slice_to_vec};

verus! {

/// Size of the fixed part of a record before its payload.
pub const RECORD_HEADER_SIZE: usize = 21;

/// WAL record types.
#[derive(Debug, Clone, Copy, PartialEq, Eq, Structural)]
pub enum WalRecordType {
    /// Begin transaction
    Begin,
    /// Insert/create record
    Insert,
    /// Update record
    Update,
    /// Delete record
    Delete,
    /// Index update
    IndexUpdate,
    /// Commit transaction
    Commit,
    /// Rollback transaction
    Rollback,
}

/// The byte code of a record type.
pub open spec fn record_type_code(t: WalRecordType) -> u8 {
    match t {
        WalRecordType::Begin => 1,
        WalRecordType::Insert => 2,
        WalRecordType::Update => 3,
        WalRecordType::Delete => 4,
        WalRecordType::IndexUpdate => 5,
        WalRecordType::Commit => 6,
        WalRecordType::Rollback => 7,
    }
}

/// The record type with a given byte code, if any.
pub open spec fn record_type_of_code(v: u8) -> Option<WalRecordType> {
    if v == 1 {
        Some(WalRecordType::Begin)
    } else if v == 2 {
        Some(WalRecordType::Insert)
    } else if v == 3 {
        Some(WalRecordType::Update)
    } else if v == 4 {
        Some(WalRecordType::Delete)
    } else if v == 5 {
        Some(WalRecordType::IndexUpdate)
    } else if v == 6 {
        Some(WalRecordType::Commit)
    } else if v == 7 {
        Some(WalRecordType::Rollback)
    } else {
        None
    }
}

impl WalRecordType {
    fn from_u8(v: u8) -> (r: Option<Self>)
        ensures
            r == record_type_of_code(v),
    {
        match v {
            1 => Some(WalRecordType::Begin),
            2 => Some(WalRecordType::Insert),
            3 => Some(WalRecordType::Update),
            4 => Some(WalRecordType::Delete),
            5 => Some(WalRecordType::IndexUpdate),
            6 => Some(WalRecordType::Commit),
            7 => Some(WalRecordType::Rollback),
            _ => None,
        }
    }

    fn as_u8(self) -> (r: u8)
        ensures
            r == record_type_code(self),
    {
        match self {
            WalRecordType::Begin => 1,
            WalRecordType::Insert => 2,
            WalRecordType::Update => 3,
            WalRecordType::Delete => 4,
            WalRecordType::IndexUpdate => 5,
            WalRecordType::Commit => 6,
            WalRecordType::Rollback => 7,
        }
    }
}

/// A single WAL entry.
#[derive(Debug)]
pub struct WalRecord {
    /// Transaction ID
    pub txn_id: u64,
    /// Log sequence number
    pub lsn: u64,
    /// Record type
    pub record_type: WalRecordType,
    /// Payload (varies by type)
    pub payload: Vec<u8>,
}

/// The mathematical content of a WAL record.
pub struct WalRecordView {
    pub txn_id: u64,
    pub lsn: u64,
    pub record_type: WalRecordType,
    pub payload: Seq<u8>,
}

impl View for WalRecord {
    type V = WalRecordView;

    open spec fn view(&self) -> WalRecordView {
        WalRecordView {
            txn_id: self.txn_id,
            lsn: self.lsn,
            record_type: self.record_type,
            payload: self.payload@,
        }
    }
}

impl Clone for WalRecord {
    fn clone(&self) -> (r: Self)
        ensures
            r@ == self@,
    {
        WalRecord {
            txn_id: self.txn_id,
            lsn: self.lsn,
            record_type: self.record_type,
            payload: copy_bytes(&self.payload),
        }
    }
}

/// Whether a record type changes an object.
pub open spec fn is_change(t: WalRecordType) -> bool {
    t == WalRecordType::Insert || t == WalRecordType::Update || t == WalRecordType::Delete
}

/// Whether the log holds a commit record for a transaction.
pub open spec fn committed_in(log: Seq<WalRecordView>, txn_id: u64) -> bool {
    exists|i: int| 0 <= i < log.len() && log[i].record_type == WalRecordType::Commit && log[i].txn_id == txn_id
}

/// The changes a log replays: the insert, update and delete records of the
/// transactions it commits, in log order.
pub open spec fn replayed(log: Seq<WalRecordView>) -> Seq<WalRecordView> {
    log.filter(|r: WalRecordView| is_change(r.record_type) && committed_in(log, r.txn_id))
}

/// The wrapping (mod 256) sum of a byte sequence.
pub open spec fn byte_sum(s: Seq<u8>) -> u8
    decreases s.len(),
{
    if s.len() == 0 {
        0
    } else {
        let acc = byte_sum(s.drop_last());
        if acc + s.last() > 255 {
            (acc + s.last() - 256) as u8
        } else {
            (acc + s.last()) as u8
        }
    }
}

/// The encoded bytes of a record, before the checksum.
pub open spec fn record_body(r: WalRecordView) -> Seq<u8> {
    spec_u64_to_le_bytes(r.txn_id) + spec_u64_to_le_bytes(r.lsn) + seq![
        record_type_code(r.record_type),
    ] + spec_u32_to_le_bytes(r.payload.len() as u32) + r.payload
}

/// The encoded bytes of a record: its body followed by the checksum.
pub open spec fn record_bytes(r: WalRecordView) -> Seq<u8> {
    record_body(r).push(byte_sum(record_body(r)))
}

/// Decodes the record at the start of `b`, with the number of bytes it spans;
/// None if the bytes are too short, truncated, of an unknown type or fail
/// the checksum.
pub open spec fn parse_record(b: Seq<u8>) -> Option<(WalRecordView, int)> {
    if b.len() < RECORD_HEADER_SIZE {
        None
    } else {
        let pl = u32_at(b, 17) as int;
        match record_type_of_code(b[16]) {
            None => None,
            Some(t) => if RECORD_HEADER_SIZE + pl + 1 > b.len() {
                None
            } else if byte_sum(b.subrange(0, RECORD_HEADER_SIZE + pl)) != b[RECORD_HEADER_SIZE + pl] {
                None
            } else {
                Some(
                    (
                        WalRecordView {
                            txn_id: u64_at(b, 0),
                            lsn: u64_at(b, 8),
                            record_type: t,
                            payload: b.subrange(RECORD_HEADER_SIZE as int, RECORD_HEADER_SIZE + pl),
                        },
                        RECORD_HEADER_SIZE + pl + 1,
                    ),
                )
            },
        }
    }
}

/// The records decoded one after another from the start of a log, up to the
/// first one that is incomplete or invalid.
pub open spec fn parse_log(b: Seq<u8>) -> Seq<WalRecordView>
    decreases b.len(),
{
    match parse_record(b) {
        None => Seq::empty(),
        Some((r, n)) => if 0 < n <= b.len() {
            seq![r] + parse_log(b.skip(n))
        } else {
            Seq::empty()
        },
    }
}

/// The concatenated encodings of a sequence of records.
pub open spec fn log_bytes(rs: Seq<WalRecordView>) -> Seq<u8>
    decreases rs.len(),
{
    if rs.len() == 0 {
        Seq::empty()
    } else {
        record_bytes(rs[0]) + log_bytes(rs.drop_first())
    }
}

/// Computes the wrapping sum of the first `n` bytes.
fn checksum(bytes: &[u8], n: usize) -> (c: u8)
    requires
        n <= bytes@.len(),
    ensures
        c == byte_sum(bytes@.subrange(0, n as int)),
{
    let mut acc: u8 = 0;
    let mut i: usize = 0;
    assert(bytes@.subrange(0, 0) =~= Seq::<u8>::empty());
    while i < n
        invariant
            i <= n <= bytes@.len(),
            acc == byte_sum(bytes@.subrange(0, i as int)),
        decreases n - i,
    {
        assert(bytes@.subrange(0, i + 1).drop_last() =~= bytes@.subrange(0, i as int));
        acc = acc.wrapping_add(bytes[i]);
        i = i + 1;
    }
    acc
}

impl WalRecord {
    pub fn new(txn_id: u64, lsn: u64, record_type: WalRecordType) -> (r: Self)
        ensures
            r@ == (WalRecordView { txn_id, lsn, record_type, payload: Seq::empty() }),
    {
        Self { txn_id, lsn, record_type, payload: Vec::new() }
    }

    pub fn with_payload(self, payload: Vec<u8>) -> (r: Self)
        ensures
            r@ == (WalRecordView { payload: payload@, ..self@ }),
    {
        let mut s = self;
        s.payload = payload;
        s
    }

    /// Serialize to bytes.
    pub fn to_bytes(&self) -> (bytes: Vec<u8>)
        ensures
            bytes@ == record_bytes(self@),
    {
        let mut bytes: Vec<u8> = Vec::with_capacity(256);
        push_u64_le(&mut bytes, self.txn_id);
        push_u64_le(&mut bytes, self.lsn);
        bytes.push(self.record_type.as_u8());
        push_u32_le(&mut bytes, self.payload.len() as u32);
        push_bytes(&mut bytes, self.payload.as_slice());
        assert(bytes@ =~= record_body(self@));
        let n = bytes.len();
        let sum = checksum(bytes.as_slice(), n);
        assert(bytes@.subrange(0, n as int) =~= bytes@);
        bytes.push(sum);
        bytes
    }

    /// Deserialize from bytes.
    pub fn from_bytes(bytes: &[u8]) -> (r: Result<Self>)
        ensures
            match parse_record(bytes@) {
                None => r matches Err(Error::StorageError { .. }),
                Some((v, _)) => r matches Ok(rec) && rec@ == v,
            },
    {
        if bytes.len() < RECORD_HEADER_SIZE {
            return Err(storage_error("WAL record too small"));
        }
        let txn_id = read_u64_le(bytes, 0);
        let lsn = read_u64_le(bytes, 8);
        let record_type = match WalRecordType::from_u8(bytes[16]) {
            Some(t) => t,
            None => {
                return Err(storage_error("Invalid WAL record type"));
            },
        };
        let payload_len = read_u32_le(bytes, 17) as u64;
        if RECORD_HEADER_SIZE as u64 + payload_len + 1 > bytes.len() as u64 {
            return Err(storage_error("WAL record truncated"));
        }
        let end = RECORD_HEADER_SIZE + payload_len as usize;
        let payload = slice_to_vec(slice_subrange(bytes, RECORD_HEADER_SIZE, end));
        let checksum_stored = bytes[end];
        let checksum_calc = checksum(bytes, end);
        if checksum_calc != checksum_stored {
            return Err(storage_error("WAL record checksum mismatch"));
        }
        Ok(Self { txn_id, lsn, record_type, payload })
    }
}

/// Decoding the encoding of a record, followed by any bytes, gives back the
/// record and the length of its encoding.
pub proof fn lemma_record_roundtrip(r: WalRecordView, rest: Seq<u8>)
    requires
        r.payload.len() <= u32::MAX,
    ensures
        parse_record(record_bytes(r) + rest) == Some((r, record_bytes(r).len() as int)),
        record_bytes(r).len() == RECORD_HEADER_SIZE + r.payload.len() + 1,
{
    lemma_auto_spec_u32_to_from_le_bytes();
    lemma_auto_spec_u64_to_from_le_bytes();
    let body = record_body(r);
    let b = record_bytes(r) + rest;
    let pl = r.payload.len() as int;
    assert(body.len() == RECORD_HEADER_SIZE + pl);
    assert(b.subrange(0, 8) =~= spec_u64_to_le_bytes(r.txn_id));
    assert(b.subrange(8, 16) =~= spec_u64_to_le_bytes(r.lsn));
    assert(b[16] == record_type_code(r.record_type));
    assert(b.subrange(17, 21) =~= spec_u32_to_le_bytes(pl as u32));
    assert(u32_at(b, 17) == pl);
    assert(b.subrange(0, RECORD_HEADER_SIZE + pl) =~= body);
    assert(b[RECORD_HEADER_SIZE + pl] == byte_sum(body));
    assert(b.subrange(RECORD_HEADER_SIZE as int, RECORD_HEADER_SIZE + pl) =~= r.payload);
    assert(record_type_of_code(record_type_code(r.record_type)) == Some(r.record_type));
}

/// The sum of a byte sequence, as an integer.
pub open spec fn byte_total(s: Seq<u8>) -> int
    decreases s.len(),
{
    if s.len() == 0 {
        0
    } else {
        byte_total(s.drop_last()) + s.last()
    }
}

/// The wrapping sum is the sum modulo 256.
proof fn lemma_byte_sum_mod(s: Seq<u8>)
    ensures
        byte_sum(s) as int == byte_total(s) % 256,
        byte_total(s) >= 0,
    decreases s.len(),
{
    if s.len() > 0 {
        lemma_byte_sum_mod(s.drop_last());
        let a = byte_total(s.drop_last());
        let l = s.last() as int;
        assert((a % 256 + l) % 256 == (a + l) % 256) by (nonlinear_arith)
            requires
                a >= 0,
                0 <= l < 256,
        ;
    }
}

/// Changing one byte changes the sum by the difference.
proof fn lemma_byte_total_update(s: Seq<u8>, i: int, x: u8)
    requires
        0 <= i < s.len(),
    ensures
        byte_total(s.update(i, x)) == byte_total(s) - s[i] + x,
    decreases s.len(),
{
    let u = s.update(i, x);
    if i == s.len() - 1 {
        assert(u.drop_last() =~= s.drop_last());
    } else {
        lemma_byte_total_update(s.drop_last(), i, x);
        assert(u.drop_last() =~= s.drop_last().update(i, x));
    }
}

/// A record's checksum catches any one changed byte outside its
/// payload-length field: the changed bytes no longer decode as a record.
pub proof fn lemma_record_corruption_detected(r: WalRecordView, i: int, x: u8)
    requires
        r.payload.len() <= u32::MAX,
        0 <= i < record_bytes(r).len(),
        !(17 <= i < 21),
        x != record_bytes(r)[i],
    ensures
        parse_record(record_bytes(r).update(i, x)) is None,
{
    let b = record_bytes(r);
    lemma_record_roundtrip(r, Seq::empty());
    assert(b + Seq::<u8>::empty() =~= b);
    let pl = r.payload.len() as int;
    let n = RECORD_HEADER_SIZE + pl;
    let b2 = b.update(i, x);
    assert(b2.subrange(17, 21) =~= b.subrange(17, 21));
    assert(u32_at(b2, 17) == u32_at(b, 17));
    assert(u32_at(b, 17) == pl);
    let body = b.subrange(0, n);
    assert(byte_sum(body) == b[n]);
    if record_type_of_code(b2[16]) is Some {
        if i == n {
            assert(b2.subrange(0, n) =~= body);
        } else {
            assert(b2.subrange(0, n) =~= body.update(i, x));
            assert(b2[n] == b[n]);
            lemma_byte_sum_mod(body);
            lemma_byte_sum_mod(body.update(i, x));
            lemma_byte_total_update(body, i, x);
            let tot = byte_total(body);
            let d = x as int - body[i] as int;
            assert(d != 0 && -256 < d < 256);
            assert((tot + d) % 256 != tot % 256) by (nonlinear_arith)
                requires
                    tot >= 0,
                    tot + d >= 0,
                    d != 0,
                    -256 < d < 256,
            ;
        }
    }
}

/// Decoding the concatenated encodings of records gives back those records.
pub proof fn lemma_log_roundtrip(rs: Seq<WalRecordView>)
    requires
        forall|i: int| 0 <= i < rs.len() ==> (#[trigger] rs[i]).payload.len() <= u32::MAX,
    ensures
        parse_log(log_bytes(rs)) == rs,
    decreases rs.len(),
{
    if rs.len() == 0 {
        assert(parse_record(Seq::<u8>::empty()) is None);
        assert(parse_log(log_bytes(rs)) =~= rs);
    } else {
        let rest = log_bytes(rs.drop_first());
        lemma_record_roundtrip(rs[0], rest);
        let b = log_bytes(rs);
        assert(b == record_bytes(rs[0]) + rest);
        let n = record_bytes(rs[0]).len() as int;
        assert(b.skip(n) =~= rest);
        assert forall|i: int| 0 <= i < rs.drop_first().len() implies (
        #[trigger] rs.drop_first()[i]).payload.len() <= u32::MAX by {
            assert(rs.drop_first()[i] == rs[i + 1]);
        }
        lemma_log_roundtrip(rs.drop_first());
        assert(parse_log(b) =~= rs);
    }
}

/// Decodes all complete, valid records from the start of a log buffer,
/// stopping at the first incomplete or invalid one.
pub fn parse_log_records(buffer: &[u8]) -> (records: Vec<WalRecord>)
    ensures
        records@.map_values(|r: WalRecord| r@) == parse_log(buffer@),
{
    let mut records: Vec<WalRecord> = Vec::new();
    let mut pos: usize = 0;
    assert(buffer@.skip(0) =~= buffer@);
    assert(records@.map_values(|r: WalRecord| r@) =~= Seq::<WalRecordView>::empty());
    loop
        invariant_except_break
            pos <= buffer@.len(),
            records@.map_values(|r: WalRecord| r@) + parse_log(buffer@.skip(pos as int))
                == parse_log(buffer@),
        ensures
            records@.map_values(|r: WalRecord| r@) == parse_log(buffer@),
        decreases buffer@.len() - pos,
    {
        let ghost rest = buffer@.skip(pos as int);
        if pos >= buffer.len() {
            proof {
                assert(rest =~= Seq::<u8>::empty());
                assert(parse_record(rest) is None);
                assert(records@.map_values(|r: WalRecord| r@) + parse_log(rest)
                    =~= records@.map_values(|r: WalRecord| r@));
            }
            break;
        }
        if buffer.len() - pos < RECORD_HEADER_SIZE {
            assert(parse_log(rest) =~= Seq::<WalRecordView>::empty());
            assert(records@.map_values(|r: WalRecord| r@) + parse_log(rest) =~= records@.map_values(
                |r: WalRecord| r@,
            ));
            break;
        }
        let payload_len = read_u32_le(buffer, pos + 17) as u64;
        assert(rest.subrange(17, 21) =~= buffer@.subrange(pos + 17, pos + 21));
        if RECORD_HEADER_SIZE as u64 + payload_len + 1 > (buffer.len() - pos) as u64 {
            assert(parse_log(rest) =~= Seq::<WalRecordView>::empty());
            assert(records@.map_values(|r: WalRecord| r@) + parse_log(rest) =~= records@.map_values(
                |r: WalRecord| r@,
            ));
            break;
        }
        let n = RECORD_HEADER_SIZE + payload_len as usize + 1;
        let chunk = slice_subrange(buffer, pos, pos + n);
        proof {
            // the record decodes the same from the exact chunk as from the rest of the log
            assert(chunk@ =~= rest.subrange(0, n as int));
            assert(chunk@.subrange(17, 21) =~= rest.subrange(17, 21));
            assert(chunk@.subrange(0, 8) =~= rest.subrange(0, 8));
            assert(chunk@.subrange(8, 16) =~= rest.subrange(8, 16));
            assert(chunk@.subrange(0, n - 1) =~= rest.subrange(0, n - 1));
            assert(chunk@.subrange(RECORD_HEADER_SIZE as int, n - 1) =~= rest.subrange(
                RECORD_HEADER_SIZE as int,
                n - 1,
            ));
        }
        match WalRecord::from_bytes(chunk) {
            Ok(record) => {
                proof {
                    assert(buffer@.skip(pos + n) =~= rest.skip(n as int));
                    assert(records@.push(record).map_values(|r: WalRecord| r@) =~= records@.map_values(
                        |r: WalRecord| r@,
                    ).push(record@));
                }
                records.push(record);
                pos = pos + n;
            },
            Err(_) => {
                assert(parse_log(rest) =~= Seq::<WalRecordView>::empty());
                assert(records@.map_values(|r: WalRecord| r@) + parse_log(rest)
                    =~= records@.map_values(|r: WalRecord| r@));
                break;
            },
        }
    }
    records
}

/// The in-memory state of the write-ahead log: sequence counters and the
/// encoded records not yet written out.
pub struct Wal {
    next_lsn: u64,
    next_txn_id: u64,
    buffer: Vec<u8>,
}

impl Wal {
    /// The next log sequence number to assign.
    pub closed spec fn spec_next_lsn(&self) -> u64 {
        self.next_lsn
    }

    /// The next transaction id to assign.
    pub closed spec fn spec_next_txn_id(&self) -> u64 {
        self.next_txn_id
    }

    /// The encoded records appended since the last flush.
    pub closed spec fn pending(&self) -> Seq<u8> {
        self.buffer@
    }

    /// A log whose first record will have sequence number 1 and whose first
    /// transaction will have id 1.
    pub fn new() -> (w: Self)
        ensures
            w.spec_next_lsn() == 1,
            w.spec_next_txn_id() == 1,
            w.pending() == Seq::<u8>::empty(),
    {
        Self { next_lsn: 1, next_txn_id: 1, buffer: Vec::with_capacity(4096) }
    }

    fn append_record(&mut self, record: &WalRecord)
        ensures
            final(self).next_lsn == old(self).next_lsn,
            final(self).next_txn_id == old(self).next_txn_id,
            final(self).buffer@ == old(self).buffer@ + record_bytes(record@),
    {
        let mut bytes = record.to_bytes();
        self.buffer.append(&mut bytes);
    }

    fn log_record(&mut self, txn_id: u64, record_type: WalRecordType, payload: Vec<u8>)
        requires
            old(self).next_lsn < u64::MAX,
        ensures
            final(self).next_lsn == old(self).next_lsn + 1,
            final(self).next_txn_id == old(self).next_txn_id,
            final(self).buffer@ == old(self).buffer@ + record_bytes(
                WalRecordView { txn_id, lsn: old(self).next_lsn, record_type, payload: payload@ },
            ),
    {
        let record = WalRecord::new(txn_id, self.next_lsn, record_type).with_payload(payload);
        self.next_lsn = self.next_lsn + 1;
        self.append_record(&record);
    }

    /// Begin a new transaction: assigns it the next id and logs a Begin record.
    pub fn begin_transaction(&mut self) -> (r: Result<u64>)
        requires
            old(self).spec_next_lsn() < u64::MAX,
            old(self).spec_next_txn_id() < u64::MAX,
        ensures
            r == Ok::<u64, Error>(old(self).spec_next_txn_id()),
            final(self).spec_next_txn_id() == old(self).spec_next_txn_id() + 1,
            final(self).spec_next_lsn() == old(self).spec_next_lsn() + 1,
            final(self).pending() == old(self).pending() + record_bytes(
                WalRecordView {
                    txn_id: old(self).spec_next_txn_id(),
                    lsn: old(self).spec_next_lsn(),
                    record_type: WalRecordType::Begin,
                    payload: Seq::empty(),
                },
            ),
    {
        let txn_id = self.next_txn_id;
        self.next_txn_id = self.next_txn_id + 1;
        self.log_record(txn_id, WalRecordType::Begin, Vec::new());
        Ok(txn_id)
    }

    /// Append an insert record to the log.
    pub fn log_insert(&mut self, txn_id: u64, payload: Vec<u8>) -> (r: Result<()>)
        requires
            old(self).spec_next_lsn() < u64::MAX,
        ensures
            r is Ok,
            final(self).spec_next_txn_id() == old(self).spec_next_txn_id(),
            final(self).spec_next_lsn() == old(self).spec_next_lsn() + 1,
            final(self).pending() == old(self).pending() + record_bytes(
                WalRecordView {
                    txn_id,
                    lsn: old(self).spec_next_lsn(),
                    record_type: WalRecordType::Insert,
                    payload: payload@,
                },
            ),
    {
        self.log_record(txn_id, WalRecordType::Insert, payload);
        Ok(())
    }

    /// Append an update record to the log.
    pub fn log_update(&mut self, txn_id: u64, payload: Vec<u8>) -> (r: Result<()>)
        requires
            old(self).spec_next_lsn() < u64::MAX,
        ensures
            r is Ok,
            final(self).spec_next_txn_id() == old(self).spec_next_txn_id(),
            final(self).spec_next_lsn() == old(self).spec_next_lsn() + 1,
            final(self).pending() == old(self).pending() + record_bytes(
                WalRecordView {
                    txn_id,
                    lsn: old(self).spec_next_lsn(),
                    record_type: WalRecordType::Update,
                    payload: payload@,
                },
            ),
    {
        self.log_record(txn_id, WalRecordType::Update, payload);
        Ok(())
    }

    /// Append a delete record to the log.
    pub fn log_delete(&mut self, txn_id: u64, payload: Vec<u8>) -> (r: Result<()>)
        requires
            old(self).spec_next_lsn() < u64::MAX,
        ensures
            r is Ok,
            final(self).spec_next_txn_id() == old(self).spec_next_txn_id(),
            final(self).spec_next_lsn() == old(self).spec_next_lsn() + 1,
            final(self).pending() == old(self).pending() + record_bytes(
                WalRecordView {
                    txn_id,
                    lsn: old(self).spec_next_lsn(),
                    record_type: WalRecordType::Delete,
                    payload: payload@,
                },
            ),
    {
        self.log_record(txn_id, WalRecordType::Delete, payload);
        Ok(())
    }

    /// Log the commit of a transaction. The caller then writes the pending
    /// bytes out and syncs them.
    pub fn commit(&mut self, txn_id: u64) -> (r: Result<()>)
        requires
            old(self).spec_next_lsn() < u64::MAX,
        ensures
            r is Ok,
            final(self).spec_next_txn_id() == old(self).spec_next_txn_id(),
            final(self).spec_next_lsn() == old(self).spec_next_lsn() + 1,
            final(self).pending() == old(self).pending() + record_bytes(
                WalRecordView {
                    txn_id,
                    lsn: old(self).spec_next_lsn(),
                    record_type: WalRecordType::Commit,
                    payload: Seq::empty(),
                },
            ),
    {
        self.log_record(txn_id, WalRecordType::Commit, Vec::new());
        Ok(())
    }

    /// Log the rollback of a transaction. The caller then writes the pending
    /// bytes out and syncs them.
    pub fn rollback(&mut self, txn_id: u64) -> (r: Result<()>)
        requires
            old(self).spec_next_lsn() < u64::MAX,
        ensures
            r is Ok,
            final(self).spec_next_txn_id() == old(self).spec_next_txn_id(),
            final(self).spec_next_lsn() == old(self).spec_next_lsn() + 1,
            final(self).pending() == old(self).pending() + record_bytes(
                WalRecordView {
                    txn_id,
                    lsn: old(self).spec_next_lsn(),
                    record_type: WalRecordType::Rollback,
                    payload: Seq::empty(),
                },
            ),
    {
        self.log_record(txn_id, WalRecordType::Rollback, Vec::new());
        Ok(())
    }

    /// The encoded records not yet written to storage.
    pub fn pending_bytes(&self) -> (b: &[u8])
        ensures
            b@ == self.pending(),
    {
        self.buffer.as_slice()
    }

    /// Forget the pending bytes once they have been written to storage.
    pub fn clear_pending(&mut self)
        ensures
            final(self).pending() == Seq::<u8>::empty(),
            final(self).spec_next_lsn() == old(self).spec_next_lsn(),
            final(self).spec_next_txn_id() == old(self).spec_next_txn_id(),
    {
        self.buffer.clear();
    }

    /// Get the current LSN.
    pub fn current_lsn(&self) -> (r: u64)
        ensures
            r == self.spec_next_lsn(),
    {
        self.next_lsn
    }

    /// The id the next transaction will get.
    pub fn next_txn_id(&self) -> (r: u64)
        ensures
            r == self.spec_next_txn_id(),
    {
        self.next_txn_id
    }
}

/// The records to replay after a restart: the insert, update and delete
/// records of committed transactions, in log order. Records of transactions
/// without a commit record, and the begin, commit and rollback markers, are
/// left out.
pub fn committed_changes(records: &Vec<WalRecord>) -> (r: Vec<WalRecord>)
    ensures
        r@.map_values(|x: WalRecord| x@) == replayed(records@.map_values(|x: WalRecord| x@)),
{
    let ghost log = records@.map_values(|x: WalRecord| x@);
    let mut committed: Vec<u64> = Vec::new();
    let mut i: usize = 0;
    while i < records.len()
        invariant
            i <= records@.len(),
            log == records@.map_values(|x: WalRecord| x@),
            forall|t: u64| committed@.contains(t) <==> exists|j: int|
                0 <= j < i && log[j].record_type == WalRecordType::Commit && log[j].txn_id == t,
        decreases records@.len() - i,
    {
        if records[i].record_type == WalRecordType::Commit {
            let ghost prev = committed@;
            let txn = records[i].txn_id;
            assert(log[i as int].record_type == WalRecordType::Commit && log[i as int].txn_id == txn);
            assert(forall|t: u64| prev.contains(t) <==> exists|j: int|
                0 <= j < i && log[j].record_type == WalRecordType::Commit && log[j].txn_id == t);
            committed.push(txn);
            proof {
                assert forall|t: u64| committed@.contains(t) <==> (prev.contains(t) || t == txn) by {
                    if committed@.contains(t) {
                        let k = choose|k: int| 0 <= k < committed@.len() && committed@[k] == t;
                        if k < prev.len() {
                            assert(prev[k] == t);
                        }
                    }
                    if prev.contains(t) {
                        let k = choose|k: int| 0 <= k < prev.len() && prev[k] == t;
                        assert(committed@[k] == t);
                    }
                    if t == txn {
                        assert(committed@[prev.len() as int] == t);
                    }
                }
                assert forall|t: u64| committed@.contains(t) <==> exists|j: int|
                    0 <= j < i + 1 && log[j].record_type == WalRecordType::Commit && log[j].txn_id
                        == t by {
                    assert(prev.contains(t) <==> exists|j: int|
                        0 <= j < i && log[j].record_type == WalRecordType::Commit && log[j].txn_id == t);
                    if t == txn {
                        assert(log[i as int].txn_id == t);
                    }
                    if exists|j: int|
                        0 <= j < i + 1 && log[j].record_type == WalRecordType::Commit
                            && log[j].txn_id == t {
                        let j = choose|j: int|
                            0 <= j < i + 1 && log[j].record_type == WalRecordType::Commit
                                && log[j].txn_id == t;
                        if j < i {
                            assert(prev.contains(t));
                        }
                    }
                }
            }
        } else {
            proof {
                assert forall|t: u64| committed@.contains(t) <==> exists|j: int|
                    0 <= j < i + 1 && log[j].record_type == WalRecordType::Commit && log[j].txn_id
                        == t by {
                    if exists|j: int|
                        0 <= j < i + 1 && log[j].record_type == WalRecordType::Commit
                            && log[j].txn_id == t {
                        let j = choose|j: int|
                            0 <= j < i + 1 && log[j].record_type == WalRecordType::Commit
                                && log[j].txn_id == t;
                        assert(j < i);
                    }
                }
            }
        }
        i = i + 1;
    }
    let mut out: Vec<WalRecord> = Vec::new();
    let mut k: usize = 0;
    while k < records.len()
        invariant
            k <= records@.len(),
            log == records@.map_values(|x: WalRecord| x@),
            forall|t: u64| committed@.contains(t) <==> committed_in(log, t),
            out@.map_values(|x: WalRecord| x@) == log.take(k as int).filter(
                |r: WalRecordView| is_change(r.record_type) && committed_in(log, r.txn_id),
            ),
        decreases records@.len() - k,
    {
        let rt = records[k].record_type;
        let change = rt == WalRecordType::Insert || rt == WalRecordType::Update || rt
            == WalRecordType::Delete;
        let mut known = false;
        let mut m: usize = 0;
        while m < committed.len()
            invariant
                m <= committed@.len(),
                k < records@.len(),
                known == exists|j: int| 0 <= j < m && committed@[j] == records@[k as int].txn_id,
            decreases committed@.len() - m,
        {
            if committed[m] == records[k].txn_id {
                known = true;
            }
            m = m + 1;
        }
        let ghost before = out@.map_values(|x: WalRecord| x@);
        assert(log.take(k + 1).drop_last() =~= log.take(k as int));
        if change && known {
            let rec = records[k].clone();
            out.push(rec);
            assert(out@.map_values(|x: WalRecord| x@) =~= before.push(log[k as int]));
        }
        proof {
            log.take(k as int).lemma_filter_push(
                log[k as int],
                |r: WalRecordView| is_change(r.record_type) && committed_in(log, r.txn_id),
            );
            assert(log.take(k as int).push(log[k as int]) =~= log.take(k + 1));
            assert(known == committed@.contains(records@[k as int].txn_id));
        }
        k = k + 1;
    }
    assert(log.take(k as int) =~= log);
    out
}

} // verus!
