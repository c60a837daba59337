//! Binary codec for object records.
//!
//! The physical representation is schema-aware: field names are not stored
//! per record, field ids come from schema order, fixed-width fields are
//! encoded compactly and variable-width fields carry a length prefix.
//!
//! A record is: magic (u32 LE), schema version (u32 LE), type name and object
//! id as length-prefixed strings, field count (u16 LE), then for each field
//! its id (u16 LE) and its value.
use crate::assoc::{assoc_map, is_first_index};
use crate::error::{storage_error, Error, Result};
use crate::object::{Object, ObjectView};
use crate::schema::{field_entries_of, schema_valid, FieldDef, FieldId, FieldType, Schema};
use crate::storage::page::{push_bytes, push_u16_le, push_u32_le, push_u64_le, read_u16_le, read_u32_le, read_u64_le, u32_at, u64_at, PAGE_SIZE};
use crate::text::{decimal, decimal_text, join2};
use crate::value::{Value, ValueView};
use vstd::bytes::*;
use vstd::prelude::*;
use vstd::slice::{slice_subrange, slice_to_vec};
use vstd::utf8::{decode_utf8, encode_utf8, valid_utf8};

verus! {

/// Inline record safety bound, tied to the page size.
pub const MAX_INLINE_RECORD_SIZE: usize = PAGE_SIZE;

/// Binary record header magic ("KELP").
pub const RECORD_MAGIC: u32 = 0x4B454C50;

/// Encodes and decodes objects using schema-driven field IDs.
pub struct BinaryEncoder;

// ----- the record format -----

/// A length-prefixed string: its UTF-8 length (u16 LE) and its UTF-8 bytes;
/// None when the encoding is longer than a u16 can say.
pub open spec fn string_bytes(s: Seq<char>) -> Option<Seq<u8>> {
    let b = encode_utf8(s);
    if b.len() > u16::MAX {
        None
    } else {
        Some(spec_u16_to_le_bytes(b.len() as u16) + b)
    }
}

/// The encoding of a value stored in a field of type `t`; Null stores the
/// type's zero value. None on a type mismatch or an over-long string.
pub open spec fn value_bytes(t: FieldType, v: ValueView) -> Option<Seq<u8>> {
    match t {
        FieldType::String => match v {
            ValueView::Str(s) => string_bytes(s),
            ValueView::Null => string_bytes(Seq::empty()),
            _ => None,
        },
        FieldType::Integer => match v {
            ValueView::Int(i) => Some(spec_u64_to_le_bytes(i as u64)),
            ValueView::Null => Some(spec_u64_to_le_bytes(0)),
            _ => None,
        },
        FieldType::Float => match v {
            ValueView::Float(f) => Some(spec_u64_to_le_bytes(f)),
            ValueView::Null => Some(spec_u64_to_le_bytes(0)),
            _ => None,
        },
        FieldType::Boolean => match v {
            ValueView::Bool(b) => Some(
                seq![
                    if b {
                        1u8
                    } else {
                        0u8
                    },
                ],
            ),
            ValueView::Null => Some(seq![0u8]),
            _ => None,
        },
        FieldType::Reference => match v {
            ValueView::Ref(s) => string_bytes(s),
            ValueView::Null => string_bytes(Seq::empty()),
            _ => None,
        },
    }
}

/// The value a field of type `t` reads back as after storing `v`: Null comes
/// back as the type's zero value.
pub open spec fn stored_value(t: FieldType, v: ValueView) -> ValueView {
    match v {
        ValueView::Null => match t {
            FieldType::String => ValueView::Str(Seq::empty()),
            FieldType::Integer => ValueView::Int(0),
            FieldType::Float => ValueView::Float(0),
            FieldType::Boolean => ValueView::Bool(false),
            FieldType::Reference => ValueView::Ref(Seq::empty()),
        },
        _ => v,
    }
}

/// The position of the first field with this name (its field id minus one).
pub open spec fn first_field_index(fields: Seq<FieldDef>, name: Seq<char>) -> int {
    choose|i: int| is_first_index(field_entries_of(fields), name, i)
}

/// Among the first `n` schema fields, the number the object has a value for.
pub open spec fn present_count(fields: Seq<FieldDef>, obj: Map<Seq<char>, ValueView>, n: int) -> int
    decreases n,
{
    if n <= 0 {
        0
    } else {
        present_count(fields, obj, n - 1) + if obj.contains_key(fields[n - 1].name@) {
            1int
        } else {
            0int
        }
    }
}

/// The encoded (id, value) entries for the object's values among the first
/// `n` schema fields, in schema order.
pub open spec fn fields_bytes(fields: Seq<FieldDef>, obj: Map<Seq<char>, ValueView>, n: int) -> Option<
    Seq<u8>,
>
    decreases n,
{
    if n <= 0 {
        Some(Seq::empty())
    } else {
        match fields_bytes(fields, obj, n - 1) {
            None => None,
            Some(prev) => {
                let name = fields[n - 1].name@;
                if !obj.contains_key(name) {
                    Some(prev)
                } else {
                    let i = first_field_index(fields, name);
                    match value_bytes(fields[i].field_type, obj[name]) {
                        None => None,
                        Some(vb) => Some(prev + spec_u16_to_le_bytes((i + 1) as u16) + vb),
                    }
                }
            },
        }
    }
}

/// The encoding of an object under a schema, before the size check; None on
/// a type mismatch or an over-long string.
pub open spec fn record_spec(o: ObjectView, schema: Schema) -> Option<Seq<u8>> {
    match (string_bytes(o.typename), string_bytes(o.object_id)) {
        (Some(t), Some(id)) => match fields_bytes(
            schema.fields@,
            o.fields,
            schema.fields@.len() as int,
        ) {
            Some(fb) => Some(
                spec_u32_to_le_bytes(RECORD_MAGIC) + spec_u32_to_le_bytes(schema.schema_version) + t
                    + id + spec_u16_to_le_bytes(
                    present_count(schema.fields@, o.fields, schema.fields@.len() as int) as u16,
                ) + fb,
            ),
            None => None,
        },
        _ => None,
    }
}

/// Reads a length-prefixed string at `pos`, with the position after it.
pub open spec fn read_string_spec(b: Seq<u8>, pos: int) -> Option<(Seq<char>, int)> {
    if pos + 2 > b.len() {
        None
    } else {
        let len = spec_u16_from_le_bytes(b.subrange(pos, pos + 2)) as int;
        if pos + 2 + len > b.len() {
            None
        } else {
            let raw = b.subrange(pos + 2, pos + 2 + len);
            if !valid_utf8(raw) {
                None
            } else {
                Some((decode_utf8(raw), pos + 2 + len))
            }
        }
    }
}

/// Reads a value of type `t` at `pos`, with the position after it.
pub open spec fn read_value_spec(b: Seq<u8>, pos: int, t: FieldType) -> Option<(ValueView, int)> {
    match t {
        FieldType::String => match read_string_spec(b, pos) {
            Some((s, p)) => Some((ValueView::Str(s), p)),
            None => None,
        },
        FieldType::Reference => match read_string_spec(b, pos) {
            Some((s, p)) => Some((ValueView::Ref(s), p)),
            None => None,
        },
        FieldType::Integer => if pos + 8 > b.len() {
            None
        } else {
            Some((ValueView::Int(u64_at(b, pos) as i64), pos + 8))
        },
        FieldType::Float => if pos + 8 > b.len() {
            None
        } else {
            Some((ValueView::Float(u64_at(b, pos)), pos + 8))
        },
        FieldType::Boolean => if pos >= b.len() {
            None
        } else {
            Some((ValueView::Bool(b[pos] != 0), pos + 1))
        },
    }
}

/// The schema position a field id refers to.
pub open spec fn id_index(id: u16) -> int {
    if id == 0 {
        0
    } else {
        id - 1
    }
}

/// Reads `k` (id, value) entries at `pos`, setting each into `acc`; gives the
/// fields and the position after the last entry.
pub open spec fn read_fields_spec(
    b: Seq<u8>,
    pos: int,
    k: nat,
    fields: Seq<FieldDef>,
    acc: Map<Seq<char>, ValueView>,
) -> Option<(Map<Seq<char>, ValueView>, int)>
    decreases k,
{
    if k == 0 {
        Some((acc, pos))
    } else if pos + 2 > b.len() {
        None
    } else {
        let idx = id_index(spec_u16_from_le_bytes(b.subrange(pos, pos + 2)));
        if idx >= fields.len() {
            None
        } else {
            match read_value_spec(b, pos + 2, fields[idx].field_type) {
                None => None,
                Some((v, p)) => read_fields_spec(
                    b,
                    p,
                    (k - 1) as nat,
                    fields,
                    acc.insert(fields[idx].name@, v),
                ),
            }
        }
    }
}

/// Decodes a record under a schema; None if it is malformed.
pub open spec fn decode_spec(b: Seq<u8>, schema: Schema) -> Option<ObjectView> {
    if b.len() < 8 || u32_at(b, 0) != RECORD_MAGIC || u32_at(b, 4) != schema.schema_version {
        None
    } else {
        match read_string_spec(b, 8) {
            None => None,
            Some((t, p1)) => match read_string_spec(b, p1) {
                None => None,
                Some((id, p2)) => if p2 + 2 > b.len() {
                    None
                } else {
                    let count = spec_u16_from_le_bytes(b.subrange(p2, p2 + 2));
                    match read_fields_spec(b, p2 + 2, count as nat, schema.fields@, Map::empty()) {
                        None => None,
                        Some((m, _)) => Some(ObjectView { typename: t, object_id: id, fields: m }),
                    }
                },
            },
        }
    }
}

/// Reading a string after a prefix of the record, when the record's bytes
/// from `pos` begin with `tail`.
pub open spec fn starts_with_at(b: Seq<u8>, pos: int, tail: Seq<u8>) -> bool {
    &&& 0 <= pos
    &&& pos + tail.len() <= b.len()
    &&& b.subrange(pos, pos + tail.len()) == tail
}

/// Calls `String::from_utf8`: the string whose UTF-8 encoding the bytes are,
/// or None when the bytes are not valid UTF-8 (its `Err` case).
#[verifier::external_body]
fn string_from_utf8(bytes: Vec<u8>) -> (r: Option<String>)
    ensures
        match r {
            Some(s) => valid_utf8(bytes@) && s@ == decode_utf8(bytes@),
            None => !valid_utf8(bytes@),
        },
{
    String::from_utf8(bytes).ok()
}

/// The error a value of the wrong type gives when encoded.
fn type_mismatch(field: &str, expected: &str, value: &Value) -> (e: Error)
    ensures
        e is TypeMismatch,
{
    Error::TypeMismatch {
        field: field.to_owned(),
        expected: expected.to_owned(),
        actual: value.typename().to_owned(),
    }
}

impl BinaryEncoder {
    /// Write a length-prefixed string.
    fn write_string(bytes: &mut Vec<u8>, s: &str) -> (r: Result<()>)
        ensures
            match string_bytes(s@) {
                Some(sb) => r is Ok && final(bytes)@ == old(bytes)@ + sb,
                None => r matches Err(Error::StorageError { .. }) && final(bytes)@ == old(bytes)@,
            },
    {
        let s_bytes = s.as_bytes();
        if s_bytes.len() > 65535 {
            return Err(storage_error("String too large for inline storage"));
        }
        push_u16_le(bytes, s_bytes.len() as u16);
        push_bytes(bytes, s_bytes);
        Ok(())
    }

    /// Read a length-prefixed string.
    fn read_string(bytes: &[u8], pos: usize) -> (r: Result<(String, usize)>)
        requires
            pos <= bytes@.len(),
        ensures
            match read_string_spec(bytes@, pos as int) {
                Some((s, p)) => r matches Ok((t, q)) && t@ == s && q == p,
                None => r matches Err(Error::StorageError { .. }),
            },
    {
        if bytes.len() - pos < 2 {
            return Err(storage_error("Record truncated at string length"));
        }
        let len = read_u16_le(bytes, pos) as usize;
        let start = pos + 2;
        if bytes.len() - start < len {
            return Err(storage_error("Record truncated at string data"));
        }
        let raw = slice_to_vec(slice_subrange(bytes, start, start + len));
        match string_from_utf8(raw) {
            Some(s) => Ok((s, start + len)),
            None => Err(storage_error("Invalid UTF-8 in record")),
        }
    }

    /// Encode a field value according to its schema-known type.
    fn encode_field_value(bytes: &mut Vec<u8>, field_type: FieldType, value: &Value) -> (r: Result<
        (),
    >)
        ensures
            match value_bytes(field_type, value@) {
                Some(vb) => r is Ok && final(bytes)@ == old(bytes)@ + vb,
                None => r is Err && final(bytes)@ == old(bytes)@ && match r {
                    Err(e) => e is StorageError || e is TypeMismatch,
                    Ok(_) => false,
                },
            },
    {
        proof {
            reveal_strlit("");
            assert(""@ =~= Seq::<char>::empty());
        }
        match field_type {
            FieldType::String => match value {
                Value::String(s) => Self::write_string(bytes, s.as_str()),
                Value::Null => Self::write_string(bytes, ""),
                other => Err(type_mismatch("string", "String", other)),
            },
            FieldType::Integer => match value {
                Value::Integer(v) => {
                    push_u64_le(bytes, *v as u64);
                    Ok(())
                },
                Value::Null => {
                    push_u64_le(bytes, 0);
                    Ok(())
                },
                other => Err(type_mismatch("integer", "Integer", other)),
            },
            FieldType::Float => match value {
                Value::Float(v) => {
                    push_u64_le(bytes, *v);
                    Ok(())
                },
                Value::Null => {
                    push_u64_le(bytes, 0);
                    Ok(())
                },
                other => Err(type_mismatch("float", "Float", other)),
            },
            FieldType::Boolean => match value {
                Value::Boolean(v) => {
                    bytes.push(
                        if *v {
                            1
                        } else {
                            0
                        },
                    );
                    Ok(())
                },
                Value::Null => {
                    bytes.push(0);
                    Ok(())
                },
                other => Err(type_mismatch("boolean", "Boolean", other)),
            },
            FieldType::Reference => match value {
                Value::Reference(v) => Self::write_string(bytes, v.as_str()),
                Value::Null => Self::write_string(bytes, ""),
                other => Err(type_mismatch("reference", "Reference", other)),
            },
        }
    }

    /// Decode a field value according to the known field type.
    fn decode_field_value(bytes: &[u8], pos: usize, field_type: FieldType) -> (r: Result<
        (Value, usize),
    >)
        requires
            pos <= bytes@.len(),
        ensures
            match read_value_spec(bytes@, pos as int, field_type) {
                Some((v, p)) => r matches Ok((w, q)) && w@ == v && q == p,
                None => r matches Err(Error::StorageError { .. }),
            },
    {
        match field_type {
            FieldType::String => {
                let (s, new_pos) = Self::read_string(bytes, pos)?;
                Ok((Value::String(s), new_pos))
            },
            FieldType::Integer => {
                if bytes.len() - pos < 8 {
                    return Err(storage_error("Record truncated at integer field"));
                }
                Ok((Value::Integer(read_u64_le(bytes, pos) as i64), pos + 8))
            },
            FieldType::Float => {
                if bytes.len() - pos < 8 {
                    return Err(storage_error("Record truncated at float field"));
                }
                Ok((Value::Float(read_u64_le(bytes, pos)), pos + 8))
            },
            FieldType::Boolean => {
                if pos >= bytes.len() {
                    return Err(storage_error("Record truncated at boolean field"));
                }
                Ok((Value::Boolean(bytes[pos] != 0), pos + 1))
            },
            FieldType::Reference => {
                let (ref_id, new_pos) = Self::read_string(bytes, pos)?;
                Ok((Value::Reference(ref_id), new_pos))
            },
        }
    }
}


/// Once the entries of a prefix of the schema fail to encode, so do those of
/// every longer prefix.
proof fn lemma_fields_bytes_none(fields: Seq<FieldDef>, obj: Map<Seq<char>, ValueView>, k: int, n: int)
    requires
        k <= n,
        fields_bytes(fields, obj, k) is None,
    ensures
        fields_bytes(fields, obj, n) is None,
    decreases n - k,
{
    if k < n {
        lemma_fields_bytes_none(fields, obj, k, n - 1);
    }
}

/// The present count is at most the number of fields considered.
proof fn lemma_present_count_bound(fields: Seq<FieldDef>, obj: Map<Seq<char>, ValueView>, n: int)
    requires
        0 <= n,
    ensures
        0 <= present_count(fields, obj, n) <= n,
    decreases n,
{
    if n > 0 {
        lemma_present_count_bound(fields, obj, n - 1);
    }
}

impl BinaryEncoder {
    /// Encode an object to its schema-aware binary format.
    pub fn encode_object(object: &Object, schema: &Schema) -> (r: Result<Vec<u8>>)
        requires
            schema.fields@.len() <= u16::MAX,
        ensures
            !schema_valid(schema@, schema.fields@) ==> r matches Err(Error::SchemaError { .. }),
            schema_valid(schema@, schema.fields@) ==> match record_spec(object@, *schema) {
                Some(b) => if b.len() <= MAX_INLINE_RECORD_SIZE {
                    r matches Ok(v) && v@ == b
                } else {
                    r matches Err(Error::StorageError { .. })
                },
                None => r matches Err(e) && (e is StorageError || e is TypeMismatch),
            },
    {
        schema.validate()?;
        let ghost fields = schema.fields@;
        let ghost obj = object@.fields;
        let mut bytes: Vec<u8> = Vec::with_capacity(512);
        push_u32_le(&mut bytes, RECORD_MAGIC);
        push_u32_le(&mut bytes, schema.schema_version);
        Self::write_string(&mut bytes, object.id.typename.as_str())?;
        Self::write_string(&mut bytes, object.id.object_id.as_str())?;
        let mut field_count: u16 = 0;
        let mut i: usize = 0;
        while i < schema.fields.len()
            invariant
                i <= schema.fields@.len() <= u16::MAX,
                fields == schema.fields@,
                obj == object@.fields,
                field_count == present_count(fields, obj, i as int),
            decreases schema.fields@.len() - i,
        {
            proof {
                lemma_present_count_bound(fields, obj, i as int);
            }
            if object.has_field(schema.fields[i].name.as_str()) {
                field_count = field_count + 1;
            }
            i = i + 1;
        }
        push_u16_le(&mut bytes, field_count);
        let ghost header = bytes@;
        let mut i: usize = 0;
        assert(header + Seq::<u8>::empty() =~= header);
        while i < schema.fields.len()
            invariant
                i <= schema.fields@.len() <= u16::MAX,
                fields == schema.fields@,
                obj == object@.fields,
                schema_valid(schema@, schema.fields@),
                header == spec_u32_to_le_bytes(RECORD_MAGIC) + spec_u32_to_le_bytes(schema.schema_version)
                    + string_bytes(object@.typename)->0 + string_bytes(object@.object_id)->0
                    + spec_u16_to_le_bytes(present_count(fields, obj, fields.len() as int) as u16),
                string_bytes(object@.typename) is Some,
                string_bytes(object@.object_id) is Some,
                fields_bytes(fields, obj, i as int) matches Some(fb) && bytes@ == header + fb,
            decreases schema.fields@.len() - i,
        {
            let field_name = schema.fields[i].name.as_str();
            match object.get_field(field_name) {
                None => {},
                Some(value) => {
                    let field_id = match schema.field_id(field_name) {
                        Some(id) => id,
                        None => {
                            proof {
                                crate::assoc::lemma_assoc_contains(field_entries_of(fields), fields[i as int].name@);
                                assert(field_entries_of(fields)[i as int].0 == fields[i as int].name@);
                            }
                            return Err(storage_error("Field was not assigned a stable field ID"));
                        },
                    };
                    let field_def = match schema.get_field(field_name) {
                        Some(d) => d,
                        None => {
                            proof {
                                crate::assoc::lemma_assoc_first(field_entries_of(fields), fields[i as int].name@, field_id.0 - 1);
                            }
                            return Err(storage_error("Field missing from schema metadata"));
                        },
                    };
                    proof {
                        let k = fields[i as int].name@;
                        let fi = first_field_index(fields, k);
                        assert(is_first_index(field_entries_of(fields), k, field_id.0 - 1));
                        assert(is_first_index(field_entries_of(fields), k, fi));
                        crate::assoc::lemma_first_index_unique(field_entries_of(fields), k, fi, field_id.0 - 1);
                        crate::assoc::lemma_assoc_first(field_entries_of(fields), k, fi);
                        assert(field_entries_of(fields)[fi] == (fields[fi].name@, fields[fi]@));
                    }
                    let ghost before = bytes@;
                    push_u16_le(&mut bytes, field_id.as_u16());
                    let enc = Self::encode_field_value(&mut bytes, field_def.field_type, value);
                    match enc {
                        Ok(()) => {},
                        Err(e) => {
                            proof {
                                lemma_fields_bytes_none(fields, obj, i + 1, fields.len() as int);
                            }
                            return Err(e);
                        },
                    }
                    assert(bytes@ =~= header + fields_bytes(fields, obj, i + 1)->0);
                },
            }
            i = i + 1;
        }
        if bytes.len() > MAX_INLINE_RECORD_SIZE {
            return Err(storage_error("Encoded record exceeds inline page size"));
        }
        Ok(bytes)
    }

    /// Schema-aware decode of an object.
    pub fn decode_object_with_schema(bytes: &[u8], schema: &Schema) -> (r: Result<Object>)
        ensures
            !schema_valid(schema@, schema.fields@) ==> r matches Err(Error::SchemaError { .. }),
            schema_valid(schema@, schema.fields@) ==> match decode_spec(bytes@, *schema) {
                Some(v) => r matches Ok(o) && o@ == v,
                None => r matches Err(Error::StorageError { .. }),
            },
    {
        schema.validate()?;
        if bytes.len() < 4 {
            return Err(storage_error("Record too small for header"));
        }
        let magic = read_u32_le(bytes, 0);
        if magic != RECORD_MAGIC {
            return Err(storage_error("Invalid record magic"));
        }
        if bytes.len() < 8 {
            return Err(storage_error("Record truncated at schema version"));
        }
        let schema_version = read_u32_le(bytes, 4);
        if schema_version != schema.schema_version {
            return Err(storage_error("Schema version mismatch"));
        }
        let (typename, pos) = Self::read_string(bytes, 8)?;
        let (object_id, pos) = Self::read_string(bytes, pos)?;
        let mut decoded = Object::new(typename.as_str(), object_id.as_str());
        if bytes.len() - pos < 2 {
            return Err(storage_error("Record truncated at field count"));
        }
        let field_count = read_u16_le(bytes, pos);
        let mut pos = pos + 2;
        let ghost total = read_fields_spec(bytes@, pos as int, field_count as nat, schema.fields@, Map::empty());
        let mut k: u16 = 0;
        assert(decoded@.fields == Map::<Seq<char>, ValueView>::empty());
        while k < field_count
            invariant
                k <= field_count,
                schema_valid(schema@, schema.fields@),
                decode_spec(bytes@, *schema) == match total {
                    None => None,
                    Some((m, _)) => Some(ObjectView { typename: typename@, object_id: object_id@, fields: m }),
                },
                pos <= bytes@.len(),
                decoded@.typename == typename@,
                decoded@.object_id == object_id@,
                total == read_fields_spec(
                    bytes@,
                    pos as int,
                    (field_count - k) as nat,
                    schema.fields@,
                    decoded@.fields,
                ),
            decreases field_count - k,
        {
            if bytes.len() - pos < 2 {
                return Err(storage_error("Record truncated at field id"));
            }
            let field_id = FieldId::new(read_u16_le(bytes, pos));
            pos = pos + 2;
            let (field_name, field_def) = match schema.field_by_id(field_id) {
                Some(p) => p,
                None => {
                    return Err(storage_error("Unknown field ID in schema"));
                },
            };
            let (value, next_pos) = Self::decode_field_value(bytes, pos, field_def.field_type)?;
            pos = next_pos;
            decoded.set_field(field_name.as_str(), value);
            k = k + 1;
        }
        Ok(decoded)
    }
}



// ----- the legacy format -----

/// Reads a value carrying a one-byte type tag (1 String, 2 Integer, 3 Float,
/// 4 Boolean, 5 Null, 6 Reference) at `pos`, with the position after it.
pub open spec fn read_legacy_value_spec(b: Seq<u8>, pos: int) -> Option<(ValueView, int)> {
    if pos >= b.len() {
        None
    } else {
        let tag = b[pos];
        let p = pos + 1;
        if tag == 1 {
            read_value_spec(b, p, FieldType::String)
        } else if tag == 2 {
            read_value_spec(b, p, FieldType::Integer)
        } else if tag == 3 {
            read_value_spec(b, p, FieldType::Float)
        } else if tag == 4 {
            read_value_spec(b, p, FieldType::Boolean)
        } else if tag == 5 {
            Some((ValueView::Null, p))
        } else if tag == 6 {
            read_value_spec(b, p, FieldType::Reference)
        } else {
            None
        }
    }
}

/// The name a legacy record gives a field: "field_" and its id.
pub open spec fn legacy_field_name(id: u16) -> Seq<char> {
    "field_"@ + decimal(id as nat)
}

/// Reads `k` legacy (id, tagged value) entries at `pos`, setting each into
/// `acc` under its legacy name.
pub open spec fn read_legacy_fields_spec(
    b: Seq<u8>,
    pos: int,
    k: nat,
    acc: Map<Seq<char>, ValueView>,
) -> Option<Map<Seq<char>, ValueView>>
    decreases k,
{
    if k == 0 {
        Some(acc)
    } else if pos + 2 > b.len() {
        None
    } else {
        let id = spec_u16_from_le_bytes(b.subrange(pos, pos + 2));
        match read_legacy_value_spec(b, pos + 2) {
            None => None,
            Some((v, p)) => read_legacy_fields_spec(
                b,
                p,
                (k - 1) as nat,
                acc.insert(legacy_field_name(id), v),
            ),
        }
    }
}

/// Decodes a legacy record without a schema; None if it is malformed.
pub open spec fn decode_legacy_spec(b: Seq<u8>) -> Option<ObjectView> {
    if b.len() < 8 || u32_at(b, 0) != RECORD_MAGIC {
        None
    } else {
        match read_string_spec(b, 8) {
            None => None,
            Some((t, p1)) => match read_string_spec(b, p1) {
                None => None,
                Some((id, p2)) => if p2 + 2 > b.len() {
                    None
                } else {
                    let count = spec_u16_from_le_bytes(b.subrange(p2, p2 + 2));
                    match read_legacy_fields_spec(b, p2 + 2, count as nat, Map::empty()) {
                        None => None,
                        Some(m) => Some(ObjectView { typename: t, object_id: id, fields: m }),
                    }
                },
            },
        }
    }
}

/// The djb2 hash of a byte sequence, with wrapping u32 arithmetic.
pub open spec fn djb2(s: Seq<u8>) -> u32
    decreases s.len(),
{
    if s.len() == 0 {
        5381
    } else {
        vstd::wrapping::u32_specs::wrapping_add(
            vstd::wrapping::u32_specs::wrapping_mul(djb2(s.drop_last()), 33),
            s.last() as u32,
        )
    }
}

impl BinaryEncoder {
    /// Legacy compatibility decoder for a field payload that carries a type tag.
    fn decode_legacy_field_value(bytes: &[u8], pos: usize) -> (r: Result<(Value, usize)>)
        requires
            pos <= bytes@.len(),
        ensures
            match read_legacy_value_spec(bytes@, pos as int) {
                Some((v, p)) => r matches Ok((w, q)) && w@ == v && q == p,
                None => r matches Err(Error::StorageError { .. }),
            },
    {
        if pos >= bytes.len() {
            return Err(storage_error("Record truncated at legacy field type"));
        }
        let value_type = bytes[pos];
        let pos = pos + 1;
        if value_type == 1 {
            Self::decode_field_value(bytes, pos, FieldType::String)
        } else if value_type == 2 {
            Self::decode_field_value(bytes, pos, FieldType::Integer)
        } else if value_type == 3 {
            Self::decode_field_value(bytes, pos, FieldType::Float)
        } else if value_type == 4 {
            Self::decode_field_value(bytes, pos, FieldType::Boolean)
        } else if value_type == 5 {
            Ok((Value::Null, pos))
        } else if value_type == 6 {
            Self::decode_field_value(bytes, pos, FieldType::Reference)
        } else {
            Err(storage_error("Unknown legacy value type"))
        }
    }

    /// Legacy compatibility decoder: reads a record without a schema, naming
    /// each field "field_" and its id and reading type-tagged values.
    pub fn decode_object(bytes: &[u8]) -> (r: Result<Object>)
        ensures
            match decode_legacy_spec(bytes@) {
                Some(v) => r matches Ok(o) && o@ == v,
                None => r matches Err(Error::StorageError { .. }),
            },
    {
        if bytes.len() < 4 {
            return Err(storage_error("Record too small for header"));
        }
        let magic = read_u32_le(bytes, 0);
        if magic != RECORD_MAGIC {
            return Err(storage_error("Invalid record magic"));
        }
        if bytes.len() < 8 {
            return Err(storage_error("Record truncated at schema version"));
        }
        let (typename, pos) = Self::read_string(bytes, 8)?;
        let (object_id, pos) = Self::read_string(bytes, pos)?;
        let mut object = Object::new(typename.as_str(), object_id.as_str());
        if bytes.len() - pos < 2 {
            return Err(storage_error("Record truncated at field count"));
        }
        let field_count = read_u16_le(bytes, pos);
        let mut pos = pos + 2;
        let ghost total = read_legacy_fields_spec(bytes@, pos as int, field_count as nat, Map::empty());
        let mut k: u16 = 0;
        assert(object@.fields == Map::<Seq<char>, ValueView>::empty());
        proof {
            reveal_strlit("field_");
        }
        while k < field_count
            invariant
                k <= field_count,
                pos <= bytes@.len(),
                object@.typename == typename@,
                object@.object_id == object_id@,
                "field_"@ == seq!['f', 'i', 'e', 'l', 'd', '_'],
                decode_legacy_spec(bytes@) == match total {
                    None => None,
                    Some(m) => Some(ObjectView { typename: typename@, object_id: object_id@, fields: m }),
                },
                total == read_legacy_fields_spec(
                    bytes@,
                    pos as int,
                    (field_count - k) as nat,
                    object@.fields,
                ),
            decreases field_count - k,
        {
            if bytes.len() - pos < 2 {
                return Err(storage_error("Record truncated at field ID"));
            }
            let field_id = read_u16_le(bytes, pos);
            pos = pos + 2;
            // Compatibility fallback: the field name is reconstructed from its stable ID.
            let field_name = join2("field_", decimal_text(field_id as u64).as_str());
            let (value, next_pos) = Self::decode_legacy_field_value(bytes, pos)?;
            pos = next_pos;
            object.set_field(field_name.as_str(), value);
            k = k + 1;
        }
        Ok(object)
    }

    /// Schema id used for version validation: the djb2 hash of the schema name.
    pub fn schema_id(schema: &Schema) -> (r: u32)
        ensures
            r == djb2(vstd::utf8::encode_utf8(schema.name@)),
    {
        let bytes = schema.name.as_str().as_bytes();
        let mut hash: u32 = 5381;
        let mut i: usize = 0;
        assert(bytes@.subrange(0, 0) =~= Seq::<u8>::empty());
        while i < bytes.len()
            invariant
                i <= bytes@.len(),
                hash == djb2(bytes@.subrange(0, i as int)),
            decreases bytes@.len() - i,
        {
            assert(bytes@.subrange(0, i + 1).drop_last() =~= bytes@.subrange(0, i as int));
            hash = hash.wrapping_mul(33).wrapping_add(bytes[i] as u32);
            i = i + 1;
        }
        assert(bytes@.subrange(0, i as int) =~= bytes@);
        hash
    }
}

// ----- the round trip -----

/// The fields an object reads back with after being stored under a schema:
/// those the schema defines, each as its field type stores it.
pub open spec fn stored_fields(schema: Schema, obj: Map<Seq<char>, ValueView>) -> Map<
    Seq<char>,
    ValueView,
> {
    Map::new(
        |k: Seq<char>| schema@.fields.contains_key(k) && obj.contains_key(k),
        |k: Seq<char>| stored_value(schema@.fields[k].field_type, obj[k]),
    )
}

/// The fields set by reading back the entries of the first `n` schema fields.
pub open spec fn stored_fields_upto(fields: Seq<FieldDef>, obj: Map<Seq<char>, ValueView>, n: int) -> Map<
    Seq<char>,
    ValueView,
>
    decreases n,
{
    if n <= 0 {
        Map::empty()
    } else {
        let prev = stored_fields_upto(fields, obj, n - 1);
        let name = fields[n - 1].name@;
        if obj.contains_key(name) {
            let i = first_field_index(fields, name);
            prev.insert(name, stored_value(fields[i].field_type, obj[name]))
        } else {
            prev
        }
    }
}

proof fn lemma_read_string(b: Seq<u8>, pos: int, s: Seq<char>)
    requires
        string_bytes(s) is Some,
        starts_with_at(b, pos, string_bytes(s)->0),
    ensures
        read_string_spec(b, pos) == Some((s, pos + string_bytes(s)->0.len())),
{
    lemma_auto_spec_u16_to_from_le_bytes();
    vstd::utf8::encode_utf8_valid_utf8(s);
    vstd::utf8::encode_utf8_decode_utf8(s);
    let sb = string_bytes(s)->0;
    let e = encode_utf8(s);
    assert(b.subrange(pos, pos + 2) =~= sb.subrange(0, 2));
    assert(sb.subrange(0, 2) =~= spec_u16_to_le_bytes(e.len() as u16));
    assert(b.subrange(pos + 2, pos + 2 + e.len() as int) =~= sb.subrange(2, 2 + e.len() as int));
    assert(sb.subrange(2, 2 + e.len() as int) =~= e);
}

proof fn lemma_read_value(b: Seq<u8>, pos: int, t: FieldType, v: ValueView)
    requires
        value_bytes(t, v) is Some,
        starts_with_at(b, pos, value_bytes(t, v)->0),
    ensures
        read_value_spec(b, pos, t) == Some((stored_value(t, v), pos + value_bytes(t, v)->0.len())),
{
    lemma_auto_spec_u64_to_from_le_bytes();
    let vb = value_bytes(t, v)->0;
    match t {
        FieldType::String | FieldType::Reference => {
            match v {
                ValueView::Str(s) => lemma_read_string(b, pos, s),
                ValueView::Ref(s) => lemma_read_string(b, pos, s),
                _ => lemma_read_string(b, pos, Seq::empty()),
            }
        },
        FieldType::Integer => {
            assert(b.subrange(pos, pos + 8) =~= vb);
            match v {
                ValueView::Int(i) => {
                    assert((i as u64) as i64 == i) by (bit_vector);
                },
                _ => {
                    assert((0u64 as i64) == 0i64) by (bit_vector);
                },
            }
        },
        FieldType::Float => {
            assert(b.subrange(pos, pos + 8) =~= vb);
        },
        FieldType::Boolean => {
            assert(b[pos] == vb[0]);
        },
    }
}

/// Reading `k1 + k2` entries is reading `k1` and then `k2` more.
proof fn lemma_read_fields_split(
    b: Seq<u8>,
    pos: int,
    k1: nat,
    k2: nat,
    fields: Seq<FieldDef>,
    acc: Map<Seq<char>, ValueView>,
)
    ensures
        read_fields_spec(b, pos, k1 + k2, fields, acc) == match read_fields_spec(
            b,
            pos,
            k1,
            fields,
            acc,
        ) {
            None => None,
            Some((m, p)) => read_fields_spec(b, p, k2, fields, m),
        },
    decreases k1,
{
    if k1 > 0 && pos + 2 <= b.len() {
        let idx = id_index(spec_u16_from_le_bytes(b.subrange(pos, pos + 2)));
        if idx < fields.len() {
            if let Some((v, p)) = read_value_spec(b, pos + 2, fields[idx].field_type) {
                lemma_read_fields_split(
                    b,
                    p,
                    (k1 - 1) as nat,
                    k2,
                    fields,
                    acc.insert(fields[idx].name@, v),
                );
                assert((k1 + k2 - 1) as nat == ((k1 - 1) as nat + k2) as nat);
            }
        }
    }
}

/// The entries of a prefix of the schema fields begin the entries of a longer
/// prefix.
proof fn lemma_fields_bytes_prefix(fields: Seq<FieldDef>, obj: Map<Seq<char>, ValueView>, n: int, m: int)
    requires
        0 <= n <= m,
        fields_bytes(fields, obj, m) is Some,
    ensures
        fields_bytes(fields, obj, n) is Some,
        fields_bytes(fields, obj, n)->0.len() <= fields_bytes(fields, obj, m)->0.len(),
        fields_bytes(fields, obj, m)->0.subrange(0, fields_bytes(fields, obj, n)->0.len() as int)
            == fields_bytes(fields, obj, n)->0,
    decreases m - n,
{
    if n < m {
        lemma_fields_bytes_prefix(fields, obj, n, m - 1);
        let a = fields_bytes(fields, obj, n)->0;
        let c = fields_bytes(fields, obj, m - 1)->0;
        let d = fields_bytes(fields, obj, m)->0;
        assert(d.subrange(0, c.len() as int) =~= c);
        assert(d.subrange(0, a.len() as int) =~= c.subrange(0, a.len() as int));
    } else {
        assert(fields_bytes(fields, obj, m)->0.subrange(0, fields_bytes(fields, obj, m)->0.len() as int)
            =~= fields_bytes(fields, obj, m)->0);
    }
}

/// Reading back the entries of the first `n` schema fields sets exactly the
/// stored values of the object's fields among them.
proof fn lemma_read_fields_upto(
    b: Seq<u8>,
    pos: int,
    fields: Seq<FieldDef>,
    obj: Map<Seq<char>, ValueView>,
    n: int,
)
    requires
        0 <= n <= fields.len() <= u16::MAX,
        fields_bytes(fields, obj, n) is Some,
        starts_with_at(b, pos, fields_bytes(fields, obj, n)->0),
    ensures
        read_fields_spec(b, pos, present_count(fields, obj, n) as nat, fields, Map::empty()) == Some(
            (stored_fields_upto(fields, obj, n), pos + fields_bytes(fields, obj, n)->0.len()),
        ),
    decreases n,
{
    lemma_auto_spec_u16_to_from_le_bytes();
    if n == 0 {
    } else {
        lemma_fields_bytes_prefix(fields, obj, n - 1, n);
        let prev = fields_bytes(fields, obj, n - 1)->0;
        let all = fields_bytes(fields, obj, n)->0;
        assert(b.subrange(pos, pos + prev.len()) =~= all.subrange(0, prev.len() as int));
        lemma_read_fields_upto(b, pos, fields, obj, n - 1);
        lemma_present_count_bound(fields, obj, n - 1);
        let name = fields[n - 1].name@;
        if obj.contains_key(name) {
            let entries = field_entries_of(fields);
            assert(entries[n - 1].0 == name);
            crate::assoc::lemma_assoc_contains(entries, name);
            let i0 = crate::assoc::lemma_assoc_has_first(entries, name);
            let i = first_field_index(fields, name);
            crate::assoc::lemma_first_index_unique(entries, name, i, i0);
            assert(entries[i] == (fields[i].name@, fields[i]@));
            let vb = value_bytes(fields[i].field_type, obj[name])->0;
            let idb = spec_u16_to_le_bytes((i + 1) as u16);
            let q = pos + prev.len();
            assert(all =~= prev + idb + vb);
            let w = b.subrange(pos, pos + all.len());
            let pl: int = prev.len() as int;
            let vl: int = vb.len() as int;
            assert(w == all);
            assert(w.subrange(pl, pl + 2) =~= b.subrange(q, q + 2));
            assert(all.subrange(pl, pl + 2) =~= idb);
            assert(b.subrange(q, q + 2) =~= idb);
            assert(w.subrange(pl + 2, pl + 2 + vl) =~= b.subrange(
                q + 2,
                q + 2 + vb.len(),
            ));
            assert(all.subrange(pl + 2, pl + 2 + vl) =~= vb);
            assert(id_index(spec_u16_from_le_bytes(b.subrange(q, q + 2))) == i);
            assert(b.subrange(q + 2, q + 2 + vb.len()) =~= vb);
            lemma_read_value(b, q + 2, fields[i].field_type, obj[name]);
            lemma_read_fields_split(
                b,
                pos,
                present_count(fields, obj, n - 1) as nat,
                1,
                fields,
                Map::empty(),
            );
            assert(present_count(fields, obj, n) as nat == (present_count(fields, obj, n - 1) as nat
                + 1) as nat);
            let m = stored_fields_upto(fields, obj, n - 1);
            assert(read_fields_spec(b, q, 1, fields, m) == read_fields_spec(
                b,
                q + 2 + vb.len(),
                0,
                fields,
                m.insert(fields[i].name@, stored_value(fields[i].field_type, obj[name])),
            ));
        } else {
            assert(all == prev);
        }
    }
}

/// The fields read back from the first `n` schema fields, in closed form.
proof fn lemma_stored_fields_upto(fields: Seq<FieldDef>, obj: Map<Seq<char>, ValueView>, n: int)
    requires
        0 <= n <= fields.len(),
    ensures
        forall|k: Seq<char>|
            #[trigger] stored_fields_upto(fields, obj, n).contains_key(k) <==> (obj.contains_key(k)
                && exists|j: int| 0 <= j < n && fields[j].name@ == k),
        forall|k: Seq<char>|
            #[trigger] stored_fields_upto(fields, obj, n).contains_key(k) ==> stored_fields_upto(
                fields,
                obj,
                n,
            )[k] == stored_value(fields[first_field_index(fields, k)].field_type, obj[k]),
    decreases n,
{
    if n > 0 {
        lemma_stored_fields_upto(fields, obj, n - 1);
        assert forall|k: Seq<char>|
            #[trigger] stored_fields_upto(fields, obj, n).contains_key(k) <==> (obj.contains_key(k)
                && exists|j: int| 0 <= j < n && fields[j].name@ == k) by {
            if obj.contains_key(k) && exists|j: int| 0 <= j < n && fields[j].name@ == k {
                let j = choose|j: int| 0 <= j < n && fields[j].name@ == k;
                if j < n - 1 {
                    assert(exists|j: int| 0 <= j < n - 1 && fields[j].name@ == k);
                }
            }
        }
    }
}

/// Storing an object under a schema and reading it back gives the object's
/// type name and id, and the values of the fields the schema defines, each
/// as its field type stores it (a Null comes back as the type's zero value;
/// fields the schema does not define are not stored).
pub proof fn lemma_codec_roundtrip(o: ObjectView, schema: Schema)
    requires
        schema.fields@.len() <= u16::MAX,
        record_spec(o, schema) is Some,
    ensures
        decode_spec(record_spec(o, schema)->0, schema) == Some(
            ObjectView {
                typename: o.typename,
                object_id: o.object_id,
                fields: stored_fields(schema, o.fields),
            },
        ),
{
    lemma_auto_spec_u32_to_from_le_bytes();
    lemma_auto_spec_u16_to_from_le_bytes();
    let fields = schema.fields@;
    let n = fields.len() as int;
    let b = record_spec(o, schema)->0;
    let t = string_bytes(o.typename)->0;
    let id = string_bytes(o.object_id)->0;
    let fb = fields_bytes(fields, o.fields, n)->0;
    let cnt = spec_u16_to_le_bytes(present_count(fields, o.fields, n) as u16);
    let m = spec_u32_to_le_bytes(RECORD_MAGIC);
    let v = spec_u32_to_le_bytes(schema.schema_version);
    assert(b =~= m + v + t + id + cnt + fb);
    assert(b.subrange(0, 4) =~= m);
    assert(b.subrange(4, 8) =~= v);
    assert(b.subrange(8, 8 + t.len() as int) =~= t);
    lemma_read_string(b, 8, o.typename);
    let p1: int = 8 + t.len() as int;
    assert(b.subrange(p1, p1 + id.len() as int) =~= id);
    lemma_read_string(b, p1, o.object_id);
    let p2: int = p1 + id.len();
    assert(b.subrange(p2, p2 + 2) =~= cnt);
    lemma_present_count_bound(fields, o.fields, n);
    assert(b.subrange(p2 + 2, p2 + 2 + fb.len() as int) =~= fb);
    lemma_read_fields_upto(b, p2 + 2, fields, o.fields, n);
    lemma_stored_fields_upto(fields, o.fields, n);
    let got = stored_fields_upto(fields, o.fields, n);
    let want = stored_fields(schema, o.fields);
    assert forall|k: Seq<char>| #[trigger] got.contains_key(k) <==> want.contains_key(k) by {
        crate::assoc::lemma_assoc_contains(field_entries_of(fields), k);
        if exists|j: int| 0 <= j < n && fields[j].name@ == k {
            let j = choose|j: int| 0 <= j < n && fields[j].name@ == k;
            assert(field_entries_of(fields)[j].0 == k);
        }
        if schema@.fields.contains_key(k) {
            let j = choose|j: int| 0 <= j < n && field_entries_of(fields)[j].0 == k;
            assert(field_entries_of(fields)[j] == (fields[j].name@, fields[j]@));
        }
    }
    assert forall|k: Seq<char>| #[trigger] got.contains_key(k) implies got[k] == want[k] by {
        let entries = field_entries_of(fields);
        let i0 = crate::assoc::lemma_assoc_has_first(entries, k);
        let i = first_field_index(fields, k);
        crate::assoc::lemma_first_index_unique(entries, k, i, i0);
        assert(entries[i] == (fields[i].name@, fields[i]@));
    }
    assert(got =~= want);
}

} // verus!
