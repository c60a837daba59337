//! Objects: typed records identified by a type name and an id.
use crate::assoc::{
    assoc_map, find_key, is_first_index, lemma_assoc_contains, lemma_assoc_first, lemma_assoc_push,
    lemma_assoc_update, lemma_assoc_without, without_key,
};
use crate::error::{Error, Result};
use crate::text::{has_char, join3, split_at_slash, split_slash, lemma_split_joined};
use crate::value::{Value, ValueView};
use vstd::prelude::*;

verus! {

/// Uniquely identifies an object: its type name and its id within that type,
/// written "Type/id".
#[derive(Debug, PartialEq, Eq, Hash)]
pub struct ObjectId {
    /// The type name
    pub typename: String,
    /// The object ID within that type
    pub object_id: String,
}

impl Clone for ObjectId {
    fn clone(&self) -> (r: Self)
        ensures
            r == *self,
    {
        ObjectId { typename: self.typename.clone(), object_id: self.object_id.clone() }
    }
}

/// The text form "Type/id" of an object id.
pub open spec fn object_id_text(typename: Seq<char>, object_id: Seq<char>) -> Seq<char> {
    typename + seq!['/'] + object_id
}

impl ObjectId {
    /// Create a new object ID.
    pub fn new(typename: &str, object_id: &str) -> (r: Self)
        ensures
            r.typename@ == typename@,
            r.object_id@ == object_id@,
    {
        Self { typename: typename.to_owned(), object_id: object_id.to_owned() }
    }

    /// Parse an object ID from a string like "Type/id": the text must hold
    /// exactly one `/`.
    pub fn parse(s: &str) -> (r: Result<Self>)
        ensures
            match split_at_slash(s@) {
                Some((t, o)) => r matches Ok(id) && id.typename@ == t && id.object_id@ == o,
                None => r matches Err(Error::Internal(_)),
            },
    {
        match split_slash(s) {
            Some((typename, object_id)) => Ok(Self { typename, object_id }),
            None => Err(
                Error::Internal(join3("Invalid object ID format: ", s, ". Expected 'Type/id'")),
            ),
        }
    }

    /// The text form "Type/id".
    pub fn to_text(&self) -> (r: String)
        ensures
            r@ == object_id_text(self.typename@, self.object_id@),
    {
        let r = join3(self.typename.as_str(), "/", self.object_id.as_str());
        proof {
            reveal_strlit("/");
        }
        assert(r@ =~= object_id_text(self.typename@, self.object_id@));
        r
    }
}

/// Parsing the text form of an object id whose parts hold no `/` gives back
/// the same type name and id.
pub proof fn lemma_object_id_text_roundtrip(typename: Seq<char>, object_id: Seq<char>)
    requires
        !has_char(typename, '/'),
        !has_char(object_id, '/'),
    ensures
        split_at_slash(object_id_text(typename, object_id)) == Some((typename, object_id)),
{
    lemma_split_joined(typename, object_id);
}

/// Represents an object instance in the database.
#[derive(Debug)]
pub struct Object {
    /// Object identity
    pub id: ObjectId,
    /// Field values, in the order they were first set
    pub fields: Vec<(String, Value)>,
}

/// The field entries with names and values taken by their views.
pub open spec fn field_entries(v: Seq<(String, Value)>) -> Seq<(Seq<char>, ValueView)> {
    v.map_values(|p: (String, Value)| (p.0@, p.1@))
}

/// The mathematical content of an object.
pub struct ObjectView {
    pub typename: Seq<char>,
    pub object_id: Seq<char>,
    pub fields: Map<Seq<char>, ValueView>,
}

impl View for Object {
    type V = ObjectView;

    open spec fn view(&self) -> ObjectView {
        ObjectView {
            typename: self.id.typename@,
            object_id: self.id.object_id@,
            fields: assoc_map(field_entries(self.fields@)),
        }
    }
}

/// Copies a list of fields.
pub fn copy_fields(v: &Vec<(String, Value)>) -> (r: Vec<(String, Value)>)
    ensures
        field_entries(r@) == field_entries(v@),
{
    let mut r: Vec<(String, Value)> = Vec::new();
    let mut i: usize = 0;
    while i < v.len()
        invariant
            i <= v@.len(),
            field_entries(r@) == field_entries(v@.take(i as int)),
        decreases v@.len() - i,
    {
        let name = v[i].0.clone();
        let value = v[i].1.clone();
        assert(name@ == v@[i as int].0@ && value@ == v@[i as int].1@);
        let ghost prev = r@;
        r.push((name, value));
        assert(field_entries(r@) =~= field_entries(prev).push((name@, value@)));
        assert(field_entries(v@.take(i + 1)) =~= field_entries(v@.take(i as int)).push(
            (v@[i as int].0@, v@[i as int].1@),
        ));
        i = i + 1;
    }
    assert(v@.take(v@.len() as int) =~= v@);
    r
}

impl Clone for Object {
    fn clone(&self) -> (r: Self)
        ensures
            r@ == self@,
            r.id == self.id,
            field_entries(r.fields@) == field_entries(self.fields@),
    {
        Object { id: self.id.clone(), fields: copy_fields(&self.fields) }
    }
}

impl Object {
    /// Create a new object with the given ID and no fields.
    pub fn new(typename: &str, object_id: &str) -> (r: Self)
        ensures
            r@.typename == typename@,
            r@.object_id == object_id@,
            r@.fields == Map::<Seq<char>, ValueView>::empty(),
            r.fields@.len() == 0,
    {
        let r = Self { id: ObjectId::new(typename, object_id), fields: Vec::new() };
        assert(field_entries(r.fields@) =~= Seq::empty());
        r
    }

    /// Create from an ObjectId.
    pub fn with_id(id: ObjectId) -> (r: Self)
        ensures
            r.id == id,
            r@.fields == Map::<Seq<char>, ValueView>::empty(),
            r.fields@.len() == 0,
    {
        let r = Self { id, fields: Vec::new() };
        assert(field_entries(r.fields@) =~= Seq::empty());
        r
    }

    /// Set a field value.
    pub fn set_field(&mut self, name: &str, value: Value)
        ensures
            final(self).id == old(self).id,
            final(self)@.fields == old(self)@.fields.insert(name@, value@),
    {
        let ghost old_entries = field_entries(self.fields@);
        match find_key(&self.fields, name) {
            Some(i) => {
                proof {
                    assert(is_first_index(old_entries, name@, i as int));
                    lemma_assoc_update(old_entries, name@, i as int, value@);
                }
                let key = self.fields[i].0.clone();
                self.fields.set(i, (key, value));
                assert(field_entries(self.fields@) =~= old_entries.update(
                    i as int,
                    (name@, value@),
                ));
            },
            None => {
                proof {
                    lemma_assoc_contains(old_entries, name@);
                    lemma_assoc_push(old_entries, name@, value@);
                }
                self.fields.push((name.to_owned(), value));
                assert(field_entries(self.fields@) =~= old_entries.push((name@, value@)));
            },
        }
    }

    /// Get a field value.
    pub fn get_field(&self, name: &str) -> (r: Option<&Value>)
        ensures
            match r {
                Some(v) => self@.fields.contains_key(name@) && self@.fields[name@] == v@,
                None => !self@.fields.contains_key(name@),
            },
    {
        match find_key(&self.fields, name) {
            Some(i) => {
                proof {
                    lemma_assoc_first(field_entries(self.fields@), name@, i as int);
                }
                Some(&self.fields[i].1)
            },
            None => {
                proof {
                    lemma_assoc_contains(field_entries(self.fields@), name@);
                }
                None
            },
        }
    }

    /// A mutable reference to a field's value, if the field is set.
    pub fn get_field_mut(&mut self, name: &str) -> (r: Option<&mut Value>)
        ensures
            match r {
                Some(v) => {
                    &&& old(self)@.fields.contains_key(name@)
                    &&& v@ == old(self)@.fields[name@]
                    &&& final(self).id == old(self).id
                    &&& final(self)@.fields == old(self)@.fields.insert(name@, final(v)@)
                },
                None => {
                    &&& !old(self)@.fields.contains_key(name@)
                    &&& *final(self) == *old(self)
                },
            },
    {
        let ghost entries = field_entries(self.fields@);
        match find_key(&self.fields, name) {
            Some(i) => {
                proof {
                    lemma_assoc_first(entries, name@, i as int);
                }
                let ghost before = self.fields@;
                let entry = &mut self.fields[i];
                proof {
                    let e = *final(entry);
                    assert(field_entries(before.update(i as int, e)) =~= entries.update(
                        i as int,
                        (e.0@, e.1@),
                    ));
                    lemma_assoc_update(entries, name@, i as int, e.1@);
                }
                Some(&mut entry.1)
            },
            None => {
                proof {
                    lemma_assoc_contains(entries, name@);
                }
                None
            },
        }
    }

    /// Check if a field exists in this object.
    pub fn has_field(&self, name: &str) -> (r: bool)
        ensures
            r == self@.fields.contains_key(name@),
    {
        self.get_field(name).is_some()
    }

    /// Remove a field, returning its value if it was set.
    pub fn remove_field(&mut self, name: &str) -> (r: Option<Value>)
        ensures
            final(self).id == old(self).id,
            final(self)@.fields == old(self)@.fields.remove(name@),
            match r {
                Some(v) => old(self)@.fields.contains_key(name@) && old(self)@.fields[name@] == v@,
                None => !old(self)@.fields.contains_key(name@),
            },
    {
        let removed = match self.get_field(name) {
            Some(v) => Some(v.clone()),
            None => None,
        };
        let ghost old_entries = field_entries(self.fields@);
        let key = name.to_owned();
        let mut kept: Vec<(String, Value)> = Vec::new();
        let mut i: usize = 0;
        while i < self.fields.len()
            invariant
                i <= self.fields@.len(),
                key@ == name@,
                old_entries == field_entries(self.fields@),
                field_entries(kept@) == without_key(old_entries.take(i as int), name@),
            decreases self.fields@.len() - i,
        {
            assert(old_entries.take(i + 1).drop_last() =~= old_entries.take(i as int));
            if self.fields[i].0 != key {
                let entry = (self.fields[i].0.clone(), self.fields[i].1.clone());
                kept.push(entry);
                assert(field_entries(kept@) =~= without_key(old_entries.take(i as int), name@).push(
                    old_entries[i as int],
                ));
            }
            i = i + 1;
        }
        assert(old_entries.take(i as int) =~= old_entries);
        proof {
            lemma_assoc_without(old_entries, name@);
        }
        self.fields = kept;
        removed
    }
}

} // verus!
