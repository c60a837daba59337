//! The object location index: where on storage the record of each object
//! lives, looked up by the object's type name and id. Objects can move (for
//! instance during compaction) without changing their logical identity.
use crate::assoc::{
    assoc_map, find_key, is_first_index, keys_of, lemma_assoc_contains, lemma_assoc_finite,
    lemma_assoc_first, lemma_assoc_len_distinct, lemma_assoc_push, lemma_assoc_remove_distinct,
    lemma_assoc_update, lemma_distinct_entry, lemma_distinct_first, lemma_distinct_push,
    lemma_keys_update, pair_set, entry_count, lemma_entry_count_prefix, lemma_pairs_count,
};
use crate::error::{Error, Result};
use crate::object::ObjectId;
use crate::storage::page::RecordLocation;
use vstd::prelude::*;

verus! {

/// The entries of one type's list, with ids taken by their views.
pub open spec fn loc_entries(v: Seq<(String, RecordLocation)>) -> Seq<(Seq<char>, RecordLocation)> {
    v.map_values(|p: (String, RecordLocation)| (p.0@, p.1))
}

/// The entries of the type list, each type name with the map of its ids.
pub open spec fn type_entries(v: Seq<(String, Vec<(String, RecordLocation)>)>) -> Seq<
    (Seq<char>, Map<Seq<char>, RecordLocation>),
> {
    v.map_values(
        |p: (String, Vec<(String, RecordLocation)>)| (p.0@, assoc_map(loc_entries(p.1@))),
    )
}

/// The ids recorded under a type; empty for a type the index has never seen.
pub open spec fn ids_under(
    m: Map<Seq<char>, Map<Seq<char>, RecordLocation>>,
    t: Seq<char>,
) -> Map<Seq<char>, RecordLocation> {
    if m.contains_key(t) {
        m[t]
    } else {
        Map::empty()
    }
}

/// Where the index places an object, if anywhere.
pub open spec fn location_of(
    m: Map<Seq<char>, Map<Seq<char>, RecordLocation>>,
    t: Seq<char>,
    o: Seq<char>,
) -> Option<RecordLocation> {
    if m.contains_key(t) && m[t].contains_key(o) {
        Some(m[t][o])
    } else {
        None
    }
}

/// The (type, id) pairs that the index holds.
pub open spec fn indexed_pairs(m: Map<Seq<char>, Map<Seq<char>, RecordLocation>>) -> Set<
    (Seq<char>, Seq<char>),
> {
    pair_set(m)
}

/// Maps each object id to its physical location, grouped by type name.
pub struct ObjectLocationIndex {
    index: Vec<(String, Vec<(String, RecordLocation)>)>,
}

impl View for ObjectLocationIndex {
    type V = Map<Seq<char>, Map<Seq<char>, RecordLocation>>;

    closed spec fn view(&self) -> Self::V {
        assoc_map(type_entries(self.index@))
    }
}

/// Copies one type's list of locations.
fn copy_locations(v: &Vec<(String, RecordLocation)>) -> (r: Vec<(String, RecordLocation)>)
    ensures
        loc_entries(r@) == loc_entries(v@),
{
    let mut r: Vec<(String, RecordLocation)> = Vec::new();
    let mut i: usize = 0;
    while i < v.len()
        invariant
            i <= v@.len(),
            loc_entries(r@) == loc_entries(v@.take(i as int)),
        decreases v@.len() - i,
    {
        let id = v[i].0.clone();
        let ghost prev = r@;
        r.push((id, v[i].1));
        assert(loc_entries(r@) =~= loc_entries(prev).push((v@[i as int].0@, v@[i as int].1)));
        assert(loc_entries(v@.take(i + 1)) =~= loc_entries(v@.take(i as int)).push(
            (v@[i as int].0@, v@[i as int].1),
        ));
        i = i + 1;
    }
    assert(v@.take(v@.len() as int) =~= v@);
    r
}

/// Records `loc` for `id` in one type's list.
fn put_location(ids: &mut Vec<(String, RecordLocation)>, id: &str, loc: RecordLocation)
    requires
        keys_of(loc_entries(old(ids)@)).no_duplicates(),
    ensures
        keys_of(loc_entries(final(ids)@)).no_duplicates(),
        assoc_map(loc_entries(final(ids)@)) == assoc_map(loc_entries(old(ids)@)).insert(id@, loc),
{
    let ghost e = loc_entries(ids@);
    match find_key(ids, id) {
        Some(j) => {
            proof {
                assert(is_first_index(e, id@, j as int));
                lemma_assoc_update(e, id@, j as int, loc);
                lemma_keys_update(e, j as int, loc);
            }
            let key = ids[j].0.clone();
            ids.set(j, (key, loc));
            assert(loc_entries(ids@) =~= e.update(j as int, (id@, loc)));
        },
        None => {
            proof {
                lemma_assoc_contains(e, id@);
                lemma_assoc_push(e, id@, loc);
                lemma_distinct_push(e, id@, loc);
            }
            ids.push((id.to_owned(), loc));
            assert(loc_entries(ids@) =~= e.push((id@, loc)));
        },
    }
}

/// Drops the entry for `id` from one type's list, giving back its location.
fn take_location(ids: &mut Vec<(String, RecordLocation)>, id: &str) -> (r: Option<RecordLocation>)
    requires
        keys_of(loc_entries(old(ids)@)).no_duplicates(),
    ensures
        keys_of(loc_entries(final(ids)@)).no_duplicates(),
        assoc_map(loc_entries(final(ids)@)) == assoc_map(loc_entries(old(ids)@)).remove(id@),
        r == (if assoc_map(loc_entries(old(ids)@)).contains_key(id@) {
            Some(assoc_map(loc_entries(old(ids)@))[id@])
        } else {
            None::<RecordLocation>
        }),
{
    let ghost e = loc_entries(ids@);
    match find_key(ids, id) {
        Some(j) => {
            proof {
                lemma_distinct_entry(e, j as int);
                lemma_assoc_remove_distinct(e, j as int);
            }
            let (_, loc) = ids.remove(j);
            assert(loc_entries(ids@) =~= e.remove(j as int));
            Some(loc)
        },
        None => {
            proof {
                lemma_assoc_contains(e, id@);
                assert(assoc_map(e).remove(id@) =~= assoc_map(e));
            }
            None
        },
    }
}

impl ObjectLocationIndex {
    /// Type names are distinct, and so are the ids under each type.
    pub closed spec fn wf(&self) -> bool {
        &&& keys_of(type_entries(self.index@)).no_duplicates()
        &&& forall|i: int|
            0 <= i < self.index@.len() ==> keys_of(
                loc_entries(#[trigger] self.index@[i].1@),
            ).no_duplicates()
    }

    /// Create a new empty location index.
    pub fn new() -> (r: Self)
        ensures
            r.wf(),
            r@ == Map::<Seq<char>, Map<Seq<char>, RecordLocation>>::empty(),
    {
        let r = Self { index: Vec::new() };
        assert(type_entries(r.index@) =~= Seq::empty());
        assert(keys_of(type_entries(r.index@)) =~= Seq::empty());
        r
    }

    /// Insert or update a location mapping.
    pub fn insert(&mut self, obj_id: &ObjectId, location: RecordLocation)
        requires
            old(self).wf(),
        ensures
            final(self).wf(),
            final(self)@ == old(self)@.insert(
                obj_id.typename@,
                ids_under(old(self)@, obj_id.typename@).insert(obj_id.object_id@, location),
            ),
    {
        let ghost e = type_entries(self.index@);
        let ghost t = obj_id.typename@;
        let ghost o = obj_id.object_id@;
        match find_key(&self.index, obj_id.typename.as_str()) {
            Some(i) => {
                proof {
                    lemma_distinct_entry(e, i as int);
                }
                let ghost before = self.index@;
                let (name, mut ids) = self.index.remove(i);
                assert(self.index@ =~= before.remove(i as int));
                put_location(&mut ids, obj_id.object_id.as_str(), location);
                let ghost m = assoc_map(loc_entries(ids@));
                self.index.insert(i, (name, ids));
                assert(self.index@ =~= before.update(i as int, (name, ids)));
                proof {
                    assert(type_entries(self.index@) =~= e.update(i as int, (t, m)));
                    assert(is_first_index(e, t, i as int));
                    lemma_assoc_update(e, t, i as int, m);
                    lemma_keys_update(e, i as int, m);
                    assert forall|k: int| 0 <= k < self.index@.len() implies keys_of(
                        loc_entries(#[trigger] self.index@[k].1@),
                    ).no_duplicates() by {
                        if k != i {
                            assert(self.index@[k] == before[k]);
                        }
                    }
                }
            },
            None => {
                let mut ids: Vec<(String, RecordLocation)> = Vec::new();
                ids.push((obj_id.object_id.clone(), location));
                let ghost m = assoc_map(loc_entries(ids@));
                assert(loc_entries(ids@) =~= seq![(o, location)]);
                proof {
                    let none = Seq::<(Seq<char>, RecordLocation)>::empty();
                    assert(assoc_map(none) =~= Map::<Seq<char>, RecordLocation>::empty());
                    lemma_assoc_push(none, o, location);
                    assert(none.push((o, location)) =~= seq![(o, location)]);
                }
                assert(keys_of(loc_entries(ids@)) =~= seq![o]);
                let ghost before = self.index@;
                self.index.push((obj_id.typename.clone(), ids));
                proof {
                    lemma_assoc_contains(e, t);
                    assert(type_entries(self.index@) =~= e.push((t, m)));
                    lemma_assoc_push(e, t, m);
                    lemma_distinct_push(e, t, m);
                    assert forall|k: int| 0 <= k < self.index@.len() implies keys_of(
                        loc_entries(#[trigger] self.index@[k].1@),
                    ).no_duplicates() by {
                        if k < before.len() {
                            assert(self.index@[k] == before[k]);
                        }
                    }
                }
            },
        }
    }

    /// Look up an object's location.
    pub fn get(&self, obj_id: &ObjectId) -> (r: Option<RecordLocation>)
        ensures
            r == location_of(self@, obj_id.typename@, obj_id.object_id@),
    {
        let ghost e = type_entries(self.index@);
        match find_key(&self.index, obj_id.typename.as_str()) {
            Some(i) => {
                proof {
                    assert(is_first_index(e, obj_id.typename@, i as int));
                    lemma_assoc_first(e, obj_id.typename@, i as int);
                }
                let ids = &self.index[i].1;
                let ghost f = loc_entries(ids@);
                match find_key(ids, obj_id.object_id.as_str()) {
                    Some(j) => {
                        proof {
                            assert(is_first_index(f, obj_id.object_id@, j as int));
                            lemma_assoc_first(f, obj_id.object_id@, j as int);
                        }
                        Some(ids[j].1)
                    },
                    None => {
                        proof {
                            lemma_assoc_contains(f, obj_id.object_id@);
                        }
                        None
                    },
                }
            },
            None => {
                proof {
                    lemma_assoc_contains(e, obj_id.typename@);
                }
                None
            },
        }
    }

    /// Remove a location mapping (e.g., when the object is deleted). The
    /// type stays known to the index even when its last id goes.
    pub fn remove(&mut self, obj_id: &ObjectId) -> (r: Option<RecordLocation>)
        requires
            old(self).wf(),
        ensures
            final(self).wf(),
            r == location_of(old(self)@, obj_id.typename@, obj_id.object_id@),
            final(self)@ == (if old(self)@.contains_key(obj_id.typename@) {
                old(self)@.insert(
                    obj_id.typename@,
                    old(self)@[obj_id.typename@].remove(obj_id.object_id@),
                )
            } else {
                old(self)@
            }),
    {
        let ghost e = type_entries(self.index@);
        let ghost t = obj_id.typename@;
        match find_key(&self.index, obj_id.typename.as_str()) {
            Some(i) => {
                proof {
                    lemma_distinct_entry(e, i as int);
                }
                let ghost before = self.index@;
                let (name, mut ids) = self.index.remove(i);
                let r = take_location(&mut ids, obj_id.object_id.as_str());
                let ghost m = assoc_map(loc_entries(ids@));
                self.index.insert(i, (name, ids));
                assert(self.index@ =~= before.update(i as int, (name, ids)));
                proof {
                    assert(type_entries(self.index@) =~= e.update(i as int, (t, m)));
                    assert(is_first_index(e, t, i as int));
                    lemma_assoc_update(e, t, i as int, m);
                    lemma_keys_update(e, i as int, m);
                    assert forall|k: int| 0 <= k < self.index@.len() implies keys_of(
                        loc_entries(#[trigger] self.index@[k].1@),
                    ).no_duplicates() by {
                        if k != i {
                            assert(self.index@[k] == before[k]);
                        }
                    }
                }
                r
            },
            None => {
                proof {
                    lemma_assoc_contains(e, t);
                }
                None
            },
        }
    }

    /// Check if the object is in the index.
    pub fn object_exists(&self, obj_id: &ObjectId) -> (r: bool)
        ensures
            r == location_of(self@, obj_id.typename@, obj_id.object_id@).is_some(),
    {
        self.get(obj_id).is_some()
    }

    /// All objects of a given type, with their locations, each id once.
    pub fn get_all_by_type(&self, typename: &str) -> (r: Vec<(String, RecordLocation)>)
        requires
            self.wf(),
        ensures
            keys_of(loc_entries(r@)).no_duplicates(),
            assoc_map(loc_entries(r@)) == ids_under(self@, typename@),
    {
        let ghost e = type_entries(self.index@);
        match find_key(&self.index, typename) {
            Some(i) => {
                proof {
                    lemma_distinct_entry(e, i as int);
                }
                copy_locations(&self.index[i].1)
            },
            None => {
                proof {
                    lemma_assoc_contains(e, typename@);
                }
                let r: Vec<(String, RecordLocation)> = Vec::new();
                assert(loc_entries(r@) =~= Seq::empty());
                assert(keys_of(loc_entries(r@)) =~= Seq::empty());
                assert(assoc_map(loc_entries(r@)) =~= Map::<
                    Seq<char>,
                    RecordLocation,
                >::empty());
                r
            },
        }
    }

    /// The type names the index knows, each once.
    pub fn types(&self) -> (r: Vec<String>)
        requires
            self.wf(),
        ensures
            r@.map_values(|s: String| s@).no_duplicates(),
            r@.map_values(|s: String| s@).to_set() == self@.dom(),
            r@.len() == self@.dom().len(),
    {
        let ghost e = type_entries(self.index@);
        let mut r: Vec<String> = Vec::new();
        let mut i: usize = 0;
        while i < self.index.len()
            invariant
                i <= self.index@.len(),
                e == type_entries(self.index@),
                r@.map_values(|s: String| s@) == keys_of(e).take(i as int),
            decreases self.index@.len() - i,
        {
            let name = self.index[i].0.clone();
            let ghost prev = r@;
            r.push(name);
            assert(r@.map_values(|s: String| s@) =~= prev.map_values(|s: String| s@).push(
                keys_of(e)[i as int],
            ));
            assert(keys_of(e).take(i + 1) =~= keys_of(e).take(i as int).push(keys_of(e)[i as int]));
            i = i + 1;
        }
        assert(keys_of(e).take(i as int) =~= keys_of(e));
        proof {
            lemma_assoc_len_distinct(e);
            assert forall|k: Seq<char>| #[trigger] keys_of(e).to_set().contains(k) <==> assoc_map(
                e,
            ).dom().contains(k) by {
                lemma_assoc_contains(e, k);
                if assoc_map(e).contains_key(k) {
                    let j = choose|j: int| 0 <= j < e.len() && e[j].0 == k;
                    assert(keys_of(e)[j] == k);
                }
            }
            assert(keys_of(e).to_set() =~= assoc_map(e).dom());
        }
        r
    }

    /// The number of objects the index holds, over all types.
    pub fn total_objects(&self) -> (r: usize)
        requires
            self.wf(),
            indexed_pairs(self@).len() <= usize::MAX,
        ensures
            r == indexed_pairs(self@).len(),
            indexed_pairs(self@).finite(),
    {
        let ghost e = type_entries(self.index@);
        proof {
            assert forall|k: int| 0 <= k < e.len() implies (#[trigger] e[k]).1.dom().finite() by {
                lemma_assoc_finite(loc_entries(self.index@[k].1@));
            }
            lemma_pairs_count(e);
        }
        let mut total: usize = 0;
        let mut i: usize = 0;
        while i < self.index.len()
            invariant
                i <= self.index@.len(),
                e == type_entries(self.index@),
                self.wf(),
                entry_count(e) <= usize::MAX,
                total == entry_count(e.take(i as int)),
            decreases self.index@.len() - i,
        {
            proof {
                assert(e.take(i + 1).drop_last() =~= e.take(i as int));
                lemma_entry_count_prefix(e, i + 1);
                lemma_assoc_len_distinct(loc_entries(self.index@[i as int].1@));
            }
            total = total + self.index[i].1.len();
            i = i + 1;
        }
        assert(e.take(i as int) =~= e);
        total
    }

    /// The number of objects the index holds, over all types, or
    /// `usize::MAX` when there are more.
    pub(crate) fn total_objects_saturating(&self) -> (r: usize)
        requires
            self.wf(),
        ensures
            indexed_pairs(self@).finite(),
            r == if indexed_pairs(self@).len() <= usize::MAX {
                indexed_pairs(self@).len()
            } else {
                usize::MAX as nat
            },
    {
        let ghost e = type_entries(self.index@);
        proof {
            assert forall|k: int| 0 <= k < e.len() implies (#[trigger] e[k]).1.dom().finite() by {
                lemma_assoc_finite(loc_entries(self.index@[k].1@));
            }
            lemma_pairs_count(e);
        }
        let mut total: usize = 0;
        let mut saturated = false;
        let mut i: usize = 0;
        while i < self.index.len()
            invariant
                i <= self.index@.len(),
                e == type_entries(self.index@),
                self.wf(),
                !saturated ==> total == entry_count(e.take(i as int)),
                saturated ==> total == usize::MAX && entry_count(e) > usize::MAX,
            decreases self.index@.len() - i,
        {
            proof {
                assert(e.take(i + 1).drop_last() =~= e.take(i as int));
                lemma_entry_count_prefix(e, i + 1);
                lemma_assoc_len_distinct(loc_entries(self.index@[i as int].1@));
            }
            let n = self.index[i].1.len();
            if !saturated {
                match total.checked_add(n) {
                    Some(t) => {
                        total = t;
                    },
                    None => {
                        total = usize::MAX;
                        saturated = true;
                    },
                }
            }
            i = i + 1;
        }
        assert(e.take(i as int) =~= e);
        total
    }

    /// The number of objects of one type.
    pub fn object_count_by_type(&self, typename: &str) -> (r: usize)
        requires
            self.wf(),
        ensures
            r == ids_under(self@, typename@).dom().len(),
    {
        let ghost e = type_entries(self.index@);
        match find_key(&self.index, typename) {
            Some(i) => {
                proof {
                    lemma_distinct_entry(e, i as int);
                    lemma_assoc_len_distinct(loc_entries(self.index@[i as int].1@));
                }
                self.index[i].1.len()
            },
            None => {
                proof {
                    lemma_assoc_contains(e, typename@);
                    assert(Map::<Seq<char>, RecordLocation>::empty().dom() =~= Set::empty());
                }
                0
            },
        }
    }

    /// Move a known object to a new location (used during compaction); an
    /// object the index does not hold is an error.
    pub fn update_location(&mut self, obj_id: &ObjectId, new_location: RecordLocation) -> (r:
        Result<()>)
        requires
            old(self).wf(),
        ensures
            final(self).wf(),
            match location_of(old(self)@, obj_id.typename@, obj_id.object_id@) {
                Some(_) => {
                    &&& r is Ok
                    &&& final(self)@ == old(self)@.insert(
                        obj_id.typename@,
                        old(self)@[obj_id.typename@].insert(obj_id.object_id@, new_location),
                    )
                },
                None => {
                    &&& r matches Err(Error::ObjectNotFound { typename, object_id })
                    &&& typename@ == obj_id.typename@
                    &&& object_id@ == obj_id.object_id@
                    &&& final(self)@ == old(self)@
                },
            },
    {
        if self.object_exists(obj_id) {
            self.insert(obj_id, new_location);
            Ok(())
        } else {
            Err(
                Error::ObjectNotFound {
                    typename: obj_id.typename.clone(),
                    object_id: obj_id.object_id.clone(),
                },
            )
        }
    }
}

impl Default for ObjectLocationIndex {
    fn default() -> (r: Self)
        ensures
            r.wf(),
            r@ == Map::<Seq<char>, Map<Seq<char>, RecordLocation>>::empty(),
    {
        Self::new()
    }
}

} // verus!
