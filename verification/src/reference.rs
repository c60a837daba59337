//! References between objects and cycle detection during traversal.
use crate::error::{Error, Result};
use crate::object::ObjectId;
use crate::text::{join2, split_at_slash};
use vstd::prelude::*;

verus! {

/// A reference from one object to another.
#[derive(Debug, PartialEq, Eq)]
pub struct Reference {
    pub target: ObjectId,
}

impl Reference {
    /// Create a new reference to a target object.
    pub fn new(typename: &str, object_id: &str) -> (r: Self)
        ensures
            r.target.typename@ == typename@,
            r.target.object_id@ == object_id@,
    {
        Self { target: ObjectId::new(typename, object_id) }
    }

    /// Parse a reference from a string like "Type/id".
    pub fn parse(s: &str) -> (r: Result<Self>)
        ensures
            match split_at_slash(s@) {
                Some((t, o)) => r matches Ok(rf) && rf.target.typename@ == t && rf.target.object_id@
                    == o,
                None => r matches Err(Error::Internal(_)),
            },
    {
        let target = ObjectId::parse(s)?;
        Ok(Self { target })
    }

    /// Get the target object ID.
    pub fn target_id(&self) -> (r: &ObjectId)
        ensures
            *r == self.target,
    {
        &self.target
    }
}

/// The views of a list of strings.
pub open spec fn ids_of(v: Seq<String>) -> Seq<Seq<char>> {
    v.map_values(|s: String| s@)
}

/// Tracks visited objects during reference traversal to detect cycles.
pub struct ReferenceTracker {
    visited: Vec<String>,
    max_depth: usize,
    current_depth: usize,
}

impl ReferenceTracker {
    /// The ids visited so far.
    pub closed spec fn visited_ids(&self) -> Set<Seq<char>> {
        ids_of(self.visited@).to_set()
    }

    /// The depth limit.
    pub closed spec fn spec_max_depth(&self) -> usize {
        self.max_depth
    }

    /// The current depth.
    pub closed spec fn spec_depth(&self) -> usize {
        self.current_depth
    }

    /// Create a new reference tracker with a maximum depth.
    pub fn new(max_depth: usize) -> (r: Self)
        ensures
            r.visited_ids() == Set::<Seq<char>>::empty(),
            r.spec_max_depth() == max_depth,
            r.spec_depth() == 0,
    {
        let r = Self { visited: Vec::new(), max_depth, current_depth: 0 };
        assert(r.visited_ids() =~= Set::<Seq<char>>::empty());
        r
    }

    /// Mark an object as visited. Fails when the depth limit is reached or
    /// the object was visited before; otherwise records it one level deeper.
    pub fn visit(&mut self, object_id: &str) -> (r: Result<()>)
        ensures
            final(self).spec_max_depth() == old(self).spec_max_depth(),
            old(self).spec_depth() >= old(self).spec_max_depth() ==> {
                &&& r matches Err(Error::CircularReference { .. })
                &&& *final(self) == *old(self)
            },
            (old(self).spec_depth() < old(self).spec_max_depth() && old(self).visited_ids().contains(
                object_id@,
            )) ==> {
                &&& r matches Err(Error::CircularReference { .. })
                &&& *final(self) == *old(self)
            },
            (old(self).spec_depth() < old(self).spec_max_depth() && !old(
                self,
            ).visited_ids().contains(object_id@)) ==> {
                &&& r is Ok
                &&& final(self).visited_ids() == old(self).visited_ids().insert(object_id@)
                &&& final(self).spec_depth() == old(self).spec_depth() + 1
            },
    {
        if self.current_depth >= self.max_depth {
            return Err(
                Error::CircularReference { path: "Maximum reference depth exceeded".to_owned() },
            );
        }
        let key = object_id.to_owned();
        let mut i: usize = 0;
        while i < self.visited.len()
            invariant
                i <= self.visited@.len(),
                key@ == object_id@,
                forall|j: int| 0 <= j < i ==> self.visited@[j]@ != object_id@,
            decreases self.visited@.len() - i,
        {
            if self.visited[i] == key {
                assert(ids_of(self.visited@)[i as int] == object_id@);
                return Err(
                    Error::CircularReference {
                        path: join2("Circular reference detected at: ", object_id),
                    },
                );
            }
            i = i + 1;
        }
        proof {
            assert forall|j: int| 0 <= j < self.visited@.len() implies #[trigger] ids_of(
                self.visited@,
            )[j] != object_id@ by {}
            assert(!self.visited_ids().contains(object_id@));
        }
        let ghost before = self.visited@;
        self.visited.push(key);
        assert(ids_of(self.visited@) =~= ids_of(before).push(object_id@));
        proof {
            ids_of(before).lemma_push_to_set_commute(object_id@);
        }
        self.current_depth = self.current_depth + 1;
        Ok(())
    }

    /// Create a child tracker for nested traversal: the same visited ids,
    /// one level deeper.
    pub fn child(&self) -> (r: Self)
        requires
            self.spec_depth() < usize::MAX,
        ensures
            r.visited_ids() == self.visited_ids(),
            r.spec_max_depth() == self.spec_max_depth(),
            r.spec_depth() == self.spec_depth() + 1,
    {
        let mut visited: Vec<String> = Vec::new();
        let mut i: usize = 0;
        while i < self.visited.len()
            invariant
                i <= self.visited@.len(),
                visited@ == self.visited@.take(i as int),
            decreases self.visited@.len() - i,
        {
            visited.push(self.visited[i].clone());
            i = i + 1;
            assert(visited@ =~= self.visited@.take(i as int));
        }
        assert(self.visited@.take(i as int) =~= self.visited@);
        Self { visited, max_depth: self.max_depth, current_depth: self.current_depth + 1 }
    }

    /// Pop back from a visit (for depth-first traversal).
    pub fn pop_visit(&mut self)
        ensures
            final(self).visited_ids() == old(self).visited_ids(),
            final(self).spec_max_depth() == old(self).spec_max_depth(),
            final(self).spec_depth() == if old(self).spec_depth() > 0 {
                old(self).spec_depth() - 1
            } else {
                0
            },
    {
        if self.current_depth > 0 {
            self.current_depth = self.current_depth - 1;
        }
    }

    /// Get the current depth.
    pub fn depth(&self) -> (r: usize)
        ensures
            r == self.spec_depth(),
    {
        self.current_depth
    }
}

} // verus!
