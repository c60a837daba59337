//! Query results: the objects a query selected, in order.
use crate::object::Object;
use vstd::prelude::*;

verus! {

/// A query result set.
#[derive(Debug)]
pub struct QueryResult {
    pub objects: Vec<Object>,
}

impl QueryResult {
    /// An empty query result.
    pub fn empty() -> (r: Self)
        ensures
            r.objects@.len() == 0,
    {
        Self { objects: Vec::new() }
    }

    /// A query result holding these objects.
    pub fn new(objects: Vec<Object>) -> (r: Self)
        ensures
            r.objects@ == objects@,
    {
        Self { objects }
    }

    /// The number of results.
    pub fn len(&self) -> (r: usize)
        ensures
            r == self.objects@.len(),
    {
        self.objects.len()
    }

    /// Whether there are no results.
    pub fn is_empty(&self) -> (r: bool)
        ensures
            r == (self.objects@.len() == 0),
    {
        self.objects.len() == 0
    }

    /// The result at a position, if there is one.
    pub fn get(&self, index: usize) -> (r: Option<&Object>)
        ensures
            index < self.objects@.len() ==> r == Some(&self.objects@[index as int]),
            index >= self.objects@.len() ==> r is None,
    {
        if index < self.objects.len() {
            Some(&self.objects[index])
        } else {
            None
        }
    }

    /// The results, as a slice to iterate over.
    pub fn iter(&self) -> (r: &[Object])
        ensures
            r@ == self.objects@,
    {
        self.objects.as_slice()
    }
}

} // verus!
