//! The transaction state of a database: idle or in progress.
use crate::error::{Error, Result};
use vstd::prelude::*;

verus! {

/// Represents a database transaction.
pub struct Transaction {
    in_progress: bool,
}

impl Transaction {
    /// Whether a transaction is in progress.
    pub closed spec fn active(&self) -> bool {
        self.in_progress
    }

    /// Create a new transaction state with no transaction in progress.
    pub fn new() -> (r: Self)
        ensures
            !r.active(),
    {
        Self { in_progress: false }
    }

    /// Begin a transaction; fails if one is already in progress.
    pub fn begin(&mut self) -> (r: Result<()>)
        ensures
            old(self).active() ==> (r matches Err(Error::TransactionError { .. }) && final(self).active()),
            !old(self).active() ==> r is Ok && final(self).active(),
    {
        if self.in_progress {
            return Err(Error::TransactionError { reason: "Transaction already in progress".to_owned() });
        }
        self.in_progress = true;
        Ok(())
    }

    /// Check if a transaction is in progress.
    pub fn is_active(&self) -> (r: bool)
        ensures
            r == self.active(),
    {
        self.in_progress
    }

    /// Mark transaction as committed; fails if none is in progress.
    pub fn commit(&mut self) -> (r: Result<()>)
        ensures
            !final(self).active(),
            old(self).active() ==> r is Ok,
            !old(self).active() ==> r matches Err(Error::TransactionError { .. }),
    {
        if !self.in_progress {
            return Err(Error::TransactionError { reason: "No transaction in progress".to_owned() });
        }
        self.in_progress = false;
        Ok(())
    }

    /// Mark transaction as rolled back; fails if none is in progress.
    pub fn rollback(&mut self) -> (r: Result<()>)
        ensures
            !final(self).active(),
            old(self).active() ==> r is Ok,
            !old(self).active() ==> r matches Err(Error::TransactionError { .. }),
    {
        if !self.in_progress {
            return Err(Error::TransactionError { reason: "No transaction in progress".to_owned() });
        }
        self.in_progress = false;
        Ok(())
    }
}

impl Default for Transaction {
    fn default() -> (r: Self)
        ensures
            !r.active(),
    {
        Self::new()
    }
}

} // verus!
