//! The future/promise cell: a single-slot, write-once container that hands a
//! result from the party that produces it to the party that awaits it.
//!
//! The slot moves from unset to set exactly once. Setting an already-set cell
//! would mean a response was delivered twice — a correlator defect — and is
//! ruled out by contract rather than handled at run time. Reading blocks in
//! the transport layer; here a read is available exactly when the cell is
//! done, and every reader observes the one installed result.

use vstd::prelude::*;

verus! {

/// A write-once result slot.
pub struct Future<T, E> {
    r: Option<Result<T, E>>,
}

impl<T, E> Future<T, E> {
    /// The slot's content: `None` while unset, and forever `Some` of the one
    /// installed result after `set`.
    pub closed spec fn value(self) -> Option<Result<T, E>> {
        self.r
    }

    /// Whether a result has been installed.
    pub open spec fn done(self) -> bool {
        self.value() is Some
    }

    /// Creates an unset cell.
    pub fn new() -> (f: Future<T, E>)
        ensures
            !f.done(),
    {
        Future { r: None }
    }

    /// Installs the result. The cell must still be unset: a second `set`
    /// would be a double delivery.
    pub fn set(&mut self, result: Result<T, E>)
        requires
            !old(self).done(),
        ensures
            final(self).value() == Some(result),
    {
        self.r = Some(result);
    }

    /// Returns the settled result. Every caller sees the same value, the one
    /// that `set` installed.
    pub fn get(&self) -> (r: &Result<T, E>)
        requires
            self.done(),
        ensures
            self.value() == Some(*r),
    {
        match &self.r {
            Some(v) => v,
            None => unreached(),
        }
    }

    /// Non-blocking readiness check.
    #[allow(non_snake_case)]
    pub fn isDone(&self) -> (b: bool)
        ensures
            b == self.done(),
    {
        self.r.is_some()
    }
}

} // verus!
