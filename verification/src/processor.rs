//! Search oracles for the state-vector Grover search: an oracle marks the
//! basis states that the search looks for.

use vstd::prelude::*;
use crate::grover_quantum::bytes_occur_at;
use crate::text::occurs_at;
use vstd::std_specs::cmp::PartialEqSpec;

verus! {

/// Marks the target states of a Grover search.
pub trait Oracle: Send + Sync {
    /// Whether the basis state `index` is a target.
    fn is_target(&self, index: usize) -> bool;
}

/// An oracle over a database: state `i` is a target when entry `i` equals
/// the target value.
pub struct DatabaseOracle<T: PartialEq + Send + Sync> {
    database: Vec<T>,
    target: T,
}

impl<T: PartialEq + Send + Sync> DatabaseOracle<T> {
    /// The entries searched.
    pub closed spec fn entries(&self) -> Seq<T> {
        self.database@
    }

    /// The value searched for.
    pub closed spec fn wanted(&self) -> T {
        self.target
    }

    /// An oracle that looks for `target` in `database`.
    pub fn new(database: Vec<T>, target: T) -> (o: Self)
        ensures
            o.entries() == database@,
            o.wanted() == target,
    {
        DatabaseOracle { database, target }
    }
}

impl<T: PartialEq + Send + Sync> Oracle for DatabaseOracle<T> {
    fn is_target(&self, index: usize) -> (r: bool)
        ensures
            index >= self.entries().len() ==> !r,
            T::obeys_eq_spec() && index < self.entries().len() ==> r == self.entries()[index as int].eq_spec(&self.wanted()),
    {
        if index < self.database.len() {
            self.database[index] == self.target
        } else {
            false
        }
    }
}

/// An oracle over bytes: state `i` is a target when `pattern` occurs in
/// `data` at offset `i`.
pub struct ByteOracle {
    data: Vec<u8>,
    pattern: Vec<u8>,
}

impl ByteOracle {
    /// The bytes searched.
    pub closed spec fn bytes(&self) -> Seq<u8> {
        self.data@
    }

    /// The pattern searched for.
    pub closed spec fn needle(&self) -> Seq<u8> {
        self.pattern@
    }

    /// An oracle that looks for `pattern` in `data`.
    pub fn new(data: Vec<u8>, pattern: Vec<u8>) -> (o: Self)
        ensures
            o.bytes() == data@,
            o.needle() == pattern@,
    {
        ByteOracle { data, pattern }
    }
}

impl Oracle for ByteOracle {
    fn is_target(&self, index: usize) -> (r: bool)
        ensures
            r == occurs_at(self.bytes(), self.needle(), index as int),
    {
        bytes_occur_at(self.data.as_slice(), self.pattern.as_slice(), index)
    }
}

} // verus!
