//! The prover's database: fixed-width bit-vector records and, once
//! committed, an opening for each monomial id.
use crate::group::random_u64;
use crate::monomial::Opening;
use std::collections::HashMap;
use vstd::prelude::*;

verus! {

/// The width of a record.
pub type DataT = u64;

/// Records and the monomial openings committed for them.
pub struct Data {
    pub entries: Vec<DataT>,
    pub commitments: HashMap<DataT, Opening>,
}

impl Data {
    /// A database of `db_size` records drawn uniformly at random, with no
    /// commitments yet.
    pub fn new(db_size: u32) -> (r: Data)
        ensures
            r.entries.len() == db_size,
            r.commitments@ == Map::<u64, Opening>::empty(),
    {
        let mut entries: Vec<DataT> = Vec::new();
        let mut i: u32 = 0;
        while i < db_size
            invariant
                i <= db_size,
                entries.len() == i,
            decreases db_size - i,
        {
            entries.push(random_u64());
            i = i + 1;
        }
        Data { entries, commitments: HashMap::new() }
    }

    /// A database holding the given records, with no commitments yet.
    pub fn from_entries(entries: Vec<DataT>) -> (r: Data)
        ensures
            r.entries@ == entries@,
            r.commitments@ == Map::<u64, Opening>::empty(),
    {
        Data { entries, commitments: HashMap::new() }
    }
}

} // verus!
