//! Row mappings: partial functions from a base row index to the overlay row
//! that stores the differing cell, with an identity variant for the base
//! scenario.
use std::collections::HashMap;
use vstd::prelude::*;

use crate::types::StoreError;

verus! {

broadcast use vstd::std_specs::hash::group_hash_axioms;

/// The mapping of the base scenario: every row maps to itself.
#[derive(Debug)]
pub struct IdentityMapping {}

impl IdentityMapping {
    pub fn new() -> (r: IdentityMapping) {
        IdentityMapping {  }
    }
}

/// A sparse mapping that stores only the mapped pairs.
#[derive(Debug)]
pub struct IntIntMapRowMapping {
    pub mapping: HashMap<u32, u32>,
}

impl IntIntMapRowMapping {
    pub fn new() -> (r: IntIntMapRowMapping)
        ensures
            r.mapping@ == Map::<u32, u32>::empty(),
    {
        IntIntMapRowMapping { mapping: HashMap::new() }
    }
}

/// A partial function from base row index to overlay row index.
///
/// The identity variant serves the base scenario; the sparse variant serves
/// overlays and stores only the mapped pairs.
#[derive(Debug)]
pub enum RowMapping {
    Identity(IdentityMapping),
    IntIntMap(IntIntMapRowMapping),
}

impl RowMapping {
    pub open spec fn is_identity(self) -> bool {
        self is Identity
    }

    /// The pairs of the sparse variant (empty for the identity variant).
    pub open spec fn sparse_pairs(self) -> Map<u32, u32> {
        match self {
            RowMapping::Identity(_) => Map::<u32, u32>::empty(),
            RowMapping::IntIntMap(m) => m.mapping@,
        }
    }

    /// Where the mapping sends a base row, if anywhere.
    pub open spec fn spec_get(self, row: u32) -> Option<u32> {
        match self {
            RowMapping::Identity(_) => Some(row),
            RowMapping::IntIntMap(m) => if m.mapping@.contains_key(row) {
                Some(m.mapping@[row])
            } else {
                None
            },
        }
    }

    pub fn new_identity() -> (r: RowMapping)
        ensures
            r.is_identity(),
    {
        RowMapping::Identity(IdentityMapping::new())
    }

    pub fn new_sparse() -> (r: RowMapping)
        ensures
            !r.is_identity(),
            r.sparse_pairs() == Map::<u32, u32>::empty(),
    {
        RowMapping::IntIntMap(IntIntMapRowMapping::new())
    }

    /// Record that base row `row` is stored at overlay row `target_row`.
    ///
    /// On the identity variant this is a tolerated no-op. The sparse variant
    /// rejects a second, different target for an already-mapped row.
    pub fn map(&mut self, row: u32, target_row: u32) -> (r: Result<(), StoreError>)
        ensures
            match *old(self) {
                RowMapping::Identity(_) => r is Ok && *final(self) == *old(self),
                RowMapping::IntIntMap(m) => if m.mapping@.contains_key(row) && m.mapping@[row]
                    != target_row {
                    r == Result::<(), StoreError>::Err(StoreError::KeyError) && *final(self) == *old(
                        self,
                    )
                } else {
                    r is Ok && !final(self).is_identity() && final(self).sparse_pairs()
                        == old(self).sparse_pairs().insert(row, target_row)
                },
            },
    {
        match self {
            RowMapping::Identity(_) => Ok(()),
            RowMapping::IntIntMap(m) => {
                match m.mapping.get(&row) {
                    Some(t) if *t != target_row => Err(StoreError::KeyError),
                    _ => {
                        m.mapping.insert(row, target_row);
                        Ok(())
                    },
                }
            },
        }
    }

    /// Look a base row up; the identity variant returns it unchanged.
    pub fn get(&self, row: u32) -> (r: Option<u32>)
        ensures
            r == self.spec_get(row),
    {
        match self {
            RowMapping::Identity(_) => Some(row),
            RowMapping::IntIntMap(m) => {
                match m.mapping.get(&row) {
                    Some(t) => Some(*t),
                    None => None,
                }
            },
        }
    }
}

} // verus!
