//! Network addresses as plain values.

use vstd::prelude::*;

verus! {

/// The family of an address.
#[derive(Clone, Copy, Debug, PartialEq, Eq, Structural, PartialOrd, Ord)]
pub enum Family {
    V4,
    V6,
}

/// A full socket address. The flow and the scope are zero in the fourth version.
#[derive(Clone, Copy, Debug, PartialEq, Eq, Structural, PartialOrd, Ord)]
pub struct Endpoint {
    pub family: Family,
    pub ip: u128,
    pub port: u16,
    pub flow: u32,
    pub scope: u32,
}

/// Whether `endpoint` is among `all`.
pub fn contains_endpoint(all: &Vec<Endpoint>, endpoint: Endpoint) -> (found: bool)
    ensures
        found == all@.contains(endpoint),
{
    for i in 0..all.len()
        invariant
            forall|k: int| 0 <= k < i ==> all@[k] != endpoint,
    {
        if all[i] == endpoint {
            return true;
        }
    }
    false
}

} // verus!
