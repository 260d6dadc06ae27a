//! Routing paths: a relay step recorded for fee-sharing purposes, the same
//! shape as a hop.

use vstd::prelude::*;

verus! {

/// One relay step: sender, receiver and the step signature.
#[derive(Clone, Debug, PartialEq)]
pub struct RoutingPath {
    pub from: Vec<u8>,
    pub to: Vec<u8>,
    pub sig: Vec<u8>,
}

impl RoutingPath {
    /// A step from `from` to `to` carrying signature `sig`.
    pub fn new(to: Vec<u8>, from: Vec<u8>, sig: Vec<u8>) -> (r: RoutingPath)
        requires
            to@.len() == 33,
            from@.len() == 33,
            sig@.len() == 64,
        ensures
            r.to@ == to@,
            r.from@ == from@,
            r.sig@ == sig@,
    {
        RoutingPath { to, from, sig }
    }
}

} // verus!
