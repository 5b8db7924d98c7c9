//! What goes with a checkpoint of a payload under construction.
use crate::flashblocks::primitives;
use crate::payload::OpBuiltPayload;
use std::sync::Arc;
use vstd::prelude::*;

verus! {

/// What goes with a checkpoint: the payload that was built up to there, if there is one.
#[derive(Debug)]
pub struct WorldContext<B> {
    /// The payload.
    pub maybe_built_payload: Option<Arc<OpBuiltPayload<B>>>,
}

impl<B> WorldContext<B> {
    /// The context of a built payload.
    pub fn new(op_built_payload: Arc<OpBuiltPayload<B>>) -> (r: Self)
        ensures
            r.maybe_built_payload == Some(op_built_payload),
    {
        WorldContext { maybe_built_payload: Some(op_built_payload) }
    }

    /// The context of no payload.
    pub fn empty() -> (r: Self)
        ensures
            r.maybe_built_payload is None,
    {
        WorldContext { maybe_built_payload: None }
    }
}

impl<B> PartialEq for WorldContext<B> {
    /// Contexts are the same if neither has a payload, or both have one with the same block.
    fn eq(&self, other: &Self) -> (r: bool) {
        match (&self.maybe_built_payload, &other.maybe_built_payload) {
            (None, Some(_)) => false,
            (Some(_), None) => false,
            (None, None) => true,
            (Some(one), Some(other)) => primitives::same_bytes(&one.block.hash, &other.block.hash),
        }
    }
}

impl<B> vstd::std_specs::cmp::PartialEqSpecImpl for WorldContext<B> {
    open spec fn obeys_eq_spec() -> bool {
        true
    }

    open spec fn eq_spec(&self, other: &Self) -> bool {
        match (self.maybe_built_payload, other.maybe_built_payload) {
            (None, None) => true,
            (Some(one), Some(other)) => one.block.hash == other.block.hash,
            _ => false,
        }
    }
}

impl<B> Eq for WorldContext<B> {

}

/// Two contexts are the same exactly if neither has a payload, or each has one and their blocks have the
/// same hash.
pub proof fn law_same_context<B>(a: WorldContext<B>, b: WorldContext<B>)
    ensures
        vstd::std_specs::cmp::PartialEqSpec::eq_spec(&a, &b) <==> {
            &&& a.maybe_built_payload is None <==> b.maybe_built_payload is None
            &&& a.maybe_built_payload is Some ==> (a.maybe_built_payload->0).block.hash == (
            b.maybe_built_payload->0).block.hash
        },
{
}

}
