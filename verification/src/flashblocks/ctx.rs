//! What a payload is built with.
use vstd::prelude::*;

verus! {

/// What a payload is built with.
#[derive(Debug, PartialEq, Eq)]
pub struct OpPayloadBuilderCtx<E, G, S, P, K, O> {
    /// Configuration of the EVM.
    pub evm_config: E,
    /// Configuration of the builder.
    pub builder_config: G,
    /// The chain.
    pub chain_spec: S,
    /// The parent block and the payload attributes.
    pub config: P,
    /// Cancels building the payload.
    pub cancel: K,
    /// The best payload so far.
    pub best_payload: Option<O>,
}

/// Puts together what a payload is built with.
#[derive(Clone, Copy, Debug, PartialEq, Eq)]
pub struct OpPayloadBuilderCtxBuilder;

impl Default for OpPayloadBuilderCtxBuilder {
    fn default() -> (r: Self)
        ensures
            r == OpPayloadBuilderCtxBuilder,
    {
        OpPayloadBuilderCtxBuilder
    }
}

impl OpPayloadBuilderCtxBuilder {
    /// What a payload is built with, at the start of a payload job.
    pub fn build<E, G, S, P, K, O>(
        &self,
        chain_spec: S,
        evm_config: E,
        builder_config: G,
        config: P,
        cancel: K,
        best_payload: Option<O>,
    ) -> (r: OpPayloadBuilderCtx<E, G, S, P, K, O>)
        ensures
            r == (OpPayloadBuilderCtx {
                evm_config,
                builder_config,
                chain_spec,
                config,
                cancel,
                best_payload,
            }),
    {
        OpPayloadBuilderCtx { evm_config, builder_config, chain_spec, config, cancel, best_payload }
    }
}

}
