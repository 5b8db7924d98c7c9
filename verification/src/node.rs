//! A node that builds and receives flashblocks.
use crate::config::WorldChainNodeConfig;
use crate::flashblocks::p2p::FlashblocksHandle;
use crate::flashblocks::state::FlashblocksStateExecutor;
use vstd::prelude::*;

verus! {

/// A node that builds and receives flashblocks.
#[derive(Debug, PartialEq, Eq)]
pub struct FlashblocksNode<B> {
    /// Configuration of the node.
    pub config: WorldChainNodeConfig,
    /// The flashblocks of the current payload.
    pub flashblocks_state: Option<FlashblocksStateExecutor<B>>,
}

/// What the node's components are set up with.
#[derive(Clone, Copy, Debug, PartialEq, Eq)]
pub struct ComponentSettings {
    /// Whether transactions are kept from being gossiped.
    pub disable_txpool_gossip: bool,
    /// Whether the node is kept from being discovered over the discovery protocol, version 4.
    pub disable_discovery_v4: bool,
    /// Whether the pending block is computed.
    pub compute_pending_block: bool,
}

/// What the node's RPC is set up with.
#[derive(Clone, Copy, Debug, PartialEq, Eq)]
pub struct AddOnSettings<'a> {
    /// Endpoint of the sequencer that transactions are forwarded to.
    pub sequencer: &'a Option<String>,
    /// Headers that go with requests to the sequencer.
    pub sequencer_headers: &'a Vec<String>,
    /// Whether conditional transactions are accepted.
    pub enable_tx_conditional: bool,
    /// Least priority fee that is suggested.
    pub min_suggested_priority_fee: u64,
    /// Endpoint for requests on blocks before the node's first.
    pub historical_rpc: &'a Option<String>,
}

impl<B> FlashblocksNode<B> {
    /// A node that knows of no flashblocks.
    pub fn new(config: WorldChainNodeConfig) -> (r: Self)
        ensures
            r.config == config,
            r.flashblocks_state is Some,
            r.flashblocks_state->0.wf(),
            r.flashblocks_state->0.is_initial(),
            r.flashblocks_state->0.p2p_handle.is_initial(),
            r.flashblocks_state->0.p2p_handle.state@.wf(),
    {
        let flashblocks_state = FlashblocksStateExecutor::new(FlashblocksHandle::new());
        FlashblocksNode { config, flashblocks_state: Some(flashblocks_state) }
    }

    /// The flashblocks of the current payload.
    pub fn flashblocks_state(&self) -> (r: Option<&FlashblocksStateExecutor<B>>)
        ensures
            match r {
                Some(s) => self.flashblocks_state == Some(*s),
                None => self.flashblocks_state is None,
            },
    {
        self.flashblocks_state.as_ref()
    }

    /// What the node's components are set up with.
    pub fn components_builder(&self) -> (r: ComponentSettings)
        ensures
            r.disable_txpool_gossip == self.config.args.rollup.disable_txpool_gossip,
            r.disable_discovery_v4 == !self.config.args.rollup.discovery_v4,
            r.compute_pending_block == self.config.args.rollup.compute_pending_block,
    {
        let rollup = &self.config.args.rollup;
        ComponentSettings {
            disable_txpool_gossip: rollup.disable_txpool_gossip,
            disable_discovery_v4: !rollup.discovery_v4,
            compute_pending_block: rollup.compute_pending_block,
        }
    }

    /// What the node's RPC is set up with.
    pub fn add_ons_builder(&self) -> (r: AddOnSettings<'_>)
        ensures
            r.sequencer == self.config.args.rollup.sequencer,
            r.sequencer_headers == self.config.args.rollup.sequencer_headers,
            r.enable_tx_conditional == self.config.args.rollup.enable_tx_conditional,
            r.min_suggested_priority_fee == self.config.args.rollup.min_suggested_priority_fee,
            r.historical_rpc == self.config.args.rollup.historical_rpc,
    {
        let rollup = &self.config.args.rollup;
        AddOnSettings {
            sequencer: &rollup.sequencer,
            sequencer_headers: &rollup.sequencer_headers,
            enable_tx_conditional: rollup.enable_tx_conditional,
            min_suggested_priority_fee: rollup.min_suggested_priority_fee,
            historical_rpc: &rollup.historical_rpc,
        }
    }
}

}
