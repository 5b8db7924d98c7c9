//! Configuration of a node.
use crate::flashblocks::connection::PeerId;
use vstd::prelude::*;

verus! {

/// What the node's network, pool and RPC are set up with.
#[derive(Debug, PartialEq, Eq)]
pub struct RollupArgs {
    /// Endpoint of the sequencer that transactions are forwarded to.
    pub sequencer: Option<String>,
    /// Headers that go with requests to the sequencer.
    pub sequencer_headers: Vec<String>,
    /// Whether transactions are kept from being gossiped.
    pub disable_txpool_gossip: bool,
    /// Whether the pending block is computed.
    pub compute_pending_block: bool,
    /// Whether the node is discovered over the discovery protocol, version 4.
    pub discovery_v4: bool,
    /// Whether conditional transactions are accepted.
    pub enable_tx_conditional: bool,
    /// Least priority fee that is suggested.
    pub min_suggested_priority_fee: u64,
    /// Endpoint for requests on blocks before the node's first.
    pub historical_rpc: Option<String>,
}

/// Configuration of flashblocks.
#[derive(Clone, Copy, Debug, PartialEq, Eq)]
pub struct FlashblocksArgs {
    /// Whether flashblocks are enabled.
    pub enabled: bool,
    /// Interval at which preconfirmations are published while a payload is built, in milliseconds.
    pub flashblocks_interval: u64,
    /// Interval at which the builder commits to the transaction pool again while a payload is built,
    /// in milliseconds.
    pub recommit_interval: u64,
}

/// The interval of preconfirmations, and that of commitments, where none is given.
pub const DEFAULT_INTERVAL: u64 = 200;

impl Default for FlashblocksArgs {
    /// The configuration where nothing is given.
    fn default() -> (r: Self)
        ensures
            !r.enabled,
            r.flashblocks_interval == 200,
            r.recommit_interval == 200,
    {
        FlashblocksArgs {
            enabled: false,
            flashblocks_interval: DEFAULT_INTERVAL,
            recommit_interval: DEFAULT_INTERVAL,
        }
    }
}

/// What a node is started with.
#[derive(Debug, PartialEq, Eq)]
pub struct WorldChainArgs {
    /// Network, pool and RPC.
    pub rollup: RollupArgs,
    /// Flashblocks.
    pub flashblocks: Option<FlashblocksArgs>,
    /// Peers that transactions are propagated to, if they are not propagated to all.
    pub tx_peers: Option<Vec<PeerId>>,
}

/// Configuration of a node.
#[derive(Debug, PartialEq, Eq)]
pub struct WorldChainNodeConfig {
    /// What the node is started with.
    pub args: WorldChainArgs,
}

impl WorldChainArgs {
    /// The configuration of the node. Peers that transactions are propagated to are ignored where
    /// transactions are kept from being gossiped.
    pub fn into_config(self) -> (r: WorldChainNodeConfig)
        ensures
            r.args.rollup == self.rollup,
            r.args.flashblocks == self.flashblocks,
            r.args.tx_peers == if self.rollup.disable_txpool_gossip {
                None
            } else {
                self.tx_peers
            },
    {
        let mut args = self;
        if args.rollup.disable_txpool_gossip && args.tx_peers.is_some() {
            args.tx_peers = None;
        }
        WorldChainNodeConfig { args }
    }
}

}
