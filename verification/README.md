# rblib_world_chain

Flashblocks for World Chain: the partial blocks that a builder publishes while a block is under
construction, so that its transactions are confirmed before the block is.

The library in `src/` is verified with [Verus](https://github.com/verus-lang/verus). It holds

- the wire form of flashblocks and of the messages of the peer-to-peer protocol
  (`rlp`, `flashblocks::codec`, `flashblocks::payload`, `flashblocks::p2p`),
- the order in which flashblocks that come in are handed on, and what is sent to which peer
  (`flashblocks::p2p`, `flashblocks::connection`),
- the flashblocks of a payload, and the block that they stand for together
  (`flashblocks::collection`),
- the state of known flashblocks (`flashblocks::state`),
- building payloads, on top of others or from the start: gas, fees, receipts, reverts, block access
  lists, headers (`flashblocks::builder`, `totals`, `receipt`, `reverts`, `bal`, `access_list`,
  `assembly`, `holocene`, `block`),
- the steps of a pipeline that builds payloads (`step`), and the configuration of a node (`config`,
  `node`, `platform`).

Contracts are stated over views of the data, and the promises that span several functions are proof
functions whose names begin with `law_`. Calls into `alloy_rlp`, `alloy_primitives`,
`alloy_consensus`, `alloy_eips`, `alloy_eip7928`, `op_alloy_consensus` and `revm` go through small
wrappers, whose contracts say what is taken on trust.

`app/` runs the library inside a node: networking, execution, channels, metrics and the command line.
The library takes what it needs of these as plain values: the time, the text of a flashblock's
metadata, the roots of the state, and what came of executing transactions.

`tests/` holds the tests.
