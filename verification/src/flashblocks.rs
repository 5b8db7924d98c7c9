//! Flashblocks: the partial blocks that a builder hands out while a block is under construction.

pub mod authorized;
pub mod block_builder;
pub mod block_executor;
pub mod builder;
pub mod codec;
pub mod collection;
pub mod connection;
pub mod ctx;
pub mod p2p;
pub mod payload;
pub mod primitives;
pub mod state;
