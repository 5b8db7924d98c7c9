//! Flashblocks for World Chain: building, publishing and receiving the partial blocks of a block
//! under construction.

pub mod access_list;
pub mod assembly;
pub mod bal;
pub mod block;
pub mod config;
pub mod context;
pub mod flashblocks;
pub mod grouping;
pub mod holocene;
pub mod model;
pub mod node;
pub mod num;
pub mod payload;
pub mod platform;
pub mod receipt;
pub mod reverts;
pub mod rlp;
pub mod step;
pub mod totals;
pub mod transaction;
