//! The steps of the pipeline that builds payloads.

pub mod optimism_prologue;
pub mod pre_state;
pub mod publish_flashblocks;
pub mod times;
