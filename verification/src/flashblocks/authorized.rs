//! Handles of the flashblocks protocol for builders with a key.
use crate::flashblocks::p2p::{self, FlashblocksP2PState};
use crate::flashblocks::primitives::FlashblocksPayloadV1;
use crate::rlp;
use ed25519_dalek::{SigningKey, VerifyingKey};
use vstd::prelude::*;

verus! {

/// A key that signs, carried through as it is.
#[verifier::external_type_specification]
#[verifier::external_body]
pub struct ExSigningKey(ed25519_dalek::SigningKey);

/// A key that signatures are verified with, carried through as it is.
#[verifier::external_type_specification]
#[verifier::external_body]
pub struct ExVerifyingKey(ed25519_dalek::VerifyingKey);

/// Why an operation of the protocol fails.
#[derive(Clone, Copy, Debug, PartialEq, Eq)]
pub enum FlashblocksP2PError {
    /// The builder has no key.
    MissingBuilderSk,
}

/// The keys that messages are authorized with, and what is to be sent.
pub struct FlashblocksP2PCtx {
    /// Verifies the authorizations of builders.
    pub authorizer_vk: VerifyingKey,
    /// Signs the messages of this builder.
    pub builder_sk: Option<SigningKey>,
    /// What is to be sent over the protocol's channels.
    pub channels: p2p::FlashblocksP2PCtx,
}

impl FlashblocksP2PCtx {
    /// Publishes a flashblock at the time `now`, with `json` as the text of its metadata.
    pub fn publish(
        &mut self,
        state: &mut FlashblocksP2PState,
        payload: FlashblocksPayloadV1,
        json: &[u8],
        now: i64,
    )
        requires
            payload.metadata.flashblock_timestamp is Some,
            rlp::enc(p2p::message_item(payload@, json@)).len() <= usize::MAX,
        ensures
            ({
                let bytes = rlp::enc(p2p::message_item(payload@, json@));
                let p = old(state)@.published(payload@, bytes, now);
                &&& final(state)@ == p.state
                &&& old(self).channels.sends(final(self).channels, p)
            }),
            final(self).authorizer_vk == old(self).authorizer_vk,
            final(self).builder_sk == old(self).builder_sk,
    {
        self.channels.publish(state, payload, json, now);
    }
}

/// Handle of the flashblocks protocol, with the keys that messages are authorized with.
pub struct FlashblocksHandle {
    /// The keys, and what is to be sent.
    pub ctx: FlashblocksP2PCtx,
    /// State of the protocol.
    pub state: FlashblocksP2PState,
}

impl FlashblocksHandle {
    /// A handle before any flashblock has come in.
    pub fn new(authorizer_vk: VerifyingKey, builder_sk: Option<SigningKey>) -> (r: Self)
        ensures
            r.ctx.authorizer_vk == authorizer_vk,
            r.ctx.builder_sk == builder_sk,
            r.ctx.channels.peer_tx@.len() == 0,
            r.ctx.channels.flashblock_tx@.len() == 0,
            r.state@.is_initial(),
            r.state@.wf(),
    {
        let channels = p2p::FlashblocksP2PCtx::new();
        FlashblocksHandle {
            ctx: FlashblocksP2PCtx { authorizer_vk, builder_sk, channels },
            state: FlashblocksP2PState::default(),
        }
    }

    /// The flashblocks that are to be handed on, in order.
    pub fn flashblocks_tx(&self) -> (r: &Vec<FlashblocksPayloadV1>)
        ensures
            r == self.ctx.channels.flashblock_tx,
    {
        &self.ctx.channels.flashblock_tx
    }

    /// The key that this builder signs with.
    pub fn builder_sk(&self) -> (r: Result<&SigningKey, FlashblocksP2PError>)
        ensures
            match r {
                Ok(sk) => self.ctx.builder_sk == Some(*sk),
                Err(e) => self.ctx.builder_sk is None && e == FlashblocksP2PError::MissingBuilderSk,
            },
    {
        match &self.ctx.builder_sk {
            Some(sk) => Ok(sk),
            None => Err(FlashblocksP2PError::MissingBuilderSk),
        }
    }

    /// Publishes a flashblock at the time `now`, with `json` as the text of its metadata.
    pub fn publish_new(&mut self, payload: FlashblocksPayloadV1, json: &[u8], now: i64)
        requires
            payload.metadata.flashblock_timestamp is Some,
            rlp::enc(p2p::message_item(payload@, json@)).len() <= usize::MAX,
        ensures
            ({
                let bytes = rlp::enc(p2p::message_item(payload@, json@));
                let p = old(self).state@.published(payload@, bytes, now);
                &&& final(self).state@ == p.state
                &&& old(self).ctx.channels.sends(final(self).ctx.channels, p)
            }),
            final(self).ctx.authorizer_vk == old(self).ctx.authorizer_vk,
            final(self).ctx.builder_sk == old(self).ctx.builder_sk,
    {
        self.ctx.publish(&mut self.state, payload, json, now);
    }
}

}
