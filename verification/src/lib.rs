//! Peer-to-peer syncing: peers exchange sealed messages, confirm each other,
//! subscribe to topics, and the [`sync::Sync`] object turns incoming events
//! into actions for its runner to perform.

pub mod crypto;
pub mod wire;
pub mod util;
pub mod identity;
pub mod topic;
pub mod error;
pub mod peer;
pub mod sync;
pub mod event;
pub mod message;
mod ser;
pub mod action;
pub mod subscription;
pub mod search;

use vstd::prelude::*;

verus! {

/// Methods for how this peer handles communication.
#[derive(Debug, Clone, Copy, PartialEq, Eq, Structural)]
pub enum Mode {
    /// Agent mode only passes messages directly to trusted/established peers
    /// and discards any messages that aren't intended for the identities the
    /// peer directly manages.
    Agent,
    /// Relay mode sets this peer up to forward messages to peers that
    /// registered their interest in particular identities.
    Relay,
    /// A storage node relays and also stores syncing messages for some time.
    StorageNode,
}

} // verus!
