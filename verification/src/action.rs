//! Actions tell whoever is running the syncing system what to do: send a
//! message to a peer, ask the user to confirm something, or change the
//! records that the [Sync](crate::sync::Sync) object keeps.

use vstd::prelude::*;
use crate::event::Event;
use crate::message::MessageWrapped;
use crate::peer::{PeerInfo, Pubkey as PeerPubkey};
use crate::sync::{ConnectionInfo, PendingPeer};

verus! {

/// Represents an action the sync system wishes to perform on itself.
///
/// Instead of mutating the [Sync](crate::sync::Sync) object when messages
/// are processed, we hand back a list of changes that are recommended to be
/// made to the sync object, which allows those changes to be persisted to
/// any storage medium we deem appropriate.
#[derive(Clone, Debug)]
pub enum SyncAction<T> {
    /// Make sure a peer exists (if not, adds it to the end of the peers list,
    /// otherwise updates the existing peer).
    SetPeer(PeerInfo),
    /// Make sure a peer is absent (matched by pubkey).
    UnsetPeer(PeerPubkey),
    /// Add a peer to the pending peers list.
    SetPendingPeer(PendingPeer),
    /// Remove a peer from the pending peers list.
    UnsetPendingPeer(ConnectionInfo),
    /// Create a topic subscription.
    SetSubscription(T, PeerInfo),
    /// Remove a subscription.
    UnsetSubscription(T, PeerInfo),
}

/// Holds an individual action. This tells other parts of the system what to
/// do in relation to either storing or sending data.
#[derive(Clone, Debug)]
pub enum Action<U, T, S> {
    /// Send a message to a peer.
    MessageSend(ConnectionInfo, MessageWrapped),
    /// Confirm something with the user.
    Confirm(Event<U, T, S>),
    /// An action pertaining to a [Sync](crate::sync::Sync) object.
    Sync(SyncAction<T>),
}

} // verus!
