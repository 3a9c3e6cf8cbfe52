//! The main error enum for the project lives here, and documents the various
//! conditions that can arise while interacting with the system.

use vstd::prelude::*;
use crate::peer::Pubkey as PeerPubkey;

verus! {

/// This is our error enum. It contains an entry for any part of the system in
/// which an expectation is not met or a problem occurs.
#[derive(Debug, Clone, PartialEq)]
pub enum Error {
    /// Bytes that should hold an encoded value do not.
    Deserialize,
    /// The wrong function was called when processing an event.
    EventMismatch,
    /// Failed to create a keypair from seed.
    KeypairFromSeedFailed,
    /// A `MessageWrapped` was given that was not the `Init` variant.
    MessageNotInit,
    /// Failed to open a sealed message.
    MessageOpenFailed,
    /// A peer public key was not provided while processing an event that
    /// requires it to be present.
    MissingPubkey,
    /// Cannot parse an address.
    ParseError,
    /// A message was received from a peer we haven't linked with yet.
    PeerNotFound(PeerPubkey),
    /// A value is too large to be encoded and sealed.
    Serialize,
}

/// Wraps `std::result::Result` around our `Error` enum.
pub type Result<T> = std::result::Result<T, Error>;

} // verus!
