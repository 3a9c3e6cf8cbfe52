//! Peers: their keys, what we know of them, and how we decide whether to
//! peer with them.

use vstd::prelude::*;
use crate::crypto::{self, spec_keypair_from_seed, spec_precompute, spec_public_key};
use crate::error::Error;
use crate::sync::ConnectionInfo;
use crate::topic::Topic;
use crate::util::Timestamp;
use crate::wire::{Wire, prefixed};
use vstd::string::StringExecFns;

verus! {

/// A peer's public key.
#[derive(Debug, Clone, Copy, PartialEq, Eq, Hash, PartialOrd, Ord)]
pub struct Pubkey {
    /// The key's bytes.
    pub inner: [u8; 32],
}

impl View for Pubkey {
    type V = Seq<u8>;

    open spec fn view(&self) -> Seq<u8> {
        self.inner@
    }
}

impl Pubkey {
    /// Create a new public key.
    pub fn new(pubkey: [u8; 32]) -> (r: Pubkey)
        ensures
            r.inner == pubkey,
    {
        Pubkey { inner: pubkey }
    }

    /// The key's bytes.
    pub fn inner(&self) -> (r: &[u8; 32])
        ensures
            *r == self.inner,
    {
        &self.inner
    }

    /// Whether two keys are the same key.
    pub fn same(&self, other: &Pubkey) -> (r: bool)
        ensures
            r == (self@ == other@),
    {
        let mut i: usize = 0;
        while i < 32
            invariant
                i <= 32,
                self@.len() == 32,
                other@.len() == 32,
                forall|j: int| 0 <= j < i ==> self@[j] == other@[j],
            decreases 32 - i,
        {
            if self.inner[i] != other.inner[i] {
                return false;
            }
            i = i + 1;
        }
        assert(self@ =~= other@);
        true
    }

    /// The key as text: `pubkey::` and the key in URL-safe base64.
    pub fn to_display_string(&self) -> (r: String)
        ensures
            r@ == "pubkey::"@ + spec_base64_url_nopad(self@),
    {
        let encoded = base64_encode(self.inner.as_slice());
        let r = String::from_str("pubkey::").concat(encoded.as_str());
        r
    }
}

/// A peer's key is its bytes.
impl DeepView for Pubkey {
    type V = Seq<u8>;

    open spec fn deep_view(&self) -> Seq<u8> {
        self@
    }
}

impl Wire for Pubkey {
    open spec fn wire(&self) -> Seq<u8> {
        self.inner.wire()
    }

    proof fn lemma_wire_nonempty(&self) {
    }

    fn encode(&self, out: &mut Vec<u8>) {
        self.inner.encode(out);
    }

    fn decode(buf: &[u8], pos: usize) -> (r: Option<(Pubkey, usize)>) {
        proof {
            assert forall|x: Pubkey| #[trigger] prefixed(buf@, pos as int, x.wire()) implies prefixed(
                buf@,
                pos as int,
                x.inner.wire(),
            ) by {}
        }
        match <[u8; 32]>::decode(buf, pos) {
            Some((inner, end)) => Some((Pubkey { inner }, end)),
            None => None,
        }
    }

    fn duplicate(&self) -> (r: Pubkey) {
        *self
    }

    proof fn lemma_wire_unique(&self, other: &Pubkey, rest: Seq<u8>, other_rest: Seq<u8>) {
        self.inner.lemma_wire_unique(&other.inner, rest, other_rest);
    }
}

/// The character of a six-bit value in the URL-safe base64 alphabet:
/// `A`-`Z`, `a`-`z`, `0`-`9`, `-` and `_`.
pub open spec fn base64_url_char(x: int) -> char {
    if x < 26 {
        (65 + x) as char
    } else if x < 52 {
        (97 + x - 26) as char
    } else if x < 62 {
        (48 + x - 52) as char
    } else if x == 62 {
        '-'
    } else {
        '_'
    }
}

/// The URL-safe base64 text of some bytes, without padding: each three
/// bytes become four characters of six bits each, and a tail of one or two
/// bytes becomes two or three characters, its last one padded with zero
/// bits.
pub open spec fn spec_base64_url_nopad(bytes: Seq<u8>) -> Seq<char>
    decreases bytes.len(),
{
    if bytes.len() == 0 {
        seq![]
    } else if bytes.len() == 1 {
        seq![base64_url_char((bytes[0] as int) / 4), base64_url_char(((bytes[0] as int) % 4) * 16)]
    } else if bytes.len() == 2 {
        seq![
            base64_url_char((bytes[0] as int) / 4),
            base64_url_char(((bytes[0] as int) % 4) * 16 + (bytes[1] as int) / 16),
            base64_url_char(((bytes[1] as int) % 16) * 4),
        ]
    } else {
        seq![
            base64_url_char((bytes[0] as int) / 4),
            base64_url_char(((bytes[0] as int) % 4) * 16 + (bytes[1] as int) / 16),
            base64_url_char(((bytes[1] as int) % 16) * 4 + (bytes[2] as int) / 64),
            base64_url_char((bytes[2] as int) % 64),
        ] + spec_base64_url_nopad(bytes.subrange(3, bytes.len() as int))
    }
}

/// The length of the URL-safe unpadded base64 text of `n` bytes.
pub open spec fn base64_nopad_len(n: int) -> int {
    let rem: int = if n % 3 == 0 {
        0
    } else if n % 3 == 1 {
        2
    } else {
        3
    };
    (n / 3) * 4 + rem
}

/// Convert bytes to base64 (URL-safe alphabet, no padding).
///
/// Calls `base64::encode_config` with `URL_SAFE_NO_PAD`, whose text is
/// `spec_base64_url_nopad`; the crate's source shows its length, and that it
/// panics when that length does not fit in a `usize`, which `requires`
/// leaves out.
#[verifier::external_body]
pub fn base64_encode(bytes: &[u8]) -> (r: String)
    requires
        base64_nopad_len(bytes@.len() as int) <= usize::MAX,
    ensures
        r@ == spec_base64_url_nopad(bytes@),
        r@.len() == base64_nopad_len(bytes@.len() as int),
{
    base64::encode_config(bytes, base64::URL_SAFE_NO_PAD)
}

/// A full keypair. Generally only used for THIS node, ie, not to be stored
/// with peers, because we shouldn't ever know their secret keys!
#[derive(Debug, Clone)]
pub struct Keypair {
    /// The public half.
    pub pubkey: [u8; 32],
    /// The secret half.
    pub seckey: [u8; 32],
}

impl Keypair {
    /// Create a new keypair from a raw public/secret keypair.
    pub fn new(pubkey: [u8; 32], seckey: [u8; 32]) -> (r: Keypair)
        ensures
            r.pubkey == pubkey,
            r.seckey == seckey,
    {
        Keypair { pubkey, seckey }
    }

    /// Create a random keypair.
    pub fn new_random() -> (r: Keypair)
        ensures
            r.pubkey@ == spec_public_key(r.seckey@),
    {
        let (pubkey, seckey) = crypto::gen_keypair();
        Keypair::new(pubkey, seckey)
    }

    /// Create a new keypair from a seed, which must be exactly 32 bytes.
    pub fn new_with_seed(seed_bytes: &[u8]) -> (r: Result<Keypair, Error>)
        ensures
            seed_bytes@.len() != crypto::KEY_BYTES ==> r == Err::<Keypair, Error>(
                Error::KeypairFromSeedFailed,
            ),
            seed_bytes@.len() == crypto::KEY_BYTES ==> (r matches Ok(k) && (k.pubkey@, k.seckey@)
                == spec_keypair_from_seed(seed_bytes@) && k.pubkey@ == spec_public_key(k.seckey@)),
    {
        if seed_bytes.len() != crypto::KEY_BYTES {
            return Err(Error::KeypairFromSeedFailed);
        }
        let mut seed = [0u8; 32];
        let mut i: usize = 0;
        while i < 32
            invariant
                i <= 32,
                seed_bytes@.len() == 32,
                forall|j: int| 0 <= j < i ==> seed@[j] == seed_bytes@[j],
            decreases 32 - i,
        {
            seed[i] = seed_bytes[i];
            i = i + 1;
        }
        assert(seed@ =~= seed_bytes@);
        let (pubkey, seckey) = crypto::keypair_from_seed(&seed);
        Ok(Keypair::new(pubkey, seckey))
    }

    /// The public key.
    pub fn pubkey(&self) -> (r: &[u8; 32])
        ensures
            *r == self.pubkey,
    {
        &self.pubkey
    }

    /// The secret key.
    pub fn seckey(&self) -> (r: &[u8; 32])
        ensures
            *r == self.seckey,
    {
        &self.seckey
    }

    /// Create a Pubkey from this Keypair.
    pub fn to_pubkey(&self) -> (r: Pubkey)
        ensures
            r == (Pubkey { inner: self.pubkey }),
    {
        Pubkey::new(self.pubkey)
    }
}

/// Holds information about a peer.
#[derive(Debug, PartialEq)]
pub struct Peer {
    /// The name of our peer, probably a device name.
    pub name: String,
    /// The public key of the peer.
    pub pubkey: Pubkey,
    /// A precomputed key based on our secret key and the peer's public key.
    pub precomputed: [u8; 32],
}

/// What tells two peers apart: their names, keys and precomputed keys.
pub open spec fn peer_view(p: Peer) -> (Seq<char>, Seq<u8>, Seq<u8>) {
    (p.name@, p.pubkey@, p.precomputed@)
}

impl Clone for Peer {
    fn clone(&self) -> (r: Peer)
        ensures
            r == *self,
    {
        Peer { name: self.name.clone(), pubkey: self.pubkey, precomputed: self.precomputed }
    }
}

/// The name of a temporary peer.
pub open spec fn tmp_name() -> Seq<char> {
    "<tmp>"@
}

impl Peer {
    /// Create a new peer, precomputing the shared key from its public key and
    /// our secret key. The peer computes the same key from our public key
    /// and its secret key.
    pub fn new(name: String, pubkey: Pubkey, our_seckey: &[u8; 32]) -> (r: Peer)
        ensures
            r.name == name,
            r.pubkey == pubkey,
            r.precomputed@ == spec_precompute(pubkey@, our_seckey@),
            forall|their_seckey: Seq<u8>|
                #[trigger] spec_public_key(their_seckey) == pubkey@ ==> r.precomputed@
                    == spec_precompute(spec_public_key(our_seckey@), their_seckey),
    {
        let precomputed = crypto::precompute(&pubkey.inner, our_seckey);
        Peer { name, pubkey, precomputed }
    }

    /// A convenience function to create a temporary, nameless peer.
    pub fn tmp(pubkey: &Pubkey, our_seckey: &[u8; 32]) -> (r: Peer)
        ensures
            r.name@ == tmp_name(),
            r.pubkey == *pubkey,
            r.precomputed@ == spec_precompute(pubkey@, our_seckey@),
            forall|their_seckey: Seq<u8>|
                #[trigger] spec_public_key(their_seckey) == pubkey@ ==> r.precomputed@
                    == spec_precompute(spec_public_key(our_seckey@), their_seckey),
    {
        proof {
            reveal_strlit("<tmp>");
        }
        Peer::new(String::from_str("<tmp>"), *pubkey, our_seckey)
    }

    /// The peer's name.
    pub fn name(&self) -> (r: &String)
        ensures
            *r == self.name,
    {
        &self.name
    }

    /// The peer's public key.
    pub fn pubkey(&self) -> (r: &Pubkey)
        ensures
            *r == self.pubkey,
    {
        &self.pubkey
    }

    /// The precomputed key for talking to this peer.
    pub fn precomputed(&self) -> (r: &[u8; 32])
        ensures
            *r == self.precomputed,
    {
        &self.precomputed
    }

    /// Rename the peer.
    pub fn set_name(&mut self, name: String)
        ensures
            final(self).name == name,
            final(self).pubkey == old(self).pubkey,
            final(self).precomputed == old(self).precomputed,
    {
        self.name = name;
    }

    /// Whether two peers are the same peer: same name, key and precomputed
    /// key.
    pub fn same(&self, other: &Peer) -> (r: bool)
        ensures
            r == (peer_view(*self) == peer_view(*other)),
    {
        if self.name != other.name {
            return false;
        }
        if !self.pubkey.same(&other.pubkey) {
            return false;
        }
        let mut i: usize = 0;
        while i < 32
            invariant
                i <= 32,
                self.precomputed@.len() == 32,
                other.precomputed@.len() == 32,
                forall|j: int| 0 <= j < i ==> self.precomputed@[j] == other.precomputed@[j],
            decreases 32 - i,
        {
            if self.precomputed[i] != other.precomputed[i] {
                return false;
            }
            i = i + 1;
        }
        assert(self.precomputed@ =~= other.precomputed@);
        true
    }
}

/// Holds information about a peer.
#[derive(Debug)]
pub struct PeerInfo {
    /// The peer themselves.
    pub peer: Peer,
    /// The connection information associated with this peer.
    pub connection_info: ConnectionInfo,
    /// Whether peering is active (ie, we've sent a `PeerConfirm` event).
    pub active: bool,
    /// Last time this peer pinged or ponged us.
    pub last_ping: Timestamp,
}

impl Clone for PeerInfo {
    fn clone(&self) -> (r: PeerInfo)
        ensures
            r == *self,
    {
        PeerInfo {
            peer: self.peer.clone(),
            connection_info: self.connection_info,
            active: self.active,
            last_ping: self.last_ping,
        }
    }
}

impl PeerInfo {
    /// Create a new PeerInfo.
    pub fn new(peer: Peer, connection_info: ConnectionInfo, active: bool, last_ping: Timestamp) -> (r:
        PeerInfo)
        ensures
            r == (PeerInfo { peer, connection_info, active, last_ping }),
    {
        PeerInfo { peer, connection_info, active, last_ping }
    }

    /// The peer.
    pub fn peer(&self) -> (r: &Peer)
        ensures
            *r == self.peer,
    {
        &self.peer
    }

    /// The connection information.
    pub fn connection_info(&self) -> (r: &ConnectionInfo)
        ensures
            *r == self.connection_info,
    {
        &self.connection_info
    }

    /// Whether peering is active.
    pub fn active(&self) -> (r: &bool)
        ensures
            *r == self.active,
    {
        &self.active
    }

    /// When the peer last pinged or ponged us.
    pub fn last_ping(&self) -> (r: &Timestamp)
        ensures
            *r == self.last_ping,
    {
        &self.last_ping
    }

    /// Set whether peering is active.
    pub fn set_active(&mut self, active: bool)
        ensures
            *final(self) == (PeerInfo { active, ..*old(self) }),
    {
        self.active = active;
    }

    /// Set when the peer last pinged or ponged us.
    pub fn set_last_ping(&mut self, last_ping: Timestamp)
        ensures
            *final(self) == (PeerInfo { last_ping, ..*old(self) }),
    {
        self.last_ping = last_ping;
    }
}

/// Determines if/how we allow incoming peers.
#[derive(Debug, Clone)]
pub enum ConfirmationMode {
    /// Deny all peering requests, except the given whitelist.
    Private { whitelist: Vec<Pubkey> },
    /// Allow all whitelisted peers, deny all blacklisted, and confirm any
    /// unknown peers.
    Confirm { whitelist: Vec<Pubkey>, blacklist: Vec<Pubkey> },
    /// Allow all peering requests from peers. Deny blacklisted.
    PublicAgent { whitelist: Vec<Pubkey>, blacklist: Vec<Pubkey> },
}

/// Determines what topics are published to who.
#[derive(Debug, Clone)]
pub enum SubscriptionConfig {
    /// Allow all topics to be published to all peers except those in this
    /// list.
    Blacklist(Vec<(Pubkey, Topic)>),
    /// Prohibit all topics to be published to any peers except those in this
    /// list.
    Whitelist(Vec<(Pubkey, Topic)>),
}

/// Our peer configuration. Determines how/if we accept other peers, as well
/// as our topic configuration.
#[derive(Debug, Clone)]
pub struct PeeringConfig {
    /// How we confirm other peers.
    pub confirmation: ConfirmationMode,
    /// Topic subscription config.
    pub subscriptions: SubscriptionConfig,
}

/// Whether a key is in a list of keys.
pub open spec fn listed(list: Seq<Pubkey>, pk: Seq<u8>) -> bool {
    exists|i: int| 0 <= i < list.len() && #[trigger] list[i]@ == pk
}

/// Whether a key is in a list of keys.
fn contains_pubkey(list: &Vec<Pubkey>, pk: &Pubkey) -> (r: bool)
    ensures
        r == listed(list@, pk@),
{
    let mut i: usize = 0;
    while i < list.len()
        invariant
            i <= list@.len(),
            forall|j: int| 0 <= j < i ==> list@[j]@ != pk@,
        decreases list@.len() - i,
    {
        if list[i].same(pk) {
            return true;
        }
        i = i + 1;
    }
    false
}

/// The decision on a peering request from `pk`: `Some(true)` to confirm it,
/// `Some(false)` to deny it, `None` to ask the user.
pub open spec fn spec_can_confirm(mode: ConfirmationMode, pk: Seq<u8>) -> Option<bool> {
    match mode {
        ConfirmationMode::Private { whitelist } => Some(listed(whitelist@, pk)),
        ConfirmationMode::Confirm { whitelist, blacklist } => {
            if listed(blacklist@, pk) {
                Some(false)
            } else if listed(whitelist@, pk) {
                Some(true)
            } else {
                None
            }
        },
        ConfirmationMode::PublicAgent { whitelist, blacklist } => {
            if listed(blacklist@, pk) {
                Some(false)
            } else {
                Some(true)
            }
        },
    }
}

/// How a peering request is decided, by where the requesting key stands in
/// the lists (at any index): in private mode a whitelisted key is confirmed
/// and any other denied; in confirm mode a blacklisted key is denied, else a
/// whitelisted one confirmed, else the user is asked; as a public agent a
/// blacklisted key is denied and any other confirmed.
pub proof fn law_can_confirm_by_lists(mode: ConfirmationMode, pk: Seq<u8>)
    ensures
        match mode {
            ConfirmationMode::Private { whitelist } => spec_can_confirm(mode, pk) == Some(
                exists|i: int| 0 <= i < whitelist@.len() && #[trigger] whitelist@[i]@ == pk,
            ),
            ConfirmationMode::Confirm { whitelist, blacklist } => spec_can_confirm(mode, pk) == if exists|
                i: int,
            |
                0 <= i < blacklist@.len() && #[trigger] blacklist@[i]@ == pk {
                Some(false)
            } else if exists|i: int| 0 <= i < whitelist@.len() && #[trigger] whitelist@[i]@ == pk {
                Some(true)
            } else {
                None
            },
            ConfirmationMode::PublicAgent { whitelist, blacklist } => spec_can_confirm(mode, pk)
                == if exists|i: int| 0 <= i < blacklist@.len() && #[trigger] blacklist@[i]@ == pk {
                Some(false)
            } else {
                Some(true)
            },
        },
{
}

impl PeeringConfig {
    /// Create a new peering config.
    pub fn new(confirmation: ConfirmationMode, subscriptions: SubscriptionConfig) -> (r:
        PeeringConfig)
        ensures
            r == (PeeringConfig { confirmation, subscriptions }),
    {
        PeeringConfig { confirmation, subscriptions }
    }

    /// How we confirm other peers.
    pub fn confirmation(&self) -> (r: &ConfirmationMode)
        ensures
            *r == self.confirmation,
    {
        &self.confirmation
    }

    /// The topic subscription config.
    pub fn subscriptions(&self) -> (r: &SubscriptionConfig)
        ensures
            *r == self.subscriptions,
    {
        &self.subscriptions
    }

    /// Decide on a peering request from `peer_pubkey`: `Some(true)` to
    /// confirm it, `Some(false)` to deny it, `None` to ask the user.
    pub fn can_confirm(&self, peer_pubkey: &Pubkey) -> (r: Option<bool>)
        ensures
            r == spec_can_confirm(self.confirmation, peer_pubkey@),
    {
        match &self.confirmation {
            ConfirmationMode::Private { whitelist } => {
                if contains_pubkey(whitelist, peer_pubkey) {
                    Some(true)
                } else {
                    Some(false)
                }
            },
            ConfirmationMode::Confirm { whitelist, blacklist } => {
                if contains_pubkey(blacklist, peer_pubkey) {
                    Some(false)
                } else if contains_pubkey(whitelist, peer_pubkey) {
                    Some(true)
                } else {
                    None
                }
            },
            ConfirmationMode::PublicAgent { whitelist, blacklist } => {
                if contains_pubkey(blacklist, peer_pubkey) {
                    Some(false)
                } else if contains_pubkey(whitelist, peer_pubkey) {
                    Some(true)
                } else {
                    Some(true)
                }
            },
        }
    }
}

} // verus!
