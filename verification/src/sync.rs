//! The syncing system: it produces actions both for communicating with
//! other peers and for keeping its own records.

use vstd::prelude::*;
use crate::action::{Action, SyncAction};
use crate::crypto::{spec_open, spec_precompute, spec_seal, MAC_BYTES};
use crate::error::{Error, Result};
use crate::event::Event;
use crate::identity::Pubkey as IdentityPubkey;
use crate::message::{self, Message, MessageID, MessageSealed, MessageWrapped, Nonce, TopicGraphEntry, open_outcome, seal_outcome, seals};
use crate::peer::{Keypair, Peer, PeerInfo, PeeringConfig, Pubkey as PeerPubkey, peer_view, spec_can_confirm, tmp_name};
use crate::search::{first_index, lemma_first_index, lemma_first_index_at, lemma_first_index_none};
use crate::ser;
use crate::subscription::Subscription;
use crate::util::Timestamp;
use crate::wire::{Wire, prefixed, u64_wire, wires};
use vstd::arithmetic::div_mod::{lemma_div_is_ordered, lemma_div_pos_is_pos};

verus! {

/// Holds information about a connection to a peer: an IPv4 or IPv6 socket
/// address.
#[derive(Debug, Clone, Copy, PartialEq, Eq, Structural, Hash)]
pub struct ConnectionInfo {
    /// Whether the address is an IPv6 address.
    pub v6: bool,
    /// The IP address as a number (the 32-bit value for IPv4).
    pub ip: u128,
    /// The port.
    pub port: u16,
    /// The IPv6 flow information (0 for IPv4).
    pub flowinfo: u32,
    /// The IPv6 scope id (0 for IPv4).
    pub scope_id: u32,
}

impl ConnectionInfo {
    /// The connection info for the IPv4 address `a.b.c.d` and a port.
    pub fn from_v4(a: u8, b: u8, c: u8, d: u8, port: u16) -> (r: ConnectionInfo)
        ensures
            !r.v6,
            r.ip == a * 0x100_0000 + b * 0x1_0000 + c * 0x100 + d,
            r.port == port,
            r.flowinfo == 0,
            r.scope_id == 0,
    {
        let ip: u128 = (a as u128) * 0x100_0000 + (b as u128) * 0x1_0000 + (c as u128) * 0x100
            + (d as u128);
        ConnectionInfo { v6: false, ip, port, flowinfo: 0, scope_id: 0 }
    }

    /// The connection info for an IPv6 address given as a 128-bit number.
    pub fn from_v6(ip: u128, port: u16, flowinfo: u32, scope_id: u32) -> (r: ConnectionInfo)
        ensures
            r == (ConnectionInfo { v6: true, ip, port, flowinfo, scope_id }),
    {
        ConnectionInfo { v6: true, ip, port, flowinfo, scope_id }
    }
}

/// A structure that holds information about a peer we're just starting to
/// open comms with.
#[derive(Debug, Clone, Copy, PartialEq, Eq, Structural)]
pub struct PendingPeer {
    /// Connection info.
    pub connection_info: ConnectionInfo,
    /// When the pending peer was created.
    pub created: Timestamp,
}

impl PendingPeer {
    /// Create a pending peer.
    pub fn new(connection_info: ConnectionInfo, created: Timestamp) -> (r: PendingPeer)
        ensures
            r == (PendingPeer { connection_info, created }),
    {
        PendingPeer { connection_info, created }
    }

    /// Connection info.
    pub fn connection_info(&self) -> (r: &ConnectionInfo)
        ensures
            *r == self.connection_info,
    {
        &self.connection_info
    }

    /// When the pending peer was created.
    pub fn created(&self) -> (r: &Timestamp)
        ensures
            *r == self.created,
    {
        &self.created
    }
}


/// The main interface to the syncing system: this produces events for both
/// communicating to other peers and interacting with the database.
#[derive(Debug, Clone)]
pub struct Sync<T> {
    /// How we want to deal with peering requests.
    peering_config: PeeringConfig,
    /// The name of our peer.
    name: String,
    /// Our comm secret keypair. Used to encrypt/decrypt messages to peers.
    keypair: Keypair,
    /// The peers we are in contact with, at most one per public key. They do
    /// not necessarily need to be active.
    peers: Vec<PeerInfo>,
    /// The subscriptions that peers have: at most one entry per topic, each
    /// with a non-empty list of distinct subscribers.
    subscriptions: Vec<(T, Vec<PeerInfo>)>,
    /// Track outgoing peer contact initiations so we don't send PeerInit to any
    /// random peer who says Hello to us.
    pending_peer_init: Vec<PendingPeer>,
    /// Identities this peer manages.
    identities: Vec<IdentityPubkey>,
}

/// The state of a [Sync] object as mathematical values.
pub struct SyncModel<T> {
    /// How we deal with peering requests.
    pub peering_config: PeeringConfig,
    /// Our name.
    pub name: String,
    /// Our keypair.
    pub keypair: Keypair,
    /// The peers we know.
    pub peers: Seq<PeerInfo>,
    /// Each topic with its subscribers.
    pub subscriptions: Seq<(T, Seq<PeerInfo>)>,
    /// The peers we are opening comms with.
    pub pending_peer_init: Seq<PendingPeer>,
    /// The identities this peer manages.
    pub identities: Seq<IdentityPubkey>,
}

impl<T> View for Sync<T> {
    type V = SyncModel<T>;

    closed spec fn view(&self) -> SyncModel<T> {
        SyncModel {
            peering_config: self.peering_config,
            name: self.name,
            keypair: self.keypair,
            peers: self.peers@,
            subscriptions: self.subscriptions@.map_values(|e: (T, Vec<PeerInfo>)| (e.0, e.1@)),
            pending_peer_init: self.pending_peer_init@,
            identities: self.identities@,
        }
    }
}

/// A peer record with the public key `pk`.
pub open spec fn key_is(pk: Seq<u8>) -> spec_fn(PeerInfo) -> bool {
    |pi: PeerInfo| pi.peer.pubkey@ == pk
}

/// A pending peer with the connection `c`.
pub open spec fn conn_is(c: ConnectionInfo) -> spec_fn(PendingPeer) -> bool {
    |pp: PendingPeer| pp.connection_info == c
}

/// A subscription entry for the topic encoded as `w`.
pub open spec fn topic_is<T: Wire>(w: Seq<u8>) -> spec_fn((T, Seq<PeerInfo>)) -> bool {
    |e: (T, Seq<PeerInfo>)| e.0.wire() == w
}

/// A subscriber that is the peer `v` (by name, key and precomputed key).
pub open spec fn peer_is(v: (Seq<char>, Seq<u8>, Seq<u8>)) -> spec_fn(PeerInfo) -> bool {
    |pi: PeerInfo| peer_view(pi.peer) == v
}

impl<T> SyncModel<T> {
    /// The record of the peer with key `pk`, if it is active as `active`
    /// asks (`None` asks for either).
    pub open spec fn find_peer(self, pk: Seq<u8>, active: Option<bool>) -> Option<PeerInfo> {
        match first_index(self.peers, key_is(pk)) {
            Some(i) => if active matches Some(a) && self.peers[i].active != a {
                None
            } else {
                Some(self.peers[i])
            },
            None => None,
        }
    }

    /// The pending peer with the connection `c`, if any.
    pub open spec fn find_pending_peer_init(self, c: ConnectionInfo) -> Option<PendingPeer> {
        match first_index(self.pending_peer_init, conn_is(c)) {
            Some(i) => Some(self.pending_peer_init[i]),
            None => None,
        }
    }
}

impl<T: Wire> SyncModel<T> {
    /// The subscribers of the topic encoded as `w`, if it has an entry.
    pub open spec fn subscribers(self, w: Seq<u8>) -> Option<Seq<PeerInfo>> {
        match first_index(self.subscriptions, topic_is::<T>(w)) {
            Some(i) => Some(self.subscriptions[i].1),
            None => None,
        }
    }

    /// Whether the peer `v` is subscribed to the topic encoded as `w`.
    pub open spec fn is_subscribed(self, w: Seq<u8>, v: (Seq<char>, Seq<u8>, Seq<u8>)) -> bool {
        match self.subscribers(w) {
            Some(subs) => first_index(subs, peer_is(v)) is Some,
            None => false,
        }
    }

    /// Whether a message has at least one topic that the peer `v` is
    /// subscribed to.
    pub open spec fn message_for_peer<U, S>(
        self,
        v: (Seq<char>, Seq<u8>, Seq<u8>),
        m: Message<U, T, S>,
    ) -> bool {
        exists|k: int|
            0 <= k < m.topic_graph@.len() && #[trigger] self.is_subscribed(
                m.topic_graph@[k].topic.wire(),
                v,
            )
    }

    /// The invariant of the records: one peer per key, one pending peer per
    /// connection, one entry per topic, and each entry a non-empty list of
    /// distinct subscribers.
    pub open spec fn wf(self) -> bool {
        &&& forall|i: int, j: int|
            0 <= i < j < self.peers.len() ==> #[trigger] self.peers[i].peer.pubkey@
                != #[trigger] self.peers[j].peer.pubkey@
        &&& forall|i: int, j: int|
            0 <= i < j < self.pending_peer_init.len()
                ==> #[trigger] self.pending_peer_init[i].connection_info
                != #[trigger] self.pending_peer_init[j].connection_info
        &&& forall|i: int, j: int|
            0 <= i < j < self.subscriptions.len() ==> #[trigger] self.subscriptions[i].0.wire()
                != #[trigger] self.subscriptions[j].0.wire()
        &&& forall|i: int|
            0 <= i < self.subscriptions.len() ==> #[trigger] distinct_subscribers(
                self.subscriptions[i].1,
            )
    }
}

/// A non-empty list of subscribers, no two of them the same peer.
pub open spec fn distinct_subscribers(subs: Seq<PeerInfo>) -> bool {
    &&& subs.len() > 0
    &&& forall|a: int, b: int|
        0 <= a < b < subs.len() ==> peer_view(#[trigger] subs[a].peer) != peer_view(
            #[trigger] subs[b].peer,
        )
}

/// Whether two byte strings are equal.
fn bytes_eq(a: &[u8], b: &[u8]) -> (r: bool)
    ensures
        r == (a@ == b@),
{
    if a.len() != b.len() {
        return false;
    }
    let mut i: usize = 0;
    while i < a.len()
        invariant
            a@.len() == b@.len(),
            i <= a@.len(),
            forall|j: int| 0 <= j < i ==> a@[j] == b@[j],
        decreases a@.len() - i,
    {
        if a[i] != b[i] {
            return false;
        }
        i = i + 1;
    }
    assert(a@ =~= b@);
    true
}

/// Whether two values have the same encoding, which they have only when
/// they are the same value.
pub fn same_wire<X: Wire>(a: &X, b: &X) -> (r: bool)
    ensures
        r == (a.wire() == b.wire()),
        r ==> a.deep_view() == b.deep_view(),
{
    let wa = ser::serialize(a);
    let wb = ser::serialize(b);
    let r = bytes_eq(wa.as_slice(), wb.as_slice());
    // both encodings are held in memory, so their lengths fit in a usize
    let (la, lb) = (wa.len(), wb.len());
    assert(la == wa@.len() && lb == wb@.len());
    proof {
        if r {
            assert(a.wire() + Seq::<u8>::empty() =~= b.wire() + Seq::<u8>::empty());
            a.lemma_wire_unique(b, Seq::<u8>::empty(), Seq::<u8>::empty());
        }
    }
    r
}

/// The index of the first subscriber that is the peer `peer`.
fn find_subscriber_index(subs: &Vec<PeerInfo>, peer: &Peer) -> (r: Option<usize>)
    ensures
        r matches Some(i) ==> first_index(subs@, peer_is(peer_view(*peer))) == Some(i as int),
        r is None ==> first_index(subs@, peer_is(peer_view(*peer))) is None,
{
    let ghost p = peer_is(peer_view(*peer));
    let mut i: usize = 0;
    while i < subs.len()
        invariant
            i <= subs@.len(),
            p == peer_is(peer_view(*peer)),
            forall|j: int| 0 <= j < i ==> !p(#[trigger] subs@[j]),
        decreases subs@.len() - i,
    {
        if subs[i].peer.same(peer) {
            proof {
                lemma_first_index_at(subs@, p, i as int);
            }
            return Some(i);
        }
        i = i + 1;
    }
    proof {
        lemma_first_index_none(subs@, p);
    }
    None
}

impl<T> Sync<T> {
    /// Create a new Sync object.
    pub fn new(name: String, keypair: Keypair, peering_config: PeeringConfig) -> (r: Sync<T>)
        ensures
            r@.name == name,
            r@.keypair == keypair,
            r@.peering_config == peering_config,
            r@.peers.len() == 0,
            r@.subscriptions.len() == 0,
            r@.pending_peer_init.len() == 0,
            r@.identities.len() == 0,
    {
        Sync {
            name,
            keypair,
            peers: Vec::new(),
            subscriptions: Vec::new(),
            pending_peer_init: Vec::new(),
            identities: Vec::new(),
            peering_config,
        }
    }

    /// How we want to deal with peering requests.
    pub fn peering_config(&self) -> (r: &PeeringConfig)
        ensures
            *r == self@.peering_config,
    {
        &self.peering_config
    }

    /// The name of our peer.
    pub fn name(&self) -> (r: &String)
        ensures
            *r == self@.name,
    {
        &self.name
    }

    /// Our keypair.
    pub fn keypair(&self) -> (r: &Keypair)
        ensures
            *r == self@.keypair,
    {
        &self.keypair
    }

    /// The peers we are in contact with.
    pub fn peers(&self) -> (r: &Vec<PeerInfo>)
        ensures
            r@ == self@.peers,
    {
        &self.peers
    }

    /// Each topic with its subscribers.
    pub fn subscriptions(&self) -> (r: &Vec<(T, Vec<PeerInfo>)>)
        ensures
            r@.len() == self@.subscriptions.len(),
            forall|i: int|
                0 <= i < r@.len() ==> (#[trigger] r@[i]).0 == self@.subscriptions[i].0 && r@[i].1@
                    == self@.subscriptions[i].1,
    {
        &self.subscriptions
    }

    /// The peers we are opening comms with.
    pub fn pending_peer_init(&self) -> (r: &Vec<PendingPeer>)
        ensures
            r@ == self@.pending_peer_init,
    {
        &self.pending_peer_init
    }

    /// The identities this peer manages.
    pub fn identities(&self) -> (r: &Vec<IdentityPubkey>)
        ensures
            r@ == self@.identities,
    {
        &self.identities
    }

    /// The index of the peer with the public key `pubkey`.
    fn find_peer_index(&self, pubkey: &PeerPubkey) -> (r: Option<usize>)
        ensures
            r matches Some(i) ==> first_index(self@.peers, key_is(pubkey@)) == Some(i as int),
            r is None ==> first_index(self@.peers, key_is(pubkey@)) is None,
    {
        let ghost p = key_is(pubkey@);
        let mut i: usize = 0;
        while i < self.peers.len()
            invariant
                i <= self.peers@.len(),
                p == key_is(pubkey@),
                self@.peers == self.peers@,
                forall|j: int| 0 <= j < i ==> !p(#[trigger] self.peers@[j]),
            decreases self.peers@.len() - i,
        {
            if self.peers[i].peer.pubkey.same(pubkey) {
                proof {
                    lemma_first_index_at(self.peers@, p, i as int);
                }
                return Some(i);
            }
            i = i + 1;
        }
        proof {
            lemma_first_index_none(self.peers@, p);
        }
        None
    }

    /// Find a peer in our peering list by pubkey. With `Some(a)` for
    /// `active`, the peer is found only when its `active` flag is `a`.
    pub fn find_peer(&self, pubkey: &PeerPubkey, active: Option<bool>) -> (r: Option<&PeerInfo>)
        ensures
            r matches Some(pi) ==> self@.find_peer(pubkey@, active) == Some(*pi),
            r is None ==> self@.find_peer(pubkey@, active) is None,
    {
        proof {
            lemma_first_index(self@.peers, key_is(pubkey@));
        }
        match self.find_peer_index(pubkey) {
            Some(i) => {
                let peer_info = &self.peers[i];
                let active_bool = match active {
                    Some(active_val) => peer_info.active == active_val,
                    None => true,
                };
                if active_bool {
                    Some(peer_info)
                } else {
                    None
                }
            },
            None => None,
        }
    }

    /// The index of the pending peer with the connection `connection_info`.
    fn find_pending_index(&self, connection_info: &ConnectionInfo) -> (r: Option<usize>)
        ensures
            r matches Some(i) ==> first_index(self@.pending_peer_init, conn_is(*connection_info))
                == Some(i as int),
            r is None ==> first_index(self@.pending_peer_init, conn_is(*connection_info)) is None,
    {
        let ghost p = conn_is(*connection_info);
        let mut i: usize = 0;
        while i < self.pending_peer_init.len()
            invariant
                i <= self.pending_peer_init@.len(),
                p == conn_is(*connection_info),
                self@.pending_peer_init == self.pending_peer_init@,
                forall|j: int| 0 <= j < i ==> !p(#[trigger] self.pending_peer_init@[j]),
            decreases self.pending_peer_init@.len() - i,
        {
            if self.pending_peer_init[i].connection_info == *connection_info {
                proof {
                    lemma_first_index_at(self.pending_peer_init@, p, i as int);
                }
                return Some(i);
            }
            i = i + 1;
        }
        proof {
            lemma_first_index_none(self.pending_peer_init@, p);
        }
        None
    }

    /// Find an existing outgoing peer request.
    pub fn find_pending_peer_init(&self, connection_info: &ConnectionInfo) -> (r: Option<&PendingPeer>)
        ensures
            r matches Some(pp) ==> self@.find_pending_peer_init(*connection_info) == Some(*pp),
            r is None ==> self@.find_pending_peer_init(*connection_info) is None,
    {
        proof {
            lemma_first_index(self@.pending_peer_init, conn_is(*connection_info));
        }
        match self.find_pending_index(connection_info) {
            Some(i) => Some(&self.pending_peer_init[i]),
            None => None,
        }
    }
}

impl<T: Wire> Sync<T> {
    /// The index of the subscription entry for `topic`.
    fn find_topic_index(&self, topic: &T) -> (r: Option<usize>)
        ensures
            r matches Some(i) ==> first_index(self@.subscriptions, topic_is::<T>(topic.wire()))
                == Some(i as int),
            r is None ==> first_index(self@.subscriptions, topic_is::<T>(topic.wire())) is None,
    {
        let ghost p = topic_is::<T>(topic.wire());
        let ghost subs = self@.subscriptions;
        let mut i: usize = 0;
        while i < self.subscriptions.len()
            invariant
                i <= self.subscriptions@.len(),
                p == topic_is::<T>(topic.wire()),
                subs == self@.subscriptions,
                subs.len() == self.subscriptions@.len(),
                forall|j: int| 0 <= j < i ==> !p(#[trigger] subs[j]),
            decreases self.subscriptions@.len() - i,
        {
            assert(subs[i as int].0 == self.subscriptions@[i as int].0);
            if same_wire(&self.subscriptions[i].0, topic) {
                proof {
                    lemma_first_index_at(subs, p, i as int);
                }
                return Some(i);
            }
            i = i + 1;
        }
        proof {
            lemma_first_index_none(subs, p);
        }
        None
    }

    /// The subscribers of `topic`, if it has an entry.
    pub fn subscribers(&self, topic: &T) -> (r: Option<&Vec<PeerInfo>>)
        ensures
            r matches Some(v) ==> self@.subscribers(topic.wire()) == Some(v@),
            r is None ==> self@.subscribers(topic.wire()) is None,
    {
        proof {
            lemma_first_index(self@.subscriptions, topic_is::<T>(topic.wire()));
        }
        match self.find_topic_index(topic) {
            Some(i) => Some(&self.subscriptions[i].1),
            None => None,
        }
    }

    /// Determines if a peer is subscribed to a given topic.
    pub fn is_peer_subscribed_to_topic(&self, topic: &T, peer: &Peer) -> (r: bool)
        ensures
            r == self@.is_subscribed(topic.wire(), peer_view(*peer)),
    {
        match self.subscribers(topic) {
            Some(subs) => find_subscriber_index(subs, peer).is_some(),
            None => false,
        }
    }

    /// Makes sure a message contains at least one topic that the given peer
    /// is subscribed to. If not, returns false.
    pub fn filter_message_by_peer<U, S>(&self, peer: &Peer, message: &Message<U, T, S>) -> (r: bool)
        ensures
            r == self@.message_for_peer(peer_view(*peer), *message),
    {
        let tg = &message.topic_graph;
        let mut i: usize = 0;
        while i < tg.len()
            invariant
                i <= tg@.len(),
                *tg == message.topic_graph,
                forall|k: int|
                    0 <= k < i ==> !#[trigger] self@.is_subscribed(
                        tg@[k].topic.wire(),
                        peer_view(*peer),
                    ),
            decreases tg@.len() - i,
        {
            if self.is_peer_subscribed_to_topic(&tg[i].topic, peer) {
                return true;
            }
            i = i + 1;
        }
        false
    }
}


impl<T: Wire> SyncModel<T> {
    /// The records after `SetPeer(info)`: the peer with `info`'s key is
    /// replaced by `info`, or `info` is added at the end.
    pub open spec fn set_peer(self, info: PeerInfo) -> SyncModel<T> {
        SyncModel {
            peers: match first_index(self.peers, key_is(info.peer.pubkey@)) {
                Some(i) => self.peers.update(i, info),
                None => self.peers.push(info),
            },
            ..self
        }
    }

    /// The records after `UnsetPeer(pk)`: the peer with key `pk` is gone.
    pub open spec fn unset_peer(self, pk: Seq<u8>) -> SyncModel<T> {
        SyncModel {
            peers: match first_index(self.peers, key_is(pk)) {
                Some(i) => self.peers.remove(i),
                None => self.peers,
            },
            ..self
        }
    }

    /// The records after `SetPendingPeer(pp)`: `pp` is added at the end,
    /// unless a pending peer with its connection is already there.
    pub open spec fn set_pending_peer(self, pp: PendingPeer) -> SyncModel<T> {
        match first_index(self.pending_peer_init, conn_is(pp.connection_info)) {
            Some(_) => self,
            None => SyncModel { pending_peer_init: self.pending_peer_init.push(pp), ..self },
        }
    }

    /// The records after `UnsetPendingPeer(c)`: the pending peer with
    /// connection `c` is gone.
    pub open spec fn unset_pending_peer(self, c: ConnectionInfo) -> SyncModel<T> {
        match first_index(self.pending_peer_init, conn_is(c)) {
            Some(i) => SyncModel { pending_peer_init: self.pending_peer_init.remove(i), ..self },
            None => self,
        }
    }

    /// The records after `SetSubscription(topic, info)`: `info` is added to
    /// the subscribers of `topic` unless the same peer is already one of
    /// them; a topic without an entry gets one.
    pub open spec fn set_subscription(self, topic: T, info: PeerInfo) -> SyncModel<T> {
        match first_index(self.subscriptions, topic_is::<T>(topic.wire())) {
            Some(i) => {
                let e = self.subscriptions[i];
                match first_index(e.1, peer_is(peer_view(info.peer))) {
                    Some(_) => self,
                    None => SyncModel {
                        subscriptions: self.subscriptions.update(i, (e.0, e.1.push(info))),
                        ..self
                    },
                }
            },
            None => SyncModel {
                subscriptions: self.subscriptions.push((topic, seq![info])),
                ..self
            },
        }
    }

    /// The records after `UnsetSubscription(topic, info)`: the peer of
    /// `info` is no longer a subscriber of `topic`, and an entry left
    /// without subscribers is removed.
    pub open spec fn unset_subscription(self, topic: T, info: PeerInfo) -> SyncModel<T> {
        match first_index(self.subscriptions, topic_is::<T>(topic.wire())) {
            Some(i) => {
                let e = self.subscriptions[i];
                let rest = match first_index(e.1, peer_is(peer_view(info.peer))) {
                    Some(j) => e.1.remove(j),
                    None => e.1,
                };
                if rest.len() == 0 {
                    SyncModel { subscriptions: self.subscriptions.remove(i), ..self }
                } else {
                    SyncModel { subscriptions: self.subscriptions.update(i, (e.0, rest)), ..self }
                }
            },
            None => self,
        }
    }

    /// The records after one action.
    pub open spec fn step(self, action: SyncAction<T>) -> SyncModel<T> {
        match action {
            SyncAction::SetPeer(info) => self.set_peer(info),
            SyncAction::UnsetPeer(pk) => self.unset_peer(pk@),
            SyncAction::SetPendingPeer(pp) => self.set_pending_peer(pp),
            SyncAction::UnsetPendingPeer(c) => self.unset_pending_peer(c),
            SyncAction::SetSubscription(topic, info) => self.set_subscription(topic, info),
            SyncAction::UnsetSubscription(topic, info) => self.unset_subscription(topic, info),
        }
    }

    /// The records after a list of actions, applied in order.
    pub open spec fn apply_all(self, actions: Seq<SyncAction<T>>) -> SyncModel<T>
        decreases actions.len(),
    {
        if actions.len() == 0 {
            self
        } else {
            self.apply_all(actions.drop_last()).step(actions.last())
        }
    }
}

impl<T: Wire> Sync<T> {
    /// Apply one action to this object.
    fn apply_sync_action(&mut self, action: SyncAction<T>)
        ensures
            final(self)@ == old(self)@.step(action),
    {
        let ghost m = self@;
        match action {
            SyncAction::SetPeer(peer_info) => {
                match self.find_peer_index(&peer_info.peer.pubkey) {
                    Some(i) => {
                        proof {
                            lemma_first_index(m.peers, key_is(peer_info.peer.pubkey@));
                        }
                        self.peers.set(i, peer_info);
                    },
                    None => {
                        self.peers.push(peer_info);
                    },
                }
                assert(self@.peers =~= m.step(action).peers);
                assert(self.subscriptions@ == old(self).subscriptions@);
                assert(self@.subscriptions =~= m.subscriptions);
            },
            SyncAction::UnsetPeer(pubkey) => {
                match self.find_peer_index(&pubkey) {
                    Some(i) => {
                        proof {
                            lemma_first_index(m.peers, key_is(pubkey@));
                        }
                        self.peers.remove(i);
                    },
                    None => {},
                }
                assert(self@.peers =~= m.step(action).peers);
                assert(self@.subscriptions =~= m.subscriptions);
            },
            SyncAction::SetPendingPeer(pending_peer) => {
                match self.find_pending_index(&pending_peer.connection_info) {
                    Some(_) => {},
                    None => {
                        self.pending_peer_init.push(pending_peer);
                    },
                }
                assert(self@.pending_peer_init =~= m.step(action).pending_peer_init);
                assert(self@.subscriptions =~= m.subscriptions);
            },
            SyncAction::UnsetPendingPeer(connection_info) => {
                match self.find_pending_index(&connection_info) {
                    Some(i) => {
                        proof {
                            lemma_first_index(m.pending_peer_init, conn_is(connection_info));
                        }
                        self.pending_peer_init.remove(i);
                    },
                    None => {},
                }
                assert(self@.pending_peer_init =~= m.step(action).pending_peer_init);
                assert(self@.subscriptions =~= m.subscriptions);
            },
            SyncAction::SetSubscription(topic, peer_info) => {
                proof {
                    lemma_first_index(m.subscriptions, topic_is::<T>(topic.wire()));
                }
                match self.find_topic_index(&topic) {
                    Some(i) => {
                        let ghost e = m.subscriptions[i as int];
                        match find_subscriber_index(&self.subscriptions[i].1, &peer_info.peer) {
                            Some(_) => {},
                            None => {
                                let mut entry = self.subscriptions.remove(i);
                                entry.1.push(peer_info);
                                self.subscriptions.insert(i, entry);
                                assert(self@.subscriptions =~= m.subscriptions.update(
                                    i as int,
                                    (e.0, e.1.push(peer_info)),
                                ));
                            },
                        }
                    },
                    None => {
                        let mut subs: Vec<PeerInfo> = Vec::new();
                        subs.push(peer_info);
                        self.subscriptions.push((topic, subs));
                        assert(subs@ =~= seq![peer_info]);
                        assert(self@.subscriptions =~= m.subscriptions.push((topic, seq![peer_info])));
                    },
                }
            },
            SyncAction::UnsetSubscription(topic, peer_info) => {
                proof {
                    lemma_first_index(m.subscriptions, topic_is::<T>(topic.wire()));
                }
                match self.find_topic_index(&topic) {
                    Some(i) => {
                        let ghost e = m.subscriptions[i as int];
                        let mut entry = self.subscriptions.remove(i);
                        assert(entry.1@ == e.1);
                        proof {
                            lemma_first_index(e.1, peer_is(peer_view(peer_info.peer)));
                        }
                        match find_subscriber_index(&entry.1, &peer_info.peer) {
                            Some(j) => {
                                entry.1.remove(j);
                            },
                            None => {},
                        }
                        if entry.1.len() == 0 {
                            assert(self@.subscriptions =~= m.subscriptions.remove(i as int));
                        } else {
                            let ghost rest = entry.1@;
                            self.subscriptions.insert(i, entry);
                            assert(self@.subscriptions =~= m.subscriptions.update(
                                i as int,
                                (e.0, rest),
                            ));
                        }
                    },
                    None => {},
                }
            },
        }
    }

    /// Take a set of [SyncAction]s and apply them to this `Sync` object, in
    /// order. The records' invariant is kept.
    pub fn apply_sync_actions(&mut self, actions: Vec<SyncAction<T>>)
        ensures
            final(self)@ == old(self)@.apply_all(actions@),
            old(self)@.wf() ==> final(self)@.wf(),
    {
        let ghost start = self@;
        let ghost all = actions@;
        let mut actions = actions;
        let mut done: usize = 0;
        let total: usize = actions.len();
        while actions.len() > 0
            invariant
                done + actions@.len() == total,
                total == all.len(),
                actions@ == all.skip(done as int),
                self@ == start.apply_all(all.take(done as int)),
                start.wf() ==> self@.wf(),
            decreases actions@.len(),
        {
            let action = actions.remove(0);
            proof {
                assert(action == all[done as int]);
                assert(all.take(done + 1).drop_last() =~= all.take(done as int));
                assert(all.take(done + 1).last() == action);
                if start.wf() {
                    law_step_keeps_wf(self@, action);
                }
            }
            self.apply_sync_action(action);
            done = done + 1;
            assert(actions@ =~= all.skip(done as int));
        }
        assert(all.take(done as int) =~= all);
    }
}


/// Removing an element of a sequence shifts the later ones down.
proof fn lemma_remove_index<A>(s: Seq<A>, i: int)
    requires
        0 <= i < s.len(),
    ensures
        s.remove(i).len() == s.len() - 1,
        forall|k: int| 0 <= k < i ==> #[trigger] s.remove(i)[k] == s[k],
        forall|k: int| i <= k < s.len() - 1 ==> #[trigger] s.remove(i)[k] == s[k + 1],
{
}

/// A list of distinct subscribers stays so when one is removed, unless it
/// becomes empty.
proof fn lemma_distinct_remove(subs: Seq<PeerInfo>, j: int)
    requires
        distinct_subscribers(subs),
        0 <= j < subs.len(),
        subs.len() > 1,
    ensures
        distinct_subscribers(subs.remove(j)),
{
    lemma_remove_index(subs, j);
    let r = subs.remove(j);
    assert forall|a: int, b: int| 0 <= a < b < r.len() implies peer_view(#[trigger] r[a].peer)
        != peer_view(#[trigger] r[b].peer) by {
        let a0 = if a < j {
            a
        } else {
            a + 1
        };
        let b0 = if b < j {
            b
        } else {
            b + 1
        };
        assert(r[a] == subs[a0]);
        assert(r[b] == subs[b0]);
    }
}

/// Every action keeps the records' invariant: one peer per key, one pending
/// peer per connection, one entry per topic, each with a non-empty list of
/// distinct subscribers.
pub proof fn law_step_keeps_wf<T: Wire>(m: SyncModel<T>, action: SyncAction<T>)
    requires
        m.wf(),
    ensures
        m.step(action).wf(),
{
    let r = m.step(action);
    match action {
        SyncAction::SetPeer(info) => {
            lemma_first_index(m.peers, key_is(info.peer.pubkey@));
            assert forall|i: int, j: int| 0 <= i < j < r.peers.len() implies #[trigger] r.peers[i].peer.pubkey@
                != #[trigger] r.peers[j].peer.pubkey@ by {
                if j == m.peers.len() {
                    assert(!key_is(info.peer.pubkey@)(m.peers[i]));
                }
            }
            assert(r.subscriptions == m.subscriptions);
        },
        SyncAction::UnsetPeer(pk) => {
            lemma_first_index(m.peers, key_is(pk@));
            if let Some(k) = first_index(m.peers, key_is(pk@)) {
                lemma_remove_index(m.peers, k);
                assert forall|i: int, j: int| 0 <= i < j < r.peers.len() implies #[trigger] r.peers[i].peer.pubkey@
                    != #[trigger] r.peers[j].peer.pubkey@ by {
                    let i0 = if i < k {
                        i
                    } else {
                        i + 1
                    };
                    let j0 = if j < k {
                        j
                    } else {
                        j + 1
                    };
                    assert(r.peers[i] == m.peers[i0]);
                    assert(r.peers[j] == m.peers[j0]);
                }
            }
        },
        SyncAction::SetPendingPeer(pp) => {
            lemma_first_index(m.pending_peer_init, conn_is(pp.connection_info));
            assert forall|i: int, j: int|
                0 <= i < j < r.pending_peer_init.len() implies #[trigger] r.pending_peer_init[i].connection_info
                != #[trigger] r.pending_peer_init[j].connection_info by {
                if j == m.pending_peer_init.len() {
                    assert(!conn_is(pp.connection_info)(m.pending_peer_init[i]));
                }
            }
        },
        SyncAction::UnsetPendingPeer(c) => {
            lemma_first_index(m.pending_peer_init, conn_is(c));
            if let Some(k) = first_index(m.pending_peer_init, conn_is(c)) {
                lemma_remove_index(m.pending_peer_init, k);
                assert forall|i: int, j: int|
                    0 <= i < j < r.pending_peer_init.len() implies #[trigger] r.pending_peer_init[i].connection_info
                    != #[trigger] r.pending_peer_init[j].connection_info by {
                    let i0 = if i < k {
                        i
                    } else {
                        i + 1
                    };
                    let j0 = if j < k {
                        j
                    } else {
                        j + 1
                    };
                    assert(r.pending_peer_init[i] == m.pending_peer_init[i0]);
                    assert(r.pending_peer_init[j] == m.pending_peer_init[j0]);
                }
            }
        },
        SyncAction::SetSubscription(topic, info) => {
            lemma_first_index(m.subscriptions, topic_is::<T>(topic.wire()));
            match first_index(m.subscriptions, topic_is::<T>(topic.wire())) {
                Some(k) => {
                    let e = m.subscriptions[k];
                    lemma_first_index(e.1, peer_is(peer_view(info.peer)));
                    if first_index(e.1, peer_is(peer_view(info.peer))) is None {
                        let l = e.1.push(info);
                        assert(distinct_subscribers(m.subscriptions[k].1));
                        assert forall|a: int, b: int| 0 <= a < b < l.len() implies peer_view(
                            #[trigger] l[a].peer,
                        ) != peer_view(#[trigger] l[b].peer) by {
                            if b == e.1.len() {
                                assert(!peer_is(peer_view(info.peer))(e.1[a]));
                            } else {
                                assert(l[a] == e.1[a]);
                                assert(l[b] == e.1[b]);
                            }
                        }
                        assert forall|i: int| 0 <= i < r.subscriptions.len() implies #[trigger] distinct_subscribers(
                            r.subscriptions[i].1,
                        ) by {
                            if i != k {
                                assert(r.subscriptions[i] == m.subscriptions[i]);
                            }
                        }
                        assert forall|i: int, j: int|
                            0 <= i < j < r.subscriptions.len() implies #[trigger] r.subscriptions[i].0.wire()
                            != #[trigger] r.subscriptions[j].0.wire() by {
                            assert(r.subscriptions[i].0 == m.subscriptions[i].0);
                            assert(r.subscriptions[j].0 == m.subscriptions[j].0);
                        }
                    }
                },
                None => {
                    assert(distinct_subscribers(seq![info]));
                    assert forall|i: int| 0 <= i < r.subscriptions.len() implies #[trigger] distinct_subscribers(
                        r.subscriptions[i].1,
                    ) by {
                        if i < m.subscriptions.len() {
                            assert(r.subscriptions[i] == m.subscriptions[i]);
                        }
                    }
                    assert forall|i: int, j: int|
                        0 <= i < j < r.subscriptions.len() implies #[trigger] r.subscriptions[i].0.wire()
                        != #[trigger] r.subscriptions[j].0.wire() by {
                        if j == m.subscriptions.len() {
                            assert(!topic_is::<T>(topic.wire())(m.subscriptions[i]));
                        }
                    }
                },
            }
        },
        SyncAction::UnsetSubscription(topic, info) => {
            lemma_wf_unset_subscription(m, topic, info);
        },
    }
}

/// `UnsetSubscription` keeps the records' invariant.
proof fn lemma_wf_unset_subscription<T: Wire>(m: SyncModel<T>, topic: T, info: PeerInfo)
    requires
        m.wf(),
    ensures
        m.unset_subscription(topic, info).wf(),
{
    let r = m.unset_subscription(topic, info);
    lemma_first_index(m.subscriptions, topic_is::<T>(topic.wire()));
    if let Some(k) = first_index(m.subscriptions, topic_is::<T>(topic.wire())) {
        let e = m.subscriptions[k];
        assert(distinct_subscribers(m.subscriptions[k].1));
        lemma_first_index(e.1, peer_is(peer_view(info.peer)));
        let rest = match first_index(e.1, peer_is(peer_view(info.peer))) {
            Some(j) => e.1.remove(j),
            None => e.1,
        };
        if rest.len() == 0 {
            lemma_remove_index(m.subscriptions, k);
            assert forall|i: int| 0 <= i < r.subscriptions.len() implies #[trigger] distinct_subscribers(
                r.subscriptions[i].1,
            ) by {
                let i0 = if i < k {
                    i
                } else {
                    i + 1
                };
                assert(r.subscriptions[i] == m.subscriptions[i0]);
                assert(distinct_subscribers(m.subscriptions[i0].1));
            }
            assert forall|i: int, j: int|
                0 <= i < j < r.subscriptions.len() implies #[trigger] r.subscriptions[i].0.wire()
                != #[trigger] r.subscriptions[j].0.wire() by {
                let i0 = if i < k {
                    i
                } else {
                    i + 1
                };
                let j0 = if j < k {
                    j
                } else {
                    j + 1
                };
                assert(r.subscriptions[i] == m.subscriptions[i0]);
                assert(r.subscriptions[j] == m.subscriptions[j0]);
            }
        } else {
            if let Some(j) = first_index(e.1, peer_is(peer_view(info.peer))) {
                lemma_distinct_remove(e.1, j);
            }
            assert forall|i: int| 0 <= i < r.subscriptions.len() implies #[trigger] distinct_subscribers(
                r.subscriptions[i].1,
            ) by {
                if i != k {
                    assert(r.subscriptions[i] == m.subscriptions[i]);
                }
            }
            assert forall|i: int, j: int|
                0 <= i < j < r.subscriptions.len() implies #[trigger] r.subscriptions[i].0.wire()
                != #[trigger] r.subscriptions[j].0.wire() by {
                assert(r.subscriptions[i].0 == m.subscriptions[i].0);
                assert(r.subscriptions[j].0 == m.subscriptions[j].0);
            }
        }
    }
}

/// After `SetPeer(info)`, looking up `info`'s key finds `info`, and looking
/// up any other key finds what it found before.
pub proof fn law_set_peer_then_find<T: Wire>(m: SyncModel<T>, info: PeerInfo, pk: Seq<u8>, active: Option<bool>)
    requires
        m.wf(),
    ensures
        m.set_peer(info).find_peer(info.peer.pubkey@, None) == Some(info),
        pk != info.peer.pubkey@ ==> m.set_peer(info).find_peer(pk, active) == m.find_peer(pk, active),
{
    let key = info.peer.pubkey@;
    let r = m.set_peer(info);
    lemma_first_index(m.peers, key_is(key));
    lemma_first_index(m.peers, key_is(pk));
    match first_index(m.peers, key_is(key)) {
        Some(i) => {
            lemma_first_index_at(r.peers, key_is(key), i);
        },
        None => {
            lemma_first_index_at(r.peers, key_is(key), m.peers.len() as int);
        },
    }
    if pk != key {
        match first_index(m.peers, key_is(pk)) {
            Some(j) => {
                assert(r.peers[j] == m.peers[j]);
                lemma_first_index_at(r.peers, key_is(pk), j);
            },
            None => {
                lemma_first_index_none(r.peers, key_is(pk));
            },
        }
    }
}

/// After `UnsetPeer(pk)`, no peer has the key `pk`, and looking up any other
/// key finds what it found before.
pub proof fn law_unset_peer_then_find<T: Wire>(m: SyncModel<T>, pk: Seq<u8>, other: Seq<u8>, active: Option<bool>)
    requires
        m.wf(),
    ensures
        m.unset_peer(pk).find_peer(pk, active) is None,
        other != pk ==> m.unset_peer(pk).find_peer(other, active) == m.find_peer(other, active),
{
    let r = m.unset_peer(pk);
    lemma_first_index(m.peers, key_is(pk));
    lemma_first_index(m.peers, key_is(other));
    match first_index(m.peers, key_is(pk)) {
        Some(k) => {
            lemma_remove_index(m.peers, k);
            assert forall|j: int| 0 <= j < r.peers.len() implies !key_is(pk)(#[trigger] r.peers[j]) by {
                let j0 = if j < k {
                    j
                } else {
                    j + 1
                };
                assert(r.peers[j] == m.peers[j0]);
            }
            lemma_first_index_none(r.peers, key_is(pk));
            if other != pk {
                match first_index(m.peers, key_is(other)) {
                    Some(j) => {
                        let j1 = if j < k {
                            j
                        } else {
                            j - 1
                        };
                        assert(r.peers[j1] == m.peers[j]);
                        assert forall|l: int| 0 <= l < j1 implies !key_is(other)(#[trigger] r.peers[l]) by {
                            let l0 = if l < k {
                                l
                            } else {
                                l + 1
                            };
                            assert(r.peers[l] == m.peers[l0]);
                        }
                        lemma_first_index_at(r.peers, key_is(other), j1);
                    },
                    None => {
                        assert forall|l: int| 0 <= l < r.peers.len() implies !key_is(other)(
                            #[trigger] r.peers[l],
                        ) by {
                            let l0 = if l < k {
                                l
                            } else {
                                l + 1
                            };
                            assert(r.peers[l] == m.peers[l0]);
                        }
                        lemma_first_index_none(r.peers, key_is(other));
                    },
                }
            }
        },
        None => {},
    }
}

/// Adding the same pending peer twice is the same as adding it once.
pub proof fn law_set_pending_peer_idempotent<T: Wire>(m: SyncModel<T>, pp: PendingPeer)
    ensures
        m.set_pending_peer(pp).set_pending_peer(pp) == m.set_pending_peer(pp),
        m.set_pending_peer(pp).find_pending_peer_init(pp.connection_info) is Some,
{
    let r = m.set_pending_peer(pp);
    lemma_first_index(m.pending_peer_init, conn_is(pp.connection_info));
    if first_index(m.pending_peer_init, conn_is(pp.connection_info)) is None {
        assert(conn_is(pp.connection_info)(r.pending_peer_init[m.pending_peer_init.len() as int]));
    }
    lemma_first_index(r.pending_peer_init, conn_is(pp.connection_info));
    if first_index(r.pending_peer_init, conn_is(pp.connection_info)) is None {
        let k = if first_index(m.pending_peer_init, conn_is(pp.connection_info)) is Some {
            first_index(m.pending_peer_init, conn_is(pp.connection_info))->0
        } else {
            m.pending_peer_init.len() as int
        };
        assert(conn_is(pp.connection_info)(r.pending_peer_init[k]));
    }
}

/// After `UnsetPendingPeer(c)`, no pending peer has the connection `c`.
pub proof fn law_unset_pending_peer_then_find<T: Wire>(m: SyncModel<T>, c: ConnectionInfo)
    requires
        m.wf(),
    ensures
        m.unset_pending_peer(c).find_pending_peer_init(c) is None,
{
    let r = m.unset_pending_peer(c);
    lemma_first_index(m.pending_peer_init, conn_is(c));
    if let Some(k) = first_index(m.pending_peer_init, conn_is(c)) {
        lemma_remove_index(m.pending_peer_init, k);
        assert forall|j: int| 0 <= j < r.pending_peer_init.len() implies !conn_is(c)(
            #[trigger] r.pending_peer_init[j],
        ) by {
            let j0 = if j < k {
                j
            } else {
                j + 1
            };
            assert(r.pending_peer_init[j] == m.pending_peer_init[j0]);
        }
    }
    lemma_first_index_none(r.pending_peer_init, conn_is(c));
}

/// After `SetSubscription(topic, info)`, the peer of `info` is subscribed to
/// `topic`.
pub proof fn law_set_subscription_subscribes<T: Wire>(m: SyncModel<T>, topic: T, info: PeerInfo)
    ensures
        m.set_subscription(topic, info).is_subscribed(topic.wire(), peer_view(info.peer)),
{
    let w = topic.wire();
    let v = peer_view(info.peer);
    let r = m.set_subscription(topic, info);
    lemma_first_index(m.subscriptions, topic_is::<T>(w));
    match first_index(m.subscriptions, topic_is::<T>(w)) {
        Some(k) => {
            let e = m.subscriptions[k];
            lemma_first_index(e.1, peer_is(v));
            lemma_first_index_at(r.subscriptions, topic_is::<T>(w), k);
            if first_index(e.1, peer_is(v)) is None {
                let l = e.1.push(info);
                lemma_first_index(l, peer_is(v));
                if first_index(l, peer_is(v)) is None {
                    assert(peer_is(v)(l[e.1.len() as int]));
                }
            }
        },
        None => {
            lemma_first_index_at(r.subscriptions, topic_is::<T>(w), m.subscriptions.len() as int);
            assert(r.subscriptions[m.subscriptions.len() as int].1 == seq![info]);
            lemma_first_index_at(seq![info], peer_is(v), 0);
        },
    }
}

/// After `UnsetSubscription(topic, info)`, the peer of `info` is no longer
/// subscribed to `topic`.
pub proof fn law_unset_subscription_unsubscribes<T: Wire>(m: SyncModel<T>, topic: T, info: PeerInfo)
    requires
        m.wf(),
    ensures
        !m.unset_subscription(topic, info).is_subscribed(topic.wire(), peer_view(info.peer)),
{
    let w = topic.wire();
    let v = peer_view(info.peer);
    let r = m.unset_subscription(topic, info);
    lemma_first_index(m.subscriptions, topic_is::<T>(w));
    if let Some(k) = first_index(m.subscriptions, topic_is::<T>(w)) {
        let e = m.subscriptions[k];
        assert(distinct_subscribers(m.subscriptions[k].1));
        lemma_first_index(e.1, peer_is(v));
        let rest = match first_index(e.1, peer_is(v)) {
            Some(j) => e.1.remove(j),
            None => e.1,
        };
        assert forall|a: int| 0 <= a < rest.len() implies !peer_is(v)(#[trigger] rest[a]) by {
            if let Some(j) = first_index(e.1, peer_is(v)) {
                lemma_remove_index(e.1, j);
                let a0 = if a < j {
                    a
                } else {
                    a + 1
                };
                assert(rest[a] == e.1[a0]);
                assert(peer_view(e.1[a0].peer) != peer_view(e.1[j].peer));
            }
        }
        if rest.len() == 0 {
            lemma_remove_index(m.subscriptions, k);
            assert forall|i: int| 0 <= i < r.subscriptions.len() implies !topic_is::<T>(w)(
                #[trigger] r.subscriptions[i],
            ) by {
                let i0 = if i < k {
                    i
                } else {
                    i + 1
                };
                assert(r.subscriptions[i] == m.subscriptions[i0]);
                assert(m.subscriptions[i0].0.wire() != m.subscriptions[k].0.wire());
            }
            lemma_first_index_none(r.subscriptions, topic_is::<T>(w));
        } else {
            lemma_first_index_at(r.subscriptions, topic_is::<T>(w), k);
            lemma_first_index_none(rest, peer_is(v));
        }
    }
}

/// Subscribing a peer that was not subscribed to a topic, then
/// unsubscribing it from that topic, gives back the records as they were.
pub proof fn law_subscribe_then_unsubscribe<T: Wire>(
    m: SyncModel<T>,
    topic: T,
    info: PeerInfo,
    topic2: T,
    info2: PeerInfo,
)
    requires
        m.wf(),
        !m.is_subscribed(topic.wire(), peer_view(info.peer)),
        topic2.wire() == topic.wire(),
        peer_view(info2.peer) == peer_view(info.peer),
    ensures
        m.set_subscription(topic, info).unset_subscription(topic2, info2) == m,
{
    let w = topic.wire();
    let v = peer_view(info.peer);
    let r = m.set_subscription(topic, info);
    lemma_first_index(m.subscriptions, topic_is::<T>(w));
    match first_index(m.subscriptions, topic_is::<T>(w)) {
        Some(k) => {
            let e = m.subscriptions[k];
            lemma_first_index(e.1, peer_is(v));
            assert(first_index(e.1, peer_is(v)) is None);
            let l = e.1.push(info);
            lemma_first_index_at(r.subscriptions, topic_is::<T>(w), k);
            assert forall|a: int| 0 <= a < e.1.len() implies !peer_is(v)(#[trigger] l[a]) by {
                assert(l[a] == e.1[a]);
            }
            lemma_first_index_at(l, peer_is(v), e.1.len() as int);
            assert(l.remove(e.1.len() as int) =~= e.1);
            assert(distinct_subscribers(m.subscriptions[k].1));
            assert(r.subscriptions.update(k, (e.0, e.1)) =~= m.subscriptions);
        },
        None => {
            let n = m.subscriptions.len() as int;
            assert forall|i: int| 0 <= i < n implies !topic_is::<T>(w)(#[trigger] r.subscriptions[i]) by {
                assert(r.subscriptions[i] == m.subscriptions[i]);
            }
            lemma_first_index_at(r.subscriptions, topic_is::<T>(w), n);
            assert(r.subscriptions[n].1 == seq![info]);
            lemma_first_index_at(seq![info], peer_is(v), 0);
            assert(seq![info].remove(0).len() == 0);
            assert(r.subscriptions.remove(n) =~= m.subscriptions);
        },
    }
}

/// Setting the same peer record twice is the same as setting it once.
pub proof fn law_set_peer_idempotent<T: Wire>(m: SyncModel<T>, info: PeerInfo)
    ensures
        m.set_peer(info).set_peer(info) == m.set_peer(info),
{
    let key = info.peer.pubkey@;
    let r = m.set_peer(info);
    lemma_first_index(m.peers, key_is(key));
    match first_index(m.peers, key_is(key)) {
        Some(i) => {
            lemma_first_index_at(r.peers, key_is(key), i);
            assert(r.peers.update(i, info) =~= r.peers);
        },
        None => {
            lemma_first_index_at(r.peers, key_is(key), m.peers.len() as int);
            assert(r.peers.update(m.peers.len() as int, info) =~= r.peers);
        },
    }
}

/// Subscribing the same peer to the same topic twice is the same as doing
/// it once: a peer is listed at most once per topic.
pub proof fn law_set_subscription_idempotent<T: Wire>(m: SyncModel<T>, topic: T, info: PeerInfo)
    ensures
        m.set_subscription(topic, info).set_subscription(topic, info) == m.set_subscription(
            topic,
            info,
        ),
{
    let w = topic.wire();
    let v = peer_view(info.peer);
    let r = m.set_subscription(topic, info);
    lemma_first_index(m.subscriptions, topic_is::<T>(w));
    match first_index(m.subscriptions, topic_is::<T>(w)) {
        Some(k) => {
            let e = m.subscriptions[k];
            lemma_first_index(e.1, peer_is(v));
            lemma_first_index_at(r.subscriptions, topic_is::<T>(w), k);
            match first_index(e.1, peer_is(v)) {
                Some(_) => {},
                None => {
                    let l = e.1.push(info);
                    lemma_first_index(l, peer_is(v));
                    if first_index(l, peer_is(v)) is None {
                        assert(peer_is(v)(l[e.1.len() as int]));
                    }
                },
            }
        },
        None => {
            lemma_first_index_at(r.subscriptions, topic_is::<T>(w), m.subscriptions.len() as int);
            assert(r.subscriptions[m.subscriptions.len() as int].1 == seq![info]);
            lemma_first_index_at(seq![info], peer_is(v), 0);
        },
    }
}

/// A peer whose record is confirmed (as `peer_confirm` and
/// `process_event_peer_confirm` hand it back) is found as an active peer
/// once the record is set.
pub proof fn law_confirmed_peer_is_active<T: Wire>(
    m: SyncModel<T>,
    info: PeerInfo,
    p: PeerInfo,
    name: Seq<char>,
    now: Timestamp,
)
    requires
        m.wf(),
        confirmed(p, info, name, now),
    ensures
        m.set_peer(p).find_peer(info.peer.pubkey@, Some(true)) == Some(p),
{
    law_set_peer_then_find(m, p, p.peer.pubkey@, None);
    assert(p.peer.pubkey@ == info.peer.pubkey@);
}

/// Looking a key up finds the record with that key, active or not, and
/// finds it as active (or inactive) exactly when its flag says so.
pub proof fn law_find_peer_finds_any_record<T: Wire>(m: SyncModel<T>, i: int, active: bool)
    requires
        m.wf(),
        0 <= i < m.peers.len(),
    ensures
        m.find_peer(m.peers[i].peer.pubkey@, None) == Some(m.peers[i]),
        m.find_peer(m.peers[i].peer.pubkey@, Some(active)) is Some <==> m.peers[i].active
            == active,
{
    let pk = m.peers[i].peer.pubkey@;
    lemma_first_index(m.peers, key_is(pk));
    if let Some(j) = first_index(m.peers, key_is(pk)) {
        if j < i {
            assert(m.peers[j].peer.pubkey@ != m.peers[i].peer.pubkey@);
        }
    }
    assert(key_is(pk)(m.peers[i]));
}

/// A message is answered to a query when any entry of its topic graph, at
/// whatever position, has a topic the peer is subscribed to, and only then.
pub proof fn law_message_for_peer_any_topic<T: Wire, U, S>(
    m: SyncModel<T>,
    v: (Seq<char>, Seq<u8>, Seq<u8>),
    msg: Message<U, T, S>,
    k: int,
)
    ensures
        0 <= k < msg.topic_graph@.len() && m.is_subscribed(msg.topic_graph@[k].topic.wire(), v)
            ==> m.message_for_peer(v, msg),
        m.message_for_peer(v, msg) ==> exists|j: int|
            0 <= j < msg.topic_graph@.len() && #[trigger] m.is_subscribed(
                msg.topic_graph@[j].topic.wire(),
                v,
            ),
{
}

/// Unwrapping a message from a sender we hold a record for, active or not,
/// opens it with the key kept in that record and hands it back as it
/// opened, whatever its event. From a sender we hold no record for, it is
/// opened with a key computed afresh, and only a `Hello` or a `PeerInit`
/// is handed back: any other event is refused with `PeerNotFound`.
pub proof fn law_unwrap_screens_strangers_only<T: Wire, U, S>(
    m: SyncModel<T>,
    pk: PeerPubkey,
    opened: Result<Message<U, T, S>>,
    i: int,
)
    requires
        m.wf(),
    ensures
        0 <= i < m.peers.len() && m.peers[i].peer.pubkey == pk ==> m.screen(pk, opened) == opened
            && m.key_for(pk) == m.peers[i].peer.precomputed@,
        (forall|j: int| 0 <= j < m.peers.len() ==> #[trigger] m.peers[j].peer.pubkey@ != pk@) ==> {
            &&& m.key_for(pk) == spec_precompute(pk@, m.keypair.seckey@)
            &&& opened matches Ok(msg) ==> m.screen(pk, opened) == if msg.body is Hello
                || msg.body is PeerInit {
                opened
            } else {
                Err(Error::PeerNotFound(pk))
            }
        },
        opened is Err ==> m.screen(pk, opened) == opened,
{
    if 0 <= i < m.peers.len() && m.peers[i].peer.pubkey == pk {
        law_find_peer_finds_any_record(m, i, true);
    }
    lemma_first_index(m.peers, key_is(pk@));
    if forall|j: int| 0 <= j < m.peers.len() ==> #[trigger] m.peers[j].peer.pubkey@ != pk@ {
        if let Some(j) = first_index(m.peers, key_is(pk@)) {
            assert(m.peers[j].peer.pubkey@ != pk@);
        }
    }
}

/// An `Init` or a `Hello` from a sender we already hold a record for leaves
/// that record as it was; from a sender we hold none for, it records the new
/// peer.
pub proof fn law_welcome_keeps_known_records<T: Wire>(m: SyncModel<T>, info: PeerInfo, old_info: PeerInfo)
    requires
        m.wf(),
    ensures
        m.find_peer(info.peer.pubkey@, None) == Some(old_info) ==> welcome(m, info) == m
            && welcome(m, info).find_peer(info.peer.pubkey@, None) == Some(old_info),
        m.find_peer(info.peer.pubkey@, None) is None ==> welcome(m, info).find_peer(
            info.peer.pubkey@,
            None,
        ) == Some(info),
{
    law_set_peer_then_find(m, info, info.peer.pubkey@, None);
}

/// Each message that maintenance sends to a peer it keeps is a `Ping`
/// (the body byte 3) with no topic graph, stamped `now`, sent to the peer's
/// connection and opening with the key kept for the peer.
pub proof fn law_tick_sends_pings<U: Wire, T: Wire, S: Wire>(
    a: Action<U, T, S>,
    p: PeerInfo,
    keypair: Keypair,
    now: Timestamp,
)
    requires
        realizes(a, TickStep::Ping(p), keypair, now),
    ensures
        a matches Action::MessageSend(c, MessageWrapped::Sealed(s)) && c == p.connection_info
            && s.pubkey_sender@ == keypair.pubkey@ && spec_open(
            s.sealed_body@,
            s.nonce@,
            p.peer.precomputed@,
        ) == Some(plain_message_wire(now, s.nonce, u64_wire(0), seq![3u8])),
{
    assert(Event::<U, T, S>::Ping.wire() =~= seq![3u8]);
}

/// Every action is idempotent: applying it twice gives the records that
/// applying it once gives. A repeated `SetPeer` replaces the record with
/// itself, a repeated `SetPendingPeer` or `SetSubscription` adds nothing,
/// and a repeated `Unset...` finds nothing left to remove.
pub proof fn law_step_idempotent<T: Wire>(m: SyncModel<T>, action: SyncAction<T>)
    requires
        m.wf(),
    ensures
        m.step(action).step(action) == m.step(action),
{
    let r = m.step(action);
    law_step_keeps_wf(m, action);
    match action {
        SyncAction::SetPeer(info) => {
            law_set_peer_idempotent(m, info);
        },
        SyncAction::UnsetPeer(pk) => {
            law_unset_peer_then_find(m, pk@, pk@, None);
            lemma_first_index(r.peers, key_is(pk@));
        },
        SyncAction::SetPendingPeer(pp) => {
            law_set_pending_peer_idempotent(m, pp);
        },
        SyncAction::UnsetPendingPeer(c) => {
            law_unset_pending_peer_then_find(m, c);
            lemma_first_index(r.pending_peer_init, conn_is(c));
        },
        SyncAction::SetSubscription(topic, info) => {
            law_set_subscription_idempotent(m, topic, info);
        },
        SyncAction::UnsetSubscription(topic, info) => {
            let w = topic.wire();
            let v = peer_view(info.peer);
            law_unset_subscription_unsubscribes(m, topic, info);
            lemma_first_index(r.subscriptions, topic_is::<T>(w));
            if let Some(i) = first_index(r.subscriptions, topic_is::<T>(w)) {
                let e = r.subscriptions[i];
                lemma_first_index(e.1, peer_is(v));
                assert(distinct_subscribers(r.subscriptions[i].1));
                assert(r.subscriptions.update(i, (e.0, e.1)) =~= r.subscriptions);
            }
        },
    }
}

/// Setting the record of a peer we did not know, then removing the record
/// with its key, gives back the records as they were.
pub proof fn law_set_peer_then_unset<T: Wire>(m: SyncModel<T>, info: PeerInfo)
    requires
        m.find_peer(info.peer.pubkey@, None) is None,
    ensures
        m.set_peer(info).unset_peer(info.peer.pubkey@) == m,
{
    let key = info.peer.pubkey@;
    let r = m.set_peer(info);
    lemma_first_index(m.peers, key_is(key));
    assert(first_index(m.peers, key_is(key)) is None);
    assert forall|j: int| 0 <= j < m.peers.len() implies !key_is(key)(#[trigger] r.peers[j]) by {
        assert(r.peers[j] == m.peers[j]);
    }
    lemma_first_index_at(r.peers, key_is(key), m.peers.len() as int);
    assert(r.peers.remove(m.peers.len() as int) =~= m.peers);
}

/// Adding a pending peer at a connection we were not waiting on, then
/// removing the pending peer at that connection, gives back the records as
/// they were.
pub proof fn law_set_pending_peer_then_unset<T: Wire>(m: SyncModel<T>, pp: PendingPeer)
    requires
        m.find_pending_peer_init(pp.connection_info) is None,
    ensures
        m.set_pending_peer(pp).unset_pending_peer(pp.connection_info) == m,
{
    let c = pp.connection_info;
    let r = m.set_pending_peer(pp);
    lemma_first_index(m.pending_peer_init, conn_is(c));
    assert(first_index(m.pending_peer_init, conn_is(c)) is None);
    assert forall|j: int| 0 <= j < m.pending_peer_init.len() implies !conn_is(c)(
        #[trigger] r.pending_peer_init[j],
    ) by {
        assert(r.pending_peer_init[j] == m.pending_peer_init[j]);
    }
    lemma_first_index_at(r.pending_peer_init, conn_is(c), m.pending_peer_init.len() as int);
    assert(r.pending_peer_init.remove(m.pending_peer_init.len() as int) =~= m.pending_peer_init);
}


// ---------------------------------------------------------------------------
// What the event handlers hand back.

/// The plaintext of a message with the id (`now`, `nonce`), the topic graph
/// encoded as `topic_graph_wire`, and the body encoded as `body_wire`.
pub open spec fn plain_message_wire(
    now: Timestamp,
    nonce: Nonce,
    topic_graph_wire: Seq<u8>,
    body_wire: Seq<u8>,
) -> Seq<u8> {
    MessageID { timestamp: now, nonce }.wire() + topic_graph_wire + body_wire
}

/// The encoding of an empty topic graph.
pub open spec fn no_topic_graph() -> Seq<u8> {
    u64_wire(0)
}

/// Whether a message with the given topic graph and body is too large to be
/// sealed (its id always takes 36 bytes).
pub open spec fn too_large(topic_graph_wire: Seq<u8>, body_wire: Seq<u8>) -> bool {
    36 + topic_graph_wire.len() + body_wire.len() + MAC_BYTES > usize::MAX
}

/// `w` is a message sealed by `sender` for the holder of `key`, with the id
/// (`now`, its nonce) and the given topic graph and body; it opens with
/// `key` to exactly that message.
pub open spec fn sealed_to(
    w: MessageWrapped,
    sender: Seq<u8>,
    key: Seq<u8>,
    now: Timestamp,
    topic_graph_wire: Seq<u8>,
    body_wire: Seq<u8>,
) -> bool {
    &&& w matches MessageWrapped::Sealed(s)
    &&& s.pubkey_sender@ == sender
    &&& s.sealed_body@ == spec_seal(
        plain_message_wire(now, s.nonce, topic_graph_wire, body_wire),
        s.nonce@,
        key,
    )
    &&& spec_open(s.sealed_body@, s.nonce@, key) == Some(
        plain_message_wire(now, s.nonce, topic_graph_wire, body_wire),
    )
}

/// `a` sends to `conn` a message without topic graph whose body is encoded
/// as `body_wire`, sealed by `sender` for the holder of `key`, stamped `now`.
pub open spec fn sends_sealed<U, T, S>(
    a: Action<U, T, S>,
    conn: ConnectionInfo,
    sender: Seq<u8>,
    key: Seq<u8>,
    now: Timestamp,
    body_wire: Seq<u8>,
) -> bool {
    &&& a matches Action::MessageSend(c, w)
    &&& c == conn
    &&& sealed_to(w, sender, key, now, no_topic_graph(), body_wire)
}

/// An error result of an event handler.
pub open spec fn fail<U, T, S>(e: Error) -> Result<Vec<Action<U, T, S>>> {
    Err(e)
}

/// The record of a newly met peer with key `pk`: named `<tmp>`, not active,
/// last heard from `now`, at `conn`, with the key shared with our secret key.
pub open spec fn is_new_peer_info(
    info: PeerInfo,
    pk: PeerPubkey,
    our_seckey: Seq<u8>,
    conn: ConnectionInfo,
    now: Timestamp,
) -> bool {
    &&& info.peer.name@ == tmp_name()
    &&& info.peer.pubkey == pk
    &&& info.peer.precomputed@ == spec_precompute(pk@, our_seckey)
    &&& info.connection_info == conn
    &&& !info.active
    &&& info.last_ping == now
}

/// What the periodic maintenance does about one peer or pending peer.
pub enum TickStep {
    /// Ping the peer.
    Ping(PeerInfo),
    /// Forget the peer with this key.
    Forget(PeerPubkey),
    /// Forget the pending peer at this connection.
    Drop(ConnectionInfo),
}

/// The maintenance for one peer: nothing when it was heard from in the last
/// minute; forget it when it is not active and was not heard from for more
/// than three minutes; otherwise ping it.
pub open spec fn peer_tick(p: PeerInfo, now: Timestamp) -> Seq<TickStep> {
    let secs = now.spec_seconds_since(p.last_ping);
    if secs < 60 {
        seq![]
    } else if secs > 180 && !p.active {
        seq![TickStep::Forget(p.peer.pubkey)]
    } else {
        seq![TickStep::Ping(p)]
    }
}

/// The maintenance for one pending peer: forget it once it is two minutes
/// old.
pub open spec fn pending_tick(pp: PendingPeer, now: Timestamp) -> Seq<TickStep> {
    if now.spec_seconds_since(pp.created) < 120 {
        seq![]
    } else {
        seq![TickStep::Drop(pp.connection_info)]
    }
}

/// The maintenance for a list of peers, in order.
pub open spec fn peers_tick(peers: Seq<PeerInfo>, now: Timestamp) -> Seq<TickStep>
    decreases peers.len(),
{
    if peers.len() == 0 {
        seq![]
    } else {
        peers_tick(peers.drop_last(), now) + peer_tick(peers.last(), now)
    }
}

/// The maintenance for a list of pending peers, in order.
pub open spec fn pendings_tick(pending: Seq<PendingPeer>, now: Timestamp) -> Seq<TickStep>
    decreases pending.len(),
{
    if pending.len() == 0 {
        seq![]
    } else {
        pendings_tick(pending.drop_last(), now) + pending_tick(pending.last(), now)
    }
}

/// The whole seconds since a time do not decrease as `now` moves on.
proof fn lemma_seconds_since_monotonic(t: Timestamp, now1: Timestamp, now2: Timestamp)
    requires
        now2.spec_nanos_since(now1) >= 0,
    ensures
        now1.spec_seconds_since(t) <= now2.spec_seconds_since(t),
{
    let d1 = now1.spec_nanos_since(t);
    let d2 = now2.spec_nanos_since(t);
    assert(d2 - d1 == now2.spec_nanos_since(now1));
    if d1 >= 0 {
        lemma_div_is_ordered(d1, d2, 1_000_000_000);
    } else if d2 >= 0 {
        lemma_div_pos_is_pos(-d1, 1_000_000_000);
        lemma_div_pos_is_pos(d2, 1_000_000_000);
    } else {
        lemma_div_is_ordered(-d2, -d1, 1_000_000_000);
    }
}

/// The maintenance of a list of peers never has fewer steps at a later
/// time.
proof fn lemma_peers_tick_monotonic(peers: Seq<PeerInfo>, now1: Timestamp, now2: Timestamp)
    requires
        now2.spec_nanos_since(now1) >= 0,
    ensures
        peers_tick(peers, now1).len() <= peers_tick(peers, now2).len(),
    decreases peers.len(),
{
    if peers.len() > 0 {
        lemma_peers_tick_monotonic(peers.drop_last(), now1, now2);
        lemma_seconds_since_monotonic(peers.last().last_ping, now1, now2);
    }
}

/// The maintenance of a list of pending peers never has fewer steps at a
/// later time.
proof fn lemma_pendings_tick_monotonic(pending: Seq<PendingPeer>, now1: Timestamp, now2: Timestamp)
    requires
        now2.spec_nanos_since(now1) >= 0,
    ensures
        pendings_tick(pending, now1).len() <= pendings_tick(pending, now2).len(),
    decreases pending.len(),
{
    if pending.len() > 0 {
        lemma_pendings_tick_monotonic(pending.drop_last(), now1, now2);
        lemma_seconds_since_monotonic(pending.last().created, now1, now2);
    }
}

/// Maintenance at a later time never takes fewer actions: `tick` hands back
/// one action for each step of this plan.
pub proof fn law_tick_monotonic<T>(m: SyncModel<T>, now1: Timestamp, now2: Timestamp)
    requires
        now2.spec_nanos_since(now1) >= 0,
    ensures
        (peers_tick(m.peers, now1) + pendings_tick(m.pending_peer_init, now1)).len() <= (peers_tick(
            m.peers,
            now2,
        ) + pendings_tick(m.pending_peer_init, now2)).len(),
{
    lemma_peers_tick_monotonic(m.peers, now1, now2);
    lemma_pendings_tick_monotonic(m.pending_peer_init, now1, now2);
}

/// A peer that maintenance forgets is a peer whose record is not active and
/// that was not heard from for more than three minutes.
proof fn lemma_forgets_inactive(peers: Seq<PeerInfo>, now: Timestamp, k: int)
    requires
        0 <= k < peers_tick(peers, now).len(),
        peers_tick(peers, now)[k] is Forget,
    ensures
        exists|i: int|
            0 <= i < peers.len() && #[trigger] peers[i].peer.pubkey == peers_tick(peers, now)[k]->Forget_0
                && !peers[i].active && now.spec_seconds_since(peers[i].last_ping) > 180,
    decreases peers.len(),
{
    let init = peers.drop_last();
    let a = peers_tick(init, now);
    let b = peer_tick(peers.last(), now);
    assert(peers_tick(peers, now) == a + b);
    if k < a.len() {
        assert(peers_tick(peers, now)[k] == a[k]);
        lemma_forgets_inactive(init, now, k);
        let i = choose|i: int|
            0 <= i < init.len() && #[trigger] init[i].peer.pubkey == a[k]->Forget_0 && !init[i].active
                && now.spec_seconds_since(init[i].last_ping) > 180;
        assert(peers[i] == init[i]);
    } else {
        assert(peers_tick(peers, now)[k] == b[k - a.len()]);
        let n = peers.len() - 1;
        assert(peers[n] == peers.last());
    }
}

/// Maintenance never forgets an active peer: every `UnsetPeer` that `tick`
/// plans is for a peer whose record is not active and that was not heard
/// from for more than three minutes.
pub proof fn law_tick_forgets_only_inactive_peers<T: Wire>(m: SyncModel<T>, now: Timestamp, k: int)
    requires
        m.wf(),
        0 <= k < peers_tick(m.peers, now).len(),
        peers_tick(m.peers, now)[k] is Forget,
    ensures
        m.find_peer(peers_tick(m.peers, now)[k]->Forget_0@, Some(false)) matches Some(info)
            && now.spec_seconds_since(info.last_ping) > 180,
{
    let pk = peers_tick(m.peers, now)[k]->Forget_0;
    lemma_forgets_inactive(m.peers, now, k);
    let i = choose|i: int|
        0 <= i < m.peers.len() && #[trigger] m.peers[i].peer.pubkey == pk && !m.peers[i].active
            && now.spec_seconds_since(m.peers[i].last_ping) > 180;
    lemma_first_index(m.peers, key_is(pk@));
    assert(key_is(pk@)(m.peers[i]));
    if let Some(j) = first_index(m.peers, key_is(pk@)) {
        if j != i {
            if j < i {
                assert(m.peers[j].peer.pubkey@ != m.peers[i].peer.pubkey@);
            } else {
                assert(m.peers[i].peer.pubkey@ != m.peers[j].peer.pubkey@);
            }
        }
    }
}

/// `a` carries out the maintenance step `step` for a peer whose key pair is
/// `keypair`, at `now`.
pub open spec fn realizes<U: Wire, T: Wire, S: Wire>(
    a: Action<U, T, S>,
    step: TickStep,
    keypair: Keypair,
    now: Timestamp,
) -> bool {
    match step {
        TickStep::Ping(p) => sends_sealed(
            a,
            p.connection_info,
            keypair.pubkey@,
            p.peer.precomputed@,
            now,
            Event::<U, T, S>::Ping.wire(),
        ),
        TickStep::Forget(pk) => a == Action::<U, T, S>::Sync(SyncAction::UnsetPeer(pk)),
        TickStep::Drop(c) => a == Action::<U, T, S>::Sync(SyncAction::UnsetPendingPeer(c)),
    }
}


/// The encoding of an empty vector.
proof fn lemma_empty_vec_wire<X: Wire>(v: Vec<X>)
    requires
        v@.len() == 0,
    ensures
        v.wire() == no_topic_graph(),
{
    assert(wires(v@) =~= Seq::<u8>::empty());
    assert(v.wire() =~= no_topic_graph());
}

impl<T: Wire> Sync<T> {
    /// Helper for creating messages: seals a message with the id (`now`, a
    /// fresh random nonce), the given topic graph and body, for `to`.
    pub fn create_sealed_message<U: Wire, S: Wire>(
        &self,
        to: &Peer,
        body: Event<U, T, S>,
        topic_graph: Vec<TopicGraphEntry<T>>,
        now: &Timestamp,
    ) -> (r: Result<MessageWrapped>)
        ensures
            too_large(topic_graph.wire(), body.wire()) ==> r == Err::<MessageWrapped, Error>(
                Error::Serialize,
            ),
            !too_large(topic_graph.wire(), body.wire()) ==> (r matches Ok(w) && sealed_to(
                w,
                self@.keypair.pubkey@,
                to.precomputed@,
                *now,
                topic_graph.wire(),
                body.wire(),
            )),
    {
        let nonce = message::gen_nonce();
        let ghost msg = Message { id: MessageID { timestamp: *now, nonce }, topic_graph, body };
        assert(msg.id.wire().len() == 36);
        let sealed = MessageSealed::create(
            &self.keypair.to_pubkey(),
            to,
            *now,
            nonce,
            body,
            topic_graph,
        );
        match sealed {
            Ok(s) => Ok(MessageWrapped::Sealed(s)),
            Err(e) => Err(e),
        }
    }

    /// Seals a message with no topic graph.
    fn seal_body<U: Wire, S: Wire>(&self, to: &Peer, body: Event<U, T, S>, now: &Timestamp) -> (r:
        Result<MessageWrapped>)
        ensures
            too_large(no_topic_graph(), body.wire()) ==> r == Err::<MessageWrapped, Error>(
                Error::Serialize,
            ),
            !too_large(no_topic_graph(), body.wire()) ==> (r matches Ok(w) && sealed_to(
                w,
                self@.keypair.pubkey@,
                to.precomputed@,
                *now,
                no_topic_graph(),
                body.wire(),
            )),
    {
        let tg: Vec<TopicGraphEntry<T>> = Vec::new();
        proof {
            lemma_empty_vec_wire(tg);
        }
        self.create_sealed_message(to, body, tg, now)
    }

    /// This method should be called periodically (like every 60s or
    /// something) to perform basic maintenance on the sync object: ping our
    /// peers, forget unconfirmed peers that stopped answering, and forget
    /// outgoing peer inits that went unanswered.
    pub fn tick<U: Wire, S: Wire>(&self, now: &Timestamp) -> (r: Result<Vec<Action<U, T, S>>>)
        ensures
            r matches Ok(acts) && {
                let plan = peers_tick(self@.peers, *now) + pendings_tick(
                    self@.pending_peer_init,
                    *now,
                );
                &&& acts@.len() == plan.len()
                &&& forall|k: int|
                    0 <= k < plan.len() ==> #[trigger] realizes(acts@[k], plan[k], self@.keypair, *now)
            },
    {
        let mut actions: Vec<Action<U, T, S>> = Vec::new();
        let ghost peers = self@.peers;
        let mut i: usize = 0;
        while i < self.peers.len()
            invariant
                i <= peers.len(),
                peers == self.peers@,
                peers == self@.peers,
                actions@.len() == peers_tick(peers.take(i as int), *now).len(),
                forall|k: int|
                    0 <= k < actions@.len() ==> #[trigger] realizes(
                        actions@[k],
                        peers_tick(peers.take(i as int), *now)[k],
                        self@.keypair,
                        *now,
                    ),
            decreases peers.len() - i,
        {
            let peer_info = &self.peers[i];
            let ghost before = actions@;
            proof {
                assert(peers.take(i + 1).drop_last() =~= peers.take(i as int));
                assert(peers.take(i + 1).last() == *peer_info);
            }
            let last_ping_seconds = now.seconds_since(&peer_info.last_ping);
            if last_ping_seconds < 60 {
            } else if last_ping_seconds > 180 && !peer_info.active {
                actions.push(Action::Sync(SyncAction::UnsetPeer(peer_info.peer.pubkey)));
            } else {
                let body = Event::<U, T, S>::Ping;
                assert(body.wire() =~= seq![3u8]);
                let message = match self.seal_body(&peer_info.peer, body, now) {
                    Ok(m) => m,
                    Err(e) => return Err(e),
                };
                actions.push(Action::MessageSend(peer_info.connection_info, message));
            }
            i = i + 1;
            assert forall|k: int| 0 <= k < actions@.len() implies #[trigger] realizes(
                actions@[k],
                peers_tick(peers.take(i as int), *now)[k],
                self@.keypair,
                *now,
            ) by {
                if k < before.len() {
                    assert(actions@[k] == before[k]);
                }
            }
        }
        assert(peers.take(i as int) =~= peers);
        let ghost peer_acts = actions@;
        let ghost pending = self@.pending_peer_init;
        let mut j: usize = 0;
        while j < self.pending_peer_init.len()
            invariant
                j <= pending.len(),
                pending == self.pending_peer_init@,
                pending == self@.pending_peer_init,
                peers == self@.peers,
                peer_acts.len() == peers_tick(peers, *now).len(),
                actions@.len() == peer_acts.len() + pendings_tick(pending.take(j as int), *now).len(),
                forall|k: int| 0 <= k < peer_acts.len() ==> #[trigger] actions@[k] == peer_acts[k],
                forall|k: int|
                    0 <= k < peer_acts.len() ==> #[trigger] realizes(
                        peer_acts[k],
                        peers_tick(peers, *now)[k],
                        self@.keypair,
                        *now,
                    ),
                forall|k: int|
                    0 <= k < pendings_tick(pending.take(j as int), *now).len() ==> #[trigger] realizes(
                        actions@[peer_acts.len() + k],
                        pendings_tick(pending.take(j as int), *now)[k],
                        self@.keypair,
                        *now,
                    ),
            decreases pending.len() - j,
        {
            let pending_peer = &self.pending_peer_init[j];
            let ghost before = actions@;
            proof {
                assert(pending.take(j + 1).drop_last() =~= pending.take(j as int));
                assert(pending.take(j + 1).last() == *pending_peer);
            }
            let seconds_since_create = now.seconds_since(&pending_peer.created);
            if seconds_since_create >= 120 {
                actions.push(Action::Sync(SyncAction::UnsetPendingPeer(pending_peer.connection_info)));
            }
            j = j + 1;
            assert forall|k: int|
                0 <= k < pendings_tick(pending.take(j as int), *now).len() implies #[trigger] realizes(
                actions@[peer_acts.len() + k],
                pendings_tick(pending.take(j as int), *now)[k],
                self@.keypair,
                *now,
            ) by {
                if k < pendings_tick(pending.take(j - 1), *now).len() {
                    assert(actions@[peer_acts.len() + k] == before[peer_acts.len() + k]);
                }
            }
        }
        assert(pending.take(j as int) =~= pending);
        let ghost plan = peers_tick(peers, *now) + pendings_tick(pending, *now);
        assert forall|k: int| 0 <= k < plan.len() implies #[trigger] realizes(
            actions@[k],
            plan[k],
            self@.keypair,
            *now,
        ) by {
            if k < peer_acts.len() {
                assert(actions@[k] == peer_acts[k]);
            } else {
                assert(actions@[peer_acts.len() + (k - peer_acts.len())] == actions@[k]);
            }
        }
        Ok(actions)
    }
}


/// Whether a peer we do not know yet may send this event: only `Hello` and
/// `PeerInit` are accepted from strangers.
pub open spec fn allowed_from_stranger<U, T, S>(body: Event<U, T, S>) -> bool {
    body is Hello || body is PeerInit
}

impl<T> SyncModel<T> {
    /// The key we share with the sender `pk`: from its record if we know it,
    /// otherwise computed afresh from our secret key.
    pub open spec fn key_for(self, pk: PeerPubkey) -> Seq<u8> {
        match self.find_peer(pk@, None) {
            Some(info) => info.peer.precomputed@,
            None => spec_precompute(pk@, self.keypair.seckey@),
        }
    }

    /// What `unwrap_incoming_message` hands back for a message from `pk`
    /// whose opening gave `opened`: an error from opening stands; a message
    /// from a peer we do not know is refused with `PeerNotFound` unless it is
    /// a `Hello` or a `PeerInit`.
    pub open spec fn screen<U, S>(self, pk: PeerPubkey, opened: Result<Message<U, T, S>>) -> Result<
        Message<U, T, S>,
    > {
        match opened {
            Ok(m) => if self.find_peer(pk@, None) is None && !allowed_from_stranger(m.body) {
                Err(Error::PeerNotFound(pk))
            } else {
                Ok(m)
            },
            Err(e) => Err(e),
        }
    }
}

impl<T: Wire> Sync<T> {
    /// Handles [`MessageWrapped::Init`] messages: a peer is initiating
    /// unencrypted communication, so we record it (as inactive) and send it
    /// back a `Hello` so it can have our key. All other messages (ie,
    /// [`MessageSealed`]) should be handed to `unwrap_incoming_message()`.
    pub fn process_init_message<U: Wire, S: Wire>(
        &self,
        message_wrapped: &MessageWrapped,
        connection_info: &ConnectionInfo,
        now: &Timestamp,
    ) -> (r: Result<Vec<Action<U, T, S>>>)
        ensures
            message_wrapped is Sealed ==> r == fail::<U, T, S>(Error::MessageNotInit),
            message_wrapped matches MessageWrapped::Init(pk) ==> (r matches Ok(acts) && acts@.len()
                == 2 && (acts@[0] matches Action::Sync(SyncAction::SetPeer(info)) && is_new_peer_info(
                info,
                *pk,
                self@.keypair.seckey@,
                *connection_info,
                *now,
            )) && sends_sealed(
                acts@[1],
                *connection_info,
                self@.keypair.pubkey@,
                spec_precompute(pk@, self@.keypair.seckey@),
                *now,
                Event::<U, T, S>::Hello.wire(),
            )),
    {
        match message_wrapped {
            MessageWrapped::Sealed(..) => Err(Error::MessageNotInit),
            MessageWrapped::Init(pubkey) => {
                let new_peer = Peer::tmp(pubkey, &self.keypair.seckey);
                let body = Event::<U, T, S>::Hello;
                assert(body.wire() =~= seq![0u8]);
                let outgoing_wrapped = match self.seal_body(&new_peer, body, now) {
                    Ok(w) => w,
                    Err(e) => return Err(e),
                };
                let mut actions: Vec<Action<U, T, S>> = Vec::new();
                actions.push(
                    Action::Sync(
                        SyncAction::SetPeer(PeerInfo::new(new_peer, *connection_info, false, *now)),
                    ),
                );
                actions.push(Action::MessageSend(*connection_info, outgoing_wrapped));
                Ok(actions)
            },
        }
    }

    /// Decides whether to hand back a message opened from the sender
    /// `pubkey_sender`: a message from a peer we do not know is refused
    /// unless it is a `Hello` or a `PeerInit`.
    pub fn screen_message<U, S>(&self, pubkey_sender: &PeerPubkey, opened: Result<Message<U, T, S>>) -> (r:
        Result<Message<U, T, S>>)
        ensures
            r == self@.screen(*pubkey_sender, opened),
    {
        match opened {
            Ok(message_opened) => {
                let known = self.find_peer(pubkey_sender, None).is_some();
                if !known {
                    match &message_opened.body {
                        Event::Hello | Event::PeerInit { .. } => {},
                        _ => return Err(Error::PeerNotFound(*pubkey_sender)),
                    }
                }
                Ok(message_opened)
            },
            Err(e) => Err(e),
        }
    }

    /// Unwrap an incoming message and return it to the caller. The caller
    /// then must inspect the returned event to determine which
    /// `process_event_*` function to call.
    ///
    /// The message is opened with the key we share with its sender (from the
    /// sender's record, or computed afresh for a stranger); a stranger may
    /// only send `Hello` or `PeerInit`.
    pub fn unwrap_incoming_message<U: Wire, S: Wire>(&self, message: &MessageSealed) -> (r: Result<
        Message<U, T, S>,
    >)
        ensures
            exists|opened: Result<Message<U, T, S>>|
                open_outcome(*message, self@.key_for(message.pubkey_sender), opened) && r
                    == self@.screen(message.pubkey_sender, opened),
    {
        let opened = match self.find_peer(&message.pubkey_sender, None) {
            Some(peer_from) => message.open(&peer_from.peer),
            None => {
                let tmp_peer = Peer::tmp(&message.pubkey_sender, &self.keypair.seckey);
                message.open(&tmp_peer)
            },
        };
        let ghost o = opened;
        let r = self.screen_message(&message.pubkey_sender, opened);
        assert(open_outcome(*message, self@.key_for(message.pubkey_sender), o));
        r
    }
}


/// `p` is the record `info` of a peer that is now confirmed: renamed to
/// `name`, active, last heard from `now`.
pub open spec fn confirmed(p: PeerInfo, info: PeerInfo, name: Seq<char>, now: Timestamp) -> bool {
    &&& p.peer.name@ == name
    &&& p.peer.pubkey == info.peer.pubkey
    &&& p.peer.precomputed == info.peer.precomputed
    &&& p.connection_info == info.connection_info
    &&& p.active
    &&& p.last_ping == now
}

/// What confirming the peer `pk` under the name `name` hands back: the
/// peer's record made active, and a `PeerConfirm` carrying our name sealed
/// for the peer; `PeerNotFound` for a peer we do not know.
pub open spec fn peer_confirm_outcome<U: Wire, T: Wire, S: Wire>(
    m: SyncModel<T>,
    pk: PeerPubkey,
    name: Seq<char>,
    now: Timestamp,
    r: Result<Vec<Action<U, T, S>>>,
) -> bool {
    match m.find_peer(pk@, None) {
        None => r == fail::<U, T, S>(Error::PeerNotFound(pk)),
        Some(info) => {
            let body_wire = Event::<U, T, S>::PeerConfirm { name: m.name }.wire();
            if too_large(no_topic_graph(), body_wire) {
                r == fail::<U, T, S>(Error::Serialize)
            } else {
                &&& r matches Ok(acts)
                &&& acts@.len() == 2
                &&& acts@[0] matches Action::Sync(SyncAction::SetPeer(p)) && confirmed(
                    p,
                    info,
                    name,
                    now,
                )
                &&& sends_sealed(
                    acts@[1],
                    info.connection_info,
                    m.keypair.pubkey@,
                    info.peer.precomputed@,
                    now,
                    body_wire,
                )
            }
        },
    }
}

impl<T: Wire> Sync<T> {
    /// Call this when you have an [`Event::Hello`] object you got from the
    /// `unwrap_incoming_message` call. A `Hello` is only answered when we
    /// initiated contact with its connection: we record the peer (inactive),
    /// drop the pending init, and send our `PeerInit`.
    pub fn process_event_hello<U: Wire, S: Wire>(
        &self,
        message_opened: &Message<U, T, S>,
        pubkey_sender: &PeerPubkey,
        connection_info: &ConnectionInfo,
        now: &Timestamp,
    ) -> (r: Result<Vec<Action<U, T, S>>>)
        ensures
            !(message_opened.body is Hello) ==> r == fail::<U, T, S>(Error::EventMismatch),
            message_opened.body is Hello && self@.find_pending_peer_init(*connection_info) is None
                ==> (r matches Ok(acts) && acts@.len() == 0),
            message_opened.body is Hello && self@.find_pending_peer_init(*connection_info) is Some
                ==> ({
                let body_wire = Event::<U, T, S>::PeerInit { name: self@.name }.wire();
                if too_large(no_topic_graph(), body_wire) {
                    r == fail::<U, T, S>(Error::Serialize)
                } else {
                    &&& r matches Ok(acts)
                    &&& acts@.len() == 3
                    &&& acts@[0] matches Action::Sync(SyncAction::SetPeer(info)) && is_new_peer_info(
                        info,
                        *pubkey_sender,
                        self@.keypair.seckey@,
                        *connection_info,
                        *now,
                    )
                    &&& acts@[1] == Action::<U, T, S>::Sync(
                        SyncAction::UnsetPendingPeer(*connection_info),
                    )
                    &&& sends_sealed(
                        acts@[2],
                        *connection_info,
                        self@.keypair.pubkey@,
                        spec_precompute(pubkey_sender@, self@.keypair.seckey@),
                        *now,
                        body_wire,
                    )
                }
            }),
    {
        if !matches!(message_opened.body, Event::Hello) {
            return Err(Error::EventMismatch);
        }
        // don't process a `Hello` unless we initiated it.
        if self.find_pending_peer_init(connection_info).is_none() {
            return Ok(Vec::new());
        }
        let mut actions: Vec<Action<U, T, S>> = Vec::new();
        let new_peer = Peer::tmp(pubkey_sender, &self.keypair.seckey);
        let body = Event::<U, T, S>::PeerInit { name: self.name.clone() };
        let message = match self.seal_body(&new_peer, body, now) {
            Ok(m) => m,
            Err(e) => return Err(e),
        };
        actions.push(
            Action::Sync(SyncAction::SetPeer(PeerInfo::new(new_peer, *connection_info, false, *now))),
        );
        actions.push(Action::Sync(SyncAction::UnsetPendingPeer(*connection_info)));
        actions.push(Action::MessageSend(*connection_info, message));
        Ok(actions)
    }

    /// Confirm a new peer into our syncing engine (ie, start peering): mark
    /// its record active under the name `name`, and send it our
    /// `PeerConfirm`.
    pub fn peer_confirm<U: Wire, S: Wire>(&self, peer_pubkey: &PeerPubkey, name: &str, now: &Timestamp) -> (r:
        Result<Vec<Action<U, T, S>>>)
        ensures
            peer_confirm_outcome(self@, *peer_pubkey, name@, *now, r),
    {
        let body = Event::<U, T, S>::PeerConfirm { name: self.name.clone() };
        let peer_info = match self.find_peer(peer_pubkey, None) {
            Some(p) => p,
            None => return Err(Error::PeerNotFound(*peer_pubkey)),
        };
        let connection_info = peer_info.connection_info;
        let outgoing_wrapped = match self.seal_body(&peer_info.peer, body, now) {
            Ok(w) => w,
            Err(e) => return Err(e),
        };
        let mut peer_mod = peer_info.clone();
        peer_mod.peer.set_name(String::from_str(name));
        peer_mod.set_active(true);
        peer_mod.set_last_ping(*now);
        let mut actions: Vec<Action<U, T, S>> = Vec::new();
        actions.push(Action::Sync(SyncAction::SetPeer(peer_mod)));
        actions.push(Action::MessageSend(connection_info, outgoing_wrapped));
        Ok(actions)
    }

    /// Call this to process an [`Event::PeerInit`] message: depending on our
    /// peering config, confirm the peer, deny it (no actions), or ask the
    /// user to confirm it.
    pub fn process_event_peer_init<U: Wire, S: Wire>(
        &self,
        message_opened: &Message<U, T, S>,
        pubkey_sender: &PeerPubkey,
        connection_info: &ConnectionInfo,
        now: &Timestamp,
    ) -> (r: Result<Vec<Action<U, T, S>>>)
        ensures
            match message_opened.body {
                Event::PeerInit { name } => match spec_can_confirm(
                    self@.peering_config.confirmation,
                    pubkey_sender@,
                ) {
                    Some(true) => peer_confirm_outcome(self@, *pubkey_sender, name@, *now, r),
                    Some(false) => r matches Ok(acts) && acts@.len() == 0,
                    None => r matches Ok(acts) && acts@ == seq![
                        Action::<U, T, S>::Confirm(message_opened.body),
                    ],
                },
                _ => r == fail::<U, T, S>(Error::EventMismatch),
            },
    {
        match &message_opened.body {
            Event::PeerInit { name } => {
                let access = self.peering_config.can_confirm(pubkey_sender);
                match access {
                    Some(true) => self.peer_confirm::<U, S>(pubkey_sender, name.as_str(), now),
                    Some(false) => Ok(Vec::new()),
                    None => {
                        let mut actions: Vec<Action<U, T, S>> = Vec::new();
                        actions.push(Action::Confirm(Event::PeerInit { name: name.clone() }));
                        assert(actions@ =~= seq![Action::<U, T, S>::Confirm(message_opened.body)]);
                        Ok(actions)
                    },
                }
            },
            _ => Err(Error::EventMismatch),
        }
    }

    /// Call this to process an [`Event::PeerConfirm`] message: the peer's
    /// record is renamed, made active, and marked as heard from now.
    pub fn process_event_peer_confirm<U, S>(
        &self,
        message_opened: &Message<U, T, S>,
        pubkey_sender: &PeerPubkey,
        now: &Timestamp,
    ) -> (r: Result<Vec<Action<U, T, S>>>)
        ensures
            match message_opened.body {
                Event::PeerConfirm { name } => match self@.find_peer(pubkey_sender@, None) {
                    None => r == fail::<U, T, S>(Error::PeerNotFound(*pubkey_sender)),
                    Some(info) => r matches Ok(acts) && acts@ == seq![
                        Action::<U, T, S>::Sync(
                            SyncAction::SetPeer(
                                PeerInfo {
                                    peer: Peer { name: name, ..info.peer },
                                    active: true,
                                    last_ping: *now,
                                    ..info
                                },
                            ),
                        ),
                    ],
                },
                _ => r == fail::<U, T, S>(Error::EventMismatch),
            },
    {
        match &message_opened.body {
            Event::PeerConfirm { name } => {
                let peer_info = match self.find_peer(pubkey_sender, None) {
                    Some(p) => p,
                    None => return Err(Error::PeerNotFound(*pubkey_sender)),
                };
                let mut peer_mod = peer_info.clone();
                peer_mod.peer.set_name(name.clone());
                peer_mod.set_active(true);
                peer_mod.set_last_ping(*now);
                let mut actions: Vec<Action<U, T, S>> = Vec::new();
                actions.push(Action::Sync(SyncAction::SetPeer(peer_mod)));
                Ok(actions)
            },
            _ => Err(Error::EventMismatch),
        }
    }

    /// Call this to process an [`Event::Ping`] message: the peer is marked
    /// as heard from now, and answered with a `Pong`.
    pub fn process_event_ping<U: Wire, S: Wire>(
        &self,
        message_opened: &Message<U, T, S>,
        pubkey_sender: &PeerPubkey,
        now: &Timestamp,
    ) -> (r: Result<Vec<Action<U, T, S>>>)
        ensures
            !(message_opened.body is Ping) ==> r == fail::<U, T, S>(Error::EventMismatch),
            message_opened.body is Ping ==> match self@.find_peer(pubkey_sender@, None) {
                None => r == fail::<U, T, S>(Error::PeerNotFound(*pubkey_sender)),
                Some(info) => {
                    &&& r matches Ok(acts)
                    &&& acts@.len() == 2
                    &&& acts@[0] == Action::<U, T, S>::Sync(
                        SyncAction::SetPeer(PeerInfo { last_ping: *now, ..info }),
                    )
                    &&& sends_sealed(
                        acts@[1],
                        info.connection_info,
                        self@.keypair.pubkey@,
                        info.peer.precomputed@,
                        *now,
                        Event::<U, T, S>::Pong.wire(),
                    )
                },
            },
    {
        if !matches!(message_opened.body, Event::Ping) {
            return Err(Error::EventMismatch);
        }
        let peer_info = match self.find_peer(pubkey_sender, None) {
            Some(p) => p,
            None => return Err(Error::PeerNotFound(*pubkey_sender)),
        };
        let mut peer_mod = peer_info.clone();
        peer_mod.set_last_ping(*now);
        let body = Event::<U, T, S>::Pong;
        assert(body.wire() =~= seq![4u8]);
        let message = match self.seal_body(&peer_info.peer, body, now) {
            Ok(m) => m,
            Err(e) => return Err(e),
        };
        let mut actions: Vec<Action<U, T, S>> = Vec::new();
        actions.push(Action::Sync(SyncAction::SetPeer(peer_mod)));
        actions.push(Action::MessageSend(peer_info.connection_info, message));
        Ok(actions)
    }

    /// Call this to process an [`Event::Pong`] message: the peer is marked
    /// as heard from now.
    pub fn process_event_pong<U, S>(
        &self,
        message_opened: &Message<U, T, S>,
        pubkey_sender: &PeerPubkey,
        now: &Timestamp,
    ) -> (r: Result<Vec<Action<U, T, S>>>)
        ensures
            !(message_opened.body is Pong) ==> r == fail::<U, T, S>(Error::EventMismatch),
            message_opened.body is Pong ==> match self@.find_peer(pubkey_sender@, None) {
                None => r == fail::<U, T, S>(Error::PeerNotFound(*pubkey_sender)),
                Some(info) => r matches Ok(acts) && acts@ == seq![
                    Action::<U, T, S>::Sync(SyncAction::SetPeer(PeerInfo { last_ping: *now, ..info })),
                ],
            },
    {
        if !matches!(message_opened.body, Event::Pong) {
            return Err(Error::EventMismatch);
        }
        let peer_info = match self.find_peer(pubkey_sender, None) {
            Some(p) => p,
            None => return Err(Error::PeerNotFound(*pubkey_sender)),
        };
        let mut peer_mod = peer_info.clone();
        peer_mod.set_last_ping(*now);
        let mut actions: Vec<Action<U, T, S>> = Vec::new();
        actions.push(Action::Sync(SyncAction::SetPeer(peer_mod)));
        assert(actions@ =~= seq![
            Action::<U, T, S>::Sync(SyncAction::SetPeer(PeerInfo { last_ping: *now, ..*peer_info })),
        ]);
        Ok(actions)
    }
}


/// Whether a message is too large to be sealed.
pub open spec fn too_big<U: Wire, T: Wire, S: Wire>(msg: Message<U, T, S>) -> bool {
    msg.wire().len() + MAC_BYTES > usize::MAX
}

/// `a` sends to `conn` the message `msg` sealed by the holder of `keypair`
/// for the holder of `key`.
pub open spec fn sends_message<U: Wire, T: Wire, S: Wire>(
    a: Action<U, T, S>,
    conn: ConnectionInfo,
    keypair: Keypair,
    key: Seq<u8>,
    msg: Message<U, T, S>,
) -> bool {
    &&& a matches Action::MessageSend(c, MessageWrapped::Sealed(s))
    &&& c == conn
    &&& seals(s, PeerPubkey { inner: keypair.pubkey }, key, msg)
}

impl<T: Wire> SyncModel<T> {
    /// The messages, in order, that have a topic the peer `v` is subscribed
    /// to.
    pub open spec fn selected<U, S>(self, v: (Seq<char>, Seq<u8>, Seq<u8>), msgs: Seq<Message<U, T, S>>) -> Seq<
        Message<U, T, S>,
    >
        decreases msgs.len(),
    {
        if msgs.len() == 0 {
            seq![]
        } else {
            self.selected(v, msgs.drop_last()) + if self.message_for_peer(v, msgs.last()) {
                seq![msgs.last()]
            } else {
                seq![]
            }
        }
    }
}

/// What answering a query for `msgs` from the peer `info` hands back: each
/// message with a topic the peer is subscribed to, in order, sealed for the
/// peer and sent to its connection; `Serialize` when one of them is too
/// large to seal.
pub open spec fn query_outcome<U: Wire, T: Wire, S: Wire>(
    m: SyncModel<T>,
    info: PeerInfo,
    msgs: Seq<Message<U, T, S>>,
    r: Result<Vec<Action<U, T, S>>>,
) -> bool {
    let sel = m.selected(peer_view(info.peer), msgs);
    if exists|k: int| 0 <= k < sel.len() && #[trigger] too_big(sel[k]) {
        r == fail::<U, T, S>(Error::Serialize)
    } else {
        &&& r matches Ok(acts)
        &&& acts@.len() == sel.len()
        &&& forall|k: int|
            0 <= k < sel.len() ==> #[trigger] sends_message(
                acts@[k],
                info.connection_info,
                m.keypair,
                info.peer.precomputed@,
                sel[k],
            )
    }
}

/// What a query handler hands back to the sender `pk` for the messages
/// `msgs`, when the event is the query it handles (`asks`): nothing when
/// there are no messages; `EventMismatch` for another event;
/// `PeerNotFound` for a sender we do not know; otherwise the answer of
/// `query_outcome`.
pub open spec fn query_answer<U: Wire, T: Wire, S: Wire>(
    m: SyncModel<T>,
    asks: bool,
    pk: PeerPubkey,
    msgs: Seq<Message<U, T, S>>,
    r: Result<Vec<Action<U, T, S>>>,
) -> bool {
    if msgs.len() == 0 {
        r matches Ok(acts) && acts@.len() == 0
    } else if !asks {
        r == fail::<U, T, S>(Error::EventMismatch)
    } else {
        match m.find_peer(pk@, None) {
            None => r == fail::<U, T, S>(Error::PeerNotFound(pk)),
            Some(info) => query_outcome(m, info, msgs, r),
        }
    }
}

/// Two actions send the same sealed bytes, with the same nonce and sender,
/// to the same connection.
pub open spec fn same_send<U, T, S>(a1: Action<U, T, S>, a2: Action<U, T, S>) -> bool {
    &&& a1 matches Action::MessageSend(c1, MessageWrapped::Sealed(s1))
    &&& a2 matches Action::MessageSend(c2, MessageWrapped::Sealed(s2))
    &&& c1 == c2
    &&& s1.nonce == s2.nonce
    &&& s1.pubkey_sender@ == s2.pubkey_sender@
    &&& s1.sealed_body@ == s2.sealed_body@
}

/// Answers to the same query agree: for the same records, sender and
/// messages, two answers (of `process_event_query_messages_by_id` and
/// `process_event_query_messages_by_depth`, whose contracts both are
/// `query_answer` with `asks` true for their own event) give the same
/// error, or the same number of actions, each sending the same bytes to the
/// same connection. The query's own fields (ids, topic, depth) select
/// nothing: the caller hands the messages in.
pub proof fn law_query_answers_agree<U: Wire, T: Wire, S: Wire>(
    m: SyncModel<T>,
    pk: PeerPubkey,
    msgs: Seq<Message<U, T, S>>,
    r1: Result<Vec<Action<U, T, S>>>,
    r2: Result<Vec<Action<U, T, S>>>,
)
    requires
        query_answer(m, true, pk, msgs, r1),
        query_answer(m, true, pk, msgs, r2),
    ensures
        r1 is Err ==> r1 == r2,
        r1 is Ok <==> r2 is Ok,
        r1 matches Ok(a1) ==> (r2 matches Ok(a2) && a1@.len() == a2@.len() && forall|k: int|
            0 <= k < a1@.len() ==> same_send(#[trigger] a1@[k], a2@[k])),
{
    if msgs.len() > 0 {
        if let Some(info) = m.find_peer(pk@, None) {
            let sel = m.selected(peer_view(info.peer), msgs);
            if !(exists|k: int| 0 <= k < sel.len() && #[trigger] too_big(sel[k])) {
                let a1 = r1->Ok_0;
                let a2 = r2->Ok_0;
                assert forall|k: int| 0 <= k < a1@.len() implies same_send(#[trigger] a1@[k], a2@[k]) by {
                    assert(sends_message(a1@[k], info.connection_info, m.keypair, info.peer.precomputed@, sel[k]));
                    assert(sends_message(a2@[k], info.connection_info, m.keypair, info.peer.precomputed@, sel[k]));
                }
            }
        }
    }
}

/// The actions that record the verified subscriptions: one
/// `SetSubscription` for each topic that verified, in order.
pub open spec fn subscription_actions<U, T, S>(topics: Seq<Option<T>>, info: PeerInfo) -> Seq<
    Action<U, T, S>,
>
    decreases topics.len(),
{
    if topics.len() == 0 {
        seq![]
    } else {
        subscription_actions(topics.drop_last(), info) + match topics.last() {
            Some(t) => seq![Action::<U, T, S>::Sync(SyncAction::SetSubscription(t, info))],
            None => seq![],
        }
    }
}

/// The records' actions for the outcomes of verifying some subscriptions:
/// one `SetSubscription` for each topic that verified, in order, for the
/// peer `peer_info`.
pub fn subscribe_actions<U, T, S>(topics: Vec<Option<T>>, peer_info: &PeerInfo) -> (r: Vec<
    Action<U, T, S>,
>)
    ensures
        r@ == subscription_actions::<U, T, S>(topics@, *peer_info),
{
    let ghost all = topics@;
    let total: usize = topics.len();
    let mut topics = topics;
    let mut done: usize = 0;
    let mut actions: Vec<Action<U, T, S>> = Vec::new();
    while topics.len() > 0
        invariant
            done + topics@.len() == total,
            total == all.len(),
            topics@ == all.skip(done as int),
            actions@ == subscription_actions::<U, T, S>(all.take(done as int), *peer_info),
        decreases topics@.len(),
    {
        let t = topics.remove(0);
        proof {
            assert(t == all[done as int]);
            assert(all.take(done + 1).drop_last() =~= all.take(done as int));
            assert(all.take(done + 1).last() == t);
        }
        match t {
            Some(topic) => {
                actions.push(Action::Sync(SyncAction::SetSubscription(topic, peer_info.clone())));
            },
            None => {},
        }
        done = done + 1;
        assert(topics@ =~= all.skip(done as int));
        assert(actions@ =~= subscription_actions::<U, T, S>(all.take(done as int), *peer_info));
    }
    assert(all.take(done as int) =~= all);
    actions
}

/// The topics, in order, that the peer `v` is subscribed to.
pub open spec fn topics_of<T>(subs: Seq<(T, Seq<PeerInfo>)>, v: (Seq<char>, Seq<u8>, Seq<u8>)) -> Seq<T>
    decreases subs.len(),
{
    if subs.len() == 0 {
        seq![]
    } else {
        topics_of(subs.drop_last(), v) + if first_index(subs.last().1, peer_is(v)) is Some {
            seq![subs.last().0]
        } else {
            seq![]
        }
    }
}

/// Whether one of `topics` is encoded as `w`.
pub open spec fn lists_topic<T: Wire>(topics: Seq<T>, w: Seq<u8>) -> bool {
    exists|k: int| 0 <= k < topics.len() && #[trigger] topics[k].wire() == w
}

/// No two entries of `subs` are for topics with the same encoding.
pub open spec fn distinct_topics<T: Wire>(subs: Seq<(T, Seq<PeerInfo>)>) -> bool {
    forall|i: int, j: int|
        0 <= i < j < subs.len() ==> #[trigger] subs[i].0.wire() != #[trigger] subs[j].0.wire()
}

/// A topic is listed in a concatenation when it is listed in either part.
proof fn lemma_lists_topic_concat<T: Wire>(a: Seq<T>, b: Seq<T>, w: Seq<u8>)
    ensures
        lists_topic(a + b, w) <==> (lists_topic(a, w) || lists_topic(b, w)),
{
    if lists_topic(a + b, w) {
        let k = choose|k: int| 0 <= k < (a + b).len() && #[trigger] (a + b)[k].wire() == w;
        if k < a.len() {
            assert(a[k] == (a + b)[k]);
        } else {
            assert(b[k - a.len()] == (a + b)[k]);
        }
    }
    if lists_topic(a, w) {
        let k = choose|k: int| 0 <= k < a.len() && #[trigger] a[k].wire() == w;
        assert((a + b)[k] == a[k]);
    }
    if lists_topic(b, w) {
        let k = choose|k: int| 0 <= k < b.len() && #[trigger] b[k].wire() == w;
        assert((a + b)[a.len() + k] == b[k]);
    }
}

/// The topics listed for the peer `v` are those whose entry, found by
/// topic, has `v` among its subscribers.
proof fn lemma_topics_of<T: Wire>(subs: Seq<(T, Seq<PeerInfo>)>, v: (Seq<char>, Seq<u8>, Seq<u8>), w: Seq<u8>)
    requires
        distinct_topics(subs),
    ensures
        lists_topic(topics_of(subs, v), w) <==> (first_index(subs, topic_is::<T>(w)) matches Some(i)
            && first_index(subs[i].1, peer_is(v)) is Some),
    decreases subs.len(),
{
    lemma_first_index(subs, topic_is::<T>(w));
    if subs.len() == 0 {
        assert(topics_of(subs, v) =~= Seq::<T>::empty());
    } else {
        let n = subs.len() - 1;
        let init = subs.drop_last();
        let last = subs.last();
        assert forall|i: int, j: int| 0 <= i < j < init.len() implies #[trigger] init[i].0.wire()
            != #[trigger] init[j].0.wire() by {
            assert(init[i] == subs[i] && init[j] == subs[j]);
        }
        lemma_topics_of(init, v, w);
        let a = topics_of(init, v);
        let b = if first_index(last.1, peer_is(v)) is Some {
            seq![last.0]
        } else {
            seq![]
        };
        assert(topics_of(subs, v) == a + b);
        lemma_lists_topic_concat(a, b, w);
        if lists_topic(b, w) {
            let k = choose|k: int| 0 <= k < b.len() && #[trigger] b[k].wire() == w;
            assert(b[k] == last.0);
        }
        lemma_first_index(init, topic_is::<T>(w));
        match first_index(init, topic_is::<T>(w)) {
            Some(i) => {
                assert(subs[i] == init[i]);
                assert forall|j: int| 0 <= j < i implies !topic_is::<T>(w)(#[trigger] subs[j]) by {
                    assert(subs[j] == init[j]);
                }
                lemma_first_index_at(subs, topic_is::<T>(w), i);
                assert(subs[i].0.wire() != subs[n].0.wire());
                assert(!lists_topic(b, w)) by {
                    if lists_topic(b, w) {
                        let k = choose|k: int| 0 <= k < b.len() && #[trigger] b[k].wire() == w;
                        assert(b[k] == last.0);
                    }
                }
            },
            None => {
                assert forall|j: int| 0 <= j < n implies !topic_is::<T>(w)(#[trigger] subs[j]) by {
                    assert(subs[j] == init[j]);
                }
                if last.0.wire() == w {
                    lemma_first_index_at(subs, topic_is::<T>(w), n);
                    if first_index(last.1, peer_is(v)) is Some {
                        assert(b[0].wire() == w);
                    }
                } else {
                    lemma_first_index_none(subs, topic_is::<T>(w));
                }
            },
        }
    }
}

/// The topics that `process_event_query_subscriptions` answers a peer with
/// are exactly the topics it is subscribed to.
pub proof fn law_active_subscriptions_are_subscribed_topics<T: Wire>(
    m: SyncModel<T>,
    v: (Seq<char>, Seq<u8>, Seq<u8>),
    w: Seq<u8>,
)
    requires
        m.wf(),
    ensures
        lists_topic(topics_of(m.subscriptions, v), w) <==> m.is_subscribed(w, v),
{
    lemma_topics_of(m.subscriptions, v, w);
    lemma_first_index(m.subscriptions, topic_is::<T>(w));
}

/// The encoding of an `ActiveSubscriptions` event listing `topics`.
pub open spec fn active_subscriptions_wire<T: Wire>(topics: Seq<T>) -> Seq<u8> {
    seq![10u8] + (u64_wire(topics.len() as u64) + wires(topics))
}

impl<T: Wire> Sync<T> {
    /// Seals, for the peer `peer_info`, each message that has a topic the
    /// peer is subscribed to.
    fn seal_messages_for<U: Wire, S: Wire>(&self, peer_info: &PeerInfo, messages: &Vec<Message<U, T, S>>) -> (r:
        Result<Vec<Action<U, T, S>>>)
        ensures
            query_outcome(self@, *peer_info, messages@, r),
    {
        let ghost v = peer_view(peer_info.peer);
        let ghost msgs = messages@;
        let me = self.keypair.to_pubkey();
        let mut actions: Vec<Action<U, T, S>> = Vec::new();
        let mut i: usize = 0;
        while i < messages.len()
            invariant
                i <= msgs.len(),
                msgs == messages@,
                v == peer_view(peer_info.peer),
                me@ == self@.keypair.pubkey@,
                actions@.len() == self@.selected(v, msgs.take(i as int)).len(),
                forall|k: int| 0 <= k < actions@.len() ==> !#[trigger] too_big(self@.selected(v, msgs.take(i as int))[k]),
                forall|k: int|
                    0 <= k < actions@.len() ==> #[trigger] sends_message(
                        actions@[k],
                        peer_info.connection_info,
                        self@.keypair,
                        peer_info.peer.precomputed@,
                        self@.selected(v, msgs.take(i as int))[k],
                    ),
            decreases msgs.len() - i,
        {
            let m = &messages[i];
            let ghost before = actions@;
            let ghost sel_before = self@.selected(v, msgs.take(i as int));
            proof {
                assert(msgs.take(i + 1).drop_last() =~= msgs.take(i as int));
                assert(msgs.take(i + 1).last() == *m);
            }
            if self.filter_message_by_peer(&peer_info.peer, m) {
                match MessageSealed::seal(&me, &peer_info.peer, m) {
                    Ok(sealed) => {
                        actions.push(
                            Action::MessageSend(peer_info.connection_info, MessageWrapped::Sealed(sealed)),
                        );
                    },
                    Err(e) => {
                        proof {
                            let sel = self@.selected(v, msgs);
                            assert(self@.selected(v, msgs.take(i + 1)) == sel_before.push(*m));
                            lemma_selected_prefix(self@, v, msgs, i + 1);
                            assert(sel[sel_before.len() as int] == *m);
                            assert(too_big(sel[sel_before.len() as int]));
                        }
                        return Err(e);
                    },
                }
            }
            i = i + 1;
            assert forall|k: int| 0 <= k < actions@.len() implies #[trigger] sends_message(
                actions@[k],
                peer_info.connection_info,
                self@.keypair,
                peer_info.peer.precomputed@,
                self@.selected(v, msgs.take(i as int))[k],
            ) && !too_big(self@.selected(v, msgs.take(i as int))[k]) by {
                if k < before.len() {
                    assert(actions@[k] == before[k]);
                    assert(self@.selected(v, msgs.take(i as int))[k] == sel_before[k]);
                }
            }
        }
        assert(msgs.take(i as int) =~= msgs);
        Ok(actions)
    }

    /// Call this to process an [`Event::QueryMessagesByID`] message. Requires
    /// that the queried messages be passed in; those with a topic the peer
    /// is subscribed to are sent to it.
    pub fn process_event_query_messages_by_id<U: Wire, S: Wire>(
        &self,
        message_opened: &Message<U, T, S>,
        pubkey_sender: &PeerPubkey,
        messages: &Vec<Message<U, T, S>>,
    ) -> (r: Result<Vec<Action<U, T, S>>>)
        ensures
            query_answer(
                self@,
                message_opened.body is QueryMessagesByID,
                *pubkey_sender,
                messages@,
                r,
            ),
    {
        if messages.len() == 0 {
            return Ok(Vec::new());
        }
        match &message_opened.body {
            Event::QueryMessagesByID { .. } => {
                let peer_info = match self.find_peer(pubkey_sender, None) {
                    Some(p) => p,
                    None => return Err(Error::PeerNotFound(*pubkey_sender)),
                };
                self.seal_messages_for(peer_info, messages)
            },
            _ => Err(Error::EventMismatch),
        }
    }

    /// Call this to process an [`Event::QueryMessagesByDepth`] message.
    /// Requires that the queried messages be passed in; those with a topic
    /// the peer is subscribed to are sent to it.
    pub fn process_event_query_messages_by_depth<U: Wire, S: Wire>(
        &self,
        message_opened: &Message<U, T, S>,
        pubkey_sender: &PeerPubkey,
        messages: &Vec<Message<U, T, S>>,
    ) -> (r: Result<Vec<Action<U, T, S>>>)
        ensures
            query_answer(
                self@,
                message_opened.body is QueryMessagesByDepth,
                *pubkey_sender,
                messages@,
                r,
            ),
    {
        if messages.len() == 0 {
            return Ok(Vec::new());
        }
        match &message_opened.body {
            Event::QueryMessagesByDepth { .. } => {
                let peer_info = match self.find_peer(pubkey_sender, None) {
                    Some(p) => p,
                    None => return Err(Error::PeerNotFound(*pubkey_sender)),
                };
                self.seal_messages_for(peer_info, messages)
            },
            _ => Err(Error::EventMismatch),
        }
    }

    /// Call this to process an [`Event::Subscribe`] message: each
    /// subscription is verified, in order, and each one that verifies is
    /// recorded for the peer under the topic it verified to.
    pub fn process_event_subscribe<U, S: Subscription<T>>(
        &self,
        message_opened: &Message<U, T, S>,
        pubkey_sender: &PeerPubkey,
    ) -> (r: Result<Vec<Action<U, T, S>>>)
        ensures
            match message_opened.body {
                Event::Subscribe(subscriptions) => match self@.find_peer(pubkey_sender@, None) {
                    None => r == fail::<U, T, S>(Error::PeerNotFound(*pubkey_sender)),
                    Some(info) => r matches Ok(acts) && acts@ == subscription_actions::<U, T, S>(
                        subscriptions@.map_values(|s: S| s.spec_verify()),
                        info,
                    ),
                },
                _ => r == fail::<U, T, S>(Error::EventMismatch),
            },
    {
        match &message_opened.body {
            Event::Subscribe(subscriptions) => {
                let peer_info = match self.find_peer(pubkey_sender, None) {
                    Some(p) => p,
                    None => return Err(Error::PeerNotFound(*pubkey_sender)),
                };
                let mut verified: Vec<Option<T>> = Vec::new();
                let mut i: usize = 0;
                while i < subscriptions.len()
                    invariant
                        i <= subscriptions@.len(),
                        verified@ == subscriptions@.take(i as int).map_values(
                            |s: S| s.spec_verify(),
                        ),
                    decreases subscriptions@.len() - i,
                {
                    verified.push(subscriptions[i].verify());
                    i = i + 1;
                    assert(verified@ =~= subscriptions@.take(i as int).map_values(
                        |s: S| s.spec_verify(),
                    ));
                }
                assert(subscriptions@.take(i as int) =~= subscriptions@);
                let actions = subscribe_actions(verified, peer_info);
                Ok(actions)
            },
            _ => Err(Error::EventMismatch),
        }
    }

    /// Call this to process an [`Event::Unsubscribe`] message: each topic
    /// becomes an `UnsetSubscription` for the peer, in order.
    pub fn process_event_unsubscribe<U, S>(&self, message_opened: &Message<U, T, S>, pubkey_sender: &PeerPubkey) -> (r:
        Result<Vec<Action<U, T, S>>>)
        ensures
            match message_opened.body {
                Event::Unsubscribe(topics) => match self@.find_peer(pubkey_sender@, None) {
                    None => r == fail::<U, T, S>(Error::PeerNotFound(*pubkey_sender)),
                    Some(info) => {
                        &&& r matches Ok(acts)
                        &&& acts@.len() == topics@.len()
                        &&& forall|k: int|
                            0 <= k < topics@.len() ==> (#[trigger] acts@[k] matches Action::Sync(
                                SyncAction::UnsetSubscription(t, i),
                            ) && t.wire() == topics@[k].wire() && t.deep_view()
                                == topics@[k].deep_view() && i == info)
                    },
                },
                _ => r == fail::<U, T, S>(Error::EventMismatch),
            },
    {
        match &message_opened.body {
            Event::Unsubscribe(topics) => {
                let peer_info = match self.find_peer(pubkey_sender, None) {
                    Some(p) => p,
                    None => return Err(Error::PeerNotFound(*pubkey_sender)),
                };
                let mut actions: Vec<Action<U, T, S>> = Vec::new();
                let mut i: usize = 0;
                while i < topics.len()
                    invariant
                        i <= topics@.len(),
                        actions@.len() == i,
                        forall|k: int|
                            0 <= k < i ==> (#[trigger] actions@[k] matches Action::Sync(
                                SyncAction::UnsetSubscription(t, pi),
                            ) && t.wire() == topics@[k].wire() && t.deep_view()
                                == topics@[k].deep_view() && pi == *peer_info),
                    decreases topics@.len() - i,
                {
                    let topic = topics[i].duplicate();
                    actions.push(Action::Sync(SyncAction::UnsetSubscription(topic, peer_info.clone())));
                    i = i + 1;
                }
                Ok(actions)
            },
            _ => Err(Error::EventMismatch),
        }
    }

    /// Call this to process an [`Event::QuerySubscriptions`] message: the
    /// peer is sent, as `ActiveSubscriptions`, the topics it is subscribed
    /// to.
    pub fn process_event_query_subscriptions<U: Wire, S: Wire>(
        &self,
        message_opened: &Message<U, T, S>,
        pubkey_sender: &PeerPubkey,
        now: &Timestamp,
    ) -> (r: Result<Vec<Action<U, T, S>>>)
        ensures
            match message_opened.body {
                Event::QuerySubscriptions => match self@.find_peer(pubkey_sender@, None) {
                    None => r == fail::<U, T, S>(Error::PeerNotFound(*pubkey_sender)),
                    Some(info) => {
                        let body_wire = active_subscriptions_wire(
                            topics_of(self@.subscriptions, peer_view(info.peer)),
                        );
                        if too_large(no_topic_graph(), body_wire) {
                            r == fail::<U, T, S>(Error::Serialize)
                        } else {
                            &&& r matches Ok(acts)
                            &&& acts@.len() == 1
                            &&& sends_sealed(
                                acts@[0],
                                info.connection_info,
                                self@.keypair.pubkey@,
                                info.peer.precomputed@,
                                *now,
                                body_wire,
                            )
                        }
                    },
                },
                _ => r == fail::<U, T, S>(Error::EventMismatch),
            },
    {
        match &message_opened.body {
            Event::QuerySubscriptions => {
                let peer_info = match self.find_peer(pubkey_sender, None) {
                    Some(p) => p,
                    None => return Err(Error::PeerNotFound(*pubkey_sender)),
                };
                let ghost v = peer_view(peer_info.peer);
                let ghost subs = self@.subscriptions;
                let mut topics: Vec<T> = Vec::new();
                let mut i: usize = 0;
                while i < self.subscriptions.len()
                    invariant
                        i <= subs.len(),
                        subs == self@.subscriptions,
                        subs.len() == self.subscriptions@.len(),
                        v == peer_view(peer_info.peer),
                        topics@.len() == topics_of(subs.take(i as int), v).len(),
                        wires(topics@) == wires(topics_of(subs.take(i as int), v)),
                    decreases subs.len() - i,
                {
                    let entry = &self.subscriptions[i];
                    proof {
                        assert(subs.take(i + 1).drop_last() =~= subs.take(i as int));
                        assert(subs.take(i + 1).last() == subs[i as int]);
                        assert(subs[i as int].1 == entry.1@);
                        assert(subs[i as int].0 == entry.0);
                    }
                    let ghost sel = topics_of(subs.take(i as int), v);
                    if find_subscriber_index(&entry.1, &peer_info.peer).is_some() {
                        let t = entry.0.duplicate();
                        let ghost before = topics@;
                        topics.push(t);
                        proof {
                            assert(topics@.drop_last() =~= before);
                            assert(topics@.last() == t);
                            assert(wires(topics@) == wires(before) + t.wire());
                            assert(topics_of(subs.take(i + 1), v) =~= sel.push(entry.0));
                            assert(sel.push(entry.0).drop_last() =~= sel);
                            assert(wires(sel.push(entry.0)) == wires(sel) + entry.0.wire());
                        }
                    } else {
                        assert(topics_of(subs.take(i + 1), v) =~= sel);
                    }
                    i = i + 1;
                }
                assert(subs.take(i as int) =~= subs);
                let body = Event::<U, T, S>::ActiveSubscriptions(topics);
                assert(body.wire() =~= active_subscriptions_wire(topics_of(subs, v)));
                let sealed = match self.seal_body(&peer_info.peer, body, now) {
                    Ok(w) => w,
                    Err(e) => return Err(e),
                };
                let mut actions: Vec<Action<U, T, S>> = Vec::new();
                actions.push(Action::MessageSend(peer_info.connection_info, sealed));
                Ok(actions)
            },
            _ => Err(Error::EventMismatch),
        }
    }

    /// Initialize outgoing relations with another peer: record the pending
    /// init and send the peer our public key.
    pub fn init_comm<U, S>(&self, connection_info: ConnectionInfo, now: &Timestamp) -> (r: Result<
        Vec<Action<U, T, S>>,
    >)
        ensures
            r matches Ok(acts) && acts@ == seq![
                Action::<U, T, S>::Sync(
                    SyncAction::SetPendingPeer(PendingPeer { connection_info, created: *now }),
                ),
                Action::<U, T, S>::MessageSend(
                    connection_info,
                    MessageWrapped::Init(PeerPubkey { inner: self@.keypair.pubkey }),
                ),
            ],
    {
        let message_wrapped = MessageWrapped::Init(self.keypair.to_pubkey());
        let mut actions: Vec<Action<U, T, S>> = Vec::new();
        actions.push(Action::Sync(SyncAction::SetPendingPeer(PendingPeer::new(connection_info, *now))));
        actions.push(Action::MessageSend(connection_info, message_wrapped));
        assert(actions@ =~= seq![
            Action::<U, T, S>::Sync(
                SyncAction::SetPendingPeer(PendingPeer { connection_info, created: *now }),
            ),
            Action::<U, T, S>::MessageSend(
                connection_info,
                MessageWrapped::Init(PeerPubkey { inner: self@.keypair.pubkey }),
            ),
        ]);
        Ok(actions)
    }
}

/// The records after we meet the peer of `info`: it is recorded unless we
/// know a peer with its key already.
pub open spec fn welcome<T: Wire>(m: SyncModel<T>, info: PeerInfo) -> SyncModel<T> {
    if m.find_peer(info.peer.pubkey@, None) is None {
        m.set_peer(info)
    } else {
        m
    }
}

impl<T> SyncModel<T> {
    /// The key with which `process_incoming_message` opens a message from
    /// `pk`: from the sender's record if it is an active peer, otherwise
    /// computed afresh from our secret key.
    pub open spec fn key_for_active(self, pk: PeerPubkey) -> Seq<u8> {
        match self.find_peer(pk@, Some(true)) {
            Some(info) => info.peer.precomputed@,
            None => spec_precompute(pk@, self.keypair.seckey@),
        }
    }

    /// How `process_incoming_message` screens a message from `pk` whose
    /// opening gave `opened`: an error from opening stands; a message from a
    /// sender that is not an active peer is refused with `PeerNotFound`
    /// unless it is a `Hello` or a `PeerInit`.
    pub open spec fn screen_active<U, S>(self, pk: PeerPubkey, opened: Result<Message<U, T, S>>) -> Result<
        Message<U, T, S>,
    > {
        match opened {
            Ok(m) => if self.find_peer(pk@, Some(true)) is None && !allowed_from_stranger(m.body) {
                Err(Error::PeerNotFound(pk))
            } else {
                Ok(m)
            },
            Err(e) => Err(e),
        }
    }
}

/// What answering a `Hello` from `pk` that came in at `conn` gives: nothing
/// unless we initiated contact with `conn`; otherwise the peer is recorded
/// (inactive) unless we know it, the pending init is dropped, and our
/// `PeerInit` goes back, sealed for the peer. `m` is the state before and
/// `after` the state after.
pub open spec fn hello_outcome<U: Wire, T: Wire, S: Wire>(
    m: SyncModel<T>,
    pk: PeerPubkey,
    conn: ConnectionInfo,
    now: Timestamp,
    r: Result<Vec<Action<U, T, S>>>,
    after: SyncModel<T>,
) -> bool {
    if m.find_pending_peer_init(conn) is None {
        r matches Ok(acts) && acts@.len() == 0 && after == m
    } else {
        let body_wire = Event::<U, T, S>::PeerInit { name: m.name }.wire();
        if too_large(no_topic_graph(), body_wire) {
            r == fail::<U, T, S>(Error::Serialize) && after == m
        } else {
            &&& r matches Ok(acts)
            &&& acts@.len() == 1
            &&& sends_sealed(
                acts@[0],
                conn,
                m.keypair.pubkey@,
                spec_precompute(pk@, m.keypair.seckey@),
                now,
                body_wire,
            )
            &&& exists|info: PeerInfo|
                #[trigger] is_new_peer_info(info, pk, m.keypair.seckey@, conn, now) && after
                    == welcome(m, info).unset_pending_peer(conn)
        }
    }
}

impl<T: Wire> Sync<T> {
    /// Process an incoming message meant for the sync system, applying the
    /// changes to our records that it calls for and returning the actions
    /// left to take (the messages to send).
    ///
    /// An `Init` records its peer (inactive) unless we know it, and is
    /// answered with a `Hello` so the peer can have our key. A sealed
    /// message is opened with the key of its sender's record if the sender
    /// is an active peer, otherwise with a key computed afresh; a sender that
    /// is not an active peer may only send `Hello` or `PeerInit`. A `Hello`
    /// is answered only when we initiated contact with its connection: the
    /// peer is recorded unless we know it, the pending init is dropped, and
    /// our `PeerInit` is sent back. Any other event is for its own
    /// `process_event_*` function and gives `EventMismatch`.
    pub fn process_incoming_message<U: Wire, S: Wire>(
        &mut self,
        message_wrapped: &MessageWrapped,
        connection_info: ConnectionInfo,
        now: &Timestamp,
    ) -> (r: Result<Vec<Action<U, T, S>>>)
        ensures
            old(self)@.wf() ==> final(self)@.wf(),
            message_wrapped matches MessageWrapped::Init(pk) ==> ({
                &&& r matches Ok(acts)
                &&& acts@.len() == 1
                &&& sends_sealed(
                    acts@[0],
                    connection_info,
                    old(self)@.keypair.pubkey@,
                    spec_precompute(pk@, old(self)@.keypair.seckey@),
                    *now,
                    Event::<U, T, S>::Hello.wire(),
                )
                &&& exists|info: PeerInfo|
                    #[trigger] is_new_peer_info(
                        info,
                        *pk,
                        old(self)@.keypair.seckey@,
                        connection_info,
                        *now,
                    ) && final(self)@ == welcome(old(self)@, info)
            }),
            message_wrapped matches MessageWrapped::Sealed(s) ==> exists|
                opened: Result<Message<U, T, S>>,
            |
                #[trigger] open_outcome(*s, old(self)@.key_for_active(s.pubkey_sender), opened)
                    && match old(self)@.screen_active(s.pubkey_sender, opened) {
                    Err(e) => r == fail::<U, T, S>(e) && final(self)@ == old(self)@,
                    Ok(msg) => if msg.body is Hello {
                        hello_outcome(
                            old(self)@,
                            s.pubkey_sender,
                            connection_info,
                            *now,
                            r,
                            final(self)@,
                        )
                    } else {
                        r == fail::<U, T, S>(Error::EventMismatch) && final(self)@ == old(self)@
                    },
                },
    {
        let ghost m = self@;
        match message_wrapped {
            MessageWrapped::Init(pubkey) => {
                let new_peer = Peer::tmp(pubkey, &self.keypair.seckey);
                let body = Event::<U, T, S>::Hello;
                assert(body.wire() =~= seq![0u8]);
                let outgoing = match self.seal_body(&new_peer, body, now) {
                    Ok(w) => w,
                    Err(e) => return Err(e),
                };
                let info = PeerInfo::new(new_peer, connection_info, false, *now);
                // if we haven't already, add this peer to our list (as inactive)
                if self.find_peer(pubkey, None).is_none() {
                    proof {
                        if m.wf() {
                            law_step_keeps_wf(m, SyncAction::SetPeer(info));
                        }
                    }
                    self.apply_sync_action(SyncAction::SetPeer(info));
                }
                assert(is_new_peer_info(info, *pubkey, m.keypair.seckey@, connection_info, *now));
                assert(self@ == welcome(m, info));
                let mut actions: Vec<Action<U, T, S>> = Vec::new();
                actions.push(Action::MessageSend(connection_info, outgoing));
                Ok(actions)
            },
            MessageWrapped::Sealed(sealed) => {
                let pubkey = &sealed.pubkey_sender;
                let active_peer = self.find_peer(pubkey, Some(true));
                let opened = match active_peer {
                    Some(peer_from) => sealed.open::<U, T, S>(&peer_from.peer),
                    None => {
                        let tmp_peer = Peer::tmp(pubkey, &self.keypair.seckey);
                        sealed.open::<U, T, S>(&tmp_peer)
                    },
                };
                let known = active_peer.is_some();
                assert(open_outcome(*sealed, m.key_for_active(*pubkey), opened));
                let ghost o = opened;
                let message_opened = match opened {
                    Ok(msg) => msg,
                    Err(e) => return Err(e),
                };
                // a sender that is not an active peer may only say `Hello`
                // or `PeerInit`
                if !known {
                    match &message_opened.body {
                        Event::Hello | Event::PeerInit { .. } => {},
                        _ => return Err(Error::PeerNotFound(*pubkey)),
                    }
                }
                assert(m.screen_active(*pubkey, o) == Ok::<Message<U, T, S>, Error>(message_opened));
                if !matches!(message_opened.body, Event::Hello) {
                    return Err(Error::EventMismatch);
                }
                // don't process a `Hello` unless we initiated it.
                if self.find_pending_peer_init(&connection_info).is_none() {
                    return Ok(Vec::new());
                }
                let new_peer = Peer::tmp(pubkey, &self.keypair.seckey);
                let body = Event::<U, T, S>::PeerInit { name: self.name.clone() };
                let outgoing = match self.seal_body(&new_peer, body, now) {
                    Ok(w) => w,
                    Err(e) => return Err(e),
                };
                let info = PeerInfo::new(new_peer, connection_info, false, *now);
                if self.find_peer(pubkey, None).is_none() {
                    proof {
                        if m.wf() {
                            law_step_keeps_wf(m, SyncAction::SetPeer(info));
                        }
                    }
                    self.apply_sync_action(SyncAction::SetPeer(info));
                }
                assert(self@ == welcome(m, info));
                // now that the peer is in our list, we can remove the pending
                // init entry
                proof {
                    if m.wf() {
                        law_step_keeps_wf(self@, SyncAction::UnsetPendingPeer(connection_info));
                    }
                }
                self.apply_sync_action(SyncAction::UnsetPendingPeer(connection_info));
                assert(is_new_peer_info(info, *pubkey, m.keypair.seckey@, connection_info, *now));
                let mut actions: Vec<Action<U, T, S>> = Vec::new();
                actions.push(Action::MessageSend(connection_info, outgoing));
                Ok(actions)
            },
        }
    }

    /// Initialize outgoing relations with another peer, recording the
    /// pending init at once (unless one for the connection is already
    /// there) and returning the message that sends the peer our public key.
    pub fn peer_init<U, S>(&mut self, connection_info: ConnectionInfo, now: &Timestamp) -> (r: Result<
        Vec<Action<U, T, S>>,
    >)
        ensures
            r matches Ok(acts) && acts@ == seq![
                Action::<U, T, S>::MessageSend(
                    connection_info,
                    MessageWrapped::Init(PeerPubkey { inner: old(self)@.keypair.pubkey }),
                ),
            ],
            final(self)@ == old(self)@.set_pending_peer(
                PendingPeer { connection_info, created: *now },
            ),
            old(self)@.wf() ==> final(self)@.wf(),
    {
        let message_wrapped = MessageWrapped::Init(self.keypair.to_pubkey());
        let pending = PendingPeer::new(connection_info, *now);
        proof {
            if self@.wf() {
                law_step_keeps_wf(self@, SyncAction::SetPendingPeer(pending));
            }
        }
        self.apply_sync_action(SyncAction::SetPendingPeer(pending));
        let mut actions: Vec<Action<U, T, S>> = Vec::new();
        actions.push(Action::MessageSend(connection_info, message_wrapped));
        assert(actions@ =~= seq![
            Action::<U, T, S>::MessageSend(
                connection_info,
                MessageWrapped::Init(PeerPubkey { inner: old(self)@.keypair.pubkey }),
            ),
        ]);
        Ok(actions)
    }
}

/// The selection from all messages starts with the selection from a prefix.
proof fn lemma_selected_prefix<U, T: Wire, S>(
    m: SyncModel<T>,
    v: (Seq<char>, Seq<u8>, Seq<u8>),
    msgs: Seq<Message<U, T, S>>,
    n: int,
)
    requires
        0 <= n <= msgs.len(),
    ensures
        m.selected(v, msgs.take(n)).len() <= m.selected(v, msgs).len(),
        forall|k: int|
            0 <= k < m.selected(v, msgs.take(n)).len() ==> #[trigger] m.selected(v, msgs)[k]
                == m.selected(v, msgs.take(n))[k],
    decreases msgs.len() - n,
{
    if n < msgs.len() {
        lemma_selected_prefix(m, v, msgs, n + 1);
        assert(msgs.take(n + 1).drop_last() =~= msgs.take(n));
    } else {
        assert(msgs.take(n) =~= msgs);
    }
}

} // verus!
