//! Messages: the unit of communication between peers, how they are sealed
//! for a single recipient, and how they are opened again.

use vstd::prelude::*;
use crate::crypto::{self, spec_open, spec_precompute, spec_public_key, spec_seal, MAC_BYTES};
use crate::error::{Error, Result};
use crate::event::{Event, EventView};
use crate::peer::{Peer, Pubkey as PeerPubkey};
use crate::ser;
use crate::util::Timestamp;
use crate::wire::{Wire, decode2, decode3, decode_u8, lemma_subrange_join, lemma_tag_unique, lemma_tagged, lemma_wire_unique2, lemma_wire_unique3, prefixed, u8_wire};

verus! {

/// A message nonce.
pub type Nonce = [u8; 24];

/// Create a new random message nonce.
pub fn gen_nonce() -> (r: Nonce) {
    crypto::gen_nonce()
}

/// A message ID. Allows us to distinguish messages.
#[derive(Debug, Clone, Copy, PartialEq, Eq, PartialOrd, Ord)]
pub struct MessageID {
    /// Timestamp of the ID.
    pub timestamp: Timestamp,
    /// Random nonce for each message.
    pub nonce: Nonce,
}

impl MessageID {
    /// Create a new MessageID.
    pub fn new(timestamp: Timestamp, nonce: Nonce) -> (r: MessageID)
        ensures
            r == (MessageID { timestamp, nonce }),
    {
        MessageID { timestamp, nonce }
    }

    /// Timestamp of the ID.
    pub fn timestamp(&self) -> (r: &Timestamp)
        ensures
            *r == self.timestamp,
    {
        &self.timestamp
    }

    /// Nonce of the ID.
    pub fn nonce(&self) -> (r: &Nonce)
        ensures
            *r == self.nonce,
    {
        &self.nonce
    }
}

/// A message id is its timestamp and the bytes of its nonce.
impl DeepView for MessageID {
    type V = (Timestamp, Seq<u8>);

    open spec fn deep_view(&self) -> (Timestamp, Seq<u8>) {
        (self.timestamp, self.nonce@)
    }
}

impl Wire for MessageID {
    open spec fn wire(&self) -> Seq<u8> {
        self.timestamp.wire() + self.nonce.wire()
    }

    proof fn lemma_wire_nonempty(&self) {
    }

    fn encode(&self, out: &mut Vec<u8>) {
        self.timestamp.encode(out);
        self.nonce.encode(out);
        assert(out@ =~= old(out)@ + self.wire());
    }

    fn decode(buf: &[u8], pos: usize) -> (r: Option<(MessageID, usize)>) {
        proof {
            assert forall|x: MessageID| #[trigger] prefixed(buf@, pos as int, x.wire()) implies prefixed(
                buf@,
                pos as int,
                x.timestamp.wire() + x.nonce.wire(),
            ) by {}
        }
        match decode2::<Timestamp, Nonce>(buf, pos) {
            Some((timestamp, nonce, end)) => Some((MessageID { timestamp, nonce }, end)),
            None => None,
        }
    }

    fn duplicate(&self) -> (r: MessageID) {
        *self
    }

    proof fn lemma_wire_unique(&self, other: &MessageID, rest: Seq<u8>, other_rest: Seq<u8>) {
        lemma_wire_unique2(self.timestamp, self.nonce, other.timestamp, other.nonce, rest, other_rest);
        assert(self.nonce.deep_view() =~= self.nonce@);
        assert(other.nonce.deep_view() =~= other.nonce@);
    }
}

/// Links this message as a child of one or more other messages *in the
/// context of a single topic*.
#[derive(Debug, Clone, PartialEq)]
pub struct TopicGraphEntry<T> {
    /// The topic this entry pertains to.
    pub topic: T,
    /// Holds the MessageIDs of any parent messages (generally one, but can be
    /// multiple). This helps with partial ordering of events.
    pub parents: Vec<MessageID>,
    /// Effectively gives us a loose ordering of events. This message's depth
    /// value should always be greater than the messages it is referencing.
    pub depth: u64,
}

impl<T> TopicGraphEntry<T> {
    /// Create a new TopicGraphEntry, allowing a message to link back to
    /// previous messages in a particular topic.
    pub fn new(topic: T, parents: Vec<MessageID>, depth: u64) -> (r: TopicGraphEntry<T>)
        ensures
            r == (TopicGraphEntry { topic, parents, depth }),
    {
        TopicGraphEntry { topic, parents, depth }
    }

    /// The topic this entry pertains to.
    pub fn topic(&self) -> (r: &T)
        ensures
            *r == self.topic,
    {
        &self.topic
    }

    /// The parent messages.
    pub fn parents(&self) -> (r: &Vec<MessageID>)
        ensures
            *r == self.parents,
    {
        &self.parents
    }

    /// The depth.
    pub fn depth(&self) -> (r: &u64)
        ensures
            *r == self.depth,
    {
        &self.depth
    }
}

/// A topic graph entry is the value of its topic, of each parent, and its
/// depth.
impl<T: DeepView> DeepView for TopicGraphEntry<T> {
    type V = (T::V, Seq<(Timestamp, Seq<u8>)>, u64);

    open spec fn deep_view(&self) -> (T::V, Seq<(Timestamp, Seq<u8>)>, u64) {
        (self.topic.deep_view(), self.parents.deep_view(), self.depth)
    }
}

impl<T: Wire> Wire for TopicGraphEntry<T> {
    open spec fn wire(&self) -> Seq<u8> {
        self.topic.wire() + self.parents.wire() + self.depth.wire()
    }

    proof fn lemma_wire_nonempty(&self) {
        self.topic.lemma_wire_nonempty();
    }

    fn encode(&self, out: &mut Vec<u8>) {
        self.topic.encode(out);
        self.parents.encode(out);
        self.depth.encode(out);
        assert(out@ =~= old(out)@ + self.wire());
    }

    fn decode(buf: &[u8], pos: usize) -> (r: Option<(TopicGraphEntry<T>, usize)>) {
        match decode3::<T, Vec<MessageID>, u64>(buf, pos) {
            Some((topic, parents, depth, end)) => Some((TopicGraphEntry { topic, parents, depth }, end)),
            None => None,
        }
    }

    fn duplicate(&self) -> (r: TopicGraphEntry<T>) {
        TopicGraphEntry {
            topic: self.topic.duplicate(),
            parents: self.parents.duplicate(),
            depth: self.depth,
        }
    }

    proof fn lemma_wire_unique(&self, other: &TopicGraphEntry<T>, rest: Seq<u8>, other_rest: Seq<u8>) {
        lemma_wire_unique3(
            self.topic,
            self.parents,
            self.depth,
            other.topic,
            other.parents,
            other.depth,
            rest,
            other_rest,
        );
    }
}

/// A message, the basis for communication between peers.
#[derive(Debug, Clone, PartialEq)]
pub struct Message<U, T, S> {
    /// The id of this message. Hopefully unique.
    pub id: MessageID,
    /// Allows (partial) ordering of messages on a topic-based basis. Left
    /// empty, it signals that the message is a broadcast.
    pub topic_graph: Vec<TopicGraphEntry<T>>,
    /// The message body.
    pub body: Event<U, T, S>,
}

impl<U, T, S> Message<U, T, S> {
    /// Create a new message.
    pub fn new(id: MessageID, body: Event<U, T, S>, topic_graph: Vec<TopicGraphEntry<T>>) -> (r:
        Message<U, T, S>)
        ensures
            r == (Message { id, topic_graph, body }),
    {
        Message { id, topic_graph, body }
    }

    /// The id of this message.
    pub fn id(&self) -> (r: &MessageID)
        ensures
            *r == self.id,
    {
        &self.id
    }

    /// The topic graph of this message.
    pub fn topic_graph(&self) -> (r: &Vec<TopicGraphEntry<T>>)
        ensures
            *r == self.topic_graph,
    {
        &self.topic_graph
    }

    /// The message body.
    pub fn body(&self) -> (r: &Event<U, T, S>)
        ensures
            *r == self.body,
    {
        &self.body
    }
}

/// A message is the value of its id, of each entry of its topic graph, and
/// of its body.
impl<U: DeepView, T: DeepView, S: DeepView> DeepView for Message<U, T, S> {
    type V = ((Timestamp, Seq<u8>), Seq<(T::V, Seq<(Timestamp, Seq<u8>)>, u64)>, EventView<U::V, T::V, S::V>);

    open spec fn deep_view(&self) -> Self::V {
        (self.id.deep_view(), self.topic_graph.deep_view(), self.body.deep_view())
    }
}

impl<U: Wire, T: Wire, S: Wire> Wire for Message<U, T, S> {
    open spec fn wire(&self) -> Seq<u8> {
        self.id.wire() + self.topic_graph.wire() + self.body.wire()
    }

    proof fn lemma_wire_nonempty(&self) {
    }

    fn encode(&self, out: &mut Vec<u8>) {
        self.id.encode(out);
        self.topic_graph.encode(out);
        self.body.encode(out);
        assert(out@ =~= old(out)@ + self.wire());
    }

    fn decode(buf: &[u8], pos: usize) -> (r: Option<(Message<U, T, S>, usize)>) {
        match decode3::<MessageID, Vec<TopicGraphEntry<T>>, Event<U, T, S>>(buf, pos) {
            Some((id, topic_graph, body, end)) => Some((Message { id, topic_graph, body }, end)),
            None => None,
        }
    }

    fn duplicate(&self) -> (r: Message<U, T, S>) {
        Message {
            id: self.id,
            topic_graph: self.topic_graph.duplicate(),
            body: self.body.duplicate(),
        }
    }

    proof fn lemma_wire_unique(&self, other: &Message<U, T, S>, rest: Seq<u8>, other_rest: Seq<u8>) {
        lemma_wire_unique3(
            self.id,
            self.topic_graph,
            self.body,
            other.id,
            other.topic_graph,
            other.body,
            rest,
            other_rest,
        );
    }
}

/// A sealed message. Can only be opened with the key shared between its
/// sender and its recipient.
#[derive(Debug, Clone, PartialEq)]
pub struct MessageSealed {
    /// The nonce the body was sealed with.
    pub nonce: Nonce,
    /// Who this message is supposedly from (we'll know for certain once we
    /// attempt to decrypt).
    pub pubkey_sender: PeerPubkey,
    /// The encrypted body of our message. This decodes to a [Message].
    pub sealed_body: Vec<u8>,
}

/// `s` is `message` sealed by `sender` with the precomputed key `key`.
pub open spec fn seals<U: Wire, T: Wire, S: Wire>(
    s: MessageSealed,
    sender: PeerPubkey,
    key: Seq<u8>,
    message: Message<U, T, S>,
) -> bool {
    &&& s.nonce == message.id.nonce
    &&& s.pubkey_sender@ == sender@
    &&& s.sealed_body@ == spec_seal(message.wire(), message.id.nonce@, key)
    &&& spec_open(s.sealed_body@, s.nonce@, key) == Some(message.wire())
}

/// What sealing `message` for the holder of `key` gives: the sealed message,
/// or `Error::Serialize` when the encoded message is too large to seal.
pub open spec fn seal_outcome<U: Wire, T: Wire, S: Wire>(
    r: Result<MessageSealed>,
    sender: PeerPubkey,
    key: Seq<u8>,
    message: Message<U, T, S>,
) -> bool {
    if message.wire().len() + MAC_BYTES > usize::MAX {
        r == Err::<MessageSealed, Error>(Error::Serialize)
    } else {
        r matches Ok(s) && seals(s, sender, key, message)
    }
}

/// What opening `s` with `key` gives: `Error::MessageOpenFailed` when the
/// ciphertext does not verify under the key; otherwise the message at the
/// start of the plaintext, or `Error::Deserialize` when the plaintext does
/// not start with one.
pub open spec fn open_outcome<U: Wire, T: Wire, S: Wire>(
    s: MessageSealed,
    key: Seq<u8>,
    r: Result<Message<U, T, S>>,
) -> bool {
    match spec_open(s.sealed_body@, s.nonce@, key) {
        None => r == Err::<Message<U, T, S>, Error>(Error::MessageOpenFailed),
        Some(plain) => {
            &&& (r matches Ok(m) ==> prefixed(plain, 0, m.wire()))
            &&& (forall|x: Message<U, T, S>| #[trigger]
                prefixed(plain, 0, x.wire()) ==> (r matches Ok(m) && m.wire() == x.wire()
                    && m.deep_view() == x.deep_view()))
            &&& (r is Err ==> r == Err::<Message<U, T, S>, Error>(Error::Deserialize))
        },
    }
}

impl MessageSealed {
    /// Creates a new encrypted message meant for a single recipient.
    pub fn create<U: Wire, T: Wire, S: Wire>(
        pubkey_sender: &PeerPubkey,
        peer_to: &Peer,
        now: Timestamp,
        nonce: Nonce,
        body: Event<U, T, S>,
        topic_graph: Vec<TopicGraphEntry<T>>,
    ) -> (r: Result<MessageSealed>)
        ensures
            seal_outcome(
                r,
                *pubkey_sender,
                peer_to.precomputed@,
                Message { id: MessageID { timestamp: now, nonce }, topic_graph, body },
            ),
    {
        let id = MessageID::new(now, nonce);
        let msg = Message::new(id, body, topic_graph);
        Self::seal(pubkey_sender, peer_to, &msg)
    }

    /// Seal an existing message for `peer_to`.
    pub fn seal<U: Wire, T: Wire, S: Wire>(
        pubkey_sender: &PeerPubkey,
        peer_to: &Peer,
        message: &Message<U, T, S>,
    ) -> (r: Result<MessageSealed>)
        ensures
            seal_outcome(r, *pubkey_sender, peer_to.precomputed@, *message),
    {
        let serialized_body = ser::serialize(message);
        if serialized_body.len() > usize::MAX - MAC_BYTES {
            return Err(Error::Serialize);
        }
        let sealed = crypto::seal_precomputed(
            serialized_body.as_slice(),
            &message.id.nonce,
            &peer_to.precomputed,
        );
        Ok(MessageSealed { nonce: message.id.nonce, pubkey_sender: *pubkey_sender, sealed_body: sealed })
    }

    /// Open a sealed message and return the inner Message object.
    pub fn open<U: Wire, T: Wire, S: Wire>(&self, peer_from: &Peer) -> (r: Result<Message<U, T, S>>)
        ensures
            open_outcome(*self, peer_from.precomputed@, r),
    {
        match crypto::open_precomputed(self.sealed_body.as_slice(), &self.nonce, &peer_from.precomputed) {
            None => Err(Error::MessageOpenFailed),
            Some(open_bytes) => ser::deserialize(open_bytes.as_slice()),
        }
    }

    /// The nonce the body was sealed with.
    pub fn nonce(&self) -> (r: &Nonce)
        ensures
            *r == self.nonce,
    {
        &self.nonce
    }

    /// Who this message is supposedly from.
    pub fn pubkey_sender(&self) -> (r: &PeerPubkey)
        ensures
            *r == self.pubkey_sender,
    {
        &self.pubkey_sender
    }

    /// The encrypted body.
    pub fn sealed_body(&self) -> (r: &Vec<u8>)
        ensures
            *r == self.sealed_body,
    {
        &self.sealed_body
    }
}

/// A message sealed for the holder of a key opens, with that key, to the
/// same message: the same id, topic graph and body.
pub proof fn law_open_after_seal<U: Wire, T: Wire, S: Wire>(
    message: Message<U, T, S>,
    sender: PeerPubkey,
    key: Seq<u8>,
    sealed: Result<MessageSealed>,
    opened: Result<Message<U, T, S>>,
)
    requires
        seal_outcome(sealed, sender, key, message),
        sealed is Ok,
        open_outcome(sealed->Ok_0, key, opened),
    ensures
        opened matches Ok(m) && m.wire() == message.wire() && m.deep_view() == message.deep_view(),
{
    let s = sealed->Ok_0;
    assert(message.wire().subrange(0, message.wire().len() as int) =~= message.wire());
    assert(prefixed(message.wire(), 0, message.wire()));
    assert(!(message.wire().len() + MAC_BYTES > usize::MAX));
    assert(seals(s, sender, key, message));
    assert(spec_open(s.sealed_body@, s.nonce@, key) == Some(message.wire()));
    let plain = message.wire();
    assert(open_outcome(s, key, opened));
    assert(spec_open(s.sealed_body@, s.nonce@, key) is Some);
    assert(spec_open(s.sealed_body@, s.nonce@, key)->0 == plain);
    assert(forall|x: Message<U, T, S>| #[trigger]
        prefixed(plain, 0, x.wire()) ==> (opened matches Ok(m) && m.wire() == x.wire()));
    assert(prefixed(plain, 0, message.wire()));
}

/// A message that one side seals for a peer opens at that peer, with the
/// key the peer keeps for the sender, to the same message.
/// `to_recipient` is the sender's record of the recipient and `from_sender`
/// the recipient's record of the sender, each made (by `Peer::new` or
/// `Peer::tmp`) from the other side's public key and its own secret key.
pub proof fn law_recipient_opens_sealed_message<U: Wire, T: Wire, S: Wire>(
    message: Message<U, T, S>,
    sender: PeerPubkey,
    sender_seckey: Seq<u8>,
    recipient_seckey: Seq<u8>,
    to_recipient: Peer,
    from_sender: Peer,
    sealed: Result<MessageSealed>,
    opened: Result<Message<U, T, S>>,
)
    requires
        to_recipient.pubkey@ == spec_public_key(recipient_seckey),
        forall|their_seckey: Seq<u8>|
            #[trigger] spec_public_key(their_seckey) == to_recipient.pubkey@
                ==> to_recipient.precomputed@ == spec_precompute(
                spec_public_key(sender_seckey),
                their_seckey,
            ),
        from_sender.precomputed@ == spec_precompute(
            spec_public_key(sender_seckey),
            recipient_seckey,
        ),
        seal_outcome(sealed, sender, to_recipient.precomputed@, message),
        sealed is Ok,
        open_outcome(sealed->Ok_0, from_sender.precomputed@, opened),
    ensures
        opened matches Ok(m) && m.wire() == message.wire() && m.deep_view() == message.deep_view(),
{
    assert(spec_public_key(recipient_seckey) == to_recipient.pubkey@);
    assert(to_recipient.precomputed@ == from_sender.precomputed@);
    law_open_after_seal(message, sender, to_recipient.precomputed@, sealed, opened);
}

/// A sealed message is the bytes of its nonce, its sender's key and its
/// sealed body.
impl DeepView for MessageSealed {
    type V = (Seq<u8>, Seq<u8>, Seq<u8>);

    open spec fn deep_view(&self) -> (Seq<u8>, Seq<u8>, Seq<u8>) {
        (self.nonce@, self.pubkey_sender@, self.sealed_body@)
    }
}

impl Wire for MessageSealed {
    open spec fn wire(&self) -> Seq<u8> {
        self.nonce.wire() + self.pubkey_sender.wire() + self.sealed_body.wire()
    }

    proof fn lemma_wire_nonempty(&self) {
    }

    fn encode(&self, out: &mut Vec<u8>) {
        self.nonce.encode(out);
        self.pubkey_sender.encode(out);
        self.sealed_body.encode(out);
        assert(out@ =~= old(out)@ + self.wire());
    }

    fn decode(buf: &[u8], pos: usize) -> (r: Option<(MessageSealed, usize)>) {
        match decode3::<Nonce, PeerPubkey, Vec<u8>>(buf, pos) {
            Some((nonce, pubkey_sender, sealed_body, end)) => Some(
                (MessageSealed { nonce, pubkey_sender, sealed_body }, end),
            ),
            None => None,
        }
    }

    fn duplicate(&self) -> (r: MessageSealed) {
        let sealed_body = self.sealed_body.duplicate();
        assert(sealed_body@ =~= self.sealed_body@) by {
            assert(sealed_body.deep_view().len() == self.sealed_body.deep_view().len());
            assert forall|i: int| 0 <= i < sealed_body@.len() implies sealed_body@[i]
                == self.sealed_body@[i] by {
                assert(sealed_body.deep_view()[i] == self.sealed_body.deep_view()[i]);
            }
        }
        MessageSealed { nonce: self.nonce, pubkey_sender: self.pubkey_sender, sealed_body }
    }

    proof fn lemma_wire_unique(&self, other: &MessageSealed, rest: Seq<u8>, other_rest: Seq<u8>) {
        lemma_wire_unique3(
            self.nonce,
            self.pubkey_sender,
            self.sealed_body,
            other.nonce,
            other.pubkey_sender,
            other.sealed_body,
            rest,
            other_rest,
        );
        assert(self.nonce.deep_view() =~= self.nonce@);
        assert(other.nonce.deep_view() =~= other.nonce@);
        assert(self.sealed_body.deep_view() =~= self.sealed_body@);
        assert(other.sealed_body.deep_view() =~= other.sealed_body@);
    }
}

/// An outer message type. This allows sending specific messages unencrypted,
/// but enforces encryption for all other messages.
#[derive(Debug, Clone, PartialEq)]
pub enum MessageWrapped {
    /// Send a sealed message.
    Sealed(MessageSealed),
    /// Send an unencrypted "hi" message, containing our pubkey. This allows
    /// the peer we send to to initiate encrypted communication.
    Init(PeerPubkey),
}

/// The value of a wrapped message: which kind it is, and the value of what
/// it holds.
pub enum WrappedView {
    /// A sealed message: its nonce, sender's key and sealed body.
    Sealed((Seq<u8>, Seq<u8>, Seq<u8>)),
    /// An unsealed greeting: the sender's key.
    Init(Seq<u8>),
}

/// A wrapped message is the value of what it holds.
impl DeepView for MessageWrapped {
    type V = WrappedView;

    open spec fn deep_view(&self) -> WrappedView {
        match self {
            MessageWrapped::Sealed(s) => WrappedView::Sealed(s.deep_view()),
            MessageWrapped::Init(pk) => WrappedView::Init(pk.deep_view()),
        }
    }
}

impl Wire for MessageWrapped {
    open spec fn wire(&self) -> Seq<u8> {
        match self {
            MessageWrapped::Sealed(s) => seq![0u8] + s.wire(),
            MessageWrapped::Init(pk) => seq![1u8] + pk.wire(),
        }
    }

    proof fn lemma_wire_nonempty(&self) {
    }

    fn encode(&self, out: &mut Vec<u8>) {
        match self {
            MessageWrapped::Sealed(s) => {
                out.push(0u8);
                s.encode(out);
            },
            MessageWrapped::Init(pk) => {
                out.push(1u8);
                pk.encode(out);
            },
        }
        assert(out@ =~= old(out)@ + self.wire());
    }

    fn decode(buf: &[u8], pos: usize) -> (r: Option<(MessageWrapped, usize)>) {
        proof {
            assert forall|x: MessageWrapped| #[trigger] prefixed(buf@, pos as int, x.wire()) implies (
            x is Sealed ==> buf@[pos as int] == 0 && prefixed(buf@, pos as int, u8_wire(0u8)) && prefixed(buf@, pos + 1, x->Sealed_0.wire())) && (
            x is Init ==> buf@[pos as int] == 1 && prefixed(buf@, pos as int, u8_wire(1u8)) && prefixed(buf@, pos + 1, x->Init_0.wire())) by {
                match x {
                    MessageWrapped::Sealed(s) => lemma_tagged(buf@, pos as int, 0u8, s.wire()),
                    MessageWrapped::Init(pk) => lemma_tagged(buf@, pos as int, 1u8, pk.wire()),
                }
            }
        }
        let (tag, p) = match decode_u8(buf, pos) {
            Some(v) => v,
            None => return None,
        };
        assert(buf@.subrange(pos as int, p as int)[0] == buf@[pos as int]);
        if tag == 0 {
            match MessageSealed::decode(buf, p) {
                Some((s, e)) => {
                    let v = MessageWrapped::Sealed(s);
                    proof {
                        lemma_subrange_join(buf@, pos as int, p as int, e as int);
                        assert(buf@.subrange(pos as int, e as int) =~= v.wire());
                    }
                    Some((v, e))
                },
                None => None,
            }
        } else if tag == 1 {
            match PeerPubkey::decode(buf, p) {
                Some((pk, e)) => {
                    let v = MessageWrapped::Init(pk);
                    proof {
                        lemma_subrange_join(buf@, pos as int, p as int, e as int);
                        assert(buf@.subrange(pos as int, e as int) =~= v.wire());
                    }
                    Some((v, e))
                },
                None => None,
            }
        } else {
            None
        }
    }

    fn duplicate(&self) -> (r: MessageWrapped) {
        match self {
            MessageWrapped::Sealed(s) => MessageWrapped::Sealed(s.duplicate()),
            MessageWrapped::Init(pk) => MessageWrapped::Init(*pk),
        }
    }

    proof fn lemma_wire_unique(&self, other: &MessageWrapped, rest: Seq<u8>, other_rest: Seq<u8>) {
        match (self, other) {
            (MessageWrapped::Sealed(a), MessageWrapped::Sealed(b)) => {
                lemma_tag_unique(0u8, 0u8, a.wire(), b.wire(), rest, other_rest);
                a.lemma_wire_unique(b, rest, other_rest);
            },
            (MessageWrapped::Init(a), MessageWrapped::Init(b)) => {
                lemma_tag_unique(1u8, 1u8, a.wire(), b.wire(), rest, other_rest);
                a.lemma_wire_unique(b, rest, other_rest);
            },
            (MessageWrapped::Sealed(a), MessageWrapped::Init(b)) => {
                lemma_tag_unique(0u8, 1u8, a.wire(), b.wire(), rest, other_rest);
            },
            (MessageWrapped::Init(a), MessageWrapped::Sealed(b)) => {
                lemma_tag_unique(1u8, 0u8, a.wire(), b.wire(), rest, other_rest);
            },
        }
    }
}

} // verus!
