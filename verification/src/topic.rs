//! Topics that peers subscribe to, and the subscriptions that request them.

use vstd::prelude::*;
use crate::identity::{IdentityProof, Pubkey as IdentityPubkey};
use crate::wire::{Wire, decode2, decode_u8, lemma_tag_unique, lemma_tagged, lemma_wire_unique2, prefixed, u8_wire};

verus! {

/// Describes a topic that can be subscribed to. Peers subscribe to topics in
/// order to be notified of messages that are important to them.
#[derive(Debug, Clone, PartialEq, Eq, Hash)]
pub enum Topic {
    /// Any messages destined for a particular identity.
    Identity(IdentityPubkey),
}

/// A subscription to a topic. Generally, this requires some kind of proof or
/// authorization that determines the validity of the subscription.
#[derive(Debug, Clone, PartialEq)]
pub enum Subscription {
    /// A subscription to any messages pertaining to an identity, with proof
    /// that the subscriber owns the identity.
    Identity(IdentityPubkey, IdentityProof),
}

/// A topic is the key of the identity it is for.
impl DeepView for Topic {
    type V = Seq<u8>;

    open spec fn deep_view(&self) -> Seq<u8> {
        match self {
            Topic::Identity(pk) => pk.deep_view(),
        }
    }
}

impl Wire for Topic {
    open spec fn wire(&self) -> Seq<u8> {
        match self {
            Topic::Identity(pk) => seq![0u8] + pk.wire(),
        }
    }

    proof fn lemma_wire_nonempty(&self) {
    }

    fn encode(&self, out: &mut Vec<u8>) {
        match self {
            Topic::Identity(pk) => {
                out.push(0u8);
                pk.encode(out);
            },
        }
        assert(out@ =~= old(out)@ + self.wire());
    }

    fn decode(buf: &[u8], pos: usize) -> (r: Option<(Topic, usize)>) {
        proof {
            assert forall|x: Topic| #[trigger] prefixed(buf@, pos as int, x.wire()) implies prefixed(
                buf@,
                pos as int,
                u8_wire(0u8),
            ) && prefixed(buf@, pos + 1, x->Identity_0.wire()) by {
                lemma_tagged(buf@, pos as int, 0u8, x->Identity_0.wire());
            }
        }
        let (tag, p) = match decode_u8(buf, pos) {
            Some(v) => v,
            None => return None,
        };
        if tag != 0 {
            return None;
        }
        match IdentityPubkey::decode(buf, p) {
            Some((pk, end)) => {
                proof {
                    crate::wire::lemma_subrange_join(buf@, pos as int, p as int, end as int);
                    assert(buf@.subrange(pos as int, end as int) =~= Topic::Identity(pk).wire());
                }
                Some((Topic::Identity(pk), end))
            },
            None => None,
        }
    }

    fn duplicate(&self) -> (r: Topic) {
        match self {
            Topic::Identity(pk) => Topic::Identity(pk.duplicate()),
        }
    }

    proof fn lemma_wire_unique(&self, other: &Topic, rest: Seq<u8>, other_rest: Seq<u8>) {
        match (self, other) {
            (Topic::Identity(a), Topic::Identity(b)) => {
                lemma_tag_unique(0u8, 0u8, a.wire(), b.wire(), rest, other_rest);
                a.lemma_wire_unique(b, rest, other_rest);
            },
        }
    }
}

/// A subscription is the identity's key and the proof.
impl DeepView for Subscription {
    type V = (Seq<u8>, Seq<u8>);

    open spec fn deep_view(&self) -> (Seq<u8>, Seq<u8>) {
        match self {
            Subscription::Identity(pk, pf) => (pk.deep_view(), pf.deep_view()),
        }
    }
}

impl Wire for Subscription {
    open spec fn wire(&self) -> Seq<u8> {
        match self {
            Subscription::Identity(pk, pf) => seq![0u8] + (pk.wire() + pf.wire()),
        }
    }

    proof fn lemma_wire_nonempty(&self) {
    }

    fn encode(&self, out: &mut Vec<u8>) {
        match self {
            Subscription::Identity(pk, pf) => {
                out.push(0u8);
                pk.encode(out);
                pf.encode(out);
            },
        }
        assert(out@ =~= old(out)@ + self.wire());
    }

    fn decode(buf: &[u8], pos: usize) -> (r: Option<(Subscription, usize)>) {
        proof {
            assert forall|x: Subscription| #[trigger] prefixed(buf@, pos as int, x.wire()) implies prefixed(
                buf@,
                pos as int,
                u8_wire(0u8),
            ) && prefixed(buf@, pos + 1, x->Identity_0.wire() + x->Identity_1.wire()) by {
                lemma_tagged(buf@, pos as int, 0u8, x->Identity_0.wire() + x->Identity_1.wire());
            }
        }
        let (tag, p) = match decode_u8(buf, pos) {
            Some(v) => v,
            None => return None,
        };
        if tag != 0 {
            return None;
        }
        match decode2::<IdentityPubkey, IdentityProof>(buf, p) {
            Some((pk, pf, end)) => {
                proof {
                    crate::wire::lemma_subrange_join(buf@, pos as int, p as int, end as int);
                    assert(buf@.subrange(pos as int, end as int) =~= Subscription::Identity(
                        pk,
                        pf,
                    ).wire());
                }
                Some((Subscription::Identity(pk, pf), end))
            },
            None => None,
        }
    }

    fn duplicate(&self) -> (r: Subscription) {
        match self {
            Subscription::Identity(pk, pf) => Subscription::Identity(
                pk.duplicate(),
                pf.duplicate(),
            ),
        }
    }

    proof fn lemma_wire_unique(&self, other: &Subscription, rest: Seq<u8>, other_rest: Seq<u8>) {
        match (self, other) {
            (Subscription::Identity(a, p), Subscription::Identity(b, q)) => {
                lemma_tag_unique(0u8, 0u8, a.wire() + p.wire(), b.wire() + q.wire(), rest, other_rest);
                lemma_wire_unique2(*a, *p, *b, *q, rest, other_rest);
            },
        }
    }
}

} // verus!
