//! Events are what we respond to when syncing with other peers. They are
//! always incoming. What we do in response are [actions](crate::action::Action).

use vstd::prelude::*;
use crate::message::MessageID;
use crate::util::Timestamp;
use crate::wire::{Wire, decode2, decode_u8, lemma_subrange_join, lemma_tag_unique, lemma_tagged, lemma_wire_unique2, prefixed, u8_wire};

verus! {

/// Represents a p2p event. All the events here allow setting up topic-based
/// communication channels between peers, except for the `User` event which is
/// used to send your actual application messages between peers.
///
/// There are three generics: `U` ("User") which is your app's custom syncing
/// type, `T` ("Topic") which describes topics, and `S` ("Subscription") which
/// describes a subscription (and implements the
/// [Subscription](crate::subscription::Subscription) trait).
#[derive(Debug, Clone, PartialEq)]
pub enum Event<U, T, S> {
    /// Used to initiate encrypted communication.
    Hello,
    /// Used when a new peer wants to establish a connection with our group.
    PeerInit {
        /// The name the initiating peer wishes to use.
        name: String,
    },
    /// A confirmation that peering is approved.
    PeerConfirm {
        /// The peer name of the confirming peer.
        name: String,
    },
    /// Shake, are you there?
    Ping,
    /// Yes, I'm right beside you.
    Pong,
    /// Ask peers for messages with the given IDs. The peer answers by sending the messages.
    QueryMessagesByID {
        /// The IDs of the messages we want.
        ids: Vec<MessageID>,
    },
    /// Ask peers for messages on a topic after a certain depth. The peer answers by sending the messages.
    QueryMessagesByDepth {
        /// The topic we're querying messages for.
        topic: T,
        /// Find messages after this depth.
        depth: u64,
    },
    /// Subscribe to topic(s).
    Subscribe(Vec<S>),
    /// Unsubscribe from topic(s).
    Unsubscribe(Vec<T>),
    /// Ask a peer which topics we are subscribed to with it.
    QuerySubscriptions,
    /// The topics a peer is subscribed to, in answer to `QuerySubscriptions`.
    ActiveSubscriptions(Vec<T>),
    /// User-defined messages/events. This is where you'll send actual data between your peers.
    User(U),
}

impl<U, T, S> Event<U, T, S> {
    /// The byte that tells the variants apart on the wire.
    pub open spec fn tag(&self) -> u8 {
        match self {
            Event::Hello => 0u8,
            Event::PeerInit { .. } => 1u8,
            Event::PeerConfirm { .. } => 2u8,
            Event::Ping => 3u8,
            Event::Pong => 4u8,
            Event::QueryMessagesByID { .. } => 5u8,
            Event::QueryMessagesByDepth { .. } => 6u8,
            Event::Subscribe(_) => 7u8,
            Event::Unsubscribe(_) => 8u8,
            Event::QuerySubscriptions => 9u8,
            Event::ActiveSubscriptions(_) => 10u8,
            Event::User(_) => 11u8,
        }
    }
}

impl<U: Wire, T: Wire, S: Wire> Event<U, T, S> {
    /// The encodings of the variant's fields, one after another.
    pub open spec fn fields_wire(&self) -> Seq<u8> {
        match self {
            Event::Hello => Seq::empty(),
            Event::PeerInit { name } => name.wire(),
            Event::PeerConfirm { name } => name.wire(),
            Event::Ping => Seq::empty(),
            Event::Pong => Seq::empty(),
            Event::QueryMessagesByID { ids } => ids.wire(),
            Event::QueryMessagesByDepth { topic, depth } => topic.wire() + depth.wire(),
            Event::Subscribe(subscriptions) => subscriptions.wire(),
            Event::Unsubscribe(topics) => topics.wire(),
            Event::QuerySubscriptions => Seq::empty(),
            Event::ActiveSubscriptions(topics) => topics.wire(),
            Event::User(data) => data.wire(),
        }
    }
}

/// The value of an event: its variant, with the values of its fields.
pub enum EventView<U, T, S> {
    /// `Event::Hello`.
    Hello,
    /// `Event::PeerInit`, with the name.
    PeerInit { name: Seq<char> },
    /// `Event::PeerConfirm`, with the name.
    PeerConfirm { name: Seq<char> },
    /// `Event::Ping`.
    Ping,
    /// `Event::Pong`.
    Pong,
    /// `Event::QueryMessagesByID`, with the ids.
    QueryMessagesByID { ids: Seq<(Timestamp, Seq<u8>)> },
    /// `Event::QueryMessagesByDepth`, with the topic and depth.
    QueryMessagesByDepth { topic: T, depth: u64 },
    /// `Event::Subscribe`, with the subscriptions.
    Subscribe(Seq<S>),
    /// `Event::Unsubscribe`, with the topics.
    Unsubscribe(Seq<T>),
    /// `Event::QuerySubscriptions`.
    QuerySubscriptions,
    /// `Event::ActiveSubscriptions`, with the topics.
    ActiveSubscriptions(Seq<T>),
    /// `Event::User`, with the user's data.
    User(U),
}

/// An event is its variant with the values of its fields.
impl<U: DeepView, T: DeepView, S: DeepView> DeepView for Event<U, T, S> {
    type V = EventView<U::V, T::V, S::V>;

    open spec fn deep_view(&self) -> EventView<U::V, T::V, S::V> {
        match self {
            Event::Hello => EventView::Hello,
            Event::PeerInit { name } => EventView::PeerInit { name: name@ },
            Event::PeerConfirm { name } => EventView::PeerConfirm { name: name@ },
            Event::Ping => EventView::Ping,
            Event::Pong => EventView::Pong,
            Event::QueryMessagesByID { ids } => EventView::QueryMessagesByID { ids: ids.deep_view() },
            Event::QueryMessagesByDepth { topic, depth } => EventView::QueryMessagesByDepth {
                topic: topic.deep_view(),
                depth: *depth,
            },
            Event::Subscribe(subscriptions) => EventView::Subscribe(subscriptions.deep_view()),
            Event::Unsubscribe(topics) => EventView::Unsubscribe(topics.deep_view()),
            Event::QuerySubscriptions => EventView::QuerySubscriptions,
            Event::ActiveSubscriptions(topics) => EventView::ActiveSubscriptions(topics.deep_view()),
            Event::User(data) => EventView::User(data.deep_view()),
        }
    }
}

/// An event is its tag byte followed by its fields.
impl<U: Wire, T: Wire, S: Wire> Wire for Event<U, T, S> {
    open spec fn wire(&self) -> Seq<u8> {
        seq![self.tag()] + self.fields_wire()
    }

    proof fn lemma_wire_nonempty(&self) {
    }

    fn encode(&self, out: &mut Vec<u8>) {
        match self {
            Event::Hello => {
                out.push(0u8);
            },
            Event::PeerInit { name } => {
                out.push(1u8);
                name.encode(out);
            },
            Event::PeerConfirm { name } => {
                out.push(2u8);
                name.encode(out);
            },
            Event::Ping => {
                out.push(3u8);
            },
            Event::Pong => {
                out.push(4u8);
            },
            Event::QueryMessagesByID { ids } => {
                out.push(5u8);
                ids.encode(out);
            },
            Event::QueryMessagesByDepth { topic, depth } => {
                out.push(6u8);
                topic.encode(out);
                depth.encode(out);
            },
            Event::Subscribe(subscriptions) => {
                out.push(7u8);
                subscriptions.encode(out);
            },
            Event::Unsubscribe(topics) => {
                out.push(8u8);
                topics.encode(out);
            },
            Event::QuerySubscriptions => {
                out.push(9u8);
            },
            Event::ActiveSubscriptions(topics) => {
                out.push(10u8);
                topics.encode(out);
            },
            Event::User(data) => {
                out.push(11u8);
                data.encode(out);
            },
        }
        assert(out@ =~= old(out)@ + self.wire());
    }

    fn decode(buf: &[u8], pos: usize) -> (r: Option<(Self, usize)>) {
        proof {
            assert forall|x: Self| #[trigger] prefixed(buf@, pos as int, x.wire()) implies buf@[pos as int]
                == x.tag() && prefixed(buf@, pos as int, u8_wire(x.tag())) && prefixed(buf@, pos + 1, x.fields_wire()) by {
                lemma_tagged(buf@, pos as int, x.tag(), x.fields_wire());
            }
        }
        let (tag, p) = match decode_u8(buf, pos) {
            Some(v) => v,
            None => return None,
        };
        assert(buf@.subrange(pos as int, p as int)[0] == buf@[pos as int]);
        if tag == 0u8 {
            let v = Event::<U, T, S>::Hello;
            proof {
                assert(buf@.subrange(pos as int, p as int) =~= v.wire());
                assert forall|x: Self| #[trigger] prefixed(buf@, pos as int, x.wire()) implies x.wire()
                    == v.wire() by {
                    assert(x.wire() =~= v.wire());
                }
            }
            Some((v, p))
        } else if tag == 1u8 {
            proof {
                assert forall|x: Self| #[trigger] prefixed(buf@, pos as int, x.wire()) implies prefixed(
                    buf@,
                    p as int,
                    x->PeerInit_name.wire(),
                ) by {}
            }
            match <String>::decode(buf, p) {
                Some((name, e)) => {
                    let v = Event::<U, T, S>::PeerInit { name };
                    proof {
                        lemma_subrange_join(buf@, pos as int, p as int, e as int);
                        assert(buf@.subrange(pos as int, e as int) =~= v.wire());
                        assert forall|x: Self| #[trigger]
                            prefixed(buf@, pos as int, x.wire()) implies x.wire() == v.wire() by {
                            assert(x.wire() =~= v.wire());
                        }
                    }
                    Some((v, e))
                },
                None => None,
            }
        } else if tag == 2u8 {
            proof {
                assert forall|x: Self| #[trigger] prefixed(buf@, pos as int, x.wire()) implies prefixed(
                    buf@,
                    p as int,
                    x->PeerConfirm_name.wire(),
                ) by {}
            }
            match <String>::decode(buf, p) {
                Some((name, e)) => {
                    let v = Event::<U, T, S>::PeerConfirm { name };
                    proof {
                        lemma_subrange_join(buf@, pos as int, p as int, e as int);
                        assert(buf@.subrange(pos as int, e as int) =~= v.wire());
                        assert forall|x: Self| #[trigger]
                            prefixed(buf@, pos as int, x.wire()) implies x.wire() == v.wire() by {
                            assert(x.wire() =~= v.wire());
                        }
                    }
                    Some((v, e))
                },
                None => None,
            }
        } else if tag == 3u8 {
            let v = Event::<U, T, S>::Ping;
            proof {
                assert(buf@.subrange(pos as int, p as int) =~= v.wire());
                assert forall|x: Self| #[trigger] prefixed(buf@, pos as int, x.wire()) implies x.wire()
                    == v.wire() by {
                    assert(x.wire() =~= v.wire());
                }
            }
            Some((v, p))
        } else if tag == 4u8 {
            let v = Event::<U, T, S>::Pong;
            proof {
                assert(buf@.subrange(pos as int, p as int) =~= v.wire());
                assert forall|x: Self| #[trigger] prefixed(buf@, pos as int, x.wire()) implies x.wire()
                    == v.wire() by {
                    assert(x.wire() =~= v.wire());
                }
            }
            Some((v, p))
        } else if tag == 5u8 {
            proof {
                assert forall|x: Self| #[trigger] prefixed(buf@, pos as int, x.wire()) implies prefixed(
                    buf@,
                    p as int,
                    x->QueryMessagesByID_ids.wire(),
                ) by {}
            }
            match <Vec<MessageID>>::decode(buf, p) {
                Some((ids, e)) => {
                    let v = Event::<U, T, S>::QueryMessagesByID { ids };
                    proof {
                        lemma_subrange_join(buf@, pos as int, p as int, e as int);
                        assert(buf@.subrange(pos as int, e as int) =~= v.wire());
                        assert forall|x: Self| #[trigger]
                            prefixed(buf@, pos as int, x.wire()) implies x.wire() == v.wire() by {
                            assert(x.wire() =~= v.wire());
                        }
                    }
                    Some((v, e))
                },
                None => None,
            }
        } else if tag == 6u8 {
            proof {
                assert forall|x: Self| #[trigger] prefixed(buf@, pos as int, x.wire()) implies prefixed(
                    buf@,
                    p as int,
                    x->QueryMessagesByDepth_topic.wire() + x->QueryMessagesByDepth_depth.wire(),
                ) by {}
            }
            match decode2::<T, u64>(buf, p) {
                Some((topic, depth, e)) => {
                    let v = Event::<U, T, S>::QueryMessagesByDepth { topic, depth };
                    proof {
                        lemma_subrange_join(buf@, pos as int, p as int, e as int);
                        assert(buf@.subrange(pos as int, e as int) =~= v.wire());
                        assert forall|x: Self| #[trigger]
                            prefixed(buf@, pos as int, x.wire()) implies x.wire() == v.wire() by {
                            assert(x.wire() =~= v.wire());
                        }
                    }
                    Some((v, e))
                },
                None => None,
            }
        } else if tag == 7u8 {
            proof {
                assert forall|x: Self| #[trigger] prefixed(buf@, pos as int, x.wire()) implies prefixed(
                    buf@,
                    p as int,
                    x->Subscribe_0.wire(),
                ) by {}
            }
            match <Vec<S>>::decode(buf, p) {
                Some((subscriptions, e)) => {
                    let v = Event::<U, T, S>::Subscribe(subscriptions);
                    proof {
                        lemma_subrange_join(buf@, pos as int, p as int, e as int);
                        assert(buf@.subrange(pos as int, e as int) =~= v.wire());
                        assert forall|x: Self| #[trigger]
                            prefixed(buf@, pos as int, x.wire()) implies x.wire() == v.wire() by {
                            assert(x.wire() =~= v.wire());
                        }
                    }
                    Some((v, e))
                },
                None => None,
            }
        } else if tag == 8u8 {
            proof {
                assert forall|x: Self| #[trigger] prefixed(buf@, pos as int, x.wire()) implies prefixed(
                    buf@,
                    p as int,
                    x->Unsubscribe_0.wire(),
                ) by {}
            }
            match <Vec<T>>::decode(buf, p) {
                Some((topics, e)) => {
                    let v = Event::<U, T, S>::Unsubscribe(topics);
                    proof {
                        lemma_subrange_join(buf@, pos as int, p as int, e as int);
                        assert(buf@.subrange(pos as int, e as int) =~= v.wire());
                        assert forall|x: Self| #[trigger]
                            prefixed(buf@, pos as int, x.wire()) implies x.wire() == v.wire() by {
                            assert(x.wire() =~= v.wire());
                        }
                    }
                    Some((v, e))
                },
                None => None,
            }
        } else if tag == 9u8 {
            let v = Event::<U, T, S>::QuerySubscriptions;
            proof {
                assert(buf@.subrange(pos as int, p as int) =~= v.wire());
                assert forall|x: Self| #[trigger] prefixed(buf@, pos as int, x.wire()) implies x.wire()
                    == v.wire() by {
                    assert(x.wire() =~= v.wire());
                }
            }
            Some((v, p))
        } else if tag == 10u8 {
            proof {
                assert forall|x: Self| #[trigger] prefixed(buf@, pos as int, x.wire()) implies prefixed(
                    buf@,
                    p as int,
                    x->ActiveSubscriptions_0.wire(),
                ) by {}
            }
            match <Vec<T>>::decode(buf, p) {
                Some((topics, e)) => {
                    let v = Event::<U, T, S>::ActiveSubscriptions(topics);
                    proof {
                        lemma_subrange_join(buf@, pos as int, p as int, e as int);
                        assert(buf@.subrange(pos as int, e as int) =~= v.wire());
                        assert forall|x: Self| #[trigger]
                            prefixed(buf@, pos as int, x.wire()) implies x.wire() == v.wire() by {
                            assert(x.wire() =~= v.wire());
                        }
                    }
                    Some((v, e))
                },
                None => None,
            }
        } else if tag == 11u8 {
            proof {
                assert forall|x: Self| #[trigger] prefixed(buf@, pos as int, x.wire()) implies prefixed(
                    buf@,
                    p as int,
                    x->User_0.wire(),
                ) by {}
            }
            match <U>::decode(buf, p) {
                Some((data, e)) => {
                    let v = Event::<U, T, S>::User(data);
                    proof {
                        lemma_subrange_join(buf@, pos as int, p as int, e as int);
                        assert(buf@.subrange(pos as int, e as int) =~= v.wire());
                        assert forall|x: Self| #[trigger]
                            prefixed(buf@, pos as int, x.wire()) implies x.wire() == v.wire() by {
                            assert(x.wire() =~= v.wire());
                        }
                    }
                    Some((v, e))
                },
                None => None,
            }
        } else {
            None
        }
    }

    fn duplicate(&self) -> (r: Self) {
        match self {
            Event::Hello => Event::Hello,
            Event::PeerInit { name } => Event::PeerInit { name: name.duplicate() },
            Event::PeerConfirm { name } => Event::PeerConfirm { name: name.duplicate() },
            Event::Ping => Event::Ping,
            Event::Pong => Event::Pong,
            Event::QueryMessagesByID { ids } => Event::QueryMessagesByID { ids: ids.duplicate() },
            Event::QueryMessagesByDepth { topic, depth } => Event::QueryMessagesByDepth { topic: topic.duplicate(), depth: depth.duplicate() },
            Event::Subscribe(subscriptions) => Event::Subscribe(subscriptions.duplicate()),
            Event::Unsubscribe(topics) => Event::Unsubscribe(topics.duplicate()),
            Event::QuerySubscriptions => Event::QuerySubscriptions,
            Event::ActiveSubscriptions(topics) => Event::ActiveSubscriptions(topics.duplicate()),
            Event::User(data) => Event::User(data.duplicate()),
        }
    }

    proof fn lemma_wire_unique(&self, other: &Self, rest: Seq<u8>, other_rest: Seq<u8>) {
        lemma_tag_unique(self.tag(), other.tag(), self.fields_wire(), other.fields_wire(), rest, other_rest);
        match (self, other) {
            (Event::PeerInit { name: a }, Event::PeerInit { name: b }) => {
                a.lemma_wire_unique(b, rest, other_rest);
            },
            (Event::PeerConfirm { name: a }, Event::PeerConfirm { name: b }) => {
                a.lemma_wire_unique(b, rest, other_rest);
            },
            (Event::QueryMessagesByID { ids: a }, Event::QueryMessagesByID { ids: b }) => {
                a.lemma_wire_unique(b, rest, other_rest);
            },
            (
                Event::QueryMessagesByDepth { topic: t1, depth: d1 },
                Event::QueryMessagesByDepth { topic: t2, depth: d2 },
            ) => {
                lemma_wire_unique2(*t1, *d1, *t2, *d2, rest, other_rest);
            },
            (Event::Subscribe(a), Event::Subscribe(b)) => {
                a.lemma_wire_unique(b, rest, other_rest);
            },
            (Event::Unsubscribe(a), Event::Unsubscribe(b)) => {
                a.lemma_wire_unique(b, rest, other_rest);
            },
            (Event::ActiveSubscriptions(a), Event::ActiveSubscriptions(b)) => {
                a.lemma_wire_unique(b, rest, other_rest);
            },
            (Event::User(a), Event::User(b)) => {
                a.lemma_wire_unique(b, rest, other_rest);
            },
            _ => {
                assert(self.fields_wire() + rest =~= rest);
                assert(other.fields_wire() + other_rest =~= other_rest);
            },
        }
    }
}

} // verus!
