use tp2p::action::{Action, SyncAction};
use tp2p::error::Error;
use tp2p::event::Event;
use tp2p::message::{self, Message, MessageID, MessageSealed, MessageWrapped, TopicGraphEntry};
use tp2p::peer::{base64_encode, ConfirmationMode, Keypair, Peer, PeerInfo, PeeringConfig, Pubkey as PeerPubkey, SubscriptionConfig};
use tp2p::sync::{ConnectionInfo, PendingPeer, Sync};
use tp2p::topic::{Subscription as TopicSubscription, Topic};
use tp2p::identity::{IdentityProof, Pubkey as IdentityPubkey};
use tp2p::util::Timestamp;
use tp2p::wire::Wire;
use tp2p::Mode;

fn now() -> Timestamp {
    let n = chrono::Utc::now();
    Timestamp::new(n.timestamp(), n.timestamp_subsec_nanos())
}

fn v4(a: u8, b: u8, c: u8, d: u8, port: u16) -> ConnectionInfo {
    ConnectionInfo::from_v4(a, b, c, d, port)
}

fn make_sync<T>(name: &str) -> Sync<T> {
    Sync::<T>::new(name.into(), Keypair::new_random(), PeeringConfig::new(
        ConfirmationMode::Private { whitelist: vec![] },
        SubscriptionConfig::Blacklist(vec![]),
    ))
}

fn roundtrip<X: Wire + std::fmt::Debug + PartialEq>(x: &X) {
    let mut out = Vec::new();
    out.push(0xee);
    x.encode(&mut out);
    let (back, end) = X::decode(&out, 1).unwrap();
    assert_eq!(&back, x);
    assert_eq!(end, out.len());
}

fn sealed_of(w: &MessageWrapped) -> MessageSealed {
    match w {
        MessageWrapped::Sealed(s) => s.clone(),
        _ => panic!("not sealed"),
    }
}

fn send_of<U, T, S>(a: &Action<U, T, S>) -> (ConnectionInfo, MessageWrapped) {
    match a {
        Action::MessageSend(c, w) => (*c, w.clone()),
        _ => panic!("not a send"),
    }
}

#[test]
fn seconds_since_rounds_toward_zero() {
    let a = Timestamp::new(100, 0);
    let b = Timestamp::new(101, 500_000_000);
    assert_eq!(b.seconds_since(&a), 1);
    assert_eq!(a.seconds_since(&b), -1);
    assert_eq!(Timestamp::new(160, 0).seconds_since(&a), 60);
    assert_eq!(Timestamp::new(159, 999_999_999).seconds_since(&a), 59);
    assert_eq!(a.seconds_since(&a), 0);
    assert_eq!(Timestamp::new(i64::MAX, 999_999_999).seconds_since(&Timestamp::new(i64::MIN, 0)), u64::MAX as i128);
}

#[test]
fn connection_info_from_v4_packs_the_address() {
    let c = v4(1, 2, 3, 4, 5);
    assert!(!c.v6);
    assert_eq!(c.ip, 0x01020304);
    assert_eq!(c.port, 5);
    assert_eq!(v4(1, 2, 3, 4, 5), c);
    assert_ne!(v4(1, 2, 3, 5, 5), c);
    let c6 = ConnectionInfo::from_v6(1, 80, 2, 3);
    assert!(c6.v6);
    assert_eq!((c6.ip, c6.port, c6.flowinfo, c6.scope_id), (1, 80, 2, 3));
}

#[test]
fn base64_and_display_string() {
    assert_eq!(base64_encode(b"hello"), "aGVsbG8");
    assert_eq!(base64_encode(&[0xfb, 0xff]), "-_8");
    assert_eq!(base64_encode(&[]), "");
    let pk = PeerPubkey::new([0u8; 32]);
    assert_eq!(pk.to_display_string(), format!("pubkey::{}", "A".repeat(43)));
}

#[test]
fn keypair_from_seed() {
    let k1 = Keypair::new_with_seed(&[7u8; 32]).unwrap();
    let k2 = Keypair::new_with_seed(&[7u8; 32]).unwrap();
    let k3 = Keypair::new_with_seed(&[8u8; 32]).unwrap();
    assert_eq!(k1.pubkey(), k2.pubkey());
    assert_eq!(k1.seckey(), k2.seckey());
    assert_ne!(k1.pubkey(), k3.pubkey());
    assert_ne!(k1.pubkey(), &[7u8; 32]);
    assert_eq!(Keypair::new_with_seed(&[1, 2, 3]).unwrap_err(), Error::KeypairFromSeedFailed);
    assert_eq!(Keypair::new_with_seed(&[0u8; 33]).unwrap_err(), Error::KeypairFromSeedFailed);
    assert_eq!(k1.to_pubkey(), PeerPubkey::new(*k1.pubkey()));
}

#[test]
fn shared_key_is_the_same_from_both_sides() {
    let a = Keypair::new_random();
    let b = Keypair::new_random();
    let peer_b = Peer::new("b".into(), b.to_pubkey(), a.seckey());
    let peer_a = Peer::new("a".into(), a.to_pubkey(), b.seckey());
    assert_eq!(peer_a.precomputed(), peer_b.precomputed());
    assert_ne!(peer_a.precomputed(), a.seckey());
    assert_ne!(peer_a.precomputed(), a.pubkey());
}

#[test]
fn can_confirm_by_mode() {
    let listed = Keypair::new_random().to_pubkey();
    let other = Keypair::new_random().to_pubkey();
    let config = |mode| PeeringConfig::new(mode, SubscriptionConfig::Blacklist(vec![]));
    let private = config(ConfirmationMode::Private { whitelist: vec![listed] });
    assert_eq!(private.can_confirm(&listed), Some(true));
    assert_eq!(private.can_confirm(&other), Some(false));
    let confirm = config(ConfirmationMode::Confirm { whitelist: vec![listed], blacklist: vec![other] });
    assert_eq!(confirm.can_confirm(&listed), Some(true));
    assert_eq!(confirm.can_confirm(&other), Some(false));
    assert_eq!(confirm.can_confirm(&Keypair::new_random().to_pubkey()), None);
    let both = config(ConfirmationMode::Confirm { whitelist: vec![listed], blacklist: vec![listed] });
    assert_eq!(both.can_confirm(&listed), Some(false));
    let public = config(ConfirmationMode::PublicAgent { whitelist: vec![], blacklist: vec![other] });
    assert_eq!(public.can_confirm(&listed), Some(true));
    assert_eq!(public.can_confirm(&other), Some(false));
}

#[test]
fn wire_roundtrips() {
    roundtrip(&0u64);
    roundtrip(&u64::MAX);
    roundtrip(&0x1234_5678u32);
    roundtrip(&-5i64);
    roundtrip(&true);
    roundtrip(&());
    roundtrip(&"héllo wörld".to_string());
    roundtrip(&String::new());
    roundtrip(&vec![1u64, 2, 3]);
    roundtrip(&Timestamp::new(-3, 999));
    roundtrip(&Topic::Identity(IdentityPubkey { inner: [9u8; 32] }));
    roundtrip(&TopicSubscription::Identity(IdentityPubkey { inner: [1u8; 32] }, IdentityProof { inner: vec![1, 2, 3] }));
    roundtrip(&Event::<String, String, ()>::PeerInit { name: "beavis".into() });
    roundtrip(&Event::<String, String, ()>::QueryMessagesByDepth { topic: "t".into(), depth: 4 });
    roundtrip(&Event::<String, String, ()>::ActiveSubscriptions(vec!["a".into(), "b".into()]));
    roundtrip(&Event::<String, String, ()>::User("data".into()));
    let id = MessageID::new(Timestamp::new(1, 2), [5u8; 24]);
    roundtrip(&Message::new(id, Event::<(), String, ()>::Ping, vec![TopicGraphEntry::new("x".into(), vec![id], 3)]));
    roundtrip(&MessageWrapped::Init(PeerPubkey::new([3u8; 32])));
}

#[test]
fn wire_encodings_are_exact() {
    let mut out = Vec::new();
    0x0102u64.encode(&mut out);
    assert_eq!(out, vec![2, 1, 0, 0, 0, 0, 0, 0]);
    let mut out = Vec::new();
    "ab".to_string().encode(&mut out);
    assert_eq!(out, vec![2, 0, 0, 0, 0, 0, 0, 0, b'a', b'b']);
    let mut out = Vec::new();
    Event::<(), (), ()>::Hello.encode(&mut out);
    assert_eq!(out, vec![0]);
    let mut out = Vec::new();
    Event::<(), (), ()>::QuerySubscriptions.encode(&mut out);
    assert_eq!(out, vec![9]);
}

#[test]
fn wire_decode_refuses_bad_bytes() {
    assert!(u64::decode(&[1, 2, 3], 0).is_none());
    assert!(String::decode(&[1, 0, 0, 0, 0, 0, 0, 0, 0xff], 0).is_none());
    assert!(bool::decode(&[2], 0).is_none());
    assert!(Event::<(), (), ()>::decode(&[12], 0).is_none());
    assert!(Event::<(), (), ()>::decode(&[], 0).is_none());
}

#[test]
fn open_after_seal_gives_the_message_back() {
    let a = Keypair::new_random();
    let b = Keypair::new_random();
    let to_b = Peer::new("b".into(), b.to_pubkey(), a.seckey());
    let from_a = Peer::new("a".into(), a.to_pubkey(), b.seckey());
    let id = MessageID::new(now(), message::gen_nonce());
    let msg = Message::new(id, Event::<String, String, ()>::User("hi there".into()), vec![TopicGraphEntry::new("t".into(), vec![], 1)]);
    let sealed = MessageSealed::seal(&a.to_pubkey(), &to_b, &msg).unwrap();
    assert_eq!(sealed.nonce(), id.nonce());
    assert_eq!(sealed.pubkey_sender(), &a.to_pubkey());
    let mut plain = Vec::new();
    msg.encode(&mut plain);
    assert_eq!(sealed.sealed_body().len(), plain.len() + 16);
    assert_ne!(&sealed.sealed_body()[16..], &plain[..]);
    let opened = sealed.open::<String, String, ()>(&from_a).unwrap();
    assert_eq!(opened, msg);
    // a body of another user type does not decode
    assert_eq!(sealed.open::<bool, String, ()>(&from_a).unwrap_err(), Error::Deserialize);
    // a tampered body does not open
    let mut bad = sealed.clone();
    bad.sealed_body[0] ^= 1;
    assert_eq!(bad.open::<String, String, ()>(&from_a).unwrap_err(), Error::MessageOpenFailed);
}

#[test]
fn set_peer_then_find_and_unset() {
    let mut sync = make_sync::<String>("s");
    let pk = Keypair::new_random().to_pubkey();
    let peer = Peer::tmp(&pk, sync.keypair().seckey());
    let info = PeerInfo::new(peer.clone(), v4(1, 1, 1, 1, 1), true, now());
    sync.apply_sync_actions(vec![SyncAction::SetPeer(info.clone())]);
    assert_eq!(sync.find_peer(&pk, None).unwrap().connection_info(), &v4(1, 1, 1, 1, 1));
    assert!(sync.find_peer(&pk, Some(true)).is_some());
    assert!(sync.find_peer(&pk, Some(false)).is_none());
    // setting again replaces the record
    let info2 = PeerInfo::new(peer.clone(), v4(2, 2, 2, 2, 2), false, now());
    sync.apply_sync_actions(vec![SyncAction::SetPeer(info2)]);
    assert_eq!(sync.peers().len(), 1);
    assert_eq!(sync.find_peer(&pk, None).unwrap().connection_info(), &v4(2, 2, 2, 2, 2));
    sync.apply_sync_actions(vec![SyncAction::UnsetPeer(pk)]);
    assert!(sync.find_peer(&pk, None).is_none());
    assert_eq!(sync.peers().len(), 0);
}

#[test]
fn pending_peers_are_kept_once() {
    let mut sync = make_sync::<String>("s");
    let c = v4(3, 3, 3, 3, 3);
    sync.apply_sync_actions(vec![
        SyncAction::SetPendingPeer(PendingPeer::new(c, Timestamp::new(1, 0))),
        SyncAction::SetPendingPeer(PendingPeer::new(c, Timestamp::new(2, 0))),
    ]);
    assert_eq!(sync.pending_peer_init().len(), 1);
    assert_eq!(sync.find_pending_peer_init(&c).unwrap().created(), &Timestamp::new(1, 0));
    sync.apply_sync_actions(vec![SyncAction::UnsetPendingPeer(c)]);
    assert!(sync.find_pending_peer_init(&c).is_none());
}

#[test]
fn subscribe_then_unsubscribe_leaves_no_entry() {
    let mut sync = make_sync::<String>("s");
    let peer = Peer::tmp(&Keypair::new_random().to_pubkey(), sync.keypair().seckey());
    let info = PeerInfo::new(peer.clone(), v4(4, 4, 4, 4, 4), true, now());
    sync.apply_sync_actions(vec![SyncAction::SetSubscription("t".into(), info.clone())]);
    assert!(sync.is_peer_subscribed_to_topic(&"t".into(), &peer));
    assert_eq!(sync.subscribers(&"t".into()).unwrap().len(), 1);
    sync.apply_sync_actions(vec![SyncAction::UnsetSubscription("t".into(), info)]);
    assert!(!sync.is_peer_subscribed_to_topic(&"t".into(), &peer));
    assert!(sync.subscribers(&"t".into()).is_none());
    assert_eq!(sync.subscriptions().len(), 0);
}

#[test]
fn subscribe_actions_keep_the_verified_topics() {
    let peer = Peer::tmp(&Keypair::new_random().to_pubkey(), &[1u8; 32]);
    let info = PeerInfo::new(peer, v4(5, 5, 5, 5, 5), true, now());
    let actions = tp2p::sync::subscribe_actions::<(), String, ()>(vec![None, Some("a".into()), None, Some("b".into())], &info);
    assert_eq!(actions.len(), 2);
    match (&actions[0], &actions[1]) {
        (Action::Sync(SyncAction::SetSubscription(a, _)), Action::Sync(SyncAction::SetSubscription(b, _))) => {
            assert_eq!(a, "a");
            assert_eq!(b, "b");
        }
        _ => panic!("bad actions"),
    }
}

#[test]
fn tick_on_an_empty_sync_does_nothing() {
    let sync = make_sync::<()>("quiet");
    assert_eq!(sync.tick::<(), ()>(&now()).unwrap().len(), 0);
}

#[test]
fn tick_pings_at_sixty_seconds_and_forgets_after_three_minutes() {
    let mut sync = make_sync::<()>("t");
    let pk = Keypair::new_random().to_pubkey();
    let peer = Peer::tmp(&pk, sync.keypair().seckey());
    sync.apply_sync_actions(vec![SyncAction::SetPeer(PeerInfo::new(peer, v4(6, 6, 6, 6, 6), false, Timestamp::new(1000, 0)))]);
    assert_eq!(sync.tick::<(), ()>(&Timestamp::new(1059, 999_999_999)).unwrap().len(), 0);
    let at_sixty = sync.tick::<(), ()>(&Timestamp::new(1060, 0)).unwrap();
    assert_eq!(at_sixty.len(), 1);
    assert!(matches!(at_sixty[0], Action::MessageSend(..)));
    let at_180 = sync.tick::<(), ()>(&Timestamp::new(1180, 999_999_999)).unwrap();
    assert!(matches!(at_180[0], Action::MessageSend(..)));
    let at_181 = sync.tick::<(), ()>(&Timestamp::new(1181, 0)).unwrap();
    match &at_181[0] {
        Action::Sync(SyncAction::UnsetPeer(k)) => assert_eq!(k, &pk),
        _ => panic!("should forget the peer"),
    }
}

#[test]
fn screen_message_refuses_strangers() {
    let sync = make_sync::<()>("s");
    let pk = Keypair::new_random().to_pubkey();
    let id = MessageID::new(now(), message::gen_nonce());
    let ping = Message::new(id, Event::<(), (), ()>::Ping, vec![]);
    let hello = Message::new(id, Event::<(), (), ()>::Hello, vec![]);
    assert_eq!(sync.screen_message(&pk, Ok(ping)).unwrap_err(), Error::PeerNotFound(pk));
    assert!(sync.screen_message(&pk, Ok(hello)).is_ok());
    assert_eq!(sync.screen_message::<(), ()>(&pk, Err(Error::MessageOpenFailed)).unwrap_err(), Error::MessageOpenFailed);
}

#[test]
fn peer_init_records_the_pending_init_once() {
    let mut sync = make_sync::<()>("from");
    let c = v4(7, 7, 7, 7, 7);
    let actions = sync.peer_init::<(), ()>(c, &Timestamp::new(5, 0)).unwrap();
    assert_eq!(actions.len(), 1);
    match &actions[0] {
        Action::MessageSend(conn, MessageWrapped::Init(pk)) => {
            assert_eq!(conn, &c);
            assert_eq!(pk, &sync.keypair().to_pubkey());
        }
        _ => panic!("bad action"),
    }
    assert_eq!(sync.pending_peer_init().len(), 1);
    sync.peer_init::<(), ()>(c, &Timestamp::new(6, 0)).unwrap();
    assert_eq!(sync.pending_peer_init().len(), 1);
    assert_eq!(sync.find_pending_peer_init(&c).unwrap().created(), &Timestamp::new(5, 0));
}

#[test]
fn process_incoming_message_handshake() {
    let mut from = make_sync::<()>("from");
    let mut to = make_sync::<()>("to");
    let to_conn = v4(8, 8, 8, 8, 8);
    let from_conn = v4(9, 9, 9, 9, 9);

    // `from` starts the contact
    let init = from.peer_init::<(), ()>(to_conn, &now()).unwrap();
    let (_, init_msg) = send_of(&init[0]);

    // `to` records `from` and answers with a `Hello`
    let hello = to.process_incoming_message::<(), ()>(&init_msg, from_conn, &now()).unwrap();
    assert_eq!(hello.len(), 1);
    let (c, hello_msg) = send_of(&hello[0]);
    assert_eq!(c, from_conn);
    let recorded = to.find_peer(&from.keypair().to_pubkey(), None).unwrap();
    assert_eq!(recorded.peer().name(), "<tmp>");
    assert_eq!(recorded.active(), &false);
    assert_eq!(to.peers().len(), 1);
    // a second `Init` from the same peer does not add it again
    to.process_incoming_message::<(), ()>(&init_msg, from_conn, &now()).unwrap();
    assert_eq!(to.peers().len(), 1);

    // `from` answers the `Hello` with its `PeerInit`
    let peer_init = from.process_incoming_message::<(), ()>(&hello_msg, to_conn, &now()).unwrap();
    assert_eq!(peer_init.len(), 1);
    let (c2, peer_init_msg) = send_of(&peer_init[0]);
    assert_eq!(c2, to_conn);
    assert!(from.find_pending_peer_init(&to_conn).is_none());
    assert!(from.find_peer(&to.keypair().to_pubkey(), Some(false)).is_some());
    let opened = to.unwrap_incoming_message::<(), ()>(&sealed_of(&peer_init_msg)).unwrap();
    assert_eq!(opened.body(), &Event::PeerInit { name: "from".into() });

    // a `Hello` that we no longer wait for is not answered
    let hello_again = from.process_incoming_message::<(), ()>(&hello_msg, to_conn, &now());
    assert_eq!(hello_again.unwrap().len(), 0);
    assert_eq!(from.peers().len(), 1);
}

#[test]
fn process_incoming_message_refuses_strangers_and_garbage() {
    let mut to = make_sync::<()>("to");
    let from = make_sync::<()>("from");
    let peer = Peer::new("to".into(), to.keypair().to_pubkey(), from.keypair().seckey());
    let ping = from.create_sealed_message(&peer, Event::<(), (), ()>::Ping, vec![], &now()).unwrap();
    let res = to.process_incoming_message::<(), ()>(&ping, v4(1, 2, 3, 4, 5), &now());
    assert_eq!(res.unwrap_err(), Error::PeerNotFound(from.keypair().to_pubkey()));
    let mut garbage = sealed_of(&ping);
    garbage.sealed_body[3] ^= 0x40;
    let res2 = to.process_incoming_message::<(), ()>(&MessageWrapped::Sealed(garbage), v4(1, 2, 3, 4, 5), &now());
    assert_eq!(res2.unwrap_err(), Error::MessageOpenFailed);
    assert_eq!(to.peers().len(), 0);
}

#[test]
fn modes_are_distinct() {
    assert_ne!(Mode::Agent, Mode::Relay);
    assert_ne!(Mode::Relay, Mode::StorageNode);
    assert_eq!(Mode::StorageNode, Mode::StorageNode.clone());
}

#[test]
fn confirmed_peer_becomes_active() {
    let mut sync = make_sync::<()>("host");
    let pk = Keypair::new_random().to_pubkey();
    let peer = Peer::tmp(&pk, sync.keypair().seckey());
    sync.apply_sync_actions(vec![SyncAction::SetPeer(PeerInfo::new(peer, v4(2, 4, 6, 8, 10), false, Timestamp::new(1, 0)))]);
    assert!(sync.find_peer(&pk, Some(true)).is_none());
    let actions = sync.peer_confirm::<(), ()>(&pk, "guest", &Timestamp::new(2, 0)).unwrap();
    assert_eq!(actions.len(), 2);
    match &actions[0] {
        Action::Sync(a) => sync.apply_sync_actions(vec![a.clone()]),
        _ => panic!("bad action"),
    }
    let info = sync.find_peer(&pk, Some(true)).unwrap();
    assert_eq!(info.peer().name(), "guest");
    assert_eq!(info.last_ping(), &Timestamp::new(2, 0));
    assert_eq!(info.connection_info(), &v4(2, 4, 6, 8, 10));
    assert!(matches!(actions[1], Action::MessageSend(..)));
}

#[test]
fn process_incoming_message_answers_other_events_with_errors() {
    let mut to = make_sync::<()>("to");
    let from = make_sync::<()>("from");
    let peer = Peer::new("to".into(), to.keypair().to_pubkey(), from.keypair().seckey());
    let from_pk = from.keypair().to_pubkey();
    let ping = from.create_sealed_message(&peer, Event::<(), (), ()>::Ping, vec![], &now()).unwrap();
    let peer_init = from.create_sealed_message(&peer, Event::<(), (), ()>::PeerInit { name: "from".into() }, vec![], &now()).unwrap();

    // a stranger's `PeerInit` is let through, but is not for this function
    assert_eq!(to.process_incoming_message::<(), ()>(&peer_init, v4(1, 1, 1, 1, 1), &now()).unwrap_err(), Error::EventMismatch);

    // a known but inactive peer is looked up among the active peers only
    let record = Peer::new("from".into(), from_pk, to.keypair().seckey());
    to.apply_sync_actions(vec![SyncAction::SetPeer(PeerInfo::new(record.clone(), v4(1, 1, 1, 1, 1), false, now()))]);
    assert_eq!(to.process_incoming_message::<(), ()>(&ping, v4(1, 1, 1, 1, 1), &now()).unwrap_err(), Error::PeerNotFound(from_pk));

    // an active peer's `Ping` is not for this function either
    to.apply_sync_actions(vec![SyncAction::SetPeer(PeerInfo::new(record, v4(1, 1, 1, 1, 1), true, now()))]);
    assert_eq!(to.process_incoming_message::<(), ()>(&ping, v4(1, 1, 1, 1, 1), &now()).unwrap_err(), Error::EventMismatch);
    assert_eq!(to.peers().len(), 1);
}

#[test]
fn repeated_actions_change_nothing_more() {
    let mut sync = make_sync::<String>("s");
    let pk = Keypair::new_random().to_pubkey();
    let peer = Peer::tmp(&pk, sync.keypair().seckey());
    let info = PeerInfo::new(peer.clone(), v4(1, 2, 3, 4, 5), true, now());
    let c = v4(6, 7, 8, 9, 10);
    sync.apply_sync_actions(vec![
        SyncAction::SetPeer(info.clone()),
        SyncAction::SetPendingPeer(PendingPeer::new(c, now())),
        SyncAction::SetSubscription("t".into(), info.clone()),
        SyncAction::SetSubscription("u".into(), info.clone()),
    ]);
    let mut twice = sync.clone();
    sync.apply_sync_actions(vec![SyncAction::UnsetSubscription("t".into(), info.clone())]);
    twice.apply_sync_actions(vec![
        SyncAction::UnsetSubscription("t".into(), info.clone()),
        SyncAction::UnsetSubscription("t".into(), info.clone()),
    ]);
    assert_eq!(sync.subscriptions().len(), twice.subscriptions().len());
    assert!(twice.subscribers(&"u".into()).is_some());
    sync.apply_sync_actions(vec![SyncAction::UnsetPeer(pk), SyncAction::UnsetPendingPeer(c)]);
    twice.apply_sync_actions(vec![
        SyncAction::UnsetPeer(pk),
        SyncAction::UnsetPeer(pk),
        SyncAction::UnsetPendingPeer(c),
        SyncAction::UnsetPendingPeer(c),
    ]);
    assert_eq!(sync.peers().len(), 0);
    assert_eq!(twice.peers().len(), 0);
    assert_eq!(twice.pending_peer_init().len(), 0);
}

#[test]
fn set_then_unset_restores_the_records() {
    let mut sync = make_sync::<()>("s");
    let old = Peer::tmp(&Keypair::new_random().to_pubkey(), sync.keypair().seckey());
    sync.apply_sync_actions(vec![
        SyncAction::SetPeer(PeerInfo::new(old.clone(), v4(1, 1, 1, 1, 1), true, now())),
        SyncAction::SetPendingPeer(PendingPeer::new(v4(2, 2, 2, 2, 2), now())),
    ]);
    let pk = Keypair::new_random().to_pubkey();
    let peer = Peer::tmp(&pk, sync.keypair().seckey());
    let c = v4(3, 3, 3, 3, 3);
    sync.apply_sync_actions(vec![
        SyncAction::SetPeer(PeerInfo::new(peer, v4(4, 4, 4, 4, 4), false, now())),
        SyncAction::UnsetPeer(pk),
        SyncAction::SetPendingPeer(PendingPeer::new(c, now())),
        SyncAction::UnsetPendingPeer(c),
    ]);
    assert_eq!(sync.peers().len(), 1);
    assert_eq!(sync.peers()[0].peer(), &old);
    assert_eq!(sync.pending_peer_init().len(), 1);
    assert_eq!(sync.pending_peer_init()[0].connection_info(), &v4(2, 2, 2, 2, 2));
}

#[test]
fn tick_grows_with_time_and_spares_active_peers() {
    let mut sync = make_sync::<()>("t");
    let active = Keypair::new_random().to_pubkey();
    let idle = Keypair::new_random().to_pubkey();
    sync.apply_sync_actions(vec![
        SyncAction::SetPeer(PeerInfo::new(Peer::tmp(&active, sync.keypair().seckey()), v4(1, 0, 0, 1, 1), true, Timestamp::new(0, 0))),
        SyncAction::SetPeer(PeerInfo::new(Peer::tmp(&idle, sync.keypair().seckey()), v4(1, 0, 0, 2, 1), false, Timestamp::new(30, 0))),
        SyncAction::SetPendingPeer(PendingPeer::new(v4(1, 0, 0, 3, 1), Timestamp::new(10, 0))),
    ]);
    let mut last = 0;
    for t in [0i64, 59, 60, 90, 130, 211, 212, 1000] {
        let actions = sync.tick::<(), ()>(&Timestamp::new(t, 0)).unwrap();
        assert!(actions.len() >= last);
        last = actions.len();
        for a in &actions {
            if let Action::Sync(SyncAction::UnsetPeer(k)) = a {
                assert_eq!(k, &idle);
            }
        }
    }
    assert_eq!(last, 3);
}

#[test]
fn query_handlers_answer_alike() {
    let mut sync = make_sync::<String>("q");
    let other = make_sync::<String>("asker");
    let peer = Peer::new("asker".into(), other.keypair().to_pubkey(), sync.keypair().seckey());
    let info = PeerInfo::new(peer.clone(), v4(9, 8, 7, 6, 5), true, now());
    sync.apply_sync_actions(vec![SyncAction::SetPeer(info.clone()), SyncAction::SetSubscription("a".into(), info)]);
    let id = MessageID::new(now(), message::gen_nonce());
    let msgs = vec![
        Message::new(id, Event::<(), String, ()>::User(()), vec![TopicGraphEntry::new("a".into(), vec![], 0)]),
        Message::new(id, Event::<(), String, ()>::User(()), vec![TopicGraphEntry::new("b".into(), vec![], 0)]),
    ];
    let by_id = Message::new(id, Event::<(), String, ()>::QueryMessagesByID { ids: vec![id] }, vec![]);
    let by_depth = Message::new(id, Event::<(), String, ()>::QueryMessagesByDepth { topic: "zzz".into(), depth: 99 }, vec![]);
    let pk = other.keypair().to_pubkey();
    let r1 = sync.process_event_query_messages_by_id(&by_id, &pk, &msgs).unwrap();
    let r2 = sync.process_event_query_messages_by_depth(&by_depth, &pk, &msgs).unwrap();
    assert_eq!(r1.len(), 1);
    assert_eq!(r2.len(), 1);
    assert_eq!(send_of(&r1[0]), send_of(&r2[0]));
}
