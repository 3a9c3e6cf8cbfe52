use tp2p::action::{Action, SyncAction};
use tp2p::error::Error;
use tp2p::event::Event;
use tp2p::message::{self, Message, MessageID, MessageWrapped, TopicGraphEntry};
use tp2p::peer::{ConfirmationMode, Keypair, Peer, PeerInfo, PeeringConfig, Pubkey as PeerPubkey, SubscriptionConfig};
use tp2p::subscription::Subscription;
use tp2p::sync::{ConnectionInfo, PendingPeer, Sync};
use tp2p::util::Timestamp;
use tp2p::wire::Wire;

fn now() -> Timestamp {
    let n = chrono::Utc::now();
    Timestamp::new(n.timestamp(), n.timestamp_subsec_nanos())
}

fn ts(text: &str) -> Timestamp {
    let t: chrono::DateTime<chrono::Utc> = text.parse().unwrap();
    Timestamp::new(t.timestamp(), t.timestamp_subsec_nanos())
}

/// An IPv4 socket address written as `a.b.c.d:port`.
fn conn(text: &str) -> ConnectionInfo {
    let (ip, port) = text.split_once(':').unwrap();
    let octets: Vec<u8> = ip.split('.').map(|o| o.parse().unwrap()).collect();
    assert_eq!(octets.len(), 4);
    ConnectionInfo::from_v4(octets[0], octets[1], octets[2], octets[3], port.parse().unwrap())
}

fn make_config(mode: ConfirmationMode) -> PeeringConfig {
    PeeringConfig::new(mode, SubscriptionConfig::Blacklist(vec![]))
}

fn make_sync_with<T>(name: &str, mode: ConfirmationMode) -> Sync<T> {
    Sync::<T>::new(name.into(), Keypair::new_random(), make_config(mode))
}

fn make_sync<T>(name: &str) -> Sync<T> {
    make_sync_with(name, ConfirmationMode::Private { whitelist: vec![] })
}

fn sync_to_peer<T>(sync: &Sync<T>, our_seckey: &[u8; 32]) -> Peer {
    Peer::new(sync.name().clone(), sync.keypair().to_pubkey(), our_seckey)
}

fn make_message<U, T, S>(body: Event<U, T, S>, topic_graph: Vec<TopicGraphEntry<T>>) -> (Message<U, T, S>, PeerPubkey) {
    let id = MessageID::new(now(), message::gen_nonce());
    (Message::new(id, body, topic_graph), Keypair::new_random().to_pubkey())
}

fn set_peer<T: Wire>(sync: &mut Sync<T>, info: PeerInfo) {
    sync.apply_sync_actions(vec![SyncAction::SetPeer(info)]);
}

fn subscribe<T: Wire>(sync: &mut Sync<T>, topic: T, infos: Vec<PeerInfo>) {
    let actions = infos.into_iter().map(|info| SyncAction::SetSubscription(topic.duplicate(), info)).collect();
    sync.apply_sync_actions(actions);
}

/// The user data of the query tests: a to-do item, by name.
type Todo = String;

fn todo(name: &str) -> Todo {
    name.to_string()
}

#[derive(Clone, Debug)]
struct MySubscription<T> {
    valid: bool,
    topic: T,
}

impl<T: Clone> Subscription<T> for MySubscription<T> {
    fn spec_verify(&self) -> Option<T> {
        self.verify()
    }

    fn verify(&self) -> Option<T> {
        if self.valid {
            Some(self.topic.clone())
        } else {
            None
        }
    }
}

#[test]
fn find_peer() {
    let mut sync = make_sync::<()>("jasper");
    let peer1 = Peer::tmp(&Keypair::new_random().to_pubkey(), sync.keypair().seckey());
    let peer2 = Peer::tmp(&Keypair::new_random().to_pubkey(), sync.keypair().seckey());
    let peer3 = Peer::tmp(&Keypair::new_random().to_pubkey(), sync.keypair().seckey());
    sync.apply_sync_actions(vec![
        SyncAction::SetPeer(PeerInfo::new(peer1.clone(), conn("69.69.42.69:42"), true, now())),
        SyncAction::SetPeer(PeerInfo::new(peer2.clone(), conn("1.1.1.1:69"), false, now())),
    ]);
    assert!(sync.find_peer(peer1.pubkey(), Some(true)).is_some());
    assert!(sync.find_peer(peer1.pubkey(), Some(false)).is_none());
    assert!(sync.find_peer(peer1.pubkey(), None).is_some());
    assert!(sync.find_peer(peer2.pubkey(), Some(false)).is_some());
    assert!(sync.find_peer(peer2.pubkey(), Some(true)).is_none());
    assert!(sync.find_peer(peer2.pubkey(), None).is_some());
    assert!(sync.find_peer(peer3.pubkey(), Some(true)).is_none());
    assert!(sync.find_peer(peer3.pubkey(), Some(false)).is_none());
    assert!(sync.find_peer(peer3.pubkey(), None).is_none());
}

#[test]
fn find_pending_peer_init() {
    let mut sync = make_sync::<()>("pisssss");
    sync.apply_sync_actions(vec![
        SyncAction::SetPendingPeer(PendingPeer::new(conn("5.1.3.69:8444"), now())),
        SyncAction::SetPendingPeer(PendingPeer::new(conn("5.2.3.69:8444"), now())),
        SyncAction::SetPendingPeer(PendingPeer::new(conn("6.2.3.69:8444"), now())),
    ]);
    let pending1 = sync.find_pending_peer_init(&conn("5.2.3.69:8444"));
    assert!(pending1.is_some());
    let pending2 = sync.find_pending_peer_init(&conn("5.1.3.69:8444"));
    assert!(pending2.is_some());
    let pending3 = sync.find_pending_peer_init(&conn("6.2.3.69:8444"));
    assert!(pending3.is_some());
    let pending4 = sync.find_pending_peer_init(&conn("6.1.3.69:8444"));
    assert!(pending4.is_none());
}

#[test]
fn create_sealed_message() {
    let sync = make_sync::<()>("came home late night about 12 oclock");
    let peer = Peer::tmp(&Keypair::new_random().to_pubkey(), sync.keypair().seckey());
    let body = Event::<(), (), ()>::Hello;
    let msg1 = sync.create_sealed_message(&peer, body.clone(), vec![], &now()).unwrap();
    let msg2 = sync.create_sealed_message(&peer, body.clone(), vec![], &now()).unwrap();
    match (msg1, msg2) {
        (MessageWrapped::Sealed(inner1), MessageWrapped::Sealed(inner2)) => {
            assert_eq!(inner1.pubkey_sender(), &sync.keypair().to_pubkey());
            assert_eq!(inner2.pubkey_sender(), &sync.keypair().to_pubkey());
            assert!(inner1.nonce() != inner2.nonce());
            assert!(inner1.sealed_body() != inner2.sealed_body());
        }
        _ => panic!("bad message created"),
    }
}

#[test]
fn is_peer_subscribed_to_topic() {
    let mut sync = make_sync::<String>("went into the bedroom without a knock");
    let peer1 = Peer::tmp(&Keypair::new_random().to_pubkey(), sync.keypair().seckey());
    let peer2 = Peer::tmp(&Keypair::new_random().to_pubkey(), sync.keypair().seckey());
    let peer3 = Peer::tmp(&Keypair::new_random().to_pubkey(), sync.keypair().seckey());
    subscribe(&mut sync, "peee".into(), vec![
        PeerInfo::new(peer1.clone(), conn("69.69.42.69:42"), true, now()),
        PeerInfo::new(peer2.clone(), conn("38.38.42.38:22004"), true, now()),
    ]);
    subscribe(&mut sync, "poooo".into(), vec![
        PeerInfo::new(peer3.clone(), conn("22.38.42.22:1118"), false, now()),
    ]);
    assert!(!sync.is_peer_subscribed_to_topic(&"assss".into(), &peer1));
    assert!(sync.is_peer_subscribed_to_topic(&"peee".into(), &peer1));
    assert!(!sync.is_peer_subscribed_to_topic(&"assss".into(), &peer2));
    assert!(sync.is_peer_subscribed_to_topic(&"peee".into(), &peer2));
    assert!(!sync.is_peer_subscribed_to_topic(&"assss".into(), &peer3));
    assert!(!sync.is_peer_subscribed_to_topic(&"peee".into(), &peer3));
    assert!(!sync.is_peer_subscribed_to_topic(&"poooo".into(), &peer1));
    assert!(!sync.is_peer_subscribed_to_topic(&"poooo".into(), &peer2));
    assert!(sync.is_peer_subscribed_to_topic(&"poooo".into(), &peer3));
}

#[test]
fn filter_message_by_peer() {
    let mut sync = make_sync::<String>("if grandma only knew");
    let peer1 = Peer::tmp(&Keypair::new_random().to_pubkey(), sync.keypair().seckey());
    let peer2 = Peer::tmp(&Keypair::new_random().to_pubkey(), sync.keypair().seckey());
    let peer3 = Peer::tmp(&Keypair::new_random().to_pubkey(), sync.keypair().seckey());
    let peer4 = Peer::tmp(&Keypair::new_random().to_pubkey(), sync.keypair().seckey());
    subscribe(&mut sync, "what".into(), vec![
        PeerInfo::new(peer1.clone(), conn("69.69.42.69:42"), true, now()),
        PeerInfo::new(peer2.clone(), conn("38.38.42.38:22004"), true, now()),
    ]);
    subscribe(&mut sync, "my friends".into(), vec![
        PeerInfo::new(peer3.clone(), conn("22.38.42.22:1118"), false, now()),
    ]);
    let message1 = Message::new(
        MessageID::new(now(), message::gen_nonce()),
        Event::<(), String, ()>::Hello,
        vec![
            TopicGraphEntry::new("what".into(), vec![], 0),
            TopicGraphEntry::new("will".into(), vec![], 0),
        ],
    );
    let message2 = Message::new(
        MessageID::new(now(), message::gen_nonce()),
        Event::<(), String, ()>::Hello,
        vec![
            TopicGraphEntry::new("my friends".into(), vec![], 0),
            TopicGraphEntry::new("say".into(), vec![], 0),
        ],
    );

    assert!(sync.filter_message_by_peer(&peer1, &message1));
    assert!(sync.filter_message_by_peer(&peer2, &message1));
    assert!(sync.filter_message_by_peer(&peer3, &message2));
    assert!(!sync.filter_message_by_peer(&peer1, &message2));
    assert!(!sync.filter_message_by_peer(&peer2, &message2));
    assert!(!sync.filter_message_by_peer(&peer3, &message1));
    assert!(!sync.filter_message_by_peer(&peer4, &message1));
    assert!(!sync.filter_message_by_peer(&peer4, &message2));
}

fn subscriber_count(sync: &Sync<String>, topic: &str) -> Option<usize> {
    sync.subscribers(&topic.to_string()).map(|subs| subs.len())
}

#[test]
fn apply_sync_actions() {
    let sync = make_sync::<String>("timmy");
    let peer = Peer::tmp(&Keypair::new_random().to_pubkey(), sync.keypair().seckey());
    assert_eq!(sync.peers().len(), 0);
    assert_eq!(sync.pending_peer_init().len(), 0);

    let mut sync2 = sync.clone();
    sync2.apply_sync_actions(vec![
        SyncAction::SetPeer(PeerInfo::new(peer.clone(), conn("127.0.0.1:1"), true, now())),
    ]);
    assert_eq!(sync2.peers().len(), 1);
    assert_eq!(sync2.pending_peer_init().len(), 0);
    assert_eq!(sync2.find_peer(peer.pubkey(), None).unwrap().peer().pubkey(), peer.pubkey());

    let mut sync3 = sync2.clone();
    sync3.apply_sync_actions(vec![
        SyncAction::SetPeer(PeerInfo::new(peer.clone(), conn("127.0.0.1:1"), true, now())),
    ]);
    assert_eq!(sync3.peers().len(), 1);
    assert_eq!(sync3.pending_peer_init().len(), 0);
    assert_eq!(sync3.find_peer(peer.pubkey(), None).unwrap().peer().pubkey(), peer.pubkey());

    let mut sync4 = sync3.clone();
    sync4.apply_sync_actions(vec![
        SyncAction::UnsetPeer(peer.pubkey().clone()),
    ]);
    assert_eq!(sync4.peers().len(), 0);
    assert_eq!(sync4.pending_peer_init().len(), 0);

    let mut sync5 = sync4.clone();
    sync5.apply_sync_actions(vec![
        SyncAction::SetPendingPeer(PendingPeer::new(conn("69.24.123.234:666"), now())),
        SyncAction::SetPendingPeer(PendingPeer::new(conn("77.77.11.99:322"), now())),
    ]);
    assert_eq!(sync5.peers().len(), 0);
    assert_eq!(sync5.pending_peer_init().len(), 2);
    assert_eq!(sync5.pending_peer_init()[0].connection_info(), &conn("69.24.123.234:666"));
    assert_eq!(sync5.pending_peer_init()[1].connection_info(), &conn("77.77.11.99:322"));

    let mut sync6 = sync5.clone();
    sync6.apply_sync_actions(vec![
        SyncAction::SetPendingPeer(PendingPeer::new(conn("69.24.123.234:666"), now())),
        SyncAction::SetPendingPeer(PendingPeer::new(conn("77.77.11.99:322"), now())),
    ]);
    assert_eq!(sync6.peers().len(), 0);
    assert_eq!(sync6.pending_peer_init().len(), 2);
    assert_eq!(sync6.pending_peer_init()[0].connection_info(), &conn("69.24.123.234:666"));
    assert_eq!(sync6.pending_peer_init()[1].connection_info(), &conn("77.77.11.99:322"));

    let mut sync7 = sync6.clone();
    sync7.apply_sync_actions(vec![
        SyncAction::UnsetPendingPeer(conn("69.24.123.234:666")),
    ]);
    assert_eq!(sync7.peers().len(), 0);
    assert_eq!(sync7.pending_peer_init().len(), 1);
    assert_eq!(sync7.pending_peer_init()[0].connection_info(), &conn("77.77.11.99:322"));

    let mut sync8 = sync7.clone();
    sync8.apply_sync_actions(vec![
        SyncAction::UnsetPendingPeer(conn("69.24.123.234:666")),
        SyncAction::UnsetPendingPeer(conn("77.77.11.99:322")),
        SyncAction::UnsetPendingPeer(conn("75.77.11.99:322")),
        SyncAction::UnsetPendingPeer(conn("37.77.11.99:322")),
        SyncAction::UnsetPendingPeer(conn("77.77.19.99:322")),
    ]);
    assert_eq!(sync8.peers().len(), 0);
    assert_eq!(sync8.pending_peer_init().len(), 0);

    let peer9_1 = Peer::tmp(&Keypair::new_random().to_pubkey(), sync.keypair().seckey());
    let peer9_1_info = PeerInfo::new(peer9_1, conn("5.5.5.5:222"), true, now());
    let peer9_2 = Peer::tmp(&Keypair::new_random().to_pubkey(), sync.keypair().seckey());
    let peer9_2_info = PeerInfo::new(peer9_2, conn("6.3.8.9:111"), true, now());
    let mut sync9 = sync8.clone();
    assert_eq!(sync9.subscriptions().len(), 0);
    sync9.apply_sync_actions(vec![
        SyncAction::SetSubscription("getajob".into(), peer9_1_info.clone()),
        // added twice, but should be deduped
        SyncAction::SetSubscription("getajob".into(), peer9_1_info.clone()),
        SyncAction::SetSubscription("FINE".into(), peer9_2_info.clone()),
    ]);
    assert_eq!(sync9.subscriptions().len(), 2);
    assert_eq!(subscriber_count(&sync9, "getajob"), Some(1));
    assert_eq!(subscriber_count(&sync9, "FINE"), Some(1));

    let mut sync10 = sync9.clone();
    assert_eq!(sync10.subscriptions().len(), 2);
    assert_eq!(subscriber_count(&sync10, "getajob"), Some(1));
    assert_eq!(subscriber_count(&sync10, "FINE"), Some(1));
    sync10.apply_sync_actions(vec![
        // should remove nothing, peer9_1 isn't subscribed to "FINE"
        SyncAction::UnsetSubscription("FINE".into(), peer9_1_info.clone()),
    ]);
    assert_eq!(sync10.subscriptions().len(), 2);
    assert_eq!(subscriber_count(&sync10, "getajob"), Some(1));
    assert_eq!(subscriber_count(&sync10, "FINE"), Some(1));
    sync10.apply_sync_actions(vec![
        SyncAction::UnsetSubscription("FINE".into(), peer9_2_info.clone()),
    ]);
    assert_eq!(sync10.subscriptions().len(), 1);
    assert_eq!(subscriber_count(&sync10, "getajob"), Some(1));
    assert!(subscriber_count(&sync10, "FINE").is_none());
    sync10.apply_sync_actions(vec![
        SyncAction::UnsetSubscription("getajob".into(), peer9_2_info.clone()),
    ]);
    assert_eq!(sync10.subscriptions().len(), 1);
    assert_eq!(subscriber_count(&sync10, "getajob"), Some(1));
    assert!(subscriber_count(&sync10, "FINE").is_none());
    sync10.apply_sync_actions(vec![
        SyncAction::UnsetSubscription("getajob".into(), peer9_1_info.clone()),
    ]);
    assert_eq!(sync10.subscriptions().len(), 0);
    assert!(subscriber_count(&sync10, "getajob").is_none());
    assert!(subscriber_count(&sync10, "FINE").is_none());
}

#[test]
fn tick() {
    let mut sync = make_sync::<()>("her life is in your hands, dude");
    let peer1 = Peer::tmp(&Keypair::new_random().to_pubkey(), sync.keypair().seckey());
    let peer2 = Peer::tmp(&Keypair::new_random().to_pubkey(), sync.keypair().seckey());
    let peer3 = Peer::tmp(&Keypair::new_random().to_pubkey(), sync.keypair().seckey());
    let peer1_info = PeerInfo::new(peer1.clone(), conn("127.45.23.99:228"), true, ts("2018-06-06T00:02:04Z"));
    let peer2_info = PeerInfo::new(peer2.clone(), conn("233.102.202.17:9887"), false, ts("2018-06-06T00:03:33Z"));
    let peer3_info = PeerInfo::new(peer3.clone(), conn("12.69.42.69:8008"), true, ts("2018-06-06T00:03:58Z"));
    let pending1 = PendingPeer::new(conn("90.90.90.2:344"), ts("2018-06-06T00:02:22Z"));
    let pending2 = PendingPeer::new(conn("188.11.8.5:64454"), ts("2018-06-06T00:03:58Z"));
    sync.apply_sync_actions(vec![
        SyncAction::SetPeer(peer1_info.clone()),
        SyncAction::SetPeer(peer2_info.clone()),
        SyncAction::SetPeer(peer3_info.clone()),
        SyncAction::SetPendingPeer(pending1.clone()),
        SyncAction::SetPendingPeer(pending2.clone()),
    ]);
    let actions1 = sync.tick::<(), ()>(&ts("2018-06-06T00:04:01Z")).unwrap();
    let actions2 = sync.tick::<(), ()>(&ts("2018-06-06T00:05:01Z")).unwrap();
    let actions3 = sync.tick::<(), ()>(&ts("2018-06-06T00:07:01Z")).unwrap();

    assert_eq!(actions1.len(), 1);
    assert_eq!(actions2.len(), 4);
    assert_eq!(actions3.len(), 5);
    match &actions1[0] {
        Action::MessageSend(conn, ..) => assert_eq!(conn, peer1_info.connection_info()),
        _ => panic!("bad match"),
    }
    assert!(
        actions2.iter()
            .find(|x| match x {
                Action::MessageSend(conn, ..) => conn == peer1_info.connection_info(),
                _ => false,
            })
            .is_some()
    );
    assert!(
        actions2.iter()
            .find(|x| match x {
                Action::MessageSend(conn, ..) => conn == peer2_info.connection_info(),
                _ => false,
            })
            .is_some()
    );
    assert!(
        actions2.iter()
            .find(|x| match x {
                Action::MessageSend(conn, ..) => conn == peer3_info.connection_info(),
                _ => false,
            })
            .is_some()
    );
    match &actions2[3] {
        Action::Sync(SyncAction::UnsetPendingPeer(conn)) => {
            assert_eq!(conn, pending1.connection_info());
        }
        _ => panic!("bad"),
    }

    assert!(
        actions3.iter()
            .find(|x| match x {
                Action::Sync(SyncAction::UnsetPeer(pubkey)) => pubkey == peer2.pubkey(),
                _ => false,
            })
            .is_some()
    );
    assert!(
        actions3.iter()
            .find(|x| match x {
                Action::Sync(SyncAction::UnsetPendingPeer(conn)) => {
                    conn == pending2.connection_info()
                }
                _ => false,
            })
            .is_some()
    );
}

#[test]
fn process_init_message() {
    let sync = make_sync::<()>("no ragrets");
    let keypair = Keypair::new_random();
    let wrapped = MessageWrapped::Init(keypair.to_pubkey());
    let conninfo = conn("54.228.109.71:3338");
    let now = now();
    let actions1 = sync.process_init_message::<(), ()>(&wrapped, &conninfo, &now).unwrap();
    match &actions1[0] {
        Action::Sync(SyncAction::SetPeer(peer_info)) => {
            assert_eq!(peer_info.peer().pubkey(), &keypair.to_pubkey());
            assert_eq!(peer_info.connection_info(), &conninfo);
            assert_eq!(peer_info.active(), &false);
            assert_eq!(peer_info.last_ping(), &now);
        }
        _ => panic!("panic"),
    }

    let peer_to = Peer::tmp(&Keypair::new_random().to_pubkey(), sync.keypair().seckey());
    let wrapped_sealed = sync.create_sealed_message(&peer_to, Event::<(), (), ()>::Ping, vec![], &now).unwrap();
    let actions2 = sync.process_init_message::<(), ()>(&wrapped_sealed, &conninfo, &now);
    assert_eq!(actions2.unwrap_err(), Error::MessageNotInit);
}

#[test]
fn unwrap_incoming_message() {
    fn make_message(to: &Sync<()>, body: Event<(), (), ()>, from: Option<&Sync<()>>) -> MessageWrapped {
        let now = now();
        let sync_from = from.map(|x| x.clone()).unwrap_or(make_sync::<()>("jabroni"));
        let peer = Peer::new("johnny".into(), to.keypair().to_pubkey(), sync_from.keypair().seckey());
        sync_from.create_sealed_message(&peer, body, vec![], &now).unwrap()
    }
    let sync = make_sync::<()>("johnny");

    let sealed_message = make_message(&sync, Event::Hello, None);
    match sealed_message {
        MessageWrapped::Sealed(sealed) => {
            let message = sync.unwrap_incoming_message::<(), ()>(&sealed).unwrap();
            assert!(matches!(message.body(), &Event::Hello));
        }
        _ => panic!("bad dates"),
    }

    let sealed_message2 = make_message(&sync, Event::PeerInit { name: "flibby".into() }, None);
    match sealed_message2 {
        MessageWrapped::Sealed(sealed) => {
            let message = sync.unwrap_incoming_message::<(), ()>(&sealed).unwrap();
            assert!(matches!(message.body(), &Event::PeerInit { .. }));
        }
        _ => panic!("bad dates"),
    }

    let sealed_message3 = make_message(&sync, Event::Ping, None);
    match sealed_message3 {
        MessageWrapped::Sealed(sealed) => {
            let res = sync.unwrap_incoming_message::<(), ()>(&sealed);
            assert_eq!(res.unwrap_err(), Error::PeerNotFound(sealed.pubkey_sender().clone()));
        }
        _ => panic!("bad dates"),
    }

    let mut sync2 = sync.clone();
    let sync_from = make_sync::<()>("jack");
    let sealed_message4 = make_message(&sync, Event::Ping, Some(&sync_from));
    let from_peer = Peer::new("jack".into(), sync_from.keypair().to_pubkey(), sync2.keypair().seckey());
    let from_peer_info = PeerInfo::new(from_peer, conn("66.66.66.66:227"), true, now());
    set_peer(&mut sync2, from_peer_info.clone());
    match sealed_message4 {
        MessageWrapped::Sealed(sealed) => {
            let message = sync2.unwrap_incoming_message::<(), ()>(&sealed).unwrap();
            assert!(matches!(message.body(), Event::Ping));
        }
        _ => panic!("bad dates"),
    }
}

#[test]
fn process_event_hello() {
    let sync1 = make_sync::<()>("i like football");
    let (message1, peer_pubkey1) = make_message::<(), (), ()>(Event::Hello, vec![]);
    let conninfo1 = conn("1.34.93.92:555");
    let res1 = sync1.process_event_hello(&message1, &peer_pubkey1, &conninfo1, &now()).unwrap();
    // no pending peer? NO ACTIONS
    assert_eq!(res1.len(), 0);

    let mut sync2 = sync1.clone();
    sync2.apply_sync_actions(vec![SyncAction::SetPendingPeer(PendingPeer::new(conninfo1.clone(), now()))]);
    let res2 = sync2.process_event_hello(&message1, &peer_pubkey1, &conninfo1, &now()).unwrap();
    assert_eq!(res2.len(), 3);
    match &res2[0] {
        Action::Sync(SyncAction::SetPeer(peer_info)) => {
            assert_eq!(peer_info.peer().pubkey(), &peer_pubkey1);
            assert_eq!(peer_info.connection_info(), &conninfo1);
            assert_eq!(peer_info.active(), &false);
        }
        _ => panic!("bad dates"),
    }
    match &res2[1] {
        Action::Sync(SyncAction::UnsetPendingPeer(conninfo)) => {
            assert_eq!(conninfo, &conninfo1);
        }
        _ => panic!("not organic"),
    }
    match &res2[2] {
        Action::MessageSend(conninfo, MessageWrapped::Sealed(sealed)) => {
            assert_eq!(conninfo, &conninfo1);
            assert_eq!(sealed.pubkey_sender(), &sync2.keypair().to_pubkey());
        }
        _ => panic!("my fungal toenail infection's back"),
    }

    let (message2, _) = make_message::<(), (), ()>(Event::Ping, vec![]);
    let res3 = sync2.process_event_hello(&message2, &peer_pubkey1, &conninfo1, &now());
    assert_eq!(res3.unwrap_err(), Error::EventMismatch);
}

#[test]
fn process_event_peer_init() {
    // exclude everything
    fn test_auto_deny<U, T, S>(message1: Message<U, T, S>, peer_pubkey1: PeerPubkey, conninfo1: ConnectionInfo, mode: ConfirmationMode)
        where U: Clone + Wire, T: Clone + Wire, S: Clone + Wire,
    {
        let sync1 = make_sync_with::<T>("it is fun", mode);
        let res1 = sync1.process_event_peer_init(&message1, &peer_pubkey1, &conninfo1, &now()).unwrap();
        assert_eq!(res1.len(), 0);
    }

    // the peer that sends the `PeerInit` is `sync_me2`, whose key the
    // confirmation mode is made for
    fn test_for_auto_confirm<U, T, S>(message2: Message<U, T, S>, conninfo2: ConnectionInfo, mode: fn(PeerPubkey) -> ConfirmationMode)
        where U: Clone + Wire, T: Clone + Wire, S: Clone + Wire,
    {
        let mut sync_me2 = make_sync::<T>("i like football");
        let peer_pubkey2 = sync_me2.keypair().to_pubkey();
        let mut sync2 = make_sync_with::<T>("i like to run", mode(peer_pubkey2.clone()));
        let peer2 = sync_to_peer(&sync_me2, sync2.keypair().seckey());
        let peer_me2 = sync_to_peer(&sync2, sync_me2.keypair().seckey());
        let now2 = now();
        let peer_info2 = PeerInfo::new(peer2.clone(), conninfo2.clone(), true, now2.clone());
        let peer_info_me2 = PeerInfo::new(peer_me2.clone(), conn("55.66.77.88:123"), true, now2.clone());
        set_peer(&mut sync2, peer_info2);
        set_peer(&mut sync_me2, peer_info_me2);
        let now2_2 = now();
        let res2 = sync2.process_event_peer_init(&message2, &peer_pubkey2, &conninfo2, &now2_2).unwrap();
        assert_eq!(res2.len(), 2);
        match &res2[0] {
            Action::Sync(SyncAction::SetPeer(peer_info)) => {
                assert_eq!(peer_info.peer().name(), "beavis");
                assert_eq!(peer_info.peer().pubkey(), peer2.pubkey());
                assert_eq!(peer_info.connection_info(), &conninfo2);
                assert_eq!(peer_info.active(), &true);
                assert_eq!(peer_info.last_ping(), &now2_2);
            }
            _ => panic!("ohhhhhh geez now dat's a muskie if i've ever seeen one ya know.")
        }
        match &res2[1] {
            Action::MessageSend(conninfo, MessageWrapped::Sealed(sealed)) => {
                assert_eq!(conninfo, &conninfo2);
                let unwrapped = sync_me2.unwrap_incoming_message::<U, S>(&sealed).unwrap();
                assert!(matches!(unwrapped.body(), &Event::PeerConfirm { .. }));
            }
            _ => panic!("i got a curse for you it's called tomorrow morning, your ass is out of here"),
        }
    }

    fn test_for_confirm_action<U, T, S>(message3: Message<U, T, S>, peer_pubkey3: PeerPubkey, conninfo3: ConnectionInfo, mode: ConfirmationMode)
        where U: Clone + PartialEq + std::fmt::Debug + Wire,
              T: Clone + PartialEq + std::fmt::Debug + Wire,
              S: Clone + PartialEq + std::fmt::Debug + Wire,
    {
        let mut sync_me3 = make_sync::<T>("i like football");
        let mut sync3 = make_sync_with::<T>("it makes me glad", mode);
        let peer3 = sync_to_peer(&sync_me3, sync3.keypair().seckey());
        let peer_me3 = sync_to_peer(&sync3, sync_me3.keypair().seckey());
        let now3 = now();
        let peer_info3 = PeerInfo::new(peer3.clone(), conninfo3.clone(), true, now3.clone());
        let peer_info_me3 = PeerInfo::new(peer_me3.clone(), conn("55.66.77.88:123"), true, now3.clone());
        set_peer(&mut sync3, peer_info3);
        set_peer(&mut sync_me3, peer_info_me3);
        let res3 = sync3.process_event_peer_init(&message3, &peer_pubkey3, &conninfo3, &now()).unwrap();
        assert_eq!(res3.len(), 1);
        match &res3[0] {
            Action::Confirm(ev) => {
                assert_eq!(ev, message3.body());
            }
            _ => panic!("ohhhhhh geez now dat's a muskie if i've ever seeen one ya know.")
        }
    }

    let (message1, peer_pubkey1) = make_message::<(), (), ()>(Event::PeerInit { name: "beavis".into() }, vec![]);
    test_auto_deny(
        message1.clone(),
        peer_pubkey1.clone(),
        conn("33.213.199.56:418"),
        ConfirmationMode::Private { whitelist: vec![] },
    );
    test_auto_deny(
        message1.clone(),
        peer_pubkey1.clone(),
        conn("33.213.199.56:418"),
        ConfirmationMode::Confirm { whitelist: vec![], blacklist: vec![peer_pubkey1.clone()] },
    );
    test_auto_deny(
        message1.clone(),
        peer_pubkey1.clone(),
        conn("33.213.199.56:418"),
        ConfirmationMode::PublicAgent { whitelist: vec![], blacklist: vec![peer_pubkey1.clone()] },
    );

    let (message2, _) = make_message::<(), (), ()>(Event::PeerInit { name: "beavis".into() }, vec![]);
    test_for_auto_confirm(
        message2.clone(),
        conn("33.213.199.56:418"),
        |pk| ConfirmationMode::Private { whitelist: vec![pk] },
    );
    test_for_auto_confirm(
        message2.clone(),
        conn("33.213.199.56:418"),
        |pk| ConfirmationMode::Confirm { whitelist: vec![pk], blacklist: vec![] },
    );
    test_for_auto_confirm(
        message2.clone(),
        conn("33.213.199.56:418"),
        |_| ConfirmationMode::PublicAgent { whitelist: vec![], blacklist: vec![] },
    );

    let (message3, peer_pubkey3) = make_message::<(), (), ()>(Event::PeerInit { name: "beavis".into() }, vec![]);
    test_for_confirm_action(
        message3.clone(),
        peer_pubkey3.clone(),
        conn("33.213.199.56:418"),
        ConfirmationMode::Confirm { whitelist: vec![], blacklist: vec![] },
    );

    let (message4, peer_pubkey4) = make_message::<(), (), ()>(Event::Ping, vec![]);
    let sync4 = make_sync_with::<()>("i play football", ConfirmationMode::Private { whitelist: vec![] });
    let res4 = sync4.process_event_peer_init(&message4, &peer_pubkey4, &conn("66.77.88.121:554"), &now());
    assert_eq!(res4.unwrap_err(), Error::EventMismatch);
}

#[test]
fn process_event_peer_confirm() {
    // wrong event, should break
    let sync1 = make_sync::<()>("with my dad");
    let (message1, pubkey_sender1) = make_message::<(), (), ()>(Event::Ping, vec![]);
    let res1 = sync1.process_event_peer_confirm(&message1, &pubkey_sender1, &now());
    assert_eq!(res1.unwrap_err(), Error::EventMismatch);

    // right event, but no existing peer record, should break
    let sync2 = make_sync::<()>("- a poem by nate");
    let (message2, pubkey_sender2) = make_message::<(), (), ()>(Event::PeerConfirm { name: "jackson".into() }, vec![]);
    let res2 = sync2.process_event_peer_confirm(&message2, &pubkey_sender2, &now());
    assert_eq!(res2.unwrap_err(), Error::PeerNotFound(pubkey_sender2));

    // right event, peer added, should work
    let mut sync3 = make_sync::<()>("larry");
    let sync3_from = make_sync::<()>("alright shutup parker");
    let (message3, _) = make_message::<(), (), ()>(Event::PeerConfirm { name: "jackson".into() }, vec![]);
    let peer3 = sync_to_peer(&sync3_from, sync3.keypair().seckey());
    let peer3_info = PeerInfo::new(peer3.clone(), conn("44.88.14.56:1999"), false, now());
    set_peer(&mut sync3, peer3_info);
    let now3 = now();
    let res3 = sync3.process_event_peer_confirm(&message3, peer3.pubkey(), &now3).unwrap();
    assert_eq!(res3.len(), 1);
    match &res3[0] {
        Action::Sync(SyncAction::SetPeer(peer_mod)) => {
            assert_eq!(peer_mod.peer().name(), "jackson");
            assert_eq!(peer_mod.active(), &true);
            assert_eq!(peer_mod.last_ping(), &now3);
        }
        _ => panic!("my goat hurts"),
    }
}

#[test]
fn process_event_ping() {
    // wrong event, should break
    let sync1 = make_sync::<()>("well i you leave enough room for my fist");
    let (message1, pubkey_sender1) = make_message::<(), (), ()>(Event::Pong, vec![]);
    let res1 = sync1.process_event_ping(&message1, &pubkey_sender1, &now());
    assert_eq!(res1.unwrap_err(), Error::EventMismatch);

    // right event, but no existing peer record, should break
    let sync2 = make_sync::<()>("because i'm going to ram it into your stomach!");
    let (message2, pubkey_sender2) = make_message::<(), (), ()>(Event::Ping, vec![]);
    let res2 = sync2.process_event_ping(&message2, &pubkey_sender2, &now());
    assert_eq!(res2.unwrap_err(), Error::PeerNotFound(pubkey_sender2));

    // right event, peer added, should work
    let mut sync3 = make_sync::<()>("i will, bye.");
    let mut sync3_from = make_sync::<()>("mort, preferred realty");
    let (message3, _) = make_message::<(), (), ()>(Event::Ping, vec![]);
    let conninfo3 = conn("44.55.222.111:7001");
    let peer3 = sync_to_peer(&sync3_from, sync3.keypair().seckey());
    let peer3_info = PeerInfo::new(peer3.clone(), conninfo3.clone(), false, now());
    let peer3_from = sync_to_peer(&sync3, sync3_from.keypair().seckey());
    let peer3_from_info = PeerInfo::new(peer3_from.clone(), conn("1.1.1.1:1"), true, now());
    set_peer(&mut sync3, peer3_info.clone());
    set_peer(&mut sync3_from, peer3_from_info.clone());
    let now3 = now();
    let res3 = sync3.process_event_ping(&message3, peer3.pubkey(), &now3).unwrap();
    assert_eq!(res3.len(), 2);
    match &res3[0] {
        Action::Sync(SyncAction::SetPeer(peer_mod)) => {
            assert_eq!(peer_mod.peer().name(), peer3_info.peer().name());
            assert_eq!(peer_mod.active(), peer3_info.active());
            assert_eq!(peer_mod.last_ping(), &now3);
        }
        _ => panic!("my goat hurts"),
    }
    match &res3[1] {
        Action::MessageSend(conninfo, MessageWrapped::Sealed(sealed)) => {
            assert_eq!(conninfo, &conninfo3);
            let opened = sync3_from.unwrap_incoming_message::<(), ()>(&sealed).unwrap();
            assert_eq!(opened.body(), &Event::Pong);
        }
        _ => panic!("gahhhhhh timmy"),
    }
}

#[test]
fn process_event_pong() {
    // wrong event, should break
    let sync1 = make_sync::<()>("well i you leave enough room for my fist");
    let (message1, pubkey_sender1) = make_message::<(), (), ()>(Event::Ping, vec![]);
    let res1 = sync1.process_event_pong(&message1, &pubkey_sender1, &now());
    assert_eq!(res1.unwrap_err(), Error::EventMismatch);

    // right event, but no existing peer record, should break
    let sync2 = make_sync::<()>("because i'm going to ram it into your stomach!");
    let (message2, pubkey_sender2) = make_message::<(), (), ()>(Event::Pong, vec![]);
    let res2 = sync2.process_event_pong(&message2, &pubkey_sender2, &now());
    assert_eq!(res2.unwrap_err(), Error::PeerNotFound(pubkey_sender2));

    // right event, peer added, should work
    let mut sync3 = make_sync::<()>("i will, bye.");
    let sync3_from = make_sync::<()>("alright shutup parker");
    let (message3, _) = make_message::<(), (), ()>(Event::Pong, vec![]);
    let peer3 = sync_to_peer(&sync3_from, sync3.keypair().seckey());
    let peer3_info = PeerInfo::new(peer3.clone(), conn("34.71.44.129:2232"), false, now());
    set_peer(&mut sync3, peer3_info.clone());
    let now3 = now();
    let res3 = sync3.process_event_pong(&message3, peer3.pubkey(), &now3).unwrap();
    assert_eq!(res3.len(), 1);
    match &res3[0] {
        Action::Sync(SyncAction::SetPeer(peer_mod)) => {
            assert_eq!(peer_mod.peer().name(), peer3_info.peer().name());
            assert_eq!(peer_mod.active(), peer3_info.active());
            assert_eq!(peer_mod.last_ping(), &now3);
        }
        _ => panic!("my goat hurts"),
    }
}

fn todo_messages() -> Vec<Message<Todo, String, ()>> {
    vec![
        make_message::<Todo, String, ()>(Event::User(todo("MakeTable")), vec![
            TopicGraphEntry::new("jarko".into(), vec![], 0),
            TopicGraphEntry::new("jiminy".into(), vec![], 0),
        ]).0,
        make_message::<Todo, String, ()>(Event::User(todo("GetAJob")), vec![
            TopicGraphEntry::new("owl".into(), vec![], 0),
            TopicGraphEntry::new("oof".into(), vec![], 0),
        ]).0,
        make_message::<Todo, String, ()>(Event::User(todo("EatPastry")), vec![
            TopicGraphEntry::new("zing".into(), vec![], 0),
            TopicGraphEntry::new("zork".into(), vec![], 0),
            TopicGraphEntry::new("zelebreio".into(), vec![], 0),
        ]).0,
    ]
}

#[test]
fn process_event_query_messages_by_id() {
    let messages = todo_messages();

    // wrong event, but empty messages, should return []
    let sync1 = make_sync::<String>("i'm not a pervert!!");
    let (message1, pubkey_sender1) = make_message::<Todo, String, ()>(Event::Ping, vec![]);
    let res1 = sync1.process_event_query_messages_by_id(&message1, &pubkey_sender1, &vec![]).unwrap();
    assert_eq!(res1.len(), 0);

    // right event, but no existing peer record, but empty messages, should return []
    let sync2 = make_sync::<String>("jordie");
    let (message2, pubkey_sender2) = make_message::<Todo, String, ()>(Event::QueryMessagesByID { ids: vec![] }, vec![]);
    let res2 = sync2.process_event_query_messages_by_id(&message2, &pubkey_sender2, &vec![]).unwrap();
    assert_eq!(res2.len(), 0);

    // wrong event, should break
    let sync3 = make_sync::<String>("i'm not a pervert!!");
    let (message3, pubkey_sender3) = make_message::<Todo, String, ()>(Event::Ping, vec![]);
    let res3 = sync3.process_event_query_messages_by_id(&message3, &pubkey_sender3, &messages);
    assert_eq!(res3.unwrap_err(), Error::EventMismatch);

    // right event, but no existing peer record, should break
    let sync4 = make_sync::<String>("jordie");
    let (message4, pubkey_sender4) = make_message::<Todo, String, ()>(Event::QueryMessagesByID { ids: vec![] }, vec![]);
    let res4 = sync4.process_event_query_messages_by_id(&message4, &pubkey_sender4, &messages);
    assert_eq!(res4.unwrap_err(), Error::PeerNotFound(pubkey_sender4));

    let mut sync5 = make_sync::<String>("fara");
    let mut sync5_from = make_sync::<String>("scooter");
    let peer5 = sync_to_peer(&sync5_from, sync5.keypair().seckey());
    let peer5_from = sync_to_peer(&sync5, sync5_from.keypair().seckey());
    let (message5, _) = make_message::<Todo, String, ()>(Event::QueryMessagesByID { ids: vec![] }, vec![]);
    let conninfo5 = conn("123.22.94.125:9992");
    let peer5_info = PeerInfo::new(peer5.clone(), conninfo5.clone(), true, now());
    let peer5_from_info = PeerInfo::new(peer5_from.clone(), conn("4.4.4.7:3333"), true, now());
    set_peer(&mut sync5, peer5_info.clone());
    subscribe(&mut sync5, "jiminy".into(), vec![peer5_info.clone()]);
    subscribe(&mut sync5, "jarko".into(), vec![peer5_info.clone()]);
    subscribe(&mut sync5, "owl".into(), vec![peer5_info.clone()]);
    set_peer(&mut sync5_from, peer5_from_info.clone());
    let res5 = sync5.process_event_query_messages_by_id(&message5, peer5.pubkey(), &messages).unwrap();
    assert_eq!(res5.len(), 2);
    match &res5[0] {
        Action::MessageSend(conninfo, MessageWrapped::Sealed(sealed)) => {
            assert_eq!(conninfo, &conninfo5);
            let opened = sync5_from.unwrap_incoming_message::<Todo, ()>(sealed).unwrap();
            assert_eq!(opened.body(), &Event::User(todo("MakeTable")));
        }
        _ => panic!("gee willickers"),
    }
    match &res5[1] {
        Action::MessageSend(conninfo, MessageWrapped::Sealed(sealed)) => {
            assert_eq!(conninfo, &conninfo5);
            let opened = sync5_from.unwrap_incoming_message::<Todo, ()>(sealed).unwrap();
            assert_eq!(opened.body(), &Event::User(todo("GetAJob")));
        }
        _ => panic!("gee willickers"),
    }
}

#[test]
fn process_event_query_messages_by_depth() {
    let messages = todo_messages();

    // wrong event, but empty messages, should return []
    let sync1 = make_sync::<String>("i'm not a pervert!!");
    let (message1, pubkey_sender1) = make_message::<Todo, String, ()>(Event::Ping, vec![]);
    let res1 = sync1.process_event_query_messages_by_depth(&message1, &pubkey_sender1, &vec![]).unwrap();
    assert_eq!(res1.len(), 0);

    // right event, but no existing peer record, but empty messages, should return []
    let sync2 = make_sync::<String>("jordie");
    let (message2, pubkey_sender2) = make_message::<Todo, String, ()>(Event::QueryMessagesByDepth { topic: "jiminy".into(), depth: 4 }, vec![]);
    let res2 = sync2.process_event_query_messages_by_depth(&message2, &pubkey_sender2, &vec![]).unwrap();
    assert_eq!(res2.len(), 0);

    // wrong event, should break
    let sync3 = make_sync::<String>("i'm not a pervert!!");
    let (message3, pubkey_sender3) = make_message::<Todo, String, ()>(Event::Ping, vec![]);
    let res3 = sync3.process_event_query_messages_by_depth(&message3, &pubkey_sender3, &messages);
    assert_eq!(res3.unwrap_err(), Error::EventMismatch);

    // right event, but no existing peer record, should break
    let sync4 = make_sync::<String>("jordie");
    let (message4, pubkey_sender4) = make_message::<Todo, String, ()>(Event::QueryMessagesByDepth { topic: "jiminy".into(), depth: 4 }, vec![]);
    let res4 = sync4.process_event_query_messages_by_depth(&message4, &pubkey_sender4, &messages);
    assert_eq!(res4.unwrap_err(), Error::PeerNotFound(pubkey_sender4));

    let mut sync5 = make_sync::<String>("fara");
    let mut sync5_from = make_sync::<String>("scooter");
    let peer5 = sync_to_peer(&sync5_from, sync5.keypair().seckey());
    let peer5_from = sync_to_peer(&sync5, sync5_from.keypair().seckey());
    let (message5, _) = make_message::<Todo, String, ()>(Event::QueryMessagesByDepth { topic: "jiminy".into(), depth: 4 }, vec![]);
    let conninfo5 = conn("55.66.11.17:556");
    let peer5_info = PeerInfo::new(peer5.clone(), conninfo5.clone(), true, now());
    let peer5_from_info = PeerInfo::new(peer5_from.clone(), conn("4.4.4.7:3333"), true, now());
    set_peer(&mut sync5, peer5_info.clone());
    subscribe(&mut sync5, "jiminy".into(), vec![peer5_info.clone()]);
    subscribe(&mut sync5, "jarko".into(), vec![peer5_info.clone()]);
    subscribe(&mut sync5, "owl".into(), vec![peer5_info.clone()]);
    set_peer(&mut sync5_from, peer5_from_info.clone());
    let res5 = sync5.process_event_query_messages_by_depth(&message5, peer5.pubkey(), &messages).unwrap();
    assert_eq!(res5.len(), 2);
    match &res5[0] {
        Action::MessageSend(conninfo, MessageWrapped::Sealed(sealed)) => {
            assert_eq!(conninfo, &conninfo5);
            let opened = sync5_from.unwrap_incoming_message::<Todo, ()>(sealed).unwrap();
            assert_eq!(opened.body(), &Event::User(todo("MakeTable")));
        }
        _ => panic!("gee willickers"),
    }
    match &res5[1] {
        Action::MessageSend(conninfo, MessageWrapped::Sealed(sealed)) => {
            assert_eq!(conninfo, &conninfo5);
            let opened = sync5_from.unwrap_incoming_message::<Todo, ()>(sealed).unwrap();
            assert_eq!(opened.body(), &Event::User(todo("GetAJob")));
        }
        _ => panic!("gee willickers"),
    }
}

#[test]
fn process_event_subscribe() {
    let mut sync1 = make_sync::<String>("getforked");
    let peer1 = Peer::tmp(&Keypair::new_random().to_pubkey(), sync1.keypair().seckey());
    let peer1_info = PeerInfo::new(peer1.clone(), conn("44.33.77.123:5556"), true, now());
    set_peer(&mut sync1, peer1_info);
    let body1 = Event::<(), String, MySubscription<String>>::Subscribe(vec![
        MySubscription { valid: false, topic: "getajob".into() },
        MySubscription { valid: true, topic: "poopy butt".into() },
        MySubscription { valid: true, topic: "I HAVE HERPES".into() },
    ]);
    let (message1, _) = make_message(body1, vec![]);
    let res1 = sync1.process_event_subscribe(&message1, &peer1.pubkey()).unwrap();
    // only 2 because the first is invalid
    assert_eq!(res1.len(), 2);
    match &res1[0] {
        Action::Sync(SyncAction::SetSubscription(topic, peer_info)) => {
            assert_eq!(topic, "poopy butt");
            assert_eq!(peer_info.peer(), &peer1);
        }
        _ => panic!("ew you wore those shoes??"),
    }
    match &res1[1] {
        Action::Sync(SyncAction::SetSubscription(topic, peer_info)) => {
            assert_eq!(topic, "I HAVE HERPES");
            assert_eq!(peer_info.peer(), &peer1);
        }
        _ => panic!("HODL"),
    }

    // bad dates
    let (message2, pubkey_sender2) = make_message(Event::Ping, vec![]);
    let res2 = sync1.process_event_subscribe::<(), MySubscription<String>>(&message2, &pubkey_sender2);
    assert_eq!(res2.unwrap_err(), Error::EventMismatch);

    // no peer
    let body3 = Event::<(), String, MySubscription<String>>::Subscribe(vec![
        MySubscription { valid: true, topic: "FORENSIC EVIDENCE NEAR THE TORSO".into() },
    ]);
    let (message3, pubkey_sender3) = make_message(body3, vec![]);
    let res3 = sync1.process_event_subscribe::<(), MySubscription<String>>(&message3, &pubkey_sender3);
    assert_eq!(res3.unwrap_err(), Error::PeerNotFound(pubkey_sender3));
}

#[test]
fn process_event_unsubscribe() {
    let mut sync1 = make_sync::<String>("getforked");
    let peer1 = Peer::tmp(&Keypair::new_random().to_pubkey(), sync1.keypair().seckey());
    let peer1_info = PeerInfo::new(peer1.clone(), conn("44.33.77.123:5556"), true, now());
    set_peer(&mut sync1, peer1_info);
    let body1 = Event::<(), String, ()>::Unsubscribe(vec![
        "getajob".into(),
        "poopy butt".into(),
        "I HAVE HERPES".into(),
    ]);
    let (message1, _) = make_message(body1, vec![]);
    let res1 = sync1.process_event_unsubscribe(&message1, &peer1.pubkey()).unwrap();
    assert_eq!(res1.len(), 3);
    match &res1[0] {
        Action::Sync(SyncAction::UnsetSubscription(topic, peer_info)) => {
            assert_eq!(topic, "getajob");
            assert_eq!(peer_info.peer(), &peer1);
        }
        _ => panic!("ew you wore those shoes??"),
    }
    match &res1[1] {
        Action::Sync(SyncAction::UnsetSubscription(topic, peer_info)) => {
            assert_eq!(topic, "poopy butt");
            assert_eq!(peer_info.peer(), &peer1);
        }
        _ => panic!("ew you wore those shoes??"),
    }
    match &res1[2] {
        Action::Sync(SyncAction::UnsetSubscription(topic, peer_info)) => {
            assert_eq!(topic, "I HAVE HERPES");
            assert_eq!(peer_info.peer(), &peer1);
        }
        _ => panic!("HODL"),
    }

    // bad dates
    let (message2, pubkey_sender2) = make_message(Event::Ping, vec![]);
    let res2 = sync1.process_event_unsubscribe::<(), ()>(&message2, &pubkey_sender2);
    assert_eq!(res2.unwrap_err(), Error::EventMismatch);

    // no peer
    let body3 = Event::<(), String, ()>::Unsubscribe(vec![
        "FORENSIC EVIDENCE NEAR THE TORSO".into(),
    ]);
    let (message3, pubkey_sender3) = make_message(body3, vec![]);
    let res3 = sync1.process_event_unsubscribe::<(), ()>(&message3, &pubkey_sender3);
    assert_eq!(res3.unwrap_err(), Error::PeerNotFound(pubkey_sender3));
}

#[test]
fn process_event_query_subscriptions() {
    // wrong event, should break
    let sync1 = make_sync::<String>("getforked");
    let (message1, pubkey_sender1) = make_message::<(), String, ()>(Event::Ping, vec![]);
    let res1 = sync1.process_event_query_subscriptions(&message1, &pubkey_sender1, &now());
    assert_eq!(res1.unwrap_err(), Error::EventMismatch);

    // right event, but no existing peer record, should break
    let (message2, pubkey_sender2) = make_message::<(), String, ()>(Event::QuerySubscriptions, vec![]);
    let res2 = sync1.process_event_query_subscriptions(&message2, &pubkey_sender2, &now());
    assert_eq!(res2.unwrap_err(), Error::PeerNotFound(pubkey_sender2));

    // right event, peer added: it is told the topics it is subscribed to
    let mut sync3 = make_sync::<String>("larry");
    let mut sync3_from = make_sync::<String>("jerry");
    let conninfo3 = conn("44.33.77.123:5556");
    let peer3 = sync_to_peer(&sync3_from, sync3.keypair().seckey());
    let peer3_info = PeerInfo::new(peer3.clone(), conninfo3, true, now());
    let other = Peer::tmp(&Keypair::new_random().to_pubkey(), sync3.keypair().seckey());
    let other_info = PeerInfo::new(other, conn("1.2.3.4:5"), true, now());
    set_peer(&mut sync3, peer3_info.clone());
    subscribe(&mut sync3, "jiminy".into(), vec![peer3_info.clone(), other_info.clone()]);
    subscribe(&mut sync3, "owl".into(), vec![other_info.clone()]);
    subscribe(&mut sync3, "jarko".into(), vec![peer3_info.clone()]);
    let peer3_from = sync_to_peer(&sync3, sync3_from.keypair().seckey());
    set_peer(&mut sync3_from, PeerInfo::new(peer3_from, conn("9.9.9.9:99"), true, now()));
    let (message3, _) = make_message::<(), String, ()>(Event::QuerySubscriptions, vec![]);
    let res3 = sync3.process_event_query_subscriptions(&message3, peer3.pubkey(), &now()).unwrap();
    assert_eq!(res3.len(), 1);
    match &res3[0] {
        Action::MessageSend(conninfo, MessageWrapped::Sealed(sealed)) => {
            assert_eq!(conninfo, &conninfo3);
            let opened = sync3_from.unwrap_incoming_message::<(), ()>(sealed).unwrap();
            assert_eq!(opened.body(), &Event::ActiveSubscriptions(vec!["jiminy".to_string(), "jarko".to_string()]));
        }
        _ => panic!("bad action"),
    }
}

#[test]
fn process_event_active_subscriptions() {
    // a peer that asks which topics it is subscribed to gets an
    // `ActiveSubscriptions` answer it can open; with no subscriptions the
    // list is empty
    let mut sync_to = make_sync::<String>("asked");
    let mut sync_from = make_sync::<String>("asking");
    let peer_from = sync_to_peer(&sync_from, sync_to.keypair().seckey());
    let peer_to = sync_to_peer(&sync_to, sync_from.keypair().seckey());
    let conninfo = conn("10.0.0.2:4000");
    set_peer(&mut sync_to, PeerInfo::new(peer_from.clone(), conninfo, true, now()));
    set_peer(&mut sync_from, PeerInfo::new(peer_to.clone(), conn("10.0.0.1:4000"), true, now()));

    let query = sync_from.create_sealed_message(&peer_to, Event::<(), String, ()>::QuerySubscriptions, vec![], &now()).unwrap();
    let sealed_query = match query {
        MessageWrapped::Sealed(sealed) => sealed,
        _ => panic!("bad message"),
    };
    let opened_query = sync_to.unwrap_incoming_message::<(), ()>(&sealed_query).unwrap();
    assert_eq!(opened_query.body(), &Event::QuerySubscriptions);
    let answer = sync_to.process_event_query_subscriptions(&opened_query, sealed_query.pubkey_sender(), &now()).unwrap();
    assert_eq!(answer.len(), 1);
    match &answer[0] {
        Action::MessageSend(c, MessageWrapped::Sealed(sealed)) => {
            assert_eq!(c, &conninfo);
            let opened = sync_from.unwrap_incoming_message::<(), ()>(sealed).unwrap();
            assert_eq!(opened.body(), &Event::ActiveSubscriptions(vec![]));
        }
        _ => panic!("bad action"),
    }

    sync_to.apply_sync_actions(vec![
        SyncAction::SetSubscription("topic".to_string(), PeerInfo::new(peer_from.clone(), conninfo, true, now())),
    ]);
    let answer2 = sync_to.process_event_query_subscriptions(&opened_query, sealed_query.pubkey_sender(), &now()).unwrap();
    match &answer2[0] {
        Action::MessageSend(_, MessageWrapped::Sealed(sealed)) => {
            let opened = sync_from.unwrap_incoming_message::<(), ()>(sealed).unwrap();
            assert_eq!(opened.body(), &Event::ActiveSubscriptions(vec!["topic".to_string()]));
        }
        _ => panic!("bad action"),
    }
}

#[test]
fn init_comm() {
    let sync = make_sync::<String>("timmy");
    let actions = sync.init_comm::<(), String>(conn("192.168.0.69:7174"), &now()).unwrap();
    assert_eq!(actions.len(), 2);
    match &actions[0] {
        Action::Sync(SyncAction::SetPendingPeer(ref pending)) => {
            assert_eq!(pending.connection_info(), &conn("192.168.0.69:7174"));
        }
        _ => panic!("bad action"),
    }
    match &actions[1] {
        Action::MessageSend(ref conninfo, ref message) => {
            assert_eq!(conninfo, &conn("192.168.0.69:7174"));
            match message {
                MessageWrapped::Init(ref key) => {
                    assert_eq!(key, &sync.keypair().to_pubkey());
                }
                _ => panic!("bad message type"),
            }
        }
        _ => panic!("bad action"),
    }
}

#[test]
fn peer_confirm() {
    let peer_from = make_sync::<()>("timmy");
    let peer_to = make_sync::<()>("jimmy");

    assert_eq!(peer_from.peers().len(), 0);
    assert_eq!(peer_to.peers().len(), 0);
    let message = match peer_from.init_comm::<(), String>(conn("192.168.0.222:7174"), &now()).unwrap()[1] {
        Action::MessageSend(_, ref message) => message.clone(),
        _ => panic!("bad action"),
    };

    assert_eq!(peer_from.peers().len(), 0);
    assert_eq!(peer_to.peers().len(), 0);

    let conninfo = conn("191.168.1.2:666");
    let actions: Vec<Action<(), (), ()>> = match &message {
        MessageWrapped::Init(..) => {
            peer_to.process_init_message(&message, &conninfo, &now()).unwrap()
        }
        _ => panic!("lol"),
    };

    assert_eq!(peer_from.peers().len(), 0);
    assert_eq!(peer_to.peers().len(), 0);
    assert_eq!(actions.len(), 2);

    let peer_obj = match &actions[0] {
        Action::Sync(SyncAction::SetPeer(ref peer_info)) => {
            assert_eq!(peer_info.connection_info(), &conn("191.168.1.2:666"));
            assert_eq!(peer_info.peer().name(), "<tmp>");
            assert_eq!(peer_info.peer().pubkey(), &peer_from.keypair().to_pubkey());
            assert_eq!(peer_info.active(), &false);
            peer_info.peer().clone()
        }
        _ => panic!("bad action"),
    };
    match &actions[1] {
        Action::MessageSend(ref conninfo, ref message) => {
            assert_eq!(conninfo, &conn("191.168.1.2:666"));
            match message {
                MessageWrapped::Sealed(sealed) => {
                    let opened = sealed.open::<(), (), ()>(&peer_obj).unwrap();
                    assert_eq!(opened.body(), &Event::Hello);
                }
                _ => panic!("bad message"),
            }
        }
        _ => panic!("bad action"),
    }
}
