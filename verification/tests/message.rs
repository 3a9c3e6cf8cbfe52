use sodiumoxide::crypto::box_::curve25519xsalsa20poly1305;
use tp2p::error::Error;
use tp2p::event::Event;
use tp2p::message::{gen_nonce, MessageSealed};
use tp2p::peer::{Keypair, Peer};
use tp2p::util::Timestamp;

fn now() -> Timestamp {
    let n = chrono::Utc::now();
    Timestamp::new(n.timestamp(), n.timestamp_subsec_nanos())
}

#[test]
fn can_gen_nonce() {
    let nonce1 = gen_nonce();
    let nonce2 = gen_nonce();
    // won't always pass, but probably fine 99.99999999% of the time
    assert!(nonce1 != nonce2);
}

#[test]
fn can_seal_and_open() {
    let seed_send = vec![13; curve25519xsalsa20poly1305::SEEDBYTES];
    let seed_recv = vec![42; curve25519xsalsa20poly1305::SEEDBYTES];
    let keypair_send = Keypair::new_with_seed(&seed_send).unwrap();
    let keypair_recv = Keypair::new_with_seed(&seed_recv).unwrap();
    let peer_send = Peer::new("jerry".into(), keypair_send.to_pubkey(), keypair_recv.seckey());
    let peer_recv = Peer::new("larry".into(), keypair_recv.to_pubkey(), keypair_send.seckey());

    let body = Event::Hello;
    let sealed = MessageSealed::create::<(), String, String>(peer_send.pubkey(), &peer_recv, now(), gen_nonce(), body, vec![]).unwrap();

    let message = sealed.open::<(), (), ()>(&peer_send).unwrap();

    assert_eq!(message.body(), &Event::Hello);

    let seed_send2 = vec![14; curve25519xsalsa20poly1305::SEEDBYTES];
    let seed_recv2 = vec![43; curve25519xsalsa20poly1305::SEEDBYTES];
    let keypair_send2 = Keypair::new_with_seed(&seed_send2).unwrap();
    let keypair_recv2 = Keypair::new_with_seed(&seed_recv2).unwrap();
    let peer_send2 = Peer::new("jerry".into(), keypair_send2.to_pubkey(), keypair_recv2.seckey());
    let peer_recv2 = Peer::new("larry".into(), keypair_recv2.to_pubkey(), keypair_send2.seckey());

    // check bad decryption pairs fail
    assert_eq!(sealed.open::<(), (), ()>(&peer_send2), Err(Error::MessageOpenFailed));
    assert_eq!(sealed.open::<(), (), ()>(&peer_recv2), Err(Error::MessageOpenFailed));
}
