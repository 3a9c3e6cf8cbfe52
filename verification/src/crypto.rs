//! The public-key authenticated encryption that peers use to talk to each
//! other (curve25519, xsalsa20, poly1305), as the `sodiumoxide` crate
//! provides it. Keys and nonces are held here as plain byte arrays.

use vstd::prelude::*;
use sodiumoxide::crypto::box_::curve25519xsalsa20poly1305 as nacl;

verus! {

/// Number of bytes in a public key, a secret key, a precomputed key or a seed.
pub const KEY_BYTES: usize = 32;
/// Number of bytes in a nonce.
pub const NONCE_BYTES: usize = 24;
/// Number of bytes by which a ciphertext is longer than its plaintext.
pub const MAC_BYTES: usize = 16;

/// The key that `precompute` derives from a public key and a secret key.
pub uninterp spec fn spec_precompute(pubkey: Seq<u8>, seckey: Seq<u8>) -> Seq<u8>;

/// The ciphertext that `seal_precomputed` produces for a plaintext, a nonce
/// and a precomputed key.
pub uninterp spec fn spec_seal(plain: Seq<u8>, nonce: Seq<u8>, key: Seq<u8>) -> Seq<u8>;

/// What `open_precomputed` gives back for a ciphertext, a nonce and a
/// precomputed key: the plaintext, or `None` when verification fails.
pub uninterp spec fn spec_open(cipher: Seq<u8>, nonce: Seq<u8>, key: Seq<u8>) -> Option<Seq<u8>>;

/// The (public key, secret key) pair that `keypair_from_seed` derives.
pub uninterp spec fn spec_keypair_from_seed(seed: Seq<u8>) -> (Seq<u8>, Seq<u8>);

/// The public key that goes with a secret key: what `SecretKey::public_key`
/// computes (the curve's base point multiplied by the secret key), and the
/// public half of every key pair that `gen_keypair` and
/// `keypair_from_seed` give.
pub uninterp spec fn spec_public_key(seckey: Seq<u8>) -> Seq<u8>;

/// Calls `sodiumoxide`'s `precompute`, which derives the shared key for a
/// public key and a secret key. Its result is a function of the two keys,
/// and, as the crate documents, the other party computes the same key from
/// our public key and its own secret key.
#[verifier::external_body]
pub(crate) fn precompute(pubkey: &[u8; 32], seckey: &[u8; 32]) -> (key: [u8; 32])
    ensures
        key@ == spec_precompute(pubkey@, seckey@),
        forall|their_seckey: Seq<u8>|
            #[trigger] spec_public_key(their_seckey) == pubkey@ ==> key@ == spec_precompute(
                spec_public_key(seckey@),
                their_seckey,
            ),
{
    nacl::precompute(&nacl::PublicKey(*pubkey), &nacl::SecretKey(*seckey)).0
}

/// Calls `sodiumoxide`'s `seal_precomputed`. Its result is a function of the
/// plaintext, the nonce and the key; the source shows that it is
/// `MAC_BYTES` longer than the plaintext. The claim that `open_precomputed`
/// with the same nonce and key gives the plaintext back is the defining
/// property of the authenticated encryption the crate documents.
#[verifier::external_body]
pub(crate) fn seal_precomputed(plain: &[u8], nonce: &[u8; 24], key: &[u8; 32]) -> (cipher: Vec<u8>)
    requires
        plain@.len() + MAC_BYTES <= usize::MAX,
    ensures
        cipher@ == spec_seal(plain@, nonce@, key@),
        cipher@.len() == plain@.len() + MAC_BYTES,
        spec_open(cipher@, nonce@, key@) == Some(plain@),
{
    nacl::seal_precomputed(plain, &nacl::Nonce(*nonce), &nacl::PrecomputedKey(*key))
}

/// Calls `sodiumoxide`'s `open_precomputed`, which verifies and decrypts a
/// ciphertext; the source shows that a ciphertext shorter than `MAC_BYTES`
/// is refused.
#[verifier::external_body]
pub(crate) fn open_precomputed(cipher: &[u8], nonce: &[u8; 24], key: &[u8; 32]) -> (plain: Option<Vec<u8>>)
    ensures
        plain is Some <==> spec_open(cipher@, nonce@, key@) is Some,
        plain matches Some(p) ==> Some(p@) == spec_open(cipher@, nonce@, key@),
        cipher@.len() < MAC_BYTES ==> plain is None,
{
    nacl::open_precomputed(cipher, &nacl::Nonce(*nonce), &nacl::PrecomputedKey(*key)).ok()
}

/// Calls `sodiumoxide`'s `keypair_from_seed`, which derives a key pair from
/// a seed deterministically; its public key goes with its secret key.
#[verifier::external_body]
pub(crate) fn keypair_from_seed(seed: &[u8; 32]) -> (pair: ([u8; 32], [u8; 32]))
    ensures
        (pair.0@, pair.1@) == spec_keypair_from_seed(seed@),
        pair.0@ == spec_public_key(pair.1@),
{
    let (pk, sk) = nacl::keypair_from_seed(&nacl::Seed(*seed));
    (pk.0, sk.0)
}

/// Calls `sodiumoxide`'s `gen_keypair`, which draws a random key pair.
/// Nothing is stated of the keys but that the public key goes with the
/// secret key.
#[verifier::external_body]
pub(crate) fn gen_keypair() -> (pair: ([u8; 32], [u8; 32]))
    ensures
        pair.0@ == spec_public_key(pair.1@),
{
    let (pk, sk) = nacl::gen_keypair();
    (pk.0, sk.0)
}

/// Calls `sodiumoxide`'s `gen_nonce`, which draws a random nonce. Nothing is
/// stated of it beyond its fixed size.
#[verifier::external_body]
pub(crate) fn gen_nonce() -> (nonce: [u8; 24]) {
    nacl::gen_nonce().0
}

} // verus!
