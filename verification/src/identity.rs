//! Identities: the people and things on whose behalf peers sync. A peer may
//! manage several identities, and others can subscribe to an identity's
//! messages.

use vstd::prelude::*;
use crate::wire::{Wire, prefixed};

verus! {

/// An identity's public key.
#[derive(Debug, Clone, Copy, PartialEq, Eq, Hash)]
pub struct Pubkey {
    /// The key's bytes.
    pub inner: [u8; 32],
}

/// A proof that whoever presents it controls an identity, checkable with
/// the identity's public key.
#[derive(Debug, Clone, PartialEq)]
pub struct IdentityProof {
    /// The proof's bytes.
    pub inner: Vec<u8>,
}

/// An identity's key is its bytes.
impl DeepView for Pubkey {
    type V = Seq<u8>;

    open spec fn deep_view(&self) -> Seq<u8> {
        self.inner@
    }
}

impl Wire for Pubkey {
    open spec fn wire(&self) -> Seq<u8> {
        self.inner.wire()
    }

    proof fn lemma_wire_nonempty(&self) {
    }

    fn encode(&self, out: &mut Vec<u8>) {
        self.inner.encode(out);
    }

    fn decode(buf: &[u8], pos: usize) -> (r: Option<(Pubkey, usize)>) {
        proof {
            assert forall|x: Pubkey| #[trigger] prefixed(buf@, pos as int, x.wire()) implies prefixed(
                buf@,
                pos as int,
                x.inner.wire(),
            ) by {}
        }
        match <[u8; 32]>::decode(buf, pos) {
            Some((inner, end)) => Some((Pubkey { inner }, end)),
            None => None,
        }
    }

    fn duplicate(&self) -> (r: Pubkey) {
        *self
    }

    proof fn lemma_wire_unique(&self, other: &Pubkey, rest: Seq<u8>, other_rest: Seq<u8>) {
        self.inner.lemma_wire_unique(&other.inner, rest, other_rest);
    }
}

/// A proof is its bytes.
impl DeepView for IdentityProof {
    type V = Seq<u8>;

    open spec fn deep_view(&self) -> Seq<u8> {
        self.inner@
    }
}

impl Wire for IdentityProof {
    open spec fn wire(&self) -> Seq<u8> {
        self.inner.wire()
    }

    proof fn lemma_wire_nonempty(&self) {
    }

    fn encode(&self, out: &mut Vec<u8>) {
        self.inner.encode(out);
    }

    fn decode(buf: &[u8], pos: usize) -> (r: Option<(IdentityProof, usize)>) {
        proof {
            assert forall|x: IdentityProof| #[trigger] prefixed(buf@, pos as int, x.wire()) implies prefixed(
                buf@,
                pos as int,
                x.inner.wire(),
            ) by {}
        }
        match Vec::<u8>::decode(buf, pos) {
            Some((inner, end)) => Some((IdentityProof { inner }, end)),
            None => None,
        }
    }

    fn duplicate(&self) -> (r: IdentityProof) {
        let inner = self.inner.duplicate();
        assert(inner@ =~= self.inner@) by {
            assert(inner.deep_view().len() == self.inner.deep_view().len());
            assert forall|i: int| 0 <= i < inner@.len() implies inner@[i] == self.inner@[i] by {
                assert(inner.deep_view()[i] == self.inner.deep_view()[i]);
            }
        }
        IdentityProof { inner }
    }

    proof fn lemma_wire_unique(&self, other: &IdentityProof, rest: Seq<u8>, other_rest: Seq<u8>) {
        self.inner.lemma_wire_unique(&other.inner, rest, other_rest);
        assert(self.inner.deep_view() =~= self.inner@);
        assert(other.inner.deep_view() =~= other.inner@);
    }
}

} // verus!
