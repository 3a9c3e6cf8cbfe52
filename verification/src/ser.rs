//! Turning values into bytes and back.

use vstd::prelude::*;
use crate::error::{Error, Result};
use crate::wire::{Wire, prefixed};

verus! {

/// The bytes that encode a value.
pub fn serialize<X: Wire>(obj: &X) -> (r: Vec<u8>)
    ensures
        r@ == obj.wire(),
{
    let mut out: Vec<u8> = Vec::new();
    obj.encode(&mut out);
    assert(out@ =~= obj.wire());
    out
}

/// Reads a value from the start of `bytes`; bytes after its encoding are
/// ignored. Fails with `Error::Deserialize` exactly when `bytes` does not
/// start with the encoding of a value; when they start with the encoding
/// of `x`, the value read is `x`.
pub fn deserialize<X: Wire>(bytes: &[u8]) -> (r: Result<X>)
    ensures
        r matches Ok(v) ==> prefixed(bytes@, 0, v.wire()),
        forall|x: X| #[trigger]
            prefixed(bytes@, 0, x.wire()) ==> (r matches Ok(v) && v.wire() == x.wire()
                && v.deep_view() == x.deep_view()),
        r is Err ==> r == Err::<X, Error>(Error::Deserialize),
{
    match X::decode(bytes, 0) {
        Some((v, end)) => {
            assert(bytes@.subrange(0, end as int) == v.wire());
            proof {
                assert forall|x: X| #[trigger] prefixed(bytes@, 0, x.wire()) implies v.deep_view()
                    == x.deep_view() by {
                    assert(v.wire() + Seq::<u8>::empty() =~= x.wire() + Seq::<u8>::empty());
                    v.lemma_wire_unique(&x, Seq::<u8>::empty(), Seq::<u8>::empty());
                }
            }
            Ok(v)
        },
        None => Err(Error::Deserialize),
    }
}

} // verus!
