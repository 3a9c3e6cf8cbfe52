//! The wire format of the library: how every value that travels between
//! peers is laid out as bytes, and how it is read back.
//!
//! Each encodable type implements [`Wire`]. The encoding of a value is a spec
//! function of the value (`wire`); `encode` appends exactly those bytes, and
//! `decode` reads a value back: whatever it returns is encoded by the bytes it
//! consumed, and it never fails on bytes that start with an encoding.

use vstd::prelude::*;
use vstd::utf8::{decode_utf8, encode_utf8, valid_utf8, encode_utf8_valid_utf8, encode_utf8_decode_utf8, decode_utf8_encode_utf8};

verus! {

/// True when `buf` holds the bytes `w` starting at `pos`.
pub open spec fn prefixed(buf: Seq<u8>, pos: int, w: Seq<u8>) -> bool {
    &&& 0 <= pos
    &&& pos + w.len() <= buf.len()
    &&& buf.subrange(pos, pos + w.len()) == w
}

/// A value that can be written to and read from bytes. Its value as far as
/// specifications see it is its deep view: the view of each of its parts.
pub trait Wire: Sized + DeepView {
    /// The bytes that encode this value.
    spec fn wire(&self) -> Seq<u8>;

    /// Every encoding holds at least one byte.
    proof fn lemma_wire_nonempty(&self)
        ensures
            self.wire().len() > 0,
    ;

    /// Appends the encoding of this value to `out`.
    fn encode(&self, out: &mut Vec<u8>)
        ensures
            final(out)@ == old(out)@ + self.wire(),
    ;

    /// Reads a value from `buf` at `pos`, returning it with the position
    /// just past its encoding.
    fn decode(buf: &[u8], pos: usize) -> (r: Option<(Self, usize)>)
        requires
            pos <= buf@.len(),
        ensures
            r matches Some((v, end)) ==> pos <= end <= buf@.len() && buf@.subrange(
                pos as int,
                end as int,
            ) == v.wire(),
            forall|x: Self| #[trigger]
                prefixed(buf@, pos as int, x.wire()) ==> (r matches Some((v, end)) && v.wire()
                    == x.wire() && end == pos + x.wire().len()),
    ;

    /// A copy of this value: the same value, with the same encoding.
    fn duplicate(&self) -> (r: Self)
        ensures
            r.wire() == self.wire(),
            r.deep_view() == self.deep_view(),
    ;

    /// Bytes are read back without ambiguity: when the encodings of two
    /// values (each of a size that memory can hold) start the same bytes,
    /// they are the same value, with the same encoding, and the same bytes
    /// follow. In particular equal encodings come from equal values.
    proof fn lemma_wire_unique(&self, other: &Self, rest: Seq<u8>, other_rest: Seq<u8>)
        requires
            self.wire() + rest == other.wire() + other_rest,
            self.wire().len() <= usize::MAX,
            other.wire().len() <= usize::MAX,
        ensures
            self.deep_view() == other.deep_view(),
            self.wire() == other.wire(),
            rest == other_rest,
    ;
}

/// Splitting two equal byte strings after first parts of the same length.
pub proof fn lemma_split_same_len(a: Seq<u8>, b: Seq<u8>, r1: Seq<u8>, r2: Seq<u8>)
    requires
        a + r1 == b + r2,
        a.len() == b.len(),
    ensures
        a == b,
        r1 == r2,
{
    assert(a =~= (a + r1).subrange(0, a.len() as int));
    assert(b =~= (b + r2).subrange(0, b.len() as int));
    assert(r1 =~= (a + r1).subrange(a.len() as int, (a + r1).len() as int));
    assert(r2 =~= (b + r2).subrange(b.len() as int, (b + r2).len() as int));
}

/// Reading a value at the start of two equal byte strings that each begin
/// with an encoding followed by more: the values are the same, and so is
/// what follows them.
pub proof fn lemma_wire_unique_then<A: Wire>(
    a1: A,
    a2: A,
    w1: Seq<u8>,
    w2: Seq<u8>,
    r1: Seq<u8>,
    r2: Seq<u8>,
)
    requires
        (a1.wire() + w1) + r1 == (a2.wire() + w2) + r2,
        (a1.wire() + w1).len() <= usize::MAX,
        (a2.wire() + w2).len() <= usize::MAX,
    ensures
        a1.deep_view() == a2.deep_view(),
        a1.wire() == a2.wire(),
        w1 + r1 == w2 + r2,
{
    assert((a1.wire() + w1) + r1 =~= a1.wire() + (w1 + r1));
    assert((a2.wire() + w2) + r2 =~= a2.wire() + (w2 + r2));
    a1.lemma_wire_unique(&a2, w1 + r1, w2 + r2);
}

/// Splitting an expected prefix into its two parts.
pub proof fn lemma_prefixed_split(buf: Seq<u8>, pos: int, a: Seq<u8>, b: Seq<u8>)
    requires
        prefixed(buf, pos, a + b),
    ensures
        prefixed(buf, pos, a),
        prefixed(buf, pos + a.len(), b),
{
    let whole = buf.subrange(pos, pos + (a + b).len());
    assert(whole == a + b);
    assert forall|i: int| 0 <= i < a.len() implies #[trigger] buf.subrange(pos, pos + a.len())[i]
        == a[i] by {
        assert(whole[i] == (a + b)[i]);
    }
    assert(buf.subrange(pos, pos + a.len()) =~= a);
    assert forall|i: int| 0 <= i < b.len() implies #[trigger] buf.subrange(
        pos + a.len(),
        pos + a.len() + b.len(),
    )[i] == b[i] by {
        assert(whole[a.len() + i] == (a + b)[a.len() + i]);
    }
    assert(buf.subrange(pos + a.len(), pos + a.len() + b.len()) =~= b);
}

/// Two adjacent ranges of a buffer make up the range that spans both.
pub proof fn lemma_subrange_join(buf: Seq<u8>, i: int, j: int, k: int)
    requires
        0 <= i <= j <= k <= buf.len(),
    ensures
        buf.subrange(i, k) == buf.subrange(i, j) + buf.subrange(j, k),
{
    assert(buf.subrange(i, k) =~= buf.subrange(i, j) + buf.subrange(j, k));
}

// ---------------------------------------------------------------------------
// Unsigned integers, little endian.

/// The eight little-endian bytes of a `u64`.
pub open spec fn u64_wire(x: u64) -> Seq<u8> {
    seq![
        x as u8,
        (x >> 8u64) as u8,
        (x >> 16u64) as u8,
        (x >> 24u64) as u8,
        (x >> 32u64) as u8,
        (x >> 40u64) as u8,
        (x >> 48u64) as u8,
        (x >> 56u64) as u8,
    ]
}

/// The four little-endian bytes of a `u32`.
pub open spec fn u32_wire(x: u32) -> Seq<u8> {
    seq![x as u8, (x >> 8u32) as u8, (x >> 16u32) as u8, (x >> 24u32) as u8]
}

/// The byte of a `u8`.
pub open spec fn u8_wire(x: u8) -> Seq<u8> {
    seq![x]
}

/// Appends the encoding of a `u64`.
pub fn encode_u64(x: u64, out: &mut Vec<u8>)
    ensures
        final(out)@ == old(out)@ + u64_wire(x),
{
    out.push(x as u8);
    out.push((x >> 8u64) as u8);
    out.push((x >> 16u64) as u8);
    out.push((x >> 24u64) as u8);
    out.push((x >> 32u64) as u8);
    out.push((x >> 40u64) as u8);
    out.push((x >> 48u64) as u8);
    out.push((x >> 56u64) as u8);
    assert(out@ =~= old(out)@ + u64_wire(x));
}

/// Reads a `u64` at `pos`.
pub fn decode_u64(buf: &[u8], pos: usize) -> (r: Option<(u64, usize)>)
    requires
        pos <= buf@.len(),
    ensures
        r matches Some((v, end)) ==> end == pos + 8 && end <= buf@.len() && buf@.subrange(
            pos as int,
            end as int,
        ) == u64_wire(v),
        forall|x: u64| #[trigger]
            prefixed(buf@, pos as int, u64_wire(x)) ==> r == Some((x, (pos + 8) as usize)),
{
    if buf.len() - pos < 8 {
        return None;
    }
    let b0 = buf[pos];
    let b1 = buf[pos + 1];
    let b2 = buf[pos + 2];
    let b3 = buf[pos + 3];
    let b4 = buf[pos + 4];
    let b5 = buf[pos + 5];
    let b6 = buf[pos + 6];
    let b7 = buf[pos + 7];
    let v: u64 = (b0 as u64) | ((b1 as u64) << 8u64) | ((b2 as u64) << 16u64) | ((b3 as u64)
        << 24u64) | ((b4 as u64) << 32u64) | ((b5 as u64) << 40u64) | ((b6 as u64) << 48u64) | ((
    b7 as u64) << 56u64);
    assert(v as u8 == b0 && (v >> 8u64) as u8 == b1 && (v >> 16u64) as u8 == b2 && (v >> 24u64) as u8
        == b3 && (v >> 32u64) as u8 == b4 && (v >> 40u64) as u8 == b5 && (v >> 48u64) as u8 == b6 && (v
        >> 56u64) as u8 == b7) by (bit_vector)
        requires
            v == (b0 as u64) | ((b1 as u64) << 8u64) | ((b2 as u64) << 16u64) | ((b3 as u64) << 24u64)
                | ((b4 as u64) << 32u64) | ((b5 as u64) << 40u64) | ((b6 as u64) << 48u64) | ((
            b7 as u64) << 56u64),
    ;
    assert(buf@.subrange(pos as int, pos + 8) =~= u64_wire(v));
    proof {
        assert forall|x: u64| #[trigger] prefixed(buf@, pos as int, u64_wire(x)) implies x == v by {
            assert(buf@.subrange(pos as int, pos + 8)[0] == b0);
            assert(buf@.subrange(pos as int, pos + 8)[1] == b1);
            assert(buf@.subrange(pos as int, pos + 8)[2] == b2);
            assert(buf@.subrange(pos as int, pos + 8)[3] == b3);
            assert(buf@.subrange(pos as int, pos + 8)[4] == b4);
            assert(buf@.subrange(pos as int, pos + 8)[5] == b5);
            assert(buf@.subrange(pos as int, pos + 8)[6] == b6);
            assert(buf@.subrange(pos as int, pos + 8)[7] == b7);
            lemma_u64_wire_injective(x, v);
        }
    }
    Some((v, pos + 8))
}

/// Reading two values one after another at the start of two equal byte
/// strings gives the same values, and the same bytes follow.
pub proof fn lemma_wire_unique2<A: Wire, B: Wire>(
    a1: A,
    b1: B,
    a2: A,
    b2: B,
    r1: Seq<u8>,
    r2: Seq<u8>,
)
    requires
        (a1.wire() + b1.wire()) + r1 == (a2.wire() + b2.wire()) + r2,
        (a1.wire() + b1.wire()).len() <= usize::MAX,
        (a2.wire() + b2.wire()).len() <= usize::MAX,
    ensures
        a1.deep_view() == a2.deep_view(),
        b1.deep_view() == b2.deep_view(),
        a1.wire() == a2.wire(),
        b1.wire() == b2.wire(),
        r1 == r2,
{
    lemma_wire_unique_then(a1, a2, b1.wire(), b2.wire(), r1, r2);
    b1.lemma_wire_unique(&b2, r1, r2);
}

/// Reading three values one after another at the start of two equal byte
/// strings gives the same values, and the same bytes follow.
pub proof fn lemma_wire_unique3<A: Wire, B: Wire, C: Wire>(
    a1: A,
    b1: B,
    c1: C,
    a2: A,
    b2: B,
    c2: C,
    r1: Seq<u8>,
    r2: Seq<u8>,
)
    requires
        (a1.wire() + b1.wire() + c1.wire()) + r1 == (a2.wire() + b2.wire() + c2.wire()) + r2,
        (a1.wire() + b1.wire() + c1.wire()).len() <= usize::MAX,
        (a2.wire() + b2.wire() + c2.wire()).len() <= usize::MAX,
    ensures
        a1.deep_view() == a2.deep_view(),
        b1.deep_view() == b2.deep_view(),
        c1.deep_view() == c2.deep_view(),
        a1.wire() + b1.wire() + c1.wire() == a2.wire() + b2.wire() + c2.wire(),
        r1 == r2,
{
    assert(a1.wire() + b1.wire() + c1.wire() =~= a1.wire() + (b1.wire() + c1.wire()));
    assert(a2.wire() + b2.wire() + c2.wire() =~= a2.wire() + (b2.wire() + c2.wire()));
    lemma_wire_unique_then(a1, a2, b1.wire() + c1.wire(), b2.wire() + c2.wire(), r1, r2);
    lemma_wire_unique2(b1, c1, b2, c2, r1, r2);
}

/// A tag byte at the start of two equal byte strings is the same tag, and
/// the same bytes follow it.
pub proof fn lemma_tag_unique(t1: u8, t2: u8, f1: Seq<u8>, f2: Seq<u8>, r1: Seq<u8>, r2: Seq<u8>)
    requires
        (seq![t1] + f1) + r1 == (seq![t2] + f2) + r2,
    ensures
        t1 == t2,
        f1 + r1 == f2 + r2,
{
    assert((seq![t1] + f1) + r1 =~= seq![t1] + (f1 + r1));
    assert((seq![t2] + f2) + r2 =~= seq![t2] + (f2 + r2));
    lemma_split_same_len(seq![t1], seq![t2], f1 + r1, f2 + r2);
    assert(seq![t1][0] == t1);
}

/// Equal encodings come from equal 32-bit integers.
pub proof fn lemma_u32_wire_injective(x: u32, y: u32)
    requires
        u32_wire(x) == u32_wire(y),
    ensures
        x == y,
{
    assert(u32_wire(x)[0] == u32_wire(y)[0]);
    assert(u32_wire(x)[1] == u32_wire(y)[1]);
    assert(u32_wire(x)[2] == u32_wire(y)[2]);
    assert(u32_wire(x)[3] == u32_wire(y)[3]);
    assert(x == y) by (bit_vector)
        requires
            x as u8 == y as u8,
            (x >> 8u32) as u8 == (y >> 8u32) as u8,
            (x >> 16u32) as u8 == (y >> 16u32) as u8,
            (x >> 24u32) as u8 == (y >> 24u32) as u8,
    ;
}

/// Equal encodings come from equal integers.
pub proof fn lemma_u64_wire_injective(x: u64, y: u64)
    requires
        u64_wire(x) == u64_wire(y),
    ensures
        x == y,
{
    assert(u64_wire(x)[0] == u64_wire(y)[0]);
    assert(u64_wire(x)[1] == u64_wire(y)[1]);
    assert(u64_wire(x)[2] == u64_wire(y)[2]);
    assert(u64_wire(x)[3] == u64_wire(y)[3]);
    assert(u64_wire(x)[4] == u64_wire(y)[4]);
    assert(u64_wire(x)[5] == u64_wire(y)[5]);
    assert(u64_wire(x)[6] == u64_wire(y)[6]);
    assert(u64_wire(x)[7] == u64_wire(y)[7]);
    assert(x == y) by (bit_vector)
        requires
            x as u8 == y as u8,
            (x >> 8u64) as u8 == (y >> 8u64) as u8,
            (x >> 16u64) as u8 == (y >> 16u64) as u8,
            (x >> 24u64) as u8 == (y >> 24u64) as u8,
            (x >> 32u64) as u8 == (y >> 32u64) as u8,
            (x >> 40u64) as u8 == (y >> 40u64) as u8,
            (x >> 48u64) as u8 == (y >> 48u64) as u8,
            (x >> 56u64) as u8 == (y >> 56u64) as u8,
    ;
}


/// Appends the encoding of a `u32`.
pub fn encode_u32(x: u32, out: &mut Vec<u8>)
    ensures
        final(out)@ == old(out)@ + u32_wire(x),
{
    out.push(x as u8);
    out.push((x >> 8u32) as u8);
    out.push((x >> 16u32) as u8);
    out.push((x >> 24u32) as u8);
    assert(out@ =~= old(out)@ + u32_wire(x));
}

/// Reads a `u32` at `pos`.
pub fn decode_u32(buf: &[u8], pos: usize) -> (r: Option<(u32, usize)>)
    requires
        pos <= buf@.len(),
    ensures
        r matches Some((v, end)) ==> end == pos + 4 && end <= buf@.len() && buf@.subrange(
            pos as int,
            end as int,
        ) == u32_wire(v),
        forall|x: u32| #[trigger]
            prefixed(buf@, pos as int, u32_wire(x)) ==> r == Some((x, (pos + 4) as usize)),
{
    if buf.len() - pos < 4 {
        return None;
    }
    let b0 = buf[pos];
    let b1 = buf[pos + 1];
    let b2 = buf[pos + 2];
    let b3 = buf[pos + 3];
    let v: u32 = (b0 as u32) | ((b1 as u32) << 8u32) | ((b2 as u32) << 16u32) | ((b3 as u32)
        << 24u32);
    assert(v as u8 == b0 && (v >> 8u32) as u8 == b1 && (v >> 16u32) as u8 == b2 && (v >> 24u32) as u8
        == b3) by (bit_vector)
        requires
            v == (b0 as u32) | ((b1 as u32) << 8u32) | ((b2 as u32) << 16u32) | ((b3 as u32)
                << 24u32),
    ;
    assert(buf@.subrange(pos as int, pos + 4) =~= u32_wire(v));
    proof {
        assert forall|x: u32| #[trigger] prefixed(buf@, pos as int, u32_wire(x)) implies x == v by {
            assert(buf@.subrange(pos as int, pos + 4)[0] == b0);
            assert(buf@.subrange(pos as int, pos + 4)[1] == b1);
            assert(buf@.subrange(pos as int, pos + 4)[2] == b2);
            assert(buf@.subrange(pos as int, pos + 4)[3] == b3);
            assert(x == v) by (bit_vector)
                requires
                    x as u8 == b0,
                    (x >> 8u32) as u8 == b1,
                    (x >> 16u32) as u8 == b2,
                    (x >> 24u32) as u8 == b3,
                    v == (b0 as u32) | ((b1 as u32) << 8u32) | ((b2 as u32) << 16u32) | ((
                    b3 as u32) << 24u32),
            ;
        }
    }
    Some((v, pos + 4))
}

/// Reads one byte at `pos`.
pub fn decode_u8(buf: &[u8], pos: usize) -> (r: Option<(u8, usize)>)
    requires
        pos <= buf@.len(),
    ensures
        r matches Some((v, end)) ==> end == pos + 1 && end <= buf@.len() && buf@.subrange(
            pos as int,
            end as int,
        ) == u8_wire(v),
        forall|x: u8| #[trigger]
            prefixed(buf@, pos as int, u8_wire(x)) ==> r == Some((x, (pos + 1) as usize)),
{
    if buf.len() - pos < 1 {
        return None;
    }
    let v = buf[pos];
    assert(buf@.subrange(pos as int, pos + 1) =~= u8_wire(v));
    proof {
        assert forall|x: u8| #[trigger] prefixed(buf@, pos as int, u8_wire(x)) implies x == v by {
            assert(buf@.subrange(pos as int, pos + 1)[0] == v);
        }
    }
    Some((v, pos + 1))
}

/// Appends bytes to `out`.
pub fn append_bytes(out: &mut Vec<u8>, bytes: &[u8])
    ensures
        final(out)@ == old(out)@ + bytes@,
{
    let ghost start = out@;
    let mut i: usize = 0;
    while i < bytes.len()
        invariant
            i <= bytes@.len(),
            out@ == start + bytes@.subrange(0, i as int),
        decreases bytes@.len() - i,
    {
        out.push(bytes[i]);
        i = i + 1;
        assert(out@ =~= start + bytes@.subrange(0, i as int));
    }
    assert(bytes@.subrange(0, bytes@.len() as int) =~= bytes@);
}

/// Copies `buf[start..end]` into a new vector.
pub fn copy_range(buf: &[u8], start: usize, end: usize) -> (r: Vec<u8>)
    requires
        start <= end <= buf@.len(),
    ensures
        r@ == buf@.subrange(start as int, end as int),
{
    let mut r: Vec<u8> = Vec::new();
    let mut i = start;
    while i < end
        invariant
            start <= i <= end <= buf@.len(),
            r@ == buf@.subrange(start as int, i as int),
        decreases end - i,
    {
        r.push(buf[i]);
        i = i + 1;
        assert(r@ =~= buf@.subrange(start as int, i as int));
    }
    r
}

// ---------------------------------------------------------------------------
// Implementations for the primitive types.

impl Wire for u64 {
    open spec fn wire(&self) -> Seq<u8> {
        u64_wire(*self)
    }

    proof fn lemma_wire_nonempty(&self) {
    }

    fn encode(&self, out: &mut Vec<u8>) {
        encode_u64(*self, out);
    }

    fn decode(buf: &[u8], pos: usize) -> (r: Option<(u64, usize)>) {
        decode_u64(buf, pos)
    }

    fn duplicate(&self) -> (r: u64) {
        *self
    }

    proof fn lemma_wire_unique(&self, other: &u64, rest: Seq<u8>, other_rest: Seq<u8>) {
        lemma_split_same_len(self.wire(), other.wire(), rest, other_rest);
        lemma_u64_wire_injective(*self, *other);
    }
}

impl Wire for u32 {
    open spec fn wire(&self) -> Seq<u8> {
        u32_wire(*self)
    }

    proof fn lemma_wire_nonempty(&self) {
    }

    fn encode(&self, out: &mut Vec<u8>) {
        encode_u32(*self, out);
    }

    fn decode(buf: &[u8], pos: usize) -> (r: Option<(u32, usize)>) {
        decode_u32(buf, pos)
    }

    fn duplicate(&self) -> (r: u32) {
        *self
    }

    proof fn lemma_wire_unique(&self, other: &u32, rest: Seq<u8>, other_rest: Seq<u8>) {
        lemma_split_same_len(self.wire(), other.wire(), rest, other_rest);
        lemma_u32_wire_injective(*self, *other);
    }
}

impl Wire for i64 {
    open spec fn wire(&self) -> Seq<u8> {
        u64_wire(*self as u64)
    }

    proof fn lemma_wire_nonempty(&self) {
    }

    fn encode(&self, out: &mut Vec<u8>) {
        encode_u64(*self as u64, out);
    }

    fn decode(buf: &[u8], pos: usize) -> (r: Option<(i64, usize)>) {
        match decode_u64(buf, pos) {
            None => None,
            Some((u, end)) => {
                let v = u as i64;
                assert((u as i64) as u64 == u) by (bit_vector);
                proof {
                    assert forall|x: i64| #[trigger]
                        prefixed(buf@, pos as int, x.wire()) implies x == v by {
                        assert(prefixed(buf@, pos as int, u64_wire(x as u64)));
                        assert((x as u64) as i64 == x) by (bit_vector);
                    }
                }
                Some((v, end))
            },
        }
    }

    fn duplicate(&self) -> (r: i64) {
        *self
    }

    proof fn lemma_wire_unique(&self, other: &i64, rest: Seq<u8>, other_rest: Seq<u8>) {
        lemma_split_same_len(self.wire(), other.wire(), rest, other_rest);
        lemma_u64_wire_injective(*self as u64, *other as u64);
        let (x, y) = (*self, *other);
        assert(x == y) by (bit_vector)
            requires
                x as u64 == y as u64,
        ;
    }
}

impl Wire for bool {
    open spec fn wire(&self) -> Seq<u8> {
        if *self {
            seq![1u8]
        } else {
            seq![0u8]
        }
    }

    proof fn lemma_wire_nonempty(&self) {
    }

    fn encode(&self, out: &mut Vec<u8>) {
        if *self {
            out.push(1u8);
        } else {
            out.push(0u8);
        }
        assert(out@ =~= old(out)@ + self.wire());
    }

    fn decode(buf: &[u8], pos: usize) -> (r: Option<(bool, usize)>) {
        match decode_u8(buf, pos) {
            None => {
                proof {
                    assert forall|x: bool| !#[trigger] prefixed(buf@, pos as int, x.wire()) by {
                        if prefixed(buf@, pos as int, x.wire()) {
                            assert(x.wire() == u8_wire(x.wire()[0]));
                        }
                    }
                }
                None
            },
            Some((b, end)) => {
                proof {
                    assert forall|x: bool| #[trigger] prefixed(buf@, pos as int, x.wire()) implies x.wire()
                        == u8_wire(b) && (b == 0 || b == 1) by {
                        assert(x.wire() == u8_wire(x.wire()[0]));
                        assert(u8_wire(x.wire()[0]) == u8_wire(b));
                        assert(u8_wire(b)[0] == b);
                    }
                }
                if b == 0 {
                    assert(false.wire() == u8_wire(b));
                    Some((false, end))
                } else if b == 1 {
                    assert(true.wire() == u8_wire(b));
                    Some((true, end))
                } else {
                    None
                }
            },
        }
    }

    fn duplicate(&self) -> (r: bool) {
        *self
    }

    proof fn lemma_wire_unique(&self, other: &bool, rest: Seq<u8>, other_rest: Seq<u8>) {
        lemma_split_same_len(self.wire(), other.wire(), rest, other_rest);
        assert(self.wire()[0] == other.wire()[0]);
    }
}

impl Wire for () {
    open spec fn wire(&self) -> Seq<u8> {
        seq![0u8]
    }

    proof fn lemma_wire_nonempty(&self) {
    }

    fn encode(&self, out: &mut Vec<u8>) {
        out.push(0u8);
        assert(out@ =~= old(out)@ + self.wire());
    }

    fn decode(buf: &[u8], pos: usize) -> (r: Option<((), usize)>) {
        match decode_u8(buf, pos) {
            None => {
                proof {
                    assert forall|x: ()| !#[trigger] prefixed(buf@, pos as int, x.wire()) by {
                        assert(x.wire() == u8_wire(0u8));
                    }
                }
                None
            },
            Some((b, end)) => {
                proof {
                    assert forall|x: ()| #[trigger] prefixed(buf@, pos as int, x.wire()) implies b
                        == 0 by {
                        assert(x.wire() == u8_wire(0u8));
                    }
                }
                if b == 0 {
                    assert(().wire() == u8_wire(b));
                    Some(((), end))
                } else {
                    None
                }
            },
        }
    }

    fn duplicate(&self) -> (r: ()) {
        ()
    }

    proof fn lemma_wire_unique(&self, other: &(), rest: Seq<u8>, other_rest: Seq<u8>) {
        lemma_split_same_len(self.wire(), other.wire(), rest, other_rest);
    }
}


/// Calls `String::from_utf8`, which std documents to succeed exactly when the
/// bytes are valid UTF-8, giving the string they encode.
#[verifier::external_body]
fn string_from_utf8(bytes: Vec<u8>) -> (r: Option<String>)
    ensures
        r is Some <==> valid_utf8(bytes@),
        r matches Some(s) ==> s@ == decode_utf8(bytes@),
{
    String::from_utf8(bytes).ok()
}

/// A string is its byte length followed by its UTF-8 bytes.
impl Wire for String {
    open spec fn wire(&self) -> Seq<u8> {
        u64_wire(encode_utf8(self@).len() as u64) + encode_utf8(self@)
    }

    proof fn lemma_wire_nonempty(&self) {
    }

    fn encode(&self, out: &mut Vec<u8>) {
        let bytes = self.as_str().as_bytes();
        encode_u64(bytes.len() as u64, out);
        append_bytes(out, bytes);
        assert(out@ =~= old(out)@ + self.wire());
    }

    fn decode(buf: &[u8], pos: usize) -> (r: Option<(String, usize)>) {
        let blen = buf.len();
        proof {
            assert forall|x: String| #[trigger] prefixed(buf@, pos as int, x.wire()) implies {
                &&& prefixed(buf@, pos as int, u64_wire(encode_utf8(x@).len() as u64))
                &&& prefixed(buf@, pos + 8, encode_utf8(x@))
                &&& encode_utf8(x@).len() as u64 == encode_utf8(x@).len()
            } by {
                lemma_prefixed_split(
                    buf@,
                    pos as int,
                    u64_wire(encode_utf8(x@).len() as u64),
                    encode_utf8(x@),
                );
            }
        }
        let (n, p) = match decode_u64(buf, pos) {
            Some(v) => v,
            None => return None,
        };
        if n > (blen - p) as u64 {
            return None;
        }
        let end = p + n as usize;
        let bytes = copy_range(buf, p, end);
        let ghost b = bytes@;
        match string_from_utf8(bytes) {
            None => {
                proof {
                    assert forall|x: String| !#[trigger] prefixed(buf@, pos as int, x.wire()) by {
                        if prefixed(buf@, pos as int, x.wire()) {
                            encode_utf8_valid_utf8(x@);
                            assert(b =~= encode_utf8(x@));
                        }
                    }
                }
                None
            },
            Some(st) => {
                proof {
                    decode_utf8_encode_utf8(b);
                    lemma_subrange_join(buf@, pos as int, p as int, end as int);
                    assert(buf@.subrange(pos as int, end as int) =~= st.wire());
                    assert forall|x: String| #[trigger]
                        prefixed(buf@, pos as int, x.wire()) implies st.wire() == x.wire() by {
                        assert(b =~= encode_utf8(x@));
                        encode_utf8_decode_utf8(x@);
                    }
                }
                Some((st, end))
            },
        }
    }

    fn duplicate(&self) -> (r: String) {
        self.clone()
    }

    proof fn lemma_wire_unique(&self, other: &String, rest: Seq<u8>, other_rest: Seq<u8>) {
        let b1 = encode_utf8(self@);
        let b2 = encode_utf8(other@);
        assert(self.wire() + rest =~= u64_wire(b1.len() as u64) + (b1 + rest));
        assert(other.wire() + other_rest =~= u64_wire(b2.len() as u64) + (b2 + other_rest));
        lemma_split_same_len(u64_wire(b1.len() as u64), u64_wire(b2.len() as u64), b1 + rest, b2 + other_rest);
        lemma_u64_wire_injective(b1.len() as u64, b2.len() as u64);
        encode_utf8_valid_utf8(self@);
        encode_utf8_valid_utf8(other@);
        assert(b1.len() as u64 == b1.len());
        assert(b2.len() as u64 == b2.len());
        lemma_split_same_len(b1, b2, rest, other_rest);
        encode_utf8_decode_utf8(self@);
        encode_utf8_decode_utf8(other@);
    }
}

/// A fixed-size key is its 32 bytes.
impl Wire for [u8; 32] {
    open spec fn wire(&self) -> Seq<u8> {
        self@
    }

    proof fn lemma_wire_nonempty(&self) {
    }

    fn encode(&self, out: &mut Vec<u8>) {
        append_bytes(out, self.as_slice());
    }

    fn decode(buf: &[u8], pos: usize) -> (r: Option<([u8; 32], usize)>) {
        if buf.len() - pos < 32 {
            return None;
        }
        let mut a = [0u8; 32];
        let mut i: usize = 0;
        while i < 32
            invariant
                i <= 32,
                pos + 32 <= buf.len(),
                forall|j: int| 0 <= j < i ==> a@[j] == buf@[pos + j],
            decreases 32 - i,
        {
            a[i] = buf[pos + i];
            i = i + 1;
        }
        assert(buf@.subrange(pos as int, pos + 32) =~= a@);
        Some((a, pos + 32))
    }

    fn duplicate(&self) -> (r: [u8; 32]) {
        *self
    }

    proof fn lemma_wire_unique(&self, other: &[u8; 32], rest: Seq<u8>, other_rest: Seq<u8>) {
        lemma_split_same_len(self.wire(), other.wire(), rest, other_rest);
        assert(self.deep_view() =~= other.deep_view());
    }
}

/// A nonce is its 24 bytes.
impl Wire for [u8; 24] {
    open spec fn wire(&self) -> Seq<u8> {
        self@
    }

    proof fn lemma_wire_nonempty(&self) {
    }

    fn encode(&self, out: &mut Vec<u8>) {
        append_bytes(out, self.as_slice());
    }

    fn decode(buf: &[u8], pos: usize) -> (r: Option<([u8; 24], usize)>) {
        if buf.len() - pos < 24 {
            return None;
        }
        let mut a = [0u8; 24];
        let mut i: usize = 0;
        while i < 24
            invariant
                i <= 24,
                pos + 24 <= buf.len(),
                forall|j: int| 0 <= j < i ==> a@[j] == buf@[pos + j],
            decreases 24 - i,
        {
            a[i] = buf[pos + i];
            i = i + 1;
        }
        assert(buf@.subrange(pos as int, pos + 24) =~= a@);
        Some((a, pos + 24))
    }

    fn duplicate(&self) -> (r: [u8; 24]) {
        *self
    }

    proof fn lemma_wire_unique(&self, other: &[u8; 24], rest: Seq<u8>, other_rest: Seq<u8>) {
        lemma_split_same_len(self.wire(), other.wire(), rest, other_rest);
        assert(self.deep_view() =~= other.deep_view());
    }
}


// ---------------------------------------------------------------------------
// Sequences.

/// The encodings of the elements of a sequence, one after another.
pub open spec fn wires<X: Wire>(s: Seq<X>) -> Seq<u8>
    decreases s.len(),
{
    if s.len() == 0 {
        Seq::empty()
    } else {
        wires(s.drop_last()) + s.last().wire()
    }
}

/// The encodings of two sequences put together.
pub proof fn lemma_wires_append<X: Wire>(a: Seq<X>, b: Seq<X>)
    ensures
        wires(a + b) == wires(a) + wires(b),
    decreases b.len(),
{
    if b.len() == 0 {
        assert(a + b =~= a);
        assert(wires(a) + wires(b) =~= wires(a));
    } else {
        assert((a + b).drop_last() =~= a + b.drop_last());
        assert((a + b).last() == b.last());
        lemma_wires_append(a, b.drop_last());
        assert(wires(a + b) =~= wires(a) + wires(b));
    }
}

/// Each element contributes at least one byte.
pub proof fn lemma_wires_len<X: Wire>(s: Seq<X>)
    ensures
        wires(s).len() >= s.len(),
    decreases s.len(),
{
    if s.len() > 0 {
        lemma_wires_len(s.drop_last());
        s.last().lemma_wire_nonempty();
    }
}

/// The encoding of the first `i + 1` elements.
pub proof fn lemma_wires_take_next<X: Wire>(s: Seq<X>, i: int)
    requires
        0 <= i < s.len(),
    ensures
        wires(s.take(i + 1)) == wires(s.take(i)) + s[i].wire(),
{
    assert(s.take(i + 1).drop_last() =~= s.take(i));
}

/// Where the encodings of a sequence start in a buffer, the encoding of its
/// element `i` starts after those of the elements before it.
pub proof fn lemma_wires_element_prefixed<X: Wire>(buf: Seq<u8>, start: int, s: Seq<X>, i: int)
    requires
        prefixed(buf, start, wires(s)),
        0 <= i < s.len(),
    ensures
        prefixed(buf, start + wires(s.take(i)).len(), s[i].wire()),
{
    assert(s =~= s.take(i) + (seq![s[i]] + s.skip(i + 1)));
    lemma_wires_append(s.take(i), seq![s[i]] + s.skip(i + 1));
    lemma_wires_append(seq![s[i]], s.skip(i + 1));
    assert(seq![s[i]].drop_last() =~= Seq::<X>::empty());
    assert(wires(Seq::<X>::empty()) =~= Seq::<u8>::empty());
    assert(seq![s[i]].last() == s[i]);
    assert(wires(seq![s[i]]) =~= s[i].wire());
    lemma_prefixed_split(buf, start, wires(s.take(i)), s[i].wire() + wires(s.skip(i + 1)));
    lemma_prefixed_split(
        buf,
        start + wires(s.take(i)).len(),
        s[i].wire(),
        wires(s.skip(i + 1)),
    );
}

/// The encodings of the elements of a sequence, read from the front.
pub proof fn lemma_wires_front<X: Wire>(s: Seq<X>)
    requires
        s.len() > 0,
    ensures
        wires(s) == s[0].wire() + wires(s.skip(1)),
{
    assert(s =~= seq![s[0]] + s.skip(1));
    lemma_wires_append(seq![s[0]], s.skip(1));
    assert(seq![s[0]].drop_last() =~= Seq::<X>::empty());
    assert(wires(Seq::<X>::empty()) =~= Seq::<u8>::empty());
    assert(seq![s[0]].last() == s[0]);
    assert(wires(seq![s[0]]) =~= s[0].wire());
}

/// Sequences of the same length whose encodings start two equal byte
/// strings hold the same values, and the same bytes follow.
pub proof fn lemma_wires_unique<X: Wire>(s1: Seq<X>, s2: Seq<X>, r1: Seq<u8>, r2: Seq<u8>)
    requires
        s1.len() == s2.len(),
        wires(s1) + r1 == wires(s2) + r2,
        wires(s1).len() <= usize::MAX,
        wires(s2).len() <= usize::MAX,
    ensures
        forall|i: int| 0 <= i < s1.len() ==> #[trigger] s1[i].deep_view() == s2[i].deep_view(),
        wires(s1) == wires(s2),
        r1 == r2,
    decreases s1.len(),
{
    if s1.len() == 0 {
        assert(wires(s1) + r1 =~= r1);
        assert(wires(s2) + r2 =~= r2);
    } else {
        lemma_wires_front(s1);
        lemma_wires_front(s2);
        lemma_wire_unique_then(s1[0], s2[0], wires(s1.skip(1)), wires(s2.skip(1)), r1, r2);
        lemma_wires_unique(s1.skip(1), s2.skip(1), r1, r2);
        assert forall|i: int| 0 <= i < s1.len() implies #[trigger] s1[i].deep_view()
            == s2[i].deep_view() by {
            if i > 0 {
                assert(s1[i] == s1.skip(1)[i - 1]);
                assert(s2[i] == s2.skip(1)[i - 1]);
            }
        }
    }
}

/// A vector is its element count followed by its elements.
impl<X: Wire> Wire for Vec<X> {
    open spec fn wire(&self) -> Seq<u8> {
        u64_wire(self@.len() as u64) + wires(self@)
    }

    proof fn lemma_wire_nonempty(&self) {
    }

    fn encode(&self, out: &mut Vec<u8>) {
        let ghost start = out@;
        encode_u64(self.len() as u64, out);
        let mut i: usize = 0;
        while i < self.len()
            invariant
                i <= self@.len(),
                out@ == start + u64_wire(self@.len() as u64) + wires(self@.take(i as int)),
            decreases self@.len() - i,
        {
            proof {
                lemma_wires_take_next(self@, i as int);
            }
            self[i].encode(out);
            i = i + 1;
            assert(out@ =~= start + u64_wire(self@.len() as u64) + wires(self@.take(i as int)));
        }
        assert(self@.take(i as int) =~= self@);
        assert(out@ =~= start + self.wire());
    }

    fn decode(buf: &[u8], pos: usize) -> (r: Option<(Vec<X>, usize)>) {
        let blen = buf.len();
        proof {
            assert forall|x: Vec<X>| #[trigger] prefixed(buf@, pos as int, x.wire()) implies {
                &&& prefixed(buf@, pos as int, u64_wire(x@.len() as u64))
                &&& prefixed(buf@, pos + 8, wires(x@))
                &&& x@.len() as u64 == x@.len()
            } by {
                lemma_prefixed_split(buf@, pos as int, u64_wire(x@.len() as u64), wires(x@));
                lemma_wires_len(x@);
            }
        }
        let (n, p0) = match decode_u64(buf, pos) {
            Some(v) => v,
            None => return None,
        };
        let mut v: Vec<X> = Vec::new();
        let mut p = p0;
        let mut i: u64 = 0;
        while i < n
            invariant
                p0 == pos + 8,
                p0 <= p <= buf@.len(),
                blen == buf@.len(),
                i <= n,
                v@.len() == i,
                buf@.subrange(pos as int, p0 as int) == u64_wire(n),
                buf@.subrange(p0 as int, p as int) == wires(v@),
                forall|x: Vec<X>| #[trigger]
                    prefixed(buf@, pos as int, x.wire()) ==> {
                        &&& x@.len() == n
                        &&& prefixed(buf@, pos + 8, wires(x@))
                        &&& wires(x@.take(i as int)) == wires(v@)
                    },
            decreases n - i,
        {
            let ghost vs = v@;
            proof {
                assert forall|x: Vec<X>| #[trigger] prefixed(buf@, pos as int, x.wire()) implies prefixed(
                    buf@,
                    p as int,
                    x@[i as int].wire(),
                ) by {
                    lemma_wires_element_prefixed(buf@, pos + 8, x@, i as int);
                }
            }
            match X::decode(buf, p) {
                None => {
                    proof {
                        assert forall|x: Vec<X>| !#[trigger] prefixed(buf@, pos as int, x.wire()) by {
                            if prefixed(buf@, pos as int, x.wire()) {
                                assert(prefixed(buf@, p as int, x@[i as int].wire()));
                            }
                        }
                    }
                    return None;
                },
                Some((e, q)) => {
                    proof {
                        lemma_subrange_join(buf@, p0 as int, p as int, q as int);
                        assert(v@.push(e).drop_last() =~= vs);
                        assert forall|x: Vec<X>| #[trigger]
                            prefixed(buf@, pos as int, x.wire()) implies wires(
                            x@.take(i + 1),
                        ) == wires(vs.push(e)) by {
                            assert(prefixed(buf@, p as int, x@[i as int].wire()));
                            lemma_wires_take_next(x@, i as int);
                        }
                    }
                    v.push(e);
                    p = q;
                    i = i + 1;
                },
            }
        }
        proof {
            lemma_subrange_join(buf@, pos as int, p0 as int, p as int);
            assert(v@.len() as u64 == n);
            assert(buf@.subrange(pos as int, p as int) =~= v.wire());
            assert forall|x: Vec<X>| #[trigger] prefixed(buf@, pos as int, x.wire()) implies x.wire()
                == v.wire() by {
                assert(x@.take(n as int) =~= x@);
            }
        }
        Some((v, p))
    }

    fn duplicate(&self) -> (r: Vec<X>) {
        let mut r: Vec<X> = Vec::new();
        let mut i: usize = 0;
        while i < self.len()
            invariant
                i <= self@.len(),
                r@.len() == i,
                wires(r@) == wires(self@.take(i as int)),
                forall|j: int| 0 <= j < i ==> #[trigger] r@[j].deep_view() == self@[j].deep_view(),
            decreases self@.len() - i,
        {
            let e = self[i].duplicate();
            proof {
                lemma_wires_take_next(self@, i as int);
                assert(r@.push(e).drop_last() =~= r@);
            }
            r.push(e);
            i = i + 1;
        }
        assert(self@.take(i as int) =~= self@);
        assert(r.deep_view() =~= self.deep_view());
        r
    }

    proof fn lemma_wire_unique(&self, other: &Vec<X>, rest: Seq<u8>, other_rest: Seq<u8>) {
        let n1 = self@.len();
        let n2 = other@.len();
        assert(self.wire() + rest =~= u64_wire(n1 as u64) + (wires(self@) + rest));
        assert(other.wire() + other_rest =~= u64_wire(n2 as u64) + (wires(other@) + other_rest));
        lemma_split_same_len(
            u64_wire(n1 as u64),
            u64_wire(n2 as u64),
            wires(self@) + rest,
            wires(other@) + other_rest,
        );
        lemma_u64_wire_injective(n1 as u64, n2 as u64);
        lemma_wires_len(self@);
        lemma_wires_len(other@);
        lemma_wires_unique(self@, other@, rest, other_rest);
        assert(self.deep_view() =~= other.deep_view());
    }
}


impl Wire for u8 {
    open spec fn wire(&self) -> Seq<u8> {
        u8_wire(*self)
    }

    proof fn lemma_wire_nonempty(&self) {
    }

    fn encode(&self, out: &mut Vec<u8>) {
        out.push(*self);
        assert(out@ =~= old(out)@ + self.wire());
    }

    fn decode(buf: &[u8], pos: usize) -> (r: Option<(u8, usize)>) {
        decode_u8(buf, pos)
    }

    fn duplicate(&self) -> (r: u8) {
        *self
    }

    proof fn lemma_wire_unique(&self, other: &u8, rest: Seq<u8>, other_rest: Seq<u8>) {
        lemma_split_same_len(self.wire(), other.wire(), rest, other_rest);
        assert(self.wire()[0] == other.wire()[0]);
    }
}

// ---------------------------------------------------------------------------
// Reading several values one after another.

/// Reads two values, one after the other.
pub fn decode2<A: Wire, B: Wire>(buf: &[u8], pos: usize) -> (r: Option<(A, B, usize)>)
    requires
        pos <= buf@.len(),
    ensures
        r matches Some((a, b, end)) ==> pos <= end <= buf@.len() && buf@.subrange(
            pos as int,
            end as int,
        ) == a.wire() + b.wire(),
        forall|xa: A, xb: B| #[trigger]
            prefixed(buf@, pos as int, xa.wire() + xb.wire()) ==> (r matches Some((a, b, end))
                && a.wire() == xa.wire() && b.wire() == xb.wire() && end == pos + xa.wire().len()
                + xb.wire().len()),
{
    proof {
        assert forall|xa: A, xb: B| #[trigger] prefixed(buf@, pos as int, xa.wire() + xb.wire()) implies {
            &&& prefixed(buf@, pos as int, xa.wire())
            &&& prefixed(buf@, pos + xa.wire().len(), xb.wire())
        } by {
            lemma_prefixed_split(buf@, pos as int, xa.wire(), xb.wire());
        }
    }
    let (a, p) = match A::decode(buf, pos) {
        Some(v) => v,
        None => return None,
    };
    let (b, q) = match B::decode(buf, p) {
        Some(v) => v,
        None => {
            proof {
                assert forall|xa: A, xb: B|
                    !#[trigger] prefixed(buf@, pos as int, xa.wire() + xb.wire()) by {
                    if prefixed(buf@, pos as int, xa.wire() + xb.wire()) {
                        assert(prefixed(buf@, pos as int, xa.wire()));
                        assert(prefixed(buf@, p as int, xb.wire()));
                    }
                }
            }
            return None;
        },
    };
    proof {
        lemma_subrange_join(buf@, pos as int, p as int, q as int);
        assert forall|xa: A, xb: B| #[trigger] prefixed(buf@, pos as int, xa.wire() + xb.wire()) implies a.wire()
            == xa.wire() && b.wire() == xb.wire() && q == pos + xa.wire().len() + xb.wire().len() by {
            assert(prefixed(buf@, pos as int, xa.wire()));
            assert(prefixed(buf@, p as int, xb.wire()));
        }
    }
    Some((a, b, q))
}

/// Reads three values, one after the other.
pub fn decode3<A: Wire, B: Wire, C: Wire>(buf: &[u8], pos: usize) -> (r: Option<(A, B, C, usize)>)
    requires
        pos <= buf@.len(),
    ensures
        r matches Some((a, b, c, end)) ==> pos <= end <= buf@.len() && buf@.subrange(
            pos as int,
            end as int,
        ) == a.wire() + b.wire() + c.wire(),
        forall|xa: A, xb: B, xc: C| #[trigger]
            prefixed(buf@, pos as int, xa.wire() + xb.wire() + xc.wire()) ==> (r matches Some(
                (a, b, c, end),
            ) && a.wire() == xa.wire() && b.wire() == xb.wire() && c.wire() == xc.wire() && end
                == pos + xa.wire().len() + xb.wire().len() + xc.wire().len()),
{
    proof {
        assert forall|xa: A, xb: B, xc: C| #[trigger]
            prefixed(buf@, pos as int, xa.wire() + xb.wire() + xc.wire()) implies {
            &&& prefixed(buf@, pos as int, xa.wire() + xb.wire())
            &&& prefixed(buf@, pos + xa.wire().len() + xb.wire().len(), xc.wire())
        } by {
            lemma_prefixed_split(buf@, pos as int, xa.wire() + xb.wire(), xc.wire());
        }
    }
    let (a, b, p) = match decode2::<A, B>(buf, pos) {
        Some(v) => v,
        None => return None,
    };
    let (c, q) = match C::decode(buf, p) {
        Some(v) => v,
        None => {
            proof {
                assert forall|xa: A, xb: B, xc: C|
                    !#[trigger] prefixed(buf@, pos as int, xa.wire() + xb.wire() + xc.wire()) by {
                    if prefixed(buf@, pos as int, xa.wire() + xb.wire() + xc.wire()) {
                        assert(prefixed(buf@, pos as int, xa.wire() + xb.wire()));
                        assert(prefixed(buf@, p as int, xc.wire()));
                    }
                }
            }
            return None;
        },
    };
    proof {
        lemma_subrange_join(buf@, pos as int, p as int, q as int);
        assert forall|xa: A, xb: B, xc: C| #[trigger]
            prefixed(buf@, pos as int, xa.wire() + xb.wire() + xc.wire()) implies a.wire()
            == xa.wire() && b.wire() == xb.wire() && c.wire() == xc.wire() && q == pos
            + xa.wire().len() + xb.wire().len() + xc.wire().len() by {
            assert(prefixed(buf@, pos as int, xa.wire() + xb.wire()));
            assert(prefixed(buf@, p as int, xc.wire()));
        }
    }
    Some((a, b, c, q))
}

/// Reads a one-byte tag; for every value whose encoding is a tag byte
/// followed by the rest, the tag read is its tag, and the rest follows.
pub proof fn lemma_tagged(buf: Seq<u8>, pos: int, tag: u8, rest: Seq<u8>)
    requires
        prefixed(buf, pos, seq![tag] + rest),
    ensures
        buf[pos] == tag,
        prefixed(buf, pos, u8_wire(tag)),
        prefixed(buf, pos + 1, rest),
{
    lemma_prefixed_split(buf, pos, seq![tag], rest);
    assert(buf.subrange(pos, pos + 1)[0] == buf[pos]);
}

} // verus!
