//! Points in time.

use vstd::prelude::*;
use crate::wire::{Wire, decode2, lemma_wire_unique2, prefixed};

verus! {

/// A point in time: whole seconds since the Unix epoch, and nanoseconds.
#[derive(Debug, Clone, Copy, PartialEq, Eq, Structural, Hash, PartialOrd, Ord)]
pub struct Timestamp {
    /// Seconds since the Unix epoch.
    pub secs: i64,
    /// Nanoseconds past `secs`.
    pub nanos: u32,
}

/// Nanoseconds in a second.
pub const NANOS_PER_SEC: i128 = 1_000_000_000;

impl Timestamp {
    /// Create a timestamp.
    pub fn new(secs: i64, nanos: u32) -> (t: Timestamp)
        ensures
            t.secs == secs,
            t.nanos == nanos,
    {
        Timestamp { secs, nanos }
    }

    /// The time from `earlier` to `self` in nanoseconds.
    pub open spec fn spec_nanos_since(self, earlier: Timestamp) -> int {
        (self.secs - earlier.secs) * 1_000_000_000 + (self.nanos - earlier.nanos)
    }

    /// The time from `earlier` to `self` in whole seconds, rounded toward
    /// zero.
    pub open spec fn spec_seconds_since(self, earlier: Timestamp) -> int {
        let d = self.spec_nanos_since(earlier);
        if d >= 0 {
            d / 1_000_000_000
        } else {
            -((-d) / 1_000_000_000)
        }
    }

    /// The number of whole seconds from `earlier` to `self` (negative when
    /// `earlier` is later), rounded toward zero.
    pub fn seconds_since(&self, earlier: &Timestamp) -> (r: i128)
        ensures
            r == self.spec_seconds_since(*earlier),
    {
        let ds: i128 = self.secs as i128 - earlier.secs as i128;
        let dn: i128 = self.nanos as i128 - earlier.nanos as i128;
        assert(-0x1_0000_0000_0000_0000 <= ds <= 0x1_0000_0000_0000_0000);
        assert(-0x1_0000_0000_0000_0000_0000_0000 <= ds * 1_000_000_000
            <= 0x1_0000_0000_0000_0000_0000_0000) by (nonlinear_arith)
            requires
                -0x1_0000_0000_0000_0000 <= ds <= 0x1_0000_0000_0000_0000,
        ;
        let d: i128 = ds * NANOS_PER_SEC + dn;
        if d >= 0 {
            d / NANOS_PER_SEC
        } else {
            let neg: i128 = -d;
            -(neg / NANOS_PER_SEC)
        }
    }
}

/// A timestamp is its own value.
impl DeepView for Timestamp {
    type V = Timestamp;

    open spec fn deep_view(&self) -> Timestamp {
        *self
    }
}

/// A timestamp is its seconds followed by its nanoseconds.
impl Wire for Timestamp {
    open spec fn wire(&self) -> Seq<u8> {
        self.secs.wire() + self.nanos.wire()
    }

    proof fn lemma_wire_nonempty(&self) {
    }

    fn encode(&self, out: &mut Vec<u8>) {
        self.secs.encode(out);
        self.nanos.encode(out);
        assert(out@ =~= old(out)@ + self.wire());
    }

    fn decode(buf: &[u8], pos: usize) -> (r: Option<(Timestamp, usize)>) {
        proof {
            assert forall|x: Timestamp| #[trigger] prefixed(buf@, pos as int, x.wire()) implies prefixed(
                buf@,
                pos as int,
                x.secs.wire() + x.nanos.wire(),
            ) by {}
        }
        match decode2::<i64, u32>(buf, pos) {
            Some((secs, nanos, end)) => Some((Timestamp { secs, nanos }, end)),
            None => None,
        }
    }

    fn duplicate(&self) -> (r: Timestamp) {
        *self
    }

    proof fn lemma_wire_unique(&self, other: &Timestamp, rest: Seq<u8>, other_rest: Seq<u8>) {
        lemma_wire_unique2(self.secs, self.nanos, other.secs, other.nanos, rest, other_rest);
    }
}

} // verus!
