//! The trait that lets peers subscribe to topics on your node.

use vstd::prelude::*;

verus! {

/// Implement this trait to allow peers to subscribe to topics on your node.
pub trait Subscription<T> {
    /// The outcome of verifying this subscription: the topic it is for when
    /// it is valid, `None` otherwise. It depends on the subscription alone.
    spec fn spec_verify(&self) -> Option<T>;

    /// Verify that this subscription is valid. If it's valid, it returns
    /// `Some(T)` (the topic this subscription is for). `None` means the
    /// verification failed.
    ///
    /// Generally this means checking some kind of cryptographic proof. Or you
    /// can always return the topic if you're working with trusted peers.
    fn verify(&self) -> (r: Option<T>)
        ensures
            r == self.spec_verify(),
    ;
}

} // verus!
