//! Lists of deferred-cleanup records.
//!
//! A recording carries the records of the resource transitions that it holds
//! open; they are released once the GPU has consumed the recording. A record is
//! named here by a token that its owner hands out. Most recordings hold one or
//! two, so a list is a `SmallVec` with room for two tokens in place.

use smallvec::SmallVec;
use vstd::prelude::*;

verus! {

/// A list of tokens in a `smallvec::SmallVec`.
#[verifier::external_body]
pub struct BarrierList {
    list: SmallVec<[u64; 2]>,
}

/// The tokens that a list holds, in the order in which they were pushed.
pub uninterp spec fn barrier_tokens(list: BarrierList) -> Seq<u64>;

impl View for BarrierList {
    type V = Seq<u64>;

    open spec fn view(&self) -> Seq<u64> {
        barrier_tokens(*self)
    }
}

impl BarrierList {
    /// `SmallVec::new`: a list that holds no token.
    #[verifier::external_body]
    pub(crate) fn new() -> (list: Self)
        ensures
            barrier_tokens(list) == Seq::<u64>::empty(),
    {
        Self { list: SmallVec::new() }
    }

    /// `SmallVec::push`: the token is appended behind those that the list
    /// holds.
    #[verifier::external_body]
    pub(crate) fn push(&mut self, token: u64)
        ensures
            barrier_tokens(*final(self)) == barrier_tokens(*old(self)).push(token),
    {
        self.list.push(token)
    }

    /// `SmallVec::len`: the number of tokens that the list holds.
    #[verifier::external_body]
    pub(crate) fn len(&self) -> (len: usize)
        ensures
            len == barrier_tokens(*self).len(),
    {
        self.list.len()
    }

    /// `SmallVec::drain` over the whole list: the tokens come out in the order
    /// in which the list held them, and the list is left empty, with its
    /// storage.
    #[verifier::external_body]
    pub(crate) fn drain(&mut self) -> (tokens: Vec<u64>)
        ensures
            tokens@ == barrier_tokens(*old(self)),
            barrier_tokens(*final(self)) == Seq::<u64>::empty(),
    {
        self.list.drain(..).collect()
    }
}

} // verus!
