//! The error returned when a string is not a valid Varlink name.
use vstd::prelude::*;

use super::grammar::longest_prefix;

verus! {

/// A string was not a valid name of the kind asked for.
///
/// It records the offset at which the name stops being valid: the length of its longest valid
/// prefix, or `0` when not even its first byte starts one.
#[derive(Debug, Clone, Copy, PartialEq, Eq)]
pub struct TryFromError {
    offset: usize,
}

impl View for TryFromError {
    type V = usize;

    closed spec fn view(&self) -> usize {
        self.offset
    }
}

/// `off` is where `s` stops being accepted by `accepts`: its longest accepted prefix, or `0` when
/// no prefix is accepted.
pub open spec fn stops_at(accepts: spec_fn(Seq<u8>) -> bool, s: Seq<u8>, off: usize) -> bool {
    longest_prefix(accepts, s, if off == 0 { None } else { Some(off) })
}

impl TryFromError {
    pub(crate) fn new(offset: usize) -> (r: Self)
        ensures
            r@ == offset,
    {
        TryFromError { offset }
    }

    /// The length of the longest valid prefix of the rejected string.
    pub fn offset(&self) -> (r: usize)
        ensures
            r == self@,
    {
        self.offset
    }
}

} // verus!
