//! Types whose valid values a fixed regular expression describes.
use vstd::prelude::*;

verus! {

/// A type that can be validated or parsed using a fixed regular expression.
pub trait FromPattern {
    /// The regular expression, as characters.
    spec fn spec_pattern() -> Seq<char>;

    /// The regular expression matching valid values of this type.
    fn from_pattern() -> (r: &'static str)
        ensures
            r@ == Self::spec_pattern(),
    ;
}

} // verus!
