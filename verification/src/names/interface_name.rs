//! Interface names: reverse-domain notation, dot-separated segments, at least one dot.
use vstd::prelude::*;
use vstd::string::StringSliceAdditionalSpecFns;
use vstd::utf8::encode_utf8;

use super::error::{stops_at, TryFromError};
use vstd::utf8::decode_utf8;
use super::grammar::{bytes_eq, is_interface_name, lemma_longest_prefix_whole, parse_interface_name, parses_fully};
use super::pattern::FromPattern;

verus! {

/// Whether `name` is a valid Varlink interface name.
///
/// Interface names are reverse-domain notation: dot-separated segments, at least one dot.
pub fn is_valid_interface_name(name: &str) -> (r: bool)
    ensures
        r == is_interface_name(name.spec_bytes()),
{
    let bytes = name.as_bytes();
    let _ = bytes.len();
    let parsed = parse_interface_name(bytes);
    proof {
        lemma_longest_prefix_whole(|t: Seq<u8>| is_interface_name(t), name.spec_bytes(), parsed);
    }
    parses_fully(parsed, name)
}

/// A valid Varlink interface name, e.g. `org.example.Foo`.
#[derive(Debug, PartialEq, Eq, Hash)]
pub struct InterfaceName {
    name: String,
}

/// Owned sibling of [`InterfaceName`].
#[derive(Debug, PartialEq, Eq, Hash)]
pub struct OwnedInterfaceName(InterfaceName);

impl View for InterfaceName {
    type V = Seq<char>;

    closed spec fn view(&self) -> Seq<char> {
        self.name@
    }
}

impl View for OwnedInterfaceName {
    type V = Seq<char>;

    closed spec fn view(&self) -> Seq<char> {
        self.0@
    }
}

impl FromPattern for InterfaceName {
    open spec fn spec_pattern() -> Seq<char> {
        r"[A-Za-z]([-]*[A-Za-z0-9])*(\.[A-Za-z0-9]([-]*[A-Za-z0-9])*)+"@
    }

    fn from_pattern() -> (r: &'static str) {
        r"[A-Za-z]([-]*[A-Za-z0-9])*(\.[A-Za-z0-9]([-]*[A-Za-z0-9])*)+"
    }
}

impl FromPattern for OwnedInterfaceName {
    open spec fn spec_pattern() -> Seq<char> {
        InterfaceName::spec_pattern()
    }

    fn from_pattern() -> (r: &'static str) {
        InterfaceName::from_pattern()
    }
}

impl InterfaceName {
    #[verifier::type_invariant]
    closed spec fn wf(self) -> bool {
        is_interface_name(encode_utf8(self.name@))
    }

    /// Try constructing an interface name. Only works if `name` is actually valid.
    pub fn try_from(name: &str) -> (r: Result<InterfaceName, TryFromError>)
        ensures
            r is Ok <==> is_interface_name(name.spec_bytes()),
            r matches Ok(v) ==> v@ == name@,
            r matches Err(e) ==> stops_at(|t: Seq<u8>| is_interface_name(t), name.spec_bytes(), e@),
    {
        let bytes = name.as_bytes();
        let len = bytes.len();
        let parsed = parse_interface_name(bytes);
        proof {
            lemma_longest_prefix_whole(|t: Seq<u8>| is_interface_name(t), name.spec_bytes(), parsed);
            assert(!is_interface_name(name.spec_bytes().take(0)));
        }
        match parsed {
            Some(n) => {
                if n == len {
                    Ok(InterfaceName { name: name.to_owned() })
                } else {
                    Err(TryFromError::new(n))
                }
            },
            None => Err(TryFromError::new(0)),
        }
    }

    /// Returns the field name as a string slice.
    pub fn as_str(&self) -> (r: &str)
        ensures
            r@ == self@,
            is_interface_name(r.spec_bytes()),
    {
        proof {
            use_type_invariant(self);
        }
        self.name.as_str()
    }

    /// Clone into an owned interface name.
    pub fn to_owned(&self) -> (r: OwnedInterfaceName)
        ensures
            r@ == self@,
    {
        proof {
            use_type_invariant(self);
        }
        OwnedInterfaceName(InterfaceName { name: self.name.clone() })
    }

    /// The interface name as an owned string.
    pub fn to_string(&self) -> (r: String)
        ensures
            r@ == self@,
    {
        self.name.clone()
    }

    /// An interface name from a string the caller knows to be valid.
    pub fn from_static_str_unchecked(name: &'static str) -> (r: Self)
        requires
            is_interface_name(name.spec_bytes()),
        ensures
            r@ == name@,
    {
        InterfaceName { name: name.to_owned() }
    }

    /// Convert this interface name into an owned version.
    pub fn into_owned(self) -> (r: InterfaceName)
        ensures
            r@ == self@,
    {
        self
    }

    /// Whether this name is spelled exactly as `other`.
    pub fn eq_str(&self, other: &str) -> (r: bool)
        ensures
            r == (self@ == other@),
    {
        let mine = self.name.as_str();
        let r = bytes_eq(mine.as_bytes(), other.as_bytes());
        proof {
            broadcast use vstd::utf8::encode_utf8_decode_utf8;
            assert(r ==> decode_utf8(encode_utf8(mine@)) == decode_utf8(encode_utf8(other@)));
        }
        r
    }
}

impl OwnedInterfaceName {
    /// Try constructing an owned interface name. Only works if `name` is actually valid.
    pub fn try_from(name: &str) -> (r: Result<OwnedInterfaceName, TryFromError>)
        ensures
            r is Ok <==> is_interface_name(name.spec_bytes()),
            r matches Ok(v) ==> v@ == name@,
            r matches Err(e) ==> stops_at(|t: Seq<u8>| is_interface_name(t), name.spec_bytes(), e@),
    {
        match InterfaceName::try_from(name) {
            Ok(v) => Ok(OwnedInterfaceName(v)),
            Err(e) => Err(e),
        }
    }

    /// A borrowed-style copy of this name.
    pub fn as_ref(&self) -> (r: InterfaceName)
        ensures
            r@ == self@,
    {
        self.0.to_owned().0
    }

    /// The inner field name.
    pub fn inner(&self) -> (r: &InterfaceName)
        ensures
            r@ == self@,
    {
        &self.0
    }

    /// The interface name as an owned string.
    pub fn to_string(&self) -> (r: String)
        ensures
            r@ == self@,
    {
        self.0.to_string()
    }
}

} // verus!
