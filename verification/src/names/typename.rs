//! Type names: custom types, methods and errors.
use vstd::prelude::*;
use vstd::string::StringSliceAdditionalSpecFns;
use vstd::utf8::encode_utf8;

use super::error::{stops_at, TryFromError};
use super::grammar::{is_type_name, lemma_longest_prefix_whole, parse_type_name, parses_fully};
use super::pattern::FromPattern;

verus! {

/// Whether `name` is a valid Varlink type name.
///
/// Method and error names follow this rule too.
pub fn is_valid_type_name(name: &str) -> (r: bool)
    ensures
        r == is_type_name(name.spec_bytes()),
{
    let bytes = name.as_bytes();
    let _ = bytes.len();
    let parsed = parse_type_name(bytes);
    proof {
        lemma_longest_prefix_whole(|t: Seq<u8>| is_type_name(t), name.spec_bytes(), parsed);
    }
    parses_fully(parsed, name)
}

/// A valid Varlink type name, e.g. `FileNotFound`.
#[derive(Debug, PartialEq, Eq, Hash)]
pub struct TypeName {
    name: String,
}

/// Owned sibling of [`TypeName`].
#[derive(Debug, PartialEq, Eq, Hash)]
pub struct OwnedTypeName(TypeName);

impl View for TypeName {
    type V = Seq<char>;

    closed spec fn view(&self) -> Seq<char> {
        self.name@
    }
}

impl View for OwnedTypeName {
    type V = Seq<char>;

    closed spec fn view(&self) -> Seq<char> {
        self.0@
    }
}

impl FromPattern for TypeName {
    open spec fn spec_pattern() -> Seq<char> {
        "[A-Z][A-Za-z0-9]*"@
    }

    fn from_pattern() -> (r: &'static str) {
        "[A-Z][A-Za-z0-9]*"
    }
}

impl FromPattern for OwnedTypeName {
    open spec fn spec_pattern() -> Seq<char> {
        TypeName::spec_pattern()
    }

    fn from_pattern() -> (r: &'static str) {
        TypeName::from_pattern()
    }
}

impl TypeName {
    #[verifier::type_invariant]
    closed spec fn wf(self) -> bool {
        is_type_name(encode_utf8(self.name@))
    }

    /// Try constructing a type name. Only works if `name` is actually valid.
    pub fn try_from(name: &str) -> (r: Result<TypeName, TryFromError>)
        ensures
            r is Ok <==> is_type_name(name.spec_bytes()),
            r matches Ok(v) ==> v@ == name@,
            r matches Err(e) ==> stops_at(|t: Seq<u8>| is_type_name(t), name.spec_bytes(), e@),
    {
        let bytes = name.as_bytes();
        let len = bytes.len();
        let parsed = parse_type_name(bytes);
        proof {
            lemma_longest_prefix_whole(|t: Seq<u8>| is_type_name(t), name.spec_bytes(), parsed);
            assert(!is_type_name(name.spec_bytes().take(0)));
        }
        match parsed {
            Some(n) => {
                if n == len {
                    Ok(TypeName { name: name.to_owned() })
                } else {
                    Err(TryFromError::new(n))
                }
            },
            None => Err(TryFromError::new(0)),
        }
    }

    /// Returns the field name as a string slice.
    pub fn as_str(&self) -> (r: &str)
        ensures
            r@ == self@,
            is_type_name(r.spec_bytes()),
    {
        proof {
            use_type_invariant(self);
        }
        self.name.as_str()
    }

    /// Clone into an owned type name.
    pub fn to_owned(&self) -> (r: OwnedTypeName)
        ensures
            r@ == self@,
    {
        proof {
            use_type_invariant(self);
        }
        OwnedTypeName(TypeName { name: self.name.clone() })
    }

    /// The type name as an owned string.
    pub fn to_string(&self) -> (r: String)
        ensures
            r@ == self@,
    {
        self.name.clone()
    }
}

impl OwnedTypeName {
    /// Try constructing an owned type name. Only works if `name` is actually valid.
    pub fn try_from(name: &str) -> (r: Result<OwnedTypeName, TryFromError>)
        ensures
            r is Ok <==> is_type_name(name.spec_bytes()),
            r matches Ok(v) ==> v@ == name@,
            r matches Err(e) ==> stops_at(|t: Seq<u8>| is_type_name(t), name.spec_bytes(), e@),
    {
        match TypeName::try_from(name) {
            Ok(v) => Ok(OwnedTypeName(v)),
            Err(e) => Err(e),
        }
    }

    /// A borrowed-style copy of this name.
    pub fn as_ref(&self) -> (r: TypeName)
        ensures
            r@ == self@,
    {
        self.0.to_owned().0
    }

    /// The inner field name.
    pub fn inner(&self) -> (r: &TypeName)
        ensures
            r@ == self@,
    {
        &self.0
    }

    /// The type name as an owned string.
    pub fn to_string(&self) -> (r: String)
        ensures
            r@ == self@,
    {
        self.0.to_string()
    }
}

} // verus!
