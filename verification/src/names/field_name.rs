//! Field names: struct fields, method parameters and enum variants.
use vstd::prelude::*;
use vstd::string::StringSliceAdditionalSpecFns;
use vstd::utf8::encode_utf8;

use super::error::{stops_at, TryFromError};
use super::grammar::{is_field_name, lemma_longest_prefix_whole, parse_field_name, parses_fully};
use super::pattern::FromPattern;

verus! {

/// Whether `name` is a valid Varlink field name.
///
/// Struct fields, method parameters and enum variants all follow this rule.
pub fn is_valid_field_name(name: &str) -> (r: bool)
    ensures
        r == is_field_name(name.spec_bytes()),
{
    let bytes = name.as_bytes();
    let _ = bytes.len();
    let parsed = parse_field_name(bytes);
    proof {
        lemma_longest_prefix_whole(|t: Seq<u8>| is_field_name(t), name.spec_bytes(), parsed);
    }
    parses_fully(parsed, name)
}

/// A valid Varlink field name, e.g. `user_name`.
#[derive(Debug, PartialEq, Eq, Hash)]
pub struct FieldName {
    name: String,
}

/// Owned sibling of [`FieldName`].
#[derive(Debug, PartialEq, Eq, Hash)]
pub struct OwnedFieldName(FieldName);

impl View for FieldName {
    type V = Seq<char>;

    closed spec fn view(&self) -> Seq<char> {
        self.name@
    }
}

impl View for OwnedFieldName {
    type V = Seq<char>;

    closed spec fn view(&self) -> Seq<char> {
        self.0@
    }
}

impl FromPattern for FieldName {
    open spec fn spec_pattern() -> Seq<char> {
        "[A-Za-z](_?[A-Za-z0-9])*"@
    }

    fn from_pattern() -> (r: &'static str) {
        "[A-Za-z](_?[A-Za-z0-9])*"
    }
}

impl FromPattern for OwnedFieldName {
    open spec fn spec_pattern() -> Seq<char> {
        FieldName::spec_pattern()
    }

    fn from_pattern() -> (r: &'static str) {
        FieldName::from_pattern()
    }
}

impl FieldName {
    #[verifier::type_invariant]
    closed spec fn wf(self) -> bool {
        is_field_name(encode_utf8(self.name@))
    }

    /// Try constructing a field name. Only works if `name` is actually valid.
    pub fn try_from(name: &str) -> (r: Result<FieldName, TryFromError>)
        ensures
            r is Ok <==> is_field_name(name.spec_bytes()),
            r matches Ok(v) ==> v@ == name@,
            r matches Err(e) ==> stops_at(|t: Seq<u8>| is_field_name(t), name.spec_bytes(), e@),
    {
        let bytes = name.as_bytes();
        let len = bytes.len();
        let parsed = parse_field_name(bytes);
        proof {
            lemma_longest_prefix_whole(|t: Seq<u8>| is_field_name(t), name.spec_bytes(), parsed);
            assert(!is_field_name(name.spec_bytes().take(0)));
        }
        match parsed {
            Some(n) => {
                if n == len {
                    Ok(FieldName { name: name.to_owned() })
                } else {
                    Err(TryFromError::new(n))
                }
            },
            None => Err(TryFromError::new(0)),
        }
    }

    /// Returns the field name as a string slice.
    pub fn as_str(&self) -> (r: &str)
        ensures
            r@ == self@,
            is_field_name(r.spec_bytes()),
    {
        proof {
            use_type_invariant(self);
        }
        self.name.as_str()
    }

    /// Clone into an owned field name.
    pub fn to_owned(&self) -> (r: OwnedFieldName)
        ensures
            r@ == self@,
    {
        proof {
            use_type_invariant(self);
        }
        OwnedFieldName(FieldName { name: self.name.clone() })
    }

    /// The field name as an owned string.
    pub fn to_string(&self) -> (r: String)
        ensures
            r@ == self@,
    {
        self.name.clone()
    }
}

impl OwnedFieldName {
    /// Try constructing an owned field name. Only works if `name` is actually valid.
    pub fn try_from(name: &str) -> (r: Result<OwnedFieldName, TryFromError>)
        ensures
            r is Ok <==> is_field_name(name.spec_bytes()),
            r matches Ok(v) ==> v@ == name@,
            r matches Err(e) ==> stops_at(|t: Seq<u8>| is_field_name(t), name.spec_bytes(), e@),
    {
        match FieldName::try_from(name) {
            Ok(v) => Ok(OwnedFieldName(v)),
            Err(e) => Err(e),
        }
    }

    /// A borrowed-style copy of this name.
    pub fn as_ref(&self) -> (r: FieldName)
        ensures
            r@ == self@,
    {
        self.0.to_owned().0
    }

    /// The inner field name.
    pub fn inner(&self) -> (r: &FieldName)
        ensures
            r@ == self@,
    {
        &self.0
    }

    /// The field name as an owned string.
    pub fn to_string(&self) -> (r: String)
        ensures
            r@ == self@,
    {
        self.0.to_string()
    }
}

} // verus!
