//! Small verified helpers for building and inspecting text.
use vstd::prelude::*;
use vstd::string::{StrSliceExecFns, StringExecFns};
use vstd::utf8::{encode_utf8, valid_utf8};

verus! {

/// Appends `c` to `s`.
///
/// Wraps `String::push`, which the standard library documents as appending the given `char` to
/// the end of the string.
#[verifier::external_body]
pub(crate) fn push_char(s: &mut String, c: char)
    ensures
        final(s)@ == old(s)@.push(c),
{
    s.push(c);
}

/// The string whose UTF-8 encoding is `bytes`, if they are valid UTF-8.
///
/// Wraps `String::from_utf8`, which the standard library documents as succeeding exactly when
/// the bytes are valid UTF-8, the string then holding those bytes.
#[verifier::external_body]
pub(crate) fn string_from_utf8(bytes: Vec<u8>) -> (r: Option<String>)
    ensures
        r is Some <==> valid_utf8(bytes@),
        r matches Some(s) ==> encode_utf8(s@) == bytes@,
{
    match String::from_utf8(bytes) {
        Ok(s) => Some(s),
        Err(_) => None,
    }
}

/// The characters of `s`, in order.
pub fn chars_of(s: &str) -> (r: Vec<char>)
    ensures
        r@ == s@,
{
    let n = s.unicode_len();
    let mut out: Vec<char> = Vec::new();
    let mut i: usize = 0;
    while i < n
        invariant
            i <= n,
            n == s@.len(),
            out@ == s@.take(i as int),
        decreases n - i,
    {
        out.push(s.get_char(i));
        i += 1;
        assert(out@ =~= s@.take(i as int));
    }
    assert(s@.take(n as int) =~= s@);
    out
}

/// A string holding exactly the characters of `cs`.
pub fn string_from_chars(cs: &Vec<char>) -> (r: String)
    ensures
        r@ == cs@,
{
    let mut out = String::new();
    let mut i: usize = 0;
    while i < cs.len()
        invariant
            i <= cs@.len(),
            out@ == cs@.take(i as int),
        decreases cs@.len() - i,
    {
        push_char(&mut out, cs[i]);
        i += 1;
        assert(out@ =~= cs@.take(i as int));
    }
    assert(cs@.take(cs@.len() as int) =~= cs@);
    out
}

/// `a` followed by `b`.
pub fn concat(a: &str, b: &str) -> (r: String)
    ensures
        r@ == a@ + b@,
{
    let mut s = String::from_str(a);
    s.append(b);
    s
}

/// Whether `a` and `b` hold the same characters.
pub fn str_eq(a: &str, b: &str) -> (r: bool)
    ensures
        r == (a@ == b@),
{
    let r = crate::names::grammar::bytes_eq(a.as_bytes(), b.as_bytes());
    proof {
        broadcast use vstd::utf8::encode_utf8_decode_utf8;
        assert(r ==> vstd::utf8::decode_utf8(vstd::utf8::encode_utf8(a@))
            == vstd::utf8::decode_utf8(vstd::utf8::encode_utf8(b@)));
    }
    r
}


/// The Unicode lowercase form of a string.
pub uninterp spec fn lowercase(s: Seq<char>) -> Seq<char>;

/// `s` in lowercase.
///
/// Wraps `str::to_lowercase`, which maps the string to its lowercase form as the Unicode
/// `Lowercase` property defines it (a final capital sigma included); the contract only names the
/// result.
#[verifier::external_body]
pub(crate) fn to_lowercase(s: &str) -> (r: String)
    ensures
        r@ == lowercase(s@),
{
    s.to_lowercase()
}

/// The Unicode uppercase form of a string.
pub uninterp spec fn uppercase(s: Seq<char>) -> Seq<char>;

/// `s` in uppercase.
///
/// Wraps `str::to_uppercase`, which maps the string to its uppercase form as the Unicode
/// `Uppercase` property defines it; the contract only names the result.
#[verifier::external_body]
pub(crate) fn to_uppercase(s: &str) -> (r: String)
    ensures
        r@ == uppercase(s@),
{
    s.to_uppercase()
}

/// The characters a character's uppercase mapping consists of.
pub uninterp spec fn char_uppercase(c: char) -> Seq<char>;

/// The uppercase mapping of `c`, as the characters it consists of.
///
/// Wraps `char::to_uppercase`, which yields the uppercase mapping of a character as one or more
/// characters; the contract only names them.
#[verifier::external_body]
pub(crate) fn char_to_uppercase(c: char) -> (r: Vec<char>)
    ensures
        r@ == char_uppercase(c),
{
    c.to_uppercase().collect()
}

} // verus!
