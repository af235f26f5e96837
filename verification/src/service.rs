//! The naming decisions of the `service` and `proxy` macros: the Varlink name of a method, the
//! wire names of its parameters, and the names of the interface constants they generate.
use vstd::prelude::*;

use crate::names::grammar::{is_field_name, is_interface_byte, is_interface_name, is_type_name};
use crate::names::pattern::FromPattern;
use crate::names::{FieldName, InterfaceName, OwnedTypeName, TypeName};
use crate::naming::{ascii_upper, opt_view, upper_all, upper_char, unraw, unraw_spec, validation_message, NameError};
use crate::strings::{char_to_uppercase, char_uppercase, chars_of, lowercase, string_from_chars, to_lowercase, to_uppercase, uppercase};
use vstd::utf8::encode_utf8;

verus! {

/// The words of `s` between underscores, as `str::split('_')` gives them (empty words included).
pub open spec fn underscore_words(s: Seq<char>) -> Seq<Seq<char>>
    decreases s.len(),
{
    if s.len() == 0 {
        seq![Seq::empty()]
    } else {
        let before = underscore_words(s.drop_last());
        if s.last() == '_' {
            before.push(Seq::empty())
        } else {
            before.update(before.len() - 1, before.last().push(s.last()))
        }
    }
}

/// A word in `PascalCase`: its first character in uppercase, the rest in lowercase.
pub open spec fn pascal_word(w: Seq<char>) -> Seq<char> {
    if w.len() == 0 {
        Seq::empty()
    } else {
        char_uppercase(w[0]) + lowercase(w.skip(1))
    }
}

/// The words, each in `PascalCase`, run together.
pub open spec fn pascal_words(ws: Seq<Seq<char>>) -> Seq<char>
    decreases ws.len(),
{
    if ws.len() == 0 {
        Seq::empty()
    } else {
        pascal_words(ws.drop_last()) + pascal_word(ws.last())
    }
}

/// `snake_case` turned to `PascalCase`: each word between underscores capitalized, the
/// underscores dropped.
pub open spec fn pascal_case(s: Seq<char>) -> Seq<char> {
    pascal_words(underscore_words(s))
}

proof fn lemma_words_nonempty(s: Seq<char>)
    ensures
        underscore_words(s).len() >= 1,
    decreases s.len(),
{
    if s.len() > 0 {
        lemma_words_nonempty(s.drop_last());
    }
}

fn pascal_word_exec(w: &Vec<char>) -> (r: Vec<char>)
    ensures
        r@ == pascal_word(w@),
{
    if w.len() == 0 {
        return Vec::new();
    }
    let mut out = char_to_uppercase(w[0]);
    let mut rest: Vec<char> = Vec::new();
    let mut i: usize = 1;
    while i < w.len()
        invariant
            1 <= i <= w@.len(),
            rest@ == w@.subrange(1, i as int),
        decreases w@.len() - i,
    {
        rest.push(w[i]);
        i = i + 1;
        assert(rest@ =~= w@.subrange(1, i as int));
    }
    assert(rest@ =~= w@.skip(1));
    let rest_str = string_from_chars(&rest);
    let lower = to_lowercase(rest_str.as_str());
    let lower_chars = chars_of(lower.as_str());
    let mut j: usize = 0;
    let ghost head = out@;
    while j < lower_chars.len()
        invariant
            j <= lower_chars@.len(),
            out@ == head + lower_chars@.take(j as int),
        decreases lower_chars@.len() - j,
    {
        out.push(lower_chars[j]);
        j = j + 1;
        assert(out@ =~= head + lower_chars@.take(j as int));
    }
    assert(lower_chars@.take(j as int) =~= lower_chars@);
    out
}

/// `input`, a `snake_case` name, in `PascalCase`.
pub fn snake_case_to_pascal_case(input: &str) -> (r: String)
    ensures
        r@ == pascal_case(input@),
{
    let cs = chars_of(input);
    let mut out: Vec<char> = Vec::new();
    let mut word: Vec<char> = Vec::new();
    let mut i: usize = 0;
    proof {
        assert(cs@.take(0) =~= Seq::<char>::empty());
        assert(underscore_words(Seq::<char>::empty()).drop_last() =~= Seq::<Seq<char>>::empty());
    }
    while i < cs.len()
        invariant
            i <= cs@.len(),
            underscore_words(cs@.take(i as int)).len() >= 1,
            word@ == underscore_words(cs@.take(i as int)).last(),
            out@ == pascal_words(underscore_words(cs@.take(i as int)).drop_last()),
        decreases cs@.len() - i,
    {
        let c = cs[i];
        let ghost before = underscore_words(cs@.take(i as int));
        proof {
            assert(cs@.take(i + 1).drop_last() =~= cs@.take(i as int));
            assert(cs@.take(i + 1).last() == c);
        }
        if c == '_' {
            let p = pascal_word_exec(&word);
            let mut k: usize = 0;
            let ghost head = out@;
            while k < p.len()
                invariant
                    k <= p@.len(),
                    out@ == head + p@.take(k as int),
                decreases p@.len() - k,
            {
                out.push(p[k]);
                k = k + 1;
                assert(out@ =~= head + p@.take(k as int));
            }
            proof {
                assert(p@.take(k as int) =~= p@);
                let after = underscore_words(cs@.take(i + 1));
                assert(after == before.push(Seq::empty()));
                assert(after.drop_last() =~= before);
                assert(before.drop_last().push(before.last()) =~= before);
            }
            word = Vec::new();
        } else {
            word.push(c);
            proof {
                let after = underscore_words(cs@.take(i + 1));
                assert(after.drop_last() =~= before.drop_last());
            }
        }
        i = i + 1;
    }
    proof {
        assert(cs@.take(i as int) =~= input@);
    }
    let p = pascal_word_exec(&word);
    let mut k: usize = 0;
    let ghost head = out@;
    while k < p.len()
        invariant
            k <= p@.len(),
            out@ == head + p@.take(k as int),
        decreases p@.len() - k,
    {
        out.push(p[k]);
        k = k + 1;
        assert(out@ =~= head + p@.take(k as int));
    }
    proof {
        assert(p@.take(k as int) =~= p@);
        let ws = underscore_words(input@);
        assert(ws.drop_last().push(ws.last()) =~= ws);
    }
    string_from_chars(&out)
}

/// The Varlink name of a method: an explicit rename verbatim, else its unraw'd ident in
/// `PascalCase`.
pub open spec fn method_wire_name(rename: Option<Seq<char>>, ident: Seq<char>) -> Seq<char> {
    match rename {
        Some(r) => r,
        None => pascal_case(unraw_spec(ident)),
    }
}

/// The Varlink name of a service method, which must be expressible as a type name.
pub fn method_name(rename: Option<&str>, ident: &str) -> (r: Result<OwnedTypeName, NameError>)
    ensures
        ({
            let name = method_wire_name(opt_view(rename), ident@);
            &&& r is Ok <==> is_type_name(encode_utf8(name))
            &&& r matches Ok(n) ==> n@ == name
            &&& r matches Err(e) ==> e@ == validation_message(name, "method name"@, TypeName::spec_pattern(), rename is Some)
        }),
{
    let name = match rename {
        Some(n) => String::from_str(n),
        None => {
            let unrawed = unraw(ident);
            snake_case_to_pascal_case(unrawed.as_str())
        },
    };
    match OwnedTypeName::try_from(name.as_str()) {
        Ok(n) => Ok(n),
        Err(_) => Err(crate::naming::validation_error(
            name.as_str(),
            "method name",
            TypeName::from_pattern(),
            rename.is_some(),
        )),
    }
}

/// A parameter of a service method.
#[derive(Debug, Clone)]
pub struct ParamInfo {
    /// The parameter's Rust name.
    pub name: String,
    /// The name given by `#[zlink(rename = "...")]`, if any.
    pub serialized_name: Option<String>,
    /// Marked `#[zlink(connection)]`: the connection is passed in, nothing goes on the wire.
    pub is_connection: bool,
    /// Marked `#[zlink(fds)]`: file descriptors are passed in, nothing goes on the wire.
    pub is_fds: bool,
    /// The `more` flag of a streaming method.
    pub is_more: bool,
}

/// The name a parameter carries on the wire and in the IDL: its rename, else its unraw'd name.
pub open spec fn param_wire_name(p: ParamInfo) -> Seq<char> {
    match p.serialized_name {
        Some(n) => n@,
        None => unraw_spec(p.name@),
    }
}

/// Whether a parameter goes on the wire: it is neither the connection, the file descriptors,
/// nor the `more` flag.
pub open spec fn is_serialized(p: ParamInfo) -> bool {
    !p.is_connection && !p.is_more && !p.is_fds
}

impl ParamInfo {
    /// The parameter name used on the wire (and in the IDL).
    pub fn wire_name(&self) -> (r: String)
        ensures
            r@ == param_wire_name(*self),
    {
        match &self.serialized_name {
            Some(name) => name.clone(),
            None => unraw(self.name.as_str()),
        }
    }

    /// Whether the parameter goes on the wire.
    pub fn is_serialized(&self) -> (r: bool)
        ensures
            r == is_serialized(*self),
    {
        !self.is_connection && !self.is_more && !self.is_fds
    }
}

/// Checks that every parameter that goes on the wire has a name Varlink can express as a field
/// name, reporting the first that has not.
pub fn validate_params(params: &Vec<ParamInfo>) -> (r: Result<(), NameError>)
    ensures
        r is Ok <==> forall|k: int|
            0 <= k < params@.len() && is_serialized(#[trigger] params@[k]) ==> is_field_name(encode_utf8(param_wire_name(params@[k]))),
        r matches Err(e) ==> exists|k: int|
            0 <= k < params@.len() && is_serialized(#[trigger] params@[k])
                && !is_field_name(encode_utf8(param_wire_name(params@[k])))
                && e@ == validation_message(param_wire_name(params@[k]), "parameter name"@, FieldName::spec_pattern(), params@[k].serialized_name is Some)
                && forall|j: int| 0 <= j < k && is_serialized(#[trigger] params@[j]) ==> is_field_name(encode_utf8(param_wire_name(params@[j]))),
{
    let mut i: usize = 0;
    while i < params.len()
        invariant
            i <= params@.len(),
            forall|j: int| 0 <= j < i && is_serialized(#[trigger] params@[j]) ==> is_field_name(encode_utf8(param_wire_name(params@[j]))),
        decreases params@.len() - i,
    {
        let p = &params[i];
        if p.is_serialized() {
            let wire = p.wire_name();
            if !crate::names::is_valid_field_name(wire.as_str()) {
                let e = crate::naming::validation_error(
                    wire.as_str(),
                    "parameter name",
                    FieldName::from_pattern(),
                    p.serialized_name.is_some(),
                );
                return Err(e);
            }
        }
        i = i + 1;
    }
    Ok(())
}

/// The message rejecting a streaming method without its `more` parameter.
pub open spec fn streaming_message() -> Seq<char> {
    "streaming methods must have `more: bool` as the first parameter after `self`"@
}

/// Checks the `more` parameter of a streaming method: there must be a first parameter, of type
/// `bool`.
pub fn check_streaming_params(param_count: usize, first_is_bool: bool) -> (r: Result<(), String>)
    ensures
        r is Ok <==> (param_count > 0 && first_is_bool),
        r matches Err(m) ==> m@ == streaming_message(),
{
    if param_count == 0 || !first_is_bool {
        return Err(String::from_str("streaming methods must have `more: bool` as the first parameter after `self`"));
    }
    Ok(())
}

/// What one character of an interface name becomes in an identifier: a dot one underscore, a
/// hyphen two, any other character itself in upper case.
pub open spec fn ident_code(c: char) -> Seq<char> {
    if c == '.' {
        seq!['_']
    } else if c == '-' {
        seq!['_', '_']
    } else {
        seq![ascii_upper(c)]
    }
}

/// An interface name's characters for an identifier, each as [`ident_code`] gives it.
pub open spec fn ident_chars(s: Seq<char>) -> Seq<char>
    decreases s.len(),
{
    if s.len() == 0 {
        Seq::empty()
    } else {
        ident_chars(s.drop_last()) + ident_code(s.last())
    }
}

/// The name of the constant holding an interface's description for a service type.
pub open spec fn interface_const_name(service_type: Seq<char>, interface: Seq<char>) -> Seq<char> {
    "__"@ + uppercase(service_type) + "_INTERFACE_"@ + ident_chars(interface)
}

/// The name of the constant that holds the description of `interface` for the service type
/// `service_type`.
///
/// Interface names are ASCII, so their letters are put in upper case by ASCII rules. Dots and
/// hyphens become different runs of underscores, so that two interfaces of one service never
/// share a constant (see [`lemma_interface_consts_distinct`]).
pub fn interface_name_to_ident(service_type: &str, interface: &InterfaceName) -> (r: String)
    ensures
        r@ == interface_const_name(service_type@, interface@),
{
    let upper = to_uppercase(service_type);
    let cs = chars_of(interface.as_str());
    let mut out: Vec<char> = Vec::new();
    let mut i: usize = 0;
    while i < cs.len()
        invariant
            i <= cs@.len(),
            out@ == ident_chars(cs@.take(i as int)),
        decreases cs@.len() - i,
    {
        let c = cs[i];
        if c == '.' {
            out.push('_');
        } else if c == '-' {
            out.push('_');
            out.push('_');
        } else {
            out.push(upper_char(c));
        }
        proof {
            assert(cs@.take(i + 1).drop_last() =~= cs@.take(i as int));
            assert(out@ =~= ident_chars(cs@.take(i as int)) + ident_code(c));
        }
        i = i + 1;
    }
    proof {
        assert(cs@.take(i as int) =~= interface@);
    }
    let tail = string_from_chars(&out);
    let head = crate::strings::concat("__", upper.as_str());
    let mid = crate::strings::concat(head.as_str(), "_INTERFACE_");
    crate::strings::concat(mid.as_str(), tail.as_str())
}

/// Reading an identifier's underscores back: two in a row stand for a hyphen, one for a dot.
pub open spec fn ident_decode(s: Seq<char>) -> Seq<char>
    decreases s.len(),
{
    if s.len() == 0 {
        Seq::empty()
    } else if s[0] == '_' && s.len() >= 2 && s[1] == '_' {
        seq!['-'] + ident_decode(s.subrange(2, s.len() as int))
    } else if s[0] == '_' {
        seq!['.'] + ident_decode(s.drop_first())
    } else {
        seq![s[0]] + ident_decode(s.drop_first())
    }
}

/// No underscore, and every dot followed by something other than a dot or a hyphen: what every
/// interface name has.
pub open spec fn ident_ready(x: Seq<char>) -> bool {
    &&& forall|i: int| 0 <= i < x.len() ==> #[trigger] x[i] != '_'
    &&& forall|i: int|
        0 <= i < x.len() && #[trigger] x[i] == '.' ==> i + 1 < x.len() && x[i + 1] != '.' && x[i + 1] != '-'
}

proof fn lemma_ident_chars_concat(x: Seq<char>, y: Seq<char>)
    ensures
        ident_chars(x + y) == ident_chars(x) + ident_chars(y),
    decreases y.len(),
{
    if y.len() == 0 {
        assert(x + y =~= x);
        assert(ident_chars(x) + ident_chars(y) =~= ident_chars(x));
    } else {
        assert((x + y).drop_last() =~= x + y.drop_last());
        lemma_ident_chars_concat(x, y.drop_last());
        assert(ident_chars(x + y) =~= ident_chars(x) + ident_chars(y));
    }
}

proof fn lemma_ident_chars_front(x: Seq<char>)
    requires
        x.len() > 0,
    ensures
        ident_chars(x) == ident_code(x[0]) + ident_chars(x.drop_first()),
{
    let head = seq![x[0]];
    assert(head + x.drop_first() =~= x);
    lemma_ident_chars_concat(head, x.drop_first());
    assert(head.drop_last() =~= Seq::<char>::empty());
    assert(head.last() == x[0]);
    assert(ident_chars(head) == ident_chars(head.drop_last()) + ident_code(head.last()));
    assert(ident_chars(head) =~= ident_code(x[0]));
}

proof fn lemma_ascii_upper_not_underscore(c: char)
    requires
        c != '_',
    ensures
        ascii_upper(c) != '_',
{
}

proof fn lemma_ident_decode(x: Seq<char>)
    requires
        ident_ready(x),
    ensures
        ident_decode(ident_chars(x)) == upper_all(x),
    decreases x.len(),
{
    if x.len() == 0 {
        assert(upper_all(x) =~= Seq::<char>::empty());
    } else {
        let rest = x.drop_first();
        assert(ident_ready(rest)) by {
            assert forall|i: int| 0 <= i < rest.len() implies #[trigger] rest[i] != '_' by {
                assert(rest[i] == x[i + 1]);
            }
            assert forall|i: int| 0 <= i < rest.len() && #[trigger] rest[i] == '.' implies i + 1 < rest.len()
                && rest[i + 1] != '.' && rest[i + 1] != '-' by {
                assert(rest[i] == x[i + 1]);
            }
        }
        lemma_ident_decode(rest);
        lemma_ident_chars_front(x);
        let r = ident_chars(rest);
        let e = ident_chars(x);
        assert(upper_all(x) =~= seq![ascii_upper(x[0])] + upper_all(rest));
        if x[0] == '-' {
            assert(e =~= seq!['_', '_'] + r);
            assert(e.subrange(2, e.len() as int) =~= r);
        } else if x[0] == '.' {
            assert(rest.len() > 0 && rest[0] != '.' && rest[0] != '-');
            assert(rest[0] == x[1]);
            lemma_ident_chars_front(rest);
            lemma_ascii_upper_not_underscore(rest[0]);
            assert(r[0] == ascii_upper(rest[0]));
            assert(e =~= seq!['_'] + r);
            assert(e[1] == r[0]);
            assert(e.drop_first() =~= r);
        } else {
            lemma_ascii_upper_not_underscore(x[0]);
            assert(e =~= seq![ascii_upper(x[0])] + r);
            assert(e.drop_first() =~= r);
        }
    }
}

proof fn lemma_char_ascii(ch: char)
    requires
        (ch as u32) <= 0x7f,
    ensures
        '\0' <= ch <= '\u{7f}',
{
}

/// Bytes below `0x80` in an encoding come only from ASCII characters.
proof fn lemma_ascii_encoding(cs: Seq<char>)
    requires
        forall|i: int| 0 <= i < encode_utf8(cs).len() ==> #[trigger] encode_utf8(cs)[i] < 128,
    ensures
        vstd::utf8::is_ascii_chars(cs),
    decreases cs.len(),
{
    if cs.len() > 0 {
        let c = cs[0] as u32;
        let e = vstd::utf8::encode_scalar(c);
        let rest = cs.drop_first();
        assert(encode_utf8(cs) == e + encode_utf8(rest));
        assert(e.len() >= 1);
        assert(encode_utf8(cs)[0] == e[0]);
        assert(forall|x: u8| #![auto] (0xC0u8 | x) >= 128u8) by (bit_vector);
        assert(forall|x: u8| #![auto] (0xE0u8 | x) >= 128u8) by (bit_vector);
        assert(forall|x: u8| #![auto] (0xF0u8 | x) >= 128u8) by (bit_vector);
        assert(vstd::utf8::has_width_1_encoding(c));
        assert forall|i: int| 0 <= i < encode_utf8(rest).len() implies #[trigger] encode_utf8(rest)[i] < 128 by {
            assert(encode_utf8(cs)[e.len() + i] == encode_utf8(rest)[i]);
        }
        lemma_ascii_encoding(rest);
        assert forall|i: int| 0 <= i < cs.len() implies '\0' <= #[trigger] cs[i] <= '\u{7f}' by {
            if i > 0 {
                assert(cs[i] == rest[i - 1]);
            } else {
                lemma_char_ascii(cs[0]);
            }
        }
    }
}

/// Every interface name is [`ident_ready`].
proof fn lemma_interface_name_ident_ready(x: Seq<char>)
    requires
        is_interface_name(encode_utf8(x)),
    ensures
        ident_ready(x),
{
    let b = encode_utf8(x);
    assert forall|i: int| 0 <= i < b.len() implies #[trigger] b[i] < 128 by {
        assert(is_interface_byte(b[i]));
    }
    lemma_ascii_encoding(x);
    vstd::utf8::is_ascii_chars_encode_utf8(x);
    assert forall|i: int| 0 <= i < x.len() implies #[trigger] x[i] != '_' by {
        assert(x[i] as u8 == b[i]);
        assert(is_interface_byte(b[i]));
    }
    assert forall|i: int| 0 <= i < x.len() && #[trigger] x[i] == '.' implies i + 1 < x.len() && x[i + 1] != '.'
        && x[i + 1] != '-' by {
        assert(x[i] as u8 == b[i]);
        assert(b[i] == 46u8);
        assert(x[i + 1] as u8 == b[i + 1]);
    }
}

/// Two interface names of one service share a constant only when they are spelled alike but for
/// the case of their letters: the constant keeps dots and hyphens apart.
pub proof fn lemma_interface_consts_distinct(service_type: Seq<char>, a: Seq<char>, b: Seq<char>)
    requires
        is_interface_name(encode_utf8(a)),
        is_interface_name(encode_utf8(b)),
        interface_const_name(service_type, a) == interface_const_name(service_type, b),
    ensures
        upper_all(a) == upper_all(b),
{
    let head = "__"@ + uppercase(service_type) + "_INTERFACE_"@;
    let fa = head + ident_chars(a);
    let fb = head + ident_chars(b);
    assert(fa.subrange(head.len() as int, fa.len() as int) =~= ident_chars(a));
    assert(fb.subrange(head.len() as int, fb.len() as int) =~= ident_chars(b));
    lemma_interface_name_ident_ready(a);
    lemma_interface_name_ident_ready(b);
    lemma_ident_decode(a);
    lemma_ident_decode(b);
}

/// The views of a list of strings.
pub open spec fn strings_view(v: Seq<String>) -> Seq<Seq<char>> {
    Seq::new(v.len(), |i: int| v[i]@)
}

/// The views of a list of optional strings.
pub open spec fn opt_strings_view(v: Seq<Option<String>>) -> Seq<Option<Seq<char>>> {
    Seq::new(v.len(), |i: int| match v[i] {
        Some(s) => Some(s@),
        None => None::<Seq<char>>,
    })
}

/// The keys present in `keys`, each once, in the order they first occur.
pub open spec fn first_occurrences(keys: Seq<Option<Seq<char>>>) -> Seq<Seq<char>>
    decreases keys.len(),
{
    if keys.len() == 0 {
        Seq::empty()
    } else {
        let before = first_occurrences(keys.drop_last());
        match keys.last() {
            Some(k) => if before.contains(k) {
                before
            } else {
                before.push(k)
            },
            None => before,
        }
    }
}

fn contains_str(v: &Vec<String>, s: &str) -> (r: bool)
    ensures
        r == strings_view(v@).contains(s@),
{
    let mut i: usize = 0;
    while i < v.len()
        invariant
            i <= v@.len(),
            forall|j: int| 0 <= j < i ==> v@[j]@ != s@,
        decreases v@.len() - i,
    {
        if crate::strings::str_eq(v[i].as_str(), s) {
            proof {
                assert(strings_view(v@)[i as int] == s@);
            }
            return true;
        }
        i = i + 1;
    }
    proof {
        if strings_view(v@).contains(s@) {
            let j = choose|j: int| 0 <= j < strings_view(v@).len() && strings_view(v@)[j] == s@;
            assert(v@[j]@ == s@);
        }
    }
    false
}

/// The distinct keys among `keys`, in the order they first occur, absent ones skipped: the
/// interfaces of a service's methods in the order they are met, and the variants of the reply
/// and error enums, a variant's index being its position here.
pub fn first_occurrence_order(keys: &Vec<Option<String>>) -> (r: Vec<String>)
    ensures
        strings_view(r@) == first_occurrences(opt_strings_view(keys@)),
{
    let mut out: Vec<String> = Vec::new();
    let mut i: usize = 0;
    while i < keys.len()
        invariant
            i <= keys@.len(),
            strings_view(out@) == first_occurrences(opt_strings_view(keys@).take(i as int)),
        decreases keys@.len() - i,
    {
        proof {
            assert(opt_strings_view(keys@).take(i + 1).drop_last() =~= opt_strings_view(keys@).take(i as int));
        }
        match &keys[i] {
            Some(k) => {
                if !contains_str(&out, k.as_str()) {
                    let ghost before = strings_view(out@);
                    out.push(k.clone());
                    proof {
                        assert(strings_view(out@) =~= before.push(k@));
                    }
                }
            },
            None => {},
        }
        i = i + 1;
    }
    proof {
        assert(opt_strings_view(keys@).take(i as int) =~= opt_strings_view(keys@));
    }
    out
}

/// The interfaces of a service's methods, each once, in the order they are first met.
pub fn collect_interfaces(method_interfaces: &Vec<Option<String>>) -> (r: Vec<String>)
    ensures
        strings_view(r@) == first_occurrences(opt_strings_view(method_interfaces@)),
{
    first_occurrence_order(method_interfaces)
}

/// The keys of the first-occurrence order are exactly the keys present, and none occurs twice:
/// every variant index is given to one key only.
pub proof fn lemma_first_occurrences(keys: Seq<Option<Seq<char>>>)
    ensures
        forall|a: int, b: int| 0 <= a < b < first_occurrences(keys).len()
            ==> first_occurrences(keys)[a] != first_occurrences(keys)[b],
        forall|k: Seq<char>| first_occurrences(keys).contains(k) <==> keys.contains(Some(k)),
    decreases keys.len(),
{
    if keys.len() > 0 {
        let rest = keys.drop_last();
        lemma_first_occurrences(rest);
        let before = first_occurrences(rest);
        assert forall|k: Seq<char>| first_occurrences(keys).contains(k) <==> keys.contains(Some(k)) by {
            if keys.contains(Some(k)) {
                let j = choose|j: int| 0 <= j < keys.len() && keys[j] == Some(k);
                if j < keys.len() - 1 {
                    assert(rest[j] == Some(k));
                    assert(rest.contains(Some(k)));
                }
            }
            if rest.contains(Some(k)) {
                let j = choose|j: int| 0 <= j < rest.len() && rest[j] == Some(k);
                assert(keys[j] == Some(k));
            }
            match keys.last() {
                Some(l) => {
                    if !before.contains(l) {
                        assert(before.push(l)[before.len() as int] == l);
                        if before.push(l).contains(k) && k != l {
                            let j = choose|j: int| 0 <= j < before.push(l).len() && before.push(l)[j] == k;
                            assert(before[j] == k);
                        }
                        if before.contains(k) {
                            let j = choose|j: int| 0 <= j < before.len() && before[j] == k;
                            assert(before.push(l)[j] == k);
                        }
                    }
                },
                None => {},
            }
        }
        match keys.last() {
            Some(l) => {
                if !before.contains(l) {
                    let r = before.push(l);
                    assert forall|a: int, b: int| 0 <= a < b < r.len() implies r[a] != r[b] by {
                        if b == r.len() - 1 {
                            assert(r[a] == before[a]);
                            if r[a] == r[b] {
                                assert(before.contains(l));
                            }
                        } else {
                            assert(r[a] == before[a] && r[b] == before[b]);
                        }
                    }
                }
            },
            None => {},
        }
    }
}

/// The positions of the methods that belong to `interface`, in the order they are declared.
pub open spec fn interface_method_indices(keys: Seq<Option<Seq<char>>>, interface: Seq<char>) -> Seq<int>
    decreases keys.len(),
{
    if keys.len() == 0 {
        Seq::empty()
    } else {
        let before = interface_method_indices(keys.drop_last(), interface);
        if keys.last() == Some(interface) {
            before.push(keys.len() - 1)
        } else {
            before
        }
    }
}

/// The methods described under `interface`: the positions, in declaration order, of the methods
/// whose interface it is.
pub fn interface_methods(method_interfaces: &Vec<Option<String>>, interface: &str) -> (r: Vec<usize>)
    ensures
        r@.map_values(|i: usize| i as int) == interface_method_indices(opt_strings_view(method_interfaces@), interface@),
{
    let ghost keys = opt_strings_view(method_interfaces@);
    let mut out: Vec<usize> = Vec::new();
    let mut i: usize = 0;
    while i < method_interfaces.len()
        invariant
            i <= method_interfaces@.len(),
            keys == opt_strings_view(method_interfaces@),
            out@.map_values(|k: usize| k as int) == interface_method_indices(keys.take(i as int), interface@),
        decreases method_interfaces@.len() - i,
    {
        proof {
            assert(keys.take(i + 1).drop_last() =~= keys.take(i as int));
            assert(keys.take(i + 1).last() == keys[i as int]);
        }
        let ghost before = out@;
        let belongs = match &method_interfaces[i] {
            Some(k) => crate::strings::str_eq(k.as_str(), interface),
            None => false,
        };
        if belongs {
            out.push(i);
            proof {
                assert(out@.map_values(|k: usize| k as int) =~= before.map_values(|k: usize| k as int).push(i as int));
            }
        }
        i = i + 1;
    }
    proof {
        assert(keys.take(i as int) =~= keys);
    }
    out
}

/// The interface the methods of a service impl belong to from a method on: the one its
/// `#[zlink(interface = "...")]` names, else the one in force before it.
pub fn next_interface(current: Option<String>, attr: Option<String>) -> (r: Option<String>)
    ensures
        r == (if attr is Some { attr } else { current }),
{
    match attr {
        Some(a) => Some(a),
        None => current,
    }
}

/// How many of `params` are marked `#[zlink(fds)]`.
pub open spec fn fds_count(params: Seq<ParamInfo>) -> nat
    decreases params.len(),
{
    if params.len() == 0 {
        0
    } else {
        fds_count(params.drop_last()) + if params.last().is_fds { 1nat } else { 0nat }
    }
}

/// The message refusing a method with more than one `#[zlink(fds)]` parameter.
pub open spec fn fds_message() -> Seq<char> {
    "at most one `#[zlink(fds)]` parameter is allowed per method"@
}

/// Checks that a method has at most one parameter taking file descriptors.
pub fn check_fds_params(params: &Vec<ParamInfo>) -> (r: Result<(), String>)
    ensures
        r is Ok <==> fds_count(params@) <= 1,
        r matches Err(m) ==> m@ == fds_message(),
{
    let mut count: usize = 0;
    let mut i: usize = 0;
    while i < params.len()
        invariant
            i <= params@.len(),
            count == (if fds_count(params@.take(i as int)) <= 2 { fds_count(params@.take(i as int)) } else { 2 }),
        decreases params@.len() - i,
    {
        proof {
            assert(params@.take(i + 1).drop_last() =~= params@.take(i as int));
        }
        if params[i].is_fds && count < 2 {
            count = count + 1;
        }
        i = i + 1;
    }
    proof {
        assert(params@.take(i as int) =~= params@);
    }
    if count > 1 {
        Err(String::from_str("at most one `#[zlink(fds)]` parameter is allowed per method"))
    } else {
        Ok(())
    }
}

/// The name of the interface every Varlink service implements.
pub open spec fn varlink_service_name() -> Seq<char> {
    "org.varlink.service"@
}

/// The interfaces a service lists in its `GetInfo` reply: its own, in order, then
/// `org.varlink.service`.
pub fn info_interfaces(declared: &Vec<String>) -> (r: Vec<String>)
    ensures
        strings_view(r@) == strings_view(declared@).push(varlink_service_name()),
{
    let mut out: Vec<String> = Vec::new();
    let mut i: usize = 0;
    while i < declared.len()
        invariant
            i <= declared@.len(),
            strings_view(out@) == strings_view(declared@).take(i as int),
        decreases declared@.len() - i,
    {
        let ghost before = strings_view(out@);
        let item = declared[i].clone();
        out.push(item);
        proof {
            assert(strings_view(out@) =~= before.push(declared@[i as int]@));
            assert(strings_view(declared@).take(i + 1) =~= strings_view(declared@).take(i as int).push(declared@[i as int]@));
        }
        i = i + 1;
    }
    out.push(String::from_str("org.varlink.service"));
    proof {
        assert(strings_view(declared@).take(i as int) =~= strings_view(declared@));
        assert(strings_view(out@) =~= strings_view(declared@).push(varlink_service_name()));
    }
    out
}

/// A service's metadata field in its `GetInfo` reply: the value given, else empty.
pub fn metadata_or_empty(value: Option<&str>) -> (r: String)
    ensures
        r@ == match value {
            Some(v) => v@,
            None => Seq::<char>::empty(),
        },
{
    match value {
        Some(v) => String::from_str(v),
        None => String::new(),
    }
}

/// Where the answer to `GetInterfaceDescription` comes from.
#[derive(Debug, Clone, Copy, PartialEq, Eq)]
pub enum DescriptionSource {
    /// The description of the declared interface at this position.
    Declared(usize),
    /// The description of `org.varlink.service` itself.
    VarlinkService,
    /// No such interface: answered with `InterfaceNotFound`.
    NotFound,
}

/// Which description answers a request for `requested`: the first declared interface of that
/// name, else `org.varlink.service` when that is the name asked for, else none.
pub fn description_source(declared: &Vec<String>, requested: &str) -> (r: DescriptionSource)
    ensures
        match r {
            DescriptionSource::Declared(i) => {
                &&& i < declared@.len()
                &&& declared@[i as int]@ == requested@
                &&& forall|j: int| 0 <= j < i ==> (#[trigger] declared@[j])@ != requested@
            },
            DescriptionSource::VarlinkService => {
                &&& !strings_view(declared@).contains(requested@)
                &&& requested@ == varlink_service_name()
            },
            DescriptionSource::NotFound => {
                &&& !strings_view(declared@).contains(requested@)
                &&& requested@ != varlink_service_name()
            },
        },
{
    let mut i: usize = 0;
    while i < declared.len()
        invariant
            i <= declared@.len(),
            forall|j: int| 0 <= j < i ==> (#[trigger] declared@[j])@ != requested@,
        decreases declared@.len() - i,
    {
        if crate::strings::str_eq(declared[i].as_str(), requested) {
            return DescriptionSource::Declared(i);
        }
        i = i + 1;
    }
    proof {
        if strings_view(declared@).contains(requested@) {
            let j = choose|j: int| 0 <= j < strings_view(declared@).len() && strings_view(declared@)[j] == requested@;
            assert(declared@[j]@ == requested@);
        }
    }
    if crate::strings::str_eq(requested, "org.varlink.service") {
        DescriptionSource::VarlinkService
    } else {
        DescriptionSource::NotFound
    }
}

/// Where the custom types described for an interface come from.
#[derive(Debug, Clone, Copy, PartialEq, Eq)]
pub enum TypesSource {
    /// The types its methods list for it.
    PerInterface,
    /// The types the service lists as a whole.
    Global,
    /// None at all.
    Nothing,
}

/// Where an interface's custom types come from: the types its methods list when there are any,
/// else the service-wide list when the service has this one interface only, else none.
pub fn types_source(per_interface_count: usize, interface_count: usize) -> (r: TypesSource)
    ensures
        per_interface_count > 0 ==> r == TypesSource::PerInterface,
        per_interface_count == 0 && interface_count == 1 ==> r == TypesSource::Global,
        per_interface_count == 0 && interface_count != 1 ==> r == TypesSource::Nothing,
{
    if per_interface_count > 0 {
        TypesSource::PerInterface
    } else if interface_count == 1 {
        TypesSource::Global
    } else {
        TypesSource::Nothing
    }
}

} // verus!
