//! How a Rust item's name becomes its Varlink name: case conventions, `r#` stripping, explicit
//! renames, and the grammar check that rejects names Varlink cannot express.
use vstd::prelude::*;
use vstd::string::{StringExecFns, StringSliceAdditionalSpecFns};
use vstd::utf8::encode_utf8;

use crate::names::grammar::{bytes_eq, is_field_name, is_interface_name, is_type_name};
use crate::names::{
    FromPattern, OwnedFieldName, OwnedInterfaceName, OwnedTypeName, FieldName, InterfaceName,
    TypeName,
};
use crate::strings::{chars_of, concat, push_char, str_eq, string_from_chars};

verus! {

/// `c` in upper case when it is an ASCII lowercase letter, else `c` itself.
pub open spec fn ascii_upper(c: char) -> char {
    if 'a' <= c <= 'z' {
        ((c as u32) - 32) as char
    } else {
        c
    }
}

/// `c` in lower case when it is an ASCII uppercase letter, else `c` itself.
pub open spec fn ascii_lower(c: char) -> char {
    if 'A' <= c <= 'Z' {
        ((c as u32) + 32) as char
    } else {
        c
    }
}

pub open spec fn upper_all(s: Seq<char>) -> Seq<char> {
    s.map_values(|c: char| ascii_upper(c))
}

pub open spec fn lower_all(s: Seq<char>) -> Seq<char> {
    s.map_values(|c: char| ascii_lower(c))
}

/// Every `from` in `s` replaced by `to`.
pub open spec fn replace_char(s: Seq<char>, from: char, to: char) -> Seq<char> {
    s.map_values(|c: char| if c == from { to } else { c })
}

/// `snake_case` to `PascalCase`: underscores dropped, the first character and every character
/// after an underscore upper-cased. `capitalize` says whether the next character starts a word.
pub open spec fn pascal_from(s: Seq<char>, capitalize: bool) -> Seq<char>
    decreases s.len(),
{
    if s.len() == 0 {
        Seq::empty()
    } else if s[0] == '_' {
        pascal_from(s.drop_first(), true)
    } else if capitalize {
        seq![ascii_upper(s[0])] + pascal_from(s.drop_first(), false)
    } else {
        seq![s[0]] + pascal_from(s.drop_first(), false)
    }
}

/// The first character lower-cased, when it is a single-byte (ASCII) character.
pub open spec fn lower_first(s: Seq<char>) -> Seq<char> {
    if s.len() > 0 && (s[0] as u32) < 128 {
        s.update(0, ascii_lower(s[0]))
    } else {
        s
    }
}

/// The Unicode `Uppercase` property of `c`, as `char::is_uppercase` reports it.
pub uninterp spec fn char_is_uppercase(c: char) -> bool;

/// Whether `c` opens a new word in a `PascalCase` name: ASCII `A`-`Z`, or a non-ASCII character
/// with the Unicode `Uppercase` property.
pub open spec fn starts_word(c: char) -> bool {
    if (c as u32) < 128 {
        'A' <= c <= 'Z'
    } else {
        char_is_uppercase(c)
    }
}

/// `PascalCase` to `snake_case`: an underscore before every word start but the first character,
/// and every ASCII letter lower-cased.
pub open spec fn snake_of(s: Seq<char>) -> Seq<char>
    decreases s.len(),
{
    if s.len() == 0 {
        Seq::empty()
    } else {
        let i = s.len() - 1;
        let c = s[i];
        snake_of(s.drop_last()) + (if i > 0 && starts_word(c) {
            seq!['_', ascii_lower(c)]
        } else {
            seq![ascii_lower(c)]
        })
    }
}

/// The case convention requested by `#[zlink(rename_all = "...")]`.
///
/// The variants mirror serde's rename rules. The field and variant rules differ because the
/// source convention differs: fields are `snake_case`, variants are `PascalCase`.
#[derive(Debug, Clone, Copy, PartialEq, Eq, Structural)]
pub enum RenameAll {
    Lower,
    Upper,
    Pascal,
    Camel,
    Snake,
    ScreamingSnake,
    Kebab,
    ScreamingKebab,
}

/// The convention applied to a field name, whose source convention is `snake_case`.
pub open spec fn field_convention(rule: RenameAll, s: Seq<char>) -> Seq<char> {
    match rule {
        RenameAll::Lower | RenameAll::Snake => s,
        RenameAll::Upper | RenameAll::ScreamingSnake => upper_all(s),
        RenameAll::Pascal => pascal_from(s, true),
        RenameAll::Camel => lower_first(pascal_from(s, true)),
        RenameAll::Kebab => replace_char(s, '_', '-'),
        RenameAll::ScreamingKebab => replace_char(upper_all(s), '_', '-'),
    }
}

/// The convention applied to an enum variant name, whose source convention is `PascalCase`.
pub open spec fn variant_convention(rule: RenameAll, s: Seq<char>) -> Seq<char> {
    match rule {
        RenameAll::Pascal => s,
        RenameAll::Lower => lower_all(s),
        RenameAll::Upper => upper_all(s),
        RenameAll::Camel => lower_first(s),
        RenameAll::Snake => snake_of(s),
        RenameAll::ScreamingSnake => upper_all(snake_of(s)),
        RenameAll::Kebab => replace_char(snake_of(s), '_', '-'),
        RenameAll::ScreamingKebab => replace_char(upper_all(snake_of(s)), '_', '-'),
    }
}

pub(crate) fn upper_char(c: char) -> (r: char)
    ensures
        r == ascii_upper(c),
{
    if 'a' <= c && c <= 'z' {
        ((c as u8) - 32) as char
    } else {
        c
    }
}

fn lower_char(c: char) -> (r: char)
    ensures
        r == ascii_lower(c),
{
    if 'A' <= c && c <= 'Z' {
        ((c as u8) + 32) as char
    } else {
        c
    }
}

/// Whether `c` has the Unicode `Uppercase` property.
///
/// Wraps `char::is_uppercase`; the contract only names its result.
#[verifier::external_body]
fn is_uppercase_char(c: char) -> (r: bool)
    ensures
        r == char_is_uppercase(c),
{
    c.is_uppercase()
}

fn is_word_start(c: char) -> (r: bool)
    ensures
        r == starts_word(c),
{
    if (c as u32) < 128 {
        'A' <= c && c <= 'Z'
    } else {
        is_uppercase_char(c)
    }
}

fn map_upper(s: &Vec<char>) -> (r: Vec<char>)
    ensures
        r@ == upper_all(s@),
{
    let mut out: Vec<char> = Vec::new();
    let mut i: usize = 0;
    while i < s.len()
        invariant
            i <= s@.len(),
            out@ == upper_all(s@.take(i as int)),
        decreases s@.len() - i,
    {
        out.push(upper_char(s[i]));
        i += 1;
        assert(out@ =~= upper_all(s@.take(i as int)));
    }
    assert(s@.take(s@.len() as int) =~= s@);
    out
}

fn map_lower(s: &Vec<char>) -> (r: Vec<char>)
    ensures
        r@ == lower_all(s@),
{
    let mut out: Vec<char> = Vec::new();
    let mut i: usize = 0;
    while i < s.len()
        invariant
            i <= s@.len(),
            out@ == lower_all(s@.take(i as int)),
        decreases s@.len() - i,
    {
        out.push(lower_char(s[i]));
        i += 1;
        assert(out@ =~= lower_all(s@.take(i as int)));
    }
    assert(s@.take(s@.len() as int) =~= s@);
    out
}

pub(crate) fn map_replace(s: &Vec<char>, from: char, to: char) -> (r: Vec<char>)
    ensures
        r@ == replace_char(s@, from, to),
{
    let mut out: Vec<char> = Vec::new();
    let mut i: usize = 0;
    while i < s.len()
        invariant
            i <= s@.len(),
            out@ == replace_char(s@.take(i as int), from, to),
        decreases s@.len() - i,
    {
        let c = s[i];
        out.push(if c == from { to } else { c });
        i += 1;
        assert(out@ =~= replace_char(s@.take(i as int), from, to));
    }
    assert(s@.take(s@.len() as int) =~= s@);
    out
}

fn to_pascal(s: &Vec<char>) -> (r: Vec<char>)
    ensures
        r@ == pascal_from(s@, true),
{
    let mut out: Vec<char> = Vec::new();
    let mut capitalize = true;
    let mut i: usize = 0;
    assert(s@.skip(0) =~= s@);
    assert(out@ + pascal_from(s@, true) =~= pascal_from(s@, true));
    while i < s.len()
        invariant
            i <= s@.len(),
            out@ + pascal_from(s@.skip(i as int), capitalize) == pascal_from(s@, true),
        decreases s@.len() - i,
    {
        let ghost rest = s@.skip(i as int);
        assert(rest.drop_first() =~= s@.skip(i + 1));
        let c = s[i];
        if c == '_' {
            capitalize = true;
        } else if capitalize {
            out.push(upper_char(c));
            capitalize = false;
        } else {
            out.push(c);
        }
        i += 1;
        assert(out@ + pascal_from(s@.skip(i as int), capitalize) =~= pascal_from(s@, true));
    }
    assert(pascal_from(s@.skip(s@.len() as int), capitalize) =~= Seq::<char>::empty());
    assert(out@ + Seq::<char>::empty() =~= out@);
    out
}

fn to_lower_first(s: Vec<char>) -> (r: Vec<char>)
    ensures
        r@ == lower_first(s@),
{
    let mut s = s;
    if s.len() > 0 && (s[0] as u32) < 128 {
        let c = lower_char(s[0]);
        s.set(0, c);
    }
    s
}

fn to_snake(s: &Vec<char>) -> (r: Vec<char>)
    ensures
        r@ == snake_of(s@),
{
    let mut out: Vec<char> = Vec::new();
    let mut i: usize = 0;
    while i < s.len()
        invariant
            i <= s@.len(),
            out@ == snake_of(s@.take(i as int)),
        decreases s@.len() - i,
    {
        let c = s[i];
        if i > 0 && is_word_start(c) {
            out.push('_');
        }
        out.push(lower_char(c));
        assert(s@.take(i + 1).drop_last() =~= s@.take(i as int));
        i += 1;
        assert(out@ =~= snake_of(s@.take(i as int)));
    }
    assert(s@.take(s@.len() as int) =~= s@);
    out
}

impl RenameAll {
    /// Apply the convention to a struct field name, whose source convention is `snake_case`.
    pub fn apply_to_field(self, field: &str) -> (r: String)
        ensures
            r@ == field_convention(self, field@),
    {
        let cs = chars_of(field);
        let out = match self {
            RenameAll::Lower | RenameAll::Snake => cs,
            RenameAll::Upper | RenameAll::ScreamingSnake => map_upper(&cs),
            RenameAll::Pascal => to_pascal(&cs),
            RenameAll::Camel => to_lower_first(to_pascal(&cs)),
            RenameAll::Kebab => map_replace(&cs, '_', '-'),
            RenameAll::ScreamingKebab => map_replace(&map_upper(&cs), '_', '-'),
        };
        string_from_chars(&out)
    }

    /// Apply the convention to an enum variant name, whose source convention is `PascalCase`.
    pub fn apply_to_variant(self, variant: &str) -> (r: String)
        ensures
            r@ == variant_convention(self, variant@),
    {
        let cs = chars_of(variant);
        let out = match self {
            RenameAll::Pascal => cs,
            RenameAll::Lower => map_lower(&cs),
            RenameAll::Upper => map_upper(&cs),
            RenameAll::Camel => to_lower_first(cs),
            RenameAll::Snake => to_snake(&cs),
            RenameAll::ScreamingSnake => map_upper(&to_snake(&cs)),
            RenameAll::Kebab => map_replace(&to_snake(&cs), '_', '-'),
            RenameAll::ScreamingKebab => map_replace(&map_upper(&to_snake(&cs)), '_', '-'),
        };
        string_from_chars(&out)
    }
}

/// The spelling of a convention in `#[zlink(rename_all = "...")]`.
pub open spec fn rule_text(rule: RenameAll) -> Seq<char> {
    match rule {
        RenameAll::Lower => "lowercase"@,
        RenameAll::Upper => "UPPERCASE"@,
        RenameAll::Pascal => "PascalCase"@,
        RenameAll::Camel => "camelCase"@,
        RenameAll::Snake => "snake_case"@,
        RenameAll::ScreamingSnake => "SCREAMING_SNAKE_CASE"@,
        RenameAll::Kebab => "kebab-case"@,
        RenameAll::ScreamingKebab => "SCREAMING-KEBAB-CASE"@,
    }
}

/// The message for a `rename_all` value that names no known convention.
pub open spec fn unknown_rule_message(value: Seq<char>) -> Seq<char> {
    "`"@ + value + "` is not a known case convention, expected one of: lowercase, UPPERCASE, PascalCase, camelCase, snake_case, SCREAMING_SNAKE_CASE, kebab-case, SCREAMING-KEBAB-CASE"@
}

/// A name that Varlink cannot express, or an attribute value that makes no sense.
#[derive(Debug, Clone, PartialEq, Eq)]
pub struct NameError {
    message: String,
}

impl View for NameError {
    type V = Seq<char>;

    closed spec fn view(&self) -> Seq<char> {
        self.message@
    }
}

impl NameError {
    fn new(message: String) -> (r: Self)
        ensures
            r@ == message@,
    {
        NameError { message }
    }

    /// The human-readable description of what was rejected.
    pub fn message(&self) -> (r: &str)
        ensures
            r@ == self@,
    {
        self.message.as_str()
    }
}

impl RenameAll {
    /// The convention spelled `value`, as written in `#[zlink(rename_all = "...")]`.
    pub fn parse(value: &str) -> (r: Result<RenameAll, NameError>)
        ensures
            r matches Ok(rule) ==> rule_text(rule) == value@,
            r is Err ==> forall|rule: RenameAll| rule_text(rule) != value@,
            r matches Err(e) ==> e@ == unknown_rule_message(value@),
    {
        if str_eq(value, "lowercase") {
            Ok(RenameAll::Lower)
        } else if str_eq(value, "UPPERCASE") {
            Ok(RenameAll::Upper)
        } else if str_eq(value, "PascalCase") {
            Ok(RenameAll::Pascal)
        } else if str_eq(value, "camelCase") {
            Ok(RenameAll::Camel)
        } else if str_eq(value, "snake_case") {
            Ok(RenameAll::Snake)
        } else if str_eq(value, "SCREAMING_SNAKE_CASE") {
            Ok(RenameAll::ScreamingSnake)
        } else if str_eq(value, "kebab-case") {
            Ok(RenameAll::Kebab)
        } else if str_eq(value, "SCREAMING-KEBAB-CASE") {
            Ok(RenameAll::ScreamingKebab)
        } else {
            let mut msg = String::from_str("`");
            msg.append(value);
            msg.append(
                "` is not a known case convention, expected one of: lowercase, UPPERCASE, PascalCase, camelCase, snake_case, SCREAMING_SNAKE_CASE, kebab-case, SCREAMING-KEBAB-CASE",
            );
            Err(NameError::new(msg))
        }
    }
}

/// A Rust identifier without its raw-identifier prefix `r#`, if it has one.
pub open spec fn unraw_spec(ident: Seq<char>) -> Seq<char> {
    if ident.len() >= 2 && ident[0] == 'r' && ident[1] == '#' {
        ident.skip(2)
    } else {
        ident
    }
}

/// The unraw'd name of an ident: its leading `r#`, if any, stripped off.
///
/// `r#` (e.g. `r#type`) is Rust syntax that lets a keyword be used as an identifier; it is never
/// part of the name itself, so it must not leak into the IDL or onto the wire.
pub fn unraw(ident: &str) -> (r: String)
    ensures
        r@ == unraw_spec(ident@),
{
    let cs = chars_of(ident);
    if cs.len() >= 2 && cs[0] == 'r' && cs[1] == '#' {
        let mut out: Vec<char> = Vec::new();
        let mut i: usize = 2;
        while i < cs.len()
            invariant
                2 <= i <= cs@.len(),
                out@ == cs@.subrange(2, i as int),
            decreases cs@.len() - i,
        {
            out.push(cs[i]);
            i += 1;
            assert(out@ =~= cs@.subrange(2, i as int));
        }
        string_from_chars(&out)
    } else {
        string_from_chars(&cs)
    }
}

/// Which source convention a `rename_all` rule is applied from.
#[derive(Debug, Clone, Copy, PartialEq, Eq, Structural)]
pub enum Convention {
    /// Struct fields and parameters, written in `snake_case`.
    Field,
    /// Enum variants and errors, written in `PascalCase`.
    Variant,
}

pub open spec fn apply_convention(conv: Convention, rule: RenameAll, s: Seq<char>) -> Seq<char> {
    match conv {
        Convention::Field => field_convention(rule, s),
        Convention::Variant => variant_convention(rule, s),
    }
}

/// The name an item carries: an explicit `rename` verbatim, else the unraw'd ident with the
/// inherited `rename_all` convention applied, if any.
pub open spec fn resolved_name(rename: Option<Seq<char>>, ident: Seq<char>, rule: Option<RenameAll>, conv: Convention) -> Seq<char> {
    match rename {
        Some(r) => r,
        None => match rule {
            Some(rule) => apply_convention(conv, rule, unraw_spec(ident)),
            None => unraw_spec(ident),
        },
    }
}

pub open spec fn opt_view(o: Option<&str>) -> Option<Seq<char>> {
    match o {
        Some(s) => Some(s@),
        None => None,
    }
}

/// The message rejecting `name` as a Varlink `what` that must match `pattern`; only a name taken
/// from an ident carries the hint to rename it.
pub open spec fn validation_message(name: Seq<char>, what: Seq<char>, pattern: Seq<char>, from_rename: bool) -> Seq<char> {
    "`"@ + name + "` is not a valid Varlink "@ + what + ": it must match `"@ + pattern + "`"@ + (
    if from_rename {
        Seq::empty()
    } else {
        ", so name it explicitly with `#[zlink(rename = \"...\")]`"@
    })
}

pub(crate) fn validation_error(name: &str, what: &str, pattern: &str, from_rename: bool) -> (r: NameError)
    ensures
        r@ == validation_message(name@, what@, pattern@, from_rename),
{
    let mut msg = String::from_str("`");
    msg.append(name);
    msg.append("` is not a valid Varlink ");
    msg.append(what);
    msg.append(": it must match `");
    msg.append(pattern);
    msg.append("`");
    if !from_rename {
        msg.append(", so name it explicitly with `#[zlink(rename = \"...\")]`");
    } else {
        assert(msg@ + Seq::<char>::empty() =~= msg@);
    }
    NameError::new(msg)
}

fn resolve(rename: Option<&str>, ident: &str, rename_all: Option<RenameAll>, conv: Convention) -> (r: String)
    ensures
        r@ == resolved_name(opt_view(rename), ident@, rename_all, conv),
{
    match rename {
        Some(name) => String::from_str(name),
        None => {
            let unrawed = unraw(ident);
            match rename_all {
                Some(rule) => match conv {
                    Convention::Field => rule.apply_to_field(unrawed.as_str()),
                    Convention::Variant => rule.apply_to_variant(unrawed.as_str()),
                },
                None => unrawed,
            }
        },
    }
}

/// The name a struct field should carry in the IDL and on the wire.
///
/// `#[zlink(rename)]` wins over an inherited `rename_all`, which wins over the Rust ident.
pub fn field_name(rename: Option<&str>, ident: &str, rename_all: Option<RenameAll>) -> (r: Result<OwnedFieldName, NameError>)
    ensures
        ({
            let name = resolved_name(opt_view(rename), ident@, rename_all, Convention::Field);
            &&& r is Ok <==> is_field_name(encode_utf8(name))
            &&& r matches Ok(n) ==> n@ == name
            &&& r matches Err(e) ==> e@ == validation_message(name, "field name"@, FieldName::spec_pattern(), rename is Some)
        }),
{
    let name = resolve(rename, ident, rename_all, Convention::Field);
    match OwnedFieldName::try_from(name.as_str()) {
        Ok(n) => Ok(n),
        Err(_) => Err(validation_error(name.as_str(), "field name", FieldName::from_pattern(), rename.is_some())),
    }
}

/// The name an enum variant should carry in the IDL and on the wire.
///
/// Enum variants obey the field grammar. `#[zlink(rename)]` wins over an inherited `rename_all`,
/// which wins over the Rust ident.
pub fn enum_variant_name(rename: Option<&str>, ident: &str, rename_all: Option<RenameAll>) -> (r: Result<OwnedFieldName, NameError>)
    ensures
        ({
            let name = resolved_name(opt_view(rename), ident@, rename_all, Convention::Variant);
            &&& r is Ok <==> is_field_name(encode_utf8(name))
            &&& r matches Ok(n) ==> n@ == name
            &&& r matches Err(e) ==> e@ == validation_message(name, "enum variant name"@, FieldName::spec_pattern(), rename is Some)
        }),
{
    let name = resolve(rename, ident, rename_all, Convention::Variant);
    match OwnedFieldName::try_from(name.as_str()) {
        Ok(n) => Ok(n),
        Err(_) => Err(validation_error(name.as_str(), "enum variant name", FieldName::from_pattern(), rename.is_some())),
    }
}

/// The name an error variant should carry in the IDL and on the wire.
///
/// Errors obey the type grammar. `#[zlink(rename)]` wins over an inherited `rename_all`, which
/// wins over the Rust ident.
pub fn error_name(rename: Option<&str>, ident: &str, rename_all: Option<RenameAll>) -> (r: Result<OwnedTypeName, NameError>)
    ensures
        ({
            let name = resolved_name(opt_view(rename), ident@, rename_all, Convention::Variant);
            &&& r is Ok <==> is_type_name(encode_utf8(name))
            &&& r matches Ok(n) ==> n@ == name
            &&& r matches Err(e) ==> e@ == validation_message(name, "error name"@, TypeName::spec_pattern(), rename is Some)
        }),
{
    let name = resolve(rename, ident, rename_all, Convention::Variant);
    match OwnedTypeName::try_from(name.as_str()) {
        Ok(n) => Ok(n),
        Err(_) => Err(validation_error(name.as_str(), "error name", TypeName::from_pattern(), rename.is_some())),
    }
}

/// The message rejecting an interface name.
pub open spec fn interface_message(name: Seq<char>) -> Seq<char> {
    "`"@ + name + "` is not a valid Varlink interface name: it must be in reverse-domain notation, e.g. `org.example.Foo`"@
}

/// Reject an interface name Varlink cannot express.
pub fn validate_interface(name: &str) -> (r: Result<OwnedInterfaceName, NameError>)
    ensures
        r is Ok <==> is_interface_name(name.spec_bytes()),
        r matches Ok(n) ==> n@ == name@,
        r matches Err(e) ==> e@ == interface_message(name@),
{
    match OwnedInterfaceName::try_from(name) {
        Ok(n) => Ok(n),
        Err(_) => {
            let mut msg = String::from_str("`");
            msg.append(name);
            msg.append(
                "` is not a valid Varlink interface name: it must be in reverse-domain notation, e.g. `org.example.Foo`",
            );
            Err(NameError::new(msg))
        },
    }
}

/// Reject a container-level `#[zlink(rename)]` with `msg`, for items where it means nothing.
pub fn reject_container_rename(rename: Option<&str>, msg: &str) -> (r: Result<(), NameError>)
    ensures
        r is Ok <==> rename is None,
        r matches Err(e) ==> e@ == msg@,
{
    match rename {
        Some(_) => Err(NameError::new(String::from_str(msg))),
        None => Ok(()),
    }
}

/// The message refusing a convention that can never produce a name in `pattern`'s grammar.
pub open spec fn never_fits_message(value: Seq<char>, pattern: Seq<char>) -> Seq<char> {
    "`"@ + value + "` can never produce a name matching the Varlink grammar `"@ + pattern + "`, so it cannot apply here. Drop `rename_all`, use a convention that fits (e.g. `UPPERCASE` or `PascalCase`), or name items individually with `#[zlink(rename = \"...\")]`"@
}

/// Which grammar a container's `rename_all` is checked against.
pub open spec fn rule_fits(rule: RenameAll, for_type: bool) -> bool {
    let probe = variant_convention(rule, "Word"@);
    if for_type {
        is_type_name(encode_utf8(probe))
    } else {
        is_field_name(encode_utf8(probe))
    }
}

/// The outcome of checking a container's `rename_all` value.
pub open spec fn rename_all_outcome(value: Option<Seq<char>>, for_type: bool, r: Result<Option<RenameAll>, NameError>) -> bool {
    match value {
        None => r == Ok::<Option<RenameAll>, NameError>(None),
        Some(v) => match r {
            Ok(Some(rule)) => rule_text(rule) == v && rule_fits(rule, for_type),
            Ok(None) => false,
            Err(e) => {
                ||| (forall|rule: RenameAll| rule_text(rule) != v) && e@ == unknown_rule_message(v)
                ||| exists|rule: RenameAll| rule_text(rule) == v && !rule_fits(rule, for_type)
                    && e@ == never_fits_message(v, if for_type { TypeName::spec_pattern() } else { FieldName::spec_pattern() })
            },
        },
    }
}

proof fn lemma_word_probes(rule: RenameAll)
    ensures
        variant_convention(rule, "Word"@) == (match rule {
            RenameAll::Pascal => seq!['W', 'o', 'r', 'd'],
            RenameAll::Upper | RenameAll::ScreamingSnake | RenameAll::ScreamingKebab => seq!['W', 'O', 'R', 'D'],
            _ => seq!['w', 'o', 'r', 'd'],
        }),
{
    reveal_strlit("Word");
    let w = "Word"@;
    assert(w =~= seq!['W', 'o', 'r', 'd']);
    assert(ascii_lower('W') == 'w') by {
        assert((('W' as u32) + 32) as char == 'w');
    }
    assert(ascii_upper('o') == 'O');
    assert(ascii_upper('r') == 'R');
    assert(ascii_upper('d') == 'D');
    let lower = seq!['w', 'o', 'r', 'd'];
    let upper = seq!['W', 'O', 'R', 'D'];
    assert(lower_all(w) =~= lower);
    assert(upper_all(w) =~= upper);
    assert(lower_first(w) =~= lower);
    assert(snake_of(w) =~= lower) by {
        reveal_with_fuel(snake_of, 5);
        assert(w.drop_last() =~= seq!['W', 'o', 'r']);
        assert(w.drop_last().drop_last() =~= seq!['W', 'o']);
        assert(w.drop_last().drop_last().drop_last() =~= seq!['W']);
        assert(w.drop_last().drop_last().drop_last().drop_last() =~= Seq::<char>::empty());
    }
    assert(upper_all(lower) =~= upper);
    assert(replace_char(lower, '_', '-') =~= lower);
    assert(replace_char(upper, '_', '-') =~= upper);
}

proof fn lemma_ascii_word_bytes(cs: Seq<char>)
    requires
        cs.len() == 4,
        forall|i: int| 0 <= i < 4 ==> ('a' <= #[trigger] cs[i] <= 'z' || 'A' <= cs[i] <= 'Z'),
    ensures
        encode_utf8(cs).len() == 4,
        forall|i: int| 0 <= i < 4 ==> #[trigger] encode_utf8(cs)[i] == cs[i] as u8,
{
    assert(vstd::utf8::is_ascii_chars(cs));
    vstd::utf8::is_ascii_chars_encode_utf8(cs);
}

/// The bytes of the probe word under `rule`: four letters, the first as [`lemma_word_probes`]
/// gives it.
proof fn lemma_probe_bytes(rule: RenameAll)
    ensures
        ({
            let p = variant_convention(rule, "Word"@);
            let b = encode_utf8(p);
            &&& b.len() == 4
            &&& forall|i: int| 0 <= i < b.len() ==> crate::names::grammar::is_alnum(#[trigger] b[i])
            &&& b[0] == p[0] as u8
        }),
{
    lemma_word_probes(rule);
    let p = variant_convention(rule, "Word"@);
    lemma_ascii_word_bytes(p);
    let b = encode_utf8(p);
    assert forall|i: int| 0 <= i < b.len() implies crate::names::grammar::is_alnum(#[trigger] b[i]) by {
        assert(b[i] == p[i] as u8);
    }
    assert(b[0] == p[0] as u8);
}

/// Every known convention can produce a field name: the field grammar admits a lowercase first
/// letter, so no `rename_all` value is refused for fields, enum variants or parameters.
pub proof fn lemma_every_rule_fits_field_grammar(rule: RenameAll)
    ensures
        rule_fits(rule, false),
{
    lemma_word_probes(rule);
    lemma_probe_bytes(rule);
}

/// The type grammar is met only by the conventions that keep the first letter upper case:
/// `UPPERCASE`, `PascalCase`, `SCREAMING_SNAKE_CASE` and `SCREAMING-KEBAB-CASE`.
pub proof fn lemma_rules_fitting_type_grammar(rule: RenameAll)
    ensures
        rule_fits(rule, true) <==> (rule is Upper || rule is Pascal || rule is ScreamingSnake || rule is ScreamingKebab),
{
    lemma_word_probes(rule);
    lemma_probe_bytes(rule);
}

/// An ASCII lowercase letter.
pub open spec fn is_lower_letter(c: char) -> bool {
    'a' <= c <= 'z'
}

/// The characters after a `snake_case` name's first: lowercase letters, digits and underscores,
/// each underscore followed by a lowercase letter.
pub open spec fn is_snake_body(x: Seq<char>) -> bool {
    &&& forall|i: int| 0 <= i < x.len() ==> is_lower_letter(#[trigger] x[i]) || ('0' <= x[i] <= '9') || x[i] == '_'
    &&& forall|i: int| 0 <= i < x.len() && #[trigger] x[i] == '_' ==> i + 1 < x.len() && is_lower_letter(x[i + 1])
}

/// A `snake_case` name: words of lowercase letters and digits, each starting with a letter,
/// joined by single underscores.
pub open spec fn is_snake_case(f: Seq<char>) -> bool {
    &&& f.len() > 0
    &&& is_lower_letter(f[0])
    &&& is_snake_body(f)
}

/// What `snake_case` makes of a character after the first: an underscore before a word start,
/// and the character in lower case.
pub open spec fn snake_piece(c: char) -> Seq<char> {
    if starts_word(c) {
        seq!['_', ascii_lower(c)]
    } else {
        seq![ascii_lower(c)]
    }
}

pub open spec fn snake_pieces(s: Seq<char>) -> Seq<char>
    decreases s.len(),
{
    if s.len() == 0 {
        Seq::empty()
    } else {
        snake_pieces(s.drop_last()) + snake_piece(s.last())
    }
}

proof fn lemma_snake_pieces_concat(x: Seq<char>, y: Seq<char>)
    ensures
        snake_pieces(x + y) == snake_pieces(x) + snake_pieces(y),
    decreases y.len(),
{
    if y.len() == 0 {
        assert(x + y =~= x);
        assert(snake_pieces(x) + snake_pieces(y) =~= snake_pieces(x));
    } else {
        assert((x + y).drop_last() =~= x + y.drop_last());
        lemma_snake_pieces_concat(x, y.drop_last());
        assert(snake_pieces(x + y) =~= snake_pieces(x) + snake_pieces(y));
    }
}

proof fn lemma_snake_pieces_front(c: char, r: Seq<char>)
    ensures
        snake_pieces(seq![c] + r) == snake_piece(c) + snake_pieces(r),
{
    lemma_snake_pieces_concat(seq![c], r);
    assert(seq![c].drop_last() =~= Seq::<char>::empty());
    assert(snake_pieces(seq![c]) == snake_pieces(seq![c].drop_last()) + snake_piece(seq![c].last()));
    assert(snake_pieces(seq![c]) =~= snake_piece(c));
}

proof fn lemma_snake_of_front(s: Seq<char>)
    requires
        s.len() > 0,
    ensures
        snake_of(s) == seq![ascii_lower(s[0])] + snake_pieces(s.drop_first()),
    decreases s.len(),
{
    if s.len() == 1 {
        assert(s.drop_last() =~= Seq::<char>::empty());
        assert(s.drop_first() =~= Seq::<char>::empty());
        assert(snake_of(s.drop_last()) =~= Seq::<char>::empty());
        assert(snake_pieces(s.drop_first()) =~= Seq::<char>::empty());
        assert(snake_of(s) =~= seq![ascii_lower(s[0])]);
    } else {
        let d = s.drop_last();
        lemma_snake_of_front(d);
        assert(d.drop_first() =~= s.drop_first().drop_last());
        assert(s.drop_first().last() == s.last());
        assert(snake_of(s) =~= seq![ascii_lower(s[0])] + snake_pieces(s.drop_first()));
    }
}

proof fn lemma_plain_char(c: char)
    requires
        is_lower_letter(c) || ('0' <= c <= '9'),
    ensures
        snake_piece(c) == seq![c],
        ascii_lower(c) == c,
        c != '_',
{
}

proof fn lemma_capital_char(c: char)
    requires
        is_lower_letter(c),
    ensures
        snake_piece(ascii_upper(c)) == seq!['_', c],
        ascii_lower(ascii_upper(c)) == c,
{
}

proof fn lemma_snake_body_undoes_pascal(x: Seq<char>)
    requires
        is_snake_body(x),
    ensures
        snake_pieces(pascal_from(x, false)) == x,
    decreases x.len(),
{
    if x.len() > 0 {
        if x[0] == '_' {
            let y = x.subrange(2, x.len() as int);
            assert(is_snake_body(y)) by {
                assert forall|i: int| 0 <= i < y.len() implies is_lower_letter(#[trigger] y[i]) || ('0' <= y[i] <= '9') || y[i] == '_' by {
                    assert(y[i] == x[i + 2]);
                }
                assert forall|i: int| 0 <= i < y.len() && #[trigger] y[i] == '_' implies i + 1 < y.len() && is_lower_letter(y[i + 1]) by {
                    assert(y[i] == x[i + 2]);
                    assert(y[i + 1] == x[i + 3]);
                }
            }
            lemma_snake_body_undoes_pascal(y);
            let c = x[1];
            assert(is_lower_letter(c));
            lemma_plain_char(c);
            assert(x.drop_first()[0] == c);
            assert(x.drop_first().drop_first() =~= y);
            assert(pascal_from(x, false) == pascal_from(x.drop_first(), true));
            assert(pascal_from(x.drop_first(), true) == seq![ascii_upper(c)] + pascal_from(y, false));
            lemma_snake_pieces_front(ascii_upper(c), pascal_from(y, false));
            lemma_capital_char(c);
            assert(x =~= seq!['_', c] + y);
        } else {
            let y = x.drop_first();
            assert(is_snake_body(y)) by {
                assert forall|i: int| 0 <= i < y.len() implies is_lower_letter(#[trigger] y[i]) || ('0' <= y[i] <= '9') || y[i] == '_' by {
                    assert(y[i] == x[i + 1]);
                }
                assert forall|i: int| 0 <= i < y.len() && #[trigger] y[i] == '_' implies i + 1 < y.len() && is_lower_letter(y[i + 1]) by {
                    assert(y[i] == x[i + 1]);
                    assert(y[i + 1] == x[i + 2]);
                }
            }
            lemma_snake_body_undoes_pascal(y);
            assert(is_lower_letter(x[0]) || ('0' <= x[0] <= '9'));
            lemma_plain_char(x[0]);
            assert(pascal_from(x, false) == seq![x[0]] + pascal_from(y, false));
            lemma_snake_pieces_front(x[0], pascal_from(y, false));
            assert(x =~= seq![x[0]] + y);
        }
    }
}

/// `snake_case` on a variant undoes `PascalCase` on a field: a `snake_case` field name put in
/// `PascalCase` and then read as a variant name in `snake_case` is the field name again.
pub proof fn lemma_snake_undoes_pascal(f: Seq<char>)
    requires
        is_snake_case(f),
    ensures
        variant_convention(RenameAll::Snake, field_convention(RenameAll::Pascal, f)) == f,
{
    let y = f.drop_first();
    assert(is_snake_body(y)) by {
        assert forall|i: int| 0 <= i < y.len() implies is_lower_letter(#[trigger] y[i]) || ('0' <= y[i] <= '9') || y[i] == '_' by {
            assert(y[i] == f[i + 1]);
        }
        assert forall|i: int| 0 <= i < y.len() && #[trigger] y[i] == '_' implies i + 1 < y.len() && is_lower_letter(y[i + 1]) by {
            assert(y[i] == f[i + 1]);
            assert(y[i + 1] == f[i + 2]);
        }
    }
    lemma_snake_body_undoes_pascal(y);
    let g = pascal_from(f, true);
    assert(g == seq![ascii_upper(f[0])] + pascal_from(y, false));
    lemma_snake_of_front(g);
    lemma_capital_char(f[0]);
    assert(g.drop_first() =~= pascal_from(y, false));
    assert(f =~= seq![f[0]] + y);
}

/// The container's `#[zlink(rename_all = "...")]`, if any, checked against the grammar picked by
/// the terminal method called.
pub struct RenameAllParser {
    value: Option<String>,
}

impl RenameAllParser {
    pub closed spec fn spec_value(&self) -> Option<Seq<char>> {
        match self.value {
            Some(v) => Some(v@),
            None => None,
        }
    }

    /// A parser for the `rename_all` value given, if any.
    pub fn new(value: Option<&str>) -> (r: Self)
        ensures
            r.spec_value() == opt_view(value),
    {
        match value {
            Some(v) => RenameAllParser { value: Some(String::from_str(v)) },
            None => RenameAllParser { value: None },
        }
    }

    /// Checked against the field/variant grammar (lowercase-first allowed).
    pub fn try_for_field_name(self) -> (r: Result<Option<RenameAll>, NameError>)
        ensures
            rename_all_outcome(self.spec_value(), false, r),
    {
        self.check(false)
    }

    /// Checked against the type grammar (uppercase-first).
    pub fn try_for_type_name(self) -> (r: Result<Option<RenameAll>, NameError>)
        ensures
            rename_all_outcome(self.spec_value(), true, r),
    {
        self.check(true)
    }

    /// A convention that could never produce a name valid under the grammar is rejected here,
    /// probing a single-word sample: a word carries the first-character and character-set rules
    /// without the separators that only longer names introduce.
    fn check(self, for_type: bool) -> (r: Result<Option<RenameAll>, NameError>)
        ensures
            rename_all_outcome(self.spec_value(), for_type, r),
    {
        let value = match self.value {
            Some(v) => v,
            None => return Ok(None),
        };
        let rule = match RenameAll::parse(value.as_str()) {
            Ok(rule) => rule,
            Err(e) => return Err(e),
        };
        let probe = rule.apply_to_variant("Word");
        let fits = if for_type {
            crate::names::is_valid_type_name(probe.as_str())
        } else {
            crate::names::is_valid_field_name(probe.as_str())
        };
        if fits {
            Ok(Some(rule))
        } else {
            let pattern = if for_type { TypeName::from_pattern() } else { FieldName::from_pattern() };
            let mut msg = String::from_str("`");
            msg.append(value.as_str());
            msg.append("` can never produce a name matching the Varlink grammar `");
            msg.append(pattern);
            msg.append(
                "`, so it cannot apply here. Drop `rename_all`, use a convention that fits (e.g. `UPPERCASE` or `PascalCase`), or name items individually with `#[zlink(rename = \"...\")]`",
            );
            Err(NameError::new(msg))
        }
    }
}

} // verus!
