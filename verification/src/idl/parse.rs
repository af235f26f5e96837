//! Parsing of Varlink IDL.
//!
//! The grammar is stated once, as spec functions over the input bytes, and every parsing
//! function is proved to compute exactly what its spec counterpart describes. Each parser takes
//! the input and a position and returns what it parsed with the position after it, or `None`
//! when it does not apply there.
use vstd::prelude::*;
use vstd::slice::slice_subrange;
use vstd::utf8::{encode_utf8, valid_utf8};

use super::{
    comments_view, custom_view, customs_view, error_view, errors_view, field_view, fields_view,
    interface_view, method_view, methods_view, text, type_view, variant_view, variants_view,
    Comment, CustomEnum, CustomObject, CustomType, EnumVariant, Error as ErrorDef, Field,
    Interface, Method, SCustom, SError, SField, SInterface, SMethod, SType, SVariant, Type,
};
use crate::names::grammar::{
    byte_is_alnum, is_alnum, is_alpha, is_field_name, is_interface_name, is_type_name, lemma_prefix_len, longest_prefix, parse_field_name,
    parse_interface_name, parse_type_name, prefix_len,
};

verus! {

// ---------------------------------------------------------------------------------------------
// Bytes, literals and whitespace.

/// Whitespace between tokens: space, tab, line feed, carriage return.
pub open spec fn is_ms(b: u8) -> bool {
    b == 32 || b == 9 || b == 10 || b == 13
}

/// ASCII whitespace, as separating a keyword from a name: also form feed.
pub open spec fn is_aws(b: u8) -> bool {
    b == 32 || b == 9 || b == 10 || b == 12 || b == 13
}

/// `lit` occurs in `s` at `i`.
pub open spec fn lit_at(s: Seq<u8>, i: int, lit: Seq<u8>) -> bool {
    0 <= i && i + lit.len() <= s.len() && s.subrange(i, i + lit.len()) == lit
}

/// `s[i]` exists and is `b`.
pub open spec fn byte_at(s: Seq<u8>, i: int, b: u8) -> bool {
    0 <= i < s.len() && s[i] == b
}

pub open spec fn kw_bool() -> Seq<u8> { seq![98u8, 111, 111, 108] }
pub open spec fn kw_int() -> Seq<u8> { seq![105u8, 110, 116] }
pub open spec fn kw_float() -> Seq<u8> { seq![102u8, 108, 111, 97, 116] }
pub open spec fn kw_string() -> Seq<u8> { seq![115u8, 116, 114, 105, 110, 103] }
pub open spec fn kw_object() -> Seq<u8> { seq![111u8, 98, 106, 101, 99, 116] }
pub open spec fn kw_any() -> Seq<u8> { seq![97u8, 110, 121] }
/// `[string]`
pub open spec fn kw_map() -> Seq<u8> { seq![91u8, 115, 116, 114, 105, 110, 103, 93] }
/// `->`
pub open spec fn kw_arrow() -> Seq<u8> { seq![45u8, 62] }
pub open spec fn kw_method() -> Seq<u8> { seq![109u8, 101, 116, 104, 111, 100] }
pub open spec fn kw_error() -> Seq<u8> { seq![101u8, 114, 114, 111, 114] }
pub open spec fn kw_type() -> Seq<u8> { seq![116u8, 121, 112, 101] }
pub open spec fn kw_interface() -> Seq<u8> { seq![105u8, 110, 116, 101, 114, 102, 97, 99, 101] }

/// The end of the run of token whitespace starting at `i`.
pub open spec fn skip_ms(s: Seq<u8>, i: int) -> int
    decreases s.len() - i,
{
    if 0 <= i < s.len() && is_ms(s[i]) {
        skip_ms(s, i + 1)
    } else {
        i
    }
}

/// The end of the run of ASCII whitespace starting at `i`.
pub open spec fn skip_aws(s: Seq<u8>, i: int) -> int
    decreases s.len() - i,
{
    if 0 <= i < s.len() && is_aws(s[i]) {
        skip_aws(s, i + 1)
    } else {
        i
    }
}

/// At least one byte of ASCII whitespace at `i`, and where the run ends.
pub open spec fn aws1(s: Seq<u8>, i: int) -> Option<int> {
    if 0 <= i < s.len() && is_aws(s[i]) {
        Some(skip_aws(s, i + 1))
    } else {
        None
    }
}

/// The end of the run of spaces and tabs starting at `i`.
pub open spec fn skip_blank(s: Seq<u8>, i: int) -> int
    decreases s.len() - i,
{
    if 0 <= i < s.len() && (s[i] == 32 || s[i] == 9) {
        skip_blank(s, i + 1)
    } else {
        i
    }
}

/// The first line feed or carriage return at or after `i`, or the end.
pub open spec fn until_eol(s: Seq<u8>, i: int) -> int
    decreases s.len() - i,
{
    if 0 <= i < s.len() && s[i] != 10 && s[i] != 13 {
        until_eol(s, i + 1)
    } else {
        i
    }
}

/// The first line feed at or after `i`, or the end.
pub open spec fn until_lf(s: Seq<u8>, i: int) -> int
    decreases s.len() - i,
{
    if 0 <= i < s.len() && s[i] != 10 {
        until_lf(s, i + 1)
    } else {
        i
    }
}

/// The end of a comment starting with `#` at `i`, taken as whitespace: up to the end of the
/// line, and the line ending (`\r\n`, `\n` or `\r`) with it.
pub open spec fn comment_ws_end(s: Seq<u8>, i: int) -> int {
    let j = until_eol(s, i + 1);
    if j + 1 < s.len() && s[j] == 13 && s[j + 1] == 10 {
        j + 2
    } else if 0 <= j < s.len() {
        j + 1
    } else {
        j
    }
}

/// Whitespace and comments between tokens.
pub open spec fn ws_spec(s: Seq<u8>, i: int) -> int
    decreases s.len() - i,
{
    if 0 <= i < s.len() && is_ms(s[i]) {
        ws_spec(s, i + 1)
    } else if byte_at(s, i, 35) {
        let e = comment_ws_end(s, i);
        if i < e <= s.len() {
            ws_spec(s, e)
        } else {
            e
        }
    } else {
        i
    }
}

/// A `# ...` comment at `i`: its text, without the leading spaces and tabs, up to the line
/// feed; and the position of that line feed.
pub open spec fn comment_def_spec(s: Seq<u8>, i: int) -> Option<(Seq<u8>, int)> {
    if byte_at(s, i, 35) {
        let a = skip_blank(s, i + 1);
        let b = until_lf(s, a);
        Some((s.subrange(a, b), b))
    } else {
        None
    }
}

/// The comments preceding a definition, each surrounded by token whitespace. When no comment
/// follows, not even the whitespace is taken.
pub open spec fn comments_spec(s: Seq<u8>, i: int) -> (Seq<Seq<u8>>, int)
    decreases s.len() - i,
{
    let a = skip_ms(s, i);
    match comment_def_spec(s, a) {
        Some((c, b)) => {
            let e = skip_ms(s, b);
            if i < e <= s.len() {
                let (rest, f) = comments_spec(s, e);
                (seq![c] + rest, f)
            } else {
                (seq![c], e)
            }
        },
        None => (Seq::empty(), i),
    }
}

// ---------------------------------------------------------------------------------------------
// Names.

/// The end of the longest name at `i` that `accepts` takes.
pub open spec fn name_end(accepts: spec_fn(Seq<u8>) -> bool, s: Seq<u8>, i: int) -> Option<int> {
    if 0 <= i <= s.len() {
        match prefix_len(accepts, s.subrange(i, s.len() as int)) {
            Some(n) => Some(i + n),
            None => None,
        }
    } else {
        None
    }
}

pub open spec fn field_end(s: Seq<u8>, i: int) -> Option<int> {
    name_end(|t: Seq<u8>| is_field_name(t), s, i)
}

pub open spec fn type_end(s: Seq<u8>, i: int) -> Option<int> {
    name_end(|t: Seq<u8>| is_type_name(t), s, i)
}

pub open spec fn interface_end(s: Seq<u8>, i: int) -> Option<int> {
    name_end(|t: Seq<u8>| is_interface_name(t), s, i)
}

// ---------------------------------------------------------------------------------------------
// Types.

/// `bool`, `int`, `float`, `string`, `object` or `any`.
pub open spec fn primitive_type_spec(s: Seq<u8>, i: int) -> Option<(SType, int)> {
    if lit_at(s, i, kw_bool()) {
        Some((SType::Bool, i + 4))
    } else if lit_at(s, i, kw_int()) {
        Some((SType::Int, i + 3))
    } else if lit_at(s, i, kw_float()) {
        Some((SType::Float, i + 5))
    } else if lit_at(s, i, kw_string()) {
        Some((SType::Str, i + 6))
    } else if lit_at(s, i, kw_object()) {
        Some((SType::ForeignObject, i + 6))
    } else if lit_at(s, i, kw_any()) {
        Some((SType::Any, i + 3))
    } else {
        None
    }
}

/// The separator between the items of a list: whitespace and comments, `,`, then whitespace
/// only, so that comments after the comma stay with the next item.
pub open spec fn item_sep_spec(s: Seq<u8>, i: int) -> Option<int> {
    let a = ws_spec(s, i);
    if byte_at(s, a, 44) {
        Some(skip_ms(s, a + 1))
    } else {
        None
    }
}

/// A field: comments, a field name, `:` and a type.
pub open spec fn field_spec(s: Seq<u8>, i: int) -> Option<(SField, int)>
    decreases s.len() - i, 0nat,
{
    let (cs, p) = comments_spec(s, i);
    match field_end(s, p) {
        Some(n) => {
            let q = ws_spec(s, n);
            if byte_at(s, q, 58) {
                let r = ws_spec(s, q + 1);
                if i < r <= s.len() {
                    match varlink_type_spec(s, r) {
                        Some((t, e)) => Some((SField { name: s.subrange(p, n), ty: t, comments: cs }, e)),
                        None => None,
                    }
                } else {
                    None
                }
            } else {
                None
            }
        },
        None => None,
    }
}

/// Zero or more fields separated by commas.
pub open spec fn field_list_spec(s: Seq<u8>, i: int) -> (Seq<SField>, int)
    decreases s.len() - i, 1nat,
{
    match field_spec(s, i) {
        Some((f, j)) => {
            if i < j <= s.len() {
                let (rest, e) = more_fields_spec(s, j);
                (seq![f] + rest, e)
            } else {
                (seq![f], j)
            }
        },
        None => (Seq::empty(), i),
    }
}

/// The fields after the first: each preceded by a separator. A separator not followed by a
/// field is left in the input.
pub open spec fn more_fields_spec(s: Seq<u8>, j: int) -> (Seq<SField>, int)
    decreases s.len() - j, 1nat,
{
    match item_sep_spec(s, j) {
        Some(k) => {
            if j < k <= s.len() {
                match field_spec(s, k) {
                    Some((f, m)) => {
                        if j < m <= s.len() {
                            let (rest, e) = more_fields_spec(s, m);
                            (seq![f] + rest, e)
                        } else {
                            (seq![f], m)
                        }
                    },
                    None => (Seq::empty(), j),
                }
            } else {
                (Seq::empty(), j)
            }
        },
        None => (Seq::empty(), j),
    }
}

/// `(` fields `)`: an inline struct, or a parameter list.
pub open spec fn struct_body_spec(s: Seq<u8>, i: int) -> Option<(Seq<SField>, int)>
    decreases s.len() - i, 2nat,
{
    if byte_at(s, i, 40) {
        let k = skip_ms(s, i + 1);
        if i < k <= s.len() {
            let (fs, j) = field_list_spec(s, k);
            let c = ws_spec(s, j);
            if byte_at(s, c, 41) {
                Some((fs, c + 1))
            } else {
                None
            }
        } else {
            None
        }
    } else {
        None
    }
}

/// An enum variant: comments and a field name.
pub open spec fn enum_variant_spec(s: Seq<u8>, i: int) -> Option<(SVariant, int)> {
    let (cs, p) = comments_spec(s, i);
    match field_end(s, p) {
        Some(n) => Some((SVariant { name: s.subrange(p, n), comments: cs }, n)),
        None => None,
    }
}

/// The variants after the first, each preceded by a separator.
pub open spec fn more_variants_spec(s: Seq<u8>, j: int) -> (Seq<SVariant>, int)
    decreases s.len() - j,
{
    match item_sep_spec(s, j) {
        Some(k) => match enum_variant_spec(s, k) {
            Some((v, m)) => {
                if j < m <= s.len() {
                    let (rest, e) = more_variants_spec(s, m);
                    (seq![v] + rest, e)
                } else {
                    (seq![v], m)
                }
            },
            None => (Seq::empty(), j),
        },
        None => (Seq::empty(), j),
    }
}

/// Zero or more variants separated by commas.
pub open spec fn variant_list_spec(s: Seq<u8>, i: int) -> (Seq<SVariant>, int) {
    match enum_variant_spec(s, i) {
        Some((v, j)) => {
            let (rest, e) = more_variants_spec(s, j);
            (seq![v] + rest, e)
        },
        None => (Seq::empty(), i),
    }
}

/// `(` variants `)`: an inline enum.
pub open spec fn enum_body_spec(s: Seq<u8>, i: int) -> Option<(Seq<SVariant>, int)> {
    if byte_at(s, i, 40) {
        let k = skip_ms(s, i + 1);
        let (vs, j) = variant_list_spec(s, k);
        let c = ws_spec(s, j);
        if byte_at(s, c, 41) {
            Some((vs, c + 1))
        } else {
            None
        }
    } else {
        None
    }
}

/// An inline struct, or, failing that, an inline enum. An empty `()` is a struct.
pub open spec fn inline_type_spec(s: Seq<u8>, i: int) -> Option<(SType, int)>
    decreases s.len() - i, 3nat,
{
    match struct_body_spec(s, i) {
        Some((fs, j)) => Some((SType::Object(fs), j)),
        None => match enum_body_spec(s, i) {
            Some((vs, j)) => Some((SType::Enum(vs), j)),
            None => None,
        },
    }
}

/// A primitive type, a custom type's name, or an inline type.
pub open spec fn element_type_spec(s: Seq<u8>, i: int) -> Option<(SType, int)>
    decreases s.len() - i, 4nat,
{
    match primitive_type_spec(s, i) {
        Some(r) => Some(r),
        None => match type_end(s, i) {
            Some(e) => Some((SType::Custom(s.subrange(i, e)), e)),
            None => inline_type_spec(s, i),
        },
    }
}

/// `?` followed by a type that is not itself optional.
pub open spec fn optional_type_spec(s: Seq<u8>, i: int) -> Option<(SType, int)>
    decreases s.len() - i, 5nat,
{
    if byte_at(s, i, 63) {
        match non_optional_type_spec(s, i + 1) {
            Some((t, e)) => Some((SType::Optional(Box::new(t)), e)),
            None => None,
        }
    } else {
        None
    }
}

/// `[]` followed by a type.
pub open spec fn array_type_spec(s: Seq<u8>, i: int) -> Option<(SType, int)>
    decreases s.len() - i, 5nat,
{
    if byte_at(s, i, 91) && byte_at(s, i + 1, 93) {
        match varlink_type_spec(s, i + 2) {
            Some((t, e)) => Some((SType::Array(Box::new(t)), e)),
            None => None,
        }
    } else {
        None
    }
}

/// `[string]` followed by a type.
pub open spec fn map_type_spec(s: Seq<u8>, i: int) -> Option<(SType, int)>
    decreases s.len() - i, 5nat,
{
    if lit_at(s, i, kw_map()) {
        match varlink_type_spec(s, i + 8) {
            Some((t, e)) => Some((SType::Dict(Box::new(t)), e)),
            None => None,
        }
    } else {
        None
    }
}

/// Any type but an optional one.
pub open spec fn non_optional_type_spec(s: Seq<u8>, i: int) -> Option<(SType, int)>
    decreases s.len() - i, 6nat,
{
    match array_type_spec(s, i) {
        Some(r) => Some(r),
        None => match map_type_spec(s, i) {
            Some(r) => Some(r),
            None => element_type_spec(s, i),
        },
    }
}

/// Any Varlink type.
pub open spec fn varlink_type_spec(s: Seq<u8>, i: int) -> Option<(SType, int)>
    decreases s.len() - i, 6nat,
{
    match optional_type_spec(s, i) {
        Some(r) => Some(r),
        None => match array_type_spec(s, i) {
            Some(r) => Some(r),
            None => match map_type_spec(s, i) {
                Some(r) => Some(r),
                None => element_type_spec(s, i),
            },
        },
    }
}

// ---------------------------------------------------------------------------------------------
// Definitions.

/// A keyword at `i` followed by at least one ASCII whitespace byte; where the whitespace ends.
pub open spec fn keyword_spec(s: Seq<u8>, i: int, kw: Seq<u8>) -> Option<int> {
    if lit_at(s, i, kw) {
        aws1(s, i + kw.len())
    } else {
        None
    }
}

/// `method Name(inputs) -> (outputs)`, preceded by comments.
pub open spec fn method_def_spec(s: Seq<u8>, i: int) -> Option<(SMethod, int)> {
    let (cs, p) = comments_spec(s, i);
    match keyword_spec(s, p, kw_method()) {
        Some(q) => match type_end(s, q) {
            Some(n) => match struct_body_spec(s, ws_spec(s, n)) {
                Some((inputs, a)) => {
                    let b = ws_spec(s, a);
                    if lit_at(s, b, kw_arrow()) {
                        match struct_body_spec(s, ws_spec(s, b + 2)) {
                            Some((outputs, e)) => Some((
                                SMethod { name: s.subrange(q, n), inputs, outputs, comments: cs },
                                e,
                            )),
                            None => None,
                        }
                    } else {
                        None
                    }
                },
                None => None,
            },
            None => None,
        },
        None => None,
    }
}

/// `error Name(fields)`, preceded by comments.
pub open spec fn error_def_spec(s: Seq<u8>, i: int) -> Option<(SError, int)> {
    let (cs, p) = comments_spec(s, i);
    match keyword_spec(s, p, kw_error()) {
        Some(q) => match type_end(s, q) {
            Some(n) => match struct_body_spec(s, ws_spec(s, n)) {
                Some((fields, e)) => Some((SError { name: s.subrange(q, n), fields, comments: cs }, e)),
                None => None,
            },
            None => None,
        },
        None => None,
    }
}

/// A member of a `type` body: a typed field or an untyped enum variant.
pub enum SMember {
    Field(SField),
    Variant(SVariant),
}

/// A name with comments, then, if `: type` follows, a field, else a variant.
pub open spec fn field_or_variant_spec(s: Seq<u8>, i: int) -> Option<(SMember, int)> {
    let (cs, p) = comments_spec(s, i);
    match field_end(s, p) {
        Some(n) => {
            let q = ws_spec(s, n);
            let typed = if byte_at(s, q, 58) {
                varlink_type_spec(s, ws_spec(s, q + 1))
            } else {
                None
            };
            match typed {
                Some((t, e)) => Some((SMember::Field(SField { name: s.subrange(p, n), ty: t, comments: cs }), e)),
                None => Some((SMember::Variant(SVariant { name: s.subrange(p, n), comments: cs }), n)),
            }
        },
        None => None,
    }
}

/// The members after the first, each preceded by a separator.
pub open spec fn more_members_spec(s: Seq<u8>, j: int) -> (Seq<SMember>, int)
    decreases s.len() - j,
{
    match item_sep_spec(s, j) {
        Some(k) => match field_or_variant_spec(s, k) {
            Some((v, m)) => {
                if j < m <= s.len() {
                    let (rest, e) = more_members_spec(s, m);
                    (seq![v] + rest, e)
                } else {
                    (seq![v], m)
                }
            },
            None => (Seq::empty(), j),
        },
        None => (Seq::empty(), j),
    }
}

/// The typed members, in order.
pub open spec fn member_fields(ms: Seq<SMember>) -> Seq<SField>
    decreases ms.len(),
{
    if ms.len() == 0 {
        Seq::empty()
    } else {
        match ms.last() {
            SMember::Field(f) => member_fields(ms.drop_last()).push(f),
            SMember::Variant(_) => member_fields(ms.drop_last()),
        }
    }
}

/// The untyped members, in order.
pub open spec fn member_variants(ms: Seq<SMember>) -> Seq<SVariant>
    decreases ms.len(),
{
    if ms.len() == 0 {
        Seq::empty()
    } else {
        match ms.last() {
            SMember::Variant(v) => member_variants(ms.drop_last()).push(v),
            SMember::Field(_) => member_variants(ms.drop_last()),
        }
    }
}

/// `type Name (...)`, preceded by comments. Untyped members make an enum, typed ones (or none) a
/// struct; a body mixing both is rejected.
pub open spec fn type_def_spec(s: Seq<u8>, i: int) -> Option<(SCustom, int)> {
    let (cs, p) = comments_spec(s, i);
    match keyword_spec(s, p, kw_type()) {
        Some(q) => match type_end(s, q) {
            Some(n) => {
                let o = ws_spec(s, n);
                if byte_at(s, o, 40) {
                    let k = skip_ms(s, o + 1);
                    let (items, j) = match field_or_variant_spec(s, k) {
                        Some((m, j)) => {
                            let (rest, e) = more_members_spec(s, j);
                            (seq![m] + rest, e)
                        },
                        None => (Seq::empty(), k),
                    };
                    let c = ws_spec(s, j);
                    if byte_at(s, c, 41) {
                        let fields = member_fields(items);
                        let variants = member_variants(items);
                        if fields.len() > 0 && variants.len() > 0 {
                            None
                        } else if variants.len() > 0 {
                            Some((SCustom::Enum { name: s.subrange(q, n), variants, comments: cs }, c + 1))
                        } else {
                            Some((SCustom::Object { name: s.subrange(q, n), fields, comments: cs }, c + 1))
                        }
                    } else {
                        None
                    }
                } else {
                    None
                }
            },
            None => None,
        },
        None => None,
    }
}

/// A member of an interface body.
pub enum SDef {
    Custom(SCustom),
    Method(SMethod),
    Error(SError),
}

/// A type, method or error definition, tried in that order.
pub open spec fn definition_spec(s: Seq<u8>, i: int) -> Option<(SDef, int)> {
    match type_def_spec(s, i) {
        Some((c, e)) => Some((SDef::Custom(c), e)),
        None => match method_def_spec(s, i) {
            Some((m, e)) => Some((SDef::Method(m), e)),
            None => match error_def_spec(s, i) {
                Some((x, e)) => Some((SDef::Error(x), e)),
                None => None,
            },
        },
    }
}

/// Zero or more definitions, each preceded by token whitespace. Whitespace not followed by a
/// definition is left in the input.
pub open spec fn definitions_spec(s: Seq<u8>, i: int) -> (Seq<SDef>, int)
    decreases s.len() - i,
{
    match definition_spec(s, skip_ms(s, i)) {
        Some((d, e)) => {
            if i < e <= s.len() {
                let (rest, f) = definitions_spec(s, e);
                (seq![d] + rest, f)
            } else {
                (seq![d], e)
            }
        },
        None => (Seq::empty(), i),
    }
}

pub open spec fn defs_customs(ds: Seq<SDef>) -> Seq<SCustom>
    decreases ds.len(),
{
    if ds.len() == 0 {
        Seq::empty()
    } else {
        match ds.last() {
            SDef::Custom(c) => defs_customs(ds.drop_last()).push(c),
            _ => defs_customs(ds.drop_last()),
        }
    }
}

pub open spec fn defs_methods(ds: Seq<SDef>) -> Seq<SMethod>
    decreases ds.len(),
{
    if ds.len() == 0 {
        Seq::empty()
    } else {
        match ds.last() {
            SDef::Method(m) => defs_methods(ds.drop_last()).push(m),
            _ => defs_methods(ds.drop_last()),
        }
    }
}

pub open spec fn defs_errors(ds: Seq<SDef>) -> Seq<SError>
    decreases ds.len(),
{
    if ds.len() == 0 {
        Seq::empty()
    } else {
        match ds.last() {
            SDef::Error(e) => defs_errors(ds.drop_last()).push(e),
            _ => defs_errors(ds.drop_last()),
        }
    }
}

/// `interface org.example.Name` preceded by comments and followed by the definitions.
pub open spec fn interface_def_spec(s: Seq<u8>) -> Option<(SInterface, int)> {
    let (cs, p) = comments_spec(s, 0);
    match keyword_spec(s, p, kw_interface()) {
        Some(q) => match interface_end(s, q) {
            Some(n) => {
                let (ds, e) = definitions_spec(s, n);
                Some((
                    SInterface {
                        name: s.subrange(q, n),
                        methods: defs_methods(ds),
                        custom_types: defs_customs(ds),
                        errors: defs_errors(ds),
                        comments: cs,
                    },
                    e,
                ))
            },
            None => None,
        },
        None => None,
    }
}

/// One `-*[A-Za-z0-9]` step of an interface-name segment from `i`: where it ends, if it can be
/// taken.
pub open spec fn segment_step(s: Seq<u8>, i: int) -> Option<int>
    decreases s.len() - i,
{
    if 0 <= i < s.len() && is_alnum(s[i]) {
        Some(i + 1)
    } else if 0 <= i < s.len() && s[i] == 45 {
        segment_step(s, i + 1)
    } else {
        None
    }
}

/// Where the steps of an interface-name segment taken from `i` end: as many as can be taken.
pub open spec fn segment_end(s: Seq<u8>, i: int) -> int
    decreases s.len() - i,
{
    match segment_step(s, i) {
        Some(k) => if i < k <= s.len() {
            segment_end(s, k)
        } else {
            i
        },
        None => i,
    }
}

/// Where the parse of an interface header stops when it fails: at the keyword `interface` when
/// it is missing, after it when no whitespace follows, at the name when it does not start with a
/// letter, and otherwise after its first segment, or after the dot that follows it when no
/// letter or digit comes next.
pub open spec fn header_stop(s: Seq<u8>) -> int {
    let p = comments_spec(s, 0).1;
    if !lit_at(s, p, kw_interface()) {
        p
    } else {
        match aws1(s, p + 9) {
            None => p + 9,
            Some(q) => if 0 <= q < s.len() && is_alpha(s[q]) {
                let a = segment_end(s, q + 1);
                if byte_at(s, a, 46) {
                    a + 1
                } else {
                    a
                }
            } else {
                q
            },
        }
    }
}

// ---------------------------------------------------------------------------------------------
// UTF-8 of the pieces taken out of the input.

/// Bytes below `0x80` are single-byte UTF-8 scalars.
proof fn lemma_ascii_utf8(t: Seq<u8>)
    requires
        forall|k: int| 0 <= k < t.len() ==> #[trigger] t[k] < 128,
    ensures
        valid_utf8(t),
{
    assert(vstd::utf8::partial_valid_utf8(t, 0)) by {
        assert(t.subrange(0, 0) =~= Seq::<u8>::empty());
    }
    assert forall|k: int| 0 <= 0 <= k < t.len() <= t.len() implies #[trigger] vstd::utf8::is_leading_byte_width_1(t[k]) by {
        assert(t[k] < 128);
    }
    vstd::utf8::partial_valid_utf8_extend_ascii_block(t, 0, t.len() as int);
    assert(t.subrange(0, t.len() as int) =~= t);
}

/// In valid UTF-8, a piece that starts right after an ASCII byte and ends at an ASCII byte (or
/// the end) is valid UTF-8 too.
proof fn lemma_utf8_between_ascii(s: Seq<u8>, a: int, b: int)
    requires
        valid_utf8(s),
        0 < a <= b <= s.len(),
        s[a - 1] < 128,
        b == s.len() || s[b] < 128,
    ensures
        valid_utf8(s.subrange(a, b)),
{
    vstd::utf8::is_char_boundary_iff_not_is_continuation_byte(s, a - 1);
    vstd::utf8::valid_utf8_split(s, a - 1);
    let t = s.subrange(a - 1, s.len() as int);
    assert(t[0] == s[a - 1]);
    assert(vstd::utf8::pop_first_scalar(t) =~= s.subrange(a, s.len() as int));
    let u = s.subrange(a, s.len() as int);
    if b == s.len() {
        assert(u.subrange(0, b - a) =~= u);
        assert(s.subrange(a, b) =~= u);
    } else {
        assert(u[b - a] == s[b]);
        vstd::utf8::is_char_boundary_iff_not_is_continuation_byte(u, b - a);
        vstd::utf8::valid_utf8_split(u, b - a);
        assert(u.subrange(0, b - a) =~= s.subrange(a, b));
    }
}

/// The text of `s[a..b]`, all ASCII.
fn ascii_text(s: &[u8], a: usize, b: usize) -> (r: String)
    requires
        a <= b <= s@.len(),
        forall|k: int| a <= k < b ==> #[trigger] s@[k] < 128,
    ensures
        encode_utf8(r@) == s@.subrange(a as int, b as int),
{
    let v = vstd::slice::slice_to_vec(slice_subrange(s, a, b));
    proof {
        assert forall|k: int| 0 <= k < v@.len() implies #[trigger] v@[k] < 128 by {
            assert(v@[k] == s@[a + k]);
        }
        lemma_ascii_utf8(v@);
    }
    crate::strings::string_from_utf8(v).unwrap()
}

/// The text of `s[a..b]`, a piece between ASCII bytes of valid UTF-8.
fn utf8_text(s: &[u8], a: usize, b: usize) -> (r: String)
    requires
        valid_utf8(s@),
        0 < a <= b <= s@.len(),
        s@[a - 1] < 128,
        b == s@.len() || s@[b as int] < 128,
    ensures
        encode_utf8(r@) == s@.subrange(a as int, b as int),
{
    let v = vstd::slice::slice_to_vec(slice_subrange(s, a, b));
    proof {
        lemma_utf8_between_ascii(s@, a as int, b as int);
    }
    crate::strings::string_from_utf8(v).unwrap()
}

// ---------------------------------------------------------------------------------------------
// Scanning bytes.

fn lit_at_exec(s: &[u8], i: usize, lit: &[u8]) -> (r: bool)
    ensures
        r == lit_at(s@, i as int, lit@),
{
    if i > s.len() || lit.len() > s.len() - i {
        return false;
    }
    let mut k: usize = 0;
    while k < lit.len()
        invariant
            k <= lit@.len(),
            i + lit@.len() <= s.len(),
            forall|m: int| 0 <= m < k ==> s@[i + m] == lit@[m],
        decreases lit@.len() - k,
    {
        if s[i + k] != lit[k] {
            assert(s@.subrange(i as int, i + lit@.len())[k as int] != lit@[k as int]);
            return false;
        }
        k += 1;
    }
    assert(s@.subrange(i as int, i + lit@.len()) =~= lit@);
    true
}

fn byte_at_exec(s: &[u8], i: usize, b: u8) -> (r: bool)
    ensures
        r == byte_at(s@, i as int, b),
{
    i < s.len() && s[i] == b
}

fn skip_ms_exec(s: &[u8], i: usize) -> (r: usize)
    requires
        i <= s@.len(),
    ensures
        r == skip_ms(s@, i as int),
        i <= r <= s@.len(),
{
    let mut j = i;
    while j < s.len() && (s[j] == 32 || s[j] == 9 || s[j] == 10 || s[j] == 13)
        invariant
            i <= j <= s@.len(),
            skip_ms(s@, j as int) == skip_ms(s@, i as int),
        decreases s@.len() - j,
    {
        j += 1;
    }
    j
}

fn skip_aws_exec(s: &[u8], i: usize) -> (r: usize)
    requires
        i <= s@.len(),
    ensures
        r == skip_aws(s@, i as int),
        i <= r <= s@.len(),
{
    let mut j = i;
    while j < s.len() && (s[j] == 32 || s[j] == 9 || s[j] == 10 || s[j] == 12 || s[j] == 13)
        invariant
            i <= j <= s@.len(),
            skip_aws(s@, j as int) == skip_aws(s@, i as int),
        decreases s@.len() - j,
    {
        j += 1;
    }
    j
}

fn skip_blank_exec(s: &[u8], i: usize) -> (r: usize)
    requires
        i <= s@.len(),
    ensures
        r == skip_blank(s@, i as int),
        i <= r <= s@.len(),
        forall|k: int| i <= k < r ==> #[trigger] s@[k] < 128,
{
    let mut j = i;
    while j < s.len() && (s[j] == 32 || s[j] == 9)
        invariant
            i <= j <= s@.len(),
            skip_blank(s@, j as int) == skip_blank(s@, i as int),
            forall|k: int| i <= k < j ==> #[trigger] s@[k] < 128,
        decreases s@.len() - j,
    {
        j += 1;
    }
    j
}

fn until_eol_exec(s: &[u8], i: usize) -> (r: usize)
    requires
        i <= s@.len(),
    ensures
        r == until_eol(s@, i as int),
        i <= r <= s@.len(),
{
    let mut j = i;
    while j < s.len() && s[j] != 10 && s[j] != 13
        invariant
            i <= j <= s@.len(),
            until_eol(s@, j as int) == until_eol(s@, i as int),
        decreases s@.len() - j,
    {
        j += 1;
    }
    j
}

fn until_lf_exec(s: &[u8], i: usize) -> (r: usize)
    requires
        i <= s@.len(),
    ensures
        r == until_lf(s@, i as int),
        i <= r <= s@.len(),
        r == s@.len() || s@[r as int] == 10,
{
    let mut j = i;
    while j < s.len() && s[j] != 10
        invariant
            i <= j <= s@.len(),
            until_lf(s@, j as int) == until_lf(s@, i as int),
        decreases s@.len() - j,
    {
        j += 1;
    }
    j
}

/// Parse a `# ... eol` comment as inter-token whitespace, discarding its content.
fn comment_as_ws(s: &[u8], i: usize) -> (r: usize)
    requires
        i < s@.len(),
        s@[i as int] == 35,
    ensures
        r == comment_ws_end(s@, i as int),
        i < r <= s@.len(),
{
    let len = s.len();
    let j = until_eol_exec(s, i + 1);
    if j < len && s[j] == 13 && j + 1 < len && s[j + 1] == 10 {
        j + 2
    } else if j < s.len() {
        j + 1
    } else {
        j
    }
}

/// Whitespace and comments between tokens.
pub fn ws(s: &[u8], i: usize) -> (r: usize)
    requires
        i <= s@.len(),
    ensures
        r == ws_spec(s@, i as int),
        i <= r <= s@.len(),
{
    let mut j = i;
    loop
        invariant
            i <= j <= s@.len(),
            ws_spec(s@, j as int) == ws_spec(s@, i as int),
        decreases s@.len() - j,
    {
        if j < s.len() && (s[j] == 32 || s[j] == 9 || s[j] == 10 || s[j] == 13) {
            j += 1;
        } else if j < s.len() && s[j] == 35 {
            j = comment_as_ws(s, j);
        } else {
            return j;
        }
    }
}

/// Whitespace only, not comments: used where comments belong to the next item.
pub fn whitespace_only(s: &[u8], i: usize) -> (r: usize)
    requires
        i <= s@.len(),
    ensures
        r == skip_ms(s@, i as int),
        i <= r <= s@.len(),
{
    skip_ms_exec(s, i)
}

/// A single `# ...` comment up to (not including) the end of line, leading spaces and tabs
/// after `#` stripped.
fn comment_def(s: &[u8], i: usize) -> (r: Option<(Comment, usize)>)
    requires
        i <= s@.len(),
        valid_utf8(s@),
    ensures
        match (r, comment_def_spec(s@, i as int)) {
            (Some((c, e)), Some((t, f))) => text(&c.content) == t && e == f && i < e <= s@.len(),
            (None, None) => true,
            _ => false,
        },
{
    if byte_at_exec(s, i, 35) {
        let _ = s.len();
        let a = skip_blank_exec(s, i + 1);
        let b = until_lf_exec(s, a);
        proof {
            if a > i + 1 {
                assert(s@[a - 1] < 128);
            }
        }
        let content = utf8_text(s, a, b);
        Some((Comment { content }, b))
    } else {
        None
    }
}

/// The comments that precede a definition.
fn parse_preceding_comments(s: &[u8], i: usize) -> (r: (Vec<Comment>, usize))
    requires
        i <= s@.len(),
        valid_utf8(s@),
    ensures
        comments_view(r.0@) == comments_spec(s@, i as int).0,
        r.1 == comments_spec(s@, i as int).1,
        i <= r.1 <= s@.len(),
{
    let mut acc: Vec<Comment> = Vec::new();
    let mut j = i;
    loop
        invariant
            i <= j <= s@.len(),
            valid_utf8(s@),
            comments_view(acc@) + comments_spec(s@, j as int).0 == comments_spec(s@, i as int).0,
            comments_spec(s@, j as int).1 == comments_spec(s@, i as int).1,
        decreases s@.len() - j,
    {
        let a = skip_ms_exec(s, j);
        match comment_def(s, a) {
            Some((c, b)) => {
                let e = skip_ms_exec(s, b);
                let ghost old_acc = acc@;
                acc.push(c);
                proof {
                    assert(acc@.drop_last() =~= old_acc);
                    let rest = comments_spec(s@, e as int).0;
                    assert(comments_view(acc@) + rest =~= comments_view(old_acc) + (seq![text(&c.content)] + rest));
                }
                j = e;
            },
            None => {
                assert(comments_view(acc@) + Seq::<Seq<u8>>::empty() =~= comments_view(acc@));
                return (acc, j);
            },
        }
    }
}

// ---------------------------------------------------------------------------------------------
// Names.

proof fn lemma_name_bytes_ascii(t: Seq<u8>)
    requires
        is_field_name(t) || is_type_name(t) || is_interface_name(t),
    ensures
        forall|k: int| 0 <= k < t.len() ==> #[trigger] t[k] < 128,
{
    assert forall|k: int| 0 <= k < t.len() implies #[trigger] t[k] < 128 by {
        if is_field_name(t) {
            assert(crate::names::grammar::is_alnum(t[k]) || t[k] == 95u8);
        } else if is_type_name(t) {
            assert(crate::names::grammar::is_alnum(t[k]));
        } else {
            assert(crate::names::grammar::is_interface_byte(t[k]));
        }
    }
}

/// Which of the three name grammars to scan with.
#[derive(Clone, Copy, PartialEq, Eq, Structural)]
enum NameKind {
    Field,
    Type,
    Interface,
}

spec fn kind_accepts(kind: NameKind) -> spec_fn(Seq<u8>) -> bool {
    match kind {
        NameKind::Field => |t: Seq<u8>| is_field_name(t),
        NameKind::Type => |t: Seq<u8>| is_type_name(t),
        NameKind::Interface => |t: Seq<u8>| is_interface_name(t),
    }
}

/// The end of the longest name of `kind` at `i`.
fn name_at(kind: NameKind, s: &[u8], i: usize) -> (r: Option<usize>)
    requires
        i <= s@.len(),
    ensures
        match r {
            Some(e) => {
                &&& name_end(kind_accepts(kind), s@, i as int) == Some(e as int)
                &&& i < e <= s@.len()
                &&& kind_accepts(kind)(s@.subrange(i as int, e as int))
                &&& forall|k: int| i <= k < e ==> #[trigger] s@[k] < 128
            },
            None => name_end(kind_accepts(kind), s@, i as int) is None,
        },
{
    let sub = slice_subrange(s, i, s.len());
    let r = match kind {
        NameKind::Field => parse_field_name(sub),
        NameKind::Type => parse_type_name(sub),
        NameKind::Interface => parse_interface_name(sub),
    };
    proof {
        lemma_prefix_len(kind_accepts(kind), sub@, r);
        assert(kind_accepts(kind)(sub@.take(0)) == false);
    }
    match r {
        Some(n) => {
            proof {
                let t = sub@.take(n as int);
                assert(t =~= s@.subrange(i as int, i + n));
                lemma_name_bytes_ascii(t);
                assert forall|k: int| i <= k < i + n implies #[trigger] s@[k] < 128 by {
                    assert(t[k - i] == s@[k]);
                }
            }
            Some(i + n)
        },
        None => None,
    }
}

// ---------------------------------------------------------------------------------------------
// Types.

pub open spec fn type_result(r: Option<(Type, usize)>, spec: Option<(SType, int)>) -> bool {
    match (r, spec) {
        (Some((t, e)), Some((st, f))) => type_view(&t) == st && e == f,
        (None, None) => true,
        _ => false,
    }
}

pub open spec fn field_result(r: Option<(Field, usize)>, spec: Option<(SField, int)>) -> bool {
    match (r, spec) {
        (Some((x, e)), Some((sx, f))) => field_view(&x) == sx && e == f,
        (None, None) => true,
        _ => false,
    }
}

pub open spec fn fields_result(r: Option<(Vec<Field>, usize)>, spec: Option<(Seq<SField>, int)>) -> bool {
    match (r, spec) {
        (Some((x, e)), Some((sx, f))) => fields_view(x@) == sx && e == f,
        (None, None) => true,
        _ => false,
    }
}

pub open spec fn ends_after(r: Option<(Type, usize)>, i: int, len: int) -> bool {
    r matches Some((_, e)) ==> i < e <= len
}

/// Parse a primitive type.
fn primitive_type(s: &[u8], i: usize) -> (r: Option<(Type, usize)>)
    requires
        i <= s@.len(),
    ensures
        type_result(r, primitive_type_spec(s@, i as int)),
        ends_after(r, i as int, s@.len() as int),
{
    let kw_b: [u8; 4] = [98, 111, 111, 108];
    let kw_i: [u8; 3] = [105, 110, 116];
    let kw_f: [u8; 5] = [102, 108, 111, 97, 116];
    let kw_s: [u8; 6] = [115, 116, 114, 105, 110, 103];
    let kw_o: [u8; 6] = [111, 98, 106, 101, 99, 116];
    let kw_a: [u8; 3] = [97, 110, 121];
    proof {
        assert(kw_b@ =~= kw_bool());
        assert(kw_i@ =~= kw_int());
        assert(kw_f@ =~= kw_float());
        assert(kw_s@ =~= kw_string());
        assert(kw_o@ =~= kw_object());
        assert(kw_a@ =~= kw_any());
    }
    let _ = s.len();
    if lit_at_exec(s, i, &kw_b) {
        Some((Type::Bool, i + 4))
    } else if lit_at_exec(s, i, &kw_i) {
        Some((Type::Int, i + 3))
    } else if lit_at_exec(s, i, &kw_f) {
        Some((Type::Float, i + 5))
    } else if lit_at_exec(s, i, &kw_s) {
        Some((Type::String, i + 6))
    } else if lit_at_exec(s, i, &kw_o) {
        Some((Type::ForeignObject, i + 6))
    } else if lit_at_exec(s, i, &kw_a) {
        Some((Type::Any, i + 3))
    } else {
        None
    }
}

/// Separator between the fields or variants of a comma-separated list.
///
/// `ws` before the comma takes trailing comments of the previous item; after the comma only
/// whitespace is taken, leaving comments for the next item.
fn field_separator(s: &[u8], i: usize) -> (r: Option<usize>)
    requires
        i <= s@.len(),
    ensures
        r == match item_sep_spec(s@, i as int) {
            Some(k) => Some(k as usize),
            None => None::<usize>,
        },
        r matches Some(k) ==> i < k <= s@.len(),
        item_sep_spec(s@, i as int) matches Some(k) ==> i < k <= s@.len(),
{
    let _ = s.len();
    let a = ws(s, i);
    if byte_at_exec(s, a, 44) {
        Some(skip_ms_exec(s, a + 1))
    } else {
        None
    }
}

/// Parse a field in a struct or parameter list.
fn field(s: &[u8], i: usize) -> (r: Option<(Field, usize)>)
    requires
        i <= s@.len(),
        valid_utf8(s@),
    ensures
        field_result(r, field_spec(s@, i as int)),
        r matches Some((_, e)) ==> i < e <= s@.len(),
    decreases s@.len() - i, 0nat,
{
    let _ = s.len();
    let (cs, p) = parse_preceding_comments(s, i);
    match name_at(NameKind::Field, s, p) {
        Some(n) => {
            let q = ws(s, n);
            if byte_at_exec(s, q, 58) {
                let r = ws(s, q + 1);
                if i < r && r <= s.len() {
                    match varlink_type(s, r) {
                        Some((t, e)) => {
                            let name = ascii_text(s, p, n);
                            Some((Field { name, ty: t, comments: cs }, e))
                        },
                        None => None,
                    }
                } else {
                    None
                }
            } else {
                None
            }
        },
        None => None,
    }
}

/// Zero or more fields separated by commas.
fn field_list(s: &[u8], i: usize) -> (r: (Vec<Field>, usize))
    requires
        i <= s@.len(),
        valid_utf8(s@),
    ensures
        fields_view(r.0@) == field_list_spec(s@, i as int).0,
        r.1 == field_list_spec(s@, i as int).1,
        i <= r.1 <= s@.len(),
    decreases s@.len() - i, 1nat,
{
    let len = s.len();
    match field(s, i) {
        None => (Vec::new(), i),
        Some((f, j)) => {
            let mut acc: Vec<Field> = Vec::new();
            acc.push(f);
            proof {
                assert(acc@.drop_last() =~= Seq::<Field>::empty());
                assert(fields_view(Seq::<Field>::empty()) =~= Seq::<SField>::empty());
                assert(fields_view(acc@) =~= seq![field_view(&f)]);
            }
            let mut pos = j;
            loop
                invariant
                    i < pos <= len,
                    len == s@.len(),
                    valid_utf8(s@),
                    fields_view(acc@) + more_fields_spec(s@, pos as int).0 == field_list_spec(s@, i as int).0,
                    more_fields_spec(s@, pos as int).1 == field_list_spec(s@, i as int).1,
                decreases len - pos,
            {
                let ghost before = acc@;
                match field_separator(s, pos) {
                    None => {
                        assert(fields_view(acc@) + Seq::<SField>::empty() =~= fields_view(acc@));
                        return (acc, pos);
                    },
                    Some(k) => {
                        match field(s, k) {
                            None => {
                                assert(fields_view(acc@) + Seq::<SField>::empty() =~= fields_view(acc@));
                                return (acc, pos);
                            },
                            Some((f2, m)) => {
                                let ghost fv = field_view(&f2);
                                acc.push(f2);
                                proof {
                                    assert(acc@.drop_last() =~= before);
                                    let rest = more_fields_spec(s@, m as int).0;
                                    assert(fields_view(acc@) + rest =~= fields_view(before) + (seq![fv] + rest));
                                }
                                pos = m;
                            },
                        }
                    },
                }
            }
        },
    }
}

/// Parse a parameter list, `(param1: type1, param2: type2)`; also the body of an inline struct.
fn parameter_list(s: &[u8], i: usize) -> (r: Option<(Vec<Field>, usize)>)
    requires
        i <= s@.len(),
        valid_utf8(s@),
    ensures
        fields_result(r, struct_body_spec(s@, i as int)),
        r matches Some((_, e)) ==> i < e <= s@.len(),
    decreases s@.len() - i, 2nat,
{
    let _ = s.len();
    if byte_at_exec(s, i, 40) {
        let k = skip_ms_exec(s, i + 1);
        let (fs, j) = field_list(s, k);
        let c = ws(s, j);
        if byte_at_exec(s, c, 41) {
            Some((fs, c + 1))
        } else {
            None
        }
    } else {
        None
    }
}

/// Parse an enum variant: any preceding comments followed by the variant name.
fn enum_variant(s: &[u8], i: usize) -> (r: Option<(EnumVariant, usize)>)
    requires
        i <= s@.len(),
        valid_utf8(s@),
    ensures
        match (r, enum_variant_spec(s@, i as int)) {
            (Some((v, e)), Some((sv, f))) => variant_view(&v) == sv && e == f && i < e <= s@.len(),
            (None, None) => true,
            _ => false,
        },
{
    let (cs, p) = parse_preceding_comments(s, i);
    match name_at(NameKind::Field, s, p) {
        Some(n) => {
            let name = ascii_text(s, p, n);
            Some((EnumVariant { name, comments: cs }, n))
        },
        None => None,
    }
}

/// Parse an inline enum type: `(variant1, variant2, variant3)`.
fn enum_type(s: &[u8], i: usize) -> (r: Option<(Type, usize)>)
    requires
        i <= s@.len(),
        valid_utf8(s@),
    ensures
        match (r, enum_body_spec(s@, i as int)) {
            (Some((t, e)), Some((vs, f))) => type_view(&t) == SType::Enum(vs) && e == f && i < e <= s@.len(),
            (None, None) => true,
            _ => false,
        },
{
    if !byte_at_exec(s, i, 40) {
        return None;
    }
    let len = s.len();
    let k = skip_ms_exec(s, i + 1);
    let mut acc: Vec<EnumVariant> = Vec::new();
    assert(variants_view(Seq::<EnumVariant>::empty()) =~= Seq::<SVariant>::empty());
    let mut pos = k;
    match enum_variant(s, k) {
        None => {},
        Some((v, j)) => {
            acc.push(v);
            proof {
                assert(acc@.drop_last() =~= Seq::<EnumVariant>::empty());
                assert(variants_view(Seq::<EnumVariant>::empty()) =~= Seq::<SVariant>::empty());
                assert(variants_view(acc@) =~= seq![variant_view(&v)]);
            }
            pos = j;
            loop
                invariant
                    k < pos <= len,
                    len == s@.len(),
                    valid_utf8(s@),
                    variants_view(acc@) + more_variants_spec(s@, pos as int).0 == variant_list_spec(s@, k as int).0,
                    more_variants_spec(s@, pos as int).1 == variant_list_spec(s@, k as int).1,
                ensures
                    k <= pos <= len,
                    variants_view(acc@) == variant_list_spec(s@, k as int).0,
                    pos == variant_list_spec(s@, k as int).1,
                decreases len - pos,
            {
                let ghost before = acc@;
                let next = match field_separator(s, pos) {
                    None => None,
                    Some(q) => enum_variant(s, q),
                };
                match next {
                    None => {
                        assert(variants_view(acc@) + Seq::<SVariant>::empty() =~= variants_view(acc@));
                        break;
                    },
                    Some((v2, m)) => {
                        let ghost vv = variant_view(&v2);
                        acc.push(v2);
                        proof {
                            assert(acc@.drop_last() =~= before);
                            let rest = more_variants_spec(s@, m as int).0;
                            assert(variants_view(acc@) + rest =~= variants_view(before) + (seq![vv] + rest));
                        }
                        pos = m;
                    },
                }
            }
        },
    }
    assert(variants_view(acc@) == variant_list_spec(s@, k as int).0 && pos == variant_list_spec(s@, k as int).1);
    let c = ws(s, pos);
    if byte_at_exec(s, c, 41) {
        Some((Type::Enum(acc), c + 1))
    } else {
        None
    }
}

/// Parse an inline type: a struct, or, failing that, an enum. `()` is an empty struct.
fn inline_type(s: &[u8], i: usize) -> (r: Option<(Type, usize)>)
    requires
        i <= s@.len(),
        valid_utf8(s@),
    ensures
        type_result(r, inline_type_spec(s@, i as int)),
        ends_after(r, i as int, s@.len() as int),
    decreases s@.len() - i, 3nat,
{
    match parameter_list(s, i) {
        Some((fs, j)) => Some((Type::Object(fs), j)),
        None => enum_type(s, i),
    }
}

/// Parse an element type (primitive, custom, or inline).
fn element_type(s: &[u8], i: usize) -> (r: Option<(Type, usize)>)
    requires
        i <= s@.len(),
        valid_utf8(s@),
    ensures
        type_result(r, element_type_spec(s@, i as int)),
        ends_after(r, i as int, s@.len() as int),
    decreases s@.len() - i, 4nat,
{
    match primitive_type(s, i) {
        Some(r) => Some(r),
        None => match name_at(NameKind::Type, s, i) {
            Some(e) => Some((Type::Custom(ascii_text(s, i, e)), e)),
            None => inline_type(s, i),
        },
    }
}

/// Parse an optional type: `?type`.
fn optional_type(s: &[u8], i: usize) -> (r: Option<(Type, usize)>)
    requires
        i <= s@.len(),
        valid_utf8(s@),
    ensures
        type_result(r, optional_type_spec(s@, i as int)),
        ends_after(r, i as int, s@.len() as int),
    decreases s@.len() - i, 5nat,
{
    let _ = s.len();
    if byte_at_exec(s, i, 63) {
        match non_optional_type(s, i + 1) {
            Some((t, e)) => Some((Type::Optional(Box::new(t)), e)),
            None => None,
        }
    } else {
        None
    }
}

/// Parse an array type: `[]type`.
fn array_type(s: &[u8], i: usize) -> (r: Option<(Type, usize)>)
    requires
        i <= s@.len(),
        valid_utf8(s@),
    ensures
        type_result(r, array_type_spec(s@, i as int)),
        ends_after(r, i as int, s@.len() as int),
    decreases s@.len() - i, 5nat,
{
    let _ = s.len();
    if byte_at_exec(s, i, 91) && byte_at_exec(s, i + 1, 93) {
        match varlink_type(s, i + 2) {
            Some((t, e)) => Some((Type::Array(Box::new(t)), e)),
            None => None,
        }
    } else {
        None
    }
}

/// Parse a map type: `[string]type`.
fn map_type(s: &[u8], i: usize) -> (r: Option<(Type, usize)>)
    requires
        i <= s@.len(),
        valid_utf8(s@),
    ensures
        type_result(r, map_type_spec(s@, i as int)),
        ends_after(r, i as int, s@.len() as int),
    decreases s@.len() - i, 5nat,
{
    let kw: [u8; 8] = [91, 115, 116, 114, 105, 110, 103, 93];
    proof {
        assert(kw@ =~= kw_map());
    }
    let _ = s.len();
    if lit_at_exec(s, i, &kw) {
        match varlink_type(s, i + 8) {
            Some((t, e)) => Some((Type::Dict(Box::new(t)), e)),
            None => None,
        }
    } else {
        None
    }
}

/// Parse any type except an optional one.
fn non_optional_type(s: &[u8], i: usize) -> (r: Option<(Type, usize)>)
    requires
        i <= s@.len(),
        valid_utf8(s@),
    ensures
        type_result(r, non_optional_type_spec(s@, i as int)),
        ends_after(r, i as int, s@.len() as int),
    decreases s@.len() - i, 6nat,
{
    match array_type(s, i) {
        Some(r) => Some(r),
        None => match map_type(s, i) {
            Some(r) => Some(r),
            None => element_type(s, i),
        },
    }
}

/// Parse any Varlink type.
fn varlink_type(s: &[u8], i: usize) -> (r: Option<(Type, usize)>)
    requires
        i <= s@.len(),
        valid_utf8(s@),
    ensures
        type_result(r, varlink_type_spec(s@, i as int)),
        ends_after(r, i as int, s@.len() as int),
    decreases s@.len() - i, 6nat,
{
    match optional_type(s, i) {
        Some(r) => Some(r),
        None => match array_type(s, i) {
            Some(r) => Some(r),
            None => match map_type(s, i) {
                Some(r) => Some(r),
                None => element_type(s, i),
            },
        },
    }
}

// ---------------------------------------------------------------------------------------------
// Definitions.

/// A keyword at `i` followed by at least one ASCII whitespace byte.
fn keyword(s: &[u8], i: usize, kw: &[u8]) -> (r: Option<usize>)
    requires
        i <= s@.len(),
    ensures
        match (r, keyword_spec(s@, i as int, kw@)) {
            (Some(q), Some(p)) => q == p && i < q <= s@.len(),
            (None, None) => true,
            _ => false,
        },
{
    let _ = s.len();
    if lit_at_exec(s, i, kw) {
        let p = i + kw.len();
        if p < s.len() && (s[p] == 32 || s[p] == 9 || s[p] == 10 || s[p] == 12 || s[p] == 13) {
            Some(skip_aws_exec(s, p + 1))
        } else {
            None
        }
    } else {
        None
    }
}

/// Parse a method definition: `method Name(inputs) -> (outputs)`.
fn method_def(s: &[u8], i: usize) -> (r: Option<(Method, usize)>)
    requires
        i <= s@.len(),
        valid_utf8(s@),
    ensures
        match (r, method_def_spec(s@, i as int)) {
            (Some((m, e)), Some((sm, f))) => method_view(&m) == sm && e == f && i < e <= s@.len(),
            (None, None) => true,
            _ => false,
        },
{
    let _ = s.len();
    let (cs, p) = parse_preceding_comments(s, i);
    let kw: [u8; 6] = [109, 101, 116, 104, 111, 100];
    let arrow: [u8; 2] = [45, 62];
    proof {
        assert(kw@ =~= kw_method());
        assert(arrow@ =~= kw_arrow());
    }
    let q = match keyword(s, p, &kw) {
        Some(q) => q,
        None => return None,
    };
    let n = match name_at(NameKind::Type, s, q) {
        Some(n) => n,
        None => return None,
    };
    let (inputs, a) = match parameter_list(s, ws(s, n)) {
        Some(x) => x,
        None => return None,
    };
    let b = ws(s, a);
    if !lit_at_exec(s, b, &arrow) {
        return None;
    }
    let (outputs, e) = match parameter_list(s, ws(s, b + 2)) {
        Some(x) => x,
        None => return None,
    };
    let name = ascii_text(s, q, n);
    Some((Method { name, inputs, outputs, comments: cs }, e))
}

/// Parse an error definition: `error Name (fields)`.
fn error_def(s: &[u8], i: usize) -> (r: Option<(ErrorDef, usize)>)
    requires
        i <= s@.len(),
        valid_utf8(s@),
    ensures
        match (r, error_def_spec(s@, i as int)) {
            (Some((x, e)), Some((sx, f))) => error_view(&x) == sx && e == f && i < e <= s@.len(),
            (None, None) => true,
            _ => false,
        },
{
    let (cs, p) = parse_preceding_comments(s, i);
    let kw: [u8; 5] = [101, 114, 114, 111, 114];
    proof {
        assert(kw@ =~= kw_error());
    }
    let q = match keyword(s, p, &kw) {
        Some(q) => q,
        None => return None,
    };
    let n = match name_at(NameKind::Type, s, q) {
        Some(n) => n,
        None => return None,
    };
    let (fields, e) = match parameter_list(s, ws(s, n)) {
        Some(x) => x,
        None => return None,
    };
    let name = ascii_text(s, q, n);
    Some((ErrorDef { name, fields, comments: cs }, e))
}

/// A typed field or an untyped enum variant of a `type` body.
enum Member {
    Field(Field),
    Variant(EnumVariant),
}

spec fn member_view(m: &Member) -> SMember {
    match m {
        Member::Field(f) => SMember::Field(field_view(f)),
        Member::Variant(v) => SMember::Variant(variant_view(v)),
    }
}

/// Parse a single member of a `type Name (...)` body: `name: type` (a struct field) or `name`
/// (an enum variant).
fn field_or_variant(s: &[u8], i: usize) -> (r: Option<(Member, usize)>)
    requires
        i <= s@.len(),
        valid_utf8(s@),
    ensures
        match (r, field_or_variant_spec(s@, i as int)) {
            (Some((m, e)), Some((sm, f))) => member_view(&m) == sm && e == f && i < e <= s@.len(),
            (None, None) => true,
            _ => false,
        },
{
    let _ = s.len();
    let (cs, p) = parse_preceding_comments(s, i);
    let n = match name_at(NameKind::Field, s, p) {
        Some(n) => n,
        None => return None,
    };
    let q = ws(s, n);
    let typed = if byte_at_exec(s, q, 58) {
        varlink_type(s, ws(s, q + 1))
    } else {
        None
    };
    let name = ascii_text(s, p, n);
    match typed {
        Some((t, e)) => Some((Member::Field(Field { name, ty: t, comments: cs }), e)),
        None => Some((Member::Variant(EnumVariant { name, comments: cs }), n)),
    }
}

/// Parse a type definition: `type Name (fields)` or `type Name (variants)`.
fn type_def(s: &[u8], i: usize) -> (r: Option<(CustomType, usize)>)
    requires
        i <= s@.len(),
        valid_utf8(s@),
    ensures
        match (r, type_def_spec(s@, i as int)) {
            (Some((c, e)), Some((sc, f))) => custom_view(&c) == sc && e == f && i < e <= s@.len(),
            (None, None) => true,
            _ => false,
        },
{
    let len = s.len();
    let (cs, p) = parse_preceding_comments(s, i);
    let kw: [u8; 4] = [116, 121, 112, 101];
    proof {
        assert(kw@ =~= kw_type());
    }
    let q = match keyword(s, p, &kw) {
        Some(q) => q,
        None => return None,
    };
    let n = match name_at(NameKind::Type, s, q) {
        Some(n) => n,
        None => return None,
    };
    let o = ws(s, n);
    if !byte_at_exec(s, o, 40) {
        return None;
    }
    let k = skip_ms_exec(s, o + 1);
    let mut fields: Vec<Field> = Vec::new();
    let mut variants: Vec<EnumVariant> = Vec::new();
    let ghost mut items: Seq<SMember> = Seq::empty();
    let ghost total = match field_or_variant_spec(s@, k as int) {
        Some((m, j)) => {
            let (rest, e) = more_members_spec(s@, j);
            (seq![m] + rest, e)
        },
        None => (Seq::<SMember>::empty(), k as int),
    };
    let mut pos = k;
    proof {
        assert(fields_view(Seq::<Field>::empty()) =~= Seq::<SField>::empty());
        assert(variants_view(Seq::<EnumVariant>::empty()) =~= Seq::<SVariant>::empty());
        assert(member_fields(Seq::<SMember>::empty()) =~= Seq::<SField>::empty());
        assert(member_variants(Seq::<SMember>::empty()) =~= Seq::<SVariant>::empty());
    }
    match field_or_variant(s, k) {
        None => {
            assert(items + Seq::<SMember>::empty() =~= items);
        },
        Some((m, j)) => {
            let ghost sm = member_view(&m);
            match m {
                Member::Field(f) => fields.push(f),
                Member::Variant(v) => variants.push(v),
            }
            proof {
                let new_items = items.push(sm);
                assert(new_items.drop_last() =~= items);
                assert(fields.len() > 0 ==> fields@.drop_last() =~= Seq::<Field>::empty());
                assert(variants.len() > 0 ==> variants@.drop_last() =~= Seq::<EnumVariant>::empty());
                items = new_items;
                assert(items + more_members_spec(s@, j as int).0 =~= total.0);
            }
            pos = j;
            loop
                invariant
                    k < pos <= len,
                    len == s@.len(),
                    valid_utf8(s@),
                    fields_view(fields@) == member_fields(items),
                    variants_view(variants@) == member_variants(items),
                    items + more_members_spec(s@, pos as int).0 == total.0,
                    more_members_spec(s@, pos as int).1 == total.1,
                ensures
                    k <= pos <= len,
                    fields_view(fields@) == member_fields(items),
                    variants_view(variants@) == member_variants(items),
                    items == total.0,
                    pos == total.1,
                decreases len - pos,
            {
                let next = match field_separator(s, pos) {
                    None => None,
                    Some(q2) => field_or_variant(s, q2),
                };
                match next {
                    None => {
                        assert(items + Seq::<SMember>::empty() =~= items);
                        break;
                    },
                    Some((m2, e2)) => {
                        let ghost sm2 = member_view(&m2);
                        let ghost fbefore = fields@;
                        let ghost vbefore = variants@;
                        match m2 {
                            Member::Field(f) => fields.push(f),
                            Member::Variant(v) => variants.push(v),
                        }
                        proof {
                            let new_items = items.push(sm2);
                            assert(new_items.drop_last() =~= items);
                            if fields@.len() > fbefore.len() {
                                assert(fields@.drop_last() =~= fbefore);
                            }
                            if variants@.len() > vbefore.len() {
                                assert(variants@.drop_last() =~= vbefore);
                            }
                            let rest = more_members_spec(s@, e2 as int).0;
                            assert(new_items + rest =~= items + (seq![sm2] + rest));
                            items = new_items;
                        }
                        pos = e2;
                    },
                }
            }
        },
    }
    let c = ws(s, pos);
    if !byte_at_exec(s, c, 41) {
        return None;
    }
    let name = ascii_text(s, q, n);
    if fields.len() > 0 && variants.len() > 0 {
        // A custom type cannot mix typed fields and untyped variants.
        None
    } else if variants.len() > 0 {
        Some((CustomType::Enum(CustomEnum { name, variants, comments: cs }), c + 1))
    } else {
        Some((CustomType::Object(CustomObject { name, fields, comments: cs }), c + 1))
    }
}

/// One member of an interface body.
enum Definition {
    Custom(CustomType),
    Method(Method),
    Error(ErrorDef),
}

spec fn definition_view(d: &Definition) -> SDef {
    match d {
        Definition::Custom(c) => SDef::Custom(custom_view(c)),
        Definition::Method(m) => SDef::Method(method_view(m)),
        Definition::Error(e) => SDef::Error(error_view(e)),
    }
}

/// A type, method or error definition, tried in that order.
fn definition(s: &[u8], i: usize) -> (r: Option<(Definition, usize)>)
    requires
        i <= s@.len(),
        valid_utf8(s@),
    ensures
        match (r, definition_spec(s@, i as int)) {
            (Some((d, e)), Some((sd, f))) => definition_view(&d) == sd && e == f && i < e <= s@.len(),
            (None, None) => true,
            _ => false,
        },
{
    if let Some((c, e)) = type_def(s, i) {
        return Some((Definition::Custom(c), e));
    }
    if let Some((m, e)) = method_def(s, i) {
        return Some((Definition::Method(m), e));
    }
    if let Some((x, e)) = error_def(s, i) {
        return Some((Definition::Error(x), e));
    }
    None
}

/// The definitions of an interface body, sorted by kind, each list in input order.
struct Definitions {
    methods: Vec<Method>,
    custom_types: Vec<CustomType>,
    errors: Vec<ErrorDef>,
}

/// Parse the definitions following an interface's name.
fn definitions(s: &[u8], i: usize) -> (r: (Definitions, usize))
    requires
        i <= s@.len(),
        valid_utf8(s@),
    ensures
        methods_view(r.0.methods@) == defs_methods(definitions_spec(s@, i as int).0),
        customs_view(r.0.custom_types@) == defs_customs(definitions_spec(s@, i as int).0),
        errors_view(r.0.errors@) == defs_errors(definitions_spec(s@, i as int).0),
        r.1 == definitions_spec(s@, i as int).1,
        i <= r.1 <= s@.len(),
{
    let len = s.len();
    let mut defs = Definitions { methods: Vec::new(), custom_types: Vec::new(), errors: Vec::new() };
    let ghost mut seen: Seq<SDef> = Seq::empty();
    let mut pos = i;
    proof {
        assert(methods_view(Seq::<Method>::empty()) =~= Seq::<SMethod>::empty());
        assert(customs_view(Seq::<CustomType>::empty()) =~= Seq::<SCustom>::empty());
        assert(errors_view(Seq::<ErrorDef>::empty()) =~= Seq::<SError>::empty());
        assert(defs_methods(Seq::<SDef>::empty()) =~= Seq::<SMethod>::empty());
        assert(defs_customs(Seq::<SDef>::empty()) =~= Seq::<SCustom>::empty());
        assert(defs_errors(Seq::<SDef>::empty()) =~= Seq::<SError>::empty());
        assert(seen + definitions_spec(s@, i as int).0 =~= definitions_spec(s@, i as int).0);
    }
    loop
        invariant
            i <= pos <= len,
            len == s@.len(),
            valid_utf8(s@),
            methods_view(defs.methods@) == defs_methods(seen),
            customs_view(defs.custom_types@) == defs_customs(seen),
            errors_view(defs.errors@) == defs_errors(seen),
            seen + definitions_spec(s@, pos as int).0 == definitions_spec(s@, i as int).0,
            definitions_spec(s@, pos as int).1 == definitions_spec(s@, i as int).1,
        decreases len - pos,
    {
        match definition(s, whitespace_only(s, pos)) {
            None => {
                assert(seen + Seq::<SDef>::empty() =~= seen);
                return (defs, pos);
            },
            Some((d, e)) => {
                let ghost sd = definition_view(&d);
                let ghost mb = defs.methods@;
                let ghost cb = defs.custom_types@;
                let ghost eb = defs.errors@;
                match d {
                    Definition::Custom(c) => defs.custom_types.push(c),
                    Definition::Method(m) => defs.methods.push(m),
                    Definition::Error(x) => defs.errors.push(x),
                }
                proof {
                    let new_seen = seen.push(sd);
                    assert(new_seen.drop_last() =~= seen);
                    if defs.methods@.len() > mb.len() {
                        assert(defs.methods@.drop_last() =~= mb);
                    }
                    if defs.custom_types@.len() > cb.len() {
                        assert(defs.custom_types@.drop_last() =~= cb);
                    }
                    if defs.errors@.len() > eb.len() {
                        assert(defs.errors@.drop_last() =~= eb);
                    }
                    let rest = definitions_spec(s@, e as int).0;
                    assert(new_seen + rest =~= seen + (seq![sd] + rest));
                    seen = new_seen;
                }
                pos = e;
            },
        }
    }
}

/// An error that occurred while parsing Varlink IDL.
#[derive(Debug, PartialEq, Eq)]
pub enum Error {
    /// The input was empty.
    Empty,
    /// Input remained after the interface was parsed.
    TrailingInput(String),
    /// The input could not be parsed.
    Parse(String),
}

/// The text winnow gives a failed parse whose remaining input is `rest`.
pub uninterp spec fn failure_text(rest: Seq<u8>) -> Seq<char>;

/// The report of a parse that failed with `rest` left.
///
/// Wraps the `Display` of winnow's `ErrMode::Backtrack(InputError)` (`error.rs` of winnow): the
/// words `Parsing Error: ` and the `Debug` form of the error, which lists the remaining bytes.
/// The contract only names the text: that `Debug` form is derived, and the standard library
/// documents derived `Debug` output as unstable across Rust versions, so its exact spelling is
/// left unsaid.
#[verifier::external_body]
fn failure_text_of(rest: &[u8]) -> (r: String)
    ensures
        r@ == failure_text(rest@),
{
    let e: winnow::error::ErrMode<winnow::error::InputError<&[u8]>> =
        winnow::error::ErrMode::Backtrack(winnow::error::InputError::at(rest));
    e.to_string()
}

/// The description of an IDL error.
pub open spec fn error_message(e: &Error) -> Seq<char> {
    match e {
        Error::Empty => "Input is empty"@,
        Error::TrailingInput(rest) => "Unexpected remaining input: "@ + debug_str(rest@),
        Error::Parse(msg) => "Parse error: "@ + msg@,
    }
}

/// The `Debug` rendering of a string: quoted, with quotes, backslashes and unprintable
/// characters escaped.
pub uninterp spec fn debug_str(s: Seq<char>) -> Seq<char>;

/// The `Debug` rendering of `s`.
///
/// Wraps `<str as Debug>::fmt` through `format!`; the contract only names its result.
#[verifier::external_body]
fn debug_quote(s: &str) -> (r: String)
    ensures
        r@ == debug_str(s@),
{
    format!("{s:?}")
}

impl Error {
    /// The human-readable description of this error.
    pub fn message(&self) -> (r: String)
        ensures
            r@ == error_message(self),
    {
        match self {
            Error::Empty => String::from_str("Input is empty"),
            Error::TrailingInput(rest) => {
                let q = debug_quote(rest.as_str());
                crate::strings::concat("Unexpected remaining input: ", q.as_str())
            },
            Error::Parse(msg) => crate::strings::concat("Parse error: ", msg.as_str()),
        }
    }
}

/// One `-*[A-Za-z0-9]` step of an interface-name segment from `i`.
fn segment_step_exec(s: &[u8], i: usize) -> (r: Option<usize>)
    requires
        i <= s@.len(),
    ensures
        match r {
            Some(k) => segment_step(s@, i as int) == Some(k as int) && i < k <= s@.len(),
            None => segment_step(s@, i as int) is None,
        },
{
    let mut j = i;
    while j < s.len() && s[j] == 45
        invariant
            i <= j <= s@.len(),
            segment_step(s@, j as int) == segment_step(s@, i as int),
        decreases s@.len() - j,
    {
        j = j + 1;
    }
    if j < s.len() && byte_is_alnum(s[j]) {
        Some(j + 1)
    } else {
        None
    }
}

/// Where the steps of an interface-name segment taken from `i` end.
fn segment_end_exec(s: &[u8], i: usize) -> (r: usize)
    requires
        i <= s@.len(),
    ensures
        r == segment_end(s@, i as int),
        i <= r <= s@.len(),
{
    let mut k = i;
    loop
        invariant
            i <= k <= s@.len(),
            segment_end(s@, k as int) == segment_end(s@, i as int),
        decreases s@.len() - k,
    {
        match segment_step_exec(s, k) {
            Some(n) => {
                k = n;
            },
            None => {
                return k;
            },
        }
    }
}

/// Where the parse of an interface header in `s` stops when it fails.
pub fn header_stop_offset(s: &[u8]) -> (r: usize)
    requires
        valid_utf8(s@),
    ensures
        r == header_stop(s@),
        r <= s@.len(),
{
    let (_, p) = parse_preceding_comments(s, 0);
    let kw: [u8; 9] = [105, 110, 116, 101, 114, 102, 97, 99, 101];
    proof {
        assert(kw@ =~= kw_interface());
    }
    let len = s.len();
    if !lit_at_exec(s, p, &kw) {
        return p;
    }
    assert(p + 9 <= len);
    let after = p + 9;
    if !(after < s.len() && (s[after] == 32 || s[after] == 9 || s[after] == 10 || s[after] == 12 || s[after] == 13)) {
        return after;
    }
    let q = skip_aws_exec(s, after + 1);
    if q < s.len() && ((65 <= s[q] && s[q] <= 90) || (97 <= s[q] && s[q] <= 122)) {
        let a = segment_end_exec(s, q + 1);
        if a < s.len() && s[a] == 46 {
            a + 1
        } else {
            a
        }
    } else {
        q
    }
}

/// The error of a header parse that failed on `s`.
fn header_failure(s: &[u8]) -> (r: Error)
    requires
        valid_utf8(s@),
    ensures
        r matches Error::Parse(m) && m@ == failure_text(s@.subrange(header_stop(s@), s@.len() as int)),
{
    let stop = header_stop_offset(s);
    let rest = slice_subrange(s, stop, s.len());
    Error::Parse(failure_text_of(rest))
}

/// Parse an interface definition at the start of `s`: comments, `interface`, the name and the
/// definitions. A header that does not parse is reported from where its parse stopped.
fn interface_def(s: &[u8]) -> (r: Result<(Interface, usize), Error>)
    requires
        valid_utf8(s@),
    ensures
        match (r, interface_def_spec(s@)) {
            (Ok((x, e)), Some((sx, f))) => interface_view(&x) == sx && e == f && e <= s@.len(),
            (Err(err), None) => err matches Error::Parse(m) && m@ == failure_text(s@.subrange(header_stop(s@), s@.len() as int)),
            _ => false,
        },
{
    let (cs, p) = parse_preceding_comments(s, 0);
    let kw: [u8; 9] = [105, 110, 116, 101, 114, 102, 97, 99, 101];
    proof {
        assert(kw@ =~= kw_interface());
    }
    let q = match keyword(s, p, &kw) {
        Some(q) => q,
        None => return Err(header_failure(s)),
    };
    let n = match name_at(NameKind::Interface, s, q) {
        Some(n) => n,
        None => return Err(header_failure(s)),
    };
    let text_name = ascii_text(s, q, n);
    let name = match crate::names::InterfaceName::try_from(text_name.as_str()) {
        Ok(name) => name,
        Err(_) => return Err(header_failure(s)),
    };
    let (defs, e) = definitions(s, n);
    Ok((
        Interface {
            name,
            methods: defs.methods,
            custom_types: defs.custom_types,
            errors: defs.errors,
            comments: cs,
        },
        e,
    ))
}

/// Unicode `White_Space`, the whitespace `str::trim` removes.
pub open spec fn is_white_space(c: char) -> bool {
    ||| '\u{9}' <= c <= '\u{d}'
    ||| c == ' '
    ||| c == '\u{85}'
    ||| c == '\u{a0}'
    ||| c == '\u{1680}'
    ||| '\u{2000}' <= c <= '\u{200a}'
    ||| c == '\u{2028}'
    ||| c == '\u{2029}'
    ||| c == '\u{202f}'
    ||| c == '\u{205f}'
    ||| c == '\u{3000}'
}

pub open spec fn trim_start_spec(s: Seq<char>) -> Seq<char>
    decreases s.len(),
{
    if s.len() > 0 && is_white_space(s[0]) {
        trim_start_spec(s.drop_first())
    } else {
        s
    }
}

pub open spec fn trim_end_spec(s: Seq<char>) -> Seq<char>
    decreases s.len(),
{
    if s.len() > 0 && is_white_space(s.last()) {
        trim_end_spec(s.drop_last())
    } else {
        s
    }
}

/// `s` without leading and trailing whitespace.
pub open spec fn trim_spec(s: Seq<char>) -> Seq<char> {
    trim_end_spec(trim_start_spec(s))
}

/// `s` with leading and trailing whitespace removed.
///
/// Wraps `str::trim`, which the standard library documents as removing leading and trailing
/// whitespace as defined by the Unicode `White_Space` property.
#[verifier::external_body]
fn trim(s: &str) -> (r: &str)
    ensures
        r@ == trim_spec(s@),
{
    s.trim()
}

/// Every character of `s` is white space.
pub open spec fn all_white_space(s: Seq<char>) -> bool {
    forall|k: int| 0 <= k < s.len() ==> is_white_space(#[trigger] s[k])
}

proof fn lemma_trim_start_prefix(w: Seq<char>, s: Seq<char>)
    requires
        all_white_space(w),
    ensures
        trim_start_spec(w + s) == trim_start_spec(s),
    decreases w.len(),
{
    if w.len() > 0 {
        assert((w + s)[0] == w[0]);
        assert((w + s).drop_first() =~= w.drop_first() + s);
        lemma_trim_start_prefix(w.drop_first(), s);
    } else {
        assert(w + s =~= s);
    }
}

proof fn lemma_trim_end_suffix(s: Seq<char>, w: Seq<char>)
    requires
        all_white_space(w),
    ensures
        trim_end_spec(s + w) == trim_end_spec(s),
    decreases w.len(),
{
    if w.len() > 0 {
        assert((s + w).last() == w.last());
        assert((s + w).drop_last() =~= s + w.drop_last());
        lemma_trim_end_suffix(s, w.drop_last());
    } else {
        assert(s + w =~= s);
    }
}

proof fn lemma_trim_start_then_suffix(s: Seq<char>, w: Seq<char>)
    requires
        all_white_space(w),
    ensures
        trim_end_spec(trim_start_spec(s + w)) == trim_end_spec(trim_start_spec(s)),
    decreases s.len(),
{
    if s.len() > 0 && is_white_space(s[0]) {
        assert((s + w)[0] == s[0]);
        assert((s + w).drop_first() =~= s.drop_first() + w);
        lemma_trim_start_then_suffix(s.drop_first(), w);
    } else if s.len() > 0 {
        assert((s + w)[0] == s[0]);
        lemma_trim_end_suffix(s, w);
    } else {
        assert(s + w =~= w);
        lemma_trim_start_prefix(w, Seq::empty());
        assert(w + Seq::<char>::empty() =~= w);
        assert(trim_start_spec(Seq::<char>::empty()) =~= Seq::<char>::empty());
    }
}

/// White space around an interface definition makes no difference to its parse.
pub proof fn lemma_surrounding_white_space_ignored(before: Seq<char>, text: Seq<char>, after: Seq<char>, r: Result<Interface, Error>)
    requires
        all_white_space(before),
        all_white_space(after),
    ensures
        parse_outcome(before + text + after, r) == parse_outcome(text, r),
{
    assert(before + text + after =~= before + (text + after));
    lemma_trim_start_prefix(before, text + after);
    lemma_trim_start_then_suffix(text, after);
}

/// What remains after the interface, as text; `<invalid UTF-8>` if it is not valid UTF-8.
pub open spec fn trailing_text(t: Seq<char>, rest: Seq<u8>) -> bool {
    if valid_utf8(rest) {
        encode_utf8(t) == rest
    } else {
        t == "<invalid UTF-8>"@
    }
}

/// The outcome of parsing `input` as a whole interface definition.
pub open spec fn parse_outcome(input: Seq<char>, r: Result<Interface, Error>) -> bool {
    let b = encode_utf8(trim_spec(input));
    if b.len() == 0 {
        r == Err::<Interface, Error>(Error::Empty)
    } else {
        match interface_def_spec(b) {
            None => r matches Err(Error::Parse(m))
                && m@ == "Parse error: "@ + failure_text(b.subrange(header_stop(b), b.len() as int)),
            Some((si, p)) => {
                let e = ws_spec(b, p);
                if e == b.len() {
                    r matches Ok(x) && interface_view(&x) == si
                } else {
                    r matches Err(Error::TrailingInput(t)) && trailing_text(t@, b.subrange(e, b.len() as int))
                }
            },
        }
    }
}

/// Parse an interface from a string: surrounding whitespace is ignored, and once the interface
/// is parsed only whitespace and comments may follow.
pub fn parse_interface(input: &str) -> (r: Result<Interface, Error>)
    ensures
        parse_outcome(input@, r),
{
    parse_from_str(input)
}

/// Parse a whole interface definition from `input`.
fn parse_from_str(input: &str) -> (r: Result<Interface, Error>)
    ensures
        parse_outcome(input@, r),
{
    let trimmed = trim(input);
    let bytes = trimmed.as_bytes();
    proof {
        vstd::utf8::encode_utf8_valid_utf8(trimmed@);
    }
    if bytes.len() == 0 {
        return Err(Error::Empty);
    }
    match interface_def(bytes) {
        Ok((interface, p)) => {
            let e = ws(bytes, p);
            if e == bytes.len() {
                Ok(interface)
            } else {
                let rest = vstd::slice::slice_to_vec(slice_subrange(bytes, e, bytes.len()));
                let text = match crate::strings::string_from_utf8(rest) {
                    Some(t) => t,
                    None => String::from_str("<invalid UTF-8>"),
                };
                Err(Error::TrailingInput(text))
            }
        },
        // The parser's own error is reported through its description, as a parse error.
        Err(err) => Err(Error::Parse(err.message())),
    }
}

impl Interface {
    /// Parse an interface from its IDL text.
    pub fn try_from(input: &str) -> (r: Result<Interface, Error>)
        ensures
            parse_outcome(input@, r),
    {
        parse_interface(input)
    }
}

/// How a type is written in IDL, for the types written without whitespace or comments: each
/// primitive by its keyword, a custom type by its name, and `?`, `[]` or `[string]` before the
/// type they apply to. `None` for inline objects and enums.
pub open spec fn type_text(t: SType) -> Option<Seq<u8>>
    decreases t,
{
    match t {
        SType::Bool => Some(seq![98u8, 111, 111, 108]),
        SType::Int => Some(seq![105u8, 110, 116]),
        SType::Float => Some(seq![102u8, 108, 111, 97, 116]),
        SType::Str => Some(seq![115u8, 116, 114, 105, 110, 103]),
        SType::ForeignObject => Some(seq![111u8, 98, 106, 101, 99, 116]),
        SType::Any => Some(seq![97u8, 110, 121]),
        SType::Custom(name) => Some(name),
        SType::Optional(b) => match type_text(*b) {
            Some(w) => Some(seq![63u8] + w),
            None => None,
        },
        SType::Array(b) => match type_text(*b) {
            Some(w) => Some(seq![91u8, 93] + w),
            None => None,
        },
        SType::Dict(b) => match type_text(*b) {
            Some(w) => Some(seq![91u8, 115, 116, 114, 105, 110, 103, 93] + w),
            None => None,
        },
        _ => None,
    }
}

/// What a read type is written as is what was read.
pub open spec fn reads_as_written(s: Seq<u8>, i: int, r: Option<(SType, int)>) -> bool {
    match r {
        Some((t, e)) => match type_text(t) {
            Some(w) => i <= e <= s.len() && s.subrange(i, e) == w,
            None => true,
        },
        None => true,
    }
}

proof fn lemma_element_written(s: Seq<u8>, i: int)
    ensures
        reads_as_written(s, i, element_type_spec(s, i)),
{
    if lit_at(s, i, kw_bool()) {
        assert(s.subrange(i, i + 4) =~= seq![98u8, 111, 111, 108]);
    } else if lit_at(s, i, kw_int()) {
        assert(s.subrange(i, i + 3) =~= seq![105u8, 110, 116]);
    } else if lit_at(s, i, kw_float()) {
        assert(s.subrange(i, i + 5) =~= seq![102u8, 108, 111, 97, 116]);
    } else if lit_at(s, i, kw_string()) {
        assert(s.subrange(i, i + 6) =~= seq![115u8, 116, 114, 105, 110, 103]);
    } else if lit_at(s, i, kw_object()) {
        assert(s.subrange(i, i + 6) =~= seq![111u8, 98, 106, 101, 99, 116]);
    } else if lit_at(s, i, kw_any()) {
        assert(s.subrange(i, i + 3) =~= seq![97u8, 110, 121]);
    } else {
        match type_end(s, i) {
            Some(e) => {
                let t = s.subrange(i, s.len() as int);
                let acc = |u: Seq<u8>| is_type_name(u);
                assert(prefix_len(acc, t) is Some);
                let n = prefix_len(acc, t)->0;
                assert(exists|m: usize| longest_prefix(acc, t, Some(m)));
                assert(longest_prefix(acc, t, Some(n)));
                assert(e == i + n);
            },
            None => {},
        }
    }
}

proof fn lemma_type_written(s: Seq<u8>, i: int, non_optional: bool)
    ensures
        reads_as_written(s, i, if non_optional { non_optional_type_spec(s, i) } else { varlink_type_spec(s, i) }),
    decreases s.len() - i,
{
    if !non_optional && byte_at(s, i, 63) {
        lemma_type_written(s, i + 1, true);
        match non_optional_type_spec(s, i + 1) {
            Some((t, e)) => {
                if type_text(t) is Some {
                    assert(s.subrange(i, e) =~= seq![63u8] + s.subrange(i + 1, e));
                }
            },
            None => {},
        }
    } else if byte_at(s, i, 91) && byte_at(s, i + 1, 93) {
        lemma_type_written(s, i + 2, false);
        match varlink_type_spec(s, i + 2) {
            Some((t, e)) => {
                if type_text(t) is Some {
                    assert(s.subrange(i, e) =~= seq![91u8, 93] + s.subrange(i + 2, e));
                }
            },
            None => {},
        }
    } else if lit_at(s, i, kw_map()) {
        lemma_type_written(s, i + 8, false);
        match varlink_type_spec(s, i + 8) {
            Some((t, e)) => {
                if type_text(t) is Some {
                    assert(s.subrange(i, i + 8) =~= seq![91u8, 115, 116, 114, 105, 110, 103, 93]);
                    assert(s.subrange(i, e) =~= s.subrange(i, i + 8) + s.subrange(i + 8, e));
                }
            },
            None => {},
        }
    } else {
        lemma_element_written(s, i);
    }
}

/// A type is read as it is written: whatever the input, when a type is read at `i` up to `e`, the
/// bytes between are exactly how that type is written (each primitive type by its own keyword,
/// `[]T` as an array of `T`, `[string]T` as a map of `T`, `?T` as an optional `T`), for every
/// type written without whitespace or comments.
pub proof fn lemma_type_read_as_written(s: Seq<u8>, i: int)
    ensures
        reads_as_written(s, i, varlink_type_spec(s, i)),
{
    lemma_type_written(s, i, false);
}

/// A field's type is read as it is written: the field's text ends with how its type is written.
pub proof fn lemma_field_type_as_written(s: Seq<u8>, i: int)
    ensures
        match field_spec(s, i) {
            Some((f, e)) => match type_text(f.ty) {
                Some(w) => w.len() <= e <= s.len() && s.subrange(e - w.len(), e) == w,
                None => true,
            },
            None => true,
        },
{
    let (cs, p) = comments_spec(s, i);
    match field_end(s, p) {
        Some(n) => {
            let q = ws_spec(s, n);
            let r = ws_spec(s, q + 1);
            lemma_type_read_as_written(s, r);
        },
        None => {},
    }
}

} // verus!
