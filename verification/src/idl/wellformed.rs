//! The names in a parsed interface: the parser takes each name with the grammar of its kind, so
//! every name it yields is one the name validators accept.
use vstd::prelude::*;

use super::parse::{
    definition_spec, definitions_spec, defs_customs, defs_errors, defs_methods, error_def_spec,
    field_or_variant_spec, interface_def_spec, interface_end, keyword_spec, kw_error, kw_interface,
    kw_method, kw_type, member_fields, member_variants, method_def_spec, more_members_spec, parse_outcome,
    trim_spec, type_def_spec, type_end, SDef, SMember,
    byte_at, comments_spec, element_type_spec, enum_body_spec, enum_variant_spec, field_end, field_list_spec,
    field_spec, inline_type_spec, item_sep_spec, kw_map, lit_at, map_type_spec, more_fields_spec,
    more_variants_spec, name_end, non_optional_type_spec, optional_type_spec, array_type_spec, skip_ms,
    struct_body_spec, varlink_type_spec, ws_spec,
};
use super::{interface_view, Interface, SCustom, SError, SField, SInterface, SMethod, SType, SVariant};
use crate::names::grammar::{
    is_alnum, is_field_name, is_interface_name, is_type_name, lemma_prefix_len, longest_prefix, prefix_len,
};

verus! {

/// Every name inside a type is valid: custom type names as type names, and the fields and
/// variants of inline types, at any depth, as field names.
pub open spec fn type_names_ok(t: SType) -> bool
    decreases t,
{
    match t {
        SType::Custom(n) => is_type_name(n),
        SType::Optional(b) => type_names_ok(*b),
        SType::Array(b) => type_names_ok(*b),
        SType::Dict(b) => type_names_ok(*b),
        SType::Object(fs) => fields_names_ok(fs),
        SType::Enum(vs) => variants_names_ok(vs),
        _ => true,
    }
}

/// Every field has a valid field name, and valid names inside its type.
pub open spec fn fields_names_ok(fs: Seq<SField>) -> bool
    decreases fs,
{
    if fs.len() == 0 {
        true
    } else {
        &&& fields_names_ok(fs.drop_last())
        &&& is_field_name(fs.last().name)
        &&& type_names_ok(fs.last().ty)
    }
}

/// Every variant has a valid field name.
pub open spec fn variants_names_ok(vs: Seq<SVariant>) -> bool {
    forall|k: int| 0 <= k < vs.len() ==> is_field_name(#[trigger] vs[k].name)
}

pub open spec fn method_names_ok(m: SMethod) -> bool {
    &&& is_type_name(m.name)
    &&& fields_names_ok(m.inputs)
    &&& fields_names_ok(m.outputs)
}

pub open spec fn error_names_ok(e: SError) -> bool {
    &&& is_type_name(e.name)
    &&& fields_names_ok(e.fields)
}

pub open spec fn custom_names_ok(c: SCustom) -> bool {
    match c {
        SCustom::Object { name, fields, .. } => is_type_name(name) && fields_names_ok(fields),
        SCustom::Enum { name, variants, .. } => is_type_name(name) && variants_names_ok(variants),
    }
}

/// Every name in an interface is valid for its kind: the interface's own name, the names of its
/// methods, errors and custom types, and every field and variant name at any depth.
pub open spec fn interface_names_ok(i: SInterface) -> bool {
    &&& is_interface_name(i.name)
    &&& forall|k: int| 0 <= k < i.methods.len() ==> method_names_ok(#[trigger] i.methods[k])
    &&& forall|k: int| 0 <= k < i.errors.len() ==> error_names_ok(#[trigger] i.errors[k])
    &&& forall|k: int| 0 <= k < i.custom_types.len() ==> custom_names_ok(#[trigger] i.custom_types[k])
}

proof fn lemma_name_end(accepts: spec_fn(Seq<u8>) -> bool, s: Seq<u8>, i: int)
    ensures
        name_end(accepts, s, i) matches Some(n) ==> i <= n <= s.len() && accepts(s.subrange(i, n)),
{
    if 0 <= i <= s.len() {
        let t = s.subrange(i, s.len() as int);
        if exists|n: usize| longest_prefix(accepts, t, Some(n)) {
            let n = choose|n: usize| longest_prefix(accepts, t, Some(n));
            assert(prefix_len(accepts, t) == Some(n));
            assert(t.take(n as int) =~= s.subrange(i, i + n));
        }
    }
}

proof fn lemma_fields_concat(a: Seq<SField>, b: Seq<SField>)
    ensures
        fields_names_ok(a + b) == (fields_names_ok(a) && fields_names_ok(b)),
    decreases b.len(),
{
    if b.len() == 0 {
        assert(a + b =~= a);
    } else {
        lemma_fields_concat(a, b.drop_last());
        assert((a + b).drop_last() =~= a + b.drop_last());
        assert((a + b).last() == b.last());
    }
}

proof fn lemma_fields_one(f: SField)
    ensures
        fields_names_ok(seq![f]) == (is_field_name(f.name) && type_names_ok(f.ty)),
{
    assert(seq![f].drop_last() =~= Seq::<SField>::empty());
    assert(fields_names_ok(Seq::<SField>::empty()));
    assert(seq![f].last() == f);
}

proof fn lemma_field(s: Seq<u8>, i: int)
    ensures
        field_spec(s, i) matches Some((f, _)) ==> is_field_name(f.name) && type_names_ok(f.ty),
    decreases s.len() - i, 0nat,
{
    let (cs, p) = comments_spec(s, i);
    lemma_name_end(|t: Seq<u8>| is_field_name(t), s, p);
    match field_end(s, p) {
        Some(n) => {
            let q = ws_spec(s, n);
            if byte_at(s, q, 58) {
                let r = ws_spec(s, q + 1);
                if i < r <= s.len() {
                    lemma_varlink_type(s, r);
                }
            }
        },
        None => {},
    }
}

proof fn lemma_field_list(s: Seq<u8>, i: int)
    ensures
        fields_names_ok(field_list_spec(s, i).0),
    decreases s.len() - i, 1nat,
{
    lemma_field(s, i);
    match field_spec(s, i) {
        Some((f, j)) => {
            lemma_fields_one(f);
            if i < j <= s.len() {
                lemma_more_fields(s, j);
                lemma_fields_concat(seq![f], more_fields_spec(s, j).0);
            }
        },
        None => {},
    }
}

proof fn lemma_more_fields(s: Seq<u8>, j: int)
    ensures
        fields_names_ok(more_fields_spec(s, j).0),
    decreases s.len() - j, 1nat,
{
    match item_sep_spec(s, j) {
        Some(k) => {
            if j < k <= s.len() {
                lemma_field(s, k);
                match field_spec(s, k) {
                    Some((f, m)) => {
                        lemma_fields_one(f);
                        if j < m <= s.len() {
                            lemma_more_fields(s, m);
                            lemma_fields_concat(seq![f], more_fields_spec(s, m).0);
                        }
                    },
                    None => {},
                }
            }
        },
        None => {},
    }
}

proof fn lemma_struct_body(s: Seq<u8>, i: int)
    ensures
        struct_body_spec(s, i) matches Some((fs, _)) ==> fields_names_ok(fs),
    decreases s.len() - i, 2nat,
{
    if byte_at(s, i, 40) {
        let k = skip_ms(s, i + 1);
        if i < k <= s.len() {
            lemma_field_list(s, k);
        }
    }
}

proof fn lemma_variant(s: Seq<u8>, i: int)
    ensures
        enum_variant_spec(s, i) matches Some((v, _)) ==> is_field_name(v.name),
{
    let (cs, p) = comments_spec(s, i);
    lemma_name_end(|t: Seq<u8>| is_field_name(t), s, p);
}

proof fn lemma_variants_concat(a: Seq<SVariant>, b: Seq<SVariant>)
    requires
        variants_names_ok(a),
        variants_names_ok(b),
    ensures
        variants_names_ok(a + b),
{
    assert forall|k: int| 0 <= k < (a + b).len() implies is_field_name(#[trigger] (a + b)[k].name) by {
        if k < a.len() {
            assert((a + b)[k] == a[k]);
        } else {
            assert((a + b)[k] == b[k - a.len()]);
        }
    }
}

proof fn lemma_more_variants(s: Seq<u8>, j: int)
    ensures
        variants_names_ok(more_variants_spec(s, j).0),
    decreases s.len() - j,
{
    match item_sep_spec(s, j) {
        Some(k) => {
            lemma_variant(s, k);
            match enum_variant_spec(s, k) {
                Some((v, m)) => {
                    if j < m <= s.len() {
                        lemma_more_variants(s, m);
                        lemma_variants_concat(seq![v], more_variants_spec(s, m).0);
                    }
                },
                None => {},
            }
        },
        None => {},
    }
}

proof fn lemma_enum_body(s: Seq<u8>, i: int)
    ensures
        enum_body_spec(s, i) matches Some((vs, _)) ==> variants_names_ok(vs),
{
    if byte_at(s, i, 40) {
        let k = skip_ms(s, i + 1);
        lemma_variant(s, k);
        match enum_variant_spec(s, k) {
            Some((v, j)) => {
                lemma_more_variants(s, j);
                lemma_variants_concat(seq![v], more_variants_spec(s, j).0);
            },
            None => {},
        }
    }
}

proof fn lemma_inline_type(s: Seq<u8>, i: int)
    ensures
        inline_type_spec(s, i) matches Some((t, _)) ==> type_names_ok(t),
    decreases s.len() - i, 3nat,
{
    lemma_struct_body(s, i);
    lemma_enum_body(s, i);
}

proof fn lemma_element_type(s: Seq<u8>, i: int)
    ensures
        element_type_spec(s, i) matches Some((t, _)) ==> type_names_ok(t),
    decreases s.len() - i, 4nat,
{
    lemma_name_end(|t: Seq<u8>| is_type_name(t), s, i);
    lemma_inline_type(s, i);
}

proof fn lemma_optional_type(s: Seq<u8>, i: int)
    ensures
        optional_type_spec(s, i) matches Some((t, _)) ==> type_names_ok(t),
    decreases s.len() - i, 5nat,
{
    if byte_at(s, i, 63) {
        lemma_non_optional_type(s, i + 1);
    }
}

proof fn lemma_array_type(s: Seq<u8>, i: int)
    ensures
        array_type_spec(s, i) matches Some((t, _)) ==> type_names_ok(t),
    decreases s.len() - i, 5nat,
{
    if byte_at(s, i, 91) && byte_at(s, i + 1, 93) {
        lemma_varlink_type(s, i + 2);
    }
}

proof fn lemma_map_type(s: Seq<u8>, i: int)
    ensures
        map_type_spec(s, i) matches Some((t, _)) ==> type_names_ok(t),
    decreases s.len() - i, 5nat,
{
    if lit_at(s, i, kw_map()) {
        lemma_varlink_type(s, i + 8);
    }
}

proof fn lemma_non_optional_type(s: Seq<u8>, i: int)
    ensures
        non_optional_type_spec(s, i) matches Some((t, _)) ==> type_names_ok(t),
    decreases s.len() - i, 6nat,
{
    lemma_array_type(s, i);
    lemma_map_type(s, i);
    lemma_element_type(s, i);
}

proof fn lemma_varlink_type(s: Seq<u8>, i: int)
    ensures
        varlink_type_spec(s, i) matches Some((t, _)) ==> type_names_ok(t),
    decreases s.len() - i, 6nat,
{
    lemma_optional_type(s, i);
    lemma_array_type(s, i);
    lemma_map_type(s, i);
    lemma_element_type(s, i);
}

proof fn lemma_method(s: Seq<u8>, i: int)
    ensures
        method_def_spec(s, i) matches Some((m, _)) ==> method_names_ok(m),
{
    let (cs, p) = comments_spec(s, i);
    match keyword_spec(s, p, kw_method()) {
        Some(q) => {
            lemma_name_end(|t: Seq<u8>| is_type_name(t), s, q);
            match type_end(s, q) {
                Some(n) => {
                    lemma_struct_body(s, ws_spec(s, n));
                    match struct_body_spec(s, ws_spec(s, n)) {
                        Some((inputs, a)) => {
                            let b = ws_spec(s, a);
                            lemma_struct_body(s, ws_spec(s, b + 2));
                        },
                        None => {},
                    }
                },
                None => {},
            }
        },
        None => {},
    }
}

proof fn lemma_error(s: Seq<u8>, i: int)
    ensures
        error_def_spec(s, i) matches Some((e, _)) ==> error_names_ok(e),
{
    let (cs, p) = comments_spec(s, i);
    match keyword_spec(s, p, kw_error()) {
        Some(q) => {
            lemma_name_end(|t: Seq<u8>| is_type_name(t), s, q);
            match type_end(s, q) {
                Some(n) => {
                    lemma_struct_body(s, ws_spec(s, n));
                },
                None => {},
            }
        },
        None => {},
    }
}

/// Every typed member is a field with valid names, every untyped one a variant with a valid name.
pub open spec fn members_names_ok(ms: Seq<SMember>) -> bool {
    forall|k: int| 0 <= k < ms.len() ==> match #[trigger] ms[k] {
        SMember::Field(f) => is_field_name(f.name) && type_names_ok(f.ty),
        SMember::Variant(v) => is_field_name(v.name),
    }
}

proof fn lemma_member(s: Seq<u8>, i: int)
    ensures
        field_or_variant_spec(s, i) matches Some((m, _)) ==> members_names_ok(seq![m]),
{
    let (cs, p) = comments_spec(s, i);
    lemma_name_end(|t: Seq<u8>| is_field_name(t), s, p);
    match field_end(s, p) {
        Some(n) => {
            let q = ws_spec(s, n);
            lemma_varlink_type(s, ws_spec(s, q + 1));
            match field_or_variant_spec(s, i) {
                Some((m, _)) => {
                    assert forall|k: int| 0 <= k < seq![m].len() implies match #[trigger] seq![m][k] {
                        SMember::Field(f) => is_field_name(f.name) && type_names_ok(f.ty),
                        SMember::Variant(v) => is_field_name(v.name),
                    } by {
                        assert(seq![m][k] == m);
                    }
                },
                None => {},
            }
        },
        None => {},
    }
}

proof fn lemma_members_concat(a: Seq<SMember>, b: Seq<SMember>)
    requires
        members_names_ok(a),
        members_names_ok(b),
    ensures
        members_names_ok(a + b),
{
    assert forall|k: int| 0 <= k < (a + b).len() implies match #[trigger] (a + b)[k] {
        SMember::Field(f) => is_field_name(f.name) && type_names_ok(f.ty),
        SMember::Variant(v) => is_field_name(v.name),
    } by {
        if k < a.len() {
            assert((a + b)[k] == a[k]);
        } else {
            assert((a + b)[k] == b[k - a.len()]);
        }
    }
}

proof fn lemma_more_members(s: Seq<u8>, j: int)
    ensures
        members_names_ok(more_members_spec(s, j).0),
    decreases s.len() - j,
{
    match item_sep_spec(s, j) {
        Some(k) => {
            lemma_member(s, k);
            match field_or_variant_spec(s, k) {
                Some((v, m)) => {
                    if j < m <= s.len() {
                        lemma_more_members(s, m);
                        lemma_members_concat(seq![v], more_members_spec(s, m).0);
                    }
                },
                None => {},
            }
        },
        None => {},
    }
}

proof fn lemma_member_parts(ms: Seq<SMember>)
    requires
        members_names_ok(ms),
    ensures
        fields_names_ok(member_fields(ms)),
        variants_names_ok(member_variants(ms)),
    decreases ms.len(),
{
    if ms.len() > 0 {
        let rest = ms.drop_last();
        assert forall|k: int| 0 <= k < rest.len() implies match #[trigger] rest[k] {
            SMember::Field(f) => is_field_name(f.name) && type_names_ok(f.ty),
            SMember::Variant(v) => is_field_name(v.name),
        } by {
            assert(rest[k] == ms[k]);
        }
        lemma_member_parts(rest);
        assert(match ms[ms.len() - 1] {
            SMember::Field(f) => is_field_name(f.name) && type_names_ok(f.ty),
            SMember::Variant(v) => is_field_name(v.name),
        });
        match ms.last() {
            SMember::Field(f) => {
                assert(member_fields(ms) == member_fields(rest).push(f));
                assert(member_fields(rest).push(f).drop_last() =~= member_fields(rest));
            },
            SMember::Variant(v) => {
                let vs = member_variants(ms);
                assert(vs == member_variants(rest).push(v));
                assert forall|k: int| 0 <= k < vs.len() implies is_field_name(#[trigger] vs[k].name) by {
                    if k < vs.len() - 1 {
                        assert(vs[k] == member_variants(rest)[k]);
                    }
                }
            },
        }
    }
}

proof fn lemma_type_def(s: Seq<u8>, i: int)
    ensures
        type_def_spec(s, i) matches Some((c, _)) ==> custom_names_ok(c),
{
    let (cs, p) = comments_spec(s, i);
    match keyword_spec(s, p, kw_type()) {
        Some(q) => {
            lemma_name_end(|t: Seq<u8>| is_type_name(t), s, q);
            match type_end(s, q) {
                Some(n) => {
                    let o = ws_spec(s, n);
                    let k = skip_ms(s, o + 1);
                    lemma_member(s, k);
                    match field_or_variant_spec(s, k) {
                        Some((m, j)) => {
                            lemma_more_members(s, j);
                            lemma_members_concat(seq![m], more_members_spec(s, j).0);
                            lemma_member_parts(seq![m] + more_members_spec(s, j).0);
                        },
                        None => {
                            assert(members_names_ok(Seq::<SMember>::empty()));
                            lemma_member_parts(Seq::<SMember>::empty());
                        },
                    }
                },
                None => {},
            }
        },
        None => {},
    }
}

/// Every definition has valid names.
pub open spec fn defs_names_ok(ds: Seq<SDef>) -> bool {
    forall|k: int| 0 <= k < ds.len() ==> match #[trigger] ds[k] {
        SDef::Custom(c) => custom_names_ok(c),
        SDef::Method(m) => method_names_ok(m),
        SDef::Error(e) => error_names_ok(e),
    }
}

proof fn lemma_definitions(s: Seq<u8>, i: int)
    ensures
        defs_names_ok(definitions_spec(s, i).0),
    decreases s.len() - i,
{
    let at = skip_ms(s, i);
    lemma_type_def(s, at);
    lemma_method(s, at);
    lemma_error(s, at);
    match definition_spec(s, at) {
        Some((d, e)) => {
            let ds = definitions_spec(s, i).0;
            if i < e <= s.len() {
                lemma_definitions(s, e);
                let rest = definitions_spec(s, e).0;
                assert(ds == seq![d] + rest);
                assert forall|k: int| 0 <= k < ds.len() implies match #[trigger] ds[k] {
                    SDef::Custom(c) => custom_names_ok(c),
                    SDef::Method(m) => method_names_ok(m),
                    SDef::Error(x) => error_names_ok(x),
                } by {
                    if k > 0 {
                        assert(ds[k] == rest[k - 1]);
                    }
                }
            } else {
                assert(ds == seq![d]);
                assert forall|k: int| 0 <= k < ds.len() implies match #[trigger] ds[k] {
                    SDef::Custom(c) => custom_names_ok(c),
                    SDef::Method(m) => method_names_ok(m),
                    SDef::Error(x) => error_names_ok(x),
                } by {
                    assert(ds[k] == d);
                }
            }
        },
        None => {},
    }
}

proof fn lemma_defs_parts(ds: Seq<SDef>)
    requires
        defs_names_ok(ds),
    ensures
        forall|k: int| 0 <= k < defs_methods(ds).len() ==> method_names_ok(#[trigger] defs_methods(ds)[k]),
        forall|k: int| 0 <= k < defs_errors(ds).len() ==> error_names_ok(#[trigger] defs_errors(ds)[k]),
        forall|k: int| 0 <= k < defs_customs(ds).len() ==> custom_names_ok(#[trigger] defs_customs(ds)[k]),
    decreases ds.len(),
{
    if ds.len() > 0 {
        let rest = ds.drop_last();
        assert forall|k: int| 0 <= k < rest.len() implies match #[trigger] rest[k] {
            SDef::Custom(c) => custom_names_ok(c),
            SDef::Method(m) => method_names_ok(m),
            SDef::Error(x) => error_names_ok(x),
        } by {
            assert(rest[k] == ds[k]);
        }
        lemma_defs_parts(rest);
        assert(match ds[ds.len() - 1] {
            SDef::Custom(c) => custom_names_ok(c),
            SDef::Method(m) => method_names_ok(m),
            SDef::Error(x) => error_names_ok(x),
        });
        let ms = defs_methods(ds);
        let es = defs_errors(ds);
        let cs = defs_customs(ds);
        assert forall|k: int| 0 <= k < ms.len() implies method_names_ok(#[trigger] ms[k]) by {
            if k < defs_methods(rest).len() {
                assert(ms[k] == defs_methods(rest)[k]);
            }
        }
        assert forall|k: int| 0 <= k < es.len() implies error_names_ok(#[trigger] es[k]) by {
            if k < defs_errors(rest).len() {
                assert(es[k] == defs_errors(rest)[k]);
            }
        }
        assert forall|k: int| 0 <= k < cs.len() implies custom_names_ok(#[trigger] cs[k]) by {
            if k < defs_customs(rest).len() {
                assert(cs[k] == defs_customs(rest)[k]);
            }
        }
    }
}

/// The interface the grammar reads off `s` has valid names throughout.
pub proof fn lemma_interface_def_names(s: Seq<u8>)
    ensures
        interface_def_spec(s) matches Some((i, _)) ==> interface_names_ok(i),
{
    let (cs, p) = comments_spec(s, 0);
    match keyword_spec(s, p, kw_interface()) {
        Some(q) => {
            lemma_name_end(|t: Seq<u8>| is_interface_name(t), s, q);
            match interface_end(s, q) {
                Some(n) => {
                    lemma_definitions(s, n);
                    lemma_defs_parts(definitions_spec(s, n).0);
                },
                None => {},
            }
        },
        None => {},
    }
}

/// Every name in an interface the parser returns is accepted by the validator of its kind: the
/// parser reads names with the very grammars the validators check, so no name gets into an
/// interface that the validators would refuse.
pub proof fn lemma_parsed_names_valid(input: Seq<char>, r: Result<Interface, super::parse::Error>)
    requires
        parse_outcome(input, r),
    ensures
        r matches Ok(i) ==> interface_names_ok(interface_view(&i)),
{
    lemma_interface_def_names(vstd::utf8::encode_utf8(trim_spec(input)));
}

/// A valid field name followed by a byte that cannot continue one (or by nothing) is read whole
/// where the grammar expects a field or variant name: the parser takes every name the field
/// validator accepts.
pub proof fn lemma_field_name_read_whole(n: Seq<u8>, rest: Seq<u8>)
    requires
        is_field_name(n),
        n.len() <= usize::MAX,
        rest.len() == 0 || !(is_alnum(rest[0]) || rest[0] == 95u8),
    ensures
        field_end(n + rest, 0) == Some(n.len() as int),
{
    let s = n + rest;
    assert(s.take(n.len() as int) =~= n);
    assert forall|m: int| n.len() < m <= s.len() implies !is_field_name(#[trigger] s.take(m)) by {
        let t = s.take(m);
        assert(t[n.len() as int] == rest[0]);
    }
    lemma_prefix_len(|t: Seq<u8>| is_field_name(t), s, Some(n.len() as usize));
    assert(s.subrange(0, s.len() as int) =~= s);
}

/// A valid type name followed by a byte that cannot continue one (or by nothing) is read whole
/// where the grammar expects a type name: the parser takes every name the type validator
/// accepts.
pub proof fn lemma_type_name_read_whole(n: Seq<u8>, rest: Seq<u8>)
    requires
        is_type_name(n),
        n.len() <= usize::MAX,
        rest.len() == 0 || !is_alnum(rest[0]),
    ensures
        type_end(n + rest, 0) == Some(n.len() as int),
{
    let s = n + rest;
    assert(s.take(n.len() as int) =~= n);
    assert forall|m: int| n.len() < m <= s.len() implies !is_type_name(#[trigger] s.take(m)) by {
        let t = s.take(m);
        assert(t[n.len() as int] == rest[0]);
    }
    lemma_prefix_len(|t: Seq<u8>| is_type_name(t), s, Some(n.len() as usize));
    assert(s.subrange(0, s.len() as int) =~= s);
}

} // verus!
