//! Field-list helpers for inlining flattened fields.
//!
//! The derive code turns a `#[zlink(flatten)]` field into the member list of the flattened type,
//! and the members of a struct into the concatenation of its field groups.
use vstd::prelude::*;

use super::{Field, Type};

verus! {

/// Every group of `groups` laid end to end, in order.
pub open spec fn flat<'a>(groups: Seq<&[&'a Field]>) -> Seq<&'a Field>
    decreases groups.len(),
{
    if groups.len() == 0 {
        Seq::empty()
    } else {
        flat(groups.drop_last()) + groups.last()@
    }
}

/// The sum of the lengths of the groups.
pub open spec fn lens_sum(groups: Seq<&[&Field]>) -> nat
    decreases groups.len(),
{
    if groups.len() == 0 {
        0
    } else {
        lens_sum(groups.drop_last()) + groups.last()@.len()
    }
}

proof fn lemma_lens_sum_prefix(groups: Seq<&[&Field]>, i: int)
    requires
        0 <= i <= groups.len(),
    ensures
        lens_sum(groups.take(i)) <= lens_sum(groups),
    decreases groups.len(),
{
    if i < groups.len() {
        assert(groups.drop_last().take(i) =~= groups.take(i));
        lemma_lens_sum_prefix(groups.drop_last(), i);
    } else {
        assert(groups.take(i) =~= groups);
    }
}

/// Concatenating the groups gives as many fields as the groups hold together.
pub proof fn lemma_concat_len_is_total(groups: Seq<&[&Field]>)
    ensures
        flat(groups).len() == lens_sum(groups),
    decreases groups.len(),
{
    if groups.len() > 0 {
        lemma_concat_len_is_total(groups.drop_last());
    }
}

/// The total number of fields once every group in `groups` is inlined.
pub fn total_field_count(groups: &[&[&Field]]) -> (r: usize)
    requires
        lens_sum(groups@) <= usize::MAX,
    ensures
        r == lens_sum(groups@),
{
    let mut total: usize = 0;
    let mut i: usize = 0;
    while i < groups.len()
        invariant
            i <= groups@.len(),
            lens_sum(groups@) <= usize::MAX,
            total == lens_sum(groups@.take(i as int)),
        decreases groups@.len() - i,
    {
        proof {
            assert(groups@.take(i + 1).drop_last() =~= groups@.take(i as int));
            lemma_lens_sum_prefix(groups@, i + 1);
        }
        total = total + groups[i].len();
        i = i + 1;
    }
    proof {
        assert(groups@.take(i as int) =~= groups@);
    }
    total
}

/// Concatenate every group in `groups` into a single list, preserving order.
pub fn concat_fields<'a>(groups: &[&[&'a Field]]) -> (r: Vec<&'a Field>)
    ensures
        r@ == flat(groups@),
{
    let mut out: Vec<&'a Field> = Vec::new();
    let mut gi: usize = 0;
    while gi < groups.len()
        invariant
            gi <= groups@.len(),
            out@ == flat(groups@.take(gi as int)),
        decreases groups@.len() - gi,
    {
        let group = groups[gi];
        let mut fi: usize = 0;
        while fi < group.len()
            invariant
                gi < groups@.len(),
                group == groups@[gi as int],
                fi <= group@.len(),
                out@ == flat(groups@.take(gi as int)) + group@.take(fi as int),
            decreases group@.len() - fi,
        {
            out.push(group[fi]);
            proof {
                assert(group@.take(fi + 1) =~= group@.take(fi as int).push(group@[fi as int]));
            }
            fi = fi + 1;
        }
        proof {
            assert(group@.take(fi as int) =~= group@);
            assert(groups@.take(gi + 1).drop_last() =~= groups@.take(gi as int));
        }
        gi = gi + 1;
    }
    proof {
        assert(groups@.take(gi as int) =~= groups@);
    }
    out
}

/// The object fields of `ty`, for inlining a `#[zlink(flatten)]` field.
///
/// Only an inline object can be flattened: a named custom type or a scalar is refused when the
/// generated code is compiled, which is why such a type is outside this function's domain.
pub fn object_fields(ty: &Type) -> (r: &[Field])
    requires
        ty is Object,
    ensures
        ty matches Type::Object(fields) && r@ == fields@,
{
    let fields: Option<&[Field]> = match ty {
        Type::Object(fields) => Some(fields.as_slice()),
        _ => None,
    };
    fields.expect(
        "#[zlink(flatten)] requires an inline object type (a `#[derive(Type)]` struct); named custom types and scalars are not supported",
    )
}

} // verus!
