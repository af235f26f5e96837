//! How a field or parameter is emitted, from its `#[zlink(skip)]`, `#[zlink(flatten)]` and
//! `#[zlink(rename)]` attributes, and which combinations of them are refused.
use vstd::prelude::*;

verus! {

/// How a field or parameter should be emitted.
#[derive(Debug, Clone, Copy, PartialEq, Eq)]
pub enum FieldMode {
    /// Emit the field as usual.
    Normal,
    /// Omit the field from the IDL (and, where zlink owns the serde, from the wire).
    Skip,
    /// Inline the field type's object fields in place.
    Flatten,
}

/// The refusal of `skip` together with `flatten`.
pub open spec fn skip_flatten_message() -> Seq<char> {
    "`#[zlink(skip)]` and `#[zlink(flatten)]` are mutually exclusive"@
}

/// The refusal of `skip` together with `rename`.
pub open spec fn skip_rename_message() -> Seq<char> {
    "`#[zlink(skip)]` cannot be combined with `#[zlink(rename)]`: a skipped field has no wire name to rename"@
}

/// The refusal of `flatten` together with `rename`.
pub open spec fn flatten_rename_message() -> Seq<char> {
    "`#[zlink(rename)]` has no effect on a `#[zlink(flatten)]` field: the field's own name never appears on the wire; the inlined fields keep their own names"@
}

/// The mode of a field marked `skip`, `flatten` and renamed as given: `skip` and `flatten`
/// exclude each other, and neither goes with a rename.
pub fn field_mode(skip: bool, flatten: bool, renamed: bool) -> (r: Result<FieldMode, String>)
    ensures
        skip && flatten ==> (r matches Err(m) && m@ == skip_flatten_message()),
        skip && !flatten && renamed ==> (r matches Err(m) && m@ == skip_rename_message()),
        skip && !flatten && !renamed ==> r == Ok::<FieldMode, String>(FieldMode::Skip),
        !skip && flatten && renamed ==> (r matches Err(m) && m@ == flatten_rename_message()),
        !skip && flatten && !renamed ==> r == Ok::<FieldMode, String>(FieldMode::Flatten),
        !skip && !flatten ==> r == Ok::<FieldMode, String>(FieldMode::Normal),
{
    if skip && flatten {
        Err(String::from_str("`#[zlink(skip)]` and `#[zlink(flatten)]` are mutually exclusive"))
    } else if skip {
        if renamed {
            Err(String::from_str(
                "`#[zlink(skip)]` cannot be combined with `#[zlink(rename)]`: a skipped field has no wire name to rename",
            ))
        } else {
            Ok(FieldMode::Skip)
        }
    } else if flatten {
        if renamed {
            Err(String::from_str(
                "`#[zlink(rename)]` has no effect on a `#[zlink(flatten)]` field: the field's own name never appears on the wire; the inlined fields keep their own names",
            ))
        } else {
            Ok(FieldMode::Flatten)
        }
    } else {
        Ok(FieldMode::Normal)
    }
}

/// The qualified wire name of a member of an interface: the interface's name, a dot, the
/// member's name.
pub fn qualified_name(interface: &str, name: &str) -> (r: String)
    ensures
        r@ == interface@ + "."@ + name@,
{
    let head = crate::strings::concat(interface, ".");
    crate::strings::concat(head.as_str(), name)
}

} // verus!
