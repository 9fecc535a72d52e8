//! Reserved keys of the schema source format.  A schema, field or child
//! name may not collide with any of these: `template` binds a schema to a
//! template, and `object_name`, `order` and `path` are injected into every
//! rendered object's context as metadata.
use crate::text::str_eq;
use vstd::prelude::*;

verus! {

/// The reserved key that names a schema's template.
pub fn template_key() -> (r: &'static str)
    ensures
        r@ == "template"@,
{
    "template"
}

/// A name that the schema format reserves for itself.
pub open spec fn is_reserved(s: Seq<char>) -> bool {
    ||| s == "template"@
    ||| s == "object_name"@
    ||| s == "order"@
    ||| s == "path"@
}

pub fn is_reserved_field(name: &str) -> (r: bool)
    ensures
        r == is_reserved(name@),
{
    str_eq(name, "template") || str_eq(name, "object_name") || str_eq(name, "order") || str_eq(
        name,
        "path",
    )
}

/// A schema declared a field under a reserved key.
#[derive(Debug, Clone, PartialEq)]
pub struct ReservedFieldError {
    pub field: String,
}

} // verus!
