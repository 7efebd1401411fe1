//! The declaration schema both generators read: fields with their types and
//! annotations, after the host has parsed them.

use vstd::prelude::*;
use crate::ty::Ty;

verus! {

/// The value of an annotation key.
pub enum MetaValue {
    /// A string literal.
    Str(String),
    /// Any other expression.
    Other,
}

/// One `key` or `key = value` item inside an annotation's parentheses.
pub struct MetaItem {
    pub key: String,
    pub value: Option<MetaValue>,
}

/// What follows an annotation's path.
pub enum AttrBody {
    /// `#[path]`
    Word,
    /// `#[path(item, ...)]`
    List(Vec<MetaItem>),
    /// `#[path = value]`
    NameValue(MetaValue),
}

/// One annotation on a field.
pub struct Attribute {
    pub path: String,
    pub body: AttrBody,
}

/// A declared field: its name (absent for a tuple field), its type as
/// written, and its annotations.
pub struct Field {
    pub name: Option<String>,
    pub ty: Ty,
    pub attrs: Vec<Attribute>,
}

/// An annotation that could not be read.
pub enum AttrError {
    /// A key other than `each` in a builder annotation.
    UnexpectedKey,
    /// `each` without a string literal value.
    ExpectedString,
    /// An annotation of the wrong shape (`#[builder]`, `#[debug(...)]`).
    Malformed,
}

/// The index of the first annotation at or after `i` whose path is `path`,
/// or `attrs.len()` when there is none.
pub open spec fn first_with_path(attrs: Seq<Attribute>, path: Seq<char>, i: int) -> int
    decreases attrs.len() - i,
{
    if i < 0 || i >= attrs.len() {
        attrs.len() as int
    } else if attrs[i].path@ == path {
        i
    } else {
        first_with_path(attrs, path, i + 1)
    }
}

/// Finds the first annotation at or after `start` whose path is `path`.
pub fn find_attr(attrs: &Vec<Attribute>, path: &String, start: usize) -> (r: usize)
    requires
        start <= attrs@.len(),
    ensures
        r as int == first_with_path(attrs@, path@, start as int),
    decreases attrs@.len() - start,
{
    if start >= attrs.len() {
        attrs.len()
    } else if attrs[start].path == *path {
        start
    } else {
        find_attr(attrs, path, start + 1)
    }
}

/// The types of the fields, in order.
pub open spec fn field_types(fields: Seq<Field>) -> Seq<Ty> {
    fields.map_values(|f: Field| f.ty)
}

/// The annotation errors among the first `n` results, each with the index of
/// its field, in declaration order.
pub open spec fn errors_upto<T>(results: Seq<(T, Option<AttrError>)>, n: nat) -> Seq<(usize, AttrError)>
    decreases n,
{
    if n == 0 || n > results.len() {
        Seq::empty()
    } else {
        let prev = errors_upto(results, (n - 1) as nat);
        match results[n - 1].1 {
            Some(e) => prev.push(((n - 1) as usize, e)),
            None => prev,
        }
    }
}

} // verus!
