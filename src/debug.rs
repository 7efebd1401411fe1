//! The `Debug` generator: per-field format patterns, which fields are
//! printed, and the generic clause the implementation carries.

use vstd::prelude::*;
use vstd::string::*;
use crate::ty::{Ty, is_phantom_marker};
use crate::bounds::{Generics, compute_trait_bounds};
use crate::schema::{
    Attribute, AttrBody, AttrError, Field, MetaValue, errors_upto, field_types, find_attr,
    first_with_path,
};
use crate::bounds::{clause_upto, clause_view, params_upto, params_view};

verus! {

/// A field as the `Debug` generator sees it.
pub struct FieldsData {
    pub ident: Option<String>,
    /// The format pattern from the field's `debug` annotation, if any.
    pub fmt_pattern: Option<String>,
    pub ty: Ty,
    /// The field's `debug` annotation could not be read: it is not printed.
    pub annotation_failed: bool,
}

pub open spec fn debug_path() -> Seq<char> {
    "debug"@
}

pub open spec fn default_pattern() -> Seq<char> {
    "{:?}"@
}

/// The format pattern given by the first `debug` annotation, which must be
/// `#[debug = "..."]`.
pub open spec fn pattern_of(attrs: Seq<Attribute>) -> Result<Option<String>, AttrError> {
    let k = first_with_path(attrs, debug_path(), 0);
    if k >= attrs.len() {
        Ok(None)
    } else {
        match attrs[k].body {
            AttrBody::NameValue(MetaValue::Str(s)) => Ok(Some(s)),
            _ => Err(AttrError::Malformed),
        }
    }
}

/// Reads the format pattern of a field from its annotations.
pub fn debug_attrs(attributes: &Vec<Attribute>) -> (r: Result<Option<String>, AttrError>)
    ensures
        r == pattern_of(attributes@),
{
    let path = String::from_str("debug");
    let k = find_attr(attributes, &path, 0);
    if k >= attributes.len() {
        return Ok(None);
    }
    match &attributes[k].body {
        AttrBody::NameValue(MetaValue::Str(s)) => Ok(Some(s.clone())),
        _ => Err(AttrError::Malformed),
    }
}

/// The normalized field and the annotation error, if any, of one declared
/// field. A field whose annotation fails has no pattern and is marked, so
/// that it is not printed.
pub open spec fn fields_data_of(f: Field) -> (FieldsData, Option<AttrError>) {
    let res = pattern_of(f.attrs@);
    (
        FieldsData {
            ident: f.name,
            fmt_pattern: match res {
                Ok(p) => p,
                Err(_) => None,
            },
            ty: f.ty,
            annotation_failed: res is Err,
        },
        match res {
            Ok(_) => None,
            Err(e) => Some(e),
        },
    )
}

/// Normalizes each field in declaration order, pairing it with the error of
/// its `debug` annotation, if any.
pub fn process_fields(ast_fields: Vec<Field>) -> (r: Vec<(FieldsData, Option<AttrError>)>)
    ensures
        r@.len() == ast_fields@.len(),
        forall|i: int| 0 <= i < ast_fields@.len() ==> #[trigger] r@[i] == fields_data_of(ast_fields@[i]),
{
    let ghost orig = ast_fields@;
    let mut rest = ast_fields;
    let mut out: Vec<(FieldsData, Option<AttrError>)> = Vec::new();
    while rest.len() > 0
        invariant
            out@.len() + rest@.len() == orig.len(),
            rest@ == orig.subrange(out@.len() as int, orig.len() as int),
            forall|i: int| 0 <= i < out@.len() ==> #[trigger] out@[i] == fields_data_of(orig[i]),
        decreases rest@.len(),
    {
        let f = rest.remove(0);
        assert(f == orig[out@.len() as int]);
        let Field { name, ty, attrs } = f;
        let res = debug_attrs(&attrs);
        let (fmt_pattern, error) = match res {
            Ok(p) => (p, None),
            Err(e) => (None, Some(e)),
        };
        let annotation_failed = error.is_some();
        out.push((FieldsData { ident: name, fmt_pattern, ty, annotation_failed }, error));
    }
    out
}

/// The pattern a field is printed with: its own, or the default `{:?}`.
pub open spec fn resolved_pattern(f: FieldsData) -> Seq<char> {
    match f.fmt_pattern {
        Some(p) => p@,
        None => default_pattern(),
    }
}

/// `o` holds the resolved pattern of `f`.
pub open spec fn holds_pattern(o: Option<String>, f: FieldsData) -> bool {
    o matches Some(p) && p@ == resolved_pattern(f)
}

/// The field is printed: its type is not the phantom marker and its
/// annotation, if any, could be read.
pub open spec fn is_printed(f: FieldsData) -> bool {
    !is_phantom_marker(f.ty) && !f.annotation_failed
}

/// The indices, in order, of the first `n` fields that are printed.
pub open spec fn printed_indices(fields: Seq<FieldsData>, n: nat) -> Seq<int>
    decreases n,
{
    if n == 0 || n > fields.len() {
        Seq::empty()
    } else {
        let prev = printed_indices(fields, (n - 1) as nat);
        if is_printed(fields[n - 1]) {
            prev.push(n - 1)
        } else {
            prev
        }
    }
}

/// One printed field: its name and the pattern it is printed with.
pub struct DebugEntry {
    pub name: Option<String>,
    pub pattern: String,
}

/// The `Debug` implementation to emit: the type's name and its printed
/// fields in declaration order. Its generic clause is that of the `ImplData`.
pub struct DebugImpl {
    pub struct_name: String,
    pub entries: Vec<DebugEntry>,
}

/// The data a `Debug` implementation is generated from.
pub struct ImplData {
    pub generics: Generics,
    pub fields: Vec<FieldsData>,
    /// The resolved pattern of each field.
    pub fmt_str: Vec<Option<String>>,
}

impl ImplData {
    pub open spec fn wf(&self) -> bool {
        &&& self.fmt_str@.len() == self.fields@.len()
        &&& forall|i: int|
            0 <= i < self.fields@.len() ==> holds_pattern(#[trigger] self.fmt_str@[i], self.fields@[i])
    }

    pub fn new(generics: Generics, fields: Vec<FieldsData>) -> (r: Self)
        ensures
            r.generics == generics,
            r.fields == fields,
            r.wf(),
    {
        let fmt_str = Self::generate_fmt_string(&fields);
        ImplData { generics, fields, fmt_str }
    }

    /// The resolved pattern of each field, in order.
    fn generate_fmt_string(fields: &Vec<FieldsData>) -> (r: Vec<Option<String>>)
        ensures
            r@.len() == fields@.len(),
            forall|i: int|
                0 <= i < fields@.len() ==> holds_pattern(#[trigger] r@[i], fields@[i]),
    {
        let mut out: Vec<Option<String>> = Vec::new();
        let mut i: usize = 0;
        while i < fields.len()
            invariant
                i <= fields@.len(),
                out@.len() == i,
                forall|k: int|
                    0 <= k < i ==> holds_pattern(#[trigger] out@[k], fields@[k]),
            decreases fields@.len() - i,
        {
            let p = match &fields[i].fmt_pattern {
                Some(p) => p.clone(),
                None => String::from_str("{:?}"),
            };
            out.push(Some(p));
            i = i + 1;
        }
        out
    }

    /// The printed fields: every field but those whose type is the phantom
    /// marker, whatever their annotation, and those whose annotation failed,
    /// in declaration order, each with its resolved pattern.
    pub fn generate(&self, struct_name: &String) -> (r: DebugImpl)
        requires
            self.wf(),
        ensures
            r.struct_name == *struct_name,
            r.entries@.len() == printed_indices(self.fields@, self.fields@.len()).len(),
            forall|j: int|
                0 <= j < r.entries@.len() ==> {
                    let k = #[trigger] printed_indices(self.fields@, self.fields@.len())[j];
                    &&& r.entries@[j].name == self.fields@[k].ident
                    &&& r.entries@[j].pattern@ == resolved_pattern(self.fields@[k])
                },
    {
        let mut entries: Vec<DebugEntry> = Vec::new();
        let mut i: usize = 0;
        while i < self.fields.len()
            invariant
                self.wf(),
                i <= self.fields@.len(),
                entries@.len() == printed_indices(self.fields@, i as nat).len(),
                forall|j: int|
                    0 <= j < entries@.len() ==> {
                        let k = #[trigger] printed_indices(self.fields@, i as nat)[j];
                        &&& entries@[j].name == self.fields@[k].ident
                        &&& entries@[j].pattern@ == resolved_pattern(self.fields@[k])
                    },
            decreases self.fields@.len() - i,
        {
            let f = &self.fields[i];
            if !f.annotation_failed && !f.ty.is_phantom() {
                let pattern = match &self.fmt_str[i] {
                    Some(p) => p.clone(),
                    None => String::from_str("{:?}"),
                };
                let name = match &f.ident {
                    Some(n) => Some(n.clone()),
                    None => None,
                };
                entries.push(DebugEntry { name, pattern });
            }
            i = i + 1;
        }
        DebugImpl { struct_name: struct_name.clone(), entries }
    }
}

/// Everything a `Debug` derive emits: the annotation errors, each with its
/// field's index, and the implementation with its data.
pub struct DebugOutput {
    pub errors: Vec<(usize, AttrError)>,
    pub impl_data: ImplData,
    pub implementation: DebugImpl,
}

pub fn generate_impl_data(generics: Generics, fields: Vec<FieldsData>) -> (r: ImplData)
    ensures
        r.generics == generics,
        r.fields == fields,
        r.wf(),
{
    ImplData::new(generics, fields)
}

/// The `Debug` implementation of the type `struct_name` with the given
/// generics and fields: each field's annotation is read, the debug bounds
/// inferred from the field types are merged into the generics, and the
/// printed fields are chosen.
pub fn derive(struct_name: &String, generics: Generics, fields: Vec<Field>) -> (r: DebugOutput)
    ensures
        r.impl_data.wf(),
        r.impl_data.fields@.len() == fields@.len(),
        forall|i: int| 0 <= i < fields@.len() ==> #[trigger] r.impl_data.fields@[i] == fields_data_of(fields@[i]).0,
        params_view(r.impl_data.generics.params@) == params_upto(
            generics.params@,
            field_types(fields@),
            generics.params@.len() as int,
        ),
        clause_view(r.impl_data.generics.predicates@) == clause_upto(
            clause_view(generics.predicates@),
            generics.params@,
            field_types(fields@),
            generics.params@.len(),
        ),
        r.errors@ == errors_upto(fields@.map_values(|f: Field| fields_data_of(f)), fields@.len()),
        forall|i: int|
            0 <= i < fields@.len() && #[trigger] pattern_of(fields@[i].attrs@) is Err ==> !printed_indices(
                r.impl_data.fields@,
                r.impl_data.fields@.len(),
            ).contains(i),
        r.implementation.struct_name == *struct_name,
        r.implementation.entries@.len() == printed_indices(r.impl_data.fields@, r.impl_data.fields@.len()).len(),
        forall|j: int|
            0 <= j < r.implementation.entries@.len() ==> {
                let k = #[trigger] printed_indices(r.impl_data.fields@, r.impl_data.fields@.len())[j];
                &&& r.implementation.entries@[j].name == r.impl_data.fields@[k].ident
                &&& r.implementation.entries@[j].pattern@ == resolved_pattern(r.impl_data.fields@[k])
            },
{
    let ghost orig = fields@;
    let ghost done = fields@.map_values(|f: Field| fields_data_of(f));
    let mut pairs = process_fields(fields);
    assert(pairs@ =~= done);
    let n = pairs.len();
    let mut types: Vec<Ty> = Vec::new();
    let mut names: Vec<Option<String>> = Vec::new();
    let mut patterns: Vec<Option<String>> = Vec::new();
    let mut failed: Vec<bool> = Vec::new();
    let mut errors: Vec<(usize, AttrError)> = Vec::new();
    let mut i: usize = 0;
    while i < n
        invariant
            n == done.len(),
            i <= n,
            pairs@ == done.subrange(i as int, n as int),
            types@.len() == i && names@.len() == i && patterns@.len() == i && failed@.len() == i,
            forall|k: int|
                0 <= k < i ==> {
                    &&& types@[k] == (#[trigger] done[k]).0.ty
                    &&& names@[k] == done[k].0.ident
                    &&& patterns@[k] == done[k].0.fmt_pattern
                    &&& failed@[k] == done[k].0.annotation_failed
                },
            errors@ == errors_upto(done, i as nat),
        decreases n - i,
    {
        let (f, err) = pairs.remove(0);
        let FieldsData { ident, fmt_pattern, ty, annotation_failed } = f;
        types.push(ty);
        failed.push(annotation_failed);
        names.push(ident);
        patterns.push(fmt_pattern);
        if let Some(e) = err {
            errors.push((i, e));
        }
        i = i + 1;
    }
    assert(types@ =~= field_types(orig)) by {
        assert forall|k: int| 0 <= k < n implies types@[k] == field_types(orig)[k] by {
            assert(done[k] == fields_data_of(orig[k]));
        }
    }
    let g = compute_trait_bounds(generics, &types);
    let ghost tys = types@;
    let mut out_fields: Vec<FieldsData> = Vec::new();
    let mut j: usize = 0;
    while j < n
        invariant
            n == done.len(),
            j <= n,
            out_fields@.len() == j,
            types@ == tys.subrange(j as int, n as int),
            tys.len() == n,
            names@.len() == n - j && patterns@.len() == n - j && failed@.len() == n - j,
            forall|k: int|
                0 <= k < n ==> tys[k] == (#[trigger] done[k]).0.ty,
            forall|k: int|
                j <= k < n ==> {
                    &&& names@[k - j] == (#[trigger] done[k]).0.ident
                    &&& patterns@[k - j] == done[k].0.fmt_pattern
                    &&& failed@[k - j] == done[k].0.annotation_failed
                },
            forall|k: int| 0 <= k < j ==> #[trigger] out_fields@[k] == done[k].0,
        decreases n - j,
    {
        let ty = types.remove(0);
        let ident = names.remove(0);
        let fmt_pattern = patterns.remove(0);
        let annotation_failed = failed.remove(0);
        out_fields.push(FieldsData { ident, fmt_pattern, ty, annotation_failed });
        j = j + 1;
    }
    let impl_data = generate_impl_data(g, out_fields);
    proof {
        lemma_phantom_fields_omitted(impl_data.fields@, impl_data.fields@.len());
    }
    let implementation = impl_data.generate(struct_name);
    DebugOutput { errors, impl_data, implementation }
}

/// A field whose type is the phantom marker is never printed, whatever its
/// annotation, nor is one whose annotation failed; every other field is, and
/// they come in declaration order.
pub proof fn lemma_phantom_fields_omitted(fields: Seq<FieldsData>, n: nat)
    requires
        n <= fields.len(),
    ensures
        forall|j: int|
            0 <= j < printed_indices(fields, n).len() ==> {
                let k = #[trigger] printed_indices(fields, n)[j];
                0 <= k < n && !is_phantom_marker(fields[k].ty) && !fields[k].annotation_failed
            },
        forall|k: int|
            0 <= k < n && is_printed(#[trigger] fields[k]) ==> printed_indices(fields, n).contains(k),
        forall|a: int, b: int|
            0 <= a < b < printed_indices(fields, n).len() ==> printed_indices(fields, n)[a]
                < printed_indices(fields, n)[b],
    decreases n,
{
    if n > 0 {
        lemma_phantom_fields_omitted(fields, (n - 1) as nat);
        let prev = printed_indices(fields, (n - 1) as nat);
        let cur = printed_indices(fields, n);
        assert forall|k: int| 0 <= k < n && is_printed(#[trigger] fields[k]) implies cur.contains(k) by {
            if k < n - 1 {
                let j = choose|j: int| 0 <= j < prev.len() && prev[j] == k;
                assert(cur[j] == k);
            } else {
                assert(cur[prev.len() as int] == k);
            }
        }
    }
}

} // verus!
