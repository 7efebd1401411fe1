//! The builder generator: which setters each field gets, and what the
//! generated builder does when fields are set and the value is built.

use vstd::prelude::*;
use vstd::string::*;
use crate::ty::Ty;
use crate::schema::{
    Attribute, AttrBody, AttrError, Field, MetaItem, MetaValue, errors_upto, find_attr,
    first_with_path,
};
use crate::builder_state::is_required;

verus! {

/// How a field accumulates elements.
pub enum Repeatable {
    /// An ordinary field.
    No,
    /// One setter, named by the accumulator, that appends one element.
    SingularOnly(String),
    /// A setter named like the field that replaces the whole sequence, and
    /// one named by the accumulator that appends one element.
    SingularAndPlural(String),
}

impl Repeatable {
    /// An ordinary field, without repeat behavior.
    pub fn is_no(&self) -> (r: bool)
        ensures
            r == (*self is No),
    {
        match self {
            Repeatable::No => true,
            _ => false,
        }
    }
}

/// A field as the builder sees it.
pub struct FieldData {
    pub ident: Option<String>,
    /// The declared type with one outer `Option` removed.
    pub ty: Ty,
    pub repeat: Repeatable,
    /// The declared type was `Option<...>`.
    pub optional: bool,
    /// The field's builder annotation could not be read: the field keeps its
    /// slot but gets no setter.
    pub annotation_failed: bool,
}

pub open spec fn option_name() -> Seq<char> {
    "Option"@
}

pub open spec fn vec_name() -> Seq<char> {
    "Vec"@
}

pub open spec fn builder_path() -> Seq<char> {
    "builder"@
}

pub open spec fn each_key() -> Seq<char> {
    "each"@
}

/// `Option<X>`, with exactly one argument.
pub open spec fn is_option_wrapper(t: Ty) -> bool {
    t matches Ty::Path { ident, args } && ident@ == option_name() && args@.len() == 1
}

/// `Vec<X>`, with exactly one argument: a sequence the builder can fill.
pub open spec fn is_sequence(t: Ty) -> bool {
    t matches Ty::Path { ident, args } && ident@ == vec_name() && args@.len() == 1
}

/// The type with one outer `Option` removed, if there is one.
pub open spec fn effective_type(t: Ty) -> Ty {
    match t {
        Ty::Path { ident, args } => if is_option_wrapper(t) {
            args@[0]
        } else {
            t
        },
        _ => t,
    }
}

/// The accumulator name set by the items of a builder annotation, the last
/// `each` winning, or the first error among them.
pub open spec fn scan_each(items: Seq<MetaItem>, n: nat) -> Result<Option<String>, AttrError>
    decreases n,
{
    if n == 0 || n > items.len() {
        Ok(None)
    } else {
        match scan_each(items, (n - 1) as nat) {
            Err(e) => Err(e),
            Ok(_) => {
                let it = items[n - 1];
                if it.key@ == each_key() {
                    match it.value {
                        Some(MetaValue::Str(s)) => Ok(Some(s)),
                        _ => Err(AttrError::ExpectedString),
                    }
                } else {
                    Err(AttrError::UnexpectedKey)
                }
            },
        }
    }
}

/// The repeat mode that the first builder annotation gives a field named
/// `name` whose type, without `Option`, is `t`.
pub open spec fn repeat_of(name: Option<String>, t: Ty, attrs: Seq<Attribute>) -> Result<Repeatable, AttrError> {
    let k = first_with_path(attrs, builder_path(), 0);
    if k >= attrs.len() {
        Ok(Repeatable::No)
    } else {
        match attrs[k].body {
            AttrBody::List(items) => match scan_each(items@, items@.len()) {
                Err(e) => Err(e),
                Ok(None) => Ok(Repeatable::No),
                Ok(Some(s)) => if !is_sequence(t) {
                    Ok(Repeatable::No)
                } else if name matches Some(n) && n@ == s@ {
                    Ok(Repeatable::SingularOnly(s))
                } else {
                    Ok(Repeatable::SingularAndPlural(s))
                },
            },
            _ => Err(AttrError::Malformed),
        }
    }
}

/// Removes one outer `Option` from `ty`; the flag says whether there was one.
pub fn optional_type(ty: Ty) -> (r: (Ty, bool))
    ensures
        r.0 == effective_type(ty),
        r.1 == is_option_wrapper(ty),
{
    match ty {
        Ty::Path { ident, mut args } => {
            let option = String::from_str("Option");
            if ident == option && args.len() == 1 {
                let inner = args.remove(0);
                (inner, true)
            } else {
                (Ty::Path { ident, args }, false)
            }
        },
        other => (other, false),
    }
}

/// Once the scan has met an error, reading further items keeps it.
proof fn lemma_scan_error_stays(items: Seq<MetaItem>, n: nat, m: nat)
    requires
        n <= m <= items.len(),
        scan_each(items, n) is Err,
    ensures
        scan_each(items, m) == scan_each(items, n),
    decreases m - n,
{
    if m > n {
        lemma_scan_error_stays(items, n, (m - 1) as nat);
    }
}

/// Reads the items of a builder annotation.
fn scan_items(items: &Vec<MetaItem>) -> (r: Result<Option<String>, AttrError>)
    ensures
        r == scan_each(items@, items@.len()),
{
    let each = String::from_str("each");
    let mut found: Option<String> = None;
    let mut i: usize = 0;
    while i < items.len()
        invariant
            i <= items@.len(),
            each@ == each_key(),
            scan_each(items@, i as nat) == Ok::<Option<String>, AttrError>(found),
        decreases items@.len() - i,
    {
        let it = &items[i];
        if it.key == each {
            match &it.value {
                Some(MetaValue::Str(s)) => {
                    found = Some(s.clone());
                },
                _ => {
                    proof {
                        lemma_scan_error_stays(items@, (i + 1) as nat, items@.len());
                    }
                    return Err(AttrError::ExpectedString);
                },
            }
        } else {
            proof {
                lemma_scan_error_stays(items@, (i + 1) as nat, items@.len());
            }
            return Err(AttrError::UnexpectedKey);
        }
        i = i + 1;
    }
    Ok(found)
}

/// The repeat mode of a field from its builder annotation. An `each` on a
/// field whose type is not `Vec<X>` is ignored.
pub fn attr_each(ident: &Option<String>, ty: &Ty, attrs: &Vec<Attribute>) -> (r: Result<Repeatable, AttrError>)
    ensures
        r == repeat_of(*ident, *ty, attrs@),
{
    let path = String::from_str("builder");
    let k = find_attr(attrs, &path, 0);
    if k >= attrs.len() {
        return Ok(Repeatable::No);
    }
    match &attrs[k].body {
        AttrBody::List(items) => match scan_items(items) {
            Err(e) => Err(e),
            Ok(None) => Ok(Repeatable::No),
            Ok(Some(s)) => {
                let seq_ty = match ty {
                    Ty::Path { ident: head, args } => {
                        let vec = String::from_str("Vec");
                        *head == vec && args.len() == 1
                    },
                    _ => false,
                };
                if !seq_ty {
                    Ok(Repeatable::No)
                } else {
                    let same = match ident {
                        Some(n) => *n == s,
                        None => false,
                    };
                    if same {
                        Ok(Repeatable::SingularOnly(s))
                    } else {
                        Ok(Repeatable::SingularAndPlural(s))
                    }
                }
            },
        },
        _ => Err(AttrError::Malformed),
    }
}

/// The normalized field and the annotation error, if any, of one declared
/// field. A field whose annotation fails gets no repeat behavior and is
/// marked, so that it gets no setter.
pub open spec fn field_data_of(f: Field) -> (FieldData, Option<AttrError>) {
    let ty = effective_type(f.ty);
    let res = repeat_of(f.name, ty, f.attrs@);
    (
        FieldData {
            ident: f.name,
            ty,
            repeat: match res {
                Ok(r) => r,
                Err(_) => Repeatable::No,
            },
            optional: is_option_wrapper(f.ty),
            annotation_failed: res is Err,
        },
        match res {
            Ok(_) => None,
            Err(e) => Some(e),
        },
    )
}

/// Normalizes each field in declaration order, pairing it with the error of
/// its builder annotation, if any.
pub fn process_fields(fields: Vec<Field>) -> (r: Vec<(FieldData, Option<AttrError>)>)
    ensures
        r@.len() == fields@.len(),
        forall|i: int| 0 <= i < fields@.len() ==> #[trigger] r@[i] == field_data_of(fields@[i]),
{
    let ghost orig = fields@;
    let mut rest = fields;
    let mut out: Vec<(FieldData, Option<AttrError>)> = Vec::new();
    while rest.len() > 0
        invariant
            out@.len() + rest@.len() == orig.len(),
            rest@ == orig.subrange(out@.len() as int, orig.len() as int),
            forall|i: int| 0 <= i < out@.len() ==> #[trigger] out@[i] == field_data_of(orig[i]),
        decreases rest@.len(),
    {
        let f = rest.remove(0);
        assert(f == orig[out@.len() as int]);
        let Field { name, ty, attrs } = f;
        let (ty, optional) = optional_type(ty);
        let res = attr_each(&name, &ty, &attrs);
        let (repeat, error) = match res {
            Ok(r) => (r, None),
            Err(e) => (Repeatable::No, Some(e)),
        };
        let annotation_failed = error.is_some();
        out.push((FieldData { ident: name, ty, repeat, optional, annotation_failed }, error));
    }
    out
}

/// The value a builder slot starts with.
pub enum InitialValue {
    /// Nothing set yet.
    Absent,
    /// An empty sequence, for a repeated field.
    EmptySequence,
}

/// What a setter does to its field.
pub enum SetterKind {
    /// Stores its argument (the whole field value, or the whole sequence).
    Replace,
    /// Appends one element to the field's sequence.
    Append,
}

/// One setter of the generated builder.
pub struct Setter {
    pub name: String,
    pub kind: SetterKind,
}

/// The setters of a field, as name and kind, in the order they are emitted.
/// A field without a name gets no replacing setter, and a field whose
/// annotation failed gets none at all.
pub open spec fn setters_of(f: FieldData) -> Seq<(Seq<char>, SetterKind)> {
    if f.annotation_failed {
        seq![]
    } else {
        setters_by_mode(f)
    }
}

/// The setters a field gets from its name and repeat mode.
pub open spec fn setters_by_mode(f: FieldData) -> Seq<(Seq<char>, SetterKind)> {
    match f.repeat {
        Repeatable::No => match f.ident {
            Some(n) => seq![(n@, SetterKind::Replace)],
            None => seq![],
        },
        Repeatable::SingularOnly(s) => seq![(s@, SetterKind::Append)],
        Repeatable::SingularAndPlural(s) => match f.ident {
            Some(n) => seq![(n@, SetterKind::Replace), (s@, SetterKind::Append)],
            None => seq![(s@, SetterKind::Append)],
        },
    }
}

pub open spec fn setter_view(s: Setter) -> (Seq<char>, SetterKind) {
    (s.name@, s.kind)
}

impl FieldData {
    /// The value the field's builder slot starts with.
    pub fn generate_builder_field(&self) -> (r: InitialValue)
        ensures
            r == (if self.repeat is No {
                InitialValue::Absent
            } else {
                InitialValue::EmptySequence
            }),
    {
        match &self.repeat {
            Repeatable::No => InitialValue::Absent,
            _ => InitialValue::EmptySequence,
        }
    }

    /// The build operation demands a value for this field: it is neither
    /// optional nor repeated.
    pub fn is_required(&self) -> (r: bool)
        ensures
            r == is_required(*self),
    {
        !self.optional && self.repeat.is_no()
    }

    /// The setters the builder offers for this field.
    pub fn generate_setter(&self) -> (r: Vec<Setter>)
        ensures
            r@.map_values(|s: Setter| setter_view(s)) == setters_of(*self),
    {
        let mut out: Vec<Setter> = Vec::new();
        if self.annotation_failed {
            assert(out@.map_values(|s: Setter| setter_view(s)) =~= setters_of(*self));
            return out;
        }
        match &self.repeat {
            Repeatable::No => {
                if let Some(n) = &self.ident {
                    out.push(Setter { name: n.clone(), kind: SetterKind::Replace });
                }
            },
            Repeatable::SingularOnly(s) => {
                out.push(Setter { name: s.clone(), kind: SetterKind::Append });
            },
            Repeatable::SingularAndPlural(s) => {
                if let Some(n) = &self.ident {
                    out.push(Setter { name: n.clone(), kind: SetterKind::Replace });
                }
                out.push(Setter { name: s.clone(), kind: SetterKind::Append });
            },
        }
        assert(out@.map_values(|s: Setter| setter_view(s)) =~= setters_of(*self));
        out
    }
}

/// Everything a builder derive works from: the normalized fields and the
/// annotation errors, each with its field's index.
pub struct BuilderPlan {
    pub fields: Vec<FieldData>,
    pub errors: Vec<(usize, AttrError)>,
}

/// Normalizes the fields of a declaration for the builder, setting apart the
/// annotation errors; a field whose annotation fails gets no setter, while
/// the other fields are planned as usual.
pub fn derive(fields: Vec<Field>) -> (r: BuilderPlan)
    ensures
        r.fields@.len() == fields@.len(),
        forall|i: int| 0 <= i < fields@.len() ==> #[trigger] r.fields@[i] == field_data_of(fields@[i]).0,
        forall|i: int|
            0 <= i < fields@.len() ==> (repeat_of(fields@[i].name, effective_type(fields@[i].ty), fields@[i].attrs@) is Err
                <==> setters_of(#[trigger] r.fields@[i]) == Seq::<(Seq<char>, SetterKind)>::empty()
                && (#[trigger] r.fields@[i]).annotation_failed),
        r.errors@ == errors_upto(fields@.map_values(|f: Field| field_data_of(f)), fields@.len()),
{
    let ghost done = fields@.map_values(|f: Field| field_data_of(f));
    let mut pairs = process_fields(fields);
    assert(pairs@ =~= done);
    let n = pairs.len();
    let mut out: Vec<FieldData> = Vec::new();
    let mut errors: Vec<(usize, AttrError)> = Vec::new();
    let mut i: usize = 0;
    while i < n
        invariant
            n == done.len(),
            i <= n,
            pairs@ == done.subrange(i as int, n as int),
            out@.len() == i,
            forall|k: int| 0 <= k < i ==> #[trigger] out@[k] == done[k].0,
            errors@ == errors_upto(done, i as nat),
        decreases n - i,
    {
        let (f, err) = pairs.remove(0);
        out.push(f);
        if let Some(e) = err {
            errors.push((i, e));
        }
        i = i + 1;
    }
    BuilderPlan { fields: out, errors }
}

} // verus!
