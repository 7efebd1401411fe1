//! A small tree model of Rust types, and the classifier that decides how a
//! generic parameter is used inside one.

use vstd::prelude::*;
use vstd::string::*;

verus! {

/// A type as the analysis sees it.
pub enum Ty {
    /// A path whose last segment is `ident`, with its type arguments
    /// (`T`, `String`, `Vec<T>`, `std::marker::PhantomData<T>`).
    Path { ident: String, args: Vec<Ty> },
    /// An associated-type path such as `T::Item`.
    Assoc { base: String, item: String },
    /// Any other type (reference, tuple, array, ...): opaque to the analysis.
    Other,
}

/// How a generic parameter is used inside a type.
pub enum GenericVariant {
    /// Only inside the zero-sized `PhantomData` marker.
    Phantom,
    /// Only through the associated-type path `base::item`.
    Associative(String, String),
    /// Directly, as a type of its own.
    SameGeneric,
    /// Not at all.
    DifferentFromGeneric,
}

impl GenericVariant {
    /// The priority of a verdict when two of them meet.
    pub open spec fn rank(self) -> nat {
        match self {
            GenericVariant::Phantom => 3,
            GenericVariant::Associative(_, _) => 2,
            GenericVariant::SameGeneric => 1,
            GenericVariant::DifferentFromGeneric => 0,
        }
    }

    /// Resolves two verdicts: the higher rank wins; between two
    /// `Associative` verdicts the smaller path `(base, item)`, in
    /// lexicographic order, wins.
    pub fn prioritize(new_variant: Self, old_variant: Self) -> (r: Self)
        ensures
            r == combine(new_variant, old_variant),
    {
        let new_rank = new_variant.rank_exec();
        let old_rank = old_variant.rank_exec();
        if new_rank > old_rank {
            return new_variant;
        }
        if old_rank > new_rank {
            return old_variant;
        }
        let new_first = match (&new_variant, &old_variant) {
            (GenericVariant::Associative(b1, i1), GenericVariant::Associative(b2, i2)) => path_less_exec(
                b1,
                i1,
                b2,
                i2,
            ),
            _ => false,
        };
        if new_first {
            new_variant
        } else {
            old_variant
        }
    }

    /// What tells one verdict from another: its rank and, for an
    /// `Associative` one, the texts of its path.
    pub open spec fn key(self) -> (nat, Seq<char>, Seq<char>) {
        match self {
            GenericVariant::Associative(b, i) => (2, b@, i@),
            _ => (self.rank(), Seq::empty(), Seq::empty()),
        }
    }

    fn rank_exec(&self) -> (r: u8)
        ensures
            r as nat == self.rank(),
    {
        match self {
            GenericVariant::Phantom => 3,
            GenericVariant::Associative(_, _) => 2,
            GenericVariant::SameGeneric => 1,
            GenericVariant::DifferentFromGeneric => 0,
        }
    }
}

/// Lexicographic order on texts, comparing from position `i` on.
pub open spec fn text_less_from(a: Seq<char>, b: Seq<char>, i: int) -> bool
    decreases a.len() - i,
{
    if i < 0 {
        false
    } else if i >= a.len() {
        i < b.len()
    } else if i >= b.len() {
        false
    } else if a[i] != b[i] {
        a[i] < b[i]
    } else {
        text_less_from(a, b, i + 1)
    }
}

pub open spec fn text_less(a: Seq<char>, b: Seq<char>) -> bool {
    text_less_from(a, b, 0)
}

/// Lexicographic order on associated paths: by base, then by item.
pub open spec fn path_less(b1: Seq<char>, i1: Seq<char>, b2: Seq<char>, i2: Seq<char>) -> bool {
    text_less(b1, b2) || (b1 == b2 && text_less(i1, i2))
}

/// The path order is asymmetric, total on distinct paths, and transitive.
proof fn lemma_path_order(b1: Seq<char>, i1: Seq<char>, b2: Seq<char>, i2: Seq<char>, b3: Seq<char>, i3: Seq<char>)
    ensures
        !(path_less(b1, i1, b2, i2) && path_less(b2, i2, b1, i1)),
        !path_less(b1, i1, b2, i2) && !path_less(b2, i2, b1, i1) ==> b1 == b2 && i1 == i2,
        path_less(b1, i1, b2, i2) && path_less(b2, i2, b3, i3) ==> path_less(b1, i1, b3, i3),
{
    lemma_text_order(b1, b2, 0);
    lemma_text_order(i1, i2, 0);
    lemma_text_order(b2, b3, 0);
    lemma_text_order(b1, b3, 0);
    if text_less(b1, b2) && text_less(b2, b3) {
        lemma_text_transitive(b1, b2, b3, 0);
    }
    if text_less(i1, i2) && text_less(i2, i3) {
        lemma_text_transitive(i1, i2, i3, 0);
    }
}

/// The verdict of two that wins: the higher rank; between two
/// `Associative` verdicts, the smaller path; otherwise `old_variant`.
pub open spec fn combine(new_variant: GenericVariant, old_variant: GenericVariant) -> GenericVariant {
    if new_variant.rank() > old_variant.rank() {
        new_variant
    } else if old_variant.rank() > new_variant.rank() {
        old_variant
    } else {
        match (new_variant, old_variant) {
            (GenericVariant::Associative(b1, i1), GenericVariant::Associative(b2, i2)) => if path_less(
                b1@,
                i1@,
                b2@,
                i2@,
            ) {
                new_variant
            } else {
                old_variant
            },
            _ => old_variant,
        }
    }
}

/// The text order is asymmetric, and total on distinct texts.
proof fn lemma_text_order(a: Seq<char>, b: Seq<char>, i: int)
    requires
        0 <= i <= a.len(),
        i <= b.len(),
        forall|j: int| 0 <= j < i ==> a[j] == b[j],
    ensures
        !(text_less_from(a, b, i) && text_less_from(b, a, i)),
        !text_less_from(a, b, i) && !text_less_from(b, a, i) ==> a == b,
    decreases a.len() - i,
{
    if i < a.len() && i < b.len() {
        if a[i] == b[i] {
            lemma_text_order(a, b, i + 1);
        } else {
            assert(a[i] < b[i] || b[i] < a[i]);
        }
    } else if i == a.len() && i == b.len() {
        assert(a =~= b);
    }
}

/// The text order is transitive.
proof fn lemma_text_transitive(a: Seq<char>, b: Seq<char>, c: Seq<char>, i: int)
    requires
        0 <= i,
        text_less_from(a, b, i),
        text_less_from(b, c, i),
    ensures
        text_less_from(a, c, i),
    decreases a.len() - i,
{
    if i < a.len() && i < b.len() && i < c.len() {
        if a[i] == b[i] && b[i] == c[i] {
            lemma_text_transitive(a, b, c, i + 1);
        }
    }
}

/// The reducer of verdicts is commutative and associative, up to what tells
/// verdicts apart (`key`): folding the verdicts of the fields in any order or
/// grouping gives the same verdict.
pub proof fn lemma_combine_commutative_associative(a: GenericVariant, b: GenericVariant, c: GenericVariant)
    ensures
        combine(a, b).key() == combine(b, a).key(),
        combine(a, combine(b, c)).key() == combine(combine(a, b), c).key(),
{
    let (ka, kb, kc) = (a.key(), b.key(), c.key());
    lemma_path_order(ka.1, ka.2, kb.1, kb.2, kc.1, kc.2);
    lemma_path_order(kb.1, kb.2, kc.1, kc.2, ka.1, ka.2);
    lemma_path_order(kc.1, kc.2, ka.1, ka.2, kb.1, kb.2);
    lemma_path_order(ka.1, ka.2, kc.1, kc.2, kb.1, kb.2);
    lemma_path_order(kb.1, kb.2, ka.1, ka.2, kc.1, kc.2);
    lemma_path_order(kc.1, kc.2, kb.1, kb.2, ka.1, ka.2);
}

/// Compares two texts in lexicographic order.
fn text_less_exec(a: &String, b: &String) -> (r: bool)
    ensures
        r == text_less(a@, b@),
{
    let sa = a.as_str();
    let sb = b.as_str();
    let la = sa.unicode_len();
    let lb = sb.unicode_len();
    let mut i: usize = 0;
    while i < la && i < lb
        invariant
            la as int == a@.len(),
            lb as int == b@.len(),
            sa@ == a@,
            sb@ == b@,
            i <= la,
            i <= lb,
            text_less_from(a@, b@, 0) == text_less_from(a@, b@, i as int),
        decreases la - i,
    {
        let ca = sa.get_char(i);
        let cb = sb.get_char(i);
        if ca != cb {
            return ca < cb;
        }
        i = i + 1;
    }
    i < lb && i >= la
}

fn path_less_exec(b1: &String, i1: &String, b2: &String, i2: &String) -> (r: bool)
    ensures
        r == path_less(b1@, i1@, b2@, i2@),
{
    if text_less_exec(b1, b2) {
        true
    } else if *b1 == *b2 {
        text_less_exec(i1, i2)
    } else {
        false
    }
}

pub open spec fn phantom_marker_name() -> Seq<char> {
    "PhantomData"@
}

/// The outer type is the zero-sized `PhantomData` marker.
pub open spec fn is_phantom_marker(t: Ty) -> bool {
    match t {
        Ty::Path { ident, .. } => ident@ == phantom_marker_name(),
        _ => false,
    }
}

/// How the parameter named `p` is used inside `t`.
pub open spec fn variant_of(p: Seq<char>, t: Ty) -> GenericVariant
    decreases t, 1nat, 0nat,
{
    match t {
        Ty::Assoc { base, item } => {
            if base@ == p {
                GenericVariant::Associative(base, item)
            } else {
                GenericVariant::DifferentFromGeneric
            }
        },
        Ty::Path { ident, args } => {
            if ident@ == p {
                GenericVariant::SameGeneric
            } else {
                variant_of_args(p, t, args@.len())
            }
        },
        Ty::Other => GenericVariant::DifferentFromGeneric,
    }
}

/// The verdicts of the first `n` type arguments of `t`, folded in order.
pub open spec fn variant_of_args(p: Seq<char>, t: Ty, n: nat) -> GenericVariant
    decreases t, 0nat, n,
{
    match t {
        Ty::Path { args, .. } => {
            if n == 0 || n > args@.len() {
                GenericVariant::DifferentFromGeneric
            } else {
                combine(variant_of(p, args@[n - 1]), variant_of_args(p, t, (n - 1) as nat))
            }
        },
        _ => GenericVariant::DifferentFromGeneric,
    }
}

/// How the parameter is used by a field of type `t`. Inside a field of the
/// phantom marker type, any use is `Phantom`.
pub open spec fn field_variant(p: Seq<char>, t: Ty) -> GenericVariant {
    if is_phantom_marker(t) && !(variant_of(p, t) is DifferentFromGeneric) {
        GenericVariant::Phantom
    } else {
        variant_of(p, t)
    }
}

/// The verdicts of the first `n` field types, folded in declaration order.
pub open spec fn fold_fields(p: Seq<char>, tys: Seq<Ty>, n: nat) -> GenericVariant
    decreases n,
{
    if n == 0 || n > tys.len() {
        GenericVariant::DifferentFromGeneric
    } else {
        combine(field_variant(p, tys[n - 1]), fold_fields(p, tys, (n - 1) as nat))
    }
}

/// The verdict for parameter `p` over a whole declaration.
pub open spec fn verdict(p: Seq<char>, tys: Seq<Ty>) -> GenericVariant {
    fold_fields(p, tys, tys.len())
}

impl Ty {
    /// The outer type is `PhantomData`.
    pub fn is_phantom(&self) -> (r: bool)
        ensures
            r == is_phantom_marker(*self),
    {
        match self {
            Ty::Path { ident, .. } => {
                let marker = String::from_str("PhantomData");
                *ident == marker
            },
            _ => false,
        }
    }
}

/// Classifies how the parameter named `generic_ident` is used inside `ty`.
pub fn variant_in_type(ty: &Ty, generic_ident: &String) -> (r: GenericVariant)
    ensures
        r == variant_of(generic_ident@, *ty),
    decreases ty,
{
    match ty {
        Ty::Assoc { base, item } => {
            if *base == *generic_ident {
                GenericVariant::Associative(base.clone(), item.clone())
            } else {
                GenericVariant::DifferentFromGeneric
            }
        },
        Ty::Path { ident, args } => {
            if *ident == *generic_ident {
                GenericVariant::SameGeneric
            } else {
                recursive_search_over_arguments_for_type(ty, args, generic_ident)
            }
        },
        Ty::Other => GenericVariant::DifferentFromGeneric,
    }
}

/// Folds the verdicts of the type arguments `args` of `ty`, in order.
fn recursive_search_over_arguments_for_type(ty: &Ty, args: &Vec<Ty>, generic_ident: &String) -> (r:
    GenericVariant)
    requires
        ty matches Ty::Path { args: a, .. } && a == *args,
    ensures
        r == variant_of_args(generic_ident@, *ty, args@.len()),
    decreases ty, 0nat,
{
    let mut acc = GenericVariant::DifferentFromGeneric;
    let mut i: usize = 0;
    while i < args.len()
        invariant
            i <= args@.len(),
            ty matches Ty::Path { args: a, .. } && a == *args,
            acc == variant_of_args(generic_ident@, *ty, i as nat),
        decreases args@.len() - i,
    {
        let v = variant_in_type(&args[i], generic_ident);
        acc = GenericVariant::prioritize(v, acc);
        i = i + 1;
    }
    acc
}

/// The verdict of one field of type `ty` for the parameter `generic_ident`.
pub fn variant_in_field(ty: &Ty, generic_ident: &String) -> (r: GenericVariant)
    ensures
        r == field_variant(generic_ident@, *ty),
{
    let v = variant_in_type(ty, generic_ident);
    if ty.is_phantom() {
        match v {
            GenericVariant::DifferentFromGeneric => v,
            _ => GenericVariant::Phantom,
        }
    } else {
        v
    }
}

/// The verdict of each field type, in order.
pub fn compute_generic_variant(types: &Vec<Ty>, generic_ident: &String) -> (r: Vec<GenericVariant>)
    ensures
        r@.len() == types@.len(),
        forall|i: int| 0 <= i < types@.len() ==> r@[i] == field_variant(generic_ident@, types@[i]),
{
    let mut out: Vec<GenericVariant> = Vec::new();
    let mut i: usize = 0;
    while i < types.len()
        invariant
            i <= types@.len(),
            out@.len() == i,
            forall|k: int| 0 <= k < i ==> out@[k] == field_variant(generic_ident@, types@[k]),
        decreases types@.len() - i,
    {
        out.push(variant_in_field(&types[i], generic_ident));
        i = i + 1;
    }
    out
}

/// The verdict for `generic_ident` over all field types, folded in order.
pub fn declaration_variant(types: &Vec<Ty>, generic_ident: &String) -> (r: GenericVariant)
    ensures
        r == verdict(generic_ident@, types@),
{
    let mut acc = GenericVariant::DifferentFromGeneric;
    let mut i: usize = 0;
    while i < types.len()
        invariant
            i <= types@.len(),
            acc == fold_fields(generic_ident@, types@, i as nat),
        decreases types@.len() - i,
    {
        let v = variant_in_field(&types[i], generic_ident);
        acc = GenericVariant::prioritize(v, acc);
        i = i + 1;
    }
    acc
}

/// An `Associative` verdict for `p` names a path whose base is `p`.
proof fn lemma_assoc_base(p: Seq<char>, t: Ty)
    ensures
        variant_of(p, t) matches GenericVariant::Associative(b, _) ==> b@ == p,
    decreases t, 1nat, 0nat,
{
    if let Ty::Path { ident, args } = t {
        lemma_assoc_base_args(p, t, args@.len());
    }
}

proof fn lemma_assoc_base_args(p: Seq<char>, t: Ty, n: nat)
    ensures
        variant_of_args(p, t, n) matches GenericVariant::Associative(b, _) ==> b@ == p,
    decreases t, 0nat, n,
{
    if let Ty::Path { ident, args } = t {
        if n > 0 && n <= args@.len() {
            lemma_assoc_base(p, args@[n - 1]);
            lemma_assoc_base_args(p, t, (n - 1) as nat);
        }
    }
}

/// The folded verdict ranks at least as high as each field's verdict.
proof fn lemma_fold_dominates(p: Seq<char>, tys: Seq<Ty>, n: nat, j: int)
    requires
        n <= tys.len(),
        0 <= j < n,
    ensures
        fold_fields(p, tys, n).rank() >= field_variant(p, tys[j]).rank(),
    decreases n,
{
    if j < n - 1 {
        lemma_fold_dominates(p, tys, (n - 1) as nat, j);
    }
}

/// When no field's verdict ranks above `Associative` and none is `SameGeneric`
/// or `Phantom`, the folded verdict is `DifferentFromGeneric` or
/// `Associative`, and it is `Associative` as soon as one field's is.
proof fn lemma_fold_assoc(p: Seq<char>, tys: Seq<Ty>, n: nat)
    requires
        n <= tys.len(),
        forall|j: int|
            0 <= j < tys.len() ==> #[trigger] field_variant(p, tys[j]) is Associative || field_variant(
                p,
                tys[j],
            ) is DifferentFromGeneric,
    ensures
        fold_fields(p, tys, n) is Associative || fold_fields(p, tys, n) is DifferentFromGeneric,
        fold_fields(p, tys, n) matches GenericVariant::Associative(b, _) ==> b@ == p,
        (exists|j: int| 0 <= j < n && #[trigger] field_variant(p, tys[j]) is Associative)
            ==> fold_fields(p, tys, n) is Associative,
    decreases n,
{
    if n > 0 {
        lemma_fold_assoc(p, tys, (n - 1) as nat);
        lemma_assoc_base(p, tys[n - 1]);
    }
}

/// Phantom dominance: a parameter that occurs inside a field whose outer type
/// is the phantom marker gets the verdict `Phantom` for the whole
/// declaration, whatever the other fields hold, so no bound is inferred for it.
pub proof fn lemma_phantom_dominates(p: Seq<char>, tys: Seq<Ty>, b: int)
    requires
        0 <= b < tys.len(),
        is_phantom_marker(tys[b]),
        !(variant_of(p, tys[b]) is DifferentFromGeneric),
    ensures
        verdict(p, tys) is Phantom,
{
    lemma_fold_dominates(p, tys, tys.len(), b);
}

/// A parameter reached only through associated-type paths gets the verdict
/// `Associative`, never `SameGeneric`: the bound goes on a path `p::item`,
/// not on the parameter itself.
pub proof fn lemma_associative_only(p: Seq<char>, tys: Seq<Ty>, a: int)
    requires
        0 <= a < tys.len(),
        field_variant(p, tys[a]) is Associative,
        forall|j: int|
            0 <= j < tys.len() ==> #[trigger] field_variant(p, tys[j]) is Associative || field_variant(
                p,
                tys[j],
            ) is DifferentFromGeneric,
    ensures
        verdict(p, tys) matches GenericVariant::Associative(b, _) && b@ == p,
{
    lemma_fold_assoc(p, tys, tys.len());
}

} // verus!
