//! Inferring `Debug` bounds for the generic parameters of a declaration, and
//! merging them into its generic clause without duplicates.

use vstd::prelude::*;
use vstd::string::*;
use crate::ty::{Ty, GenericVariant, verdict, declaration_variant};

verus! {

/// A generic type parameter and the bounds written at its declaration.
pub struct TypeParam {
    pub ident: String,
    pub bounds: Vec<String>,
}

/// A where-clause predicate: `bounded: bound + bound + ...`.
pub struct WherePredicate {
    pub bounded: Ty,
    pub bounds: Vec<String>,
}

/// The generic parameters of a declaration and its where clause.
pub struct Generics {
    pub params: Vec<TypeParam>,
    pub predicates: Vec<WherePredicate>,
}

/// The texts of a list of strings.
pub open spec fn texts(bs: Seq<String>) -> Seq<Seq<char>> {
    bs.map_values(|s: String| s@)
}

/// The path of the debug-printability bound.
pub open spec fn debug_bound() -> Seq<char> {
    "::std::fmt::Debug"@
}

/// A bound list with `b` added at the end, unless it is there already.
pub open spec fn with_bound(bs: Seq<Seq<char>>, b: Seq<char>) -> Seq<Seq<char>> {
    if bs.contains(b) {
        bs
    } else {
        bs.push(b)
    }
}

/// `t` is the associated-type path `base::item`.
pub open spec fn is_assoc_path(t: Ty, base: Seq<char>, item: Seq<char>) -> bool {
    t matches Ty::Assoc { base: b, item: i } && b@ == base && i@ == item
}

/// A parameter as its name and the texts of its bounds.
pub open spec fn param_view(p: TypeParam) -> (Seq<char>, Seq<Seq<char>>) {
    (p.ident@, texts(p.bounds@))
}

pub open spec fn params_view(ps: Seq<TypeParam>) -> Seq<(Seq<char>, Seq<Seq<char>>)> {
    ps.map_values(|p: TypeParam| param_view(p))
}

/// A predicate as its bounded type and the texts of its bounds.
pub open spec fn predicate_view(p: WherePredicate) -> (Ty, Seq<Seq<char>>) {
    (p.bounded, texts(p.bounds@))
}

pub open spec fn clause_view(ps: Seq<WherePredicate>) -> Seq<(Ty, Seq<Seq<char>>)> {
    ps.map_values(|p: WherePredicate| predicate_view(p))
}

/// Some predicate of the clause bounds exactly `base::item`.
pub open spec fn has_predicate_for(c: Seq<(Ty, Seq<Seq<char>>)>, base: Seq<char>, item: Seq<char>) -> bool {
    exists|k: int| 0 <= k < c.len() && is_assoc_path(#[trigger] c[k].0, base, item)
}

/// A where clause with the debug bound merged in for the path `base::item`:
/// added to each predicate on that exact path, or, where there is none, a new
/// predicate with that one bound at the end.
pub open spec fn merge_assoc(c: Seq<(Ty, Seq<Seq<char>>)>, base: String, item: String) -> Seq<(Ty, Seq<Seq<char>>)> {
    if has_predicate_for(c, base@, item@) {
        c.map_values(
            |e: (Ty, Seq<Seq<char>>)|
                if is_assoc_path(e.0, base@, item@) {
                    (e.0, with_bound(e.1, debug_bound()))
                } else {
                    e
                },
        )
    } else {
        c.push((Ty::Assoc { base, item }, seq![debug_bound()]))
    }
}

/// A parameter list with the debug bound added to parameter `i`.
pub open spec fn add_param_debug(ps: Seq<(Seq<char>, Seq<Seq<char>>)>, i: int) -> Seq<(Seq<char>, Seq<Seq<char>>)> {
    ps.update(i, (ps[i].0, with_bound(ps[i].1, debug_bound())))
}

fn debug_bound_string() -> (r: String)
    ensures
        r@ == debug_bound(),
{
    String::from_str("::std::fmt::Debug")
}

/// Whether `b` is among the bounds `bs`.
fn contains_bound(bs: &Vec<String>, b: &String) -> (r: bool)
    ensures
        r == texts(bs@).contains(b@),
{
    let mut i: usize = 0;
    while i < bs.len()
        invariant
            i <= bs@.len(),
            forall|k: int| 0 <= k < i ==> bs@[k]@ != b@,
        decreases bs@.len() - i,
    {
        if bs[i] == *b {
            assert(texts(bs@)[i as int] == b@);
            return true;
        }
        i = i + 1;
    }
    proof {
        if texts(bs@).contains(b@) {
            let k = choose|k: int| 0 <= k < bs@.len() && #[trigger] texts(bs@)[k] == b@;
            assert(bs@[k]@ == b@);
        }
    }
    false
}

/// Adds the debug bound to `bs` unless it is there already.
fn add_debug_bound(bs: &mut Vec<String>)
    ensures
        texts(final(bs)@) == with_bound(
            texts(old(bs)@),
            debug_bound(),
        ),
{
    let d = debug_bound_string();
    if !contains_bound(bs, &d) {
        bs.push(d);
        assert(texts(bs@) =~= texts(old(bs)@).push(
            debug_bound(),
        ));
    }
}

/// Adds the debug bound to the declaration of parameter `i`.
pub fn add_param_bound(g: &mut Generics, i: usize)
    requires
        i < old(g).params@.len(),
    ensures
        params_view(final(g).params@) == add_param_debug(params_view(old(g).params@), i as int),
        final(g).predicates == old(g).predicates,
{
    let mut p = g.params.remove(i);
    add_debug_bound(&mut p.bounds);
    g.params.insert(i, p);
    assert(params_view(g.params@) =~= add_param_debug(params_view(old(g).params@), i as int));
}

/// Merges the debug bound for the path `base::item` into the where clause.
pub fn merge_assoc_bound(g: &mut Generics, base: &String, item: &String)
    ensures
        clause_view(final(g).predicates@) == merge_assoc(
            clause_view(old(g).predicates@),
            *base,
            *item,
        ),
        final(g).params == old(g).params,
{
    let ghost c0 = clause_view(g.predicates@);
    let mut found = false;
    let mut k: usize = 0;
    while k < g.predicates.len()
        invariant
            k <= g.predicates@.len(),
            g.predicates@.len() == c0.len(),
            g.params == old(g).params,
            c0 == clause_view(old(g).predicates@),
            found == (exists|j: int| 0 <= j < k && is_assoc_path(#[trigger] c0[j].0, base@, item@)),
            forall|j: int|
                0 <= j < c0.len() ==> #[trigger] clause_view(g.predicates@)[j] == if j < k
                    && is_assoc_path(c0[j].0, base@, item@) {
                    (c0[j].0, with_bound(c0[j].1, debug_bound()))
                } else {
                    c0[j]
                },
        decreases c0.len() - k,
    {
        assert(clause_view(g.predicates@)[k as int] == c0[k as int]);
        let matches_path = match &g.predicates[k].bounded {
            Ty::Assoc { base: b, item: it } => *b == *base && *it == *item,
            _ => false,
        };
        assert(matches_path == is_assoc_path(c0[k as int].0, base@, item@));
        if matches_path {
            let ghost before = g.predicates@;
            let mut p = g.predicates.remove(k);
            add_debug_bound(&mut p.bounds);
            g.predicates.insert(k, p);
            assert(g.predicates@ == before.update(k as int, p));
            assert(clause_view(g.predicates@) == clause_view(before).update(
                k as int,
                (c0[k as int].0, with_bound(c0[k as int].1, debug_bound())),
            ));
            found = true;
        }
        k = k + 1;
    }
    if !found {
        let ghost before = g.predicates@;
        let d = debug_bound_string();
        let bounds = vec![d];
        assert(texts(bounds@) =~= seq![debug_bound()]);
        g.predicates.push(WherePredicate { bounded: Ty::Assoc { base: base.clone(), item: item.clone() }, bounds });
        assert(clause_view(g.predicates@) =~= clause_view(before).push(
            (Ty::Assoc { base: *base, item: *item }, seq![debug_bound()]),
        ));
    } else {
        assert(has_predicate_for(c0, base@, item@));
    }
    assert(clause_view(g.predicates@) =~= merge_assoc(c0, *base, *item));
}

/// The parameters after adding the debug bound to each of the first `n`
/// whose verdict over the field types `tys` is `SameGeneric`.
pub open spec fn params_upto(ps: Seq<TypeParam>, tys: Seq<Ty>, n: int) -> Seq<(Seq<char>, Seq<Seq<char>>)> {
    params_view(ps).map(
        |j: int, p: (Seq<char>, Seq<Seq<char>>)|
            if j < n && verdict(p.0, tys) is SameGeneric {
                (p.0, with_bound(p.1, debug_bound()))
            } else {
                p
            },
    )
}

/// The where clause after merging, in parameter order, the path bound of
/// each of the first `n` parameters whose verdict is `Associative`.
pub open spec fn clause_upto(
    c: Seq<(Ty, Seq<Seq<char>>)>,
    ps: Seq<TypeParam>,
    tys: Seq<Ty>,
    n: nat,
) -> Seq<(Ty, Seq<Seq<char>>)>
    decreases n,
{
    if n == 0 || n > ps.len() {
        c
    } else {
        let prev = clause_upto(c, ps, tys, (n - 1) as nat);
        match verdict(ps[n - 1].ident@, tys) {
            GenericVariant::Associative(b, i) => merge_assoc(prev, b, i),
            _ => prev,
        }
    }
}

/// Adds the inferred debug bounds to `generics`, given the types of the
/// declaration's fields: on a parameter whose verdict is `SameGeneric`, in
/// its own bound list; for one whose verdict is `Associative`, on the
/// associated path in the where clause; for the others, none.
pub fn compute_trait_bounds(generics: Generics, types: &Vec<Ty>) -> (r: Generics)
    ensures
        params_view(r.params@) == params_upto(generics.params@, types@, generics.params@.len() as int),
        clause_view(r.predicates@) == clause_upto(
            clause_view(generics.predicates@),
            generics.params@,
            types@,
            generics.params@.len(),
        ),
{
    let ghost ps0 = generics.params@;
    let ghost c0 = clause_view(generics.predicates@);
    let mut g = generics;
    let mut i: usize = 0;
    while i < g.params.len()
        invariant
            i <= ps0.len(),
            g.params@.len() == ps0.len(),
            params_view(g.params@) == params_upto(ps0, types@, i as int),
            clause_view(g.predicates@) == clause_upto(c0, ps0, types@, i as nat),
        decreases ps0.len() - i,
    {
        assert(params_view(g.params@)[i as int] == params_view(ps0)[i as int]);
        let v = declaration_variant(types, &g.params[i].ident);
        match v {
            GenericVariant::SameGeneric => {
                add_param_bound(&mut g, i);
            },
            GenericVariant::Associative(b, it) => {
                merge_assoc_bound(&mut g, &b, &it);
            },
            _ => {},
        }
        assert(params_view(g.params@) =~= params_upto(ps0, types@, i + 1));
        i = i + 1;
    }
    g
}

/// Merging the same inferred path bound a second time changes nothing, and a
/// merge never brings a duplicate bound into a predicate.
pub proof fn lemma_merge_idempotent(c: Seq<(Ty, Seq<Seq<char>>)>, base: String, item: String)
    ensures
        merge_assoc(merge_assoc(c, base, item), base, item) == merge_assoc(c, base, item),
        (forall|k: int| 0 <= k < c.len() ==> (#[trigger] c[k]).1.no_duplicates()) ==> (forall|k: int|
            0 <= k < merge_assoc(c, base, item).len() ==> (#[trigger] merge_assoc(
                c,
                base,
                item,
            )[k]).1.no_duplicates()),
{
    let m = merge_assoc(c, base, item);
    if has_predicate_for(c, base@, item@) {
        let k = choose|k: int| 0 <= k < c.len() && is_assoc_path(#[trigger] c[k].0, base@, item@);
        assert(m[k].0 == c[k].0);
    } else {
        assert(m[c.len() as int].0 == Ty::Assoc { base, item });
    }
    assert(has_predicate_for(m, base@, item@));
    let mm = merge_assoc(m, base, item);
    assert forall|k: int| 0 <= k < m.len() implies #[trigger] mm[k] == m[k] by {
        if is_assoc_path(m[k].0, base@, item@) {
            if has_predicate_for(c, base@, item@) {
                assert(with_bound(c[k].1, debug_bound()).contains(debug_bound())) by {
                    if !c[k].1.contains(debug_bound()) {
                        assert(c[k].1.push(debug_bound())[c[k].1.len() as int] == debug_bound());
                    }
                }
            } else {
                assert(m[k].1[0] == debug_bound());
            }
        }
    }
    assert(mm =~= m);
    if forall|k: int| 0 <= k < c.len() ==> (#[trigger] c[k]).1.no_duplicates() {
        assert forall|k: int| 0 <= k < m.len() implies (#[trigger] m[k]).1.no_duplicates() by {
            if k < c.len() && is_assoc_path(c[k].0, base@, item@) && !c[k].1.contains(debug_bound()) {
                let bs = c[k].1;
                let ps = bs.push(debug_bound());
                assert forall|a: int, b: int| 0 <= a < ps.len() && 0 <= b < ps.len() && a != b implies ps[a] != ps[b] by {
                    if a == bs.len() {
                        assert(ps[b] == bs[b]);
                    } else if b == bs.len() {
                        assert(ps[a] == bs[a]);
                    }
                }
            }
        }
    }
}

/// Adding the debug bound to a parameter a second time changes nothing, and
/// it never brings a duplicate bound into the parameter's list.
pub proof fn lemma_param_bound_idempotent(ps: Seq<(Seq<char>, Seq<Seq<char>>)>, i: int)
    requires
        0 <= i < ps.len(),
    ensures
        add_param_debug(add_param_debug(ps, i), i) == add_param_debug(ps, i),
        ps[i].1.no_duplicates() ==> add_param_debug(ps, i)[i].1.no_duplicates(),
{
    let bs = ps[i].1;
    if !bs.contains(debug_bound()) {
        assert(bs.push(debug_bound())[bs.len() as int] == debug_bound());
        if bs.no_duplicates() {
            let pb = bs.push(debug_bound());
            assert forall|a: int, b: int| 0 <= a < pb.len() && 0 <= b < pb.len() && a != b implies pb[a] != pb[b] by {
                if a == bs.len() {
                    assert(pb[b] == bs[b]);
                } else if b == bs.len() {
                    assert(pb[a] == bs[a]);
                }
            }
        }
    }
    assert(add_param_debug(add_param_debug(ps, i), i) =~= add_param_debug(ps, i));
}

/// A predicate already on the path `base::item` gains the debug bound in
/// place: the clause keeps its length, so no second predicate on that path is
/// made.
pub proof fn lemma_merge_into_existing(c: Seq<(Ty, Seq<Seq<char>>)>, base: String, item: String, k: int)
    requires
        0 <= k < c.len(),
        is_assoc_path(c[k].0, base@, item@),
    ensures
        merge_assoc(c, base, item).len() == c.len(),
        merge_assoc(c, base, item)[k].0 == c[k].0,
        merge_assoc(c, base, item)[k].1 == with_bound(c[k].1, debug_bound()),
        merge_assoc(c, base, item)[k].1.contains(debug_bound()),
{
    assert(has_predicate_for(c, base@, item@));
    if !c[k].1.contains(debug_bound()) {
        assert(c[k].1.push(debug_bound())[c[k].1.len() as int] == debug_bound());
    }
}

/// Where no predicate is on the path `base::item`, the merge keeps every
/// predicate, in order, and adds one on that path with the debug bound alone.
pub proof fn lemma_merge_new_predicate(c: Seq<(Ty, Seq<Seq<char>>)>, base: String, item: String)
    requires
        forall|k: int| 0 <= k < c.len() ==> !is_assoc_path(#[trigger] c[k].0, base@, item@),
    ensures
        merge_assoc(c, base, item).len() == c.len() + 1,
        merge_assoc(c, base, item).subrange(0, c.len() as int) == c,
        merge_assoc(c, base, item)[c.len() as int] == (Ty::Assoc { base, item }, seq![debug_bound()]),
{
    assert(merge_assoc(c, base, item).subrange(0, c.len() as int) =~= c);
}

/// When exactly one parameter, `t`, has an `Associative` verdict, for the
/// path `base::item`, the inferred where clause is the original one with that
/// single path bound merged in (see `lemma_merge_new_predicate` and
/// `lemma_merge_into_existing` for what that merge is).
pub proof fn lemma_single_path_bound(
    c: Seq<(Ty, Seq<Seq<char>>)>,
    ps: Seq<TypeParam>,
    tys: Seq<Ty>,
    t: int,
    base: String,
    item: String,
)
    requires
        0 <= t < ps.len(),
        verdict(ps[t].ident@, tys) == GenericVariant::Associative(base, item),
        forall|j: int| 0 <= j < ps.len() && j != t ==> !(#[trigger] verdict(ps[j].ident@, tys) is Associative),
    ensures
        clause_upto(c, ps, tys, ps.len()) == merge_assoc(c, base, item),
{
    lemma_single_upto(c, ps, tys, t, base, item, ps.len());
}

proof fn lemma_single_upto(
    c: Seq<(Ty, Seq<Seq<char>>)>,
    ps: Seq<TypeParam>,
    tys: Seq<Ty>,
    t: int,
    base: String,
    item: String,
    n: nat,
)
    requires
        0 <= t < ps.len(),
        n <= ps.len(),
        verdict(ps[t].ident@, tys) == GenericVariant::Associative(base, item),
        forall|j: int| 0 <= j < ps.len() && j != t ==> !(#[trigger] verdict(ps[j].ident@, tys) is Associative),
    ensures
        clause_upto(c, ps, tys, n) == if n > t {
            merge_assoc(c, base, item)
        } else {
            c
        },
    decreases n,
{
    if n > 0 {
        lemma_single_upto(c, ps, tys, t, base, item, (n - 1) as nat);
        let _ = verdict(ps[n - 1].ident@, tys);
    }
}

/// The clause has a predicate on `base::item`, and each predicate on that
/// path carries the debug bound.
pub open spec fn covers(c: Seq<(Ty, Seq<Seq<char>>)>, base: Seq<char>, item: Seq<char>) -> bool {
    &&& has_predicate_for(c, base, item)
    &&& forall|k: int|
        0 <= k < c.len() && is_assoc_path(#[trigger] c[k].0, base, item) ==> c[k].1.contains(debug_bound())
}

proof fn lemma_with_bound_contains(bs: Seq<Seq<char>>)
    ensures
        with_bound(bs, debug_bound()).contains(debug_bound()),
{
    if !bs.contains(debug_bound()) {
        assert(bs.push(debug_bound())[bs.len() as int] == debug_bound());
    }
}

/// A merge covers its own path and keeps every path the clause covered.
proof fn lemma_merge_covers(c: Seq<(Ty, Seq<Seq<char>>)>, base: String, item: String, b2: Seq<char>, i2: Seq<char>)
    ensures
        covers(merge_assoc(c, base, item), base@, item@),
        covers(c, b2, i2) ==> covers(merge_assoc(c, base, item), b2, i2),
{
    let m = merge_assoc(c, base, item);
    lemma_merge_idempotent(c, base, item);
    assert forall|k: int| 0 <= k < m.len() && is_assoc_path(#[trigger] m[k].0, base@, item@) implies m[k].1.contains(
        debug_bound(),
    ) by {
        if has_predicate_for(c, base@, item@) {
            lemma_with_bound_contains(c[k].1);
        } else if k < c.len() {
            assert(has_predicate_for(c, base@, item@));
        } else {
            assert(m[k].1[0] == debug_bound());
        }
    }
    if covers(c, b2, i2) {
        let j = choose|j: int| 0 <= j < c.len() && is_assoc_path(#[trigger] c[j].0, b2, i2);
        assert(m[j].0 == c[j].0);
        assert forall|k: int| 0 <= k < m.len() && is_assoc_path(#[trigger] m[k].0, b2, i2) implies m[k].1.contains(
            debug_bound(),
        ) by {
            if k < c.len() {
                assert(m[k].0 == c[k].0);
                if has_predicate_for(c, base@, item@) && is_assoc_path(c[k].0, base@, item@) {
                    lemma_with_bound_contains(c[k].1);
                }
            }
        }
    }
}

/// Merging a path the clause already covers changes nothing.
proof fn lemma_merge_covered(c: Seq<(Ty, Seq<Seq<char>>)>, base: String, item: String)
    requires
        covers(c, base@, item@),
    ensures
        merge_assoc(c, base, item) == c,
{
    assert(merge_assoc(c, base, item) =~= c);
}

/// After merging the path bounds of the first `n` parameters, the clause
/// covers the path of each of them whose verdict is `Associative`, and of
/// each path `c` already covered.
proof fn lemma_upto_covers(c: Seq<(Ty, Seq<Seq<char>>)>, ps: Seq<TypeParam>, tys: Seq<Ty>, n: nat, j: int)
    requires
        n <= ps.len(),
        0 <= j < n,
    ensures
        verdict(ps[j].ident@, tys) matches GenericVariant::Associative(b, i) ==> covers(
            clause_upto(c, ps, tys, n),
            b@,
            i@,
        ),
    decreases n,
{
    let prev = clause_upto(c, ps, tys, (n - 1) as nat);
    if let GenericVariant::Associative(b, i) = verdict(ps[j].ident@, tys) {
        if j < n - 1 {
            lemma_upto_covers(c, ps, tys, (n - 1) as nat, j);
        }
        if let GenericVariant::Associative(b2, i2) = verdict(ps[n - 1].ident@, tys) {
            lemma_merge_covers(prev, b2, i2, b@, i@);
        }
    }
}

/// A clause that covers the path of every parameter whose verdict is
/// `Associative` is left as it is by the merges.
proof fn lemma_upto_stable(d: Seq<(Ty, Seq<Seq<char>>)>, ps: Seq<TypeParam>, tys: Seq<Ty>, n: nat)
    requires
        n <= ps.len(),
        forall|j: int|
            0 <= j < n ==> (#[trigger] verdict(ps[j].ident@, tys) matches GenericVariant::Associative(b, i)
                ==> covers(d, b@, i@)),
    ensures
        clause_upto(d, ps, tys, n) == d,
    decreases n,
{
    if n > 0 {
        lemma_upto_stable(d, ps, tys, (n - 1) as nat);
        let v = verdict(ps[n - 1].ident@, tys);
        if let GenericVariant::Associative(b, i) = v {
            lemma_merge_covered(d, b, i);
        }
    }
}

/// Inferring the debug bounds a second time, from the same field types,
/// changes nothing: no parameter gains a second bound and the where clause
/// gains no predicate and no bound.
pub proof fn lemma_inference_idempotent(g0: Generics, g1: Generics, g2: Generics, tys: Seq<Ty>)
    requires
        g1.params@.len() == g0.params@.len(),
        params_view(g1.params@) == params_upto(g0.params@, tys, g0.params@.len() as int),
        clause_view(g1.predicates@) == clause_upto(
            clause_view(g0.predicates@),
            g0.params@,
            tys,
            g0.params@.len(),
        ),
        params_view(g2.params@) == params_upto(g1.params@, tys, g1.params@.len() as int),
        clause_view(g2.predicates@) == clause_upto(
            clause_view(g1.predicates@),
            g1.params@,
            tys,
            g1.params@.len(),
        ),
    ensures
        params_view(g2.params@) == params_view(g1.params@),
        clause_view(g2.predicates@) == clause_view(g1.predicates@),
{
    let n = g0.params@.len();
    let (p0, p1) = (g0.params@, g1.params@);
    assert forall|j: int| 0 <= j < n implies #[trigger] p1[j].ident@ == p0[j].ident@ by {
        assert(params_view(p1)[j] == params_upto(p0, tys, n as int)[j]);
    }
    assert forall|j: int| 0 <= j < n implies #[trigger] verdict(p1[j].ident@, tys) == verdict(
        p0[j].ident@,
        tys,
    ) by {}
    // the parameters
    assert forall|j: int| 0 <= j < n implies #[trigger] params_upto(p1, tys, n as int)[j] == params_view(p1)[j] by {
        assert(params_view(p1)[j] == params_upto(p0, tys, n as int)[j]);
        let q = params_view(p0)[j];
        if verdict(q.0, tys) is SameGeneric {
            lemma_with_bound_contains(q.1);
        }
    }
    assert(params_upto(p1, tys, n as int) =~= params_view(p1));
    // the where clause
    let d = clause_view(g1.predicates@);
    assert forall|j: int|
        0 <= j < n implies (#[trigger] verdict(p1[j].ident@, tys) matches GenericVariant::Associative(b, i)
        ==> covers(d, b@, i@)) by {
        lemma_upto_covers(clause_view(g0.predicates@), p0, tys, n, j);
    }
    lemma_upto_stable(d, p1, tys, n);
}

proof fn lemma_with_bound_no_duplicates(bs: Seq<Seq<char>>)
    requires
        bs.no_duplicates(),
    ensures
        with_bound(bs, debug_bound()).no_duplicates(),
{
    let ps = seq![(Seq::<char>::empty(), bs)];
    lemma_param_bound_idempotent(ps, 0);
    assert(add_param_debug(ps, 0)[0].1 == with_bound(bs, debug_bound()));
}

proof fn lemma_upto_no_duplicates(c: Seq<(Ty, Seq<Seq<char>>)>, ps: Seq<TypeParam>, tys: Seq<Ty>, n: nat)
    requires
        n <= ps.len(),
        forall|k: int| 0 <= k < c.len() ==> (#[trigger] c[k]).1.no_duplicates(),
    ensures
        forall|k: int|
            0 <= k < clause_upto(c, ps, tys, n).len() ==> (#[trigger] clause_upto(c, ps, tys, n)[k]).1.no_duplicates(),
    decreases n,
{
    if n > 0 {
        lemma_upto_no_duplicates(c, ps, tys, (n - 1) as nat);
        if let GenericVariant::Associative(b, i) = verdict(ps[n - 1].ident@, tys) {
            lemma_merge_idempotent(clause_upto(c, ps, tys, (n - 1) as nat), b, i);
        }
    }
}

/// Inference brings no duplicate bound into any bound list: where the
/// parameters' and the predicates' lists had none, the inferred ones have
/// none either, so the debug bound stands at most once in each.
pub proof fn lemma_inference_no_duplicates(g0: Generics, g1: Generics, tys: Seq<Ty>)
    requires
        forall|j: int| 0 <= j < g0.params@.len() ==> (#[trigger] params_view(g0.params@)[j]).1.no_duplicates(),
        forall|k: int|
            0 <= k < g0.predicates@.len() ==> (#[trigger] clause_view(g0.predicates@)[k]).1.no_duplicates(),
        params_view(g1.params@) == params_upto(g0.params@, tys, g0.params@.len() as int),
        clause_view(g1.predicates@) == clause_upto(
            clause_view(g0.predicates@),
            g0.params@,
            tys,
            g0.params@.len(),
        ),
    ensures
        forall|j: int| 0 <= j < g1.params@.len() ==> (#[trigger] params_view(g1.params@)[j]).1.no_duplicates(),
        forall|k: int|
            0 <= k < g1.predicates@.len() ==> (#[trigger] clause_view(g1.predicates@)[k]).1.no_duplicates(),
{
    let n = g0.params@.len();
    assert(params_view(g1.params@).len() == g1.params@.len());
    assert(params_upto(g0.params@, tys, n as int).len() == n);
    assert forall|j: int| 0 <= j < g1.params@.len() implies (#[trigger] params_view(g1.params@)[j]).1.no_duplicates() by {
        assert(params_view(g1.params@)[j] == params_upto(g0.params@, tys, n as int)[j]);
        let q = params_view(g0.params@)[j];
        assert(q.1.no_duplicates());
        if verdict(q.0, tys) is SameGeneric {
            lemma_with_bound_no_duplicates(q.1);
        }
    }
    lemma_upto_no_duplicates(clause_view(g0.predicates@), g0.params@, tys, n);
    assert forall|k: int| 0 <= k < g1.predicates@.len() implies (#[trigger] clause_view(g1.predicates@)[k]).1.no_duplicates() by {
        assert(clause_view(g1.predicates@)[k] == clause_upto(clause_view(g0.predicates@), g0.params@, tys, n)[k]);
    }
}

} // verus!
