//! Where-clauses of an implementation, grouped by the type they bound, as
//! an implementation header shows them.
use vstd::prelude::*;

use crate::ty::{ClauseKind, Region, Ty};

verus! {

/// Two types that are the same, field by field.
pub open spec fn ty_same(a: Ty, b: Ty) -> bool
    decreases a,
{
    match a {
        Ty::Adt(d1, a1) => match b {
            Ty::Adt(d2, a2) => d1 == d2 && tys_same(a1@, a2@),
            _ => false,
        },
        Ty::Ref(r1, x, m1) => match b {
            Ty::Ref(r2, y, m2) => r1 == r2 && m1 == m2 && ty_same(*x, *y),
            _ => false,
        },
        Ty::Tuple(t1) => match b {
            Ty::Tuple(t2) => tys_same(t1@, t2@),
            _ => false,
        },
        _ => a == b,
    }
}

/// Lists of the same length whose types are pairwise `ty_same`.
pub open spec fn tys_same(s1: Seq<Ty>, s2: Seq<Ty>) -> bool
    decreases s1,
{
    s1.len() == s2.len() && (s1.len() == 0 || (tys_same(s1.drop_last(), s2.drop_last())
        && ty_same(s1.last(), s2.last())))
}

/// Whether `a` and `b` are the same type.
pub fn ty_eq(a: &Ty, b: &Ty) -> (r: bool)
    ensures
        r == ty_same(*a, *b),
    decreases a,
{
    match a {
        Ty::Bool => match b {
            Ty::Bool => true,
            _ => false,
        },
        Ty::Char => match b {
            Ty::Char => true,
            _ => false,
        },
        Ty::Str => match b {
            Ty::Str => true,
            _ => false,
        },
        Ty::Param(i) => match b {
            Ty::Param(j) => *i == *j,
            _ => false,
        },
        Ty::Adt(d1, a1) => match b {
            Ty::Adt(d2, a2) => *d1 == *d2 && tys_eq(a1, a2),
            _ => false,
        },
        Ty::Ref(r1, x, m1) => match b {
            Ty::Ref(r2, y, m2) => *r1 == *r2 && *m1 == *m2 && ty_eq(x, y),
            _ => false,
        },
        Ty::Tuple(t1) => match b {
            Ty::Tuple(t2) => tys_eq(t1, t2),
            _ => false,
        },
        Ty::Infer(k1, i) => match b {
            Ty::Infer(k2, j) => *k1 == *k2 && *i == *j,
            _ => false,
        },
        Ty::Error => match b {
            Ty::Error => true,
            _ => false,
        },
    }
}

/// Whether `s1` and `s2` hold the same types, in order.
pub fn tys_eq(s1: &Vec<Ty>, s2: &Vec<Ty>) -> (r: bool)
    ensures
        r == tys_same(s1@, s2@),
    decreases s1,
{
    if s1.len() != s2.len() {
        return false;
    }
    let mut i: usize = 0;
    while i < s1.len()
        invariant
            i <= s1@.len(),
            s1@.len() == s2@.len(),
            tys_same(s1@.subrange(0, i as int), s2@.subrange(0, i as int)),
        decreases s1@.len() - i,
    {
        proof {
            let (p1, p2) = (s1@.subrange(0, i as int + 1), s2@.subrange(0, i as int + 1));
            assert(p1.drop_last() =~= s1@.subrange(0, i as int));
            assert(p2.drop_last() =~= s2@.subrange(0, i as int));
        }
        if !ty_eq(&s1[i], &s2[i]) {
            proof {
                if tys_same(s1@, s2@) {
                    lemma_tys_same_at(s1@, s2@, i as int);
                }
            }
            return false;
        }
        i += 1;
    }
    assert(s1@.subrange(0, s1@.len() as int) =~= s1@);
    assert(s2@.subrange(0, s2@.len() as int) =~= s2@);
    true
}

proof fn lemma_tys_same_at(s1: Seq<Ty>, s2: Seq<Ty>, i: int)
    requires
        tys_same(s1, s2),
        0 <= i < s1.len(),
    ensures
        ty_same(s1[i], s2[i]),
    decreases s1.len(),
{
    if i < s1.len() - 1 {
        lemma_tys_same_at(s1.drop_last(), s2.drop_last(), i);
    }
}

/// A bound on a type: a trait with its other arguments, or a region.
#[derive(Debug, PartialEq, Eq)]
pub enum ClauseBound {
    Trait { positive: bool, trait_def: u64, args: Vec<Ty> },
    Region(Region),
}

/// A type with the bounds on it, in the order written.
#[derive(Debug, PartialEq, Eq)]
pub struct ClauseWithBounds {
    pub ty: Ty,
    pub bounds: Vec<ClauseBound>,
}

/// Bounds grouped by type, and the clauses that bound no type.
#[derive(Debug, PartialEq, Eq)]
pub struct GroupedClauses {
    pub grouped: Vec<ClauseWithBounds>,
    pub other: Vec<ClauseKind>,
}

/// The type a clause bounds and the bound, for trait and type-outlives
/// clauses.
pub open spec fn split_clause(c: ClauseKind) -> Option<(Ty, ClauseBound)> {
    match c {
        ClauseKind::Trait(tp) => Some(
            (
                tp.self_ty,
                ClauseBound::Trait { positive: tp.positive, trait_def: tp.trait_def, args: tp.args },
            ),
        ),
        ClauseKind::TypeOutlives(t, r) => Some((t, ClauseBound::Region(r))),
        _ => None,
    }
}

/// The first group whose type is `t`.
pub open spec fn group_index(groups: Seq<(Ty, Seq<ClauseBound>)>, t: Ty) -> Option<int>
    decreases groups.len(),
{
    if groups.len() == 0 {
        None
    } else {
        match group_index(groups.drop_last(), t) {
            Some(k) => Some(k),
            None => if ty_same(groups.last().0, t) {
                Some(groups.len() - 1)
            } else {
                None
            },
        }
    }
}

/// The grouping of `cs`: one group per bounded type, in order of first
/// appearance, each with its bounds in order; the other clauses in order.
pub open spec fn grouped_spec(cs: Seq<ClauseKind>) -> (Seq<(Ty, Seq<ClauseBound>)>, Seq<ClauseKind>)
    decreases cs.len(),
{
    if cs.len() == 0 {
        (seq![], seq![])
    } else {
        let (groups, other) = grouped_spec(cs.drop_last());
        match split_clause(cs.last()) {
            Some((t, b)) => match group_index(groups, t) {
                Some(k) => (groups.update(k, (groups[k].0, groups[k].1.push(b))), other),
                None => (groups.push((t, seq![b])), other),
            },
            None => (groups, other.push(cs.last())),
        }
    }
}

pub open spec fn groups_view(g: Seq<ClauseWithBounds>) -> Seq<(Ty, Seq<ClauseBound>)> {
    g.map_values(|c: ClauseWithBounds| (c.ty, c.bounds@))
}

fn find_group(groups: &Vec<ClauseWithBounds>, t: &Ty) -> (r: Option<usize>)
    ensures
        r matches Some(k) ==> group_index(groups_view(groups@), *t) == Some(k as int) && k
            < groups@.len(),
        r is None ==> group_index(groups_view(groups@), *t) is None,
{
    let ghost gv = groups_view(groups@);
    let mut i: usize = 0;
    while i < groups.len()
        invariant
            i <= groups@.len(),
            gv == groups_view(groups@),
            group_index(gv.subrange(0, i as int), *t) is None,
        decreases groups@.len() - i,
    {
        proof {
            assert(gv.subrange(0, i as int + 1).drop_last() =~= gv.subrange(0, i as int));
        }
        if ty_eq(&groups[i].ty, t) {
            proof {
                lemma_group_index_prefix(gv, i as int + 1, *t);
            }
            return Some(i);
        }
        i += 1;
    }
    assert(gv.subrange(0, gv.len() as int) =~= gv);
    None
}

proof fn lemma_group_index_prefix(gv: Seq<(Ty, Seq<ClauseBound>)>, n: int, t: Ty)
    requires
        0 <= n <= gv.len(),
        group_index(gv.subrange(0, n), t) is Some,
    ensures
        group_index(gv, t) == group_index(gv.subrange(0, n), t),
    decreases gv.len() - n,
{
    if n < gv.len() {
        assert(gv.subrange(0, n + 1).drop_last() =~= gv.subrange(0, n));
        lemma_group_index_prefix(gv, n + 1, t);
    } else {
        assert(gv.subrange(0, n) =~= gv);
    }
}

/// Groups trait and type-outlives clauses by the type they bound, in order
/// of first appearance; other clauses are kept apart, in order.
pub fn group_predicates_by_ty(predicates: Vec<ClauseKind>) -> (r: GroupedClauses)
    ensures
        groups_view(r.grouped@) == grouped_spec(predicates@).0,
        r.other@ == grouped_spec(predicates@).1,
{
    let ghost all = predicates@;
    let mut rest = predicates;
    let mut rev: Vec<ClauseKind> = Vec::new();
    while rest.len() > 0
        invariant
            rest@ == all.subrange(0, rest@.len() as int),
            rev@.len() + rest@.len() == all.len(),
            forall|i: int| 0 <= i < rev@.len() ==> #[trigger] rev@[i] == all[all.len() - 1 - i],
        decreases rest@.len(),
    {
        let c = rest.pop().unwrap();
        rev.push(c);
    }
    let mut grouped: Vec<ClauseWithBounds> = Vec::new();
    let mut other: Vec<ClauseKind> = Vec::new();
    while rev.len() > 0
        invariant
            rev@.len() <= all.len(),
            forall|i: int| 0 <= i < rev@.len() ==> #[trigger] rev@[i] == all[all.len() - 1 - i],
            groups_view(grouped@) == grouped_spec(all.subrange(0, all.len() - rev@.len())).0,
            other@ == grouped_spec(all.subrange(0, all.len() - rev@.len())).1,
        decreases rev@.len(),
    {
        let ghost n = all.len() - rev@.len();
        let c = rev.pop().unwrap();
        proof {
            let s = all.subrange(0, n + 1);
            assert(s.drop_last() =~= all.subrange(0, n));
            assert(s.last() == c);
        }
        let ghost before = grouped@;
        match c {
            ClauseKind::Trait(tp) => {
                let bound = ClauseBound::Trait {
                    positive: tp.positive,
                    trait_def: tp.trait_def,
                    args: tp.args,
                };
                match find_group(&grouped, &tp.self_ty) {
                    Some(k) => {
                        grouped[k].bounds.push(bound);
                        assert(groups_view(grouped@) =~= groups_view(before).update(
                            k as int,
                            (before[k as int].ty, before[k as int].bounds@.push(bound)),
                        ));
                    },
                    None => {
                        let mut bounds: Vec<ClauseBound> = Vec::new();
                        bounds.push(bound);
                        grouped.push(ClauseWithBounds { ty: tp.self_ty, bounds });
                        assert(groups_view(grouped@) =~= groups_view(before).push(
                            (tp.self_ty, seq![bound]),
                        ));
                    },
                }
            },
            ClauseKind::TypeOutlives(t, r) => {
                let bound = ClauseBound::Region(r);
                match find_group(&grouped, &t) {
                    Some(k) => {
                        grouped[k].bounds.push(bound);
                        assert(groups_view(grouped@) =~= groups_view(before).update(
                            k as int,
                            (before[k as int].ty, before[k as int].bounds@.push(bound)),
                        ));
                    },
                    None => {
                        let mut bounds: Vec<ClauseBound> = Vec::new();
                        bounds.push(bound);
                        grouped.push(ClauseWithBounds { ty: t, bounds });
                        assert(groups_view(grouped@) =~= groups_view(before).push(
                            (t, seq![bound]),
                        ));
                    },
                }
            },
            other_clause => {
                other.push(other_clause);
            },
        }
    }
    assert(all.subrange(0, all.len() as int) =~= all);
    GroupedClauses { grouped, other }
}

} // verus!
