//! The symbolic algebra the solver works on: regions, types and predicates.
//!
//! Definitions (traits, items, ADTs) are named by the stable numeric id of
//! their definition; type parameters by their index in the generics list.
use vstd::prelude::*;

verus! {

/// A lifetime. Hashing erases every region.
#[derive(Clone, Copy, Debug, PartialEq, Eq, Structural)]
pub enum Region {
    Static,
    EarlyParam(u32),
    Var(u32),
    Erased,
}

/// The kind of an unresolved unification variable.
#[derive(Clone, Copy, Debug, PartialEq, Eq, Structural)]
pub enum InferKind {
    TyVar,
    IntVar,
    FloatVar,
}

/// A type. The unit type is the empty tuple.
#[derive(Debug, PartialEq, Eq)]
pub enum Ty {
    Bool,
    Char,
    Str,
    Param(u32),
    Adt(u64, Vec<Ty>),
    Ref(Region, Box<Ty>, bool),
    Tuple(Vec<Ty>),
    Infer(InferKind, u32),
    Error,
}

/// `self_ty: trait_def<args>`; `positive` is false for a negative bound.
#[derive(Debug, PartialEq, Eq)]
pub struct TraitPredicate {
    pub trait_def: u64,
    pub self_ty: Ty,
    pub args: Vec<Ty>,
    pub positive: bool,
}

/// `<self_ty as ..>::item_def == term`.
#[derive(Debug, PartialEq, Eq)]
pub struct ProjectionPredicate {
    pub item_def: u64,
    pub self_ty: Ty,
    pub term: Ty,
}

/// The clauses a user can write in a `where` clause, and well-formedness.
#[derive(Debug, PartialEq, Eq)]
pub enum ClauseKind {
    Trait(TraitPredicate),
    RegionOutlives(Region, Region),
    TypeOutlives(Ty, Region),
    Projection(ProjectionPredicate),
    WellFormed(Ty),
}

/// A constraint the solver must prove.
#[derive(Debug, PartialEq, Eq)]
pub enum Predicate {
    Clause(ClauseKind),
    ObjectSafe(u64),
    Subtype(Ty, Ty),
    Coerce(Ty, Ty),
    Ambiguous,
}

/// Why the solver was asked to prove an obligation.
#[derive(Clone, Copy, Debug, PartialEq, Eq, Structural)]
pub enum ObligationCauseCode {
    /// The return type of a function must be `Sized`.
    SizedReturnType,
    Misc,
}

pub open spec fn is_unit_ty(t: Ty) -> bool {
    match t {
        Ty::Tuple(ts) => ts@.len() == 0,
        _ => false,
    }
}

pub open spec fn is_ty_var(t: Ty) -> bool {
    match t {
        Ty::Infer(k, _) => k == InferKind::TyVar,
        _ => false,
    }
}

pub open spec fn is_error_ty(t: Ty) -> bool {
    t is Error
}

/// Queries on a type.
pub trait TyExt {
    spec fn spec_is_error(&self) -> bool;

    /// True of the error type that stands for an ill-typed expression.
    fn is_error(&self) -> (r: bool)
        ensures
            r == self.spec_is_error(),
    ;
}

impl TyExt for Ty {
    open spec fn spec_is_error(&self) -> bool {
        is_error_ty(*self)
    }

    fn is_error(&self) -> (r: bool) {
        match self {
            Ty::Error => true,
            _ => false,
        }
    }
}

impl Ty {
    pub fn is_unit(&self) -> (r: bool)
        ensures
            r == is_unit_ty(*self),
    {
        match self {
            Ty::Tuple(ts) => ts.len() == 0,
            _ => false,
        }
    }

    pub fn is_ty_var(&self) -> (r: bool)
        ensures
            r == is_ty_var(*self),
    {
        match self {
            Ty::Infer(InferKind::TyVar, _) => true,
            _ => false,
        }
    }
}

pub open spec fn is_trait_predicate(p: Predicate) -> bool {
    p matches Predicate::Clause(ClauseKind::Trait(_))
}

/// A trait predicate whose self type is `()`.
pub open spec fn is_lhs_unit(p: Predicate) -> bool {
    match p {
        Predicate::Clause(ClauseKind::Trait(tp)) => is_unit_ty(tp.self_ty),
        _ => false,
    }
}

/// A trait predicate on the trait `def_id`.
pub open spec fn is_trait_pred_rhs(p: Predicate, def_id: u64) -> bool {
    match p {
        Predicate::Clause(ClauseKind::Trait(tp)) => tp.trait_def == def_id,
        _ => false,
    }
}

/// A trait predicate on one of the language's built-in traits.
pub open spec fn is_rhs_lang_item(p: Predicate, lang_items: Seq<u64>) -> bool {
    exists|i: int| 0 <= i < lang_items.len() && is_trait_pred_rhs(p, #[trigger] lang_items[i])
}

/// The clause kinds a user can write: trait bounds, region and type
/// outlives bounds, and associated-type equalities.
pub open spec fn is_writeable(p: Predicate) -> bool {
    match p {
        Predicate::Clause(ClauseKind::Trait(_)) => true,
        Predicate::Clause(ClauseKind::RegionOutlives(_, _)) => true,
        Predicate::Clause(ClauseKind::TypeOutlives(_, _)) => true,
        Predicate::Clause(ClauseKind::Projection(_)) => true,
        _ => false,
    }
}

/// The predicate's subject is an unresolved type variable.
pub open spec fn is_main_ty_var(p: Predicate) -> bool {
    match p {
        Predicate::Clause(ClauseKind::Trait(tp)) => is_ty_var(tp.self_ty),
        Predicate::Clause(ClauseKind::TypeOutlives(t, _)) => is_ty_var(t),
        Predicate::Clause(ClauseKind::Projection(pp)) => is_ty_var(pp.self_ty) || is_ty_var(
            pp.term,
        ),
        _ => false,
    }
}

impl Predicate {
    pub fn is_trait_predicate(&self) -> (r: bool)
        ensures
            r == is_trait_predicate(*self),
    {
        match self {
            Predicate::Clause(ClauseKind::Trait(_)) => true,
            _ => false,
        }
    }

    pub fn is_lhs_unit(&self) -> (r: bool)
        ensures
            r == is_lhs_unit(*self),
    {
        match self {
            Predicate::Clause(ClauseKind::Trait(tp)) => tp.self_ty.is_unit(),
            _ => false,
        }
    }

    pub fn is_trait_pred_rhs(&self, def_id: u64) -> (r: bool)
        ensures
            r == is_trait_pred_rhs(*self, def_id),
    {
        match self {
            Predicate::Clause(ClauseKind::Trait(tp)) => tp.trait_def == def_id,
            _ => false,
        }
    }

    pub fn is_rhs_lang_item(&self, lang_items: &Vec<u64>) -> (r: bool)
        ensures
            r == is_rhs_lang_item(*self, lang_items@),
    {
        let mut i: usize = 0;
        while i < lang_items.len()
            invariant
                i <= lang_items.len(),
                forall|j: int| 0 <= j < i ==> !is_trait_pred_rhs(*self, #[trigger] lang_items@[j]),
            decreases lang_items.len() - i,
        {
            if self.is_trait_pred_rhs(lang_items[i]) {
                return true;
            }
            i += 1;
        }
        false
    }

    pub fn is_writeable(&self) -> (r: bool)
        ensures
            r == is_writeable(*self),
    {
        match self {
            Predicate::Clause(ClauseKind::Trait(_)) => true,
            Predicate::Clause(ClauseKind::RegionOutlives(_, _)) => true,
            Predicate::Clause(ClauseKind::TypeOutlives(_, _)) => true,
            Predicate::Clause(ClauseKind::Projection(_)) => true,
            _ => false,
        }
    }

    pub fn is_main_ty_var(&self) -> (r: bool)
        ensures
            r == is_main_ty_var(*self),
    {
        match self {
            Predicate::Clause(ClauseKind::Trait(tp)) => tp.self_ty.is_ty_var(),
            Predicate::Clause(ClauseKind::TypeOutlives(t, _)) => t.is_ty_var(),
            Predicate::Clause(ClauseKind::Projection(pp)) => pp.self_ty.is_ty_var()
                || pp.term.is_ty_var(),
            _ => false,
        }
    }
}

} // verus!
