//! How important an obligation is to show a user, whatever its outcome.
use vstd::prelude::*;

use crate::ty::{
    is_lhs_unit, is_rhs_lang_item, is_trait_predicate, is_writeable, ObligationCauseCode,
    Predicate,
};

verus! {

/// `Yes` is always shown, `OnError` only when something failed, `No` never.
#[derive(Clone, Copy, Debug, PartialEq, Eq, Structural)]
pub enum ObligationNecessity {
    No,
    OnError,
    Yes,
}

/// The necessity of a predicate, whatever caused it:
/// a clause a user cannot write is shown on error; then a bound on `()` is
/// never shown; a bound on a built-in trait, and every clause that is not a
/// trait bound, is shown on error; the rest is always shown.
pub open spec fn predicate_necessity(p: Predicate, lang_items: Seq<u64>) -> ObligationNecessity {
    if !is_writeable(p) {
        ObligationNecessity::OnError
    } else if is_lhs_unit(p) {
        ObligationNecessity::No
    } else if is_trait_predicate(p) && is_rhs_lang_item(p, lang_items) {
        ObligationNecessity::OnError
    } else if !is_trait_predicate(p) {
        ObligationNecessity::OnError
    } else {
        ObligationNecessity::Yes
    }
}

/// The necessity of an obligation: a bound on `()` that only asks for a
/// `Sized` return type is never shown; otherwise as `predicate_necessity`.
pub open spec fn obligation_necessity(
    p: Predicate,
    cause: ObligationCauseCode,
    lang_items: Seq<u64>,
) -> ObligationNecessity {
    if cause == ObligationCauseCode::SizedReturnType && is_lhs_unit(p) {
        ObligationNecessity::No
    } else {
        predicate_necessity(p, lang_items)
    }
}

/// Classifies a predicate by its shape alone. `lang_items` are the ids of
/// the language's built-in traits.
pub fn guess_predicate_necessity(p: &Predicate, lang_items: &Vec<u64>) -> (r:
    ObligationNecessity)
    ensures
        r == predicate_necessity(*p, lang_items@),
{
    if !p.is_writeable() {
        ObligationNecessity::OnError
    } else if p.is_lhs_unit() {
        ObligationNecessity::No
    } else if p.is_trait_predicate() && p.is_rhs_lang_item(lang_items) {
        ObligationNecessity::OnError
    } else if !p.is_trait_predicate() {
        ObligationNecessity::OnError
    } else {
        ObligationNecessity::Yes
    }
}

/// Classifies an obligation by its predicate and the cause it came from.
pub fn classify(p: &Predicate, cause: ObligationCauseCode, lang_items: &Vec<u64>) -> (r:
    ObligationNecessity)
    ensures
        r == obligation_necessity(*p, cause, lang_items@),
{
    if cause == ObligationCauseCode::SizedReturnType && p.is_lhs_unit() {
        ObligationNecessity::No
    } else {
        guess_predicate_necessity(p, lang_items)
    }
}

/// Necessity is a function of its inputs: the same predicate, cause and
/// built-in traits always give the same classification.
pub proof fn lemma_classify_deterministic(
    p1: Predicate,
    p2: Predicate,
    c1: ObligationCauseCode,
    c2: ObligationCauseCode,
    l1: Seq<u64>,
    l2: Seq<u64>,
)
    requires
        p1 == p2,
        c1 == c2,
        l1 == l2,
    ensures
        obligation_necessity(p1, c1, l1) == obligation_necessity(p2, c2, l2),
{
}

} // verus!
