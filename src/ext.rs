//! Evaluation results and source ranges, with the queries on them.
use vstd::prelude::*;

verus! {

/// Why the solver could not decide a goal.
#[derive(Clone, Copy, Debug, PartialEq, Eq, Structural)]
pub enum MaybeCause {
    Ambiguity,
    Overflow,
}

/// How sure the solver is of a goal it did not refute.
#[derive(Clone, Copy, Debug, PartialEq, Eq, Structural)]
pub enum Certainty {
    Yes,
    Maybe(MaybeCause),
}

/// The solver found no way to prove a goal.
#[derive(Clone, Copy, Debug, PartialEq, Eq, Structural)]
pub struct NoSolution;

/// Proved (`Ok(Yes)`), ambiguous (`Ok(Maybe(..))`) or refuted (`Err`).
pub type EvaluationResult = Result<Certainty, NoSolution>;

pub open spec fn result_is_yes(r: EvaluationResult) -> bool {
    r == Ok::<Certainty, NoSolution>(Certainty::Yes)
}

/// Queries on an evaluation result.
pub trait EvaluationResultExt {
    spec fn spec_is_yes(&self) -> bool;

    spec fn spec_is_maybe(&self) -> bool;

    spec fn spec_is_no(&self) -> bool;

    fn is_yes(&self) -> (r: bool)
        ensures
            r == self.spec_is_yes(),
    ;

    fn is_maybe(&self) -> (r: bool)
        ensures
            r == self.spec_is_maybe(),
    ;

    fn is_no(&self) -> (r: bool)
        ensures
            r == self.spec_is_no(),
    ;
}

impl EvaluationResultExt for EvaluationResult {
    open spec fn spec_is_yes(&self) -> bool {
        result_is_yes(*self)
    }

    open spec fn spec_is_maybe(&self) -> bool {
        *self matches Ok(Certainty::Maybe(_))
    }

    open spec fn spec_is_no(&self) -> bool {
        *self is Err
    }

    fn is_yes(&self) -> (r: bool) {
        match self {
            Ok(Certainty::Yes) => true,
            _ => false,
        }
    }

    fn is_maybe(&self) -> (r: bool) {
        match self {
            Ok(Certainty::Maybe(_)) => true,
            _ => false,
        }
    }

    fn is_no(&self) -> (r: bool) {
        match self {
            Err(_) => true,
            _ => false,
        }
    }
}

/// Whether two evaluation results are the same.
pub fn same_result(a: &EvaluationResult, b: &EvaluationResult) -> (r: bool)
    ensures
        r == (*a == *b),
{
    match a {
        Ok(Certainty::Yes) => match b {
            Ok(Certainty::Yes) => true,
            _ => false,
        },
        Ok(Certainty::Maybe(x)) => match b {
            Ok(Certainty::Maybe(y)) => match (x, y) {
                (MaybeCause::Ambiguity, MaybeCause::Ambiguity) => true,
                (MaybeCause::Overflow, MaybeCause::Overflow) => true,
                _ => false,
            },
            _ => false,
        },
        Err(e1) => match b {
            Err(e2) => {
                assert(*e1 == *e2);
                true
            },
            _ => false,
        },
    }
}

/// A position in a source file, by line and column.
#[derive(Clone, Copy, Debug, PartialEq, Eq, Structural, Hash)]
pub struct CharPos {
    pub line: usize,
    pub column: usize,
}

/// A range of characters in one source file, `start` inclusive and `end`
/// exclusive.
#[derive(Clone, Copy, Debug, PartialEq, Eq, Structural, Hash)]
pub struct CharRange {
    pub start: CharPos,
    pub end: CharPos,
    pub filename: usize,
}

/// `a` comes before `b` in a file.
pub open spec fn pos_lt(a: CharPos, b: CharPos) -> bool {
    a.line < b.line || (a.line == b.line && a.column < b.column)
}

impl CharPos {
    pub fn before(&self, other: &CharPos) -> (r: bool)
        ensures
            r == pos_lt(*self, *other),
    {
        self.line < other.line || (self.line == other.line && self.column < other.column)
    }
}

/// Queries on a source range.
pub trait CharRangeExt: Copy + Sized {
    spec fn spec_overlaps(self, other: Self) -> bool;

    /// Returns true if this range touches the `other`.
    fn overlaps(self, other: Self) -> (r: bool)
        ensures
            r == self.spec_overlaps(other),
    ;
}

impl CharRangeExt for CharRange {
    open spec fn spec_overlaps(self, other: Self) -> bool {
        pos_lt(self.start, other.end) && pos_lt(other.start, self.end)
    }

    fn overlaps(self, other: Self) -> (r: bool) {
        self.start.before(&other.end) && other.start.before(&self.end)
    }
}

} // verus!
