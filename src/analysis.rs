//! Capture of obligations during one type-check pass, and the choice of
//! one proof tree among those a pass produced.
use vstd::prelude::*;

use crate::ext::{CharRange, EvaluationResult};
use crate::hash::{canonical_hash, predicate_hash};
use crate::necessity::{classify, obligation_necessity, ObligationNecessity};
use crate::proof_tree::{SerializedTree, TreeError};
use crate::ty::{ObligationCauseCode, Predicate};

verus! {

/// A syntax node: the item that owns it and its index within that item.
#[derive(Clone, Copy, Debug, PartialEq, Eq, Structural, Hash)]
pub struct HirId {
    pub owner: u32,
    pub local_id: u32,
}

/// A payload with the syntax node it came from and, optionally, indices
/// into the pass's side tables of full and of synthetic obligation data.
/// The indices mean something only within the pass that made them.
pub struct Provenance<T> {
    pub hir_id: HirId,
    pub full_data: Option<usize>,
    pub synthetic_data: Option<usize>,
    pub it: T,
}

impl<T> Provenance<T> {
    pub fn new(hir_id: HirId, it: T) -> (r: Provenance<T>)
        ensures
            r.hir_id == hir_id,
            r.full_data is None,
            r.synthetic_data is None,
            r.it == it,
    {
        Provenance { hir_id, full_data: None, synthetic_data: None, it }
    }

    /// The same provenance around `f` of the payload.
    pub fn map<U, F: FnOnce(&T) -> U>(&self, f: F) -> (r: Provenance<U>)
        requires
            f.requires((&self.it,)),
        ensures
            f.ensures((&self.it,), r.it),
            r.hir_id == self.hir_id,
            r.full_data == self.full_data,
            r.synthetic_data == self.synthetic_data,
    {
        Provenance {
            it: f(&self.it),
            hir_id: self.hir_id,
            full_data: self.full_data,
            synthetic_data: self.synthetic_data,
        }
    }

    pub fn get(&self) -> (r: &T)
        ensures
            *r == self.it,
    {
        &self.it
    }

    /// The payload, provenance dropped.
    pub fn forget(self) -> (r: T)
        ensures
            r == self.it,
    {
        self.it
    }
}

/// The payloads of `v`, in order, provenance dropped.
pub fn forget_all<T>(v: Vec<Provenance<T>>) -> (r: Vec<T>)
    ensures
        r@.len() == v@.len(),
        forall|i: int| 0 <= i < v@.len() ==> #[trigger] r@[i] == v@[i].it,
{
    let mut v = v;
    let ghost orig = v@;
    let mut rev: Vec<T> = Vec::new();
    while v.len() > 0
        invariant
            v@ == orig.subrange(0, v@.len() as int),
            rev@.len() + v@.len() == orig.len(),
            forall|i: int| 0 <= i < rev@.len() ==> #[trigger] rev@[i] == orig[orig.len() - 1 - i].it,
        decreases v@.len(),
    {
        let p = v.pop().unwrap();
        rev.push(p.forget());
    }
    let mut out: Vec<T> = Vec::new();
    while rev.len() > 0
        invariant
            rev@.len() + out@.len() == orig.len(),
            forall|i: int| 0 <= i < rev@.len() ==> #[trigger] rev@[i] == orig[orig.len() - 1 - i].it,
            forall|i: int| 0 <= i < out@.len() ==> #[trigger] out@[i] == orig[i].it,
        decreases rev@.len(),
    {
        let x = rev.pop().unwrap();
        out.push(x);
    }
    out
}

/// Dropping the provenance of a collection of payloads.
pub trait ForgetProvenance: Sized {
    type Target;

    /// `r` holds the payloads of `self`.
    spec fn forgets(self, r: Self::Target) -> bool;

    fn forget(self) -> (r: Self::Target)
        ensures
            self.forgets(r),
    ;
}

impl<T> ForgetProvenance for Vec<Provenance<T>> {
    type Target = Vec<T>;

    open spec fn forgets(self, r: Vec<T>) -> bool {
        r@.len() == self@.len() && forall|i: int| 0 <= i < self@.len() ==> #[trigger] r@[i] == self@[i].it
    }

    fn forget(self) -> (r: Vec<T>) {
        forget_all(self)
    }
}

/// An obligation as the solver holds it: the predicate, why it was asked
/// for, its rendering, and the source range it is blamed on (`None` when the
/// solver gave no usable span).
pub struct PredicateObligation {
    pub predicate: Predicate,
    pub cause: ObligationCauseCode,
    pub rendered: String,
    pub span: Option<CharRange>,
}

/// The range blamed for an obligation: its own, else that of the body.
pub open spec fn obligation_range(o: PredicateObligation, body_range: CharRange) -> CharRange {
    match o.span {
        Some(r) => r,
        None => body_range,
    }
}

impl PredicateObligation {
    pub fn range(&self, body_range: CharRange) -> (r: CharRange)
        ensures
            r == obligation_range(*self, body_range),
    {
        match self.span {
            Some(r) => r,
            None => body_range,
        }
    }
}

/// A discharged obligation, as recorded for a user.
#[derive(Debug, PartialEq, Eq)]
pub struct Obligation {
    pub obligation: String,
    pub hash: u64,
    pub range: CharRange,
    pub necessity: ObligationNecessity,
    pub result: EvaluationResult,
    pub is_synthetic: bool,
}

/// An obligation the solver discharged, with its canonical hash.
pub struct FulfillmentData<'a> {
    pub hash: u64,
    pub obligation: &'a PredicateObligation,
    pub result: EvaluationResult,
    pub is_synthetic: bool,
}

/// Pairs a discharged obligation with its canonical hash.
pub fn bless_fulfilled<'a>(
    obligation: &'a PredicateObligation,
    result: EvaluationResult,
    is_synthetic: bool,
) -> (r: FulfillmentData<'a>)
    ensures
        r.hash == canonical_hash(obligation.predicate),
        *r.obligation == *obligation,
        r.result == result,
        r.is_synthetic == is_synthetic,
{
    FulfillmentData { hash: predicate_hash(&obligation.predicate), obligation, result, is_synthetic }
}

/// The record of an obligation, as `erase_non_local_data` builds it.
pub open spec fn obligation_record(
    o: PredicateObligation,
    hash: u64,
    result: EvaluationResult,
    is_synthetic: bool,
    body_range: CharRange,
    lang_items: Seq<u64>,
) -> Obligation {
    Obligation {
        obligation: o.rendered,
        hash,
        range: obligation_range(o, body_range),
        necessity: obligation_necessity(o.predicate, o.cause, lang_items),
        result,
        is_synthetic,
    }
}

/// Keeps of a discharged obligation only what outlives the pass: its
/// rendering, hash, range, necessity and result.
pub fn erase_non_local_data(
    fdata: &FulfillmentData,
    body_range: CharRange,
    lang_items: &Vec<u64>,
) -> (r: Obligation)
    ensures
        r == obligation_record(
            *fdata.obligation,
            fdata.hash,
            fdata.result,
            fdata.is_synthetic,
            body_range,
            lang_items@,
        ),
{
    let obl = fdata.obligation;
    Obligation {
        obligation: obl.rendered.clone(),
        hash: fdata.hash,
        range: obl.range(body_range),
        necessity: classify(&obl.predicate, obl.cause, lang_items),
        result: fdata.result,
        is_synthetic: fdata.is_synthetic,
    }
}

/// Some stored obligation has hash `h`.
pub open spec fn has_hash(s: Seq<Provenance<Obligation>>, h: u64) -> bool {
    exists|i: int| 0 <= i < s.len() && (#[trigger] s[i]).it.hash == h
}

/// The store after `o` is offered: unchanged when an obligation of the same
/// hash is there, else with `o` at the end.
pub open spec fn stored(s: Seq<Provenance<Obligation>>, o: Provenance<Obligation>) -> Seq<
    Provenance<Obligation>,
> {
    if has_hash(s, o.it.hash) {
        s
    } else {
        s.push(o)
    }
}

/// No two stored obligations share a hash.
pub open spec fn hashes_unique(s: Seq<Provenance<Obligation>>) -> bool {
    forall|i: int, j: int|
        0 <= i < s.len() && 0 <= j < s.len() && i != j ==> (#[trigger] s[i]).it.hash != (
        #[trigger] s[j]).it.hash
}

/// An obligation kept whole for later inspection.
pub struct FullObligationData {
    pub obligation: PredicateObligation,
    pub result: EvaluationResult,
}

/// What one type-check pass accumulates; drained by its owner.
pub struct ObligationStore {
    obligations: Vec<Provenance<Obligation>>,
    full_data: Vec<FullObligationData>,
    tree: Option<SerializedTree>,
    reported_errors: Vec<(CharRange, Vec<u64>)>,
}

impl ObligationStore {
    pub closed spec fn obligations_view(&self) -> Seq<Provenance<Obligation>> {
        self.obligations@
    }

    pub closed spec fn full_view(&self) -> Seq<FullObligationData> {
        self.full_data@
    }

    pub closed spec fn tree_view(&self) -> Option<SerializedTree> {
        self.tree
    }

    pub closed spec fn reported_view(&self) -> Seq<(CharRange, Vec<u64>)> {
        self.reported_errors@
    }

    pub open spec fn wf(&self) -> bool {
        hashes_unique(self.obligations_view())
    }

    pub fn new() -> (r: ObligationStore)
        ensures
            r.wf(),
            r.obligations_view().len() == 0,
            r.full_view().len() == 0,
            r.tree_view() is None,
            r.reported_view().len() == 0,
    {
        ObligationStore {
            obligations: Vec::new(),
            full_data: Vec::new(),
            tree: None,
            reported_errors: Vec::new(),
        }
    }

    /// Stores `obl` unless an obligation with the same hash is stored.
    pub fn store_obligation(&mut self, obl: Provenance<Obligation>)
        requires
            old(self).wf(),
        ensures
            final(self).wf(),
            final(self).obligations_view() == stored(old(self).obligations_view(), obl),
            final(self).full_view() == old(self).full_view(),
            final(self).tree_view() == old(self).tree_view(),
            final(self).reported_view() == old(self).reported_view(),
    {
        let mut i: usize = 0;
        while i < self.obligations.len()
            invariant
                *self == *old(self),
                hashes_unique(self.obligations@),
                i <= self.obligations@.len(),
                forall|j: int| 0 <= j < i ==> (#[trigger] self.obligations@[j]).it.hash != obl.it.hash,
            decreases self.obligations@.len() - i,
        {
            if self.obligations[i].it.hash == obl.it.hash {
                return ;
            }
            i += 1;
        }
        self.obligations.push(obl);
    }

    /// Removes and returns every stored obligation, in the order stored.
    pub fn take_obligations(&mut self) -> (r: Vec<Provenance<Obligation>>)
        requires
            old(self).wf(),
        ensures
            final(self).wf(),
            r@ == old(self).obligations_view(),
            final(self).obligations_view().len() == 0,
            final(self).full_view() == old(self).full_view(),
            final(self).tree_view() == old(self).tree_view(),
            final(self).reported_view() == old(self).reported_view(),
    {
        let mut r: Vec<Provenance<Obligation>> = Vec::new();
        std::mem::swap(&mut r, &mut self.obligations);
        r
    }

    /// Keeps an obligation whole and returns its index in the side table.
    pub fn store_full(&mut self, obligation: PredicateObligation, result: EvaluationResult) -> (r:
        usize)
        requires
            old(self).wf(),
        ensures
            final(self).wf(),
            r == old(self).full_view().len(),
            final(self).full_view() == old(self).full_view().push(
                FullObligationData { obligation, result },
            ),
            final(self).obligations_view() == old(self).obligations_view(),
            final(self).tree_view() == old(self).tree_view(),
            final(self).reported_view() == old(self).reported_view(),
    {
        let r = self.full_data.len();
        self.full_data.push(FullObligationData { obligation, result });
        r
    }

    /// Removes and returns the side table of whole obligations.
    pub fn take_full(&mut self) -> (r: Vec<FullObligationData>)
        requires
            old(self).wf(),
        ensures
            final(self).wf(),
            r@ == old(self).full_view(),
            final(self).full_view().len() == 0,
            final(self).obligations_view() == old(self).obligations_view(),
            final(self).tree_view() == old(self).tree_view(),
            final(self).reported_view() == old(self).reported_view(),
    {
        let mut r: Vec<FullObligationData> = Vec::new();
        std::mem::swap(&mut r, &mut self.full_data);
        r
    }

    /// Keeps `new_tree` unless a tree is kept already.
    pub fn store_tree(&mut self, new_tree: SerializedTree)
        requires
            old(self).wf(),
        ensures
            final(self).wf(),
            final(self).tree_view() == (if old(self).tree_view() is None {
                Some(new_tree)
            } else {
                old(self).tree_view()
            }),
            final(self).obligations_view() == old(self).obligations_view(),
            final(self).full_view() == old(self).full_view(),
            final(self).reported_view() == old(self).reported_view(),
    {
        if self.tree.is_none() {
            self.tree = Some(new_tree);
        }
    }

    /// Removes and returns the kept tree.
    pub fn take_tree(&mut self) -> (r: Option<SerializedTree>)
        requires
            old(self).wf(),
        ensures
            final(self).wf(),
            r == old(self).tree_view(),
            final(self).tree_view() is None,
            final(self).obligations_view() == old(self).obligations_view(),
            final(self).full_view() == old(self).full_view(),
            final(self).reported_view() == old(self).reported_view(),
    {
        let mut r: Option<SerializedTree> = None;
        std::mem::swap(&mut r, &mut self.tree);
        r
    }

    /// Replaces the errors the host reported, by range, with their hashes.
    pub fn replace_reported_errors(&mut self, errs: Vec<(CharRange, Vec<u64>)>)
        requires
            old(self).wf(),
        ensures
            final(self).wf(),
            final(self).reported_view() == errs@,
            final(self).obligations_view() == old(self).obligations_view(),
            final(self).full_view() == old(self).full_view(),
            final(self).tree_view() == old(self).tree_view(),
    {
        self.reported_errors = errs;
    }

    /// Removes and returns the errors the host reported.
    pub fn take_reported_errors(&mut self) -> (r: Vec<(CharRange, Vec<u64>)>)
        requires
            old(self).wf(),
        ensures
            final(self).wf(),
            r@ == old(self).reported_view(),
            final(self).reported_view().len() == 0,
            final(self).obligations_view() == old(self).obligations_view(),
            final(self).full_view() == old(self).full_view(),
            final(self).tree_view() == old(self).tree_view(),
    {
        let mut r: Vec<(CharRange, Vec<u64>)> = Vec::new();
        std::mem::swap(&mut r, &mut self.reported_errors);
        r
    }
}

/// Deduplication: of two obligations with the same hash offered to a store
/// that holds none with that hash, the first is stored and the second
/// dropped; storing keeps hashes unique.
pub proof fn lemma_first_writer_wins(
    s: Seq<Provenance<Obligation>>,
    o1: Provenance<Obligation>,
    o2: Provenance<Obligation>,
)
    requires
        hashes_unique(s),
        !has_hash(s, o1.it.hash),
        o1.it.hash == o2.it.hash,
    ensures
        stored(stored(s, o1), o2) == s.push(o1),
        hashes_unique(stored(stored(s, o1), o2)),
{
    assert(s.push(o1)[s.len() as int].it.hash == o2.it.hash);
    assert(has_hash(s.push(o1), o2.it.hash));
    assert forall|i: int, j: int|
        0 <= i < s.len() + 1 && 0 <= j < s.len() + 1 && i != j implies (#[trigger] s.push(
        o1,
    )[i]).it.hash != (#[trigger] s.push(o1)[j]).it.hash by {
        if i == s.len() {
            assert(s[j] == s.push(o1)[j]);
        } else if j == s.len() {
            assert(s[i] == s.push(o1)[i]);
        }
    }
}

/// One obligation as the host reported it during a pass.
pub struct CapturedObligation {
    pub hir_id: HirId,
    pub obligation: PredicateObligation,
    pub result: EvaluationResult,
    pub is_synthetic: bool,
}

/// The record of a captured obligation.
pub open spec fn captured_record(
    c: CapturedObligation,
    body_range: CharRange,
    lang_items: Seq<u64>,
) -> Obligation {
    obligation_record(
        c.obligation,
        canonical_hash(c.obligation.predicate),
        c.result,
        c.is_synthetic,
        body_range,
        lang_items,
    )
}

/// The records of the captured obligations, first of each hash only.
pub open spec fn deduplicated(
    cs: Seq<CapturedObligation>,
    body_range: CharRange,
    lang_items: Seq<u64>,
) -> Seq<Obligation>
    decreases cs.len(),
{
    if cs.len() == 0 {
        seq![]
    } else {
        let prev = deduplicated(cs.drop_last(), body_range, lang_items);
        let o = captured_record(cs.last(), body_range, lang_items);
        if exists|i: int| 0 <= i < prev.len() && (#[trigger] prev[i]).hash == o.hash {
            prev
        } else {
            prev.push(o)
        }
    }
}

/// The obligations of one pass, in the order captured, one per canonical
/// hash (the first captured). `body_range` is blamed for obligations with
/// no span of their own.
pub fn obligations(
    captured: &Vec<CapturedObligation>,
    body_range: CharRange,
    lang_items: &Vec<u64>,
) -> (r: Vec<Obligation>)
    ensures
        r@ == deduplicated(captured@, body_range, lang_items@),
{
    let mut store = ObligationStore::new();
    let mut i: usize = 0;
    while i < captured.len()
        invariant
            i <= captured@.len(),
            store.wf(),
            store.obligations_view().len() == deduplicated(
                captured@.subrange(0, i as int),
                body_range,
                lang_items@,
            ).len(),
            forall|k: int|
                0 <= k < store.obligations_view().len() ==> #[trigger] store.obligations_view()[k].it
                    == deduplicated(captured@.subrange(0, i as int), body_range, lang_items@)[k],
        decreases captured@.len() - i,
    {
        let c = &captured[i];
        let fdata = bless_fulfilled(&c.obligation, c.result, c.is_synthetic);
        let record = erase_non_local_data(&fdata, body_range, lang_items);
        let ghost before = store.obligations_view();
        let ghost prev = deduplicated(captured@.subrange(0, i as int), body_range, lang_items@);
        proof {
            let s = captured@.subrange(0, i as int + 1);
            assert(s.drop_last() =~= captured@.subrange(0, i as int));
            assert(s.last() == captured@[i as int]);
            assert(record == captured_record(captured@[i as int], body_range, lang_items@));
            assert(has_hash(before, record.hash) <==> exists|k: int|
                0 <= k < prev.len() && (#[trigger] prev[k]).hash == record.hash) by {
                if has_hash(before, record.hash) {
                    let k = choose|k: int| 0 <= k < before.len() && (#[trigger] before[k]).it.hash
                        == record.hash;
                    assert(prev[k].hash == record.hash);
                }
                if exists|k: int| 0 <= k < prev.len() && (#[trigger] prev[k]).hash == record.hash {
                    let k = choose|k: int| 0 <= k < prev.len() && (#[trigger] prev[k]).hash
                        == record.hash;
                    assert(before[k].it.hash == record.hash);
                }
            }
        }
        store.store_obligation(Provenance::new(c.hir_id, record));
        i += 1;
    }
    assert(captured@.subrange(0, captured@.len() as int) =~= captured@);
    let taken = store.take_obligations();
    forget_all(taken)
}

/// A caller's choice of one tree: the canonical hash of its obligation and
/// the source range it is blamed on.
#[derive(Clone, Copy, Debug, PartialEq, Eq, Structural)]
pub struct Target {
    pub hash: u64,
    pub span: CharRange,
}

/// A proof tree produced during a pass, with the hash and range of the
/// obligation it proves.
pub struct ObligationTree {
    pub hash: u64,
    pub range: CharRange,
    pub tree: SerializedTree,
}

pub open spec fn tree_matches(t: ObligationTree, target: Target) -> bool {
    t.range == target.span && t.hash == target.hash
}

/// The index of the first tree whose range and hash match `target`.
pub fn find_tree(trees: &Vec<ObligationTree>, target: &Target) -> (r: Option<usize>)
    ensures
        r matches Some(i) ==> i < trees@.len() && tree_matches(trees@[i as int], *target)
            && forall|j: int| 0 <= j < i ==> !tree_matches(#[trigger] trees@[j], *target),
        r is None ==> forall|j: int|
            0 <= j < trees@.len() ==> !tree_matches(#[trigger] trees@[j], *target),
{
    let mut i: usize = 0;
    while i < trees.len()
        invariant
            i <= trees@.len(),
            forall|j: int| 0 <= j < i ==> !tree_matches(#[trigger] trees@[j], *target),
        decreases trees@.len() - i,
    {
        if trees[i].range == target.span && trees[i].hash == target.hash {
            return Some(i);
        }
        i += 1;
    }
    None
}

/// The tree of the first obligation that matches `target`, or `NotFound`
/// with the target when none does.
pub fn tree(trees: Vec<ObligationTree>, target: Target) -> (r: Result<SerializedTree, TreeError>)
    ensures
        (exists|j: int| 0 <= j < trees@.len() && tree_matches(#[trigger] trees@[j], target))
            <==> r is Ok,
        r is Err ==> r == Err::<SerializedTree, TreeError>(TreeError::NotFound(target)),
        r matches Ok(t) ==> exists|i: int|
            0 <= i < trees@.len() && t == (#[trigger] trees@[i]).tree && tree_matches(
                trees@[i],
                target,
            ) && forall|j: int| 0 <= j < i ==> !tree_matches(#[trigger] trees@[j], target),
{
    let mut trees = trees;
    match find_tree(&trees, &target) {
        Some(i) => {
            let found = trees.remove(i);
            Ok(found.tree)
        },
        None => Err(TreeError::NotFound(target)),
    }
}

} // verus!
