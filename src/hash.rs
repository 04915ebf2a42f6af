//! Canonical identity of predicates.
//!
//! A predicate is written out as a sequence of 64-bit words in which every
//! region is dropped and every unresolved unification variable is replaced by
//! a placeholder of its kind, so that the words depend neither on region
//! information nor on how the solver happened to number its variables. The
//! words are laid out as little-endian bytes and hashed with a stable hasher.
use std::hash::Hasher;
use vstd::prelude::*;

use crate::ty::{ClauseKind, InferKind, Predicate, Ty};

verus! {

pub const TAG_BOOL: u64 = 1;
pub const TAG_CHAR: u64 = 2;
pub const TAG_STR: u64 = 3;
pub const TAG_PARAM: u64 = 4;
pub const TAG_ADT: u64 = 5;
pub const TAG_REF: u64 = 6;
pub const TAG_TUPLE: u64 = 7;
pub const TAG_INFER: u64 = 8;
pub const TAG_ERROR: u64 = 9;
/// Ends a list of types; no type's words start with it.
pub const TAG_END: u64 = 10;

pub const TAG_TRAIT: u64 = 16;
pub const TAG_REGION_OUTLIVES: u64 = 17;
pub const TAG_TYPE_OUTLIVES: u64 = 18;
pub const TAG_PROJECTION: u64 = 19;
pub const TAG_WELL_FORMED: u64 = 20;
pub const TAG_OBJECT_SAFE: u64 = 21;
pub const TAG_SUBTYPE: u64 = 22;
pub const TAG_COERCE: u64 = 23;
pub const TAG_AMBIGUOUS: u64 = 24;

/// The placeholder that stands for every variable of one kind.
pub open spec fn infer_kind_word(k: InferKind) -> u64 {
    match k {
        InferKind::TyVar => 0,
        InferKind::IntVar => 1,
        InferKind::FloatVar => 2,
    }
}

/// The canonical words of a type.
pub open spec fn ty_words(t: Ty) -> Seq<u64>
    decreases t,
{
    match t {
        Ty::Bool => seq![TAG_BOOL],
        Ty::Char => seq![TAG_CHAR],
        Ty::Str => seq![TAG_STR],
        Ty::Param(i) => seq![TAG_PARAM, i as u64],
        Ty::Adt(d, args) => seq![TAG_ADT, d] + tys_words(args@) + seq![TAG_END],
        Ty::Ref(_, inner, m) => seq![TAG_REF, if m { 1u64 } else { 0u64 }] + ty_words(*inner),
        Ty::Tuple(ts) => seq![TAG_TUPLE] + tys_words(ts@) + seq![TAG_END],
        Ty::Infer(k, _) => seq![TAG_INFER, infer_kind_word(k)],
        Ty::Error => seq![TAG_ERROR],
    }
}

/// The canonical words of a list of types, one after the other.
pub open spec fn tys_words(ts: Seq<Ty>) -> Seq<u64>
    decreases ts,
{
    if ts.len() == 0 {
        seq![]
    } else {
        tys_words(ts.drop_last()) + ty_words(ts.last())
    }
}

/// The canonical words of a predicate.
pub open spec fn predicate_words(p: Predicate) -> Seq<u64> {
    match p {
        Predicate::Clause(ClauseKind::Trait(tp)) => seq![
            TAG_TRAIT,
            tp.trait_def,
            if tp.positive { 1u64 } else { 0u64 },
        ] + ty_words(tp.self_ty) + tys_words(tp.args@) + seq![TAG_END],
        Predicate::Clause(ClauseKind::RegionOutlives(_, _)) => seq![TAG_REGION_OUTLIVES],
        Predicate::Clause(ClauseKind::TypeOutlives(t, _)) => seq![TAG_TYPE_OUTLIVES] + ty_words(t),
        Predicate::Clause(ClauseKind::Projection(pp)) => seq![TAG_PROJECTION, pp.item_def]
            + ty_words(pp.self_ty) + ty_words(pp.term),
        Predicate::Clause(ClauseKind::WellFormed(t)) => seq![TAG_WELL_FORMED] + ty_words(t),
        Predicate::ObjectSafe(d) => seq![TAG_OBJECT_SAFE, d],
        Predicate::Subtype(a, b) => seq![TAG_SUBTYPE] + ty_words(a) + ty_words(b),
        Predicate::Coerce(a, b) => seq![TAG_COERCE] + ty_words(a) + ty_words(b),
        Predicate::Ambiguous => seq![TAG_AMBIGUOUS],
    }
}

/// The eight little-endian bytes of `w`, least significant first.
pub open spec fn le_bytes(w: nat, n: nat) -> Seq<u8>
    decreases n,
{
    if n == 0 {
        seq![]
    } else {
        seq![(w % 256) as u8] + le_bytes(w / 256, (n - 1) as nat)
    }
}

/// Words laid out one after the other, eight little-endian bytes each.
pub open spec fn words_bytes(ws: Seq<u64>) -> Seq<u8>
    decreases ws.len(),
{
    if ws.len() == 0 {
        seq![]
    } else {
        words_bytes(ws.drop_last()) + le_bytes(ws.last() as nat, 8)
    }
}

/// What the stable hasher returns for a byte string.
pub uninterp spec fn stable_hash_of(bytes: Seq<u8>) -> u64;

/// The canonical identity hash of a predicate.
pub open spec fn canonical_hash(p: Predicate) -> u64 {
    stable_hash_of(words_bytes(predicate_words(p)))
}

/// Relies on rustc_stable_hash::StableSipHasher128: a 64-bit hash that is a
/// function of the bytes written, the same on every platform.
#[verifier::external_body]
fn stable_hash_bytes(bytes: &Vec<u8>) -> (r: u64)
    ensures
        r == stable_hash_of(bytes@),
{
    let mut hasher = rustc_stable_hash::StableSipHasher128::new();
    hasher.write(bytes.as_slice());
    Hasher::finish(&hasher)
}

fn push_word(out: &mut Vec<u64>, w: u64)
    ensures
        final(out)@ == old(out)@ + seq![w],
{
    out.push(w);
}

/// Appends the canonical words of `t`.
pub fn encode_ty(t: &Ty, out: &mut Vec<u64>)
    ensures
        final(out)@ == old(out)@ + ty_words(*t),
    decreases t,
{
    let ghost start = out@;
    match t {
        Ty::Bool => push_word(out, TAG_BOOL),
        Ty::Char => push_word(out, TAG_CHAR),
        Ty::Str => push_word(out, TAG_STR),
        Ty::Param(i) => {
            push_word(out, TAG_PARAM);
            push_word(out, *i as u64);
        },
        Ty::Adt(d, args) => {
            push_word(out, TAG_ADT);
            push_word(out, *d);
            encode_tys(args, out);
            push_word(out, TAG_END);
        },
        Ty::Ref(_, inner, m) => {
            push_word(out, TAG_REF);
            push_word(out, if *m { 1u64 } else { 0u64 });
            encode_ty(inner, out);
        },
        Ty::Tuple(ts) => {
            push_word(out, TAG_TUPLE);
            encode_tys(ts, out);
            push_word(out, TAG_END);
        },
        Ty::Infer(k, _) => {
            push_word(out, TAG_INFER);
            let kw: u64 = match k {
                InferKind::TyVar => 0,
                InferKind::IntVar => 1,
                InferKind::FloatVar => 2,
            };
            push_word(out, kw);
        },
        Ty::Error => push_word(out, TAG_ERROR),
    }
    assert(out@ =~= start + ty_words(*t));
}

/// Appends the canonical words of each type of `ts`, in order.
pub fn encode_tys(ts: &Vec<Ty>, out: &mut Vec<u64>)
    ensures
        final(out)@ == old(out)@ + tys_words(ts@),
    decreases ts,
{
    let ghost start = out@;
    let mut i: usize = 0;
    while i < ts.len()
        invariant
            i <= ts.len(),
            out@ == start + tys_words(ts@.subrange(0, i as int)),
        decreases ts.len() - i,
    {
        proof {
            let s = ts@.subrange(0, i as int + 1);
            assert(s.drop_last() =~= ts@.subrange(0, i as int));
            assert(s.last() == ts@[i as int]);
        }
        encode_ty(&ts[i], out);
        i += 1;
    }
    assert(ts@.subrange(0, ts@.len() as int) =~= ts@);
}

/// The canonical words of a predicate.
pub fn encode_predicate(p: &Predicate) -> (r: Vec<u64>)
    ensures
        r@ == predicate_words(*p),
{
    let mut out: Vec<u64> = Vec::new();
    match p {
        Predicate::Clause(ClauseKind::Trait(tp)) => {
            push_word(&mut out, TAG_TRAIT);
            push_word(&mut out, tp.trait_def);
            push_word(&mut out, if tp.positive { 1u64 } else { 0u64 });
            encode_ty(&tp.self_ty, &mut out);
            encode_tys(&tp.args, &mut out);
            push_word(&mut out, TAG_END);
        },
        Predicate::Clause(ClauseKind::RegionOutlives(_, _)) => {
            push_word(&mut out, TAG_REGION_OUTLIVES);
        },
        Predicate::Clause(ClauseKind::TypeOutlives(t, _)) => {
            push_word(&mut out, TAG_TYPE_OUTLIVES);
            encode_ty(t, &mut out);
        },
        Predicate::Clause(ClauseKind::Projection(pp)) => {
            push_word(&mut out, TAG_PROJECTION);
            push_word(&mut out, pp.item_def);
            encode_ty(&pp.self_ty, &mut out);
            encode_ty(&pp.term, &mut out);
        },
        Predicate::Clause(ClauseKind::WellFormed(t)) => {
            push_word(&mut out, TAG_WELL_FORMED);
            encode_ty(t, &mut out);
        },
        Predicate::ObjectSafe(d) => {
            push_word(&mut out, TAG_OBJECT_SAFE);
            push_word(&mut out, *d);
        },
        Predicate::Subtype(a, b) => {
            push_word(&mut out, TAG_SUBTYPE);
            encode_ty(a, &mut out);
            encode_ty(b, &mut out);
        },
        Predicate::Coerce(a, b) => {
            push_word(&mut out, TAG_COERCE);
            encode_ty(a, &mut out);
            encode_ty(b, &mut out);
        },
        Predicate::Ambiguous => {
            push_word(&mut out, TAG_AMBIGUOUS);
        },
    }
    assert(out@ =~= predicate_words(*p));
    out
}

/// Appends the eight little-endian bytes of `w`.
fn push_le_bytes(w: u64, out: &mut Vec<u8>)
    ensures
        final(out)@ == old(out)@ + le_bytes(w as nat, 8),
{
    let ghost start = out@;
    let mut rest: u64 = w;
    let mut k: usize = 0;
    while k < 8
        invariant
            k <= 8,
            out@ + le_bytes(rest as nat, (8 - k) as nat) == start + le_bytes(w as nat, 8),
        decreases 8 - k,
    {
        let ghost before = out@;
        let ghost r0 = rest;
        proof {
            assert(le_bytes(rest as nat, (8 - k) as nat) == seq![(rest % 256) as u8] + le_bytes(
                (rest / 256) as nat,
                (8 - k - 1) as nat,
            ));
        }
        out.push((rest % 256) as u8);
        rest = rest / 256;
        k += 1;
        assert(out@ + le_bytes(rest as nat, (8 - k) as nat) =~= before + (seq![(r0 % 256) as u8]
            + le_bytes(rest as nat, (8 - k) as nat)));
    }
    assert(le_bytes(rest as nat, 0) =~= Seq::<u8>::empty());
    assert(out@ =~= out@ + le_bytes(rest as nat, 0));
}

/// The bytes of a word sequence, eight little-endian bytes per word.
pub fn words_to_bytes(ws: &Vec<u64>) -> (r: Vec<u8>)
    ensures
        r@ == words_bytes(ws@),
{
    let mut out: Vec<u8> = Vec::new();
    let mut i: usize = 0;
    while i < ws.len()
        invariant
            i <= ws.len(),
            out@ == words_bytes(ws@.subrange(0, i as int)),
        decreases ws.len() - i,
    {
        proof {
            let s = ws@.subrange(0, i as int + 1);
            assert(s.drop_last() =~= ws@.subrange(0, i as int));
        }
        push_le_bytes(ws[i], &mut out);
        i += 1;
    }
    assert(ws@.subrange(0, ws@.len() as int) =~= ws@);
    out
}

/// The canonical identity hash of `p`: regions erased, unification
/// variables replaced by a placeholder of their kind.
pub fn predicate_hash(p: &Predicate) -> (r: u64)
    ensures
        r == canonical_hash(*p),
{
    let words = encode_predicate(p);
    let bytes = words_to_bytes(&words);
    stable_hash_bytes(&bytes)
}


/// Two types that are equal but for regions and the numbering of their
/// unresolved unification variables.
pub open spec fn ty_equiv(a: Ty, b: Ty) -> bool
    decreases a,
{
    match a {
        Ty::Adt(d1, a1) => match b {
            Ty::Adt(d2, a2) => d1 == d2 && tys_equiv(a1@, a2@),
            _ => false,
        },
        Ty::Ref(_, x, m1) => match b {
            Ty::Ref(_, y, m2) => m1 == m2 && ty_equiv(*x, *y),
            _ => false,
        },
        Ty::Tuple(t1) => match b {
            Ty::Tuple(t2) => tys_equiv(t1@, t2@),
            _ => false,
        },
        Ty::Infer(k1, _) => match b {
            Ty::Infer(k2, _) => k1 == k2,
            _ => false,
        },
        _ => a == b,
    }
}

/// Lists of the same length whose types are pairwise `ty_equiv`.
pub open spec fn tys_equiv(s1: Seq<Ty>, s2: Seq<Ty>) -> bool
    decreases s1,
{
    s1.len() == s2.len() && (s1.len() == 0 || (tys_equiv(s1.drop_last(), s2.drop_last())
        && ty_equiv(s1.last(), s2.last())))
}

/// Two predicates that are equal but for regions and the numbering of their
/// unresolved unification variables.
pub open spec fn predicate_equiv(p: Predicate, q: Predicate) -> bool {
    match (p, q) {
        (Predicate::Clause(ClauseKind::Trait(a)), Predicate::Clause(ClauseKind::Trait(b))) => {
            a.trait_def == b.trait_def && a.positive == b.positive && ty_equiv(a.self_ty, b.self_ty)
                && tys_equiv(a.args@, b.args@)
        },
        (
            Predicate::Clause(ClauseKind::RegionOutlives(_, _)),
            Predicate::Clause(ClauseKind::RegionOutlives(_, _)),
        ) => true,
        (
            Predicate::Clause(ClauseKind::TypeOutlives(a, _)),
            Predicate::Clause(ClauseKind::TypeOutlives(b, _)),
        ) => ty_equiv(a, b),
        (
            Predicate::Clause(ClauseKind::Projection(a)),
            Predicate::Clause(ClauseKind::Projection(b)),
        ) => a.item_def == b.item_def && ty_equiv(a.self_ty, b.self_ty) && ty_equiv(a.term, b.term),
        (
            Predicate::Clause(ClauseKind::WellFormed(a)),
            Predicate::Clause(ClauseKind::WellFormed(b)),
        ) => ty_equiv(a, b),
        (Predicate::ObjectSafe(a), Predicate::ObjectSafe(b)) => a == b,
        (Predicate::Subtype(a1, a2), Predicate::Subtype(b1, b2)) => ty_equiv(a1, b1) && ty_equiv(
            a2,
            b2,
        ),
        (Predicate::Coerce(a1, a2), Predicate::Coerce(b1, b2)) => ty_equiv(a1, b1) && ty_equiv(
            a2,
            b2,
        ),
        (Predicate::Ambiguous, Predicate::Ambiguous) => true,
        _ => false,
    }
}

proof fn lemma_ty_equiv_words(a: Ty, b: Ty)
    requires
        ty_equiv(a, b),
    ensures
        ty_words(a) == ty_words(b),
    decreases a,
{
    match a {
        Ty::Adt(_, a1) => {
            if let Ty::Adt(_, a2) = b {
                lemma_tys_equiv_words(a1@, a2@);
            }
        },
        Ty::Ref(_, x, _) => {
            if let Ty::Ref(_, y, _) = b {
                lemma_ty_equiv_words(*x, *y);
            }
        },
        Ty::Tuple(t1) => {
            if let Ty::Tuple(t2) = b {
                lemma_tys_equiv_words(t1@, t2@);
            }
        },
        _ => {},
    }
}

proof fn lemma_tys_equiv_words(s1: Seq<Ty>, s2: Seq<Ty>)
    requires
        tys_equiv(s1, s2),
    ensures
        s1.len() == s2.len(),
        tys_words(s1) == tys_words(s2),
    decreases s1,
{
    if s1.len() > 0 {
        lemma_tys_equiv_words(s1.drop_last(), s2.drop_last());
        lemma_ty_equiv_words(s1.last(), s2.last());
    }
}

/// Hash stability: predicates that differ only in their regions and in the
/// numbering of their unresolved unification variables hash identically.
pub proof fn lemma_hash_stable(p: Predicate, q: Predicate)
    requires
        predicate_equiv(p, q),
    ensures
        canonical_hash(p) == canonical_hash(q),
{
    match (p, q) {
        (Predicate::Clause(ClauseKind::Trait(a)), Predicate::Clause(ClauseKind::Trait(b))) => {
            lemma_ty_equiv_words(a.self_ty, b.self_ty);
            lemma_tys_equiv_words(a.args@, b.args@);
        },
        (
            Predicate::Clause(ClauseKind::TypeOutlives(a, _)),
            Predicate::Clause(ClauseKind::TypeOutlives(b, _)),
        ) => lemma_ty_equiv_words(a, b),
        (
            Predicate::Clause(ClauseKind::Projection(a)),
            Predicate::Clause(ClauseKind::Projection(b)),
        ) => {
            lemma_ty_equiv_words(a.self_ty, b.self_ty);
            lemma_ty_equiv_words(a.term, b.term);
        },
        (
            Predicate::Clause(ClauseKind::WellFormed(a)),
            Predicate::Clause(ClauseKind::WellFormed(b)),
        ) => lemma_ty_equiv_words(a, b),
        (Predicate::Subtype(a1, a2), Predicate::Subtype(b1, b2)) => {
            lemma_ty_equiv_words(a1, b1);
            lemma_ty_equiv_words(a2, b2);
        },
        (Predicate::Coerce(a1, a2), Predicate::Coerce(b1, b2)) => {
            lemma_ty_equiv_words(a1, b1);
            lemma_ty_equiv_words(a2, b2);
        },
        _ => {},
    }
}

pub open spec fn pow256(n: nat) -> nat
    decreases n,
{
    if n == 0 {
        1
    } else {
        256 * pow256((n - 1) as nat)
    }
}

proof fn lemma_le_bytes_len(w: nat, n: nat)
    ensures
        le_bytes(w, n).len() == n,
    decreases n,
{
    if n > 0 {
        lemma_le_bytes_len(w / 256, (n - 1) as nat);
    }
}

proof fn lemma_le_bytes_injective(x: nat, y: nat, n: nat)
    requires
        le_bytes(x, n) == le_bytes(y, n),
        x < pow256(n),
        y < pow256(n),
    ensures
        x == y,
    decreases n,
{
    if n > 0 {
        let p = pow256((n - 1) as nat);
        assert(le_bytes(x, n)[0] == (x % 256) as u8);
        assert(le_bytes(x, n).drop_first() =~= le_bytes(x / 256, (n - 1) as nat));
        assert(le_bytes(y, n).drop_first() =~= le_bytes(y / 256, (n - 1) as nat));
        assert(x / 256 < p && y / 256 < p) by (nonlinear_arith)
            requires
                x < 256 * p,
                y < 256 * p,
        ;
        lemma_le_bytes_injective(x / 256, y / 256, (n - 1) as nat);
        assert(x == 256 * (x / 256) + x % 256) by (nonlinear_arith);
        assert(y == 256 * (y / 256) + y % 256) by (nonlinear_arith);
    } else {
        assert(pow256(0) == 1);
    }
}

proof fn lemma_words_bytes_at(ws: Seq<u64>, i: int)
    requires
        0 <= i < ws.len(),
    ensures
        words_bytes(ws).len() == 8 * ws.len(),
        words_bytes(ws).subrange(8 * i, 8 * i + 8) == le_bytes(ws[i] as nat, 8),
    decreases ws.len(),
{
    let pre = ws.drop_last();
    lemma_le_bytes_len(ws.last() as nat, 8);
    if i < ws.len() - 1 {
        lemma_words_bytes_at(pre, i);
        assert(words_bytes(ws).subrange(8 * i, 8 * i + 8) =~= words_bytes(pre).subrange(
            8 * i,
            8 * i + 8,
        ));
    } else {
        if pre.len() > 0 {
            lemma_words_bytes_at(pre, 0);
        }
        assert(words_bytes(pre).len() == 8 * pre.len());
        assert(words_bytes(ws).subrange(8 * i, 8 * i + 8) =~= le_bytes(ws.last() as nat, 8));
    }
}

/// Word sequences that differ in one word have different bytes.
proof fn lemma_words_bytes_differ(ws: Seq<u64>, vs: Seq<u64>, i: int)
    requires
        0 <= i < ws.len(),
        0 <= i < vs.len(),
        ws[i] != vs[i],
    ensures
        words_bytes(ws) != words_bytes(vs),
{
    lemma_words_bytes_at(ws, i);
    lemma_words_bytes_at(vs, i);
    reveal_with_fuel(pow256, 9);
    assert(pow256(8) == 0x1_0000_0000_0000_0000nat);
    if words_bytes(ws) == words_bytes(vs) {
        lemma_le_bytes_injective(ws[i] as nat, vs[i] as nat, 8);
    }
}

proof fn lemma_ty_words_head(t: Ty)
    ensures
        ty_words(t).len() > 0,
        1 <= ty_words(t)[0] <= 9,
{
}

proof fn lemma_tys_words_front(s: Seq<Ty>)
    requires
        s.len() > 0,
    ensures
        tys_words(s) == ty_words(s[0]) + tys_words(s.drop_first()),
    decreases s.len(),
{
    if s.len() == 1 {
        assert(s.drop_last().len() == 0);
        assert(s.drop_first().len() == 0);
        assert(tys_words(s.drop_first()) =~= Seq::<u64>::empty());
        assert(tys_words(s.drop_last()) =~= Seq::<u64>::empty());
        assert(s.last() == s[0]);
        assert(tys_words(s) == tys_words(s.drop_last()) + ty_words(s.last()));
        assert(tys_words(s) =~= ty_words(s[0]) + tys_words(s.drop_first()));
    } else {
        lemma_tys_words_front(s.drop_last());
        assert(s.drop_last()[0] == s[0]);
        assert(s.drop_last().drop_first() =~= s.drop_first().drop_last());
        assert(s.drop_first().last() == s.last());
        let mid = s.drop_last().drop_first();
        assert(tys_words(s) == tys_words(s.drop_last()) + ty_words(s.last()));
        assert(tys_words(s.drop_last()) == ty_words(s[0]) + tys_words(mid));
        assert(tys_words(s.drop_first()) == tys_words(mid) + ty_words(s.last()));
        assert(tys_words(s) =~= ty_words(s[0]) + tys_words(s.drop_first()));
    }
}

proof fn lemma_tys_equiv_pointwise(s1: Seq<Ty>, s2: Seq<Ty>)
    ensures
        tys_equiv(s1, s2) <==> (s1.len() == s2.len() && forall|i: int|
            0 <= i < s1.len() ==> ty_equiv(#[trigger] s1[i], s2[i])),
    decreases s1.len(),
{
    if s1.len() > 0 && s1.len() == s2.len() {
        lemma_tys_equiv_pointwise(s1.drop_last(), s2.drop_last());
        if forall|i: int| 0 <= i < s1.len() ==> ty_equiv(#[trigger] s1[i], s2[i]) {
            assert forall|i: int| 0 <= i < s1.drop_last().len() implies ty_equiv(
                #[trigger] s1.drop_last()[i],
                s2.drop_last()[i],
            ) by {
                assert(ty_equiv(s1[i], s2[i]));
            }
            assert(ty_equiv(s1[s1.len() - 1], s2[s1.len() - 1]));
        }
        if tys_equiv(s1, s2) {
            assert forall|i: int| 0 <= i < s1.len() implies ty_equiv(#[trigger] s1[i], s2[i]) by {
                if i < s1.len() - 1 {
                    assert(ty_equiv(s1.drop_last()[i], s2.drop_last()[i]));
                }
            }
        }
    }
}

/// A type's words followed by anything determine the type, up to
/// `ty_equiv`, and what follows.
proof fn lemma_ty_prefix(a: Ty, b: Ty, r1: Seq<u64>, r2: Seq<u64>)
    requires
        ty_words(a) + r1 == ty_words(b) + r2,
    ensures
        ty_equiv(a, b),
        r1 == r2,
    decreases a,
{
    let (x, y) = (ty_words(a) + r1, ty_words(b) + r2);
    lemma_ty_words_head(a);
    lemma_ty_words_head(b);
    assert(x[0] == ty_words(a)[0]);
    assert(y[0] == ty_words(b)[0]);
    match a {
        Ty::Adt(d, args) => {
            if let Ty::Adt(d2, args2) = b {
                assert(x[1] == d && y[1] == d2);
                let rest1 = tys_words(args@) + (seq![TAG_END] + r1);
                let rest2 = tys_words(args2@) + (seq![TAG_END] + r2);
                assert(x =~= seq![TAG_ADT, d] + rest1);
                assert(y =~= seq![TAG_ADT, d2] + rest2);
                assert(rest1 =~= x.subrange(2, x.len() as int));
                assert(rest2 =~= y.subrange(2, y.len() as int));
                lemma_tys_prefix(args@, args2@, r1, r2);
            }
        },
        Ty::Ref(_, inner, m) => {
            if let Ty::Ref(_, inner2, m2) = b {
                assert(x[1] == y[1]);
                let rest1 = ty_words(*inner) + r1;
                let rest2 = ty_words(*inner2) + r2;
                assert(x =~= seq![TAG_REF, if m { 1u64 } else { 0u64 }] + rest1);
                assert(y =~= seq![TAG_REF, if m2 { 1u64 } else { 0u64 }] + rest2);
                assert(rest1 =~= x.subrange(2, x.len() as int));
                assert(rest2 =~= y.subrange(2, y.len() as int));
                lemma_ty_prefix(*inner, *inner2, r1, r2);
            }
        },
        Ty::Tuple(ts) => {
            if let Ty::Tuple(ts2) = b {
                let rest1 = tys_words(ts@) + (seq![TAG_END] + r1);
                let rest2 = tys_words(ts2@) + (seq![TAG_END] + r2);
                assert(x =~= seq![TAG_TUPLE] + rest1);
                assert(y =~= seq![TAG_TUPLE] + rest2);
                assert(rest1 =~= x.subrange(1, x.len() as int));
                assert(rest2 =~= y.subrange(1, y.len() as int));
                lemma_tys_prefix(ts@, ts2@, r1, r2);
            }
        },
        Ty::Param(i) => {
            assert(x[1] == y[1]);
            assert(r1 =~= x.subrange(2, x.len() as int));
            assert(r2 =~= y.subrange(2, y.len() as int));
        },
        Ty::Infer(k, _) => {
            assert(x[1] == y[1]);
            assert(r1 =~= x.subrange(2, x.len() as int));
            assert(r2 =~= y.subrange(2, y.len() as int));
        },
        _ => {
            assert(r1 =~= x.subrange(1, x.len() as int));
            assert(r2 =~= y.subrange(1, y.len() as int));
        },
    }
}

/// The words of a list of types, closed by the end marker and followed by
/// anything, determine the list, up to `tys_equiv`, and what follows.
proof fn lemma_tys_prefix(s1: Seq<Ty>, s2: Seq<Ty>, r1: Seq<u64>, r2: Seq<u64>)
    requires
        tys_words(s1) + (seq![TAG_END] + r1) == tys_words(s2) + (seq![TAG_END] + r2),
    ensures
        tys_equiv(s1, s2),
        r1 == r2,
    decreases s1,
{
    let (x, y) = (tys_words(s1) + (seq![TAG_END] + r1), tys_words(s2) + (seq![TAG_END] + r2));
    if s1.len() == 0 {
        assert(tys_words(s1) =~= Seq::<u64>::empty());
        assert(x =~= seq![TAG_END] + r1);
        if s2.len() > 0 {
            lemma_tys_words_front(s2);
            lemma_ty_words_head(s2[0]);
            assert(y[0] == ty_words(s2[0])[0]);
        } else {
            assert(tys_words(s2) =~= Seq::<u64>::empty());
            assert(y =~= seq![TAG_END] + r2);
            assert(r1 =~= x.subrange(1, x.len() as int));
            assert(r2 =~= y.subrange(1, y.len() as int));
        }
    } else {
        lemma_tys_words_front(s1);
        lemma_ty_words_head(s1[0]);
        assert(x[0] == ty_words(s1[0])[0]);
        if s2.len() == 0 {
            assert(tys_words(s2) =~= Seq::<u64>::empty());
            assert(y[0] == TAG_END);
        } else {
            lemma_tys_words_front(s2);
            let t1 = s1.drop_first();
            let t2 = s2.drop_first();
            assert(x =~= ty_words(s1[0]) + (tys_words(t1) + (seq![TAG_END] + r1)));
            assert(y =~= ty_words(s2[0]) + (tys_words(t2) + (seq![TAG_END] + r2)));
            lemma_ty_prefix(
                s1[0],
                s2[0],
                tys_words(t1) + (seq![TAG_END] + r1),
                tys_words(t2) + (seq![TAG_END] + r2),
            );
            assert(s1.drop_first() == s1.subrange(1, s1.len() as int));
            lemma_tys_prefix(t1, t2, r1, r2);
            lemma_tys_equiv_pointwise(t1, t2);
            lemma_tys_equiv_pointwise(s1, s2);
            assert forall|i: int| 0 <= i < s1.len() implies ty_equiv(#[trigger] s1[i], s2[i]) by {
                if i > 0 {
                    assert(s1[i] == t1[i - 1] && s2[i] == t2[i - 1]);
                }
            }
        }
    }
}

/// Equal canonical words come only from predicates equal up to regions and
/// the numbering of unification variables.
proof fn lemma_predicate_words_injective(p: Predicate, q: Predicate)
    requires
        predicate_words(p) == predicate_words(q),
    ensures
        predicate_equiv(p, q),
{
    let (x, y) = (predicate_words(p), predicate_words(q));
    let e = Seq::<u64>::empty();
    assert(x[0] == y[0]);
    match p {
        Predicate::Clause(ClauseKind::Trait(a)) => {
            if let Predicate::Clause(ClauseKind::Trait(b)) = q {
                assert(x[1] == y[1] && x[2] == y[2]);
                let rest1 = ty_words(a.self_ty) + (tys_words(a.args@) + (seq![TAG_END] + e));
                let rest2 = ty_words(b.self_ty) + (tys_words(b.args@) + (seq![TAG_END] + e));
                assert(rest1 =~= x.subrange(3, x.len() as int));
                assert(rest2 =~= y.subrange(3, y.len() as int));
                lemma_ty_prefix(
                    a.self_ty,
                    b.self_ty,
                    tys_words(a.args@) + (seq![TAG_END] + e),
                    tys_words(b.args@) + (seq![TAG_END] + e),
                );
                lemma_tys_prefix(a.args@, b.args@, e, e);
            }
        },
        Predicate::Clause(ClauseKind::TypeOutlives(a, _)) => {
            if let Predicate::Clause(ClauseKind::TypeOutlives(b, _)) = q {
                assert(ty_words(a) + e =~= x.subrange(1, x.len() as int));
                assert(ty_words(b) + e =~= y.subrange(1, y.len() as int));
                lemma_ty_prefix(a, b, e, e);
            }
        },
        Predicate::Clause(ClauseKind::Projection(a)) => {
            if let Predicate::Clause(ClauseKind::Projection(b)) = q {
                assert(x[1] == y[1]);
                assert(ty_words(a.self_ty) + ty_words(a.term) =~= x.subrange(2, x.len() as int));
                assert(ty_words(b.self_ty) + ty_words(b.term) =~= y.subrange(2, y.len() as int));
                lemma_ty_prefix(a.self_ty, b.self_ty, ty_words(a.term), ty_words(b.term));
                assert(ty_words(a.term) + e =~= ty_words(a.term));
                assert(ty_words(b.term) + e =~= ty_words(b.term));
                lemma_ty_prefix(a.term, b.term, e, e);
            }
        },
        Predicate::Clause(ClauseKind::WellFormed(a)) => {
            if let Predicate::Clause(ClauseKind::WellFormed(b)) = q {
                assert(ty_words(a) + e =~= x.subrange(1, x.len() as int));
                assert(ty_words(b) + e =~= y.subrange(1, y.len() as int));
                lemma_ty_prefix(a, b, e, e);
            }
        },
        Predicate::ObjectSafe(a) => {
            assert(x[1] == y[1]);
        },
        Predicate::Subtype(a1, a2) => {
            if let Predicate::Subtype(b1, b2) = q {
                assert(ty_words(a1) + ty_words(a2) =~= x.subrange(1, x.len() as int));
                assert(ty_words(b1) + ty_words(b2) =~= y.subrange(1, y.len() as int));
                lemma_ty_prefix(a1, b1, ty_words(a2), ty_words(b2));
                assert(ty_words(a2) + e =~= ty_words(a2));
                assert(ty_words(b2) + e =~= ty_words(b2));
                lemma_ty_prefix(a2, b2, e, e);
            }
        },
        Predicate::Coerce(a1, a2) => {
            if let Predicate::Coerce(b1, b2) = q {
                assert(ty_words(a1) + ty_words(a2) =~= x.subrange(1, x.len() as int));
                assert(ty_words(b1) + ty_words(b2) =~= y.subrange(1, y.len() as int));
                lemma_ty_prefix(a1, b1, ty_words(a2), ty_words(b2));
                assert(ty_words(a2) + e =~= ty_words(a2));
                assert(ty_words(b2) + e =~= ty_words(b2));
                lemma_ty_prefix(a2, b2, e, e);
            }
        },
        _ => {},
    }
}

proof fn lemma_words_bytes_injective(ws: Seq<u64>, vs: Seq<u64>)
    requires
        words_bytes(ws) == words_bytes(vs),
    ensures
        ws == vs,
{
    if ws.len() > 0 {
        lemma_words_bytes_at(ws, 0);
    }
    if vs.len() > 0 {
        lemma_words_bytes_at(vs, 0);
    }
    if ws.len() == 0 {
        assert(words_bytes(ws).len() == 0);
    }
    if vs.len() == 0 {
        assert(words_bytes(vs).len() == 0);
    }
    assert(ws.len() == vs.len());
    assert forall|i: int| 0 <= i < ws.len() implies ws[i] == vs[i] by {
        if ws[i] != vs[i] {
            lemma_words_bytes_differ(ws, vs, i);
        }
    }
    assert(ws =~= vs);
}

/// Hash sensitivity: predicates that are not equal up to regions and the
/// numbering of unification variables (another trait, another argument
/// type, another kind of clause) are handed to the stable hasher as
/// different bytes, so their hashes differ unless the hasher collides.
pub proof fn lemma_hash_input_sensitive(p: Predicate, q: Predicate)
    requires
        !predicate_equiv(p, q),
    ensures
        words_bytes(predicate_words(p)) != words_bytes(predicate_words(q)),
{
    if words_bytes(predicate_words(p)) == words_bytes(predicate_words(q)) {
        lemma_words_bytes_injective(predicate_words(p), predicate_words(q));
        lemma_predicate_words_injective(p, q);
    }
}

} // verus!
