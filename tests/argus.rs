use argus::analysis::{
    find_tree, forget_all, obligations, tree, CapturedObligation, ForgetProvenance, HirId, Obligation,
    ObligationStore, ObligationTree, PredicateObligation, Provenance, Target,
};
use argus::block::ArgusBlock;
use argus::clauses::{group_predicates_by_ty, ty_eq, ClauseBound};
use argus::ext::{
    same_result, CharPos, CharRange, CharRangeExt, Certainty, EvaluationResult,
    EvaluationResultExt, MaybeCause, NoSolution,
};
use argus::hash::predicate_hash;
use argus::necessity::{classify, guess_predicate_necessity, ObligationNecessity};
use argus::proof_tree::{
    is_repeat_of, serialize_proof_tree, Candidate, CandidateSource, Goal, ImplSource,
    InspectCandidate, InspectGoal, Node, ProbeKind, SerializedTree, SerializedTreeVisitor,
    TreeError, TreeTopology,
};
use argus::ty::{
    ClauseKind, InferKind, ObligationCauseCode, Predicate, ProjectionPredicate, Region,
    TraitPredicate, Ty, TyExt,
};

const SIZED: u64 = 1;
const COPY: u64 = 2;
const DISPLAY: u64 = 100;
const DEBUG: u64 = 101;
const MY_TYPE: u64 = 500;
const VEC: u64 = 501;

fn lang_items() -> Vec<u64> {
    vec![SIZED, COPY]
}

fn unit() -> Ty {
    Ty::Tuple(vec![])
}

fn trait_pred(trait_def: u64, self_ty: Ty, args: Vec<Ty>) -> Predicate {
    Predicate::Clause(ClauseKind::Trait(TraitPredicate { trait_def, self_ty, args, positive: true }))
}

fn range(line: usize, start: usize, end: usize) -> CharRange {
    CharRange {
        start: CharPos { line, column: start },
        end: CharPos { line, column: end },
        filename: 0,
    }
}

fn s(x: &str) -> String {
    x.to_string()
}

// ---------------------------------------------------------------- blocks

#[test]
fn test_parse_block() {
    let inp = r#"```argus,foo=bar,baz
content!
```"#;
    let s = |s: &str| s.to_string();
    let blocks = ArgusBlock::parse_all(inp);
    assert_eq!(blocks, vec![(0 .. inp.len(), ArgusBlock {
        config: vec![(s("foo"), s("bar")), (s("baz"), s("true"))],
        code: s("content!"),
    })]);
}

#[test]
fn parse_all_finds_blocks_between_text() {
    let inp = "intro\n```argus\nfn main() {}\n```\nmiddle ```argus,x=1\n  a  \n``` end";
    let blocks = ArgusBlock::parse_all(inp);
    assert_eq!(blocks.len(), 2);
    let first_start = inp.find("```argus").unwrap();
    assert_eq!(blocks[0].0.start, first_start);
    assert_eq!(blocks[0].1.code, "fn main() {}");
    assert!(blocks[0].1.config.is_empty());
    assert_eq!(blocks[1].1.config, vec![(s("x"), s("1"))]);
    assert_eq!(blocks[1].1.code, "a");
    assert_eq!(&inp[blocks[1].0.clone()], "```argus,x=1\n  a  \n```");
}

#[test]
fn parse_all_ranges_are_byte_offsets() {
    let inp = "héllo ```argus\nx\n```";
    let blocks = ArgusBlock::parse_all(inp);
    assert_eq!(blocks.len(), 1);
    assert_eq!(blocks[0].0, 7 .. inp.len());
}

#[test]
fn parse_all_ignores_unclosed_and_other_blocks() {
    assert!(ArgusBlock::parse_all("```rust\nfn f() {}\n```").is_empty());
    assert!(ArgusBlock::parse_all("```argus\nno end").is_empty());
    assert!(ArgusBlock::parse_all("").is_empty());
}

#[test]
fn parse_all_stops_settings_at_other_characters() {
    let blocks = ArgusBlock::parse_all("```argus,a=b=c\nbody\n```");
    assert_eq!(blocks.len(), 1);
    assert_eq!(blocks[0].1.config, vec![(s("a"), s("b"))]);
    assert_eq!(blocks[0].1.code, "=c\nbody");
}

// ---------------------------------------------------------------- hashing

#[test]
fn hash_ignores_variable_numbering_and_regions() {
    let p = trait_pred(
        DISPLAY,
        Ty::Ref(Region::Var(3), Box::new(Ty::Infer(InferKind::TyVar, 7)), false),
        vec![Ty::Infer(InferKind::IntVar, 2)],
    );
    let q = trait_pred(
        DISPLAY,
        Ty::Ref(Region::Static, Box::new(Ty::Infer(InferKind::TyVar, 41)), false),
        vec![Ty::Infer(InferKind::IntVar, 9)],
    );
    assert_eq!(predicate_hash(&p), predicate_hash(&q));
}

#[test]
fn hash_separates_traits_and_types() {
    let a = trait_pred(DISPLAY, Ty::Adt(MY_TYPE, vec![]), vec![]);
    let b = trait_pred(DEBUG, Ty::Adt(MY_TYPE, vec![]), vec![]);
    let c = trait_pred(DISPLAY, Ty::Bool, vec![]);
    let d = trait_pred(DISPLAY, Ty::Adt(VEC, vec![Ty::Bool]), vec![]);
    let e = trait_pred(DISPLAY, Ty::Adt(VEC, vec![Ty::Char]), vec![]);
    let f = trait_pred(DISPLAY, Ty::Infer(InferKind::TyVar, 0), vec![]);
    let g = trait_pred(DISPLAY, Ty::Infer(InferKind::IntVar, 0), vec![]);
    let hashes = [a, b, c, d, e, f, g].map(|p| predicate_hash(&p));
    for i in 0 .. hashes.len() {
        for j in 0 .. i {
            assert_ne!(hashes[i], hashes[j], "{i} {j}");
        }
    }
}

#[test]
fn hash_is_deterministic() {
    let p = Predicate::Subtype(Ty::Str, Ty::Param(3));
    assert_eq!(predicate_hash(&p), predicate_hash(&Predicate::Subtype(Ty::Str, Ty::Param(3))));
    assert_ne!(predicate_hash(&p), predicate_hash(&Predicate::Coerce(Ty::Str, Ty::Param(3))));
}

// ---------------------------------------------------------------- necessity

#[test]
fn classify_unit_sized_return_is_no() {
    let p = trait_pred(SIZED, unit(), vec![]);
    assert_eq!(
        classify(&p, ObligationCauseCode::SizedReturnType, &lang_items()),
        ObligationNecessity::No
    );
}

#[test]
fn classify_non_writeable_is_on_error() {
    let p = Predicate::Clause(ClauseKind::WellFormed(Ty::Bool));
    assert_eq!(classify(&p, ObligationCauseCode::Misc, &lang_items()), ObligationNecessity::OnError);
    let q = Predicate::Subtype(unit(), Ty::Bool);
    assert_eq!(
        classify(&q, ObligationCauseCode::SizedReturnType, &lang_items()),
        ObligationNecessity::OnError
    );
}

#[test]
fn classify_unit_self_type_is_no() {
    let p = trait_pred(DISPLAY, unit(), vec![]);
    assert_eq!(classify(&p, ObligationCauseCode::Misc, &lang_items()), ObligationNecessity::No);
}

#[test]
fn classify_lang_item_trait_is_on_error() {
    let p = trait_pred(COPY, Ty::Bool, vec![]);
    assert_eq!(classify(&p, ObligationCauseCode::Misc, &lang_items()), ObligationNecessity::OnError);
}

#[test]
fn classify_outlives_and_projection_are_on_error() {
    let p = Predicate::Clause(ClauseKind::TypeOutlives(Ty::Bool, Region::Static));
    let q = Predicate::Clause(ClauseKind::Projection(ProjectionPredicate {
        item_def: 7,
        self_ty: Ty::Bool,
        term: Ty::Char,
    }));
    let r = Predicate::Clause(ClauseKind::RegionOutlives(Region::Static, Region::Erased));
    for x in [p, q, r] {
        assert_eq!(guess_predicate_necessity(&x, &lang_items()), ObligationNecessity::OnError);
    }
}

#[test]
fn classify_user_trait_bound_is_yes_every_time() {
    let p = trait_pred(DISPLAY, Ty::Adt(MY_TYPE, vec![]), vec![]);
    let first = classify(&p, ObligationCauseCode::Misc, &lang_items());
    assert_eq!(first, ObligationNecessity::Yes);
    for _ in 0 .. 3 {
        assert_eq!(classify(&p, ObligationCauseCode::Misc, &lang_items()), first);
    }
    assert_eq!(
        classify(&p, ObligationCauseCode::SizedReturnType, &lang_items()),
        ObligationNecessity::Yes
    );
}

#[test]
fn predicate_shape_queries() {
    let p = trait_pred(DISPLAY, Ty::Infer(InferKind::TyVar, 1), vec![]);
    assert!(p.is_trait_predicate());
    assert!(p.is_main_ty_var());
    assert!(p.is_trait_pred_rhs(DISPLAY));
    assert!(!p.is_rhs_lang_item(&lang_items()));
    assert!(!p.is_lhs_unit());
    let q = Predicate::Clause(ClauseKind::TypeOutlives(Ty::Infer(InferKind::IntVar, 1), Region::Static));
    assert!(!q.is_main_ty_var());
    assert!(q.is_writeable());
    assert!(!Predicate::ObjectSafe(3).is_writeable());
    assert!(Ty::Error.is_error());
    assert!(!Ty::Bool.is_error());
}

// ---------------------------------------------------------------- results, ranges

#[test]
fn evaluation_result_queries() {
    let yes: EvaluationResult = Ok(Certainty::Yes);
    let maybe: EvaluationResult = Ok(Certainty::Maybe(MaybeCause::Ambiguity));
    let no: EvaluationResult = Err(NoSolution);
    assert!(yes.is_yes() && !yes.is_maybe() && !yes.is_no());
    assert!(!maybe.is_yes() && maybe.is_maybe() && !maybe.is_no());
    assert!(!no.is_yes() && !no.is_maybe() && no.is_no());
    assert!(same_result(&maybe, &Ok(Certainty::Maybe(MaybeCause::Ambiguity))));
    assert!(!same_result(&maybe, &Ok(Certainty::Maybe(MaybeCause::Overflow))));
}

#[test]
fn char_ranges_overlap_when_they_share_a_character() {
    let a = range(1, 0, 5);
    assert!(a.overlaps(range(1, 4, 9)));
    assert!(!a.overlaps(range(1, 5, 9)));
    assert!(range(1, 2, 3).overlaps(a));
    let multi = CharRange { start: CharPos { line: 0, column: 3 }, end: CharPos { line: 2, column: 0 }, filename: 0 };
    assert!(multi.overlaps(a));
    assert!(!multi.overlaps(range(2, 0, 1)));
}

// ---------------------------------------------------------------- store

fn record(hash: u64, text: &str) -> Provenance<Obligation> {
    Provenance::new(HirId { owner: 0, local_id: 1 }, Obligation {
        obligation: s(text),
        hash,
        range: range(1, 0, 1),
        necessity: ObligationNecessity::Yes,
        result: Ok(Certainty::Yes),
        is_synthetic: false,
    })
}

#[test]
fn store_keeps_first_of_each_hash() {
    let mut store = ObligationStore::new();
    store.store_obligation(record(7, "first"));
    store.store_obligation(record(8, "other"));
    store.store_obligation(record(7, "second"));
    let taken = forget_all(store.take_obligations());
    assert_eq!(taken.len(), 2);
    assert_eq!(taken[0].obligation, "first");
    assert_eq!(taken[1].obligation, "other");
    assert!(store.take_obligations().is_empty());
}

#[test]
fn store_side_tables() {
    let mut store = ObligationStore::new();
    let o = |h: u64| PredicateObligation {
        predicate: trait_pred(h, Ty::Bool, vec![]),
        cause: ObligationCauseCode::Misc,
        rendered: s("p"),
        span: None,
    };
    assert_eq!(store.store_full(o(1), Err(NoSolution)), 0);
    assert_eq!(store.store_full(o(2), Ok(Certainty::Maybe(MaybeCause::Overflow))), 1);
    let full = store.take_full();
    assert_eq!(full.len(), 2);
    assert!(full[0].result.is_no());
    assert!(store.take_full().is_empty());

    let t1 = scenario_tree(Ok(Certainty::Yes));
    let t2 = scenario_tree(Err(NoSolution));
    store.store_tree(t1);
    store.store_tree(t2);
    let kept = store.take_tree().unwrap();
    assert!(kept.error_leaves.is_empty());
    assert!(store.take_tree().is_none());

    store.replace_reported_errors(vec![(range(3, 0, 2), vec![11, 12])]);
    assert_eq!(store.take_reported_errors(), vec![(range(3, 0, 2), vec![11, 12])]);
    assert!(store.take_reported_errors().is_empty());
}

#[test]
fn provenance_map_keeps_origin() {
    let p = Provenance::new(HirId { owner: 3, local_id: 4 }, 20u32);
    let q = p.map(|x| *x + 1);
    assert_eq!(*q.get(), 21);
    assert_eq!(q.hir_id, HirId { owner: 3, local_id: 4 });
    assert_eq!(q.forget(), 21);
}

fn captured(p: Predicate, rendered: &str, result: EvaluationResult, span: Option<CharRange>) -> CapturedObligation {
    CapturedObligation {
        hir_id: HirId { owner: 0, local_id: 2 },
        obligation: PredicateObligation { predicate: p, cause: ObligationCauseCode::Misc, rendered: s(rendered), span },
        result,
        is_synthetic: false,
    }
}

#[test]
fn obligations_deduplicate_by_canonical_hash() {
    let body = range(0, 0, 40);
    let cs = vec![
        captured(trait_pred(DISPLAY, Ty::Infer(InferKind::TyVar, 1), vec![]), "?1: Display", Ok(Certainty::Yes), None),
        captured(trait_pred(DISPLAY, Ty::Infer(InferKind::TyVar, 5), vec![]), "?5: Display", Err(NoSolution), None),
        captured(trait_pred(COPY, Ty::Bool, vec![]), "bool: Copy", Ok(Certainty::Yes), Some(range(2, 4, 8))),
    ];
    let obls = obligations(&cs, body, &lang_items());
    assert_eq!(obls.len(), 2);
    assert_eq!(obls[0].obligation, "?1: Display");
    assert!(obls[0].result.is_yes());
    assert_eq!(obls[0].range, body);
    assert_eq!(obls[1].necessity, ObligationNecessity::OnError);
    assert_eq!(obls[1].range, range(2, 4, 8));
    assert_eq!(obls[1].hash, predicate_hash(&trait_pred(COPY, Ty::Bool, vec![])));
}

// ---------------------------------------------------------------- proof trees

fn goal(p: Predicate, rendered: &str, result: EvaluationResult, candidates: Vec<InspectCandidate>) -> InspectGoal {
    InspectGoal { predicate: p, rendered: s(rendered), debug: s(rendered), num_vars: 0, result, candidates }
}

fn impl_candidate(text: &str, nested: Vec<InspectGoal>) -> InspectCandidate {
    InspectCandidate {
        kind: ProbeKind::TraitCandidate(CandidateSource::Impl(ImplSource {
            local_impl: Some(s(text)),
            header: None,
            span: Ok(None),
        })),
        informative: true,
        nested,
    }
}

fn display_bound() -> Predicate {
    trait_pred(DISPLAY, Ty::Adt(MY_TYPE, vec![]), vec![])
}

fn scenario_tree(result: EvaluationResult) -> SerializedTree {
    let root = if result.is_yes() {
        goal(display_bound(), "MyType: Display", result, vec![impl_candidate("impl Display for MyType", vec![])])
    } else {
        goal(display_bound(), "MyType: Display", result, vec![InspectCandidate {
            kind: ProbeKind::Root,
            informative: false,
            nested: vec![],
        }])
    };
    serialize_proof_tree(&root, lang_items()).unwrap()
}

fn children(t: &SerializedTree, i: usize) -> Vec<usize> {
    t.topology.children[i].clone()
}

#[test]
fn end_to_end_satisfied_bound() {
    let body = range(0, 0, 30);
    let call = range(3, 4, 12);
    let obls = obligations(
        &vec![captured(display_bound(), "MyType: Display", Ok(Certainty::Yes), Some(call))],
        body,
        &lang_items(),
    );
    assert_eq!(obls.len(), 1);
    assert_eq!(obls[0].necessity, ObligationNecessity::Yes);
    assert!(obls[0].result.is_yes());

    let target = Target { hash: obls[0].hash, span: obls[0].range };
    let trees = vec![ObligationTree { hash: obls[0].hash, range: call, tree: scenario_tree(Ok(Certainty::Yes)) }];
    let t = tree(trees, target).unwrap();
    assert_eq!(t.root, 0);
    assert_eq!(t.node_count(), 3);
    match t.node(0) {
        Node::Goal { data } => {
            assert_eq!(data.goal, "MyType: Display");
            assert_eq!(data.necessity, ObligationNecessity::Yes);
        },
        other => panic!("root is {other:?}"),
    }
    assert_eq!(children(&t, 0), vec![1]);
    assert_eq!(*t.node(1), Node::Candidate { data: Candidate::Impl { data: s("impl Display for MyType") } });
    assert_eq!(children(&t, 1), vec![2]);
    assert_eq!(*t.node(2), Node::Result { data: Ok(Certainty::Yes) });
    assert!(children(&t, 2).is_empty());
    assert!(t.error_leaves.is_empty());
    assert!(t.cycle.is_none());
}

#[test]
fn end_to_end_unsatisfied_bound() {
    let obls = obligations(
        &vec![captured(display_bound(), "MyType: Display", Err(NoSolution), None)],
        range(0, 0, 30),
        &lang_items(),
    );
    assert_eq!(obls.len(), 1);
    assert!(obls[0].result.is_no());
    let t = scenario_tree(Err(NoSolution));
    let leaves: Vec<usize> = (0 .. t.node_count()).filter(|&i| t.topology.children[i].is_empty()).collect();
    assert_eq!(leaves, vec![1]);
    assert_eq!(t.error_leaves, vec![1]);
    assert_eq!(*t.node(1), Node::Result { data: Err(NoSolution) });
}

#[test]
fn tree_reports_missing_target() {
    let target = Target { hash: 5, span: range(1, 1, 2) };
    let trees = vec![ObligationTree { hash: 6, range: range(1, 1, 2), tree: scenario_tree(Ok(Certainty::Yes)) }];
    assert_eq!(find_tree(&trees, &target), None);
    match tree(trees, target) {
        Err(e) => assert_eq!(e, TreeError::NotFound(target)),
        Ok(_) => panic!("found a tree"),
    }
}

#[test]
fn tree_picks_first_match() {
    let target = Target { hash: 5, span: range(1, 1, 2) };
    let trees = vec![
        ObligationTree { hash: 5, range: range(9, 1, 2), tree: scenario_tree(Ok(Certainty::Yes)) },
        ObligationTree { hash: 5, range: range(1, 1, 2), tree: scenario_tree(Err(NoSolution)) },
        ObligationTree { hash: 5, range: range(1, 1, 2), tree: scenario_tree(Ok(Certainty::Yes)) },
    ];
    assert_eq!(find_tree(&trees, &target), Some(1));
    let t = tree(trees, target).unwrap();
    assert_eq!(t.error_leaves.len(), 1);
}

#[test]
fn visitor_without_goal_has_no_root() {
    let v = SerializedTreeVisitor::new(lang_items());
    assert_eq!(v.into_tree().err(), Some(TreeError::MissingRoot));
}

#[test]
fn repeated_goal_is_recorded_as_cycle() {
    let inner = goal(display_bound(), "MyType: Display", Ok(Certainty::Maybe(MaybeCause::Overflow)), vec![]);
    let root = goal(display_bound(), "MyType: Display", Ok(Certainty::Maybe(MaybeCause::Overflow)), vec![
        impl_candidate("impl<T: Display> Display for T", vec![inner]),
    ]);
    let t = serialize_proof_tree(&root, lang_items()).unwrap();
    let cycle = t.cycle.as_ref().expect("cycle").0.clone();
    assert_eq!(cycle, vec![2, 1, 0]);
    for w in cycle.windows(2) {
        assert_eq!(t.topology.parent[w[0]], Some(w[1]));
    }
    assert!(is_repeat_of(t.node(cycle[0]), t.node(*cycle.last().unwrap())));
}

#[test]
fn unnecessary_goals_are_elided_but_searched() {
    // `MyType: Sized` is a built-in bound that held: no node, but the goal
    // under it still shows, attached to the candidate above.
    let deep = goal(display_bound(), "Inner: Display", Err(NoSolution), vec![InspectCandidate {
        kind: ProbeKind::MiscCandidate,
        informative: true,
        nested: vec![],
    }]);
    let sized = goal(trait_pred(SIZED, Ty::Adt(MY_TYPE, vec![]), vec![]), "MyType: Sized", Ok(Certainty::Yes), vec![
        impl_candidate("builtin", vec![deep]),
    ]);
    let root = goal(display_bound(), "MyType: Display", Err(NoSolution), vec![impl_candidate("impl X", vec![sized])]);
    let t = serialize_proof_tree(&root, lang_items()).unwrap();
    let texts: Vec<String> = (0 .. t.node_count()).map(|i| match t.node(i) {
        Node::Goal { data } => data.goal.clone(),
        Node::Candidate { data: Candidate::Impl { data } } => data.clone(),
        Node::Candidate { data: Candidate::Any { data } } => data.clone(),
        Node::Candidate { data: Candidate::ParamEnv { idx } } => format!("param {idx}"),
        Node::Result { .. } => s("result"),
    }).collect();
    assert_eq!(texts, vec!["MyType: Display", "impl X", "Inner: Display", "misc", "result"]);
    assert_eq!(t.topology.parent[2], Some(1));
    assert_eq!(t.error_leaves, vec![4]);
    for c in 1 .. t.node_count() {
        assert!(t.topology.parent[c].is_some());
    }
}

#[test]
fn impl_candidates_fall_back_in_order() {
    let header = ImplSource { local_impl: None, header: Some(s("impl<T> Foo for T")), span: Ok(None) };
    assert_eq!(Candidate::from_impl(&header), Candidate::Impl { data: s("impl<T> Foo for T") });
    let snippet = ImplSource { local_impl: None, header: None, span: Ok(Some(s("impl Foo for Bar {}"))) };
    assert_eq!(Candidate::from_impl(&snippet), Candidate::Any { data: s("impl Foo for Bar {}") });
    let missing = ImplSource { local_impl: None, header: None, span: Ok(None) };
    assert_eq!(Candidate::from_impl(&missing), Candidate::Any { data: s("failed to find impl") });
    let foreign = ImplSource { local_impl: None, header: None, span: Err(s("core")) };
    assert_eq!(Candidate::from_impl(&foreign), Candidate::Any { data: s("foreign impl from: core") });
    assert_eq!(
        Candidate::from_probe(&ProbeKind::TraitCandidate(CandidateSource::ParamEnv(2))),
        Candidate::Any { data: s("param-env") }
    );
    assert_eq!(Candidate::new_param_env(3), Candidate::ParamEnv { idx: 3 });
}

#[test]
fn goal_node_records_necessity() {
    let g = goal(trait_pred(COPY, Ty::Bool, vec![]), "bool: Copy", Ok(Certainty::Yes), vec![]);
    let data = Goal::new(&g, &lang_items());
    assert_eq!(data.necessity, ObligationNecessity::OnError);
    assert_eq!(data.goal, "bool: Copy");
}

#[test]
fn topology_links() {
    let mut t = TreeTopology::new();
    t.push_node();
    t.push_node();
    t.push_node();
    t.add(0, 1);
    t.add(0, 2);
    assert!(!t.is_leaf(0));
    assert!(t.is_leaf(1));
    assert_eq!(t.children[0], vec![1, 2]);
    assert_eq!(t.parent, vec![None, Some(0), Some(0)]);
}

#[test]
fn clauses_group_by_bounded_type() {
    let t = || Ty::Param(0);
    let u = || Ty::Param(1);
    let clauses = vec![
        ClauseKind::Trait(TraitPredicate { trait_def: DISPLAY, self_ty: t(), args: vec![], positive: true }),
        ClauseKind::TypeOutlives(u(), Region::Static),
        ClauseKind::WellFormed(t()),
        ClauseKind::Trait(TraitPredicate { trait_def: DEBUG, self_ty: t(), args: vec![Ty::Bool], positive: false }),
        ClauseKind::TypeOutlives(t(), Region::EarlyParam(0)),
    ];
    let g = group_predicates_by_ty(clauses);
    assert_eq!(g.grouped.len(), 2);
    assert_eq!(g.grouped[0].ty, t());
    assert_eq!(g.grouped[0].bounds, vec![
        ClauseBound::Trait { positive: true, trait_def: DISPLAY, args: vec![] },
        ClauseBound::Trait { positive: false, trait_def: DEBUG, args: vec![Ty::Bool] },
        ClauseBound::Region(Region::EarlyParam(0)),
    ]);
    assert_eq!(g.grouped[1].ty, u());
    assert_eq!(g.grouped[1].bounds, vec![ClauseBound::Region(Region::Static)]);
    assert_eq!(g.other, vec![ClauseKind::WellFormed(t())]);
}

#[test]
fn type_equality_is_structural() {
    let a = Ty::Adt(VEC, vec![Ty::Ref(Region::Static, Box::new(Ty::Char), true)]);
    let b = Ty::Adt(VEC, vec![Ty::Ref(Region::Static, Box::new(Ty::Char), true)]);
    let c = Ty::Adt(VEC, vec![Ty::Ref(Region::Erased, Box::new(Ty::Char), true)]);
    assert!(ty_eq(&a, &b));
    assert!(!ty_eq(&a, &c));
    assert!(!ty_eq(&Ty::Infer(InferKind::TyVar, 1), &Ty::Infer(InferKind::TyVar, 2)));
}

#[test]
fn forgetting_provenance_keeps_payloads_in_order() {
    let v = vec![
        Provenance::new(HirId { owner: 0, local_id: 1 }, 'a'),
        Provenance::new(HirId { owner: 0, local_id: 2 }, 'b'),
        Provenance::new(HirId { owner: 1, local_id: 0 }, 'c'),
    ];
    assert_eq!(v.forget(), vec!['a', 'b', 'c']);
}

#[test]
fn every_node_reaches_the_root() {
    let deep = goal(display_bound(), "B: Display", Err(NoSolution), vec![impl_candidate("impl B", vec![])]);
    let mid = goal(display_bound(), "A: Display", Err(NoSolution), vec![
        impl_candidate("impl A", vec![deep]),
        InspectCandidate { kind: ProbeKind::CommitIfOk, informative: false, nested: vec![] },
    ]);
    let root = goal(display_bound(), "R: Display", Err(NoSolution), vec![impl_candidate("impl R", vec![mid])]);
    let t = serialize_proof_tree(&root, lang_items()).unwrap();
    assert!(t.topology.parent[0].is_none());
    for c in 1 .. t.node_count() {
        let p = t.topology.parent[c].unwrap();
        assert_eq!(t.topology.children[p].iter().filter(|&&x| x == c).count(), 1);
        let mut cur = c;
        while let Some(q) = t.topology.parent[cur] {
            cur = q;
        }
        assert_eq!(cur, 0);
    }
    assert_eq!(Candidate::from(s("x")), Candidate::Any { data: s("x") });
}
