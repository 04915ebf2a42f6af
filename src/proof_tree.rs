//! Proof trees: the goals a solver attempted, the candidates it tried for
//! each, and the outcome, as an append-only table of nodes with a topology.
use vstd::prelude::*;

use crate::analysis::Target;
use crate::ext::{result_is_yes, same_result, EvaluationResult, EvaluationResultExt};
use crate::necessity::{guess_predicate_necessity, predicate_necessity, ObligationNecessity};
use crate::ty::Predicate;

verus! {

/// One strategy the solver tried, as shown to a user.
#[derive(Clone, Debug, PartialEq, Eq)]
pub enum Candidate {
    /// A user-written implementation, rendered.
    Impl { data: String },
    /// The `idx`-th fact of the environment.
    ParamEnv { idx: usize },
    /// Anything else, as a human-readable string.
    Any { data: String },
}

/// A goal, as shown to a user.
#[derive(Debug, PartialEq, Eq)]
pub struct Goal {
    pub goal: String,
    pub result: EvaluationResult,
    pub debug_comparison: String,
    pub necessity: ObligationNecessity,
    pub num_vars: usize,
}

/// One element of a proof tree.
#[derive(Debug, PartialEq, Eq)]
pub enum Node {
    Result { data: EvaluationResult },
    Candidate { data: Candidate },
    Goal { data: Goal },
}

/// The content of a candidate, strings taken as character sequences.
pub enum CandidateView {
    Impl(Seq<char>),
    ParamEnv(usize),
    Any(Seq<char>),
}

/// The content of a node, strings taken as character sequences.
pub enum NodeView {
    Result(EvaluationResult),
    Candidate(CandidateView),
    Goal(Seq<char>, EvaluationResult, Seq<char>, ObligationNecessity, usize),
}

impl Candidate {
    pub open spec fn view(self) -> CandidateView {
        match self {
            Candidate::Impl { data } => CandidateView::Impl(data@),
            Candidate::ParamEnv { idx } => CandidateView::ParamEnv(idx),
            Candidate::Any { data } => CandidateView::Any(data@),
        }
    }
}

impl Node {
    pub open spec fn view(self) -> NodeView {
        match self {
            Node::Result { data } => NodeView::Result(data),
            Node::Candidate { data } => NodeView::Candidate(data.view()),
            Node::Goal { data } => NodeView::Goal(
                data.goal@,
                data.result,
                data.debug_comparison@,
                data.necessity,
                data.num_vars,
            ),
        }
    }
}

/// Whether `a` repeats `b`: the same kind of node with the same content.
pub fn is_repeat_of(a: &Node, b: &Node) -> (r: bool)
    ensures
        r == (a.view() == b.view()),
{
    match a {
        Node::Result { data: x } => match b {
            Node::Result { data: y } => same_result(x, y),
            _ => false,
        },
        Node::Candidate { data: x } => match b {
            Node::Candidate { data: y } => same_candidate(x, y),
            _ => false,
        },
        Node::Goal { data: g } => match b {
            Node::Goal { data: h } => same_goal(g, h),
            _ => false,
        },
    }
}

fn same_candidate(x: &Candidate, y: &Candidate) -> (r: bool)
    ensures
        r == (x.view() == y.view()),
{
    match x {
        Candidate::Impl { data: s } => match y {
            Candidate::Impl { data: t } => *s == *t,
            _ => false,
        },
        Candidate::ParamEnv { idx: i } => match y {
            Candidate::ParamEnv { idx: j } => *i == *j,
            _ => false,
        },
        Candidate::Any { data: s } => match y {
            Candidate::Any { data: t } => *s == *t,
            _ => false,
        },
    }
}

fn same_goal(g: &Goal, h: &Goal) -> (r: bool)
    ensures
        r == ((Node::Goal { data: *g }).view() == (Node::Goal { data: *h }).view()),
{
    let a = g.goal == h.goal;
    let b = same_result(&g.result, &h.result);
    let c = g.debug_comparison == h.debug_comparison;
    let d = g.necessity == h.necessity;
    let e = g.num_vars == h.num_vars;
    a && b && c && d && e
}

/// Parent and children links over node indices.
#[derive(Clone, Debug)]
pub struct TreeTopology {
    pub parent: Vec<Option<usize>>,
    pub children: Vec<Vec<usize>>,
}

impl TreeTopology {
    pub open spec fn len(&self) -> nat {
        self.parent@.len()
    }

    /// Parents come before their children; the two link tables agree; each
    /// children list is strictly increasing.
    pub open spec fn wf(&self) -> bool {
        &&& self.parent@.len() == self.children@.len()
        &&& forall|c: int|
            0 <= c < self.parent@.len() && (#[trigger] self.parent@[c]) is Some ==> {
                let p = self.parent@[c]->Some_0 as int;
                p < c && self.children@[p]@.contains(c as usize)
            }
        &&& forall|p: int, j: int|
            0 <= p < self.children@.len() && 0 <= j < self.children@[p]@.len() ==> {
                let c = #[trigger] self.children@[p]@[j];
                p < c < self.parent@.len() && self.parent@[c as int] == Some(p as usize)
            }
        &&& forall|p: int, j: int, k: int|
            0 <= p < self.children@.len() && 0 <= j < k < self.children@[p]@.len() ==> (
            #[trigger] self.children@[p]@[j]) < (#[trigger] self.children@[p]@[k])
    }

    /// `p` has no children.
    pub open spec fn spec_is_leaf(&self, p: int) -> bool {
        self.children@[p]@.len() == 0
    }

    pub fn new() -> (r: TreeTopology)
        ensures
            r.wf(),
            r.len() == 0,
    {
        TreeTopology { parent: Vec::new(), children: Vec::new() }
    }

    /// Adds a node with no links.
    pub fn push_node(&mut self)
        requires
            old(self).wf(),
        ensures
            final(self).wf(),
            final(self).parent@ == old(self).parent@.push(None),
            final(self).children@.len() == old(self).children@.len() + 1,
            final(self).children@[old(self).children@.len() as int]@.len() == 0,
            forall|i: int|
                0 <= i < old(self).children@.len() ==> final(self).children@[i]
                    == old(self).children@[i],
    {
        self.parent.push(None);
        self.children.push(Vec::new());
        assert forall|c: int|
            0 <= c < self.parent@.len() && (#[trigger] self.parent@[c]) is Some implies {
                let p = self.parent@[c]->Some_0 as int;
                p < c && self.children@[p]@.contains(c as usize)
            } by {
            assert(c < old(self).parent@.len());
            assert(old(self).parent@[c] is Some);
        }
    }

    /// Links `c` under `p`.
    pub fn add(&mut self, p: usize, c: usize)
        requires
            old(self).wf(),
            p < c < old(self).len(),
            old(self).parent@[c as int] is None,
            forall|j: int|
                0 <= j < old(self).children@[p as int]@.len() ==> old(
                    self,
                ).children@[p as int]@[j] < c,
        ensures
            final(self).wf(),
            final(self).parent@ == old(self).parent@.update(c as int, Some(p)),
            final(self).children@.len() == old(self).children@.len(),
            final(self).children@[p as int]@ == old(self).children@[p as int]@.push(c),
            forall|i: int|
                0 <= i < old(self).children@.len() && i != p ==> final(self).children@[i]
                    == old(self).children@[i],
    {
        self.parent.set(c, Some(p));
        self.children[p].push(c);
        assert forall|q: int, j: int|
            0 <= q < self.children@.len() && 0 <= j < self.children@[q]@.len() implies {
                let d = #[trigger] self.children@[q]@[j];
                q < d < self.parent@.len() && self.parent@[d as int] == Some(q as usize)
            } by {
            if q == p && j == self.children@[q]@.len() - 1 {
            } else {
                let d = old(self).children@[q]@[j];
                assert(old(self).parent@[d as int] == Some(q as usize));
            }
        }
        assert forall|d: int|
            0 <= d < self.parent@.len() && (#[trigger] self.parent@[d]) is Some implies {
                let q = self.parent@[d]->Some_0 as int;
                q < d && self.children@[q]@.contains(d as usize)
            } by {
            if d != c {
                let q = self.parent@[d]->Some_0 as int;
                assert(old(self).parent@[d] is Some);
                let du = d as usize;
                assert(old(self).children@[q]@.contains(du));
                let j = choose|j: int|
                    0 <= j < old(self).children@[q]@.len() && old(self).children@[q]@[j] == du;
                if q == p {
                    assert(self.children@[q]@ == old(self).children@[q]@.push(c));
                } else {
                    assert(self.children@[q] == old(self).children@[q]);
                }
                assert(self.children@[q]@[j] == old(self).children@[q]@[j]);
            } else {
                assert(self.children@[p as int]@[self.children@[p as int]@.len() - 1] == c);
            }
        }
    }

    pub fn is_leaf(&self, p: usize) -> (r: bool)
        requires
            p < self.children@.len(),
        ensures
            r == self.spec_is_leaf(p as int),
    {
        self.children[p].len() == 0
    }
}

/// A path of node indices in which each next index is the parent of the
/// previous, from a repeated goal back to the ancestor it repeats.
#[derive(Clone, Debug)]
pub struct ProofCycle(pub Vec<usize>);

/// The host solver's view of one goal: its predicate, its rendering, its
/// result, and the candidates it tried.
pub struct InspectGoal {
    pub predicate: Predicate,
    pub rendered: String,
    pub debug: String,
    pub num_vars: usize,
    pub result: EvaluationResult,
    pub candidates: Vec<InspectCandidate>,
}

/// One candidate the host solver tried for a goal, with the goals nested
/// under it. A candidate that is not informative is a bookkeeping probe.
pub struct InspectCandidate {
    pub kind: ProbeKind,
    pub informative: bool,
    pub nested: Vec<InspectGoal>,
}

/// What a candidate is.
pub enum ProbeKind {
    Root,
    NormalizedSelfTyAssembly,
    UnsizeAssembly,
    CommitIfOk,
    UpcastProjectionCompatibility,
    MiscCandidate,
    TraitCandidate(CandidateSource),
}

/// Where a trait candidate comes from.
pub enum CandidateSource {
    BuiltinImpl,
    AliasBound,
    ParamEnv(usize),
    Impl(ImplSource),
}

/// What the host knows of an implementation, best first: its local
/// syntax, a header built from its generics and bounds, and the source text
/// of its span (`Ok(None)` when the text could not be read, `Err` with the
/// name of the defining crate when it is foreign).
pub struct ImplSource {
    pub local_impl: Option<String>,
    pub header: Option<String>,
    pub span: Result<Option<String>, String>,
}

/// The candidate shown for an implementation.
pub open spec fn impl_candidate_view(src: ImplSource) -> CandidateView {
    match src.local_impl {
        Some(s) => CandidateView::Impl(s@),
        None => match src.header {
            Some(h) => CandidateView::Impl(h@),
            None => match src.span {
                Ok(Some(snippet)) => CandidateView::Any(snippet@),
                Ok(None) => CandidateView::Any("failed to find impl"@),
                Err(krate) => CandidateView::Any("foreign impl from: "@ + krate@),
            },
        },
    }
}

/// The candidate shown for a probe.
pub open spec fn candidate_view(kind: ProbeKind) -> CandidateView {
    match kind {
        ProbeKind::Root => CandidateView::Any("root"@),
        ProbeKind::NormalizedSelfTyAssembly => CandidateView::Any("normalized-self-ty-asm"@),
        ProbeKind::UnsizeAssembly => CandidateView::Any("unsize-asm"@),
        ProbeKind::CommitIfOk => CandidateView::Any("commit-if-ok"@),
        ProbeKind::UpcastProjectionCompatibility => CandidateView::Any("upcase-proj-compat"@),
        ProbeKind::MiscCandidate => CandidateView::Any("misc"@),
        ProbeKind::TraitCandidate(source) => match source {
            CandidateSource::BuiltinImpl => CandidateView::Any("builtin"@),
            CandidateSource::AliasBound => CandidateView::Any("alias-bound"@),
            CandidateSource::ParamEnv(_) => CandidateView::Any("param-env"@),
            CandidateSource::Impl(src) => impl_candidate_view(src),
        },
    }
}

/// The node shown for a goal.
pub open spec fn goal_node_view(g: InspectGoal, lang_items: Seq<u64>) -> NodeView {
    NodeView::Goal(
        g.rendered@,
        g.result,
        g.debug@,
        predicate_necessity(g.predicate, lang_items),
        g.num_vars,
    )
}

fn text(s: &str) -> (r: String)
    ensures
        r@ == s@,
{
    String::from_str(s)
}

impl Candidate {
    /// Renders an implementation, falling back from its syntax to its
    /// header, to its source text, to a placeholder.
    pub fn from_impl(src: &ImplSource) -> (r: Candidate)
        ensures
            r.view() == impl_candidate_view(*src),
    {
        match &src.local_impl {
            Some(s) => Candidate::Impl { data: s.clone() },
            None => match &src.header {
                Some(h) => Candidate::Impl { data: h.clone() },
                None => match &src.span {
                    Ok(Some(snippet)) => Candidate::Any { data: snippet.clone() },
                    Ok(None) => {
                        proof {
                            reveal_strlit("failed to find impl");
                        }
                        Candidate::Any { data: text("failed to find impl") }
                    },
                    Err(krate) => {
                        let mut s = text("foreign impl from: ");
                        s.append(krate.as_str());
                        Candidate::Any { data: s }
                    },
                },
            },
        }
    }

    pub fn new_param_env(idx: usize) -> (r: Candidate)
        ensures
            r == (Candidate::ParamEnv { idx }),
    {
        Candidate::ParamEnv { idx }
    }

    /// Renders a probe of the solver.
    pub fn from_probe(kind: &ProbeKind) -> (r: Candidate)
        ensures
            r.view() == candidate_view(*kind),
    {
        match kind {
            ProbeKind::Root => Candidate::Any { data: text("root") },
            ProbeKind::NormalizedSelfTyAssembly => Candidate::Any {
                data: text("normalized-self-ty-asm"),
            },
            ProbeKind::UnsizeAssembly => Candidate::Any { data: text("unsize-asm") },
            ProbeKind::CommitIfOk => Candidate::Any { data: text("commit-if-ok") },
            ProbeKind::UpcastProjectionCompatibility => Candidate::Any {
                data: text("upcase-proj-compat"),
            },
            ProbeKind::MiscCandidate => Candidate::Any { data: text("misc") },
            ProbeKind::TraitCandidate(source) => match source {
                CandidateSource::BuiltinImpl => Candidate::Any { data: text("builtin") },
                CandidateSource::AliasBound => Candidate::Any { data: text("alias-bound") },
                CandidateSource::ParamEnv(_) => Candidate::Any { data: text("param-env") },
                CandidateSource::Impl(src) => Candidate::from_impl(src),
            },
        }
    }
}

impl From<String> for Candidate {
    fn from(value: String) -> (r: Candidate) {
        Candidate::Any { data: value }
    }
}

impl vstd::std_specs::convert::FromSpecImpl<String> for Candidate {
    open spec fn obeys_from_spec() -> bool {
        true
    }

    open spec fn from_spec(value: String) -> Candidate {
        Candidate::Any { data: value }
    }
}

impl Goal {
    pub fn new(g: &InspectGoal, lang_items: &Vec<u64>) -> (r: Goal)
        ensures
            (Node::Goal { data: r }).view() == goal_node_view(*g, lang_items@),
    {
        Goal {
            goal: g.rendered.clone(),
            result: g.result,
            debug_comparison: g.debug.clone(),
            necessity: guess_predicate_necessity(&g.predicate, lang_items),
            num_vars: g.num_vars,
        }
    }
}


/// A result node for an outcome other than success.
pub open spec fn is_failure_leaf(n: Node) -> bool {
    match n {
        Node::Result { data } => !result_is_yes(data),
        _ => false,
    }
}

/// The recorded cycle, if any, is a path of parent links from its first
/// index to its last, between two nodes of the same content.
pub open spec fn cycle_wf(nodes: Seq<Node>, topology: TreeTopology, cycle: Option<ProofCycle>) -> bool {
    match cycle {
        None => true,
        Some(c) => {
            let path = c.0@;
            &&& path.len() >= 2
            &&& forall|k: int| 0 <= k < path.len() ==> #[trigger] path[k] < nodes.len()
            &&& forall|k: int|
                0 <= k < path.len() - 1 ==> topology.parent@[#[trigger] path[k] as int] == Some(
                    path[k + 1],
                )
            &&& nodes[path[0] as int].view() == nodes[path.last() as int].view()
        },
    }
}

/// The invariant of a proof tree, complete or under construction: node 0
/// is the root and has no parent; every other node has one, which is not
/// a result node; error leaves are failed results; the cycle is sound.
pub open spec fn tree_wf(
    nodes: Seq<Node>,
    topology: TreeTopology,
    error_leaves: Seq<usize>,
    cycle: Option<ProofCycle>,
) -> bool {
    &&& topology.wf()
    &&& topology.len() == nodes.len()
    &&& nodes.len() > 0 ==> topology.parent@[0] is None
    &&& forall|c: int| 0 < c < nodes.len() ==> (#[trigger] topology.parent@[c]) is Some
    &&& forall|c: int|
        0 <= c < nodes.len() && (#[trigger] topology.parent@[c]) is Some ==> !(
        nodes[topology.parent@[c]->Some_0 as int] is Result)
    &&& forall|k: int|
        0 <= k < error_leaves.len() ==> (#[trigger] error_leaves[k]) < nodes.len()
            && is_failure_leaf(nodes[error_leaves[k] as int])
    &&& forall|i: int|
        0 <= i < nodes.len() && is_failure_leaf(#[trigger] nodes[i]) ==> error_leaves.contains(
            i as usize,
        )
    &&& forall|i: int| 0 < i < nodes.len() ==> shown_goal(#[trigger] nodes[i])
    &&& cycle_wf(nodes, topology, cycle)
}

/// A goal node that is not the root passed the necessity filter.
pub open spec fn shown_goal(n: Node) -> bool {
    match n {
        Node::Goal { data } => keeps_goal(false, data.necessity, data.result),
        _ => true,
    }
}

/// `b` holds every node of `a` at the same index.
pub open spec fn extends(a: Seq<Node>, b: Seq<Node>) -> bool {
    a.len() <= b.len() && forall|i: int| 0 <= i < a.len() ==> #[trigger] b[i] == a[i]
}

/// The index of a node in a proof tree.
#[derive(Clone, Copy, Debug, PartialEq, Eq, PartialOrd, Ord, Hash)]
pub struct ProofNodeIdx(pub usize);

impl index_vec::Idx for ProofNodeIdx {
    fn from_usize(idx: usize) -> Self {
        ProofNodeIdx(idx)
    }

    fn index(self) -> usize {
        self.0
    }
}

/// The nodes of a finished tree, indexed by `ProofNodeIdx`.
#[verifier::external_body]
pub struct NodeTable {
    table: index_vec::IndexVec<ProofNodeIdx, Node>,
}

/// The nodes a table holds, in index order.
pub uninterp spec fn table_nodes(t: NodeTable) -> Seq<Node>;

/// Relies on index_vec::IndexVec::from_vec: the table holds the vector's
/// items at the same indices (`from_usize` of `ProofNodeIdx` never panics).
#[verifier::external_body]
fn table_from_vec(v: Vec<Node>) -> (r: NodeTable)
    ensures
        table_nodes(r) == v@,
{
    NodeTable { table: index_vec::IndexVec::from_vec(v) }
}

impl NodeTable {
    /// The table of `nodes`, in order.
    pub fn from_nodes(nodes: Vec<Node>) -> (r: NodeTable)
        ensures
            table_nodes(r) == nodes@,
    {
        table_from_vec(nodes)
    }
}

/// Relies on the `raw` field of index_vec::IndexVec: the vector it wraps.
#[verifier::external_body]
fn table_raw(t: &NodeTable) -> (r: &Vec<Node>)
    ensures
        r@ == table_nodes(*t),
{
    &t.table.raw
}

/// The immutable result of a visit: node 0 is the root.
pub struct SerializedTree {
    pub root: usize,
    pub nodes: NodeTable,
    pub topology: TreeTopology,
    pub error_leaves: Vec<usize>,
    pub unnecessary_roots: Vec<usize>,
    pub cycle: Option<ProofCycle>,
}

impl SerializedTree {
    /// The number of nodes.
    pub fn node_count(&self) -> (r: usize)
        ensures
            r == table_nodes(self.nodes).len(),
    {
        table_raw(&self.nodes).len()
    }

    /// The node at index `i`.
    pub fn node(&self, i: usize) -> (r: &Node)
        requires
            i < table_nodes(self.nodes).len(),
        ensures
            *r == table_nodes(self.nodes)[i as int],
    {
        &table_raw(&self.nodes)[i]
    }

    pub open spec fn model(&self) -> VisitModel {
        VisitModel {
            root: Some(self.root),
            nodes: table_nodes(self.nodes).map_values(|n: Node| n.view()),
            parent: self.topology.parent@,
            children: self.topology.children@.map_values(|v: Vec<usize>| v@),
            error_leaves: self.error_leaves@,
            cycle: match self.cycle {
                Some(c) => Some(c.0@),
                None => None,
            },
        }
    }

    pub open spec fn wf(&self) -> bool {
        &&& self.root == 0
        &&& table_nodes(self.nodes).len() > 0
        &&& tree_wf(table_nodes(self.nodes), self.topology, self.error_leaves@, self.cycle)
        &&& forall|k: int|
            0 <= k < self.unnecessary_roots@.len() ==> #[trigger] self.unnecessary_roots@[k]
                < table_nodes(self.nodes).len()
    }
}

/// Why a visit produced no tree.
#[derive(Clone, Copy, Debug, PartialEq, Eq, Structural)]
pub enum TreeError {
    /// The visit never assigned a root.
    MissingRoot,
    /// No tree of the pass matches the target.
    NotFound(Target),
}

/// The working state of a visit. `lang_items` are the ids of the
/// language's built-in traits, which the necessity heuristic reads.
pub struct SerializedTreeVisitor {
    pub lang_items: Vec<u64>,
    pub root: Option<usize>,
    pub nodes: Vec<Node>,
    pub topology: TreeTopology,
    pub error_leaves: Vec<usize>,
    pub unnecessary_roots: Vec<usize>,
    pub cycle: Option<ProofCycle>,
}

/// Whether a goal of this necessity and result gets a node: the root
/// always does, others when always shown, or shown on error and failing.
pub open spec fn keeps_goal(
    is_root: bool,
    necessity: ObligationNecessity,
    result: EvaluationResult,
) -> bool {
    is_root || necessity == ObligationNecessity::Yes || (necessity == ObligationNecessity::OnError
        && !result_is_yes(result))
}

/// The state of a visit, strings taken as character sequences.
pub struct VisitModel {
    pub root: Option<usize>,
    pub nodes: Seq<NodeView>,
    pub parent: Seq<Option<usize>>,
    pub children: Seq<Seq<usize>>,
    pub error_leaves: Seq<usize>,
    pub cycle: Option<Seq<usize>>,
}

/// The state before any goal is visited.
pub open spec fn empty_model() -> VisitModel {
    VisitModel {
        root: None,
        nodes: seq![],
        parent: seq![],
        children: seq![],
        error_leaves: seq![],
        cycle: None,
    }
}

pub open spec fn is_failure_view(n: NodeView) -> bool {
    match n {
        NodeView::Result(r) => !result_is_yes(r),
        _ => false,
    }
}

/// Appends a node under `parent`, or as the root when there is none; a
/// failed result becomes an error leaf.
pub open spec fn push_node_spec(m: VisitModel, n: NodeView, parent: Option<usize>) -> VisitModel {
    let idx = m.nodes.len() as usize;
    VisitModel {
        root: if parent is None {
            Some(idx)
        } else {
            m.root
        },
        nodes: m.nodes.push(n),
        parent: m.parent.push(parent),
        children: match parent {
            Some(p) => m.children.update(p as int, m.children[p as int].push(idx)).push(seq![]),
            None => m.children.push(seq![]),
        },
        error_leaves: if is_failure_view(n) {
            m.error_leaves.push(idx)
        } else {
            m.error_leaves
        },
        cycle: m.cycle,
    }
}

/// Walks parent links up from `cur`, extending `path`, until a node with
/// the content of `from` is met (then recorded as the cycle) or the root.
pub open spec fn walk_spec(m: VisitModel, from: int, cur: int, path: Seq<usize>) -> VisitModel
    decreases cur,
{
    if 0 <= cur < m.parent.len() {
        match m.parent[cur] {
            Some(p) => if p < cur {
                if m.nodes[p as int] == m.nodes[from] {
                    VisitModel { cycle: Some(path.push(p)), ..m }
                } else {
                    walk_spec(m, from, p as int, path.push(p))
                }
            } else {
                m
            },
            None => m,
        }
    } else {
        m
    }
}

/// The cycle check after the node at `from` was added.
pub open spec fn cycle_spec(m: VisitModel, from: int) -> VisitModel {
    if m.cycle is Some {
        m
    } else {
        walk_spec(m, from, from, seq![from as usize])
    }
}

/// The visit of one goal under `parent`.
pub open spec fn visit_goal_spec(
    m: VisitModel,
    g: InspectGoal,
    parent: Option<usize>,
    lang_items: Seq<u64>,
) -> VisitModel
    decreases g, g.candidates@.len() + 1,
{
    let necessity = predicate_necessity(g.predicate, lang_items);
    if m.root is Some && !keeps_goal(false, necessity, g.result) {
        skipped_from(m, g, parent->Some_0, lang_items, 0)
    } else {
        let here = m.nodes.len() as usize;
        let m1 = push_node_spec(m, goal_node_view(g, lang_items), parent);
        candidates_from(cycle_spec(m1, here as int), g, here, lang_items, 0)
    }
}

/// The goals under the candidates of a goal that got no node, from the
/// `i`-th candidate on, all under `parent`.
pub open spec fn skipped_from(
    m: VisitModel,
    g: InspectGoal,
    parent: usize,
    lang_items: Seq<u64>,
    i: int,
) -> VisitModel
    decreases g, g.candidates@.len() - i,
{
    if 0 <= i < g.candidates@.len() {
        skipped_from(
            visit_nested_spec(m, g.candidates@[i], parent, lang_items),
            g,
            parent,
            lang_items,
            i + 1,
        )
    } else {
        m
    }
}

/// One candidate of the goal at `here`: its node when informative, the
/// goals under it, and a result leaf when nothing was added under it.
pub open spec fn candidate_step(
    m: VisitModel,
    g: InspectGoal,
    here: usize,
    lang_items: Seq<u64>,
    i: int,
) -> VisitModel
    decreases g, g.candidates@.len() - i, 0int,
{
    if 0 <= i < g.candidates@.len() {
        let c = g.candidates@[i];
        let prev = if c.informative {
            m.nodes.len() as usize
        } else {
            here
        };
        let m1 = if c.informative {
            push_node_spec(m, NodeView::Candidate(candidate_view(c.kind)), Some(here))
        } else {
            m
        };
        let m2 = visit_nested_spec(m1, c, prev, lang_items);
        if m2.children[prev as int].len() == 0 {
            push_node_spec(m2, NodeView::Result(g.result), Some(prev))
        } else {
            m2
        }
    } else {
        m
    }
}

/// The candidates of the goal at `here`, from the `i`-th on.
pub open spec fn candidates_from(
    m: VisitModel,
    g: InspectGoal,
    here: usize,
    lang_items: Seq<u64>,
    i: int,
) -> VisitModel
    decreases g, g.candidates@.len() - i, 1int,
{
    if 0 <= i < g.candidates@.len() {
        candidates_from(candidate_step(m, g, here, lang_items, i), g, here, lang_items, i + 1)
    } else {
        m
    }
}

/// The goals nested under one candidate, all under `parent`.
pub open spec fn visit_nested_spec(
    m: VisitModel,
    c: InspectCandidate,
    parent: usize,
    lang_items: Seq<u64>,
) -> VisitModel
    decreases c, c.nested@.len() + 1,
{
    nested_from(m, c, parent, lang_items, 0)
}

/// The goals nested under one candidate, from the `j`-th on.
pub open spec fn nested_from(
    m: VisitModel,
    c: InspectCandidate,
    parent: usize,
    lang_items: Seq<u64>,
    j: int,
) -> VisitModel
    decreases c, c.nested@.len() - j,
{
    if 0 <= j < c.nested@.len() {
        nested_from(
            visit_goal_spec(m, c.nested@[j], Some(parent), lang_items),
            c,
            parent,
            lang_items,
            j + 1,
        )
    } else {
        m
    }
}

impl SerializedTreeVisitor {
    pub open spec fn model(&self) -> VisitModel {
        VisitModel {
            root: self.root,
            nodes: self.nodes@.map_values(|n: Node| n.view()),
            parent: self.topology.parent@,
            children: self.topology.children@.map_values(|v: Vec<usize>| v@),
            error_leaves: self.error_leaves@,
            cycle: match self.cycle {
                Some(c) => Some(c.0@),
                None => None,
            },
        }
    }

    pub open spec fn wf(&self) -> bool {
        &&& tree_wf(self.nodes@, self.topology, self.error_leaves@, self.cycle)
        &&& (self.root is None <==> self.nodes@.len() == 0)
        &&& self.root is Some ==> self.root == Some(0usize)
        &&& forall|k: int|
            0 <= k < self.unnecessary_roots@.len() ==> #[trigger] self.unnecessary_roots@[k]
                < self.nodes@.len()
    }

    pub fn new(lang_items: Vec<u64>) -> (r: SerializedTreeVisitor)
        ensures
            r.wf(),
            r.root is None,
            r.lang_items@ == lang_items@,
            r.model() == empty_model(),
    {
        let r = SerializedTreeVisitor {
            lang_items,
            root: None,
            nodes: Vec::new(),
            topology: TreeTopology::new(),
            error_leaves: Vec::new(),
            unnecessary_roots: Vec::new(),
            cycle: None,
        };
        assert(r.model().nodes =~= Seq::<NodeView>::empty());
        assert(r.model().parent =~= Seq::<Option<usize>>::empty());
        assert(r.model().error_leaves =~= Seq::<usize>::empty());
        assert(r.model().children =~= Seq::<Seq<usize>>::empty());
        r
    }

    /// The finished tree, or `MissingRoot` when no goal was visited.
    pub fn into_tree(self) -> (r: Result<SerializedTree, TreeError>)
        requires
            self.wf(),
        ensures
            self.root is Some <==> r is Ok,
            r is Err ==> r == Err::<SerializedTree, TreeError>(TreeError::MissingRoot),
            r matches Ok(t) ==> {
                &&& t.wf()
                &&& t.model() == self.model()
                &&& table_nodes(t.nodes) == self.nodes@
                &&& t.topology == self.topology
                &&& t.error_leaves == self.error_leaves
                &&& t.unnecessary_roots == self.unnecessary_roots
                &&& t.cycle == self.cycle
            },
    {
        match self.root {
            None => Err(TreeError::MissingRoot),
            Some(root) => Ok(
                SerializedTree {
                    root,
                    nodes: table_from_vec(self.nodes),
                    topology: self.topology,
                    error_leaves: self.error_leaves,
                    unnecessary_roots: self.unnecessary_roots,
                    cycle: self.cycle,
                },
            ),
        }
    }

    /// Appends the root node.
    fn push_root(&mut self, node: Node) -> (idx: usize)
        requires
            old(self).wf(),
            old(self).root is None,
            node is Goal,
        ensures
            final(self).wf(),
            idx == 0,
            final(self).root == Some(0usize),
            final(self).nodes@ == old(self).nodes@.push(node),
            final(self).lang_items == old(self).lang_items,
            final(self).model() == push_node_spec(old(self).model(), node.view(), None),
    {
        self.nodes.push(node);
        self.topology.push_node();
        self.root = Some(0);
        let ghost m = push_node_spec(old(self).model(), node.view(), None);
        assert(self.model().nodes =~= m.nodes);
        assert(self.model().parent =~= m.parent);
        assert(self.topology.children@[0]@ =~= Seq::<usize>::empty());
        assert(self.model().children =~= m.children);
        0
    }

    /// Appends `node` as a new child of `parent`, and records it as an error
    /// leaf when it is a failed result.
    fn push_child(&mut self, node: Node, parent: usize) -> (idx: usize)
        requires
            old(self).wf(),
            old(self).root is Some,
            parent < old(self).nodes@.len(),
            !(old(self).nodes@[parent as int] is Result),
            shown_goal(node),
        ensures
            final(self).wf(),
            idx == old(self).nodes@.len(),
            final(self).nodes@ == old(self).nodes@.push(node),
            final(self).topology.children@[idx as int]@.len() == 0,
            final(self).root == old(self).root,
            final(self).lang_items == old(self).lang_items,
            final(self).model() == push_node_spec(old(self).model(), node.view(), Some(parent)),
    {
        let idx = self.nodes.len();
        let ghost old_topology = self.topology;
        let failed = match &node {
            Node::Result { data } => !data.is_yes(),
            _ => false,
        };
        self.nodes.push(node);
        self.topology.push_node();
        self.topology.add(parent, idx);
        assert forall|c: int|
            0 <= c < self.nodes@.len() && (#[trigger] self.topology.parent@[c]) is Some implies !(
            self.nodes@[self.topology.parent@[c]->Some_0 as int] is Result) by {
            if c < idx {
                assert(old_topology.parent@[c] == self.topology.parent@[c]);
            }
        }
        assert forall|k: int| 0 <= k < self.error_leaves@.len() implies (
        #[trigger] self.error_leaves@[k]) < self.nodes@.len() && is_failure_leaf(
            self.nodes@[self.error_leaves@[k] as int],
        ) by {
            assert(old(self).nodes@[self.error_leaves@[k] as int] == self.nodes@[
                self.error_leaves@[k] as int
            ]);
        }
        match &self.cycle {
            None => {},
            Some(c) => {
                let ghost path = c.0@;
                assert forall|k: int| 0 <= k < path.len() - 1 implies self.topology.parent@[
                    #[trigger] path[k] as int
                ] == Some(path[k + 1]) by {
                    assert(path[k] < idx);
                }
                assert(self.nodes@[path[0] as int] == old(self).nodes@[path[0] as int]);
                assert(path[path.len() - 1] < idx);
                assert(self.nodes@[path.last() as int] == old(self).nodes@[path.last() as int]);
            },
        }
        let ghost leaves = self.error_leaves@;
        if failed {
            self.error_leaves.push(idx);
        }
        assert forall|i: int|
            0 <= i < self.nodes@.len() && is_failure_leaf(
                #[trigger] self.nodes@[i],
            ) implies self.error_leaves@.contains(i as usize) by {
            if i < idx {
                assert(old(self).nodes@[i] == self.nodes@[i]);
                let k = choose|k: int| 0 <= k < leaves.len() && leaves[k] == i as usize;
                assert(self.error_leaves@[k] == i as usize);
            } else {
                assert(self.error_leaves@.last() == idx);
            }
        }
        assert forall|i: int| 0 < i < self.nodes@.len() implies shown_goal(
            #[trigger] self.nodes@[i],
        ) by {
            if i < idx {
                assert(old(self).nodes@[i] == self.nodes@[i]);
            }
        }
        proof {
            let m = push_node_spec(old(self).model(), self.nodes@[idx as int].view(), Some(parent));
            assert(self.model().nodes =~= m.nodes);
            assert(self.model().parent =~= m.parent);
            assert(self.topology.children@[idx as int]@ =~= Seq::<usize>::empty());
            assert(self.model().children =~= m.children);
            assert(self.model().error_leaves =~= m.error_leaves);
        }
        idx
    }

    /// Records a cycle when the node at `from` repeats one of its ancestors,
    /// unless one was recorded before.
    fn check_for_cycle_from(&mut self, from: usize)
        requires
            old(self).wf(),
            from < old(self).nodes@.len(),
        ensures
            final(self).wf(),
            final(self).nodes == old(self).nodes,
            final(self).topology == old(self).topology,
            final(self).root == old(self).root,
            final(self).error_leaves == old(self).error_leaves,
            final(self).lang_items == old(self).lang_items,
            old(self).cycle is Some ==> final(self).cycle == old(self).cycle,
            final(self).model() == cycle_spec(old(self).model(), from as int),
    {
        if self.cycle.is_some() {
            return ;
        }
        let mut path: Vec<usize> = Vec::new();
        path.push(from);
        let mut cur = from;
        assert(path@ =~= seq![from]);
        loop
            invariant
                self.wf(),
                self.nodes == old(self).nodes,
                self.topology == old(self).topology,
                self.root == old(self).root,
                self.error_leaves == old(self).error_leaves,
                self.lang_items == old(self).lang_items,
                self.cycle is None,
                old(self).cycle is None,
                path@.len() >= 1,
                self.model() == old(self).model(),
                cycle_spec(old(self).model(), from as int) == walk_spec(
                    self.model(),
                    from as int,
                    cur as int,
                    path@,
                ),
                path@[0] == from,
                path@.last() == cur,
                cur < self.nodes@.len(),
                forall|k: int| 0 <= k < path@.len() ==> #[trigger] path@[k] < self.nodes@.len(),
                forall|k: int|
                    0 <= k < path@.len() - 1 ==> self.topology.parent@[#[trigger] path@[k] as int]
                        == Some(path@[k + 1]),
            decreases cur,
        {
            match self.topology.parent[cur] {
                None => {
                    return ;
                },
                Some(p) => {
                    assert(self.topology.parent@[cur as int] is Some);
                    let ghost before = path@;
                    path.push(p);
                    assert forall|k: int| 0 <= k < path@.len() - 1 implies self.topology.parent@[
                        #[trigger] path@[k] as int
                    ] == Some(path@[k + 1]) by {
                        if k < before.len() - 1 {
                            assert(path@[k] == before[k]);
                        }
                    }
                    if is_repeat_of(&self.nodes[p], &self.nodes[from]) {
                        self.cycle = Some(ProofCycle(path));
                        return ;
                    }
                    cur = p;
                },
            }
        }
    }

    /// Visits one goal and everything the solver tried under it. A goal
    /// that is not kept gets no node; the goals nested under its candidates
    /// are still visited, under `parent`.
    pub fn visit_goal(&mut self, goal: &InspectGoal, parent: Option<usize>)
        requires
            old(self).wf(),
            parent is None <==> old(self).root is None,
            parent matches Some(p) ==> p < old(self).nodes@.len() && !(old(
                self,
            ).nodes@[p as int] is Result),
        ensures
            final(self).wf(),
            final(self).root is Some,
            final(self).lang_items == old(self).lang_items,
            extends(old(self).nodes@, final(self).nodes@),
            old(self).root is None ==> final(self).nodes@[0].view() == goal_node_view(
                *goal,
                old(self).lang_items@,
            ),
            final(self).model() == visit_goal_spec(
                old(self).model(),
                *goal,
                parent,
                old(self).lang_items@,
            ),
        decreases goal,
    {
        let necessity = guess_predicate_necessity(&goal.predicate, &self.lang_items);
        let keep = self.root.is_none() || necessity == ObligationNecessity::Yes || (necessity
            == ObligationNecessity::OnError && !goal.result.is_yes());
        let ghost entry = *self;
        if !keep {
            let p = parent.unwrap();
            let mut i: usize = 0;
            while i < goal.candidates.len()
                invariant
                    self.wf(),
                    self.root is Some,
                    self.lang_items == entry.lang_items,
                    extends(entry.nodes@, self.nodes@),
                    p < entry.nodes@.len(),
                    !(entry.nodes@[p as int] is Result),
                    i <= goal.candidates.len(),
                    parent == Some(p),
                    visit_goal_spec(entry.model(), *goal, parent, entry.lang_items@)
                        == skipped_from(self.model(), *goal, p, entry.lang_items@, i as int),
                decreases goal.candidates.len() - i,
            {
                self.visit_nested(&goal.candidates[i], p);
                i += 1;
            }
            return ;
        }
        let node = Node::Goal { data: Goal::new(goal, &self.lang_items) };
        let here = match parent {
            None => self.push_root(node),
            Some(p) => self.push_child(node, p),
        };
        self.check_for_cycle_from(here);
        let ghost visited = *self;
        let mut i: usize = 0;
        while i < goal.candidates.len()
            invariant
                self.wf(),
                self.root is Some,
                self.lang_items == entry.lang_items,
                extends(visited.nodes@, self.nodes@),
                extends(entry.nodes@, visited.nodes@),
                here < visited.nodes@.len(),
                visited.nodes@[here as int] is Goal,
                entry.root is None ==> visited.nodes@[0].view() == goal_node_view(
                    *goal,
                    entry.lang_items@,
                ),
                i <= goal.candidates.len(),
                visit_goal_spec(entry.model(), *goal, parent, entry.lang_items@)
                    == candidates_from(self.model(), *goal, here, entry.lang_items@, i as int),
            decreases goal.candidates.len() - i,
        {
            let c = &goal.candidates[i];
            let ghost m0 = self.model();
            let ghost lang = entry.lang_items@;
            let prev = if c.informative {
                let data = Candidate::from_probe(&c.kind);
                self.push_child(Node::Candidate { data }, here)
            } else {
                here
            };
            let ghost m1 = self.model();
            assert(m1 == (if c.informative {
                push_node_spec(m0, NodeView::Candidate(candidate_view(c.kind)), Some(here))
            } else {
                m0
            }));
            assert(prev == (if c.informative {
                m0.nodes.len() as usize
            } else {
                here
            }));
            self.visit_nested(c, prev);
            let ghost m2 = self.model();
            assert(m2 == visit_nested_spec(m1, *c, prev, lang));
            assert(m2.children[prev as int] == self.topology.children@[prev as int]@);
            if self.topology.is_leaf(prev) {
                self.push_child(Node::Result { data: goal.result }, prev);
            }
            assert(self.model() == candidate_step(m0, *goal, here, lang, i as int));
            i += 1;
        }
    }

    /// Visits the goals nested under one candidate, under `parent`.
    fn visit_nested(&mut self, c: &InspectCandidate, parent: usize)
        requires
            old(self).wf(),
            old(self).root is Some,
            parent < old(self).nodes@.len(),
            !(old(self).nodes@[parent as int] is Result),
        ensures
            final(self).wf(),
            final(self).root is Some,
            final(self).lang_items == old(self).lang_items,
            extends(old(self).nodes@, final(self).nodes@),
            final(self).model() == visit_nested_spec(
                old(self).model(),
                *c,
                parent,
                old(self).lang_items@,
            ),
        decreases c,
    {
        let mut j: usize = 0;
        while j < c.nested.len()
            invariant
                self.wf(),
                self.root is Some,
                self.lang_items == old(self).lang_items,
                extends(old(self).nodes@, self.nodes@),
                parent < old(self).nodes@.len(),
                !(old(self).nodes@[parent as int] is Result),
                j <= c.nested.len(),
                visit_nested_spec(old(self).model(), *c, parent, old(self).lang_items@)
                    == nested_from(self.model(), *c, parent, old(self).lang_items@, j as int),
            decreases c.nested.len() - j,
        {
            self.visit_goal(&c.nested[j], Some(parent));
            j += 1;
        }
    }
}

/// Builds the proof tree of one root goal, as `visit_goal_spec` describes
/// the visit. The root goal always gets a node, so a tree is always
/// produced.
pub fn serialize_proof_tree(goal: &InspectGoal, lang_items: Vec<u64>) -> (r: Result<
    SerializedTree,
    TreeError,
>)
    ensures
        r matches Ok(t) && t.wf() && table_nodes(t.nodes)[0].view() == goal_node_view(*goal, lang_items@)
            && t.model() == visit_goal_spec(empty_model(), *goal, None, lang_items@),
{
    let mut visitor = SerializedTreeVisitor::new(lang_items);
    visitor.visit_goal(goal, None);
    visitor.into_tree()
}

/// `c` leads back to `root` by parent links.
pub open spec fn reaches_root(parent: Seq<Option<usize>>, root: nat, c: nat) -> bool
    decreases c,
{
    if c == root {
        true
    } else if c < parent.len() && parent[c as int] is Some && parent[c as int]->Some_0 < c {
        reaches_root(parent, root, parent[c as int]->Some_0 as nat)
    } else {
        false
    }
}

proof fn lemma_reaches_root(t: &SerializedTree, c: nat)
    requires
        t.wf(),
        c < table_nodes(t.nodes).len(),
    ensures
        reaches_root(t.topology.parent@, 0, c),
    decreases c,
{
    if c > 0 {
        assert(t.topology.parent@[c as int] is Some);
        let p = t.topology.parent@[c as int]->Some_0;
        lemma_reaches_root(t, p as nat);
    }
}

/// Tree connectivity: the root has no incoming edge, every other node has
/// exactly one (its parent, under which it is listed once), and every node
/// leads back to the root.
pub proof fn lemma_tree_connected(t: &SerializedTree)
    requires
        t.wf(),
    ensures
        t.topology.parent@[t.root as int] is None,
        forall|p: int, j: int|
            0 <= p < table_nodes(t.nodes).len() && 0 <= j < t.topology.children@[p]@.len()
                ==> #[trigger] t.topology.children@[p]@[j] != t.root,
        forall|c: int| 0 < c < table_nodes(t.nodes).len() ==> (#[trigger] t.topology.parent@[c]) is Some,
        forall|p: int, j: int|
            0 <= p < table_nodes(t.nodes).len() && 0 <= j < t.topology.children@[p]@.len()
                ==> t.topology.parent@[#[trigger] t.topology.children@[p]@[j] as int] == Some(
                p as usize,
            ),
        forall|p: int, j: int, k: int|
            0 <= p < table_nodes(t.nodes).len() && 0 <= j < t.topology.children@[p]@.len() && 0 <= k
                < t.topology.children@[p]@.len() && #[trigger] t.topology.children@[p]@[j]
                == #[trigger] t.topology.children@[p]@[k] ==> j == k,
        forall|c: nat| c < table_nodes(t.nodes).len() ==> #[trigger] reaches_root(t.topology.parent@, 0, c),
{
    assert forall|p: int, j: int, k: int|
        0 <= p < table_nodes(t.nodes).len() && 0 <= j < t.topology.children@[p]@.len() && 0 <= k
            < t.topology.children@[p]@.len() && #[trigger] t.topology.children@[p]@[j]
            == #[trigger] t.topology.children@[p]@[k] implies j == k by {
        if j < k {
            assert(t.topology.children@[p]@[j] < t.topology.children@[p]@[k]);
        } else if k < j {
            assert(t.topology.children@[p]@[k] < t.topology.children@[p]@[j]);
        }
    }
    assert forall|c: nat| c < table_nodes(t.nodes).len() implies #[trigger] reaches_root(
        t.topology.parent@,
        0,
        c,
    ) by {
        lemma_reaches_root(t, c);
    }
}

/// Error-leaf consistency: every error leaf is a leaf of the topology and a
/// result node whose outcome is not success, and every such result node is
/// an error leaf.
pub proof fn lemma_error_leaves(t: &SerializedTree)
    requires
        t.wf(),
    ensures
        forall|k: int|
            0 <= k < t.error_leaves@.len() ==> {
                let e = #[trigger] t.error_leaves@[k] as int;
                &&& e < table_nodes(t.nodes).len()
                &&& t.topology.spec_is_leaf(e)
                &&& is_failure_leaf(table_nodes(t.nodes)[e])
            },
        forall|i: int|
            0 <= i < table_nodes(t.nodes).len() && is_failure_leaf(#[trigger] table_nodes(t.nodes)[i])
                ==> t.error_leaves@.contains(i as usize),
{
    assert forall|k: int| 0 <= k < t.error_leaves@.len() implies {
        let e = #[trigger] t.error_leaves@[k] as int;
        &&& e < table_nodes(t.nodes).len()
        &&& t.topology.spec_is_leaf(e)
        &&& is_failure_leaf(table_nodes(t.nodes)[e])
    } by {
        let e = t.error_leaves@[k] as int;
        if t.topology.children@[e]@.len() > 0 {
            let c = t.topology.children@[e]@[0];
            assert(t.topology.parent@[c as int] == Some(e as usize));
        }
    }
}

/// Cycle soundness: a recorded cycle follows parent links from its first
/// index to its last, and its two ends are nodes of the same content.
pub proof fn lemma_cycle_sound(t: &SerializedTree)
    requires
        t.wf(),
    ensures
        t.cycle matches Some(c) ==> {
            let path = c.0@;
            &&& path.len() >= 2
            &&& forall|k: int| 0 <= k < path.len() ==> #[trigger] path[k] < table_nodes(t.nodes).len()
            &&& forall|k: int|
                0 <= k < path.len() - 1 ==> t.topology.parent@[#[trigger] path[k] as int] == Some(
                    path[k + 1],
                )
            &&& table_nodes(t.nodes)[path[0] as int].view() == table_nodes(t.nodes)[path.last() as int].view()
        },
{
}

} // verus!
