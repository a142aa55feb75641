//! Deterministic single-procedure fixed-point solving.
use vstd::prelude::*;
use std::collections::VecDeque;
use crate::ifds::ir::{
    find_node, has_node, ir_valid, node_ids_unique, edges_valid, EdgeKind, IrEdge, Operation,
    ProcedureIr, edge_same,
};
use crate::ifds::model::{
    insert_diagnostic, insert_frontier, limit_kind_name, AnalysisLimitKind, AnalysisLimits,
    AnalysisRegion, AnalysisStats, Coverage, Diagnostic, DiagnosticCode, Direction, Fact,
    FactView, LimitReason, LocalIdView, NodeId, SourceSpan, UnknownFrontier,
};
pub use crate::ifds::provenance::FlowFunction;
use crate::ifds::provenance::{
    evidence_spec, facts_view, insert_fact, transfer_spec, transfer_set, unsupported_kind_spec,
    ProcedureFlowFunctions, TransferEvidence, TransferOutcome, UnsupportedTransferKind,
};

verus! {

pub struct SolverRequest<'a> {
    pub procedure: &'a ProcedureIr,
    /// The solver uses exactly these facts. Callers opt into parameter and Zero
    /// seeding with `seed_entry_facts` when that is the desired analysis.
    pub entry_facts: Vec<Fact>,
    pub limits: AnalysisLimits,
}

#[derive(Debug, PartialEq, Eq, PartialOrd, Ord)]
pub struct FactState {
    pub node: NodeId,
    pub fact: Fact,
}

impl Clone for FactState {
    fn clone(&self) -> (res: Self)
        ensures
            res == *self,
    {
        FactState { node: self.node.clone(), fact: self.fact.clone() }
    }
}

/// A supported one-procedure transition that can later be assembled into a
/// witness. Alternative predecessors are retained rather than overwritten.
#[derive(Debug, PartialEq, Eq, PartialOrd, Ord)]
pub struct FactPredecessor {
    pub source: FactState,
    pub edge: IrEdge,
    pub destination: FactState,
}

impl Clone for FactPredecessor {
    fn clone(&self) -> (res: Self)
        ensures
            res == *self,
    {
        FactPredecessor {
            source: self.source.clone(),
            edge: self.edge.clone(),
            destination: self.destination.clone(),
        }
    }
}

#[derive(Debug, Clone, PartialEq, Eq, PartialOrd, Ord)]
pub enum UnsupportedFlow {
    Operation { node: NodeId, operation: UnsupportedTransferKind },
    Edge(Box<IrEdge>),
}

/// Two unsupported flows with equal values.
pub open spec fn unsupported_same(a: UnsupportedFlow, b: UnsupportedFlow) -> bool {
    match (a, b) {
        (
            UnsupportedFlow::Operation { node: n1, operation: o1 },
            UnsupportedFlow::Operation { node: n2, operation: o2 },
        ) => n1@ == n2@ && o1 == o2,
        (UnsupportedFlow::Edge(e1), UnsupportedFlow::Edge(e2)) => edge_same(*e1, *e2),
        _ => false,
    }
}

/// Adds an unsupported flow unless an equal one is present.
fn insert_unsupported(list: &mut Vec<UnsupportedFlow>, item: UnsupportedFlow)
    ensures
        (exists|i: int| 0 <= i < old(list)@.len() && unsupported_same(old(list)@[i], item))
            ==> final(list)@ == old(list)@,
        !(exists|i: int| 0 <= i < old(list)@.len() && unsupported_same(old(list)@[i], item))
            ==> final(list)@ == old(list)@.push(item),
{
    let mut i: usize = 0;
    while i < list.len()
        invariant
            i <= list.len(),
            list@ == old(list)@,
            forall|j: int| 0 <= j < i ==> !unsupported_same(list@[j], item),
        decreases list.len() - i,
    {
        let equal = match (&list[i], &item) {
            (
                UnsupportedFlow::Operation { node: n1, operation: o1 },
                UnsupportedFlow::Operation { node: n2, operation: o2 },
            ) => n1.same(n2) && *o1 == *o2,
            (UnsupportedFlow::Edge(e1), UnsupportedFlow::Edge(e2)) => e1.same(e2),
            _ => false,
        };
        if equal {
            return;
        }
        i = i + 1;
    }
    list.push(item);
}

#[derive(Debug, Clone, Copy, Default, PartialEq, Eq, Structural)]
pub struct SolverCounters {
    /// Number of supported `(CFG edge, incoming fact)` transfers attempted.
    pub processed_path_edges: u64,
    /// Number of distinct `(node, fact)` states discovered so far.
    pub discovered_states: u64,
    /// Deterministic byte estimate for retained solver-owned structures. This is
    /// intentionally not process memory usage.
    pub accounted_memory_bytes: u64,
}

#[derive(Debug, Clone, PartialEq, Eq)]
pub struct SolverCancellation {
    pub reason: String,
}

#[derive(Debug, Clone, PartialEq, Eq)]
pub enum SolverTermination {
    FixedPoint,
    Cancelled(SolverCancellation),
    LimitExceeded(LimitReason),
}

#[derive(Debug, Clone, PartialEq, Eq)]
pub struct SolverOutput {
    /// Incoming facts at every reached operation, in node order.
    pub facts_at: Vec<(NodeId, Vec<Fact>)>,
    pub predecessors: Vec<FactPredecessor>,
    pub evidence: Vec<TransferEvidence>,
    pub unsupported: Vec<UnsupportedFlow>,
    pub termination: SolverTermination,
    pub diagnostics: Vec<Diagnostic>,
    pub unknown_frontiers: Vec<UnknownFrontier>,
    pub region_completeness: Vec<(AnalysisRegion, Coverage)>,
    pub stats: AnalysisStats,
}

/// Execution policy, separate from `SolverRequest` so that requests remain
/// declarative values. Implementations may consult a clock, a cancellation
/// flag, or deterministic counters.
pub trait SolverControl {
    /// The control never asks for a run to stop. Nothing is assumed of a
    /// control that does not say so.
    open spec fn never_cancels(&self) -> bool {
        false
    }

    /// The control's clock never advances. Nothing is assumed of a control
    /// that does not say so.
    open spec fn clock_stopped(&self) -> bool {
        false
    }

    fn checkpoint(&self, counters: &SolverCounters) -> (res: Option<SolverCancellation>)
        ensures
            self.never_cancels() ==> res is None,
    ;

    /// Elapsed analysis time supplied by an injectable monotonic clock.
    fn elapsed_ms(&self) -> (res: u64)
        ensures
            self.clock_stopped() ==> res == 0,
    {
        0
    }

    /// Accounted solver memory; by default the solver's own byte estimate.
    fn memory_bytes(&self, counters: &SolverCounters) -> u64 {
        counters.accounted_memory_bytes
    }
}

#[derive(Debug, Clone, Copy, Default)]
pub struct NoopSolverControl;

#[verifier::external_type_specification]
#[verifier::external_body]
pub struct ExInstant(std::time::Instant);

/// `Instant::now`: a reading of the monotonic clock. Nothing is claimed of
/// the reading.
#[verifier::external_body]
fn clock_now() -> std::time::Instant {
    std::time::Instant::now()
}

/// The whole milliseconds that `Instant::elapsed` reports since `start`,
/// saturated at `u64::MAX`. The time depends on the clock: nothing is
/// claimed of it.
#[verifier::external_body]
fn millis_since(start: &std::time::Instant) -> u64 {
    u64::try_from(start.elapsed().as_millis()).unwrap_or(u64::MAX)
}

/// Execution control that measures elapsed time on the monotonic clock
/// from its creation and never cancels.
pub struct SystemSolverControl {
    started: std::time::Instant,
}

impl SystemSolverControl {
    pub fn new() -> Self {
        SystemSolverControl { started: clock_now() }
    }
}

impl SolverControl for SystemSolverControl {
    open spec fn never_cancels(&self) -> bool {
        true
    }

    open spec fn clock_stopped(&self) -> bool {
        false
    }

    fn checkpoint(&self, counters: &SolverCounters) -> Option<SolverCancellation> {
        None
    }

    fn elapsed_ms(&self) -> u64 {
        millis_since(&self.started)
    }
}

impl SolverControl for NoopSolverControl {
    open spec fn never_cancels(&self) -> bool {
        true
    }

    open spec fn clock_stopped(&self) -> bool {
        true
    }

    fn checkpoint(&self, _counters: &SolverCounters) -> Option<SolverCancellation> {
        None
    }
}

#[derive(Debug, Clone, Copy, Default)]
pub struct IntraproceduralSolver;

#[derive(Debug, Clone, Copy, PartialEq, Eq, Structural)]
pub enum WorklistOrder {
    Fifo,
    Reverse,
}

#[derive(Debug, Clone, PartialEq, Eq)]
pub enum SolverError {
    InvalidIr(String),
    Internal(String),
}

// ---------------------------------------------------------------------------
// The meaning of a solution.

/// Edges the intraprocedural solver follows.
pub open spec fn intraprocedural(kind: EdgeKind) -> bool {
    kind is Normal || kind is Branch || kind is LoopBack
}

/// One step of propagation: fact `f` at node `n` becomes fact `g` at node `m`
/// along an intraprocedural edge, through the operation of `n`.
pub open spec fn flow_step(
    p: ProcedureIr,
    n: LocalIdView,
    f: FactView,
    m: LocalIdView,
    g: FactView,
) -> bool {
    exists|e: int, i: int|
        #![trigger p.edges@[e], p.nodes@[i]]
        0 <= e < p.edges.len() && 0 <= i < p.nodes.len() && p.edges@[e].source@ == n
            && p.edges@[e].target@ == m && intraprocedural(p.edges@[e].kind) && p.nodes@[i].id@ == n
            && transfer_spec(p.nodes@[i].operation, f).contains(g)
}

/// Position `i` of a sequence of states is followed by a propagation step.
pub open spec fn step_at(p: ProcedureIr, path: Seq<(LocalIdView, FactView)>, i: int) -> bool {
    flow_step(p, path[i].0, path[i].1, path[i + 1].0, path[i + 1].1)
}

/// A derivation: a sequence of states that starts at an entry fact on the
/// entry node and follows propagation steps.
pub open spec fn derivation(
    p: ProcedureIr,
    entry: Set<FactView>,
    path: Seq<(LocalIdView, FactView)>,
) -> bool {
    &&& path.len() > 0
    &&& path[0].0 == p.entry@
    &&& entry.contains(path[0].1)
    &&& forall|i: int| 0 <= i < path.len() - 1 ==> #[trigger] step_at(p, path, i)
}

/// Fact `g` holds on entry to node `m`: some derivation ends in `(m, g)`.
/// This is the least fixed point of propagation from the entry facts.
pub open spec fn derivable(p: ProcedureIr, entry: Set<FactView>, m: LocalIdView, g: FactView) -> bool {
    exists|path: Seq<(LocalIdView, FactView)>|
        #[trigger] derivation(p, entry, path) && path.last() == (m, g)
}

/// Whether a solver output lists fact `g` at node `m`.
pub open spec fn output_has(out: SolverOutput, m: LocalIdView, g: FactView) -> bool {
    exists|k: int|
        0 <= k < out.facts_at.len() && (#[trigger] out.facts_at@[k]).0@ == m && facts_view(
            out.facts_at@[k].1@,
        ).contains(g)
}

/// Every listed fact is derivable, and, when the solver reached its fixed
/// point, every derivable fact is listed.
pub open spec fn solution_exact(p: ProcedureIr, entry: Set<FactView>, out: SolverOutput) -> bool {
    &&& forall|k: int, j: int|
        0 <= k < out.facts_at.len() && 0 <= j < out.facts_at@[k].1@.len() ==> derivable(
            p,
            entry,
            (#[trigger] out.facts_at@[k]).0@,
            (#[trigger] out.facts_at@[k].1@[j])@,
        )
    &&& out.termination is FixedPoint ==> forall|m: LocalIdView, g: FactView|
        #[trigger] derivable(p, entry, m, g) ==> output_has(out, m, g)
}

// ---------------------------------------------------------------------------
// Solver state invariants over facts kept per node position.

spec fn has_fact(p: ProcedureIr, facts: Seq<Vec<Fact>>, m: LocalIdView, g: FactView) -> bool {
    exists|t: int|
        0 <= t < p.nodes.len() && (#[trigger] p.nodes@[t]).id@ == m && facts_view(
            facts[t]@,
        ).contains(g)
}

spec fn edge_closed(p: ProcedureIr, facts: Seq<Vec<Fact>>, e: int, i: int, f: FactView) -> bool {
    forall|g: FactView|
        #[trigger] transfer_spec(p.nodes@[i].operation, f).contains(g) ==> has_fact(
            p,
            facts,
            p.edges@[e].target@,
            g,
        )
}

spec fn state_closed(p: ProcedureIr, facts: Seq<Vec<Fact>>, i: int, f: FactView) -> bool {
    forall|e: int|
        0 <= e < p.edges.len() && (#[trigger] p.edges@[e]).source@ == p.nodes@[i].id@
            && intraprocedural(p.edges@[e].kind) ==> edge_closed(p, facts, e, i, f)
}

spec fn in_worklist(wl: Seq<(usize, Fact)>, i: int, f: FactView) -> bool {
    exists|k: int| 0 <= k < wl.len() && (#[trigger] wl[k]).0 == i && wl[k].1@ == f
}

spec fn closed_outside(
    p: ProcedureIr,
    facts: Seq<Vec<Fact>>,
    wl: Seq<(usize, Fact)>,
    except: Option<(int, FactView)>,
) -> bool {
    forall|i: int, f: FactView|
        0 <= i < p.nodes.len() && #[trigger] facts_view(facts[i]@).contains(f) && !in_worklist(
            wl,
            i,
            f,
        ) && except != Some((i, f)) ==> state_closed(p, facts, i, f)
}

spec fn all_sound(p: ProcedureIr, entry: Set<FactView>, facts: Seq<Vec<Fact>>) -> bool {
    forall|i: int, j: int|
        0 <= i < facts.len() && 0 <= j < facts[i]@.len() ==> derivable(
            p,
            entry,
            p.nodes@[i].id@,
            (#[trigger] facts[i]@[j])@,
        )
}

spec fn worklist_ok(p: ProcedureIr, facts: Seq<Vec<Fact>>, wl: Seq<(usize, Fact)>) -> bool {
    &&& forall|k: int|
        0 <= k < wl.len() ==> (#[trigger] wl[k]).0 < p.nodes.len() && facts_view(
            facts[wl[k].0 as int]@,
        ).contains(wl[k].1@)
    &&& forall|a: int, b: int|
        0 <= a < b < wl.len() ==> !((#[trigger] wl[a]).0 == (#[trigger] wl[b]).0 && wl[a].1@
            == wl[b].1@)
}

/// Popping a state keeps the worklist well formed, and every other known
/// state stays closed unless queued.
proof fn lemma_pop_state(
    p: ProcedureIr,
    facts: Seq<Vec<Fact>>,
    wl_full: Seq<(usize, Fact)>,
    wl: Seq<(usize, Fact)>,
    fifo: bool,
    i: usize,
    fact: Fact,
)
    requires
        worklist_ok(p, facts, wl_full),
        closed_outside(p, facts, wl_full, None),
        wl_full.len() > 0,
        fifo ==> wl_full[0] == (i, fact) && wl == wl_full.subrange(1, wl_full.len() as int),
        !fifo ==> wl_full[wl_full.len() - 1] == (i, fact) && wl == wl_full.subrange(
            0,
            wl_full.len() as int - 1,
        ),
    ensures
        i < p.nodes.len() && facts_view(facts[i as int]@).contains(fact@),
        !in_worklist(wl, i as int, fact@),
        worklist_ok(p, facts, wl),
        closed_outside(p, facts, wl, Some((i as int, fact@))),
{
    // The popped state is no longer queued, and is known.
    let c = if fifo {
        0int
    } else {
        wl_full.len() - 1
    };
    assert(wl_full[c] == (i, fact));
    assert(i < p.nodes.len() && facts_view(facts[i as int]@).contains(fact@));
    assert(!in_worklist(wl, i as int, fact@)) by {
        if in_worklist(wl, i as int, fact@) {
            let d = choose|d: int|
                0 <= d < wl.len() && (#[trigger] wl[d]).0 == i
                    && wl[d].1@ == fact@;
            let d2 = if fifo {
                d + 1
            } else {
                d
            };
            assert(wl[d] == wl_full[d2]);
            if c < d2 {
                assert(!((wl_full[c]).0 == (wl_full[d2]).0 && wl_full[c].1@ == wl_full[d2].1@));
            } else {
                assert(!((wl_full[d2]).0 == (wl_full[c]).0 && wl_full[d2].1@ == wl_full[c].1@));
            }
        }
    }
    assert(worklist_ok(p, facts, wl)) by {
        assert forall|c2: int| 0 <= c2 < wl.len() implies (#[trigger] wl[c2]).0
            < p.nodes.len() && facts_view(facts[wl[c2].0 as int]@).contains(
            wl[c2].1@,
        ) by {
            let d2 = if fifo {
                c2 + 1
            } else {
                c2
            };
            assert(wl[c2] == wl_full[d2]);
        }
        assert forall|a: int, b: int|
            0 <= a < b < wl.len() implies !((#[trigger] wl[a]).0 == (
            #[trigger] wl[b]).0 && wl[a].1@ == wl[b].1@) by {
            if fifo {
                assert(wl[a] == wl_full[a + 1]);
                assert(wl[b] == wl_full[b + 1]);
            } else {
                assert(wl[a] == wl_full[a]);
                assert(wl[b] == wl_full[b]);
            }
        }
    }
    assert(closed_outside(p, facts, wl, Some((i as int, fact@)))) by {
        assert forall|a: int, f: FactView|
            0 <= a < p.nodes.len() && #[trigger] facts_view(facts[a]@).contains(f)
                && !in_worklist(wl, a, f) && Some((i as int, fact@)) != Some(
                (a, f),
            ) implies state_closed(p, facts, a, f) by {
            if in_worklist(wl_full, a, f) {
                let d = choose|d: int|
                    0 <= d < wl_full.len() && (#[trigger] wl_full[d]).0 == a
                        && wl_full[d].1@ == f;
                if d != c {
                    let d2 = if fifo {
                        d - 1
                    } else {
                        d
                    };
                    assert(wl[d2] == wl_full[d]);
                }
            }
        }
    }
}

spec fn grows(old_facts: Seq<Vec<Fact>>, new_facts: Seq<Vec<Fact>>) -> bool {
    &&& old_facts.len() == new_facts.len()
    &&& forall|t: int|
        0 <= t < old_facts.len() ==> facts_view(old_facts[t]@).subset_of(
            #[trigger] facts_view(new_facts[t]@),
        )
}

pub open spec fn preds_ok(p: ProcedureIr, entry: Set<FactView>, preds: Seq<FactPredecessor>) -> bool {
    forall|q: int|
        0 <= q < preds.len() ==> {
            &&& flow_step(
                p,
                (#[trigger] preds[q]).source.node@,
                preds[q].source.fact@,
                preds[q].destination.node@,
                preds[q].destination.fact@,
            )
            &&& derivable(p, entry, preds[q].source.node@, preds[q].source.fact@)
        }
}

pub open spec fn evidence_ok(p: ProcedureIr, entry: Set<FactView>, ev: Seq<TransferEvidence>) -> bool {
    forall|q: int|
        0 <= q < ev.len() ==> exists|i: int, f: Fact|
            0 <= i < p.nodes.len() && derivable(p, entry, p.nodes@[i].id@, f@) && evidence_spec(
                p.nodes@[i].id,
                p.nodes@[i].operation,
                f,
            ) == Some(#[trigger] ev[q])
}

// ---------------------------------------------------------------------------
// Lemmas.

proof fn lemma_has_fact_grows(
    p: ProcedureIr,
    old_facts: Seq<Vec<Fact>>,
    new_facts: Seq<Vec<Fact>>,
    m: LocalIdView,
    g: FactView,
)
    requires
        grows(old_facts, new_facts),
        old_facts.len() == p.nodes.len(),
        has_fact(p, old_facts, m, g),
    ensures
        has_fact(p, new_facts, m, g),
{
    let t = choose|t: int|
        0 <= t < p.nodes.len() && (#[trigger] p.nodes@[t]).id@ == m && facts_view(
            old_facts[t]@,
        ).contains(g);
    assert(facts_view(old_facts[t]@).subset_of(facts_view(new_facts[t]@)));
}

proof fn lemma_state_closed_grows(
    p: ProcedureIr,
    old_facts: Seq<Vec<Fact>>,
    new_facts: Seq<Vec<Fact>>,
    i: int,
    f: FactView,
)
    requires
        grows(old_facts, new_facts),
        old_facts.len() == p.nodes.len(),
        state_closed(p, old_facts, i, f),
    ensures
        state_closed(p, new_facts, i, f),
{
    assert forall|e: int|
        0 <= e < p.edges.len() && (#[trigger] p.edges@[e]).source@ == p.nodes@[i].id@
            && intraprocedural(p.edges@[e].kind) implies edge_closed(p, new_facts, e, i, f) by {
        assert forall|g: FactView|
            #[trigger] transfer_spec(p.nodes@[i].operation, f).contains(g) implies has_fact(
            p,
            new_facts,
            p.edges@[e].target@,
            g,
        ) by {
            lemma_has_fact_grows(p, old_facts, new_facts, p.edges@[e].target@, g);
        }
    }
}

proof fn lemma_grows_transitive(a: Seq<Vec<Fact>>, b: Seq<Vec<Fact>>, c: Seq<Vec<Fact>>)
    requires
        grows(a, b),
        grows(b, c),
    ensures
        grows(a, c),
{
    assert forall|t: int| 0 <= t < a.len() implies facts_view(a[t]@).subset_of(
        #[trigger] facts_view(c[t]@),
    ) by {
        assert(facts_view(a[t]@).subset_of(facts_view(b[t]@)));
        assert(facts_view(b[t]@).subset_of(facts_view(c[t]@)));
    }
}

pub(crate) proof fn lemma_step_derivable(
    p: ProcedureIr,
    entry: Set<FactView>,
    i: int,
    f: FactView,
    e: int,
    t: int,
    g: FactView,
)
    requires
        0 <= i < p.nodes.len(),
        0 <= t < p.nodes.len(),
        0 <= e < p.edges.len(),
        p.edges@[e].source@ == p.nodes@[i].id@,
        p.edges@[e].target@ == p.nodes@[t].id@,
        intraprocedural(p.edges@[e].kind),
        transfer_spec(p.nodes@[i].operation, f).contains(g),
        derivable(p, entry, p.nodes@[i].id@, f),
    ensures
        derivable(p, entry, p.nodes@[t].id@, g),
        flow_step(p, p.nodes@[i].id@, f, p.nodes@[t].id@, g),
{
    let path = choose|path: Seq<(LocalIdView, FactView)>|
        #[trigger] derivation(p, entry, path) && path.last() == (p.nodes@[i].id@, f);
    let _ = p.edges@[e];
    let _ = p.nodes@[i];
    assert(flow_step(p, p.nodes@[i].id@, f, p.nodes@[t].id@, g));
    let next = path.push((p.nodes@[t].id@, g));
    assert forall|j: int| 0 <= j < next.len() - 1 implies #[trigger] step_at(p, next, j) by {
        if j < path.len() - 1 {
            assert(step_at(p, path, j));
            assert(next[j] == path[j] && next[j + 1] == path[j + 1]);
        } else {
            assert(next[j] == path.last());
        }
    }
    assert(derivation(p, entry, next));
    assert(next.last() == (p.nodes@[t].id@, g));
}

proof fn lemma_closed_complete(
    p: ProcedureIr,
    entry: Set<FactView>,
    facts: Seq<Vec<Fact>>,
    entry_index: int,
    path: Seq<(LocalIdView, FactView)>,
    j: int,
)
    requires
        node_ids_unique(p),
        facts.len() == p.nodes.len(),
        0 <= entry_index < p.nodes.len(),
        p.nodes@[entry_index].id@ == p.entry@,
        entry.subset_of(facts_view(facts[entry_index]@)),
        forall|i: int, f: FactView|
            0 <= i < p.nodes.len() && #[trigger] facts_view(facts[i]@).contains(f) ==> state_closed(
                p,
                facts,
                i,
                f,
            ),
        derivation(p, entry, path),
        0 <= j < path.len(),
    ensures
        has_fact(p, facts, path[j].0, path[j].1),
    decreases j,
{
    if j == 0 {
        let _ = p.nodes@[entry_index];
        assert(facts_view(facts[entry_index]@).contains(path[0].1));
    } else {
        lemma_closed_complete(p, entry, facts, entry_index, path, j - 1);
        let n = path[j - 1].0;
        let f = path[j - 1].1;
        let m = path[j].0;
        let g = path[j].1;
        assert(step_at(p, path, j - 1));
        let t = choose|t: int|
            0 <= t < p.nodes.len() && (#[trigger] p.nodes@[t]).id@ == n && facts_view(
                facts[t]@,
            ).contains(f);
        let (e, i) = choose|e: int, i: int|
            #![trigger p.edges@[e], p.nodes@[i]]
            0 <= e < p.edges.len() && 0 <= i < p.nodes.len() && p.edges@[e].source@ == n
                && p.edges@[e].target@ == m && intraprocedural(p.edges@[e].kind) && p.nodes@[i].id@
                == n && transfer_spec(p.nodes@[i].operation, f).contains(g);
        if i != t {
            if i < t {
                assert(p.nodes@[i].id@ != p.nodes@[t].id@);
            } else {
                assert(p.nodes@[t].id@ != p.nodes@[i].id@);
            }
        }
        assert(state_closed(p, facts, t, f));
        assert(edge_closed(p, facts, e, t, f));
    }
}

// ---------------------------------------------------------------------------
// Helpers.

pub fn is_intraprocedural_edge(kind: &EdgeKind) -> (res: bool)
    ensures
        res == intraprocedural(*kind),
{
    match kind {
        EdgeKind::Normal | EdgeKind::Branch { .. } | EdgeKind::LoopBack => true,
        _ => false,
    }
}

fn saturating_mul(a: u64, b: u64) -> (res: u64)
    ensures
        res == if a * b > u64::MAX {
            u64::MAX as int
        } else {
            a * b
        },
{
    match a.checked_mul(b) {
        Some(v) => v,
        None => u64::MAX,
    }
}

/// The deterministic memory estimate: fixed charges per retained state,
/// predecessor, evidence item, unsupported flow and worklist entry, saturating.
pub open spec fn memory_estimate(
    states: u64,
    predecessors: u64,
    evidence: u64,
    unsupported: u64,
    worklist: u64,
) -> int {
    let sat = |x: int| if x > u64::MAX {
        u64::MAX as int
    } else {
        x
    };
    sat(
        sat(
            sat(sat(sat(states * 256) + sat(predecessors * 384)) + sat(evidence * 256)) + sat(
                unsupported * 256,
            ),
        ) + sat(worklist * 64),
    )
}

fn as_u64(n: usize) -> (res: u64)
    ensures
        res == n,
{
    n as u64
}

fn refresh_memory_accounting(
    counters: &mut SolverCounters,
    predecessors: usize,
    evidence: usize,
    unsupported: usize,
    worklist: usize,
)
    ensures
        final(counters).processed_path_edges == old(counters).processed_path_edges,
        final(counters).discovered_states == old(counters).discovered_states,
        final(counters).accounted_memory_bytes == memory_estimate(
            old(counters).discovered_states,
            predecessors as u64,
            evidence as u64,
            unsupported as u64,
            worklist as u64,
        ),
{
    let total = saturating_mul(counters.discovered_states, 256).saturating_add(
        saturating_mul(as_u64(predecessors), 384),
    ).saturating_add(saturating_mul(as_u64(evidence), 256)).saturating_add(
        saturating_mul(as_u64(unsupported), 256),
    ).saturating_add(saturating_mul(as_u64(worklist), 64));
    counters.accounted_memory_bytes = total;
}

fn sample_resources<C: SolverControl>(control: &C, counters: &SolverCounters) -> (res: (u64, u64))
    ensures
        control.clock_stopped() ==> res.0 == 0,
{
    (control.elapsed_ms(), control.memory_bytes(counters))
}

/// Time is checked before memory; a limit is reached when the observation
/// is at least the configured value.
pub open spec fn limit_reason_spec(limits: AnalysisLimits, elapsed: u64, memory: u64) -> Option<
    LimitReason,
> {
    if elapsed >= limits.time_ms {
        Some(LimitReason { kind: AnalysisLimitKind::Time, limit: limits.time_ms, observed: elapsed })
    } else if memory >= limits.memory_bytes {
        Some(
            LimitReason {
                kind: AnalysisLimitKind::Memory,
                limit: limits.memory_bytes,
                observed: memory,
            },
        )
    } else {
        None
    }
}

/// What a limit that ends a run records: the configured limit of its kind
/// and what was observed against it. Time and memory end a run once the
/// control's sample reaches the limit; processed path edges end it when one
/// more edge would pass the limit, so exactly the limit was processed; output
/// nodes end it when more nodes hold facts than the limit allows.
pub open spec fn limit_reason_ok(limits: AnalysisLimits, r: LimitReason, processed: u64) -> bool {
    match r.kind {
        AnalysisLimitKind::Time => r.limit == limits.time_ms && r.observed >= r.limit,
        AnalysisLimitKind::Memory => r.limit == limits.memory_bytes && r.observed >= r.limit,
        AnalysisLimitKind::ProcessedPathEdges => r.limit == limits.processed_path_edges
            && r.observed == r.limit && processed == r.limit,
        AnalysisLimitKind::OutputNodes => r.limit == limits.output_nodes && r.observed > r.limit,
        AnalysisLimitKind::WitnessesPerRelation => false,
    }
}

/// What the control allows an ending to be: no cancellation from a control
/// that never cancels, and no time limit from a stopped clock while the
/// time limit is above zero.
pub open spec fn control_allows<C: SolverControl>(control: C, limits: AnalysisLimits, t: SolverTermination) -> bool {
    &&& control.never_cancels() ==> !(t is Cancelled)
    &&& control.clock_stopped() && limits.time_ms > 0 ==> !(t matches SolverTermination::LimitExceeded(r)
        && r.kind == AnalysisLimitKind::Time)
}

/// A run ends short of a fixed point only by cancellation or by a limit that
/// `limit_reason_ok` accounts for.
pub open spec fn termination_ok(limits: AnalysisLimits, t: SolverTermination, processed: u64) -> bool {
    t matches SolverTermination::LimitExceeded(r) ==> limit_reason_ok(limits, r, processed)
}

pub fn resource_limit_reason(limits: &AnalysisLimits, elapsed_ms: u64, memory_bytes: u64) -> (res:
    Option<LimitReason>)
    ensures
        res == limit_reason_spec(*limits, elapsed_ms, memory_bytes),
{
    if elapsed_ms >= limits.time_ms {
        return Some(
            LimitReason { kind: AnalysisLimitKind::Time, limit: limits.time_ms, observed: elapsed_ms },
        );
    }
    if memory_bytes >= limits.memory_bytes {
        Some(
            LimitReason {
                kind: AnalysisLimitKind::Memory,
                limit: limits.memory_bytes,
                observed: memory_bytes,
            },
        )
    } else {
        None
    }
}

/// Records one diagnostic and one frontier for a boundary at `node`, whose
/// effects reach downstream.
fn record_boundary(
    node: &NodeId,
    span: Option<SourceSpan>,
    code: DiagnosticCode,
    next_operation: String,
    message: String,
    diagnostics: &mut Vec<Diagnostic>,
    frontiers: &mut Vec<UnknownFrontier>,
)
    ensures
        exists|d: int|
            0 <= d < final(diagnostics)@.len() && (#[trigger] final(diagnostics)@[d]).code == code
                && (final(diagnostics)@[d].frontier matches Some(x) && x@ == node@),
        exists|u: int|
            0 <= u < final(frontiers)@.len() && (#[trigger] final(frontiers)@[u]).node@ == node@
                && final(frontiers)@[u].diagnostic == code && final(frontiers)@[u].affected_direction
                == Direction::Downstream,
        old(diagnostics)@.len() <= final(diagnostics)@.len(),
        forall|d: int| 0 <= d < old(diagnostics)@.len() ==> final(diagnostics)@[d] == old(diagnostics)@[d],
{
    proof {
        reveal_strlit("downstream");
    }
    let diagnostic = Diagnostic {
        code,
        message,
        snapshot: Some(node.snapshot.clone()),
        frontier: Some(node.clone()),
        span,
        affected_flows: vec!["downstream".to_owned()],
    };
    let ghost d0 = diagnostic;
    insert_diagnostic(diagnostics, diagnostic);
    proof {
        if exists|i: int| 0 <= i < old(diagnostics)@.len() && crate::ifds::model::diagnostic_same(
            old(diagnostics)@[i],
            d0,
        ) {
            let i = choose|i: int|
                0 <= i < old(diagnostics)@.len() && crate::ifds::model::diagnostic_same(
                    old(diagnostics)@[i],
                    d0,
                );
            assert(diagnostics@[i].code == code);
            assert(diagnostics@[i].frontier matches Some(x) && x@ == node@);
        } else {
            assert(diagnostics@[diagnostics@.len() - 1] == d0);
        }
    }
    let frontier = UnknownFrontier {
        node: node.clone(),
        next_operation,
        diagnostic: code,
        affected_direction: Direction::Downstream,
    };
    let ghost u0 = frontier;
    insert_frontier(frontiers, frontier);
    proof {
        if exists|i: int| 0 <= i < old(frontiers)@.len() && crate::ifds::model::frontier_same(
            old(frontiers)@[i],
            u0,
        ) {
            let i = choose|i: int|
                0 <= i < old(frontiers)@.len() && crate::ifds::model::frontier_same(
                    old(frontiers)@[i],
                    u0,
                );
            assert(frontiers@[i].node@ == node@);
        } else {
            assert(frontiers@[frontiers@.len() - 1] == u0);
        }
    }
}



fn record_unsupported_operation(
    procedure: &ProcedureIr,
    node: usize,
    operation: UnsupportedTransferKind,
    diagnostics: &mut Vec<Diagnostic>,
    frontiers: &mut Vec<UnknownFrontier>,
)
    requires
        node < procedure.nodes.len(),
    ensures
        exists|u: int|
            0 <= u < final(frontiers)@.len() && (#[trigger] final(frontiers)@[u]).node@
                == procedure.nodes@[node as int].id@ && final(frontiers)@[u].affected_direction
                == Direction::Downstream,
{
    let ir_node = &procedure.nodes[node];
    let (code, next_operation, message) = match operation {
        UnsupportedTransferKind::Call => (
            DiagnosticCode::UnresolvedCall,
            "unresolved call".to_owned(),
            "call target or effects are not modeled".to_owned(),
        ),
        UnsupportedTransferKind::UnknownEffect => {
            let description = match &ir_node.operation {
                Operation::UnknownEffect { description, .. } => description.clone(),
                _ => "unknown effect".to_owned(),
            };
            (DiagnosticCode::UnsupportedSyntax, description.clone(), description)
        },
    };
    let span = match &ir_node.span {
        Some(s) => Some(s.clone()),
        None => None,
    };
    record_boundary(&ir_node.id, span, code, next_operation, message, diagnostics, frontiers);
}

fn record_unsupported_edge(
    procedure: &ProcedureIr,
    edge: &IrEdge,
    diagnostics: &mut Vec<Diagnostic>,
    frontiers: &mut Vec<UnknownFrontier>,
)
    requires
        !intraprocedural(edge.kind),
    ensures
        exists|u: int|
            0 <= u < final(frontiers)@.len() && (#[trigger] final(frontiers)@[u]).node@
                == edge.source@ && final(frontiers)@[u].affected_direction == Direction::Downstream,
{
    let (code, description) = match edge.kind {
        EdgeKind::Call { .. } | EdgeKind::Return { .. } | EdgeKind::CallBypass { .. } => (
            DiagnosticCode::UnresolvedCall,
            "unresolved call flow",
        ),
        EdgeKind::Deferred => (DiagnosticCode::UnknownSchedule, "deferred flow"),
        _ => (DiagnosticCode::UnsupportedSyntax, "exceptional flow"),
    };
    let span = match &edge.construct {
        Some(s) => Some(s.clone()),
        None => match find_node(procedure, &edge.source) {
            Some(index) => match &procedure.nodes[index].span {
                Some(s) => Some(s.clone()),
                None => None,
            },
            None => None,
        },
    };
    let message = String::from_str(description).concat(" is not modeled by the intraprocedural solver");
    record_boundary(
        &edge.source,
        span,
        code,
        String::from_str(description),
        message,
        diagnostics,
        frontiers,
    );
}

fn record_limit_boundary(
    procedure: &ProcedureIr,
    node: usize,
    reason: &LimitReason,
    diagnostics: &mut Vec<Diagnostic>,
    frontiers: &mut Vec<UnknownFrontier>,
)
    requires
        node < procedure.nodes.len(),
    ensures
        exists|d: int|
            0 <= d < final(diagnostics)@.len() && (#[trigger] final(diagnostics)@[d]).code
                == DiagnosticCode::AnalysisBudgetExceeded,
{
    let description = String::from_str(reason.kind.as_str()).concat(" limit");
    let message = description.clone().concat(" reached: observed ").concat(
        reason.observed.to_string().as_str(),
    ).concat(", configured ").concat(reason.limit.to_string().as_str());
    let span = match &procedure.nodes[node].span {
        Some(s) => Some(s.clone()),
        None => None,
    };
    record_boundary(
        &procedure.nodes[node].id,
        span,
        DiagnosticCode::AnalysisBudgetExceeded,
        description,
        message,
        diagnostics,
        frontiers,
    );
}

/// Inserts every transferred fact at the target of one edge, recording a
/// predecessor for each and queueing the states that are new.
#[verifier::rlimit(50)]
fn propagate(
    p: &ProcedureIr,
    entry: Ghost<Set<FactView>>,
    i: usize,
    fact: &Fact,
    e: usize,
    t: usize,
    transferred: &Vec<Fact>,
    facts: &mut Vec<Vec<Fact>>,
    visited: &mut Vec<bool>,
    worklist: &mut VecDeque<(usize, Fact)>,
    predecessors: &mut Vec<FactPredecessor>,
    counters: &mut SolverCounters,
    except: Ghost<Option<(int, FactView)>>,
)
    requires
        i < p.nodes.len(),
        t < p.nodes.len(),
        e < p.edges.len(),
        p.edges@[e as int].source@ == p.nodes@[i as int].id@,
        p.edges@[e as int].target@ == p.nodes@[t as int].id@,
        intraprocedural(p.edges@[e as int].kind),
        facts_view(transferred@) == transfer_spec(p.nodes@[i as int].operation, fact@),
        derivable(*p, entry@, p.nodes@[i as int].id@, fact@),
        old(facts)@.len() == p.nodes.len(),
        old(visited)@.len() == p.nodes.len(),
        forall|u: int| 0 <= u < p.nodes.len() && old(facts)@[u]@.len() > 0 ==> old(visited)@[u],
        all_sound(*p, entry@, old(facts)@),
        worklist_ok(*p, old(facts)@, old(worklist)@),
        closed_outside(*p, old(facts)@, old(worklist)@, except@),
        preds_ok(*p, entry@, old(predecessors)@),
    ensures
        final(facts)@.len() == p.nodes.len(),
        final(visited)@.len() == p.nodes.len(),
        forall|u: int| 0 <= u < p.nodes.len() && final(facts)@[u]@.len() > 0 ==> final(visited)@[u],
        forall|u: int| 0 <= u < p.nodes.len() && old(visited)@[u] ==> final(visited)@[u],
        grows(old(facts)@, final(facts)@),
        all_sound(*p, entry@, final(facts)@),
        worklist_ok(*p, final(facts)@, final(worklist)@),
        closed_outside(*p, final(facts)@, final(worklist)@, except@),
        preds_ok(*p, entry@, final(predecessors)@),
        edge_closed(*p, final(facts)@, e as int, i as int, fact@),
        final(worklist)@.len() >= old(worklist)@.len(),
        final(worklist)@.subrange(0, old(worklist)@.len() as int) == old(worklist)@,
        forall|c: int|
            old(worklist)@.len() <= c < final(worklist)@.len() ==> !facts_view(
                old(facts)@[(#[trigger] final(worklist)@[c]).0 as int]@,
            ).contains(final(worklist)@[c].1@),
        final(counters).processed_path_edges == old(counters).processed_path_edges,
{
    let ghost facts0 = facts@;
    let ghost wl0 = worklist@;
    let ghost tr = transfer_spec(p.nodes@[i as int].operation, fact@);
    let mut k: usize = 0;
    while k < transferred.len()
        invariant
            i < p.nodes.len(),
            t < p.nodes.len(),
            e < p.edges.len(),
            p.edges@[e as int].source@ == p.nodes@[i as int].id@,
            p.edges@[e as int].target@ == p.nodes@[t as int].id@,
            intraprocedural(p.edges@[e as int].kind),
            facts_view(transferred@) == tr,
            tr == transfer_spec(p.nodes@[i as int].operation, fact@),
            derivable(*p, entry@, p.nodes@[i as int].id@, fact@),
            k <= transferred.len(),
            facts@.len() == p.nodes.len(),
            visited@.len() == p.nodes.len(),
            forall|u: int| 0 <= u < p.nodes.len() && facts@[u]@.len() > 0 ==> visited@[u],
            forall|u: int| 0 <= u < p.nodes.len() && old(visited)@[u] ==> visited@[u],
            grows(facts0, facts@),
            facts0 == old(facts)@,
            wl0 == old(worklist)@,
            all_sound(*p, entry@, facts@),
            worklist_ok(*p, facts@, worklist@),
            closed_outside(*p, facts@, worklist@, except@),
            preds_ok(*p, entry@, predecessors@),
            forall|c: int| 0 <= c < k ==> facts_view(facts@[t as int]@).contains(
                #[trigger] transferred@[c]@,
            ),
            worklist@.len() >= wl0.len(),
            worklist@.subrange(0, wl0.len() as int) == wl0,
            forall|c: int|
                wl0.len() <= c < worklist@.len() ==> !facts_view(
                    facts0[(#[trigger] worklist@[c]).0 as int]@,
                ).contains(worklist@[c].1@),
            counters.processed_path_edges == old(counters).processed_path_edges,
        decreases transferred.len() - k,
    {
        let g = &transferred[k];
        assert(tr.contains(g@)) by {
            assert(facts_view(transferred@).contains(g@));
        }
        proof {
            lemma_step_derivable(*p, entry@, i as int, fact@, e as int, t as int, g@);
        }
        let ghost preds_before = predecessors@;
        predecessors.push(
            FactPredecessor {
                source: FactState { node: p.nodes[i].id.clone(), fact: fact.clone() },
                edge: p.edges[e].clone(),
                destination: FactState { node: p.nodes[t].id.clone(), fact: g.clone() },
            },
        );
        let ghost facts_before = facts@;
        let ghost wl_before = worklist@;
        let mut row = facts[t].clone();
        assert(row@ =~= facts@[t as int]@);
        let added = insert_fact(&mut row, g.clone());
        facts.set(t, row);
        visited.set(t, true);
        if added {
            counters.discovered_states = counters.discovered_states.saturating_add(1);
            worklist.push_back((t, g.clone()));
        }
        proof {
            assert(grows(facts_before, facts@)) by {
                assert forall|u: int| 0 <= u < facts_before.len() implies facts_view(
                    facts_before[u]@,
                ).subset_of(#[trigger] facts_view(facts@[u]@)) by {
                    if u != t {
                        assert(facts@[u] == facts_before[u]);
                    }
                }
            }
            assert(grows(facts0, facts@)) by {
                assert forall|u: int| 0 <= u < facts0.len() implies facts_view(facts0[u]@).subset_of(
                    #[trigger] facts_view(facts@[u]@),
                ) by {
                    assert(facts_view(facts0[u]@).subset_of(facts_view(facts_before[u]@)));
                    assert(facts_view(facts_before[u]@).subset_of(facts_view(facts@[u]@)));
                }
            }
            // soundness of the new row
            assert(all_sound(*p, entry@, facts@)) by {
                assert forall|a: int, b: int|
                    0 <= a < facts@.len() && 0 <= b < facts@[a]@.len() implies derivable(
                    *p,
                    entry@,
                    p.nodes@[a].id@,
                    (#[trigger] facts@[a]@[b])@,
                ) by {
                    if a == t {
                        if added && b == facts_before[t as int]@.len() {
                            assert(facts@[a]@[b] == *g);
                        } else {
                            assert(facts@[a]@[b] == facts_before[a]@[b]);
                        }
                    } else {
                        assert(facts@[a] == facts_before[a]);
                    }
                }
            }
            assert(worklist_ok(*p, facts@, worklist@)) by {
                assert forall|c: int| 0 <= c < worklist@.len() implies (#[trigger] worklist@[c]).0
                    < p.nodes.len() && facts_view(facts@[worklist@[c].0 as int]@).contains(
                    worklist@[c].1@,
                ) by {
                    if c < wl_before.len() {
                        assert(worklist@[c] == wl_before[c]);
                        assert(facts_view(facts_before[worklist@[c].0 as int]@).subset_of(
                            facts_view(facts@[worklist@[c].0 as int]@),
                        ));
                    }
                }
                assert forall|a: int, b: int|
                    0 <= a < b < worklist@.len() implies !((#[trigger] worklist@[a]).0 == (
                    #[trigger] worklist@[b]).0 && worklist@[a].1@ == worklist@[b].1@) by {
                    if b == wl_before.len() && added {
                        assert(worklist@[a] == wl_before[a]);
                        assert(facts_view(facts_before[wl_before[a].0 as int]@).contains(
                            wl_before[a].1@,
                        ));
                    } else {
                        assert(worklist@[a] == wl_before[a]);
                        assert(worklist@[b] == wl_before[b]);
                    }
                }
            }
            assert(closed_outside(*p, facts@, worklist@, except@)) by {
                assert forall|a: int, f: FactView|
                    0 <= a < p.nodes.len() && #[trigger] facts_view(facts@[a]@).contains(f)
                        && !in_worklist(worklist@, a, f) && except@ != Some(
                        (a, f),
                    ) implies state_closed(*p, facts@, a, f) by {
                    if a == t && f == g@ && added {
                        assert(worklist@[worklist@.len() - 1] == (t, *g));
                        assert(in_worklist(worklist@, a, f));
                    } else {
                        assert(facts_view(facts_before[a]@).contains(f));
                        if in_worklist(wl_before, a, f) {
                            let c = choose|c: int|
                                0 <= c < wl_before.len() && (#[trigger] wl_before[c]).0 == a
                                    && wl_before[c].1@ == f;
                            assert(worklist@[c] == wl_before[c]);
                        }
                        lemma_state_closed_grows(*p, facts_before, facts@, a, f);
                    }
                }
            }
            assert(preds_ok(*p, entry@, predecessors@)) by {
                assert forall|q: int| 0 <= q < predecessors@.len() implies {
                    &&& flow_step(
                        *p,
                        (#[trigger] predecessors@[q]).source.node@,
                        predecessors@[q].source.fact@,
                        predecessors@[q].destination.node@,
                        predecessors@[q].destination.fact@,
                    )
                    &&& derivable(
                        *p,
                        entry@,
                        predecessors@[q].source.node@,
                        predecessors@[q].source.fact@,
                    )
                } by {
                    if q < predecessors@.len() - 1 {
                        assert(predecessors@[q] == preds_before[q]);
                    }
                }
            }
            assert forall|c: int| 0 <= c < k + 1 implies facts_view(facts@[t as int]@).contains(
                #[trigger] transferred@[c]@,
            ) by {
                if c < k {
                    assert(facts_view(facts_before[t as int]@).contains(transferred@[c]@));
                }
            }
            assert(worklist@.subrange(0, wl0.len() as int) =~= wl0) by {
                assert(wl_before.subrange(0, wl0.len() as int) == wl0);
                assert forall|c: int| 0 <= c < wl0.len() implies worklist@[c] == wl0[c] by {
                    assert(wl_before.subrange(0, wl0.len() as int)[c] == wl0[c]);
                }
            }
            assert forall|c: int|
                wl0.len() <= c < worklist@.len() implies !facts_view(
                    facts0[(#[trigger] worklist@[c]).0 as int]@,
                ).contains(worklist@[c].1@) by {
                if c < wl_before.len() {
                    assert(worklist@[c] == wl_before[c]);
                } else {
                    assert(worklist@[c] == (t, *g));
                    assert(facts_view(facts0[t as int]@).subset_of(facts_view(facts_before[t as int]@)));
                }
            }
        }
        k = k + 1;
    }
    proof {
        assert forall|g: FactView|
            #[trigger] transfer_spec(p.nodes@[i as int].operation, fact@).contains(g) implies has_fact(
            *p,
            facts@,
            p.edges@[e as int].target@,
            g,
        ) by {
            assert(facts_view(transferred@).contains(g));
            let c = choose|c: int| 0 <= c < transferred@.len() && transferred@[c]@ == g;
            let _ = p.nodes@[t as int];
            assert(facts_view(facts@[t as int]@).contains(transferred@[c]@));
        }
    }
}


/// The position in the edge list visited at step `ej` of a node's edge loop.
spec fn edge_at(order: WorklistOrder, count: int, ej: int) -> int {
    if order == WorklistOrder::Fifo {
        ej
    } else {
        count - 1 - ej
    }
}

/// The edge visited at step `ej` is closed for state `(i, f)` if it leaves `i`.
spec fn edge_done(
    p: ProcedureIr,
    facts: Seq<Vec<Fact>>,
    order: WorklistOrder,
    count: int,
    ej: int,
    i: int,
    f: FactView,
) -> bool {
    let e2 = edge_at(order, count, ej);
    (p.edges@[e2].source@ == p.nodes@[i].id@ && intraprocedural(p.edges@[e2].kind)) ==> edge_closed(
        p,
        facts,
        e2,
        i,
        f,
    )
}

fn next_worklist_node(worklist: &VecDeque<(usize, Fact)>, order: WorklistOrder) -> (res: usize)
    requires
        worklist@.len() > 0,
    ensures
        res == (if order == WorklistOrder::Fifo {
            worklist@[0].0
        } else {
            worklist@[worklist@.len() - 1].0
        }),
{
    match order {
        WorklistOrder::Fifo => worklist[0].0,
        WorklistOrder::Reverse => worklist[worklist.len() - 1].0,
    }
}

/// Whether the output keeps predecessors and evidence about reached states only.
pub open spec fn output_evidence_ok(p: ProcedureIr, entry: Set<FactView>, out: SolverOutput) -> bool {
    &&& preds_ok(p, entry, out.predecessors@)
    &&& evidence_ok(p, entry, out.evidence@)
}

/// A solver of a procedure's dataflow problem under a control.
pub trait Solver {
    fn solve<C: SolverControl>(&self, request: SolverRequest, control: &C) -> (res: Result<
        SolverOutput,
        SolverError,
    >)
        ensures
            res is Err <==> !ir_valid(*request.procedure),
    ;
}

impl Solver for IntraproceduralSolver {
    /// Solves with a first-in first-out worklist.
    fn solve<C: SolverControl>(&self, request: SolverRequest, control: &C) -> (res: Result<
        SolverOutput,
        SolverError,
    >)
        ensures
            res is Err <==> !ir_valid(*request.procedure),
            res matches Err(e) ==> e is InvalidIr,
            res matches Ok(out) ==> termination_ok(
                request.limits,
                out.termination,
                out.stats.processed_path_edges,
            ),
            res matches Ok(out) ==> control_allows(*control, request.limits, out.termination),
            res matches Ok(out) ==> solution_exact(
                *request.procedure,
                facts_view(request.entry_facts@),
                out,
            ),
            res matches Ok(out) ==> output_evidence_ok(
                *request.procedure,
                facts_view(request.entry_facts@),
                out,
            ),
            res matches Ok(out) ==> out.stats.processed_path_edges
                <= request.limits.processed_path_edges,
    {
        self.solve_with_order(request, control, WorklistOrder::Fifo)
    }
}

impl IntraproceduralSolver {
    pub fn new() -> Self {
        IntraproceduralSolver
    }


    /// Propagates the entry facts through the procedure's intraprocedural
    /// edges until no new fact appears, or until the control cancels or a
    /// limit is reached. Every listed fact is derivable; on a fixed point
    /// every derivable fact is listed.
    #[verifier::rlimit(100)]
    #[verifier::spinoff_prover]
    pub fn solve_with_order<C: SolverControl>(
        &self,
        request: SolverRequest,
        control: &C,
        order: WorklistOrder,
    ) -> (res: Result<SolverOutput, SolverError>)
        ensures
            res is Err <==> !ir_valid(*request.procedure),
            res matches Err(e) ==> e is InvalidIr,
            res matches Ok(out) ==> termination_ok(
                request.limits,
                out.termination,
                out.stats.processed_path_edges,
            ),
            res matches Ok(out) ==> control_allows(*control, request.limits, out.termination),
            res matches Ok(out) ==> solution_exact(
                *request.procedure,
                facts_view(request.entry_facts@),
                out,
            ),
            res matches Ok(out) ==> output_evidence_ok(
                *request.procedure,
                facts_view(request.entry_facts@),
                out,
            ),
            res matches Ok(out) ==> out.stats.processed_path_edges
                <= request.limits.processed_path_edges,
    {
        let p = request.procedure;
        if let Err(error) = p.validate() {
            return Err(
                SolverError::InvalidIr(
                    error.message(),
                ),
            );
        }
        let ghost entry = facts_view(request.entry_facts@);
        let limits = request.limits;
        let flows = ProcedureFlowFunctions::new(p);
        let n = p.nodes.len();
        let entry_index = match find_node(p, &p.entry) {
            Some(index) => index,
            None => {
                return Err(SolverError::Internal(String::from_str("entry node is missing")));
            },
        };
        // Per-node fact rows; `visited` marks the nodes the output lists.
        let mut facts: Vec<Vec<Fact>> = Vec::new();
        let mut visited: Vec<bool> = Vec::new();
        let mut u: usize = 0;
        while u < n
            invariant
                n == p.nodes.len(),
                u <= n,
                facts@.len() == u,
                visited@.len() == u,
                forall|a: int| 0 <= a < u ==> (#[trigger] facts@[a])@.len() == 0,
                forall|a: int| 0 <= a < u ==> !(#[trigger] visited@[a]),
            decreases n - u,
        {
            facts.push(Vec::new());
            visited.push(false);
            u = u + 1;
        }
        visited.set(entry_index, true);
        let mut worklist: VecDeque<(usize, Fact)> = VecDeque::new();
        let mut entry_row: Vec<Fact> = Vec::new();
        let mut k: usize = 0;
        while k < request.entry_facts.len()
            invariant
                k <= request.entry_facts.len(),
                entry_index < p.nodes.len(),
                forall|c: int| 0 <= c < k ==> facts_view(entry_row@).contains(
                    (#[trigger] request.entry_facts@[c])@,
                ),
                forall|j: int| 0 <= j < entry_row@.len() ==> entry.contains((#[trigger] entry_row@[j])@),
                forall|c: int|
                    0 <= c < worklist@.len() ==> (#[trigger] worklist@[c]).0 == entry_index
                        && facts_view(entry_row@).contains(worklist@[c].1@),
                forall|a: int, b: int|
                    0 <= a < b < worklist@.len() ==> (#[trigger] worklist@[a]).1@ != (
                    #[trigger] worklist@[b]).1@,
                forall|j: int|
                    0 <= j < entry_row@.len() ==> in_worklist(
                        worklist@,
                        entry_index as int,
                        (#[trigger] entry_row@[j])@,
                    ),
                entry == facts_view(request.entry_facts@),
            decreases request.entry_facts.len() - k,
        {
            let fact = &request.entry_facts[k];
            let ghost row_before = entry_row@;
            let ghost wl_before = worklist@;
            if insert_fact(&mut entry_row, fact.clone()) {
                worklist.push_back((entry_index, fact.clone()));
            }
            proof {
                assert(entry.contains(fact@)) by {
                    assert(request.entry_facts@[k as int] == *fact);
                }
                assert forall|c: int| 0 <= c < k + 1 implies facts_view(entry_row@).contains(
                    (#[trigger] request.entry_facts@[c])@,
                ) by {
                    if c < k {
                        assert(facts_view(row_before).contains(request.entry_facts@[c]@));
                    }
                }
                assert forall|c: int|
                    0 <= c < worklist@.len() implies (#[trigger] worklist@[c]).0 == entry_index
                        && facts_view(entry_row@).contains(worklist@[c].1@) by {
                    if c < wl_before.len() {
                        assert(worklist@[c] == wl_before[c]);
                        assert(facts_view(row_before).contains(wl_before[c].1@));
                    }
                }
                assert forall|a: int, b: int|
                    0 <= a < b < worklist@.len() implies (#[trigger] worklist@[a]).1@ != (
                    #[trigger] worklist@[b]).1@ by {
                    if b >= wl_before.len() {
                        assert(worklist@[a] == wl_before[a]);
                        assert(facts_view(row_before).contains(wl_before[a].1@));
                    } else {
                        assert(worklist@[a] == wl_before[a]);
                        assert(worklist@[b] == wl_before[b]);
                    }
                }
                assert forall|j: int|
                    0 <= j < entry_row@.len() implies in_worklist(
                    worklist@,
                    entry_index as int,
                    (#[trigger] entry_row@[j])@,
                ) by {
                    if j < row_before.len() {
                        assert(entry_row@[j] == row_before[j]);
                        let c = choose|c: int|
                            0 <= c < wl_before.len() && (#[trigger] wl_before[c]).0 == entry_index
                                && wl_before[c].1@ == row_before[j]@;
                        assert(worklist@[c] == wl_before[c]);
                    } else {
                        assert(worklist@[worklist@.len() - 1].1 == *fact);
                    }
                }
            }
            k = k + 1;
        }
        facts.set(entry_index, entry_row);
        proof {
            // Entry facts are derivable by a one-state derivation.
            assert(all_sound(*p, entry, facts@)) by {
                assert forall|a: int, b: int|
                    0 <= a < facts@.len() && 0 <= b < facts@[a]@.len() implies derivable(
                    *p,
                    entry,
                    p.nodes@[a].id@,
                    (#[trigger] facts@[a]@[b])@,
                ) by {
                    assert(a == entry_index);
                    let path = seq![(p.entry@, facts@[a]@[b]@)];
                    assert(derivation(*p, entry, path));
                }
            }
            assert(entry.subset_of(facts_view(facts@[entry_index as int]@))) by {
                assert forall|x: FactView| entry.contains(x) implies facts_view(
                    facts@[entry_index as int]@,
                ).contains(x) by {
                    let c = choose|c: int|
                        0 <= c < request.entry_facts@.len() && request.entry_facts@[c]@ == x;
                    assert(facts_view(entry_row@).contains(request.entry_facts@[c]@));
                }
            }
        }
        let mut counters = SolverCounters {
            processed_path_edges: 0,
            discovered_states: as_u64(worklist.len()),
            accounted_memory_bytes: 0,
        };
        let mut predecessors: Vec<FactPredecessor> = Vec::new();
        let mut evidence: Vec<TransferEvidence> = Vec::new();
        let mut unsupported: Vec<UnsupportedFlow> = Vec::new();
        let mut diagnostics: Vec<Diagnostic> = Vec::new();
        let mut unknown_frontiers: Vec<UnknownFrontier> = Vec::new();
        let mut coverage = Coverage::Complete;
        let mut termination: Option<SolverTermination> = None;
        let mut elapsed_ms: u64 = 0;
        let mut peak_memory_bytes: u64 = 0;
        refresh_memory_accounting(
            &mut counters,
            predecessors.len(),
            evidence.len(),
            unsupported.len(),
            worklist.len(),
        );
        loop
            invariant_except_break
                termination is None,
                closed_outside(*p, facts@, worklist@, None),
            invariant
                n == p.nodes.len(),
                ir_valid(*p),
                entry_index < n,
                p.nodes@[entry_index as int].id@ == p.entry@,
                entry == facts_view(request.entry_facts@),
                facts@.len() == n,
                visited@.len() == n,
                visited@[entry_index as int],
                forall|a: int| 0 <= a < n && facts@[a]@.len() > 0 ==> visited@[a],
                entry.subset_of(facts_view(facts@[entry_index as int]@)),
                all_sound(*p, entry, facts@),
                worklist_ok(*p, facts@, worklist@),
                preds_ok(*p, entry, predecessors@),
                evidence_ok(*p, entry, evidence@),
                counters.processed_path_edges <= limits.processed_path_edges,
                limits == request.limits,
                termination matches Some(t) ==> !(t is FixedPoint),
                termination matches Some(t) ==> termination_ok(limits, t, counters.processed_path_edges),
                termination matches Some(t) ==> control_allows(*control, limits, t),
            ensures
                termination is None ==> worklist@.len() == 0 && closed_outside(
                    *p,
                    facts@,
                    worklist@,
                    None,
                ),
            decreases limits.processed_path_edges - counters.processed_path_edges, worklist@.len(),
        {
            if worklist.len() == 0 {
                break;
            }
            if let Some(reason) = control.checkpoint(&counters) {
                termination = Some(SolverTermination::Cancelled(reason));
                break;
            }
            let (elapsed, memory) = sample_resources(control, &counters);
            if elapsed > elapsed_ms {
                elapsed_ms = elapsed;
            }
            if memory > peak_memory_bytes {
                peak_memory_bytes = memory;
            }
            if let Some(reason) = resource_limit_reason(&limits, elapsed, memory) {
                let frontier = next_worklist_node(&worklist, order);
                record_limit_boundary(p, frontier, &reason, &mut diagnostics, &mut unknown_frontiers);
                coverage = Coverage::Partial;
                termination = Some(SolverTermination::LimitExceeded(reason));
                break;
            }
            let ghost wl_full = worklist@;
            let popped = match order {
                WorklistOrder::Fifo => worklist.pop_front(),
                WorklistOrder::Reverse => worklist.pop_back(),
            };
            let (i, fact) = match popped {
                Some(state) => state,
                None => {
                    break;
                },
            };
            let ghost wl_after_pop = worklist@;
            let ghost processed_at_pop = counters.processed_path_edges;
            proof {
                lemma_pop_state(*p, facts@, wl_full, worklist@, order == WorklistOrder::Fifo, i, fact);
                let j = choose|j: int| 0 <= j < facts@[i as int]@.len() && facts@[i as int]@[j]@ == fact@;
                assert(derivable(*p, entry, p.nodes@[i as int].id@, facts@[i as int]@[j]@));
            }
            let ghost facts_at_pop = facts@;
            let outcome = process_state(
                p,
                Ghost(entry),
                control,
                &limits,
                order,
                i,
                &fact,
                &mut facts,
                &mut visited,
                &mut worklist,
                &mut predecessors,
                &mut evidence,
                &mut unsupported,
                &mut diagnostics,
                &mut unknown_frontiers,
                &mut counters,
                &mut coverage,
                &mut elapsed_ms,
                &mut peak_memory_bytes,
            );
            proof {
                assert(facts_view(facts_at_pop[entry_index as int]@).subset_of(
                    facts_view(facts@[entry_index as int]@),
                ));
            }
            if let Some(t) = outcome {
                termination = Some(t);
                break;
            }
        }
        // Final sample, unless a limit already ended the run.
        let limit_ended = match &termination {
            Some(SolverTermination::LimitExceeded(_)) => true,
            _ => false,
        };
        if !limit_ended {
            let (elapsed, memory) = sample_resources(control, &counters);
            if elapsed > elapsed_ms {
                elapsed_ms = elapsed;
            }
            if memory > peak_memory_bytes {
                peak_memory_bytes = memory;
            }
        }
        let reached_fixed_point = termination.is_none();
        let mut termination = match termination {
            Some(t) => t,
            None => SolverTermination::FixedPoint,
        };
        let mut limits_hit: Vec<String> = Vec::new();
        if let SolverTermination::LimitExceeded(reason) = &termination {
            limits_hit.push(String::from_str(reason.kind.as_str()));
        }
        proof {
            if reached_fixed_point {
                assert forall|a: int, f: FactView|
                    0 <= a < p.nodes.len() && #[trigger] facts_view(facts@[a]@).contains(f) implies state_closed(
                    *p,
                    facts@,
                    a,
                    f,
                ) by {
                    assert(!in_worklist(worklist@, a, f));
                }
            }
        }
        // Output-node budget: keep the first nodes with facts, in node order.
        let mut solved_graph_nodes: u64 = 0;
        let mut u: usize = 0;
        while u < n
            invariant
                u <= n,
                n == facts@.len(),
                solved_graph_nodes <= u,
            decreases n - u,
        {
            if facts[u].len() > 0 {
                solved_graph_nodes = solved_graph_nodes + 1;
            }
            u = u + 1;
        }
        let mut graph_truncated = false;
        let mut kept: Vec<bool> = Vec::new();
        let mut kept_count: u64 = 0;
        let mut omitted_frontier: Option<usize> = None;
        let mut u: usize = 0;
        while u < n
            invariant
                u <= n,
                n == facts@.len(),
                kept@.len() == u,
                kept_count <= u,
                solved_graph_nodes <= limits.output_nodes ==> forall|a: int| 0 <= a < u ==> #[trigger] kept@[a],
                forall|a: int| 0 <= a < u && facts@[a]@.len() == 0 ==> #[trigger] kept@[a],
                match omitted_frontier {
                    Some(o) => o < n,
                    None => true,
                },
            decreases n - u,
        {
            if solved_graph_nodes <= limits.output_nodes || facts[u].len() == 0 {
                kept.push(true);
            } else if kept_count < limits.output_nodes {
                kept.push(true);
                kept_count = kept_count + 1;
            } else {
                kept.push(false);
                if omitted_frontier.is_none() {
                    omitted_frontier = Some(u);
                }
            }
            u = u + 1;
        }
        if solved_graph_nodes > limits.output_nodes {
            graph_truncated = true;
            // Predecessors and evidence about omitted nodes are dropped.
            let mut retained: Vec<FactPredecessor> = Vec::new();
            let mut q: usize = 0;
            while q < predecessors.len()
                invariant
                    q <= predecessors.len(),
                    preds_ok(*p, entry, predecessors@),
                    preds_ok(*p, entry, retained@),
                    kept@.len() == n,
                    n == p.nodes.len(),
                decreases predecessors.len() - q,
            {
                let keep_source = match find_node(p, &predecessors[q].source.node) {
                    Some(a) => kept[a],
                    None => false,
                };
                let keep_destination = match find_node(p, &predecessors[q].destination.node) {
                    Some(a) => kept[a],
                    None => false,
                };
                if keep_source && keep_destination {
                    let ghost before = retained@;
                    retained.push(predecessors[q].clone());
                    proof {
                        assert forall|r: int| 0 <= r < retained@.len() implies {
                            &&& flow_step(
                                *p,
                                (#[trigger] retained@[r]).source.node@,
                                retained@[r].source.fact@,
                                retained@[r].destination.node@,
                                retained@[r].destination.fact@,
                            )
                            &&& derivable(
                                *p,
                                entry,
                                retained@[r].source.node@,
                                retained@[r].source.fact@,
                            )
                        } by {
                            if r < before.len() {
                                assert(retained@[r] == before[r]);
                            } else {
                                assert(retained@[r] == predecessors@[q as int]);
                            }
                        }
                    }
                }
                q = q + 1;
            }
            predecessors = retained;
            let mut retained_evidence: Vec<TransferEvidence> = Vec::new();
            let mut q: usize = 0;
            while q < evidence.len()
                invariant
                    q <= evidence.len(),
                    evidence_ok(*p, entry, evidence@),
                    evidence_ok(*p, entry, retained_evidence@),
                    kept@.len() == n,
                    n == p.nodes.len(),
                decreases evidence.len() - q,
            {
                let node = match &evidence[q] {
                    TransferEvidence::ReachingWrite { read, .. } => read,
                    TransferEvidence::OriginCopied { operation, .. } => operation,
                };
                let keep = match find_node(p, node) {
                    Some(a) => kept[a],
                    None => true,
                };
                if keep {
                    let ghost before = retained_evidence@;
                    retained_evidence.push(evidence[q].clone());
                    proof {
                        assert forall|r: int| 0 <= r < retained_evidence@.len() implies exists|a: int, f: Fact|
                            0 <= a < p.nodes.len() && derivable(*p, entry, p.nodes@[a].id@, f@)
                                && evidence_spec(p.nodes@[a].id, p.nodes@[a].operation, f) == Some(
                                #[trigger] retained_evidence@[r],
                            ) by {
                            if r < before.len() {
                                assert(retained_evidence@[r] == before[r]);
                            } else {
                                assert(retained_evidence@[r] == evidence@[q as int]);
                            }
                        }
                    }
                }
                q = q + 1;
            }
            evidence = retained_evidence;
            limits_hit.push(String::from_str(AnalysisLimitKind::OutputNodes.as_str()));
            coverage = Coverage::Partial;
            let reason = LimitReason {
                kind: AnalysisLimitKind::OutputNodes,
                limit: limits.output_nodes,
                observed: solved_graph_nodes,
            };
            if let SolverTermination::FixedPoint = termination {
                termination = SolverTermination::LimitExceeded(reason);
            }
            if let Some(frontier) = omitted_frontier {
                record_limit_boundary(p, frontier, &reason, &mut diagnostics, &mut unknown_frontiers);
            }
        }
        // The listed facts: every visited node that the budget kept.
        let mut facts_at: Vec<(NodeId, Vec<Fact>)> = Vec::new();
        let mut graph_nodes: u64 = 0;
        let mut u: usize = 0;
        while u < n
            invariant
                u <= n,
                n == p.nodes.len(),
                facts@.len() == n,
                visited@.len() == n,
                kept@.len() == n,
                graph_nodes <= u,
                all_sound(*p, entry, facts@),
                forall|k2: int, j: int|
                    0 <= k2 < facts_at@.len() && 0 <= j < facts_at@[k2].1@.len() ==> derivable(
                        *p,
                        entry,
                        (#[trigger] facts_at@[k2]).0@,
                        (#[trigger] facts_at@[k2].1@[j])@,
                    ),
                forall|a: int|
                    0 <= a < u && visited@[a] && kept@[a] ==> exists|k2: int|
                        0 <= k2 < facts_at@.len() && (#[trigger] facts_at@[k2]).0@ == p.nodes@[a].id@
                            && facts_at@[k2].1@ == facts@[a]@,
            decreases n - u,
        {
            if visited[u] && kept[u] {
                let ghost before = facts_at@;
                let row = facts[u].clone();
                assert(row@ =~= facts@[u as int]@);
                if row.len() > 0 {
                    graph_nodes = graph_nodes + 1;
                }
                facts_at.push((p.nodes[u].id.clone(), row));
                proof {
                    assert forall|k2: int, j: int|
                        0 <= k2 < facts_at@.len() && 0 <= j < facts_at@[k2].1@.len() implies derivable(
                        *p,
                        entry,
                        (#[trigger] facts_at@[k2]).0@,
                        (#[trigger] facts_at@[k2].1@[j])@,
                    ) by {
                        if k2 < before.len() {
                            assert(facts_at@[k2] == before[k2]);
                        } else {
                            assert(facts_at@[k2].1@[j] == facts@[u as int]@[j]);
                        }
                    }
                    assert forall|a: int|
                        0 <= a < u + 1 && visited@[a] && kept@[a] implies exists|k2: int|
                            0 <= k2 < facts_at@.len() && (#[trigger] facts_at@[k2]).0@
                                == p.nodes@[a].id@ && facts_at@[k2].1@ == facts@[a]@ by {
                        if a < u {
                            let k2 = choose|k2: int|
                                0 <= k2 < before.len() && (#[trigger] before[k2]).0@
                                    == p.nodes@[a].id@ && before[k2].1@ == facts@[a]@;
                            assert(facts_at@[k2] == before[k2]);
                        } else {
                            assert(facts_at@[facts_at@.len() - 1].0@ == p.nodes@[a].id@);
                        }
                    }
                }
            }
            u = u + 1;
        }
        let graph_edges = as_u64(predecessors.len());
        let out = SolverOutput {
            facts_at,
            predecessors,
            evidence,
            unsupported,
            termination,
            diagnostics,
            unknown_frontiers,
            region_completeness: vec![
                (AnalysisRegion { name: String::from_str("procedure"), direction: Direction::Downstream }, coverage),
            ],
            stats: AnalysisStats {
                elapsed_ms,
                peak_memory_bytes,
                processed_path_edges: counters.processed_path_edges,
                graph_nodes,
                graph_edges,
                witnesses_emitted: 0,
                witnesses_omitted: 0,
                limits_hit,
                graph_truncated,
                witnesses_truncated: false,
            },
        };
        proof {
            if out.termination is FixedPoint {
                assert(reached_fixed_point);
                assert(solved_graph_nodes <= limits.output_nodes);
                assert forall|m: LocalIdView, g: FactView| #[trigger] derivable(*p, entry, m, g) implies output_has(
                    out,
                    m,
                    g,
                ) by {
                    let path = choose|path: Seq<(LocalIdView, FactView)>|
                        #[trigger] derivation(*p, entry, path) && path.last() == (m, g);
                    lemma_closed_complete(
                        *p,
                        entry,
                        facts@,
                        entry_index as int,
                        path,
                        path.len() - 1,
                    );
                    let t = choose|t: int|
                        0 <= t < p.nodes.len() && (#[trigger] p.nodes@[t]).id@ == m && facts_view(
                            facts@[t]@,
                        ).contains(g);
                    assert(facts@[t]@.len() > 0);
                    assert(visited@[t] && kept@[t]);
                    let k2 = choose|k2: int|
                        0 <= k2 < out.facts_at@.len() && (#[trigger] out.facts_at@[k2]).0@
                            == p.nodes@[t].id@ && out.facts_at@[k2].1@ == facts@[t]@;
                    assert(out.facts_at@[k2].1@ == facts@[t]@);
                }
            }
        }
        Ok(out)
    }
}

/// Processes one state popped from the worklist: records its evidence,
/// transfers it through its operation, and propagates the result along every
/// outgoing intraprocedural edge. Returns how the run ended if the control
/// cancelled it or a limit was reached; otherwise the state is closed.
#[verifier::rlimit(100)]
fn process_state<C: SolverControl>(
    p: &ProcedureIr,
    entry_set: Ghost<Set<FactView>>,
    control: &C,
    limits: &AnalysisLimits,
    order: WorklistOrder,
    i: usize,
    fact: &Fact,
    facts: &mut Vec<Vec<Fact>>,
    visited: &mut Vec<bool>,
    worklist: &mut VecDeque<(usize, Fact)>,
    predecessors: &mut Vec<FactPredecessor>,
    evidence: &mut Vec<TransferEvidence>,
    unsupported: &mut Vec<UnsupportedFlow>,
    diagnostics: &mut Vec<Diagnostic>,
    unknown_frontiers: &mut Vec<UnknownFrontier>,
    counters: &mut SolverCounters,
    coverage: &mut Coverage,
    elapsed_ms: &mut u64,
    peak_memory_bytes: &mut u64,
) -> (stop: Option<SolverTermination>)
    requires
        ir_valid(*p),
        i < p.nodes.len(),
        old(facts)@.len() == p.nodes.len(),
        old(visited)@.len() == p.nodes.len(),
        forall|a: int| 0 <= a < p.nodes.len() && old(facts)@[a]@.len() > 0 ==> old(visited)@[a],
        facts_view(old(facts)@[i as int]@).contains(fact@),
        derivable(*p, entry_set@, p.nodes@[i as int].id@, fact@),
        all_sound(*p, entry_set@, old(facts)@),
        worklist_ok(*p, old(facts)@, old(worklist)@),
        preds_ok(*p, entry_set@, old(predecessors)@),
        evidence_ok(*p, entry_set@, old(evidence)@),
        closed_outside(*p, old(facts)@, old(worklist)@, Some((i as int, fact@))),
        !in_worklist(old(worklist)@, i as int, fact@),
        old(counters).processed_path_edges <= limits.processed_path_edges,
    ensures
        final(facts)@.len() == p.nodes.len(),
        final(visited)@.len() == p.nodes.len(),
        forall|a: int| 0 <= a < p.nodes.len() && final(facts)@[a]@.len() > 0 ==> final(visited)@[a],
        forall|a: int| 0 <= a < p.nodes.len() && old(visited)@[a] ==> final(visited)@[a],
        grows(old(facts)@, final(facts)@),
        all_sound(*p, entry_set@, final(facts)@),
        worklist_ok(*p, final(facts)@, final(worklist)@),
        preds_ok(*p, entry_set@, final(predecessors)@),
        evidence_ok(*p, entry_set@, final(evidence)@),
        final(counters).processed_path_edges <= limits.processed_path_edges,
        final(counters).processed_path_edges >= old(counters).processed_path_edges,
        final(counters).processed_path_edges == old(counters).processed_path_edges ==> final(worklist)@
            == old(worklist)@,
        stop is None ==> closed_outside(*p, final(facts)@, final(worklist)@, None),
        stop matches Some(t) ==> !(t is FixedPoint),
        stop matches Some(t) ==> termination_ok(*limits, t, final(counters).processed_path_edges),
        stop matches Some(t) ==> control_allows(*control, *limits, t),
{
    let ghost entry = entry_set@;
    let ghost processed_at_pop = counters.processed_path_edges;
    let ghost wl_after_pop = worklist@;
    let ghost facts_at_start = facts@;
    let flows = ProcedureFlowFunctions::new(p);
    let n = p.nodes.len();
    let mut termination: Option<SolverTermination> = None;
        // Evidence for this state.
        let found = flows.evidence_at(i, fact);
        let mut c: usize = 0;
        while c < found.len()
            invariant
                i < n,
                n == p.nodes.len(),
                c <= found.len(),
                derivable(*p, entry, p.nodes@[i as int].id@, fact@),
                forall|d: int|
                    0 <= d < found@.len() ==> evidence_spec(
                        p.nodes@[i as int].id,
                        p.nodes@[i as int].operation,
                        *fact,
                    ) == Some(#[trigger] found@[d]),
                evidence_ok(*p, entry, evidence@),
            decreases found.len() - c,
        {
            let ghost ev_before = evidence@;
            evidence.push(found[c].clone());
            proof {
                assert forall|q: int| 0 <= q < evidence@.len() implies exists|a: int, f: Fact|
                    0 <= a < p.nodes.len() && derivable(*p, entry, p.nodes@[a].id@, f@)
                        && evidence_spec(p.nodes@[a].id, p.nodes@[a].operation, f) == Some(
                        #[trigger] evidence@[q],
                    ) by {
                    if q < ev_before.len() {
                        assert(evidence@[q] == ev_before[q]);
                    } else {
                        assert(evidence@[q] == found@[c as int]);
                    }
                }
            }
            c = c + 1;
        }
        // Transfer through the operation.
        let outcome = transfer_operation_at(p, i, fact);
        let transferred = match outcome {
            TransferOutcome::Supported(facts_out) => facts_out,
            TransferOutcome::Unsupported { preserved, operation } => {
                insert_unsupported(
                    unsupported,
                    UnsupportedFlow::Operation { node: p.nodes[i].id.clone(), operation },
                );
                record_unsupported_operation(
                    p,
                    i,
                    operation,
                    diagnostics,
                    unknown_frontiers,
                );
                *coverage = Coverage::Partial;
                preserved
            },
        };
        refresh_memory_accounting(
            counters,
            predecessors.len(),
            evidence.len(),
            unsupported.len(),
            worklist.len(),
        );
        let (elapsed, memory) = sample_resources(control, &counters);
        if elapsed > *elapsed_ms {
            *elapsed_ms = elapsed;
        }
        if memory > *peak_memory_bytes {
            *peak_memory_bytes = memory;
        }
        if let Some(reason) = resource_limit_reason(limits, elapsed, memory) {
            record_limit_boundary(p, i, &reason, diagnostics, unknown_frontiers);
            *coverage = Coverage::Partial;
            return Some(SolverTermination::LimitExceeded(reason));
        }
        // Outgoing edges, in recorded order or reversed.
        let edge_count = p.edges.len();
        let mut stop = false;
        let mut ei: usize = 0;
        while ei < edge_count
            invariant
                n == p.nodes.len(),
                ir_valid(*p),
                edge_count == p.edges.len(),
                ei <= edge_count,
                i < n,
                facts_view(transferred@) == transfer_spec(p.nodes@[i as int].operation, fact@),
                derivable(*p, entry, p.nodes@[i as int].id@, fact@),
                entry == entry_set@,
                facts@.len() == n,
                visited@.len() == n,
                forall|a: int| 0 <= a < n && facts@[a]@.len() > 0 ==> visited@[a],
                forall|a: int| 0 <= a < p.nodes.len() && old(visited)@[a] ==> visited@[a],
                grows(facts_at_start, facts@),
                facts_at_start == old(facts)@,
                wl_after_pop == old(worklist)@,
                processed_at_pop == old(counters).processed_path_edges,
                facts_view(facts@[i as int]@).contains(fact@),
                all_sound(*p, entry, facts@),
                worklist_ok(*p, facts@, worklist@),
                preds_ok(*p, entry, predecessors@),
                evidence_ok(*p, entry, evidence@),
                closed_outside(*p, facts@, worklist@, Some((i as int, fact@))),
                !in_worklist(worklist@, i as int, fact@),
                forall|ej: int|
                    0 <= ej < ei ==> #[trigger] edge_done(
                        *p,
                        facts@,
                        order,
                        edge_count as int,
                        ej,
                        i as int,
                        fact@,
                    ),
                counters.processed_path_edges <= limits.processed_path_edges,
                counters.processed_path_edges >= processed_at_pop,
                counters.processed_path_edges == processed_at_pop ==> worklist@ == wl_after_pop,
                termination is None <==> !stop,
                termination matches Some(t) ==> !(t is FixedPoint),
                termination matches Some(t) ==> termination_ok(*limits, t, counters.processed_path_edges),
                termination matches Some(t) ==> control_allows(*control, *limits, t),
            ensures
                stop || ei == edge_count,
            decreases edge_count - ei,
        {
            let e = match order {
                WorklistOrder::Fifo => ei,
                WorklistOrder::Reverse => edge_count - 1 - ei,
            };
            let edge = &p.edges[e];
            if !edge.source.same(&p.nodes[i].id) {
                ei = ei + 1;
                continue;
            }
            if !is_intraprocedural_edge(&edge.kind) {
                insert_unsupported(unsupported, UnsupportedFlow::Edge(Box::new(edge.clone())));
                record_unsupported_edge(p, edge, diagnostics, unknown_frontiers);
                *coverage = Coverage::Partial;
                refresh_memory_accounting(
                    counters,
                    predecessors.len(),
                    evidence.len(),
                    unsupported.len(),
                    worklist.len(),
                );
                ei = ei + 1;
                continue;
            }
            if let Some(reason) = control.checkpoint(&counters) {
                termination = Some(SolverTermination::Cancelled(reason));
                stop = true;
                break;
            }
            let (elapsed, memory) = sample_resources(control, &counters);
            if elapsed > *elapsed_ms {
                *elapsed_ms = elapsed;
            }
            if memory > *peak_memory_bytes {
                *peak_memory_bytes = memory;
            }
            let limit = match resource_limit_reason(limits, elapsed, memory) {
                Some(reason) => Some(reason),
                None => if counters.processed_path_edges >= limits.processed_path_edges {
                    Some(
                        LimitReason {
                            kind: AnalysisLimitKind::ProcessedPathEdges,
                            limit: limits.processed_path_edges,
                            observed: counters.processed_path_edges,
                        },
                    )
                } else {
                    None
                },
            };
            if let Some(reason) = limit {
                record_limit_boundary(p, i, &reason, diagnostics, unknown_frontiers);
                *coverage = Coverage::Partial;
                termination = Some(SolverTermination::LimitExceeded(reason));
                stop = true;
                break;
            }
            counters.processed_path_edges = counters.processed_path_edges + 1;
            let t = match find_node(p, &edge.target) {
                Some(t) => t,
                None => {
                    // Unreachable for a validated procedure.
                    proof {
                        assert(edges_valid(*p));
                        assert(has_node(*p, p.edges@[e as int].target@));
                    }
                    ei = ei + 1;
                    continue;
                },
            };
            let ghost facts_before = facts@;
            let ghost wl_before_edge = worklist@;
            propagate(
                p,
                Ghost(entry),
                i,
                &fact,
                e,
                t,
                &transferred,
                facts,
                visited,
                worklist,
                predecessors,
                counters,
                Ghost(Some((i as int, fact@))),
            );
            proof {
                lemma_grows_transitive(facts_at_start, facts_before, facts@);
                assert(facts_view(facts_before[i as int]@).subset_of(facts_view(facts@[i as int]@)));
                assert(!in_worklist(worklist@, i as int, fact@)) by {
                    if in_worklist(worklist@, i as int, fact@) {
                        let d = choose|d: int|
                            0 <= d < worklist@.len() && (#[trigger] worklist@[d]).0 == i
                                && worklist@[d].1@ == fact@;
                        if d < wl_before_edge.len() {
                            assert(worklist@.subrange(0, wl_before_edge.len() as int)[d] == wl_before_edge[d]);
                            assert(in_worklist(wl_before_edge, i as int, fact@));
                        } else {
                            assert(facts_view(facts_before[i as int]@).contains(fact@));
                        }
                    }
                }
                assert(counters.processed_path_edges > processed_at_pop);
                assert forall|ej: int|
                    0 <= ej < ei + 1 implies #[trigger] edge_done(
                    *p,
                    facts@,
                    order,
                    edge_count as int,
                    ej,
                    i as int,
                    fact@,
                ) by {
                    let e2 = edge_at(order, edge_count as int, ej);
                    if ej < ei {
                        assert(edge_done(
                            *p,
                            facts_before,
                            order,
                            edge_count as int,
                            ej,
                            i as int,
                            fact@,
                        ));
                        if p.edges@[e2].source@ == p.nodes@[i as int].id@ && intraprocedural(
                            p.edges@[e2].kind,
                        ) {
                            assert(edge_closed(*p, facts_before, e2, i as int, fact@));
                            assert forall|g: FactView|
                                #[trigger] transfer_spec(p.nodes@[i as int].operation, fact@).contains(
                                    g,
                                ) implies has_fact(*p, facts@, p.edges@[e2].target@, g) by {
                                lemma_has_fact_grows(
                                    *p,
                                    facts_before,
                                    facts@,
                                    p.edges@[e2].target@,
                                    g,
                                );
                            }
                        }
                    } else {
                        assert(e2 == e);
                    }
                }
            }
            ei = ei + 1;
        }
        if stop {
            return termination;
        }
        proof {
            assert(state_closed(*p, facts@, i as int, fact@)) by {
                assert forall|e: int|
                    0 <= e < p.edges.len() && (#[trigger] p.edges@[e]).source@ == p.nodes@[
                        i as int
                    ].id@ && intraprocedural(p.edges@[e].kind) implies edge_closed(
                    *p,
                    facts@,
                    e,
                    i as int,
                    fact@,
                ) by {
                    let ej = if order == WorklistOrder::Fifo {
                        e
                    } else {
                        edge_count - 1 - e
                    };
                    assert(edge_at(order, edge_count as int, ej) == e);
                    assert(edge_done(*p, facts@, order, edge_count as int, ej, i as int, fact@));
                }
            }
            assert(closed_outside(*p, facts@, worklist@, None));
        }
    None
}

/// The facts after the operation of node `i` from one incoming fact.
fn transfer_operation_at(p: &ProcedureIr, i: usize, fact: &Fact) -> (res: TransferOutcome)
    requires
        i < p.nodes.len(),
    ensures
        facts_view(res.facts_spec()) == transfer_spec(p.nodes@[i as int].operation, fact@),
{
    crate::ifds::provenance::transfer_operation(&p.nodes[i].operation, fact)
}

/// Two fixed-point solutions of the same procedure and entry facts list the
/// same facts at the same nodes, whatever worklist order produced them.
pub proof fn lemma_fixed_points_agree(
    p: ProcedureIr,
    entry: Set<FactView>,
    first: SolverOutput,
    second: SolverOutput,
    m: LocalIdView,
    g: FactView,
)
    requires
        solution_exact(p, entry, first),
        solution_exact(p, entry, second),
        first.termination is FixedPoint,
        second.termination is FixedPoint,
    ensures
        output_has(first, m, g) <==> output_has(second, m, g),
{
    if output_has(first, m, g) {
        let k = choose|k: int|
            0 <= k < first.facts_at.len() && (#[trigger] first.facts_at@[k]).0@ == m && facts_view(
                first.facts_at@[k].1@,
            ).contains(g);
        let j = choose|j: int| 0 <= j < first.facts_at@[k].1@.len() && first.facts_at@[k].1@[j]@ == g;
        assert(derivable(p, entry, first.facts_at@[k].0@, first.facts_at@[k].1@[j]@));
    }
    if output_has(second, m, g) {
        let k = choose|k: int|
            0 <= k < second.facts_at.len() && (#[trigger] second.facts_at@[k]).0@ == m && facts_view(
                second.facts_at@[k].1@,
            ).contains(g);
        let j = choose|j: int|
            0 <= j < second.facts_at@[k].1@.len() && second.facts_at@[k].1@[j]@ == g;
        assert(derivable(p, entry, second.facts_at@[k].0@, second.facts_at@[k].1@[j]@));
    }
}

} // verus!
