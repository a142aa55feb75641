//! A small reference evaluator that checks the solver on hand-written
//! procedures, independently of its worklist.
use vstd::prelude::*;
use crate::ifds::ir::{ProcedureIr, ir_valid, has_node, find_node};
use crate::ifds::model::{
    span_valid, AnalysisLimits, BindingSelector, CapabilitySet, Completeness, DiagnosticCode,
    Direction, EntryAssumption, Fact, FactView, FlowDelta, FlowExtent, FlowGraph, LocalIdView,
    LogicalNodeId, MembershipChange, ModelVersion, NodeId, PathEnding, PathEndingKind, Place,
    RelationKind, SnapshotExtent, SnapshotSide, Source, SourceSpan, VariableFlowReport,
};
use crate::ifds::ir::debug_text;
use crate::ifds::adapters::typescript::syntax::str_equal;
use crate::ifds::snapshots::{path_normal, validate_path};
use crate::ifds::provenance::contains_fact;
use crate::ifds::provenance::{
    facts_view, transfer_spec, unsupported_kind, unsupported_kind_spec, insert_fact,
    ProcedureFlowFunctions,
};

verus! {

/// Why a fixture or a reference evaluation was refused.
#[derive(Debug, Clone, PartialEq, Eq)]
pub enum FixtureError {
    Io { path: String, message: String },
    Json { path: String, message: String },
    MissingField(String),
    MissingFile(String),
    Invalid(String),
    Mismatch(Vec<String>),
}

/// The text of a fixture error.
pub open spec fn fixture_message(e: FixtureError) -> Seq<char> {
    match e {
        FixtureError::Io { path, message } => "fixture I/O error at "@ + path@ + ": "@ + message@,
        FixtureError::Json { path, message } => "invalid fixture JSON at "@ + path@ + ": "@ + message@,
        FixtureError::MissingField(field) => "fixture is missing required field `"@ + field@ + "`"@,
        FixtureError::MissingFile(path) => "fixture is missing required file `"@ + path@ + "`"@,
        FixtureError::Invalid(message) => "invalid fixture: "@ + message@,
        FixtureError::Mismatch(messages) => "fixture report mismatch: "@ + crate::ifds::compact::joined_with(
            messages@.map_values(|m: String| m@),
            "; "@,
        ),
    }
}

impl FixtureError {
    /// The error's text.
    pub fn message(&self) -> (res: String)
        ensures
            res@ == fixture_message(*self),
    {
        match self {
            FixtureError::Io { path, message } => String::from_str("fixture I/O error at ").concat(
                path.as_str(),
            ).concat(": ").concat(message.as_str()),
            FixtureError::Json { path, message } => String::from_str("invalid fixture JSON at ").concat(
                path.as_str(),
            ).concat(": ").concat(message.as_str()),
            FixtureError::MissingField(field) => String::from_str(
                "fixture is missing required field `",
            ).concat(field.as_str()).concat("`"),
            FixtureError::MissingFile(path) => String::from_str(
                "fixture is missing required file `",
            ).concat(path.as_str()).concat("`"),
            FixtureError::Invalid(message) => String::from_str("invalid fixture: ").concat(
                message.as_str(),
            ),
            FixtureError::Mismatch(messages) => {
                let mut text = String::from_str("fixture report mismatch: ");
                let ghost views = messages@.map_values(|m: String| m@);
                let mut k: usize = 0;
                while k < messages.len()
                    invariant
                        k <= messages@.len(),
                        views == messages@.map_values(|m: String| m@),
                        text@ == "fixture report mismatch: "@ + crate::ifds::compact::joined_with(views.take(k as int), "; "@),
                    decreases messages.len() - k,
                {
                    proof {
                        assert(views.take(k + 1).drop_last() =~= views.take(k as int));
                        assert(views.take(k + 1).last() == messages@[k as int]@);
                        if k == 0 {
                            assert(views.take(1)[0] == messages@[0]@);
                        }
                    }
                    if k > 0 {
                        text = text.concat("; ");
                    }
                    text = text.concat(messages[k].as_str());
                    k = k + 1;
                }
                proof {
                    assert(views.take(k as int) =~= views);
                }
                text
            },
        }
    }
}

/// What the reference evaluator computed: the facts that reach each visited
/// node, whether every entry state reached its fixed point, and how many node
/// states were processed.
#[derive(Debug, Clone, PartialEq, Eq)]
pub struct ReferenceEvaluation {
    pub facts_at: Vec<(NodeId, Vec<Fact>)>,
    pub complete: bool,
    pub processed_states: u64,
}

/// One reference step: fact `f` on entry to node `n` becomes `g` on entry to
/// `m` along any edge from `n` to `m`.
pub open spec fn reference_step(
    p: ProcedureIr,
    n: LocalIdView,
    f: FactView,
    m: LocalIdView,
    g: FactView,
) -> bool {
    exists|e: int, i: int|
        #![trigger p.edges@[e], p.nodes@[i]]
        0 <= e < p.edges.len() && 0 <= i < p.nodes.len() && p.edges@[e].source@ == n
            && p.edges@[e].target@ == m && p.nodes@[i].id@ == n && transfer_spec(
            p.nodes@[i].operation,
            f,
        ).contains(g)
}

pub open spec fn reference_step_at(p: ProcedureIr, path: Seq<(LocalIdView, FactView)>, i: int) -> bool {
    reference_step(p, path[i].0, path[i].1, path[i + 1].0, path[i + 1].1)
}

/// A sequence of reference steps from an entry fact at the entry node.
pub open spec fn reference_path(
    p: ProcedureIr,
    entry: Set<FactView>,
    path: Seq<(LocalIdView, FactView)>,
) -> bool {
    &&& path.len() > 0
    &&& path[0].0 == p.entry@
    &&& entry.contains(path[0].1)
    &&& forall|i: int| 0 <= i < path.len() - 1 ==> #[trigger] reference_step_at(p, path, i)
}

/// Fact `g` can reach node `m` from the entry facts along reference steps.
pub open spec fn reference_derivable(
    p: ProcedureIr,
    entry: Set<FactView>,
    m: LocalIdView,
    g: FactView,
) -> bool {
    exists|path: Seq<(LocalIdView, FactView)>|
        #[trigger] reference_path(p, entry, path) && path.last() == (m, g)
}

/// Every fact of any of the entry states.
pub open spec fn entry_union(states: Seq<Vec<Fact>>) -> Set<FactView> {
    Set::new(|f: FactView| exists|k: int| 0 <= k < states.len() && facts_view(#[trigger] states[k]@).contains(f))
}

/// Whether some node carries an operation that the reference evaluator does
/// not model (a call or an unknown effect).
pub open spec fn has_unsupported_node(p: ProcedureIr) -> bool {
    exists|i: int| 0 <= i < p.nodes.len() && (#[trigger] unsupported_kind_spec(p.nodes@[i].operation)) is Some
}

spec fn rows_sound(p: ProcedureIr, entry: Set<FactView>, rows: Seq<Vec<Fact>>) -> bool {
    forall|t: int, j: int|
        0 <= t < rows.len() && t < p.nodes.len() && 0 <= j < rows[t]@.len() ==> reference_derivable(
            p,
            entry,
            p.nodes@[t].id@,
            (#[trigger] rows[t]@[j])@,
        )
}

spec fn adjacency_ok(p: ProcedureIr, outgoing: Seq<Vec<usize>>) -> bool {
    &&& outgoing.len() == p.nodes.len()
    &&& forall|i: int, k: int|
        0 <= i < outgoing.len() && 0 <= k < outgoing[i]@.len() ==> {
            &&& (#[trigger] outgoing[i]@[k]) < p.nodes.len()
            &&& exists|e: int|
                0 <= e < p.edges.len() && (#[trigger] p.edges@[e]).source@ == p.nodes@[i].id@
                    && p.edges@[e].target@ == p.nodes@[outgoing[i]@[k] as int].id@
        }
}

proof fn lemma_reference_entry(p: ProcedureIr, entry: Set<FactView>, f: FactView)
    requires
        entry.contains(f),
    ensures
        reference_derivable(p, entry, p.entry@, f),
{
    let path = seq![(p.entry@, f)];
    assert(reference_path(p, entry, path));
    assert(path.last() == (p.entry@, f));
}

proof fn lemma_reference_step(
    p: ProcedureIr,
    entry: Set<FactView>,
    i: int,
    f: FactView,
    e: int,
    t: int,
    g: FactView,
)
    requires
        0 <= i < p.nodes.len(),
        0 <= t < p.nodes.len(),
        0 <= e < p.edges.len(),
        p.edges@[e].source@ == p.nodes@[i].id@,
        p.edges@[e].target@ == p.nodes@[t].id@,
        transfer_spec(p.nodes@[i].operation, f).contains(g),
        reference_derivable(p, entry, p.nodes@[i].id@, f),
    ensures
        reference_derivable(p, entry, p.nodes@[t].id@, g),
{
    let path = choose|path: Seq<(LocalIdView, FactView)>|
        #[trigger] reference_path(p, entry, path) && path.last() == (p.nodes@[i].id@, f);
    let _ = p.edges@[e];
    let _ = p.nodes@[i];
    assert(reference_step(p, p.nodes@[i].id@, f, p.nodes@[t].id@, g));
    let next = path.push((p.nodes@[t].id@, g));
    assert forall|j: int| 0 <= j < next.len() - 1 implies #[trigger] reference_step_at(p, next, j) by {
        if j < path.len() - 1 {
            assert(reference_step_at(p, path, j));
            assert(next[j] == path[j] && next[j + 1] == path[j + 1]);
        } else {
            assert(next[j] == path.last());
        }
    }
    assert(reference_path(p, entry, next));
    assert(next.last() == (p.nodes@[t].id@, g));
}

proof fn lemma_derivable_wider(
    p: ProcedureIr,
    small: Set<FactView>,
    large: Set<FactView>,
    m: LocalIdView,
    g: FactView,
)
    requires
        small.subset_of(large),
        reference_derivable(p, small, m, g),
    ensures
        reference_derivable(p, large, m, g),
{
    let path = choose|path: Seq<(LocalIdView, FactView)>|
        #[trigger] reference_path(p, small, path) && path.last() == (m, g);
    assert(reference_path(p, large, path));
}

/// The targets of the edges leaving each node, by node position.
fn outgoing_targets(p: &ProcedureIr) -> (res: Vec<Vec<usize>>)
    ensures
        adjacency_ok(*p, res@),
{
    let mut res: Vec<Vec<usize>> = Vec::new();
    let mut i: usize = 0;
    while i < p.nodes.len()
        invariant
            i <= p.nodes.len(),
            res@.len() == i,
            forall|a: int, k: int|
                0 <= a < res@.len() && 0 <= k < res@[a]@.len() ==> {
                    &&& (#[trigger] res@[a]@[k]) < p.nodes.len()
                    &&& exists|e: int|
                        0 <= e < p.edges.len() && (#[trigger] p.edges@[e]).source@ == p.nodes@[a].id@
                            && p.edges@[e].target@ == p.nodes@[res@[a]@[k] as int].id@
                },
        decreases p.nodes.len() - i,
    {
        let mut row: Vec<usize> = Vec::new();
        let mut e: usize = 0;
        while e < p.edges.len()
            invariant
                i < p.nodes.len(),
                e <= p.edges.len(),
                forall|k: int|
                    0 <= k < row@.len() ==> {
                        &&& (#[trigger] row@[k]) < p.nodes.len()
                        &&& exists|e: int|
                            0 <= e < p.edges.len() && (#[trigger] p.edges@[e]).source@
                                == p.nodes@[i as int].id@ && p.edges@[e].target@ == p.nodes@[row@[k] as int].id@
                    },
            decreases p.edges.len() - e,
        {
            if p.edges[e].source.same(&p.nodes[i].id) {
                match find_node(p, &p.edges[e].target) {
                    Some(t) => {
                        let ghost before = row@;
                        row.push(t);
                        proof {
                            assert forall|k: int| 0 <= k < row@.len() implies {
                                &&& (#[trigger] row@[k]) < p.nodes.len()
                                &&& exists|e: int|
                                    0 <= e < p.edges.len() && (#[trigger] p.edges@[e]).source@
                                        == p.nodes@[i as int].id@ && p.edges@[e].target@
                                        == p.nodes@[row@[k] as int].id@
                            } by {
                                if k < before.len() {
                                    assert(row@[k] == before[k]);
                                } else {
                                    let _ = p.edges@[e as int];
                                }
                            }
                        }
                    },
                    None => {},
                }
            }
            e = e + 1;
        }
        let ghost before = res@;
        res.push(row);
        proof {
            assert forall|a: int, k: int| 0 <= a < res@.len() && 0 <= k < res@[a]@.len() implies {
                &&& (#[trigger] res@[a]@[k]) < p.nodes.len()
                &&& exists|e: int|
                    0 <= e < p.edges.len() && (#[trigger] p.edges@[e]).source@ == p.nodes@[a].id@
                        && p.edges@[e].target@ == p.nodes@[res@[a]@[k] as int].id@
            } by {
                if a < before.len() {
                    assert(res@[a] == before[a]);
                } else {
                    assert(res@[a] == row);
                    assert(row@[k] < p.nodes.len());
                }
            }
        }
        i = i + 1;
    }
    res
}

/// Adds every fact of `extra` to `row`; reports whether the row grew.
fn union_into(row: &mut Vec<Fact>, extra: &Vec<Fact>) -> (grew: bool)
    ensures
        facts_view(final(row)@) == facts_view(old(row)@).union(facts_view(extra@)),
        forall|j: int|
            0 <= j < final(row)@.len() ==> facts_view(old(row)@).contains((#[trigger] final(row)@[j])@)
                || facts_view(extra@).contains(final(row)@[j]@),
{
    let mut grew = false;
    let mut k: usize = 0;
    let ghost start = row@;
    while k < extra.len()
        invariant
            k <= extra.len(),
            facts_view(row@) == facts_view(start).union(
                Set::new(|g: FactView| exists|c: int| 0 <= c < k && extra@[c]@ == g),
            ),
            forall|j: int|
                0 <= j < row@.len() ==> facts_view(start).contains((#[trigger] row@[j])@)
                    || facts_view(extra@).contains(row@[j]@),
        decreases extra.len() - k,
    {
        let ghost before = row@;
        let added = insert_fact(row, extra[k].clone());
        if added {
            grew = true;
        }
        k = k + 1;
        proof {
            assert(facts_view(row@) =~= facts_view(start).union(
                Set::new(|g: FactView| exists|c: int| 0 <= c < k && extra@[c]@ == g),
            )) by {
                assert forall|g: FactView|
                    Set::new(|g: FactView| exists|c: int| 0 <= c < k && extra@[c]@ == g).contains(
                        g,
                    ) implies facts_view(row@).contains(g) by {
                    let c = choose|c: int| 0 <= c < k && extra@[c]@ == g;
                    if c < k - 1 {
                        assert(Set::new(
                            |g: FactView| exists|c: int| 0 <= c < k - 1 && extra@[c]@ == g,
                        ).contains(g));
                    }
                }
            }
            assert forall|j: int| 0 <= j < row@.len() implies facts_view(start).contains(
                (#[trigger] row@[j])@,
            ) || facts_view(extra@).contains(row@[j]@) by {
                if j < before.len() {
                    assert(row@[j] == before[j]);
                } else {
                    assert(row@[j]@ == extra@[k - 1]@);
                    assert(facts_view(extra@).contains(extra@[k - 1]@));
                }
            }
        }
    }
    proof {
        assert(Set::new(|g: FactView| exists|c: int| 0 <= c < extra@.len() && extra@[c]@ == g)
            =~= facts_view(extra@));
    }
    grew
}

/// Evaluates every entry state on its own, breadth first, until no node
/// state changes, and reports the facts that reached each visited node.
/// Reaching `max_processed_states` returns what is known so far with
/// `complete == false`; every reported fact is derivable from the entry
/// states either way.
#[verifier::rlimit(100)]
pub fn evaluate_reference(
    procedure: &ProcedureIr,
    entry_states: &[Vec<Fact>],
    max_processed_states: u64,
) -> (res: Result<ReferenceEvaluation, FixtureError>)
    ensures
        !ir_valid(*procedure) ==> res is Err,
        ir_valid(*procedure) && !has_unsupported_node(*procedure) ==> res is Ok,
        res is Err ==> (res->Err_0 is Invalid && (!ir_valid(*procedure) || has_unsupported_node(
            *procedure,
        ))),
        res matches Ok(r) ==> {
            &&& r.processed_states <= max_processed_states
            &&& !r.complete ==> r.processed_states == max_processed_states
            &&& forall|k: int| 0 <= k < r.facts_at.len() ==> has_node(*procedure, (#[trigger] r.facts_at@[k]).0@)
            &&& forall|k: int, j: int|
                0 <= k < r.facts_at.len() && 0 <= j < r.facts_at@[k].1@.len() ==> reference_derivable(
                    *procedure,
                    entry_union(entry_states@),
                    (#[trigger] r.facts_at@[k]).0@,
                    (#[trigger] r.facts_at@[k].1@[j])@,
                )
        },
{
    if procedure.validate().is_err() {
        return Err(FixtureError::Invalid(String::from_str("the procedure is not valid IR")));
    }
    let n = procedure.nodes.len();
    let entry = match find_node(procedure, &procedure.entry) {
        Some(entry) => entry,
        None => {
            return Err(FixtureError::Invalid(String::from_str("the procedure entry is missing")));
        },
    };
    let ghost p = *procedure;
    let ghost all = entry_union(entry_states@);
    let flows = ProcedureFlowFunctions::new(procedure);
    let outgoing = outgoing_targets(procedure);
    let mut combined: Vec<Vec<Fact>> = Vec::new();
    let mut seen: Vec<bool> = Vec::new();
    let mut i: usize = 0;
    while i < n
        invariant
            i <= n,
            combined@.len() == i,
            seen@.len() == i,
            forall|t: int| 0 <= t < i ==> (#[trigger] combined@[t])@.len() == 0,
        decreases n - i,
    {
        combined.push(Vec::new());
        seen.push(false);
        i = i + 1;
    }
    let mut processed: u64 = 0;
    let mut complete = true;
    let mut s: usize = 0;
    while s < entry_states.len()
        invariant_except_break
            complete,
        invariant
            n == procedure.nodes.len(),
            entry < n,
            procedure.nodes@[entry as int].id@ == procedure.entry@,
            p == *procedure,
            flows.procedure == procedure,
            all == entry_union(entry_states@),
            adjacency_ok(p, outgoing@),
            s <= entry_states.len(),
            combined@.len() == n,
            seen@.len() == n,
            rows_sound(p, all, combined@),
            processed <= max_processed_states,
            !complete ==> processed == max_processed_states,
        ensures
            combined@.len() == n,
            seen@.len() == n,
            rows_sound(p, all, combined@),
            processed <= max_processed_states,
            !complete ==> processed == max_processed_states,
        decreases entry_states.len() - s,
    {
        let initial = &entry_states[s];
        proof {
            assert forall|f: FactView| facts_view(initial@).contains(f) implies all.contains(f) by {
                assert(facts_view(entry_states@[s as int]@).contains(f));
            }
        }
        let mut states: Vec<Vec<Fact>> = Vec::new();
        let mut has_state: Vec<bool> = Vec::new();
        let mut i: usize = 0;
        while i < n
            invariant
                i <= n,
                states@.len() == i,
                has_state@.len() == i,
                forall|t: int| 0 <= t < i ==> (#[trigger] states@[t])@.len() == 0,
            decreases n - i,
        {
            states.push(Vec::new());
            has_state.push(false);
            i = i + 1;
        }
        let first_row = initial.clone();
        assert(first_row@ =~= initial@);
        states.set(entry, first_row);
        has_state.set(entry, true);
        proof {
            assert forall|t: int, j: int|
                0 <= t < states@.len() && t < p.nodes.len() && 0 <= j < states@[t]@.len() implies reference_derivable(
                p,
                all,
                p.nodes@[t].id@,
                (#[trigger] states@[t]@[j])@,
            ) by {
                if t == entry {
                    assert(facts_view(initial@).contains(initial@[j]@));
                    lemma_reference_entry(p, all, initial@[j]@);
                }
            }
        }
        let mut queue: Vec<usize> = Vec::new();
        queue.push(entry);
        let mut head: usize = 0;
        while head < queue.len()
            invariant_except_break
                complete,
            invariant
                n == procedure.nodes.len(),
                p == *procedure,
                flows.procedure == procedure,
                all == entry_union(entry_states@),
                adjacency_ok(p, outgoing@),
                combined@.len() == n,
                seen@.len() == n,
                states@.len() == n,
                has_state@.len() == n,
                rows_sound(p, all, combined@),
                rows_sound(p, all, states@),
                forall|q: int| 0 <= q < queue@.len() ==> (#[trigger] queue@[q]) < n,
                head <= queue@.len(),
                processed <= max_processed_states,
                !complete ==> processed == max_processed_states,
            ensures
                combined@.len() == n,
                seen@.len() == n,
                rows_sound(p, all, combined@),
                processed <= max_processed_states,
                !complete ==> processed == max_processed_states,
            decreases max_processed_states - processed,
        {
            if processed >= max_processed_states {
                complete = false;
                break;
            }
            processed = processed + 1;
            let node = queue[head];
            head = head + 1;
            let incoming = states[node].clone();
            assert(incoming@ =~= states@[node as int]@);
            let mut merged = combined[node].clone();
            assert(merged@ =~= combined@[node as int]@);
            let ghost combined_before = combined@;
            let ghost row_before = merged@;
            union_into(&mut merged, &incoming);
            combined.set(node, merged);
            seen.set(node, true);
            proof {
                assert forall|t: int, j: int|
                    0 <= t < combined@.len() && t < p.nodes.len() && 0 <= j < combined@[t]@.len() implies reference_derivable(
                    p,
                    all,
                    p.nodes@[t].id@,
                    (#[trigger] combined@[t]@[j])@,
                ) by {
                    if t == node {
                        let x = combined@[t]@[j]@;
                        if facts_view(row_before).contains(x) {
                            let a = choose|a: int| 0 <= a < row_before.len() && row_before[a]@ == x;
                            assert(combined_before[t]@[a] == row_before[a]);
                        } else {
                            assert(facts_view(incoming@).contains(x));
                            let a = choose|a: int| 0 <= a < incoming@.len() && incoming@[a]@ == x;
                            assert(states@[t]@[a] == incoming@[a]);
                        }
                    } else {
                        assert(combined@[t] == combined_before[t]);
                    }
                }
            }
            if unsupported_kind(&procedure.nodes[node].operation).is_some() {
                proof {
                    assert(unsupported_kind_spec(p.nodes@[node as int].operation) is Some);
                }
                return Err(
                    FixtureError::Invalid(
                        String::from_str(
                            "the reference evaluator cannot prove effects for calls or unknown operations",
                        ),
                    ),
                );
            }
            let transferred = flows.transfer_all(node, &incoming).into_facts();
            let targets = &outgoing[node];
            let mut k: usize = 0;
            while k < targets.len()
                invariant
                    n == procedure.nodes.len(),
                    p == *procedure,
                    node < n,
                    adjacency_ok(p, outgoing@),
                    targets == outgoing@[node as int],
                    facts_view(transferred@) == crate::ifds::provenance::transfer_set(
                        p.nodes@[node as int].operation,
                        facts_view(incoming@),
                    ),
                    forall|a: int| 0 <= a < incoming@.len() ==> reference_derivable(
                        p,
                        all,
                        p.nodes@[node as int].id@,
                        (#[trigger] incoming@[a])@,
                    ),
                    k <= targets@.len(),
                    states@.len() == n,
                    has_state@.len() == n,
                    rows_sound(p, all, states@),
                    forall|q: int| 0 <= q < queue@.len() ==> (#[trigger] queue@[q]) < n,
                    head <= queue@.len(),
                decreases targets@.len() - k,
            {
                let t = targets[k];
                assert(t == outgoing@[node as int]@[k as int]);
                let ghost e = choose|e: int|
                    0 <= e < p.edges.len() && (#[trigger] p.edges@[e]).source@ == p.nodes@[node as int].id@
                        && p.edges@[e].target@ == p.nodes@[t as int].id@;
                let first_visit = !has_state[t];
                has_state.set(t, true);
                let mut row = states[t].clone();
                assert(row@ =~= states@[t as int]@);
                let ghost states_before = states@;
                let ghost row_before = row@;
                let grew = union_into(&mut row, &transferred);
                states.set(t, row);
                if first_visit || grew {
                    queue.push(t);
                }
                proof {
                    assert forall|u: int, j: int|
                        0 <= u < states@.len() && u < p.nodes.len() && 0 <= j < states@[u]@.len() implies reference_derivable(
                        p,
                        all,
                        p.nodes@[u].id@,
                        (#[trigger] states@[u]@[j])@,
                    ) by {
                        if u == t {
                            let x = states@[u]@[j]@;
                            if facts_view(row_before).contains(x) {
                                let a = choose|a: int| 0 <= a < row_before.len() && row_before[a]@ == x;
                                assert(states_before[u]@[a] == row_before[a]);
                            } else {
                                assert(facts_view(transferred@).contains(x));
                                let f = choose|f: FactView|
                                    facts_view(incoming@).contains(f) && #[trigger] transfer_spec(
                                        p.nodes@[node as int].operation,
                                        f,
                                    ).contains(x);
                                let a = choose|a: int| 0 <= a < incoming@.len() && incoming@[a]@ == f;
                                assert(reference_derivable(p, all, p.nodes@[node as int].id@, incoming@[a]@));
                                lemma_reference_step(p, all, node as int, f, e, t as int, x);
                            }
                        } else {
                            assert(states@[u] == states_before[u]);
                        }
                    }
                }
                k = k + 1;
            }
        }
        if !complete {
            break;
        }
        s = s + 1;
    }
    let mut facts_at: Vec<(NodeId, Vec<Fact>)> = Vec::new();
    let mut i: usize = 0;
    while i < n
        invariant
            i <= n,
            n == procedure.nodes.len(),
            p == *procedure,
            combined@.len() == n,
            seen@.len() == n,
            rows_sound(p, all, combined@),
            forall|k: int| 0 <= k < facts_at.len() ==> has_node(p, (#[trigger] facts_at@[k]).0@),
            forall|k: int, j: int|
                0 <= k < facts_at.len() && 0 <= j < facts_at@[k].1@.len() ==> reference_derivable(
                    p,
                    all,
                    (#[trigger] facts_at@[k]).0@,
                    (#[trigger] facts_at@[k].1@[j])@,
                ),
        decreases n - i,
    {
        if seen[i] {
            let row = combined[i].clone();
            assert(row@ =~= combined@[i as int]@);
            let ghost before = facts_at@;
            facts_at.push((procedure.nodes[i].id.clone(), row));
            proof {
                assert forall|k: int, j: int|
                    0 <= k < facts_at.len() && 0 <= j < facts_at@[k].1@.len() implies reference_derivable(
                    p,
                    all,
                    (#[trigger] facts_at@[k]).0@,
                    (#[trigger] facts_at@[k].1@[j])@,
                ) by {
                    if k == before.len() {
                        assert(facts_at@[k].1@[j] == combined@[i as int]@[j]);
                    } else {
                        assert(facts_at@[k] == before[k]);
                    }
                }
                assert forall|k: int| 0 <= k < facts_at.len() implies has_node(p, (#[trigger] facts_at@[k]).0@) by {
                    if k == before.len() {
                        assert(p.nodes@[i as int].id@ == facts_at@[k].0@);
                    } else {
                        assert(facts_at@[k] == before[k]);
                    }
                }
            }
        }
        i = i + 1;
    }
    Ok(ReferenceEvaluation { facts_at, complete, processed_states: processed })
}

// ---------------------------------------------------------------------------
// Distributivity of a transfer function over a finite domain.

/// An element of a finite fact domain: it can be duplicated and compared
/// by value.
pub trait DomainElement: View + Sized {
    fn duplicate(&self) -> (res: Self)
        ensures
            res@ == self@,
    ;

    fn equals(&self, other: &Self) -> (res: bool)
        ensures
            res == (self@ == other@),
    ;
}

impl DomainElement for Fact {
    fn duplicate(&self) -> (res: Self) {
        self.clone()
    }

    fn equals(&self, other: &Self) -> (res: bool) {
        self.same(other)
    }
}

impl DomainElement for i32 {
    fn duplicate(&self) -> (res: Self) {
        *self
    }

    fn equals(&self, other: &Self) -> (res: bool) {
        *self == *other
    }
}

impl DomainElement for u64 {
    fn duplicate(&self) -> (res: Self) {
        *self
    }

    fn equals(&self, other: &Self) -> (res: bool) {
        *self == *other
    }
}

/// The values a list holds.
pub open spec fn elements<T: View>(s: Seq<T>) -> Set<T::V> {
    Set::new(|v: T::V| exists|i: int| 0 <= i < s.len() && s[i]@ == v)
}

fn contains_element<T: DomainElement>(items: &Vec<T>, x: &T) -> (res: bool)
    ensures
        res == elements(items@).contains(x@),
{
    let mut i: usize = 0;
    while i < items.len()
        invariant
            i <= items@.len(),
            forall|j: int| 0 <= j < i ==> (#[trigger] items@[j])@ != x@,
        decreases items.len() - i,
    {
        if items[i].equals(x) {
            return true;
        }
        i = i + 1;
    }
    false
}

fn contained_in<T: DomainElement>(a: &Vec<T>, b: &Vec<T>) -> (res: bool)
    ensures
        res == elements(a@).subset_of(elements(b@)),
{
    let mut i: usize = 0;
    while i < a.len()
        invariant
            i <= a@.len(),
            forall|j: int| 0 <= j < i ==> elements(b@).contains(#[trigger] a@[j]@),
        decreases a.len() - i,
    {
        if !contains_element(b, &a[i]) {
            proof {
                assert(elements(a@).contains(a@[i as int]@));
            }
            return false;
        }
        i = i + 1;
    }
    proof {
        assert forall|v: T::V| elements(a@).contains(v) implies elements(b@).contains(v) by {
            let j = choose|j: int| 0 <= j < a@.len() && a@[j]@ == v;
            assert(elements(b@).contains(a@[j]@));
        }
    }
    true
}

fn union_of<T: DomainElement>(a: &Vec<T>, b: &Vec<T>) -> (res: Vec<T>)
    ensures
        elements(res@) == elements(a@).union(elements(b@)),
{
    let mut res: Vec<T> = Vec::new();
    let mut i: usize = 0;
    while i < a.len()
        invariant
            i <= a@.len(),
            elements(res@) == Set::new(|v: T::V| exists|j: int| 0 <= j < i && a@[j]@ == v),
        decreases a.len() - i,
    {
        let ghost before = res@;
        res.push(a[i].duplicate());
        i = i + 1;
        proof {
            assert(elements(res@) =~= Set::new(|v: T::V| exists|j: int| 0 <= j < i && a@[j]@ == v)) by {
                assert forall|v: T::V| elements(res@).contains(v) implies Set::new(|v: T::V| exists|j: int| 0 <= j < i && a@[j]@ == v).contains(v) by {
                    let k = choose|k: int| 0 <= k < res@.len() && res@[k]@ == v;
                    if k < before.len() {
                        assert(res@[k] == before[k]);
                        assert(elements(before).contains(v));
                    }
                }
                assert forall|v: T::V| Set::new(|v: T::V| exists|j: int| 0 <= j < i && a@[j]@ == v).contains(v) implies elements(res@).contains(v) by {
                    let j = choose|j: int| 0 <= j < i && a@[j]@ == v;
                    if j < i - 1 {
                        assert(Set::new(|v: T::V| exists|j: int| 0 <= j < i - 1 && a@[j]@ == v).contains(v));
                        let k = choose|k: int| 0 <= k < before.len() && before[k]@ == v;
                        assert(res@[k] == before[k]);
                    } else {
                        assert(res@[before.len() as int]@ == v);
                    }
                }
            }
        }
    }
    let mut k: usize = 0;
    while k < b.len()
        invariant
            k <= b@.len(),
            i == a@.len(),
            elements(res@) == elements(a@).union(Set::new(|v: T::V| exists|j: int| 0 <= j < k && b@[j]@ == v)),
        decreases b.len() - k,
    {
        let ghost before = res@;
        res.push(b[k].duplicate());
        k = k + 1;
        proof {
            assert(elements(res@) =~= elements(a@).union(Set::new(|v: T::V| exists|j: int| 0 <= j < k && b@[j]@ == v))) by {
                assert forall|v: T::V| elements(res@).contains(v) implies elements(a@).union(Set::new(|v: T::V| exists|j: int| 0 <= j < k && b@[j]@ == v)).contains(v) by {
                    let q = choose|q: int| 0 <= q < res@.len() && res@[q]@ == v;
                    if q < before.len() {
                        assert(res@[q] == before[q]);
                        assert(elements(before).contains(v));
                        if !elements(a@).contains(v) {
                            let j = choose|j: int| 0 <= j < k - 1 && b@[j]@ == v;
                            assert(Set::new(|v: T::V| exists|j: int| 0 <= j < k && b@[j]@ == v).contains(v));
                        }
                    } else {
                        assert(Set::new(|v: T::V| exists|j: int| 0 <= j < k && b@[j]@ == v).contains(v));
                    }
                }
                assert forall|v: T::V| elements(a@).union(Set::new(|v: T::V| exists|j: int| 0 <= j < k && b@[j]@ == v)).contains(v) implies elements(res@).contains(v) by {
                    if elements(a@).contains(v) {
                        assert(elements(before).contains(v));
                        let q = choose|q: int| 0 <= q < before.len() && before[q]@ == v;
                        assert(res@[q] == before[q]);
                    } else {
                        let j = choose|j: int| 0 <= j < k && b@[j]@ == v;
                        if j < k - 1 {
                            assert(Set::new(|v: T::V| exists|j: int| 0 <= j < k - 1 && b@[j]@ == v).contains(v));
                            assert(elements(before).contains(v));
                            let q = choose|q: int| 0 <= q < before.len() && before[q]@ == v;
                            assert(res@[q] == before[q]);
                        } else {
                            assert(res@[before.len() as int]@ == v);
                        }
                    }
                }
            }
        }
    }
    proof {
        assert(Set::new(|v: T::V| exists|j: int| 0 <= j < b@.len() && b@[j]@ == v) =~= elements(b@));
    }
    res
}

/// Every value of the list is a value of the domain.
pub open spec fn within<T: View>(items: Seq<T>, domain: Seq<T>) -> bool {
    forall|t: int| 0 <= t < items.len() ==> elements(domain).contains(#[trigger] items[t]@)
}

/// Some list holds exactly each subset of the set.
pub open spec fn covers<T: View>(lists: Seq<Vec<T>>, set: Set<T::V>) -> bool {
    forall|s: Set<T::V>|
        #[trigger] s.subset_of(set) ==> exists|j: int| 0 <= j < lists.len() && elements(#[trigger] lists[j]@) == s
}

/// The transfer was seen to distribute over the two lists: on some list
/// holding their union it gave the union of what it gave on each.
pub open spec fn distributes_on<T: View, F: Fn(&Vec<T>) -> Vec<T>>(transfer: F, x: Vec<T>, y: Vec<T>) -> bool {
    exists|u: Vec<T>, fx: Vec<T>, fy: Vec<T>, fu: Vec<T>|
        #![trigger call_ensures(transfer, (&x,), fx), call_ensures(transfer, (&y,), fy), call_ensures(transfer, (&u,), fu)]
        elements(u@) == elements(x@).union(elements(y@)) && call_ensures(transfer, (&x,), fx)
            && call_ensures(transfer, (&y,), fy) && call_ensures(transfer, (&u,), fu) && elements(fu@)
            == elements(fx@).union(elements(fy@))
}

proof fn lemma_elements_take_next<T: View>(d: Seq<T>, i: int)
    requires
        0 <= i < d.len(),
    ensures
        elements(d.take(i + 1)) == elements(d.take(i)).insert(d[i]@),
{
    let longer = d.take(i + 1);
    let shorter = d.take(i);
    assert(elements(longer) =~= elements(shorter).insert(d[i]@)) by {
        assert forall|v: T::V| elements(longer).contains(v) implies elements(shorter).insert(d[i]@).contains(v) by {
            let t = choose|t: int| 0 <= t < longer.len() && (#[trigger] longer[t])@ == v;
            if t < i {
                assert(shorter[t] == d[t]);
            }
        }
        assert forall|v: T::V| elements(shorter).insert(d[i]@).contains(v) implies elements(longer).contains(v) by {
            if v == d[i]@ {
                assert(longer[i] == d[i]);
            } else {
                let t = choose|t: int| 0 <= t < shorter.len() && (#[trigger] shorter[t])@ == v;
                assert(longer[t] == d[t]);
            }
        }
    }
}

/// Checks on every pair of subsets of a small domain that the transfer of
/// their union is the union of their transfers. Domains with as many
/// elements as `usize` has bits are refused. A refusal of a smaller domain
/// comes with two subsets of the domain on which the transfer was seen not
/// to distribute; an acceptance means that it was seen to distribute on a
/// pair of lists for each pair of subsets of the domain.
pub fn is_distributive<T: DomainElement, F: Fn(&Vec<T>) -> Vec<T>>(domain: &Vec<T>, transfer: F) -> (res:
    bool)
    requires
        forall|x: &Vec<T>| call_requires(transfer, (x,)),
    ensures
        domain@.len() >= usize::BITS ==> !res,
        !res && domain@.len() < usize::BITS ==> exists|
            x: Vec<T>,
            y: Vec<T>,
            u: Vec<T>,
            fx: Vec<T>,
            fy: Vec<T>,
            fu: Vec<T>,
        |
            #![trigger call_ensures(transfer, (&x,), fx), call_ensures(transfer, (&y,), fy), call_ensures(transfer, (&u,), fu)]
            within(x@, domain@) && within(y@, domain@) && elements(u@) == elements(x@).union(
                elements(y@),
            ) && call_ensures(transfer, (&x,), fx) && call_ensures(transfer, (&y,), fy)
                && call_ensures(transfer, (&u,), fu) && elements(fu@) != elements(fx@).union(
                elements(fy@),
            ),
        res ==> forall|s1: Set<T::V>, s2: Set<T::V>|
            #![trigger s1.subset_of(elements(domain@)), s2.subset_of(elements(domain@))]
            s1.subset_of(elements(domain@)) && s2.subset_of(elements(domain@)) ==> exists|x: Vec<T>, y: Vec<T>|
                #![trigger distributes_on(transfer, x, y)]
                elements(x@) == s1 && elements(y@) == s2 && distributes_on(transfer, x, y),
{
    if domain.len() >= usize::BITS as usize {
        return false;
    }
    let mut subsets: Vec<Vec<T>> = Vec::new();
    subsets.push(Vec::new());
    proof {
        assert(domain@.take(0) =~= Seq::<T>::empty());
        assert forall|s: Set<T::V>| #[trigger] s.subset_of(elements(domain@.take(0))) implies exists|j: int|
            0 <= j < subsets@.len() && elements(#[trigger] subsets@[j]@) == s by {
            assert(elements(subsets@[0]@) =~= s);
        }
    }
    let mut i: usize = 0;
    while i < domain.len()
        invariant
            i <= domain@.len(),
            forall|j: int| 0 <= j < subsets@.len() ==> within(#[trigger] subsets@[j]@, domain@),
            covers(subsets@, elements(domain@.take(i as int))),
        decreases domain.len() - i,
    {
        let count = subsets.len();
        let ghost start = subsets@;
        let ghost d = domain@[i as int]@;
        let mut k: usize = 0;
        while k < count
            invariant
                i < domain@.len(),
                count == start.len(),
                d == domain@[i as int]@,
                subsets@.len() == count + k,
                k <= count,
                forall|j: int| 0 <= j < count ==> #[trigger] subsets@[j] == start[j],
                forall|j: int|
                    0 <= j < k ==> elements(#[trigger] subsets@[count + j]@) == elements(start[j]@).insert(d),
                forall|j: int| 0 <= j < subsets@.len() ==> within(#[trigger] subsets@[j]@, domain@),
            decreases count - k,
        {
            let mut extended: Vec<T> = Vec::new();
            let base = &subsets[k];
            let mut c: usize = 0;
            while c < base.len()
                invariant
                    c <= base@.len(),
                    within(base@, domain@),
                    within(extended@, domain@),
                    extended@.len() == c,
                    forall|t: int| 0 <= t < c ==> (#[trigger] extended@[t])@ == base@[t]@,
                decreases base.len() - c,
            {
                let item = base[c].duplicate();
                proof {
                    assert(elements(domain@).contains(base@[c as int]@));
                }
                extended.push(item);
                c = c + 1;
            }
            let last = domain[i].duplicate();
            proof {
                assert(elements(domain@).contains(domain@[i as int]@));
            }
            extended.push(last);
            proof {
                assert(elements(extended@) =~= elements(start[k as int]@).insert(d)) by {
                    assert forall|v: T::V| elements(extended@).contains(v) implies elements(start[k as int]@).insert(
                        d,
                    ).contains(v) by {
                        let t = choose|t: int| 0 <= t < extended@.len() && (#[trigger] extended@[t])@ == v;
                        if t < c {
                            assert(start[k as int]@[t]@ == v);
                        }
                    }
                    assert forall|v: T::V| elements(start[k as int]@).insert(d).contains(v) implies elements(
                        extended@,
                    ).contains(v) by {
                        if v == d {
                            assert(extended@[c as int]@ == v);
                        } else {
                            let t = choose|t: int| 0 <= t < start[k as int]@.len() && (#[trigger] start[k as int]@[t])@ == v;
                            assert(extended@[t]@ == v);
                        }
                    }
                }
            }
            let ghost pushed = extended@;
            subsets.push(extended);
            proof {
                assert(subsets@[count + k]@ == pushed);
            }
            k = k + 1;
        }
        proof {
            lemma_elements_take_next(domain@, i as int);
            let p = elements(domain@.take(i as int));
            assert forall|s: Set<T::V>| #[trigger] s.subset_of(elements(domain@.take(i + 1))) implies exists|j: int|
                0 <= j < subsets@.len() && elements(#[trigger] subsets@[j]@) == s by {
                let rest = s.remove(d);
                assert(rest.subset_of(p));
                let j = choose|j: int| 0 <= j < start.len() && elements(#[trigger] start[j]@) == rest;
                if s.contains(d) {
                    assert(elements(subsets@[count + j]@) == rest.insert(d));
                    assert(rest.insert(d) =~= s);
                } else {
                    assert(rest =~= s);
                    assert(subsets@[j] == start[j]);
                }
            }
        }
        i = i + 1;
    }
    proof {
        assert(domain@.take(domain@.len() as int) =~= domain@);
    }
    let mut a: usize = 0;
    while a < subsets.len()
        invariant
            forall|x: &Vec<T>| call_requires(transfer, (x,)),
            forall|j: int| 0 <= j < subsets@.len() ==> within(#[trigger] subsets@[j]@, domain@),
            covers(subsets@, elements(domain@)),
            forall|j1: int, j2: int|
                0 <= j1 < a && 0 <= j2 < subsets@.len() ==> distributes_on(
                    transfer,
                    #[trigger] subsets@[j1],
                    #[trigger] subsets@[j2],
                ),
        decreases subsets.len() - a,
    {
        let mut b: usize = 0;
        while b < subsets.len()
            invariant
                a < subsets@.len(),
                forall|x: &Vec<T>| call_requires(transfer, (x,)),
                forall|j: int| 0 <= j < subsets@.len() ==> within(#[trigger] subsets@[j]@, domain@),
                covers(subsets@, elements(domain@)),
                forall|j1: int, j2: int|
                    0 <= j1 < a && 0 <= j2 < subsets@.len() ==> distributes_on(
                        transfer,
                        #[trigger] subsets@[j1],
                        #[trigger] subsets@[j2],
                    ),
                forall|j2: int| 0 <= j2 < b ==> distributes_on(transfer, subsets@[a as int], #[trigger] subsets@[j2]),
            decreases subsets.len() - b,
        {
            let union = union_of(&subsets[a], &subsets[b]);
            let together = transfer(&union);
            let left = transfer(&subsets[a]);
            let right = transfer(&subsets[b]);
            let separately = union_of(&left, &right);
            if !(contained_in(&together, &separately) && contained_in(&separately, &together)) {
                proof {
                    assert(elements(together@) != elements(separately@)) by {
                        if elements(together@) == elements(separately@) {
                            assert(elements(together@).subset_of(elements(separately@)));
                            assert(elements(separately@).subset_of(elements(together@)));
                        }
                    }
                    assert(within(subsets@[a as int]@, domain@));
                    assert(within(subsets@[b as int]@, domain@));
                    assert(call_ensures(transfer, (&subsets@[a as int],), left));
                }
                return false;
            }
            proof {
                assert(elements(together@) =~= elements(separately@));
                assert(call_ensures(transfer, (&subsets@[a as int],), left));
                assert(call_ensures(transfer, (&subsets@[b as int],), right));
                assert(call_ensures(transfer, (&union,), together));
                assert(distributes_on(transfer, subsets@[a as int], subsets@[b as int]));
            }
            b = b + 1;
        }
        a = a + 1;
    }
    proof {
        assert forall|s1: Set<T::V>, s2: Set<T::V>|
            s1.subset_of(elements(domain@)) && s2.subset_of(elements(domain@)) implies exists|x: Vec<T>, y: Vec<T>|
                #![trigger distributes_on(transfer, x, y)]
                elements(x@) == s1 && elements(y@) == s2 && distributes_on(transfer, x, y) by {
            let j1 = choose|j: int| 0 <= j < subsets@.len() && elements(#[trigger] subsets@[j]@) == s1;
            let j2 = choose|j: int| 0 <= j < subsets@.len() && elements(#[trigger] subsets@[j]@) == s2;
            assert(distributes_on(transfer, subsets@[j1], subsets@[j2]));
        }
    }
    true
}

// ---------------------------------------------------------------------------
// Fixtures: manifests and reviewed expectations.

pub const FIXTURE_SCHEMA_VERSION: u32 = 1;

#[derive(Debug, Clone, Copy, PartialEq, Eq, Structural)]
pub enum FixturePartition {
    Development,
    HeldOut,
}

#[derive(Debug, Clone, PartialEq, Eq)]
pub struct FixtureSnapshot {
    pub revision: String,
    pub content_id: String,
    pub directory: String,
}

#[derive(Debug, Clone, PartialEq, Eq)]
pub struct FixtureSnapshots {
    pub before: FixtureSnapshot,
    pub after: FixtureSnapshot,
}

#[derive(Debug, Clone, PartialEq, Eq)]
pub struct FixtureProvenance {
    pub repository: String,
    pub revision: Option<String>,
    pub pull_request: Option<String>,
    pub license: Option<String>,
    pub upstream_paths: Vec<String>,
}

/// A fixture case: its snapshots, change, selected binding, assumptions,
/// limits and the file of reviewed expectations.
#[derive(Debug, Clone, PartialEq, Eq)]
pub struct FixtureManifest {
    pub schema_version: u32,
    pub case_id: String,
    pub category_id: String,
    pub promoted: bool,
    pub partition: FixturePartition,
    pub project_configuration: Vec<(String, String)>,
    pub snapshots: FixtureSnapshots,
    pub change_file: String,
    pub selector: BindingSelector,
    pub counterpart: Option<BindingSelector>,
    pub entry_assumptions: Vec<EntryAssumption>,
    pub capabilities: CapabilitySet,
    pub model_versions: Vec<ModelVersion>,
    pub limits: AnalysisLimits,
    pub expected_file: String,
    pub provenance: Option<FixtureProvenance>,
}

#[derive(Debug, Clone, PartialEq, Eq)]
pub enum LabelLocation {
    Node { span: SourceSpan },
    Binding { span: SourceSpan },
}

impl LabelLocation {
    pub fn span(&self) -> (res: &SourceSpan)
        ensures
            *res == match *self {
                LabelLocation::Node { span } => span,
                LabelLocation::Binding { span } => span,
            },
    {
        match self {
            LabelLocation::Node { span } => span,
            LabelLocation::Binding { span } => span,
        }
    }
}

/// A reviewed name for one logical operation, by its span on each side.
#[derive(Debug, Clone, PartialEq, Eq)]
pub struct LogicalLabel {
    pub before: Option<LabelLocation>,
    pub after: Option<LabelLocation>,
}

#[derive(Debug, Clone, PartialEq, Eq, PartialOrd, Ord)]
pub struct ExpectedRelation {
    pub source: String,
    pub consumer: String,
    pub relation: RelationKind,
    pub projection: Option<String>,
}

#[derive(Debug, Clone, PartialEq, Eq)]
pub struct ExpectedSidedRelation {
    pub side: SnapshotSide,
    pub relation: ExpectedRelation,
}

/// A delta in terms of reviewed labels.
#[derive(Debug, Clone, PartialEq, Eq, PartialOrd, Ord)]
pub enum ExpectedDelta {
    NodeAdded { node: String },
    NodeRemoved { node: String },
    SliceMembershipChanged { node: String, change: MembershipChange },
    OperationChanged { node: String },
    WriteAdded { node: String },
    WriteRemoved { node: String },
    FlowAdded { relation: ExpectedRelation },
    FlowRemoved { relation: ExpectedRelation },
    FlowConditionChanged { relation: ExpectedRelation, before: String, after: String },
    /// The source labels form sets: their order does not matter.
    ValueSourceChanged {
        consumer: String,
        projection: String,
        before_sources: Vec<String>,
        after_sources: Vec<String>,
    },
    AnalysisUnknown { subject: String, side: Option<SnapshotSide>, diagnostic: DiagnosticCode },
}

#[derive(Debug, Clone, PartialEq, Eq)]
pub struct ExpectedEnding {
    pub side: SnapshotSide,
    pub kind: PathEndingKind,
    pub location: SourceSpan,
    pub condition: Option<String>,
    pub diagnostic: Option<DiagnosticCode>,
}

#[derive(Debug, Clone, PartialEq, Eq)]
pub struct WitnessAssertion {
    pub label: String,
    pub ordered_nodes: Vec<String>,
    pub required_backedges: Vec<(String, String)>,
    pub required_summary_expansions: Vec<String>,
}

#[derive(Debug, Clone, PartialEq, Eq)]
pub struct ExpectedUnknownFrontier {
    pub node: String,
    pub diagnostic: DiagnosticCode,
    pub direction: Direction,
}

/// The reviewed expectations of a fixture: labels, required and forbidden
/// deltas and relations, endings, witnesses, frontiers, summaries, coverage
/// and completeness. Label names are unique.
#[derive(Debug, Clone, PartialEq, Eq)]
pub struct FixtureExpectations {
    pub schema_version: u32,
    pub labels: Vec<(String, LogicalLabel)>,
    pub required: Vec<ExpectedDelta>,
    pub forbidden: Vec<ExpectedDelta>,
    pub retained_relations: Vec<ExpectedRelation>,
    pub required_relations: Vec<ExpectedSidedRelation>,
    pub forbidden_relations: Vec<ExpectedSidedRelation>,
    pub required_endings: Vec<ExpectedEnding>,
    pub witness_assertions: Vec<WitnessAssertion>,
    pub required_unknown_frontiers: Vec<ExpectedUnknownFrontier>,
    pub summaries_used: Vec<ModelVersion>,
    pub coverage: FlowExtent,
    pub completeness: Completeness,
}

#[derive(Debug, Clone, PartialEq, Eq)]
pub struct LoadedFixture {
    pub root: String,
    pub manifest: FixtureManifest,
    pub expected: FixtureExpectations,
}

fn text_is(text: &String, literal: &str) -> bool {
    str_equal(text.as_str(), literal)
}

fn invalid(text: &str) -> (res: FixtureError)
    ensures
        res is Invalid,
{
    FixtureError::Invalid(String::from_str(text))
}

fn missing(field: &str) -> (res: FixtureError)
    ensures
        res is MissingField,
{
    FixtureError::MissingField(String::from_str(field))
}

/// A path inside the fixture: not empty (else the field is missing),
/// relative and without `.` or `..` segments.
pub fn check_child_path(relative: &str, field: &str) -> (res: Result<(), FixtureError>)
    ensures
        relative@.len() == 0 ==> res matches Err(FixtureError::MissingField(_)),
        relative@.len() > 0 ==> (res is Ok <==> path_normal(relative@)),
{
    if relative.unicode_len() == 0 {
        return Err(missing(field));
    }
    match validate_path(relative) {
        Ok(()) => Ok(()),
        Err(_) => Err(
            FixtureError::Invalid(
                String::from_str(field).concat(" must be a relative path without traversal"),
            ),
        ),
    }
}

/// The checks of a manifest that need no files: schema version, required
/// fields, valid selector spans, declared model versions, and paths that
/// stay inside the fixture.
pub fn validate_manifest(manifest: &FixtureManifest) -> (res: Result<(), FixtureError>)
    ensures
        manifest.schema_version != FIXTURE_SCHEMA_VERSION ==> res is Err,
        res is Ok <==> {
            &&& manifest.schema_version == FIXTURE_SCHEMA_VERSION
            &&& manifest.case_id@.len() > 0
            &&& manifest.category_id@.len() > 0
            &&& manifest.selector.declaration.path@.len() > 0
            &&& span_valid(manifest.selector.declaration)
            &&& (manifest.counterpart matches Some(c) ==> span_valid(c.declaration))
            &&& manifest.model_versions@.len() > 0
            &&& manifest.expected_file@.len() > 0
            &&& manifest.snapshots.before.directory@.len() > 0
            &&& manifest.snapshots.after.directory@.len() > 0
            &&& manifest.change_file@.len() > 0
            &&& path_normal(manifest.expected_file@)
            &&& path_normal(manifest.change_file@)
            &&& path_normal(manifest.snapshots.before.directory@)
            &&& path_normal(manifest.snapshots.after.directory@)
        },
{
    if manifest.schema_version != FIXTURE_SCHEMA_VERSION {
        return Err(
            FixtureError::Invalid(
                String::from_str("unsupported manifest schema ").concat(
                    manifest.schema_version.to_string().as_str(),
                ),
            ),
        );
    }
    if manifest.case_id.unicode_len() == 0 {
        return Err(missing("case_id"));
    }
    if manifest.category_id.unicode_len() == 0 {
        return Err(missing("category_id"));
    }
    if manifest.selector.declaration.path.unicode_len() == 0 {
        return Err(missing("selector"));
    }
    if let Err(e) = manifest.selector.declaration.validate() {
        return Err(FixtureError::Invalid(e.message()));
    }
    if let Some(counterpart) = &manifest.counterpart {
        if let Err(e) = counterpart.declaration.validate() {
            return Err(FixtureError::Invalid(e.message()));
        }
    }
    if manifest.model_versions.len() == 0 {
        return Err(missing("model_versions"));
    }
    if manifest.expected_file.unicode_len() == 0 {
        return Err(missing("expected_file"));
    }
    check_child_path(manifest.snapshots.before.directory.as_str(), "snapshots.before.directory")?;
    check_child_path(manifest.snapshots.after.directory.as_str(), "snapshots.after.directory")?;
    check_child_path(manifest.change_file.as_str(), "change_file")?;
    check_child_path(manifest.expected_file.as_str(), "expected_file")?;
    Ok(())
}

fn label_index(expected: &FixtureExpectations, name: &String) -> (res: Option<usize>)
    ensures
        res matches Some(i) ==> i < expected.labels@.len() && expected.labels@[i as int].0@ == name@,
        res is None ==> forall|i: int| 0 <= i < expected.labels@.len() ==> (#[trigger] expected.labels@[i]).0@ != name@,
{
    let mut k: usize = 0;
    while k < expected.labels.len()
        invariant
            k <= expected.labels@.len(),
            forall|i: int| 0 <= i < k ==> (#[trigger] expected.labels@[i]).0@ != name@,
        decreases expected.labels.len() - k,
    {
        if expected.labels[k].0 == *name {
            return Some(k);
        }
        k = k + 1;
    }
    None
}

/// Whether the expectations declare the label.
pub open spec fn declares(expected: FixtureExpectations, name: Seq<char>) -> bool {
    exists|i: int| 0 <= i < expected.labels@.len() && (#[trigger] expected.labels@[i]).0@ == name
}

fn require_label(expected: &FixtureExpectations, name: &String) -> (res: Result<(), FixtureError>)
    ensures
        res is Ok <==> declares(*expected, name@),
{
    match label_index(expected, name) {
        Some(_) => Ok(()),
        None => Err(
            FixtureError::Invalid(
                String::from_str("expectation references undeclared logical label `").concat(
                    name.as_str(),
                ).concat("`"),
            ),
        ),
    }
}

fn require_relation(expected: &FixtureExpectations, relation: &ExpectedRelation) -> (res: Result<
    (),
    FixtureError,
>)
    ensures
        res is Ok <==> declares(*expected, relation.source@) && declares(
            *expected,
            relation.consumer@,
        ),
{
    require_label(expected, &relation.source)?;
    require_label(expected, &relation.consumer)
}

/// Every label an expected delta names is declared.
pub open spec fn delta_labels_declared(expected: FixtureExpectations, delta: ExpectedDelta) -> bool {
    match delta {
        ExpectedDelta::NodeAdded { node } => declares(expected, node@),
        ExpectedDelta::NodeRemoved { node } => declares(expected, node@),
        ExpectedDelta::SliceMembershipChanged { node, .. } => declares(expected, node@),
        ExpectedDelta::OperationChanged { node } => declares(expected, node@),
        ExpectedDelta::WriteAdded { node } => declares(expected, node@),
        ExpectedDelta::WriteRemoved { node } => declares(expected, node@),
        ExpectedDelta::FlowAdded { relation } => declares(expected, relation.source@) && declares(expected, relation.consumer@),
        ExpectedDelta::FlowRemoved { relation } => declares(expected, relation.source@) && declares(expected, relation.consumer@),
        ExpectedDelta::FlowConditionChanged { relation, .. } => declares(expected, relation.source@) && declares(
            expected,
            relation.consumer@,
        ),
        ExpectedDelta::ValueSourceChanged { consumer, before_sources, after_sources, .. } => {
            &&& declares(expected, consumer@)
            &&& forall|i: int| 0 <= i < before_sources@.len() ==> declares(expected, (#[trigger] before_sources@[i])@)
            &&& forall|i: int| 0 <= i < after_sources@.len() ==> declares(expected, (#[trigger] after_sources@[i])@)
        },
        ExpectedDelta::AnalysisUnknown { .. } => true,
    }
}

#[verifier::loop_isolation(false)]
fn require_delta_labels(expected: &FixtureExpectations, delta: &ExpectedDelta) -> (res: Result<(), FixtureError>)
    ensures
        res is Ok <==> delta_labels_declared(*expected, *delta),
{
    match delta {
        ExpectedDelta::NodeAdded { node } | ExpectedDelta::NodeRemoved { node }
        | ExpectedDelta::SliceMembershipChanged { node, .. }
        | ExpectedDelta::OperationChanged { node } | ExpectedDelta::WriteAdded { node }
        | ExpectedDelta::WriteRemoved { node } => require_label(expected, node),
        ExpectedDelta::FlowAdded { relation } | ExpectedDelta::FlowRemoved { relation }
        | ExpectedDelta::FlowConditionChanged { relation, .. } => require_relation(expected, relation),
        ExpectedDelta::ValueSourceChanged { consumer, before_sources, after_sources, .. } => {
            require_label(expected, consumer)?;
            let mut k: usize = 0;
            while k < before_sources.len()
                invariant
                    k <= before_sources@.len(),
                    forall|i: int| 0 <= i < k ==> declares(*expected, (#[trigger] before_sources@[i])@),
                decreases before_sources.len() - k,
            {
                match require_label(expected, &before_sources[k]) {
                    Ok(()) => {},
                    Err(e) => {
                        proof {
                            assert(!declares(*expected, before_sources@[k as int]@));
                        }
                        return Err(e);
                    },
                }
                k = k + 1;
            }
            let mut k: usize = 0;
            while k < after_sources.len()
                invariant
                    k <= after_sources@.len(),
                    forall|i: int| 0 <= i < before_sources@.len() ==> declares(*expected, (#[trigger] before_sources@[i])@),
                    forall|i: int| 0 <= i < k ==> declares(*expected, (#[trigger] after_sources@[i])@),
                decreases after_sources.len() - k,
            {
                match require_label(expected, &after_sources[k]) {
                    Ok(()) => {},
                    Err(e) => {
                        proof {
                            assert(!declares(*expected, after_sources@[k as int]@));
                        }
                        return Err(e);
                    },
                }
                k = k + 1;
            }
            Ok(())
        },
        ExpectedDelta::AnalysisUnknown { .. } => Ok(()),
    }
}

/// A label's location, where it has one, has a valid span.
pub open spec fn location_valid(location: Option<LabelLocation>) -> bool {
    match location {
        Some(LabelLocation::Node { span }) => span_valid(span),
        Some(LabelLocation::Binding { span }) => span_valid(span),
        None => true,
    }
}

/// Reviewed expectations that the checks accept: the schema version, every
/// label named and placed with valid spans, and every expectation naming
/// declared labels only.
pub open spec fn expectations_valid(expected: FixtureExpectations) -> bool {
    &&& expected.schema_version == FIXTURE_SCHEMA_VERSION
    &&& forall|i: int| 0 <= i < expected.labels@.len() ==> {
        &&& (#[trigger] expected.labels@[i]).0@.len() > 0
        &&& !(expected.labels@[i].1.before is None && expected.labels@[i].1.after is None)
        &&& location_valid(expected.labels@[i].1.before)
        &&& location_valid(expected.labels@[i].1.after)
    }
    &&& forall|i: int| 0 <= i < expected.retained_relations@.len() ==> declares(
        expected,
        (#[trigger] expected.retained_relations@[i]).source@,
    ) && declares(expected, expected.retained_relations@[i].consumer@)
    &&& forall|i: int| 0 <= i < expected.required_relations@.len() ==> declares(
        expected,
        (#[trigger] expected.required_relations@[i]).relation.source@,
    ) && declares(expected, expected.required_relations@[i].relation.consumer@)
    &&& forall|i: int| 0 <= i < expected.forbidden_relations@.len() ==> declares(
        expected,
        (#[trigger] expected.forbidden_relations@[i]).relation.source@,
    ) && declares(expected, expected.forbidden_relations@[i].relation.consumer@)
    &&& forall|i: int| 0 <= i < expected.required@.len() ==> delta_labels_declared(expected, #[trigger] expected.required@[i])
    &&& forall|i: int| 0 <= i < expected.forbidden@.len() ==> delta_labels_declared(expected, #[trigger] expected.forbidden@[i])
    &&& forall|i: int, j: int|
        0 <= i < expected.witness_assertions@.len() && 0 <= j < expected.witness_assertions@[i].ordered_nodes@.len()
            ==> declares(expected, (#[trigger] expected.witness_assertions@[i].ordered_nodes@[j])@)
    &&& forall|i: int, j: int|
        0 <= i < expected.witness_assertions@.len() && 0 <= j < expected.witness_assertions@[i].required_backedges@.len()
            ==> declares(expected, (#[trigger] expected.witness_assertions@[i].required_backedges@[j]).0@) && declares(
            expected,
            expected.witness_assertions@[i].required_backedges@[j].1@,
        )
    &&& forall|i: int| 0 <= i < expected.required_unknown_frontiers@.len() ==> declares(
        expected,
        (#[trigger] expected.required_unknown_frontiers@[i]).node@,
    )
}

/// Checks reviewed expectations: the schema version, that every label has
/// a name, a location and valid spans, and that every expectation names
/// declared labels only.
#[verifier::loop_isolation(false)]
pub fn validate_expectations(expected: &FixtureExpectations) -> (res: Result<(), FixtureError>)
    ensures
        expected.schema_version != FIXTURE_SCHEMA_VERSION ==> res is Err,
        res is Ok <==> expectations_valid(*expected),
        res is Ok ==> {
            &&& forall|i: int| 0 <= i < expected.labels@.len() ==> {
                &&& (#[trigger] expected.labels@[i]).0@.len() > 0
                &&& !(expected.labels@[i].1.before is None && expected.labels@[i].1.after is None)
            }
            &&& forall|i: int| 0 <= i < expected.retained_relations@.len() ==> declares(
                *expected,
                (#[trigger] expected.retained_relations@[i]).source@,
            ) && declares(*expected, expected.retained_relations@[i].consumer@)
            &&& forall|i: int| 0 <= i < expected.required_unknown_frontiers@.len() ==> declares(
                *expected,
                (#[trigger] expected.required_unknown_frontiers@[i]).node@,
            )
        },
{
    if expected.schema_version != FIXTURE_SCHEMA_VERSION {
        return Err(
            FixtureError::Invalid(
                String::from_str("unsupported expected schema ").concat(
                    expected.schema_version.to_string().as_str(),
                ),
            ),
        );
    }
    let mut k: usize = 0;
    while k < expected.labels.len()
        invariant
            k <= expected.labels@.len(),
            expected.schema_version == FIXTURE_SCHEMA_VERSION,
            forall|i: int| 0 <= i < k ==> {
                &&& (#[trigger] expected.labels@[i]).0@.len() > 0
                &&& !(expected.labels@[i].1.before is None && expected.labels@[i].1.after is None)
                &&& location_valid(expected.labels@[i].1.before)
                &&& location_valid(expected.labels@[i].1.after)
            },
        decreases expected.labels.len() - k,
    {
        let (name, label) = &expected.labels[k];
        if name.unicode_len() == 0 || (label.before.is_none() && label.after.is_none()) {
            proof {
                assert(!expectations_valid(*expected)) by {
                    assert(expected.labels@[k as int].0@ == name@);
                }
            }
            return Err(invalid("logical labels need a name and at least one location"));
        }
        if let Some(location) = &label.before {
            if let Err(e) = location.span().validate() {
                proof {
                    assert(!location_valid(expected.labels@[k as int].1.before));
                    assert(!expectations_valid(*expected));
                }
                return Err(FixtureError::Invalid(e.message()));
            }
        }
        if let Some(location) = &label.after {
            if let Err(e) = location.span().validate() {
                proof {
                    assert(!location_valid(expected.labels@[k as int].1.after));
                    assert(!expectations_valid(*expected));
                }
                return Err(FixtureError::Invalid(e.message()));
            }
        }
        k = k + 1;
    }
    let mut k: usize = 0;
    while k < expected.retained_relations.len()
        invariant
            k <= expected.retained_relations@.len(),
            forall|i: int| 0 <= i < k ==> declares(
                *expected,
                (#[trigger] expected.retained_relations@[i]).source@,
            ) && declares(*expected, expected.retained_relations@[i].consumer@),
        decreases expected.retained_relations.len() - k,
    {
        match require_relation(expected, &expected.retained_relations[k]) {
            Ok(()) => {},
            Err(e) => {
                proof {
                    assert(!(declares(*expected, expected.retained_relations@[k as int].source@) && declares(*expected, expected.retained_relations@[k as int].consumer@)));
                    assert(!expectations_valid(*expected));
                }
                return Err(e);
            },
        }
        k = k + 1;
    }
    let mut k: usize = 0;
    while k < expected.required_relations.len()
        invariant
            k <= expected.required_relations@.len(),
            forall|i: int| 0 <= i < k ==> declares(
                *expected,
                (#[trigger] expected.required_relations@[i]).relation.source@,
            ) && declares(*expected, expected.required_relations@[i].relation.consumer@),
        decreases expected.required_relations.len() - k,
    {
        match require_relation(expected, &expected.required_relations[k].relation) {
            Ok(()) => {},
            Err(e) => {
                proof {
                    assert(!(declares(*expected, expected.required_relations@[k as int].relation.source@) && declares(*expected, expected.required_relations@[k as int].relation.consumer@)));
                    assert(!expectations_valid(*expected));
                }
                return Err(e);
            },
        }
        k = k + 1;
    }
    let mut k: usize = 0;
    while k < expected.forbidden_relations.len()
        invariant
            k <= expected.forbidden_relations@.len(),
            forall|i: int| 0 <= i < k ==> declares(
                *expected,
                (#[trigger] expected.forbidden_relations@[i]).relation.source@,
            ) && declares(*expected, expected.forbidden_relations@[i].relation.consumer@),
        decreases expected.forbidden_relations.len() - k,
    {
        match require_relation(expected, &expected.forbidden_relations[k].relation) {
            Ok(()) => {},
            Err(e) => {
                proof {
                    assert(!(declares(*expected, expected.forbidden_relations@[k as int].relation.source@) && declares(*expected, expected.forbidden_relations@[k as int].relation.consumer@)));
                    assert(!expectations_valid(*expected));
                }
                return Err(e);
            },
        }
        k = k + 1;
    }
    let mut k: usize = 0;
    while k < expected.required.len()
        invariant
            k <= expected.required@.len(),
            forall|i: int| 0 <= i < k ==> delta_labels_declared(*expected, #[trigger] expected.required@[i]),
        decreases expected.required.len() - k,
    {
        match require_delta_labels(expected, &expected.required[k]) {
            Ok(()) => {},
            Err(e) => {
                proof {
                    assert(!(delta_labels_declared(*expected, expected.required@[k as int])));
                    assert(!expectations_valid(*expected));
                }
                return Err(e);
            },
        }
        k = k + 1;
    }
    let mut k: usize = 0;
    while k < expected.forbidden.len()
        invariant
            k <= expected.forbidden@.len(),
            forall|i: int| 0 <= i < k ==> delta_labels_declared(*expected, #[trigger] expected.forbidden@[i]),
        decreases expected.forbidden.len() - k,
    {
        match require_delta_labels(expected, &expected.forbidden[k]) {
            Ok(()) => {},
            Err(e) => {
                proof {
                    assert(!(delta_labels_declared(*expected, expected.forbidden@[k as int])));
                    assert(!expectations_valid(*expected));
                }
                return Err(e);
            },
        }
        k = k + 1;
    }
    let mut k: usize = 0;
    while k < expected.witness_assertions.len()
        invariant
            k <= expected.witness_assertions@.len(),
            forall|i: int, j: int|
                0 <= i < k && 0 <= j < expected.witness_assertions@[i].ordered_nodes@.len() ==> declares(
                    *expected,
                    (#[trigger] expected.witness_assertions@[i].ordered_nodes@[j])@,
                ),
            forall|i: int, j: int|
                0 <= i < k && 0 <= j < expected.witness_assertions@[i].required_backedges@.len() ==> declares(
                    *expected,
                    (#[trigger] expected.witness_assertions@[i].required_backedges@[j]).0@,
                ) && declares(*expected, expected.witness_assertions@[i].required_backedges@[j].1@),
        decreases expected.witness_assertions.len() - k,
    {
        let witness = &expected.witness_assertions[k];
        let mut j: usize = 0;
        while j < witness.ordered_nodes.len()
            invariant
                j <= witness.ordered_nodes@.len(),
                witness == &expected.witness_assertions@[k as int],
                forall|x: int| 0 <= x < j ==> declares(*expected, (#[trigger] witness.ordered_nodes@[x])@),
            decreases witness.ordered_nodes.len() - j,
        {
            match require_label(expected, &witness.ordered_nodes[j]) {
                Ok(()) => {},
                Err(e) => {
                    proof {
                        assert(!(declares(*expected, expected.witness_assertions@[k as int].ordered_nodes@[j as int]@)));
                        assert(!expectations_valid(*expected));
                    }
                    return Err(e);
                },
            }
            j = j + 1;
        }
        let mut j: usize = 0;
        while j < witness.required_backedges.len()
            invariant
                j <= witness.required_backedges@.len(),
                witness == &expected.witness_assertions@[k as int],
                forall|x: int| 0 <= x < witness.ordered_nodes@.len() ==> declares(*expected, (#[trigger] witness.ordered_nodes@[x])@),
                forall|x: int|
                    0 <= x < j ==> declares(*expected, (#[trigger] witness.required_backedges@[x]).0@) && declares(
                        *expected,
                        witness.required_backedges@[x].1@,
                    ),
            decreases witness.required_backedges.len() - j,
        {
            match require_label(expected, &witness.required_backedges[j].0) {
                Ok(()) => {},
                Err(e) => {
                    proof {
                        assert(!(declares(*expected, expected.witness_assertions@[k as int].required_backedges@[j as int].0@)));
                        assert(!expectations_valid(*expected));
                    }
                    return Err(e);
                },
            }
            match require_label(expected, &witness.required_backedges[j].1) {
                Ok(()) => {},
                Err(e) => {
                    proof {
                        assert(!(declares(*expected, expected.witness_assertions@[k as int].required_backedges@[j as int].1@)));
                        assert(!expectations_valid(*expected));
                    }
                    return Err(e);
                },
            }
            j = j + 1;
        }
        k = k + 1;
    }
    let mut k: usize = 0;
    while k < expected.required_unknown_frontiers.len()
        invariant
            k <= expected.required_unknown_frontiers@.len(),
            forall|i: int| 0 <= i < k ==> declares(
                *expected,
                (#[trigger] expected.required_unknown_frontiers@[i]).node@,
            ),
        decreases expected.required_unknown_frontiers.len() - k,
    {
        match require_label(expected, &expected.required_unknown_frontiers[k].node) {
            Ok(()) => {},
            Err(e) => {
                proof {
                    assert(!(declares(*expected, expected.required_unknown_frontiers@[k as int].node@)));
                    assert(!expectations_valid(*expected));
                }
                return Err(e);
            },
        }
        k = k + 1;
    }
    Ok(())
}

fn model_equal(a: &ModelVersion, b: &ModelVersion) -> (res: bool)
    ensures
        res == crate::ifds::slicing::model_same(*a, *b),
{
    a.name == b.name && a.version == b.version && a.digest == b.digest
}

/// The checks that relate the manifest to its expectations without reading
/// files: summaries used are declared, and each selector names the
/// manifest's snapshot of its side.
/// The manifest declares a model version.
pub open spec fn model_declared(manifest: FixtureManifest, model: ModelVersion) -> bool {
    exists|j: int| 0 <= j < manifest.model_versions@.len() && crate::ifds::slicing::model_same(
        #[trigger] manifest.model_versions@[j],
        model,
    )
}

/// A selector names the manifest's snapshot of its side.
pub open spec fn selector_matches(manifest: FixtureManifest, selector: BindingSelector) -> bool {
    let snapshot = match selector.snapshot.side {
        SnapshotSide::Before => manifest.snapshots.before,
        SnapshotSide::After => manifest.snapshots.after,
    };
    selector.snapshot.revision@ == snapshot.revision@ && selector.snapshot.content_id@ == snapshot.content_id@
}

/// Expectations and manifest agree: each summary used is declared, and the
/// selectors name the manifest's snapshots.
pub open spec fn declarations_agree(manifest: FixtureManifest, expected: FixtureExpectations) -> bool {
    &&& forall|k: int| 0 <= k < expected.summaries_used@.len() ==> model_declared(manifest, #[trigger] expected.summaries_used@[k])
    &&& selector_matches(manifest, manifest.selector)
    &&& (manifest.counterpart matches Some(c) ==> selector_matches(manifest, c))
}

pub fn validate_fixture_declarations(manifest: &FixtureManifest, expected: &FixtureExpectations) -> (res: Result<
    (),
    FixtureError,
>)
    ensures
        res is Ok <==> declarations_agree(*manifest, *expected),
{
    let mut k: usize = 0;
    while k < expected.summaries_used.len()
        invariant
            k <= expected.summaries_used@.len(),
            forall|x: int| 0 <= x < k ==> model_declared(*manifest, #[trigger] expected.summaries_used@[x]),
        decreases expected.summaries_used.len() - k,
    {
        let mut found = false;
        let mut j: usize = 0;
        while j < manifest.model_versions.len()
            invariant
                j <= manifest.model_versions@.len(),
                k < expected.summaries_used@.len(),
                found == exists|x: int| 0 <= x < j && crate::ifds::slicing::model_same(
                    #[trigger] manifest.model_versions@[x],
                    expected.summaries_used@[k as int],
                ),
            decreases manifest.model_versions.len() - j,
        {
            if model_equal(&manifest.model_versions[j], &expected.summaries_used[k]) {
                found = true;
            }
            j = j + 1;
        }
        if !found {
            proof {
                assert(!model_declared(*manifest, expected.summaries_used@[k as int]));
            }
            return Err(invalid("expected summary assumptions are not declared by the manifest"));
        }
        k = k + 1;
    }
    let mut s: usize = 0;
    while s < 2
        invariant
            s <= 2,
            forall|x: int| 0 <= x < expected.summaries_used@.len() ==> model_declared(*manifest, #[trigger] expected.summaries_used@[x]),
            s >= 1 ==> selector_matches(*manifest, manifest.selector),
            s >= 2 ==> (manifest.counterpart matches Some(c) ==> selector_matches(*manifest, c)),
        decreases 2 - s,
    {
        let selector = if s == 0 {
            Some(&manifest.selector)
        } else {
            match &manifest.counterpart {
                Some(c) => Some(c),
                None => None,
            }
        };
        if let Some(selector) = selector {
            let snapshot = match selector.snapshot.side {
                SnapshotSide::Before => &manifest.snapshots.before,
                SnapshotSide::After => &manifest.snapshots.after,
            };
            if selector.snapshot.revision != snapshot.revision || selector.snapshot.content_id
                != snapshot.content_id {
                return Err(invalid("selector snapshot identity does not match the manifest"));
            }
        }
        s = s + 1;
    }
    Ok(())
}

/// A span lies within the UTF-8 text of its file and on character
/// boundaries.
pub fn validate_span_in_text(bytes: &Vec<u8>, span: &SourceSpan, display_path: &str) -> (res: Result<
    (),
    FixtureError,
>)
    ensures
        res is Ok <==> {
            &&& vstd::utf8::valid_utf8(bytes@)
            &&& span.byte_end <= bytes@.len()
            &&& vstd::utf8::is_char_boundary(bytes@, span.byte_start as int)
            &&& vstd::utf8::is_char_boundary(bytes@, span.byte_end as int)
        },
{
    if !crate::ifds::snapshots::is_utf8(bytes.as_slice()) {
        return Err(
            FixtureError::Invalid(String::from_str(display_path).concat(" is not UTF-8")),
        );
    }
    if span.byte_start > usize::MAX as u64 || span.byte_end > usize::MAX as u64 {
        let n = bytes.len();
        proof {
            assert(bytes@.len() == n);
            if span.byte_start > usize::MAX {
                assert(!vstd::utf8::is_char_boundary(bytes@, span.byte_start as int));
            }
        }
        return Err(invalid("span does not fit this platform"));
    }
    let start = span.byte_start as usize;
    let end = span.byte_end as usize;
    if end > bytes.len() || !crate::ifds::snapshots::char_boundary(bytes, start)
        || !crate::ifds::snapshots::char_boundary(bytes, end) {
        return Err(
            FixtureError::Invalid(
                String::from_str("span is outside UTF-8 boundaries in ").concat(display_path),
            ),
        );
    }
    Ok(())
}

// ---------------------------------------------------------------------------
// Comparing a report with reviewed expectations.

fn location_span(location: &Option<LabelLocation>) -> Option<&SourceSpan> {
    match location {
        Some(l) => Some(l.span()),
        None => None,
    }
}

/// The reviewed label of a span on one side: the label located exactly
/// there, else the one whose span most tightly contains it; none or two
/// equally good are errors.
pub fn reviewed_label(expected: &FixtureExpectations, side: SnapshotSide, span: &SourceSpan) -> (res:
    Result<String, FixtureError>)
    ensures
        res matches Ok(name) ==> declares(*expected, name@),
        res matches Err(e) ==> e is Invalid,
{
    let labels = &expected.labels;
    let mut exact: Option<usize> = None;
    let mut k: usize = 0;
    while k < labels.len()
        invariant
            k <= labels@.len(),
            exact matches Some(i) ==> i < labels@.len(),
        decreases labels.len() - k,
    {
        let location = match side {
            SnapshotSide::Before => location_span(&labels[k].1.before),
            SnapshotSide::After => location_span(&labels[k].1.after),
        };
        if let Some(location) = location {
            if location.same(span) {
                if exact.is_some() {
                    return Err(
                        FixtureError::Invalid(
                            String::from_str("ambiguous reviewed label for ").concat(
                                debug_text(&side).as_str(),
                            ).concat(" span ").concat(debug_text(span).as_str()),
                        ),
                    );
                }
                exact = Some(k);
            }
        }
        k = k + 1;
    }
    if let Some(i) = exact {
        return Ok(labels[i].0.clone());
    }
    let mut best: Option<(u64, usize)> = None;
    let mut tie = false;
    let mut k: usize = 0;
    while k < labels.len()
        invariant
            k <= labels@.len(),
            best matches Some((_, i)) ==> i < labels@.len(),
        decreases labels.len() - k,
    {
        let location = match side {
            SnapshotSide::Before => location_span(&labels[k].1.before),
            SnapshotSide::After => location_span(&labels[k].1.after),
        };
        if let Some(outer) = location {
            if outer.path == span.path && outer.byte_start <= span.byte_start && span.byte_end
                <= outer.byte_end && outer.byte_start <= outer.byte_end {
                let size = outer.byte_end - outer.byte_start;
                match best {
                    None => {
                        best = Some((size, k));
                        tie = false;
                    },
                    Some((current, _)) => {
                        if size < current {
                            best = Some((size, k));
                            tie = false;
                        } else if size == current {
                            tie = true;
                        }
                    },
                }
            }
        }
        k = k + 1;
    }
    match best {
        None => Err(
            FixtureError::Invalid(
                String::from_str("no reviewed label for ").concat(debug_text(&side).as_str()).concat(
                    " span ",
                ).concat(debug_text(span).as_str()),
            ),
        ),
        Some((_, i)) => {
            if tie {
                Err(
                    FixtureError::Invalid(
                        String::from_str("ambiguous reviewed containing label for ").concat(
                            debug_text(&side).as_str(),
                        ).concat(" span ").concat(debug_text(span).as_str()),
                    ),
                )
            } else {
                Ok(labels[i].0.clone())
            }
        },
    }
}

/// The reviewed label of a node of the report.
fn node_label(expected: &FixtureExpectations, report: &VariableFlowReport, id: &NodeId) -> (res: Result<
    String,
    FixtureError,
>)
    ensures
        res matches Err(e) ==> e is Invalid,
{
    let graph = match id.snapshot.side {
        SnapshotSide::Before => &report.before_graph,
        SnapshotSide::After => &report.after_graph,
    };
    let mut k: usize = 0;
    while k < graph.nodes.len()
        invariant
            k <= graph.nodes@.len(),
        decreases graph.nodes.len() - k,
    {
        if graph.nodes[k].id.same(id) {
            return reviewed_label(expected, id.snapshot.side, &graph.nodes[k].span);
        }
        k = k + 1;
    }
    Err(
        FixtureError::Invalid(
            String::from_str("report references missing node ").concat(debug_text(id).as_str()),
        ),
    )
}

/// The reviewed label of a logical operation through its first runtime node.
fn logical_label(expected: &FixtureExpectations, report: &VariableFlowReport, id: LogicalNodeId) -> (res: Result<
    String,
    FixtureError,
>)
    ensures
        res matches Err(e) ==> e is Invalid,
{
    let mut k: usize = 0;
    while k < report.alignment.len()
        invariant
            k <= report.alignment@.len(),
        decreases report.alignment.len() - k,
    {
        let a = &report.alignment[k];
        if a.logical.0 == id.0 {
            return match (&a.before, &a.after) {
                (Some(node), _) => node_label(expected, report, node),
                (None, Some(node)) => node_label(expected, report, node),
                (None, None) => Err(
                    FixtureError::Invalid(
                        String::from_str("logical node ").concat(debug_text(&id).as_str()).concat(
                            " has no runtime node",
                        ),
                    ),
                ),
            };
        }
        k = k + 1;
    }
    Err(
        FixtureError::Invalid(
            String::from_str("report references unaligned logical node ").concat(
                debug_text(&id).as_str(),
            ),
        ),
    )
}

fn clone_option_text(t: &Option<String>) -> Option<String> {
    match t {
        Some(x) => Some(x.clone()),
        None => None,
    }
}

fn normalize_relation(
    expected: &FixtureExpectations,
    report: &VariableFlowReport,
    source: LogicalNodeId,
    target: LogicalNodeId,
    relation: RelationKind,
    projection: &Option<String>,
) -> (res: Result<ExpectedRelation, FixtureError>)
    ensures
        res matches Err(e) ==> e is Invalid,
{
    Ok(
        ExpectedRelation {
            source: logical_label(expected, report, source)?,
            consumer: logical_label(expected, report, target)?,
            relation,
            projection: clone_option_text(projection),
        },
    )
}

fn logical_labels(expected: &FixtureExpectations, report: &VariableFlowReport, ids: &Vec<LogicalNodeId>) -> (res: Result<
    Vec<String>,
    FixtureError,
>)
    ensures
        res matches Err(e) ==> e is Invalid,
{
    let mut out: Vec<String> = Vec::new();
    let mut k: usize = 0;
    while k < ids.len()
        invariant
            k <= ids@.len(),
        decreases ids.len() - k,
    {
        let label = logical_label(expected, report, ids[k])?;
        if !contains_string(&out, &label) {
            out.push(label);
        }
        k = k + 1;
    }
    Ok(out)
}

/// A delta of the report in terms of reviewed labels.
fn normalize_delta(expected: &FixtureExpectations, report: &VariableFlowReport, delta: &FlowDelta) -> (res: Result<
    ExpectedDelta,
    FixtureError,
>)
    ensures
        res matches Err(e) ==> e is Invalid,
{
    Ok(
        match delta {
            FlowDelta::NodeAdded { after } => ExpectedDelta::NodeAdded {
                node: node_label(expected, report, after)?,
            },
            FlowDelta::NodeRemoved { before } => ExpectedDelta::NodeRemoved {
                node: node_label(expected, report, before)?,
            },
            FlowDelta::SliceMembershipChanged { logical, change } => {
                ExpectedDelta::SliceMembershipChanged {
                    node: logical_label(expected, report, *logical)?,
                    change: *change,
                }
            },
            FlowDelta::OperationChanged { logical, .. } => ExpectedDelta::OperationChanged {
                node: logical_label(expected, report, *logical)?,
            },
            FlowDelta::WriteAdded { after } => ExpectedDelta::WriteAdded {
                node: node_label(expected, report, after)?,
            },
            FlowDelta::WriteRemoved { before } => ExpectedDelta::WriteRemoved {
                node: node_label(expected, report, before)?,
            },
            FlowDelta::FlowAdded { source, target, relation, projection } => ExpectedDelta::FlowAdded {
                relation: normalize_relation(expected, report, *source, *target, *relation, projection)?,
            },
            FlowDelta::FlowRemoved { source, target, relation, projection } => {
                ExpectedDelta::FlowRemoved {
                    relation: normalize_relation(
                        expected,
                        report,
                        *source,
                        *target,
                        *relation,
                        projection,
                    )?,
                }
            },
            FlowDelta::FlowConditionChanged { source, target, relation, projection, before, after } => {
                ExpectedDelta::FlowConditionChanged {
                    relation: normalize_relation(
                        expected,
                        report,
                        *source,
                        *target,
                        *relation,
                        projection,
                    )?,
                    before: before.clone(),
                    after: after.clone(),
                }
            },
            FlowDelta::ValueSourceChanged {
                consumer,
                projection,
                before_sources,
                after_sources,
                ..
            } => ExpectedDelta::ValueSourceChanged {
                consumer: logical_label(expected, report, *consumer)?,
                projection: projection.clone(),
                before_sources: logical_labels(expected, report, before_sources)?,
                after_sources: logical_labels(expected, report, after_sources)?,
            },
            FlowDelta::AnalysisUnknown { subject, side, diagnostic } => ExpectedDelta::AnalysisUnknown {
                subject: subject.clone(),
                side: *side,
                diagnostic: *diagnostic,
            },
        },
    )
}

fn contains_string(list: &Vec<String>, item: &String) -> (res: bool)
    ensures
        res == list@.map_values(|t: String| t@).contains(item@),
{
    let ghost views = list@.map_values(|t: String| t@);
    let mut k: usize = 0;
    while k < list.len()
        invariant
            k <= list@.len(),
            views == list@.map_values(|t: String| t@),
            forall|i: int| 0 <= i < k ==> views[i] != item@,
        decreases list.len() - k,
    {
        proof {
            assert(views[k as int] == list@[k as int]@);
        }
        if list[k] == *item {
            return true;
        }
        k = k + 1;
    }
    false
}

/// Two lists of texts hold the same set of texts.
fn same_text_set(a: &Vec<String>, b: &Vec<String>) -> (res: bool)
    ensures
        res == (a@.map_values(|t: String| t@).to_set() == b@.map_values(|t: String| t@).to_set()),
{
    let ghost av = a@.map_values(|t: String| t@);
    let ghost bv = b@.map_values(|t: String| t@);
    let mut k: usize = 0;
    while k < a.len()
        invariant
            k <= a@.len(),
            av == a@.map_values(|t: String| t@),
            bv == b@.map_values(|t: String| t@),
            forall|i: int| 0 <= i < k ==> bv.contains(#[trigger] av[i]),
        decreases a.len() - k,
    {
        proof {
            assert(av[k as int] == a@[k as int]@);
        }
        if !contains_string(b, &a[k]) {
            proof {
                assert(!bv.to_set().contains(av[k as int]));
                assert(av.to_set().contains(av[k as int]));
            }
            return false;
        }
        k = k + 1;
    }
    let mut k: usize = 0;
    while k < b.len()
        invariant
            k <= b@.len(),
            av == a@.map_values(|t: String| t@),
            bv == b@.map_values(|t: String| t@),
            forall|i: int| 0 <= i < av.len() ==> bv.contains(#[trigger] av[i]),
            forall|i: int| 0 <= i < k ==> av.contains(#[trigger] bv[i]),
        decreases b.len() - k,
    {
        proof {
            assert(bv[k as int] == b@[k as int]@);
        }
        if !contains_string(a, &b[k]) {
            proof {
                assert(!av.to_set().contains(bv[k as int]));
                assert(bv.to_set().contains(bv[k as int]));
            }
            return false;
        }
        k = k + 1;
    }
    proof {
        assert forall|x: Seq<char>| av.to_set().contains(x) == bv.to_set().contains(x) by {
            if av.contains(x) {
                let i = choose|i: int| 0 <= i < av.len() && av[i] == x;
                assert(bv.contains(av[i]));
            }
            if bv.contains(x) {
                let i = choose|i: int| 0 <= i < bv.len() && bv[i] == x;
                assert(av.contains(bv[i]));
            }
        }
        assert(av.to_set() =~= bv.to_set());
    }
    true
}

fn option_text_equal(a: &Option<String>, b: &Option<String>) -> bool {
    match (a, b) {
        (Some(x), Some(y)) => *x == *y,
        (None, None) => true,
        _ => false,
    }
}

fn relation_equal(a: &ExpectedRelation, b: &ExpectedRelation) -> bool {
    a.source == b.source && a.consumer == b.consumer && a.relation == b.relation
        && option_text_equal(&a.projection, &b.projection)
}

fn delta_equal(a: &ExpectedDelta, b: &ExpectedDelta) -> bool {
    match (a, b) {
        (ExpectedDelta::NodeAdded { node: x }, ExpectedDelta::NodeAdded { node: y }) => *x == *y,
        (ExpectedDelta::NodeRemoved { node: x }, ExpectedDelta::NodeRemoved { node: y }) => *x == *y,
        (
            ExpectedDelta::SliceMembershipChanged { node: x, change: c },
            ExpectedDelta::SliceMembershipChanged { node: y, change: d },
        ) => *x == *y && *c == *d,
        (ExpectedDelta::OperationChanged { node: x }, ExpectedDelta::OperationChanged { node: y }) =>
            *x == *y,
        (ExpectedDelta::WriteAdded { node: x }, ExpectedDelta::WriteAdded { node: y }) => *x == *y,
        (ExpectedDelta::WriteRemoved { node: x }, ExpectedDelta::WriteRemoved { node: y }) => *x
            == *y,
        (ExpectedDelta::FlowAdded { relation: x }, ExpectedDelta::FlowAdded { relation: y }) =>
            relation_equal(x, y),
        (ExpectedDelta::FlowRemoved { relation: x }, ExpectedDelta::FlowRemoved { relation: y }) =>
            relation_equal(x, y),
        (
            ExpectedDelta::FlowConditionChanged { relation: x, before: b1, after: a1 },
            ExpectedDelta::FlowConditionChanged { relation: y, before: b2, after: a2 },
        ) => relation_equal(x, y) && *b1 == *b2 && *a1 == *a2,
        (
            ExpectedDelta::ValueSourceChanged {
                consumer: c1,
                projection: p1,
                before_sources: bs1,
                after_sources: as1,
            },
            ExpectedDelta::ValueSourceChanged {
                consumer: c2,
                projection: p2,
                before_sources: bs2,
                after_sources: as2,
            },
        ) => *c1 == *c2 && *p1 == *p2 && same_text_set(bs1, bs2) && same_text_set(as1, as2),
        (
            ExpectedDelta::AnalysisUnknown { subject: s1, side: d1, diagnostic: g1 },
            ExpectedDelta::AnalysisUnknown { subject: s2, side: d2, diagnostic: g2 },
        ) => *s1 == *s2 && *d1 == *d2 && *g1 == *g2,
        _ => false,
    }
}

fn contains_delta(list: &Vec<ExpectedDelta>, item: &ExpectedDelta) -> bool {
    let mut k: usize = 0;
    while k < list.len()
        invariant
            k <= list@.len(),
        decreases list.len() - k,
    {
        if delta_equal(&list[k], item) {
            return true;
        }
        k = k + 1;
    }
    false
}

fn contains_relation(list: &Vec<ExpectedRelation>, item: &ExpectedRelation) -> bool {
    let mut k: usize = 0;
    while k < list.len()
        invariant
            k <= list@.len(),
        decreases list.len() - k,
    {
        if relation_equal(&list[k], item) {
            return true;
        }
        k = k + 1;
    }
    false
}

fn ending_equal(a: &ExpectedEnding, b: &ExpectedEnding) -> bool {
    a.side == b.side && a.kind == b.kind && a.location.same(&b.location) && option_text_equal(
        &a.condition,
        &b.condition,
    ) && a.diagnostic == b.diagnostic
}

fn frontier_equal(a: &ExpectedUnknownFrontier, b: &ExpectedUnknownFrontier) -> bool {
    a.node == b.node && a.diagnostic == b.diagnostic && a.direction == b.direction
}

/// The relations of a graph in terms of reviewed labels.
fn graph_relations(expected: &FixtureExpectations, report: &VariableFlowReport, graph: &FlowGraph) -> (res: Result<
    Vec<ExpectedRelation>,
    FixtureError,
>)
    ensures
        res matches Err(e) ==> e is Invalid,
{
    let mut out: Vec<ExpectedRelation> = Vec::new();
    let mut k: usize = 0;
    while k < graph.edges.len()
        invariant
            k <= graph.edges@.len(),
        decreases graph.edges.len() - k,
    {
        let edge = &graph.edges[k];
        let relation = ExpectedRelation {
            source: node_label(expected, report, &edge.source)?,
            consumer: node_label(expected, report, &edge.target)?,
            relation: edge.relation,
            projection: clone_option_text(&edge.projection),
        };
        if !contains_relation(&out, &relation) {
            out.push(relation);
        }
        k = k + 1;
    }
    Ok(out)
}

/// The side of a path ending's origin.
/// The side an ending belongs to: its origin's, or for a modeled external
/// source its carrier's.
pub open spec fn ending_side(ending: PathEnding) -> SnapshotSide {
    match ending.origin {
        Source::Write(id) => id.snapshot.side,
        Source::ParameterEntry(id) => id.snapshot.side,
        Source::FunctionInput(id) => id.snapshot.side,
        Source::ModeledExternal { .. } => match ending.carrier {
            Place::Binding(id) => id.snapshot.side,
            Place::Temporary(id) => id.snapshot.side,
        },
    }
}

fn origin_side(ending: &PathEnding) -> (res: SnapshotSide)
    ensures
        res == ending_side(*ending),
{
    match &ending.origin {
        Source::Write(id) | Source::ParameterEntry(id) => id.snapshot.side,
        Source::FunctionInput(id) => id.snapshot.side,
        Source::ModeledExternal { .. } => match &ending.carrier {
            Place::Binding(id) => id.snapshot.side,
            Place::Temporary(id) => id.snapshot.side,
        },
    }
}

fn same_models(a: &Vec<ModelVersion>, b: &Vec<ModelVersion>) -> bool {
    let mut k: usize = 0;
    while k < a.len()
        invariant
            k <= a@.len(),
        decreases a.len() - k,
    {
        let mut found = false;
        let mut j: usize = 0;
        while j < b.len()
            invariant
                j <= b@.len(),
                k < a@.len(),
            decreases b.len() - j,
        {
            if model_equal(&a[k], &b[j]) {
                found = true;
            }
            j = j + 1;
        }
        if !found {
            return false;
        }
        k = k + 1;
    }
    let mut k: usize = 0;
    while k < b.len()
        invariant
            k <= b@.len(),
        decreases b.len() - k,
    {
        let mut found = false;
        let mut j: usize = 0;
        while j < a.len()
            invariant
                j <= a@.len(),
                k < b@.len(),
            decreases a.len() - j,
        {
            if model_equal(&b[k], &a[j]) {
                found = true;
            }
            j = j + 1;
        }
        if !found {
            return false;
        }
        k = k + 1;
    }
    true
}

fn same_text_list(a: &Vec<String>, b: &Vec<String>) -> (res: bool)
    ensures
        res == (a@.map_values(|t: String| t@) == b@.map_values(|t: String| t@)),
{
    if a.len() != b.len() {
        proof {
            assert(a@.map_values(|t: String| t@).len() != b@.map_values(|t: String| t@).len());
        }
        return false;
    }
    let mut k: usize = 0;
    while k < a.len()
        invariant
            a@.len() == b@.len(),
            k <= a@.len(),
            forall|i: int| 0 <= i < k ==> a@[i]@ == b@[i]@,
        decreases a.len() - k,
    {
        if a[k] != b[k] {
            proof {
                assert(a@.map_values(|t: String| t@)[k as int] != b@.map_values(|t: String| t@)[k as int]);
            }
            return false;
        }
        k = k + 1;
    }
    proof {
        assert(a@.map_values(|t: String| t@) =~= b@.map_values(|t: String| t@));
    }
    true
}

fn extent_equal(a: &SnapshotExtent, b: &SnapshotExtent) -> bool {
    a.upstream == b.upstream && a.downstream == b.downstream && a.declared_scope
        == b.declared_scope && same_text_set(&a.source_boundaries, &b.source_boundaries)
        && same_text_set(&a.sink_boundaries, &b.sink_boundaries) && a.value_lifecycle_closed
        == b.value_lifecycle_closed
}

/// Compares a report with reviewed expectations through the labels:
/// required deltas present, forbidden ones absent, required relations and
/// endings present, forbidden relations absent, retained relations on both
/// sides and never reported added or removed, witnesses and frontiers found,
/// and the same summaries, coverage and completeness. Every failure is
/// listed; a node without a reviewed label is an error.
pub fn compare_report(expected: &FixtureExpectations, report: &VariableFlowReport) -> (res: Result<
    (),
    FixtureError,
>)
    ensures
        res matches Err(FixtureError::Mismatch(failures)) ==> failures@.len() > 0,
{
    let mut actual: Vec<ExpectedDelta> = Vec::new();
    let mut k: usize = 0;
    while k < report.deltas.len()
        invariant
            k <= report.deltas@.len(),
        decreases report.deltas.len() - k,
    {
        let delta = normalize_delta(expected, report, &report.deltas[k].delta)?;
        if !contains_delta(&actual, &delta) {
            actual.push(delta);
        }
        k = k + 1;
    }
    let before = graph_relations(expected, report, &report.before_graph)?;
    let after = graph_relations(expected, report, &report.after_graph)?;
    let mut endings: Vec<ExpectedEnding> = Vec::new();
    let mut k: usize = 0;
    while k < report.path_endings.len()
        invariant
            k <= report.path_endings@.len(),
        decreases report.path_endings.len() - k,
    {
        let ending = &report.path_endings[k];
        endings.push(
            ExpectedEnding {
                side: origin_side(ending),
                kind: ending.kind,
                location: ending.location.clone(),
                condition: clone_option_text(&ending.condition),
                diagnostic: ending.diagnostic,
            },
        );
        k = k + 1;
    }
    let mut failures: Vec<String> = Vec::new();
    let mut k: usize = 0;
    while k < expected.required.len()
        invariant
            k <= expected.required@.len(),
        decreases expected.required.len() - k,
    {
        if !contains_delta(&actual, &expected.required[k]) {
            failures.push(
                String::from_str("missing required assertion ").concat(
                    debug_text(&expected.required[k]).as_str(),
                ),
            );
        }
        k = k + 1;
    }
    let mut k: usize = 0;
    while k < expected.forbidden.len()
        invariant
            k <= expected.forbidden@.len(),
        decreases expected.forbidden.len() - k,
    {
        if contains_delta(&actual, &expected.forbidden[k]) {
            failures.push(
                String::from_str("reported forbidden assertion ").concat(
                    debug_text(&expected.forbidden[k]).as_str(),
                ),
            );
        }
        k = k + 1;
    }
    let mut k: usize = 0;
    while k < expected.required_relations.len()
        invariant
            k <= expected.required_relations@.len(),
        decreases expected.required_relations.len() - k,
    {
        let item = &expected.required_relations[k];
        let graph = match item.side {
            SnapshotSide::Before => &before,
            SnapshotSide::After => &after,
        };
        if !contains_relation(graph, &item.relation) {
            failures.push(
                String::from_str("missing required relation ").concat(debug_text(item).as_str()),
            );
        }
        k = k + 1;
    }
    let mut k: usize = 0;
    while k < expected.forbidden_relations.len()
        invariant
            k <= expected.forbidden_relations@.len(),
        decreases expected.forbidden_relations.len() - k,
    {
        let item = &expected.forbidden_relations[k];
        let graph = match item.side {
            SnapshotSide::Before => &before,
            SnapshotSide::After => &after,
        };
        if contains_relation(graph, &item.relation) {
            failures.push(
                String::from_str("reported forbidden relation ").concat(debug_text(item).as_str()),
            );
        }
        k = k + 1;
    }
    let mut k: usize = 0;
    while k < expected.retained_relations.len()
        invariant
            k <= expected.retained_relations@.len(),
        decreases expected.retained_relations.len() - k,
    {
        let retained = &expected.retained_relations[k];
        if !contains_relation(&before, retained) || !contains_relation(&after, retained) {
            failures.push(
                String::from_str("retained relation is not present on both sides ").concat(
                    debug_text(retained).as_str(),
                ),
            );
        }
        let added = ExpectedDelta::FlowAdded { relation: retained.clone() };
        let removed = ExpectedDelta::FlowRemoved { relation: retained.clone() };
        if contains_delta(&actual, &added) || contains_delta(&actual, &removed) {
            failures.push(
                String::from_str("retained relation was misclassified ").concat(
                    debug_text(retained).as_str(),
                ),
            );
        }
        k = k + 1;
    }
    let mut k: usize = 0;
    while k < expected.required_endings.len()
        invariant
            k <= expected.required_endings@.len(),
        decreases expected.required_endings.len() - k,
    {
        let mut found = false;
        let mut j: usize = 0;
        while j < endings.len()
            invariant
                j <= endings@.len(),
                k < expected.required_endings@.len(),
            decreases endings.len() - j,
        {
            if ending_equal(&endings[j], &expected.required_endings[k]) {
                found = true;
            }
            j = j + 1;
        }
        if !found {
            failures.push(
                String::from_str("missing required ending ").concat(
                    debug_text(&expected.required_endings[k]).as_str(),
                ),
            );
        }
        k = k + 1;
    }
    let mut k: usize = 0;
    while k < expected.witness_assertions.len()
        invariant
            k <= expected.witness_assertions@.len(),
        decreases expected.witness_assertions.len() - k,
    {
        let assertion = &expected.witness_assertions[k];
        let mut matched = false;
        let mut w: usize = 0;
        while w < report.witnesses.len() && !matched
            invariant
                w <= report.witnesses@.len(),
            decreases report.witnesses.len() - w,
        {
            let witness = &report.witnesses[w];
            let mut nodes: Vec<String> = Vec::new();
            let mut n: usize = 0;
            while n < witness.nodes.len()
                invariant
                    n <= witness.nodes@.len(),
                decreases witness.nodes.len() - n,
            {
                nodes.push(node_label(expected, report, &witness.nodes[n])?);
                n = n + 1;
            }
            let mut backedges: Vec<(String, String)> = Vec::new();
            let mut n: usize = 0;
            while n < witness.backedges.len()
                invariant
                    n <= witness.backedges@.len(),
                decreases witness.backedges.len() - n,
            {
                let source = node_label(expected, report, &witness.backedges[n].0)?;
                let target = node_label(expected, report, &witness.backedges[n].1)?;
                backedges.push((source, target));
                n = n + 1;
            }
            let mut all_backedges = true;
            let mut r: usize = 0;
            while r < assertion.required_backedges.len()
                invariant
                    r <= assertion.required_backedges@.len(),
                decreases assertion.required_backedges.len() - r,
            {
                let mut present = false;
                let mut b: usize = 0;
                while b < backedges.len()
                    invariant
                        b <= backedges@.len(),
                        r < assertion.required_backedges@.len(),
                    decreases backedges.len() - b,
                {
                    if backedges[b].0 == assertion.required_backedges[r].0 && backedges[b].1
                        == assertion.required_backedges[r].1 {
                        present = true;
                    }
                    b = b + 1;
                }
                if !present {
                    all_backedges = false;
                }
                r = r + 1;
            }
            let mut all_expansions = true;
            let mut r: usize = 0;
            while r < assertion.required_summary_expansions.len()
                invariant
                    r <= assertion.required_summary_expansions@.len(),
                decreases assertion.required_summary_expansions.len() - r,
            {
                if !contains_string(&witness.summary_expansions, &assertion.required_summary_expansions[r]) {
                    all_expansions = false;
                }
                r = r + 1;
            }
            if same_text_list(&nodes, &assertion.ordered_nodes) && all_backedges && all_expansions {
                matched = true;
            }
            w = w + 1;
        }
        if !matched {
            failures.push(
                String::from_str("missing required witness `").concat(assertion.label.as_str()).concat(
                    "`",
                ),
            );
        }
        k = k + 1;
    }
    let mut frontiers: Vec<ExpectedUnknownFrontier> = Vec::new();
    let mut k: usize = 0;
    while k < report.unknown_frontiers.len()
        invariant
            k <= report.unknown_frontiers@.len(),
        decreases report.unknown_frontiers.len() - k,
    {
        let frontier = &report.unknown_frontiers[k];
        frontiers.push(
            ExpectedUnknownFrontier {
                node: node_label(expected, report, &frontier.node)?,
                diagnostic: frontier.diagnostic,
                direction: frontier.affected_direction,
            },
        );
        k = k + 1;
    }
    let mut k: usize = 0;
    while k < expected.required_unknown_frontiers.len()
        invariant
            k <= expected.required_unknown_frontiers@.len(),
        decreases expected.required_unknown_frontiers.len() - k,
    {
        let mut found = false;
        let mut j: usize = 0;
        while j < frontiers.len()
            invariant
                j <= frontiers@.len(),
                k < expected.required_unknown_frontiers@.len(),
            decreases frontiers.len() - j,
        {
            if frontier_equal(&frontiers[j], &expected.required_unknown_frontiers[k]) {
                found = true;
            }
            j = j + 1;
        }
        if !found {
            failures.push(
                String::from_str("missing required unknown frontier ").concat(
                    debug_text(&expected.required_unknown_frontiers[k]).as_str(),
                ),
            );
        }
        k = k + 1;
    }
    if !same_models(&report.summaries_used, &expected.summaries_used) {
        failures.push(String::from_str("summary assumptions differ"));
    }
    if !extent_equal(&report.flow_extent.before, &expected.coverage.before) || !extent_equal(
        &report.flow_extent.after,
        &expected.coverage.after,
    ) {
        failures.push(String::from_str("directional coverage differs"));
    }
    if report.completeness != expected.completeness {
        failures.push(String::from_str("completeness differs"));
    }
    if failures.len() == 0 {
        Ok(())
    } else {
        Err(FixtureError::Mismatch(failures))
    }
}

} // verus!
