//! The source-level slice of one selected binding: the writes of the binding,
//! what they read, where their values go, the guards that decide them and
//! where each carried value ends.
use vstd::prelude::*;
use vstd::string::StringSliceAdditionalSpecFns;
use crate::ifds::adapters::typescript::syntax::str_equal;
use crate::ifds::branches::{BranchPaths, FactTest, label_condition, text_less};
use crate::ifds::compare::{effect_kind_name, literal_kind_name, operator_name};
use crate::ifds::ir::{
    ComputeInputRole, EdgeKind, IrNode, Operation, ProcedureIr, find_node, ir_valid,
    operation_definition,
};
use crate::ifds::model::{
    insert_diagnostic, insert_frontier, BindingId, Completeness, Coverage, DefinitionId, Diagnostic,
    DiagnosticCode, Direction, EvidenceKind, Fact, FlowEdge, FlowGraph, FlowNode, ModelVersion,
    NodeId, PathEnding, PathEndingKind, Place, RelationKind, SnapshotExtent, SnapshotId, Source,
    SourceSpan, UnknownFrontier, Witness, WitnessId,
};
use crate::ifds::provenance::{contains_fact, insert_fact};
use crate::ifds::solver::{SolverOutput, SolverTermination};

verus! {

/// What a slice is built from.
#[derive(Debug, Clone)]
pub struct SliceRequest<'a> {
    pub procedure: &'a ProcedureIr,
    pub solved: &'a SolverOutput,
    pub selected_binding: &'a BindingId,
    pub declared_scope: &'a str,
}

/// The slice: its graph, witnesses, path endings, extent, completeness and
/// the diagnostics and frontiers that concern it.
#[derive(Debug, Clone, PartialEq, Eq)]
pub struct SliceOutput {
    pub graph: FlowGraph,
    pub witnesses: Vec<Witness>,
    pub path_endings: Vec<PathEnding>,
    pub extent: SnapshotExtent,
    pub completeness: Completeness,
    pub diagnostics: Vec<Diagnostic>,
    pub unknown_frontiers: Vec<UnknownFrontier>,
}

#[derive(Debug, Clone, PartialEq, Eq)]
pub enum SliceError {
    InvalidIr(String),
    SnapshotMismatch,
    MissingSelectedBinding,
    MissingSpan(NodeId),
}

// ---------------------------------------------------------------------------
// What the contract speaks of.

/// Whether the binding is one of the procedure's parameters.
pub open spec fn is_parameter(p: ProcedureIr, b: BindingId) -> bool {
    exists|i: int| 0 <= i < p.parameters@.len() && (#[trigger] p.parameters@[i]).binding@ == b@
}

/// Whether the operation writes the binding.
pub open spec fn writes_binding(op: Operation, b: BindingId) -> bool {
    match op {
        Operation::Write { target: Place::Binding(t), .. } => t@ == b@,
        _ => false,
    }
}

/// Whether some operation of the procedure writes the binding.
pub open spec fn binding_written(p: ProcedureIr, b: BindingId) -> bool {
    exists|i: int| 0 <= i < p.nodes@.len() && writes_binding((#[trigger] p.nodes@[i]).operation, b)
}

/// Whether the binding has a value source in the procedure: a write or a
/// parameter.
pub open spec fn has_selected_origin(p: ProcedureIr, b: BindingId) -> bool {
    binding_written(p, b) || is_parameter(p, b)
}

/// Every graph node is an operation of the procedure with that span.
pub open spec fn nodes_from(p: ProcedureIr, nodes: Seq<FlowNode>) -> bool {
    forall|k: int|
        0 <= k < nodes.len() ==> exists|i: int|
            0 <= i < p.nodes@.len() && (#[trigger] p.nodes@[i]).id@ == (#[trigger] nodes[k]).id@
                && p.nodes@[i].span == Some(nodes[k].span)
}

pub open spec fn closing_kind(kind: PathEndingKind) -> bool {
    kind == PathEndingKind::NoFurtherUse || kind == PathEndingKind::ExecutionExit
}

pub open spec fn has_ending_kind(endings: Seq<PathEnding>, kind: PathEndingKind) -> bool {
    exists|i: int| 0 <= i < endings.len() && (#[trigger] endings[i]).kind == kind
}

/// The extent and completeness that the coverage and endings of a slice give.
pub open spec fn extent_ok(out: SliceOutput, p: ProcedureIr, b: BindingId, scope: Seq<char>) -> bool {
    let ext = out.extent;
    let endings = out.path_endings@;
    &&& ext.upstream == Coverage::Complete || ext.upstream == Coverage::Partial
    &&& ext.downstream == Coverage::Complete || ext.downstream == Coverage::Partial
    &&& out.completeness == (if ext.upstream == Coverage::Complete && ext.downstream
        == Coverage::Complete {
        Completeness::CompleteForQuery
    } else {
        Completeness::Partial
    })
    &&& ext.declared_scope@ == scope
    &&& ext.value_lifecycle_closed == (endings.len() > 0 && forall|i: int|
        0 <= i < endings.len() ==> closing_kind(#[trigger] endings[i].kind))
    &&& ext.source_boundaries@.map_values(|s: String| s@) == (if is_parameter(p, b) {
        seq!["function_input"@]
    } else {
        Seq::<Seq<char>>::empty()
    })
    &&& ext.sink_boundaries@.map_values(|s: String| s@) == (if has_ending_kind(
        endings,
        PathEndingKind::ScopeBoundary,
    ) {
        seq!["caller_scope"@]
    } else {
        Seq::<Seq<char>>::empty()
    }) + (if has_ending_kind(endings, PathEndingKind::UnknownBoundary) {
        seq!["unknown"@]
    } else {
        Seq::<Seq<char>>::empty()
    })
}

// ---------------------------------------------------------------------------
// Small helpers.

fn option_text_equal(a: &Option<String>, b: &Option<String>) -> (res: bool)
    ensures
        res == (crate::ifds::branches::text_view(*a) == crate::ifds::branches::text_view(*b)),
{
    match (a, b) {
        (Some(x), Some(y)) => *x == *y,
        (None, None) => true,
        _ => false,
    }
}

/// Two model versions with the same name, version and digest.
pub open spec fn model_same(a: ModelVersion, b: ModelVersion) -> bool {
    a.name@ == b.name@ && a.version@ == b.version@ && a.digest@ == b.digest@
}

/// Two evidence kinds with the same values.
pub open spec fn evidence_same(a: EvidenceKind, b: EvidenceKind) -> bool {
    match (a, b) {
        (EvidenceKind::Supported, EvidenceKind::Supported) => true,
        (EvidenceKind::Modeled { model: x }, EvidenceKind::Modeled { model: y }) => model_same(x, y),
        (EvidenceKind::Unresolved { diagnostic: x }, EvidenceKind::Unresolved { diagnostic: y }) => x == y,
        _ => false,
    }
}

/// Two edges with the same values.
pub open spec fn edge_same(a: FlowEdge, b: FlowEdge) -> bool {
    &&& a.source@ == b.source@
    &&& a.target@ == b.target@
    &&& a.relation == b.relation
    &&& crate::ifds::branches::text_view(a.projection) == crate::ifds::branches::text_view(b.projection)
    &&& crate::ifds::branches::text_view(a.condition) == crate::ifds::branches::text_view(b.condition)
    &&& evidence_same(a.evidence, b.evidence)
}

fn model_equal(a: &ModelVersion, b: &ModelVersion) -> (res: bool)
    ensures
        res == model_same(*a, *b),
{
    a.name == b.name && a.version == b.version && a.digest == b.digest
}

fn evidence_equal(a: &EvidenceKind, b: &EvidenceKind) -> (res: bool)
    ensures
        res == evidence_same(*a, *b),
{
    match (a, b) {
        (EvidenceKind::Supported, EvidenceKind::Supported) => true,
        (EvidenceKind::Modeled { model: x }, EvidenceKind::Modeled { model: y }) => model_equal(
            x,
            y,
        ),
        (EvidenceKind::Unresolved { diagnostic: x }, EvidenceKind::Unresolved { diagnostic: y }) =>
            *x == *y,
        _ => false,
    }
}

fn flow_node_equal(a: &FlowNode, b: &FlowNode) -> bool {
    a.id.same(&b.id) && a.operation == b.operation && a.span.same(&b.span) && option_text_equal(
        &a.enclosing_declaration,
        &b.enclosing_declaration,
    ) && a.fingerprint == b.fingerprint
}

fn flow_edge_equal(a: &FlowEdge, b: &FlowEdge) -> (res: bool)
    ensures
        res == edge_same(*a, *b),
{
    a.source.same(&b.source) && a.target.same(&b.target) && a.relation == b.relation
        && option_text_equal(&a.projection, &b.projection) && option_text_equal(
        &a.condition,
        &b.condition,
    ) && evidence_equal(&a.evidence, &b.evidence)
}

fn clone_evidence(e: &EvidenceKind) -> (res: EvidenceKind)
    ensures
        res == *e,
{
    match e {
        EvidenceKind::Supported => EvidenceKind::Supported,
        EvidenceKind::Modeled { model } => EvidenceKind::Modeled {
            model: ModelVersion {
                name: model.name.clone(),
                version: model.version.clone(),
                digest: model.digest.clone(),
            },
        },
        EvidenceKind::Unresolved { diagnostic } => EvidenceKind::Unresolved {
            diagnostic: *diagnostic,
        },
    }
}

fn clone_option_text(t: &Option<String>) -> (res: Option<String>)
    ensures
        res == *t,
{
    match t {
        Some(x) => Some(x.clone()),
        None => None,
    }
}

fn contains_source(list: &Vec<Source>, s: &Source) -> bool {
    let mut k: usize = 0;
    while k < list.len()
        invariant
            k <= list@.len(),
        decreases list.len() - k,
    {
        if list[k].same(s) {
            return true;
        }
        k = k + 1;
    }
    false
}

fn push_source(list: &mut Vec<Source>, s: Source) {
    if !contains_source(list, &s) {
        list.push(s);
    }
}

fn contains_definition(list: &Vec<DefinitionId>, d: &DefinitionId) -> bool {
    let mut k: usize = 0;
    while k < list.len()
        invariant
            k <= list@.len(),
        decreases list.len() - k,
    {
        if list[k].same(d) {
            return true;
        }
        k = k + 1;
    }
    false
}

fn contains_index(list: &Vec<usize>, i: usize) -> bool {
    let mut k: usize = 0;
    while k < list.len()
        invariant
            k <= list@.len(),
        decreases list.len() - k,
    {
        if list[k] == i {
            return true;
        }
        k = k + 1;
    }
    false
}

/// Whether `needle` occurs in `text`.
/// Whether `needle` occurs in `text` at some byte position.
pub open spec fn bytes_contain(text: Seq<u8>, needle: Seq<u8>) -> bool {
    exists|i: int| 0 <= i && i + needle.len() <= text.len() && #[trigger] text.subrange(i, i + needle.len()) == needle
}

fn text_contains(text: &str, needle: &str) -> (res: bool)
    ensures
        res == bytes_contain(text.spec_bytes(), needle.spec_bytes()),
{
    let t = text.as_bytes();
    let n = needle.as_bytes();
    if n.len() == 0 {
        proof {
            assert(t@.subrange(0, 0int + n@.len()) =~= n@);
            assert(bytes_contain(text.spec_bytes(), needle.spec_bytes()));
        }
        return true;
    }
    if n.len() > t.len() {
        return false;
    }
    let tl = t.len();
    let last = tl - n.len();
    let mut start: usize = 0;
    while start <= last
        invariant
            0 < n@.len() <= t@.len(),
            t@ == text.spec_bytes(),
            n@ == needle.spec_bytes(),
            tl == t@.len(),
            last == t@.len() - n@.len(),
            forall|i: int| 0 <= i < start ==> #[trigger] t@.subrange(i, i + n@.len()) != n@,
        decreases last + 1 - start,
    {
        let mut k: usize = 0;
        let mut all = true;
        while k < n.len()
            invariant
                0 < n@.len() <= t@.len(),
                tl == t@.len(),
                start <= last,
                last == t@.len() - n@.len(),
                k <= n@.len(),
                all == (forall|j: int| 0 <= j < k ==> t@[start + j] == n@[j]),
            decreases n.len() - k,
        {
            if t[start + k] != n[k] {
                all = false;
            }
            k = k + 1;
        }
        if all {
            proof {
                assert(t@.subrange(start as int, start + n@.len()) =~= n@);
            }
            return true;
        }
        proof {
            let j = choose|j: int| 0 <= j < n@.len() && t@[start + j] != n@[j];
            assert(t@.subrange(start as int, start + n@.len())[j] != n@[j]);
        }
        start = start + 1;
    }
    false
}

/// The position of a side: before first.
pub open spec fn side_rank(side: crate::ifds::model::SnapshotSide) -> u8 {
    match side {
        crate::ifds::model::SnapshotSide::Before => 0u8,
        crate::ifds::model::SnapshotSide::After => 1u8,
    }
}

/// The order of snapshots: side, then revision, then content identity,
/// texts by their bytes.
pub open spec fn snapshot_before(a: SnapshotId, b: SnapshotId) -> bool {
    if side_rank(a.side) != side_rank(b.side) {
        side_rank(a.side) < side_rank(b.side)
    } else if a.revision@ != b.revision@ {
        crate::ifds::branches::bytes_less(vstd::utf8::encode_utf8(a.revision@), vstd::utf8::encode_utf8(b.revision@))
    } else {
        crate::ifds::branches::bytes_less(vstd::utf8::encode_utf8(a.content_id@), vstd::utf8::encode_utf8(b.content_id@))
    }
}

/// The order of node identities: snapshot, then number.
pub open spec fn node_before(a: NodeId, b: NodeId) -> bool {
    if a.snapshot@ != b.snapshot@ {
        snapshot_before(a.snapshot, b.snapshot)
    } else {
        a.local < b.local
    }
}

/// The order of places: bindings before temporaries, then by identity.
pub open spec fn place_before(a: Place, b: Place) -> bool {
    match (a, b) {
        (Place::Binding(_), Place::Temporary(_)) => true,
        (Place::Temporary(_), Place::Binding(_)) => false,
        (Place::Binding(x), Place::Binding(y)) => if x.snapshot@ != y.snapshot@ {
            snapshot_before(x.snapshot, y.snapshot)
        } else {
            x.local < y.local
        },
        (Place::Temporary(x), Place::Temporary(y)) => node_before(x, y),
    }
}

fn snapshot_less(a: &SnapshotId, b: &SnapshotId) -> (res: bool)
    ensures
        res == snapshot_before(*a, *b),
{
    let side_a: u8 = match a.side {
        crate::ifds::model::SnapshotSide::Before => 0,
        crate::ifds::model::SnapshotSide::After => 1,
    };
    let side_b: u8 = match b.side {
        crate::ifds::model::SnapshotSide::Before => 0,
        crate::ifds::model::SnapshotSide::After => 1,
    };
    if side_a != side_b {
        return side_a < side_b;
    }
    if a.revision != b.revision {
        return text_less(a.revision.as_str(), b.revision.as_str());
    }
    text_less(a.content_id.as_str(), b.content_id.as_str())
}

/// The order of node identities: snapshot, then number.
fn node_less(a: &NodeId, b: &NodeId) -> (res: bool)
    ensures
        res == node_before(*a, *b),
{
    if !a.snapshot.same(&b.snapshot) {
        return snapshot_less(&a.snapshot, &b.snapshot);
    }
    a.local < b.local
}

/// The order of places: bindings before temporaries, then by identity.
fn place_less(a: &Place, b: &Place) -> (res: bool)
    ensures
        res == place_before(*a, *b),
{
    match (a, b) {
        (Place::Binding(_), Place::Temporary(_)) => true,
        (Place::Temporary(_), Place::Binding(_)) => false,
        (Place::Binding(x), Place::Binding(y)) => {
            if !x.snapshot.same(&y.snapshot) {
                snapshot_less(&x.snapshot, &y.snapshot)
            } else {
                x.local < y.local
            }
        },
        (Place::Temporary(x), Place::Temporary(y)) => node_less(x, y),
    }
}

// ---------------------------------------------------------------------------
// Names and projections.

fn operation_name(operation: &Operation) -> (res: String)
    ensures
        res@.len() > 0,
{
    let name = match operation {
        Operation::Entry => "entry",
        Operation::Read { .. } => "read",
        Operation::Write { .. } => "write",
        Operation::Literal { .. } => "literal",
        Operation::Compute { .. } => "compute",
        Operation::Branch { .. } => "branch",
        Operation::Join => "join",
        Operation::Call { .. } => "call",
        Operation::ReturnSite { .. } => "return_site",
        Operation::Return { .. } => "return",
        Operation::Exit => "exit",
        Operation::UnknownEffect { .. } => "unknown_effect",
    };
    proof {
        reveal_strlit("entry");
        reveal_strlit("read");
        reveal_strlit("write");
        reveal_strlit("literal");
        reveal_strlit("compute");
        reveal_strlit("branch");
        reveal_strlit("join");
        reveal_strlit("call");
        reveal_strlit("return_site");
        reveal_strlit("return");
        reveal_strlit("exit");
        reveal_strlit("unknown_effect");
    }
    String::from_str(name)
}

fn role_name(role: &ComputeInputRole) -> String {
    match role {
        ComputeInputRole::Operand { index } => String::from_str("Operand { index: ").concat(
            index.to_string().as_str(),
        ).concat(" }"),
        ComputeInputRole::TemplateChunk { index } => String::from_str(
            "TemplateChunk { index: ",
        ).concat(index.to_string().as_str()).concat(" }"),
        ComputeInputRole::TemplateInterpolation { index } => String::from_str(
            "TemplateInterpolation { index: ",
        ).concat(index.to_string().as_str()).concat(" }"),
    }
}

/// The fingerprint of an operation: its kind and its local shape.
fn operation_fingerprint(operation: &Operation) -> String {
    match operation {
        Operation::Write { .. } => String::from_str("write"),
        Operation::Literal { literal_kind, raw, cooked, .. } => {
            let cooked_text = match cooked {
                Some(c) => String::from_str("Some(\"").concat(c.as_str()).concat("\")"),
                None => String::from_str("None"),
            };
            String::from_str("literal:").concat(literal_kind_name(*literal_kind)).concat(":").concat(
                raw.as_str(),
            ).concat(":").concat(cooked_text.as_str())
        },
        Operation::Compute { operator, inputs, .. } => {
            let mut roles = String::from_str("[");
            let mut k: usize = 0;
            while k < inputs.len()
                invariant
                    k <= inputs@.len(),
                decreases inputs.len() - k,
            {
                if k > 0 {
                    roles = roles.concat(", ");
                }
                roles = roles.concat(role_name(&inputs[k].role).as_str());
                k = k + 1;
            }
            roles = roles.concat("]");
            String::from_str("compute:").concat(operator_name(operator).as_str()).concat(":").concat(
                roles.as_str(),
            )
        },
        Operation::UnknownEffect { effect_kind, description, .. } => String::from_str(
            "unknown:",
        ).concat(effect_kind_name(*effect_kind)).concat(":").concat(description.as_str()),
        _ => operation_name(operation),
    }
}

fn role_projection(role: &ComputeInputRole) -> String {
    match role {
        ComputeInputRole::Operand { index } => String::from_str("operands[").concat(
            index.to_string().as_str(),
        ).concat("]"),
        ComputeInputRole::TemplateChunk { index } => String::from_str("template.chunks[").concat(
            index.to_string().as_str(),
        ).concat("]"),
        ComputeInputRole::TemplateInterpolation { index } => String::from_str(
            "template.interpolations[",
        ).concat(index.to_string().as_str()).concat("]"),
    }
}

/// The projection of an input of an unsupported operation: the callee and
/// arguments of a call expression, else the input's role.
fn unknown_input_projection(operation: &Operation, role: &ComputeInputRole) -> String {
    if let Operation::UnknownEffect { description, .. } = operation {
        if let ComputeInputRole::Operand { index } = role {
            if text_contains(description.as_str(), "call_expression") {
                if *index == 0 {
                    return String::from_str("callee");
                } else {
                    return String::from_str("arguments[").concat(
                        (*index - 1).to_string().as_str(),
                    ).concat("]");
                }
            }
        }
    }
    role_projection(role)
}

fn join_projection(outer: &str, inner: &str) -> String {
    if outer.unicode_len() == 0 {
        String::from_str(inner)
    } else {
        String::from_str(outer).concat(".").concat(inner)
    }
}

fn diagnostic_for_operation(operation: &Operation) -> DiagnosticCode {
    match operation {
        Operation::Call { .. } => DiagnosticCode::UnresolvedCall,
        Operation::UnknownEffect { .. } => DiagnosticCode::UnsupportedSyntax,
        _ => DiagnosticCode::UnknownExternalEffect,
    }
}

// ---------------------------------------------------------------------------
// Graph walks.

/// The indices of the nodes reachable from `start` along any edge, start
/// included; each round adds the targets of edges leaving a reached node.
fn reachable_from(procedure: &ProcedureIr, start: usize) -> (res: Vec<bool>)
    requires
        start < procedure.nodes@.len(),
    ensures
        res@.len() == procedure.nodes@.len(),
{
    let n = procedure.nodes.len();
    let mut seen: Vec<bool> = Vec::new();
    let mut k: usize = 0;
    while k < n
        invariant
            n == procedure.nodes@.len(),
            k <= n,
            seen@.len() == k,
        decreases n - k,
    {
        seen.push(k == start);
        k = k + 1;
    }
    let mut round: usize = 0;
    let mut changed = true;
    while changed && round < n
        invariant
            seen@.len() == n,
            n == procedure.nodes@.len(),
        decreases n - round,
    {
        changed = false;
        let mut e: usize = 0;
        while e < procedure.edges.len()
            invariant
                seen@.len() == n,
                n == procedure.nodes@.len(),
            decreases procedure.edges.len() - e,
        {
            let edge = &procedure.edges[e];
            if let Some(s) = find_node(procedure, &edge.source) {
                if seen[s] {
                    if let Some(t) = find_node(procedure, &edge.target) {
                        if !seen[t] {
                            seen.set(t, true);
                            changed = true;
                        }
                    }
                }
            }
            e = e + 1;
        }
        round = round + 1;
    }
    seen
}

/// The nodes reached from exactly one of the two outcomes of a branch, in
/// node order; nothing unless the branch has exactly two outcome edges.
fn controlled_nodes(procedure: &ProcedureIr, branch: usize) -> (res: Vec<usize>)
    requires
        branch < procedure.nodes@.len(),
    ensures
        forall|k: int| 0 <= k < res@.len() ==> res@[k] < procedure.nodes@.len(),
{
    let mut arms: Vec<Vec<bool>> = Vec::new();
    let mut e: usize = 0;
    while e < procedure.edges.len()
        invariant
            branch < procedure.nodes@.len(),
            forall|a: int| 0 <= a < arms@.len() ==> (#[trigger] arms@[a])@.len() == procedure.nodes@.len(),
        decreases procedure.edges.len() - e,
    {
        let edge = &procedure.edges[e];
        if edge.source.same(&procedure.nodes[branch].id) {
            if let EdgeKind::Branch { .. } = edge.kind {
                match find_node(procedure, &edge.target) {
                    Some(t) => {
                        arms.push(reachable_from(procedure, t));
                    },
                    None => {
                        let mut empty: Vec<bool> = Vec::new();
                        let mut k: usize = 0;
                        while k < procedure.nodes.len()
                            invariant
                                k <= procedure.nodes@.len(),
                                empty@.len() == k,
                            decreases procedure.nodes.len() - k,
                        {
                            empty.push(false);
                            k = k + 1;
                        }
                        arms.push(empty);
                    },
                }
            }
        }
        e = e + 1;
    }
    let mut out: Vec<usize> = Vec::new();
    if arms.len() != 2 {
        return out;
    }
    let mut k: usize = 0;
    while k < procedure.nodes.len()
        invariant
            arms@.len() == 2,
            forall|a: int| 0 <= a < arms@.len() ==> (#[trigger] arms@[a])@.len() == procedure.nodes@.len(),
            k <= procedure.nodes@.len(),
            forall|j: int| 0 <= j < out@.len() ==> out@[j] < procedure.nodes@.len(),
        decreases procedure.nodes.len() - k,
    {
        if arms[0][k] != arms[1][k] {
            out.push(k);
        }
        k = k + 1;
    }
    out
}

/// A shortest path of node identities from `source` to `target` by breadth
/// first search over the edges in their order.
fn shortest_path(procedure: &ProcedureIr, source: &NodeId, target: &NodeId) -> Option<Vec<NodeId>> {
    let mut single: Vec<NodeId> = Vec::new();
    if source.same(target) {
        single.push(source.clone());
        return Some(single);
    }
    let s = match find_node(procedure, source) {
        Some(s) => s,
        None => {
            return None;
        },
    };
    let n = procedure.nodes.len();
    let mut previous: Vec<Option<usize>> = Vec::new();
    let mut seen: Vec<bool> = Vec::new();
    let mut k: usize = 0;
    while k < n
        invariant
            n == procedure.nodes@.len(),
            k <= n,
            previous@.len() == k,
            seen@.len() == k,
            forall|q: int| 0 <= q < previous@.len() ==> (#[trigger] previous@[q] matches Some(v) ==> v < n),
        decreases n - k,
    {
        previous.push(None);
        seen.push(k == s);
        k = k + 1;
    }
    let mut queue: Vec<usize> = Vec::new();
    queue.push(s);
    let mut head: usize = 0;
    while head < queue.len() && queue.len() <= n
        invariant
            n == procedure.nodes@.len(),
            previous@.len() == n,
            seen@.len() == n,
            s < n,
            forall|q: int| 0 <= q < queue@.len() ==> queue@[q] < n,
            forall|q: int| 0 <= q < previous@.len() ==> (#[trigger] previous@[q] matches Some(v) ==> v < n),
        decreases n + 1 - head,
    {
        let node = queue[head];
        head = head + 1;
        let mut e: usize = 0;
        while e < procedure.edges.len()
            invariant
                n == procedure.nodes@.len(),
                previous@.len() == n,
                seen@.len() == n,
                node < n,
                s < n,
                forall|q: int| 0 <= q < queue@.len() ==> queue@[q] < n,
                forall|q: int| 0 <= q < previous@.len() ==> (#[trigger] previous@[q] matches Some(v) ==> v < n),
            decreases procedure.edges.len() - e,
        {
            let edge = &procedure.edges[e];
            e = e + 1;
            if !edge.source.same(&procedure.nodes[node].id) {
                continue;
            }
            let t = match find_node(procedure, &edge.target) {
                Some(t) => t,
                None => {
                    continue;
                },
            };
            if seen[t] {
                continue;
            }
            seen.set(t, true);
            previous.set(t, Some(node));
            if edge.target.same(target) {
                let mut reversed: Vec<NodeId> = Vec::new();
                reversed.push(procedure.nodes[t].id.clone());
                let mut current = t;
                let mut steps: usize = 0;
                while current != s && steps < n
                    invariant
                        n == procedure.nodes@.len(),
                        current < n,
                        previous@.len() == n,
                        forall|q: int| 0 <= q < previous@.len() ==> (#[trigger] previous@[q] matches Some(v) ==> v < n),
                    decreases n - steps,
                {
                    match previous[current] {
                        Some(p) => {
                            current = p;
                            reversed.push(procedure.nodes[p].id.clone());
                        },
                        None => {
                            return None;
                        },
                    }
                    steps = steps + 1;
                }
                let mut path: Vec<NodeId> = Vec::new();
                let mut r: usize = reversed.len();
                while r > 0
                    invariant
                        r <= reversed@.len(),
                    decreases r,
                {
                    r = r - 1;
                    path.push(reversed[r].clone());
                }
                return Some(path);
            }
            queue.push(t);
        }
    }
    None
}

fn pair_path(a: &NodeId, b: &NodeId) -> Vec<NodeId> {
    let mut path: Vec<NodeId> = Vec::new();
    path.push(a.clone());
    path.push(b.clone());
    path
}

/// Marks the reads and computations of the expression that produces `place`
/// as owned by `owner`.
fn mark_expression_owner(
    procedure: &ProcedureIr,
    place: &Place,
    owner: &NodeId,
    owners: &mut Vec<(NodeId, NodeId)>,
    visited: &mut Vec<NodeId>,
    fuel: usize,
)
    decreases fuel,
{
    if fuel == 0 {
        return;
    }
    let producer = match place {
        Place::Temporary(producer) => producer,
        Place::Binding(_) => {
            return;
        },
    };
    let mut k: usize = 0;
    while k < visited.len()
        invariant
            k <= visited@.len(),
        decreases visited.len() - k,
    {
        if visited[k].same(producer) {
            return;
        }
        k = k + 1;
    }
    visited.push(producer.clone());
    let index = match find_node(procedure, producer) {
        Some(i) => i,
        None => {
            return;
        },
    };
    match &procedure.nodes[index].operation {
        Operation::Read { .. } => {
            set_owner(owners, producer, owner);
        },
        Operation::Compute { inputs, .. } => {
            set_owner(owners, producer, owner);
            let mut j: usize = 0;
            while j < inputs.len()
                invariant
                    j <= inputs@.len(),
                    fuel > 0,
                decreases inputs.len() - j,
            {
                mark_expression_owner(procedure, &inputs[j].place, owner, owners, visited, fuel - 1);
                j = j + 1;
            }
        },
        _ => {},
    }
}

fn set_owner(owners: &mut Vec<(NodeId, NodeId)>, node: &NodeId, owner: &NodeId)
    ensures
        (exists|k: int|
            0 <= k < old(owners)@.len() && old(owners)@[k].0@ == node@ && (forall|j: int|
                0 <= j < k ==> (#[trigger] old(owners)@[j]).0@ != node@) && final(owners)@ == old(owners)@.update(
                k,
                (*node, *owner),
            )) || ((forall|j: int| 0 <= j < old(owners)@.len() ==> (#[trigger] old(owners)@[j]).0@ != node@)
            && final(owners)@ == old(owners)@.push((*node, *owner))),
{
    let mut k: usize = 0;
    while k < owners.len()
        invariant
            k <= owners@.len(),
            owners@ == old(owners)@,
            forall|j: int| 0 <= j < k ==> (#[trigger] owners@[j]).0@ != node@,
        decreases owners.len() - k,
    {
        if owners[k].0.same(node) {
            owners.set(k, (node.clone(), owner.clone()));
            return;
        }
        k = k + 1;
    }
    owners.push((node.clone(), owner.clone()));
}

/// For each read or computation inside the expression of a write or a
/// return, the operation that consumes the expression.
fn expression_owners(procedure: &ProcedureIr) -> Vec<(NodeId, NodeId)> {
    let mut owners: Vec<(NodeId, NodeId)> = Vec::new();
    let mut i: usize = 0;
    while i < procedure.nodes.len()
        invariant
            i <= procedure.nodes@.len(),
        decreases procedure.nodes.len() - i,
    {
        let node = &procedure.nodes[i];
        match &node.operation {
            Operation::Write { sources, .. } => {
                let mut j: usize = 0;
                while j < sources.len()
                    invariant
                        j <= sources@.len(),
                    decreases sources.len() - j,
                {
                    let mut visited: Vec<NodeId> = Vec::new();
                    mark_expression_owner(
                        procedure,
                        &sources[j],
                        &node.id,
                        &mut owners,
                        &mut visited,
                        procedure.nodes.len(),
                    );
                    j = j + 1;
                }
            },
            Operation::Return { value: Some(v) } => {
                let mut visited: Vec<NodeId> = Vec::new();
                mark_expression_owner(
                    procedure,
                    v,
                    &node.id,
                    &mut owners,
                    &mut visited,
                    procedure.nodes.len(),
                );
            },
            _ => {},
        }
        i = i + 1;
    }
    owners
}

fn owner_of(owners: &Vec<(NodeId, NodeId)>, node: &NodeId) -> (res: Option<NodeId>)
    ensures
        match res {
            Some(o) => exists|k: int|
                0 <= k < owners@.len() && owners@[k].0@ == node@ && owners@[k].1 == o && forall|j: int|
                    0 <= j < k ==> (#[trigger] owners@[j]).0@ != node@,
            None => forall|j: int| 0 <= j < owners@.len() ==> (#[trigger] owners@[j]).0@ != node@,
        },
{
    let mut k: usize = 0;
    while k < owners.len()
        invariant
            k <= owners@.len(),
            forall|j: int| 0 <= j < k ==> (#[trigger] owners@[j]).0@ != node@,
        decreases owners.len() - k,
    {
        if owners[k].0.same(node) {
            return Some(owners[k].1.clone());
        }
        k = k + 1;
    }
    None
}


// ---------------------------------------------------------------------------
// The builder.

struct ResolvedSource {
    node: NodeId,
    projection: String,
    computed: bool,
}

/// The life of one carrier of a selected value: where it was created, the
/// operations that use it, and where it was overwritten.
struct CarrierLife {
    origin: Source,
    binding: BindingId,
    created_at: NodeId,
    uses: Vec<NodeId>,
    killed_at: Option<NodeId>,
}

struct SliceBuilder<'a> {
    procedure: &'a ProcedureIr,
    facts_at: &'a Vec<(NodeId, Vec<Fact>)>,
    selected_binding: &'a BindingId,
    declared_scope: &'a str,
    diagnostics: &'a Vec<Diagnostic>,
    frontiers: &'a Vec<UnknownFrontier>,
    selected_origins: Vec<Source>,
    relevant_origins: Vec<Source>,
    definition_nodes: Vec<(DefinitionId, NodeId)>,
    expression_owner: Vec<(NodeId, NodeId)>,
    graph_nodes: Vec<FlowNode>,
    graph_edges: Vec<FlowEdge>,
    graph_facts: Vec<Fact>,
    witnesses: Vec<Witness>,
    endings: Vec<PathEnding>,
    relevant_diagnostics: Vec<Diagnostic>,
    relevant_frontiers: Vec<UnknownFrontier>,
    next_witness: u64,
    upstream_partial: bool,
    downstream_partial: bool,
    branches: Option<BranchPaths>,
}

proof fn lemma_push_node(p: ProcedureIr, nodes: Seq<FlowNode>, n: FlowNode, index: int)
    requires
        nodes_from(p, nodes),
        0 <= index < p.nodes@.len(),
        p.nodes@[index].id@ == n.id@,
        p.nodes@[index].span == Some(n.span),
    ensures
        nodes_from(p, nodes.push(n)),
{
    let all = nodes.push(n);
    assert forall|k: int| 0 <= k < all.len() implies exists|i: int|
        0 <= i < p.nodes@.len() && (#[trigger] p.nodes@[i]).id@ == (#[trigger] all[k]).id@
            && p.nodes@[i].span == Some(all[k].span) by {
        if k < nodes.len() {
            assert(all[k] == nodes[k]);
        } else {
            assert(p.nodes@[index].id@ == all[k].id@);
        }
    }
}

fn clone_sources(list: &Vec<Source>) -> (res: Vec<Source>)
    ensures
        res@ == list@,
{
    let mut out: Vec<Source> = Vec::new();
    let mut k: usize = 0;
    while k < list.len()
        invariant
            k <= list@.len(),
            out@ == list@.take(k as int),
        decreases list.len() - k,
    {
        proof {
            assert(list@.take(k + 1) =~= list@.take(k as int).push(list@[k as int]));
        }
        out.push(list[k].clone());
        k = k + 1;
    }
    proof {
        assert(list@.take(k as int) =~= list@);
    }
    out
}

fn insert_resolved(list: &mut Vec<ResolvedSource>, item: ResolvedSource) {
    let mut k: usize = 0;
    while k < list.len()
        invariant
            k <= list@.len(),
        decreases list.len() - k,
    {
        if list[k].node.same(&item.node) && list[k].projection == item.projection
            && list[k].computed == item.computed {
            return;
        }
        k = k + 1;
    }
    list.push(item);
}

impl<'a> SliceBuilder<'a> {
    spec fn inv(&self) -> bool {
        nodes_from(*self.procedure, self.graph_nodes@)
    }

    // -- Facts.

    fn facts_index(&self, node: &NodeId) -> (res: Option<usize>)
        ensures
            res matches Some(i) ==> i < self.facts_at@.len(),
            match res {
                Some(i) => self.facts_at@[i as int].0@ == node@ && forall|j: int|
                    0 <= j < i ==> (#[trigger] self.facts_at@[j]).0@ != node@,
                None => forall|j: int| 0 <= j < self.facts_at@.len() ==> (#[trigger] self.facts_at@[j]).0@ != node@,
            },
    {
        let mut k: usize = 0;
        while k < self.facts_at.len()
            invariant
                k <= self.facts_at@.len(),
                forall|j: int| 0 <= j < k ==> (#[trigger] self.facts_at@[j]).0@ != node@,
            decreases self.facts_at.len() - k,
        {
            if self.facts_at[k].0.same(node) {
                return Some(k);
            }
            k = k + 1;
        }
        None
    }

    /// Whether the place carries a value from the origin at the node.
    fn has_origin(&self, node: &NodeId, place: &Place, origin: &Source) -> bool {
        match self.facts_index(node) {
            Some(i) => contains_fact(
                &self.facts_at[i].1,
                &Fact::Origin { place: place.clone(), source: origin.clone() },
            ),
            None => false,
        }
    }

    /// Whether the place carries a function input at the node.
    fn has_input_origin(&self, node: &NodeId, place: &Place) -> bool {
        match self.facts_index(node) {
            Some(i) => {
                let facts = &self.facts_at[i].1;
                let mut k: usize = 0;
                while k < facts.len()
                    invariant
                        k <= facts@.len(),
                    decreases facts.len() - k,
                {
                    if let Fact::Origin { place: candidate, source: Source::FunctionInput(_) } =
                        &facts[k] {
                        if candidate.same(place) {
                            return true;
                        }
                    }
                    k = k + 1;
                }
                false
            },
            None => false,
        }
    }

    /// The writes that last wrote the place at the node.
    fn last_writes(&self, node: &NodeId, place: &Place) -> Vec<DefinitionId> {
        let mut out: Vec<DefinitionId> = Vec::new();
        if let Some(i) = self.facts_index(node) {
            let facts = &self.facts_at[i].1;
            let mut k: usize = 0;
            while k < facts.len()
                invariant
                    k <= facts@.len(),
                decreases facts.len() - k,
            {
                if let Fact::LastWrite { place: candidate, write } = &facts[k] {
                    if candidate.same(place) && !contains_definition(&out, write) {
                        out.push(write.clone());
                    }
                }
                k = k + 1;
            }
        }
        out
    }

    /// The operation that introduces a definition.
    fn definition_node(&self, definition: &DefinitionId) -> Option<NodeId> {
        let mut found: Option<NodeId> = None;
        let mut k: usize = 0;
        while k < self.definition_nodes.len()
            invariant
                k <= self.definition_nodes@.len(),
            decreases self.definition_nodes.len() - k,
        {
            if self.definition_nodes[k].0.same(definition) {
                found = Some(self.definition_nodes[k].1.clone());
            }
            k = k + 1;
        }
        found
    }

    fn is_unknown_node(&self, index: usize) -> bool
        requires
            index < self.procedure.nodes@.len(),
    {
        match &self.procedure.nodes[index].operation {
            Operation::UnknownEffect { .. } | Operation::Call { .. } => true,
            _ => false,
        }
    }

    /// Whether some feasible path reaches the node (always, without branch
    /// paths or when their budget ran out).
    fn reachable(&self, node: &NodeId) -> bool {
        match &self.branches {
            None => true,
            Some(paths) => paths.truncated || paths.reaches(node),
        }
    }

    // -- Sources.

    fn resolve_sources(
        &self,
        place: &Place,
        at: &NodeId,
        desired: Option<&Source>,
        projection: &str,
        computed: bool,
    ) -> Vec<ResolvedSource> {
        let mut visited: Vec<(Place, NodeId)> = Vec::new();
        self.resolve_inner(
            place,
            at,
            desired,
            projection,
            computed,
            &mut visited,
            self.procedure.nodes.len(),
        )
    }

    /// The operations that produce the value of `place` at `at`: the last
    /// writes of a binding (or `at` itself for a function input), else the
    /// producer of a temporary, through reads and computations. With a
    /// desired origin only places that carry it are followed.
    fn resolve_inner(
        &self,
        place: &Place,
        at: &NodeId,
        desired: Option<&Source>,
        projection: &str,
        computed: bool,
        visited: &mut Vec<(Place, NodeId)>,
        fuel: usize,
    ) -> Vec<ResolvedSource>
        decreases fuel,
    {
        let mut resolved: Vec<ResolvedSource> = Vec::new();
        let mut k: usize = 0;
        while k < visited.len()
            invariant
                k <= visited@.len(),
            decreases visited.len() - k,
        {
            if visited[k].0.same(place) && visited[k].1.same(at) {
                return resolved;
            }
            k = k + 1;
        }
        visited.push((place.clone(), at.clone()));
        if let Some(origin) = desired {
            if !self.has_origin(at, place, origin) {
                return resolved;
            }
        }
        match place {
            Place::Binding(_) => {
                let writes = self.last_writes(at, place);
                let mut w: usize = 0;
                while w < writes.len()
                    invariant
                        w <= writes@.len(),
                    decreases writes.len() - w,
                {
                    if let Some(node) = self.definition_node(&writes[w]) {
                        insert_resolved(
                            &mut resolved,
                            ResolvedSource { node, projection: String::from_str(projection), computed },
                        );
                    }
                    w = w + 1;
                }
                if resolved.len() == 0 && self.has_input_origin(at, place) {
                    insert_resolved(
                        &mut resolved,
                        ResolvedSource {
                            node: at.clone(),
                            projection: String::from_str(projection),
                            computed,
                        },
                    );
                }
                resolved
            },
            Place::Temporary(producer) => {
                if fuel == 0 {
                    return resolved;
                }
                let index = match find_node(self.procedure, producer) {
                    Some(i) => i,
                    None => {
                        return resolved;
                    },
                };
                match &self.procedure.nodes[index].operation {
                    Operation::Read { source, .. } => self.resolve_inner(
                        source,
                        producer,
                        desired,
                        projection,
                        computed,
                        visited,
                        fuel - 1,
                    ),
                    Operation::Compute { inputs, .. } => {
                        let mut j: usize = 0;
                        while j < inputs.len()
                            invariant
                                j <= inputs@.len(),
                                fuel > 0,
                            decreases inputs.len() - j,
                        {
                            let follow = match desired {
                                None => true,
                                Some(origin) => self.has_origin(producer, &inputs[j].place, origin),
                            };
                            if follow {
                                let nested = join_projection(
                                    projection,
                                    role_projection(&inputs[j].role).as_str(),
                                );
                                let found = self.resolve_inner(
                                    &inputs[j].place,
                                    producer,
                                    desired,
                                    nested.as_str(),
                                    true,
                                    visited,
                                    fuel - 1,
                                );
                                let mut f: usize = 0;
                                while f < found.len()
                                    invariant
                                        f <= found@.len(),
                                    decreases found.len() - f,
                                {
                                    insert_resolved(
                                        &mut resolved,
                                        ResolvedSource {
                                            node: found[f].node.clone(),
                                            projection: found[f].projection.clone(),
                                            computed: found[f].computed,
                                        },
                                    );
                                    f = f + 1;
                                }
                            }
                            j = j + 1;
                        }
                        resolved
                    },
                    Operation::Literal { .. } | Operation::UnknownEffect { .. }
                    | Operation::Call { .. } => {
                        resolved.push(
                            ResolvedSource {
                                node: producer.clone(),
                                projection: String::from_str(projection),
                                computed,
                            },
                        );
                        resolved
                    },
                    _ => resolved,
                }
            },
        }
    }

    // -- Recording.

    /// Adds the operation at `index` to the graph; with `as_input` it is
    /// named a function input.
    fn add_node(&mut self, index: usize, as_input: bool) -> (res: Result<(), SliceError>)
        requires
            old(self).inv(),
            index < old(self).procedure.nodes@.len(),
        ensures
            res matches Err(e) ==> e is MissingSpan,
            final(self).procedure == old(self).procedure,
            final(self).inv(),
    {
        let p = self.procedure;
        let node = &p.nodes[index];
        let span = match &node.span {
            Some(s) => s.clone(),
            None => {
                return Err(SliceError::MissingSpan(node.id.clone()));
            },
        };
        let operation = if as_input {
            String::from_str("function_input")
        } else {
            operation_name(&node.operation)
        };
        let fingerprint = operation_fingerprint(&node.operation);
        let item = FlowNode {
            id: node.id.clone(),
            operation,
            span,
            enclosing_declaration: Some(String::from_str(self.declared_scope)),
            fingerprint,
        };
        let mut k: usize = 0;
        while k < self.graph_nodes.len()
            invariant
                k <= self.graph_nodes@.len(),
                self.procedure == p,
                self.inv(),
            decreases self.graph_nodes.len() - k,
        {
            if flow_node_equal(&self.graph_nodes[k], &item) {
                return Ok(());
            }
            k = k + 1;
        }
        proof {
            lemma_push_node(*p, self.graph_nodes@, item, index as int);
        }
        self.graph_nodes.push(item);
        Ok(())
    }

    /// Adds a resolved source to the graph when a path reaches it; a read
    /// there is a function input.
    fn add_resolved_node(&mut self, id: &NodeId) -> (res: Result<(), SliceError>)
        requires
            old(self).inv(),
        ensures
            res matches Err(e) ==> e is MissingSpan,
            final(self).procedure == old(self).procedure,
            final(self).inv(),
    {
        if !self.reachable(id) {
            return Ok(());
        }
        let index = match find_node(self.procedure, id) {
            Some(i) => i,
            None => {
                return Ok(());
            },
        };
        let as_input = match &self.procedure.nodes[index].operation {
            Operation::Read { .. } => true,
            _ => false,
        };
        self.add_node(index, as_input)
    }

    fn insert_edge(&mut self, edge: FlowEdge)
        ensures
            final(self).procedure == old(self).procedure,
            final(self).graph_nodes == old(self).graph_nodes,
    {
        let mut k: usize = 0;
        while k < self.graph_edges.len()
            invariant
                k <= self.graph_edges@.len(),
            decreases self.graph_edges.len() - k,
        {
            if flow_edge_equal(&self.graph_edges[k], &edge) {
                return;
            }
            k = k + 1;
        }
        self.graph_edges.push(edge);
    }

    fn add_witness(&mut self, nodes: Vec<NodeId>, evidence: EvidenceKind) -> (res: WitnessId)
        ensures
            final(self).procedure == old(self).procedure,
            final(self).graph_nodes == old(self).graph_nodes,
    {
        let id = WitnessId(self.next_witness);
        if self.next_witness < u64::MAX {
            self.next_witness = self.next_witness + 1;
        }
        self.witnesses.push(
            Witness {
                id: WitnessId(id.0),
                nodes,
                backedges: Vec::new(),
                summary_expansions: Vec::new(),
                evidence,
            },
        );
        id
    }

    /// The conditions of the paths along which the relation holds at the
    /// target: no condition without branch paths.
    fn edge_conditions(&self, source: &NodeId, target: &NodeId, relation: RelationKind) -> Vec<
        Option<String>,
    > {
        let mut unconditional: Vec<Option<String>> = Vec::new();
        unconditional.push(None);
        let paths = match &self.branches {
            None => {
                return unconditional;
            },
            Some(paths) => paths,
        };
        if paths.truncated {
            return unconditional;
        }
        let index = match find_node(self.procedure, source) {
            Some(i) => i,
            None => {
                return paths.conditions_for(target, &FactTest::Any);
            },
        };
        let test = match &self.procedure.nodes[index].operation {
            Operation::Write { target: place, definition, .. } => {
                if relation == RelationKind::Reaches {
                    FactTest::LastWrite { place: place.clone(), write: definition.clone() }
                } else {
                    FactTest::OriginFromWrite { write: definition.clone() }
                }
            },
            Operation::Literal { definition, .. } | Operation::Compute { definition, .. } => {
                FactTest::OriginFromWrite { write: definition.clone() }
            },
            _ => FactTest::Any,
        };
        paths.conditions_for(target, &test)
    }

    /// Adds an edge for each condition under which it holds, with a witness.
    fn add_edge(
        &mut self,
        source: NodeId,
        target: NodeId,
        relation: RelationKind,
        projection: Option<String>,
        evidence: EvidenceKind,
    )
        ensures
            final(self).procedure == old(self).procedure,
            final(self).graph_nodes == old(self).graph_nodes,
    {
        if source.same(&target) {
            return;
        }
        let conditions = self.edge_conditions(&source, &target, relation);
        if conditions.len() == 0 {
            return;
        }
        let truncated = match &self.branches {
            Some(paths) => paths.truncated,
            None => false,
        };
        let mut c: usize = 0;
        while c < conditions.len()
            invariant
                c <= conditions@.len(),
                self.procedure == old(self).procedure,
                self.graph_nodes == old(self).graph_nodes,
            decreases conditions.len() - c,
        {
            let unproven = match &self.branches {
                Some(paths) => paths.condition_unproven(&target, &conditions[c]),
                None => false,
            };
            let edge_evidence = if truncated {
                EvidenceKind::Unresolved { diagnostic: DiagnosticCode::AnalysisBudgetExceeded }
            } else if unproven {
                EvidenceKind::Unresolved { diagnostic: DiagnosticCode::UnprovenPathFeasibility }
            } else {
                clone_evidence(&evidence)
            };
            self.insert_edge(
                FlowEdge {
                    source: source.clone(),
                    target: target.clone(),
                    relation,
                    projection: clone_option_text(&projection),
                    condition: clone_option_text(&conditions[c]),
                    evidence: edge_evidence,
                },
            );
            c = c + 1;
        }
        let path = match shortest_path(self.procedure, &source, &target) {
            Some(path) => path,
            None => pair_path(&source, &target),
        };
        self.add_witness(path, evidence);
    }

    /// The nearest span at or before the node, following first incoming
    /// edges.
    fn nearest_span(&self, from: usize) -> Option<SourceSpan>
        requires
            from < self.procedure.nodes@.len(),
    {
        let p = self.procedure;
        let n = p.nodes.len();
        let mut seen: Vec<bool> = Vec::new();
        let mut k: usize = 0;
        while k < n
            invariant
                n == p.nodes@.len(),
                k <= n,
                seen@.len() == k,
            decreases n - k,
        {
            seen.push(false);
            k = k + 1;
        }
        let mut current = from;
        let mut steps: usize = 0;
        while steps < n
            invariant
                n == p.nodes@.len(),
                seen@.len() == n,
                current < n,
            decreases n - steps,
        {
            if seen[current] {
                return None;
            }
            seen.set(current, true);
            if let Some(span) = &p.nodes[current].span {
                return Some(span.clone());
            }
            let mut previous: Option<usize> = None;
            let mut e: usize = 0;
            while e < p.edges.len()
                invariant
                    n == p.nodes@.len(),
                    current < n,
                    previous matches Some(v) ==> v < n,
                decreases p.edges.len() - e,
            {
                if p.edges[e].target.same(&p.nodes[current].id) {
                    previous = find_node(p, &p.edges[e].source);
                    break;
                }
                e = e + 1;
            }
            match previous {
                Some(v) => {
                    current = v;
                },
                None => {
                    return None;
                },
            }
            steps = steps + 1;
        }
        None
    }

    fn origin_node(&self, origin: &Source) -> Option<NodeId> {
        match origin {
            Source::Write(definition) | Source::ParameterEntry(definition) => self.definition_node(
                definition,
            ),
            _ => None,
        }
    }

    /// Records where a carried value ends, with a witness path from its
    /// origin.
    fn add_ending(
        &mut self,
        kind: PathEndingKind,
        origin: Source,
        carrier: Place,
        location_node: &NodeId,
        context: &str,
        diagnostic: Option<DiagnosticCode>,
        condition: Option<String>,
    ) -> (res: Result<(), SliceError>)
        ensures
            res matches Err(e) ==> e is MissingSpan,
            final(self).procedure == old(self).procedure,
            final(self).graph_nodes == old(self).graph_nodes,
    {
        let index = match find_node(self.procedure, location_node) {
            Some(i) => i,
            None => {
                return Err(SliceError::MissingSpan(location_node.clone()));
            },
        };
        let location = match &self.procedure.nodes[index].span {
            Some(span) => span.clone(),
            None => match self.nearest_span(index) {
                Some(span) => span,
                None => {
                    return Err(SliceError::MissingSpan(location_node.clone()));
                },
            },
        };
        let start = match self.origin_node(&origin) {
            Some(node) => node,
            None => self.procedure.entry.clone(),
        };
        let path = match shortest_path(self.procedure, &start, location_node) {
            Some(path) => path,
            None => pair_path(&start, location_node),
        };
        let evidence = match diagnostic {
            Some(code) => EvidenceKind::Unresolved { diagnostic: code },
            None => EvidenceKind::Supported,
        };
        let witness = self.add_witness(path, evidence);
        self.endings.push(
            PathEnding {
                kind,
                origin,
                carrier,
                location,
                condition,
                context: String::from_str(context),
                witness,
                model: None,
                diagnostic,
            },
        );
        Ok(())
    }

    /// Makes the frontiers and diagnostics at the node part of the slice.
    fn mark_frontier_relevant(&mut self, node: &NodeId)
        ensures
            final(self).procedure == old(self).procedure,
            final(self).graph_nodes == old(self).graph_nodes,
    {
        let mut k: usize = 0;
        while k < self.frontiers.len()
            invariant
                k <= self.frontiers@.len(),
                self.procedure == old(self).procedure,
                self.graph_nodes == old(self).graph_nodes,
            decreases self.frontiers.len() - k,
        {
            if self.frontiers[k].node.same(node) {
                let item = self.frontiers[k].clone();
                insert_frontier(&mut self.relevant_frontiers, item);
            }
            k = k + 1;
        }
        let mut k: usize = 0;
        while k < self.diagnostics.len()
            invariant
                k <= self.diagnostics@.len(),
                self.procedure == old(self).procedure,
                self.graph_nodes == old(self).graph_nodes,
            decreases self.diagnostics.len() - k,
        {
            let relevant = match &self.diagnostics[k].frontier {
                Some(f) => f.same(node),
                None => false,
            };
            if relevant {
                let item = self.diagnostics[k].clone();
                insert_diagnostic(&mut self.relevant_diagnostics, item);
            }
            k = k + 1;
        }
    }
}


fn facts_index_in(facts_at: &Vec<(NodeId, Vec<Fact>)>, node: &NodeId) -> (res: Option<usize>)
    ensures
        res matches Some(i) ==> i < facts_at@.len(),
{
    let mut k: usize = 0;
    while k < facts_at.len()
        invariant
            k <= facts_at@.len(),
        decreases facts_at.len() - k,
    {
        if facts_at[k].0.same(node) {
            return Some(k);
        }
        k = k + 1;
    }
    None
}

/// Copies the facts listed for a node.
fn facts_for(facts_at: &Vec<(NodeId, Vec<Fact>)>, node: &NodeId) -> Vec<Fact> {
    let mut out: Vec<Fact> = Vec::new();
    let mut k: usize = 0;
    while k < facts_at.len()
        invariant
            k <= facts_at@.len(),
        decreases facts_at.len() - k,
    {
        if facts_at[k].0.same(node) {
            let facts = &facts_at[k].1;
            let mut j: usize = 0;
            while j < facts.len()
                invariant
                    j <= facts@.len(),
                decreases facts.len() - j,
            {
                out.push(facts[j].clone());
                j = j + 1;
            }
            return out;
        }
        k = k + 1;
    }
    out
}

/// The origin carried by `state` in the least place (the first such fact).
fn least_carrier(facts: &Vec<Fact>, origin: &Source) -> Option<Place> {
    let mut carrier: Option<Place> = None;
    let mut k: usize = 0;
    while k < facts.len()
        invariant
            k <= facts@.len(),
        decreases facts.len() - k,
    {
        if let Fact::Origin { place, source } = &facts[k] {
            if source.same(origin) {
                let replace = match &carrier {
                    None => true,
                    Some(c) => place_less(place, c),
                };
                if replace {
                    carrier = Some(place.clone());
                }
            }
        }
        k = k + 1;
    }
    carrier
}

impl<'a> SliceBuilder<'a> {
    /// The builder for a binding with at least one value source: its writes
    /// and, for a parameter, the function input.
    fn new(
        procedure: &'a ProcedureIr,
        solved: &'a SolverOutput,
        selected_binding: &'a BindingId,
        declared_scope: &'a str,
    ) -> (res: Result<Self, SliceError>)
        ensures
            res is Err <==> !has_selected_origin(*procedure, *selected_binding),
            res matches Err(e) ==> e == SliceError::MissingSelectedBinding,
            res matches Ok(b) ==> b.procedure == procedure && b.inv(),
    {
        let mut selected_origins: Vec<Source> = Vec::new();
        let mut definition_nodes: Vec<(DefinitionId, NodeId)> = Vec::new();
        let mut written = false;
        let mut has_branch = false;
        let mut i: usize = 0;
        while i < procedure.nodes.len()
            invariant
                i <= procedure.nodes@.len(),
                written == exists|j: int| 0 <= j < i && writes_binding(
                    (#[trigger] procedure.nodes@[j]).operation,
                    *selected_binding,
                ),
            decreases procedure.nodes.len() - i,
        {
            let node = &procedure.nodes[i];
            if let Some(definition) = operation_definition(&node.operation) {
                definition_nodes.push((definition.clone(), node.id.clone()));
            }
            match &node.operation {
                Operation::Write { target: Place::Binding(binding), definition, .. } => {
                    if binding.same(selected_binding) {
                        push_source(&mut selected_origins, Source::Write(definition.clone()));
                        written = true;
                    }
                },
                Operation::Branch { .. } => {
                    has_branch = true;
                },
                _ => {},
            }
            proof {
                assert(writes_binding(procedure.nodes@[i as int].operation, *selected_binding)
                    == (node.operation matches Operation::Write { target: Place::Binding(b), .. }
                    && b@ == selected_binding@));
            }
            i = i + 1;
        }
        let mut param = false;
        let mut k: usize = 0;
        while k < procedure.parameters.len()
            invariant
                k <= procedure.parameters@.len(),
                param == exists|j: int| 0 <= j < k && (#[trigger] procedure.parameters@[j]).binding@
                    == selected_binding@,
            decreases procedure.parameters.len() - k,
        {
            if procedure.parameters[k].binding.same(selected_binding) {
                param = true;
            }
            k = k + 1;
        }
        if param {
            push_source(&mut selected_origins, Source::FunctionInput(selected_binding.clone()));
        }
        if !written && !param {
            return Err(SliceError::MissingSelectedBinding);
        }
        let expression_owner = expression_owners(procedure);
        let branches = if has_branch {
            Some(BranchPaths::build(procedure, facts_for(&solved.facts_at, &procedure.entry), 4096))
        } else {
            None
        };
        let truncated = match &branches {
            Some(paths) => paths.truncated,
            None => false,
        };
        let mut builder = SliceBuilder {
            procedure,
            facts_at: &solved.facts_at,
            selected_binding,
            declared_scope,
            diagnostics: &solved.diagnostics,
            frontiers: &solved.unknown_frontiers,
            selected_origins,
            relevant_origins: Vec::new(),
            definition_nodes,
            expression_owner,
            graph_nodes: Vec::new(),
            graph_edges: Vec::new(),
            graph_facts: Vec::new(),
            witnesses: Vec::new(),
            endings: Vec::new(),
            relevant_diagnostics: Vec::new(),
            relevant_frontiers: Vec::new(),
            next_witness: 1,
            upstream_partial: false,
            downstream_partial: false,
            branches,
        };
        if truncated {
            builder.downstream_partial = true;
            insert_diagnostic(
                &mut builder.relevant_diagnostics,
                Diagnostic {
                    code: DiagnosticCode::AnalysisBudgetExceeded,
                    message: String::from_str("branch witness state limit (4096) exceeded"),
                    snapshot: Some(procedure.id.snapshot.clone()),
                    frontier: Some(procedure.entry.clone()),
                    span: None,
                    affected_flows: Vec::new(),
                },
            );
            insert_frontier(
                &mut builder.relevant_frontiers,
                UnknownFrontier {
                    node: procedure.entry.clone(),
                    next_operation: String::from_str("branch path validation"),
                    diagnostic: DiagnosticCode::AnalysisBudgetExceeded,
                    affected_direction: Direction::Downstream,
                },
            );
        }
        Ok(builder)
    }

    fn build(&mut self) -> (res: Result<(), SliceError>)
        requires
            old(self).inv(),
        ensures
            res matches Err(e) ==> e is MissingSpan,
            final(self).procedure == old(self).procedure,
            final(self).inv(),
    {
        self.relevant_origins = clone_sources(&self.selected_origins);
        self.add_selected_writes_and_upstream()?;
        self.add_downstream()?;
        self.add_controls()?;
        if self.branches.is_some() {
            self.add_branch_endings()?;
        } else {
            self.add_endings()?;
        }
        self.retain_relevant_facts();
        Ok(())
    }

    /// The writes of the selected binding and what they read.
    #[verifier::loop_isolation(false)]
    fn add_selected_writes_and_upstream(&mut self) -> (res: Result<(), SliceError>)
        requires
            old(self).inv(),
        ensures
            res matches Err(e) ==> e is MissingSpan,
            final(self).procedure == old(self).procedure,
            final(self).inv(),
    {
        let p = self.procedure;
        let facts_at = self.facts_at;
        let mut i: usize = 0;
        while i < p.nodes.len()
            invariant
                self.procedure == p,
                self.inv(),
                i <= p.nodes@.len(),
            decreases p.nodes.len() - i,
        {
            let node = &p.nodes[i];
            if let Operation::Write { target: Place::Binding(binding), sources, .. } =
                &node.operation {
                if binding.same(self.selected_binding) && self.reachable(&node.id) {
                    self.add_node(i, false)?;
                    let mut s: usize = 0;
                    while s < sources.len()
                        invariant
                            self.procedure == p,
                            self.inv(),
                            i < p.nodes@.len(),
                            s <= sources@.len(),
                        decreases sources.len() - s,
                    {
                        let source = &sources[s];
                        if let Some(fi) = facts_index_in(facts_at, &node.id) {
                            let facts = &facts_at[fi].1;
                            let mut f: usize = 0;
                            while f < facts.len()
                                invariant
                                    self.procedure == p,
                                    self.inv(),
                                    f <= facts@.len(),
                                decreases facts.len() - f,
                            {
                                if let Fact::Origin { place: candidate, source: origin } = &facts[f] {
                                    if candidate.same(source) {
                                        push_source(&mut self.relevant_origins, origin.clone());
                                    }
                                }
                                f = f + 1;
                            }
                        }
                        let resolved = self.resolve_sources(source, &node.id, None, "value", false);
                        let mut r: usize = 0;
                        while r < resolved.len()
                            invariant
                                self.procedure == p,
                                self.inv(),
                                i < p.nodes@.len(),
                                r <= resolved@.len(),
                            decreases resolved.len() - r,
                        {
                            let item = &resolved[r];
                            self.add_resolved_node(&item.node)?;
                            let mut evidence = EvidenceKind::Supported;
                            if let Some(ri) = find_node(p, &item.node) {
                                if self.is_unknown_node(ri) {
                                    self.upstream_partial = true;
                                    evidence = EvidenceKind::Unresolved {
                                        diagnostic: diagnostic_for_operation(&p.nodes[ri].operation),
                                    };
                                }
                            }
                            self.add_edge(
                                item.node.clone(),
                                node.id.clone(),
                                RelationKind::ValueDependency,
                                Some(item.projection.clone()),
                                evidence,
                            );
                            r = r + 1;
                        }
                        s = s + 1;
                    }
                }
            }
            i = i + 1;
        }
        Ok(())
    }

    /// Adds the edges from the resolved sources of `place` at node `i` to
    /// that node, for one origin.
    #[verifier::loop_isolation(false)]
    fn add_inflow(
        &mut self,
        i: usize,
        place: &Place,
        origin: &Source,
        projection: &str,
        relation: RelationKind,
        returned: bool,
    ) -> (res: Result<(), SliceError>)
        requires
            old(self).inv(),
            i < old(self).procedure.nodes@.len(),
        ensures
            res matches Err(e) ==> e is MissingSpan,
            final(self).procedure == old(self).procedure,
            final(self).inv(),
    {
        let p = self.procedure;
        let node = &p.nodes[i];
        let resolved = self.resolve_sources(place, &node.id, Some(origin), projection, false);
        let mut r: usize = 0;
        while r < resolved.len()
            invariant
                self.procedure == p,
                self.inv(),
                i < p.nodes@.len(),
                r <= resolved@.len(),
            decreases resolved.len() - r,
        {
            let item = &resolved[r];
            self.add_resolved_node(&item.node)?;
            let kind = if returned && !item.computed {
                RelationKind::Reaches
            } else {
                relation
            };
            self.add_edge(
                item.node.clone(),
                node.id.clone(),
                kind,
                Some(item.projection.clone()),
                EvidenceKind::Supported,
            );
            r = r + 1;
        }
        Ok(())
    }

    /// Where the selected values go: writes, returns, unsupported operations,
    /// calls and outermost computations that read them.
    #[verifier::loop_isolation(false)]
    fn add_downstream(&mut self) -> (res: Result<(), SliceError>)
        requires
            old(self).inv(),
        ensures
            res matches Err(e) ==> e is MissingSpan,
            final(self).procedure == old(self).procedure,
            final(self).inv(),
    {
        let p = self.procedure;
        let origins = clone_sources(&self.selected_origins);
        let mut i: usize = 0;
        while i < p.nodes.len()
            invariant
                self.procedure == p,
                self.inv(),
                i <= p.nodes@.len(),
            decreases p.nodes.len() - i,
        {
            let node = &p.nodes[i];
            if self.reachable(&node.id) {
                let mut o: usize = 0;
                while o < origins.len()
                    invariant
                        self.procedure == p,
                        self.inv(),
                        i < p.nodes@.len(),
                        o <= origins@.len(),
                    decreases origins.len() - o,
                {
                    let origin = &origins[o];
                    match &node.operation {
                        Operation::Write { sources, .. } => {
                            let mut s: usize = 0;
                            while s < sources.len()
                                invariant
                                    self.procedure == p,
                                    self.inv(),
                                    i < p.nodes@.len(),
                                    s <= sources@.len(),
                                decreases sources.len() - s,
                            {
                                if self.has_origin(&node.id, &sources[s], origin) {
                                    self.add_node(i, false)?;
                                    self.add_inflow(
                                        i,
                                        &sources[s],
                                        origin,
                                        "value",
                                        RelationKind::ValueDependency,
                                        false,
                                    )?;
                                }
                                s = s + 1;
                            }
                        },
                        Operation::Return { value: Some(value) } => {
                            if self.has_origin(&node.id, value, origin) {
                                self.add_node(i, false)?;
                                self.add_inflow(
                                    i,
                                    value,
                                    origin,
                                    "value",
                                    RelationKind::ValueDependency,
                                    true,
                                )?;
                            }
                        },
                        Operation::UnknownEffect { inputs, .. } => {
                            let mut s: usize = 0;
                            while s < inputs.len()
                                invariant
                                    self.procedure == p,
                                    self.inv(),
                                    i < p.nodes@.len(),
                                    s <= inputs@.len(),
                                decreases inputs.len() - s,
                            {
                                if self.has_origin(&node.id, &inputs[s].place, origin) {
                                    self.add_node(i, false)?;
                                    let projection = unknown_input_projection(
                                        &node.operation,
                                        &inputs[s].role,
                                    );
                                    self.add_inflow(
                                        i,
                                        &inputs[s].place,
                                        origin,
                                        projection.as_str(),
                                        RelationKind::Argument,
                                        false,
                                    )?;
                                    self.mark_frontier_relevant(&node.id);
                                    self.downstream_partial = true;
                                }
                                s = s + 1;
                            }
                        },
                        Operation::Call { arguments, .. } => {
                            let mut s: usize = 0;
                            while s < arguments.len()
                                invariant
                                    self.procedure == p,
                                    self.inv(),
                                    i < p.nodes@.len(),
                                    s <= arguments@.len(),
                                decreases arguments.len() - s,
                            {
                                if self.has_origin(&node.id, &arguments[s], origin) {
                                    self.add_node(i, false)?;
                                    let projection = String::from_str("arguments[").concat(
                                        s.to_string().as_str(),
                                    ).concat("]");
                                    self.add_inflow(
                                        i,
                                        &arguments[s],
                                        origin,
                                        projection.as_str(),
                                        RelationKind::Argument,
                                        false,
                                    )?;
                                    self.mark_frontier_relevant(&node.id);
                                    self.downstream_partial = true;
                                }
                                s = s + 1;
                            }
                        },
                        Operation::Compute { inputs, .. } => {
                            if owner_of(&self.expression_owner, &node.id).is_none() {
                                let mut s: usize = 0;
                                while s < inputs.len()
                                    invariant
                                        self.procedure == p,
                                        self.inv(),
                                        i < p.nodes@.len(),
                                        s <= inputs@.len(),
                                    decreases inputs.len() - s,
                                {
                                    if self.has_origin(&node.id, &inputs[s].place, origin) {
                                        self.add_node(i, false)?;
                                        let projection = role_projection(&inputs[s].role);
                                        self.add_inflow(
                                            i,
                                            &inputs[s].place,
                                            origin,
                                            projection.as_str(),
                                            RelationKind::ValueDependency,
                                            false,
                                        )?;
                                    }
                                    s = s + 1;
                                }
                            }
                        },
                        _ => {},
                    }
                    o = o + 1;
                }
            }
            i = i + 1;
        }
        Ok(())
    }
}


impl<'a> SliceBuilder<'a> {
    /// The branches whose guard reads a selected value or which decide a
    /// write of the selected binding, with the writes they control.
    #[verifier::loop_isolation(false)]
    fn add_controls(&mut self) -> (res: Result<(), SliceError>)
        requires
            old(self).inv(),
        ensures
            res matches Err(e) ==> e is MissingSpan,
            final(self).procedure == old(self).procedure,
            final(self).inv(),
    {
        if self.branches.is_none() {
            return Ok(());
        }
        let p = self.procedure;
        let origins = clone_sources(&self.selected_origins);
        let mut b: usize = 0;
        while b < p.nodes.len()
            invariant
                self.procedure == p,
                self.inv(),
                b <= p.nodes@.len(),
            decreases p.nodes.len() - b,
        {
            let branch = &p.nodes[b];
            if let Operation::Branch { condition } = &branch.operation {
                if self.reachable(&branch.id) {
                    self.add_control(b, condition, &origins)?;
                }
            }
            b = b + 1;
        }
        Ok(())
    }

    #[verifier::loop_isolation(false)]
    fn add_control(&mut self, b: usize, condition: &Place, origins: &Vec<Source>) -> (res: Result<
        (),
        SliceError,
    >)
        requires
            old(self).inv(),
            b < old(self).procedure.nodes@.len(),
        ensures
            res matches Err(e) ==> e is MissingSpan,
            final(self).procedure == old(self).procedure,
            final(self).inv(),
    {
        let p = self.procedure;
        let branch = &p.nodes[b];
        let mut guard_is_selected = false;
        let mut o: usize = 0;
        while o < origins.len()
            invariant
                o <= origins@.len(),
            decreases origins.len() - o,
        {
            if self.has_origin(&branch.id, condition, &origins[o]) {
                guard_is_selected = true;
            }
            o = o + 1;
        }
        let controlled = controlled_nodes(p, b);
        let mut selected_writes: Vec<usize> = Vec::new();
        let mut c: usize = 0;
        while c < controlled.len()
            invariant
                c <= controlled@.len(),
                forall|k: int| 0 <= k < controlled@.len() ==> controlled@[k] < p.nodes@.len(),
            decreases controlled.len() - c,
        {
            if let Operation::Write { target: Place::Binding(binding), .. } =
                &p.nodes[controlled[c]].operation {
                if binding.same(self.selected_binding) {
                    selected_writes.push(controlled[c]);
                }
            }
            c = c + 1;
        }
        if !guard_is_selected && selected_writes.len() == 0 {
            return Ok(());
        }
        let unproven = match &self.branches {
            Some(paths) => {
                let mut found = false;
                let mut k: usize = 0;
                while k < paths.unproven_branches.len()
                    invariant
                        k <= paths.unproven_branches@.len(),
                    decreases paths.unproven_branches.len() - k,
                {
                    if paths.unproven_branches[k].same(&branch.id) {
                        found = true;
                    }
                    k = k + 1;
                }
                found
            },
            None => false,
        };
        if unproven {
            self.downstream_partial = true;
            let span = match &branch.span {
                Some(s) => Some(s.clone()),
                None => None,
            };
            insert_diagnostic(
                &mut self.relevant_diagnostics,
                Diagnostic {
                    code: DiagnosticCode::UnprovenPathFeasibility,
                    message: String::from_str("guard theory is outside the supported Boolean subset"),
                    snapshot: Some(p.id.snapshot.clone()),
                    frontier: Some(branch.id.clone()),
                    span,
                    affected_flows: Vec::new(),
                },
            );
            insert_frontier(
                &mut self.relevant_frontiers,
                UnknownFrontier {
                    node: branch.id.clone(),
                    next_operation: String::from_str("branch outcome"),
                    diagnostic: DiagnosticCode::UnprovenPathFeasibility,
                    affected_direction: Direction::Downstream,
                },
            );
        }
        self.add_node(b, false)?;
        if guard_is_selected {
            let mut o: usize = 0;
            while o < origins.len()
                invariant
                    self.procedure == p,
                    self.inv(),
                    b < p.nodes@.len(),
                    o <= origins@.len(),
                decreases origins.len() - o,
            {
                self.add_inflow(
                    b,
                    condition,
                    &origins[o],
                    "condition",
                    RelationKind::ValueDependency,
                    false,
                )?;
                o = o + 1;
            }
        }
        let mut c: usize = 0;
        while c < controlled.len()
            invariant
                self.procedure == p,
                self.inv(),
                b < p.nodes@.len(),
                c <= controlled@.len(),
                forall|k: int| 0 <= k < controlled@.len() ==> controlled@[k] < p.nodes@.len(),
            decreases controlled.len() - c,
        {
            let id = controlled[c];
            let node = &p.nodes[id];
            c = c + 1;
            if !self.reachable(&node.id) {
                continue;
            }
            let (target, definition) = match &node.operation {
                Operation::Write { target, definition, .. } => (target, definition),
                _ => {
                    continue;
                },
            };
            let decides_selected = contains_index(&selected_writes, id);
            if !guard_is_selected && !decides_selected {
                continue;
            }
            self.add_node(id, false)?;
            self.add_edge(branch.id.clone(), node.id.clone(), RelationKind::Controls, None, EvidenceKind::Supported);
            if decides_selected {
                let conditions = self.edge_conditions(&branch.id, &node.id, RelationKind::Controls);
                let mut k: usize = 0;
                while k < conditions.len()
                    invariant
                        self.procedure == p,
                        self.inv(),
                        k <= conditions@.len(),
                    decreases conditions.len() - k,
                {
                    let unproven_here = match &self.branches {
                        Some(paths) => paths.condition_unproven(&node.id, &conditions[k]),
                        None => false,
                    };
                    let evidence = if unproven_here {
                        EvidenceKind::Unresolved { diagnostic: DiagnosticCode::UnprovenPathFeasibility }
                    } else {
                        EvidenceKind::Supported
                    };
                    self.insert_edge(
                        FlowEdge {
                            source: node.id.clone(),
                            target: node.id.clone(),
                            relation: RelationKind::MayWrite,
                            projection: None,
                            condition: clone_option_text(&conditions[k]),
                            evidence,
                        },
                    );
                    k = k + 1;
                }
            }
            if guard_is_selected {
                let mut r: usize = 0;
                while r < p.nodes.len()
                    invariant
                        self.procedure == p,
                        self.inv(),
                        r <= p.nodes@.len(),
                    decreases p.nodes.len() - r,
                {
                    let reader = &p.nodes[r];
                    if let Operation::Return { value: Some(value) } = &reader.operation {
                        let test = FactTest::LastWriteOrOrigin {
                            place: target.clone(),
                            write: definition.clone(),
                            value: value.clone(),
                        };
                        let conditions = match &self.branches {
                            Some(paths) => paths.conditions_for(&reader.id, &test),
                            None => Vec::new(),
                        };
                        if conditions.len() > 0 {
                            self.add_node(r, false)?;
                            let mut k: usize = 0;
                            while k < conditions.len()
                                invariant
                                    self.procedure == p,
                                    self.inv(),
                                    k <= conditions@.len(),
                                decreases conditions.len() - k,
                            {
                                self.insert_edge(
                                    FlowEdge {
                                        source: node.id.clone(),
                                        target: reader.id.clone(),
                                        relation: RelationKind::Reaches,
                                        projection: Some(String::from_str("value")),
                                        condition: clone_option_text(&conditions[k]),
                                        evidence: EvidenceKind::Supported,
                                    },
                                );
                                k = k + 1;
                            }
                        }
                    }
                    r = r + 1;
                }
            }
        }
        Ok(())
    }

    /// Path endings along branch paths: at returns, whether the value
    /// escapes, and at unsupported operations.
    #[verifier::loop_isolation(false)]
    fn add_branch_endings(&mut self) -> (res: Result<(), SliceError>)
        requires
            old(self).inv(),
        ensures
            res matches Err(e) ==> e is MissingSpan,
            final(self).procedure == old(self).procedure,
            final(self).inv(),
    {
        let p = self.procedure;
        let origins = clone_sources(&self.selected_origins);
        let mut i: usize = 0;
        while i < p.nodes.len()
            invariant
                self.procedure == p,
                self.inv(),
                i <= p.nodes@.len(),
            decreases p.nodes.len() - i,
        {
            let node = &p.nodes[i];
            if let Operation::Return { value } = &node.operation {
                let states = match &self.branches {
                    Some(paths) => paths.states_reaching(&node.id),
                    None => Vec::new(),
                };
                let mut s: usize = 0;
                while s < states.len()
                    invariant
                        self.procedure == p,
                        self.inv(),
                        s <= states@.len(),
                    decreases states.len() - s,
                {
                    let state = &states[s];
                    let mut o: usize = 0;
                    while o < origins.len()
                        invariant
                            self.procedure == p,
                            self.inv(),
                            o <= origins@.len(),
                        decreases origins.len() - o,
                    {
                        let origin = &origins[o];
                        o = o + 1;
                        let carrier = match least_carrier(state.state_facts(), origin) {
                            Some(c) => c,
                            None => {
                                continue;
                            },
                        };
                        let escaped = match value {
                            Some(v) => contains_fact(
                                state.state_facts(),
                                &Fact::Origin { place: v.clone(), source: origin.clone() },
                            ),
                            None => false,
                        };
                        let (kind, context, diagnostic) = if state.is_unproven() {
                            (
                                PathEndingKind::UnknownBoundary,
                                "return path depends on an unproven guard",
                                Some(DiagnosticCode::UnprovenPathFeasibility),
                            )
                        } else if escaped {
                            (
                                PathEndingKind::ScopeBoundary,
                                "returned beyond the declared caller scope",
                                None,
                            )
                        } else {
                            (PathEndingKind::NoFurtherUse, "no carrier escapes this return", None)
                        };
                        self.add_ending(
                            kind,
                            origin.clone(),
                            carrier,
                            &node.id,
                            context,
                            diagnostic,
                            label_condition(state.state_labels()),
                        )?;
                    }
                    s = s + 1;
                }
            }
            i = i + 1;
        }
        let mut i: usize = 0;
        while i < p.nodes.len()
            invariant
                self.procedure == p,
                self.inv(),
                i <= p.nodes@.len(),
            decreases p.nodes.len() - i,
        {
            let node = &p.nodes[i];
            let mut carriers: Vec<Place> = Vec::new();
            let mut boundary = true;
            let diagnostic = match &node.operation {
                Operation::UnknownEffect { inputs, .. } => {
                    let mut k: usize = 0;
                    while k < inputs.len()
                        invariant
                            k <= inputs@.len(),
                        decreases inputs.len() - k,
                    {
                        carriers.push(inputs[k].place.clone());
                        k = k + 1;
                    }
                    diagnostic_for_operation(&node.operation)
                },
                Operation::Call { arguments, .. } => {
                    let mut k: usize = 0;
                    while k < arguments.len()
                        invariant
                            k <= arguments@.len(),
                        decreases arguments.len() - k,
                    {
                        carriers.push(arguments[k].clone());
                        k = k + 1;
                    }
                    DiagnosticCode::UnresolvedCall
                },
                _ => {
                    boundary = false;
                    DiagnosticCode::UnresolvedCall
                },
            };
            if boundary {
                let states = match &self.branches {
                    Some(paths) => paths.states_reaching(&node.id),
                    None => Vec::new(),
                };
                let mut s: usize = 0;
                while s < states.len()
                    invariant
                        self.procedure == p,
                        self.inv(),
                        s <= states@.len(),
                    decreases states.len() - s,
                {
                    let state = &states[s];
                    let mut o: usize = 0;
                    while o < origins.len()
                        invariant
                            self.procedure == p,
                            self.inv(),
                            o <= origins@.len(),
                        decreases origins.len() - o,
                    {
                        let mut k: usize = 0;
                        while k < carriers.len()
                            invariant
                                self.procedure == p,
                                self.inv(),
                                o < origins@.len(),
                                k <= carriers@.len(),
                            decreases carriers.len() - k,
                        {
                            let present = contains_fact(
                                state.state_facts(),
                                &Fact::Origin {
                                    place: carriers[k].clone(),
                                    source: origins[o].clone(),
                                },
                            );
                            if present {
                                self.add_ending(
                                    PathEndingKind::UnknownBoundary,
                                    origins[o].clone(),
                                    carriers[k].clone(),
                                    &node.id,
                                    "unsupported continuation on this branch",
                                    Some(diagnostic),
                                    label_condition(state.state_labels()),
                                )?;
                                self.downstream_partial = true;
                            }
                            k = k + 1;
                        }
                        o = o + 1;
                    }
                    s = s + 1;
                }
            }
            i = i + 1;
        }
        Ok(())
    }

    fn carrier_slot(carriers: &Vec<CarrierLife>, origin: &Source, binding: &BindingId) -> (res:
        Option<usize>)
        ensures
            res matches Some(k) ==> k < carriers@.len(),
            match res {
                Some(k) => carriers@[k as int].origin@ == origin@ && carriers@[k as int].binding@ == binding@
                    && forall|j: int|
                    0 <= j < k ==> !((#[trigger] carriers@[j]).origin@ == origin@ && carriers@[j].binding@ == binding@),
                None => forall|j: int|
                    0 <= j < carriers@.len() ==> !((#[trigger] carriers@[j]).origin@ == origin@ && carriers@[j].binding@
                        == binding@),
            },
    {
        let mut k: usize = 0;
        while k < carriers.len()
            invariant
                k <= carriers@.len(),
                forall|j: int|
                    0 <= j < k ==> !((#[trigger] carriers@[j]).origin@ == origin@ && carriers@[j].binding@ == binding@),
            decreases carriers.len() - k,
        {
            if carriers[k].origin.same(origin) && carriers[k].binding.same(binding) {
                return Some(k);
            }
            k = k + 1;
        }
        None
    }

    /// Path endings without branches: returns, unsupported operations and
    /// calls that receive a selected value, and where each carrier's value
    /// ends.
    #[verifier::loop_isolation(false)]
    fn add_endings(&mut self) -> (res: Result<(), SliceError>)
        requires
            old(self).inv(),
        ensures
            res matches Err(e) ==> e is MissingSpan,
            final(self).procedure == old(self).procedure,
            final(self).inv(),
    {
        let p = self.procedure;
        let origins = clone_sources(&self.selected_origins);
        let mut carriers: Vec<CarrierLife> = Vec::new();
        let mut i: usize = 0;
        while i < p.nodes.len()
            invariant
                i <= p.nodes@.len(),
            decreases p.nodes.len() - i,
        {
            let node = &p.nodes[i];
            if let Operation::Write { target: Place::Binding(binding), sources, definition } =
                &node.operation {
                let mut o: usize = 0;
                while o < origins.len()
                    invariant
                        o <= origins@.len(),
                    decreases origins.len() - o,
                {
                    let origin = &origins[o];
                    let generated = origin.same(&Source::Write(definition.clone()));
                    let mut copied = false;
                    let mut s: usize = 0;
                    while s < sources.len()
                        invariant
                            s <= sources@.len(),
                        decreases sources.len() - s,
                    {
                        if self.has_origin(&node.id, &sources[s], origin) {
                            copied = true;
                        }
                        s = s + 1;
                    }
                    if (generated || copied) && Self::carrier_slot(&carriers, origin, binding).is_none() {
                        carriers.push(
                            CarrierLife {
                                origin: origin.clone(),
                                binding: binding.clone(),
                                created_at: node.id.clone(),
                                uses: Vec::new(),
                                killed_at: None,
                            },
                        );
                    }
                    o = o + 1;
                }
            }
            i = i + 1;
        }
        let mut param = false;
        let mut k: usize = 0;
        while k < p.parameters.len()
            invariant
                k <= p.parameters@.len(),
            decreases p.parameters.len() - k,
        {
            if p.parameters[k].binding.same(self.selected_binding) {
                param = true;
            }
            k = k + 1;
        }
        if param {
            let origin = Source::FunctionInput(self.selected_binding.clone());
            let mut first: Option<NodeId> = None;
            let mut i: usize = 0;
            while i < p.nodes.len()
                invariant
                    i <= p.nodes@.len(),
                decreases p.nodes.len() - i,
            {
                if first.is_none() {
                    if let Operation::Read { source: Place::Binding(binding), .. } =
                        &p.nodes[i].operation {
                        if binding.same(self.selected_binding) {
                            first = Some(p.nodes[i].id.clone());
                        }
                    }
                }
                i = i + 1;
            }
            let created_at = match first {
                Some(id) => id,
                None => p.entry.clone(),
            };
            let life = CarrierLife {
                origin: origin.clone(),
                binding: self.selected_binding.clone(),
                created_at,
                uses: Vec::new(),
                killed_at: None,
            };
            match Self::carrier_slot(&carriers, &origin, self.selected_binding) {
                Some(slot) => {
                    carriers.set(slot, life);
                },
                None => {
                    carriers.push(life);
                },
            }
        }
        let mut i: usize = 0;
        while i < p.nodes.len()
            invariant
                i <= p.nodes@.len(),
            decreases p.nodes.len() - i,
        {
            let node = &p.nodes[i];
            if let Operation::Read { source: Place::Binding(binding), .. } = &node.operation {
                let mut o: usize = 0;
                while o < origins.len()
                    invariant
                        o <= origins@.len(),
                    decreases origins.len() - o,
                {
                    if self.has_origin(&node.id, &Place::Binding(binding.clone()), &origins[o]) {
                        if let Some(slot) = Self::carrier_slot(&carriers, &origins[o], binding) {
                            let user = match owner_of(&self.expression_owner, &node.id) {
                                Some(owner) => owner,
                                None => node.id.clone(),
                            };
                            let mut life = carriers.remove(slot);
                            let mut present = false;
                            let mut u: usize = 0;
                            while u < life.uses.len()
                                invariant
                                    u <= life.uses@.len(),
                                decreases life.uses.len() - u,
                            {
                                if life.uses[u].same(&user) {
                                    present = true;
                                }
                                u = u + 1;
                            }
                            if !present {
                                life.uses.push(user);
                            }
                            carriers.insert(slot, life);
                        }
                    }
                    o = o + 1;
                }
            }
            if let Operation::Write { target: Place::Binding(binding), sources, .. } =
                &node.operation {
                let mut o: usize = 0;
                while o < origins.len()
                    invariant
                        o <= origins@.len(),
                    decreases origins.len() - o,
                {
                    let incoming = self.has_origin(
                        &node.id,
                        &Place::Binding(binding.clone()),
                        &origins[o],
                    );
                    let mut retained = false;
                    let mut s: usize = 0;
                    while s < sources.len()
                        invariant
                            s <= sources@.len(),
                            o < origins@.len(),
                        decreases sources.len() - s,
                    {
                        if self.has_origin(&node.id, &sources[s], &origins[o]) {
                            retained = true;
                        }
                        s = s + 1;
                    }
                    if incoming && !retained {
                        if let Some(slot) = Self::carrier_slot(&carriers, &origins[o], binding) {
                            let mut life = carriers.remove(slot);
                            life.killed_at = Some(node.id.clone());
                            carriers.insert(slot, life);
                        }
                    }
                    o = o + 1;
                }
            }
            i = i + 1;
        }
        let mut i: usize = 0;
        while i < p.nodes.len()
            invariant
                self.procedure == p,
                self.inv(),
                i <= p.nodes@.len(),
            decreases p.nodes.len() - i,
        {
            let node = &p.nodes[i];
            let mut o: usize = 0;
            while o < origins.len()
                invariant
                    self.procedure == p,
                    self.inv(),
                    i < p.nodes@.len(),
                    o <= origins@.len(),
                decreases origins.len() - o,
            {
                let origin = &origins[o];
                match &node.operation {
                    Operation::Return { value: Some(value) } => {
                        if self.has_origin(&node.id, value, origin) {
                            self.add_ending(
                                PathEndingKind::ScopeBoundary,
                                origin.clone(),
                                value.clone(),
                                &node.id,
                                "returned beyond the declared caller scope",
                                None,
                                None,
                            )?;
                        }
                    },
                    Operation::UnknownEffect { inputs, .. } => {
                        let mut s: usize = 0;
                        while s < inputs.len()
                            invariant
                                self.procedure == p,
                                self.inv(),
                                s <= inputs@.len(),
                            decreases inputs.len() - s,
                        {
                            if self.has_origin(&node.id, &inputs[s].place, origin) {
                                self.add_ending(
                                    PathEndingKind::UnknownBoundary,
                                    origin.clone(),
                                    inputs[s].place.clone(),
                                    &node.id,
                                    "unsupported value continuation",
                                    Some(diagnostic_for_operation(&node.operation)),
                                    None,
                                )?;
                            }
                            s = s + 1;
                        }
                    },
                    Operation::Call { arguments, .. } => {
                        let mut s: usize = 0;
                        while s < arguments.len()
                            invariant
                                self.procedure == p,
                                self.inv(),
                                s <= arguments@.len(),
                            decreases arguments.len() - s,
                        {
                            if self.has_origin(&node.id, &arguments[s], origin) {
                                self.add_ending(
                                    PathEndingKind::UnknownBoundary,
                                    origin.clone(),
                                    arguments[s].clone(),
                                    &node.id,
                                    "unresolved call continuation",
                                    Some(DiagnosticCode::UnresolvedCall),
                                    None,
                                )?;
                            }
                            s = s + 1;
                        }
                    },
                    _ => {},
                }
                o = o + 1;
            }
            i = i + 1;
        }
        let mut exit: Option<NodeId> = None;
        let mut i: usize = 0;
        while i < p.nodes.len()
            invariant
                i <= p.nodes@.len(),
            decreases p.nodes.len() - i,
        {
            if exit.is_none() {
                if let Operation::Return { value: None } = &p.nodes[i].operation {
                    exit = Some(p.nodes[i].id.clone());
                }
            }
            i = i + 1;
        }
        let mut c: usize = 0;
        while c < carriers.len()
            invariant
                self.procedure == p,
                self.inv(),
                c <= carriers@.len(),
            decreases carriers.len() - c,
        {
            let life = &carriers[c];
            let mut last_use: Option<usize> = None;
            let mut u: usize = 0;
            while u < life.uses.len()
                invariant
                    u <= life.uses@.len(),
                    last_use matches Some(v) ==> v < life.uses@.len(),
                decreases life.uses.len() - u,
            {
                let later = match last_use {
                    None => true,
                    Some(v) => node_less(&life.uses[v], &life.uses[u]),
                };
                if later {
                    last_use = Some(u);
                }
                u = u + 1;
            }
            let (kind, location, context) = match &life.killed_at {
                Some(killed) => (
                    PathEndingKind::NoFurtherUse,
                    killed.clone(),
                    "carrier overwritten with no remaining use",
                ),
                None => match last_use {
                    Some(v) => (
                        PathEndingKind::NoFurtherUse,
                        life.uses[v].clone(),
                        "carrier has no reachable later use",
                    ),
                    None => match &exit {
                        Some(e) => (
                            PathEndingKind::ExecutionExit,
                            e.clone(),
                            "declared entry exits without exporting the carrier",
                        ),
                        None => (
                            PathEndingKind::NoFurtherUse,
                            life.created_at.clone(),
                            "written value is never read",
                        ),
                    },
                },
            };
            self.add_ending(
                kind,
                life.origin.clone(),
                Place::Binding(life.binding.clone()),
                &location,
                context,
                None,
                None,
            )?;
            c = c + 1;
        }
        Ok(())
    }

    fn fact_relevant(&self, fact: &Fact, visible: &Vec<DefinitionId>) -> bool {
        match fact {
            Fact::Origin { source: Source::Write(definition), .. } => contains_definition(
                visible,
                definition,
            ),
            Fact::Origin { source, .. } => contains_source(&self.relevant_origins, source),
            Fact::LastWrite { write, .. } => contains_definition(visible, write),
            Fact::Zero => false,
        }
    }

    /// Keeps the facts about definitions shown in the graph and about the
    /// relevant origins, from the feasible path states when there are any.
    #[verifier::loop_isolation(false)]
    fn retain_relevant_facts(&mut self)
        requires
            old(self).inv(),
        ensures
            final(self).procedure == old(self).procedure,
            final(self).inv(),
    {
        let p = self.procedure;
        let mut visible: Vec<DefinitionId> = Vec::new();
        let mut k: usize = 0;
        while k < self.graph_nodes.len()
            invariant
                k <= self.graph_nodes@.len(),
            decreases self.graph_nodes.len() - k,
        {
            if let Some(index) = find_node(p, &self.graph_nodes[k].id) {
                if let Some(definition) = operation_definition(&p.nodes[index].operation) {
                    if !contains_definition(&visible, definition) {
                        visible.push(definition.clone());
                    }
                }
            }
            k = k + 1;
        }
        let mut k: usize = 0;
        while k < visible.len()
            invariant
                self.procedure == p,
                self.inv(),
                k <= visible@.len(),
            decreases visible.len() - k,
        {
            push_source(&mut self.relevant_origins, Source::Write(visible[k].clone()));
            k = k + 1;
        }
        let mut kept: Vec<Fact> = Vec::new();
        let from_paths = match &self.branches {
            Some(paths) => !paths.truncated,
            None => false,
        };
        if from_paths {
            if let Some(paths) = &self.branches {
                let mut a: usize = 0;
                while a < paths.at.len()
                    invariant
                        a <= paths.at@.len(),
                    decreases paths.at.len() - a,
                {
                    let states = &paths.at[a].1;
                    let mut s: usize = 0;
                    while s < states.len()
                        invariant
                            a < paths.at@.len(),
                            s <= states@.len(),
                        decreases states.len() - s,
                    {
                        let facts = states[s].state_facts();
                        let mut f: usize = 0;
                        while f < facts.len()
                            invariant
                                f <= facts@.len(),
                            decreases facts.len() - f,
                        {
                            if self.fact_relevant(&facts[f], &visible) {
                                insert_fact(&mut kept, facts[f].clone());
                            }
                            f = f + 1;
                        }
                        s = s + 1;
                    }
                    a = a + 1;
                }
            }
        } else {
            let facts_at = self.facts_at;
            let mut a: usize = 0;
            while a < facts_at.len()
                invariant
                    a <= facts_at@.len(),
                decreases facts_at.len() - a,
            {
                let facts = &facts_at[a].1;
                let mut f: usize = 0;
                while f < facts.len()
                    invariant
                        f <= facts@.len(),
                    decreases facts.len() - f,
                {
                    if self.fact_relevant(&facts[f], &visible) {
                        insert_fact(&mut kept, facts[f].clone());
                    }
                    f = f + 1;
                }
                a = a + 1;
            }
        }
        self.graph_facts = kept;
    }

    /// The output: coverage from the partial flags, a closed life cycle when
    /// every ending closes, and the boundaries of the slice.
    fn finish(self, declared_scope: &str, is_param: bool) -> (out: SliceOutput)
        ensures
            out.graph.nodes == self.graph_nodes,
            out.path_endings == self.endings,
            out.unknown_frontiers == self.relevant_frontiers,
            out.extent.upstream == (if self.upstream_partial {
                Coverage::Partial
            } else {
                Coverage::Complete
            }),
            out.extent.downstream == (if self.downstream_partial {
                Coverage::Partial
            } else {
                Coverage::Complete
            }),
            out.completeness == (if out.extent.upstream == Coverage::Complete
                && out.extent.downstream == Coverage::Complete {
                Completeness::CompleteForQuery
            } else {
                Completeness::Partial
            }),
            out.extent.declared_scope@ == declared_scope@,
            out.extent.value_lifecycle_closed == (out.path_endings@.len() > 0 && forall|i: int|
                0 <= i < out.path_endings@.len() ==> closing_kind(
                    #[trigger] out.path_endings@[i].kind,
                )),
            out.extent.source_boundaries@.map_values(|s: String| s@) == (if is_param {
                seq!["function_input"@]
            } else {
                Seq::<Seq<char>>::empty()
            }),
            out.extent.sink_boundaries@.map_values(|s: String| s@) == (if has_ending_kind(
                out.path_endings@,
                PathEndingKind::ScopeBoundary,
            ) {
                seq!["caller_scope"@]
            } else {
                Seq::<Seq<char>>::empty()
            }) + (if has_ending_kind(out.path_endings@, PathEndingKind::UnknownBoundary) {
                seq!["unknown"@]
            } else {
                Seq::<Seq<char>>::empty()
            }),
    {
        let upstream = if self.upstream_partial {
            Coverage::Partial
        } else {
            Coverage::Complete
        };
        let downstream = if self.downstream_partial {
            Coverage::Partial
        } else {
            Coverage::Complete
        };
        let endings = &self.endings;
        let mut closed = endings.len() > 0;
        let mut scope = false;
        let mut unknown = false;
        let mut k: usize = 0;
        while k < endings.len()
            invariant
                k <= endings@.len(),
                closed == (endings@.len() > 0 && forall|i: int|
                    0 <= i < k ==> closing_kind(#[trigger] endings@[i].kind)),
                scope == exists|i: int|
                    0 <= i < k && (#[trigger] endings@[i]).kind == PathEndingKind::ScopeBoundary,
                unknown == exists|i: int|
                    0 <= i < k && (#[trigger] endings@[i]).kind == PathEndingKind::UnknownBoundary,
            decreases endings.len() - k,
        {
            let kind = endings[k].kind;
            if !(kind == PathEndingKind::NoFurtherUse || kind == PathEndingKind::ExecutionExit) {
                closed = false;
            }
            if kind == PathEndingKind::ScopeBoundary {
                scope = true;
            }
            if kind == PathEndingKind::UnknownBoundary {
                unknown = true;
            }
            k = k + 1;
        }
        let completeness = if !self.upstream_partial && !self.downstream_partial {
            Completeness::CompleteForQuery
        } else {
            Completeness::Partial
        };
        let mut source_boundaries: Vec<String> = Vec::new();
        if is_param {
            source_boundaries.push(String::from_str("function_input"));
        }
        let mut sink_boundaries: Vec<String> = Vec::new();
        if scope {
            sink_boundaries.push(String::from_str("caller_scope"));
        }
        if unknown {
            sink_boundaries.push(String::from_str("unknown"));
        }
        proof {
            assert(source_boundaries@.map_values(|s: String| s@) =~= (if is_param {
                seq!["function_input"@]
            } else {
                Seq::<Seq<char>>::empty()
            }));
            assert(sink_boundaries@.map_values(|s: String| s@) =~= (if scope {
                seq!["caller_scope"@]
            } else {
                Seq::<Seq<char>>::empty()
            }) + (if unknown {
                seq!["unknown"@]
            } else {
                Seq::<Seq<char>>::empty()
            }));
        }
        SliceOutput {
            graph: FlowGraph { nodes: self.graph_nodes, edges: self.graph_edges, facts: self.graph_facts },
            witnesses: self.witnesses,
            path_endings: self.endings,
            extent: SnapshotExtent {
                upstream,
                downstream,
                declared_scope: String::from_str(declared_scope),
                source_boundaries,
                sink_boundaries,
                value_lifecycle_closed: closed,
            },
            completeness,
            diagnostics: self.relevant_diagnostics,
            unknown_frontiers: self.relevant_frontiers,
        }
    }
}

/// Builds the slice of the selected binding. The procedure must be well
/// formed, the binding must belong to its snapshot and have a value source
/// (a write or a parameter); each slice node is an operation of the
/// procedure with its span, and an operation without a span that the slice
/// needs is an error.
pub fn build_flow_slice(request: SliceRequest) -> (res: Result<SliceOutput, SliceError>)
    ensures
        (res matches Err(SliceError::InvalidIr(_))) <==> !ir_valid(*request.procedure),
        res == Err::<SliceOutput, SliceError>(SliceError::SnapshotMismatch) <==> ir_valid(
            *request.procedure,
        ) && request.selected_binding.snapshot@ != request.procedure.id.snapshot@,
        res == Err::<SliceOutput, SliceError>(SliceError::MissingSelectedBinding) <==> ir_valid(
            *request.procedure,
        ) && request.selected_binding.snapshot@ == request.procedure.id.snapshot@
            && !has_selected_origin(*request.procedure, *request.selected_binding),
        (res matches Err(SliceError::MissingSpan(_))) ==> has_selected_origin(
            *request.procedure,
            *request.selected_binding,
        ) && ir_valid(*request.procedure),
        res matches Ok(out) ==> {
            &&& ir_valid(*request.procedure)
            &&& request.selected_binding.snapshot@ == request.procedure.id.snapshot@
            &&& has_selected_origin(*request.procedure, *request.selected_binding)
            &&& nodes_from(*request.procedure, out.graph.nodes@)
            &&& extent_ok(out, *request.procedure, *request.selected_binding, request.declared_scope@)
            &&& (!(request.solved.termination is FixedPoint) && out.unknown_frontiers@.len() == 0
                ==> out.extent.downstream == Coverage::Partial)
        },
{
    let procedure = request.procedure;
    if let Err(error) = procedure.validate() {
        return Err(SliceError::InvalidIr(error.message()));
    }
    if !request.selected_binding.snapshot.same(&procedure.id.snapshot) {
        return Err(SliceError::SnapshotMismatch);
    }
    let mut param = false;
    let mut k: usize = 0;
    while k < procedure.parameters.len()
        invariant
            k <= procedure.parameters@.len(),
            param == exists|j: int| 0 <= j < k && (#[trigger] procedure.parameters@[j]).binding@
                == request.selected_binding@,
        decreases procedure.parameters.len() - k,
    {
        if procedure.parameters[k].binding.same(request.selected_binding) {
            param = true;
        }
        k = k + 1;
    }
    let mut builder = SliceBuilder::new(
        procedure,
        request.solved,
        request.selected_binding,
        request.declared_scope,
    )?;
    builder.build()?;
    let fixed_point = match request.solved.termination {
        SolverTermination::FixedPoint => true,
        _ => false,
    };
    if !fixed_point && builder.relevant_frontiers.len() == 0 {
        builder.downstream_partial = true;
    }
    proof {
        assert(nodes_from(*procedure, builder.graph_nodes@));
    }
    let out = builder.finish(request.declared_scope, param);
    Ok(out)
}

} // verus!
