use repo_memory::ifds::adapters::typescript::{index_bindings, lower_containing_procedure};
use repo_memory::ifds::fixtures::evaluate_reference;
use repo_memory::ifds::ir::ProcedureIr;
use repo_memory::ifds::model::{
    AnalysisLimits, AnalysisStats, BindingId, Coverage, FlowNode, PathEndingKind, Place,
    RelationKind, SnapshotId, SnapshotSide,
};
use repo_memory::ifds::provenance::seed_entry_facts;
use repo_memory::ifds::slicing::{build_flow_slice, SliceError, SliceOutput, SliceRequest};
use repo_memory::ifds::solver::{
    IntraproceduralSolver, NoopSolverControl, Solver, SolverOutput, SolverRequest, SolverTermination,
};
use std::collections::BTreeSet;

fn snapshot() -> SnapshotId {
    SnapshotId {
        side: SnapshotSide::Before,
        revision: "k010".into(),
        content_id: "k010-content".into(),
    }
}

fn limits() -> AnalysisLimits {
    AnalysisLimits {
        time_ms: 10_000,
        memory_bytes: u64::MAX,
        processed_path_edges: 100_000,
        witnesses_per_relation: 10,
        output_nodes: 10_000,
    }
}

fn analyze(source: &str, selected: &str) -> (ProcedureIr, BindingId, SolverOutput) {
    let index = index_bindings(snapshot(), "main.ts", source).unwrap();
    let binding = index
        .bindings
        .iter()
        .find(|binding| binding.name == selected)
        .unwrap();
    let lowered = lower_containing_procedure(source, &index, &binding.id).unwrap();
    let solved = IntraproceduralSolver::new()
        .solve(
            SolverRequest {
                procedure: &lowered.procedure,
                entry_facts: seed_entry_facts(&lowered.procedure),
                limits: limits(),
            },
            &NoopSolverControl,
        )
        .unwrap();
    (lowered.procedure, binding.id.clone(), solved)
}

fn slice(source: &str, selected: &str) -> SliceOutput {
    let (procedure, binding, solved) = analyze(source, selected);
    build_flow_slice(SliceRequest {
        procedure: &procedure,
        solved: &solved,
        selected_binding: &binding,
        declared_scope: "function test",
    })
    .unwrap()
}

fn node_with_text<'a>(output: &'a SliceOutput, source: &str, needle: &str) -> &'a FlowNode {
    output
        .graph
        .nodes
        .iter()
        .find(|node| &source[node.span.byte_start as usize..node.span.byte_end as usize] == needle)
        .unwrap_or_else(|| panic!("missing graph node for {needle:?}"))
}

#[test]
fn ifds_k010_complete_copy_chain() {
    let source = "function test() { let x = 1; const copy = x; x = 0; const result = copy + 1; return result; }";
    let output = slice(source, "x");
    let a = node_with_text(&output, source, "x = 1");
    let b = node_with_text(&output, source, "copy = x");
    let c = node_with_text(&output, source, "x = 0");
    let d = node_with_text(&output, source, "result = copy + 1");
    let r = node_with_text(&output, source, "return result;");
    for (from, to) in [(a, b), (b, d)] {
        assert!(output.graph.edges.iter().any(|edge| {
            edge.source == from.id
                && edge.target == to.id
                && edge.relation == RelationKind::ValueDependency
        }));
    }
    assert!(output.graph.edges.iter().any(|edge| {
        edge.source == a.id && edge.target == b.id && edge.projection.as_deref() == Some("value")
    }));
    assert!(output.graph.edges.iter().any(|edge| {
        edge.source == b.id
            && edge.target == d.id
            && edge.projection.as_deref() == Some("value.operands[0]")
    }));
    assert!(output.graph.edges.iter().any(|edge| {
        edge.source == d.id
            && edge.target == r.id
            && edge.relation == RelationKind::Reaches
            && edge.projection.as_deref() == Some("value")
    }));
    assert!(!output
        .graph
        .edges
        .iter()
        .any(|edge| { edge.source == c.id && (edge.target == d.id || edge.target == r.id) }));
    assert!(output.path_endings.iter().any(|ending| {
        ending.kind == PathEndingKind::ScopeBoundary && ending.location == r.span
    }));
    assert!(!output.extent.value_lifecycle_closed);
}

#[test]
fn ifds_k010_one_copy_survives() {
    let source = "function test() { let x = 1; const y = x; x = 2; return y; }";
    let output = slice(source, "x");
    let overwrite = node_with_text(&output, source, "x = 2");
    let returned = node_with_text(&output, source, "return y;");
    assert!(output.path_endings.iter().any(|ending| {
        ending.kind == PathEndingKind::NoFurtherUse
            && ending.location == overwrite.span
            && matches!(ending.carrier, Place::Binding(_))
    }));
    assert!(output.path_endings.iter().any(|ending| {
        ending.kind == PathEndingKind::ScopeBoundary && ending.location == returned.span
    }));
    assert!(!output.extent.value_lifecycle_closed);
}

#[test]
fn ifds_k010_last_carrier_ends() {
    let overwritten = slice("function test() { let x = 1; const y = x; x = 2; y = 3; }", "x");
    assert!(overwritten.path_endings.iter().any(|ending| {
        ending.kind == PathEndingKind::NoFurtherUse && ending.context.contains("overwritten")
    }));

    let last_use_source = "function test() { let x = 1; const y = x + 1; }";
    let last_use = slice(last_use_source, "x");
    let consumer = node_with_text(&last_use, last_use_source, "y = x + 1");
    assert!(last_use.path_endings.iter().any(|ending| {
        ending.kind == PathEndingKind::NoFurtherUse && ending.location == consumer.span
    }));

    let unused_source = "function test() { let x = 1; const y = 2; }";
    let unused = slice(unused_source, "x");
    let write = node_with_text(&unused, unused_source, "x = 1");
    assert!(unused.path_endings.iter().any(|ending| {
        ending.kind == PathEndingKind::NoFurtherUse && ending.location == write.span
    }));
    assert!(unused.extent.value_lifecycle_closed);
}

#[test]
fn ifds_k010_returned_value_escapes() {
    let escaped_source = "function test() { let x = 1; return x; }";
    let escaped = slice(escaped_source, "x");
    assert!(escaped
        .path_endings
        .iter()
        .any(|ending| ending.kind == PathEndingKind::ScopeBoundary));
    assert!(!escaped.extent.value_lifecycle_closed);

    let exited = slice("function test() { let x = 1; return; }", "x");
    assert!(exited
        .path_endings
        .iter()
        .any(|ending| ending.kind == PathEndingKind::ExecutionExit));
    assert!(exited.extent.value_lifecycle_closed);
}

#[test]
fn ifds_k010_no_sibling_expansion() {
    let source = "function test(input: number, sibling: number) { let x = input; const y = x + sibling; const unrelated = sibling + 1; return y; }";
    let output = slice(source, "x");
    assert!(output.graph.nodes.iter().any(|node| {
        &source[node.span.byte_start as usize..node.span.byte_end as usize] == "y = x + sibling"
    }));
    assert!(!output.graph.nodes.iter().any(|node| {
        &source[node.span.byte_start as usize..node.span.byte_end as usize]
            == "unrelated = sibling + 1"
    }));
}

#[test]
fn ifds_k010_unknown_is_open() {
    let source = "function test(input: number) { const x = input; mystery(x); return x; }";
    let output = slice(source, "x");
    let unknown = node_with_text(&output, source, "mystery(x)");
    let returned = node_with_text(&output, source, "return x;");
    assert!(output.graph.edges.iter().any(|edge| {
        edge.target == unknown.id
            && edge.relation == RelationKind::Argument
            && edge.projection.as_deref() == Some("arguments[0]")
    }));
    assert!(output.graph.edges.iter().any(|edge| edge.target == returned.id));
    assert!(output
        .path_endings
        .iter()
        .any(|ending| ending.kind == PathEndingKind::UnknownBoundary));
    assert_eq!(output.extent.downstream, Coverage::Partial);
    assert!(!output.extent.value_lifecycle_closed);
}

#[test]
fn ifds_k010_sliced_equals_unsliced() {
    for source in [
        "function test(input: number) { let x = input + 1; const y = x * 2; return y; }",
        "function test() { let x = 1; x = 2; }",
    ] {
        let (procedure, binding, solved) = analyze(source, "x");
        let production = build_flow_slice(SliceRequest {
            procedure: &procedure,
            solved: &solved,
            selected_binding: &binding,
            declared_scope: "function test",
        })
        .unwrap();
        let reference =
            evaluate_reference(&procedure, &[seed_entry_facts(&procedure)], 100_000).unwrap();
        assert!(reference.complete);
        let reference_solver = SolverOutput {
            facts_at: reference.facts_at,
            predecessors: Vec::new(),
            evidence: Vec::new(),
            unsupported: Vec::new(),
            termination: SolverTermination::FixedPoint,
            diagnostics: Vec::new(),
            unknown_frontiers: Vec::new(),
            region_completeness: Vec::new(),
            stats: AnalysisStats {
                elapsed_ms: 0,
                peak_memory_bytes: 0,
                processed_path_edges: reference.processed_states,
                graph_nodes: 0,
                graph_edges: 0,
                witnesses_emitted: 0,
                witnesses_omitted: 0,
                limits_hit: Vec::new(),
                graph_truncated: false,
                witnesses_truncated: false,
            },
        };
        let full_reference = build_flow_slice(SliceRequest {
            procedure: &procedure,
            solved: &reference_solver,
            selected_binding: &binding,
            declared_scope: "function test",
        })
        .unwrap();
        // Graphs and endings are sets: compare them independently of order.
        let set = |output: &SliceOutput| {
            (
                output.graph.nodes.iter().cloned().collect::<BTreeSet<_>>(),
                output.graph.edges.iter().cloned().collect::<BTreeSet<_>>(),
                output.graph.facts.iter().cloned().collect::<BTreeSet<_>>(),
                output.path_endings.iter().cloned().collect::<BTreeSet<_>>(),
            )
        };
        assert_eq!(set(&production), set(&full_reference));
        assert_eq!(production.extent, full_reference.extent);
        assert_eq!(production.completeness, full_reference.completeness);
    }
}

#[test]
fn slice_errors_name_their_cause() {
    let source = "function test(input: number) { let x = input; return x; }";
    let (procedure, binding, solved) = analyze(source, "x");
    let mut other = binding.clone();
    other.snapshot.side = SnapshotSide::After;
    let mismatch = build_flow_slice(SliceRequest {
        procedure: &procedure,
        solved: &solved,
        selected_binding: &other,
        declared_scope: "function test",
    });
    assert_eq!(mismatch, Err(SliceError::SnapshotMismatch));
    let mut unknown = binding.clone();
    unknown.local = 999;
    let missing = build_flow_slice(SliceRequest {
        procedure: &procedure,
        solved: &solved,
        selected_binding: &unknown,
        declared_scope: "function test",
    });
    assert_eq!(missing, Err(SliceError::MissingSelectedBinding));
}

#[test]
fn parameter_slice_has_function_input_boundary() {
    let source = "function test(input: number) { const y = input + 1; return y; }";
    let output = slice(source, "input");
    assert_eq!(output.extent.source_boundaries, vec!["function_input".to_string()]);
    assert_eq!(output.extent.sink_boundaries, vec!["caller_scope".to_string()]);
    assert_eq!(output.extent.declared_scope, "function test");
}
