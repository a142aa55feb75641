use repo_memory::ifds::analysis::{analyze_variable_flow, AnalysisError};
use repo_memory::ifds::model::{
    AnalysisLimits, BindingSelector, CapabilitySet, Completeness, EntryPoint, FileChange,
    FileChangeKind, FlowDelta, RelationKind, RepositoryDiff, SnapshotHandle,
    SnapshotId, SnapshotSide, SourceSpan, VariableFlowQuery, VariableFlowReport,
};
use repo_memory::ifds::snapshots::{AnalysisEnvironment, InMemorySnapshot, InMemorySnapshotProvider};

fn selector(snapshot: SnapshotId, source: &str, name: &str) -> BindingSelector {
    let needle = format!("let {name}");
    let start = source
        .find(&needle)
        .map(|offset| offset + 4)
        .or_else(|| source.find(&format!("{name}:")))
        .unwrap();
    let line = 1 + source[..start].bytes().filter(|byte| *byte == b'\n').count() as u32;
    BindingSelector {
        snapshot,
        declaration: SourceSpan {
            path: "main.ts".into(),
            byte_start: start as u64,
            byte_end: (start + name.len()) as u64,
            start_line: line,
            end_line: line,
        },
        expected_name: Some(name.into()),
        expected_enclosing_symbol: None,
    }
}

fn query_for(before: &str, after: &str, name: &str, explicit_counterpart: bool)
    -> (VariableFlowQuery, InMemorySnapshotProvider, AnalysisEnvironment) {
    let before_id = SnapshotId {
        side: SnapshotSide::Before,
        revision: "before".into(),
        content_id: "tree-before".into(),
    };
    let after_id = SnapshotId {
        side: SnapshotSide::After,
        revision: "after".into(),
        content_id: "tree-after".into(),
    };
    let before_handle = SnapshotHandle { id: before_id.clone(), repository_id: "repo".into() };
    let after_handle = SnapshotHandle { id: after_id.clone(), repository_id: "repo".into() };
    let provider = InMemorySnapshotProvider::new(vec![
        InMemorySnapshot {
            handle: before_handle.clone(),
            files: vec![("main.ts".into(), ("blob-before".into(), before.as_bytes().to_vec()))],
        },
        InMemorySnapshot {
            handle: after_handle.clone(),
            files: vec![("main.ts".into(), ("blob-after".into(), after.as_bytes().to_vec()))],
        },
    ]);
    let capabilities = CapabilitySet {
        stage: 1,
        capabilities: vec!["straight_line".into()],
        version: "stage-1".into(),
    };
    let environment = AnalysisEnvironment { capabilities: capabilities.clone(), summaries: Vec::new() };
    let query = VariableFlowQuery {
        before: before_handle,
        after: after_handle,
        diff: RepositoryDiff {
            before_content_id: before_id.content_id.clone(),
            after_content_id: after_id.content_id.clone(),
            changes: vec![FileChange {
                kind: FileChangeKind::Modified,
                before_path: Some("main.ts".into()),
                after_path: Some("main.ts".into()),
                before_content_id: Some("blob-before".into()),
                after_content_id: Some("blob-after".into()),
            }],
        },
        selected_binding: selector(before_id, before, name),
        counterpart: explicit_counterpart.then(|| selector(after_id, after, name)),
        entry: EntryPoint::ContainingFunction,
        capabilities,
        summaries: Vec::new(),
        limits: AnalysisLimits {
            time_ms: 1000,
            memory_bytes: 64_000_000,
            processed_path_edges: 100_000,
            witnesses_per_relation: 3,
            output_nodes: 100_000,
        },
    };
    (query, provider, environment)
}

fn run_with_counterpart(before: &str, after: &str, name: &str, explicit: bool) -> VariableFlowReport {
    let (query, provider, environment) = query_for(before, after, name, explicit);
    analyze_variable_flow(query, &provider, &environment, &environment).unwrap()
}

fn run(before: &str, after: &str, name: &str) -> VariableFlowReport {
    run_with_counterpart(before, after, name, true)
}

const OVERWRITE_BEFORE: &str = "function example() {\n  let x = 1;\n  return x;\n}\n";
const OVERWRITE_AFTER: &str = "function example() {\n  let x = 1;\n  x = 2;\n  return x;\n}\n";

#[test]
fn ifds_k013_straight_line_api() {
    let initializer = run(
        OVERWRITE_BEFORE,
        "function example() {\n  let x = 2;\n  return x;\n}\n",
        "x",
    );
    assert!(initializer
        .deltas
        .iter()
        .any(|record| matches!(record.delta, FlowDelta::OperationChanged { .. })));
    assert!(initializer
        .deltas
        .iter()
        .any(|record| matches!(record.delta, FlowDelta::ValueSourceChanged { .. })));
    assert!(!initializer.deltas.iter().any(|record| matches!(
        record.delta,
        FlowDelta::WriteAdded { .. } | FlowDelta::WriteRemoved { .. }
    )));
    let report = run(OVERWRITE_BEFORE, OVERWRITE_AFTER, "x");
    assert!(report
        .deltas
        .iter()
        .any(|record| matches!(record.delta, FlowDelta::WriteAdded { .. })));
    assert!(report.deltas.iter().any(|record| matches!(
        record.delta,
        FlowDelta::FlowRemoved { relation: RelationKind::Reaches, .. }
    )));
    assert!(report.deltas.iter().any(|record| matches!(
        record.delta,
        FlowDelta::FlowAdded { relation: RelationKind::Reaches, .. }
    )));
    assert!(!report
        .deltas
        .iter()
        .any(|record| matches!(record.delta, FlowDelta::WriteRemoved { .. })));
    assert_eq!(report.completeness, Completeness::CompleteForQuery);
}

#[test]
fn ifds_k013_full_downstream_api() {
    let report = run(
        "function chain(input: number) {\n  let x = input;\n  const y = x + 1;\n  return y * 2;\n}\n",
        "function chain(input: number) {\n  let x = input + 1;\n  const y = x + 1;\n  return y * 2;\n}\n",
        "x",
    );
    assert!(report.before_graph.nodes.len() >= 3);
    assert!(report.after_graph.nodes.len() >= 3);
    assert!(!report.flow_extent.after.value_lifecycle_closed);
}

#[test]
fn ifds_k013_deterministic_groups() {
    let left = run(OVERWRITE_BEFORE, OVERWRITE_AFTER, "x");
    let right = run(OVERWRITE_BEFORE, OVERWRITE_AFTER, "x");
    assert_eq!(left.deltas, right.deltas);
}

#[test]
fn ifds_k013_precise_change_record() {
    let report = run(OVERWRITE_BEFORE, OVERWRITE_AFTER, "x");
    assert!(report
        .deltas
        .iter()
        .any(|record| matches!(record.delta, FlowDelta::ValueSourceChanged { .. })));
    assert!(report.deltas.iter().any(|record| !record.groups.is_empty()));
}

#[test]
fn analysis_annotates_operations_with_source_text() {
    let report = run(OVERWRITE_BEFORE, OVERWRITE_AFTER, "x");
    assert!(report.after_graph.nodes.iter().any(|node| node.operation.contains("x = 2")));
    assert!(report.before_graph.nodes.iter().all(|node| node.span.path == "main.ts"));
    assert_eq!(report.query.before_binding.as_ref().map(|b| b.snapshot.side), Some(SnapshotSide::Before));
    assert_eq!(report.snapshots.len(), 2);
}

#[test]
fn analysis_infers_the_counterpart() {
    let report = run_with_counterpart(OVERWRITE_BEFORE, OVERWRITE_AFTER, "x", false);
    assert!(report
        .deltas
        .iter()
        .any(|record| matches!(record.delta, FlowDelta::WriteAdded { .. })));
}

#[test]
fn analysis_rejects_call_entries() {
    let (mut query, provider, environment) =
        query_for(OVERWRITE_BEFORE, OVERWRITE_AFTER, "x", true);
    query.entry = EntryPoint::Call {
        call_site: repo_memory::ifds::model::CallSiteId::new(query.before.id.clone(), 1),
        known_arguments: Vec::new(),
        enclosing_caller_included: false,
    };
    let result = analyze_variable_flow(query, &provider, &environment, &environment);
    assert!(matches!(result, Err(AnalysisError::Input(_))));
}
