use repo_memory::ifds::analysis::analyze_variable_flow_reports;
use repo_memory::ifds::compact::{
    comparison_is_complete, EvidenceRef, FindingKind, GuardClause, Observation, SourceDefinition,
    VariableSourceReport,
};
use repo_memory::ifds::model::{
    AnalysisLimits, BindingSelector, CapabilitySet, Completeness, Diagnostic, DiagnosticCode,
    EntryPoint, FileChange, FileChangeKind, FlowDelta, FlowGraph, LogicalNodeId,
    RepositoryDiff, SnapshotHandle, SnapshotId, SnapshotSide, SourceSpan, VariableFlowQuery,
    VariableFlowReport,
};
use repo_memory::ifds::snapshots::{AnalysisEnvironment, InMemorySnapshot, InMemorySnapshotProvider};
use std::collections::BTreeMap;

fn selector(snapshot: SnapshotId, source: &str, name: &str) -> BindingSelector {
    let needle = format!("let {name}");
    let start = source
        .find(&needle)
        .map(|offset| offset + 4)
        .or_else(|| source.find(&format!("{name}:")))
        .unwrap();
    let line = 1 + source[..start].bytes().filter(|byte| *byte == b'\n').count() as u32;
    BindingSelector {
        snapshot,
        declaration: SourceSpan {
            path: "main.ts".into(),
            byte_start: start as u64,
            byte_end: (start + name.len()) as u64,
            start_line: line,
            end_line: line,
        },
        expected_name: Some(name.into()),
        expected_enclosing_symbol: None,
    }
}

fn query_for(before: &str, after: &str, name: &str, explicit_counterpart: bool)
    -> (VariableFlowQuery, InMemorySnapshotProvider, AnalysisEnvironment) {
    let before_id = SnapshotId {
        side: SnapshotSide::Before,
        revision: "before".into(),
        content_id: "tree-before".into(),
    };
    let after_id = SnapshotId {
        side: SnapshotSide::After,
        revision: "after".into(),
        content_id: "tree-after".into(),
    };
    let before_handle = SnapshotHandle { id: before_id.clone(), repository_id: "repo".into() };
    let after_handle = SnapshotHandle { id: after_id.clone(), repository_id: "repo".into() };
    let provider = InMemorySnapshotProvider::new(vec![
        InMemorySnapshot {
            handle: before_handle.clone(),
            files: vec![("main.ts".into(), ("blob-before".into(), before.as_bytes().to_vec()))],
        },
        InMemorySnapshot {
            handle: after_handle.clone(),
            files: vec![("main.ts".into(), ("blob-after".into(), after.as_bytes().to_vec()))],
        },
    ]);
    let capabilities = CapabilitySet {
        stage: 1,
        capabilities: vec!["straight_line".into()],
        version: "stage-1".into(),
    };
    let environment = AnalysisEnvironment { capabilities: capabilities.clone(), summaries: Vec::new() };
    let query = VariableFlowQuery {
        before: before_handle,
        after: after_handle,
        diff: RepositoryDiff {
            before_content_id: before_id.content_id.clone(),
            after_content_id: after_id.content_id.clone(),
            changes: vec![FileChange {
                kind: FileChangeKind::Modified,
                before_path: Some("main.ts".into()),
                after_path: Some("main.ts".into()),
                before_content_id: Some("blob-before".into()),
                after_content_id: Some("blob-after".into()),
            }],
        },
        selected_binding: selector(before_id, before, name),
        counterpart: explicit_counterpart.then(|| selector(after_id, after, name)),
        entry: EntryPoint::ContainingFunction,
        capabilities,
        summaries: Vec::new(),
        limits: AnalysisLimits {
            time_ms: 1000,
            memory_bytes: 64_000_000,
            processed_path_edges: 100_000,
            witnesses_per_relation: 3,
            output_nodes: 100_000,
        },
    };
    (query, provider, environment)
}

fn run_reports_with_counterpart(
    before: &str,
    after: &str,
    name: &str,
    explicit: bool,
) -> (VariableFlowReport, VariableSourceReport) {
    let (query, provider, environment) = query_for(before, after, name, explicit);
    analyze_variable_flow_reports(query, &provider, &environment, &environment).unwrap()
}

fn run_reports(before: &str, after: &str, name: &str) -> (VariableFlowReport, VariableSourceReport) {
    run_reports_with_counterpart(before, after, name, true)
}

fn run(before: &str, after: &str, name: &str) -> (VariableFlowReport, String) {
    let (report, compact) = run_reports(before, after, name);
    let text = compact.render_text();
    (report, text)
}

const OVERWRITE_BEFORE: &str = "function example() {\n  let x = 1;\n  return x;\n}\n";
const OVERWRITE_AFTER: &str = "function example() {\n  let x = 1;\n  x = 2;\n  return x;\n}\n";

#[test]
fn ifds_k013_partial_is_visible() {
    let (report, summary) = run(
        "function example() {\n  let x = 1;\n  x = mystery(x);\n  return x;\n}\n",
        "function example() {\n  let x = 1;\n  x = mystery(x);\n  return x;\n}\n",
        "x",
    );
    assert_ne!(report.completeness, Completeness::CompleteForQuery);
    assert!(!report.unknown_frontiers.is_empty());
    assert!(summary.contains("Unknown"));
}

#[test]
fn ifds_k013_history_metadata_only() {
    let (report, summary) = run(OVERWRITE_BEFORE, OVERWRITE_AFTER, "x");
    assert!(report
        .after_graph
        .nodes
        .iter()
        .any(|node| node.span.path == "main.ts" && !node.fingerprint.is_empty()));
    assert!(!report.alignment.is_empty());
    assert!(!summary.contains("bug"));
}

#[test]
fn ifds_k014_added_guard_report_preserves_path_conditions() {
    let (_, compact) = run_reports(
        "function f(flag: boolean) {\n  let x = 0;\n  return x;\n}\n",
        "function f(flag: boolean) {\n  let x = 0;\n  if (flag) x = 1;\n  return x;\n}\n",
        "x",
    );
    let summary = compact.render_text();
    assert!(summary.contains("x = 0"));
    assert!(summary.contains("x = 1` under flag"), "{}", summary);
    assert!(summary.contains("return x"));
    assert!(!compact.controls.is_empty());
    assert!(!summary.contains("Consumer input"));
}

#[test]
fn ifds_k013_new_input_propagates() {
    let (report, summary) = run(
        "function example() {\n  let x = 1;\n  let y = x + 2;\n  let z = y + x + 4;\n  return z;\n}\n",
        "function example() {\n  let a = 5;\n  let x = a / 6;\n  let y = x + 2;\n  let z = y + x + 4;\n  return z;\n}\n",
        "x",
    );
    assert_eq!(report.completeness, Completeness::CompleteForQuery);
    assert!(report.unknown_frontiers.is_empty());
    assert!(report.deltas.iter().any(|record| {
        matches!(record.delta, FlowDelta::OperationChanged { .. })
            && record.before_span.as_ref().is_some_and(|span| span.start_line == 2)
            && record.after_span.as_ref().is_some_and(|span| span.start_line == 3)
    }));
    assert!(!report.deltas.iter().any(|record| matches!(
        record.delta,
        FlowDelta::WriteAdded { .. } | FlowDelta::WriteRemoved { .. }
    )));
    for line in [4, 5, 6] {
        assert!(report.after_graph.nodes.iter().any(|node| node.span.start_line == line));
    }
    assert!(report.after_graph.edges.iter().any(|edge| {
        report
            .after_graph
            .nodes
            .iter()
            .any(|node| node.id == edge.source && node.operation.contains("a = 5"))
            && report
                .after_graph
                .nodes
                .iter()
                .any(|node| node.id == edge.target && node.operation.contains("x = a / 6"))
    }));
    assert!(summary.contains("x = a / 6"));
    assert!(summary.contains("z = y + x + 4"));
    assert!(summary.contains("return z"));
}

#[test]
fn ifds_k013_does_not_report_unrelated_declarations_as_changed() {
    let (report, summary) = run(
        "function example() {\n  let x = 1;\n  let y = 2;\n  let z = x - y - 2;\n  return z;\n}\n",
        "function example() {\n  let a = 4;\n  let x = a - 1;\n  let z = x + a - 6;\n  return z;\n}\n",
        "x",
    );
    assert!(!summary.contains("Changed operation write `y = 2`"));
    assert!(summary.contains("write `a = 4`"));
    assert!(report.deltas.iter().all(|record| {
        !matches!(record.delta, FlowDelta::OperationChanged { .. })
            || record.before_span.as_ref().is_none_or(|span| span.start_line != 3)
    }));
}

#[test]
fn ifds_k013_local_parameter_transition_changes_value_origin() {
    let local = "function f() {\n  let x = 1;\n  let y = 2;\n  return x + y;\n}\n";
    let parameter = "function f(x: number) {\n  let y = 2;\n  return x + y;\n}\n";
    for explicit in [false, true] {
        let (report, compact) = run_reports_with_counterpart(local, parameter, "x", explicit);
        assert_eq!(report.completeness, Completeness::CompleteForQuery);
        assert!(report
            .deltas
            .iter()
            .any(|record| matches!(record.delta, FlowDelta::WriteRemoved { .. })));
        assert!(compact.findings.iter().any(|finding| finding.kind == FindingKind::SourceSetChanged
            && finding.before_sources != finding.after_sources));
        assert!(compact.render_text().contains("function_input `x`"));
        assert!(report.diagnostics.is_empty());

        let (reverse, reverse_compact) = run_reports_with_counterpart(parameter, local, "x", explicit);
        assert_eq!(reverse.completeness, Completeness::CompleteForQuery);
        assert!(reverse
            .deltas
            .iter()
            .any(|record| matches!(record.delta, FlowDelta::WriteAdded { .. })));
        assert!(reverse_compact.findings.iter().any(|finding| finding.kind
            == FindingKind::SourceSetChanged
            && finding.before_sources != finding.after_sources));
        assert!(reverse_compact.render_text().contains("function_input `x`"));
        assert!(reverse.diagnostics.is_empty());
    }
}

#[test]
fn ifds_k013_reports_sources_moved_into_expression_operand() {
    let (_, compact) = run_reports(
        "function example() {\n  let x = 1;\n  return x;\n}\n",
        "function example() {\n  let y = 1;\n  let x = 2;\n  return x + y;\n}\n",
        "x",
    );
    let summary = compact.render_text();
    assert!(compact
        .observations
        .iter()
        .any(|observation| observation.projection == "value.operands[0]"));
    assert!(compact.findings.iter().any(|finding| finding.kind == FindingKind::SourceSetChanged));
    assert!(summary.contains("x = 2"));
    assert!(!summary.contains(
        "return `return x + y;` at snippet.ts:4 (value) changed sources from [write `x = 1`] to []"
    ));
}

fn reaches(graph: &FlowGraph, source: &str, target: &str) -> bool {
    graph.edges.iter().any(|edge| {
        graph.nodes.iter().any(|node| node.id == edge.source && node.operation.contains(source))
            && graph.nodes.iter().any(|node| node.id == edge.target && node.operation.contains(target))
    })
}

#[test]
fn ifds_k013_retargeted_consumer_chain() {
    let (report, compact) = run_reports(
        "function example() {\n  let x = 1;\n  let y = x + 1;\n  let z = y + 4;\n  return z;\n}\n",
        "function example() {\n  let x = 1;\n  let y = 2;\n  let z = x - y - 6;\n  return z;\n}\n",
        "x",
    );
    assert!(reaches(&report.before_graph, "x = 1", "y = x + 1"));
    assert!(reaches(&report.before_graph, "y = x + 1", "z = y + 4"));
    assert!(reaches(&report.after_graph, "x = 1", "z = x - y - 6"));
    assert!(!reaches(&report.after_graph, "y = 2", "z = x - y - 6"));
    assert_eq!(report.completeness, Completeness::CompleteForQuery);
    assert!(!report
        .diagnostics
        .iter()
        .any(|diagnostic| diagnostic.code == DiagnosticCode::AmbiguousMatch));
    assert!(compact.findings.iter().any(|finding| finding.kind == FindingKind::SourceSetChanged));
    assert!(!compact.render_text().contains("Its selected-binding write was retained"));
}

fn compact_observation<'a>(compact: &'a VariableSourceReport, text: &str) -> &'a Observation {
    compact
        .observations
        .iter()
        .find(|observation| {
            observation
                .after
                .as_ref()
                .or(observation.before.as_ref())
                .is_some_and(|site| site.operation.contains(text))
        })
        .unwrap_or_else(|| panic!("observation {text:?} missing"))
}

fn compact_source<'a>(compact: &'a VariableSourceReport, text: &str) -> &'a SourceDefinition {
    compact
        .sources
        .iter()
        .find(|source| {
            source.after.as_ref().is_some_and(|site| site.operation.contains(text))
                || source.before.as_ref().is_some_and(|site| site.operation.contains(text))
        })
        .unwrap_or_else(|| panic!("source {text:?} missing"))
}

fn clauses_apply(clauses: &[GuardClause], outcomes: &BTreeMap<LogicalNodeId, bool>) -> bool {
    clauses.iter().any(|clause| {
        clause.terms.iter().all(|term| outcomes.get(&term.control) == Some(&term.outcome))
    })
}

#[test]
fn ifds_k041_sequential_guards() {
    let (_, compact) = run_reports(
        "function f(flag: boolean, flag2: boolean) { let x = 1; return x; }",
        "function f(flag: boolean, flag2: boolean) { let x = 1; if (flag) x = 2; if (flag2) x = 3; return x; }",
        "x",
    );
    let observation = compact_observation(&compact, "return x");
    let after = observation.after_state.as_ref().unwrap();
    assert_eq!(after.sources.len(), 3);
    assert_eq!(compact.controls.len(), 2);
    assert!(after.precedence.iter().any(|rule| {
        let earlier = compact.sources.iter().find(|source| source.id == rule.earlier).unwrap();
        let later = compact.sources.iter().find(|source| source.id == rule.later).unwrap();
        earlier.after.as_ref().unwrap().operation.contains("x = 2")
            && later.after.as_ref().unwrap().operation.contains("x = 3")
    }));
    let flag = compact
        .controls
        .iter()
        .find(|control| control.after.as_ref().unwrap().operation.contains("(flag) "))
        .unwrap_or_else(|| {
            compact
                .controls
                .iter()
                .find(|control| control.after.as_ref().unwrap().operation.contains("(flag)\u{60}"))
                .unwrap()
        });
    let flag2 = compact
        .controls
        .iter()
        .find(|control| control.after.as_ref().unwrap().operation.contains("flag2"))
        .unwrap();
    for (first, second, expected) in [
        (false, false, "x = 1"),
        (true, false, "x = 2"),
        (false, true, "x = 3"),
        (true, true, "x = 3"),
    ] {
        let values = BTreeMap::from([(flag.id, first), (flag2.id, second)]);
        let active: Vec<_> = after
            .selections
            .iter()
            .filter(|selection| clauses_apply(selection.clauses.as_ref().unwrap(), &values))
            .collect();
        assert_eq!(active.len(), 1, "{first:?}/{second:?}: {active:?}");
        let writer = compact.sources.iter().find(|source| source.id == active[0].source).unwrap();
        assert!(writer.after.as_ref().unwrap().operation.contains(expected));
    }
    assert!(compact.render_text().len() < 1100);
}

#[test]
fn ifds_k041_guard_only_change() {
    let (full, compact) = run_reports(
        "function f(flag: boolean) { let x = 1; if (flag) x = 2; return x; }",
        "function f(flag: boolean) { let x = 1; if (!flag) x = 2; return x; }",
        "x",
    );
    let return_value = compact_observation(&compact, "return x");
    assert_eq!(
        return_value.before_state.as_ref().unwrap().sources,
        return_value.after_state.as_ref().unwrap().sources
    );
    assert!(compact.findings.iter().any(|finding| finding.kind == FindingKind::SelectionChanged));
    assert!(!full.deltas.iter().any(|record| matches!(
        record.delta,
        FlowDelta::WriteAdded { .. } | FlowDelta::WriteRemoved { .. }
    )));
    assert!(compact.controls.iter().any(|control| {
        control.before.as_ref().unwrap().operation.contains("flag")
            && control.after.as_ref().unwrap().operation.contains("!flag")
    }));
}

#[test]
fn ifds_k041_reordered_priority() {
    let (_, compact) = run_reports(
        "function f(a: boolean, b: boolean) { let x = 1; if (a) x = 2; if (b) x = 3; return x; }",
        "function f(a: boolean, b: boolean) { let x = 1; if (b) x = 3; if (a) x = 2; return x; }",
        "x",
    );
    let observation = compact_observation(&compact, "return x");
    let before = observation.before_state.as_ref().unwrap();
    let after = observation.after_state.as_ref().unwrap();
    assert_eq!(before.sources, after.sources);
    assert_ne!(before.precedence, after.precedence);
    assert!(compact.findings.iter().any(|finding| finding.kind == FindingKind::SelectionChanged));
}

#[test]
fn ifds_k041_nested_guards() {
    let (_, compact) = run_reports(
        "function f(a: boolean, b: boolean) { let x = 1; return x; }",
        "function f(a: boolean, b: boolean) { let x = 1; if (a) { if (b) x = 2; else x = 3; } return x; }",
        "x",
    );
    let two = compact_source(&compact, "x = 2");
    let three = compact_source(&compact, "x = 3");
    let two_guard = two.after_assignment_guard.as_ref().unwrap();
    let three_guard = three.after_assignment_guard.as_ref().unwrap();
    assert!(two_guard.iter().all(|clause| clause.terms.len() >= 2));
    assert!(three_guard.iter().all(|clause| clause.terms.len() >= 2));
    assert_ne!(two_guard, three_guard);
    assert!(three_guard.iter().any(|clause| clause.terms.iter().any(|term| !term.outcome)));
}

#[test]
fn ifds_k041_early_return() {
    let (_, compact) = run_reports(
        "function f(flag: boolean) { let x = 0; x = 1; x = 2; x = 3; return x + 4; }",
        "function f(flag: boolean) { let x = 0; x = 1; x = 2; if (flag) return x; x = 3; return x + 4; }",
        "x",
    );
    assert!(compact.findings.iter().any(|finding| finding.kind == FindingKind::ObservationAdded));
    assert!(
        compact
            .observations
            .iter()
            .filter(|observation| observation
                .after
                .as_ref()
                .is_some_and(|site| site.operation.contains("return x")))
            .count()
            >= 2
    );
    let summary = compact.render_text();
    assert!(summary.contains("Use guard: flag"));
    assert!(summary.contains("!flag"));
    let (repeated_full, repeated_compact) = run_reports(
        "function f(flag: boolean) { let x = 0; x = 1; x = 2; x = 3; return x; }",
        "function f(flag: boolean) { let x = 0; x = 1; x = 2; if (flag) return x; x = 3; return x; }",
        "x",
    );
    if repeated_full
        .diagnostics
        .iter()
        .any(|diagnostic| diagnostic.code == DiagnosticCode::AmbiguousMatch)
    {
        assert!(!repeated_compact.comparison_complete);
    }
}

#[test]
fn ifds_k041_operand_and_origins() {
    let (_, compact) = run_reports(
        "function f(p: number) { let x = p; return x + 4; }",
        "function f(p: number) { let x = p + 1; return x + 4; }",
        "x",
    );
    let writer = compact_source(&compact, "x = p + 1");
    assert!(!writer.after_upstream.is_empty());
    assert!(writer.after_upstream.iter().any(|id| compact.sources.iter().any(|source| source.id
        == *id
        && source.after.as_ref().is_some_and(|site| site.operation.contains("p")))));
    let operand = compact
        .observations
        .iter()
        .find(|observation| {
            observation.projection == "value.operands[0]"
                && observation
                    .after
                    .as_ref()
                    .is_some_and(|site| site.operation.contains("return x + 4"))
        })
        .unwrap();
    assert!(operand.after_state.as_ref().unwrap().sources.contains(&writer.id));
    assert!(!compact.observations.iter().any(|observation| {
        observation.projection == "value"
            && observation.after.as_ref().is_some_and(|site| site.operation.contains("return x + 4"))
            && observation.after_state.as_ref().is_some_and(|state| state.sources.contains(&writer.id))
    }));
}

#[test]
fn ifds_k041_overwritten_and_copied() {
    let (_, copied) = run_reports(
        "function f(p: number, q: number) { let x = p; let y = x; x = 3; return y; }",
        "function f(p: number, q: number) { let x = q; let y = x; x = 3; return y; }",
        "x",
    );
    let old_writer = compact_source(&copied, "x = p");
    let copy = compact_source(&copied, "y = x");
    assert!(copy.before_upstream.contains(&old_writer.id));
    assert!(copied.findings.iter().any(|finding| finding.kind == FindingKind::ExpressionChanged
        || finding.kind == FindingKind::SourceSetChanged));
    let (_, overwritten) = run_reports(
        "function f(p: number, q: number) { let x = p; x = 3; return x; }",
        "function f(p: number, q: number) { let x = q; x = 3; return x; }",
        "x",
    );
    let final_return = compact_observation(&overwritten, "return x");
    let final_sources = &final_return.after_state.as_ref().unwrap().sources;
    assert!(final_sources.contains(&compact_source(&overwritten, "x = 3").id));
    assert!(!final_sources.contains(&compact_source(&overwritten, "x = q").id));
}

#[test]
fn ifds_k041_equal_rhs_distinct_writes() {
    let (_, compact) = run_reports(
        "function f() { let x = 1; return x; }",
        "function f() { let x = 1; x = 1; return x; }",
        "x",
    );
    let same_rhs: Vec<_> = compact
        .sources
        .iter()
        .filter(|source| source.after.as_ref().is_some_and(|site| site.operation.contains("x = 1")))
        .collect();
    assert_eq!(same_rhs.len(), 2);
    assert_ne!(same_rhs[0].id, same_rhs[1].id);
    let (_, self_assignment) = run_reports(
        "function f() { let x = 1; return x; }",
        "function f() { let x = 1; x = x; return x; }",
        "x",
    );
    let self_write = compact_source(&self_assignment, "x = x");
    assert!(!self_write.after_upstream.is_empty());
    assert!(self_assignment.findings.iter().any(|finding| finding.after_sources.contains(&self_write.id)
        || finding.kind == FindingKind::WriteAdded));
}

#[test]
fn ifds_k041_expression_only_change() {
    let (_, compact) = run_reports(
        "function f(p: number) { let x = p + 1; return x; }",
        "function f(p: number) { let x = p - 1; return x; }",
        "x",
    );
    assert!(compact.findings.iter().any(|finding| finding.kind == FindingKind::ExpressionChanged));
    assert!(compact.render_text().contains("p + 1"));
    assert!(compact.render_text().contains("p - 1"));
    assert!(!compact.findings.iter().any(|finding| matches!(
        finding.kind,
        FindingKind::WriteAdded | FindingKind::WriteRemoved
    )));
}

#[test]
fn ifds_k041_observations_and_grouping() {
    let (_, compact) = run_reports(
        "function f() { let x = 1; let y = x; y = x; return y; }",
        "function f() { let x = 2; let y = x; y = x; return y; }",
        "x",
    );
    let copies: Vec<_> = compact
        .observations
        .iter()
        .filter(|observation| observation.after.as_ref().is_some_and(|site| site.operation.contains("y = x")))
        .collect();
    assert_eq!(copies.len(), 2);
    assert_ne!(copies[0].id, copies[1].id);
    assert!(compact.observation_groups.iter().any(|group| group.members.len() >= 2));
    assert!(compact.findings.iter().any(|finding| finding.kind == FindingKind::ExpressionChanged
        || finding.kind == FindingKind::SourceSetChanged));
}

#[test]
fn ifds_k041_uncertainty_and_scope() {
    let (partial_full, partial) = run_reports(
        "function f() { let x = 1; x = mystery(x); return x; }",
        "function f() { let x = 1; x = mystery(x); return x; }",
        "x",
    );
    assert_ne!(partial.analysis_coverage, Completeness::CompleteForQuery);
    assert!(!partial.comparison_complete);
    assert!(partial
        .observations
        .iter()
        .flat_map(|observation| [observation.before_state.as_ref(), observation.after_state.as_ref()])
        .flatten()
        .any(|state| !state.exhaustive));
    assert!(!partial_full.flow_extent.after.value_lifecycle_closed);

    let (complete_full, _) = run_reports(OVERWRITE_BEFORE, OVERWRITE_AFTER, "x");
    assert_eq!(complete_full.completeness, Completeness::CompleteForQuery);
    let mut ambiguous = complete_full.clone();
    ambiguous.diagnostics.push(Diagnostic {
        code: DiagnosticCode::AmbiguousMatch,
        message: "two return sites can correspond".into(),
        snapshot: None,
        frontier: None,
        span: None,
        affected_flows: Vec::new(),
    });
    assert!(!comparison_is_complete(&ambiguous));
    assert_eq!(ambiguous.before_graph, complete_full.before_graph);
    assert_eq!(ambiguous.after_graph, complete_full.after_graph);
}

#[test]
fn ifds_k041_guard_versions() {
    let (_, compact) = run_reports(
        "function f(flag: boolean, other: boolean) { let x = 1; if (flag) x = 2; flag = other; if (flag) x = 3; return x; }",
        "function f(flag: boolean, other: boolean) { let x = 1; if (flag) x = 2; flag = other; if (flag) x = 4; return x; }",
        "x",
    );
    let guards: Vec<_> = compact
        .controls
        .iter()
        .filter(|control| control.after.as_ref().is_some_and(|site| site.operation.contains("flag")))
        .collect();
    assert!(guards.len() >= 2);
    assert_ne!(guards[0].id, guards[1].id);
    assert_ne!(
        guards[0].after_value.as_ref().unwrap().reaching_writes,
        guards[1].after_value.as_ref().unwrap().reaching_writes
    );
}

#[test]
fn ifds_k041_shared_conditions() {
    let (_, compact) = run_reports(
        "function f(a: boolean, b: boolean) { let x = 1; return x; }",
        "function f(a: boolean, b: boolean) { let x = 1; if (a) x = 2; if (b) x = 3; return x; }",
        "x",
    );
    let third = compact_source(&compact, "x = 3");
    let observation = compact_observation(&compact, "return x");
    let selection = observation
        .after_state
        .as_ref()
        .unwrap()
        .selections
        .iter()
        .find(|selection| selection.source == third.id)
        .unwrap();
    let clauses = selection.clauses.as_ref().unwrap();
    assert_eq!(clauses.len(), 1);
    assert_eq!(clauses.iter().next().unwrap().terms.len(), 1);
    let (_, unsupported) = run_reports(
        "function f(a: boolean, b: boolean) { let x = 1; return x; }",
        "function f(a: boolean, b: boolean) { let x = 1; if (a && b) x = 2; return x; }",
        "x",
    );
    assert!(!unsupported.comparison_complete || unsupported.analysis_coverage != Completeness::CompleteForQuery);
}

#[test]
fn projection_checks_against_its_full_report() {
    let (full, compact) = run_reports(OVERWRITE_BEFORE, OVERWRITE_AFTER, "x");
    assert!(compact.validate_with_full(&full).is_ok());
    assert!(compact.full_report_id.starts_with("ifds-"));
    assert_eq!(compact.full_report_id.len(), 21);
    assert_eq!(compact.evidence_file, format!("ifds-evidence-{}.json", compact.full_report_id));
    assert!(compact.presentation_complete);
    assert_eq!(compact.omitted_groups, 0);
    assert_eq!(compact.analysis_coverage, full.completeness);
    let mut invalid = compact.clone();
    let finding = invalid.findings.iter_mut().next().unwrap();
    finding.evidence.push(EvidenceRef {
        report_id: compact.full_report_id.clone(),
        section: "deltas".into(),
        index: full.deltas.len(),
    });
    assert!(invalid.validate_with_full(&full).is_err());
    let mut renamed = compact.clone();
    renamed.full_report_id = "ifds-0000000000000000".into();
    assert!(renamed.validate_with_full(&full).is_err());
    let mut future = compact.clone();
    future.schema_version = 2;
    assert!(future.validate_with_full(&full).is_err());
}

#[test]
fn projection_text_ends_with_scope_line() {
    let (_, compact) = run_reports(OVERWRITE_BEFORE, OVERWRITE_AFTER, "x");
    let text = compact.render_text();
    let last = text.lines().last().unwrap();
    assert!(last.starts_with("Scope: "));
    assert!(last.contains("Full evidence: ifds-evidence-"));
    assert!(text.contains("Before:"));
    assert!(text.contains("After:"));
}


#[test]
fn summary_is_the_rendered_projection() {
    let (report, compact) = run_reports(OVERWRITE_BEFORE, OVERWRITE_AFTER, "x");
    assert_eq!(report.human_summary, compact.render_text());
    assert!(report.human_summary.contains("Before:"));
    assert!(report.human_summary.contains("After:"));
    assert!(report.human_summary.contains("x = 2"));
    assert!(report.human_summary.contains("return x"));
    assert!(report.human_summary.contains("remains in the code but no longer reaches this input."));
    assert!(compact.validate_with_full(&report).is_ok());
    assert!(compact.findings.iter().any(|finding| finding.kind == FindingKind::SourceSetChanged));
    assert!(!report.human_summary.contains("no further impact"));
    let (z, _) = run_reports(
        "function example() {\n  let x = 1;\n  let y = x + 1;\n  let z = y + 2;\n  return z;\n}\n",
        "function example() {\n  let x = 1;\n  let y = x + 1;\n  let z = 1;\n  return z;\n}\n",
        "z",
    );
    assert!(z.human_summary.contains("z = 1"));
    assert!(!z.human_summary.contains("no longer reaches write"));
}
