use repo_memory::ifds::model::{
    AnalysisLimitKind, AnalysisRegion, Coverage, DiagnosticCode, Direction, EvidenceKind,
    LimitReason, NodeId, RelationPresence, SnapshotId, SnapshotSide, SourceSpan,
};
use repo_memory::ifds::uncertainty::{
    limit_graph_nodes, limit_witnesses, localized_unknown_boundary, relation_presence,
    UncertaintyTracker,
};
use std::collections::BTreeSet;

fn snapshot() -> SnapshotId {
    SnapshotId {
        side: SnapshotSide::Before,
        revision: "k009".into(),
        content_id: "k009-content".into(),
    }
}

fn node(local: u64) -> NodeId {
    NodeId::new(snapshot(), local)
}

fn span(line: u32) -> SourceSpan {
    SourceSpan {
        path: "src/main.ts".into(),
        byte_start: u64::from(line - 1) * 10,
        byte_end: u64::from(line) * 10,
        start_line: line,
        end_line: line,
    }
}

#[test]
fn ifds_k009_unaffected_region_survives() {
    let affected = AnalysisRegion {
        name: "selected-result".into(),
        direction: Direction::Downstream,
    };
    let independent = AnalysisRegion {
        name: "independent-input".into(),
        direction: Direction::Upstream,
    };
    let (diagnostic, frontier) = localized_unknown_boundary(
        DiagnosticCode::UnresolvedCall,
        "unknown call".into(),
        node(2),
        Some(span(2)),
        Direction::Downstream,
        "call".into(),
    );
    let mut tracker = UncertaintyTracker::default();
    tracker.register(affected.clone(), Coverage::Complete);
    tracker.register(independent.clone(), Coverage::Complete);
    tracker.mark_unknown(affected.clone(), diagnostic, frontier);

    assert_eq!(tracker.coverage(&affected), Some(Coverage::Partial));
    assert_eq!(tracker.coverage(&independent), Some(Coverage::Complete));
    assert_eq!(
        relation_presence(&[EvidenceKind::Supported], Coverage::Complete),
        RelationPresence::Present
    );
}

#[test]
fn ifds_k009_no_absence_from_empty() {
    assert_eq!(
        relation_presence(&[], Coverage::Partial),
        RelationPresence::Unknown
    );
    assert_eq!(
        relation_presence(&[], Coverage::Unsupported),
        RelationPresence::Unknown
    );
    assert_eq!(
        relation_presence(&[], Coverage::Complete),
        RelationPresence::Absent
    );
}

#[test]
fn ifds_k009_witness_vs_graph_limit() {
    let solved_relations = BTreeSet::from(["write->read", "read->return"]);
    let witnesses = limit_witnesses(vec!["w1", "w2", "w3"], 1);
    assert_eq!(witnesses.items, vec!["w1"]);
    assert_eq!(witnesses.omitted, 2);
    assert!(witnesses.analysis_complete);
    assert_eq!(solved_relations.len(), 2);
    assert_eq!(
        witnesses.limit_reason.unwrap().kind,
        AnalysisLimitKind::WitnessesPerRelation
    );

    let graph = limit_graph_nodes(vec![node(1), node(2), node(3)], 2);
    assert_eq!(graph.items, vec![node(1), node(2)]);
    assert_eq!(graph.omitted, 1);
    assert!(!graph.analysis_complete);
    assert_eq!(
        graph.limit_reason.unwrap(),
        LimitReason {
            kind: AnalysisLimitKind::OutputNodes,
            limit: 2,
            observed: 3,
        }
    );
    assert_eq!(
        relation_presence(&[], Coverage::Partial),
        RelationPresence::Unknown
    );
}

#[test]
fn ifds_k009_diagnostic_location() {
    let cases = [
        (DiagnosticCode::ParseError, Direction::Upstream),
        (DiagnosticCode::MissingDependency, Direction::Upstream),
        (DiagnosticCode::UnsupportedSyntax, Direction::Downstream),
        (DiagnosticCode::UnresolvedCall, Direction::Downstream),
    ];
    for (index, (code, direction)) in cases.into_iter().enumerate() {
        let expected_node = node(index as u64 + 1);
        let expected_span = span(index as u32 + 1);
        let (diagnostic, frontier) = localized_unknown_boundary(
            code.clone(),
            "localized failure".into(),
            expected_node.clone(),
            Some(expected_span.clone()),
            direction,
            "next operation".into(),
        );
        assert_eq!(diagnostic.code, code);
        assert_eq!(diagnostic.snapshot, Some(snapshot()));
        assert_eq!(diagnostic.frontier, Some(expected_node.clone()));
        assert_eq!(diagnostic.span, Some(expected_span));
        assert_eq!(frontier.node, expected_node);
        assert_eq!(frontier.affected_direction, direction);
    }
}

#[test]
fn unknown_marking_leaves_other_regions_and_records_evidence() {
    let affected = AnalysisRegion {
        name: "a".into(),
        direction: Direction::Upstream,
    };
    let other = AnalysisRegion {
        name: "b".into(),
        direction: Direction::Upstream,
    };
    let (diagnostic, frontier) = localized_unknown_boundary(
        DiagnosticCode::ParseError,
        "parse".into(),
        node(1),
        None,
        Direction::Upstream,
        "parse".into(),
    );
    let mut tracker = UncertaintyTracker::default();
    tracker.register(other.clone(), Coverage::Unsupported);
    tracker.mark_unknown(affected.clone(), diagnostic.clone(), frontier.clone());
    assert_eq!(tracker.coverage(&affected), Some(Coverage::Partial));
    assert_eq!(tracker.coverage(&other), Some(Coverage::Unsupported));
    assert_eq!(tracker.diagnostics(), &vec![diagnostic]);
    assert_eq!(tracker.frontiers(), &vec![frontier]);
    assert_eq!(diagnosticless_flows(), vec!["upstream".to_string()]);
}

fn diagnosticless_flows() -> Vec<String> {
    let (diagnostic, _) = localized_unknown_boundary(
        DiagnosticCode::ParseError,
        String::new(),
        node(3),
        None,
        Direction::Upstream,
        String::new(),
    );
    diagnostic.affected_flows
}
