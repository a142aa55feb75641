use repo_memory::ifds::fixtures::{
    compare_report, reviewed_label, validate_expectations, validate_manifest, ExpectedDelta,
    ExpectedEnding, ExpectedRelation, ExpectedSidedRelation, FixtureError, FixtureExpectations,
    FixtureManifest, FixturePartition, FixtureSnapshot, FixtureSnapshots, LabelLocation,
    LogicalLabel,
};
use repo_memory::ifds::model::{
    Alignment, AnalysisLimits, AnalysisStats, BindingId, BindingSelector, CapabilitySet,
    Completeness, Coverage, DeltaRecord, EntryPoint, EvidenceKind, FlowDelta, FlowEdge, FlowExtent,
    FlowGraph, FlowNode, LogicalNodeId, ModelVersion, NodeId, PathEnding, PathEndingKind, Place,
    RelationKind, RepositoryDiff, ResolvedQuery, SnapshotExtent, SnapshotHandle, SnapshotId,
    SnapshotSide, Source, SourceSpan, VariableFlowQuery, VariableFlowReport, WitnessId,
    REPORT_SCHEMA_VERSION,
};

fn source_span(path: &str, start: u64) -> SourceSpan {
    SourceSpan { path: path.into(), byte_start: start, byte_end: start + 1, start_line: 1, end_line: 1 }
}

fn extent() -> FlowExtent {
    let snapshot = SnapshotExtent {
        upstream: Coverage::Complete,
        downstream: Coverage::Complete,
        declared_scope: "fixture".into(),
        source_boundaries: Vec::new(),
        sink_boundaries: Vec::new(),
        value_lifecycle_closed: true,
    };
    FlowExtent { before: snapshot.clone(), after: snapshot }
}

fn expectations() -> FixtureExpectations {
    FixtureExpectations {
        schema_version: 1,
        labels: Vec::new(),
        required: Vec::new(),
        forbidden: Vec::new(),
        retained_relations: Vec::new(),
        required_relations: Vec::new(),
        forbidden_relations: Vec::new(),
        required_endings: Vec::new(),
        witness_assertions: Vec::new(),
        required_unknown_frontiers: Vec::new(),
        summaries_used: Vec::new(),
        coverage: extent(),
        completeness: Completeness::CompleteForQuery,
    }
}

fn relation(source: &str, consumer: &str) -> ExpectedRelation {
    ExpectedRelation {
        source: source.into(),
        consumer: consumer.into(),
        relation: RelationKind::Reaches,
        projection: None,
    }
}

fn synthetic_report() -> (FixtureExpectations, VariableFlowReport) {
    let snap = |side| SnapshotId {
        side,
        revision: format!("{side:?}"),
        content_id: format!("{side:?}-content"),
    };
    let before = snap(SnapshotSide::Before);
    let after = snap(SnapshotSide::After);
    let bn = |local| NodeId::new(before.clone(), local);
    let an = |local| NodeId::new(after.clone(), local + 100);
    let spans = [source_span("main.ts", 1), source_span("main.ts", 3), source_span("main.ts", 5)];
    let node = |id, span: &SourceSpan| FlowNode {
        id,
        operation: "fixture".into(),
        span: span.clone(),
        enclosing_declaration: Some("fixture".into()),
        fingerprint: "fixture".into(),
    };
    let edge = |source, target| FlowEdge {
        source,
        target,
        relation: RelationKind::Reaches,
        projection: None,
        condition: None,
        evidence: EvidenceKind::Supported,
    };
    let capabilities = CapabilitySet {
        stage: 0,
        capabilities: vec!["fixture_harness".into()],
        version: "stage-0".into(),
    };
    let limits = AnalysisLimits {
        time_ms: 1,
        memory_bytes: 1,
        processed_path_edges: 100,
        witnesses_per_relation: 2,
        output_nodes: 10,
    };
    let before_binding = BindingId::new(before.clone(), 1);
    let after_binding = BindingId::new(after.clone(), 1);
    let selector = |snapshot| BindingSelector {
        snapshot,
        declaration: spans[0].clone(),
        expected_name: Some("x".into()),
        expected_enclosing_symbol: Some("fixture".into()),
    };
    let report = VariableFlowReport {
        schema_version: REPORT_SCHEMA_VERSION,
        analysis_version: "test".into(),
        snapshots: vec![before.clone(), after.clone()],
        query: ResolvedQuery {
            request: VariableFlowQuery {
                before: SnapshotHandle { id: before.clone(), repository_id: "fixture".into() },
                after: SnapshotHandle { id: after.clone(), repository_id: "fixture".into() },
                diff: RepositoryDiff {
                    before_content_id: before.content_id.clone(),
                    after_content_id: after.content_id.clone(),
                    changes: Vec::new(),
                },
                selected_binding: selector(before.clone()),
                counterpart: Some(selector(after.clone())),
                entry: EntryPoint::ContainingFunction,
                capabilities: capabilities.clone(),
                summaries: Vec::new(),
                limits,
            },
            before_binding: Some(before_binding),
            after_binding: Some(after_binding.clone()),
        },
        entry_assumptions: Vec::new(),
        before_graph: FlowGraph {
            nodes: spans.iter().enumerate().map(|(i, span)| node(bn(i as u64 + 1), span)).collect(),
            edges: vec![edge(bn(1), bn(2)), edge(bn(2), bn(3))],
            facts: Vec::new(),
        },
        after_graph: FlowGraph {
            nodes: spans.iter().enumerate().map(|(i, span)| node(an(i as u64 + 1), span)).collect(),
            edges: vec![edge(an(1), an(2)), edge(an(2), an(3))],
            facts: Vec::new(),
        },
        alignment: (1..=3)
            .map(|local| Alignment {
                logical: LogicalNodeId(local),
                before: Some(bn(local)),
                after: Some(an(local)),
                evidence: "reviewed".into(),
            })
            .collect(),
        deltas: Vec::new(),
        human_summary: String::new(),
        witnesses: Vec::new(),
        diagnostics: Vec::new(),
        unknown_frontiers: Vec::new(),
        capabilities,
        summaries_used: Vec::new(),
        flow_extent: extent(),
        path_endings: vec![PathEnding {
            kind: PathEndingKind::ExecutionExit,
            origin: Source::FunctionInput(after_binding.clone()),
            carrier: Place::Binding(after_binding),
            location: spans[2].clone(),
            condition: None,
            context: "fixture".into(),
            witness: WitnessId(1),
            model: None,
            diagnostic: None,
        }],
        completeness: Completeness::CompleteForQuery,
        region_completeness: vec![
            ("upstream".into(), Coverage::Complete),
            ("downstream".into(), Coverage::Complete),
        ],
        stats: AnalysisStats {
            elapsed_ms: 0,
            peak_memory_bytes: 0,
            processed_path_edges: 0,
            graph_nodes: 6,
            graph_edges: 4,
            witnesses_emitted: 0,
            witnesses_omitted: 0,
            limits_hit: Vec::new(),
            graph_truncated: false,
            witnesses_truncated: false,
        },
    };
    let mut expected = expectations();
    for (label, span) in ["source", "consumer", "final_consumer"].into_iter().zip(spans) {
        expected.labels.push((
            label.into(),
            LogicalLabel {
                before: Some(LabelLocation::Node { span: span.clone() }),
                after: Some(LabelLocation::Node { span }),
            },
        ));
    }
    (expected, report)
}

#[test]
fn ifds_k003_required_forbidden_retained() {
    let (base_expected, base_report) = synthetic_report();
    let flow = relation("source", "consumer");

    let mut required = base_expected.clone();
    required.required.push(ExpectedDelta::FlowAdded { relation: flow.clone() });
    let error = compare_report(&required, &base_report).unwrap_err().message();
    assert!(error.contains("missing required"), "{error}");

    let forbidden_delta = ExpectedDelta::FlowRemoved { relation: flow.clone() };
    let mut forbidden = base_expected.clone();
    forbidden.forbidden.push(forbidden_delta.clone());
    let mut forbidden_report = base_report.clone();
    forbidden_report.deltas.push(DeltaRecord {
        delta: FlowDelta::FlowRemoved {
            source: LogicalNodeId(1),
            target: LogicalNodeId(2),
            relation: RelationKind::Reaches,
            projection: None,
        },
        groups: Vec::new(),
        before_span: None,
        after_span: None,
        condition: None,
    });
    let error = compare_report(&forbidden, &forbidden_report).unwrap_err().message();
    assert!(error.contains("forbidden"), "{error}");

    let mut retained = base_expected;
    retained.retained_relations.push(flow.clone());
    let mut retained_report = base_report;
    retained_report.deltas.push(DeltaRecord {
        delta: FlowDelta::FlowAdded {
            source: LogicalNodeId(1),
            target: LogicalNodeId(2),
            relation: RelationKind::Reaches,
            projection: None,
        },
        groups: Vec::new(),
        before_span: None,
        after_span: None,
        condition: None,
    });
    let error = compare_report(&retained, &retained_report).unwrap_err().message();
    assert!(error.contains("misclassified"), "{error}");
}

#[test]
fn ifds_k003_full_chain_required() {
    let (mut expected, mut report) = synthetic_report();
    let first = relation("source", "consumer");
    let later = relation("consumer", "final_consumer");
    let ending = ExpectedEnding {
        side: SnapshotSide::After,
        kind: PathEndingKind::ExecutionExit,
        location: source_span("main.ts", 5),
        condition: None,
        diagnostic: None,
    };
    expected.required_relations.extend([
        ExpectedSidedRelation { side: SnapshotSide::After, relation: first.clone() },
        ExpectedSidedRelation { side: SnapshotSide::After, relation: later },
    ]);
    expected.required_endings.push(ending);
    report.after_graph.edges.retain(|edge| edge.target.local != 103);
    report.path_endings.clear();
    let error = compare_report(&expected, &report).unwrap_err().message();
    assert!(error.contains("final_consumer"), "{error}");
    assert!(error.contains("ending"), "{error}");
}

#[test]
fn ifds_k003_logical_label_normalization() {
    let (mut report_expected, report) = synthetic_report();
    report_expected.retained_relations.push(relation("source", "consumer"));
    compare_report(&report_expected, &report).unwrap();
    report_expected.retained_relations.clear();
    report_expected.retained_relations.push(relation("consumer", "source"));
    assert!(compare_report(&report_expected, &report).is_err());

    let before_source = source_span("before/main.ts", 1);
    let after_source = source_span("after/main.ts", 10);
    let before_consumer = source_span("before/main.ts", 3);
    let after_consumer = source_span("after/main.ts", 30);
    let mut expected = expectations();
    expected.labels.push((
        "source".into(),
        LogicalLabel {
            before: Some(LabelLocation::Node { span: before_source.clone() }),
            after: Some(LabelLocation::Node { span: after_source.clone() }),
        },
    ));
    expected.labels.push((
        "consumer".into(),
        LogicalLabel {
            before: Some(LabelLocation::Node { span: before_consumer.clone() }),
            after: Some(LabelLocation::Node { span: after_consumer.clone() }),
        },
    ));
    assert_eq!(
        reviewed_label(&expected, SnapshotSide::Before, &before_source).unwrap(),
        reviewed_label(&expected, SnapshotSide::After, &after_source).unwrap()
    );
    let normalized = relation(
        &reviewed_label(&expected, SnapshotSide::Before, &before_source).unwrap(),
        &reviewed_label(&expected, SnapshotSide::Before, &before_consumer).unwrap(),
    );
    let swapped = relation(
        &reviewed_label(&expected, SnapshotSide::After, &after_consumer).unwrap(),
        &reviewed_label(&expected, SnapshotSide::After, &after_source).unwrap(),
    );
    assert_ne!(normalized, swapped);
}

fn manifest() -> FixtureManifest {
    FixtureManifest {
        schema_version: 1,
        case_id: "case".into(),
        category_id: "writes".into(),
        promoted: true,
        partition: FixturePartition::Development,
        project_configuration: Vec::new(),
        snapshots: FixtureSnapshots {
            before: FixtureSnapshot { revision: "a".into(), content_id: "a".into(), directory: "before".into() },
            after: FixtureSnapshot { revision: "b".into(), content_id: "b".into(), directory: "after".into() },
        },
        change_file: "change.diff".into(),
        selector: BindingSelector {
            snapshot: SnapshotId { side: SnapshotSide::Before, revision: "a".into(), content_id: "a".into() },
            declaration: SourceSpan { path: "x.ts".into(), byte_start: 0, byte_end: 1, start_line: 1, end_line: 1 },
            expected_name: Some("x".into()),
            expected_enclosing_symbol: None,
        },
        counterpart: None,
        entry_assumptions: Vec::new(),
        capabilities: CapabilitySet { stage: 0, capabilities: Vec::new(), version: "0".into() },
        model_versions: Vec::new(),
        limits: AnalysisLimits {
            time_ms: 1,
            memory_bytes: 1,
            processed_path_edges: 1,
            witnesses_per_relation: 1,
            output_nodes: 1,
        },
        expected_file: "expected.json".into(),
        provenance: None,
    }
}

#[test]
fn manifest_fields_are_checked_in_order() {
    let without_models = manifest();
    let error = validate_manifest(&without_models).unwrap_err().message();
    assert!(error.contains("model_versions"), "{error}");
    let mut with_model = manifest();
    with_model.model_versions.push(ModelVersion {
        name: "none".into(),
        version: "1".into(),
        digest: "reviewed".into(),
    });
    assert_eq!(validate_manifest(&with_model), Ok(()));
    let mut escaping = with_model.clone();
    escaping.expected_file = "../expected.json".into();
    assert!(matches!(validate_manifest(&escaping), Err(FixtureError::Invalid(_))));
    let mut no_case = with_model;
    no_case.case_id = String::new();
    assert_eq!(validate_manifest(&no_case), Err(FixtureError::MissingField("case_id".into())));
}

#[test]
fn expectations_name_declared_labels() {
    let (mut expected, _) = synthetic_report();
    assert_eq!(validate_expectations(&expected), Ok(()));
    expected.retained_relations.push(relation("source", "nowhere"));
    let error = validate_expectations(&expected).unwrap_err().message();
    assert!(error.contains("undeclared logical label `nowhere`"), "{error}");
}
