use repo_memory::ifds::ir::{EdgeKind, IrEdge, IrNode, IrValidationError, Operation, ProcedureIr, ProcedureParameter};
use repo_memory::ifds::model::{
    Alignment, AnalysisLimits, AnalysisStats, BindingId, BindingSelector, CapabilitySet,
    Completeness, Coverage, DefinitionId, Diagnostic, DiagnosticCode, Direction, EntryAssumption,
    EntryPoint, EvidenceKind, Fact, FileChange, FileChangeKind, FlowEdge, FlowExtent, FlowGraph,
    FlowNode, LogicalNodeId, ModelVersion, NodeId, PathEnding, PathEndingKind, Place,
    ProcedureId, RelationKind, RepositoryDiff, ResolvedQuery, SchemaError, SnapshotExtent, SnapshotHandle,
    SnapshotId, SnapshotSide, Source, SourceSpan, UnknownFrontier, VariableFlowQuery,
    VariableFlowReport, WitnessId, REPORT_SCHEMA_VERSION,
};

fn snapshot(side: SnapshotSide) -> SnapshotId {
    SnapshotId {
        side,
        revision: match side {
            SnapshotSide::Before => "rev-before",
            SnapshotSide::After => "rev-after",
        }
        .into(),
        content_id: match side {
            SnapshotSide::Before => "content-before",
            SnapshotSide::After => "content-after",
        }
        .into(),
    }
}

fn span(path: &str, byte_start: u64, byte_end: u64, line: u32) -> SourceSpan {
    SourceSpan {
        path: path.into(),
        byte_start,
        byte_end,
        start_line: line,
        end_line: line,
    }
}

fn report() -> VariableFlowReport {
    let before = snapshot(SnapshotSide::Before);
    let after = snapshot(SnapshotSide::After);
    let bn = |local| NodeId::new(before.clone(), local);
    let an = |local| NodeId::new(after.clone(), local);
    let bb = BindingId::new(before.clone(), 1);
    let ab = BindingId::new(after.clone(), 1);
    let bd = DefinitionId::new(before.clone(), 1);
    let model = ModelVersion {
        name: "fetch-header".into(),
        version: "1".into(),
        digest: "sha256:model".into(),
    };
    let origins = Source::Write(bd.clone());
    let carrier = Place::Binding(bb.clone());
    let ending_kinds = [
        PathEndingKind::NoFurtherUse,
        PathEndingKind::ExecutionExit,
        PathEndingKind::ScopeBoundary,
        PathEndingKind::ModeledBoundary,
        PathEndingKind::UnknownBoundary,
        PathEndingKind::Cycle,
    ];
    let path_endings: Vec<_> = ending_kinds
        .into_iter()
        .enumerate()
        .map(|(index, kind)| PathEnding {
            model: (kind == PathEndingKind::ModeledBoundary).then(|| model.clone()),
            diagnostic: (kind == PathEndingKind::UnknownBoundary)
                .then_some(DiagnosticCode::UnknownExternalEffect),
            kind,
            origin: origins.clone(),
            carrier: carrier.clone(),
            location: span("src/é.ts", 22, 30, 3),
            condition: Some("reachable".into()),
            context: "function f".into(),
            witness: WitnessId(index as u64),
        })
        .collect();
    let capabilities = CapabilitySet {
        stage: 0,
        capabilities: vec!["contracts".into(), "ir".into()],
        version: "stage-0".into(),
    };
    let request = VariableFlowQuery {
        before: SnapshotHandle {
            id: before.clone(),
            repository_id: "repo".into(),
        },
        after: SnapshotHandle {
            id: after.clone(),
            repository_id: "repo".into(),
        },
        diff: RepositoryDiff {
            before_content_id: "content-before".into(),
            after_content_id: "content-after".into(),
            changes: vec![FileChange {
                kind: FileChangeKind::Modified,
                before_path: Some("src/é.ts".into()),
                after_path: Some("src/é.ts".into()),
                before_content_id: Some("old".into()),
                after_content_id: Some("new".into()),
            }],
        },
        selected_binding: BindingSelector {
            snapshot: before.clone(),
            declaration: span("src/é.ts", 4, 6, 1),
            expected_name: Some("x".into()),
            expected_enclosing_symbol: Some("f".into()),
        },
        counterpart: Some(BindingSelector {
            snapshot: after.clone(),
            declaration: span("src/é.ts", 4, 6, 1),
            expected_name: Some("x".into()),
            expected_enclosing_symbol: Some("f".into()),
        }),
        entry: EntryPoint::ContainingFunction,
        capabilities: capabilities.clone(),
        summaries: vec![model.clone()],
        limits: AnalysisLimits {
            time_ms: 120_000,
            memory_bytes: 4_294_967_296,
            processed_path_edges: 1_000_000,
            witnesses_per_relation: 3,
            output_nodes: 100_000,
        },
    };
    VariableFlowReport {
        schema_version: REPORT_SCHEMA_VERSION,
        analysis_version: "0.1.0".into(),
        snapshots: vec![before.clone(), after.clone()],
        query: ResolvedQuery {
            request,
            before_binding: Some(bb.clone()),
            after_binding: Some(ab),
        },
        entry_assumptions: vec![EntryAssumption {
            name: "input".into(),
            value: None,
            source: Source::FunctionInput(bb.clone()),
        }],
        before_graph: FlowGraph {
            nodes: vec![
                FlowNode {
                    id: bn(1),
                    operation: "write".into(),
                    span: span("src/é.ts", 0, 12, 1),
                    enclosing_declaration: Some("f".into()),
                    fingerprint: "write:x".into(),
                },
                FlowNode {
                    id: bn(2),
                    operation: "read".into(),
                    span: span("src/é.ts", 13, 21, 2),
                    enclosing_declaration: Some("f".into()),
                    fingerprint: "read:x".into(),
                },
            ],
            edges: vec![FlowEdge {
                source: bn(1),
                target: bn(2),
                relation: RelationKind::Reaches,
                projection: None,
                condition: None,
                evidence: EvidenceKind::Supported,
            }],
            facts: vec![
                Fact::Zero,
                Fact::LastWrite {
                    place: Place::Binding(bb.clone()),
                    write: bd.clone(),
                },
            ],
        },
        after_graph: FlowGraph {
            nodes: vec![FlowNode {
                id: an(1),
                operation: "write".into(),
                span: span("src/é.ts", 0, 14, 1),
                enclosing_declaration: Some("f".into()),
                fingerprint: "write:x:new".into(),
            }],
            edges: Vec::new(),
            facts: vec![Fact::Zero],
        },
        alignment: vec![Alignment {
            logical: LogicalNodeId(1),
            before: Some(bn(1)),
            after: Some(an(1)),
            evidence: "explicit declaration counterpart".into(),
        }],
        deltas: Vec::new(),
        human_summary: String::new(),
        witnesses: Vec::new(),
        diagnostics: vec![Diagnostic {
            code: DiagnosticCode::UnresolvedCall,
            message: "call target unavailable".into(),
            snapshot: Some(before.clone()),
            frontier: Some(bn(3)),
            span: Some(span("src/é.ts", 22, 30, 3)),
            affected_flows: vec!["downstream".into()],
        }],
        unknown_frontiers: vec![UnknownFrontier {
            node: bn(3),
            next_operation: "dynamic call".into(),
            diagnostic: DiagnosticCode::UnresolvedCall,
            affected_direction: Direction::Downstream,
        }],
        capabilities,
        summaries_used: vec![model],
        flow_extent: FlowExtent {
            before: SnapshotExtent {
                upstream: Coverage::Complete,
                downstream: Coverage::Partial,
                declared_scope: "function f".into(),
                source_boundaries: vec!["function input".into()],
                sink_boundaries: vec!["request header".into()],
                value_lifecycle_closed: false,
            },
            after: SnapshotExtent {
                upstream: Coverage::Unsupported,
                downstream: Coverage::Complete,
                declared_scope: "function f".into(),
                source_boundaries: Vec::new(),
                sink_boundaries: Vec::new(),
                value_lifecycle_closed: true,
            },
        },
        path_endings,
        completeness: Completeness::Partial,
        region_completeness: vec![
            ("downstream".into(), Coverage::Partial),
            ("upstream".into(), Coverage::Complete),
        ],
        stats: AnalysisStats {
            elapsed_ms: 7,
            peak_memory_bytes: 4096,
            processed_path_edges: 11,
            graph_nodes: 4,
            graph_edges: 3,
            witnesses_emitted: 3,
            witnesses_omitted: 1,
            limits_hit: vec!["witness_display".into()],
            graph_truncated: false,
            witnesses_truncated: true,
        },
    }
}

#[test]
fn ifds_k001_snapshot_ids_do_not_alias() {
    let before = NodeId::new(snapshot(SnapshotSide::Before), 7);
    let after = NodeId::new(snapshot(SnapshotSide::After), 7);
    assert_ne!(before, after);
    let mapping = Alignment {
        logical: LogicalNodeId(99),
        before: Some(before.clone()),
        after: Some(after.clone()),
        evidence: "explicit".into(),
    };
    assert_eq!(mapping.before, Some(before));
    assert_eq!(mapping.after, Some(after));
}

#[test]
fn ifds_k001_coverage_is_not_lifecycle() {
    let value = report();
    assert_eq!(value.flow_extent.before.upstream, Coverage::Complete);
    assert!(!value.flow_extent.before.value_lifecycle_closed);
    assert!(
        value
            .path_endings
            .iter()
            .any(|ending| ending.kind == PathEndingKind::ScopeBoundary)
    );
}

#[test]
fn report_validation_checks_version_and_spans() {
    let valid = report();
    assert_eq!(valid.validate(), Ok(()));
    let mut unsupported = report();
    unsupported.schema_version = REPORT_SCHEMA_VERSION + 1;
    assert_eq!(
        unsupported.validate(),
        Err(SchemaError::UnsupportedVersion {
            found: REPORT_SCHEMA_VERSION + 1,
            supported: REPORT_SCHEMA_VERSION,
        })
    );
    let mut bad_span = report();
    bad_span.before_graph.nodes[0].span.byte_end = 0;
    bad_span.before_graph.nodes[0].span.byte_start = 5;
    assert!(matches!(
        bad_span.validate(),
        Err(SchemaError::InvalidSpan { .. })
    ));
}

#[test]
fn span_validation() {
    assert_eq!(span("a.ts", 0, 1, 1).validate(), Ok(()));
    assert!(span("", 0, 1, 1).validate().is_err());
    assert!(span("a.ts", 2, 1, 1).validate().is_err());
    let mut lines = span("a.ts", 0, 1, 2);
    lines.end_line = 1;
    assert!(lines.validate().is_err());
}


#[test]
fn ifds_k001_ir_without_language_adapter() {
    let snap = snapshot(SnapshotSide::Before);
    let node = |local| NodeId::new(snap.clone(), local);
    let binding = Place::Binding(BindingId::new(snap.clone(), 1));
    let edge = |source: u64, target: u64| IrEdge {
        source: node(source),
        target: node(target),
        kind: EdgeKind::Normal,
        construct: None,
        assumption: None,
    };
    let ir = ProcedureIr {
        id: ProcedureId::new(snap.clone(), 1),
        parameters: Vec::new(),
        entry: node(0),
        exits: vec![node(3)],
        nodes: vec![
            IrNode { id: node(0), operation: Operation::Entry, span: None },
            IrNode {
                id: node(1),
                operation: Operation::Write {
                    target: binding.clone(),
                    sources: Vec::new(),
                    definition: DefinitionId::new(snap.clone(), 1),
                },
                span: Some(span("src/a.ts", 0, 9, 1)),
            },
            IrNode {
                id: node(2),
                operation: Operation::Read { source: binding.clone(), result: Place::Temporary(node(20)) },
                span: Some(span("src/a.ts", 10, 18, 2)),
            },
            IrNode { id: node(3), operation: Operation::Exit, span: None },
        ],
        edges: vec![edge(0, 1), edge(1, 2), edge(2, 3)],
    };
    assert_eq!(ir.validate(), Ok(()));
}

#[test]
fn parameter_positions_are_checked_first() {
    let snap = snapshot(SnapshotSide::Before);
    let node = |local| NodeId::new(snap.clone(), local);
    let ir = ProcedureIr {
        id: ProcedureId::new(snap.clone(), 1),
        parameters: vec![ProcedureParameter {
            index: 1,
            binding: BindingId::new(snap.clone(), 1),
            entry_definition: DefinitionId::new(snap.clone(), 1),
        }],
        entry: node(0),
        exits: vec![node(1)],
        nodes: vec![
            IrNode { id: node(0), operation: Operation::Entry, span: None },
            IrNode { id: node(1), operation: Operation::Exit, span: None },
        ],
        edges: Vec::new(),
    };
    assert_eq!(ir.validate(), Err(IrValidationError::ParameterIndex { expected: 0, actual: 1 }));
}
