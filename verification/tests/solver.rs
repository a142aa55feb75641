use repo_memory::ifds::branches::BranchPaths;
use repo_memory::ifds::fixtures::evaluate_reference;
use repo_memory::ifds::ir::{EdgeKind, IrEdge, IrNode, Operation, ProcedureIr, UnknownEffectKind};
use repo_memory::ifds::model::{
    AnalysisLimitKind, AnalysisLimits, AnalysisRegion, BindingId, CallSiteId, Coverage,
    DefinitionId, DiagnosticCode, Direction, Fact, LimitReason, NodeId, Place, ProcedureId,
    SnapshotId, SnapshotSide, Source, UnknownFrontier,
};
use repo_memory::ifds::provenance::{TransferEvidence, UnsupportedTransferKind};
use repo_memory::ifds::solver::{
    FactState, IntraproceduralSolver, NoopSolverControl, Solver, SolverCancellation, SolverControl,
    SolverCounters, SolverOutput, SolverRequest, SolverTermination, UnsupportedFlow,
    WorklistOrder,
};
use std::cell::Cell;
use std::collections::{BTreeMap, BTreeSet};

fn snapshot() -> SnapshotId {
    SnapshotId {
        side: SnapshotSide::Before,
        revision: "k008".into(),
        content_id: "k008-content".into(),
    }
}

fn node(local: u64) -> NodeId {
    NodeId::new(snapshot(), local)
}

fn definition(local: u64) -> DefinitionId {
    DefinitionId::new(snapshot(), local)
}

fn binding(local: u64) -> Place {
    Place::Binding(BindingId::new(snapshot(), local))
}

fn limits() -> AnalysisLimits {
    AnalysisLimits {
        time_ms: 1_000,
        memory_bytes: 1_000_000,
        processed_path_edges: 100_000,
        witnesses_per_relation: 3,
        output_nodes: 10_000,
    }
}

fn ir_node(local: u64, operation: Operation) -> IrNode {
    IrNode {
        id: node(local),
        operation,
        span: None,
    }
}

fn edge(source: u64, target: u64, kind: EdgeKind) -> IrEdge {
    IrEdge {
        source: node(source),
        target: node(target),
        kind,
        construct: None,
        assumption: None,
    }
}

fn procedure(nodes: Vec<IrNode>, edges: Vec<IrEdge>, exits: &[u64]) -> ProcedureIr {
    ProcedureIr {
        id: ProcedureId::new(snapshot(), 0),
        parameters: Vec::new(),
        entry: node(0),
        exits: exits.iter().map(|local| node(*local)).collect(),
        nodes,
        edges,
    }
}

fn solve(procedure: &ProcedureIr, entry_facts: Vec<Fact>) -> SolverOutput {
    IntraproceduralSolver::new()
        .solve(
            SolverRequest {
                procedure,
                entry_facts,
                limits: limits(),
            },
            &NoopSolverControl,
        )
        .unwrap()
}

fn as_map(facts_at: &[(NodeId, Vec<Fact>)]) -> BTreeMap<NodeId, BTreeSet<Fact>> {
    facts_at
        .iter()
        .map(|(node, facts)| (node.clone(), facts.iter().cloned().collect()))
        .collect()
}

fn facts_at(output: &SolverOutput, at: &NodeId) -> BTreeSet<Fact> {
    as_map(&output.facts_at).get(at).cloned().unwrap()
}

fn has_node(output: &SolverOutput, at: &NodeId) -> bool {
    output.facts_at.iter().any(|(node, _)| node == at)
}

fn writes_for(facts: &BTreeSet<Fact>, place: &Place) -> BTreeSet<DefinitionId> {
    facts
        .iter()
        .filter_map(|fact| match fact {
            Fact::LastWrite {
                place: candidate,
                write,
            } if candidate == place => Some(write.clone()),
            _ => None,
        })
        .collect()
}

fn origins_for(facts: &BTreeSet<Fact>, place: &Place) -> BTreeSet<Source> {
    facts
        .iter()
        .filter_map(|fact| match fact {
            Fact::Origin {
                place: candidate,
                source,
            } if candidate == place => Some(source.clone()),
            _ => None,
        })
        .collect()
}

fn diamond_with_read() -> ProcedureIr {
    let x = binding(0);
    procedure(
        vec![
            ir_node(0, Operation::Entry),
            ir_node(
                1,
                Operation::Write {
                    target: x.clone(),
                    sources: Vec::new(),
                    definition: definition(1),
                },
            ),
            ir_node(
                2,
                Operation::Write {
                    target: x.clone(),
                    sources: Vec::new(),
                    definition: definition(2),
                },
            ),
            ir_node(3, Operation::Join),
            ir_node(
                4,
                Operation::Read {
                    source: x,
                    result: Place::Temporary(node(4)),
                },
            ),
            ir_node(5, Operation::Exit),
        ],
        vec![
            edge(0, 1, EdgeKind::Branch { outcome: true }),
            edge(0, 2, EdgeKind::Branch { outcome: false }),
            edge(1, 3, EdgeKind::Normal),
            edge(2, 3, EdgeKind::Normal),
            edge(3, 4, EdgeKind::Normal),
            edge(4, 5, EdgeKind::Normal),
        ],
        &[5],
    )
}

#[test]
fn ifds_k008_join_unions_writers() {
    let x = binding(0);
    let procedure = procedure(
        vec![
            ir_node(0, Operation::Entry),
            ir_node(
                1,
                Operation::Write {
                    target: x.clone(),
                    sources: Vec::new(),
                    definition: definition(1),
                },
            ),
            ir_node(
                2,
                Operation::Write {
                    target: x.clone(),
                    sources: Vec::new(),
                    definition: definition(2),
                },
            ),
            ir_node(3, Operation::Join),
            ir_node(4, Operation::Exit),
        ],
        vec![
            edge(0, 1, EdgeKind::Branch { outcome: true }),
            edge(0, 2, EdgeKind::Branch { outcome: false }),
            edge(1, 3, EdgeKind::Normal),
            edge(2, 3, EdgeKind::Normal),
            edge(3, 4, EdgeKind::Normal),
        ],
        &[4],
    );
    let output = solve(&procedure, vec![Fact::Zero]);

    assert_eq!(
        writes_for(&facts_at(&output, &node(3)), &x),
        BTreeSet::from([definition(1), definition(2)])
    );
    assert_eq!(
        origins_for(&facts_at(&output, &node(3)), &x),
        BTreeSet::from([Source::Write(definition(1)), Source::Write(definition(2))])
    );
    let incoming_writers: BTreeSet<_> = output
        .predecessors
        .iter()
        .filter_map(|predecessor| match &predecessor.destination {
            FactState {
                node: destination,
                fact: Fact::LastWrite { place, write },
            } if destination == &node(3) && place == &x => Some(write.clone()),
            _ => None,
        })
        .collect();
    assert_eq!(
        incoming_writers,
        BTreeSet::from([definition(1), definition(2)])
    );
}

#[test]
fn ifds_k008_cycle_converges() {
    let x = binding(0);
    let y = binding(1);
    let read_result = Place::Temporary(node(2));
    let procedure = procedure(
        vec![
            ir_node(0, Operation::Entry),
            ir_node(
                1,
                Operation::Write {
                    target: x.clone(),
                    sources: Vec::new(),
                    definition: definition(1),
                },
            ),
            ir_node(
                2,
                Operation::Read {
                    source: x,
                    result: read_result.clone(),
                },
            ),
            ir_node(
                3,
                Operation::Write {
                    target: y.clone(),
                    sources: vec![read_result],
                    definition: definition(3),
                },
            ),
            ir_node(4, Operation::Exit),
        ],
        vec![
            edge(0, 1, EdgeKind::Normal),
            edge(1, 2, EdgeKind::Normal),
            edge(2, 3, EdgeKind::Normal),
            edge(3, 2, EdgeKind::LoopBack),
            edge(3, 4, EdgeKind::Normal),
        ],
        &[4],
    );
    let output = solve(&procedure, vec![Fact::Zero]);
    let reference = evaluate_reference(&procedure, &[vec![Fact::Zero]], 1_000).unwrap();

    assert!(reference.complete);
    assert_eq!(as_map(&output.facts_at), as_map(&reference.facts_at));
    assert_eq!(
        writes_for(&facts_at(&output, &node(4)), &y),
        BTreeSet::from([definition(3)])
    );
    assert!(output.stats.processed_path_edges < 100);
}

#[test]
fn ifds_k008_unreachable_no_generation() {
    let reachable = binding(0);
    let disconnected = binding(1);
    let procedure = procedure(
        vec![
            ir_node(0, Operation::Entry),
            ir_node(
                1,
                Operation::Write {
                    target: reachable,
                    sources: Vec::new(),
                    definition: definition(1),
                },
            ),
            ir_node(2, Operation::Exit),
            ir_node(
                3,
                Operation::Write {
                    target: disconnected.clone(),
                    sources: Vec::new(),
                    definition: definition(3),
                },
            ),
        ],
        vec![edge(0, 1, EdgeKind::Normal), edge(1, 2, EdgeKind::Normal)],
        &[2],
    );
    let output = solve(&procedure, vec![Fact::Zero]);

    assert!(!has_node(&output, &node(3)));
    assert!(output.facts_at.iter().all(|(_, facts)| {
        !facts.contains(&Fact::LastWrite {
            place: disconnected.clone(),
            write: definition(3),
        })
    }));
}

#[test]
fn ifds_k008_worklist_order_independent() {
    let procedure = diamond_with_read();
    let solver = IntraproceduralSolver::new();
    let request = || SolverRequest {
        procedure: &procedure,
        entry_facts: vec![Fact::Zero],
        limits: limits(),
    };
    let fifo = solver
        .solve_with_order(request(), &NoopSolverControl, WorklistOrder::Fifo)
        .unwrap();
    let reverse = solver
        .solve_with_order(request(), &NoopSolverControl, WorklistOrder::Reverse)
        .unwrap();

    assert_eq!(as_map(&fifo.facts_at), as_map(&reverse.facts_at));
    let set = |items: &Vec<_>| items.iter().cloned().collect::<BTreeSet<_>>();
    assert_eq!(set(&fifo.predecessors), set(&reverse.predecessors));
    let evidence = |items: &Vec<TransferEvidence>| items.iter().cloned().collect::<BTreeSet<_>>();
    assert_eq!(evidence(&fifo.evidence), evidence(&reverse.evidence));
    let unsupported = |items: &Vec<UnsupportedFlow>| items.iter().cloned().collect::<BTreeSet<_>>();
    assert_eq!(unsupported(&fifo.unsupported), unsupported(&reverse.unsupported));
}

#[test]
fn ifds_k008_reference_equivalence() {
    let candidates = [
        edge(0, 1, EdgeKind::Normal),
        edge(0, 2, EdgeKind::Normal),
        edge(1, 2, EdgeKind::Normal),
        edge(2, 1, EdgeKind::LoopBack),
        edge(1, 3, EdgeKind::Normal),
        edge(2, 3, EdgeKind::Normal),
    ];
    for mask in 0usize..(1usize << candidates.len()) {
        let edges = candidates
            .iter()
            .enumerate()
            .filter(|(index, _)| mask & (1 << index) != 0)
            .map(|(_, edge)| edge.clone())
            .collect();
        let x = binding(0);
        let procedure = procedure(
            vec![
                ir_node(0, Operation::Entry),
                ir_node(
                    1,
                    Operation::Write {
                        target: x.clone(),
                        sources: Vec::new(),
                        definition: definition(1),
                    },
                ),
                ir_node(
                    2,
                    Operation::Write {
                        target: x.clone(),
                        sources: Vec::new(),
                        definition: definition(2),
                    },
                ),
                ir_node(3, Operation::Exit),
            ],
            edges,
            &[3],
        );
        let output = solve(&procedure, vec![Fact::Zero]);
        let reference = evaluate_reference(&procedure, &[vec![Fact::Zero]], 10_000).unwrap();
        assert!(
            reference.complete,
            "reference bound exhausted for mask {mask}"
        );
        assert_eq!(
            as_map(&output.facts_at),
            as_map(&reference.facts_at),
            "graph mask {mask}"
        );
    }
}

#[test]
fn ifds_k008_unsupported_preserves_independent_facts_and_edges() {
    let x = binding(0);
    let y = binding(1);
    let procedure = procedure(
        vec![
            ir_node(0, Operation::Entry),
            ir_node(
                1,
                Operation::UnknownEffect {
                    effect_kind: UnknownEffectKind::Value,
                    description: "unknown".into(),
                    inputs: Vec::new(),
                    result: None,
                    definition: None,
                    affected_places: vec![x],
                },
            ),
            ir_node(2, Operation::Exit),
            ir_node(3, Operation::Exit),
        ],
        vec![
            edge(0, 1, EdgeKind::Normal),
            edge(1, 2, EdgeKind::Normal),
            edge(
                1,
                3,
                EdgeKind::Call {
                    call_site: CallSiteId::new(snapshot(), 1),
                },
            ),
        ],
        &[2, 3],
    );
    let preserved = Fact::LastWrite {
        place: y,
        write: definition(10),
    };
    let affected = Fact::LastWrite {
        place: binding(0),
        write: definition(11),
    };
    let output = solve(
        &procedure,
        vec![Fact::Zero, preserved.clone(), affected.clone()],
    );

    assert!(facts_at(&output, &node(2)).contains(&Fact::Zero));
    assert!(facts_at(&output, &node(2)).contains(&preserved));
    assert!(!facts_at(&output, &node(2)).contains(&affected));
    assert!(!has_node(&output, &node(3)));
    assert!(output.unsupported.contains(&UnsupportedFlow::Operation {
        node: node(1),
        operation: UnsupportedTransferKind::UnknownEffect,
    }));
    assert!(
        output
            .unsupported
            .iter()
            .any(|frontier| matches!(frontier, UnsupportedFlow::Edge(_)))
    );
}

#[test]
fn ifds_k008_cancellation_returns_partial_result() {
    struct CancelAfterOne;
    impl SolverControl for CancelAfterOne {
        fn checkpoint(&self, counters: &SolverCounters) -> Option<SolverCancellation> {
            (counters.processed_path_edges >= 1).then(|| SolverCancellation {
                reason: "test cancellation".into(),
            })
        }
    }

    let procedure = procedure(
        vec![
            ir_node(0, Operation::Entry),
            ir_node(1, Operation::Join),
            ir_node(2, Operation::Exit),
        ],
        vec![edge(0, 1, EdgeKind::Normal), edge(1, 2, EdgeKind::Normal)],
        &[2],
    );
    let output = IntraproceduralSolver::new()
        .solve(
            SolverRequest {
                procedure: &procedure,
                entry_facts: vec![Fact::Zero],
                limits: limits(),
            },
            &CancelAfterOne,
        )
        .unwrap();

    assert_eq!(output.stats.processed_path_edges, 1);
    assert!(facts_at(&output, &node(1)).contains(&Fact::Zero));
    assert!(!has_node(&output, &node(2)));
    assert_eq!(
        output.termination,
        SolverTermination::Cancelled(SolverCancellation {
            reason: "test cancellation".into(),
        })
    );
}

#[test]
fn ifds_k009_unknown_call_boundary() {
    let x = binding(0);
    let call_result = Place::Temporary(node(2));
    let write = definition(1);
    let procedure = procedure(
        vec![
            ir_node(0, Operation::Entry),
            ir_node(
                1,
                Operation::Write {
                    target: x.clone(),
                    sources: Vec::new(),
                    definition: write.clone(),
                },
            ),
            ir_node(
                2,
                Operation::Call {
                    call_site: CallSiteId::new(snapshot(), 2),
                    arguments: vec![x.clone()],
                    result: Some(call_result.clone()),
                },
            ),
            ir_node(3, Operation::Exit),
        ],
        vec![
            edge(0, 1, EdgeKind::Normal),
            edge(1, 2, EdgeKind::Normal),
            edge(2, 3, EdgeKind::Normal),
        ],
        &[3],
    );
    let output = solve(&procedure, vec![Fact::Zero]);

    let known_prefix = Fact::LastWrite { place: x, write };
    assert!(facts_at(&output, &node(2)).contains(&known_prefix));
    assert!(facts_at(&output, &node(3)).contains(&known_prefix));
    assert!(facts_at(&output, &node(3)).iter().all(|fact| match fact {
        Fact::LastWrite { place, .. } | Fact::Origin { place, .. } => place != &call_result,
        Fact::Zero => true,
    }));
    assert!(output.diagnostics.iter().any(|diagnostic| {
        diagnostic.code == DiagnosticCode::UnresolvedCall
            && diagnostic.snapshot == Some(snapshot())
            && diagnostic.frontier == Some(node(2))
            && diagnostic.affected_flows.iter().any(|flow| flow == "downstream")
    }));
    assert!(output.unknown_frontiers.contains(&UnknownFrontier {
        node: node(2),
        next_operation: "unresolved call".into(),
        diagnostic: DiagnosticCode::UnresolvedCall,
        affected_direction: Direction::Downstream,
    }));
    let region = AnalysisRegion {
        name: "procedure".into(),
        direction: Direction::Downstream,
    };
    assert_eq!(
        output
            .region_completeness
            .iter()
            .find(|(candidate, _)| candidate == &region)
            .map(|(_, coverage)| *coverage),
        Some(Coverage::Partial)
    );
}

#[test]
fn ifds_k009_deterministic_budget() {
    let procedure = procedure(
        vec![
            ir_node(0, Operation::Entry),
            ir_node(1, Operation::Join),
            ir_node(2, Operation::Exit),
        ],
        vec![edge(0, 1, EdgeKind::Normal), edge(1, 2, EdgeKind::Normal)],
        &[2],
    );
    let mut edge_limits = limits();
    edge_limits.processed_path_edges = 1;
    let edge_output = IntraproceduralSolver::new()
        .solve(
            SolverRequest {
                procedure: &procedure,
                entry_facts: vec![Fact::Zero],
                limits: edge_limits,
            },
            &NoopSolverControl,
        )
        .unwrap();
    assert_eq!(edge_output.stats.processed_path_edges, 1);
    assert!(has_node(&edge_output, &node(1)));
    assert!(!has_node(&edge_output, &node(2)));
    assert_eq!(
        edge_output.termination,
        SolverTermination::LimitExceeded(LimitReason {
            kind: AnalysisLimitKind::ProcessedPathEdges,
            limit: 1,
            observed: 1,
        })
    );

    struct TickingClock(Cell<u64>);
    impl SolverControl for TickingClock {
        fn checkpoint(&self, _counters: &SolverCounters) -> Option<SolverCancellation> {
            None
        }

        fn elapsed_ms(&self) -> u64 {
            let now = self.0.get();
            self.0.set(now + 1);
            now
        }
    }
    let mut time_limits = limits();
    time_limits.time_ms = 2;
    let time_output = IntraproceduralSolver::new()
        .solve(
            SolverRequest {
                procedure: &procedure,
                entry_facts: vec![Fact::Zero],
                limits: time_limits,
            },
            &TickingClock(Cell::new(0)),
        )
        .unwrap();
    assert_eq!(
        time_output.termination,
        SolverTermination::LimitExceeded(LimitReason {
            kind: AnalysisLimitKind::Time,
            limit: 2,
            observed: 2,
        })
    );

    struct FixedMemory;
    impl SolverControl for FixedMemory {
        fn checkpoint(&self, _counters: &SolverCounters) -> Option<SolverCancellation> {
            None
        }

        fn memory_bytes(&self, _counters: &SolverCounters) -> u64 {
            512
        }
    }
    let mut memory_limits = limits();
    memory_limits.memory_bytes = 512;
    let memory_output = IntraproceduralSolver::new()
        .solve(
            SolverRequest {
                procedure: &procedure,
                entry_facts: vec![Fact::Zero],
                limits: memory_limits,
            },
            &FixedMemory,
        )
        .unwrap();
    assert_eq!(
        memory_output.termination,
        SolverTermination::LimitExceeded(LimitReason {
            kind: AnalysisLimitKind::Memory,
            limit: 512,
            observed: 512,
        })
    );
    assert_eq!(memory_output.stats.peak_memory_bytes, 512);
}

#[test]
fn invalid_procedure_is_refused() {
    let procedure = procedure(
        vec![ir_node(0, Operation::Join), ir_node(1, Operation::Exit)],
        vec![edge(0, 1, EdgeKind::Normal)],
        &[1],
    );
    let result = IntraproceduralSolver::new().solve(
        SolverRequest {
            procedure: &procedure,
            entry_facts: vec![Fact::Zero],
            limits: limits(),
        },
        &NoopSolverControl,
    );
    assert!(result.is_err());
}

#[test]
fn branch_paths_start_at_the_entry_and_stop_past_the_bound() {
    let procedure = procedure(
        vec![
            ir_node(0, Operation::Entry),
            ir_node(1, Operation::Join),
            ir_node(2, Operation::Exit),
        ],
        vec![edge(0, 1, EdgeKind::Normal), edge(1, 2, EdgeKind::Normal)],
        &[2],
    );
    let paths = BranchPaths::build(&procedure, vec![Fact::Zero], 10);
    assert_eq!(paths.at[0].0, node(0));
    assert_eq!(paths.at[0].1[0].facts, vec![Fact::Zero]);
    assert!(paths.at[0].1[0].labels.is_empty());
    assert!(!paths.truncated);
    assert_eq!(paths.at.iter().map(|(_, states)| states.len()).sum::<usize>(), 3);
    let bounded = BranchPaths::build(&procedure, vec![Fact::Zero], 1);
    assert!(bounded.truncated);
    assert_eq!(bounded.at.iter().map(|(_, states)| states.len()).sum::<usize>(), 2);
}
