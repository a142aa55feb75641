use repo_memory::ifds::ir::{
    ComputeInput, ComputeInputRole, IrNode, LiteralKind, Operation, PrimitiveOperator,
    ProcedureIr, ProcedureParameter,
};
use repo_memory::ifds::model::{
    BindingId, CallSiteId, DefinitionId, Fact, NodeId, Place, ProcedureId, SnapshotId,
    SnapshotSide, Source, SourceSpan,
};
use repo_memory::ifds::provenance::{
    seed_entry_facts, transfer_evidence, transfer_operation, FlowFunction, ProcedureFlowFunctions,
    TransferEvidence, TransferOutcome, UnsupportedTransferKind,
};
use repo_memory::ifds::fixtures::is_distributive;
use std::collections::BTreeSet;

fn snapshot() -> SnapshotId {
    SnapshotId {
        side: SnapshotSide::Before,
        revision: "k007".into(),
        content_id: "k007-content".into(),
    }
}

fn node(local: u64) -> NodeId {
    NodeId::new(snapshot(), local)
}

fn definition(local: u64) -> DefinitionId {
    DefinitionId::new(snapshot(), local)
}

fn binding(local: u64) -> Place {
    Place::Binding(BindingId::new(snapshot(), local))
}

fn temporary(local: u64) -> Place {
    Place::Temporary(node(local))
}

fn span() -> SourceSpan {
    SourceSpan {
        path: "test.ts".into(),
        byte_start: 0,
        byte_end: 1,
        start_line: 1,
        end_line: 1,
    }
}

fn apply(operation: &Operation, facts: &BTreeSet<Fact>) -> BTreeSet<Fact> {
    facts
        .iter()
        .flat_map(|fact| transfer_operation(operation, fact).into_facts())
        .collect()
}

fn write(target: Place, sources: Vec<Place>, local: u64) -> Operation {
    Operation::Write {
        target,
        sources,
        definition: definition(local),
    }
}

#[test]
fn ifds_k007_zero_generates_literal() {
    let result = temporary(1);
    let operation = Operation::Literal {
        definition: definition(10),
        literal_kind: LiteralKind::Number,
        raw: "10".into(),
        cooked: None,
        result: result.clone(),
    };
    assert_eq!(
        apply(&operation, &BTreeSet::from([Fact::Zero])),
        BTreeSet::from([
            Fact::Zero,
            Fact::LastWrite {
                place: result.clone(),
                write: definition(10),
            },
            Fact::Origin {
                place: result,
                source: Source::Write(definition(10)),
            },
        ])
    );
    assert!(apply(&operation, &BTreeSet::new()).is_empty());
}

#[test]
fn ifds_k007_overwrite_kills_one_place() {
    let x = binding(1);
    let y = binding(2);
    let incoming = BTreeSet::from([
        Fact::Zero,
        Fact::LastWrite {
            place: x.clone(),
            write: definition(1),
        },
        Fact::Origin {
            place: x.clone(),
            source: Source::Write(definition(1)),
        },
        Fact::LastWrite {
            place: y.clone(),
            write: definition(2),
        },
        Fact::Origin {
            place: y.clone(),
            source: Source::Write(definition(2)),
        },
    ]);
    let outgoing = apply(&write(x.clone(), vec![], 3), &incoming);
    assert!(outgoing.contains(&Fact::LastWrite {
        place: x.clone(),
        write: definition(3),
    }));
    assert!(outgoing.contains(&Fact::Origin {
        place: x.clone(),
        source: Source::Write(definition(3)),
    }));
    assert!(!outgoing.contains(&Fact::LastWrite {
        place: x,
        write: definition(1),
    }));
    assert!(outgoing.contains(&Fact::LastWrite {
        place: y.clone(),
        write: definition(2),
    }));
    assert!(outgoing.contains(&Fact::Origin {
        place: y,
        source: Source::Write(definition(2)),
    }));
}

#[test]
fn ifds_k007_copy_survives_overwrite() {
    let x = binding(1);
    let y = binding(2);
    let read_result = temporary(20);
    let mut facts = BTreeSet::from([Fact::Zero]);
    facts = apply(&write(x.clone(), vec![], 10), &facts);
    facts = apply(
        &Operation::Read {
            source: x.clone(),
            result: read_result.clone(),
        },
        &facts,
    );
    facts = apply(&write(y.clone(), vec![read_result], 11), &facts);
    facts = apply(&write(x, vec![], 12), &facts);

    assert!(facts.contains(&Fact::LastWrite {
        place: y.clone(),
        write: definition(11),
    }));
    assert!(facts.contains(&Fact::Origin {
        place: y.clone(),
        source: Source::Write(definition(10)),
    }));
    assert!(facts.contains(&Fact::Origin {
        place: y.clone(),
        source: Source::Write(definition(11)),
    }));
    assert!(!facts.contains(&Fact::Origin {
        place: y,
        source: Source::Write(definition(12)),
    }));
}

#[test]
fn ifds_k007_self_assignment_origins() {
    let x = binding(1);
    let old_x = temporary(20);
    let one = temporary(21);
    let sum = temporary(22);
    let mut facts = apply(&write(x.clone(), vec![], 10), &BTreeSet::from([Fact::Zero]));
    facts = apply(
        &Operation::Read {
            source: x.clone(),
            result: old_x.clone(),
        },
        &facts,
    );
    facts = apply(
        &Operation::Literal {
            definition: definition(11),
            literal_kind: LiteralKind::Number,
            raw: "1".into(),
            cooked: None,
            result: one.clone(),
        },
        &facts,
    );
    facts = apply(
        &Operation::Compute {
            definition: definition(12),
            inputs: vec![
                ComputeInput {
                    place: old_x,
                    role: ComputeInputRole::Operand { index: 0 },
                    span: span(),
                },
                ComputeInput {
                    place: one,
                    role: ComputeInputRole::Operand { index: 1 },
                    span: span(),
                },
            ],
            result: sum.clone(),
            operator: PrimitiveOperator::Add,
        },
        &facts,
    );
    facts = apply(&write(x.clone(), vec![sum], 13), &facts);

    for origin in [10, 11, 12, 13] {
        assert!(facts.contains(&Fact::Origin {
            place: x.clone(),
            source: Source::Write(definition(origin)),
        }));
    }
    assert!(facts.contains(&Fact::LastWrite {
        place: x,
        write: definition(13),
    }));
}

#[test]
fn ifds_k007_parameter_seeding() {
    let entry = node(1);
    let exit = node(2);
    let first = BindingId::new(snapshot(), 1);
    let second = BindingId::new(snapshot(), 2);
    let procedure = ProcedureIr {
        id: ProcedureId::new(snapshot(), 0),
        parameters: vec![
            ProcedureParameter {
                index: 0,
                binding: first.clone(),
                entry_definition: definition(100),
            },
            ProcedureParameter {
                index: 1,
                binding: second.clone(),
                entry_definition: definition(101),
            },
        ],
        entry: entry.clone(),
        exits: vec![exit.clone()],
        nodes: vec![
            IrNode {
                id: entry,
                operation: Operation::Entry,
                span: None,
            },
            IrNode {
                id: exit,
                operation: Operation::Exit,
                span: None,
            },
        ],
        edges: Vec::new(),
    };
    procedure.validate().unwrap();
    let facts = seed_entry_facts(&procedure);
    for (binding, definition) in [(&first, 100), (&second, 101)] {
        let place = Place::Binding(binding.clone());
        assert!(facts.contains(&Fact::LastWrite {
            place: place.clone(),
            write: self::definition(definition),
        }));
        assert!(facts.contains(&Fact::Origin {
            place: place.clone(),
            source: Source::ParameterEntry(self::definition(definition)),
        }));
        assert!(facts.contains(&Fact::Origin {
            place,
            source: Source::FunctionInput(binding.clone()),
        }));
    }
    assert!(!facts.contains(&Fact::Origin {
        place: Place::Binding(first),
        source: Source::FunctionInput(second),
    }));
}

#[test]
fn ifds_k007_finite_static_ids() {
    let operation = write(binding(1), vec![], 10);
    let once = apply(&operation, &BTreeSet::from([Fact::Zero]));
    let twice = apply(&operation, &once);
    assert_eq!(once, twice);
    assert_eq!(
        twice
            .iter()
            .filter(|fact| matches!(fact, Fact::LastWrite { .. }))
            .count(),
        1
    );
}

#[test]
fn ifds_k007_read_evidence_is_separate_from_facts() {
    let source = binding(1);
    let result = temporary(20);
    let operation = Operation::Read {
        source: source.clone(),
        result: result.clone(),
    };
    let fact = Fact::LastWrite {
        place: source.clone(),
        write: definition(10),
    };
    let transferred = transfer_operation(&operation, &fact).into_facts();
    assert!(!transferred.contains(&Fact::LastWrite {
        place: result,
        write: definition(10),
    }));
    assert_eq!(
        transfer_evidence(&node(30), &operation, &fact),
        vec![TransferEvidence::ReachingWrite {
            write: definition(10),
            read: node(30),
            place: source,
        }]
    );
}

#[test]
fn ifds_k007_unsupported_transfer_is_explicit() {
    let source = binding(1);
    let result = temporary(20);
    let fact = Fact::Origin {
        place: source.clone(),
        source: Source::Write(definition(10)),
    };
    let operation = Operation::Call {
        call_site: CallSiteId::new(snapshot(), 1),
        arguments: vec![source],
        result: Some(result),
    };
    assert_eq!(
        transfer_operation(&operation, &fact),
        TransferOutcome::Unsupported {
            preserved: vec![fact],
            operation: UnsupportedTransferKind::Call,
        }
    );
}

#[test]
fn transfer_of_a_union_is_the_union_of_transfers() {
    let source = binding(1);
    let target = binding(2);
    let left = BTreeSet::from([
        Fact::Zero,
        Fact::Origin {
            place: source.clone(),
            source: Source::Write(definition(1)),
        },
    ]);
    let right = BTreeSet::from([Fact::Origin {
        place: target.clone(),
        source: Source::Write(definition(2)),
    }]);
    let operation = write(target, vec![source], 3);
    let union: BTreeSet<Fact> = left.union(&right).cloned().collect();
    let separately: BTreeSet<Fact> = apply(&operation, &left)
        .union(&apply(&operation, &right))
        .cloned()
        .collect();
    assert_eq!(apply(&operation, &union), separately);
}

#[test]
fn ifds_k007_distributivity() {
    let source = binding(1);
    let target = binding(2);
    let result = temporary(20);
    let domain = vec![
        Fact::Zero,
        Fact::LastWrite {
            place: source.clone(),
            write: definition(1),
        },
        Fact::Origin {
            place: source.clone(),
            source: Source::Write(definition(1)),
        },
        Fact::Origin {
            place: target.clone(),
            source: Source::Write(definition(2)),
        },
    ];
    let operations = [
        Operation::Read {
            source: source.clone(),
            result: result.clone(),
        },
        write(target, vec![source.clone()], 3),
        Operation::Literal {
            definition: definition(4),
            literal_kind: LiteralKind::Number,
            raw: "1".into(),
            cooked: None,
            result: result.clone(),
        },
        Operation::Compute {
            definition: definition(5),
            inputs: vec![ComputeInput {
                place: source,
                role: ComputeInputRole::Operand { index: 0 },
                span: span(),
            }],
            result,
            operator: PrimitiveOperator::UnaryPlus,
        },
        Operation::Join,
    ];
    for operation in operations {
        assert!(
            is_distributive(&domain, |facts: &Vec<Fact>| {
                apply(&operation, &facts.iter().cloned().collect())
                    .into_iter()
                    .collect()
            }),
            "operation was not distributive: {operation:?}"
        );
    }
}

#[test]
fn flow_functions_transfer_by_node() {
    let x = binding(1);
    let procedure = ProcedureIr {
        id: ProcedureId::new(snapshot(), 0),
        parameters: Vec::new(),
        entry: node(1),
        exits: vec![node(3)],
        nodes: vec![
            IrNode { id: node(1), operation: Operation::Entry, span: None },
            IrNode { id: node(2), operation: write(x.clone(), vec![], 10), span: Some(span()) },
            IrNode {
                id: node(4),
                operation: Operation::Read { source: x.clone(), result: temporary(4) },
                span: Some(span()),
            },
            IrNode { id: node(3), operation: Operation::Exit, span: None },
        ],
        edges: Vec::new(),
    };
    let flows = ProcedureFlowFunctions::new(&procedure);
    let after_write: BTreeSet<Fact> = flows.transfer(&node(2), &Fact::Zero).into_facts().into_iter().collect();
    assert!(after_write.contains(&Fact::LastWrite { place: x.clone(), write: definition(10) }));
    assert!(after_write.contains(&Fact::Zero));
    let fact = Fact::LastWrite { place: x.clone(), write: definition(10) };
    let evidence = flows.evidence(&node(4), &fact);
    assert_eq!(evidence.len(), 1);
    assert!(FlowFunction::evidence(&flows, &node(2), &Fact::Zero).is_empty());
}
