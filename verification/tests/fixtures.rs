use repo_memory::ifds::fixtures::{evaluate_reference, FixtureError};
use repo_memory::ifds::ir::{EdgeKind, IrEdge, IrNode, Operation, ProcedureIr};
use repo_memory::ifds::model::{
    BindingId, CallSiteId, DefinitionId, Fact, NodeId, Place, ProcedureId, SnapshotId,
    SnapshotSide, Source,
};
use std::collections::{BTreeMap, BTreeSet};

fn snapshot() -> SnapshotId {
    SnapshotId {
        side: SnapshotSide::Before,
        revision: "r".into(),
        content_id: "c".into(),
    }
}
fn node(local: u64) -> NodeId {
    NodeId::new(snapshot(), local)
}
fn place(local: u64) -> Place {
    Place::Binding(BindingId::new(snapshot(), local))
}
fn definition(local: u64) -> DefinitionId {
    DefinitionId::new(snapshot(), local)
}
fn tiny_ir() -> ProcedureIr {
    let nodes = [
        (1, Operation::Entry),
        (
            2,
            Operation::Write {
                target: place(1),
                sources: Vec::new(),
                definition: definition(1),
            },
        ),
        (
            3,
            Operation::Read {
                source: place(1),
                result: Place::Temporary(node(3)),
            },
        ),
        (
            4,
            Operation::Write {
                target: place(1),
                sources: Vec::new(),
                definition: definition(2),
            },
        ),
        (5, Operation::Exit),
    ]
    .into_iter()
    .map(|(local, operation)| IrNode {
        id: node(local),
        operation,
        span: None,
    })
    .collect();
    let edges = (1..5)
        .map(|local| IrEdge {
            source: node(local),
            target: node(local + 1),
            kind: EdgeKind::Normal,
            construct: None,
            assumption: None,
        })
        .collect();
    ProcedureIr {
        id: ProcedureId::new(snapshot(), 1),
        parameters: Vec::new(),
        entry: node(1),
        exits: vec![node(5)],
        nodes,
        edges,
    }
}

fn as_map(facts_at: &[(NodeId, Vec<Fact>)]) -> BTreeMap<NodeId, BTreeSet<Fact>> {
    facts_at
        .iter()
        .map(|(node, facts)| (node.clone(), facts.iter().cloned().collect()))
        .collect()
}

#[test]
fn ifds_k003_tiny_reference_evaluator() {
    let result = evaluate_reference(&tiny_ir(), &[vec![Fact::Zero]], 100).unwrap();
    assert!(result.complete);
    let facts_at = as_map(&result.facts_at);
    let at_read_successor = &facts_at[&node(4)];
    assert!(!at_read_successor.contains(&Fact::LastWrite {
        place: Place::Temporary(node(3)),
        write: definition(1)
    }));
    assert!(at_read_successor.contains(&Fact::Origin {
        place: Place::Temporary(node(3)),
        source: Source::Write(definition(1))
    }));
    let at_exit = &facts_at[&node(5)];
    assert!(at_exit.contains(&Fact::LastWrite {
        place: place(1),
        write: definition(2)
    }));
    assert!(!at_exit.contains(&Fact::LastWrite {
        place: place(1),
        write: definition(1)
    }));
}

#[test]
fn ifds_k003_bounded_oracle_is_honest() {
    let exact = evaluate_reference(&tiny_ir(), &[vec![Fact::Zero]], 100).unwrap();
    assert!(exact.complete);
    let bounded = evaluate_reference(&tiny_ir(), &[vec![Fact::Zero]], 2).unwrap();
    assert!(!bounded.complete);
    assert_eq!(bounded.processed_states, 2);
    assert!(
        !as_map(&bounded.facts_at).contains_key(&node(5)),
        "an incomplete run must not invent absence evidence at an unvisited exit"
    );
}

#[test]
fn reference_evaluator_refuses_calls_and_invalid_ir() {
    let mut with_call = tiny_ir();
    with_call.nodes[2].operation = Operation::Call {
        call_site: CallSiteId::new(snapshot(), 1),
        arguments: vec![place(1)],
        result: None,
    };
    assert!(matches!(
        evaluate_reference(&with_call, &[vec![Fact::Zero]], 100),
        Err(FixtureError::Invalid(_))
    ));
    let mut invalid = tiny_ir();
    invalid.entry = node(9);
    assert!(matches!(
        evaluate_reference(&invalid, &[vec![Fact::Zero]], 100),
        Err(FixtureError::Invalid(_))
    ));
}

#[test]
fn reference_evaluator_unions_entry_states() {
    let extra = Fact::Origin {
        place: place(7),
        source: Source::Write(definition(9)),
    };
    let result = evaluate_reference(&tiny_ir(), &[vec![Fact::Zero], vec![extra.clone()]], 100).unwrap();
    assert!(result.complete);
    let facts_at = as_map(&result.facts_at);
    assert!(facts_at[&node(5)].contains(&extra));
    assert!(facts_at[&node(5)].contains(&Fact::Zero));
    assert_eq!(result.processed_states, 10);
}

#[test]
fn ifds_k003_distributivity_harness() {
    let domain: Vec<i32> = vec![1, 2];
    assert!(repo_memory::ifds::fixtures::is_distributive(&domain, |facts: &Vec<i32>| facts.clone()));
    assert!(!repo_memory::ifds::fixtures::is_distributive(&domain, |facts: &Vec<i32>| {
        if facts.contains(&1) && facts.contains(&2) {
            vec![1]
        } else {
            Vec::new()
        }
    }));
}

#[test]
fn distributivity_is_checked_on_every_pair_of_subsets() {
    let domain: Vec<i32> = vec![1, 2, 3];
    assert!(repo_memory::ifds::fixtures::is_distributive(&domain, |facts: &Vec<i32>| {
        facts.iter().map(|value| value * 10).collect::<Vec<i32>>()
    }));
    assert!(!repo_memory::ifds::fixtures::is_distributive(&domain, |facts: &Vec<i32>| {
        if facts.contains(&1) && facts.contains(&3) {
            vec![7]
        } else {
            facts.clone()
        }
    }));
    let wide: Vec<i32> = (0..64).collect();
    assert!(!repo_memory::ifds::fixtures::is_distributive(&wide, |facts: &Vec<i32>| facts.clone()));
}
