//! Finite reaching-definition and origin transfer functions.
use vstd::prelude::*;
use crate::ifds::ir::{ComputeInput, Operation, ProcedureIr, find_node, has_node};
use crate::ifds::model::{
    DefinitionId, Fact, FactView, LocalIdView, NodeId, Place, PlaceView, Source, SourceView,
};

verus! {

#[derive(Debug, Clone, Copy, PartialEq, Eq, PartialOrd, Ord, Structural)]
pub enum UnsupportedTransferKind {
    Call,
    UnknownEffect,
}

/// The facts after one operation, and whether the operation is modeled only
/// conservatively (its unaffected facts are preserved).
#[derive(Debug, Clone, PartialEq, Eq)]
pub enum TransferOutcome {
    Supported(Vec<Fact>),
    Unsupported { preserved: Vec<Fact>, operation: UnsupportedTransferKind },
}

/// The set of fact values a list holds.
pub open spec fn facts_view(v: Seq<Fact>) -> Set<FactView> {
    Set::new(|x: FactView| exists|i: int| 0 <= i < v.len() && v[i]@ == x)
}

/// The set of place values a list holds.
pub open spec fn places_view(v: Seq<Place>) -> Set<PlaceView> {
    Set::new(|x: PlaceView| exists|i: int| 0 <= i < v.len() && v[i]@ == x)
}

/// The set of place values the inputs of an operation hold.
pub open spec fn input_places_view(v: Seq<ComputeInput>) -> Set<PlaceView> {
    Set::new(|x: PlaceView| exists|i: int| 0 <= i < v.len() && v[i].place@ == x)
}

/// The place a fact is about, if any.
pub open spec fn fact_place(f: FactView) -> Option<PlaceView> {
    match f {
        FactView::Zero => None,
        FactView::LastWrite { place, .. } => Some(place),
        FactView::Origin { place, .. } => Some(place),
    }
}

/// Keeps a fact unless it describes `killed`.
pub open spec fn keep_unless(f: FactView, killed: PlaceView) -> Set<FactView> {
    if fact_place(f) == Some(killed) {
        Set::empty()
    } else {
        set![f]
    }
}

/// A read copies origins of `source` to `result` and overwrites `result`.
pub open spec fn read_transfer(source: PlaceView, result: PlaceView, f: FactView) -> Set<FactView> {
    keep_unless(f, result).union(
        match f {
            FactView::Origin { place, source: origin } => if place == source {
                set![FactView::Origin { place: result, source: origin }]
            } else {
                Set::empty()
            },
            _ => Set::empty(),
        },
    )
}

/// A definition of `target` from `sources`: the zero fact generates the new
/// last write and its own origin, facts about `target` are killed, and
/// origins of every source flow into `target`.
pub open spec fn definition_transfer(
    target: PlaceView,
    sources: Set<PlaceView>,
    definition: LocalIdView,
    f: FactView,
) -> Set<FactView> {
    if f == FactView::Zero {
        set![
            FactView::Zero,
            FactView::LastWrite { place: target, write: definition },
            FactView::Origin { place: target, source: SourceView::Write(definition) },
        ]
    } else {
        keep_unless(f, target).union(
            match f {
                FactView::Origin { place, source } => if sources.contains(place) {
                    set![FactView::Origin { place: target, source }]
                } else {
                    Set::empty()
                },
                _ => Set::empty(),
            },
        )
    }
}

/// An operation whose effects are unknown drops every fact about an affected
/// place and preserves all others.
pub open spec fn preserve_transfer(f: FactView, killed: Set<PlaceView>) -> Set<FactView> {
    match fact_place(f) {
        Some(p) => if killed.contains(p) {
            Set::empty()
        } else {
            set![f]
        },
        None => set![f],
    }
}

/// The optional place as a set.
pub open spec fn option_place(p: Option<Place>) -> Set<PlaceView> {
    match p {
        Some(q) => set![q@],
        None => Set::empty(),
    }
}

/// The facts one operation produces from one incoming fact.
pub open spec fn transfer_spec(op: Operation, f: FactView) -> Set<FactView> {
    match op {
        Operation::Read { source, result } => read_transfer(source@, result@, f),
        Operation::Write { target, sources, definition } => definition_transfer(
            target@,
            places_view(sources@),
            definition@,
            f,
        ),
        Operation::Literal { definition, result, .. } => definition_transfer(
            result@,
            Set::empty(),
            definition@,
            f,
        ),
        Operation::Compute { definition, inputs, result, .. } => definition_transfer(
            result@,
            input_places_view(inputs@),
            definition@,
            f,
        ),
        Operation::Call { result, .. } => preserve_transfer(f, option_place(result)),
        Operation::UnknownEffect { result, affected_places, .. } => preserve_transfer(
            f,
            option_place(result).union(places_view(affected_places@)),
        ),
        _ => set![f],
    }
}

/// The facts one operation produces from a set of incoming facts: the union
/// of the per-fact transfers.
pub open spec fn transfer_set(op: Operation, facts: Set<FactView>) -> Set<FactView> {
    Set::new(|g: FactView| exists|f: FactView| facts.contains(f) && #[trigger] transfer_spec(op, f).contains(g))
}

/// Which operations are only conservatively modeled.
pub open spec fn unsupported_kind_spec(op: Operation) -> Option<UnsupportedTransferKind> {
    match op {
        Operation::Call { .. } => Some(UnsupportedTransferKind::Call),
        Operation::UnknownEffect { .. } => Some(UnsupportedTransferKind::UnknownEffect),
        _ => None,
    }
}

impl TransferOutcome {
    pub open spec fn facts_spec(self) -> Seq<Fact> {
        match self {
            TransferOutcome::Supported(facts) => facts@,
            TransferOutcome::Unsupported { preserved, .. } => preserved@,
        }
    }

    pub fn facts(&self) -> (res: &Vec<Fact>)
        ensures
            res@ == self.facts_spec(),
    {
        match self {
            TransferOutcome::Supported(facts) => facts,
            TransferOutcome::Unsupported { preserved, .. } => preserved,
        }
    }

    pub fn into_facts(self) -> (res: Vec<Fact>)
        ensures
            res@ == self.facts_spec(),
    {
        match self {
            TransferOutcome::Supported(facts) => facts,
            TransferOutcome::Unsupported { preserved, .. } => preserved,
        }
    }
}

/// Whether a list contains a fact with the given value.
pub fn contains_fact(facts: &Vec<Fact>, fact: &Fact) -> (res: bool)
    ensures
        res == facts_view(facts@).contains(fact@),
{
    let mut i: usize = 0;
    while i < facts.len()
        invariant
            i <= facts.len(),
            forall|j: int| 0 <= j < i ==> (#[trigger] facts@[j])@ != fact@,
        decreases facts.len() - i,
    {
        if facts[i].same(fact) {
            return true;
        }
        i = i + 1;
    }
    false
}

/// Adds a fact unless a fact with the same value is present; reports whether
/// it was added.
pub fn insert_fact(facts: &mut Vec<Fact>, fact: Fact) -> (added: bool)
    ensures
        facts_view(final(facts)@) == facts_view(old(facts)@).insert(fact@),
        added == !facts_view(old(facts)@).contains(fact@),
        added ==> final(facts)@ == old(facts)@.push(fact),
        !added ==> final(facts)@ == old(facts)@,
{
    if contains_fact(facts, &fact) {
        proof {
            assert(facts_view(facts@) =~= facts_view(facts@).insert(fact@));
        }
        false
    } else {
        let ghost before = facts@;
        facts.push(fact);
        proof {
            assert forall|x: FactView| facts_view(facts@).contains(x) == facts_view(before).insert(
                fact@,
            ).contains(x) by {
                if facts_view(before).contains(x) {
                    let i = choose|i: int| 0 <= i < before.len() && before[i]@ == x;
                    assert(facts@[i]@ == x);
                }
                if x == fact@ {
                    assert(facts@[before.len() as int]@ == x);
                }
            }
            assert(facts_view(facts@) =~= facts_view(before).insert(fact@));
        }
        true
    }
}

fn contains_place(places: &Vec<Place>, place: &Place) -> (res: bool)
    ensures
        res == places_view(places@).contains(place@),
{
    let mut i: usize = 0;
    while i < places.len()
        invariant
            i <= places.len(),
            forall|j: int| 0 <= j < i ==> (#[trigger] places@[j])@ != place@,
        decreases places.len() - i,
    {
        if places[i].same(place) {
            return true;
        }
        i = i + 1;
    }
    false
}

fn inputs_contain_place(inputs: &Vec<ComputeInput>, place: &Place) -> (res: bool)
    ensures
        res == input_places_view(inputs@).contains(place@),
{
    let mut i: usize = 0;
    while i < inputs.len()
        invariant
            i <= inputs.len(),
            forall|j: int| 0 <= j < i ==> (#[trigger] inputs@[j]).place@ != place@,
        decreases inputs.len() - i,
    {
        if inputs[i].place.same(place) {
            return true;
        }
        i = i + 1;
    }
    false
}

pub fn fact_place_of(fact: &Fact) -> (res: Option<&Place>)
    ensures
        match res {
            Some(p) => fact_place(fact@) == Some(p@),
            None => fact_place(fact@) is None,
        },
{
    match fact {
        Fact::LastWrite { place, .. } => Some(place),
        Fact::Origin { place, .. } => Some(place),
        Fact::Zero => None,
    }
}

fn is_about(fact: &Fact, place: &Place) -> (res: bool)
    ensures
        res == (fact_place(fact@) == Some(place@)),
{
    match fact_place_of(fact) {
        Some(p) => p.same(place),
        None => false,
    }
}

fn transfer_read(source: &Place, result: &Place, fact: &Fact) -> (res: Vec<Fact>)
    ensures
        facts_view(res@) == read_transfer(source@, result@, fact@),
{
    let mut out: Vec<Fact> = Vec::new();
    if !is_about(fact, result) {
        out.push(fact.clone());
    }
    let ghost kept = out@;
    if let Fact::Origin { place, source: origin } = fact {
        if place.same(source) {
            out.push(Fact::Origin { place: result.clone(), source: origin.clone() });
        }
    }
    proof {
        let target = read_transfer(source@, result@, fact@);
        assert forall|x: FactView| facts_view(out@).contains(x) == target.contains(x) by {
            if target.contains(x) {
                if keep_unless(fact@, result@).contains(x) {
                    assert(out@[0]@ == x);
                } else {
                    assert(out@[out@.len() - 1]@ == x);
                }
            }
        }
        assert(facts_view(out@) =~= target);
    }
    out
}

/// The transfer of a definition of `target`; `is_source` tells whether a
/// place is one of the definition's sources.
fn transfer_definition(
    target: &Place,
    sources: Ghost<Set<PlaceView>>,
    origin_flows: bool,
    definition: &DefinitionId,
    fact: &Fact,
) -> (res: Vec<Fact>)
    requires
        fact matches Fact::Origin { place, .. } ==> origin_flows == sources@.contains(place@),
    ensures
        facts_view(res@) == definition_transfer(target@, sources@, definition@, fact@),
{
    let mut out: Vec<Fact> = Vec::new();
    if let Fact::Zero = fact {
        out.push(Fact::Zero);
        out.push(Fact::LastWrite { place: target.clone(), write: definition.clone() });
        out.push(
            Fact::Origin { place: target.clone(), source: Source::Write(definition.clone()) },
        );
        proof {
            let t = definition_transfer(target@, sources@, definition@, fact@);
            assert forall|x: FactView| facts_view(out@).contains(x) == t.contains(x) by {
                if t.contains(x) {
                    if x == FactView::Zero {
                        assert(out@[0]@ == x);
                    } else if x is LastWrite {
                        assert(out@[1]@ == x);
                    } else {
                        assert(out@[2]@ == x);
                    }
                }
            }
            assert(facts_view(out@) =~= t);
        }
        return out;
    }
    if !is_about(fact, target) {
        out.push(fact.clone());
    }
    if let Fact::Origin { place: _, source } = fact {
        if origin_flows {
            out.push(Fact::Origin { place: target.clone(), source: source.clone() });
        }
    }
    proof {
        let t = definition_transfer(target@, sources@, definition@, fact@);
        assert forall|x: FactView| facts_view(out@).contains(x) == t.contains(x) by {
            if t.contains(x) {
                if keep_unless(fact@, target@).contains(x) {
                    assert(out@[0]@ == x);
                } else {
                    assert(out@[out@.len() - 1]@ == x);
                }
            }
        }
        assert(facts_view(out@) =~= t);
    }
    out
}

fn preserve_unaffected(fact: &Fact, killed: bool, killed_set: Ghost<Set<PlaceView>>) -> (res: Vec<
    Fact,
>)
    requires
        killed == (fact_place(fact@) matches Some(p) && killed_set@.contains(p)),
    ensures
        facts_view(res@) == preserve_transfer(fact@, killed_set@),
{
    let mut out: Vec<Fact> = Vec::new();
    if !killed {
        out.push(fact.clone());
    }
    proof {
        let t = preserve_transfer(fact@, killed_set@);
        assert forall|x: FactView| facts_view(out@).contains(x) == t.contains(x) by {
            if t.contains(x) {
                assert(out@[0]@ == x);
            }
        }
        assert(facts_view(out@) =~= t);
    }
    out
}

fn option_place_contains(result: &Option<Place>, place: &Place) -> (res: bool)
    ensures
        res == option_place(*result).contains(place@),
{
    match result {
        Some(r) => r.same(place),
        None => false,
    }
}

/// The facts after `operation` from one incoming fact.
pub fn transfer_operation(operation: &Operation, fact: &Fact) -> (res: TransferOutcome)
    ensures
        facts_view(res.facts_spec()) == transfer_spec(*operation, fact@),
        match unsupported_kind_spec(*operation) {
            Some(kind) => res == TransferOutcome::Unsupported {
                preserved: res->preserved,
                operation: kind,
            },
            None => res is Supported,
        },
{
    match operation {
        Operation::Read { source, result } => TransferOutcome::Supported(
            transfer_read(source, result, fact),
        ),
        Operation::Write { target, sources, definition } => {
            let flows = match fact {
                Fact::Origin { place, .. } => contains_place(sources, place),
                _ => false,
            };
            TransferOutcome::Supported(
                transfer_definition(
                    target,
                    Ghost(places_view(sources@)),
                    flows,
                    definition,
                    fact,
                ),
            )
        },
        Operation::Literal { definition, result, .. } => TransferOutcome::Supported(
            transfer_definition(result, Ghost(Set::empty()), false, definition, fact),
        ),
        Operation::Compute { definition, inputs, result, .. } => {
            let flows = match fact {
                Fact::Origin { place, .. } => inputs_contain_place(inputs, place),
                _ => false,
            };
            TransferOutcome::Supported(
                transfer_definition(
                    result,
                    Ghost(input_places_view(inputs@)),
                    flows,
                    definition,
                    fact,
                ),
            )
        },
        Operation::Call { result, .. } => {
            let killed = match fact_place_of(fact) {
                Some(p) => option_place_contains(result, p),
                None => false,
            };
            TransferOutcome::Unsupported {
                preserved: preserve_unaffected(fact, killed, Ghost(option_place(*result))),
                operation: UnsupportedTransferKind::Call,
            }
        },
        Operation::UnknownEffect { result, affected_places, .. } => {
            let killed = match fact_place_of(fact) {
                Some(p) => option_place_contains(result, p) || contains_place(affected_places, p),
                None => false,
            };
            TransferOutcome::Unsupported {
                preserved: preserve_unaffected(
                    fact,
                    killed,
                    Ghost(option_place(*result).union(places_view(affected_places@))),
                ),
                operation: UnsupportedTransferKind::UnknownEffect,
            }
        },
        _ => {
            let out = vec![fact.clone()];
            proof {
                assert(facts_view(out@) =~= set![fact@]) by {
                    assert(out@[0]@ == fact@);
                }
            }
            TransferOutcome::Supported(out)
        },
    }
}

pub fn unsupported_kind(operation: &Operation) -> (res: Option<UnsupportedTransferKind>)
    ensures
        res == unsupported_kind_spec(*operation),
{
    match operation {
        Operation::Call { .. } => Some(UnsupportedTransferKind::Call),
        Operation::UnknownEffect { .. } => Some(UnsupportedTransferKind::UnknownEffect),
        _ => None,
    }
}

/// Evidence that a fact justified a read or a copy of an origin.
#[derive(Debug, PartialEq, Eq, PartialOrd, Ord)]
pub enum TransferEvidence {
    ReachingWrite { write: DefinitionId, read: NodeId, place: Place },
    OriginCopied { operation: NodeId, source_place: Place, target_place: Place, source: Source },
}

impl Clone for TransferEvidence {
    fn clone(&self) -> (res: Self)
        ensures
            res == *self,
    {
        match self {
            TransferEvidence::ReachingWrite { write, read, place } => TransferEvidence::ReachingWrite {
                write: write.clone(),
                read: read.clone(),
                place: place.clone(),
            },
            TransferEvidence::OriginCopied { operation, source_place, target_place, source } => {
                TransferEvidence::OriginCopied {
                    operation: operation.clone(),
                    source_place: source_place.clone(),
                    target_place: target_place.clone(),
                    source: source.clone(),
                }
            },
        }
    }
}

/// The node a piece of evidence is about.
pub open spec fn evidence_node_spec(e: TransferEvidence) -> NodeId {
    match e {
        TransferEvidence::ReachingWrite { read, .. } => read,
        TransferEvidence::OriginCopied { operation, .. } => operation,
    }
}

/// The evidence a fact gives at an operation: the write that reaches a read,
/// or an origin copied by a read, a write, or a computation.
pub open spec fn evidence_spec(node: NodeId, op: Operation, f: Fact) -> Option<TransferEvidence> {
    match (op, f) {
        (Operation::Read { source, result }, Fact::LastWrite { place, write }) => if place@
            == source@ {
            Some(TransferEvidence::ReachingWrite { write, read: node, place: source })
        } else {
            None
        },
        (Operation::Read { source, result }, Fact::Origin { place, source: origin }) => if place@
            == source@ {
            Some(
                TransferEvidence::OriginCopied {
                    operation: node,
                    source_place: source,
                    target_place: result,
                    source: origin,
                },
            )
        } else {
            None
        },
        (Operation::Write { target, sources, .. }, Fact::Origin { place, source: origin }) => if places_view(
            sources@,
        ).contains(place@) {
            Some(
                TransferEvidence::OriginCopied {
                    operation: node,
                    source_place: place,
                    target_place: target,
                    source: origin,
                },
            )
        } else {
            None
        },
        (Operation::Compute { inputs, result, .. }, Fact::Origin { place, source: origin }) => if input_places_view(
            inputs@,
        ).contains(place@) {
            Some(
                TransferEvidence::OriginCopied {
                    operation: node,
                    source_place: place,
                    target_place: result,
                    source: origin,
                },
            )
        } else {
            None
        },
        _ => None,
    }
}

pub fn transfer_evidence(node: &NodeId, operation: &Operation, fact: &Fact) -> (res: Vec<
    TransferEvidence,
>)
    ensures
        match evidence_spec(*node, *operation, *fact) {
            Some(e) => res@ == seq![e],
            None => res@.len() == 0,
        },
{
    let mut evidence: Vec<TransferEvidence> = Vec::new();
    match (operation, fact) {
        (Operation::Read { source, .. }, Fact::LastWrite { place, write }) => {
            if place.same(source) {
                evidence.push(
                    TransferEvidence::ReachingWrite {
                        write: write.clone(),
                        read: node.clone(),
                        place: source.clone(),
                    },
                );
            }
        },
        (Operation::Read { source, result }, Fact::Origin { place, source: origin }) => {
            if place.same(source) {
                evidence.push(
                    TransferEvidence::OriginCopied {
                        operation: node.clone(),
                        source_place: source.clone(),
                        target_place: result.clone(),
                        source: origin.clone(),
                    },
                );
            }
        },
        (Operation::Write { target, sources, .. }, Fact::Origin { place, source: origin }) => {
            if contains_place(sources, place) {
                evidence.push(
                    TransferEvidence::OriginCopied {
                        operation: node.clone(),
                        source_place: place.clone(),
                        target_place: target.clone(),
                        source: origin.clone(),
                    },
                );
            }
        },
        (Operation::Compute { inputs, result, .. }, Fact::Origin { place, source: origin }) => {
            if inputs_contain_place(inputs, place) {
                evidence.push(
                    TransferEvidence::OriginCopied {
                        operation: node.clone(),
                        source_place: place.clone(),
                        target_place: result.clone(),
                        source: origin.clone(),
                    },
                );
            }
        },
        _ => {},
    }
    evidence
}

/// The facts that hold at procedure entry: the zero fact and, for every
/// parameter, its entry write and its two origins.
pub open spec fn entry_facts_spec(p: ProcedureIr) -> Set<FactView> {
    Set::new(
        |x: FactView|
            x == FactView::Zero || exists|k: int|
                0 <= k < p.parameters.len() && {
                    let param = #[trigger] p.parameters@[k];
                    let place = PlaceView::Binding(param.binding@);
                    ||| x == FactView::LastWrite { place, write: param.entry_definition@ }
                    ||| x == FactView::Origin {
                        place,
                        source: SourceView::ParameterEntry(param.entry_definition@),
                    }
                    ||| x == FactView::Origin {
                        place,
                        source: SourceView::FunctionInput(param.binding@),
                    }
                },
    )
}

pub fn seed_entry_facts(procedure: &ProcedureIr) -> (res: Vec<Fact>)
    ensures
        facts_view(res@) == entry_facts_spec(*procedure),
{
    let mut facts: Vec<Fact> = vec![Fact::Zero];
    let mut k: usize = 0;
    while k < procedure.parameters.len()
        invariant
            k <= procedure.parameters.len(),
            facts_view(facts@) == Set::new(
                |x: FactView|
                    x == FactView::Zero || exists|j: int|
                        0 <= j < k && {
                            let param = #[trigger] procedure.parameters@[j];
                            let place = PlaceView::Binding(param.binding@);
                            ||| x == FactView::LastWrite { place, write: param.entry_definition@ }
                            ||| x == FactView::Origin {
                                place,
                                source: SourceView::ParameterEntry(param.entry_definition@),
                            }
                            ||| x == FactView::Origin {
                                place,
                                source: SourceView::FunctionInput(param.binding@),
                            }
                        },
            ),
        decreases procedure.parameters.len() - k,
    {
        let parameter = &procedure.parameters[k];
        let place = Place::Binding(parameter.binding.clone());
        insert_fact(
            &mut facts,
            Fact::LastWrite { place: place.clone(), write: parameter.entry_definition.clone() },
        );
        insert_fact(
            &mut facts,
            Fact::Origin {
                place: place.clone(),
                source: Source::ParameterEntry(parameter.entry_definition.clone()),
            },
        );
        insert_fact(
            &mut facts,
            Fact::Origin { place, source: Source::FunctionInput(parameter.binding.clone()) },
        );
        k = k + 1;
        proof {
            let target = Set::new(
                |x: FactView|
                    x == FactView::Zero || exists|j: int|
                        0 <= j < k && {
                            let param = #[trigger] procedure.parameters@[j];
                            let place = PlaceView::Binding(param.binding@);
                            ||| x == FactView::LastWrite { place, write: param.entry_definition@ }
                            ||| x == FactView::Origin {
                                place,
                                source: SourceView::ParameterEntry(param.entry_definition@),
                            }
                            ||| x == FactView::Origin {
                                place,
                                source: SourceView::FunctionInput(param.binding@),
                            }
                        },
            );
            assert forall|x: FactView| facts_view(facts@).contains(x) == target.contains(x) by {
                if target.contains(x) && x != FactView::Zero {
                    let j = choose|j: int|
                        0 <= j < k && {
                            let param = #[trigger] procedure.parameters@[j];
                            let place = PlaceView::Binding(param.binding@);
                            ||| x == FactView::LastWrite { place, write: param.entry_definition@ }
                            ||| x == FactView::Origin {
                                place,
                                source: SourceView::ParameterEntry(param.entry_definition@),
                            }
                            ||| x == FactView::Origin {
                                place,
                                source: SourceView::FunctionInput(param.binding@),
                            }
                        };
                    if j < k - 1 {
                        let _ = procedure.parameters@[j];
                    }
                }
            }
            assert(facts_view(facts@) =~= target);
        }
    }
    proof {
        assert(facts_view(facts@) =~= entry_facts_spec(*procedure));
    }
    facts
}

/// Transfer functions of one procedure.
pub struct ProcedureFlowFunctions<'a> {
    pub procedure: &'a ProcedureIr,
}

impl<'a> ProcedureFlowFunctions<'a> {
    pub fn new(procedure: &'a ProcedureIr) -> (res: Self)
        ensures
            res.procedure == procedure,
    {
        ProcedureFlowFunctions { procedure }
    }

    /// The facts after the operation of `node` from a set of incoming facts.
    pub fn transfer_all(&self, node: usize, facts: &Vec<Fact>) -> (res: TransferOutcome)
        requires
            node < self.procedure.nodes.len(),
        ensures
            facts_view(res.facts_spec()) == transfer_set(
                self.procedure.nodes@[node as int].operation,
                facts_view(facts@),
            ),
            match unsupported_kind_spec(self.procedure.nodes@[node as int].operation) {
                Some(kind) => res == TransferOutcome::Unsupported {
                    preserved: res->preserved,
                    operation: kind,
                },
                None => res is Supported,
            },
    {
        let operation = &self.procedure.nodes[node].operation;
        let mut out: Vec<Fact> = Vec::new();
        let mut i: usize = 0;
        while i < facts.len()
            invariant
                i <= facts.len(),
                facts_view(out@) == Set::new(
                    |g: FactView|
                        exists|j: int|
                            0 <= j < i && #[trigger] transfer_spec(*operation, facts@[j]@).contains(
                                g,
                            ),
                ),
            decreases facts.len() - i,
        {
            let produced = transfer_operation(operation, &facts[i]).into_facts();
            let ghost before = out@;
            let mut k: usize = 0;
            while k < produced.len()
                invariant
                    k <= produced.len(),
                    facts_view(out@) == facts_view(before).union(
                        Set::new(|g: FactView| exists|c: int| 0 <= c < k && produced@[c]@ == g),
                    ),
                decreases produced.len() - k,
            {
                let ghost mid = out@;
                insert_fact(&mut out, produced[k].clone());
                k = k + 1;
                proof {
                    assert(facts_view(out@) =~= facts_view(before).union(
                        Set::new(|g: FactView| exists|c: int| 0 <= c < k && produced@[c]@ == g),
                    )) by {
                        assert forall|g: FactView|
                            Set::new(|g: FactView| exists|c: int| 0 <= c < k && produced@[c]@ == g).contains(
                                g,
                            ) implies facts_view(out@).contains(g) by {
                            let c = choose|c: int| 0 <= c < k && produced@[c]@ == g;
                            if c < k - 1 {
                                assert(Set::new(
                                    |g: FactView| exists|c: int| 0 <= c < k - 1 && produced@[c]@ == g,
                                ).contains(g));
                            }
                        }
                    }
                }
            }
            i = i + 1;
            proof {
                let target = Set::new(
                    |g: FactView|
                        exists|j: int|
                            0 <= j < i && #[trigger] transfer_spec(*operation, facts@[j]@).contains(
                                g,
                            ),
                );
                assert forall|g: FactView| facts_view(out@).contains(g) == target.contains(g) by {
                    if Set::new(
                        |g: FactView| exists|c: int| 0 <= c < produced@.len() && produced@[c]@ == g,
                    ).contains(g) {
                        let c = choose|c: int| 0 <= c < produced@.len() && produced@[c]@ == g;
                        assert(facts_view(produced@).contains(g));
                        assert(transfer_spec(*operation, facts@[i - 1]@).contains(g));
                    }
                    if target.contains(g) {
                        let j = choose|j: int|
                            0 <= j < i && #[trigger] transfer_spec(*operation, facts@[j]@).contains(g);
                        if j == i - 1 {
                            assert(facts_view(produced@).contains(g));
                            let c = choose|c: int| 0 <= c < produced@.len() && produced@[c]@ == g;
                            assert(Set::new(
                                |g: FactView| exists|c: int| 0 <= c < produced@.len() && produced@[c]@ == g,
                            ).contains(g));
                        }
                    }
                }
                assert(facts_view(out@) =~= target);
            }
        }
        proof {
            let target = transfer_set(*operation, facts_view(facts@));
            assert forall|g: FactView| facts_view(out@).contains(g) == target.contains(g) by {
                if target.contains(g) {
                    let f = choose|f: FactView|
                        facts_view(facts@).contains(f) && #[trigger] transfer_spec(*operation, f).contains(g);
                    let j = choose|j: int| 0 <= j < facts@.len() && facts@[j]@ == f;
                    assert(transfer_spec(*operation, facts@[j]@).contains(g));
                }
                if facts_view(out@).contains(g) {
                    let j = choose|j: int|
                        0 <= j < facts@.len() && #[trigger] transfer_spec(*operation, facts@[j]@).contains(
                            g,
                        );
                    assert(facts_view(facts@).contains(facts@[j]@));
                }
            }
            assert(facts_view(out@) =~= target);
        }
        match unsupported_kind(operation) {
            Some(kind) => TransferOutcome::Unsupported { preserved: out, operation: kind },
            None => TransferOutcome::Supported(out),
        }
    }

    /// The evidence one fact gives at the node with this identifier.
    pub fn evidence(&self, node: &NodeId, fact: &Fact) -> (res: Vec<TransferEvidence>)
        requires
            has_node(*self.procedure, node@),
        ensures
            exists|i: int|
                0 <= i < self.procedure.nodes@.len() && (#[trigger] self.procedure.nodes@[i]).id@ == node@
                    && match evidence_spec(self.procedure.nodes@[i].id, self.procedure.nodes@[i].operation, *fact) {
                    Some(e) => res@ == seq![e],
                    None => res@.len() == 0,
                },
    {
        match find_node(self.procedure, node) {
            Some(i) => {
                let res = transfer_evidence(&self.procedure.nodes[i].id, &self.procedure.nodes[i].operation, fact);
                proof {
                    assert(self.procedure.nodes@[i as int].id@ == node@);
                }
                res
            },
            None => {
                proof {
                    assert(false);
                }
                Vec::new()
            },
        }
    }

    /// The evidence one fact gives at the operation of `node`.
    pub fn evidence_at(&self, node: usize, fact: &Fact) -> (res: Vec<TransferEvidence>)
        requires
            node < self.procedure.nodes.len(),
        ensures
            match evidence_spec(
                self.procedure.nodes@[node as int].id,
                self.procedure.nodes@[node as int].operation,
                *fact,
            ) {
                Some(e) => res@ == seq![e],
                None => res@.len() == 0,
            },
    {
        transfer_evidence(&self.procedure.nodes[node].id, &self.procedure.nodes[node].operation, fact)
    }
}

/// Transfer functions by node: the facts after a node's operation from one
/// incoming fact, and the evidence that the fact gives there.
pub trait FlowFunction {
    /// The nodes the functions know.
    spec fn knows(&self, node: LocalIdView) -> bool;

    fn transfer(&self, node: &NodeId, fact: &Fact) -> TransferOutcome
        requires
            self.knows(node@),
    ;

    fn evidence(&self, node: &NodeId, fact: &Fact) -> Vec<TransferEvidence>
        requires
            self.knows(node@),
    {
        Vec::new()
    }
}

impl<'a> FlowFunction for ProcedureFlowFunctions<'a> {
    open spec fn knows(&self, node: LocalIdView) -> bool {
        has_node(*self.procedure, node)
    }

    /// The facts after the operation of the node with this identifier.
    fn transfer(&self, node: &NodeId, fact: &Fact) -> (res: TransferOutcome)
        ensures
            exists|i: int|
                0 <= i < self.procedure.nodes@.len() && (#[trigger] self.procedure.nodes@[i]).id@ == node@
                    && facts_view(res.facts_spec()) == transfer_spec(self.procedure.nodes@[i].operation, fact@),
    {
        match find_node(self.procedure, node) {
            Some(i) => {
                let res = transfer_operation(&self.procedure.nodes[i].operation, fact);
                proof {
                    assert(self.procedure.nodes@[i as int].id@ == node@);
                }
                res
            },
            None => {
                proof {
                    assert(false);
                }
                TransferOutcome::Supported(Vec::new())
            },
        }
    }

    /// The evidence one fact gives at the node with this identifier.
    fn evidence(&self, node: &NodeId, fact: &Fact) -> (res: Vec<TransferEvidence>)
        ensures
            exists|i: int|
                0 <= i < self.procedure.nodes@.len() && (#[trigger] self.procedure.nodes@[i]).id@ == node@
                    && match evidence_spec(self.procedure.nodes@[i].id, self.procedure.nodes@[i].operation, *fact) {
                    Some(e) => res@ == seq![e],
                    None => res@.len() == 0,
                },
    {
        ProcedureFlowFunctions::evidence(self, node, fact)
    }
}

/// The transfer of a union of fact sets is the union of their transfers.
pub proof fn lemma_transfer_distributes(op: Operation, left: Set<FactView>, right: Set<FactView>)
    ensures
        transfer_set(op, left.union(right)) == transfer_set(op, left).union(transfer_set(op, right)),
{
    assert forall|g: FactView|
        transfer_set(op, left.union(right)).contains(g) == transfer_set(op, left).union(
            transfer_set(op, right),
        ).contains(g) by {
        if transfer_set(op, left.union(right)).contains(g) {
            let f = choose|f: FactView| left.union(right).contains(f) && #[trigger] transfer_spec(op, f).contains(g);
            if left.contains(f) {
                assert(transfer_set(op, left).contains(g));
            } else {
                assert(transfer_set(op, right).contains(g));
            }
        }
        if transfer_set(op, left).contains(g) {
            let f = choose|f: FactView| left.contains(f) && #[trigger] transfer_spec(op, f).contains(g);
            assert(left.union(right).contains(f));
        }
        if transfer_set(op, right).contains(g) {
            let f = choose|f: FactView| right.contains(f) && #[trigger] transfer_spec(op, f).contains(g);
            assert(left.union(right).contains(f));
        }
    }
    assert(transfer_set(op, left.union(right)) =~= transfer_set(op, left).union(
        transfer_set(op, right),
    ));
}

} // verus!
