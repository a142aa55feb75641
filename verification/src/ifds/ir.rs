//! Language-independent control-flow graph contracts.
use vstd::prelude::*;
use crate::ifds::model::{
    option_span_equal, option_span_same, span_valid, BindingId, CallSiteId, DefinitionId, LocalIdView, NodeId, Place, PlaceView,
    ProcedureId, SchemaError, SourceSpan,
};

verus! {

#[derive(Debug, Clone, PartialEq, Eq, PartialOrd, Ord)]
pub enum Operation {
    Entry,
    Read { source: Place, result: Place },
    Write { target: Place, sources: Vec<Place>, definition: DefinitionId },
    Literal {
        definition: DefinitionId,
        literal_kind: LiteralKind,
        raw: String,
        cooked: Option<String>,
        result: Place,
    },
    Compute {
        definition: DefinitionId,
        inputs: Vec<ComputeInput>,
        result: Place,
        operator: PrimitiveOperator,
    },
    Branch { condition: Place },
    Join,
    Call { call_site: CallSiteId, arguments: Vec<Place>, result: Option<Place> },
    ReturnSite { call_site: CallSiteId },
    Return { value: Option<Place> },
    Exit,
    UnknownEffect {
        effect_kind: UnknownEffectKind,
        description: String,
        inputs: Vec<ComputeInput>,
        result: Option<Place>,
        definition: Option<DefinitionId>,
        affected_places: Vec<Place>,
    },
}

#[derive(Debug, Clone, Copy, PartialEq, Eq, PartialOrd, Ord, Structural)]
pub enum LiteralKind {
    Number,
    String,
    Boolean,
    Null,
    BigInt,
    Undefined,
    TemplateChunk,
}

#[derive(Debug, Clone, Copy, PartialEq, Eq, PartialOrd, Ord, Structural)]
pub enum ComputeInputRole {
    Operand { index: u32 },
    TemplateChunk { index: u32 },
    TemplateInterpolation { index: u32 },
}

#[derive(Debug, Clone, PartialEq, Eq, PartialOrd, Ord)]
pub struct ComputeInput {
    pub place: Place,
    pub role: ComputeInputRole,
    pub span: SourceSpan,
}

#[derive(Debug, Clone, PartialEq, Eq, PartialOrd, Ord)]
pub enum PrimitiveOperator {
    Add,
    Subtract,
    Multiply,
    Divide,
    Remainder,
    UnaryPlus,
    UnaryMinus,
    LogicalNot,
    StrictEqual,
    StrictNotEqual,
    GreaterThan,
    LessThan,
    PropertyRead { property: String },
    IndexRead,
    Template,
}

#[derive(Debug, Clone, Copy, PartialEq, Eq, PartialOrd, Ord, Structural)]
pub enum UnknownEffectKind {
    Value,
    Control,
}

#[derive(Debug, Clone, PartialEq, Eq, PartialOrd, Ord)]
pub struct IrNode {
    pub id: NodeId,
    pub operation: Operation,
    pub span: Option<SourceSpan>,
}

#[derive(Debug, PartialEq, Eq, PartialOrd, Ord)]
pub enum EdgeKind {
    Normal,
    Branch { outcome: bool },
    LoopBack,
    Call { call_site: CallSiteId },
    Return { call_site: CallSiteId },
    CallBypass { call_site: CallSiteId },
    Exceptional,
    Deferred,
}

impl Clone for EdgeKind {
    fn clone(&self) -> (res: Self)
        ensures
            res == *self,
    {
        match self {
            EdgeKind::Normal => EdgeKind::Normal,
            EdgeKind::Branch { outcome } => EdgeKind::Branch { outcome: *outcome },
            EdgeKind::LoopBack => EdgeKind::LoopBack,
            EdgeKind::Call { call_site } => EdgeKind::Call { call_site: call_site.clone() },
            EdgeKind::Return { call_site } => EdgeKind::Return { call_site: call_site.clone() },
            EdgeKind::CallBypass { call_site } => EdgeKind::CallBypass {
                call_site: call_site.clone(),
            },
            EdgeKind::Exceptional => EdgeKind::Exceptional,
            EdgeKind::Deferred => EdgeKind::Deferred,
        }
    }
}

#[derive(Debug, PartialEq, Eq, PartialOrd, Ord)]
pub struct IrEdge {
    pub source: NodeId,
    pub target: NodeId,
    pub kind: EdgeKind,
    pub construct: Option<SourceSpan>,
    pub assumption: Option<String>,
}

impl Clone for IrEdge {
    fn clone(&self) -> (res: Self)
        ensures
            res == *self,
    {
        IrEdge {
            source: self.source.clone(),
            target: self.target.clone(),
            kind: self.kind.clone(),
            construct: match &self.construct {
                Some(s) => Some(s.clone()),
                None => None,
            },
            assumption: match &self.assumption {
                Some(s) => Some(s.clone()),
                None => None,
            },
        }
    }
}

/// Two edge kinds with equal values.
pub open spec fn edge_kind_same(a: EdgeKind, b: EdgeKind) -> bool {
    match (a, b) {
        (EdgeKind::Normal, EdgeKind::Normal) => true,
        (EdgeKind::Branch { outcome: x }, EdgeKind::Branch { outcome: y }) => x == y,
        (EdgeKind::LoopBack, EdgeKind::LoopBack) => true,
        (EdgeKind::Call { call_site: x }, EdgeKind::Call { call_site: y }) => x@ == y@,
        (EdgeKind::Return { call_site: x }, EdgeKind::Return { call_site: y }) => x@ == y@,
        (EdgeKind::CallBypass { call_site: x }, EdgeKind::CallBypass { call_site: y }) => x@ == y@,
        (EdgeKind::Exceptional, EdgeKind::Exceptional) => true,
        (EdgeKind::Deferred, EdgeKind::Deferred) => true,
        _ => false,
    }
}

/// Two edges with equal values.
pub open spec fn edge_same(a: IrEdge, b: IrEdge) -> bool {
    &&& a.source@ == b.source@
    &&& a.target@ == b.target@
    &&& edge_kind_same(a.kind, b.kind)
    &&& option_span_same(a.construct, b.construct)
    &&& match (a.assumption, b.assumption) {
        (Some(x), Some(y)) => x@ == y@,
        (None, None) => true,
        _ => false,
    }
}

impl EdgeKind {
    pub fn same(&self, other: &EdgeKind) -> (res: bool)
        ensures
            res == edge_kind_same(*self, *other),
    {
        match (self, other) {
            (EdgeKind::Normal, EdgeKind::Normal) => true,
            (EdgeKind::Branch { outcome: x }, EdgeKind::Branch { outcome: y }) => *x == *y,
            (EdgeKind::LoopBack, EdgeKind::LoopBack) => true,
            (EdgeKind::Call { call_site: x }, EdgeKind::Call { call_site: y }) => x.same(y),
            (EdgeKind::Return { call_site: x }, EdgeKind::Return { call_site: y }) => x.same(y),
            (EdgeKind::CallBypass { call_site: x }, EdgeKind::CallBypass { call_site: y }) => x.same(
                y,
            ),
            (EdgeKind::Exceptional, EdgeKind::Exceptional) => true,
            (EdgeKind::Deferred, EdgeKind::Deferred) => true,
            _ => false,
        }
    }
}

impl IrEdge {
    pub fn same(&self, other: &IrEdge) -> (res: bool)
        ensures
            res == edge_same(*self, *other),
    {
        self.source.same(&other.source) && self.target.same(&other.target) && self.kind.same(
            &other.kind,
        ) && option_span_equal(&self.construct, &other.construct) && match (
            &self.assumption,
            &other.assumption,
        ) {
            (Some(x), Some(y)) => *x == *y,
            (None, None) => true,
            _ => false,
        }
    }
}

#[derive(Debug, Clone, PartialEq, Eq, PartialOrd, Ord)]
pub struct ProcedureParameter {
    pub index: u32,
    pub binding: BindingId,
    pub entry_definition: DefinitionId,
}

/// One procedure's control-flow graph. Node identities are unique; `nodes`
/// and `edges` are kept in the order in which they were recorded.
#[derive(Debug, Clone, PartialEq, Eq)]
pub struct ProcedureIr {
    pub id: ProcedureId,
    pub parameters: Vec<ProcedureParameter>,
    pub entry: NodeId,
    pub exits: Vec<NodeId>,
    pub nodes: Vec<IrNode>,
    pub edges: Vec<IrEdge>,
}

/// The definition an operation introduces, if any.
pub open spec fn op_definition(op: Operation) -> Option<LocalIdView> {
    match op {
        Operation::Write { definition, .. } => Some(definition@),
        Operation::Literal { definition, .. } => Some(definition@),
        Operation::Compute { definition, .. } => Some(definition@),
        Operation::UnknownEffect { definition, .. } => match definition {
            Some(d) => Some(d@),
            None => None,
        },
        _ => None,
    }
}

/// The place an operation produces, if any.
pub open spec fn op_result(op: Operation) -> Option<Place> {
    match op {
        Operation::Read { result, .. } => Some(result),
        Operation::Literal { result, .. } => Some(result),
        Operation::Compute { result, .. } => Some(result),
        Operation::Call { result, .. } => result,
        Operation::UnknownEffect { result, .. } => result,
        _ => None,
    }
}

/// The places an operation reads, in order.
pub open spec fn op_inputs(op: Operation) -> Seq<Place> {
    match op {
        Operation::Read { source, .. } => seq![source],
        Operation::Write { sources, .. } => sources@,
        Operation::Compute { inputs, .. } => inputs@.map_values(|c: ComputeInput| c.place),
        Operation::UnknownEffect { inputs, .. } => inputs@.map_values(|c: ComputeInput| c.place),
        Operation::Branch { condition } => seq![condition],
        Operation::Call { arguments, .. } => arguments@,
        Operation::Return { value } => match value {
            Some(v) => seq![v],
            None => Seq::empty(),
        },
        _ => Seq::empty(),
    }
}

pub fn operation_definition(operation: &Operation) -> (res: Option<&DefinitionId>)
    ensures
        match res {
            Some(d) => op_definition(*operation) == Some(d@),
            None => op_definition(*operation) is None,
        },
{
    match operation {
        Operation::Write { definition, .. } => Some(definition),
        Operation::Literal { definition, .. } => Some(definition),
        Operation::Compute { definition, .. } => Some(definition),
        Operation::UnknownEffect { definition, .. } => match definition {
            Some(d) => Some(d),
            None => None,
        },
        _ => None,
    }
}

pub fn operation_result(operation: &Operation) -> (res: Option<&Place>)
    ensures
        match res {
            Some(p) => op_result(*operation) == Some(*p),
            None => op_result(*operation) is None,
        },
{
    match operation {
        Operation::Read { result, .. } => Some(result),
        Operation::Literal { result, .. } => Some(result),
        Operation::Compute { result, .. } => Some(result),
        Operation::Call { result, .. } => match result {
            Some(r) => Some(r),
            None => None,
        },
        Operation::UnknownEffect { result, .. } => match result {
            Some(r) => Some(r),
            None => None,
        },
        _ => None,
    }
}

pub fn operation_inputs(operation: &Operation) -> (res: Vec<&Place>)
    ensures
        res@.len() == op_inputs(*operation).len(),
        forall|i: int| 0 <= i < res@.len() ==> *res@[i] == op_inputs(*operation)[i],
{
    let mut out: Vec<&Place> = Vec::new();
    match operation {
        Operation::Read { source, .. } => {
            out.push(source);
        },
        Operation::Write { sources, .. } => {
            let mut i: usize = 0;
            while i < sources.len()
                invariant
                    i <= sources.len(),
                    out@.len() == i,
                    forall|j: int| 0 <= j < i ==> *out@[j] == sources@[j],
                decreases sources.len() - i,
            {
                out.push(&sources[i]);
                i = i + 1;
            }
        },
        Operation::Compute { inputs, .. } | Operation::UnknownEffect { inputs, .. } => {
            let mut i: usize = 0;
            while i < inputs.len()
                invariant
                    i <= inputs.len(),
                    out@.len() == i,
                    forall|j: int| 0 <= j < i ==> *out@[j] == inputs@[j].place,
                decreases inputs.len() - i,
            {
                out.push(&inputs[i].place);
                i = i + 1;
            }
        },
        Operation::Branch { condition } => {
            out.push(condition);
        },
        Operation::Call { arguments, .. } => {
            let mut i: usize = 0;
            while i < arguments.len()
                invariant
                    i <= arguments.len(),
                    out@.len() == i,
                    forall|j: int| 0 <= j < i ==> *out@[j] == arguments@[j],
                decreases arguments.len() - i,
            {
                out.push(&arguments[i]);
                i = i + 1;
            }
        },
        Operation::Return { value } => {
            if let Some(v) = value {
                out.push(v);
            }
        },
        _ => {},
    }
    out
}

/// Whether some node of the procedure has the given identity.
pub open spec fn has_node(p: ProcedureIr, id: LocalIdView) -> bool {
    exists|i: int| 0 <= i < p.nodes.len() && (#[trigger] p.nodes@[i]).id@ == id
}

/// Parameters are numbered from zero in order, belong to the procedure's
/// snapshot, and name distinct bindings and distinct entry definitions.
pub open spec fn parameters_valid(p: ProcedureIr) -> bool {
    let ps = p.parameters@;
    &&& forall|i: int| 0 <= i < ps.len() ==> (#[trigger] ps[i]).index == i
    &&& forall|i: int|
        0 <= i < ps.len() ==> (#[trigger] ps[i]).binding.snapshot@ == p.id.snapshot@
            && ps[i].entry_definition.snapshot@ == p.id.snapshot@
    &&& forall|i: int, j: int|
        0 <= i < j < ps.len() ==> (#[trigger] ps[i]).binding@ != (#[trigger] ps[j]).binding@
    &&& forall|i: int, j: int|
        0 <= i < j < ps.len() ==> (#[trigger] ps[i]).entry_definition@ != (#[trigger] ps[
            j
        ]).entry_definition@
}

/// The parameter at position `a` passes every parameter check: its index,
/// its snapshots, and a binding and entry definition unlike the earlier ones.
pub open spec fn parameter_fine(p: ProcedureIr, a: int) -> bool {
    let ps = p.parameters@;
    &&& ps[a].index == a
    &&& ps[a].binding.snapshot@ == p.id.snapshot@
    &&& ps[a].entry_definition.snapshot@ == p.id.snapshot@
    &&& forall|b: int| 0 <= b < a ==> (#[trigger] ps[b]).binding@ != ps[a].binding@
        && ps[b].entry_definition@ != ps[a].entry_definition@
}

/// With every parameter before `i` fine, a parameter that is not fine can
/// only be a first index mismatch at `i`.
proof fn lemma_first_parameter_fault(p: ProcedureIr, i: int)
    requires
        0 <= i < p.parameters@.len(),
        forall|a: int| 0 <= a < i ==> parameter_fine(p, a),
    ensures
        forall|k: int|
            0 <= k < p.parameters@.len() && (forall|a: int| 0 <= a < k ==> parameter_fine(p, a))
                && (#[trigger] p.parameters@[k]).index != k ==> (k == i || (k > i && parameter_fine(p, i))),
{
    assert forall|k: int|
        0 <= k < p.parameters@.len() && (forall|a: int| 0 <= a < k ==> parameter_fine(p, a))
            && (#[trigger] p.parameters@[k]).index != k implies (k == i || (k > i && parameter_fine(p, i))) by {
        if k < i {
            assert(parameter_fine(p, k));
        } else if k > i {
            assert(parameter_fine(p, i));
        }
    }
}

/// The index error for the parameter at position `i`.
pub open spec fn parameter_index_error(p: ProcedureIr, i: int) -> IrValidationError {
    IrValidationError::ParameterIndex {
        expected: if i <= u32::MAX {
            i as u32
        } else {
            u32::MAX
        },
        actual: p.parameters@[i].index,
    }
}

/// No two nodes share an identity.
pub open spec fn node_ids_unique(p: ProcedureIr) -> bool {
    forall|i: int, j: int|
        0 <= i < j < p.nodes.len() ==> (#[trigger] p.nodes@[i]).id@ != (#[trigger] p.nodes@[j]).id@
}

/// The entry names an `Entry` node and every exit names an `Exit` node.
pub open spec fn entry_and_exits_valid(p: ProcedureIr) -> bool {
    &&& has_node(p, p.entry@)
    &&& forall|i: int|
        0 <= i < p.nodes.len() && (#[trigger] p.nodes@[i]).id@ == p.entry@ ==> p.nodes@[i].operation
            is Entry
    &&& forall|k: int| 0 <= k < p.exits.len() ==> has_node(p, (#[trigger] p.exits@[k])@)
    &&& forall|k: int, i: int|
        0 <= k < p.exits.len() && 0 <= i < p.nodes.len() && (#[trigger] p.nodes@[i]).id@ == (
        #[trigger] p.exits@[k])@ ==> p.nodes@[i].operation is Exit
}

/// Nodes belong to the procedure's snapshot and carry valid spans.
pub open spec fn nodes_valid(p: ProcedureIr) -> bool {
    forall|i: int|
        0 <= i < p.nodes.len() ==> {
            &&& (#[trigger] p.nodes@[i]).id.snapshot@ == p.id.snapshot@
            &&& p.nodes@[i].span matches Some(s) ==> span_valid(s)
        }
}

/// Edges connect existing nodes and carry valid construct spans.
pub open spec fn edges_valid(p: ProcedureIr) -> bool {
    forall|e: int|
        0 <= e < p.edges.len() ==> {
            &&& has_node(p, (#[trigger] p.edges@[e]).source@)
            &&& has_node(p, p.edges@[e].target@)
            &&& p.edges@[e].construct matches Some(s) ==> span_valid(s)
        }
}

/// Definitions belong to the procedure's snapshot and are introduced at most
/// once, counting parameter entry definitions.
pub open spec fn definitions_valid(p: ProcedureIr) -> bool {
    &&& forall|i: int|
        0 <= i < p.nodes.len() ==> (op_definition((#[trigger] p.nodes@[i]).operation) matches Some(
            d,
        ) ==> d.snapshot == p.id.snapshot@)
    &&& forall|i: int, k: int|
        0 <= i < p.nodes.len() && 0 <= k < p.parameters.len() ==> (op_definition(
            (#[trigger] p.nodes@[i]).operation,
        ) matches Some(d) ==> d != (#[trigger] p.parameters@[k]).entry_definition@)
    &&& forall|i: int, j: int|
        0 <= i < j < p.nodes.len() ==> (op_definition((#[trigger] p.nodes@[i]).operation) matches Some(
            d,
        ) ==> op_definition((#[trigger] p.nodes@[j]).operation) != Some(d))
}

/// Every result is a temporary, and no two nodes produce the same one.
pub open spec fn results_valid(p: ProcedureIr) -> bool {
    &&& forall|i: int|
        0 <= i < p.nodes.len() ==> (op_result((#[trigger] p.nodes@[i]).operation) matches Some(r)
            ==> r is Temporary)
    &&& forall|i: int, j: int|
        0 <= i < j < p.nodes.len() ==> (op_result((#[trigger] p.nodes@[i]).operation) matches Some(r)
            ==> (op_result((#[trigger] p.nodes@[j]).operation) matches Some(q) ==> r@ != q@))
}

/// Whether some node of the procedure produces the given place.
pub open spec fn produced(p: ProcedureIr, place: PlaceView) -> bool {
    exists|i: int|
        0 <= i < p.nodes.len() && (op_result((#[trigger] p.nodes@[i]).operation) matches Some(r)
            && r@ == place)
}

/// Every temporary that an operation reads is produced by some node.
pub open spec fn temporaries_produced(p: ProcedureIr) -> bool {
    forall|i: int, k: int|
        0 <= i < p.nodes.len() && 0 <= k < op_inputs((#[trigger] p.nodes@[i]).operation).len()
            ==> (#[trigger] op_inputs(p.nodes@[i].operation)[k]) is Temporary ==> produced(
            p,
            op_inputs(p.nodes@[i].operation)[k]@,
        )
}

/// A well-formed procedure: the conditions `ProcedureIr::validate` checks.
pub open spec fn ir_valid(p: ProcedureIr) -> bool {
    &&& parameters_valid(p)
    &&& node_ids_unique(p)
    &&& entry_and_exits_valid(p)
    &&& nodes_valid(p)
    &&& edges_valid(p)
    &&& definitions_valid(p)
    &&& results_valid(p)
    &&& temporaries_produced(p)
}

/// Whether the procedure has a node with the given identity, and where.
pub fn find_node(p: &ProcedureIr, id: &NodeId) -> (res: Option<usize>)
    ensures
        match res {
            Some(i) => i < p.nodes.len() && p.nodes@[i as int].id@ == id@,
            None => !has_node(*p, id@),
        },
{
    let mut i: usize = 0;
    while i < p.nodes.len()
        invariant
            i <= p.nodes.len(),
            forall|j: int| 0 <= j < i ==> (#[trigger] p.nodes@[j]).id@ != id@,
        decreases p.nodes.len() - i,
    {
        if p.nodes[i].id.same(id) {
            return Some(i);
        }
        i = i + 1;
    }
    None
}

fn span_reason(span: &SourceSpan) -> (res: Result<(), String>)
    ensures
        res is Ok <==> span_valid(*span),
{
    match span.validate() {
        Ok(()) => Ok(()),
        Err(SchemaError::InvalidSpan { reason, .. }) => Err(reason),
        Err(_) => Err(String::new()),
    }
}

impl ProcedureIr {
    /// Accepts the procedure exactly when it is well formed (`ir_valid`).
    #[verifier::loop_isolation(false)]
    #[verifier::loop_isolation(false)]
    #[verifier::spinoff_prover]
    #[verifier::rlimit(100)]
    pub fn validate(&self) -> (res: Result<(), IrValidationError>)
        ensures
            res is Ok <==> ir_valid(*self),
            res matches Err(e) ==> (!parameters_valid(*self) <==> (e is ParameterIndex
                || e is ParameterSnapshotMismatch || e is DuplicateParameterBinding || (e is DuplicateDefinition
                && !parameters_valid(*self)))),
            res matches Err(e) ==> (e is DuplicateNode ==> parameters_valid(*self) && !node_ids_unique(*self)),
            res matches Err(e) ==> (e is EntryOperation || e is ExitOperation ==> parameters_valid(*self)
                && node_ids_unique(*self) && !entry_and_exits_valid(*self)),
            res matches Err(e) ==> (e is SnapshotMismatch ==> parameters_valid(*self) && node_ids_unique(*self)
                && entry_and_exits_valid(*self) && !nodes_valid(*self)),
            res matches Err(e) ==> (e is DefinitionSnapshotMismatch || e is InvalidResultPlace
                || e is DuplicateTemporary ==> parameters_valid(*self) && node_ids_unique(*self)
                && entry_and_exits_valid(*self) && nodes_valid(*self) && edges_valid(*self) && !(definitions_valid(
                *self,
            ) && results_valid(*self))),
            res matches Err(e) ==> (e is MissingTemporary ==> parameters_valid(*self) && node_ids_unique(*self)
                && entry_and_exits_valid(*self) && nodes_valid(*self) && edges_valid(*self) && definitions_valid(
                *self,
            ) && results_valid(*self) && !temporaries_produced(*self)),
            res matches Err(e) ==> !(e is ResultProducerMismatch),
            forall|i: int|
                0 <= i < self.parameters@.len() && (forall|a: int| 0 <= a < i ==> parameter_fine(*self, a))
                    && (#[trigger] self.parameters@[i]).index != i ==> res == Err::<(), IrValidationError>(
                    parameter_index_error(*self, i),
                ),
    {
        let ps = &self.parameters;
        // Parameters.
        let mut i: usize = 0;
        while i < ps.len()
            invariant
                i <= ps.len(),
                forall|a: int| 0 <= a < i ==> (#[trigger] ps@[a]).index == a,
                forall|a: int|
                    0 <= a < i ==> (#[trigger] ps@[a]).binding.snapshot@ == self.id.snapshot@
                        && ps@[a].entry_definition.snapshot@ == self.id.snapshot@,
                forall|a: int, b: int|
                    0 <= a < b < i ==> (#[trigger] ps@[a]).binding@ != (#[trigger] ps@[b]).binding@,
                forall|a: int, b: int|
                    0 <= a < b < i ==> (#[trigger] ps@[a]).entry_definition@ != (#[trigger] ps@[
                        b
                    ]).entry_definition@,
            decreases ps.len() - i,
        {
            let parameter = &ps[i];
            proof {
                assert forall|a: int| 0 <= a < i implies parameter_fine(*self, a) by {
                    assert forall|b: int| 0 <= b < a implies (#[trigger] ps@[b]).binding@ != ps@[a].binding@
                        && ps@[b].entry_definition@ != ps@[a].entry_definition@ by {}
                }
                lemma_first_parameter_fault(*self, i as int);
            }
            if parameter.index as usize != i {
                return Err(
                    IrValidationError::ParameterIndex {
                        expected: if i <= u32::MAX as usize {
                            i as u32
                        } else {
                            u32::MAX
                        },
                        actual: parameter.index,
                    },
                );
            }
            if !parameter.binding.snapshot.same(&self.id.snapshot)
                || !parameter.entry_definition.snapshot.same(&self.id.snapshot) {
                return Err(IrValidationError::ParameterSnapshotMismatch(parameter.index));
            }
            let mut j: usize = 0;
            while j < i
                invariant
                    i < ps.len(),
                    j <= i,
                    parameter == ps@[i as int],
                    forall|a: int| 0 <= a < j ==> (#[trigger] ps@[a]).binding@ != parameter.binding@,
                    forall|a: int|
                        0 <= a < j ==> (#[trigger] ps@[a]).entry_definition@
                            != parameter.entry_definition@,
                decreases i - j,
            {
                if ps[j].binding.same(&parameter.binding) {
                    return Err(IrValidationError::DuplicateParameterBinding(parameter.binding.clone()));
                }
                if ps[j].entry_definition.same(&parameter.entry_definition) {
                    return Err(
                        IrValidationError::DuplicateDefinition(parameter.entry_definition.clone()),
                    );
                }
                j = j + 1;
            }
            i = i + 1;
        }
        assert(parameters_valid(*self));
        // Node identities.
        let nodes = &self.nodes;
        let mut i: usize = 0;
        while i < nodes.len()
            invariant
                i <= nodes.len(),
                forall|a: int, b: int|
                    0 <= a < b < i ==> (#[trigger] nodes@[a]).id@ != (#[trigger] nodes@[b]).id@,
            decreases nodes.len() - i,
        {
            let mut j: usize = 0;
            while j < i
                invariant
                    i < nodes.len(),
                    j <= i,
                    forall|a: int| 0 <= a < j ==> (#[trigger] nodes@[a]).id@ != nodes@[i as int].id@,
                decreases i - j,
            {
                if nodes[j].id.same(&nodes[i].id) {
                    return Err(IrValidationError::DuplicateNode(Box::new(nodes[i].id.clone())));
                }
                j = j + 1;
            }
            i = i + 1;
        }
        assert(node_ids_unique(*self));
        // Entry and exits.
        match find_node(self, &self.entry) {
            None => {
                return Err(IrValidationError::MissingNode(Box::new(self.entry.clone())));
            },
            Some(e) => {
                if !matches!(nodes[e].operation, Operation::Entry) {
                    return Err(IrValidationError::EntryOperation(Box::new(self.entry.clone())));
                }
            },
        }
        let mut k: usize = 0;
        while k < self.exits.len()
            invariant
                k <= self.exits.len(),
                node_ids_unique(*self),
                forall|a: int| 0 <= a < k ==> has_node(*self, (#[trigger] self.exits@[a])@),
                forall|a: int, b: int|
                    0 <= a < k && 0 <= b < self.nodes.len() && (#[trigger] self.nodes@[b]).id@ == (
                    #[trigger] self.exits@[a])@ ==> self.nodes@[b].operation is Exit,
            decreases self.exits.len() - k,
        {
            match find_node(self, &self.exits[k]) {
                None => {
                    return Err(IrValidationError::MissingNode(Box::new(self.exits[k].clone())));
                },
                Some(e) => {
                    if !matches!(nodes[e].operation, Operation::Exit) {
                        return Err(IrValidationError::ExitOperation(Box::new(self.exits[k].clone())));
                    }
                },
            }
            k = k + 1;
        }
        assert(entry_and_exits_valid(*self));
        // Node snapshots and spans.
        let mut i: usize = 0;
        while i < nodes.len()
            invariant
                i <= nodes.len(),
                forall|a: int|
                    0 <= a < i ==> {
                        &&& (#[trigger] nodes@[a]).id.snapshot@ == self.id.snapshot@
                        &&& nodes@[a].span matches Some(s) ==> span_valid(s)
                    },
            decreases nodes.len() - i,
        {
            if !nodes[i].id.snapshot.same(&self.id.snapshot) {
                return Err(IrValidationError::SnapshotMismatch(Box::new(nodes[i].id.clone())));
            }
            if let Some(span) = &nodes[i].span {
                if let Err(reason) = span_reason(span) {
                    return Err(IrValidationError::InvalidSpan(reason));
                }
            }
            i = i + 1;
        }
        assert(nodes_valid(*self));
        // Edges.
        let mut e: usize = 0;
        while e < self.edges.len()
            invariant
                e <= self.edges.len(),
                forall|a: int|
                    0 <= a < e ==> {
                        &&& has_node(*self, (#[trigger] self.edges@[a]).source@)
                        &&& has_node(*self, self.edges@[a].target@)
                        &&& self.edges@[a].construct matches Some(s) ==> span_valid(s)
                    },
            decreases self.edges.len() - e,
        {
            let edge = &self.edges[e];
            if find_node(self, &edge.source).is_none() {
                return Err(IrValidationError::MissingNode(Box::new(edge.source.clone())));
            }
            if find_node(self, &edge.target).is_none() {
                return Err(IrValidationError::MissingNode(Box::new(edge.target.clone())));
            }
            if let Some(span) = &edge.construct {
                if let Err(reason) = span_reason(span) {
                    return Err(IrValidationError::InvalidSpan(reason));
                }
            }
            e = e + 1;
        }
        assert(edges_valid(*self));
        // Definitions and results.
        let mut i: usize = 0;
        while i < nodes.len()
            invariant
                i <= nodes.len(),
                forall|a: int|
                    0 <= a < i ==> (op_definition((#[trigger] nodes@[a]).operation) matches Some(d)
                        ==> d.snapshot == self.id.snapshot@),
                forall|a: int, k: int|
                    0 <= a < i && 0 <= k < ps.len() ==> (op_definition(
                        (#[trigger] nodes@[a]).operation,
                    ) matches Some(d) ==> d != (#[trigger] ps@[k]).entry_definition@),
                forall|a: int, b: int|
                    0 <= a < b < i ==> (op_definition((#[trigger] nodes@[a]).operation) matches Some(
                        d,
                    ) ==> op_definition((#[trigger] nodes@[b]).operation) != Some(d)),
                forall|a: int|
                    0 <= a < i ==> (op_result((#[trigger] nodes@[a]).operation) matches Some(r)
                        ==> r is Temporary),
                forall|a: int, b: int|
                    0 <= a < b < i ==> (op_result((#[trigger] nodes@[a]).operation) matches Some(r)
                        ==> (op_result((#[trigger] nodes@[b]).operation) matches Some(q) ==> r@ != q@)),
            decreases nodes.len() - i,
        {
            let node = &nodes[i];
            if let Some(definition) = operation_definition(&node.operation) {
                if !definition.snapshot.same(&self.id.snapshot) {
                    return Err(
                        IrValidationError::DefinitionSnapshotMismatch(Box::new(definition.clone())),
                    );
                }
                let mut k: usize = 0;
                while k < ps.len()
                    invariant
                        k <= ps.len(),
                        op_definition(node.operation) == Some(definition@),
                        forall|b: int| 0 <= b < k ==> (#[trigger] ps@[b]).entry_definition@ != definition@,
                    decreases ps.len() - k,
                {
                    if ps[k].entry_definition.same(definition) {
                        return Err(IrValidationError::DuplicateDefinition(definition.clone()));
                    }
                    k = k + 1;
                }
                let mut j: usize = 0;
                while j < i
                    invariant
                        i < nodes.len(),
                        j <= i,
                        node == nodes@[i as int],
                        op_definition(node.operation) == Some(definition@),
                        forall|b: int|
                            0 <= b < j ==> op_definition((#[trigger] nodes@[b]).operation) != Some(
                                definition@,
                            ),
                    decreases i - j,
                {
                    if let Some(other) = operation_definition(&nodes[j].operation) {
                        if other.same(definition) {
                            return Err(IrValidationError::DuplicateDefinition(definition.clone()));
                        }
                    }
                    j = j + 1;
                }
            }
            if let Some(result) = operation_result(&node.operation) {
                match result {
                    Place::Temporary(_) => {},
                    Place::Binding(_) => {
                        return Err(IrValidationError::InvalidResultPlace(Box::new(node.id.clone())));
                    },
                }
                let mut j: usize = 0;
                while j < i
                    invariant
                        i < nodes.len(),
                        j <= i,
                        node == nodes@[i as int],
                        op_result(node.operation) == Some(*result),
                        forall|b: int|
                            0 <= b < j ==> (op_result((#[trigger] nodes@[b]).operation) matches Some(q)
                                ==> q@ != result@),
                    decreases i - j,
                {
                    if let Some(other) = operation_result(&nodes[j].operation) {
                        if other.same(result) {
                            return Err(IrValidationError::DuplicateTemporary(result.clone()));
                        }
                    }
                    j = j + 1;
                }
            }
            i = i + 1;
        }
        assert(definitions_valid(*self));
        assert(results_valid(*self));
        // Temporaries read by some operation are produced by some node.
        let mut i: usize = 0;
        while i < nodes.len()
            invariant
                i <= nodes.len(),
                forall|a: int, k: int|
                    0 <= a < i && 0 <= k < op_inputs((#[trigger] nodes@[a]).operation).len() ==> (
                    #[trigger] op_inputs(nodes@[a].operation)[k]) is Temporary ==> produced(
                        *self,
                        op_inputs(nodes@[a].operation)[k]@,
                    ),
            decreases nodes.len() - i,
        {
            let inputs = operation_inputs(&nodes[i].operation);
            let mut k: usize = 0;
            while k < inputs.len()
                invariant
                    i < nodes.len(),
                    k <= inputs.len(),
                    inputs@.len() == op_inputs(nodes@[i as int].operation).len(),
                    forall|c: int|
                        0 <= c < inputs@.len() ==> *inputs@[c] == op_inputs(
                            nodes@[i as int].operation,
                        )[c],
                    forall|c: int|
                        0 <= c < k ==> (#[trigger] op_inputs(nodes@[i as int].operation)[c]) is Temporary
                            ==> produced(*self, op_inputs(nodes@[i as int].operation)[c]@),
                decreases inputs.len() - k,
            {
                let place = inputs[k];
                if let Place::Temporary(_) = place {
                    if !self.produces(place) {
                        return Err(IrValidationError::MissingTemporary(place.clone()));
                    }
                }
                k = k + 1;
            }
            i = i + 1;
        }
        Ok(())
    }

    /// Whether some node produces the given place.
    pub fn produces(&self, place: &Place) -> (res: bool)
        ensures
            res == produced(*self, place@),
    {
        let mut i: usize = 0;
        while i < self.nodes.len()
            invariant
                i <= self.nodes.len(),
                forall|a: int|
                    0 <= a < i ==> !(op_result((#[trigger] self.nodes@[a]).operation) matches Some(
                        r,
                    ) && r@ == place@),
            decreases self.nodes.len() - i,
        {
            if let Some(result) = operation_result(&self.nodes[i].operation) {
                if result.same(place) {
                    return true;
                }
            }
            i = i + 1;
        }
        false
    }
}

#[derive(Debug, Clone, PartialEq, Eq)]
pub enum IrValidationError {
    ParameterIndex { expected: u32, actual: u32 },
    ParameterSnapshotMismatch(u32),
    DuplicateParameterBinding(BindingId),
    DuplicateDefinition(DefinitionId),
    DefinitionSnapshotMismatch(Box<DefinitionId>),
    MissingNode(Box<NodeId>),
    /// Two nodes carry the same identity.
    DuplicateNode(Box<NodeId>),
    EntryOperation(Box<NodeId>),
    ExitOperation(Box<NodeId>),
    SnapshotMismatch(Box<NodeId>),
    InvalidSpan(String),
    InvalidResultPlace(Box<NodeId>),
    ResultProducerMismatch { node: Box<NodeId>, producer: Box<NodeId> },
    DuplicateTemporary(Place),
    MissingTemporary(Place),
}

impl IrValidationError {
    /// The error's text: `invalid procedure IR: ` and its debug form.
    pub fn message(&self) -> String {
        String::from_str("invalid procedure IR: ").concat(debug_text(self).as_str())
    }
}

/// Formats a value with its `Debug` implementation (`std::format!`); nothing
/// is claimed about the text.
#[verifier::external_body]
pub(crate) fn debug_text<T: std::fmt::Debug>(value: &T) -> String {
    format!("{:?}", value)
}

} // verus!
