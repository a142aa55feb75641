//! Public identities, queries, reports, evidence, and diagnostics.
use vstd::prelude::*;

verus! {

/// The only report schema currently accepted by this crate.
pub const REPORT_SCHEMA_VERSION: u32 = 1;

#[derive(Debug, Clone, Copy, PartialEq, Eq, PartialOrd, Ord, Hash, Structural)]
pub enum SnapshotSide {
    Before,
    After,
}

#[derive(Debug, PartialEq, Eq, PartialOrd, Ord, Hash)]
pub struct SnapshotId {
    pub side: SnapshotSide,
    pub revision: String,
    pub content_id: String,
}

/// Mathematical value of a snapshot identity.
pub struct SnapshotIdView {
    pub side: SnapshotSide,
    pub revision: Seq<char>,
    pub content_id: Seq<char>,
}

impl View for SnapshotId {
    type V = SnapshotIdView;

    open spec fn view(&self) -> SnapshotIdView {
        SnapshotIdView { side: self.side, revision: self.revision@, content_id: self.content_id@ }
    }
}

impl Clone for SnapshotId {
    fn clone(&self) -> (res: Self)
        ensures
            res == *self,
    {
        SnapshotId {
            side: self.side,
            revision: self.revision.clone(),
            content_id: self.content_id.clone(),
        }
    }
}

impl SnapshotId {
    /// Compares two snapshot identities by value.
    pub fn same(&self, other: &SnapshotId) -> (res: bool)
        ensures
            res == (self@ == other@),
    {
        self.side == other.side && self.revision == other.revision && self.content_id
            == other.content_id
    }
}

/// Mathematical value of every snapshot-local identity: its snapshot and its
/// number within that snapshot.
pub struct LocalIdView {
    pub snapshot: SnapshotIdView,
    pub local: u64,
}

#[derive(Debug, PartialEq, Eq, PartialOrd, Ord, Hash)]
pub struct BindingId {
    pub snapshot: SnapshotId,
    pub local: u64,
}

impl View for BindingId {
    type V = LocalIdView;

    open spec fn view(&self) -> LocalIdView {
        LocalIdView { snapshot: self.snapshot@, local: self.local }
    }
}

impl Clone for BindingId {
    fn clone(&self) -> (res: Self)
        ensures
            res == *self,
    {
        BindingId { snapshot: self.snapshot.clone(), local: self.local }
    }
}

impl BindingId {
    pub fn new(snapshot: SnapshotId, local: u64) -> (res: Self)
        ensures
            res.snapshot == snapshot,
            res.local == local,
    {
        BindingId { snapshot, local }
    }

    pub fn same(&self, other: &BindingId) -> (res: bool)
        ensures
            res == (self@ == other@),
    {
        self.local == other.local && self.snapshot.same(&other.snapshot)
    }
}

#[derive(Debug, PartialEq, Eq, PartialOrd, Ord, Hash)]
pub struct NodeId {
    pub snapshot: SnapshotId,
    pub local: u64,
}

impl View for NodeId {
    type V = LocalIdView;

    open spec fn view(&self) -> LocalIdView {
        LocalIdView { snapshot: self.snapshot@, local: self.local }
    }
}

impl Clone for NodeId {
    fn clone(&self) -> (res: Self)
        ensures
            res == *self,
    {
        NodeId { snapshot: self.snapshot.clone(), local: self.local }
    }
}

impl NodeId {
    pub fn new(snapshot: SnapshotId, local: u64) -> (res: Self)
        ensures
            res.snapshot == snapshot,
            res.local == local,
    {
        NodeId { snapshot, local }
    }

    pub fn same(&self, other: &NodeId) -> (res: bool)
        ensures
            res == (self@ == other@),
    {
        self.local == other.local && self.snapshot.same(&other.snapshot)
    }
}

#[derive(Debug, PartialEq, Eq, PartialOrd, Ord, Hash)]
pub struct DefinitionId {
    pub snapshot: SnapshotId,
    pub local: u64,
}

impl View for DefinitionId {
    type V = LocalIdView;

    open spec fn view(&self) -> LocalIdView {
        LocalIdView { snapshot: self.snapshot@, local: self.local }
    }
}

impl Clone for DefinitionId {
    fn clone(&self) -> (res: Self)
        ensures
            res == *self,
    {
        DefinitionId { snapshot: self.snapshot.clone(), local: self.local }
    }
}

impl DefinitionId {
    pub fn new(snapshot: SnapshotId, local: u64) -> (res: Self)
        ensures
            res.snapshot == snapshot,
            res.local == local,
    {
        DefinitionId { snapshot, local }
    }

    pub fn same(&self, other: &DefinitionId) -> (res: bool)
        ensures
            res == (self@ == other@),
    {
        self.local == other.local && self.snapshot.same(&other.snapshot)
    }
}

#[derive(Debug, PartialEq, Eq, PartialOrd, Ord, Hash)]
pub struct CallSiteId {
    pub snapshot: SnapshotId,
    pub local: u64,
}

impl View for CallSiteId {
    type V = LocalIdView;

    open spec fn view(&self) -> LocalIdView {
        LocalIdView { snapshot: self.snapshot@, local: self.local }
    }
}

impl Clone for CallSiteId {
    fn clone(&self) -> (res: Self)
        ensures
            res == *self,
    {
        CallSiteId { snapshot: self.snapshot.clone(), local: self.local }
    }
}

impl CallSiteId {
    pub fn new(snapshot: SnapshotId, local: u64) -> (res: Self)
        ensures
            res.snapshot == snapshot,
            res.local == local,
    {
        CallSiteId { snapshot, local }
    }

    pub fn same(&self, other: &CallSiteId) -> (res: bool)
        ensures
            res == (self@ == other@),
    {
        self.local == other.local && self.snapshot.same(&other.snapshot)
    }
}

#[derive(Debug, PartialEq, Eq, PartialOrd, Ord, Hash)]
pub struct ProcedureId {
    pub snapshot: SnapshotId,
    pub local: u64,
}

impl View for ProcedureId {
    type V = LocalIdView;

    open spec fn view(&self) -> LocalIdView {
        LocalIdView { snapshot: self.snapshot@, local: self.local }
    }
}

impl Clone for ProcedureId {
    fn clone(&self) -> (res: Self)
        ensures
            res == *self,
    {
        ProcedureId { snapshot: self.snapshot.clone(), local: self.local }
    }
}

impl ProcedureId {
    pub fn new(snapshot: SnapshotId, local: u64) -> (res: Self)
        ensures
            res.snapshot == snapshot,
            res.local == local,
    {
        ProcedureId { snapshot, local }
    }
}

#[derive(Debug, Clone, Copy, PartialEq, Eq, PartialOrd, Ord, Hash, Structural)]
pub struct LogicalNodeId(pub u64);

#[derive(Debug, Clone, Copy, PartialEq, Eq, PartialOrd, Ord, Hash, Structural)]
pub struct LogicalBindingId(pub u64);

#[derive(Debug, Clone, Copy, PartialEq, Eq, PartialOrd, Ord, Hash, Structural)]
pub struct GroupId(pub u64);

#[derive(Debug, Clone, Copy, PartialEq, Eq, PartialOrd, Ord, Hash, Structural)]
pub struct WitnessId(pub u64);

#[derive(Debug, PartialEq, Eq, PartialOrd, Ord, Hash)]
pub struct SourceSpan {
    pub path: String,
    pub byte_start: u64,
    pub byte_end: u64,
    pub start_line: u32,
    pub end_line: u32,
}

impl Clone for SourceSpan {
    fn clone(&self) -> (res: Self)
        ensures
            res == *self,
    {
        SourceSpan {
            path: self.path.clone(),
            byte_start: self.byte_start,
            byte_end: self.byte_end,
            start_line: self.start_line,
            end_line: self.end_line,
        }
    }
}

impl SourceSpan {
    /// Compares two spans by value.
    pub fn same(&self, other: &SourceSpan) -> (res: bool)
        ensures
            res == span_same(*self, *other),
    {
        self.path == other.path && self.byte_start == other.byte_start && self.byte_end
            == other.byte_end && self.start_line == other.start_line && self.end_line
            == other.end_line
    }
}

/// Two spans with equal fields.
pub open spec fn span_same(a: SourceSpan, b: SourceSpan) -> bool {
    a.path@ == b.path@ && a.byte_start == b.byte_start && a.byte_end == b.byte_end && a.start_line
        == b.start_line && a.end_line == b.end_line
}

/// Two optional spans with equal fields.
pub open spec fn option_span_same(a: Option<SourceSpan>, b: Option<SourceSpan>) -> bool {
    match (a, b) {
        (Some(x), Some(y)) => span_same(x, y),
        (None, None) => true,
        _ => false,
    }
}

pub fn option_span_equal(a: &Option<SourceSpan>, b: &Option<SourceSpan>) -> (res: bool)
    ensures
        res == option_span_same(*a, *b),
{
    match (a, b) {
        (Some(x), Some(y)) => x.same(y),
        (None, None) => true,
        _ => false,
    }
}

/// Whether two lists of strings hold the same texts in the same order.
pub fn strings_equal(a: &Vec<String>, b: &Vec<String>) -> (res: bool)
    ensures
        res == (a@.len() == b@.len() && forall|i: int| 0 <= i < a@.len() ==> a@[i]@ == b@[i]@),
{
    if a.len() != b.len() {
        return false;
    }
    let mut i: usize = 0;
    while i < a.len()
        invariant
            a@.len() == b@.len(),
            i <= a.len(),
            forall|j: int| 0 <= j < i ==> a@[j]@ == b@[j]@,
        decreases a.len() - i,
    {
        if a[i] != b[i] {
            return false;
        }
        i = i + 1;
    }
    true
}

/// A span names a file, has ordered byte offsets, and one-based ordered lines.
pub open spec fn span_valid(span: SourceSpan) -> bool {
    &&& span.path@.len() > 0
    &&& span.byte_start <= span.byte_end
    &&& 1 <= span.start_line <= span.end_line
}

/// The reason `SourceSpan::validate` gives for the first rule an invalid span breaks.
pub open spec fn span_error_reason(span: SourceSpan) -> Seq<char> {
    if span.path@.len() == 0 {
        "path must not be empty"@
    } else if span.byte_start > span.byte_end {
        "byte_start exceeds byte_end"@
    } else {
        "lines must be one-based and ordered"@
    }
}

impl SourceSpan {
    pub fn validate(&self) -> (res: Result<(), SchemaError>)
        ensures
            res is Ok <==> span_valid(*self),
            res matches Err(e) ==> e matches SchemaError::InvalidSpan { path, reason } && path
                == self.path && reason@ == span_error_reason(*self),
    {
        if self.path.as_str().is_empty() {
            proof {
                reveal_strlit("path must not be empty");
            }
            return Err(
                SchemaError::InvalidSpan {
                    path: self.path.clone(),
                    reason: "path must not be empty".to_owned(),
                },
            );
        }
        if self.byte_start > self.byte_end {
            proof {
                reveal_strlit("byte_start exceeds byte_end");
            }
            return Err(
                SchemaError::InvalidSpan {
                    path: self.path.clone(),
                    reason: "byte_start exceeds byte_end".to_owned(),
                },
            );
        }
        if self.start_line == 0 || self.start_line > self.end_line {
            proof {
                reveal_strlit("lines must be one-based and ordered");
            }
            return Err(
                SchemaError::InvalidSpan {
                    path: self.path.clone(),
                    reason: "lines must be one-based and ordered".to_owned(),
                },
            );
        }
        Ok(())
    }
}

#[derive(Debug, PartialEq, Eq, PartialOrd, Ord, Hash)]
pub enum Place {
    Binding(BindingId),
    Temporary(NodeId),
}

/// Mathematical value of a place.
pub enum PlaceView {
    Binding(LocalIdView),
    Temporary(LocalIdView),
}

impl View for Place {
    type V = PlaceView;

    open spec fn view(&self) -> PlaceView {
        match self {
            Place::Binding(b) => PlaceView::Binding(b@),
            Place::Temporary(n) => PlaceView::Temporary(n@),
        }
    }
}

impl Clone for Place {
    fn clone(&self) -> (res: Self)
        ensures
            res == *self,
    {
        match self {
            Place::Binding(b) => Place::Binding(b.clone()),
            Place::Temporary(n) => Place::Temporary(n.clone()),
        }
    }
}

impl Place {
    pub fn same(&self, other: &Place) -> (res: bool)
        ensures
            res == (self@ == other@),
    {
        match (self, other) {
            (Place::Binding(a), Place::Binding(b)) => a.same(b),
            (Place::Temporary(a), Place::Temporary(b)) => a.same(b),
            _ => false,
        }
    }
}

#[derive(Debug, PartialEq, Eq, PartialOrd, Ord, Hash)]
pub enum Source {
    Write(DefinitionId),
    ParameterEntry(DefinitionId),
    FunctionInput(BindingId),
    ModeledExternal { model: String, input: String },
}

/// Mathematical value of a value source.
pub enum SourceView {
    Write(LocalIdView),
    ParameterEntry(LocalIdView),
    FunctionInput(LocalIdView),
    ModeledExternal { model: Seq<char>, input: Seq<char> },
}

impl View for Source {
    type V = SourceView;

    open spec fn view(&self) -> SourceView {
        match self {
            Source::Write(d) => SourceView::Write(d@),
            Source::ParameterEntry(d) => SourceView::ParameterEntry(d@),
            Source::FunctionInput(b) => SourceView::FunctionInput(b@),
            Source::ModeledExternal { model, input } => SourceView::ModeledExternal {
                model: model@,
                input: input@,
            },
        }
    }
}

impl Clone for Source {
    fn clone(&self) -> (res: Self)
        ensures
            res == *self,
    {
        match self {
            Source::Write(d) => Source::Write(d.clone()),
            Source::ParameterEntry(d) => Source::ParameterEntry(d.clone()),
            Source::FunctionInput(b) => Source::FunctionInput(b.clone()),
            Source::ModeledExternal { model, input } => Source::ModeledExternal {
                model: model.clone(),
                input: input.clone(),
            },
        }
    }
}

impl Source {
    pub fn same(&self, other: &Source) -> (res: bool)
        ensures
            res == (self@ == other@),
    {
        match (self, other) {
            (Source::Write(a), Source::Write(b)) => a.same(b),
            (Source::ParameterEntry(a), Source::ParameterEntry(b)) => a.same(b),
            (Source::FunctionInput(a), Source::FunctionInput(b)) => a.same(b),
            (
                Source::ModeledExternal { model: m1, input: i1 },
                Source::ModeledExternal { model: m2, input: i2 },
            ) => *m1 == *m2 && *i1 == *i2,
            _ => false,
        }
    }
}

#[derive(Debug, PartialEq, Eq, PartialOrd, Ord, Hash)]
pub enum Fact {
    Zero,
    LastWrite { place: Place, write: DefinitionId },
    Origin { place: Place, source: Source },
}

/// Mathematical value of a dataflow fact.
pub enum FactView {
    Zero,
    LastWrite { place: PlaceView, write: LocalIdView },
    Origin { place: PlaceView, source: SourceView },
}

impl View for Fact {
    type V = FactView;

    open spec fn view(&self) -> FactView {
        match self {
            Fact::Zero => FactView::Zero,
            Fact::LastWrite { place, write } => FactView::LastWrite { place: place@, write: write@ },
            Fact::Origin { place, source } => FactView::Origin { place: place@, source: source@ },
        }
    }
}

impl Clone for Fact {
    fn clone(&self) -> (res: Self)
        ensures
            res == *self,
    {
        match self {
            Fact::Zero => Fact::Zero,
            Fact::LastWrite { place, write } => Fact::LastWrite {
                place: place.clone(),
                write: write.clone(),
            },
            Fact::Origin { place, source } => Fact::Origin {
                place: place.clone(),
                source: source.clone(),
            },
        }
    }
}

impl Fact {
    pub fn same(&self, other: &Fact) -> (res: bool)
        ensures
            res == (self@ == other@),
    {
        match (self, other) {
            (Fact::Zero, Fact::Zero) => true,
            (
                Fact::LastWrite { place: p1, write: w1 },
                Fact::LastWrite { place: p2, write: w2 },
            ) => p1.same(p2) && w1.same(w2),
            (Fact::Origin { place: p1, source: s1 }, Fact::Origin { place: p2, source: s2 }) => {
                p1.same(p2) && s1.same(s2)
            },
            _ => false,
        }
    }
}

#[derive(Debug, Clone, PartialEq, Eq)]
pub struct SnapshotHandle {
    pub id: SnapshotId,
    pub repository_id: String,
}

#[derive(Debug, Clone, Copy, PartialEq, Eq, PartialOrd, Ord, Structural)]
pub enum FileChangeKind {
    Added,
    Deleted,
    Modified,
    Renamed,
}

#[derive(Debug, Clone, PartialEq, Eq, PartialOrd, Ord)]
pub struct FileChange {
    pub kind: FileChangeKind,
    pub before_path: Option<String>,
    pub after_path: Option<String>,
    pub before_content_id: Option<String>,
    pub after_content_id: Option<String>,
}

#[derive(Debug, Clone, PartialEq, Eq)]
pub struct RepositoryDiff {
    pub before_content_id: String,
    pub after_content_id: String,
    pub changes: Vec<FileChange>,
}

#[derive(Debug, Clone, PartialEq, Eq)]
pub struct BindingSelector {
    pub snapshot: SnapshotId,
    pub declaration: SourceSpan,
    pub expected_name: Option<String>,
    pub expected_enclosing_symbol: Option<String>,
}

#[derive(Debug, Clone, PartialEq, Eq, PartialOrd, Ord)]
pub enum KnownValue {
    String { value: String },
    Number { value: String },
    Boolean { value: bool },
    Null,
}

#[derive(Debug, Clone, PartialEq, Eq)]
pub enum EntryPoint {
    ContainingFunction,
    Call {
        call_site: CallSiteId,
        /// Known argument values by zero-based position.
        known_arguments: Vec<(u32, KnownValue)>,
        enclosing_caller_included: bool,
    },
}

#[derive(Debug, Clone, PartialEq, Eq, PartialOrd, Ord)]
pub struct ModelVersion {
    pub name: String,
    pub version: String,
    pub digest: String,
}

#[derive(Debug, Clone, PartialEq, Eq)]
pub struct CapabilitySet {
    pub stage: u16,
    pub capabilities: Vec<String>,
    pub version: String,
}

#[derive(Debug, Clone, Copy, PartialEq, Eq, Structural)]
pub struct AnalysisLimits {
    pub time_ms: u64,
    pub memory_bytes: u64,
    pub processed_path_edges: u64,
    pub witnesses_per_relation: u32,
    pub output_nodes: u64,
}

#[derive(Debug, Clone, PartialEq, Eq)]
pub struct VariableFlowQuery {
    pub before: SnapshotHandle,
    pub after: SnapshotHandle,
    pub diff: RepositoryDiff,
    pub selected_binding: BindingSelector,
    pub counterpart: Option<BindingSelector>,
    pub entry: EntryPoint,
    pub capabilities: CapabilitySet,
    pub summaries: Vec<ModelVersion>,
    pub limits: AnalysisLimits,
}

#[derive(Debug, Clone, Copy, PartialEq, Eq, PartialOrd, Ord, Structural)]
pub enum RelationKind {
    Reaches,
    ValueDependency,
    Controls,
    Argument,
    Return,
    MayWrite,
}

#[derive(Debug, Clone, PartialEq, Eq, PartialOrd, Ord)]
pub enum EvidenceKind {
    Supported,
    Modeled { model: ModelVersion },
    Unresolved { diagnostic: DiagnosticCode },
}

/// Whether the available evidence decides the presence of a particular relation.
///
/// `Absent` is deliberately stronger than an empty result: it is valid only when
/// every relevant alternative was analyzed completely.
#[derive(Debug, Clone, Copy, PartialEq, Eq, PartialOrd, Ord, Structural)]
pub enum RelationPresence {
    Present,
    Absent,
    Unknown,
}

#[derive(Debug, Clone, PartialEq, Eq, PartialOrd, Ord)]
pub struct FlowNode {
    pub id: NodeId,
    pub operation: String,
    pub span: SourceSpan,
    pub enclosing_declaration: Option<String>,
    pub fingerprint: String,
}

#[derive(Debug, Clone, PartialEq, Eq, PartialOrd, Ord)]
pub struct FlowEdge {
    pub source: NodeId,
    pub target: NodeId,
    pub relation: RelationKind,
    pub projection: Option<String>,
    pub condition: Option<String>,
    pub evidence: EvidenceKind,
}

#[derive(Debug, Clone, PartialEq, Eq)]
pub struct FlowGraph {
    pub nodes: Vec<FlowNode>,
    pub edges: Vec<FlowEdge>,
    pub facts: Vec<Fact>,
}

#[derive(Debug, Clone, PartialEq, Eq, PartialOrd, Ord)]
pub struct Alignment {
    pub logical: LogicalNodeId,
    pub before: Option<NodeId>,
    pub after: Option<NodeId>,
    pub evidence: String,
}

#[derive(Debug, Clone, PartialEq, Eq, PartialOrd, Ord)]
pub struct BindingAlignment {
    pub logical: LogicalBindingId,
    pub before: Option<BindingId>,
    pub after: Option<BindingId>,
    pub evidence: String,
}

#[derive(Debug, Clone, PartialEq, Eq, PartialOrd, Ord)]
pub enum AlignmentEntity {
    Binding(BindingId),
    Node(NodeId),
}

#[derive(Debug, Clone, PartialEq, Eq, PartialOrd, Ord)]
pub struct AlignmentCandidate {
    pub before: AlignmentEntity,
    pub after: AlignmentEntity,
}

#[derive(Debug, Clone, PartialEq, Eq, PartialOrd, Ord)]
pub struct AlignmentAmbiguity {
    pub candidates: Vec<AlignmentCandidate>,
    pub evidence: String,
}

#[derive(Debug, Clone, Copy, PartialEq, Eq, PartialOrd, Ord, Structural)]
pub enum MembershipChange {
    Entered,
    Left,
}

#[derive(Debug, Clone, PartialEq, Eq, PartialOrd, Ord)]
pub enum FlowDelta {
    NodeAdded { after: NodeId },
    NodeRemoved { before: NodeId },
    SliceMembershipChanged { logical: LogicalNodeId, change: MembershipChange },
    OperationChanged { logical: LogicalNodeId, before: NodeId, after: NodeId },
    WriteAdded { after: NodeId },
    WriteRemoved { before: NodeId },
    FlowAdded {
        source: LogicalNodeId,
        target: LogicalNodeId,
        relation: RelationKind,
        projection: Option<String>,
    },
    FlowRemoved {
        source: LogicalNodeId,
        target: LogicalNodeId,
        relation: RelationKind,
        projection: Option<String>,
    },
    FlowConditionChanged {
        source: LogicalNodeId,
        target: LogicalNodeId,
        relation: RelationKind,
        projection: Option<String>,
        before: String,
        after: String,
    },
    /// The sources of one input of a consumer changed: their operations,
    /// the bindings they read, or changed operations upstream of them. The
    /// lists are in increasing order without repeats.
    ValueSourceChanged {
        consumer: LogicalNodeId,
        projection: String,
        before_sources: Vec<LogicalNodeId>,
        after_sources: Vec<LogicalNodeId>,
        before_bindings: Vec<LogicalBindingId>,
        after_bindings: Vec<LogicalBindingId>,
        changed_operations: Vec<LogicalNodeId>,
    },
    AnalysisUnknown { subject: String, side: Option<SnapshotSide>, diagnostic: DiagnosticCode },
}

#[derive(Debug, Clone, PartialEq, Eq, PartialOrd, Ord)]
pub struct DeltaRecord {
    pub delta: FlowDelta,
    pub groups: Vec<GroupId>,
    pub before_span: Option<SourceSpan>,
    pub after_span: Option<SourceSpan>,
    pub condition: Option<String>,
}

#[derive(Debug, Clone, PartialEq, Eq, PartialOrd, Ord)]
pub struct Witness {
    pub id: WitnessId,
    pub nodes: Vec<NodeId>,
    pub backedges: Vec<(NodeId, NodeId)>,
    pub summary_expansions: Vec<String>,
    pub evidence: EvidenceKind,
}

#[derive(Debug, Clone, Copy, PartialEq, Eq, PartialOrd, Ord, Hash, Structural)]
pub enum DiagnosticCode {
    UnsupportedSyntax,
    UnresolvedBinding,
    UnresolvedCall,
    UnknownExternalEffect,
    UnknownHeapEffect,
    UnknownSchedule,
    UnprovenPathFeasibility,
    AmbiguousMatch,
    MissingDependency,
    ParseError,
    TypeResolutionUnavailable,
    AccessPathLimit,
    AnalysisBudgetExceeded,
    OutputTruncated,
}

#[derive(Debug, Clone, PartialEq, Eq, PartialOrd, Ord)]
pub struct Diagnostic {
    pub code: DiagnosticCode,
    pub message: String,
    pub snapshot: Option<SnapshotId>,
    pub frontier: Option<NodeId>,
    pub span: Option<SourceSpan>,
    pub affected_flows: Vec<String>,
}

/// Two diagnostics with equal fields.
pub open spec fn diagnostic_same(a: Diagnostic, b: Diagnostic) -> bool {
    &&& a.code == b.code
    &&& a.message@ == b.message@
    &&& match (a.snapshot, b.snapshot) {
        (Some(x), Some(y)) => x@ == y@,
        (None, None) => true,
        _ => false,
    }
    &&& match (a.frontier, b.frontier) {
        (Some(x), Some(y)) => x@ == y@,
        (None, None) => true,
        _ => false,
    }
    &&& option_span_same(a.span, b.span)
    &&& a.affected_flows@.len() == b.affected_flows@.len()
    &&& forall|i: int| 0 <= i < a.affected_flows@.len() ==> a.affected_flows@[i]@ == b.affected_flows@[i]@
}

impl Diagnostic {
    pub fn same(&self, other: &Diagnostic) -> (res: bool)
        ensures
            res == diagnostic_same(*self, *other),
    {
        self.code == other.code && self.message == other.message && match (
            &self.snapshot,
            &other.snapshot,
        ) {
            (Some(x), Some(y)) => x.same(y),
            (None, None) => true,
            _ => false,
        } && match (&self.frontier, &other.frontier) {
            (Some(x), Some(y)) => x.same(y),
            (None, None) => true,
            _ => false,
        } && option_span_equal(&self.span, &other.span) && strings_equal(
            &self.affected_flows,
            &other.affected_flows,
        )
    }
}

/// Adds a diagnostic unless an equal one is present.
pub fn insert_diagnostic(list: &mut Vec<Diagnostic>, item: Diagnostic)
    ensures
        (exists|i: int| 0 <= i < old(list)@.len() && diagnostic_same(old(list)@[i], item))
            ==> final(list)@ == old(list)@,
        !(exists|i: int| 0 <= i < old(list)@.len() && diagnostic_same(old(list)@[i], item))
            ==> final(list)@ == old(list)@.push(item),
{
    let mut i: usize = 0;
    while i < list.len()
        invariant
            i <= list.len(),
            list@ == old(list)@,
            forall|j: int| 0 <= j < i ==> !diagnostic_same(list@[j], item),
        decreases list.len() - i,
    {
        if list[i].same(&item) {
            return;
        }
        i = i + 1;
    }
    list.push(item);
}

/// Two frontiers with equal fields.
pub open spec fn frontier_same(a: UnknownFrontier, b: UnknownFrontier) -> bool {
    a.node@ == b.node@ && a.next_operation@ == b.next_operation@ && a.diagnostic == b.diagnostic
        && a.affected_direction == b.affected_direction
}

/// Adds a frontier unless an equal one is present.
pub fn insert_frontier(list: &mut Vec<UnknownFrontier>, item: UnknownFrontier)
    ensures
        (exists|i: int| 0 <= i < old(list)@.len() && frontier_same(old(list)@[i], item))
            ==> final(list)@ == old(list)@,
        !(exists|i: int| 0 <= i < old(list)@.len() && frontier_same(old(list)@[i], item))
            ==> final(list)@ == old(list)@.push(item),
{
    let mut i: usize = 0;
    while i < list.len()
        invariant
            i <= list.len(),
            list@ == old(list)@,
            forall|j: int| 0 <= j < i ==> !frontier_same(list@[j], item),
        decreases list.len() - i,
    {
        if list[i].node.same(&item.node) && list[i].next_operation == item.next_operation
            && list[i].diagnostic == item.diagnostic && list[i].affected_direction
            == item.affected_direction {
            return;
        }
        i = i + 1;
    }
    list.push(item);
}

#[derive(Debug, PartialEq, Eq, PartialOrd, Ord)]
pub struct UnknownFrontier {
    pub node: NodeId,
    pub next_operation: String,
    pub diagnostic: DiagnosticCode,
    pub affected_direction: Direction,
}

impl Clone for UnknownFrontier {
    fn clone(&self) -> (res: Self)
        ensures
            res == *self,
    {
        UnknownFrontier {
            node: self.node.clone(),
            next_operation: self.next_operation.clone(),
            diagnostic: self.diagnostic,
            affected_direction: self.affected_direction,
        }
    }
}

#[derive(Debug, Clone, Copy, PartialEq, Eq, PartialOrd, Ord, Hash, Structural)]
pub enum Direction {
    Upstream,
    Downstream,
}

#[derive(Debug, Clone, Copy, PartialEq, Eq, PartialOrd, Ord, Hash, Structural)]
pub enum Coverage {
    Complete,
    Partial,
    Unsupported,
}

#[derive(Debug, PartialEq, Eq, PartialOrd, Ord, Hash)]
pub struct AnalysisRegion {
    pub name: String,
    pub direction: Direction,
}

impl Clone for AnalysisRegion {
    fn clone(&self) -> (res: Self)
        ensures
            res == *self,
    {
        AnalysisRegion { name: self.name.clone(), direction: self.direction }
    }
}

impl AnalysisRegion {
    /// Compares two regions by value.
    pub fn same(&self, other: &AnalysisRegion) -> (res: bool)
        ensures
            res == (self.name@ == other.name@ && self.direction == other.direction),
    {
        self.direction == other.direction && self.name == other.name
    }
}

#[derive(Debug, Clone, Copy, PartialEq, Eq, PartialOrd, Ord, Hash, Structural)]
pub enum AnalysisLimitKind {
    Time,
    Memory,
    ProcessedPathEdges,
    OutputNodes,
    WitnessesPerRelation,
}

/// The stable name of each limit kind.
pub open spec fn limit_kind_name(kind: AnalysisLimitKind) -> Seq<char> {
    match kind {
        AnalysisLimitKind::Time => "time"@,
        AnalysisLimitKind::Memory => "memory"@,
        AnalysisLimitKind::ProcessedPathEdges => "processed_path_edges"@,
        AnalysisLimitKind::OutputNodes => "output_nodes"@,
        AnalysisLimitKind::WitnessesPerRelation => "witnesses_per_relation"@,
    }
}

impl AnalysisLimitKind {
    pub fn as_str(self) -> (res: &'static str)
        ensures
            res@ == limit_kind_name(self),
    {
        match self {
            AnalysisLimitKind::Time => {
                proof {
                    reveal_strlit("time");
                }
                "time"
            },
            AnalysisLimitKind::Memory => {
                proof {
                    reveal_strlit("memory");
                }
                "memory"
            },
            AnalysisLimitKind::ProcessedPathEdges => {
                proof {
                    reveal_strlit("processed_path_edges");
                }
                "processed_path_edges"
            },
            AnalysisLimitKind::OutputNodes => {
                proof {
                    reveal_strlit("output_nodes");
                }
                "output_nodes"
            },
            AnalysisLimitKind::WitnessesPerRelation => {
                proof {
                    reveal_strlit("witnesses_per_relation");
                }
                "witnesses_per_relation"
            },
        }
    }
}

#[derive(Debug, Clone, Copy, PartialEq, Eq, PartialOrd, Ord, Structural)]
pub struct LimitReason {
    pub kind: AnalysisLimitKind,
    pub limit: u64,
    pub observed: u64,
}

#[derive(Debug, Clone, PartialEq, Eq)]
pub struct SnapshotExtent {
    pub upstream: Coverage,
    pub downstream: Coverage,
    pub declared_scope: String,
    pub source_boundaries: Vec<String>,
    pub sink_boundaries: Vec<String>,
    pub value_lifecycle_closed: bool,
}

#[derive(Debug, Clone, PartialEq, Eq)]
pub struct FlowExtent {
    pub before: SnapshotExtent,
    pub after: SnapshotExtent,
}

#[derive(Debug, Clone, Copy, PartialEq, Eq, PartialOrd, Ord, Structural)]
pub enum PathEndingKind {
    NoFurtherUse,
    ExecutionExit,
    ScopeBoundary,
    ModeledBoundary,
    UnknownBoundary,
    Cycle,
}

#[derive(Debug, Clone, PartialEq, Eq, PartialOrd, Ord)]
pub struct PathEnding {
    pub kind: PathEndingKind,
    pub origin: Source,
    pub carrier: Place,
    pub location: SourceSpan,
    pub condition: Option<String>,
    pub context: String,
    pub witness: WitnessId,
    pub model: Option<ModelVersion>,
    pub diagnostic: Option<DiagnosticCode>,
}

#[derive(Debug, Clone, Copy, PartialEq, Eq, Structural)]
pub enum Completeness {
    CompleteForQuery,
    Partial,
    Unsupported,
}

#[derive(Debug, Clone, PartialEq, Eq)]
pub struct AnalysisStats {
    pub elapsed_ms: u64,
    pub peak_memory_bytes: u64,
    pub processed_path_edges: u64,
    pub graph_nodes: u64,
    pub graph_edges: u64,
    pub witnesses_emitted: u64,
    pub witnesses_omitted: u64,
    pub limits_hit: Vec<String>,
    pub graph_truncated: bool,
    pub witnesses_truncated: bool,
}

#[derive(Debug, Clone, PartialEq, Eq, PartialOrd, Ord)]
pub struct EntryAssumption {
    pub name: String,
    pub value: Option<KnownValue>,
    pub source: Source,
}

#[derive(Debug, Clone, PartialEq, Eq)]
pub struct ResolvedQuery {
    pub request: VariableFlowQuery,
    pub before_binding: Option<BindingId>,
    pub after_binding: Option<BindingId>,
}

#[derive(Debug, Clone, PartialEq, Eq)]
pub struct VariableFlowReport {
    pub schema_version: u32,
    pub analysis_version: String,
    pub snapshots: Vec<SnapshotId>,
    pub query: ResolvedQuery,
    pub entry_assumptions: Vec<EntryAssumption>,
    pub before_graph: FlowGraph,
    pub after_graph: FlowGraph,
    pub alignment: Vec<Alignment>,
    pub deltas: Vec<DeltaRecord>,
    pub human_summary: String,
    pub witnesses: Vec<Witness>,
    pub diagnostics: Vec<Diagnostic>,
    pub unknown_frontiers: Vec<UnknownFrontier>,
    pub capabilities: CapabilitySet,
    pub summaries_used: Vec<ModelVersion>,
    pub flow_extent: FlowExtent,
    pub path_endings: Vec<PathEnding>,
    pub completeness: Completeness,
    pub region_completeness: Vec<(String, Coverage)>,
    pub stats: AnalysisStats,
}

/// Every span that a report carries is valid.
pub open spec fn report_spans_valid(report: VariableFlowReport) -> bool {
    &&& span_valid(report.query.request.selected_binding.declaration)
    &&& report.query.request.counterpart matches Some(c) ==> span_valid(c.declaration)
    &&& forall|i: int|
        0 <= i < report.before_graph.nodes.len() ==> span_valid(
            (#[trigger] report.before_graph.nodes@[i]).span,
        )
    &&& forall|i: int|
        0 <= i < report.after_graph.nodes.len() ==> span_valid(
            (#[trigger] report.after_graph.nodes@[i]).span,
        )
    &&& forall|i: int|
        0 <= i < report.deltas.len() ==> {
            &&& (#[trigger] report.deltas@[i]).before_span matches Some(s) ==> span_valid(s)
            &&& report.deltas@[i].after_span matches Some(s) ==> span_valid(s)
        }
    &&& forall|i: int|
        0 <= i < report.diagnostics.len() ==> ((#[trigger] report.diagnostics@[i]).span matches Some(
            s,
        ) ==> span_valid(s))
    &&& forall|i: int|
        0 <= i < report.path_endings.len() ==> span_valid(
            (#[trigger] report.path_endings@[i]).location,
        )
}

impl VariableFlowReport {
    /// Accepts a report exactly when it has the supported schema version and
    /// every span it carries is valid; a wrong version is reported first.
    #[verifier::loop_isolation(false)]
    pub fn validate(&self) -> (res: Result<(), SchemaError>)
        ensures
            res is Ok <==> (self.schema_version == REPORT_SCHEMA_VERSION && report_spans_valid(
                *self,
            )),
            self.schema_version != REPORT_SCHEMA_VERSION ==> res == Err::<(), SchemaError>(
                SchemaError::UnsupportedVersion {
                    found: self.schema_version,
                    supported: REPORT_SCHEMA_VERSION,
                },
            ),
            res matches Err(e) ==> (self.schema_version == REPORT_SCHEMA_VERSION ==> e is InvalidSpan),
    {
        if self.schema_version != REPORT_SCHEMA_VERSION {
            return Err(
                SchemaError::UnsupportedVersion {
                    found: self.schema_version,
                    supported: REPORT_SCHEMA_VERSION,
                },
            );
        }
        if let Err(e) = self.query.request.selected_binding.declaration.validate() {
            return Err(e);
        }
        if let Some(counterpart) = &self.query.request.counterpart {
            if let Err(e) = counterpart.declaration.validate() {
                return Err(e);
            }
        }
        let mut i: usize = 0;
        while i < self.before_graph.nodes.len()
            invariant
                0 <= i <= self.before_graph.nodes.len(),
                forall|j: int| 0 <= j < i ==> span_valid(#[trigger] self.before_graph.nodes@[j].span),
            decreases self.before_graph.nodes.len() - i,
        {
            if let Err(e) = self.before_graph.nodes[i].span.validate() {
                return Err(e);
            }
            i = i + 1;
        }
        let mut i: usize = 0;
        while i < self.after_graph.nodes.len()
            invariant
                0 <= i <= self.after_graph.nodes.len(),
                forall|j: int| 0 <= j < i ==> span_valid(#[trigger] self.after_graph.nodes@[j].span),
            decreases self.after_graph.nodes.len() - i,
        {
            if let Err(e) = self.after_graph.nodes[i].span.validate() {
                return Err(e);
            }
            i = i + 1;
        }
        let mut i: usize = 0;
        while i < self.deltas.len()
            invariant
                0 <= i <= self.deltas.len(),
                forall|j: int|
                    0 <= j < i ==> {
                        &&& (#[trigger] self.deltas@[j]).before_span matches Some(s) ==> span_valid(s)
                        &&& self.deltas@[j].after_span matches Some(s) ==> span_valid(s)
                    },
            decreases self.deltas.len() - i,
        {
            if let Some(span) = &self.deltas[i].before_span {
                if let Err(e) = span.validate() {
                    return Err(e);
                }
            }
            if let Some(span) = &self.deltas[i].after_span {
                if let Err(e) = span.validate() {
                    return Err(e);
                }
            }
            i = i + 1;
        }
        let mut i: usize = 0;
        while i < self.diagnostics.len()
            invariant
                0 <= i <= self.diagnostics.len(),
                forall|j: int|
                    0 <= j < i ==> ((#[trigger] self.diagnostics@[j]).span matches Some(s) ==> span_valid(s)),
            decreases self.diagnostics.len() - i,
        {
            if let Some(span) = &self.diagnostics[i].span {
                if let Err(e) = span.validate() {
                    return Err(e);
                }
            }
            i = i + 1;
        }
        let mut i: usize = 0;
        while i < self.path_endings.len()
            invariant
                0 <= i <= self.path_endings.len(),
                forall|j: int| 0 <= j < i ==> span_valid(#[trigger] self.path_endings@[j].location),
            decreases self.path_endings.len() - i,
        {
            if let Err(e) = self.path_endings[i].location.validate() {
                return Err(e);
            }
            i = i + 1;
        }
        Ok(())
    }
}

#[derive(Debug, Clone, PartialEq, Eq)]
pub enum SchemaError {
    UnsupportedVersion { found: u32, supported: u32 },
    InvalidSpan { path: String, reason: String },
    Serialization(String),
}

impl SchemaError {
    /// The error's text; the numbers and the path are written as std
    /// formats them.
    pub fn message(&self) -> (res: String)
        ensures
            match self {
                SchemaError::UnsupportedVersion { .. } => exists|found: Seq<char>, supported: Seq<char>|
                    res@ == "unsupported report schema "@ + found + "; supported schema is "@ + supported,
                SchemaError::InvalidSpan { reason, .. } => exists|path: Seq<char>|
                    res@ == "invalid source span for "@ + path + ": "@ + reason@,
                SchemaError::Serialization(reason) => res@ == "invalid report encoding: "@ + reason@,
            },
    {
        match self {
            SchemaError::UnsupportedVersion { found, supported } => String::from_str(
                "unsupported report schema ",
            ).concat(found.to_string().as_str()).concat("; supported schema is ").concat(
                supported.to_string().as_str(),
            ),
            SchemaError::InvalidSpan { path, reason } => String::from_str(
                "invalid source span for ",
            ).concat(crate::ifds::ir::debug_text(path).as_str()).concat(": ").concat(
                reason.as_str(),
            ),
            SchemaError::Serialization(reason) => String::from_str("invalid report encoding: ").concat(
                reason.as_str(),
            ),
        }
    }
}

#[derive(Debug, Clone, PartialEq, Eq)]
pub enum InputError {
    InvalidSelector(String),
    SnapshotMismatch(String),
    CapabilityMismatch(String),
    InvalidDiff(String),
}

impl InputError {
    /// The explanation the error carries.
    pub fn message(&self) -> (res: String)
        ensures
            res@ == match self {
                InputError::InvalidSelector(m) => m@,
                InputError::SnapshotMismatch(m) => m@,
                InputError::CapabilityMismatch(m) => m@,
                InputError::InvalidDiff(m) => m@,
            },
    {
        match self {
            InputError::InvalidSelector(m) => m.clone(),
            InputError::SnapshotMismatch(m) => m.clone(),
            InputError::CapabilityMismatch(m) => m.clone(),
            InputError::InvalidDiff(m) => m.clone(),
        }
    }
}

} // verus!
