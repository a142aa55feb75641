//! A source/observation projection of the full variable-flow report.
//!
//! Identifiers here are local to one report pair. The full report stays the
//! authority for graph edges, witnesses and diagnostics; every evidence
//! reference of the projection points into that exact report.
use vstd::prelude::*;
use vstd::string::StringSliceAdditionalSpecFns;
use crate::ifds::adapters::typescript::syntax::str_equal;
use crate::ifds::branches::{BranchPaths, FactTest, text_less};
use crate::ifds::ir::{EdgeKind, Operation, PrimitiveOperator, ProcedureIr, debug_text, find_node};
use crate::ifds::model::{
    Alignment, BindingId, BindingSelector, Completeness, Coverage, DefinitionId, DiagnosticCode,
    EntryAssumption, EvidenceKind, Fact, FlowDelta, FlowGraph, LogicalBindingId, LogicalNodeId,
    NodeId, Place, RelationKind, SchemaError, SnapshotId, SnapshotSide, Source, SourceSpan,
    VariableFlowReport, ResolvedQuery, DeltaRecord, Witness, Diagnostic, UnknownFrontier, CapabilitySet,
    ModelVersion, FlowExtent, PathEnding, AnalysisStats,
};
use crate::ifds::provenance::seed_entry_facts;
use crate::ifds::comparison::side_pairs;
use crate::ifds::snapshots::{fnv1a_spec, hex16, hex_spec};

verus! {

/// Version of the projection's schema.
pub const COMPACT_SCHEMA_VERSION: u32 = 1;

/// A place in the full report: a section and an index into it.
#[derive(Debug, PartialEq, Eq)]
pub struct EvidenceRef {
    pub report_id: String,
    pub section: String,
    pub index: usize,
}

impl Clone for EvidenceRef {
    fn clone(&self) -> (res: Self)
        ensures
            res == *self,
    {
        EvidenceRef { report_id: self.report_id.clone(), section: self.section.clone(), index: self.index }
    }
}

/// An operation of one snapshot with its label, span and evidence.
#[derive(Debug, Clone, PartialEq, Eq)]
pub struct SourceSite {
    pub node: NodeId,
    pub operation: String,
    pub span: SourceSpan,
    pub evidence: EvidenceRef,
}

#[derive(Debug, Clone, Copy, PartialEq, Eq, Structural)]
pub enum SourceRole {
    Writer,
    Input,
    Computation,
    Literal,
    Other,
}

/// A value source, with its sites, upstream sources and assignment guards.
#[derive(Debug, Clone, PartialEq, Eq)]
pub struct SourceDefinition {
    pub id: LogicalNodeId,
    pub role: SourceRole,
    pub before: Option<SourceSite>,
    pub after: Option<SourceSite>,
    pub before_upstream: Vec<LogicalNodeId>,
    pub after_upstream: Vec<LogicalNodeId>,
    pub before_assignment_guard: Option<Vec<GuardClause>>,
    pub after_assignment_guard: Option<Vec<GuardClause>>,
}

/// A branch operation, with what its condition reads on each side.
#[derive(Debug, Clone, PartialEq, Eq)]
pub struct ControlDefinition {
    pub id: LogicalNodeId,
    pub before: Option<SourceSite>,
    pub after: Option<SourceSite>,
    pub before_value: Option<ConditionIdentity>,
    pub after_value: Option<ConditionIdentity>,
}

/// The binding a branch condition reads, and the writes and origins that
/// reach it.
#[derive(Debug, Clone, PartialEq, Eq)]
pub struct ConditionIdentity {
    pub read: Option<NodeId>,
    pub binding: Option<BindingId>,
    pub reaching_writes: Vec<DefinitionId>,
    pub origins: Vec<Source>,
}

/// One branch outcome.
#[derive(Debug, Clone, Copy, PartialEq, Eq, Structural)]
pub struct GuardTerm {
    pub control: LogicalNodeId,
    pub outcome: bool,
}

/// A conjunction of branch outcomes, ordered, without repeats.
#[derive(Debug, PartialEq, Eq)]
pub struct GuardClause {
    pub terms: Vec<GuardTerm>,
}

impl Clone for GuardClause {
    fn clone(&self) -> (res: Self)
        ensures
            res.terms@ == self.terms@,
    {
        let mut terms: Vec<GuardTerm> = Vec::new();
        let mut k: usize = 0;
        while k < self.terms.len()
            invariant
                k <= self.terms@.len(),
                terms@ == self.terms@.take(k as int),
            decreases self.terms.len() - k,
        {
            terms.push(self.terms[k]);
            proof {
                assert(self.terms@.take(k + 1) =~= self.terms@.take(k as int).push(self.terms@[k as int]));
            }
            k = k + 1;
        }
        proof {
            assert(self.terms@.take(k as int) =~= self.terms@);
        }
        GuardClause { terms }
    }
}

/// The branch takes the term's outcome.
pub open spec fn term_holds(t: GuardTerm, outcome: spec_fn(LogicalNodeId) -> bool) -> bool {
    outcome(t.control) == t.outcome
}

/// Every term of the conjunction holds.
pub open spec fn conjunction_holds(terms: Seq<GuardTerm>, outcome: spec_fn(LogicalNodeId) -> bool) -> bool {
    forall|i: int| 0 <= i < terms.len() ==> term_holds(#[trigger] terms[i], outcome)
}

/// Some conjunction of the disjunction holds.
pub open spec fn guard_holds(clauses: Seq<GuardClause>, outcome: spec_fn(LogicalNodeId) -> bool) -> bool {
    exists|k: int| 0 <= k < clauses.len() && conjunction_holds(#[trigger] clauses[k].terms@, outcome)
}

/// A conjunction holds when a conjunction with all of its terms holds.
proof fn lemma_conjunction_subset(a: Seq<GuardTerm>, b: Seq<GuardTerm>, outcome: spec_fn(LogicalNodeId) -> bool)
    requires
        forall|i: int| 0 <= i < a.len() ==> b.contains(#[trigger] a[i]),
        conjunction_holds(b, outcome),
    ensures
        conjunction_holds(a, outcome),
{
    assert forall|i: int| 0 <= i < a.len() implies term_holds(#[trigger] a[i], outcome) by {
        assert(b.contains(a[i]));
        let j = choose|j: int| 0 <= j < b.len() && b[j] == a[i];
        assert(term_holds(b[j], outcome));
    }
}

/// When one source reaches an observation: a disjunction of guard clauses
/// (`None` when the precise rule is unavailable; one empty clause when the
/// source is unconditional).
#[derive(Debug, Clone, PartialEq, Eq)]
pub struct SourceSelection {
    pub source: LogicalNodeId,
    pub clauses: Option<Vec<GuardClause>>,
    pub exact_condition_count: usize,
    pub exact_condition_example: Option<String>,
    pub evidence: Vec<EvidenceRef>,
}

/// A later write that overrides an earlier one to the same place.
#[derive(Debug, Clone, Copy, PartialEq, Eq, Structural)]
pub struct OverwriteRule {
    pub earlier: LogicalNodeId,
    pub later: LogicalNodeId,
}

/// What reaches an observation on one side.
#[derive(Debug, Clone, PartialEq, Eq)]
pub struct ObservationState {
    pub sources: Vec<LogicalNodeId>,
    pub exhaustive: bool,
    pub selections: Vec<SourceSelection>,
    pub precedence: Vec<OverwriteRule>,
    pub use_guard: Option<Vec<GuardClause>>,
}

/// One input of one operation that receives values.
#[derive(Debug, Clone, PartialEq, Eq)]
pub struct Observation {
    pub id: LogicalNodeId,
    pub projection: String,
    pub before: Option<SourceSite>,
    pub after: Option<SourceSite>,
    pub before_state: Option<ObservationState>,
    pub after_state: Option<ObservationState>,
}

#[derive(Debug, Clone, PartialEq, Eq)]
pub struct ObservationRef {
    pub id: LogicalNodeId,
    pub projection: String,
}

/// Observations with the same states and labels.
#[derive(Debug, Clone, PartialEq, Eq)]
pub struct ObservationGroup {
    pub id: u32,
    pub members: Vec<ObservationRef>,
}

#[derive(Debug, Clone, Copy, PartialEq, Eq, Structural)]
pub enum FindingKind {
    SourceSetChanged,
    SelectionChanged,
    ExpressionChanged,
    WriteAdded,
    WriteRemoved,
    ObservationAdded,
    ObservationRemoved,
    ComparisonUnresolved,
}

/// One established change, with the evidence that supports it.
#[derive(Debug, Clone, PartialEq, Eq)]
pub struct Finding {
    pub kind: FindingKind,
    pub subject: LogicalNodeId,
    pub observation: Option<LogicalNodeId>,
    pub projection: Option<String>,
    pub before_sources: Vec<LogicalNodeId>,
    pub after_sources: Vec<LogicalNodeId>,
    pub before_bindings: Vec<LogicalBindingId>,
    pub after_bindings: Vec<LogicalBindingId>,
    pub changed_operations: Vec<LogicalNodeId>,
    pub evidence: Vec<EvidenceRef>,
}

/// The projection of one full report.
#[derive(Debug, Clone, PartialEq, Eq)]
pub struct VariableSourceReport {
    pub schema_version: u32,
    pub analysis_version: String,
    pub full_report_id: String,
    pub evidence_file: String,
    pub snapshots: Vec<SnapshotId>,
    pub selected_binding: BindingSelector,
    pub entry_assumptions: Vec<EntryAssumption>,
    pub declared_scope: String,
    pub sources: Vec<SourceDefinition>,
    pub controls: Vec<ControlDefinition>,
    pub observations: Vec<Observation>,
    pub observation_groups: Vec<ObservationGroup>,
    pub findings: Vec<Finding>,
    pub analysis_coverage: Completeness,
    pub comparison_complete: bool,
    pub presentation_complete: bool,
    pub omitted_groups: usize,
    pub diagnostics: Vec<DiagnosticCode>,
    pub source_boundaries: Vec<String>,
    pub sink_boundaries: Vec<String>,
}

// ---------------------------------------------------------------------------
// Evidence references.

/// The sections of the full report that evidence may point into.
pub open spec fn section_len(full: VariableFlowReport, section: Seq<char>) -> Option<int> {
    if section == "before_graph.nodes"@ {
        Some(full.before_graph.nodes@.len() as int)
    } else if section == "after_graph.nodes"@ {
        Some(full.after_graph.nodes@.len() as int)
    } else if section == "before_graph.edges"@ {
        Some(full.before_graph.edges@.len() as int)
    } else if section == "after_graph.edges"@ {
        Some(full.after_graph.edges@.len() as int)
    } else if section == "deltas"@ {
        Some(full.deltas@.len() as int)
    } else {
        None
    }
}

/// A reference names this report and an index inside a known section.
pub open spec fn reference_valid(r: EvidenceRef, id: Seq<char>, full: VariableFlowReport) -> bool {
    &&& r.report_id@ == id
    &&& section_len(full, r.section@) matches Some(n) && r.index < n
}

fn reference_ok(r: &EvidenceRef, id: &String, full: &VariableFlowReport) -> (res: bool)
    ensures
        res == reference_valid(*r, id@, *full),
{
    proof {
        reveal_strlit("before_graph.nodes");
        reveal_strlit("after_graph.nodes");
        reveal_strlit("before_graph.edges");
        reveal_strlit("after_graph.edges");
        reveal_strlit("deltas");
    }
    if !str_equal(r.report_id.as_str(), id.as_str()) {
        return false;
    }
    let section = r.section.as_str();
    if str_equal(section, "before_graph.nodes") {
        r.index < full.before_graph.nodes.len()
    } else if str_equal(section, "after_graph.nodes") {
        r.index < full.after_graph.nodes.len()
    } else if str_equal(section, "before_graph.edges") {
        r.index < full.before_graph.edges.len()
    } else if str_equal(section, "after_graph.edges") {
        r.index < full.after_graph.edges.len()
    } else if str_equal(section, "deltas") {
        r.index < full.deltas.len()
    } else {
        false
    }
}

/// The site's reference, if there is a site, is valid.
pub open spec fn site_ok(s: Option<SourceSite>, id: Seq<char>, full: VariableFlowReport) -> bool {
    s matches Some(site) ==> reference_valid(site.evidence, id, full)
}

/// Every reference of every selection of the state is valid.
pub open spec fn state_ok(s: Option<ObservationState>, id: Seq<char>, full: VariableFlowReport) -> bool {
    s matches Some(state) ==> forall|k: int, j: int|
        0 <= k < state.selections@.len() && 0 <= j < state.selections@[k].evidence@.len()
            ==> reference_valid(#[trigger] state.selections@[k].evidence@[j], id, full)
}

/// Every evidence reference of the projection is valid.
pub open spec fn references_ok(c: VariableSourceReport, full: VariableFlowReport) -> bool {
    let id = c.full_report_id@;
    &&& forall|i: int| 0 <= i < c.sources@.len() ==> site_ok((#[trigger] c.sources@[i]).before, id, full)
        && site_ok(c.sources@[i].after, id, full)
    &&& forall|i: int| 0 <= i < c.controls@.len() ==> site_ok((#[trigger] c.controls@[i]).before, id, full)
        && site_ok(c.controls@[i].after, id, full)
    &&& forall|i: int| 0 <= i < c.observations@.len() ==> site_ok(
        (#[trigger] c.observations@[i]).before,
        id,
        full,
    ) && site_ok(c.observations@[i].after, id, full) && state_ok(c.observations@[i].before_state, id, full)
        && state_ok(c.observations@[i].after_state, id, full)
    &&& forall|i: int, j: int| 0 <= i < c.findings@.len() && 0 <= j < c.findings@[i].evidence@.len()
        ==> reference_valid(#[trigger] c.findings@[i].evidence@[j], id, full)
}

/// The projection belongs to the report: the supported schema version, the
/// report's identity and snapshots, and only valid evidence references.
pub open spec fn validates_against(c: VariableSourceReport, full: VariableFlowReport) -> bool {
    &&& c.schema_version == COMPACT_SCHEMA_VERSION
    &&& c.full_report_id@ == report_id_spec(full)
    &&& snapshots_same(c.snapshots@, full.snapshots@)
    &&& references_ok(c, full)
}

/// Two lists of snapshot identities with equal values in order.
pub open spec fn snapshots_same(a: Seq<SnapshotId>, b: Seq<SnapshotId>) -> bool {
    a.len() == b.len() && forall|i: int| 0 <= i < a.len() ==> (#[trigger] a[i])@ == b[i]@
}

fn snapshot_lists_same(a: &Vec<SnapshotId>, b: &Vec<SnapshotId>) -> (res: bool)
    ensures
        res == snapshots_same(a@, b@),
{
    if a.len() != b.len() {
        return false;
    }
    let mut k: usize = 0;
    while k < a.len()
        invariant
            k <= a@.len(),
            a@.len() == b@.len(),
            forall|i: int| 0 <= i < k ==> (#[trigger] a@[i])@ == b@[i]@,
        decreases a.len() - k,
    {
        if !a[k].same(&b[k]) {
            return false;
        }
        k = k + 1;
    }
    true
}

fn invalid_reference(r: &EvidenceRef) -> SchemaError {
    SchemaError::Serialization(
        String::from_str("invalid compact evidence reference: ").concat(debug_text(r).as_str()),
    )
}

fn check_site(s: &Option<SourceSite>, id: &String, full: &VariableFlowReport) -> (res: Result<(), SchemaError>)
    ensures
        res is Ok <==> site_ok(*s, id@, *full),
{
    match s {
        Some(site) => {
            if reference_ok(&site.evidence, id, full) {
                Ok(())
            } else {
                Err(invalid_reference(&site.evidence))
            }
        },
        None => Ok(()),
    }
}

#[verifier::loop_isolation(false)]
fn check_state(s: &Option<ObservationState>, id: &String, full: &VariableFlowReport) -> (res: Result<(), SchemaError>)
    ensures
        res is Ok <==> state_ok(*s, id@, *full),
{
    if let Some(state) = s {
        let mut k: usize = 0;
        while k < state.selections.len()
            invariant
                k <= state.selections@.len(),
                forall|a: int, j: int|
                    0 <= a < k && 0 <= j < state.selections@[a].evidence@.len() ==> reference_valid(
                        #[trigger] state.selections@[a].evidence@[j],
                        id@,
                        *full,
                    ),
            decreases state.selections.len() - k,
        {
            let evidence = &state.selections[k].evidence;
            let mut j: usize = 0;
            while j < evidence.len()
                invariant
                    k < state.selections@.len(),
                    evidence@ == state.selections@[k as int].evidence@,
                    j <= evidence@.len(),
                    forall|a: int, b: int|
                        0 <= a < k && 0 <= b < state.selections@[a].evidence@.len() ==> reference_valid(
                            #[trigger] state.selections@[a].evidence@[b],
                            id@,
                            *full,
                        ),
                    forall|b: int| 0 <= b < j ==> reference_valid(#[trigger] evidence@[b], id@, *full),
                decreases evidence.len() - j,
            {
                if !reference_ok(&evidence[j], id, full) {
                    return Err(invalid_reference(&evidence[j]));
                }
                j = j + 1;
            }
            k = k + 1;
        }
    }
    Ok(())
}

fn unsupported_version(found: u32) -> (res: SchemaError)
    ensures
        res == unsupported_version_spec(found),
{
    SchemaError::UnsupportedVersion { found, supported: COMPACT_SCHEMA_VERSION }
}

impl VariableSourceReport {
    /// Checks the projection against the full report it was made from: the
    /// schema version, the report identity and snapshots, and that every
    /// evidence reference names this report and an index inside a section.
    #[verifier::loop_isolation(false)]
    pub fn validate_with_full(&self, full: &VariableFlowReport) -> (res: Result<(), SchemaError>)
        ensures
            self.schema_version != COMPACT_SCHEMA_VERSION ==> res == Err::<(), SchemaError>(
                unsupported_version_spec(self.schema_version),
            ),
            res is Ok <==> validates_against(*self, *full),
    {
        if self.schema_version != COMPACT_SCHEMA_VERSION {
            return Err(unsupported_version(self.schema_version));
        }
        let identity = report_id(full);
        if !str_equal(self.full_report_id.as_str(), identity.as_str()) || !snapshot_lists_same(
            &self.snapshots,
            &full.snapshots,
        ) {
            return Err(
                SchemaError::Serialization(
                    String::from_str("compact report does not match full evidence"),
                ),
            );
        }
        let id = &self.full_report_id;
        let mut k: usize = 0;
        while k < self.sources.len()
            invariant
                k <= self.sources@.len(),
                forall|i: int| 0 <= i < k ==> site_ok((#[trigger] self.sources@[i]).before, id@, *full)
                    && site_ok(self.sources@[i].after, id@, *full),
            decreases self.sources.len() - k,
        {
            check_site(&self.sources[k].before, id, full)?;
            check_site(&self.sources[k].after, id, full)?;
            k = k + 1;
        }
        let mut k: usize = 0;
        while k < self.controls.len()
            invariant
                k <= self.controls@.len(),
                forall|i: int| 0 <= i < k ==> site_ok((#[trigger] self.controls@[i]).before, id@, *full)
                    && site_ok(self.controls@[i].after, id@, *full),
            decreases self.controls.len() - k,
        {
            check_site(&self.controls[k].before, id, full)?;
            check_site(&self.controls[k].after, id, full)?;
            k = k + 1;
        }
        let mut k: usize = 0;
        while k < self.observations.len()
            invariant
                k <= self.observations@.len(),
                forall|i: int| 0 <= i < k ==> site_ok((#[trigger] self.observations@[i]).before, id@, *full)
                    && site_ok(self.observations@[i].after, id@, *full),
            decreases self.observations.len() - k,
        {
            check_site(&self.observations[k].before, id, full)?;
            check_site(&self.observations[k].after, id, full)?;
            k = k + 1;
        }
        let mut k: usize = 0;
        while k < self.observations.len()
            invariant
                k <= self.observations@.len(),
                forall|i: int| 0 <= i < k ==> state_ok((#[trigger] self.observations@[i]).before_state, id@, *full)
                    && state_ok(self.observations@[i].after_state, id@, *full),
            decreases self.observations.len() - k,
        {
            check_state(&self.observations[k].before_state, id, full)?;
            check_state(&self.observations[k].after_state, id, full)?;
            k = k + 1;
        }
        let mut k: usize = 0;
        while k < self.findings.len()
            invariant
                k <= self.findings@.len(),
                forall|i: int, j: int| 0 <= i < k && 0 <= j < self.findings@[i].evidence@.len()
                    ==> reference_valid(#[trigger] self.findings@[i].evidence@[j], id@, *full),
            decreases self.findings.len() - k,
        {
            let evidence = &self.findings[k].evidence;
            let mut j: usize = 0;
            while j < evidence.len()
                invariant
                    k < self.findings@.len(),
                    evidence@ == self.findings@[k as int].evidence@,
                    j <= evidence@.len(),
                    forall|i: int, b: int| 0 <= i < k && 0 <= b < self.findings@[i].evidence@.len()
                        ==> reference_valid(#[trigger] self.findings@[i].evidence@[b], id@, *full),
                    forall|b: int| 0 <= b < j ==> reference_valid(#[trigger] evidence@[b], id@, *full),
                decreases evidence.len() - j,
            {
                if !reference_ok(&evidence[j], id, full) {
                    return Err(invalid_reference(&evidence[j]));
                }
                j = j + 1;
            }
            k = k + 1;
        }
        Ok(())
    }
}

pub open spec fn unsupported_version_spec(found: u32) -> SchemaError {
    SchemaError::UnsupportedVersion { found, supported: COMPACT_SCHEMA_VERSION }
}

// ---------------------------------------------------------------------------
// Report identity.

fn stable_hash(bytes: &Vec<u8>) -> (res: u64)
    ensures
        res == fnv1a_spec(bytes@),
{
    let mut hash: u64 = 0xcbf29ce484222325;
    let mut k: usize = 0;
    while k < bytes.len()
        invariant
            k <= bytes@.len(),
            hash == fnv1a_spec(bytes@.take(k as int)),
        decreases bytes.len() - k,
    {
        proof {
            assert(bytes@.take(k + 1).drop_last() =~= bytes@.take(k as int));
        }
        hash = (hash ^ (bytes[k] as u64)).wrapping_mul(0x100000001b3);
        k = k + 1;
    }
    proof {
        assert(bytes@.take(k as int) =~= bytes@);
    }
    hash
}

/// The bytes of the `Debug` form of a report's fields, its human summary
/// aside, as two tuples in field order.
pub uninterp spec fn report_form_bytes(
    schema_version: u32,
    analysis_version: Seq<char>,
    snapshots: Seq<SnapshotId>,
    query: ResolvedQuery,
    entry_assumptions: Seq<EntryAssumption>,
    before_graph: FlowGraph,
    after_graph: FlowGraph,
    alignment: Seq<Alignment>,
    deltas: Seq<DeltaRecord>,
    witnesses: Seq<Witness>,
    diagnostics: Seq<Diagnostic>,
    unknown_frontiers: Seq<UnknownFrontier>,
    capabilities: CapabilitySet,
    summaries_used: Seq<ModelVersion>,
    flow_extent: FlowExtent,
    path_endings: Seq<PathEnding>,
    completeness: Completeness,
    region_completeness: Seq<(String, Coverage)>,
    stats: AnalysisStats,
) -> Seq<u8>;

/// The bytes that std's `format!("{:?}{:?}", first, second)` writes for the
/// two tuples of fields handed to it. The text is named, not stated: it is
/// what std's derived formatting writes for these values.
#[verifier::external_body]
fn form_bytes(
    schema_version: &u32,
    analysis_version: &String,
    snapshots: &Vec<SnapshotId>,
    query: &ResolvedQuery,
    entry_assumptions: &Vec<EntryAssumption>,
    before_graph: &FlowGraph,
    after_graph: &FlowGraph,
    alignment: &Vec<Alignment>,
    deltas: &Vec<DeltaRecord>,
    witnesses: &Vec<Witness>,
    diagnostics: &Vec<Diagnostic>,
    unknown_frontiers: &Vec<UnknownFrontier>,
    capabilities: &CapabilitySet,
    summaries_used: &Vec<ModelVersion>,
    flow_extent: &FlowExtent,
    path_endings: &Vec<PathEnding>,
    completeness: &Completeness,
    region_completeness: &Vec<(String, Coverage)>,
    stats: &AnalysisStats,
) -> (res: Vec<u8>)
    ensures
        res@ == report_form_bytes(
            *schema_version,
            analysis_version@,
            snapshots@,
            *query,
            entry_assumptions@,
            *before_graph,
            *after_graph,
            alignment@,
            deltas@,
            witnesses@,
            diagnostics@,
            unknown_frontiers@,
            *capabilities,
            summaries_used@,
            *flow_extent,
            path_endings@,
            *completeness,
            region_completeness@,
            *stats,
        ),
{
    format!(
        "{:?}{:?}",
        (schema_version, analysis_version, snapshots, query, entry_assumptions, before_graph, after_graph, alignment, deltas, witnesses),
        (diagnostics, unknown_frontiers, capabilities, summaries_used, flow_extent, path_endings, completeness, region_completeness, stats),
    ).into_bytes()
}

/// The form of a report that its identity hashes: every field but the
/// human summary, which is written from the projection that carries the
/// identity.
pub open spec fn report_form(full: VariableFlowReport) -> Seq<u8> {
    report_form_bytes(
        full.schema_version,
        full.analysis_version@,
        full.snapshots@,
        full.query,
        full.entry_assumptions@,
        full.before_graph,
        full.after_graph,
        full.alignment@,
        full.deltas@,
        full.witnesses@,
        full.diagnostics@,
        full.unknown_frontiers@,
        full.capabilities,
        full.summaries_used@,
        full.flow_extent,
        full.path_endings@,
        full.completeness,
        full.region_completeness@,
        full.stats,
    )
}

/// The identity of a full report: `ifds-` and the hash of its form.
pub open spec fn report_id_spec(full: VariableFlowReport) -> Seq<char> {
    "ifds-"@ + hex_spec(fnv1a_spec(report_form(full)), 16)
}

/// A report's identity does not depend on its human summary.
pub proof fn lemma_report_id_ignores_summary(a: VariableFlowReport, b: VariableFlowReport)
    requires
        (VariableFlowReport { human_summary: b.human_summary, ..a }) == b,
    ensures
        report_id_spec(a) == report_id_spec(b),
{
}

fn report_id(full: &VariableFlowReport) -> (res: String)
    ensures
        res@ == report_id_spec(*full),
{
    proof {
        reveal_strlit("ifds-");
    }
    let bytes = form_bytes(
        &full.schema_version,
        &full.analysis_version,
        &full.snapshots,
        &full.query,
        &full.entry_assumptions,
        &full.before_graph,
        &full.after_graph,
        &full.alignment,
        &full.deltas,
        &full.witnesses,
        &full.diagnostics,
        &full.unknown_frontiers,
        &full.capabilities,
        &full.summaries_used,
        &full.flow_extent,
        &full.path_endings,
        &full.completeness,
        &full.region_completeness,
        &full.stats,
    );
    String::from_str("ifds-").concat(hex16(stable_hash(&bytes)).as_str())
}

// ---------------------------------------------------------------------------
// Ordered sets kept as vectors.

/// Whether a logical identifier is in a list.
fn has_id(list: &Vec<LogicalNodeId>, id: LogicalNodeId) -> (res: bool)
    ensures
        res == list@.contains(id),
{
    let mut k: usize = 0;
    while k < list.len()
        invariant
            k <= list@.len(),
            forall|i: int| 0 <= i < k ==> list@[i] != id,
        decreases list.len() - k,
    {
        if list[k] == id {
            return true;
        }
        k = k + 1;
    }
    false
}

/// Adds an identifier to a list kept in increasing order without repeats.
fn insert_id(list: &mut Vec<LogicalNodeId>, id: LogicalNodeId)
    ensures
        forall|x: LogicalNodeId| final(list)@.contains(x) <==> (old(list)@.contains(x) || x == id),
{
    if has_id(list, id) {
        return;
    }
    let mut k: usize = 0;
    while k < list.len() && list[k].0 < id.0
        invariant
            k <= list@.len(),
        decreases list.len() - k,
    {
        k = k + 1;
    }
    let ghost before = list@;
    list.insert(k, id);
    proof {
        assert forall|x: LogicalNodeId| list@.contains(x) <==> (before.contains(x) || x == id) by {
            if list@.contains(x) {
                let i = choose|i: int| 0 <= i < list@.len() && list@[i] == x;
                if i < k {
                    assert(before[i] == x);
                } else if i > k {
                    assert(before[i - 1] == x);
                }
            }
            if before.contains(x) {
                let i = choose|i: int| 0 <= i < before.len() && before[i] == x;
                if i < k {
                    assert(list@[i] == x);
                } else {
                    assert(list@[i + 1] == x);
                }
            }
            if x == id {
                assert(list@[k as int] == x);
            }
        }
    }
}

/// The order of terms: by control, a false outcome before a true one.
pub open spec fn term_before(a: GuardTerm, b: GuardTerm) -> bool {
    a.control.0 < b.control.0 || (a.control.0 == b.control.0 && !a.outcome && b.outcome)
}

/// The order of conjunctions by their ordered terms, a proper prefix first.
pub open spec fn terms_before(a: Seq<GuardTerm>, b: Seq<GuardTerm>) -> bool
    decreases a.len(),
{
    if a.len() == 0 {
        b.len() > 0
    } else if b.len() == 0 {
        false
    } else if a[0] != b[0] {
        term_before(a[0], b[0])
    } else {
        terms_before(a.drop_first(), b.drop_first())
    }
}

fn term_less(a: GuardTerm, b: GuardTerm) -> (res: bool)
    ensures
        res == term_before(a, b),
{
    a.control.0 < b.control.0 || (a.control.0 == b.control.0 && !a.outcome && b.outcome)
}

fn terms_same(a: &Vec<GuardTerm>, b: &Vec<GuardTerm>) -> (res: bool)
    ensures
        res == (a@ == b@),
{
    if a.len() != b.len() {
        return false;
    }
    let mut k: usize = 0;
    while k < a.len()
        invariant
            k <= a@.len(),
            a@.len() == b@.len(),
            forall|i: int| 0 <= i < k ==> a@[i] == b@[i],
        decreases a.len() - k,
    {
        if a[k] != b[k] {
            return false;
        }
        k = k + 1;
    }
    proof {
        assert(a@ =~= b@);
    }
    true
}

fn has_term(list: &Vec<GuardTerm>, term: GuardTerm) -> (res: bool)
    ensures
        res == list@.contains(term),
{
    let mut k: usize = 0;
    while k < list.len()
        invariant
            k <= list@.len(),
            forall|i: int| 0 <= i < k ==> list@[i] != term,
        decreases list.len() - k,
    {
        if list[k] == term {
            return true;
        }
        k = k + 1;
    }
    false
}

/// Adds a term to a conjunction kept in order without repeats.
fn insert_term(list: &mut Vec<GuardTerm>, term: GuardTerm)
    ensures
        final(list)@.to_set() == old(list)@.to_set().insert(term),
{
    if has_term(list, term) {
        proof {
            assert(list@.to_set().insert(term) =~= list@.to_set());
        }
        return;
    }
    let mut k: usize = 0;
    while k < list.len() && term_less(list[k], term)
        invariant
            k <= list@.len(),
        decreases list.len() - k,
    {
        k = k + 1;
    }
    let ghost before = list@;
    list.insert(k, term);
    proof {
        crate::ifds::seqs::lemma_insert_to_set(before, k as int, term);
    }
}

/// The order of conjunctions: by their ordered terms, a prefix first.
fn clause_less(a: &GuardClause, b: &GuardClause) -> (res: bool)
    ensures
        res == terms_before(a.terms@, b.terms@),
{
    let mut k: usize = 0;
    proof {
        assert(a.terms@.skip(0) =~= a.terms@);
        assert(b.terms@.skip(0) =~= b.terms@);
    }
    while k < a.terms.len() && k < b.terms.len()
        invariant
            k <= a.terms@.len(),
            k <= b.terms@.len(),
            terms_before(a.terms@, b.terms@) == terms_before(a.terms@.skip(k as int), b.terms@.skip(k as int)),
        decreases a.terms.len() - k,
    {
        proof {
            let xs = a.terms@.skip(k as int);
            let ys = b.terms@.skip(k as int);
            assert(xs[0] == a.terms@[k as int]);
            assert(ys[0] == b.terms@[k as int]);
            assert(xs.drop_first() =~= a.terms@.skip(k + 1));
            assert(ys.drop_first() =~= b.terms@.skip(k + 1));
        }
        if a.terms[k] != b.terms[k] {
            return term_less(a.terms[k], b.terms[k]);
        }
        k = k + 1;
    }
    proof {
        let xs = a.terms@.skip(k as int);
        let ys = b.terms@.skip(k as int);
        assert(xs.len() == 0 || ys.len() == 0);
    }
    a.terms.len() < b.terms.len()
}

fn has_clause(list: &Vec<GuardClause>, clause: &GuardClause) -> (res: bool)
    ensures
        res == exists|i: int| 0 <= i < list@.len() && (#[trigger] list@[i]).terms@ == clause.terms@,
{
    let mut k: usize = 0;
    while k < list.len()
        invariant
            k <= list@.len(),
            forall|i: int| 0 <= i < k ==> (#[trigger] list@[i]).terms@ != clause.terms@,
        decreases list.len() - k,
    {
        if terms_same(&list[k].terms, &clause.terms) {
            return true;
        }
        k = k + 1;
    }
    false
}

/// Adds a clause to a disjunction kept in order without repeats.
fn insert_clause(list: &mut Vec<GuardClause>, clause: GuardClause)
    ensures
        forall|outcome: spec_fn(LogicalNodeId) -> bool| #[trigger] guard_holds(final(list)@, outcome) == (
        guard_holds(old(list)@, outcome) || conjunction_holds(clause.terms@, outcome)),
        forall|i: int| 0 <= i < final(list)@.len() ==> (exists|j: int| 0 <= j < old(list)@.len() && old(list)@[j].terms@ == (#[trigger] final(list)@[i]).terms@) || final(list)@[i].terms@ == clause.terms@,
{
    if has_clause(list, &clause) {
        proof {
            assert forall|outcome: spec_fn(LogicalNodeId) -> bool| #[trigger] guard_holds(list@, outcome) == (
            guard_holds(old(list)@, outcome) || conjunction_holds(clause.terms@, outcome)) by {
                let i = choose|i: int| 0 <= i < list@.len() && (#[trigger] list@[i]).terms@ == clause.terms@;
                if conjunction_holds(clause.terms@, outcome) {
                    assert(conjunction_holds(list@[i].terms@, outcome));
                }
            }
        }
        return;
    }
    let mut k: usize = 0;
    while k < list.len() && clause_less(&list[k], &clause)
        invariant
            k <= list@.len(),
        decreases list.len() - k,
    {
        k = k + 1;
    }
    let ghost before = list@;
    let ghost added = clause.terms@;
    list.insert(k, clause);
    proof {
        assert(list@[k as int].terms@ == added);
        assert forall|outcome: spec_fn(LogicalNodeId) -> bool| #[trigger] guard_holds(list@, outcome) == (
        guard_holds(before, outcome) || conjunction_holds(added, outcome)) by {
            if guard_holds(list@, outcome) {
                let i = choose|i: int| 0 <= i < list@.len() && conjunction_holds(#[trigger] list@[i].terms@, outcome);
                if i < k {
                    assert(list@[i] == before[i]);
                } else if i > k {
                    assert(list@[i] == before[i - 1]);
                }
            }
            if guard_holds(before, outcome) {
                let j = choose|j: int| 0 <= j < before.len() && conjunction_holds(#[trigger] before[j].terms@, outcome);
                if j < k {
                    assert(list@[j] == before[j]);
                } else {
                    assert(list@[j + 1] == before[j]);
                }
            }
        }
        assert forall|i: int| 0 <= i < list@.len() implies (exists|j: int| 0 <= j < before.len() && before[j].terms@ == (#[trigger] list@[i]).terms@) || list@[i].terms@ == added by {
            if i < k {
                assert(list@[i] == before[i]);
            } else if i > k {
                assert(list@[i] == before[i - 1]);
            }
        }
    }
}

fn clause_lists_same(a: &Vec<GuardClause>, b: &Vec<GuardClause>) -> (res: bool)
    ensures
        res == (a@.len() == b@.len() && forall|i: int| 0 <= i < a@.len() ==> (#[trigger] a@[i]).terms@ == b@[i].terms@),
{
    if a.len() != b.len() {
        return false;
    }
    let mut k: usize = 0;
    while k < a.len()
        invariant
            k <= a@.len(),
            a@.len() == b@.len(),
            forall|i: int| 0 <= i < k ==> (#[trigger] a@[i]).terms@ == b@[i].terms@,
        decreases a.len() - k,
    {
        if !terms_same(&a[k].terms, &b[k].terms) {
            return false;
        }
        k = k + 1;
    }
    true
}

/// Two clause lists with the same terms, clause by clause.
pub open spec fn clause_lists_match(a: Seq<GuardClause>, b: Seq<GuardClause>) -> bool {
    a.len() == b.len() && forall|i: int| 0 <= i < a.len() ==> (#[trigger] a[i]).terms@ == b[i].terms@
}

/// Two optional clause lists that are both absent or match.
pub open spec fn option_clauses_match(a: Option<Vec<GuardClause>>, b: Option<Vec<GuardClause>>) -> bool {
    match (a, b) {
        (Some(x), Some(y)) => clause_lists_match(x@, y@),
        (None, None) => true,
        _ => false,
    }
}

/// Two selections with the same source, clauses and exact conditions.
pub open spec fn selection_matches(x: SourceSelection, y: SourceSelection) -> bool {
    x.source == y.source && option_clauses_match(x.clauses, y.clauses) && x.exact_condition_count == y.exact_condition_count
        && crate::ifds::branches::text_view(x.exact_condition_example) == crate::ifds::branches::text_view(
        y.exact_condition_example,
    )
}

/// Two selection lists that match entry by entry.
pub open spec fn selections_match(a: Seq<SourceSelection>, b: Seq<SourceSelection>) -> bool {
    a.len() == b.len() && forall|i: int| 0 <= i < a.len() ==> selection_matches(#[trigger] a[i], b[i])
}

/// Two states with equal sources, exhaustiveness, selections (without
/// their evidence), precedence and use guard.
pub open spec fn state_matches(a: Option<ObservationState>, b: Option<ObservationState>) -> bool {
    match (a, b) {
        (Some(x), Some(y)) => x.sources@ == y.sources@ && x.exhaustive == y.exhaustive && selections_match(
            x.selections@,
            y.selections@,
        ) && x.precedence@ == y.precedence@ && option_clauses_match(x.use_guard, y.use_guard),
        (None, None) => true,
        _ => false,
    }
}

fn option_clauses_same(a: &Option<Vec<GuardClause>>, b: &Option<Vec<GuardClause>>) -> (res: bool)
    ensures
        res == option_clauses_match(*a, *b),
{
    match (a, b) {
        (Some(x), Some(y)) => clause_lists_same(x, y),
        (None, None) => true,
        _ => false,
    }
}

/// Whether the list is exactly one empty clause: no condition at all.
fn is_unconditional(clauses: &Vec<GuardClause>) -> bool {
    clauses.len() == 1 && clauses[0].terms.len() == 0
}

/// The order of evidence references: report, section, then index.
fn evidence_less(a: &EvidenceRef, b: &EvidenceRef) -> bool {
    if !str_equal(a.report_id.as_str(), b.report_id.as_str()) {
        return text_less(a.report_id.as_str(), b.report_id.as_str());
    }
    if !str_equal(a.section.as_str(), b.section.as_str()) {
        return text_less(a.section.as_str(), b.section.as_str());
    }
    a.index < b.index
}

/// Two references to the same entry.
pub open spec fn evidence_refers_same(a: EvidenceRef, b: EvidenceRef) -> bool {
    a.report_id@ == b.report_id@ && a.section@ == b.section@ && a.index == b.index
}

fn evidence_same(a: &EvidenceRef, b: &EvidenceRef) -> (res: bool)
    ensures
        res == evidence_refers_same(*a, *b),
{
    str_equal(a.report_id.as_str(), b.report_id.as_str()) && str_equal(a.section.as_str(), b.section.as_str())
        && a.index == b.index
}

/// Adds a reference to a list kept in order without repeats.
fn insert_evidence(list: &mut Vec<EvidenceRef>, r: EvidenceRef)
    ensures
        forall|x: EvidenceRef| final(list)@.contains(x) ==> (old(list)@.contains(x) || x == r),
        forall|x: EvidenceRef| old(list)@.contains(x) ==> final(list)@.contains(x),
        exists|i: int| 0 <= i < final(list)@.len() && evidence_refers_same(#[trigger] final(list)@[i], r),
{
    let mut k: usize = 0;
    while k < list.len()
        invariant
            k <= list@.len(),
        decreases list.len() - k,
    {
        if evidence_same(&list[k], &r) {
            proof {
                assert(evidence_refers_same(list@[k as int], r));
            }
            return;
        }
        k = k + 1;
    }
    let mut k: usize = 0;
    while k < list.len() && evidence_less(&list[k], &r)
        invariant
            k <= list@.len(),
        decreases list.len() - k,
    {
        k = k + 1;
    }
    let ghost before = list@;
    list.insert(k, r);
    proof {
        assert(list@[k as int] == r);
        assert(evidence_refers_same(list@[k as int], r));
        assert forall|x: EvidenceRef| before.contains(x) implies list@.contains(x) by {
            let i = choose|i: int| 0 <= i < before.len() && before[i] == x;
            if i < k {
                assert(list@[i] == x);
            } else {
                assert(list@[i + 1] == x);
            }
        }
        assert forall|x: EvidenceRef| list@.contains(x) implies (before.contains(x) || x == r) by {
            let i = choose|i: int| 0 <= i < list@.len() && list@[i] == x;
            if i < k {
                assert(before[i] == x);
            } else if i > k {
                assert(before[i - 1] == x);
            }
        }
    }
}

fn evidence(identity: &String, section: &str, index: usize) -> (res: EvidenceRef)
    ensures
        res.report_id@ == identity@,
        res.section@ == section@,
        res.index == index,
{
    EvidenceRef { report_id: identity.clone(), section: String::from_str(section), index }
}

// ---------------------------------------------------------------------------
// Reading the full report and the procedures.

/// Relations that carry values into their target.
pub open spec fn carries_value(relation: RelationKind) -> bool {
    relation == RelationKind::Reaches || relation == RelationKind::ValueDependency || relation
        == RelationKind::Argument || relation == RelationKind::Return
}

fn value_relation(relation: RelationKind) -> (res: bool)
    ensures
        res == carries_value(relation),
{
    match relation {
        RelationKind::Reaches | RelationKind::ValueDependency | RelationKind::Argument
        | RelationKind::Return => true,
        _ => false,
    }
}

/// The site of a graph node: its first entry in the graph, its label and
/// span, and a reference to that entry.
fn site(node: &NodeId, graph: &FlowGraph, section: &str, identity: &String) -> (res: Option<SourceSite>)
    ensures
        res is None <==> forall|i: int| 0 <= i < graph.nodes@.len() ==> (#[trigger] graph.nodes@[i]).id@ != node@,
        res matches Some(s) ==> {
            &&& s.evidence.index < graph.nodes@.len()
            &&& graph.nodes@[s.evidence.index as int].id@ == node@
            &&& forall|i: int| 0 <= i < s.evidence.index ==> (#[trigger] graph.nodes@[i]).id@ != node@
            &&& s.node@ == node@
            &&& s.operation@ == graph.nodes@[s.evidence.index as int].operation@
            &&& s.evidence.section@ == section@
            &&& s.evidence.report_id@ == identity@
        },
{
    let mut k: usize = 0;
    while k < graph.nodes.len()
        invariant
            k <= graph.nodes@.len(),
            forall|i: int| 0 <= i < k ==> (#[trigger] graph.nodes@[i]).id@ != node@,
        decreases graph.nodes.len() - k,
    {
        let item = &graph.nodes[k];
        if item.id.same(node) {
            return Some(
                SourceSite {
                    node: node.clone(),
                    operation: item.operation.clone(),
                    span: item.span.clone(),
                    evidence: evidence(identity, section, k),
                },
            );
        }
        k = k + 1;
    }
    None
}

/// The logical identifier of a node: the last entry for it.
fn lookup_id(ids: &Vec<(NodeId, LogicalNodeId)>, node: &NodeId) -> (res: Option<LogicalNodeId>)
    ensures
        res is None <==> forall|i: int| 0 <= i < ids@.len() ==> (#[trigger] ids@[i]).0@ != node@,
        res matches Some(id) ==> exists|i: int| 0 <= i < ids@.len() && (#[trigger] ids@[i]).0@ == node@
            && ids@[i].1 == id,
        res == crate::ifds::comparison::last_logical(ids@, *node),
{
    let mut k: usize = ids.len();
    proof {
        assert(ids@.take(ids@.len() as int) =~= ids@);
    }
    while k > 0
        invariant
            k <= ids@.len(),
            forall|i: int| k <= i < ids@.len() ==> (#[trigger] ids@[i]).0@ != node@,
            crate::ifds::comparison::last_logical(ids@, *node) == crate::ifds::comparison::last_logical(
                ids@.take(k as int),
                *node,
            ),
        decreases k,
    {
        k = k - 1;
        proof {
            assert(ids@.take(k + 1).drop_last() =~= ids@.take(k as int));
            assert(ids@.take(k + 1).last() == ids@[k as int]);
        }
        if ids[k].0.same(node) {
            return Some(ids[k].1);
        }
    }
    None
}

/// The logical identifiers of one side's aligned nodes.
fn side_ids(alignment: &Vec<Alignment>, before: bool) -> (res: Vec<(NodeId, LogicalNodeId)>)
    ensures
        res@ == side_pairs(alignment@, if before { SnapshotSide::Before } else { SnapshotSide::After }),
{
    let ghost side = if before { SnapshotSide::Before } else { SnapshotSide::After };
    let mut out: Vec<(NodeId, LogicalNodeId)> = Vec::new();
    let mut k: usize = 0;
    while k < alignment.len()
        invariant
            k <= alignment@.len(),
            side == (if before { SnapshotSide::Before } else { SnapshotSide::After }),
            out@ == side_pairs(alignment@.take(k as int), side),
        decreases alignment.len() - k,
    {
        proof {
            assert(alignment@.take(k + 1).drop_last() =~= alignment@.take(k as int));
            assert(alignment@.take(k + 1).last() == alignment@[k as int]);
        }
        let a = &alignment[k];
        let node = if before {
            &a.before
        } else {
            &a.after
        };
        if let Some(id) = node {
            out.push((id.clone(), a.logical));
        }
        k = k + 1;
    }
    proof {
        assert(alignment@.take(k as int) =~= alignment@);
    }
    out
}

/// The logical identifiers of both sides' aligned nodes.
/// Both sides' aligned nodes with their logical identifiers, each entry's
/// before node ahead of its after node.
pub open spec fn both_pairs(nodes: Seq<Alignment>) -> Seq<(NodeId, LogicalNodeId)>
    decreases nodes.len(),
{
    if nodes.len() == 0 {
        Seq::empty()
    } else {
        let a = nodes.last();
        let rest = both_pairs(nodes.drop_last());
        let with_before = match a.before {
            Some(n) => rest.push((n, a.logical)),
            None => rest,
        };
        match a.after {
            Some(n) => with_before.push((n, a.logical)),
            None => with_before,
        }
    }
}

fn both_ids(alignment: &Vec<Alignment>) -> (res: Vec<(NodeId, LogicalNodeId)>)
    ensures
        res@ == both_pairs(alignment@),
{
    let mut out: Vec<(NodeId, LogicalNodeId)> = Vec::new();
    let mut k: usize = 0;
    while k < alignment.len()
        invariant
            k <= alignment@.len(),
            out@ == both_pairs(alignment@.take(k as int)),
        decreases alignment.len() - k,
    {
        proof {
            assert(alignment@.take(k + 1).drop_last() =~= alignment@.take(k as int));
            assert(alignment@.take(k + 1).last() == alignment@[k as int]);
        }
        let a = &alignment[k];
        if let Some(id) = &a.before {
            out.push((id.clone(), a.logical));
        }
        if let Some(id) = &a.after {
            out.push((id.clone(), a.logical));
        }
        k = k + 1;
    }
    proof {
        assert(alignment@.take(k as int) =~= alignment@);
    }
    out
}

/// The operation of a node of the procedure, if it has one.
fn operation_of<'a>(ir: &'a ProcedureIr, node: &NodeId) -> (res: Option<&'a Operation>) {
    match find_node(ir, node) {
        Some(i) => Some(&ir.nodes[i].operation),
        None => None,
    }
}

fn is_branch(ir: &ProcedureIr, node: &Option<NodeId>) -> bool {
    match node {
        Some(id) => match operation_of(ir, id) {
            Some(Operation::Branch { .. }) => true,
            _ => false,
        },
        None => false,
    }
}

fn is_write(ir: &ProcedureIr, node: &NodeId) -> bool {
    match operation_of(ir, node) {
        Some(Operation::Write { .. }) => true,
        _ => false,
    }
}

fn is_return(ir: &ProcedureIr, node: &NodeId) -> bool {
    match operation_of(ir, node) {
        Some(Operation::Return { .. }) => true,
        _ => false,
    }
}

fn starts_with_text(text: &str, prefix: &str) -> bool {
    let n = prefix.unicode_len();
    if text.unicode_len() < n {
        return false;
    }
    str_equal(text.substring_char(0, n), prefix)
}

/// The role of a source: by its operation on the after side (else the
/// before side), or an input by its label.
fn role(
    alignment: &Alignment,
    before_ir: &ProcedureIr,
    after_ir: &ProcedureIr,
    before: &Option<SourceSite>,
    after: &Option<SourceSite>,
) -> SourceRole {
    let mut operation: Option<&Operation> = None;
    if let Some(id) = &alignment.after {
        operation = operation_of(after_ir, id);
    }
    if operation.is_none() {
        if let Some(id) = &alignment.before {
            operation = operation_of(before_ir, id);
        }
    }
    match operation {
        Some(Operation::Write { .. }) => SourceRole::Writer,
        Some(Operation::Literal { .. }) => SourceRole::Literal,
        Some(Operation::Compute { .. }) => SourceRole::Computation,
        _ => {
            let site = match after {
                Some(s) => Some(s),
                None => match before {
                    Some(s) => Some(s),
                    None => None,
                },
            };
            match site {
                Some(s) => if starts_with_text(s.operation.as_str(), "function_input") {
                    SourceRole::Input
                } else {
                    SourceRole::Other
                },
                None => SourceRole::Other,
            }
        },
    }
}

/// The read of a binding that a condition place comes from, through
/// negations.
fn source_read(ir: &ProcedureIr, place: &Place, fuel: usize) -> Option<(NodeId, BindingId)>
    decreases fuel,
{
    if fuel == 0 {
        return None;
    }
    let id = match place {
        Place::Temporary(id) => id,
        Place::Binding(_) => {
            return None;
        },
    };
    match operation_of(ir, id) {
        Some(Operation::Read { source: Place::Binding(binding), .. }) => Some((id.clone(), binding.clone())),
        Some(Operation::Compute { inputs, operator: PrimitiveOperator::LogicalNot, .. }) => {
            if inputs.len() == 0 {
                None
            } else {
                source_read(ir, &inputs[0].place, fuel - 1)
            }
        },
        _ => None,
    }
}

fn push_definition(list: &mut Vec<DefinitionId>, d: &DefinitionId) {
    let mut k: usize = 0;
    while k < list.len()
        invariant
            k <= list@.len(),
        decreases list.len() - k,
    {
        if list[k].same(d) {
            return;
        }
        k = k + 1;
    }
    list.push(d.clone());
}

fn push_source(list: &mut Vec<Source>, s: &Source) {
    let mut k: usize = 0;
    while k < list.len()
        invariant
            k <= list@.len(),
        decreases list.len() - k,
    {
        if list[k].same(s) {
            return;
        }
        k = k + 1;
    }
    list.push(s.clone());
}

/// What a branch's condition reads: the read and its binding, and the
/// writes and origins of that binding in the states that reach the branch.
fn condition_identity(ir: &ProcedureIr, paths: &BranchPaths, branch: &NodeId) -> Option<ConditionIdentity> {
    let condition = match operation_of(ir, branch) {
        Some(Operation::Branch { condition }) => condition,
        _ => {
            return None;
        },
    };
    let (read, binding) = match source_read(ir, condition, ir.nodes.len()) {
        Some(found) => found,
        None => {
            return None;
        },
    };
    let s = match paths.states_at(branch) {
        Some(s) => s,
        None => {
            return None;
        },
    };
    let states = &paths.at[s].1;
    let mut reaching_writes: Vec<DefinitionId> = Vec::new();
    let mut origins: Vec<Source> = Vec::new();
    let mut k: usize = 0;
    while k < states.len()
        invariant
            k <= states@.len(),
        decreases states.len() - k,
    {
        let facts = &states[k].facts;
        let mut j: usize = 0;
        while j < facts.len()
            invariant
                j <= facts@.len(),
            decreases facts.len() - j,
        {
            match &facts[j] {
                Fact::LastWrite { place: Place::Binding(candidate), write } => {
                    if candidate.same(&binding) {
                        push_definition(&mut reaching_writes, write);
                    }
                },
                Fact::Origin { place: Place::Binding(candidate), source } => {
                    if candidate.same(&binding) {
                        push_source(&mut origins, source);
                    }
                },
                _ => {},
            }
            j = j + 1;
        }
        k = k + 1;
    }
    Some(ConditionIdentity { read: Some(read), binding: Some(binding), reaching_writes, origins })
}

// ---------------------------------------------------------------------------
// Guard clauses.

/// The guard of the states at a node whose facts pass the test: for each
/// such state, the conjunction of its branch outcomes, simplified. None
/// when no state passes, when one of them went through an undecided
/// branch, when an outcome's branch has no logical identifier, or when
/// more than 64 clauses remain.
fn clauses(
    paths: &BranchPaths,
    at: &NodeId,
    ids: &Vec<(NodeId, LogicalNodeId)>,
    test: &FactTest,
) -> Option<Vec<GuardClause>> {
    let s = match paths.states_at(at) {
        Some(s) => s,
        None => {
            return None;
        },
    };
    let states = &paths.at[s].1;
    let mut relevant: Vec<usize> = Vec::new();
    let mut k: usize = 0;
    while k < states.len()
        invariant
            k <= states@.len(),
            forall|i: int| 0 <= i < relevant@.len() ==> relevant@[i] < states@.len(),
        decreases states.len() - k,
    {
        if crate::ifds::branches::fact_test_holds(test, &states[k].facts) {
            if states[k].unproven {
                return None;
            }
            relevant.push(k);
        }
        k = k + 1;
    }
    if relevant.len() == 0 {
        return None;
    }
    let mut result: Vec<GuardClause> = Vec::new();
    let mut r: usize = 0;
    while r < relevant.len()
        invariant
            r <= relevant@.len(),
            forall|i: int| 0 <= i < relevant@.len() ==> relevant@[i] < states@.len(),
        decreases relevant.len() - r,
    {
        let state = &states[relevant[r]];
        let mut terms: Vec<GuardTerm> = Vec::new();
        let mut d: usize = 0;
        while d < state.decisions.len()
            invariant
                d <= state.decisions@.len(),
            decreases state.decisions.len() - d,
        {
            let control = match lookup_id(ids, &state.decisions[d].0) {
                Some(id) => id,
                None => {
                    return None;
                },
            };
            insert_term(&mut terms, GuardTerm { control, outcome: state.decisions[d].1 });
            d = d + 1;
        }
        insert_clause(&mut result, GuardClause { terms });
        r = r + 1;
    }
    let simplified = simplify_clauses(result);
    if simplified.len() <= 64 {
        Some(simplified)
    } else {
        None
    }
}

/// The terms of a clause without one of them.
#[verifier::spinoff_prover]
fn without_term(terms: &Vec<GuardTerm>, term: GuardTerm) -> (res: Vec<GuardTerm>)
    ensures
        forall|x: GuardTerm| res@.contains(x) <==> (terms@.contains(x) && x != term),
{
    let mut out: Vec<GuardTerm> = Vec::new();
    let mut k: usize = 0;
    while k < terms.len()
        invariant
            k <= terms@.len(),
            forall|x: GuardTerm| out@.contains(x) <==> (terms@.take(k as int).contains(x) && x != term),
        decreases terms.len() - k,
    {
        let ghost before = out@;
        if terms[k] != term {
            out.push(terms[k]);
        }
        proof {
            let pre = terms@.take(k as int);
            let post = terms@.take(k + 1);
            assert(post =~= pre.push(terms@[k as int]));
            assert forall|x: GuardTerm| out@.contains(x) <==> (post.contains(x) && x != term) by {
                if out@.contains(x) && !before.contains(x) {
                    let i = choose|i: int| 0 <= i < out@.len() && out@[i] == x;
                    assert(i == before.len());
                    assert(post[k as int] == x);
                }
                if before.contains(x) {
                    let i = choose|i: int| 0 <= i < before.len() && before[i] == x;
                    assert(out@[i] == x);
                }
                if post.contains(x) && x != term {
                    let i = choose|i: int| 0 <= i < post.len() && post[i] == x;
                    if i < k {
                        assert(pre[i] == x);
                        assert(pre.contains(x));
                    } else {
                        assert(out@[out@.len() - 1] == x);
                    }
                }
                if pre.contains(x) {
                    let i = choose|i: int| 0 <= i < pre.len() && pre[i] == x;
                    assert(post[i] == x);
                }
            }
        }
        k = k + 1;
    }
    proof {
        assert(terms@.take(k as int) =~= terms@);
    }
    out
}

fn copy_terms(v: &Vec<GuardTerm>) -> (res: Vec<GuardTerm>)
    ensures
        res@ == v@,
{
    let mut out: Vec<GuardTerm> = Vec::new();
    let mut k: usize = 0;
    while k < v.len()
        invariant
            k <= v@.len(),
            out@ == v@.take(k as int),
        decreases v.len() - k,
    {
        out.push(v[k]);
        proof {
            assert(v@.take(k + 1) =~= v@.take(k as int).push(v@[k as int]));
        }
        k = k + 1;
    }
    proof {
        assert(v@.take(k as int) =~= v@);
    }
    out
}

/// Some clause of `clauses` holds the term `(control, outcome)` and,
/// besides it, exactly the terms of `rest`.
spec fn splits(clauses: Seq<GuardClause>, control: LogicalNodeId, rest: Seq<GuardTerm>, outcome: bool) -> bool {
    exists|k: int|
        0 <= k < clauses.len() && (#[trigger] clauses[k].terms@).contains(GuardTerm { control, outcome })
            && forall|x: GuardTerm| rest.contains(x) <==> (clauses[k].terms@.contains(x) && x != GuardTerm { control, outcome })
}

/// A consensus entry: its outcomes seen (1 for true, 2 for false, 3 for
/// both), each split off a clause with exactly the other terms.
spec fn entry_ok(clauses: Seq<GuardClause>, e: (LogicalNodeId, Vec<GuardTerm>, u8)) -> bool {
    &&& 1 <= e.2 <= 3
    &&& (e.2 == 1 || e.2 == 3) ==> splits(clauses, e.0, e.1@, true)
    &&& (e.2 == 2 || e.2 == 3) ==> splits(clauses, e.0, e.1@, false)
}

/// When both outcomes of a branch split off clauses with the same other
/// terms, those terms alone imply the disjunction.
proof fn lemma_consensus_implied(
    clauses: Seq<GuardClause>,
    control: LogicalNodeId,
    rest: Seq<GuardTerm>,
    outcome: spec_fn(LogicalNodeId) -> bool,
)
    requires
        splits(clauses, control, rest, true),
        splits(clauses, control, rest, false),
        conjunction_holds(rest, outcome),
    ensures
        guard_holds(clauses, outcome),
{
    let o = outcome(control);
    let t = GuardTerm { control, outcome: o };
    let k = choose|k: int|
        0 <= k < clauses.len() && (#[trigger] clauses[k].terms@).contains(t)
            && forall|x: GuardTerm| rest.contains(x) <==> (clauses[k].terms@.contains(x) && x != t);
    assert forall|i: int| 0 <= i < clauses[k].terms@.len() implies term_holds(#[trigger] clauses[k].terms@[i], outcome) by {
        let x = clauses[k].terms@[i];
        if x != t {
            assert(clauses[k].terms@.contains(x));
            assert(rest.contains(x));
            let j = choose|j: int| 0 <= j < rest.len() && rest[j] == x;
            assert(term_holds(rest[j], outcome));
        }
    }
    assert(conjunction_holds(clauses[k].terms@, outcome));
}

/// Whether every term of `a` is a term of `b`.
fn terms_subset(a: &Vec<GuardTerm>, b: &Vec<GuardTerm>) -> (res: bool)
    ensures
        res == forall|i: int| 0 <= i < a@.len() ==> b@.contains(#[trigger] a@[i]),
{
    let mut k: usize = 0;
    while k < a.len()
        invariant
            k <= a@.len(),
            forall|i: int| 0 <= i < k ==> b@.contains(#[trigger] a@[i]),
        decreases a.len() - k,
    {
        if !has_term(b, a[k]) {
            return false;
        }
        k = k + 1;
    }
    true
}

/// The consensus entries of a disjunction: for each clause and each of its
/// terms, the branch of the term and the other terms, with the outcomes
/// seen (1 for true, 2 for false, 3 for both).
fn consensus(clauses: &Vec<GuardClause>) -> (res: Vec<(LogicalNodeId, Vec<GuardTerm>, u8)>)
    ensures
        forall|i: int| 0 <= i < res@.len() ==> entry_ok(clauses@, #[trigger] res@[i]),
{
    let mut entries: Vec<(LogicalNodeId, Vec<GuardTerm>, u8)> = Vec::new();
    let mut c: usize = 0;
    while c < clauses.len()
        invariant
            c <= clauses@.len(),
            forall|i: int| 0 <= i < entries@.len() ==> entry_ok(clauses@, #[trigger] entries@[i]),
        decreases clauses.len() - c,
    {
        let terms = &clauses[c].terms;
        let mut t: usize = 0;
        while t < terms.len()
            invariant
                c < clauses@.len(),
                terms@ == clauses@[c as int].terms@,
                t <= terms@.len(),
                forall|i: int| 0 <= i < entries@.len() ==> entry_ok(clauses@, #[trigger] entries@[i]),
            decreases terms.len() - t,
        {
            let term = terms[t];
            let rest = without_term(terms, term);
            proof {
                assert(terms@.contains(term) && terms@[t as int] == term);
                assert(GuardTerm { control: term.control, outcome: term.outcome } == term);
                assert(clauses@[c as int].terms@.contains(GuardTerm { control: term.control, outcome: term.outcome }));
                assert(splits(clauses@, term.control, rest@, term.outcome));
            }
            let bit: u8 = if term.outcome {
                1
            } else {
                2
            };
            let mut found = false;
            let mut e: usize = 0;
            while e < entries.len()
                invariant
                    e <= entries@.len(),
                    bit == 1 || bit == 2,
                    bit == 1 <==> term.outcome,
                    splits(clauses@, term.control, rest@, term.outcome),
                    forall|i: int| 0 <= i < entries@.len() ==> entry_ok(clauses@, #[trigger] entries@[i]),
                decreases entries.len() - e,
            {
                if entries[e].0 == term.control && terms_same(&entries[e].1, &rest) {
                    let mask: u8 = entries[e].2;
                    proof {
                        assert(entry_ok(clauses@, entries@[e as int]));
                    }
                    let merged: u8 = if mask == 0 {
                        bit
                    } else if mask == bit {
                        mask
                    } else {
                        3
                    };
                    let ghost before = entries@;
                    entries.set(e, (term.control, copy_terms(&rest), merged));
                    proof {
                        assert forall|i: int| 0 <= i < entries@.len() implies entry_ok(clauses@, #[trigger] entries@[i]) by {
                            if i != e {
                                assert(entries@[i] == before[i]);
                            }
                        }
                    }
                    found = true;
                    break;
                }
                e = e + 1;
            }
            if !found {
                entries.push((term.control, rest, bit));
            }
            t = t + 1;
        }
        c = c + 1;
    }
    entries
}

/// Every term of `a` is a term of `b`, and not the other way round.
spec fn strictly_inside(a: Seq<GuardTerm>, b: Seq<GuardTerm>) -> bool {
    &&& forall|i: int| 0 <= i < a.len() ==> b.contains(#[trigger] a[i])
    &&& !(forall|i: int| 0 <= i < b.len() ==> a.contains(#[trigger] b[i]))
}

/// Another clause's terms are strictly inside the clause's.
spec fn absorbed(clauses: Seq<GuardClause>, c: int) -> bool {
    exists|o: int| 0 <= o < clauses.len() && strictly_inside(#[trigger] clauses[o].terms@, clauses[c].terms@)
}

/// Whenever a clause holds, a clause that no other absorbs holds.
proof fn lemma_unabsorbed(clauses: Seq<GuardClause>, outcome: spec_fn(LogicalNodeId) -> bool, c: int, n: nat)
    requires
        0 <= c < clauses.len(),
        conjunction_holds(clauses[c].terms@, outcome),
        clauses[c].terms@.to_set().len() <= n,
    ensures
        exists|d: int| 0 <= d < clauses.len() && !absorbed(clauses, d) && conjunction_holds(
            #[trigger] clauses[d].terms@,
            outcome,
        ),
    decreases n,
{
    if absorbed(clauses, c) {
        let o = choose|o: int| 0 <= o < clauses.len() && strictly_inside(#[trigger] clauses[o].terms@, clauses[c].terms@);
        let a = clauses[o].terms@;
        let b = clauses[c].terms@;
        lemma_conjunction_subset(a, b, outcome);
        let i = choose|i: int| 0 <= i < b.len() && !a.contains(#[trigger] b[i]);
        let x = b[i];
        vstd::seq_lib::seq_to_set_is_finite(b);
        assert(b.to_set().contains(x));
        vstd::set::axiom_set_remove_len(b.to_set(), x);
        assert forall|y: GuardTerm| a.to_set().contains(y) implies b.to_set().remove(x).contains(y) by {
            let k = choose|k: int| 0 <= k < a.len() && a[k] == y;
            assert(b.contains(a[k]));
        }
        assert(a.to_set().subset_of(b.to_set().remove(x)));
        vstd::set_lib::lemma_len_subset(a.to_set(), b.to_set().remove(x));
        lemma_unabsorbed(clauses, outcome, o, (n - 1) as nat);
    } else {
        assert(conjunction_holds(clauses[c].terms@, outcome));
    }
}

fn copy_clauses(v: &Vec<GuardClause>) -> (res: Vec<GuardClause>)
    ensures
        res@.len() == v@.len(),
        forall|i: int| 0 <= i < v@.len() ==> (#[trigger] res@[i]).terms@ == v@[i].terms@,
{
    let mut out: Vec<GuardClause> = Vec::new();
    let mut k: usize = 0;
    while k < v.len()
        invariant
            k <= v@.len(),
            out@.len() == k,
            forall|i: int| 0 <= i < k ==> (#[trigger] out@[i]).terms@ == v@[i].terms@,
        decreases v.len() - k,
    {
        out.push(v[k].clone());
        k = k + 1;
    }
    out
}

/// One round of simplification: adds the consensus of every pair of
/// clauses that differ in one branch's outcome only, then drops every
/// clause whose terms strictly include another clause's. The disjunction
/// keeps its meaning.
fn simplify_round(clauses: &Vec<GuardClause>) -> (res: Vec<GuardClause>)
    ensures
        forall|outcome: spec_fn(LogicalNodeId) -> bool| #[trigger] guard_holds(res@, outcome) == guard_holds(
            clauses@,
            outcome,
        ),
{
    let mut next: Vec<GuardClause> = copy_clauses(clauses);
    proof {
        assert forall|outcome: spec_fn(LogicalNodeId) -> bool| #[trigger] guard_holds(next@, outcome) == guard_holds(
            clauses@,
            outcome,
        ) by {
            if guard_holds(next@, outcome) {
                let k = choose|k: int| 0 <= k < next@.len() && conjunction_holds(#[trigger] next@[k].terms@, outcome);
                assert(conjunction_holds(clauses@[k].terms@, outcome));
            }
            if guard_holds(clauses@, outcome) {
                let k = choose|k: int| 0 <= k < clauses@.len() && conjunction_holds(#[trigger] clauses@[k].terms@, outcome);
                assert(conjunction_holds(next@[k].terms@, outcome));
            }
        }
    }
    let entries = consensus(clauses);
    let mut e: usize = 0;
    while e < entries.len()
        invariant
            e <= entries@.len(),
            forall|i: int| 0 <= i < entries@.len() ==> entry_ok(clauses@, #[trigger] entries@[i]),
            forall|outcome: spec_fn(LogicalNodeId) -> bool| #[trigger] guard_holds(next@, outcome) == guard_holds(
                clauses@,
                outcome,
            ),
        decreases entries.len() - e,
    {
        if entries[e].2 == 3 {
            let ghost before = next@;
            let rest = copy_terms(&entries[e].1);
            proof {
                assert(entry_ok(clauses@, entries@[e as int]));
            }
            insert_clause(&mut next, GuardClause { terms: rest });
            proof {
                assert forall|outcome: spec_fn(LogicalNodeId) -> bool| #[trigger] guard_holds(next@, outcome) == guard_holds(
                    clauses@,
                    outcome,
                ) by {
                    assert(guard_holds(before, outcome) == guard_holds(clauses@, outcome));
                    if conjunction_holds(entries@[e as int].1@, outcome) {
                        lemma_consensus_implied(clauses@, entries@[e as int].0, entries@[e as int].1@, outcome);
                    }
                }
            }
        }
        e = e + 1;
    }
    let mut kept: Vec<GuardClause> = Vec::new();
    let mut c: usize = 0;
    while c < next.len()
        invariant
            c <= next@.len(),
            forall|i: int| 0 <= i < kept@.len() ==> exists|j: int|
                0 <= j < next@.len() && next@[j].terms@ == (#[trigger] kept@[i]).terms@,
            forall|j: int| 0 <= j < c && !absorbed(next@, j) ==> exists|i: int|
                0 <= i < kept@.len() && (#[trigger] kept@[i]).terms@ == next@[j].terms@,
        decreases next.len() - c,
    {
        let mut is_absorbed = false;
        let mut o: usize = 0;
        while o < next.len()
            invariant
                o <= next@.len(),
                c < next@.len(),
                is_absorbed <==> exists|q: int| 0 <= q < o && strictly_inside(#[trigger] next@[q].terms@, next@[c as int].terms@),
            decreases next.len() - o,
        {
            if terms_subset(&next[o].terms, &next[c].terms) && !terms_subset(&next[c].terms, &next[o].terms) {
                is_absorbed = true;
            }
            o = o + 1;
        }
        let ghost kept_before = kept@;
        if !is_absorbed {
            kept.push(next[c].clone());
            proof {
                assert(kept@[kept@.len() - 1].terms@ == next@[c as int].terms@);
            }
        }
        proof {
            assert forall|i: int| 0 <= i < kept@.len() implies exists|j: int|
                0 <= j < next@.len() && next@[j].terms@ == (#[trigger] kept@[i]).terms@ by {
                if i < kept_before.len() {
                    assert(kept@[i] == kept_before[i]);
                } else {
                    assert(next@[c as int].terms@ == kept@[i].terms@);
                }
            }
            assert forall|j: int| 0 <= j < c + 1 && !absorbed(next@, j) implies exists|i: int|
                0 <= i < kept@.len() && (#[trigger] kept@[i]).terms@ == next@[j].terms@ by {
                if j < c {
                    let i = choose|i: int| 0 <= i < kept_before.len() && (#[trigger] kept_before[i]).terms@ == next@[j].terms@;
                    assert(kept@[i] == kept_before[i]);
                } else {
                    assert(!is_absorbed);
                    assert(kept@[kept@.len() - 1].terms@ == next@[j].terms@);
                }
            }
        }
        c = c + 1;
    }
    proof {
        assert forall|outcome: spec_fn(LogicalNodeId) -> bool| #[trigger] guard_holds(kept@, outcome) == guard_holds(
            clauses@,
            outcome,
        ) by {
            if guard_holds(kept@, outcome) {
                let i = choose|i: int| 0 <= i < kept@.len() && conjunction_holds(#[trigger] kept@[i].terms@, outcome);
                let j = choose|j: int| 0 <= j < next@.len() && next@[j].terms@ == (#[trigger] kept@[i]).terms@;
                assert(conjunction_holds(next@[j].terms@, outcome));
                assert(guard_holds(next@, outcome));
            }
            if guard_holds(clauses@, outcome) {
                assert(guard_holds(next@, outcome));
                let j = choose|j: int| 0 <= j < next@.len() && conjunction_holds(#[trigger] next@[j].terms@, outcome);
                lemma_unabsorbed(next@, outcome, j, next@[j].terms@.to_set().len());
                let d = choose|d: int| 0 <= d < next@.len() && !absorbed(next@, d) && conjunction_holds(
                    #[trigger] next@[d].terms@,
                    outcome,
                );
                let i = choose|i: int| 0 <= i < kept@.len() && (#[trigger] kept@[i]).terms@ == next@[d].terms@;
                assert(conjunction_holds(kept@[i].terms@, outcome));
            }
        }
    }
    kept
}

/// Simplifies a disjunction of conjunctions by consensus and absorption
/// until nothing changes, for at most 64 rounds. The disjunction keeps its
/// meaning under every assignment of branch outcomes.
#[verifier::loop_isolation(false)]
fn simplify_clauses(clauses: Vec<GuardClause>) -> (res: Vec<GuardClause>)
    ensures
        forall|outcome: spec_fn(LogicalNodeId) -> bool| #[trigger] guard_holds(res@, outcome) == guard_holds(
            clauses@,
            outcome,
        ),
{
    let ghost original = clauses@;
    let mut current = clauses;
    let mut round: usize = 0;
    while round < 64
        invariant
            round <= 64,
            forall|outcome: spec_fn(LogicalNodeId) -> bool| #[trigger] guard_holds(current@, outcome) == guard_holds(
                original,
                outcome,
            ),
        decreases 64 - round,
    {
        let next = simplify_round(&current);
        if clause_lists_same(&next, &current) {
            return next;
        }
        current = next;
        round = round + 1;
    }
    current
}

// ---------------------------------------------------------------------------
// Control flow.

/// The node is in the list.
fn has_node_id(list: &Vec<NodeId>, node: &NodeId) -> (res: bool)
    ensures
        res == exists|i: int| 0 <= i < list@.len() && (#[trigger] list@[i])@ == node@,
{
    let mut k: usize = 0;
    while k < list.len()
        invariant
            k <= list@.len(),
            forall|i: int| 0 <= i < k ==> (#[trigger] list@[i])@ != node@,
        decreases list.len() - k,
    {
        if list[k].same(node) {
            return true;
        }
        k = k + 1;
    }
    false
}

/// An edge that control follows: normal or a branch outcome.
pub open spec fn follows(edge: crate::ifds::ir::IrEdge) -> bool {
    edge.kind is Normal || edge.kind is Branch
}

/// One control edge goes from `a` to `b`.
pub open spec fn control_step(ir: ProcedureIr, a: crate::ifds::model::LocalIdView, b: crate::ifds::model::LocalIdView) -> bool {
    exists|e: int| 0 <= e < ir.edges@.len() && follows(#[trigger] ir.edges@[e]) && ir.edges@[e].source@ == a
        && ir.edges@[e].target@ == b
}

/// A path of control edges from the first node to the last.
pub open spec fn control_path(ir: ProcedureIr, path: Seq<crate::ifds::model::LocalIdView>) -> bool {
    &&& path.len() >= 1
    &&& forall|i: int| 0 <= i < path.len() - 1 ==> control_step(ir, #[trigger] path[i], path[i + 1])
}

/// Some control path goes from `from` to `node`.
pub open spec fn reached(ir: ProcedureIr, from: crate::ifds::model::LocalIdView, node: crate::ifds::model::LocalIdView) -> bool {
    exists|p: Seq<crate::ifds::model::LocalIdView>| #[trigger] control_path(ir, p) && p[0] == from && p.last() == node
}

/// Whether control can go from one node to another along normal and
/// branch edges (a node reaches itself). Each round adds the targets of
/// edges from nodes found so far; a path without repeated edges needs no
/// more rounds than there are edges.
fn reachable(ir: &ProcedureIr, from: &NodeId, to: &NodeId) -> (res: bool)
    ensures
        res ==> reached(*ir, from@, to@),
{
    let mut found: Vec<NodeId> = Vec::new();
    found.push(from.clone());
    proof {
        assert(control_path(*ir, seq![from@]));
        assert(reached(*ir, from@, found@[0]@));
    }
    let mut round: usize = 0;
    while round < ir.edges.len()
        invariant
            forall|i: int| 0 <= i < found@.len() ==> reached(*ir, from@, (#[trigger] found@[i])@),
        decreases ir.edges.len() - round,
    {
        let mut e: usize = 0;
        while e < ir.edges.len()
            invariant
                e <= ir.edges@.len(),
                forall|i: int| 0 <= i < found@.len() ==> reached(*ir, from@, (#[trigger] found@[i])@),
            decreases ir.edges.len() - e,
        {
            let edge = &ir.edges[e];
            let kind_follows = match edge.kind {
                EdgeKind::Normal => true,
                EdgeKind::Branch { .. } => true,
                _ => false,
            };
            if kind_follows && has_node_id(&found, &edge.source) && !has_node_id(&found, &edge.target) {
                proof {
                    let i = choose|i: int| 0 <= i < found@.len() && (#[trigger] found@[i])@ == edge.source@;
                    assert(reached(*ir, from@, found@[i]@));
                    let p = choose|p: Seq<crate::ifds::model::LocalIdView>|
                        #[trigger] control_path(*ir, p) && p[0] == from@ && p.last() == found@[i]@;
                    let q = p.push(edge.target@);
                    assert(follows(ir.edges@[e as int]));
                    assert(control_step(*ir, p.last(), edge.target@));
                    assert forall|j: int| 0 <= j < q.len() - 1 implies control_step(*ir, #[trigger] q[j], q[j + 1]) by {
                        if j < p.len() - 1 {
                            assert(q[j] == p[j] && q[j + 1] == p[j + 1]);
                            assert(control_step(*ir, p[j], p[j + 1]));
                        } else {
                            assert(q[j] == p.last() && q[j + 1] == edge.target@);
                        }
                    }
                    assert(control_path(*ir, q) && q[0] == from@ && q.last() == edge.target@);
                    assert(reached(*ir, from@, edge.target@));
                }
                found.push(edge.target.clone());
            }
            e = e + 1;
        }
        round = round + 1;
    }
    let res = has_node_id(&found, to);
    proof {
        if res {
            let i = choose|i: int| 0 <= i < found@.len() && (#[trigger] found@[i])@ == to@;
            assert(reached(*ir, from@, found@[i]@));
        }
    }
    res
}

/// The logical identifiers of the sources of value edges into a node.
fn upstream(graph: &FlowGraph, ids: &Vec<(NodeId, LogicalNodeId)>, node: &Option<NodeId>) -> Vec<LogicalNodeId> {
    let mut out: Vec<LogicalNodeId> = Vec::new();
    if let Some(node) = node {
        let mut k: usize = 0;
        while k < graph.edges.len()
            invariant
                k <= graph.edges@.len(),
            decreases graph.edges.len() - k,
        {
            let edge = &graph.edges[k];
            if edge.target.same(node) && value_relation(edge.relation) {
                if let Some(id) = lookup_id(ids, &edge.source) {
                    insert_id(&mut out, id);
                }
            }
            k = k + 1;
        }
    }
    out
}

/// The guard of a write: the clauses of all states that reach it.
fn assignment_guard(
    node: &Option<NodeId>,
    ir: &ProcedureIr,
    paths: &BranchPaths,
    ids: &Vec<(NodeId, LogicalNodeId)>,
) -> Option<Vec<GuardClause>> {
    match node {
        Some(node) => if is_write(ir, node) {
            clauses(paths, node, ids, &FactTest::Any)
        } else {
            None
        },
        None => None,
    }
}

// ---------------------------------------------------------------------------
// Sources and controls.

/// The inputs one side of the projection reads.
struct Side<'a> {
    graph: &'a FlowGraph,
    ir: &'a ProcedureIr,
    ids: Vec<(NodeId, LogicalNodeId)>,
    paths: BranchPaths,
    nodes_section: &'a str,
    edges_section: &'a str,
}

/// A reference names the report `id` and an index below `len` of `section`.
pub open spec fn ref_at(r: EvidenceRef, id: Seq<char>, section: Seq<char>, len: int) -> bool {
    &&& r.report_id@ == id
    &&& r.section@ == section
    &&& r.index < len
}

/// The site, if any, refers to a node of the side.
spec fn site_at(s: Option<SourceSite>, id: Seq<char>, side: Side) -> bool {
    s matches Some(x) ==> ref_at(x.evidence, id, side.nodes_section@, side.graph.nodes@.len() as int)
}

/// Every reference of the state, if any, refers to an edge of the side.
spec fn state_at(s: Option<ObservationState>, id: Seq<char>, side: Side) -> bool {
    s matches Some(state) ==> forall|k: int, j: int|
        0 <= k < state.selections@.len() && 0 <= j < state.selections@[k].evidence@.len() ==> ref_at(
            #[trigger] state.selections@[k].evidence@[j],
            id,
            side.edges_section@,
            side.graph.edges@.len() as int,
        )
}

/// The side reads one graph of the full report and names its sections.
spec fn side_of(side: Side, full: VariableFlowReport) -> bool {
    ||| *side.graph == full.before_graph && side.nodes_section@ == "before_graph.nodes"@
        && side.edges_section@ == "before_graph.edges"@
    ||| *side.graph == full.after_graph && side.nodes_section@ == "after_graph.nodes"@
        && side.edges_section@ == "after_graph.edges"@
}

/// The section names differ from each other.
proof fn lemma_section_names()
    ensures
        "after_graph.nodes"@ != "before_graph.nodes"@,
        "before_graph.edges"@ != "before_graph.nodes"@,
        "before_graph.edges"@ != "after_graph.nodes"@,
        "after_graph.edges"@ != "before_graph.nodes"@,
        "after_graph.edges"@ != "after_graph.nodes"@,
        "after_graph.edges"@ != "before_graph.edges"@,
        "deltas"@ != "before_graph.nodes"@,
        "deltas"@ != "after_graph.nodes"@,
        "deltas"@ != "before_graph.edges"@,
        "deltas"@ != "after_graph.edges"@,
{
    reveal_strlit("before_graph.nodes");
    reveal_strlit("after_graph.nodes");
    reveal_strlit("before_graph.edges");
    reveal_strlit("after_graph.edges");
    reveal_strlit("deltas");
    assert("deltas"@.len() == 6);
    assert("before_graph.nodes"@.len() == 18);
    assert("after_graph.nodes"@.len() == 17);
    assert("before_graph.edges"@[13] != "before_graph.nodes"@[13]);
    assert("after_graph.edges"@[12] != "after_graph.nodes"@[12]);
}

/// References to a side's nodes and edges are references into the report.
proof fn lemma_side_refs(side: Side, full: VariableFlowReport, id: Seq<char>)
    requires
        side_of(side, full),
    ensures
        forall|r: EvidenceRef| ref_at(r, id, side.nodes_section@, side.graph.nodes@.len() as int)
            ==> #[trigger] reference_valid(r, id, full),
        forall|s: Option<SourceSite>| site_at(s, id, side) ==> #[trigger] site_ok(s, id, full),
        forall|s: Option<ObservationState>| state_at(s, id, side) ==> #[trigger] state_ok(s, id, full),
{
    lemma_section_names();
    assert forall|r: EvidenceRef| ref_at(r, id, side.nodes_section@, side.graph.nodes@.len() as int)
        implies #[trigger] reference_valid(r, id, full) by {}
    assert forall|r: EvidenceRef| ref_at(r, id, side.edges_section@, side.graph.edges@.len() as int)
        implies #[trigger] reference_valid(r, id, full) by {}
    assert forall|s: Option<ObservationState>| state_at(s, id, side) implies #[trigger] state_ok(s, id, full) by {
        if let Some(state) = s {
            assert forall|k: int, j: int|
                0 <= k < state.selections@.len() && 0 <= j < state.selections@[k].evidence@.len() implies reference_valid(
                #[trigger] state.selections@[k].evidence@[j],
                id,
                full,
            ) by {
                assert(ref_at(state.selections@[k].evidence@[j], id, side.edges_section@, side.graph.edges@.len() as int));
            }
        }
    }
}

fn node_site(node: &Option<NodeId>, side: &Side, identity: &String) -> (res: Option<SourceSite>)
    ensures
        site_at(res, identity@, *side),
{
    match node {
        Some(id) => site(id, side.graph, side.nodes_section, identity),
        None => None,
    }
}

fn node_condition(node: &Option<NodeId>, side: &Side) -> Option<ConditionIdentity> {
    match node {
        Some(id) => condition_identity(side.ir, &side.paths, id),
        None => None,
    }
}

/// The sources and controls of the aligned operations that have a site.
fn definitions(
    alignment: &Vec<Alignment>,
    before: &Side,
    after: &Side,
    identity: &String,
) -> (res: (Vec<SourceDefinition>, Vec<ControlDefinition>))
    ensures
        forall|i: int| 0 <= i < res.0@.len() ==> site_at((#[trigger] res.0@[i]).before, identity@, *before)
            && site_at(res.0@[i].after, identity@, *after),
        forall|i: int| 0 <= i < res.1@.len() ==> site_at((#[trigger] res.1@[i]).before, identity@, *before)
            && site_at(res.1@[i].after, identity@, *after),
{
    let mut sources: Vec<SourceDefinition> = Vec::new();
    let mut controls: Vec<ControlDefinition> = Vec::new();
    let mut k: usize = 0;
    while k < alignment.len()
        invariant
            k <= alignment@.len(),
            forall|i: int| 0 <= i < sources@.len() ==> site_at((#[trigger] sources@[i]).before, identity@, *before)
                && site_at(sources@[i].after, identity@, *after),
            forall|i: int| 0 <= i < controls@.len() ==> site_at((#[trigger] controls@[i]).before, identity@, *before)
                && site_at(controls@[i].after, identity@, *after),
        decreases alignment.len() - k,
    {
        let a = &alignment[k];
        let before_site = node_site(&a.before, before, identity);
        let after_site = node_site(&a.after, after, identity);
        if before_site.is_some() || after_site.is_some() {
            if is_branch(before.ir, &a.before) || is_branch(after.ir, &a.after) {
                controls.push(
                    ControlDefinition {
                        id: a.logical,
                        before_value: node_condition(&a.before, before),
                        after_value: node_condition(&a.after, after),
                        before: before_site,
                        after: after_site,
                    },
                );
            } else {
                let source_role = role(a, before.ir, after.ir, &before_site, &after_site);
                sources.push(
                    SourceDefinition {
                        id: a.logical,
                        role: source_role,
                        before_upstream: upstream(before.graph, &before.ids, &a.before),
                        after_upstream: upstream(after.graph, &after.ids, &a.after),
                        before_assignment_guard: assignment_guard(&a.before, before.ir, &before.paths, &before.ids),
                        after_assignment_guard: assignment_guard(&a.after, after.ir, &after.paths, &after.ids),
                        before: before_site,
                        after: after_site,
                    },
                );
            }
        }
        k = k + 1;
    }
    (sources, controls)
}

// ---------------------------------------------------------------------------
// Observations.

/// The projection an edge delivers into: its own, or `value`.
/// The projection an observation is keyed by: the edge's, or `value`.
pub open spec fn projection_key(projection: Option<String>) -> Seq<char> {
    match projection {
        Some(p) => p@,
        None => "value"@,
    }
}

/// The observation keys of one side: the aligned targets of its value
/// relations with their projections.
spec fn side_keys(side: Side) -> Set<(LogicalNodeId, Seq<char>)> {
    Set::new(
        |key: (LogicalNodeId, Seq<char>)|
            exists|j: int|
                0 <= j < side.graph.edges@.len() && carries_value((#[trigger] side.graph.edges@[j]).relation)
                    && crate::ifds::comparison::last_logical(side.ids@, side.graph.edges@[j].target) == Some(key.0)
                    && projection_key(side.graph.edges@[j].projection) == key.1,
    )
}

/// A key from the first `n` edges of a side.
spec fn after_seen(side: Side, key: (LogicalNodeId, Seq<char>), n: int) -> bool {
    exists|j: int|
        0 <= j < n && carries_value((#[trigger] side.graph.edges@[j]).relation) && crate::ifds::comparison::last_logical(
            side.ids@,
            side.graph.edges@[j].target,
        ) == Some(key.0) && projection_key(side.graph.edges@[j].projection) == key.1
}

spec fn key_views(keys: Seq<(LogicalNodeId, String)>) -> Set<(LogicalNodeId, Seq<char>)> {
    keys.map_values(|e: (LogicalNodeId, String)| (e.0, e.1@)).to_set()
}

fn edge_projection(projection: &Option<String>) -> (res: String)
    ensures
        res@ == projection_key(*projection),
{
    match projection {
        Some(p) => p.clone(),
        None => String::from_str("value"),
    }
}

fn key_less(a: &(LogicalNodeId, String), b: &(LogicalNodeId, String)) -> bool {
    a.0.0 < b.0.0 || (a.0.0 == b.0.0 && text_less(a.1.as_str(), b.1.as_str()))
}

fn insert_key(keys: &mut Vec<(LogicalNodeId, String)>, key: (LogicalNodeId, String))
    ensures
        final(keys)@.map_values(|e: (LogicalNodeId, String)| (e.0, e.1@)).to_set() == old(keys)@.map_values(
            |e: (LogicalNodeId, String)| (e.0, e.1@),
        ).to_set().insert((key.0, key.1@)),
{
    let ghost views = keys@.map_values(|e: (LogicalNodeId, String)| (e.0, e.1@));
    let mut k: usize = 0;
    while k < keys.len()
        invariant
            k <= keys@.len(),
            keys@ == old(keys)@,
            views == keys@.map_values(|e: (LogicalNodeId, String)| (e.0, e.1@)),
        decreases keys.len() - k,
    {
        if keys[k].0 == key.0 && str_equal(keys[k].1.as_str(), key.1.as_str()) {
            proof {
                crate::ifds::seqs::lemma_present_to_set(views, k as int, (key.0, key.1@));
            }
            return;
        }
        k = k + 1;
    }
    let mut k: usize = 0;
    while k < keys.len() && key_less(&keys[k], &key)
        invariant
            k <= keys@.len(),
        decreases keys.len() - k,
    {
        k = k + 1;
    }
    let ghost kv = (key.0, key.1@);
    keys.insert(k, key);
    proof {
        assert(keys@.map_values(|e: (LogicalNodeId, String)| (e.0, e.1@)) =~= views.insert(k as int, kv));
        crate::ifds::seqs::lemma_insert_to_set(views, k as int, kv);
    }
}

/// The observed inputs: each aligned operation that a value edge enters,
/// with the projection the edge delivers into, in order.
fn observation_keys(before: &Side, after: &Side) -> (res: Vec<(LogicalNodeId, String)>)
    ensures
        key_views(res@) == side_keys(*before).union(side_keys(*after)),
{
    let mut keys: Vec<(LogicalNodeId, String)> = Vec::new();
    proof {
        assert(key_views(keys@) =~= Set::<(LogicalNodeId, Seq<char>)>::empty());
    }
    let mut k: usize = 0;
    while k < before.graph.edges.len()
        invariant
            k <= before.graph.edges@.len(),
            forall|key: (LogicalNodeId, Seq<char>)| #[trigger] key_views(keys@).contains(key) <==> exists|j: int|
                0 <= j < k && carries_value((#[trigger] before.graph.edges@[j]).relation)
                    && crate::ifds::comparison::last_logical(before.ids@, before.graph.edges@[j].target) == Some(key.0)
                    && projection_key(before.graph.edges@[j].projection) == key.1,
        decreases before.graph.edges.len() - k,
    {
        let edge = &before.graph.edges[k];
        let ghost old_keys = key_views(keys@);
        if value_relation(edge.relation) {
            if let Some(id) = lookup_id(&before.ids, &edge.target) {
                insert_key(&mut keys, (id, edge_projection(&edge.projection)));
            }
        }
        proof {
            assert(before.graph.edges@[k as int] == *edge);
        }
        k = k + 1;
    }
    proof {
        assert(key_views(keys@) =~= side_keys(*before));
    }
    let mut k: usize = 0;
    while k < after.graph.edges.len()
        invariant
            k <= after.graph.edges@.len(),
            forall|key: (LogicalNodeId, Seq<char>)| #[trigger] key_views(keys@).contains(key) <==> side_keys(*before).contains(key)
                || after_seen(*after, key, k as int),
        decreases after.graph.edges.len() - k,
    {
        let edge = &after.graph.edges[k];
        let ghost old_keys = key_views(keys@);
        if value_relation(edge.relation) {
            if let Some(id) = lookup_id(&after.ids, &edge.target) {
                insert_key(&mut keys, (id, edge_projection(&edge.projection)));
            }
        }
        proof {
            assert(after.graph.edges@[k as int] == *edge);
            assert forall|key: (LogicalNodeId, Seq<char>)| #[trigger] key_views(keys@).contains(key) <==> side_keys(*before).contains(key)
                || after_seen(*after, key, k + 1) by {
                if after_seen(*after, key, k + 1) && !after_seen(*after, key, k as int) {
                    let j = choose|j: int| 0 <= j < k + 1 && carries_value((#[trigger] after.graph.edges@[j]).relation)
                        && crate::ifds::comparison::last_logical(after.ids@, after.graph.edges@[j].target) == Some(key.0)
                        && projection_key(after.graph.edges@[j].projection) == key.1;
                    assert(j == k);
                }
                if after_seen(*after, key, k as int) {
                    let j = choose|j: int| 0 <= j < k && carries_value((#[trigger] after.graph.edges@[j]).relation)
                        && crate::ifds::comparison::last_logical(after.ids@, after.graph.edges@[j].target) == Some(key.0)
                        && projection_key(after.graph.edges@[j].projection) == key.1;
                    assert(after_seen(*after, key, k + 1));
                }
            }
        }
        k = k + 1;
    }
    proof {
        assert(key_views(keys@) =~= side_keys(*before).union(side_keys(*after)));
    }
    keys
}

fn has_graph_node(graph: &FlowGraph, node: &NodeId) -> bool {
    let mut k: usize = 0;
    while k < graph.nodes.len()
        invariant
            k <= graph.nodes@.len(),
        decreases graph.nodes.len() - k,
    {
        if graph.nodes[k].id.same(node) {
            return true;
        }
        k = k + 1;
    }
    false
}

fn insert_text(list: &mut Vec<String>, text: &String)
    ensures
        final(list)@.map_values(|t: String| t@).to_set() == old(list)@.map_values(|t: String| t@).to_set().insert(
            text@,
        ),
{
    let ghost views = list@.map_values(|t: String| t@);
    let mut k: usize = 0;
    while k < list.len()
        invariant
            k <= list@.len(),
            list@ == old(list)@,
            views == list@.map_values(|t: String| t@),
        decreases list.len() - k,
    {
        if str_equal(list[k].as_str(), text.as_str()) {
            proof {
                crate::ifds::seqs::lemma_present_to_set(views, k as int, text@);
            }
            return;
        }
        k = k + 1;
    }
    let mut k: usize = 0;
    while k < list.len() && text_less(list[k].as_str(), text.as_str())
        invariant
            k <= list@.len(),
        decreases list.len() - k,
    {
        k = k + 1;
    }
    list.insert(k, text.clone());
    proof {
        assert(list@.map_values(|t: String| t@) =~= views.insert(k as int, text@));
        crate::ifds::seqs::lemma_insert_to_set(views, k as int, text@);
    }
}

/// How one source reaches the observation: the typed guard of the states
/// that carry its value, the exact conditions of its edges, and those edges.
fn selection(
    source: LogicalNodeId,
    node: &NodeId,
    incoming: &Vec<usize>,
    side: &Side,
    identity: &String,
) -> (res: SourceSelection)
    ensures
        forall|j: int| 0 <= j < res.evidence@.len() ==> ref_at(
            #[trigger] res.evidence@[j],
            identity@,
            side.edges_section@,
            side.graph.edges@.len() as int,
        ),
{
    let mut exact: Vec<String> = Vec::new();
    let mut evidence_refs: Vec<EvidenceRef> = Vec::new();
    let mut first: Option<usize> = None;
    let mut k: usize = 0;
    while k < incoming.len()
        invariant
            k <= incoming@.len(),
            first matches Some(i) ==> i < side.graph.edges@.len(),
            forall|x: EvidenceRef| evidence_refs@.contains(x) ==> ref_at(
                x,
                identity@,
                side.edges_section@,
                side.graph.edges@.len() as int,
            ),
        decreases incoming.len() - k,
    {
        let index = incoming[k];
        if index < side.graph.edges.len() {
            let edge = &side.graph.edges[index];
            if lookup_id(&side.ids, &edge.source) == Some(source) {
                if first.is_none() {
                    first = Some(index);
                }
                if let Some(condition) = &edge.condition {
                    insert_text(&mut exact, condition);
                }
                insert_evidence(&mut evidence_refs, evidence(identity, side.edges_section, index));
            }
        }
        k = k + 1;
    }
    let typed = match first {
        Some(i) => match operation_of(side.ir, &side.graph.edges[i].source) {
            Some(Operation::Write { target, definition, .. }) => clauses(
                &side.paths,
                node,
                &side.ids,
                &FactTest::LastWrite { place: target.clone(), write: definition.clone() },
            ),
            Some(Operation::Literal { definition, .. }) => clauses(
                &side.paths,
                node,
                &side.ids,
                &FactTest::OriginFromWrite { write: definition.clone() },
            ),
            Some(Operation::Compute { definition, .. }) => clauses(
                &side.paths,
                node,
                &side.ids,
                &FactTest::OriginFromWrite { write: definition.clone() },
            ),
            Some(_) => clauses(&side.paths, node, &side.ids, &FactTest::Any),
            None => None,
        },
        None => None,
    };
    let example = if exact.len() > 0 {
        Some(exact[0].clone())
    } else {
        None
    };
    proof {
        assert forall|j: int| 0 <= j < evidence_refs@.len() implies ref_at(
            #[trigger] evidence_refs@[j],
            identity@,
            side.edges_section@,
            side.graph.edges@.len() as int,
        ) by {
            assert(evidence_refs@.contains(evidence_refs@[j]));
        }
    }
    SourceSelection {
        source,
        clauses: typed,
        exact_condition_count: exact.len(),
        exact_condition_example: example,
        evidence: evidence_refs,
    }
}

/// An edge of the side, by index, whose source is the logical operation.
spec fn edge_from(side: Side, index: usize, source: LogicalNodeId) -> bool {
    index < side.graph.edges@.len() && crate::ifds::comparison::last_logical(
        side.ids@,
        side.graph.edges@[index as int].source,
    ) == Some(source)
}

/// The source node of the first incoming edge from a logical source.
fn first_source<'a>(incoming: &Vec<usize>, side: &'a Side, source: LogicalNodeId) -> (res: Option<&'a NodeId>)
    ensures
        match res {
            Some(n) => exists|k: int|
                0 <= k < incoming@.len() && edge_from(*side, #[trigger] incoming@[k], source) && *n
                    == side.graph.edges@[incoming@[k] as int].source && forall|j: int|
                    0 <= j < k ==> !edge_from(*side, #[trigger] incoming@[j], source),
            None => forall|j: int| 0 <= j < incoming@.len() ==> !edge_from(*side, #[trigger] incoming@[j], source),
        },
{
    let mut k: usize = 0;
    while k < incoming.len()
        invariant
            k <= incoming@.len(),
            forall|j: int| 0 <= j < k ==> !edge_from(*side, #[trigger] incoming@[j], source),
        decreases incoming.len() - k,
    {
        let index = incoming[k];
        if index < side.graph.edges.len() {
            let edge = &side.graph.edges[index];
            if lookup_id(&side.ids, &edge.source) == Some(source) {
                return Some(&edge.source);
            }
        }
        k = k + 1;
    }
    None
}

/// Both nodes write the same place.
fn same_write_target(ir: &ProcedureIr, a: &NodeId, b: &NodeId) -> bool {
    match (operation_of(ir, a), operation_of(ir, b)) {
        (Some(Operation::Write { target: first, .. }), Some(Operation::Write { target: second, .. })) => first.same(
            second,
        ),
        _ => false,
    }
}

/// What reaches an observation on one side, if the side has the node.
fn build_state(
    node: &Option<NodeId>,
    projection: &String,
    side: &Side,
    upstream_complete: bool,
    identity: &String,
) -> (res: Option<ObservationState>)
    ensures
        state_at(res, identity@, *side),
{
    let node = match node {
        Some(n) => n,
        None => {
            return None;
        },
    };
    if !has_graph_node(side.graph, node) {
        return None;
    }
    let mut incoming: Vec<usize> = Vec::new();
    let mut unresolved = false;
    let mut k: usize = 0;
    while k < side.graph.edges.len()
        invariant
            k <= side.graph.edges@.len(),
        decreases side.graph.edges.len() - k,
    {
        let edge = &side.graph.edges[k];
        if edge.target.same(node) && value_relation(edge.relation) && str_equal(
            edge_projection(&edge.projection).as_str(),
            projection.as_str(),
        ) {
            incoming.push(k);
            if let EvidenceKind::Unresolved { .. } = &edge.evidence {
                unresolved = true;
            }
        }
        k = k + 1;
    }
    let mut source_ids: Vec<LogicalNodeId> = Vec::new();
    let mut k: usize = 0;
    while k < incoming.len()
        invariant
            k <= incoming@.len(),
        decreases incoming.len() - k,
    {
        let index = incoming[k];
        if index < side.graph.edges.len() {
            if let Some(id) = lookup_id(&side.ids, &side.graph.edges[index].source) {
                insert_id(&mut source_ids, id);
            }
        }
        k = k + 1;
    }
    let mut selections: Vec<SourceSelection> = Vec::new();
    let mut k: usize = 0;
    while k < source_ids.len()
        invariant
            k <= source_ids@.len(),
            forall|a: int, j: int|
                0 <= a < selections@.len() && 0 <= j < selections@[a].evidence@.len() ==> ref_at(
                    #[trigger] selections@[a].evidence@[j],
                    identity@,
                    side.edges_section@,
                    side.graph.edges@.len() as int,
                ),
        decreases source_ids.len() - k,
    {
        selections.push(selection(source_ids[k], node, &incoming, side, identity));
        k = k + 1;
    }
    let mut precedence: Vec<OverwriteRule> = Vec::new();
    let mut e: usize = 0;
    while e < source_ids.len()
        invariant
            e <= source_ids@.len(),
        decreases source_ids.len() - e,
    {
        let mut l: usize = 0;
        while l < source_ids.len()
            invariant
                e < source_ids@.len(),
                l <= source_ids@.len(),
            decreases source_ids.len() - l,
        {
            let earlier = source_ids[e];
            let later = source_ids[l];
            if earlier != later {
                if let (Some(a), Some(b)) = (
                    first_source(&incoming, side, earlier),
                    first_source(&incoming, side, later),
                ) {
                    if same_write_target(side.ir, a, b) && reachable(side.ir, a, b) && !reachable(
                        side.ir,
                        b,
                        a,
                    ) {
                        precedence.push(OverwriteRule { earlier, later });
                    }
                }
            }
            l = l + 1;
        }
        e = e + 1;
    }
    let use_guard = clauses(&side.paths, node, &side.ids, &FactTest::Any);
    Some(
        ObservationState {
            sources: source_ids,
            exhaustive: upstream_complete && !unresolved,
            selections,
            precedence,
            use_guard,
        },
    )
}

fn alignment_for(alignment: &Vec<Alignment>, id: LogicalNodeId) -> (res: Option<usize>)
    ensures
        res matches Some(k) ==> k < alignment@.len() && alignment@[k as int].logical == id,
{
    let mut k: usize = 0;
    while k < alignment.len()
        invariant
            k <= alignment@.len(),
        decreases alignment.len() - k,
    {
        if alignment[k].logical == id {
            return Some(k);
        }
        k = k + 1;
    }
    None
}

fn extent_complete(extent: &crate::ifds::model::SnapshotExtent) -> bool {
    extent.upstream == Coverage::Complete && extent.downstream == Coverage::Complete
}

/// One observation per observed input of an aligned operation.
fn observations(full: &VariableFlowReport, before: &Side, after: &Side, identity: &String) -> (res: Vec<
    Observation,
>)
    ensures
        forall|i: int| 0 <= i < res@.len() ==> site_at((#[trigger] res@[i]).before, identity@, *before)
            && site_at(res@[i].after, identity@, *after) && state_at(res@[i].before_state, identity@, *before)
            && state_at(res@[i].after_state, identity@, *after),
{
    let keys = observation_keys(before, after);
    let mut out: Vec<Observation> = Vec::new();
    let before_complete = extent_complete(&full.flow_extent.before);
    let after_complete = extent_complete(&full.flow_extent.after);
    let mut k: usize = 0;
    while k < keys.len()
        invariant
            k <= keys@.len(),
            forall|i: int| 0 <= i < out@.len() ==> site_at((#[trigger] out@[i]).before, identity@, *before)
                && site_at(out@[i].after, identity@, *after) && state_at(out@[i].before_state, identity@, *before)
                && state_at(out@[i].after_state, identity@, *after),
        decreases keys.len() - k,
    {
        let (id, projection) = (keys[k].0, &keys[k].1);
        if let Some(a) = alignment_for(&full.alignment, id) {
            let aligned = &full.alignment[a];
            out.push(
                Observation {
                    id,
                    projection: projection.clone(),
                    before: node_site(&aligned.before, before, identity),
                    after: node_site(&aligned.after, after, identity),
                    before_state: build_state(&aligned.before, projection, before, before_complete, identity),
                    after_state: build_state(&aligned.after, projection, after, after_complete, identity),
                },
            );
        }
        k = k + 1;
    }
    out
}

// ---------------------------------------------------------------------------
// Groups of observations with equal facts.

fn id_lists_same(a: &Vec<LogicalNodeId>, b: &Vec<LogicalNodeId>) -> (res: bool)
    ensures
        res == (a@ == b@),
{
    if a.len() != b.len() {
        return false;
    }
    let mut k: usize = 0;
    while k < a.len()
        invariant
            k <= a@.len(),
            a@.len() == b@.len(),
            forall|i: int| 0 <= i < k ==> a@[i] == b@[i],
        decreases a.len() - k,
    {
        if a[k] != b[k] {
            return false;
        }
        k = k + 1;
    }
    proof {
        assert(a@ =~= b@);
    }
    true
}

fn option_text_same(a: &Option<String>, b: &Option<String>) -> (res: bool)
    ensures
        res == (crate::ifds::branches::text_view(*a) == crate::ifds::branches::text_view(*b)),
{
    match (a, b) {
        (Some(x), Some(y)) => str_equal(x.as_str(), y.as_str()),
        (None, None) => true,
        _ => false,
    }
}

fn selections_same(a: &Vec<SourceSelection>, b: &Vec<SourceSelection>) -> (res: bool)
    ensures
        res == selections_match(a@, b@),
{
    if a.len() != b.len() {
        return false;
    }
    let mut k: usize = 0;
    while k < a.len()
        invariant
            k <= a@.len(),
            a@.len() == b@.len(),
            forall|i: int| 0 <= i < k ==> selection_matches(#[trigger] a@[i], b@[i]),
        decreases a.len() - k,
    {
        let (x, y) = (&a[k], &b[k]);
        if x.source != y.source || !option_clauses_same(&x.clauses, &y.clauses) || x.exact_condition_count
            != y.exact_condition_count || !option_text_same(&x.exact_condition_example, &y.exact_condition_example) {
            return false;
        }
        k = k + 1;
    }
    true
}

fn rules_same(a: &Vec<OverwriteRule>, b: &Vec<OverwriteRule>) -> (res: bool)
    ensures
        res == (a@ == b@),
{
    if a.len() != b.len() {
        return false;
    }
    let mut k: usize = 0;
    while k < a.len()
        invariant
            k <= a@.len(),
            a@.len() == b@.len(),
            forall|i: int| 0 <= i < k ==> a@[i] == b@[i],
        decreases a.len() - k,
    {
        if a[k] != b[k] {
            return false;
        }
        k = k + 1;
    }
    proof {
        assert(a@ =~= b@);
    }
    true
}

/// Two states with equal sources, exhaustiveness, selections (without their
/// evidence), precedence and use guard.
fn states_same(a: &Option<ObservationState>, b: &Option<ObservationState>) -> (res: bool)
    ensures
        res == state_matches(*a, *b),
{
    match (a, b) {
        (Some(x), Some(y)) => id_lists_same(&x.sources, &y.sources) && x.exhaustive == y.exhaustive
            && selections_same(&x.selections, &y.selections) && rules_same(&x.precedence, &y.precedence)
            && option_clauses_same(&x.use_guard, &y.use_guard),
        (None, None) => true,
        _ => false,
    }
}

fn site_operation_same(a: &Option<SourceSite>, b: &Option<SourceSite>) -> bool {
    match (a, b) {
        (Some(x), Some(y)) => str_equal(x.operation.as_str(), y.operation.as_str()),
        (None, None) => true,
        _ => false,
    }
}

fn same_facts(a: &Observation, b: &Observation) -> bool {
    states_same(&a.before_state, &b.before_state) && states_same(&a.after_state, &b.after_state)
        && site_operation_same(&a.before, &b.before) && site_operation_same(&a.after, &b.after)
}

/// Groups observations with equal states and site labels, in the order in
/// which each group first appears; groups are numbered from one.
/// The reference to an observation that groups hold.
pub open spec fn observation_ref(o: Observation) -> ObservationRef {
    ObservationRef { id: o.id, projection: o.projection }
}

/// Some group holds a reference to the observation.
pub open spec fn grouped(groups: Seq<ObservationGroup>, o: Observation) -> bool {
    exists|g: int, m: int|
        0 <= g < groups.len() && 0 <= m < groups[g].members@.len() && #[trigger] groups[g].members@[m]
            == observation_ref(o)
}

/// Groups observations with the same facts, in order of first appearance;
/// every observation is referenced by a group.
fn observation_groups(observations: &Vec<Observation>) -> (res: Vec<ObservationGroup>)
    ensures
        forall|j: int| 0 <= j < observations@.len() ==> grouped(res@, #[trigger] observations@[j]),
{
    let mut groups: Vec<ObservationGroup> = Vec::new();
    let mut leaders: Vec<usize> = Vec::new();
    let mut k: usize = 0;
    while k < observations.len()
        invariant
            k <= observations@.len(),
            leaders@.len() == groups@.len(),
            groups@.len() <= k,
            forall|i: int| 0 <= i < leaders@.len() ==> leaders@[i] < observations@.len(),
            forall|j: int| 0 <= j < k ==> grouped(groups@, #[trigger] observations@[j]),
        decreases observations.len() - k,
    {
        let member = ObservationRef { id: observations[k].id, projection: observations[k].projection.clone() };
        let ghost groups_start = groups@;
        let mut placed = false;
        let mut g: usize = 0;
        while g < groups.len()
            invariant_except_break
                !placed,
            invariant
                g <= groups@.len(),
                leaders@.len() == groups@.len(),
                groups@.len() <= k,
                k < observations@.len(),
                forall|i: int| 0 <= i < leaders@.len() ==> leaders@[i] < observations@.len(),
                member == observation_ref(observations@[k as int]),
                !placed ==> groups@ == groups_start,
                placed ==> groups@.len() == groups_start.len(),
                placed ==> grouped(groups@, observations@[k as int]),
                placed ==> forall|j: int| 0 <= j < k ==> grouped(groups@, #[trigger] observations@[j]),
                forall|j: int| 0 <= j < k ==> grouped(groups_start, #[trigger] observations@[j]),
            decreases groups.len() - g,
        {
            if same_facts(&observations[leaders[g]], &observations[k]) {
                let old_members = &groups[g].members;
                let mut members: Vec<ObservationRef> = Vec::new();
                let mut c: usize = 0;
                while c < old_members.len()
                    invariant
                        c <= old_members@.len(),
                        members@.len() == c,
                        forall|i: int| 0 <= i < c ==> #[trigger] members@[i] == old_members@[i],
                    decreases old_members.len() - c,
                {
                    members.push(
                        ObservationRef { id: old_members[c].id, projection: old_members[c].projection.clone() },
                    );
                    c = c + 1;
                }
                members.push(ObservationRef { id: member.id, projection: member.projection.clone() });
                let id = groups[g].id;
                let ghost before_set = groups@;
                let ghost new_members = members@;
                groups.set(g, ObservationGroup { id, members });
                proof {
                    assert(before_set == groups_start);
                    assert(groups@ == before_set.update(g as int, groups@[g as int]));
                    assert(new_members.len() == before_set[g as int].members@.len() + 1);
                    assert(forall|i: int|
                        0 <= i < before_set[g as int].members@.len() ==> #[trigger] new_members[i]
                            == before_set[g as int].members@[i]);
                    assert(groups@[g as int].members@ == new_members);
                    assert(groups@[g as int].members@[new_members.len() - 1] == observation_ref(
                        observations@[k as int],
                    ));
                    assert forall|j: int| 0 <= j < k implies grouped(groups@, #[trigger] observations@[j]) by {
                        assert(grouped(groups_start, observations@[j]));
                        let (g2, m2) = choose|g2: int, m2: int|
                            0 <= g2 < groups_start.len() && 0 <= m2 < groups_start[g2].members@.len()
                                && #[trigger] groups_start[g2].members@[m2] == observation_ref(observations@[j]);
                        if g2 == g {
                            assert(groups@[g2].members@[m2] == groups_start[g2].members@[m2]);
                        } else {
                            assert(groups@[g2] == groups_start[g2]);
                        }
                    }
                }
                placed = true;
                break;
            }
            g = g + 1;
        }
        if !placed {
            let number = groups.len() as u32;
            let id: u32 = if number < u32::MAX {
                number + 1
            } else {
                number
            };
            let mut members: Vec<ObservationRef> = Vec::new();
            members.push(member);
            let ghost before_push = groups@;
            groups.push(ObservationGroup { id, members });
            leaders.push(k);
            proof {
                assert(groups@[groups@.len() - 1].members@[0] == observation_ref(observations@[k as int]));
                assert forall|j: int| 0 <= j < k implies grouped(groups@, #[trigger] observations@[j]) by {
                    let (g2, m2) = choose|g2: int, m2: int|
                        0 <= g2 < before_push.len() && 0 <= m2 < before_push[g2].members@.len()
                            && #[trigger] before_push[g2].members@[m2] == observation_ref(observations@[j]);
                    assert(groups@[g2] == before_push[g2]);
                }
            }
        }
        k = k + 1;
    }
    groups
}

// ---------------------------------------------------------------------------
// Findings.

/// A finding being collected: its key and its evidence.
struct FindingEntry {
    kind: FindingKind,
    subject: LogicalNodeId,
    observation: Option<LogicalNodeId>,
    projection: Option<String>,
    evidence: Vec<EvidenceRef>,
}

/// The source sets of a value-source change, kept with its key.
struct Impact {
    kind: FindingKind,
    subject: LogicalNodeId,
    observation: Option<LogicalNodeId>,
    projection: Option<String>,
    before_sources: Vec<LogicalNodeId>,
    after_sources: Vec<LogicalNodeId>,
    before_bindings: Vec<LogicalBindingId>,
    after_bindings: Vec<LogicalBindingId>,
    changed_operations: Vec<LogicalNodeId>,
}

fn kind_rank(kind: FindingKind) -> u8 {
    match kind {
        FindingKind::SourceSetChanged => 0,
        FindingKind::SelectionChanged => 1,
        FindingKind::ExpressionChanged => 2,
        FindingKind::WriteAdded => 3,
        FindingKind::WriteRemoved => 4,
        FindingKind::ObservationAdded => 5,
        FindingKind::ObservationRemoved => 6,
        FindingKind::ComparisonUnresolved => 7,
    }
}

fn option_id_less(a: Option<LogicalNodeId>, b: Option<LogicalNodeId>) -> bool {
    match (a, b) {
        (None, Some(_)) => true,
        (Some(x), Some(y)) => x.0 < y.0,
        _ => false,
    }
}

fn option_text_less(a: &Option<String>, b: &Option<String>) -> bool {
    match (a, b) {
        (None, Some(_)) => true,
        (Some(x), Some(y)) => text_less(x.as_str(), y.as_str()),
        _ => false,
    }
}

/// The order of finding keys: kind, subject, observation, then projection.
fn key_before(
    kind: FindingKind,
    subject: LogicalNodeId,
    observation: Option<LogicalNodeId>,
    projection: &Option<String>,
    entry: &FindingEntry,
) -> bool {
    if kind_rank(kind) != kind_rank(entry.kind) {
        return kind_rank(kind) < kind_rank(entry.kind);
    }
    if subject.0 != entry.subject.0 {
        return subject.0 < entry.subject.0;
    }
    if observation != entry.observation {
        return option_id_less(observation, entry.observation);
    }
    option_text_less(projection, &entry.projection)
}

fn key_is(
    kind: FindingKind,
    subject: LogicalNodeId,
    observation: Option<LogicalNodeId>,
    projection: &Option<String>,
    entry_kind: FindingKind,
    entry_subject: LogicalNodeId,
    entry_observation: Option<LogicalNodeId>,
    entry_projection: &Option<String>,
) -> (res: bool)
    ensures
        res == (kind == entry_kind && subject == entry_subject && observation == entry_observation
            && crate::ifds::branches::text_view(*projection) == crate::ifds::branches::text_view(
            *entry_projection,
        )),
{
    kind == entry_kind && subject == entry_subject && observation == entry_observation && option_text_same(
        projection,
        entry_projection,
    )
}

/// Every reference of every entry names the report `id` and a valid index.
spec fn entries_ok(entries: Seq<FindingEntry>, id: Seq<char>, full: VariableFlowReport) -> bool {
    forall|e: int, j: int| 0 <= e < entries.len() && 0 <= j < entries[e].evidence@.len() ==> reference_valid(
        #[trigger] entries[e].evidence@[j],
        id,
        full,
    )
}

/// The index of the entry with this key, inserting an empty one in key
/// order if there is none.
fn entry_index(
    entries: &mut Vec<FindingEntry>,
    kind: FindingKind,
    subject: LogicalNodeId,
    observation: Option<LogicalNodeId>,
    projection: &Option<String>,
    Ghost(id): Ghost<Seq<char>>,
    Ghost(full): Ghost<VariableFlowReport>,
) -> (res: usize)
    requires
        entries_ok(old(entries)@, id, full),
    ensures
        res < final(entries)@.len(),
        entries_ok(final(entries)@, id, full),
{
    let mut k: usize = 0;
    while k < entries.len()
        invariant
            k <= entries@.len(),
            entries_ok(entries@, id, full),
        decreases entries.len() - k,
    {
        let e = &entries[k];
        if key_is(kind, subject, observation, projection, e.kind, e.subject, e.observation, &e.projection) {
            return k;
        }
        k = k + 1;
    }
    let mut k: usize = 0;
    while k < entries.len() && !key_before(kind, subject, observation, projection, &entries[k])
        invariant
            k <= entries@.len(),
            entries_ok(entries@, id, full),
        decreases entries.len() - k,
    {
        k = k + 1;
    }
    let ghost before = entries@;
    entries.insert(
        k,
        FindingEntry { kind, subject, observation, projection: projection.clone(), evidence: Vec::new() },
    );
    proof {
        assert forall|e: int, j: int| 0 <= e < entries@.len() && 0 <= j < entries@[e].evidence@.len() implies reference_valid(
            #[trigger] entries@[e].evidence@[j],
            id,
            full,
        ) by {
            if e < k {
                assert(entries@[e] == before[e]);
            } else if e > k {
                assert(entries@[e] == before[e - 1]);
            }
        }
    }
    k
}

fn copy_refs(src: &Vec<EvidenceRef>) -> (res: Vec<EvidenceRef>)
    ensures
        res@ == src@,
{
    let mut out: Vec<EvidenceRef> = Vec::new();
    let mut k: usize = 0;
    while k < src.len()
        invariant
            k <= src@.len(),
            out@ == src@.take(k as int),
        decreases src.len() - k,
    {
        out.push(src[k].clone());
        proof {
            assert(src@.take(k + 1) =~= src@.take(k as int).push(src@[k as int]));
        }
        k = k + 1;
    }
    proof {
        assert(src@.take(k as int) =~= src@);
    }
    out
}

/// Replaces the references of one entry by a list with only valid ones.
fn set_entry_refs(
    entries: &mut Vec<FindingEntry>,
    k: usize,
    refs: Vec<EvidenceRef>,
    Ghost(id): Ghost<Seq<char>>,
    Ghost(full): Ghost<VariableFlowReport>,
)
    requires
        k < old(entries)@.len(),
        entries_ok(old(entries)@, id, full),
        forall|x: EvidenceRef| refs@.contains(x) ==> reference_valid(x, id, full),
    ensures
        entries_ok(final(entries)@, id, full),
        final(entries)@.len() == old(entries)@.len(),
{
    let e = &entries[k];
    let updated = FindingEntry {
        kind: e.kind,
        subject: e.subject,
        observation: e.observation,
        projection: e.projection.clone(),
        evidence: refs,
    };
    let ghost before = entries@;
    entries.set(k, updated);
    proof {
        assert forall|e: int, j: int| 0 <= e < entries@.len() && 0 <= j < entries@[e].evidence@.len() implies reference_valid(
            #[trigger] entries@[e].evidence@[j],
            id,
            full,
        ) by {
            if e == k {
                assert(entries@[e].evidence@.contains(entries@[e].evidence@[j]));
            } else {
                assert(entries@[e] == before[e]);
            }
        }
    }
}

/// Adds a reference to the finding with this key.
fn add_finding(
    entries: &mut Vec<FindingEntry>,
    kind: FindingKind,
    subject: LogicalNodeId,
    observation: Option<LogicalNodeId>,
    projection: &Option<String>,
    r: EvidenceRef,
    Ghost(id): Ghost<Seq<char>>,
    Ghost(full): Ghost<VariableFlowReport>,
)
    requires
        entries_ok(old(entries)@, id, full),
        reference_valid(r, id, full),
    ensures
        entries_ok(final(entries)@, id, full),
{
    let k = entry_index(entries, kind, subject, observation, projection, Ghost(id), Ghost(full));
    let mut refs = copy_refs(&entries[k].evidence);
    proof {
        assert forall|x: EvidenceRef| refs@.contains(x) implies reference_valid(x, id, full) by {
            let j = choose|j: int| 0 <= j < refs@.len() && refs@[j] == x;
            assert(reference_valid(entries@[k as int].evidence@[j], id, full));
        }
    }
    insert_evidence(&mut refs, r);
    set_entry_refs(entries, k, refs, Ghost(id), Ghost(full));
}

fn delta_ref(identity: &String, index: usize) -> (res: EvidenceRef)
    ensures
        res.report_id@ == identity@,
        res.section@ == "deltas"@,
        res.index == index,
{
    evidence(identity, "deltas", index)
}

/// The lists hold the same identifiers in order.
fn binding_lists_same(a: &Vec<LogicalBindingId>, b: &Vec<LogicalBindingId>) -> (res: bool)
    ensures
        res == (a@ == b@),
{
    if a.len() != b.len() {
        return false;
    }
    let mut k: usize = 0;
    while k < a.len()
        invariant
            k <= a@.len(),
            a@.len() == b@.len(),
            forall|i: int| 0 <= i < k ==> a@[i] == b@[i],
        decreases a.len() - k,
    {
        if a[k] != b[k] {
            return false;
        }
        k = k + 1;
    }
    proof {
        assert(a@ =~= b@);
    }
    true
}

/// An impact with the given key.
spec fn impact_matches(m: Impact, kind: FindingKind, subject: LogicalNodeId, observation: Option<LogicalNodeId>, projection: Option<String>) -> bool {
    m.kind == kind && m.subject == subject && m.observation == observation && crate::ifds::branches::text_view(m.projection)
        == crate::ifds::branches::text_view(projection)
}

fn impact_index(impacts: &Vec<Impact>, kind: FindingKind, subject: LogicalNodeId, observation: Option<LogicalNodeId>, projection: &Option<String>) -> (res: Option<usize>)
    ensures
        match res {
            Some(k) => k < impacts@.len() && impact_matches(impacts@[k as int], kind, subject, observation, *projection)
                && forall|j: int| 0 <= j < k ==> !impact_matches(#[trigger] impacts@[j], kind, subject, observation, *projection),
            None => forall|j: int| 0 <= j < impacts@.len() ==> !impact_matches(#[trigger] impacts@[j], kind, subject, observation, *projection),
        },
{
    let mut k: usize = 0;
    while k < impacts.len()
        invariant
            k <= impacts@.len(),
            forall|j: int| 0 <= j < k ==> !impact_matches(#[trigger] impacts@[j], kind, subject, observation, *projection),
        decreases impacts.len() - k,
    {
        let m = &impacts[k];
        if key_is(kind, subject, observation, projection, m.kind, m.subject, m.observation, &m.projection) {
            return Some(k);
        }
        k = k + 1;
    }
    None
}

/// The logical identifier that a delta's node has, if any.
fn delta_node_id(by_node: &Vec<(NodeId, LogicalNodeId)>, node: &NodeId) -> Option<LogicalNodeId> {
    lookup_id(by_node, node)
}

/// The findings each delta establishes on its own, and the source sets of
/// value-source changes.
fn direct_findings(
    full: &VariableFlowReport,
    before_ir: &ProcedureIr,
    after_ir: &ProcedureIr,
    by_node: &Vec<(NodeId, LogicalNodeId)>,
    identity: &String,
    entries: &mut Vec<FindingEntry>,
    impacts: &mut Vec<Impact>,
)
    requires
        entries_ok(old(entries)@, identity@, *full),
    ensures
        entries_ok(final(entries)@, identity@, *full),
{
    proof {
        lemma_section_names();
    }
    let mut index: usize = 0;
    while index < full.deltas.len()
        invariant
            index <= full.deltas@.len(),
            entries_ok(entries@, identity@, *full),
        decreases full.deltas.len() - index,
    {
        let r = delta_ref(identity, index);
        proof {
            lemma_section_names();
        }
        match &full.deltas[index].delta {
            FlowDelta::ValueSourceChanged {
                consumer,
                projection,
                before_sources,
                after_sources,
                before_bindings,
                after_bindings,
                changed_operations,
            } => {
                let kind = if id_lists_same(before_sources, after_sources) && binding_lists_same(
                    before_bindings,
                    after_bindings,
                ) && changed_operations.len() > 0 {
                    FindingKind::ExpressionChanged
                } else {
                    FindingKind::SourceSetChanged
                };
                let key_projection = Some(projection.clone());
                let impact = Impact {
                    kind,
                    subject: *consumer,
                    observation: Some(*consumer),
                    projection: key_projection.clone(),
                    before_sources: before_sources.clone(),
                    after_sources: after_sources.clone(),
                    before_bindings: before_bindings.clone(),
                    after_bindings: after_bindings.clone(),
                    changed_operations: changed_operations.clone(),
                };
                match impact_index(impacts, kind, *consumer, Some(*consumer), &key_projection) {
                    Some(k) => {
                        impacts.set(k, impact);
                    },
                    None => {
                        impacts.push(impact);
                    },
                }
                add_finding(entries, kind, *consumer, Some(*consumer), &key_projection, r, Ghost(identity@), Ghost(*full));
            },
            FlowDelta::FlowConditionChanged { target, projection, .. } => {
                add_finding(entries, FindingKind::SelectionChanged, *target, Some(*target), projection, r, Ghost(identity@), Ghost(*full));
            },
            FlowDelta::OperationChanged { logical, .. } => {
                add_finding(entries, FindingKind::ExpressionChanged, *logical, None, &None, r, Ghost(identity@), Ghost(*full));
            },
            FlowDelta::WriteAdded { after } => {
                if let Some(id) = delta_node_id(by_node, after) {
                    add_finding(entries, FindingKind::WriteAdded, id, None, &None, r, Ghost(identity@), Ghost(*full));
                }
            },
            FlowDelta::WriteRemoved { before } => {
                if let Some(id) = delta_node_id(by_node, before) {
                    add_finding(entries, FindingKind::WriteRemoved, id, None, &None, r, Ghost(identity@), Ghost(*full));
                }
            },
            FlowDelta::NodeAdded { after } => {
                if is_return(after_ir, after) {
                    if let Some(id) = delta_node_id(by_node, after) {
                        add_finding(entries, FindingKind::ObservationAdded, id, None, &None, r, Ghost(identity@), Ghost(*full));
                    }
                }
            },
            FlowDelta::NodeRemoved { before } => {
                if is_return(before_ir, before) {
                    if let Some(id) = delta_node_id(by_node, before) {
                        add_finding(entries, FindingKind::ObservationRemoved, id, None, &None, r, Ghost(identity@), Ghost(*full));
                    }
                }
            },
            FlowDelta::AnalysisUnknown { .. } => {
                add_finding(entries, FindingKind::ComparisonUnresolved, LogicalNodeId(0), None, &None, r, Ghost(identity@), Ghost(*full));
            },
            _ => {},
        }
        index = index + 1;
    }
}

/// The impact's related operations: its sources on both sides and its
/// changed operations.
fn related_ids(impact: &Impact) -> Vec<LogicalNodeId> {
    let mut related: Vec<LogicalNodeId> = Vec::new();
    let mut k: usize = 0;
    while k < impact.before_sources.len()
        invariant
            k <= impact.before_sources@.len(),
        decreases impact.before_sources.len() - k,
    {
        insert_id(&mut related, impact.before_sources[k]);
        k = k + 1;
    }
    let mut k: usize = 0;
    while k < impact.after_sources.len()
        invariant
            k <= impact.after_sources@.len(),
        decreases impact.after_sources.len() - k,
    {
        insert_id(&mut related, impact.after_sources[k]);
        k = k + 1;
    }
    let mut k: usize = 0;
    while k < impact.changed_operations.len()
        invariant
            k <= impact.changed_operations@.len(),
        decreases impact.changed_operations.len() - k,
    {
        insert_id(&mut related, impact.changed_operations[k]);
        k = k + 1;
    }
    related
}

fn node_related(by_node: &Vec<(NodeId, LogicalNodeId)>, node: &NodeId, related: &Vec<LogicalNodeId>) -> bool {
    match delta_node_id(by_node, node) {
        Some(id) => has_id(related, id),
        None => false,
    }
}

/// Whether a delta concerns an operation related to a value-source change
/// of the consumer `subject`.
fn delta_related(delta: &FlowDelta, by_node: &Vec<(NodeId, LogicalNodeId)>, related: &Vec<LogicalNodeId>, subject: LogicalNodeId) -> bool {
    match delta {
        FlowDelta::NodeAdded { after } => node_related(by_node, after, related),
        FlowDelta::WriteAdded { after } => node_related(by_node, after, related),
        FlowDelta::NodeRemoved { before } => node_related(by_node, before, related),
        FlowDelta::WriteRemoved { before } => node_related(by_node, before, related),
        FlowDelta::OperationChanged { logical, .. } => has_id(related, *logical),
        FlowDelta::FlowAdded { source, target, .. } => *target == subject && has_id(related, *source),
        FlowDelta::FlowRemoved { source, target, .. } => *target == subject && has_id(related, *source),
        FlowDelta::FlowConditionChanged { source, target, .. } => *target == subject && has_id(related, *source),
        _ => false,
    }
}

/// Gathers the deltas related to each value-source change into its finding,
/// and drops the operation-level findings that it explains.
fn attach_related(
    full: &VariableFlowReport,
    by_node: &Vec<(NodeId, LogicalNodeId)>,
    identity: &String,
    entries: &mut Vec<FindingEntry>,
    impacts: &Vec<Impact>,
)
    requires
        entries_ok(old(entries)@, identity@, *full),
    ensures
        entries_ok(final(entries)@, identity@, *full),
{
    let mut m: usize = 0;
    while m < impacts.len()
        invariant
            m <= impacts@.len(),
            entries_ok(entries@, identity@, *full),
        decreases impacts.len() - m,
    {
        let impact = &impacts[m];
        let related = related_ids(impact);
        let mut index: usize = 0;
        while index < full.deltas.len()
            invariant
                index <= full.deltas@.len(),
                entries_ok(entries@, identity@, *full),
            decreases full.deltas.len() - index,
        {
            proof {
                lemma_section_names();
            }
            if delta_related(&full.deltas[index].delta, by_node, &related, impact.subject) {
                add_finding(
                    entries,
                    impact.kind,
                    impact.subject,
                    impact.observation,
                    &impact.projection,
                    delta_ref(identity, index),
                    Ghost(identity@),
                    Ghost(*full),
                );
            }
            index = index + 1;
        }
        let mut kept: Vec<FindingEntry> = Vec::new();
        while entries.len() > 0
            invariant
                entries_ok(entries@, identity@, *full),
                entries_ok(kept@, identity@, *full),
            decreases entries.len(),
        {
            let ghost before = entries@;
            let e = entries.remove(0);
            proof {
                assert forall|x: int, j: int| 0 <= x < entries@.len() && 0 <= j < entries@[x].evidence@.len() implies reference_valid(
                    #[trigger] entries@[x].evidence@[j],
                    identity@,
                    *full,
                ) by {
                    assert(entries@[x] == before[x + 1]);
                }
                assert(e == before[0]);
            }
            let own = key_is(e.kind, e.subject, e.observation, &e.projection, impact.kind, impact.subject, impact.observation, &impact.projection);
            let explained = e.observation.is_none() && (e.kind == FindingKind::WriteAdded || e.kind
                == FindingKind::WriteRemoved || e.kind == FindingKind::ExpressionChanged) && has_id(&related, e.subject);
            if own || !explained {
                let ghost kept_before = kept@;
                kept.push(e);
                proof {
                    assert forall|x: int, j: int| 0 <= x < kept@.len() && 0 <= j < kept@[x].evidence@.len() implies reference_valid(
                        #[trigger] kept@[x].evidence@[j],
                        identity@,
                        *full,
                    ) by {
                        if x < kept_before.len() {
                            assert(kept@[x] == kept_before[x]);
                        } else {
                            assert(kept@[x] == before[0]);
                            assert(reference_valid(before[0].evidence@[j], identity@, *full));
                        }
                    }
                }
            }
        }
        *entries = kept;
        m = m + 1;
    }
}

fn selection_signature_same(a: &ObservationState, b: &ObservationState) -> (res: bool)
    ensures
        res == (a.selections@.len() == b.selections@.len() && forall|i: int|
            0 <= i < a.selections@.len() ==> (#[trigger] a.selections@[i]).source == b.selections@[i].source
                && option_clauses_match(a.selections@[i].clauses, b.selections@[i].clauses)),
{
    if a.selections.len() != b.selections.len() {
        return false;
    }
    let mut k: usize = 0;
    while k < a.selections.len()
        invariant
            k <= a.selections@.len(),
            a.selections@.len() == b.selections@.len(),
            forall|i: int|
                0 <= i < k ==> (#[trigger] a.selections@[i]).source == b.selections@[i].source
                    && option_clauses_match(a.selections@[i].clauses, b.selections@[i].clauses),
        decreases a.selections.len() - k,
    {
        if a.selections[k].source != b.selections[k].source || !option_clauses_same(
            &a.selections[k].clauses,
            &b.selections[k].clauses,
        ) {
            return false;
        }
        k = k + 1;
    }
    true
}

/// The two sides select their common sources differently.
fn selection_changed(before: &Option<ObservationState>, after: &Option<ObservationState>) -> bool {
    match (before, after) {
        (Some(x), Some(y)) => !selection_signature_same(x, y) || !rules_same(&x.precedence, &y.precedence)
            || !option_clauses_same(&x.use_guard, &y.use_guard),
        _ => false,
    }
}

fn sources_same(before: &Option<ObservationState>, after: &Option<ObservationState>) -> bool {
    match (before, after) {
        (Some(x), Some(y)) => id_lists_same(&x.sources, &y.sources),
        (None, None) => true,
        _ => false,
    }
}

fn add_state_evidence(
    out: &mut Vec<EvidenceRef>,
    state: &Option<ObservationState>,
    Ghost(id): Ghost<Seq<char>>,
    Ghost(full): Ghost<VariableFlowReport>,
)
    requires
        state_ok(*state, id, full),
        forall|x: EvidenceRef| old(out)@.contains(x) ==> reference_valid(x, id, full),
    ensures
        forall|x: EvidenceRef| final(out)@.contains(x) ==> reference_valid(x, id, full),
{
    if let Some(s) = state {
        let mut k: usize = 0;
        while k < s.selections.len()
            invariant
                k <= s.selections@.len(),
                state_ok(*state, id, full),
                *state == Some(*s),
                forall|x: EvidenceRef| out@.contains(x) ==> reference_valid(x, id, full),
            decreases s.selections.len() - k,
        {
            let refs = &s.selections[k].evidence;
            let mut j: usize = 0;
            while j < refs.len()
                invariant
                    j <= refs@.len(),
                    k < s.selections@.len(),
                    refs@ == s.selections@[k as int].evidence@,
                    state_ok(*state, id, full),
                    *state == Some(*s),
                    forall|x: EvidenceRef| out@.contains(x) ==> reference_valid(x, id, full),
                decreases refs.len() - j,
            {
                assert(reference_valid(s.selections@[k as int].evidence@[j as int], id, full));
                insert_evidence(out, refs[j].clone());
                j = j + 1;
            }
            k = k + 1;
        }
    }
}

/// Observations whose sources stay the same but whose selection, precedence
/// or use guard changed: branch and control-flow evidence can show changed
/// selection where the relation comparison did not.
fn selection_findings(
    observations: &Vec<Observation>,
    entries: &mut Vec<FindingEntry>,
    Ghost(id): Ghost<Seq<char>>,
    Ghost(full): Ghost<VariableFlowReport>,
)
    requires
        entries_ok(old(entries)@, id, full),
        forall|i: int| 0 <= i < observations@.len() ==> state_ok((#[trigger] observations@[i]).before_state, id, full)
            && state_ok(observations@[i].after_state, id, full),
    ensures
        entries_ok(final(entries)@, id, full),
{
    let mut k: usize = 0;
    while k < observations.len()
        invariant
            k <= observations@.len(),
            entries_ok(entries@, id, full),
            forall|i: int| 0 <= i < observations@.len() ==> state_ok((#[trigger] observations@[i]).before_state, id, full)
                && state_ok(observations@[i].after_state, id, full),
        decreases observations.len() - k,
    {
        let o = &observations[k];
        let both = o.before_state.is_some() && o.after_state.is_some();
        let neither = o.before_state.is_none() && o.after_state.is_none();
        if sources_same(&o.before_state, &o.after_state) && (both || neither) {
            let changed = if both {
                selection_changed(&o.before_state, &o.after_state)
            } else {
                false
            };
            if changed {
                let projection = Some(o.projection.clone());
                let i = entry_index(entries, FindingKind::SelectionChanged, o.id, Some(o.id), &projection, Ghost(id), Ghost(full));
                let mut refs = copy_refs(&entries[i].evidence);
                proof {
                    assert forall|x: EvidenceRef| refs@.contains(x) implies reference_valid(x, id, full) by {
                        let j = choose|j: int| 0 <= j < refs@.len() && refs@[j] == x;
                        assert(reference_valid(entries@[i as int].evidence@[j], id, full));
                    }
                    assert(state_ok(observations@[k as int].before_state, id, full));
                }
                add_state_evidence(&mut refs, &o.before_state, Ghost(id), Ghost(full));
                add_state_evidence(&mut refs, &o.after_state, Ghost(id), Ghost(full));
                set_entry_refs(entries, i, refs, Ghost(id), Ghost(full));
            }
        }
        k = k + 1;
    }
}

/// The findings in key order, each with the source sets of its impact.
fn finish_findings(
    entries: Vec<FindingEntry>,
    impacts: &Vec<Impact>,
    Ghost(id): Ghost<Seq<char>>,
    Ghost(full): Ghost<VariableFlowReport>,
) -> (res: Vec<Finding>)
    requires
        entries_ok(entries@, id, full),
    ensures
        forall|i: int, j: int| 0 <= i < res@.len() && 0 <= j < res@[i].evidence@.len() ==> reference_valid(
            #[trigger] res@[i].evidence@[j],
            id,
            full,
        ),
{
    let mut out: Vec<Finding> = Vec::new();
    let mut entries = entries;
    while entries.len() > 0
        invariant
            entries_ok(entries@, id, full),
            forall|i: int, j: int| 0 <= i < out@.len() && 0 <= j < out@[i].evidence@.len() ==> reference_valid(
                #[trigger] out@[i].evidence@[j],
                id,
                full,
            ),
        decreases entries.len(),
    {
        let ghost before = entries@;
        let e = entries.remove(0);
        proof {
            assert forall|x: int, j: int| 0 <= x < entries@.len() && 0 <= j < entries@[x].evidence@.len() implies reference_valid(
                #[trigger] entries@[x].evidence@[j],
                id,
                full,
            ) by {
                assert(entries@[x] == before[x + 1]);
            }
            assert(e == before[0]);
            assert forall|j: int| 0 <= j < e.evidence@.len() implies reference_valid(#[trigger] e.evidence@[j], id, full) by {
                assert(reference_valid(before[0].evidence@[j], id, full));
            }
        }
        let finding = match impact_index(impacts, e.kind, e.subject, e.observation, &e.projection) {
            Some(m) => {
                let impact = &impacts[m];
                Finding {
                    kind: e.kind,
                    subject: e.subject,
                    observation: e.observation,
                    projection: e.projection,
                    before_sources: impact.before_sources.clone(),
                    after_sources: impact.after_sources.clone(),
                    before_bindings: impact.before_bindings.clone(),
                    after_bindings: impact.after_bindings.clone(),
                    changed_operations: impact.changed_operations.clone(),
                    evidence: e.evidence,
                }
            },
            None => Finding {
                kind: e.kind,
                subject: e.subject,
                observation: e.observation,
                projection: e.projection,
                before_sources: Vec::new(),
                after_sources: Vec::new(),
                before_bindings: Vec::new(),
                after_bindings: Vec::new(),
                changed_operations: Vec::new(),
                evidence: e.evidence,
            },
        };
        let ghost out_before = out@;
        out.push(finding);
        proof {
            assert forall|x: int, j: int| 0 <= x < out@.len() && 0 <= j < out@[x].evidence@.len() implies reference_valid(
                #[trigger] out@[x].evidence@[j],
                id,
                full,
            ) by {
                if x < out_before.len() {
                    assert(out@[x] == out_before[x]);
                }
            }
        }
    }
    out
}

// ---------------------------------------------------------------------------
// The projection.

/// The position of a diagnostic code in the declared order of the codes.
pub open spec fn diagnostic_rank(code: DiagnosticCode) -> u8 {
    match code {
        DiagnosticCode::UnsupportedSyntax => 0u8,
        DiagnosticCode::UnresolvedBinding => 1u8,
        DiagnosticCode::UnresolvedCall => 2u8,
        DiagnosticCode::UnknownExternalEffect => 3u8,
        DiagnosticCode::UnknownHeapEffect => 4u8,
        DiagnosticCode::UnknownSchedule => 5u8,
        DiagnosticCode::UnprovenPathFeasibility => 6u8,
        DiagnosticCode::AmbiguousMatch => 7u8,
        DiagnosticCode::MissingDependency => 8u8,
        DiagnosticCode::ParseError => 9u8,
        DiagnosticCode::TypeResolutionUnavailable => 10u8,
        DiagnosticCode::AccessPathLimit => 11u8,
        DiagnosticCode::AnalysisBudgetExceeded => 12u8,
        DiagnosticCode::OutputTruncated => 13
    }
}

fn code_rank(code: DiagnosticCode) -> (res: u8)
    ensures
        res == diagnostic_rank(code),
{
    match code {
        DiagnosticCode::UnsupportedSyntax => 0,
        DiagnosticCode::UnresolvedBinding => 1,
        DiagnosticCode::UnresolvedCall => 2,
        DiagnosticCode::UnknownExternalEffect => 3,
        DiagnosticCode::UnknownHeapEffect => 4,
        DiagnosticCode::UnknownSchedule => 5,
        DiagnosticCode::UnprovenPathFeasibility => 6,
        DiagnosticCode::AmbiguousMatch => 7,
        DiagnosticCode::MissingDependency => 8,
        DiagnosticCode::ParseError => 9,
        DiagnosticCode::TypeResolutionUnavailable => 10,
        DiagnosticCode::AccessPathLimit => 11,
        DiagnosticCode::AnalysisBudgetExceeded => 12,
        DiagnosticCode::OutputTruncated => 13,
    }
}

/// The codes of the report's diagnostics, in order, without repeats.
fn diagnostic_codes(full: &VariableFlowReport) -> (res: Vec<DiagnosticCode>)
    ensures
        forall|c: DiagnosticCode| res@.contains(c) <==> exists|i: int|
            0 <= i < full.diagnostics@.len() && (#[trigger] full.diagnostics@[i]).code == c,
{
    let mut codes: Vec<DiagnosticCode> = Vec::new();
    let mut k: usize = 0;
    while k < full.diagnostics.len()
        invariant
            k <= full.diagnostics@.len(),
            forall|c: DiagnosticCode| codes@.contains(c) <==> exists|i: int|
                0 <= i < k && (#[trigger] full.diagnostics@[i]).code == c,
        decreases full.diagnostics.len() - k,
    {
        let code = full.diagnostics[k].code;
        let mut present = false;
        let mut j: usize = 0;
        while j < codes.len()
            invariant
                j <= codes@.len(),
                present <==> exists|i: int| 0 <= i < j && codes@[i] == code,
            decreases codes.len() - j,
        {
            if codes[j] == code {
                present = true;
            }
            j = j + 1;
        }
        let ghost before = codes@;
        if !present {
            let mut at: usize = 0;
            while at < codes.len() && code_rank(codes[at]) < code_rank(code)
                invariant
                    at <= codes@.len(),
                decreases codes.len() - at,
            {
                at = at + 1;
            }
            codes.insert(at, code);
            proof {
                assert forall|c: DiagnosticCode| codes@.contains(c) <==> (before.contains(c) || c == code) by {
                    if codes@.contains(c) {
                        let i = choose|i: int| 0 <= i < codes@.len() && codes@[i] == c;
                        if i < at {
                            assert(before[i] == c);
                        } else if i > at {
                            assert(before[i - 1] == c);
                        }
                    }
                    if before.contains(c) {
                        let i = choose|i: int| 0 <= i < before.len() && before[i] == c;
                        if i < at {
                            assert(codes@[i] == c);
                        } else {
                            assert(codes@[i + 1] == c);
                        }
                    }
                    if c == code {
                        assert(codes@[at as int] == c);
                    }
                }
            }
        } else {
            proof {
                let i = choose|i: int| 0 <= i < j && codes@[i] == code;
                assert(codes@[i] == code);
                assert(codes@.contains(code));
                assert forall|c: DiagnosticCode| codes@.contains(c) <==> (before.contains(c) || c == code) by {
                    if c == code {
                        assert(codes@.contains(code));
                    }
                }
            }
        }
        proof {
            assert forall|c: DiagnosticCode| codes@.contains(c) <==> exists|i: int|
                0 <= i < k + 1 && (#[trigger] full.diagnostics@[i]).code == c by {
                if c == code {
                    assert(full.diagnostics@[k as int].code == c);
                }
                if before.contains(c) {
                    let i = choose|i: int| 0 <= i < k && (#[trigger] full.diagnostics@[i]).code == c;
                    assert(full.diagnostics@[i].code == c);
                }
                if exists|i: int| 0 <= i < k + 1 && (#[trigger] full.diagnostics@[i]).code == c {
                    let i = choose|i: int| 0 <= i < k + 1 && (#[trigger] full.diagnostics@[i]).code == c;
                    if i < k {
                        assert(before.contains(c));
                    }
                }
            }
        }
        k = k + 1;
    }
    codes
}

/// Some delta says the comparison could not decide.
pub open spec fn has_unknown_delta(full: VariableFlowReport) -> bool {
    exists|i: int| 0 <= i < full.deltas@.len() && (#[trigger] full.deltas@[i]).delta is AnalysisUnknown
}

/// Some diagnostic reports an ambiguous match.
pub open spec fn has_ambiguity(full: VariableFlowReport) -> bool {
    exists|i: int| 0 <= i < full.diagnostics@.len() && (#[trigger] full.diagnostics@[i]).code
        == DiagnosticCode::AmbiguousMatch
}

fn unknown_delta(full: &VariableFlowReport) -> (res: bool)
    ensures
        res == has_unknown_delta(*full),
{
    let mut k: usize = 0;
    while k < full.deltas.len()
        invariant
            k <= full.deltas@.len(),
            forall|i: int| 0 <= i < k ==> !((#[trigger] full.deltas@[i]).delta is AnalysisUnknown),
        decreases full.deltas.len() - k,
    {
        if let FlowDelta::AnalysisUnknown { .. } = &full.deltas[k].delta {
            return true;
        }
        k = k + 1;
    }
    false
}

fn boundaries(a: &Vec<String>, b: &Vec<String>) -> Vec<String> {
    let mut out: Vec<String> = Vec::new();
    let mut k: usize = 0;
    while k < a.len()
        invariant
            k <= a@.len(),
        decreases a.len() - k,
    {
        insert_text(&mut out, &a[k]);
        k = k + 1;
    }
    let mut k: usize = 0;
    while k < b.len()
        invariant
            k <= b@.len(),
        decreases b.len() - k,
    {
        insert_text(&mut out, &b[k]);
        k = k + 1;
    }
    out
}

fn side<'a>(full: &'a VariableFlowReport, ir: &'a ProcedureIr, before: bool) -> (res: Side<'a>)
    ensures
        side_of(res, *full),
{
    Side {
        graph: if before {
            &full.before_graph
        } else {
            &full.after_graph
        },
        ir,
        ids: side_ids(&full.alignment, before),
        paths: BranchPaths::build(ir, seed_entry_facts(ir), 4096),
        nodes_section: if before {
            "before_graph.nodes"
        } else {
            "after_graph.nodes"
        },
        edges_section: if before {
            "before_graph.edges"
        } else {
            "after_graph.edges"
        },
    }
}

/// Projects one full report onto its sources, controls, observations and
/// findings. The procedures supply typed branch outcomes and control-flow
/// order; the condition texts of the full graph are never parsed.
pub fn project_variable_sources(
    full: &VariableFlowReport,
    before_ir: &ProcedureIr,
    after_ir: &ProcedureIr,
) -> (res: VariableSourceReport)
    ensures
        validates_against(res, *full),
        res.full_report_id@ == report_id_spec(*full),
        res.evidence_file@ == "ifds-evidence-"@ + report_id_spec(*full) + ".json"@,
        res.analysis_version@ == full.analysis_version@,
        res.declared_scope@ == full.flow_extent.after.declared_scope@,
        res.analysis_coverage == full.completeness,
        res.comparison_complete == (full.completeness == Completeness::CompleteForQuery && !has_ambiguity(
            *full,
        ) && !has_unknown_delta(*full)),
        res.presentation_complete,
        res.omitted_groups == 0,
        forall|c: DiagnosticCode| res.diagnostics@.contains(c) <==> exists|i: int|
            0 <= i < full.diagnostics@.len() && (#[trigger] full.diagnostics@[i]).code == c,
        forall|j: int| 0 <= j < res.observations@.len() ==> grouped(res.observation_groups@, #[trigger] res.observations@[j]),
{
    proof {
        reveal_strlit("ifds-evidence-");
        reveal_strlit(".json");
    }
    let identity = report_id(full);
    let evidence_file = String::from_str("ifds-evidence-").concat(identity.as_str()).concat(".json");
    let before = side(full, before_ir, true);
    let after = side(full, after_ir, false);
    let (sources, controls) = definitions(&full.alignment, &before, &after, &identity);
    let observed = observations(full, &before, &after, &identity);
    let groups = observation_groups(&observed);
    let by_node = both_ids(&full.alignment);
    let mut entries: Vec<FindingEntry> = Vec::new();
    let mut impacts: Vec<Impact> = Vec::new();
    proof {
        lemma_side_refs(before, *full, identity@);
        lemma_side_refs(after, *full, identity@);
        assert forall|i: int| 0 <= i < observed@.len() implies state_ok(
            (#[trigger] observed@[i]).before_state,
            identity@,
            *full,
        ) && state_ok(observed@[i].after_state, identity@, *full) by {
            assert(state_at(observed@[i].before_state, identity@, before));
            assert(state_at(observed@[i].after_state, identity@, after));
        }
    }
    direct_findings(full, before_ir, after_ir, &by_node, &identity, &mut entries, &mut impacts);
    attach_related(full, &by_node, &identity, &mut entries, &impacts);
    selection_findings(&observed, &mut entries, Ghost(identity@), Ghost(*full));
    let findings = finish_findings(entries, &impacts, Ghost(identity@), Ghost(*full));
    let diagnostics = diagnostic_codes(full);
    let comparison_complete = comparison_is_complete(full);
    let snapshots = full.snapshots.clone();
    proof {
        assert forall|i: int| 0 <= i < snapshots@.len() implies (#[trigger] snapshots@[i])@ == full.snapshots@[i]@ by {
            assert(cloned(full.snapshots@[i], snapshots@[i]));
        }
    }
    let res = VariableSourceReport {
        schema_version: COMPACT_SCHEMA_VERSION,
        analysis_version: full.analysis_version.clone(),
        full_report_id: identity,
        evidence_file,
        snapshots,
        selected_binding: full.query.request.selected_binding.clone(),
        entry_assumptions: full.entry_assumptions.clone(),
        declared_scope: full.flow_extent.after.declared_scope.clone(),
        sources,
        controls,
        observations: observed,
        observation_groups: groups,
        findings,
        analysis_coverage: full.completeness,
        comparison_complete,
        presentation_complete: true,
        omitted_groups: 0,
        diagnostics,
        source_boundaries: boundaries(
            &full.flow_extent.before.source_boundaries,
            &full.flow_extent.after.source_boundaries,
        ),
        sink_boundaries: boundaries(
            &full.flow_extent.before.sink_boundaries,
            &full.flow_extent.after.sink_boundaries,
        ),
    };
    proof {
        lemma_side_refs(before, *full, identity@);
        lemma_side_refs(after, *full, identity@);
        let id = res.full_report_id@;
        assert forall|i: int| 0 <= i < res.sources@.len() implies site_ok((#[trigger] res.sources@[i]).before, id, *full)
            && site_ok(res.sources@[i].after, id, *full) by {
            assert(site_at(res.sources@[i].before, id, before));
            assert(site_at(res.sources@[i].after, id, after));
        }
        assert forall|i: int| 0 <= i < res.controls@.len() implies site_ok((#[trigger] res.controls@[i]).before, id, *full)
            && site_ok(res.controls@[i].after, id, *full) by {
            assert(site_at(res.controls@[i].before, id, before));
            assert(site_at(res.controls@[i].after, id, after));
        }
        assert forall|i: int| 0 <= i < res.observations@.len() implies site_ok(
            (#[trigger] res.observations@[i]).before,
            id,
            *full,
        ) && site_ok(res.observations@[i].after, id, *full) && state_ok(res.observations@[i].before_state, id, *full)
            && state_ok(res.observations@[i].after_state, id, *full) by {
            assert(site_at(res.observations@[i].before, id, before));
            assert(site_at(res.observations@[i].after, id, after));
            assert(state_at(res.observations@[i].before_state, id, before));
            assert(state_at(res.observations@[i].after_state, id, after));
        }
        assert(references_ok(res, *full));
    }
    res
}

/// Whether the source comparison of a report is complete: the analysis is
/// complete for the query, no match is ambiguous, and no delta stayed
/// undecided.
pub fn comparison_is_complete(full: &VariableFlowReport) -> (res: bool)
    ensures
        res == (full.completeness == Completeness::CompleteForQuery && !has_ambiguity(*full)
            && !has_unknown_delta(*full)),
{
    if full.completeness != Completeness::CompleteForQuery {
        return false;
    }
    let mut k: usize = 0;
    while k < full.diagnostics.len()
        invariant
            k <= full.diagnostics@.len(),
            forall|i: int| 0 <= i < k ==> (#[trigger] full.diagnostics@[i]).code != DiagnosticCode::AmbiguousMatch,
        decreases full.diagnostics.len() - k,
    {
        if full.diagnostics[k].code == DiagnosticCode::AmbiguousMatch {
            return false;
        }
        k = k + 1;
    }
    !unknown_delta(full)
}

// ---------------------------------------------------------------------------
// Text.

/// The source with this identifier: the last one.
fn source_with(sources: &Vec<SourceDefinition>, id: LogicalNodeId) -> (res: Option<usize>)
    ensures
        res matches Some(k) ==> k < sources@.len(),
{
    let mut k: usize = sources.len();
    while k > 0
        invariant
            k <= sources@.len(),
        decreases k,
    {
        k = k - 1;
        if sources[k].id == id {
            return Some(k);
        }
    }
    None
}

fn control_with(controls: &Vec<ControlDefinition>, id: LogicalNodeId) -> (res: Option<usize>)
    ensures
        res matches Some(k) ==> k < controls@.len(),
{
    let mut k: usize = controls.len();
    while k > 0
        invariant
            k <= controls@.len(),
        decreases k,
    {
        k = k - 1;
        if controls[k].id == id {
            return Some(k);
        }
    }
    None
}

fn side_site(before: bool, b: &Option<SourceSite>, a: &Option<SourceSite>) -> Option<SourceSite> {
    if before {
        b.clone()
    } else {
        a.clone()
    }
}

/// The label of a source on one side: its operation, or `source N`.
fn site_label(id: LogicalNodeId, before: bool, sources: &Vec<SourceDefinition>) -> String {
    if let Some(k) = source_with(sources, id) {
        if let Some(site) = side_site(before, &sources[k].before, &sources[k].after) {
            return site.operation;
        }
    }
    String::from_str("source ").concat(id.0.to_string().as_str())
}

/// The parts joined by the separator.
pub open spec fn joined_with(parts: Seq<Seq<char>>, separator: Seq<char>) -> Seq<char>
    decreases parts.len(),
{
    if parts.len() == 0 {
        Seq::empty()
    } else if parts.len() == 1 {
        parts[0]
    } else {
        joined_with(parts.drop_last(), separator) + separator + parts.last()
    }
}

fn join(parts: &Vec<String>, separator: &str) -> (res: String)
    ensures
        res@ == joined_with(parts@.map_values(|p: String| p@), separator@),
{
    let ghost views = parts@.map_values(|p: String| p@);
    let mut out = String::new();
    let mut k: usize = 0;
    while k < parts.len()
        invariant
            k <= parts@.len(),
            views == parts@.map_values(|p: String| p@),
            out@ == joined_with(views.take(k as int), separator@),
        decreases parts.len() - k,
    {
        proof {
            assert(views.take(k + 1).drop_last() =~= views.take(k as int));
            assert(views.take(k + 1).last() == parts@[k as int]@);
            if k == 0 {
                assert(views.take(1)[0] == parts@[0]@);
            }
        }
        if k > 0 {
            out = out.concat(separator);
        }
        out = out.concat(parts[k].as_str());
        k = k + 1;
    }
    proof {
        assert(views.take(k as int) =~= views);
    }
    out
}

fn ends_with_char(text: &str, c: char) -> bool {
    let n = text.unicode_len();
    n > 0 && text.get_char(n - 1) == c
}

/// The text between a prefix and a suffix, when it has both.
fn strip_around(text: &str, prefix: &str, suffix: char) -> Option<String> {
    let n = text.unicode_len();
    let p = prefix.unicode_len();
    if n <= p || !starts_with_text(text, prefix) || !ends_with_char(text, suffix) {
        return None;
    }
    Some(String::from_str(text.substring_char(p, n - 1)))
}

/// A character of a plain name.
pub open spec fn plain_char(c: char) -> bool {
    ('a' <= c && c <= 'z') || ('A' <= c && c <= 'Z') || ('0' <= c && c <= '9') || c == '_' || c == '$'
}

fn plain_name(text: &str) -> (res: bool)
    ensures
        res == forall|i: int| 0 <= i < text@.len() ==> plain_char(#[trigger] text@[i]),
{
    let n = text.unicode_len();
    let mut k: usize = 0;
    while k < n
        invariant
            k <= n,
            n == text@.len(),
            forall|i: int| 0 <= i < k ==> plain_char(#[trigger] text@[i]),
        decreases n - k,
    {
        let c = text.get_char(k);
        if !(('a' <= c && c <= 'z') || ('A' <= c && c <= 'Z') || ('0' <= c && c <= '9') || c == '_' || c == '$') {
            return false;
        }
        k = k + 1;
    }
    true
}

/// One branch outcome as text: the branch's expression, negated with `!`
/// when the outcome is false.
fn render_term(term: GuardTerm, controls: &Vec<ControlDefinition>, before: bool) -> String {
    let label = match control_with(controls, term.control) {
        Some(k) => match side_site(before, &controls[k].before, &controls[k].after) {
            Some(site) => site.operation,
            None => String::from_str("unresolved guard"),
        },
        None => String::from_str("unresolved guard"),
    };
    let expression = match strip_around(label.as_str(), "branch `", '`') {
        Some(inner) => inner,
        None => label,
    };
    let expression = match strip_around(expression.as_str(), "(", ')') {
        Some(inner) => inner,
        None => expression,
    };
    if term.outcome {
        expression
    } else if plain_name(expression.as_str()) {
        String::from_str("!").concat(expression.as_str())
    } else {
        String::from_str("!(").concat(expression.as_str()).concat(")")
    }
}

/// A disjunction of conjunctions as text.
fn render_clauses(clauses: &Vec<GuardClause>, controls: &Vec<ControlDefinition>, before: bool) -> String {
    let mut parts: Vec<String> = Vec::new();
    let mut c: usize = 0;
    while c < clauses.len()
        invariant
            c <= clauses@.len(),
        decreases clauses.len() - c,
    {
        let terms = &clauses[c].terms;
        if terms.len() == 0 {
            parts.push(String::from_str("always"));
        } else {
            let mut texts: Vec<String> = Vec::new();
            let mut t: usize = 0;
            while t < terms.len()
                invariant
                    t <= terms@.len(),
                decreases terms.len() - t,
            {
                texts.push(render_term(terms[t], controls, before));
                t = t + 1;
            }
            parts.push(join(&texts, " && "));
        }
        c = c + 1;
    }
    join(&parts, " || ")
}

fn side_guard(before: bool, source: &SourceDefinition) -> Option<Vec<GuardClause>> {
    if before {
        source.before_assignment_guard.clone()
    } else {
        source.after_assignment_guard.clone()
    }
}

/// The sources of a state as text, each with its assignment guard.
fn render_sources(
    state: &ObservationState,
    before: bool,
    sources: &Vec<SourceDefinition>,
    controls: &Vec<ControlDefinition>,
) -> (res: String)
    ensures
        !state.exhaustive ==> exists|head: Seq<char>| res@ == head + "other sources unresolved"@,
        !state.exhaustive && state.sources@.len() == 0 ==> res@ == "other sources unresolved"@,
        state.exhaustive && state.sources@.len() == 0 ==> res@ == "no reaching source established"@,
        state.sources@.len() > 0 || !state.exhaustive ==> exists|parts: Seq<Seq<char>>|
            parts.len() == state.sources@.len() + (if state.exhaustive { 0int } else { 1int }) && res@ == joined_with(
                parts,
                "; "@,
            ) && (!state.exhaustive ==> parts.last() == "other sources unresolved"@),
        sources_text_fits(*state, res@),
{
    let mut labels: Vec<String> = Vec::new();
    let mut k: usize = 0;
    while k < state.sources.len()
        invariant
            k <= state.sources@.len(),
            labels@.len() == k,
        decreases state.sources.len() - k,
    {
        let id = state.sources[k];
        let label = site_label(id, before, sources);
        let guard = match source_with(sources, id) {
            Some(i) => side_guard(before, &sources[i]),
            None => None,
        };
        let text = match guard {
            Some(g) => if is_unconditional(&g) {
                if state.sources.len() > 1 {
                    label.concat(" as fallback")
                } else {
                    label
                }
            } else {
                label.concat(" under ").concat(render_clauses(&g, controls, before).as_str())
            },
            None => label,
        };
        labels.push(text);
        k = k + 1;
    }
    if !state.exhaustive {
        labels.push(String::from_str("other sources unresolved"));
    }
    if labels.len() == 0 {
        String::from_str("no reaching source established")
    } else {
        let text = join(&labels, "; ");
        proof {
            let views = labels@.map_values(|p: String| p@);
            assert(views.len() == state.sources@.len() + (if state.exhaustive { 0int } else { 1int }));
            if !state.exhaustive {
                assert(views.last() == "other sources unresolved"@);
                if views.len() == 1 {
                    assert(text@ == Seq::<char>::empty() + "other sources unresolved"@);
                } else {
                    assert(text@ == (joined_with(views.drop_last(), "; "@) + "; "@) + "other sources unresolved"@);
                }
            }
        }
        text
    }
}

/// A finding that concerns an observation: made at it, or its addition or
/// removal.
pub open spec fn finding_concerns(finding: Finding, id: LogicalNodeId) -> bool {
    finding.observation == Some(id) || (finding.subject == id && (finding.kind == FindingKind::ObservationAdded
        || finding.kind == FindingKind::ObservationRemoved))
}

/// An observation whose finding covers a write: some finding is made at it
/// and the write is among its sources on either side.
pub open spec fn covers(report: VariableSourceReport, o: Observation, subject: LogicalNodeId) -> bool {
    &&& exists|x: int| 0 <= x < report.findings@.len() && (#[trigger] report.findings@[x]).observation == Some(o.id)
    &&& ((o.before_state matches Some(st) && st.sources@.contains(subject)) || (o.after_state matches Some(st)
        && st.sources@.contains(subject)))
}

/// `longer` begins with every line of `shorter`.
pub open spec fn extends(longer: Seq<String>, shorter: Seq<String>) -> bool {
    shorter.len() <= longer.len() && longer.subrange(0, shorter.len() as int) == shorter
}

proof fn lemma_extends_self(a: Seq<String>)
    ensures
        extends(a, a),
{
    assert(a.subrange(0, a.len() as int) =~= a);
}

proof fn lemma_extends_trans(c: Seq<String>, b: Seq<String>, a: Seq<String>)
    requires
        extends(c, b),
        extends(b, a),
    ensures
        extends(c, a),
{
    assert forall|i: int| 0 <= i < a.len() implies c.subrange(0, a.len() as int)[i] == a[i] by {
        assert(c.subrange(0, b.len() as int)[i] == b[i]);
        assert(b.subrange(0, a.len() as int)[i] == a[i]);
    }
    assert(c.subrange(0, a.len() as int) =~= a);
}

proof fn lemma_extends_push(a: Seq<String>, b: Seq<String>, c: Seq<String>, x: String)
    requires
        extends(b, a),
        c == b.push(x),
    ensures
        extends(c, a),
        extends(c, b),
{
    assert(c.subrange(0, b.len() as int) =~= b);
    lemma_extends_trans(c, b, a);
}

proof fn lemma_views_extend(a: Seq<String>, b: Seq<String>)
    requires
        extends(a, b),
    ensures
        a.map_values(|p: String| p@).subrange(0, b.len() as int) == b.map_values(|p: String| p@),
        a.map_values(|p: String| p@).len() == a.len(),
{
    let va = a.map_values(|p: String| p@);
    let vb = b.map_values(|p: String| p@);
    assert forall|i: int| 0 <= i < b.len() implies va.subrange(0, b.len() as int)[i] == vb[i] by {
        assert(a.subrange(0, b.len() as int)[i] == b[i]);
    }
    assert(va.subrange(0, b.len() as int) =~= vb);
}

proof fn lemma_group_shown_from_start(
    report: VariableSourceReport,
    group: ObservationGroup,
    lines: Seq<Seq<char>>,
    from: int,
)
    requires
        group_shown_in(report, group, lines, from),
        0 <= from,
    ensures
        group_shown_in(report, group, lines, 0),
{
    assert forall|k: int| #![trigger shown_observation(report, group, k)]
        shown_observation(report, group, k) && group_concerned(report, group) && (report.observations@[k].after
            is Some || report.observations@[k].before is Some) implies (report.observations@[k].before_state matches Some(
            st,
        ) ==> exists|i: int| 0 <= i && 0 <= i < lines.len() && state_line("Before: "@, st, #[trigger] lines[i]))
            && (report.observations@[k].after_state matches Some(st) ==> exists|i: int|
            0 <= i && 0 <= i < lines.len() && state_line("After: "@, st, #[trigger] lines[i])) by {
        if let Some(st) = report.observations@[k].before_state {
            assert(exists|i: int| 0 <= i && from <= i < lines.len() && state_line("Before: "@, st, #[trigger] lines[i]));
        }
        if let Some(st) = report.observations@[k].after_state {
            assert(exists|i: int| 0 <= i && from <= i < lines.len() && state_line("After: "@, st, #[trigger] lines[i]));
        }
    }
}

/// What a state's rendered source list says of it: a list that is not
/// exhaustive ends by saying so, an exhaustive empty list says that no source
/// was established, and otherwise the list has one part for each source.
pub open spec fn sources_text_fits(state: ObservationState, text: Seq<char>) -> bool {
    &&& !state.exhaustive ==> exists|head: Seq<char>| text == head + "other sources unresolved"@
    &&& state.exhaustive && state.sources@.len() == 0 ==> text == "no reaching source established"@
    &&& state.sources@.len() > 0 || !state.exhaustive ==> exists|parts: Seq<Seq<char>>|
        parts.len() == state.sources@.len() + (if state.exhaustive { 0int } else { 1int }) && text == joined_with(
            parts,
            "; "@,
        ) && (!state.exhaustive ==> parts.last() == "other sources unresolved"@)
}

/// A line that renders a state's sources after a label such as `Before: `.
pub open spec fn state_line(label: Seq<char>, state: ObservationState, line: Seq<char>) -> bool {
    exists|sources: Seq<char>| line == label + sources + "."@ && sources_text_fits(state, sources)
}

/// An observation stands for a member of a group.
pub open spec fn observation_matches(o: Observation, member: ObservationRef) -> bool {
    o.id == member.id && o.projection@ == member.projection@
}

pub open spec fn member_observed(observations: Seq<Observation>, member: ObservationRef) -> bool {
    exists|j: int| 0 <= j < observations.len() && observation_matches(#[trigger] observations[j], member)
}

/// The observation a group is shown by: the first observation of its first
/// member that has one.
pub open spec fn shown_observation(report: VariableSourceReport, group: ObservationGroup, k: int) -> bool {
    exists|m: int|
        0 <= m < group.members@.len() && (forall|m2: int|
            0 <= m2 < m ==> !member_observed(report.observations@, #[trigger] group.members@[m2])) && 0 <= k
            < report.observations@.len() && observation_matches(report.observations@[k], group.members@[m])
            && forall|j: int| 0 <= j < k ==> !observation_matches(#[trigger] report.observations@[j], group.members@[m])
}

/// Some finding concerns a member of the group.
pub open spec fn group_concerned(report: VariableSourceReport, group: ObservationGroup) -> bool {
    exists|f: int, m: int|
        0 <= f < report.findings@.len() && 0 <= m < group.members@.len() && finding_concerns(
            #[trigger] report.findings@[f],
            #[trigger] group.members@[m].id,
        )
}

/// The lines from `from` on render the sources of the observation a
/// concerned group is shown by, on each side where it has a state.
pub open spec fn group_shown_in(
    report: VariableSourceReport,
    group: ObservationGroup,
    lines: Seq<Seq<char>>,
    from: int,
) -> bool {
    forall|k: int|
        #![trigger shown_observation(report, group, k)]
        shown_observation(report, group, k) && group_concerned(report, group) && (report.observations@[k].after
            is Some || report.observations@[k].before is Some) ==> (report.observations@[k].before_state matches Some(
            st,
        ) ==> exists|i: int| 0 <= i && from <= i < lines.len() && state_line("Before: "@, st, #[trigger] lines[i]))
            && (report.observations@[k].after_state matches Some(st) ==> exists|i: int|
            0 <= i && from <= i < lines.len() && state_line("After: "@, st, #[trigger] lines[i]))
}

proof fn lemma_shown_unique(report: VariableSourceReport, group: ObservationGroup, k1: int, k2: int)
    requires
        shown_observation(report, group, k1),
        shown_observation(report, group, k2),
    ensures
        k1 == k2,
{
    let obs = report.observations@;
    let m1 = choose|m: int|
        0 <= m < group.members@.len() && (forall|m2: int|
            0 <= m2 < m ==> !member_observed(obs, #[trigger] group.members@[m2])) && 0 <= k1 < obs.len()
            && observation_matches(obs[k1], group.members@[m]) && forall|j: int|
            0 <= j < k1 ==> !observation_matches(#[trigger] obs[j], group.members@[m]);
    let m2 = choose|m: int|
        0 <= m < group.members@.len() && (forall|m3: int|
            0 <= m3 < m ==> !member_observed(obs, #[trigger] group.members@[m3])) && 0 <= k2 < obs.len()
            && observation_matches(obs[k2], group.members@[m]) && forall|j: int|
            0 <= j < k2 ==> !observation_matches(#[trigger] obs[j], group.members@[m]);
    if m1 < m2 {
        assert(member_observed(obs, group.members@[m1]));
    } else if m2 < m1 {
        assert(member_observed(obs, group.members@[m2]));
    }
    if k1 < k2 {
        assert(observation_matches(obs[k1], group.members@[m2]));
    } else if k2 < k1 {
        assert(observation_matches(obs[k2], group.members@[m1]));
    }
}

proof fn lemma_group_shown_grows(
    report: VariableSourceReport,
    group: ObservationGroup,
    lines: Seq<Seq<char>>,
    longer: Seq<Seq<char>>,
    from: int,
)
    requires
        group_shown_in(report, group, lines, from),
        lines.len() <= longer.len(),
        longer.subrange(0, lines.len() as int) == lines,
    ensures
        group_shown_in(report, group, longer, from),
{
    assert forall|k: int| #![trigger shown_observation(report, group, k)]
        shown_observation(report, group, k) && group_concerned(report, group) && (report.observations@[k].after
            is Some || report.observations@[k].before is Some) implies (report.observations@[k].before_state matches Some(
            st,
        ) ==> exists|i: int| 0 <= i && from <= i < longer.len() && state_line("Before: "@, st, #[trigger] longer[i]))
            && (report.observations@[k].after_state matches Some(st) ==> exists|i: int|
            0 <= i && from <= i < longer.len() && state_line("After: "@, st, #[trigger] longer[i])) by {
        if let Some(st) = report.observations@[k].before_state {
            assert(exists|i: int| 0 <= i && from <= i < lines.len() && state_line("Before: "@, st, #[trigger] lines[i]));
            let i = choose|i: int| 0 <= i && from <= i < lines.len() && state_line("Before: "@, st, #[trigger] lines[i]);
            assert(longer.subrange(0, lines.len() as int)[i] == longer[i]);
            assert(state_line("Before: "@, st, longer[i]));
        }
        if let Some(st) = report.observations@[k].after_state {
            assert(exists|i: int| 0 <= i && from <= i < lines.len() && state_line("After: "@, st, #[trigger] lines[i]));
            let i = choose|i: int| 0 <= i && from <= i < lines.len() && state_line("After: "@, st, #[trigger] lines[i]);
            assert(longer.subrange(0, lines.len() as int)[i] == longer[i]);
            assert(state_line("After: "@, st, longer[i]));
        }
    }
}

/// The end of the rendered text: whether the source comparison is complete,
/// the evidence file and the full report's identity.
pub open spec fn scope_tail(report: VariableSourceReport) -> Seq<char> {
    "; source comparison "@ + (if report.comparison_complete {
        "complete"@
    } else {
        "unresolved"@
    }) + ". Full evidence: "@ + report.evidence_file@ + " ("@ + report.full_report_id@ + ")."@
}

impl VariableSourceReport {
    /// The observation a member names: the first with its identifier and
    /// projection.
    fn member_observation(&self, member: &ObservationRef) -> (res: Option<usize>)
        ensures
            match res {
                Some(k) => k < self.observations@.len() && self.observations@[k as int].id == member.id
                    && self.observations@[k as int].projection@ == member.projection@ && forall|j: int|
                    0 <= j < k ==> !((#[trigger] self.observations@[j]).id == member.id
                        && self.observations@[j].projection@ == member.projection@),
                None => forall|j: int|
                    0 <= j < self.observations@.len() ==> !((#[trigger] self.observations@[j]).id == member.id
                        && self.observations@[j].projection@ == member.projection@),
            },
    {
        let mut k: usize = 0;
        while k < self.observations.len()
            invariant
                k <= self.observations@.len(),
                forall|j: int|
                    0 <= j < k ==> !((#[trigger] self.observations@[j]).id == member.id
                        && self.observations@[j].projection@ == member.projection@),
            decreases self.observations.len() - k,
        {
            let o = &self.observations[k];
            if o.id == member.id && str_equal(o.projection.as_str(), member.projection.as_str()) {
                return Some(k);
            }
            k = k + 1;
        }
        None
    }

    /// Some finding concerns a member of the group.
    fn group_affected(&self, group: &ObservationGroup) -> (res: bool)
        ensures
            res == exists|f: int, m: int|
                0 <= f < self.findings@.len() && 0 <= m < group.members@.len() && finding_concerns(
                    #[trigger] self.findings@[f],
                    #[trigger] group.members@[m].id,
                ),
    {
        let mut f: usize = 0;
        while f < self.findings.len()
            invariant
                f <= self.findings@.len(),
                forall|x: int, m: int|
                    0 <= x < f && 0 <= m < group.members@.len() ==> !finding_concerns(
                        #[trigger] self.findings@[x],
                        #[trigger] group.members@[m].id,
                    ),
            decreases self.findings.len() - f,
        {
            let finding = &self.findings[f];
            let mut m: usize = 0;
            while m < group.members.len()
                invariant
                    m <= group.members@.len(),
                    f < self.findings@.len(),
                    finding == &self.findings@[f as int],
                    forall|x: int, j: int|
                        0 <= x < f && 0 <= j < group.members@.len() ==> !finding_concerns(
                            #[trigger] self.findings@[x],
                            #[trigger] group.members@[j].id,
                        ),
                    forall|j: int| 0 <= j < m ==> !finding_concerns(self.findings@[f as int], #[trigger] group.members@[j].id),
                decreases group.members.len() - m,
            {
                let id = group.members[m].id;
                if finding.observation == Some(id) {
                    return true;
                }
                if finding.subject == id && (finding.kind == FindingKind::ObservationAdded || finding.kind
                    == FindingKind::ObservationRemoved) {
                    return true;
                }
                m = m + 1;
            }
            f = f + 1;
        }
        false
    }

    fn location(o: &Observation) -> (res: Option<SourceSite>)
        ensures
            res is Some <==> (o.after is Some || o.before is Some),
    {
        match &o.after {
            Some(s) => Some(s.clone()),
            None => o.before.clone(),
        }
    }

    /// The lines about one selection of the after side.
    fn selection_lines(&self, state: &ObservationState, lines: &mut Vec<String>)
        ensures
            final(lines)@.len() >= old(lines)@.len(),
            final(lines)@.subrange(0, old(lines)@.len() as int) == old(lines)@,
    {
        let mut k: usize = 0;
        while k < state.selections.len()
            invariant
                k <= state.selections@.len(),
                lines@.len() >= old(lines)@.len(),
                lines@.subrange(0, old(lines)@.len() as int) == old(lines)@,
            decreases state.selections.len() - k,
        {
            let selection = &state.selections[k];
            let skip_precedence = state.precedence.len() > 0 && selection.clauses.is_some();
            let own_guard = match source_with(&self.sources, selection.source) {
                Some(i) => self.sources[i].after_assignment_guard.clone(),
                None => None,
            };
            if !skip_precedence && !option_clauses_same(&selection.clauses, &own_guard) {
                let label = site_label(selection.source, false, &self.sources);
                match &selection.clauses {
                    Some(clauses) => {
                        if !is_unconditional(clauses) {
                            lines.push(
                                String::from_str("Selection for ").concat(label.as_str()).concat(": ").concat(
                                    render_clauses(clauses, &self.controls, false).as_str(),
                                ).concat("."),
                            );
                        }
                    },
                    None => {
                        lines.push(
                            String::from_str("Selection for ").concat(label.as_str()).concat(
                                ": compact rule unresolved; see full evidence.",
                            ),
                        );
                    },
                }
            }
            k = k + 1;
        }
        let mut k: usize = 0;
        while k < state.precedence.len()
            invariant
                k <= state.precedence@.len(),
                lines@.len() >= old(lines)@.len(),
                lines@.subrange(0, old(lines)@.len() as int) == old(lines)@,
            decreases state.precedence.len() - k,
        {
            let rule = state.precedence[k];
            lines.push(
                String::from_str("Precedence: ").concat(site_label(rule.later, false, &self.sources).as_str()).concat(
                    " overrides ",
                ).concat(site_label(rule.earlier, false, &self.sources).as_str()).concat(" when both writes apply."),
            );
            k = k + 1;
        }
        if let Some(use_guard) = &state.use_guard {
            if !is_unconditional(use_guard) {
                lines.push(
                    String::from_str("Use guard: ").concat(render_clauses(use_guard, &self.controls, false).as_str()).concat(
                        ".",
                    ),
                );
            }
        }
    }

    /// The lines about one group of observations.
    fn group_lines(&self, group: &ObservationGroup, name: &str, lines: &mut Vec<String>)
        ensures
            extends(final(lines)@, old(lines)@),
            group_shown_in(*self, *group, final(lines)@.map_values(|p: String| p@), old(lines)@.len() as int),
    {
        let ghost start = lines@;
        let ghost obs = self.observations@;
        let mut first: Option<usize> = None;
        let mut m: usize = 0;
        while m < group.members.len() && first.is_none()
            invariant
                m <= group.members@.len(),
                obs == self.observations@,
                first matches Some(k) ==> k < self.observations@.len() && shown_observation(*self, *group, k as int),
                first is None ==> forall|m2: int|
                    0 <= m2 < m ==> !member_observed(obs, #[trigger] group.members@[m2]),
            decreases group.members.len() - m,
        {
            first = self.member_observation(&group.members[m]);
            proof {
                if let Some(k) = first {
                    assert(observation_matches(obs[k as int], group.members@[m as int]));
                    assert(forall|j: int|
                        0 <= j < k ==> !observation_matches(#[trigger] obs[j], group.members@[m as int]));
                    assert(shown_observation(*self, *group, k as int));
                } else {
                    assert(!member_observed(obs, group.members@[m as int]));
                }
            }
            m = m + 1;
        }
        let o = match first {
            Some(k) => &self.observations[k],
            None => {
                proof {
                    assert forall|k: int| !shown_observation(*self, *group, k) by {
                        if shown_observation(*self, *group, k) {
                            let mm = choose|mm: int|
                                0 <= mm < group.members@.len() && (forall|m2: int|
                                    0 <= m2 < mm ==> !member_observed(obs, #[trigger] group.members@[m2])) && 0 <= k
                                    < obs.len() && observation_matches(obs[k], group.members@[mm]) && forall|j: int|
                                    0 <= j < k ==> !observation_matches(#[trigger] obs[j], group.members@[mm]);
                            assert(member_observed(obs, group.members@[mm]));
                        }
                    }
                    lemma_extends_self(start);
                }
                return;
            },
        };
        let ghost k0 = first->0 as int;
        proof {
            assert(shown_observation(*self, *group, k0));
            assert forall|k: int| shown_observation(*self, *group, k) implies k == k0 by {
                lemma_shown_unique(*self, *group, k, k0);
            }
        }
        if !self.group_affected(group) {
            proof {
                lemma_extends_self(start);
            }
            return;
        }
        let location = match Self::location(o) {
            Some(l) => l,
            None => {
                proof {
                    lemma_extends_self(start);
                }
                return;
            },
        };
        let heading = String::from_str(name).concat(" at ").concat(location.operation.as_str()).concat(" (").concat(
            location.span.path.as_str(),
        ).concat(":").concat(location.span.start_line.to_string().as_str()).concat(", input ").concat(
            o.projection.as_str(),
        ).concat(")");
        proof {
            lemma_extends_self(start);
        }
        lines.push(heading);
        proof {
            lemma_extends_push(start, start, lines@, heading);
        }
        if group.members.len() > 1 {
            let mut others: Vec<String> = Vec::new();
            let mut m: usize = 1;
            while m < group.members.len()
                invariant
                    1 <= m <= group.members@.len(),
                decreases group.members.len() - m,
            {
                if let Some(k) = self.member_observation(&group.members[m]) {
                    if let Some(site) = Self::location(&self.observations[k]) {
                        others.push(
                            site.span.path.concat(":").concat(site.span.start_line.to_string().as_str()).concat(
                                " (",
                            ).concat(site.operation.as_str()).concat(")"),
                        );
                    }
                }
                m = m + 1;
            }
            if others.len() > 0 {
                let also = String::from_str("Also at: ").concat(join(&others, "; ").as_str()).concat(".");
                let ghost prev = lines@;
                lines.push(also);
                proof {
                    lemma_extends_push(start, prev, lines@, also);
                }
            }
        }
        proof {
            assert(extends(lines@, start));
        }
        let ghost before_at: int = -1;
        if let Some(state) = &o.before_state {
            let rendered = render_sources(state, true, &self.sources, &self.controls);
            let line = String::from_str("Before: ").concat(rendered.as_str()).concat(".");
            proof {
                assert(line@ =~= "Before: "@ + rendered@ + "."@);
                assert(state_line("Before: "@, *state, line@));
                before_at = lines@.len() as int;
            }
            let ghost prev = lines@;
            let ghost pushed = line;
            lines.push(line);
            proof {
                lemma_extends_push(start, prev, lines@, pushed);
                assert(lines@[before_at] == pushed);
                assert(state_line("Before: "@, *state, lines@[before_at]@));
            }
        }
        let ghost mid = lines@;
        proof {
            assert(o.before_state matches Some(st) ==> 0 <= before_at && start.len() <= before_at < mid.len()
                && state_line("Before: "@, st, mid[before_at]@));
        }
        let ghost after_at: int = -1;
        if let Some(state) = &o.after_state {
            let rendered = render_sources(state, false, &self.sources, &self.controls);
            let line = String::from_str("After: ").concat(rendered.as_str()).concat(".");
            proof {
                assert(line@ =~= "After: "@ + rendered@ + "."@);
                assert(state_line("After: "@, *state, line@));
                after_at = lines@.len() as int;
            }
            let ghost prev = lines@;
            let ghost pushed = line;
            proof {
                lemma_extends_self(mid);
            }
            lines.push(line);
            proof {
                lemma_extends_push(start, prev, lines@, pushed);
                lemma_extends_push(mid, prev, lines@, pushed);
                assert(lines@[after_at] == pushed);
            }
            let ghost prev2 = lines@;
            self.selection_lines(state, lines);
            proof {
                lemma_extends_trans(lines@, prev2, start);
                lemma_extends_trans(lines@, prev2, mid);
                assert(lines@.subrange(0, prev2.len() as int)[after_at] == prev2[after_at]);
                assert(state_line("After: "@, *state, lines@[after_at]@));
            }
        } else {
            proof {
                lemma_extends_self(mid);
            }
        }
        let ghost mark = lines@;
        proof {
            assert(extends(mark, start));
            assert(extends(mark, mid));
            assert(o.after_state matches Some(st) ==> 0 <= after_at && start.len() <= after_at < mark.len()
                && state_line("After: "@, st, mark[after_at]@));
            assert(*o == obs[k0]);
        }
        if let (Some(before), Some(after)) = (&o.before_state, &o.after_state) {
            self.detached_lines(before, after, lines);
        } else {
            proof {
                lemma_extends_self(mark);
            }
        }
        let projection = Some(o.projection.clone());
        let mut f: usize = 0;
        while f < self.findings.len()
            invariant
                f <= self.findings@.len(),
                extends(lines@, mark),
            decreases self.findings.len() - f,
        {
            let finding = &self.findings[f];
            if finding.observation == Some(o.id) && option_text_same(&finding.projection, &projection)
                && finding.kind == FindingKind::ExpressionChanged {
                let mut c: usize = 0;
                while c < finding.changed_operations.len()
                    invariant
                        c <= finding.changed_operations@.len(),
                        extends(lines@, mark),
                    decreases finding.changed_operations.len() - c,
                {
                    let changed = finding.changed_operations[c];
                    let ghost prev = lines@;
                    let text = String::from_str("Expression changed: ").concat(
                        site_label(changed, true, &self.sources).as_str(),
                    ).concat(" -> ").concat(site_label(changed, false, &self.sources).as_str()).concat(".");
                    let ghost pushed = text;
                    lines.push(text);
                    proof {
                        lemma_extends_push(mark, prev, lines@, pushed);
                    }
                    c = c + 1;
                }
            }
            f = f + 1;
        }
        proof {
            let fin = lines@;
            let views = fin.map_values(|p: String| p@);
            lemma_extends_trans(fin, mark, start);
            lemma_extends_trans(fin, mark, mid);
            assert forall|k: int| #![trigger shown_observation(*self, *group, k)]
                shown_observation(*self, *group, k) && group_concerned(*self, *group) && (obs[k].after is Some
                    || obs[k].before is Some) implies (obs[k].before_state matches Some(st) ==> exists|i: int|
                0 <= i && start.len() <= i < views.len() && state_line("Before: "@, st, #[trigger] views[i])) && (
            obs[k].after_state matches Some(st) ==> exists|i: int|
                0 <= i && start.len() <= i < views.len() && state_line("After: "@, st, #[trigger] views[i])) by {
                assert(k == k0);
                if let Some(st) = obs[k].before_state {
                    assert(fin.subrange(0, mid.len() as int)[before_at] == mid[before_at]);
                    assert(views[before_at] == fin[before_at]@);
                    assert(state_line("Before: "@, st, views[before_at]));
                }
                if let Some(st) = obs[k].after_state {
                    assert(fin.subrange(0, mark.len() as int)[after_at] == mark[after_at]);
                    assert(views[after_at] == fin[after_at]@);
                    assert(state_line("After: "@, st, views[after_at]));
                }
            }
        }
    }

    /// One line for each source that reached the input before, still stands
    /// in the code after, and reaches the input no longer.
    fn detached_lines(&self, before: &ObservationState, after: &ObservationState, lines: &mut Vec<String>)
        ensures
            final(lines)@.len() >= old(lines)@.len(),
            final(lines)@.subrange(0, old(lines)@.len() as int) == old(lines)@,
    {
        let mut k: usize = 0;
        while k < before.sources.len()
            invariant
                k <= before.sources@.len(),
                lines@.len() >= old(lines)@.len(),
                lines@.subrange(0, old(lines)@.len() as int) == old(lines)@,
            decreases before.sources.len() - k,
        {
            let id = before.sources[k];
            if !has_id(&after.sources, id) {
                if let Some(j) = source_with(&self.sources, id) {
                    if let Some(site) = &self.sources[j].after {
                        lines.push(
                            String::from_str("`").concat(site.operation.as_str()).concat(
                                "` remains in the code but no longer reaches this input.",
                            ),
                        );
                    }
                }
            }
            k = k + 1;
        }
    }

    /// A write finding that an observation's finding already covers.
    fn write_covered(&self, subject: LogicalNodeId) -> (res: bool)
        ensures
            res == exists|k: int| 0 <= k < self.observations@.len() && covers(*self, #[trigger] self.observations@[k], subject),
    {
        let mut k: usize = 0;
        while k < self.observations.len()
            invariant
                k <= self.observations@.len(),
                forall|j: int| 0 <= j < k ==> !covers(*self, #[trigger] self.observations@[j], subject),
            decreases self.observations.len() - k,
        {
            let o = &self.observations[k];
            let mut changed = false;
            let mut f: usize = 0;
            while f < self.findings.len()
                invariant
                    f <= self.findings@.len(),
                    o == &self.observations@[k as int],
                    changed == exists|x: int| 0 <= x < f && (#[trigger] self.findings@[x]).observation == Some(o.id),
                decreases self.findings.len() - f,
            {
                if self.findings[f].observation == Some(o.id) {
                    changed = true;
                }
                f = f + 1;
            }
            if changed {
                let in_before = match &o.before_state {
                    Some(s) => has_id(&s.sources, subject),
                    None => false,
                };
                let in_after = match &o.after_state {
                    Some(s) => has_id(&s.sources, subject),
                    None => false,
                };
                if in_before || in_after {
                    return true;
                }
            }
            k = k + 1;
        }
        false
    }

    fn codes_text(&self) -> (res: String)
        ensures
            exists|names: Seq<Seq<char>>| names.len() == self.diagnostics@.len() && res@ == "{"@ + joined_with(names, ", "@) + "}"@,
    {
        let mut names: Vec<String> = Vec::new();
        let mut k: usize = 0;
        while k < self.diagnostics.len()
            invariant
                k <= self.diagnostics@.len(),
                names@.len() == k,
            decreases self.diagnostics.len() - k,
        {
            names.push(debug_text(&self.diagnostics[k]));
            k = k + 1;
        }
        let inner = join(&names, ", ");
        let res = String::from_str("{").concat(inner.as_str()).concat("}");
        proof {
            let views = names@.map_values(|p: String| p@);
            assert(res@ == "{"@ + joined_with(views, ", "@) + "}"@);
        }
        res
    }

    /// A short account of the established changes: for each affected group
    /// of observations its sources before and after with their guards and
    /// selection rules, then the changes of writes and observations, what
    /// stayed unknown, and the scope and completeness of the comparison.
    pub fn render_text(&self) -> (res: String)
        ensures
            res@.len() >= scope_tail(*self).len(),
            res@.subrange(res@.len() - scope_tail(*self).len(), res@.len() as int) == scope_tail(*self),
            exists|lines: Seq<Seq<char>>|
                res@ == joined_with(lines, "\n"@) && forall|g: int|
                    0 <= g < self.observation_groups@.len() ==> group_shown_in(
                        *self,
                        #[trigger] self.observation_groups@[g],
                        lines,
                        0,
                    ),
    {
        let name = match &self.selected_binding.expected_name {
            Some(n) => n.clone(),
            None => String::from_str("selected binding"),
        };
        let mut lines: Vec<String> = Vec::new();
        let mut g: usize = 0;
        while g < self.observation_groups.len()
            invariant
                g <= self.observation_groups@.len(),
                forall|g2: int|
                    0 <= g2 < g ==> group_shown_in(
                        *self,
                        #[trigger] self.observation_groups@[g2],
                        lines@.map_values(|p: String| p@),
                        0,
                    ),
            decreases self.observation_groups.len() - g,
        {
            let ghost prev = lines@;
            self.group_lines(&self.observation_groups[g], name.as_str(), &mut lines);
            proof {
                lemma_views_extend(lines@, prev);
                let pv = prev.map_values(|p: String| p@);
                let nv = lines@.map_values(|p: String| p@);
                assert forall|g2: int| 0 <= g2 < g + 1 implies group_shown_in(
                    *self,
                    #[trigger] self.observation_groups@[g2],
                    nv,
                    0,
                ) by {
                    if g2 < g {
                        lemma_group_shown_grows(*self, self.observation_groups@[g2], pv, nv, 0);
                    } else {
                        lemma_group_shown_from_start(*self, self.observation_groups@[g2], nv, prev.len() as int);
                    }
                }
            }
            g = g + 1;
        }
        let ghost grouped = lines@;
        proof {
            lemma_extends_self(grouped);
        }
        let mut f: usize = 0;
        while f < self.findings.len()
            invariant
                f <= self.findings@.len(),
                extends(lines@, grouped),
            decreases self.findings.len() - f,
        {
            let finding = &self.findings[f];
            let ghost prev = lines@;
            if finding.observation.is_none() {
                let write = finding.kind == FindingKind::WriteAdded || finding.kind == FindingKind::WriteRemoved;
                if !(write && self.write_covered(finding.subject)) {
                    let before = finding.kind == FindingKind::WriteRemoved || finding.kind
                        == FindingKind::ObservationRemoved;
                    let label = site_label(finding.subject, before, &self.sources);
                    match finding.kind {
                        FindingKind::WriteAdded => {
                            lines.push(String::from_str("Added write ").concat(label.as_str()).concat("."));
                        },
                        FindingKind::WriteRemoved => {
                            lines.push(String::from_str("Removed write ").concat(label.as_str()).concat("."));
                        },
                        FindingKind::ExpressionChanged => {
                            lines.push(String::from_str("Changed expression at ").concat(label.as_str()).concat("."));
                        },
                        FindingKind::ObservationAdded => {
                            lines.push(String::from_str("Added observation ").concat(label.as_str()).concat("."));
                        },
                        FindingKind::ObservationRemoved => {
                            lines.push(String::from_str("Removed observation ").concat(label.as_str()).concat("."));
                        },
                        FindingKind::ComparisonUnresolved => {
                            lines.push(String::from_str("Comparison unresolved at one or more aligned operations."));
                        },
                        _ => {},
                    }
                }
            }
            proof {
                assert(lines@.subrange(0, prev.len() as int) =~= prev);
                lemma_extends_trans(lines@, prev, grouped);
            }
            f = f + 1;
        }
        let ghost listed = lines@;
        if lines.len() == 0 {
            lines.push(String::from_str("No established source or logic change within the declared scope."));
        }
        if self.diagnostics.len() > 0 {
            lines.push(String::from_str("Unknown: ").concat(self.codes_text().as_str()).concat("."));
        }
        let comparison = if self.comparison_complete {
            "complete"
        } else {
            "unresolved"
        };
        let scope = String::from_str("Scope: ").concat(self.declared_scope.as_str()).concat("; analysis ").concat(
            debug_text(&self.analysis_coverage).as_str(),
        ).concat("; source comparison ").concat(comparison).concat(". Full evidence: ").concat(
            self.evidence_file.as_str(),
        ).concat(" (").concat(self.full_report_id.as_str()).concat(").");
        let ghost tail = scope_tail(*self);
        let ghost head = scope@.subrange(0, scope@.len() - tail.len());
        proof {
            assert(scope@ =~= head + tail);
        }
        lines.push(scope);
        let res = join(&lines, "\n");
        proof {
            assert(lines@.subrange(0, listed.len() as int) =~= listed);
            lemma_extends_trans(lines@, listed, grouped);
            lemma_views_extend(lines@, grouped);
            let gv = grouped.map_values(|p: String| p@);
            let fv = lines@.map_values(|p: String| p@);
            assert forall|g: int| 0 <= g < self.observation_groups@.len() implies group_shown_in(
                *self,
                #[trigger] self.observation_groups@[g],
                fv,
                0,
            ) by {
                lemma_group_shown_grows(*self, self.observation_groups@[g], gv, fv, 0);
            }
            assert(res@ == joined_with(fv, "\n"@));
        }
        proof {
            let views = lines@.map_values(|p: String| p@);
            assert(views.last() == head + tail);
            if views.len() == 1 {
                assert(res@ =~= head + tail);
            } else {
                assert(res@ =~= (joined_with(views.drop_last(), "\n"@) + "\n"@ + head) + tail);
            }
            let r = res@;
            let pre = r.subrange(0, r.len() - tail.len());
            assert(r =~= pre + tail);
            assert(r.subrange(r.len() - tail.len(), r.len() as int) =~= tail);
        }
        res
    }
}

} // verus!
