//! Comparison of two independently computed flow slices through their
//! alignment: what was added, removed or changed, and what cannot be
//! decided.
use vstd::prelude::*;
use crate::ifds::branches::text_less;
use crate::ifds::compare::{ambiguous_entities, entity_matches, listed, named_by, AlignmentResult};
use crate::ifds::ir::{debug_text, find_node, node_ids_unique, Operation, ProcedureIr};
use crate::ifds::model::{
    Alignment, AlignmentEntity, BindingId, Coverage, DeltaRecord, DiagnosticCode, EvidenceKind, FlowDelta,
    FlowEdge, FlowGraph, GroupId, LogicalBindingId, LogicalNodeId, MembershipChange, NodeId, Place,
    RelationKind, RelationPresence, SnapshotSide, SourceSpan,
};
use crate::ifds::slicing::SliceOutput;

verus! {

/// A relation's identity: its aligned endpoints, kind and projection, but
/// neither its condition nor its witnesses.
#[derive(Debug, Clone, PartialEq, Eq, PartialOrd, Ord)]
pub struct RelationIdentity {
    pub source: LogicalNodeId,
    pub target: LogicalNodeId,
    pub kind: RelationKind,
    pub projection: Option<String>,
}

#[derive(Debug, Clone, Copy, PartialEq, Eq, Structural)]
pub enum ConditionComparison {
    Equivalent,
    Different,
    Unknown,
}

/// The two slices, their procedures and selected bindings, the alignment,
/// a stable query key, local presence proofs and condition proofs.
pub struct ComparisonInput<'a> {
    pub before: &'a SliceOutput,
    pub after: &'a SliceOutput,
    pub before_ir: &'a ProcedureIr,
    pub after_ir: &'a ProcedureIr,
    pub before_binding: Option<&'a BindingId>,
    pub after_binding: Option<&'a BindingId>,
    pub alignment: &'a AlignmentResult,
    pub query_key: &'a str,
    pub before_presence: &'a Vec<(RelationIdentity, RelationPresence)>,
    pub after_presence: &'a Vec<(RelationIdentity, RelationPresence)>,
    pub condition_proofs: &'a Vec<(RelationIdentity, ConditionComparison)>,
}

#[derive(Debug, Clone, PartialEq, Eq)]
pub struct ComparisonOutput {
    pub deltas: Vec<DeltaRecord>,
}

#[derive(Debug, Clone, PartialEq, Eq)]
pub enum ComparisonError {
    MissingAlignment(NodeId),
    InvalidPresenceProof(RelationIdentity),
}

// ---------------------------------------------------------------------------
// Presence.

/// What an observed relation says of its presence: unknown when its
/// evidence is unresolved.
pub open spec fn observed_presence(evidence: Option<EvidenceKind>) -> Option<RelationPresence> {
    match evidence {
        None => None,
        Some(EvidenceKind::Unresolved { .. }) => Some(RelationPresence::Unknown),
        Some(_) => Some(RelationPresence::Present),
    }
}

/// The presence of a relation from an observation, a local proof and the
/// slice's coverage; `None` when the proof contradicts the observation
/// (absent but observed, or present but unresolved). Without either, a
/// relation is absent only from a slice that is complete both ways.
pub open spec fn presence_spec(
    observed: Option<RelationPresence>,
    proof: Option<RelationPresence>,
    upstream: Coverage,
    downstream: Coverage,
) -> Option<RelationPresence> {
    match (proof, observed) {
        (Some(RelationPresence::Absent), Some(RelationPresence::Present)) => None,
        (Some(RelationPresence::Present), Some(RelationPresence::Unknown)) => None,
        (Some(p), _) => Some(p),
        (None, Some(o)) => Some(o),
        (None, None) => Some(
            if upstream == Coverage::Complete && downstream == Coverage::Complete {
                RelationPresence::Absent
            } else {
                RelationPresence::Unknown
            },
        ),
    }
}

/// Whether an operation writes the selected binding (present), may write
/// it through an unsupported operation or a call (unknown), or not.
pub open spec fn op_write_presence(op: Operation, selected: Option<BindingId>) -> RelationPresence {
    match op {
        Operation::Write { target: Place::Binding(b), .. } => {
            if selected matches Some(s) && b@ == s@ {
                RelationPresence::Present
            } else {
                RelationPresence::Absent
            }
        },
        Operation::UnknownEffect { affected_places, .. } => {
            if selected matches Some(s) && exists|k: int|
                0 <= k < affected_places@.len() && (#[trigger] affected_places@[k])@
                    == Place::Binding(s)@ {
                RelationPresence::Unknown
            } else {
                RelationPresence::Absent
            }
        },
        Operation::Call { .. } => RelationPresence::Unknown,
        _ => RelationPresence::Absent,
    }
}

struct RelationEvidence {
    /// In increasing order (no condition first), without repeats.
    conditions: Vec<Option<String>>,
    evidence: EvidenceKind,
}

fn observed(e: Option<&RelationEvidence>) -> (res: Option<RelationPresence>)
    ensures
        res == observed_presence(
            match e {
                Some(r) => Some(r.evidence),
                None => None,
            },
        ),
{
    match e {
        None => None,
        Some(r) => match &r.evidence {
            EvidenceKind::Unresolved { .. } => Some(RelationPresence::Unknown),
            _ => Some(RelationPresence::Present),
        },
    }
}

/// The presence of a relation, or an error for a contradicting proof.
pub fn presence(
    observation: Option<RelationPresence>,
    proof: Option<RelationPresence>,
    upstream: Coverage,
    downstream: Coverage,
    key: &RelationIdentity,
) -> (res: Result<RelationPresence, ComparisonError>)
    ensures
        match presence_spec(observation, proof, upstream, downstream) {
            Some(p) => res == Ok::<RelationPresence, ComparisonError>(p),
            None => res matches Err(ComparisonError::InvalidPresenceProof(_)),
        },
{
    match (proof, observation) {
        (Some(RelationPresence::Absent), Some(RelationPresence::Present)) => {
            return Err(ComparisonError::InvalidPresenceProof(key.clone()));
        },
        (Some(RelationPresence::Present), Some(RelationPresence::Unknown)) => {
            return Err(ComparisonError::InvalidPresenceProof(key.clone()));
        },
        _ => {},
    }
    match (proof, observation) {
        (Some(p), _) => Ok(p),
        (None, Some(o)) => Ok(o),
        (None, None) => Ok(
            if upstream == Coverage::Complete && downstream == Coverage::Complete {
                RelationPresence::Absent
            } else {
                RelationPresence::Unknown
            },
        ),
    }
}

/// Whether the aligned operation writes the selected binding on one side:
/// absent without an operation, unknown when the operation is missing.
#[verifier::loop_isolation(false)]
pub fn write_presence(id: Option<&NodeId>, ir: &ProcedureIr, selected: Option<&BindingId>) -> (res:
    RelationPresence)
    ensures
        id is None ==> res == RelationPresence::Absent,
        id matches Some(n) ==> {
            &&& (forall|i: int| 0 <= i < ir.nodes@.len() ==> (#[trigger] ir.nodes@[i]).id@ != n@)
                ==> res == RelationPresence::Unknown
            &&& node_ids_unique(*ir) ==> forall|i: int|
                0 <= i < ir.nodes@.len() && (#[trigger] ir.nodes@[i]).id@ == n@ ==> res
                    == op_write_presence(
                    ir.nodes@[i].operation,
                    match selected {
                        Some(s) => Some(*s),
                        None => None,
                    },
                )
        },
{
    let id = match id {
        Some(id) => id,
        None => {
            return RelationPresence::Absent;
        },
    };
    let index = match find_node(ir, id) {
        Some(i) => i,
        None => {
            return RelationPresence::Unknown;
        },
    };
    let ghost sel = match selected {
        Some(s) => Some(*s),
        None => None,
    };
    match &ir.nodes[index].operation {
        Operation::Write { target: Place::Binding(binding), .. } => {
            match selected {
                Some(s) => {
                    if binding.same(s) {
                        RelationPresence::Present
                    } else {
                        RelationPresence::Absent
                    }
                },
                None => RelationPresence::Absent,
            }
        },
        Operation::UnknownEffect { affected_places, .. } => {
            match selected {
                Some(s) => {
                    let wanted = Place::Binding(s.clone());
                    let mut k: usize = 0;
                    while k < affected_places.len()
                        invariant
                            k <= affected_places@.len(),
                            wanted@ == Place::Binding(*s)@,
                            forall|j: int| 0 <= j < k ==> (#[trigger] affected_places@[j])@ != wanted@,
                        decreases affected_places.len() - k,
                    {
                        if affected_places[k].same(&wanted) {
                            proof {
                                assert(affected_places@[k as int]@ == Place::Binding(*s)@);
                            }
                            return RelationPresence::Unknown;
                        }
                        k = k + 1;
                    }
                    RelationPresence::Absent
                },
                None => RelationPresence::Absent,
            }
        },
        Operation::Call { .. } => RelationPresence::Unknown,
        _ => RelationPresence::Absent,
    }
}

// ---------------------------------------------------------------------------
// Small helpers.

/// An optional text by its characters.
pub open spec fn option_text_view(t: Option<String>) -> Option<Seq<char>> {
    match t {
        Some(x) => Some(x@),
        None => None,
    }
}

/// Two relation identities with the same ends, kind and projection text.
pub open spec fn relation_same(a: RelationIdentity, b: RelationIdentity) -> bool {
    a.source == b.source && a.target == b.target && a.kind == b.kind && option_text_view(a.projection)
        == option_text_view(b.projection)
}

fn option_text_equal(a: &Option<String>, b: &Option<String>) -> (res: bool)
    ensures
        res == (option_text_view(*a) == option_text_view(*b)),
{
    match (a, b) {
        (Some(x), Some(y)) => *x == *y,
        (None, None) => true,
        _ => false,
    }
}

fn clone_option_text(t: &Option<String>) -> (res: Option<String>)
    ensures
        res == *t,
{
    match t {
        Some(x) => Some(x.clone()),
        None => None,
    }
}

fn clone_span(s: &Option<SourceSpan>) -> Option<SourceSpan> {
    match s {
        Some(x) => Some(x.clone()),
        None => None,
    }
}

fn clone_evidence(e: &EvidenceKind) -> (res: EvidenceKind)
    ensures
        (res is Unresolved) == (*e is Unresolved),
{
    match e {
        EvidenceKind::Supported => EvidenceKind::Supported,
        EvidenceKind::Modeled { model } => EvidenceKind::Modeled { model: model.clone() },
        EvidenceKind::Unresolved { diagnostic } => EvidenceKind::Unresolved {
            diagnostic: *diagnostic,
        },
    }
}

fn relation_equal(a: &RelationIdentity, b: &RelationIdentity) -> (res: bool)
    ensures
        res == relation_same(*a, *b),
{
    a.source.0 == b.source.0 && a.target.0 == b.target.0 && a.kind == b.kind && option_text_equal(
        &a.projection,
        &b.projection,
    )
}

fn clone_relation(a: &RelationIdentity) -> (res: RelationIdentity)
    ensures
        res == *a,
{
    RelationIdentity {
        source: a.source,
        target: a.target,
        kind: a.kind,
        projection: clone_option_text(&a.projection),
    }
}

/// Inserts into an increasing list of logical operations.
fn insert_logical(list: &mut Vec<LogicalNodeId>, item: LogicalNodeId)
    ensures
        final(list)@.to_set() == old(list)@.to_set().insert(item),
{
    let ghost start = list@;
    let mut k: usize = 0;
    while k < list.len()
        invariant
            k <= list@.len(),
            list@ == start,
            start == old(list)@,
        decreases list.len() - k,
    {
        if list[k].0 == item.0 {
            proof {
                assert(start[k as int] == item);
                crate::ifds::seqs::lemma_present_to_set(start, k as int, item);
            }
            return;
        }
        if item.0 < list[k].0 {
            list.insert(k, item);
            proof {
                crate::ifds::seqs::lemma_insert_to_set(start, k as int, item);
            }
            return;
        }
        k = k + 1;
    }
    list.push(item);
    proof {
        crate::ifds::seqs::lemma_push_to_set(start, item);
    }
}

fn insert_binding(list: &mut Vec<LogicalBindingId>, item: LogicalBindingId)
    ensures
        final(list)@.to_set() == old(list)@.to_set().insert(item),
{
    let ghost start = list@;
    let mut k: usize = 0;
    while k < list.len()
        invariant
            k <= list@.len(),
            list@ == start,
            start == old(list)@,
        decreases list.len() - k,
    {
        if list[k].0 == item.0 {
            proof {
                assert(start[k as int] == item);
                crate::ifds::seqs::lemma_present_to_set(start, k as int, item);
            }
            return;
        }
        if item.0 < list[k].0 {
            list.insert(k, item);
            proof {
                crate::ifds::seqs::lemma_insert_to_set(start, k as int, item);
            }
            return;
        }
        k = k + 1;
    }
    list.push(item);
    proof {
        crate::ifds::seqs::lemma_push_to_set(start, item);
    }
}

fn insert_group(list: &mut Vec<GroupId>, item: GroupId)
    ensures
        final(list)@.to_set() == old(list)@.to_set().insert(item),
{
    let ghost start = list@;
    let mut k: usize = 0;
    while k < list.len()
        invariant
            k <= list@.len(),
            list@ == start,
            start == old(list)@,
        decreases list.len() - k,
    {
        if list[k].0 == item.0 {
            proof {
                assert(start[k as int] == item);
                crate::ifds::seqs::lemma_present_to_set(start, k as int, item);
            }
            return;
        }
        if item.0 < list[k].0 {
            list.insert(k, item);
            proof {
                crate::ifds::seqs::lemma_insert_to_set(start, k as int, item);
            }
            return;
        }
        k = k + 1;
    }
    list.push(item);
    proof {
        crate::ifds::seqs::lemma_push_to_set(start, item);
    }
}

fn contains_logical(list: &Vec<LogicalNodeId>, item: LogicalNodeId) -> bool {
    let mut k: usize = 0;
    while k < list.len()
        invariant
            k <= list@.len(),
        decreases list.len() - k,
    {
        if list[k].0 == item.0 {
            return true;
        }
        k = k + 1;
    }
    false
}

fn logical_lists_equal(a: &Vec<LogicalNodeId>, b: &Vec<LogicalNodeId>) -> (res: bool)
    ensures
        res == (a@ == b@),
{
    if a.len() != b.len() {
        return false;
    }
    let mut k: usize = 0;
    while k < a.len()
        invariant
            a@.len() == b@.len(),
            k <= a@.len(),
            forall|i: int| 0 <= i < k ==> a@[i] == b@[i],
        decreases a.len() - k,
    {
        if a[k].0 != b[k].0 {
            return false;
        }
        k = k + 1;
    }
    proof {
        assert(a@ =~= b@);
    }
    true
}

fn binding_lists_equal(a: &Vec<LogicalBindingId>, b: &Vec<LogicalBindingId>) -> (res: bool)
    ensures
        res == (a@ == b@),
{
    if a.len() != b.len() {
        return false;
    }
    let mut k: usize = 0;
    while k < a.len()
        invariant
            a@.len() == b@.len(),
            k <= a@.len(),
            forall|i: int| 0 <= i < k ==> a@[i] == b@[i],
        decreases a.len() - k,
    {
        if a[k].0 != b[k].0 {
            return false;
        }
        k = k + 1;
    }
    proof {
        assert(a@ =~= b@);
    }
    true
}

/// The order of optional conditions: none first, then texts by bytes.
fn condition_less(a: &Option<String>, b: &Option<String>) -> bool {
    match (a, b) {
        (None, Some(_)) => true,
        (Some(x), Some(y)) => text_less(x.as_str(), y.as_str()),
        _ => false,
    }
}

fn insert_condition(list: &mut Vec<Option<String>>, item: &Option<String>)
    ensures
        final(list)@.map_values(|c: Option<String>| option_text_view(c)).to_set() == old(list)@.map_values(
            |c: Option<String>| option_text_view(c),
        ).to_set().insert(option_text_view(*item)),
{
    let ghost views = list@.map_values(|c: Option<String>| option_text_view(c));
    let mut k: usize = 0;
    while k < list.len()
        invariant
            k <= list@.len(),
            list@ == old(list)@,
            views == list@.map_values(|c: Option<String>| option_text_view(c)),
        decreases list.len() - k,
    {
        if option_text_equal(&list[k], item) {
            proof {
                crate::ifds::seqs::lemma_present_to_set(views, k as int, option_text_view(*item));
            }
            return;
        }
        if condition_less(item, &list[k]) {
            list.insert(k, clone_option_text(item));
            proof {
                assert(list@.map_values(|c: Option<String>| option_text_view(c)) =~= views.insert(
                    k as int,
                    option_text_view(*item),
                ));
                crate::ifds::seqs::lemma_insert_to_set(views, k as int, option_text_view(*item));
            }
            return;
        }
        k = k + 1;
    }
    list.push(clone_option_text(item));
    proof {
        assert(list@.map_values(|c: Option<String>| option_text_view(c)) =~= views.push(option_text_view(*item)));
        crate::ifds::seqs::lemma_push_to_set(views, option_text_view(*item));
    }
}

impl RelationEvidence {
    /// The condition under which the relation holds: none when it holds
    /// unconditionally on some path, else the disjunction of its conditions.
    fn condition(&self) -> Option<String> {
        let n = self.conditions.len();
        let mut k: usize = 0;
        while k < n
            invariant
                n == self.conditions@.len(),
                k <= n,
            decreases n - k,
        {
            if self.conditions[k].is_none() {
                return None;
            }
            k = k + 1;
        }
        if n == 1 {
            return clone_option_text(&self.conditions[0]);
        }
        let mut text = String::new();
        let mut first = true;
        let mut k: usize = 0;
        while k < n
            invariant
                n == self.conditions@.len(),
                k <= n,
            decreases n - k,
        {
            if let Some(c) = &self.conditions[k] {
                if !first {
                    text = text.concat(" || ");
                }
                text = text.concat("(").concat(c.as_str()).concat(")");
                first = false;
            }
            k = k + 1;
        }
        Some(text)
    }
}

/// The FNV-1a hash of the bytes.
fn stable_hash(bytes: &[u8]) -> (res: u64)
    ensures
        res == crate::ifds::snapshots::fnv1a_spec(bytes@),
{
    let mut hash: u64 = 0xcbf29ce484222325;
    let mut k: usize = 0;
    while k < bytes.len()
        invariant
            k <= bytes@.len(),
            hash == crate::ifds::snapshots::fnv1a_spec(bytes@.take(k as int)),
        decreases bytes.len() - k,
    {
        proof {
            assert(bytes@.take(k + 1).drop_last() =~= bytes@.take(k as int));
        }
        hash = (hash ^ (bytes[k] as u64)).wrapping_mul(0x100000001b3);
        k = k + 1;
    }
    proof {
        assert(bytes@.take(k as int) =~= bytes@);
    }
    hash
}

/// The group of an operation's consequences for one query and pair of
/// snapshots.
fn group_for(input: &ComparisonInput, logical: LogicalNodeId) -> GroupId {
    let before = &input.before_ir.id.snapshot;
    let after = &input.after_ir.id.snapshot;
    let key = String::from_str(input.query_key).concat("|").concat(before.revision.as_str()).concat(
        "|",
    ).concat(before.content_id.as_str()).concat("|").concat(after.revision.as_str()).concat(
        "|",
    ).concat(after.content_id.as_str()).concat("|").concat(logical.0.to_string().as_str()).concat(
        "|operation",
    );
    GroupId(stable_hash(key.as_str().as_bytes()))
}

// ---------------------------------------------------------------------------
// Reading a condition.

/// A character that may begin a name.
pub open spec fn name_start(c: char) -> bool {
    ('a' <= c && c <= 'z') || ('A' <= c && c <= 'Z') || c == '_' || c == '$'
}

/// A character that may continue a name.
pub open spec fn name_char(c: char) -> bool {
    name_start(c) || ('0' <= c && c <= '9')
}

/// A name: a name character sequence that begins with a name start.
pub open spec fn valid_name(name: Seq<char>) -> bool {
    name.len() > 0 && name_start(name[0]) && (forall|i: int| 0 <= i < name.len() ==> name_char(#[trigger] name[i]))
}

/// One term: a name, plain or after one `!`; none for anything else.
pub open spec fn term_reading(s: Seq<char>) -> Option<(Seq<char>, bool)> {
    if s.len() > 0 && s[0] == '!' {
        if valid_name(s.drop_first()) {
            Some((s.drop_first(), false))
        } else {
            None
        }
    } else if valid_name(s) {
        Some((s, true))
    } else {
        None
    }
}

/// Whether ` && ` begins at position `k`.
pub open spec fn separator_at(s: Seq<char>, k: int) -> bool {
    0 <= k && k + 4 <= s.len() && s[k] == ' ' && s[k + 1] == '&' && s[k + 2] == '&' && s[k + 3] == ' '
}

/// The pieces of `s` from `start` on, split at each ` && ` found scanning
/// from `k` to the right.
pub open spec fn pieces_from(s: Seq<char>, start: int, k: int) -> Seq<Seq<char>>
    decreases s.len() - k,
{
    if k >= s.len() {
        seq![s.subrange(start, s.len() as int)]
    } else if separator_at(s, k) {
        seq![s.subrange(start, k)] + pieces_from(s, k + 4, k + 4)
    } else {
        pieces_from(s, start, k + 1)
    }
}

/// The terms of the pieces; none unless every piece is a term.
pub open spec fn terms_reading(pieces: Seq<Seq<char>>) -> Option<Seq<(Seq<char>, bool)>>
    decreases pieces.len(),
{
    if pieces.len() == 0 {
        Some(Seq::empty())
    } else {
        match (terms_reading(pieces.drop_last()), term_reading(pieces.last())) {
            (Some(terms), Some(term)) => Some(terms.push(term)),
            _ => None,
        }
    }
}

/// A condition's text as a conjunction of terms split at ` && `.
pub open spec fn clause_reading(text: Seq<char>) -> Option<Seq<(Seq<char>, bool)>> {
    terms_reading(pieces_from(text, 0, 0))
}

/// One condition: none stands for the empty conjunction.
pub open spec fn condition_reading(condition: Option<String>) -> Option<Seq<(Seq<char>, bool)>> {
    match condition {
        None => Some(Seq::empty()),
        Some(text) => clause_reading(text@),
    }
}

/// The conditions as a disjunction of conjunctions; none unless every
/// condition can be read.
pub open spec fn formula_reading(conditions: Seq<Option<String>>) -> Option<Seq<Seq<(Seq<char>, bool)>>>
    decreases conditions.len(),
{
    if conditions.len() == 0 {
        Some(Seq::empty())
    } else {
        match (formula_reading(conditions.drop_last()), condition_reading(conditions.last())) {
            (Some(clauses), Some(clause)) => Some(clauses.push(clause)),
            _ => None,
        }
    }
}

// ---------------------------------------------------------------------------
// Meaning of a formula.

/// A conjunction holds when each name is true exactly when its term is
/// positive; `truth` is the set of true names.
pub open spec fn clause_holds(clause: Seq<(Seq<char>, bool)>, truth: Set<Seq<char>>) -> bool {
    forall|t: int| 0 <= t < clause.len() ==> truth.contains(#[trigger] clause[t].0) == clause[t].1
}

/// A disjunction holds when one of its conjunctions does.
pub open spec fn formula_holds(formula: Seq<Seq<(Seq<char>, bool)>>, truth: Set<Seq<char>>) -> bool {
    exists|c: int| 0 <= c < formula.len() && clause_holds(#[trigger] formula[c], truth)
}

/// The names that occur in a formula.
pub open spec fn formula_names(formula: Seq<Seq<(Seq<char>, bool)>>) -> Set<Seq<char>> {
    Set::new(
        |n: Seq<char>|
            exists|c: int, t: int| 0 <= c < formula.len() && 0 <= t < formula[c].len() && #[trigger] formula[c][t].0 == n,
    )
}

// ---------------------------------------------------------------------------
// Executable reading.

spec fn clause_view(clause: Vec<(String, bool)>) -> Seq<(Seq<char>, bool)> {
    clause@.map_values(|t: (String, bool)| (t.0@, t.1))
}

spec fn formula_view(formula: Seq<Vec<(String, bool)>>) -> Seq<Seq<(Seq<char>, bool)>> {
    formula.map_values(|c: Vec<(String, bool)>| clause_view(c))
}

spec fn names_view(names: Seq<String>) -> Seq<Seq<char>> {
    names.map_values(|s: String| s@)
}

fn text_chars(text: &str) -> (res: Vec<char>)
    ensures
        res@ == text@,
{
    let n = text.unicode_len();
    let mut out: Vec<char> = Vec::new();
    let mut i: usize = 0;
    while i < n
        invariant
            n == text@.len(),
            i <= n,
            out@ == text@.take(i as int),
        decreases n - i,
    {
        let c = text.get_char(i);
        proof {
            assert(text@.take(i + 1) =~= text@.take(i as int).push(c));
        }
        out.push(c);
        i = i + 1;
    }
    proof {
        assert(text@.take(n as int) =~= text@);
    }
    out
}

fn is_name_start(c: char) -> (res: bool)
    ensures
        res == name_start(c),
{
    ('a' <= c && c <= 'z') || ('A' <= c && c <= 'Z') || c == '_' || c == '$'
}

fn is_name_char(c: char) -> (res: bool)
    ensures
        res == name_char(c),
{
    is_name_start(c) || ('0' <= c && c <= '9')
}

fn chars_text(chars: &Vec<char>, start: usize, end: usize) -> (res: String)
    requires
        start <= end <= chars@.len(),
    ensures
        res@ == chars@.subrange(start as int, end as int),
{
    let mut out = String::new();
    let mut k: usize = start;
    while k < end
        invariant
            start <= k <= end <= chars@.len(),
            out@ == chars@.subrange(start as int, k as int),
        decreases end - k,
    {
        proof {
            assert(chars@.subrange(start as int, k + 1) =~= chars@.subrange(start as int, k as int).push(
                chars@[k as int],
            ));
        }
        out = out.concat(crate::ifds::branches::char_text(chars[k]).as_str());
        k = k + 1;
    }
    out
}

/// One term of a conjunction: a name, positive or negated by one `!`.
fn parse_term(chars: &Vec<char>, start: usize, end: usize) -> (res: Option<(String, bool)>)
    requires
        start <= end <= chars@.len(),
    ensures
        match term_reading(chars@.subrange(start as int, end as int)) {
            None => res is None,
            Some(term) => res matches Some(t) && t.0@ == term.0 && t.1 == term.1,
        },
{
    let ghost piece = chars@.subrange(start as int, end as int);
    let mut s = start;
    let mut positive = true;
    if s < end && chars[s] == '!' {
        positive = false;
        s = s + 1;
    }
    let ghost name = chars@.subrange(s as int, end as int);
    proof {
        assert(positive == !(piece.len() > 0 && piece[0] == '!'));
        if positive {
            assert(name =~= piece);
        } else {
            assert(name =~= piece.drop_first());
        }
    }
    if s >= end || !is_name_start(chars[s]) {
        return None;
    }
    let mut k: usize = s;
    while k < end
        invariant
            s <= k <= end <= chars@.len(),
            name == chars@.subrange(s as int, end as int),
            piece == chars@.subrange(start as int, end as int),
            positive == !(piece.len() > 0 && piece[0] == '!'),
            name == (if positive { piece } else { piece.drop_first() }),
            forall|i: int| s <= i < k ==> name_char(#[trigger] chars@[i]),
        decreases end - k,
    {
        if !is_name_char(chars[k]) {
            proof {
                assert(name[k - s] == chars@[k as int]);
                assert(!name_char(name[k - s]));
                assert(!valid_name(name));
            }
            return None;
        }
        k = k + 1;
    }
    proof {
        assert forall|i: int| 0 <= i < name.len() implies name_char(#[trigger] name[i]) by {
            assert(name[i] == chars@[s + i]);
        }
    }
    Some((chars_text(chars, s, end), positive))
}

/// The terms of a condition split at ` && `; none unless every term is a
/// plain or negated name.
fn parse_clause(text: &str) -> (res: Option<Vec<(String, bool)>>)
    ensures
        match clause_reading(text@) {
            None => res is None,
            Some(terms) => res matches Some(v) && clause_view(v) == terms,
        },
{
    let chars = text_chars(text);
    let n = chars.len();
    let mut terms: Vec<(String, bool)> = Vec::new();
    let mut ok = true;
    let mut start: usize = 0;
    let mut k: usize = 0;
    let ghost mut done: Seq<Seq<char>> = Seq::empty();
    proof {
        assert(done + pieces_from(chars@, 0, 0) =~= pieces_from(chars@, 0, 0));
    }
    while k < n
        invariant
            n == chars@.len(),
            chars@ == text@,
            start <= k <= n,
            pieces_from(chars@, 0, 0) == done + pieces_from(chars@, start as int, k as int),
            ok <==> terms_reading(done) is Some,
            ok ==> clause_view(terms) == terms_reading(done)->0,
        decreases n - k,
    {
        if n - k >= 4 && chars[k] == ' ' && chars[k + 1] == '&' && chars[k + 2] == '&' && chars[k + 3] == ' ' {
            let piece = parse_term(&chars, start, k);
            proof {
                let x = chars@.subrange(start as int, k as int);
                assert(separator_at(chars@, k as int));
                assert(pieces_from(chars@, start as int, k as int) == seq![x] + pieces_from(
                    chars@,
                    k + 4,
                    k + 4,
                ));
                assert(done + (seq![x] + pieces_from(chars@, k + 4, k + 4)) =~= done.push(x) + pieces_from(
                    chars@,
                    k + 4,
                    k + 4,
                ));
                assert(done.push(x).drop_last() =~= done);
                assert(done.push(x).last() == x);
                done = done.push(x);
            }
            match piece {
                Some(t) => {
                    if ok {
                        let ghost before = terms;
                        terms.push(t);
                        proof {
                            assert(clause_view(terms) =~= clause_view(before).push((t.0@, t.1)));
                        }
                    }
                },
                None => {
                    ok = false;
                },
            }
            k = k + 4;
            start = k;
        } else {
            proof {
                assert(!separator_at(chars@, k as int));
                assert(pieces_from(chars@, start as int, k as int) == pieces_from(chars@, start as int, k + 1));
            }
            k = k + 1;
        }
    }
    let last = parse_term(&chars, start, n);
    let ghost x = chars@.subrange(start as int, n as int);
    proof {
        assert(pieces_from(chars@, start as int, k as int) == seq![x]);
        assert(done + seq![x] =~= done.push(x));
        assert(done.push(x).drop_last() =~= done);
        assert(done.push(x).last() == x);
    }
    match last {
        Some(t) => {
            if ok {
                let ghost before = terms;
                terms.push(t);
                proof {
                    assert(clause_view(terms) =~= clause_view(before).push((t.0@, t.1)));
                }
                Some(terms)
            } else {
                None
            }
        },
        None => None,
    }
}

/// The conditions as a disjunction of conjunctions; no condition is the
/// empty conjunction.
fn clauses(conditions: &Vec<Option<String>>) -> (res: Option<Vec<Vec<(String, bool)>>>)
    ensures
        match formula_reading(conditions@) {
            None => res is None,
            Some(formula) => res matches Some(v) && formula_view(v@) == formula,
        },
{
    let mut out: Vec<Vec<(String, bool)>> = Vec::new();
    let mut ok = true;
    let mut k: usize = 0;
    while k < conditions.len()
        invariant
            k <= conditions@.len(),
            ok <==> formula_reading(conditions@.take(k as int)) is Some,
            ok ==> formula_view(out@) == formula_reading(conditions@.take(k as int))->0,
        decreases conditions.len() - k,
    {
        proof {
            assert(conditions@.take(k + 1).drop_last() =~= conditions@.take(k as int));
            assert(conditions@.take(k + 1).last() == conditions@[k as int]);
        }
        let ghost before = out@;
        match &conditions[k] {
            None => {
                if ok {
                    let empty: Vec<(String, bool)> = Vec::new();
                    proof {
                        assert(clause_view(empty) =~= Seq::<(Seq<char>, bool)>::empty());
                    }
                    out.push(empty);
                    proof {
                        assert(formula_view(out@) =~= formula_view(before).push(Seq::empty()));
                    }
                }
            },
            Some(text) => match parse_clause(text.as_str()) {
                Some(terms) => {
                    if ok {
                        let ghost tv = clause_view(terms);
                        out.push(terms);
                        proof {
                            assert(formula_view(out@) =~= formula_view(before).push(tv));
                        }
                    }
                },
                None => {
                    ok = false;
                },
            },
        }
        k = k + 1;
    }
    proof {
        assert(conditions@.take(conditions@.len() as int) =~= conditions@);
    }
    if ok {
        Some(out)
    } else {
        None
    }
}


// ---------------------------------------------------------------------------
// Truth tables.

/// Bit `i` of a mask.
spec fn mask_bit(mask: u32, i: int) -> bool {
    (mask >> (i as u32)) & 1u32 == 1u32
}

/// The names whose bit is set, name `i` for bit `i`.
spec fn mask_truth(names: Seq<Seq<char>>, mask: u32) -> Set<Seq<char>> {
    Set::new(|n: Seq<char>| exists|i: int| 0 <= i < names.len() && names[i] == n && mask_bit(mask, i))
}

/// The mask whose first `n` bits tell which of the first `n` names are true.
spec fn mask_for(names: Seq<Seq<char>>, truth: Set<Seq<char>>, n: nat) -> u32
    decreases n,
{
    if n == 0 {
        0u32
    } else {
        let m = mask_for(names, truth, (n - 1) as nat);
        if truth.contains(names[n - 1]) {
            m | (1u32 << ((n - 1) as u32))
        } else {
            m
        }
    }
}

proof fn lemma_set_bit(m: u32, j: u32, i: u32)
    by (bit_vector)
    requires
        j < 8,
        m < (1u32 << j),
        i < j,
    ensures
        ((m | (1u32 << j)) >> i) & 1u32 == (m >> i) & 1u32,
{
}

proof fn lemma_top_bit(m: u32, j: u32, k: u32)
    by (bit_vector)
    requires
        j < 8,
        k == j + 1,
        m < (1u32 << j),
    ensures
        ((m | (1u32 << j)) >> j) & 1u32 == 1u32,
        (m >> j) & 1u32 == 0u32,
        (m | (1u32 << j)) < (1u32 << k),
        m < (1u32 << k),
{
}

proof fn lemma_mask_for(names: Seq<Seq<char>>, truth: Set<Seq<char>>, n: nat)
    requires
        n <= 8,
        n <= names.len(),
    ensures
        mask_for(names, truth, n) < (1u32 << (n as u32)),
        forall|i: int| 0 <= i < n ==> mask_bit(mask_for(names, truth, n), i) == truth.contains(names[i]),
    decreases n,
{
    if n == 0 {
        assert((1u32 << 0u32) == 1u32) by (bit_vector);
    } else {
        lemma_mask_for(names, truth, (n - 1) as nat);
        let m = mask_for(names, truth, (n - 1) as nat);
        let j = (n - 1) as u32;
        lemma_top_bit(m, j, n as u32);
        if truth.contains(names[n - 1]) {
            assert(mask_for(names, truth, n) == m | (1u32 << j));
            assert forall|i: int| 0 <= i < n implies mask_bit(mask_for(names, truth, n), i) == truth.contains(
                names[i],
            ) by {
                if i < n - 1 {
                    lemma_set_bit(m, j, i as u32);
                    assert(mask_bit(m, i) == truth.contains(names[i]));
                } else {
                    assert(i as u32 == j);
                }
            }
        } else {
            assert(mask_for(names, truth, n) == m);
            assert forall|i: int| 0 <= i < n implies mask_bit(mask_for(names, truth, n), i) == truth.contains(
                names[i],
            ) by {
                if i < n - 1 {
                    assert(mask_bit(m, i) == truth.contains(names[i]));
                } else {
                    assert(i as u32 == j);
                }
            }
        }
    }
}

proof fn lemma_mask_truth(names: Seq<Seq<char>>, mask: u32, i: int)
    requires
        names.no_duplicates(),
        0 <= i < names.len(),
    ensures
        mask_truth(names, mask).contains(names[i]) == mask_bit(mask, i),
{
    if mask_truth(names, mask).contains(names[i]) {
        let j = choose|j: int| 0 <= j < names.len() && names[j] == names[i] && mask_bit(mask, j);
        assert(j == i);
    }
}

/// Two truth assignments that agree on a formula's names give it the same
/// value.
proof fn lemma_holds_on_names(formula: Seq<Seq<(Seq<char>, bool)>>, a: Set<Seq<char>>, b: Set<Seq<char>>)
    requires
        forall|n: Seq<char>| formula_names(formula).contains(n) ==> (a.contains(n) == b.contains(n)),
    ensures
        formula_holds(formula, a) == formula_holds(formula, b),
{
    assert forall|c: int| 0 <= c < formula.len() implies clause_holds(formula[c], a) == clause_holds(
        formula[c],
        b,
    ) by {
        assert forall|t: int| 0 <= t < formula[c].len() implies a.contains(formula[c][t].0) == b.contains(
            formula[c][t].0,
        ) by {
            assert(formula_names(formula).contains(formula[c][t].0));
        }
    }
    if formula_holds(formula, a) {
        let c = choose|c: int| 0 <= c < formula.len() && clause_holds(formula[c], a);
        assert(clause_holds(formula[c], b));
    }
    if formula_holds(formula, b) {
        let c = choose|c: int| 0 <= c < formula.len() && clause_holds(formula[c], b);
        assert(clause_holds(formula[c], a));
    }
}

fn variable_index(variables: &Vec<String>, name: &String) -> (res: Option<usize>)
    ensures
        match res {
            Some(i) => i < variables@.len() && variables@[i as int]@ == name@,
            None => forall|i: int| 0 <= i < variables@.len() ==> variables@[i]@ != name@,
        },
{
    let mut k: usize = 0;
    while k < variables.len()
        invariant
            k <= variables@.len(),
            forall|i: int| 0 <= i < k ==> variables@[i]@ != name@,
        decreases variables.len() - k,
    {
        if variables[k] == *name {
            return Some(k);
        }
        k = k + 1;
    }
    None
}

/// Adds the names of a formula not yet listed, in order of appearance.
fn collect_names(formula: &Vec<Vec<(String, bool)>>, variables: &mut Vec<String>)
    requires
        names_view(old(variables)@).no_duplicates(),
    ensures
        names_view(final(variables)@).no_duplicates(),
        names_view(final(variables)@).to_set() == names_view(old(variables)@).to_set().union(
            formula_names(formula_view(formula@)),
        ),
{
    let ghost fv = formula_view(formula@);
    let ghost v0 = names_view(variables@);
    let mut c: usize = 0;
    while c < formula.len()
        invariant
            c <= formula@.len(),
            fv == formula_view(formula@),
            names_view(variables@).no_duplicates(),
            forall|n: Seq<char>| #[trigger] names_view(variables@).contains(n) ==> v0.contains(n) || formula_names(fv).contains(n),
            forall|n: Seq<char>| v0.contains(n) ==> #[trigger] names_view(variables@).contains(n),
            forall|x: int, t: int|
                0 <= x < c && 0 <= t < fv[x].len() ==> names_view(variables@).contains(#[trigger] fv[x][t].0),
        decreases formula.len() - c,
    {
        let mut t: usize = 0;
        while t < formula[c].len()
            invariant
                c < formula@.len(),
                t <= formula@[c as int]@.len(),
                fv == formula_view(formula@),
                names_view(variables@).no_duplicates(),
                forall|n: Seq<char>| #[trigger] names_view(variables@).contains(n) ==> v0.contains(n) || formula_names(fv).contains(n),
                forall|n: Seq<char>| v0.contains(n) ==> #[trigger] names_view(variables@).contains(n),
                forall|x: int, u: int|
                    0 <= x < c && 0 <= u < fv[x].len() ==> names_view(variables@).contains(#[trigger] fv[x][u].0),
                forall|u: int| 0 <= u < t ==> names_view(variables@).contains(#[trigger] fv[c as int][u].0),
            decreases formula@[c as int]@.len() - t,
        {
            let ghost name = fv[c as int][t as int].0;
            assert(formula@[c as int]@[t as int].0@ == name);
            assert(formula_names(fv).contains(name));
            let found = variable_index(variables, &formula[c][t].0);
            if found.is_some() {
                proof {
                    let i = found.unwrap();
                    assert(names_view(variables@)[i as int] == name);
                }
            } else {
                let ghost before = names_view(variables@);
                assert(!before.contains(name));
                variables.push(formula[c][t].0.clone());
                proof {
                    assert(names_view(variables@) =~= before.push(name));
                    assert forall|n: Seq<char>| #[trigger] names_view(variables@).contains(n) implies v0.contains(n)
                        || formula_names(fv).contains(n) by {
                        if n != name {
                            let i = choose|i: int| 0 <= i < names_view(variables@).len() && names_view(variables@)[i] == n;
                            assert(before[i] == n);
                            assert(before.contains(n));
                        }
                    }
                    assert forall|n: Seq<char>| before.contains(n) implies #[trigger] names_view(variables@).contains(n) by {
                        let i = choose|i: int| 0 <= i < before.len() && before[i] == n;
                        assert(names_view(variables@)[i] == n);
                    }
                    assert(names_view(variables@)[before.len() as int] == name);
                }
            }
            proof {
                assert(names_view(variables@).contains(name));
            }
            t = t + 1;
        }
        c = c + 1;
    }
    proof {
        let vs = names_view(variables@);
        assert forall|n: Seq<char>| vs.to_set().contains(n) == v0.to_set().union(formula_names(fv)).contains(n) by {
            if formula_names(fv).contains(n) {
                let (x, t) = choose|x: int, t: int| 0 <= x < fv.len() && 0 <= t < fv[x].len() && #[trigger] fv[x][t].0 == n;
                assert(vs.contains(fv[x][t].0));
            }
        }
        assert(vs.to_set() =~= v0.to_set().union(formula_names(fv)));
    }
}

/// The value of a disjunction of conjunctions under an assignment of the
/// variables, bit `i` of `mask` for variable `i`.
fn evaluate(formula: &Vec<Vec<(String, bool)>>, variables: &Vec<String>, mask: u32) -> (res: bool)
    requires
        variables@.len() <= 8,
        names_view(variables@).no_duplicates(),
        formula_names(formula_view(formula@)).subset_of(names_view(variables@).to_set()),
    ensures
        res == formula_holds(formula_view(formula@), mask_truth(names_view(variables@), mask)),
{
    let ghost fv = formula_view(formula@);
    let ghost vs = names_view(variables@);
    let ghost truth = mask_truth(vs, mask);
    let mut c: usize = 0;
    while c < formula.len()
        invariant
            c <= formula@.len(),
            variables@.len() <= 8,
            fv == formula_view(formula@),
            vs == names_view(variables@),
            truth == mask_truth(vs, mask),
            vs.no_duplicates(),
            formula_names(fv).subset_of(vs.to_set()),
            forall|x: int| 0 <= x < c ==> !clause_holds(#[trigger] fv[x], truth),
        decreases formula.len() - c,
    {
        let clause = &formula[c];
        let mut all = true;
        let mut t: usize = 0;
        while t < clause.len()
            invariant
                c < formula@.len(),
                clause == formula@[c as int],
                t <= clause@.len(),
                variables@.len() <= 8,
                fv == formula_view(formula@),
                vs == names_view(variables@),
                truth == mask_truth(vs, mask),
                vs.no_duplicates(),
                formula_names(fv).subset_of(vs.to_set()),
                all == (forall|u: int| 0 <= u < t ==> truth.contains(#[trigger] fv[c as int][u].0) == fv[c as int][u].1),
            decreases clause.len() - t,
        {
            let ghost name = fv[c as int][t as int].0;
            assert(clause@[t as int].0@ == name);
            assert(formula_names(fv).contains(name));
            let value = match variable_index(variables, &clause[t].0) {
                Some(i) => {
                    let bit: u32 = (mask >> (i as u32)) & 1;
                    proof {
                        assert(vs[i as int] == name);
                        lemma_mask_truth(vs, mask, i as int);
                    }
                    bit == 1
                },
                None => {
                    proof {
                        assert(vs.to_set().contains(name));
                        let i = choose|i: int| 0 <= i < vs.len() && vs[i] == name;
                        assert(variables@[i]@ == name);
                    }
                    false
                },
            };
            proof {
                assert(value == truth.contains(name));
            }
            if value != clause[t].1 {
                all = false;
            }
            t = t + 1;
        }
        if all {
            proof {
                assert(clause_holds(fv[c as int], truth));
            }
            return true;
        }
        c = c + 1;
    }
    false
}

/// Compares two sets of path conditions over at most eight Boolean names
/// by truth table; anything else is unknown.
pub fn compare_boolean_conditions(before: &Vec<Option<String>>, after: &Vec<Option<String>>) -> (res:
    ConditionComparison)
    ensures
        match (formula_reading(before@), formula_reading(after@)) {
            (Some(old), Some(new)) => if formula_names(old).union(formula_names(new)).len() > 8 {
                res == ConditionComparison::Unknown
            } else {
                &&& res != ConditionComparison::Unknown
                &&& (res == ConditionComparison::Equivalent) == (forall|truth: Set<Seq<char>>|
                    formula_holds(old, truth) == #[trigger] formula_holds(new, truth))
            },
            _ => res == ConditionComparison::Unknown,
        },
{
    let old = match clauses(before) {
        Some(c) => c,
        None => {
            return ConditionComparison::Unknown;
        },
    };
    let new = match clauses(after) {
        Some(c) => c,
        None => {
            return ConditionComparison::Unknown;
        },
    };
    let ghost ov = formula_view(old@);
    let ghost nv = formula_view(new@);
    let mut variables: Vec<String> = Vec::new();
    proof {
        assert(names_view(variables@) =~= Seq::<Seq<char>>::empty());
        assert(names_view(variables@).to_set() =~= Set::<Seq<char>>::empty());
    }
    collect_names(&old, &mut variables);
    collect_names(&new, &mut variables);
    let ghost vs = names_view(variables@);
    proof {
        assert(vs.to_set() =~= formula_names(ov).union(formula_names(nv)));
        vs.unique_seq_to_set();
    }
    if variables.len() > 8 {
        return ConditionComparison::Unknown;
    }
    let n = variables.len();
    let count: u32 = 1u32 << (n as u32);
    let mut mask: u32 = 0;
    while mask < count
        invariant
            n == variables@.len(),
            n <= 8,
            count == 1u32 << (n as u32),
            vs == names_view(variables@),
            vs.no_duplicates(),
            vs.to_set() == formula_names(ov).union(formula_names(nv)),
            ov == formula_view(old@),
            nv == formula_view(new@),
            formula_reading(before@) == Some(ov),
            formula_reading(after@) == Some(nv),
            formula_names(ov).union(formula_names(nv)).len() == n,
            forall|m: u32| m < mask ==> formula_holds(ov, #[trigger] mask_truth(vs, m)) == formula_holds(nv, mask_truth(vs, m)),
        decreases count - mask,
    {
        if evaluate(&old, &variables, mask) != evaluate(&new, &variables, mask) {
            proof {
                let t = mask_truth(vs, mask);
                assert(formula_holds(ov, t) != formula_holds(nv, t));
            }
            return ConditionComparison::Different;
        }
        mask = mask + 1;
    }
    proof {
        assert forall|truth: Set<Seq<char>>| formula_holds(ov, truth) == #[trigger] formula_holds(nv, truth) by {
            lemma_mask_for(vs, truth, n as nat);
            let m = mask_for(vs, truth, n as nat);
            let mt = mask_truth(vs, m);
            assert(formula_holds(ov, mt) == formula_holds(nv, mt));
            assert forall|x: Seq<char>| vs.to_set().contains(x) implies (truth.contains(x) == mt.contains(x)) by {
                let i = choose|i: int| 0 <= i < vs.len() && vs[i] == x;
                lemma_mask_truth(vs, m, i);
            }
            lemma_holds_on_names(ov, truth, mt);
            lemma_holds_on_names(nv, truth, mt);
        }
    }
    ConditionComparison::Equivalent
}

// ---------------------------------------------------------------------------
// Relations.

/// The logical operation of each node aligned on one side.
/// The node of one side of an alignment entry.
pub open spec fn side_node(a: Alignment, side: SnapshotSide) -> Option<NodeId> {
    match side {
        SnapshotSide::Before => a.before,
        SnapshotSide::After => a.after,
    }
}

/// The aligned nodes of one side with their logical identifiers, in order.
pub open spec fn side_pairs(nodes: Seq<Alignment>, side: SnapshotSide) -> Seq<(NodeId, LogicalNodeId)>
    decreases nodes.len(),
{
    if nodes.len() == 0 {
        Seq::empty()
    } else {
        let rest = side_pairs(nodes.drop_last(), side);
        match side_node(nodes.last(), side) {
            Some(n) => rest.push((n, nodes.last().logical)),
            None => rest,
        }
    }
}

/// The aligned nodes of one side, each with its logical identifier, in
/// alignment order.
pub fn node_ids(alignment: &AlignmentResult, side: SnapshotSide) -> (res: Vec<(NodeId, LogicalNodeId)>)
    ensures
        res@ == side_pairs(alignment.nodes@, side),
{
    let mut out: Vec<(NodeId, LogicalNodeId)> = Vec::new();
    let mut k: usize = 0;
    while k < alignment.nodes.len()
        invariant
            k <= alignment.nodes@.len(),
            out@ == side_pairs(alignment.nodes@.take(k as int), side),
        decreases alignment.nodes.len() - k,
    {
        proof {
            assert(alignment.nodes@.take(k + 1).drop_last() =~= alignment.nodes@.take(k as int));
            assert(alignment.nodes@.take(k + 1).last() == alignment.nodes@[k as int]);
        }
        let candidate = match side {
            SnapshotSide::Before => &alignment.nodes[k].before,
            SnapshotSide::After => &alignment.nodes[k].after,
        };
        if let Some(c) = candidate {
            out.push((c.clone(), alignment.nodes[k].logical));
        }
        k = k + 1;
    }
    proof {
        assert(alignment.nodes@.take(k as int) =~= alignment.nodes@);
    }
    out
}

/// The logical operation of the last pair for a node, if any.
pub open spec fn last_logical(ids: Seq<(NodeId, LogicalNodeId)>, id: NodeId) -> Option<LogicalNodeId>
    decreases ids.len(),
{
    if ids.len() == 0 {
        None
    } else if ids.last().0@ == id@ {
        Some(ids.last().1)
    } else {
        last_logical(ids.drop_last(), id)
    }
}

fn logical_of(ids: &Vec<(NodeId, LogicalNodeId)>, id: &NodeId) -> (res: Option<LogicalNodeId>)
    ensures
        res == last_logical(ids@, *id),
{
    let mut found: Option<LogicalNodeId> = None;
    let mut k: usize = 0;
    while k < ids.len()
        invariant
            k <= ids@.len(),
            found == last_logical(ids@.take(k as int), *id),
        decreases ids.len() - k,
    {
        proof {
            assert(ids@.take(k + 1).drop_last() =~= ids@.take(k as int));
        }
        if ids[k].0.same(id) {
            found = Some(ids[k].1);
        }
        k = k + 1;
    }
    proof {
        assert(ids@.take(k as int) =~= ids@);
    }
    found
}

/// The identity of an edge through the logical operations of its ends.
pub fn relation_key(edge: &FlowEdge, ids: &Vec<(NodeId, LogicalNodeId)>) -> (res: Result<
    RelationIdentity,
    ComparisonError,
>)
    ensures
        match (last_logical(ids@, edge.source), last_logical(ids@, edge.target)) {
            (Some(source), Some(target)) => res == Ok::<RelationIdentity, ComparisonError>(
                RelationIdentity { source, target, kind: edge.relation, projection: edge.projection },
            ),
            (None, _) => res == Err::<RelationIdentity, ComparisonError>(
                ComparisonError::MissingAlignment(edge.source),
            ),
            (Some(_), None) => res == Err::<RelationIdentity, ComparisonError>(
                ComparisonError::MissingAlignment(edge.target),
            ),
        },
{
    let source = match logical_of(ids, &edge.source) {
        Some(l) => l,
        None => {
            return Err(ComparisonError::MissingAlignment(edge.source.clone()));
        },
    };
    let target = match logical_of(ids, &edge.target) {
        Some(l) => l,
        None => {
            return Err(ComparisonError::MissingAlignment(edge.target.clone()));
        },
    };
    Ok(
        RelationIdentity {
            source,
            target,
            kind: edge.relation,
            projection: clone_option_text(&edge.projection),
        },
    )
}

fn is_ambiguous(entities: &Vec<AlignmentEntity>, id: &NodeId) -> (res: bool)
    ensures
        res == (exists|i: int| 0 <= i < entities@.len() && (#[trigger] entities@[i] matches AlignmentEntity::Node(
            n,
        ) && n@ == id@)),
{
    let mut k: usize = 0;
    while k < entities.len()
        invariant
            k <= entities@.len(),
            forall|i: int| 0 <= i < k ==> !(#[trigger] entities@[i] matches AlignmentEntity::Node(n) && n@ == id@),
        decreases entities.len() - k,
    {
        if let AlignmentEntity::Node(n) = &entities[k] {
            if n.same(id) {
                return true;
            }
        }
        k = k + 1;
    }
    false
}

fn relation_slot(relations: &Vec<(RelationIdentity, RelationEvidence)>, key: &RelationIdentity) -> (res:
    Option<usize>)
    ensures
        res matches Some(i) ==> i < relations@.len() && relation_same(relations@[i as int].0, *key),
        res is None ==> forall|j: int| 0 <= j < relations@.len() ==> !relation_same(#[trigger] relations@[j].0, *key),
{
    let mut k: usize = 0;
    while k < relations.len()
        invariant
            k <= relations@.len(),
            forall|j: int| 0 <= j < k ==> !relation_same(#[trigger] relations@[j].0, *key),
        decreases relations.len() - k,
    {
        if relation_equal(&relations[k].0, key) {
            return Some(k);
        }
        k = k + 1;
    }
    None
}

/// An operation that an ambiguity makes ambiguous.
pub open spec fn node_ambiguous(ambiguous: Seq<AlignmentEntity>, id: NodeId) -> bool {
    exists|i: int| 0 <= i < ambiguous.len() && (#[trigger] ambiguous[i] matches AlignmentEntity::Node(n) && n@ == id@)
}

/// An edge at an ambiguous operation, or one whose ends are both aligned.
pub open spec fn edge_aligned(edge: FlowEdge, ids: Seq<(NodeId, LogicalNodeId)>, ambiguous: Seq<AlignmentEntity>) -> bool {
    node_ambiguous(ambiguous, edge.source) || node_ambiguous(ambiguous, edge.target) || (last_logical(ids, edge.source) is Some
        && last_logical(ids, edge.target) is Some)
}

/// Every edge of the graph is at an ambiguous operation or has both ends
/// aligned.
pub open spec fn edges_aligned(edges: Seq<FlowEdge>, ids: Seq<(NodeId, LogicalNodeId)>, ambiguous: Seq<AlignmentEntity>) -> bool {
    forall|j: int| 0 <= j < edges.len() ==> edge_aligned(#[trigger] edges[j], ids, ambiguous)
}

/// The relations of a graph by identity, with their conditions and the
/// best evidence among their edges; edges at ambiguous operations are left
/// out.
/// The relation an edge stands for, when both its ends are aligned.
pub open spec fn edge_relation(edge: FlowEdge, ids: Seq<(NodeId, LogicalNodeId)>) -> Option<RelationIdentity> {
    match (last_logical(ids, edge.source), last_logical(ids, edge.target)) {
        (Some(source), Some(target)) => Some(
            RelationIdentity { source, target, kind: edge.relation, projection: edge.projection },
        ),
        _ => None,
    }
}

/// The edge counts for the relation: neither end is ambiguous and it stands
/// for that relation.
pub open spec fn edge_counts(
    edge: FlowEdge,
    ids: Seq<(NodeId, LogicalNodeId)>,
    ambiguous: Seq<AlignmentEntity>,
    key: RelationIdentity,
) -> bool {
    &&& !node_ambiguous(ambiguous, edge.source)
    &&& !node_ambiguous(ambiguous, edge.target)
    &&& edge_relation(edge, ids) matches Some(r) && relation_same(r, key)
}

/// What a graph shows of a relation: present when a counted edge has
/// resolved evidence, unknown when every counted edge is unresolved, and
/// nothing without a counted edge.
pub open spec fn graph_presence(
    edges: Seq<FlowEdge>,
    ids: Seq<(NodeId, LogicalNodeId)>,
    ambiguous: Seq<AlignmentEntity>,
    key: RelationIdentity,
) -> Option<RelationPresence> {
    if exists|e: int|
        0 <= e < edges.len() && edge_counts(#[trigger] edges[e], ids, ambiguous, key) && !(edges[e].evidence is Unresolved) {
        Some(RelationPresence::Present)
    } else if exists|e: int| 0 <= e < edges.len() && edge_counts(#[trigger] edges[e], ids, ambiguous, key) {
        Some(RelationPresence::Unknown)
    } else {
        None
    }
}

/// What a relation list shows of a relation, in the same terms.
spec fn list_presence(list: Seq<(RelationIdentity, RelationEvidence)>, key: RelationIdentity) -> Option<
    RelationPresence,
> {
    if exists|i: int|
        0 <= i < list.len() && relation_same(#[trigger] list[i].0, key) && !(list[i].1.evidence is Unresolved) {
        Some(RelationPresence::Present)
    } else if exists|i: int| 0 <= i < list.len() && relation_same(#[trigger] list[i].0, key) {
        Some(RelationPresence::Unknown)
    } else {
        None
    }
}

/// No relation occurs twice in the list.
spec fn keys_unique(list: Seq<(RelationIdentity, RelationEvidence)>) -> bool {
    forall|i: int, j: int| 0 <= i < j < list.len() ==> !relation_same(#[trigger] list[i].0, #[trigger] list[j].0)
}

proof fn lemma_graph_presence_step(
    edges: Seq<FlowEdge>,
    ids: Seq<(NodeId, LogicalNodeId)>,
    ambiguous: Seq<AlignmentEntity>,
    key: RelationIdentity,
    k: int,
)
    requires
        0 <= k < edges.len(),
    ensures
        graph_presence(edges.take(k + 1), ids, ambiguous, key) == if edge_counts(edges[k], ids, ambiguous, key) {
            if !(edges[k].evidence is Unresolved) || graph_presence(edges.take(k), ids, ambiguous, key) == Some(
                RelationPresence::Present,
            ) {
                Some(RelationPresence::Present)
            } else {
                Some(RelationPresence::Unknown)
            }
        } else {
            graph_presence(edges.take(k), ids, ambiguous, key)
        },
{
    let a = edges.take(k);
    let b = edges.take(k + 1);
    assert forall|e: int| 0 <= e < k implies #[trigger] b[e] == a[e] by {}
    assert(b[k] == edges[k]);
    if exists|e: int| 0 <= e < a.len() && edge_counts(#[trigger] a[e], ids, ambiguous, key) && !(a[e].evidence is Unresolved) {
        let e = choose|e: int| 0 <= e < a.len() && edge_counts(#[trigger] a[e], ids, ambiguous, key) && !(a[e].evidence is Unresolved);
        assert(b[e] == a[e]);
    }
    if exists|e: int| 0 <= e < a.len() && edge_counts(#[trigger] a[e], ids, ambiguous, key) {
        let e = choose|e: int| 0 <= e < a.len() && edge_counts(#[trigger] a[e], ids, ambiguous, key);
        assert(b[e] == a[e]);
    }
    if exists|e: int| 0 <= e < b.len() && edge_counts(#[trigger] b[e], ids, ambiguous, key) {
        let e = choose|e: int| 0 <= e < b.len() && edge_counts(#[trigger] b[e], ids, ambiguous, key);
        if e < k {
            assert(a[e] == b[e]);
        }
    }
    if exists|e: int| 0 <= e < b.len() && edge_counts(#[trigger] b[e], ids, ambiguous, key) && !(b[e].evidence is Unresolved) {
        let e = choose|e: int| 0 <= e < b.len() && edge_counts(#[trigger] b[e], ids, ambiguous, key) && !(b[e].evidence is Unresolved);
        if e < k {
            assert(a[e] == b[e]);
        }
    }
}

fn relations(graph: &FlowGraph, ids: &Vec<(NodeId, LogicalNodeId)>, ambiguous: &Vec<
    AlignmentEntity,
>) -> (res: Result<Vec<(RelationIdentity, RelationEvidence)>, ComparisonError>)
    ensures
        res matches Err(e) ==> e is MissingAlignment,
        res is Ok <==> edges_aligned(graph.edges@, ids@, ambiguous@),
        res matches Ok(list) ==> keys_unique(list@),
        res matches Ok(list) ==> forall|key: RelationIdentity|
            #[trigger] list_presence(list@, key) == graph_presence(graph.edges@, ids@, ambiguous@, key),
{
    let mut result: Vec<(RelationIdentity, RelationEvidence)> = Vec::new();
    let mut k: usize = 0;
    proof {
        assert forall|key: RelationIdentity| #[trigger] list_presence(result@, key) == graph_presence(
            graph.edges@.take(0),
            ids@,
            ambiguous@,
            key,
        ) by {}
    }
    while k < graph.edges.len()
        invariant
            k <= graph.edges@.len(),
            forall|j: int| 0 <= j < k ==> edge_aligned(#[trigger] graph.edges@[j], ids@, ambiguous@),
            keys_unique(result@),
            forall|key: RelationIdentity|
                #[trigger] list_presence(result@, key) == graph_presence(graph.edges@.take(k as int), ids@, ambiguous@, key),
        decreases graph.edges.len() - k,
    {
        let edge = &graph.edges[k];
        let ghost cur = k as int;
        let ghost before = result@;
        k = k + 1;
        if is_ambiguous(ambiguous, &edge.source) || is_ambiguous(ambiguous, &edge.target) {
            proof {
                assert forall|key: RelationIdentity| #[trigger] list_presence(result@, key) == graph_presence(
                    graph.edges@.take(k as int),
                    ids@,
                    ambiguous@,
                    key,
                ) by {
                    lemma_graph_presence_step(graph.edges@, ids@, ambiguous@, key, cur);
                }
            }
            continue;
        }
        let key = match relation_key(edge, ids) {
            Ok(key) => key,
            Err(e) => {
                proof {
                    assert(!edge_aligned(graph.edges@[k - 1], ids@, ambiguous@));
                }
                return Err(e);
            },
        };
        proof {
            assert(edge_relation(*edge, ids@) == Some(key));
        }
        match relation_slot(&result, &key) {
            Some(slot) => {
                let (existing_key, mut existing) = result.remove(slot);
                let ghost old_evidence = existing.evidence;
                insert_condition(&mut existing.conditions, &edge.condition);
                let existing_unresolved = match existing.evidence {
                    EvidenceKind::Unresolved { .. } => true,
                    _ => false,
                };
                let edge_unresolved = match edge.evidence {
                    EvidenceKind::Unresolved { .. } => true,
                    _ => false,
                };
                if existing_unresolved && !edge_unresolved {
                    existing.evidence = clone_evidence(&edge.evidence);
                }
                let ghost entry = (existing_key, existing);
                result.insert(slot, (existing_key, existing));
                proof {
                    assert(result@ =~= before.update(slot as int, entry));
                    assert(before[slot as int].0 == existing_key);
                    assert(before[slot as int].1.evidence == old_evidence);
                    assert forall|i: int, j: int| 0 <= i < j < result@.len() implies !relation_same(
                        #[trigger] result@[i].0,
                        #[trigger] result@[j].0,
                    ) by {
                        assert(result@[i].0 == before[i].0);
                        assert(result@[j].0 == before[j].0);
                    }
                    assert forall|q: RelationIdentity| #[trigger] list_presence(result@, q) == graph_presence(
                        graph.edges@.take(k as int),
                        ids@,
                        ambiguous@,
                        q,
                    ) by {
                        lemma_graph_presence_step(graph.edges@, ids@, ambiguous@, q, cur);
                        assert(graph.edges@[cur] == *edge);
                        if relation_same(key, q) {
                            assert(edge_counts(graph.edges@[cur], ids@, ambiguous@, q));
                            assert(relation_same(result@[slot as int].0, q));
                            assert forall|i: int| 0 <= i < result@.len() && i != slot implies !relation_same(
                                #[trigger] result@[i].0,
                                q,
                            ) by {
                                assert(result@[i].0 == before[i].0);
                                if i < slot {
                                    assert(!relation_same(before[i].0, before[slot as int].0));
                                } else {
                                    assert(!relation_same(before[slot as int].0, before[i].0));
                                }
                            }
                            assert forall|i: int| 0 <= i < before.len() && i != slot implies !relation_same(
                                #[trigger] before[i].0,
                                q,
                            ) by {
                                if i < slot {
                                    assert(!relation_same(before[i].0, before[slot as int].0));
                                } else {
                                    assert(!relation_same(before[slot as int].0, before[i].0));
                                }
                            }
                            assert(relation_same(before[slot as int].0, q));
                            assert(list_presence(before, q) == if !(old_evidence is Unresolved) {
                                Some(RelationPresence::Present)
                            } else {
                                Some(RelationPresence::Unknown)
                            });
                            assert(result@[slot as int] == entry);
                            assert((entry.1.evidence is Unresolved) == ((old_evidence is Unresolved) && (
                            edge.evidence is Unresolved)));
                            assert(list_presence(result@, q) == if !(entry.1.evidence is Unresolved) {
                                Some(RelationPresence::Present)
                            } else {
                                Some(RelationPresence::Unknown)
                            });
                        } else {
                            assert(!edge_counts(graph.edges@[cur], ids@, ambiguous@, q));
                            assert(!relation_same(result@[slot as int].0, q));
                            assert forall|i: int| 0 <= i < result@.len() && i != slot implies #[trigger] result@[i]
                                == before[i] by {}
                            if exists|i: int| 0 <= i < before.len() && relation_same(#[trigger] before[i].0, q) {
                                let i = choose|i: int| 0 <= i < before.len() && relation_same(#[trigger] before[i].0, q);
                                assert(result@[i] == before[i]);
                            }
                            if exists|i: int| 0 <= i < before.len() && relation_same(#[trigger] before[i].0, q) && !(before[i].1.evidence is Unresolved) {
                                let i = choose|i: int| 0 <= i < before.len() && relation_same(#[trigger] before[i].0, q) && !(before[i].1.evidence is Unresolved);
                                assert(result@[i] == before[i]);
                            }
                        }
                    }
                }
            },
            None => {
                let mut conditions: Vec<Option<String>> = Vec::new();
                conditions.push(clone_option_text(&edge.condition));
                result.push(
                    (key, RelationEvidence { conditions, evidence: clone_evidence(&edge.evidence) }),
                );
                proof {
                    let last = before.len() as int;
                    assert(result@ =~= before.push(result@[last]));
                    assert forall|i: int, j: int| 0 <= i < j < result@.len() implies !relation_same(
                        #[trigger] result@[i].0,
                        #[trigger] result@[j].0,
                    ) by {
                        if j == last {
                            assert(!relation_same(before[i].0, key));
                        }
                    }
                    assert forall|q: RelationIdentity| #[trigger] list_presence(result@, q) == graph_presence(
                        graph.edges@.take(k as int),
                        ids@,
                        ambiguous@,
                        q,
                    ) by {
                        lemma_graph_presence_step(graph.edges@, ids@, ambiguous@, q, cur);
                        assert(graph.edges@[cur] == *edge);
                        if relation_same(key, q) {
                            assert(edge_counts(graph.edges@[cur], ids@, ambiguous@, q));
                            assert(relation_same(result@[last].0, q));
                            assert forall|i: int| 0 <= i < before.len() implies !relation_same(#[trigger] before[i].0, q) by {
                                assert(!relation_same(before[i].0, key));
                            }
                            assert(list_presence(before, q) is None);
                            assert forall|i: int| 0 <= i < last implies !relation_same(#[trigger] result@[i].0, q) by {
                                assert(result@[i] == before[i]);
                            }
                        } else {
                            assert(!edge_counts(graph.edges@[cur], ids@, ambiguous@, q));
                            assert(!relation_same(result@[last].0, q));
                            if exists|i: int| 0 <= i < before.len() && relation_same(#[trigger] before[i].0, q) {
                                let i = choose|i: int| 0 <= i < before.len() && relation_same(#[trigger] before[i].0, q);
                                assert(result@[i] == before[i]);
                            }
                            if exists|i: int| 0 <= i < before.len() && relation_same(#[trigger] before[i].0, q) && !(before[i].1.evidence is Unresolved) {
                                let i = choose|i: int| 0 <= i < before.len() && relation_same(#[trigger] before[i].0, q) && !(before[i].1.evidence is Unresolved);
                                assert(result@[i] == before[i]);
                            }
                            assert forall|i: int| 0 <= i < last implies #[trigger] result@[i] == before[i] by {}
                        }
                    }
                }
            },
        }
    }
    proof {
        assert(graph.edges@.take(k as int) =~= graph.edges@);
    }
    Ok(result)
}

fn relation_at<'b>(relations: &'b Vec<(RelationIdentity, RelationEvidence)>, key: &RelationIdentity) -> (res: Option<
    &'b RelationEvidence,
>)
    ensures
        keys_unique(relations@) ==> observed_presence(
            match res {
                Some(r) => Some(r.evidence),
                None => None,
            },
        ) == list_presence(relations@, *key),
{
    match relation_slot(relations, key) {
        Some(i) => {
            proof {
                if keys_unique(relations@) {
                    assert forall|j: int| 0 <= j < relations@.len() && j != i implies !relation_same(
                        #[trigger] relations@[j].0,
                        *key,
                    ) by {
                        if j < i {
                            assert(!relation_same(relations@[j].0, relations@[i as int].0));
                        } else {
                            assert(!relation_same(relations@[i as int].0, relations@[j].0));
                        }
                    }
                }
            }
            Some(&relations[i].1)
        },
        None => None,
    }
}

/// The verdict of the last proof given for a relation, if any.
pub open spec fn last_proof_presence(proofs: Seq<(RelationIdentity, RelationPresence)>, key: RelationIdentity) -> Option<RelationPresence>
    decreases proofs.len(),
{
    if proofs.len() == 0 {
        None
    } else if relation_same(proofs.last().0, key) {
        Some(proofs.last().1)
    } else {
        last_proof_presence(proofs.drop_last(), key)
    }
}

fn presence_proof(proofs: &Vec<(RelationIdentity, RelationPresence)>, key: &RelationIdentity) -> (res: Option<
    RelationPresence,
>)
    ensures
        res == last_proof_presence(proofs@, *key),
{
    let mut found: Option<RelationPresence> = None;
    let mut k: usize = 0;
    while k < proofs.len()
        invariant
            k <= proofs@.len(),
            found == last_proof_presence(proofs@.take(k as int), *key),
        decreases proofs.len() - k,
    {
        proof {
            assert(proofs@.take(k + 1).drop_last() =~= proofs@.take(k as int));
        }
        if relation_equal(&proofs[k].0, key) {
            found = Some(proofs[k].1);
        }
        k = k + 1;
    }
    proof {
        assert(proofs@.take(k as int) =~= proofs@);
    }
    found
}

/// The verdict of the last proof given for a relation, if any.
pub open spec fn last_proof_condition(proofs: Seq<(RelationIdentity, ConditionComparison)>, key: RelationIdentity) -> Option<ConditionComparison>
    decreases proofs.len(),
{
    if proofs.len() == 0 {
        None
    } else if relation_same(proofs.last().0, key) {
        Some(proofs.last().1)
    } else {
        last_proof_condition(proofs.drop_last(), key)
    }
}

fn condition_proof(proofs: &Vec<(RelationIdentity, ConditionComparison)>, key: &RelationIdentity) -> (res: Option<
    ConditionComparison,
>)
    ensures
        res == last_proof_condition(proofs@, *key),
{
    let mut found: Option<ConditionComparison> = None;
    let mut k: usize = 0;
    while k < proofs.len()
        invariant
            k <= proofs@.len(),
            found == last_proof_condition(proofs@.take(k as int), *key),
        decreases proofs.len() - k,
    {
        proof {
            assert(proofs@.take(k + 1).drop_last() =~= proofs@.take(k as int));
        }
        if relation_equal(&proofs[k].0, key) {
            found = Some(proofs[k].1);
        }
        k = k + 1;
    }
    proof {
        assert(proofs@.take(k as int) =~= proofs@);
    }
    found
}

pub open spec fn value_relation_spec(kind: RelationKind) -> bool {
    kind == RelationKind::Reaches || kind == RelationKind::ValueDependency || kind
        == RelationKind::Argument || kind == RelationKind::Return
}

fn value_relation(kind: RelationKind) -> (res: bool)
    ensures
        res == value_relation_spec(kind),
{
    kind == RelationKind::Reaches || kind == RelationKind::ValueDependency || kind
        == RelationKind::Argument || kind == RelationKind::Return
}

/// Whether `target` is reached from `start` along value relations (or is
/// `start`).
fn reaches(start: LogicalNodeId, target: LogicalNodeId, relations: &Vec<
    (RelationIdentity, RelationEvidence),
>) -> bool {
    let mut reached: Vec<LogicalNodeId> = Vec::new();
    reached.push(start);
    let n = relations.len();
    let mut round: usize = 0;
    let mut changed = true;
    while changed && round <= n
        invariant
            n == relations@.len(),
        decreases n + 1 - round,
    {
        changed = false;
        let mut k: usize = 0;
        while k < relations.len()
            invariant
                k <= relations@.len(),
            decreases relations.len() - k,
        {
            let key = &relations[k].0;
            if value_relation(key.kind) && contains_logical(&reached, key.source)
                && !contains_logical(&reached, key.target) {
                reached.push(key.target);
                changed = true;
            }
            k = k + 1;
        }
        if round == n {
            break;
        }
        round = round + 1;
    }
    contains_logical(&reached, target)
}


// ---------------------------------------------------------------------------
// Records.

/// The diagnostic of an undecided delta.
pub open spec fn unknown_code(d: FlowDelta) -> Option<DiagnosticCode> {
    match d {
        FlowDelta::AnalysisUnknown { diagnostic, .. } => Some(diagnostic),
        _ => None,
    }
}

fn logical_vec_clone(v: &Vec<LogicalNodeId>) -> (res: Vec<LogicalNodeId>)
    ensures
        res@ == v@,
{
    let mut out: Vec<LogicalNodeId> = Vec::new();
    let mut k: usize = 0;
    while k < v.len()
        invariant
            k <= v@.len(),
            out@ == v@.take(k as int),
        decreases v.len() - k,
    {
        proof {
            assert(v@.take(k + 1) =~= v@.take(k as int).push(v@[k as int]));
        }
        out.push(v[k]);
        k = k + 1;
    }
    proof {
        assert(v@.take(k as int) =~= v@);
    }
    out
}

/// Two deltas that one record stands for: the same variant, the same
/// diagnostic, and for node and membership changes the same node.
pub open spec fn delta_agrees(a: FlowDelta, b: FlowDelta) -> bool {
    &&& unknown_code(a) == unknown_code(b)
    &&& match (a, b) {
        (FlowDelta::NodeAdded { after: x }, FlowDelta::NodeAdded { after: y }) => x@ == y@,
        (FlowDelta::NodeAdded { .. }, _) => false,
        (FlowDelta::NodeRemoved { before: x }, FlowDelta::NodeRemoved { before: y }) => x@ == y@,
        (FlowDelta::NodeRemoved { .. }, _) => false,
        (
            FlowDelta::SliceMembershipChanged { logical: l1, change: c1 },
            FlowDelta::SliceMembershipChanged { logical: l2, change: c2 },
        ) => l1 == l2 && c1 == c2,
        (FlowDelta::SliceMembershipChanged { .. }, _) => false,
        (
            FlowDelta::FlowAdded { source: s1, target: t1, relation: r1, projection: p1 },
            FlowDelta::FlowAdded { source: s2, target: t2, relation: r2, projection: p2 },
        ) => s1 == s2 && t1 == t2 && r1 == r2 && option_text_view(p1) == option_text_view(p2),
        (FlowDelta::FlowAdded { .. }, _) => false,
        (
            FlowDelta::FlowRemoved { source: s1, target: t1, relation: r1, projection: p1 },
            FlowDelta::FlowRemoved { source: s2, target: t2, relation: r2, projection: p2 },
        ) => s1 == s2 && t1 == t2 && r1 == r2 && option_text_view(p1) == option_text_view(p2),
        (FlowDelta::FlowRemoved { .. }, _) => false,
        (
            FlowDelta::OperationChanged { logical: l1, before: b1, after: a1 },
            FlowDelta::OperationChanged { logical: l2, before: b2, after: a2 },
        ) => l1 == l2 && b1@ == b2@ && a1@ == a2@,
        (FlowDelta::OperationChanged { .. }, _) => false,
        _ => true,
    }
}

/// Some record stands for the delta.
pub open spec fn delta_listed(records: Seq<DeltaRecord>, d: FlowDelta) -> bool {
    exists|k: int| 0 <= k < records.len() && delta_agrees(#[trigger] records[k].delta, d)
}

/// A record list that keeps every delta of another at its position keeps
/// every delta that the other listed.
proof fn lemma_listed_kept(old_records: Seq<DeltaRecord>, new_records: Seq<DeltaRecord>, d: FlowDelta)
    requires
        new_records.len() >= old_records.len(),
        forall|j: int| 0 <= j < old_records.len() ==> (#[trigger] new_records[j]).delta == old_records[j].delta,
        delta_listed(old_records, d),
    ensures
        delta_listed(new_records, d),
{
    let k = choose|k: int| 0 <= k < old_records.len() && delta_agrees(#[trigger] old_records[k].delta, d);
    assert(new_records[k].delta == old_records[k].delta);
}

/// The node delta that an alignment entry calls for: a node present on one
/// side only, or an aligned node that entered or left the slice.
pub open spec fn node_delta_owed(input: ComparisonInput, a: Alignment) -> Option<FlowDelta> {
    let before_present = a.before matches Some(id) && last_span(input.before.graph.nodes@, id) is Some;
    let after_present = a.after matches Some(id) && last_span(input.after.graph.nodes@, id) is Some;
    match (a.before, a.after) {
        (None, Some(id)) => if after_present {
            Some(FlowDelta::NodeAdded { after: id })
        } else {
            None
        },
        (Some(id), None) => if before_present {
            Some(FlowDelta::NodeRemoved { before: id })
        } else {
            None
        },
        (Some(_), Some(_)) => if before_present != after_present {
            Some(
                FlowDelta::SliceMembershipChanged {
                    logical: a.logical,
                    change: if after_present {
                        MembershipChange::Entered
                    } else {
                        MembershipChange::Left
                    },
                },
            )
        } else {
            None
        },
        (None, None) => None,
    }
}

/// An operation whose aligned counterparts have different fingerprints,
/// while it stands in the slice on either side, has changed.
pub open spec fn operation_change_owed(input: ComparisonInput, a: Alignment) -> Option<FlowDelta> {
    match (a.before, a.after) {
        (Some(b), Some(w)) => match (
            last_fingerprint(input.alignment.before_fingerprints@, b),
            last_fingerprint(input.alignment.after_fingerprints@, w),
        ) {
            (Some(o), Some(n)) => if (last_span(input.before.graph.nodes@, b) is Some || last_span(
                input.after.graph.nodes@,
                w,
            ) is Some) && o@ != n@ {
                Some(FlowDelta::OperationChanged { logical: a.logical, before: b, after: w })
            } else {
                None
            },
            _ => None,
        },
        _ => None,
    }
}

/// Every alignment entry before `upto` has the node delta it calls for, and
/// its operation change where its fingerprints differ.
pub open spec fn node_deltas_listed(input: ComparisonInput, records: Seq<DeltaRecord>, upto: int) -> bool {
    forall|m: int|
        0 <= m < upto ==> (node_delta_owed(input, #[trigger] input.alignment.nodes@[m]) matches Some(d)
            ==> delta_listed(records, d)) && (operation_change_owed(input, input.alignment.nodes@[m]) matches Some(
            d,
        ) ==> delta_listed(records, d))
}

fn flow_delta_equal(a: &FlowDelta, b: &FlowDelta) -> (res: bool)
    ensures
        res ==> unknown_code(*a) == unknown_code(*b),
        res ==> delta_agrees(*a, *b),
{
    match (a, b) {
        (FlowDelta::NodeAdded { after: x }, FlowDelta::NodeAdded { after: y }) => x.same(y),
        (FlowDelta::NodeRemoved { before: x }, FlowDelta::NodeRemoved { before: y }) => x.same(y),
        (
            FlowDelta::SliceMembershipChanged { logical: l1, change: c1 },
            FlowDelta::SliceMembershipChanged { logical: l2, change: c2 },
        ) => l1.0 == l2.0 && *c1 == *c2,
        (
            FlowDelta::OperationChanged { logical: l1, before: b1, after: a1 },
            FlowDelta::OperationChanged { logical: l2, before: b2, after: a2 },
        ) => l1.0 == l2.0 && b1.same(b2) && a1.same(a2),
        (FlowDelta::WriteAdded { after: x }, FlowDelta::WriteAdded { after: y }) => x.same(y),
        (FlowDelta::WriteRemoved { before: x }, FlowDelta::WriteRemoved { before: y }) => x.same(y),
        (
            FlowDelta::FlowAdded { source: s1, target: t1, relation: r1, projection: p1 },
            FlowDelta::FlowAdded { source: s2, target: t2, relation: r2, projection: p2 },
        ) => s1.0 == s2.0 && t1.0 == t2.0 && *r1 == *r2 && option_text_equal(p1, p2),
        (
            FlowDelta::FlowRemoved { source: s1, target: t1, relation: r1, projection: p1 },
            FlowDelta::FlowRemoved { source: s2, target: t2, relation: r2, projection: p2 },
        ) => s1.0 == s2.0 && t1.0 == t2.0 && *r1 == *r2 && option_text_equal(p1, p2),
        (
            FlowDelta::FlowConditionChanged {
                source: s1,
                target: t1,
                relation: r1,
                projection: p1,
                before: b1,
                after: a1,
            },
            FlowDelta::FlowConditionChanged {
                source: s2,
                target: t2,
                relation: r2,
                projection: p2,
                before: b2,
                after: a2,
            },
        ) => s1.0 == s2.0 && t1.0 == t2.0 && *r1 == *r2 && option_text_equal(p1, p2) && *b1 == *b2
            && *a1 == *a2,
        (
            FlowDelta::ValueSourceChanged {
                consumer: c1,
                projection: p1,
                before_sources: bs1,
                after_sources: as1,
                before_bindings: bb1,
                after_bindings: ab1,
                changed_operations: co1,
            },
            FlowDelta::ValueSourceChanged {
                consumer: c2,
                projection: p2,
                before_sources: bs2,
                after_sources: as2,
                before_bindings: bb2,
                after_bindings: ab2,
                changed_operations: co2,
            },
        ) => c1.0 == c2.0 && *p1 == *p2 && logical_lists_equal(bs1, bs2) && logical_lists_equal(
            as1,
            as2,
        ) && binding_lists_equal(bb1, bb2) && binding_lists_equal(ab1, ab2) && logical_lists_equal(
            co1,
            co2,
        ),
        (
            FlowDelta::AnalysisUnknown { subject: s1, side: d1, diagnostic: g1 },
            FlowDelta::AnalysisUnknown { subject: s2, side: d2, diagnostic: g2 },
        ) => *s1 == *s2 && *d1 == *d2 && *g1 == *g2,
        _ => false,
    }
}

/// Records a delta once; a repeated delta adds its groups to the record.
fn insert_record(
    records: &mut Vec<DeltaRecord>,
    delta: FlowDelta,
    groups: Vec<GroupId>,
    before_span: Option<SourceSpan>,
    after_span: Option<SourceSpan>,
    condition: Option<String>,
)
    ensures
        final(records)@.len() >= old(records)@.len(),
        forall|j: int| 0 <= j < old(records)@.len() ==> (#[trigger] final(records)@[j]).delta == old(records)@[j].delta,
        exists|k: int| 0 <= k < final(records)@.len() && unknown_code((#[trigger] final(records)@[k]).delta) == unknown_code(delta),
        delta_listed(final(records)@, delta),
        final(records)@.len() <= old(records)@.len() + 1,
        forall|j: int|
            0 <= j < final(records)@.len() ==> (#[trigger] final(records)@[j]).delta == if j < old(records)@.len() {
                old(records)@[j].delta
            } else {
                delta
            },
{
    let mut k: usize = 0;
    while k < records.len()
        invariant
            k <= records@.len(),
            records@ == old(records)@,
        decreases records.len() - k,
    {
        if flow_delta_equal(&records[k].delta, &delta) {
            let mut record = records.remove(k);
            let mut g: usize = 0;
            while g < groups.len()
                invariant
                    g <= groups@.len(),
                    record.delta == old(records)@[k as int].delta,
                decreases groups.len() - g,
            {
                insert_group(&mut record.groups, groups[g]);
                g = g + 1;
            }
            let ghost removed = records@;
            records.insert(k, record);
            proof {
                assert(unknown_code(records@[k as int].delta) == unknown_code(delta));
                assert(delta_agrees(records@[k as int].delta, delta));
                assert(removed == old(records)@.remove(k as int));
                assert(records@ == removed.insert(k as int, records@[k as int]));
                assert forall|j: int| 0 <= j < records@.len() implies (#[trigger] records@[j]).delta
                    == old(records)@[j].delta by {
                    if j < k {
                        assert(records@[j] == old(records)@[j]);
                    } else if j > k {
                        assert(records@[j] == old(records)@[j]);
                    }
                }
            }
            return;
        }
        k = k + 1;
    }
    records.push(DeltaRecord { delta, groups, before_span, after_span, condition });
    proof {
        assert(unknown_code(records@[records@.len() - 1].delta) == unknown_code(delta));
        assert(delta_agrees(records@[records@.len() - 1].delta, delta));
    }
}

fn single_group(group: GroupId) -> Vec<GroupId> {
    let mut out: Vec<GroupId> = Vec::new();
    out.push(group);
    out
}

// ---------------------------------------------------------------------------
// Graph lookups.

/// The span of the last node entry for a node, if any.
pub open spec fn last_span(nodes: Seq<crate::ifds::model::FlowNode>, id: NodeId) -> Option<SourceSpan>
    decreases nodes.len(),
{
    if nodes.len() == 0 {
        None
    } else if nodes.last().id@ == id@ {
        Some(nodes.last().span)
    } else {
        last_span(nodes.drop_last(), id)
    }
}

fn graph_span(graph: &FlowGraph, id: &NodeId) -> (res: Option<SourceSpan>)
    ensures
        res == last_span(graph.nodes@, *id),
{
    let mut found: Option<SourceSpan> = None;
    let mut k: usize = 0;
    while k < graph.nodes.len()
        invariant
            k <= graph.nodes@.len(),
            found == last_span(graph.nodes@.take(k as int), *id),
        decreases graph.nodes.len() - k,
    {
        proof {
            assert(graph.nodes@.take(k + 1).drop_last() =~= graph.nodes@.take(k as int));
        }
        if graph.nodes[k].id.same(id) {
            found = Some(graph.nodes[k].span.clone());
        }
        k = k + 1;
    }
    proof {
        assert(graph.nodes@.take(k as int) =~= graph.nodes@);
    }
    found
}

fn side_span(graph: &FlowGraph, id: &Option<NodeId>) -> (res: Option<SourceSpan>)
    ensures
        res == match *id {
            Some(n) => last_span(graph.nodes@, n),
            None => None,
        },
{
    match id {
        Some(id) => graph_span(graph, id),
        None => None,
    }
}

/// The fingerprint of the last entry for a node, if any.
pub open spec fn last_fingerprint(fingerprints: Seq<(NodeId, String)>, id: NodeId) -> Option<String>
    decreases fingerprints.len(),
{
    if fingerprints.len() == 0 {
        None
    } else if fingerprints.last().0@ == id@ {
        Some(fingerprints.last().1)
    } else {
        last_fingerprint(fingerprints.drop_last(), id)
    }
}

fn fingerprint_of(fingerprints: &Vec<(NodeId, String)>, id: &NodeId) -> (res: Option<String>)
    ensures
        res == last_fingerprint(fingerprints@, *id),
{
    let mut found: Option<String> = None;
    let mut k: usize = 0;
    while k < fingerprints.len()
        invariant
            k <= fingerprints@.len(),
            found == last_fingerprint(fingerprints@.take(k as int), *id),
        decreases fingerprints.len() - k,
    {
        proof {
            assert(fingerprints@.take(k + 1).drop_last() =~= fingerprints@.take(k as int));
        }
        if fingerprints[k].0.same(id) {
            found = Some(fingerprints[k].1.clone());
        }
        k = k + 1;
    }
    proof {
        assert(fingerprints@.take(k as int) =~= fingerprints@);
    }
    found
}

/// The spans of the operations aligned with a relation's target.
fn relation_spans(key: &RelationIdentity, alignment: &AlignmentResult, before: &FlowGraph, after: &FlowGraph) -> (res: (
    Option<SourceSpan>,
    Option<SourceSpan>,
))
    ensures
        (exists|k: int|
            0 <= k < alignment.nodes@.len() && alignment.nodes@[k].logical == key.target && (forall|j: int|
                0 <= j < k ==> (#[trigger] alignment.nodes@[j]).logical != key.target) && res.0 == match alignment.nodes@[k].before {
                Some(n) => last_span(before.nodes@, n),
                None => None,
            } && res.1 == match alignment.nodes@[k].after {
                Some(n) => last_span(after.nodes@, n),
                None => None,
            }) || ((forall|j: int| 0 <= j < alignment.nodes@.len() ==> (#[trigger] alignment.nodes@[j]).logical != key.target)
            && res.0 is None && res.1 is None),
{
    let mut k: usize = 0;
    while k < alignment.nodes.len()
        invariant
            k <= alignment.nodes@.len(),
            forall|j: int| 0 <= j < k ==> (#[trigger] alignment.nodes@[j]).logical != key.target,
        decreases alignment.nodes.len() - k,
    {
        if alignment.nodes[k].logical.0 == key.target.0 {
            return (
                side_span(before, &alignment.nodes[k].before),
                side_span(after, &alignment.nodes[k].after),
            );
        }
        k = k + 1;
    }
    (None, None)
}

/// The aligned operations in both slices whose order changed.
fn reordered_nodes(alignment: &AlignmentResult, before: &FlowGraph, after: &FlowGraph) -> Vec<
    LogicalNodeId,
> {
    let mut paired: Vec<(LogicalNodeId, u64, u64)> = Vec::new();
    let mut k: usize = 0;
    while k < alignment.nodes.len()
        invariant
            k <= alignment.nodes@.len(),
        decreases alignment.nodes.len() - k,
    {
        let a = &alignment.nodes[k];
        if let (Some(b), Some(f)) = (side_span(before, &a.before), side_span(after, &a.after)) {
            paired.push((a.logical, b.byte_start, f.byte_start));
        }
        k = k + 1;
    }
    let mut result: Vec<LogicalNodeId> = Vec::new();
    let mut i: usize = 0;
    while i < paired.len()
        invariant
            i <= paired@.len(),
        decreases paired.len() - i,
    {
        let mut j: usize = i + 1;
        while j < paired.len()
            invariant
                i < paired@.len(),
                j <= paired@.len(),
            decreases paired.len() - j,
        {
            let left = paired[i];
            let right = paired[j];
            if (left.1 < right.1 && left.2 > right.2) || (left.1 > right.1 && left.2 < right.2) {
                insert_logical(&mut result, left.0);
                insert_logical(&mut result, right.0);
            }
            j = j + 1;
        }
        i = i + 1;
    }
    result
}

fn related_groups(
    input: &ComparisonInput,
    key: &RelationIdentity,
    explanatory: &Vec<LogicalNodeId>,
    before: &Vec<(RelationIdentity, RelationEvidence)>,
    after: &Vec<(RelationIdentity, RelationEvidence)>,
) -> Vec<GroupId> {
    let mut groups: Vec<GroupId> = Vec::new();
    let mut k: usize = 0;
    while k < explanatory.len()
        invariant
            k <= explanatory@.len(),
        decreases explanatory.len() - k,
    {
        let node = explanatory[k];
        if node.0 == key.source.0 || node.0 == key.target.0 || reaches(node, key.source, before)
            || reaches(node, key.source, after) {
            insert_group(&mut groups, group_for(input, node));
        }
        k = k + 1;
    }
    groups
}

// ---------------------------------------------------------------------------
// Sources of consumers.

/// The sources of each input (consumer and projection) among the value
/// relations.
fn inputs(relations: &Vec<(RelationIdentity, RelationEvidence)>) -> Vec<
    (LogicalNodeId, String, Vec<LogicalNodeId>),
> {
    let mut out: Vec<(LogicalNodeId, String, Vec<LogicalNodeId>)> = Vec::new();
    let mut k: usize = 0;
    while k < relations.len()
        invariant
            k <= relations@.len(),
        decreases relations.len() - k,
    {
        let key = &relations[k].0;
        if value_relation(key.kind) {
            let projection = match &key.projection {
                Some(p) => p.clone(),
                None => String::from_str("value"),
            };
            let mut slot: Option<usize> = None;
            let mut j: usize = 0;
            while j < out.len()
                invariant
                    j <= out@.len(),
                    slot matches Some(s) ==> s < out@.len(),
                decreases out.len() - j,
            {
                if out[j].0.0 == key.target.0 && out[j].1 == projection {
                    slot = Some(j);
                }
                j = j + 1;
            }
            match slot {
                Some(s) => {
                    let (consumer, name, mut sources) = out.remove(s);
                    insert_logical(&mut sources, key.source);
                    out.insert(s, (consumer, name, sources));
                },
                None => {
                    let mut sources: Vec<LogicalNodeId> = Vec::new();
                    sources.push(key.source);
                    out.push((key.target, projection, sources));
                },
            }
        }
        k = k + 1;
    }
    out
}

fn sources_of(inputs: &Vec<(LogicalNodeId, String, Vec<LogicalNodeId>)>, consumer: LogicalNodeId, projection: &String) -> (res: Vec<
    LogicalNodeId,
>)
    ensures
        (exists|i: int|
            0 <= i < inputs@.len() && inputs@[i].0 == consumer && inputs@[i].1@ == projection@ && (forall|j: int|
                0 <= j < i ==> !((#[trigger] inputs@[j]).0 == consumer && inputs@[j].1@ == projection@)) && res@
                == inputs@[i].2@) || ((forall|j: int|
            0 <= j < inputs@.len() ==> !((#[trigger] inputs@[j]).0 == consumer && inputs@[j].1@ == projection@)) && res@.len()
            == 0),
{
    let mut k: usize = 0;
    while k < inputs.len()
        invariant
            k <= inputs@.len(),
            forall|j: int| 0 <= j < k ==> !((#[trigger] inputs@[j]).0 == consumer && inputs@[j].1@ == projection@),
        decreases inputs.len() - k,
    {
        if inputs[k].0.0 == consumer.0 && inputs[k].1 == *projection {
            return logical_vec_clone(&inputs[k].2);
        }
        k = k + 1;
    }
    Vec::new()
}

/// The aligned bindings that the source operations read.
fn source_bindings(
    sources: &Vec<LogicalNodeId>,
    ids: &Vec<(NodeId, LogicalNodeId)>,
    ir: &ProcedureIr,
    alignment: &AlignmentResult,
) -> Vec<LogicalBindingId> {
    let mut result: Vec<LogicalBindingId> = Vec::new();
    let mut s: usize = 0;
    while s < sources.len()
        invariant
            s <= sources@.len(),
        decreases sources.len() - s,
    {
        let mut k: usize = 0;
        while k < ids.len()
            invariant
                k <= ids@.len(),
                s < sources@.len(),
            decreases ids.len() - k,
        {
            if ids[k].1.0 == sources[s].0 {
                if let Some(index) = find_node(ir, &ids[k].0) {
                    if let Operation::Read { source: Place::Binding(binding), .. } =
                        &ir.nodes[index].operation {
                        let mut b: usize = 0;
                        while b < alignment.bindings.len()
                            invariant
                                b <= alignment.bindings@.len(),
                            decreases alignment.bindings.len() - b,
                        {
                            let a = &alignment.bindings[b];
                            let matches_before = match &a.before {
                                Some(x) => x.same(binding),
                                None => false,
                            };
                            let matches_after = match &a.after {
                                Some(x) => x.same(binding),
                                None => false,
                            };
                            if matches_before || matches_after {
                                insert_binding(&mut result, a.logical);
                                break;
                            }
                            b = b + 1;
                        }
                    }
                }
            }
            k = k + 1;
        }
        s = s + 1;
    }
    result
}

/// The changed operations from which some source is reached.
fn changed_ancestors(
    sources: &Vec<LogicalNodeId>,
    changed: &Vec<LogicalNodeId>,
    relations: &Vec<(RelationIdentity, RelationEvidence)>,
) -> Vec<LogicalNodeId> {
    let mut result: Vec<LogicalNodeId> = Vec::new();
    let mut c: usize = 0;
    while c < changed.len()
        invariant
            c <= changed@.len(),
        decreases changed.len() - c,
    {
        let mut s: usize = 0;
        while s < sources.len()
            invariant
                c < changed@.len(),
                s <= sources@.len(),
            decreases sources.len() - s,
        {
            if reaches(changed[c], sources[s], relations) {
                insert_logical(&mut result, changed[c]);
            }
            s = s + 1;
        }
        c = c + 1;
    }
    result
}

fn decided(p: Result<RelationPresence, ComparisonError>) -> bool {
    match p {
        Ok(RelationPresence::Present) | Ok(RelationPresence::Absent) => true,
        _ => false,
    }
}

/// For each input of a consumer present in both slices: a change of its
/// sources, of the bindings they read or of operations upstream of them.
fn compare_sources(
    input: &ComparisonInput,
    before_relations: &Vec<(RelationIdentity, RelationEvidence)>,
    after_relations: &Vec<(RelationIdentity, RelationEvidence)>,
    changed: &Vec<LogicalNodeId>,
    explanatory: &Vec<LogicalNodeId>,
    records: &mut Vec<DeltaRecord>,
)
    ensures
        final(records)@.len() >= old(records)@.len(),
        forall|j: int| 0 <= j < old(records)@.len() ==> (#[trigger] final(records)@[j]).delta == old(records)@[j].delta,
        no_flow_appended(old(records)@, final(records)@),
{
    let before_ids = node_ids(input.alignment, SnapshotSide::Before);
    let after_ids = node_ids(input.alignment, SnapshotSide::After);
    let old_inputs = inputs(before_relations);
    let new_inputs = inputs(after_relations);
    let mut targets: Vec<(LogicalNodeId, String)> = Vec::new();
    let mut side: usize = 0;
    while side < 2
        decreases 2 - side,
    {
        let list = if side == 0 {
            &old_inputs
        } else {
            &new_inputs
        };
        let mut k: usize = 0;
        while k < list.len()
            invariant
                k <= list@.len(),
            decreases list.len() - k,
        {
            let mut present = false;
            let mut j: usize = 0;
            while j < targets.len()
                invariant
                    j <= targets@.len(),
                    k < list@.len(),
                decreases targets.len() - j,
            {
                if targets[j].0.0 == list[k].0.0 && targets[j].1 == list[k].1 {
                    present = true;
                }
                j = j + 1;
            }
            if !present {
                targets.push((list[k].0, list[k].1.clone()));
            }
            k = k + 1;
        }
        side = side + 1;
    }
    let mut t: usize = 0;
    while t < targets.len()
        invariant
            t <= targets@.len(),
            final_len_ok(old(records)@, records@),
            no_flow_appended(old(records)@, records@),
        decreases targets.len() - t,
    {
        let consumer = targets[t].0;
        let projection = &targets[t].1;
        t = t + 1;
        let mut paired = false;
        let mut a: usize = 0;
        while a < input.alignment.nodes.len()
            invariant
                a <= input.alignment.nodes@.len(),
            decreases input.alignment.nodes.len() - a,
        {
            let al = &input.alignment.nodes[a];
            if al.logical.0 == consumer.0 && side_span(&input.before.graph, &al.before).is_some()
                && side_span(&input.after.graph, &al.after).is_some() {
                paired = true;
            }
            a = a + 1;
        }
        if !paired {
            continue;
        }
        let old_sources = sources_of(&old_inputs, consumer, projection);
        let new_sources = sources_of(&new_inputs, consumer, projection);
        let old_bindings = source_bindings(&old_sources, &before_ids, input.before_ir, input.alignment);
        let new_bindings = source_bindings(&new_sources, &after_ids, input.after_ir, input.alignment);
        let old_changed = changed_ancestors(&old_sources, changed, before_relations);
        let new_changed = changed_ancestors(&new_sources, changed, after_relations);
        let mut changed_operations = logical_vec_clone(&old_changed);
        let mut c: usize = 0;
        while c < new_changed.len()
            invariant
                c <= new_changed@.len(),
            decreases new_changed.len() - c,
        {
            insert_logical(&mut changed_operations, new_changed[c]);
            c = c + 1;
        }
        if logical_lists_equal(&old_sources, &new_sources) && binding_lists_equal(
            &old_bindings,
            &new_bindings,
        ) && changed_operations.len() == 0 {
            continue;
        }
        let mut undecided = input.before.extent.upstream != Coverage::Complete
            || input.after.extent.upstream != Coverage::Complete;
        let mut side: usize = 0;
        while side < 2
            decreases 2 - side,
        {
            let list = if side == 0 {
                before_relations
            } else {
                after_relations
            };
            let mut k: usize = 0;
            while k < list.len()
                invariant
                    k <= list@.len(),
                decreases list.len() - k,
            {
                let key = &list[k].0;
                let same_projection = match &key.projection {
                    Some(p) => *p == *projection,
                    None => false,
                };
                if key.target.0 == consumer.0 && same_projection && value_relation(key.kind) {
                    let old = presence(
                        observed(relation_at(before_relations, key)),
                        presence_proof(input.before_presence, key),
                        input.before.extent.upstream,
                        input.before.extent.downstream,
                        key,
                    );
                    let new = presence(
                        observed(relation_at(after_relations, key)),
                        presence_proof(input.after_presence, key),
                        input.after.extent.upstream,
                        input.after.extent.downstream,
                        key,
                    );
                    if !decided(old) || !decided(new) {
                        undecided = true;
                    }
                }
                k = k + 1;
            }
            side = side + 1;
        }
        if undecided {
            let subject = String::from_str("sources:").concat(consumer.0.to_string().as_str()).concat(
                ":",
            ).concat(projection.as_str());
            insert_record(
                records,
                FlowDelta::AnalysisUnknown {
                    subject,
                    side: None,
                    diagnostic: DiagnosticCode::UnsupportedSyntax,
                },
                Vec::new(),
                None,
                None,
                None,
            );
            continue;
        }
        let mut groups: Vec<GroupId> = Vec::new();
        let mut e: usize = 0;
        while e < explanatory.len()
            invariant
                e <= explanatory@.len(),
            decreases explanatory.len() - e,
        {
            let node = explanatory[e];
            let mut related = contains_logical(&changed_operations, node) || contains_logical(
                &old_sources,
                node,
            ) || contains_logical(&new_sources, node);
            let mut s: usize = 0;
            while s < old_sources.len()
                invariant
                    s <= old_sources@.len(),
                decreases old_sources.len() - s,
            {
                if reaches(node, old_sources[s], before_relations) {
                    related = true;
                }
                s = s + 1;
            }
            let mut s: usize = 0;
            while s < new_sources.len()
                invariant
                    s <= new_sources@.len(),
                decreases new_sources.len() - s,
            {
                if reaches(node, new_sources[s], after_relations) {
                    related = true;
                }
                s = s + 1;
            }
            if related {
                insert_group(&mut groups, group_for(input, node));
            }
            e = e + 1;
        }
        let key = RelationIdentity {
            source: LogicalNodeId(0),
            target: consumer,
            kind: RelationKind::ValueDependency,
            projection: Some(projection.clone()),
        };
        let (before_span, after_span) = relation_spans(
            &key,
            input.alignment,
            &input.before.graph,
            &input.after.graph,
        );
        insert_record(
            records,
            FlowDelta::ValueSourceChanged {
                consumer,
                projection: projection.clone(),
                before_sources: old_sources,
                after_sources: new_sources,
                before_bindings: old_bindings,
                after_bindings: new_bindings,
                changed_operations,
            },
            groups,
            before_span,
            after_span,
            None,
        );
    }
}

/// The records of `now` extend those of `before`: no delta is replaced.
pub open spec fn final_len_ok(before: Seq<DeltaRecord>, now: Seq<DeltaRecord>) -> bool {
    &&& now.len() >= before.len()
    &&& forall|j: int| 0 <= j < before.len() ==> (#[trigger] now[j]).delta == before[j].delta
}

// ---------------------------------------------------------------------------
// The comparison.

/// An edge at an operation that an ambiguity names, or one whose ends are
/// both aligned.
pub open spec fn edge_resolved(edge: FlowEdge, ids: Seq<(NodeId, LogicalNodeId)>, ambiguities: Seq<crate::ifds::model::AlignmentAmbiguity>) -> bool {
    named_by(ambiguities, AlignmentEntity::Node(edge.source)) || named_by(ambiguities, AlignmentEntity::Node(edge.target))
        || (last_logical(ids, edge.source) is Some && last_logical(ids, edge.target) is Some)
}

/// Every edge of both slices is resolved through the alignment.
pub open spec fn slices_resolved(input: ComparisonInput) -> bool {
    &&& forall|j: int| 0 <= j < input.before.graph.edges@.len() ==> edge_resolved(
        #[trigger] input.before.graph.edges@[j],
        side_pairs(input.alignment.nodes@, SnapshotSide::Before),
        input.alignment.ambiguities@,
    )
    &&& forall|j: int| 0 <= j < input.after.graph.edges@.len() ==> edge_resolved(
        #[trigger] input.after.graph.edges@[j],
        side_pairs(input.alignment.nodes@, SnapshotSide::After),
        input.alignment.ambiguities@,
    )
}

proof fn lemma_ambiguous_named(
    ambiguous: Seq<AlignmentEntity>,
    ambiguities: Seq<crate::ifds::model::AlignmentAmbiguity>,
    edges: Seq<FlowEdge>,
    ids: Seq<(NodeId, LogicalNodeId)>,
)
    requires
        forall|i: int| 0 <= i < ambiguous.len() ==> named_by(ambiguities, #[trigger] ambiguous[i]),
        forall|x: int, c: int|
            0 <= x < ambiguities.len() && 0 <= c < ambiguities[x].candidates@.len() ==> listed(
                ambiguous,
                #[trigger] ambiguities[x].candidates@[c].before,
            ) && listed(ambiguous, ambiguities[x].candidates@[c].after),
    ensures
        edges_aligned(edges, ids, ambiguous) == (forall|j: int| 0 <= j < edges.len() ==> edge_resolved(#[trigger] edges[j], ids, ambiguities)),
{
    assert forall|id: NodeId| node_ambiguous(ambiguous, id) == named_by(ambiguities, AlignmentEntity::Node(id)) by {
        if node_ambiguous(ambiguous, id) {
            let i = choose|i: int| 0 <= i < ambiguous.len() && (#[trigger] ambiguous[i] matches AlignmentEntity::Node(n) && n@ == id@);
            assert(named_by(ambiguities, ambiguous[i]));
            let (x, c) = choose|x: int, c: int|
                0 <= x < ambiguities.len() && 0 <= c < ambiguities[x].candidates@.len() && (entity_matches(
                    #[trigger] ambiguities[x].candidates@[c].before,
                    ambiguous[i],
                ) || entity_matches(ambiguities[x].candidates@[c].after, ambiguous[i]));
            assert(entity_matches(ambiguities[x].candidates@[c].before, AlignmentEntity::Node(id)) || entity_matches(
                ambiguities[x].candidates@[c].after,
                AlignmentEntity::Node(id),
            ));
        }
        if named_by(ambiguities, AlignmentEntity::Node(id)) {
            let (x, c) = choose|x: int, c: int|
                0 <= x < ambiguities.len() && 0 <= c < ambiguities[x].candidates@.len() && (entity_matches(
                    #[trigger] ambiguities[x].candidates@[c].before,
                    AlignmentEntity::Node(id),
                ) || entity_matches(ambiguities[x].candidates@[c].after, AlignmentEntity::Node(id)));
            let cand = ambiguities[x].candidates@[c];
            assert(listed(ambiguous, cand.before) && listed(ambiguous, cand.after));
            if entity_matches(cand.before, AlignmentEntity::Node(id)) {
                let i = choose|i: int| 0 <= i < ambiguous.len() && entity_matches(#[trigger] ambiguous[i], cand.before);
                assert(ambiguous[i] matches AlignmentEntity::Node(n) && n@ == id@);
            } else {
                let i = choose|i: int| 0 <= i < ambiguous.len() && entity_matches(#[trigger] ambiguous[i], cand.after);
                assert(ambiguous[i] matches AlignmentEntity::Node(n) && n@ == id@);
            }
        }
    }
    assert forall|j: int| 0 <= j < edges.len() implies edge_aligned(#[trigger] edges[j], ids, ambiguous) == edge_resolved(
        edges[j],
        ids,
        ambiguities,
    ) by {
        assert(node_ambiguous(ambiguous, edges[j].source) == named_by(ambiguities, AlignmentEntity::Node(edges[j].source)));
        assert(node_ambiguous(ambiguous, edges[j].target) == named_by(ambiguities, AlignmentEntity::Node(edges[j].target)));
    }
}

proof fn lemma_node_ambiguous_named(
    ambiguous: Seq<AlignmentEntity>,
    ambiguities: Seq<crate::ifds::model::AlignmentAmbiguity>,
)
    requires
        forall|i: int| 0 <= i < ambiguous.len() ==> named_by(ambiguities, #[trigger] ambiguous[i]),
        forall|x: int, c: int|
            0 <= x < ambiguities.len() && 0 <= c < ambiguities[x].candidates@.len() ==> listed(
                ambiguous,
                #[trigger] ambiguities[x].candidates@[c].before,
            ) && listed(ambiguous, ambiguities[x].candidates@[c].after),
    ensures
        forall|id: NodeId| #[trigger] node_ambiguous(ambiguous, id) == named_by(ambiguities, AlignmentEntity::Node(id)),
{
    assert forall|id: NodeId| #[trigger] node_ambiguous(ambiguous, id) == named_by(ambiguities, AlignmentEntity::Node(id)) by {
        if node_ambiguous(ambiguous, id) {
            let i = choose|i: int| 0 <= i < ambiguous.len() && (#[trigger] ambiguous[i] matches AlignmentEntity::Node(n) && n@ == id@);
            assert(named_by(ambiguities, ambiguous[i]));
            let (x, c) = choose|x: int, c: int|
                0 <= x < ambiguities.len() && 0 <= c < ambiguities[x].candidates@.len() && (entity_matches(
                    #[trigger] ambiguities[x].candidates@[c].before,
                    ambiguous[i],
                ) || entity_matches(ambiguities[x].candidates@[c].after, ambiguous[i]));
            assert(entity_matches(ambiguities[x].candidates@[c].before, AlignmentEntity::Node(id)) || entity_matches(
                ambiguities[x].candidates@[c].after,
                AlignmentEntity::Node(id),
            ));
        }
        if named_by(ambiguities, AlignmentEntity::Node(id)) {
            let (x, c) = choose|x: int, c: int|
                0 <= x < ambiguities.len() && 0 <= c < ambiguities[x].candidates@.len() && (entity_matches(
                    #[trigger] ambiguities[x].candidates@[c].before,
                    AlignmentEntity::Node(id),
                ) || entity_matches(ambiguities[x].candidates@[c].after, AlignmentEntity::Node(id)));
            let cand = ambiguities[x].candidates@[c];
            assert(listed(ambiguous, cand.before) && listed(ambiguous, cand.after));
            if entity_matches(cand.before, AlignmentEntity::Node(id)) {
                let i = choose|i: int| 0 <= i < ambiguous.len() && entity_matches(#[trigger] ambiguous[i], cand.before);
                assert(ambiguous[i] matches AlignmentEntity::Node(n) && n@ == id@);
            } else {
                let i = choose|i: int| 0 <= i < ambiguous.len() && entity_matches(#[trigger] ambiguous[i], cand.after);
                assert(ambiguous[i] matches AlignmentEntity::Node(n) && n@ == id@);
            }
        }
    }
}

/// The edge counts for the relation in a slice: neither end is named by an
/// ambiguity of the alignment and the edge stands for that relation.
pub open spec fn slice_edge_counts(
    edge: FlowEdge,
    ids: Seq<(NodeId, LogicalNodeId)>,
    ambiguities: Seq<crate::ifds::model::AlignmentAmbiguity>,
    key: RelationIdentity,
) -> bool {
    &&& !named_by(ambiguities, AlignmentEntity::Node(edge.source))
    &&& !named_by(ambiguities, AlignmentEntity::Node(edge.target))
    &&& edge_relation(edge, ids) matches Some(r) && relation_same(r, key)
}

/// What a slice's graph shows of a relation: present when a counted edge
/// has resolved evidence, unknown when every counted edge is unresolved,
/// and nothing without a counted edge.
pub open spec fn slice_observation(
    edges: Seq<FlowEdge>,
    ids: Seq<(NodeId, LogicalNodeId)>,
    ambiguities: Seq<crate::ifds::model::AlignmentAmbiguity>,
    key: RelationIdentity,
) -> Option<RelationPresence> {
    if exists|e: int|
        0 <= e < edges.len() && slice_edge_counts(#[trigger] edges[e], ids, ambiguities, key) && !(
        edges[e].evidence is Unresolved) {
        Some(RelationPresence::Present)
    } else if exists|e: int| 0 <= e < edges.len() && slice_edge_counts(#[trigger] edges[e], ids, ambiguities, key) {
        Some(RelationPresence::Unknown)
    } else {
        None
    }
}

/// The presence of a relation on one side: what the slice shows, with the
/// last local proof given for it and the slice's coverage; `None` when the
/// proof contradicts the observation.
pub open spec fn relation_presence(input: ComparisonInput, key: RelationIdentity, before: bool) -> Option<
    RelationPresence,
> {
    if before {
        presence_spec(
            slice_observation(
                input.before.graph.edges@,
                side_pairs(input.alignment.nodes@, SnapshotSide::Before),
                input.alignment.ambiguities@,
                key,
            ),
            last_proof_presence(input.before_presence@, key),
            input.before.extent.upstream,
            input.before.extent.downstream,
        )
    } else {
        presence_spec(
            slice_observation(
                input.after.graph.edges@,
                side_pairs(input.alignment.nodes@, SnapshotSide::After),
                input.alignment.ambiguities@,
                key,
            ),
            last_proof_presence(input.after_presence@, key),
            input.after.extent.upstream,
            input.after.extent.downstream,
        )
    }
}

/// The relation delta of the given variant for a relation.
pub open spec fn flow_delta_for(key: RelationIdentity, added: bool) -> FlowDelta {
    if added {
        FlowDelta::FlowAdded { source: key.source, target: key.target, relation: key.kind, projection: key.projection }
    } else {
        FlowDelta::FlowRemoved {
            source: key.source,
            target: key.target,
            relation: key.kind,
            projection: key.projection,
        }
    }
}

/// A relation absent before and present after is added; present before
/// and absent after, removed.
pub open spec fn relation_deltas_listed(input: ComparisonInput, records: Seq<DeltaRecord>, key: RelationIdentity) -> bool {
    &&& (relation_presence(input, key, true) == Some(RelationPresence::Absent) && relation_presence(input, key, false)
        == Some(RelationPresence::Present) ==> delta_listed(records, flow_delta_for(key, true)))
    &&& (relation_presence(input, key, true) == Some(RelationPresence::Present) && relation_presence(input, key, false)
        == Some(RelationPresence::Absent) ==> delta_listed(records, flow_delta_for(key, false)))
}

proof fn lemma_slice_observation_same(
    edges: Seq<FlowEdge>,
    ids: Seq<(NodeId, LogicalNodeId)>,
    ambiguities: Seq<crate::ifds::model::AlignmentAmbiguity>,
    a: RelationIdentity,
    b: RelationIdentity,
)
    requires
        relation_same(a, b),
    ensures
        slice_observation(edges, ids, ambiguities, a) == slice_observation(edges, ids, ambiguities, b),
{
    assert forall|e: int| 0 <= e < edges.len() implies #[trigger] slice_edge_counts(edges[e], ids, ambiguities, a)
        == slice_edge_counts(edges[e], ids, ambiguities, b) by {}
}

proof fn lemma_last_proof_same(proofs: Seq<(RelationIdentity, RelationPresence)>, a: RelationIdentity, b: RelationIdentity)
    requires
        relation_same(a, b),
    ensures
        last_proof_presence(proofs, a) == last_proof_presence(proofs, b),
    decreases proofs.len(),
{
    if proofs.len() > 0 {
        lemma_last_proof_same(proofs.drop_last(), a, b);
    }
}

proof fn lemma_last_proof_listed(proofs: Seq<(RelationIdentity, RelationPresence)>, key: RelationIdentity)
    requires
        last_proof_presence(proofs, key) is Some,
    ensures
        exists|i: int| 0 <= i < proofs.len() && relation_same(#[trigger] proofs[i].0, key),
    decreases proofs.len(),
{
    if !relation_same(proofs.last().0, key) {
        lemma_last_proof_listed(proofs.drop_last(), key);
        let i = choose|i: int| 0 <= i < proofs.drop_last().len() && relation_same(#[trigger] proofs.drop_last()[i].0, key);
        assert(proofs[i] == proofs.drop_last()[i]);
    } else {
        assert(relation_same(proofs[proofs.len() - 1].0, key));
    }
}

proof fn lemma_graph_observation(
    edges: Seq<FlowEdge>,
    ids: Seq<(NodeId, LogicalNodeId)>,
    ambiguous: Seq<AlignmentEntity>,
    ambiguities: Seq<crate::ifds::model::AlignmentAmbiguity>,
    key: RelationIdentity,
)
    requires
        forall|id: NodeId| #[trigger] node_ambiguous(ambiguous, id) == named_by(ambiguities, AlignmentEntity::Node(id)),
    ensures
        graph_presence(edges, ids, ambiguous, key) == slice_observation(edges, ids, ambiguities, key),
{
    assert forall|e: int| 0 <= e < edges.len() implies #[trigger] edge_counts(edges[e], ids, ambiguous, key)
        == slice_edge_counts(edges[e], ids, ambiguities, key) by {
        assert(node_ambiguous(ambiguous, edges[e].source) == named_by(ambiguities, AlignmentEntity::Node(edges[e].source)));
        assert(node_ambiguous(ambiguous, edges[e].target) == named_by(ambiguities, AlignmentEntity::Node(edges[e].target)));
    }
}

/// Some key is the relation.
spec fn keyed(keys: Seq<RelationIdentity>, r: RelationIdentity) -> bool {
    exists|m: int| 0 <= m < keys.len() && relation_same(#[trigger] keys[m], r)
}

/// A relation delta stands for a relation absent before and present after
/// (added), present before and absent after (removed), or present on both
/// sides (a changed condition).
pub open spec fn flow_delta_justified(input: ComparisonInput, d: FlowDelta) -> bool {
    match d {
        FlowDelta::FlowAdded { source, target, relation, projection } => {
            let key = RelationIdentity { source, target, kind: relation, projection };
            relation_presence(input, key, true) == Some(RelationPresence::Absent) && relation_presence(input, key, false)
                == Some(RelationPresence::Present)
        },
        FlowDelta::FlowRemoved { source, target, relation, projection } => {
            let key = RelationIdentity { source, target, kind: relation, projection };
            relation_presence(input, key, true) == Some(RelationPresence::Present) && relation_presence(input, key, false)
                == Some(RelationPresence::Absent)
        },
        FlowDelta::FlowConditionChanged { source, target, relation, projection, .. } => {
            let key = RelationIdentity { source, target, kind: relation, projection };
            relation_presence(input, key, true) == Some(RelationPresence::Present) && relation_presence(input, key, false)
                == Some(RelationPresence::Present)
        },
        _ => true,
    }
}

/// Every relation delta of the records is justified.
pub open spec fn deltas_justified(input: ComparisonInput, records: Seq<DeltaRecord>) -> bool {
    forall|k: int| 0 <= k < records.len() ==> flow_delta_justified(input, #[trigger] records[k].delta)
}

/// No record past the first `before` is a relation delta.
pub open spec fn no_flow_appended(before: Seq<DeltaRecord>, now: Seq<DeltaRecord>) -> bool {
    forall|j: int|
        before.len() <= j < now.len() ==> !((#[trigger] now[j]).delta is FlowAdded) && !(now[j].delta is FlowRemoved)
            && !(now[j].delta is FlowConditionChanged)
}

/// A relation in play on either side is one of the keys, and its deltas are
/// the deltas of that key.
proof fn lemma_relation_deltas(
    input: ComparisonInput,
    records: Seq<DeltaRecord>,
    keys: Seq<RelationIdentity>,
    before_relations: Seq<(RelationIdentity, RelationEvidence)>,
    after_relations: Seq<(RelationIdentity, RelationEvidence)>,
    ambiguous: Seq<AlignmentEntity>,
    key: RelationIdentity,
)
    requires
        forall|m: int| 0 <= m < keys.len() ==> relation_deltas_listed(input, records, #[trigger] keys[m]),
        forall|i: int| 0 <= i < before_relations.len() ==> keyed(keys, #[trigger] before_relations[i].0),
        forall|i: int| 0 <= i < after_relations.len() ==> keyed(keys, #[trigger] after_relations[i].0),
        forall|i: int| 0 <= i < input.before_presence@.len() ==> keyed(keys, #[trigger] input.before_presence@[i].0),
        forall|i: int| 0 <= i < input.after_presence@.len() ==> keyed(keys, #[trigger] input.after_presence@[i].0),
        forall|k: RelationIdentity|
            #[trigger] list_presence(before_relations, k) == graph_presence(
                input.before.graph.edges@,
                side_pairs(input.alignment.nodes@, SnapshotSide::Before),
                ambiguous,
                k,
            ),
        forall|k: RelationIdentity|
            #[trigger] list_presence(after_relations, k) == graph_presence(
                input.after.graph.edges@,
                side_pairs(input.alignment.nodes@, SnapshotSide::After),
                ambiguous,
                k,
            ),
        forall|id: NodeId| #[trigger] node_ambiguous(ambiguous, id) == named_by(input.alignment.ambiguities@, AlignmentEntity::Node(id)),
    ensures
        relation_deltas_listed(input, records, key),
{
    let bp = relation_presence(input, key, true);
    let ap = relation_presence(input, key, false);
    let bi = side_pairs(input.alignment.nodes@, SnapshotSide::Before);
    let ai = side_pairs(input.alignment.nodes@, SnapshotSide::After);
    let amb = input.alignment.ambiguities@;
    lemma_graph_observation(input.before.graph.edges@, bi, ambiguous, amb, key);
    lemma_graph_observation(input.after.graph.edges@, ai, ambiguous, amb, key);
    // A side on which the relation is present names it in a list or a proof.
    let in_play = (bp == Some(RelationPresence::Present) || ap == Some(RelationPresence::Present));
    if in_play {
        let found: RelationIdentity = if bp == Some(RelationPresence::Present) {
            if last_proof_presence(input.before_presence@, key) is Some {
                lemma_last_proof_listed(input.before_presence@, key);
                let i = choose|i: int| 0 <= i < input.before_presence@.len() && relation_same(#[trigger] input.before_presence@[i].0, key);
                input.before_presence@[i].0
            } else {
                assert(list_presence(before_relations, key) is Some);
                let i = choose|i: int| 0 <= i < before_relations.len() && relation_same(#[trigger] before_relations[i].0, key);
                before_relations[i].0
            }
        } else {
            if last_proof_presence(input.after_presence@, key) is Some {
                lemma_last_proof_listed(input.after_presence@, key);
                let i = choose|i: int| 0 <= i < input.after_presence@.len() && relation_same(#[trigger] input.after_presence@[i].0, key);
                input.after_presence@[i].0
            } else {
                assert(list_presence(after_relations, key) is Some);
                let i = choose|i: int| 0 <= i < after_relations.len() && relation_same(#[trigger] after_relations[i].0, key);
                after_relations[i].0
            }
        };
        assert(relation_same(found, key));
        assert(keyed(keys, found));
        let m = choose|m: int| 0 <= m < keys.len() && relation_same(#[trigger] keys[m], found);
        let km = keys[m];
        assert(relation_same(km, key));
        lemma_slice_observation_same(input.before.graph.edges@, bi, amb, km, key);
        lemma_slice_observation_same(input.after.graph.edges@, ai, amb, km, key);
        lemma_last_proof_same(input.before_presence@, km, key);
        lemma_last_proof_same(input.after_presence@, km, key);
        assert(relation_presence(input, km, true) == bp);
        assert(relation_presence(input, km, false) == ap);
        assert(relation_deltas_listed(input, records, km));
        if bp == Some(RelationPresence::Absent) && ap == Some(RelationPresence::Present) {
            let k = choose|k: int| 0 <= k < records.len() && delta_agrees(#[trigger] records[k].delta, flow_delta_for(km, true));
            assert(delta_agrees(records[k].delta, flow_delta_for(key, true)));
        }
        if bp == Some(RelationPresence::Present) && ap == Some(RelationPresence::Absent) {
            let k = choose|k: int| 0 <= k < records.len() && delta_agrees(#[trigger] records[k].delta, flow_delta_for(km, false));
            assert(delta_agrees(records[k].delta, flow_delta_for(key, false)));
        }
    }
}

/// Compares the two slices: added, removed, entering or leaving and changed
/// operations, added or removed writes of the selected binding, added,
/// removed and re-conditioned relations, changed value sources and what
/// cannot be decided; an ambiguous alignment is always reported as such.
pub fn compare_flow_slices(input: ComparisonInput) -> (res: Result<ComparisonOutput, ComparisonError>)
    ensures
        res matches Ok(out) ==> (input.alignment.ambiguities@.len() > 0 ==> exists|k: int|
            0 <= k < out.deltas@.len() && unknown_code((#[trigger] out.deltas@[k]).delta) == Some(
                DiagnosticCode::AmbiguousMatch,
            )),
        res matches Err(ComparisonError::MissingAlignment(_)) <==> !slices_resolved(input),
        res matches Err(ComparisonError::InvalidPresenceProof(_)) ==> input.before_presence@.len() > 0
            || input.after_presence@.len() > 0,
        slices_resolved(input) && input.before_presence@.len() == 0 && input.after_presence@.len() == 0 ==> res is Ok,
        res matches Ok(out) ==> node_deltas_listed(input, out.deltas@, input.alignment.nodes@.len() as int),
        res matches Ok(out) ==> forall|key: RelationIdentity| #[trigger] relation_deltas_listed(input, out.deltas@, key),
        res matches Ok(out) ==> deltas_justified(input, out.deltas@),
{
    let before_ids = node_ids(input.alignment, SnapshotSide::Before);
    let after_ids = node_ids(input.alignment, SnapshotSide::After);
    let ambiguous = ambiguous_entities(&input.alignment.ambiguities);
    proof {
        lemma_node_ambiguous_named(ambiguous@, input.alignment.ambiguities@);
        lemma_ambiguous_named(ambiguous@, input.alignment.ambiguities@, input.before.graph.edges@, before_ids@);
        lemma_ambiguous_named(ambiguous@, input.alignment.ambiguities@, input.after.graph.edges@, after_ids@);
    }
    let before_relations = relations(&input.before.graph, &before_ids, &ambiguous)?;
    let after_relations = relations(&input.after.graph, &after_ids, &ambiguous)?;
    proof {
        assert(slices_resolved(input));
    }
    let mut records: Vec<DeltaRecord> = Vec::new();
    let mut changed: Vec<LogicalNodeId> = Vec::new();
    let mut explanatory: Vec<LogicalNodeId> = Vec::new();
    let mut n: usize = 0;
    while n < input.alignment.nodes.len()
        invariant
            n <= input.alignment.nodes@.len(),
            node_deltas_listed(input, records@, n as int),
            deltas_justified(input, records@),
        decreases input.alignment.nodes.len() - n,
    {
        let alignment = &input.alignment.nodes[n];
        let ghost current = n as int;
        let ghost records_at_start = records@;
        n = n + 1;
        let before_span = side_span(&input.before.graph, &alignment.before);
        let after_span = side_span(&input.after.graph, &alignment.after);
        let before_present = before_span.is_some();
        let after_present = after_span.is_some();
        if !before_present && !after_present {
            continue;
        }
        let logical = alignment.logical;
        match (&alignment.before, &alignment.after) {
            (None, Some(after_id)) => {
                if after_present {
                    insert_logical(&mut changed, logical);
                    insert_logical(&mut explanatory, logical);
                    insert_record(
                        &mut records,
                        FlowDelta::NodeAdded { after: after_id.clone() },
                        single_group(group_for(&input, logical)),
                        None,
                        clone_span(&after_span),
                        None,
                    );
                }
            },
            (Some(before_id), None) => {
                if before_present {
                    insert_logical(&mut changed, logical);
                    insert_logical(&mut explanatory, logical);
                    insert_record(
                        &mut records,
                        FlowDelta::NodeRemoved { before: before_id.clone() },
                        single_group(group_for(&input, logical)),
                        clone_span(&before_span),
                        None,
                        None,
                    );
                }
            },
            (Some(before_id), Some(after_id)) => {
                if before_present != after_present {
                    insert_logical(&mut explanatory, logical);
                    let change = if after_present {
                        MembershipChange::Entered
                    } else {
                        MembershipChange::Left
                    };
                    insert_record(
                        &mut records,
                        FlowDelta::SliceMembershipChanged { logical, change },
                        single_group(group_for(&input, logical)),
                        clone_span(&before_span),
                        clone_span(&after_span),
                        None,
                    );
                }
                let ghost records_membership = records@;
                let old = fingerprint_of(&input.alignment.before_fingerprints, before_id);
                let new = fingerprint_of(&input.alignment.after_fingerprints, after_id);
                if let (Some(o), Some(w)) = (&old, &new) {
                    let differ = *o != *w;
                    proof {
                        assert(differ == (o@ != w@));
                    }
                    if differ {
                        insert_logical(&mut changed, logical);
                        insert_logical(&mut explanatory, logical);
                        insert_record(
                            &mut records,
                            FlowDelta::OperationChanged {
                                logical,
                                before: before_id.clone(),
                                after: after_id.clone(),
                            },
                            single_group(group_for(&input, logical)),
                            clone_span(&before_span),
                            clone_span(&after_span),
                            None,
                        );
                        proof {
                            if let Some(d) = node_delta_owed(input, input.alignment.nodes@[current]) {
                                if delta_listed(records_membership, d) {
                                    lemma_listed_kept(records_membership, records@, d);
                                }
                            }
                        }
                    }
                }
            },
            _ => {},
        }
        let ghost records_mid = records@;
        proof {
            assert(input.alignment.nodes@[current] == *alignment);
            assert(node_delta_owed(input, input.alignment.nodes@[current]) matches Some(d) ==> delta_listed(
                records_mid,
                d,
            ));
            assert(operation_change_owed(input, input.alignment.nodes@[current]) matches Some(d) ==> delta_listed(
                records_mid,
                d,
            ));
        }
        let old_write = write_presence(alignment.before.as_ref(), input.before_ir, input.before_binding);
        let new_write = write_presence(alignment.after.as_ref(), input.after_ir, input.after_binding);
        match (old_write, new_write) {
            (RelationPresence::Absent, RelationPresence::Present) => {
                if let Some(after_id) = &alignment.after {
                    insert_logical(&mut explanatory, logical);
                    insert_record(
                        &mut records,
                        FlowDelta::WriteAdded { after: after_id.clone() },
                        single_group(group_for(&input, logical)),
                        clone_span(&before_span),
                        clone_span(&after_span),
                        None,
                    );
                }
            },
            (RelationPresence::Present, RelationPresence::Absent) => {
                if let Some(before_id) = &alignment.before {
                    insert_logical(&mut explanatory, logical);
                    insert_record(
                        &mut records,
                        FlowDelta::WriteRemoved { before: before_id.clone() },
                        single_group(group_for(&input, logical)),
                        clone_span(&before_span),
                        clone_span(&after_span),
                        None,
                    );
                }
            },
            (RelationPresence::Unknown, _) | (_, RelationPresence::Unknown) => {
                let side = if old_write == RelationPresence::Unknown {
                    SnapshotSide::Before
                } else {
                    SnapshotSide::After
                };
                insert_record(
                    &mut records,
                    FlowDelta::AnalysisUnknown {
                        subject: String::from_str("write:").concat(logical.0.to_string().as_str()),
                        side: Some(side),
                        diagnostic: DiagnosticCode::UnknownExternalEffect,
                    },
                    Vec::new(),
                    clone_span(&before_span),
                    clone_span(&after_span),
                    None,
                );
            },
            _ => {},
        }
        proof {
            assert forall|j: int| 0 <= j < records_mid.len() implies (#[trigger] records@[j]).delta
                == records_mid[j].delta by {}
            assert forall|m: int| 0 <= m < n implies (node_delta_owed(
                input,
                #[trigger] input.alignment.nodes@[m],
            ) matches Some(d) ==> delta_listed(records@, d)) && (operation_change_owed(
                input,
                input.alignment.nodes@[m],
            ) matches Some(d) ==> delta_listed(records@, d)) by {
                if let Some(d) = node_delta_owed(input, input.alignment.nodes@[m]) {
                    if m < current {
                        assert(delta_listed(records_at_start, d));
                        lemma_listed_kept(records_at_start, records@, d);
                    } else {
                        lemma_listed_kept(records_mid, records@, d);
                    }
                }
                if let Some(d) = operation_change_owed(input, input.alignment.nodes@[m]) {
                    if m < current {
                        assert(delta_listed(records_at_start, d));
                        lemma_listed_kept(records_at_start, records@, d);
                    } else {
                        lemma_listed_kept(records_mid, records@, d);
                    }
                }
            }
        }
    }
    let ghost node_records = records@;
    let reordered = reordered_nodes(input.alignment, &input.before.graph, &input.after.graph);
    let mut k: usize = 0;
    while k < reordered.len()
        invariant
            k <= reordered@.len(),
        decreases reordered.len() - k,
    {
        insert_logical(&mut explanatory, reordered[k]);
        k = k + 1;
    }
    // Every relation identity seen on either side or named by a proof.
    let mut keys: Vec<RelationIdentity> = Vec::new();
    let mut source: usize = 0;
    while source < 4
        invariant
            source <= 4,
            source >= 1 ==> forall|i: int| 0 <= i < before_relations@.len() ==> keyed(keys@, #[trigger] before_relations@[i].0),
            source >= 2 ==> forall|i: int| 0 <= i < after_relations@.len() ==> keyed(keys@, #[trigger] after_relations@[i].0),
            source >= 3 ==> forall|i: int| 0 <= i < input.before_presence@.len() ==> keyed(keys@, #[trigger] input.before_presence@[i].0),
            source >= 4 ==> forall|i: int| 0 <= i < input.after_presence@.len() ==> keyed(keys@, #[trigger] input.after_presence@[i].0),
        decreases 4 - source,
    {
        let mut list: Vec<RelationIdentity> = Vec::new();
        if source == 0 {
            let mut j: usize = 0;
            while j < before_relations.len()
                invariant
                    j <= before_relations@.len(),
                    list@.len() == j,
                    forall|t: int| 0 <= t < j ==> #[trigger] list@[t] == before_relations@[t].0,
                decreases before_relations.len() - j,
            {
                list.push(clone_relation(&before_relations[j].0));
                j = j + 1;
            }
        } else if source == 1 {
            let mut j: usize = 0;
            while j < after_relations.len()
                invariant
                    j <= after_relations@.len(),
                    list@.len() == j,
                    forall|t: int| 0 <= t < j ==> #[trigger] list@[t] == after_relations@[t].0,
                decreases after_relations.len() - j,
            {
                list.push(clone_relation(&after_relations[j].0));
                j = j + 1;
            }
        } else {
            let proofs = if source == 2 {
                input.before_presence
            } else {
                input.after_presence
            };
            let mut j: usize = 0;
            while j < proofs.len()
                invariant
                    j <= proofs@.len(),
                    list@.len() == j,
                    forall|t: int| 0 <= t < j ==> #[trigger] list@[t] == proofs@[t].0,
                decreases proofs.len() - j,
            {
                list.push(clone_relation(&proofs[j].0));
                j = j + 1;
            }
        }
        let ghost keys_start = keys@;
        let mut j: usize = 0;
        while j < list.len()
            invariant
                j <= list@.len(),
                keys@.len() >= keys_start.len(),
                forall|m: int| 0 <= m < keys_start.len() ==> #[trigger] keys@[m] == keys_start[m],
                forall|t: int| 0 <= t < j ==> keyed(keys@, #[trigger] list@[t]),
            decreases list.len() - j,
        {
            let mut present = false;
            let mut i: usize = 0;
            while i < keys.len()
                invariant
                    i <= keys@.len(),
                    j < list@.len(),
                    present ==> keyed(keys@, list@[j as int]),
                decreases keys.len() - i,
            {
                if relation_equal(&keys[i], &list[j]) {
                    present = true;
                }
                i = i + 1;
            }
            let ghost keys_before = keys@;
            if !present {
                keys.push(clone_relation(&list[j]));
                proof {
                    assert(relation_same(keys@[keys@.len() - 1], list@[j as int]));
                }
            }
            proof {
                assert forall|t: int| 0 <= t <= j implies keyed(keys@, #[trigger] list@[t]) by {
                    if t < j || present {
                        let m = choose|m: int| 0 <= m < keys_before.len() && relation_same(#[trigger] keys_before[m], list@[t]);
                        assert(keys@[m] == keys_before[m]);
                    }
                }
            }
            j = j + 1;
        }
        proof {
            assert forall|r: RelationIdentity| keyed(keys_start, r) implies keyed(keys@, r) by {
                let m = choose|m: int| 0 <= m < keys_start.len() && relation_same(#[trigger] keys_start[m], r);
                assert(keys@[m] == keys_start[m]);
            }
            if source == 0 {
                assert forall|i: int| 0 <= i < before_relations@.len() implies keyed(keys@, #[trigger] before_relations@[i].0) by {
                    assert(list@[i] == before_relations@[i].0);
                }
            } else if source == 1 {
                assert forall|i: int| 0 <= i < after_relations@.len() implies keyed(keys@, #[trigger] after_relations@[i].0) by {
                    assert(list@[i] == after_relations@[i].0);
                }
            } else if source == 2 {
                assert forall|i: int| 0 <= i < input.before_presence@.len() implies keyed(keys@, #[trigger] input.before_presence@[i].0) by {
                    assert(list@[i] == input.before_presence@[i].0);
                }
            } else {
                assert forall|i: int| 0 <= i < input.after_presence@.len() implies keyed(keys@, #[trigger] input.after_presence@[i].0) by {
                    assert(list@[i] == input.after_presence@[i].0);
                }
            }
        }
        source = source + 1;
    }
    let mut q: usize = 0;
    while q < keys.len()
        invariant
            q <= keys@.len(),
            slices_resolved(input),
            records@.len() >= node_records.len(),
            forall|j: int| 0 <= j < node_records.len() ==> (#[trigger] records@[j]).delta == node_records[j].delta,
            node_deltas_listed(input, node_records, input.alignment.nodes@.len() as int),
            keys_unique(before_relations@),
            keys_unique(after_relations@),
            forall|k: RelationIdentity|
                #[trigger] list_presence(before_relations@, k) == graph_presence(
                    input.before.graph.edges@,
                    before_ids@,
                    ambiguous@,
                    k,
                ),
            forall|k: RelationIdentity|
                #[trigger] list_presence(after_relations@, k) == graph_presence(
                    input.after.graph.edges@,
                    after_ids@,
                    ambiguous@,
                    k,
                ),
            before_ids@ == side_pairs(input.alignment.nodes@, SnapshotSide::Before),
            after_ids@ == side_pairs(input.alignment.nodes@, SnapshotSide::After),
            forall|id: NodeId| #[trigger] node_ambiguous(ambiguous@, id) == named_by(
                input.alignment.ambiguities@,
                AlignmentEntity::Node(id),
            ),
            forall|m: int| 0 <= m < q ==> relation_deltas_listed(input, records@, #[trigger] keys@[m]),
            deltas_justified(input, records@),
        decreases keys.len() - q,
    {
        let key = &keys[q];
        let ghost current = q as int;
        let ghost records_at_start = records@;
        q = q + 1;
        let old = relation_at(&before_relations, key);
        let new = relation_at(&after_relations, key);
        let old_presence = presence(
            observed(old),
            presence_proof(input.before_presence, key),
            input.before.extent.upstream,
            input.before.extent.downstream,
            key,
        )?;
        let new_presence = presence(
            observed(new),
            presence_proof(input.after_presence, key),
            input.after.extent.upstream,
            input.after.extent.downstream,
            key,
        )?;
        proof {
            lemma_graph_observation(
                input.before.graph.edges@,
                before_ids@,
                ambiguous@,
                input.alignment.ambiguities@,
                *key,
            );
            lemma_graph_observation(
                input.after.graph.edges@,
                after_ids@,
                ambiguous@,
                input.alignment.ambiguities@,
                *key,
            );
            assert(relation_presence(input, *key, true) == Some(old_presence));
            assert(relation_presence(input, *key, false) == Some(new_presence));
            assert(*key == keys@[current]);
            assert(RelationIdentity {
                source: key.source,
                target: key.target,
                kind: key.kind,
                projection: key.projection,
            } == *key);
        }
        let groups = related_groups(&input, key, &explanatory, &before_relations, &after_relations);
        let (before_span, after_span) = relation_spans(
            key,
            input.alignment,
            &input.before.graph,
            &input.after.graph,
        );
        match (old_presence, new_presence) {
            (RelationPresence::Absent, RelationPresence::Present) => {
                let condition = match new {
                    Some(e) => e.condition(),
                    None => None,
                };
                insert_record(
                    &mut records,
                    FlowDelta::FlowAdded {
                        source: key.source,
                        target: key.target,
                        relation: key.kind,
                        projection: clone_option_text(&key.projection),
                    },
                    groups,
                    before_span,
                    after_span,
                    condition,
                );
            },
            (RelationPresence::Present, RelationPresence::Absent) => {
                let condition = match old {
                    Some(e) => e.condition(),
                    None => None,
                };
                insert_record(
                    &mut records,
                    FlowDelta::FlowRemoved {
                        source: key.source,
                        target: key.target,
                        relation: key.kind,
                        projection: clone_option_text(&key.projection),
                    },
                    groups,
                    before_span,
                    after_span,
                    condition,
                );
            },
            (RelationPresence::Present, RelationPresence::Present) => {
                if let (Some(o), Some(w)) = (old, new) {
                    let old_condition = o.condition();
                    let new_condition = w.condition();
                    if !option_text_equal(&old_condition, &new_condition) {
                        let verdict = match condition_proof(input.condition_proofs, key) {
                            Some(v) => v,
                            None => compare_boolean_conditions(&o.conditions, &w.conditions),
                        };
                        match verdict {
                            ConditionComparison::Different => {
                                let before_text = match old_condition {
                                    Some(t) => t,
                                    None => String::from_str("true"),
                                };
                                let after_text = match new_condition {
                                    Some(t) => t,
                                    None => String::from_str("true"),
                                };
                                insert_record(
                                    &mut records,
                                    FlowDelta::FlowConditionChanged {
                                        source: key.source,
                                        target: key.target,
                                        relation: key.kind,
                                        projection: clone_option_text(&key.projection),
                                        before: before_text,
                                        after: after_text,
                                    },
                                    groups,
                                    before_span,
                                    after_span,
                                    None,
                                );
                            },
                            ConditionComparison::Unknown => {
                                insert_record(
                                    &mut records,
                                    FlowDelta::AnalysisUnknown {
                                        subject: String::from_str("condition:").concat(
                                            debug_text(key).as_str(),
                                        ),
                                        side: None,
                                        diagnostic: DiagnosticCode::UnprovenPathFeasibility,
                                    },
                                    Vec::new(),
                                    before_span,
                                    after_span,
                                    None,
                                );
                            },
                            ConditionComparison::Equivalent => {},
                        }
                    }
                }
            },
            (RelationPresence::Unknown, _) | (_, RelationPresence::Unknown) => {
                let before_side = old_presence == RelationPresence::Unknown;
                let chosen = if before_side {
                    old
                } else {
                    new
                };
                let diagnostic = match chosen {
                    Some(e) => match &e.evidence {
                        EvidenceKind::Unresolved { diagnostic } => *diagnostic,
                        _ => DiagnosticCode::UnsupportedSyntax,
                    },
                    None => DiagnosticCode::UnsupportedSyntax,
                };
                insert_record(
                    &mut records,
                    FlowDelta::AnalysisUnknown {
                        subject: String::from_str("presence:").concat(debug_text(key).as_str()),
                        side: Some(
                            if before_side {
                                SnapshotSide::Before
                            } else {
                                SnapshotSide::After
                            },
                        ),
                        diagnostic,
                    },
                    Vec::new(),
                    before_span,
                    after_span,
                    None,
                );
            },
            _ => {},
        }
        proof {
            assert forall|j: int| 0 <= j < records_at_start.len() implies (#[trigger] records@[j]).delta
                == records_at_start[j].delta by {}
            assert forall|m: int| 0 <= m < q implies relation_deltas_listed(input, records@, #[trigger] keys@[m]) by {
                let km = keys@[m];
                if m < current {
                    assert(relation_deltas_listed(input, records_at_start, km));
                    if relation_presence(input, km, true) == Some(RelationPresence::Absent) && relation_presence(
                        input,
                        km,
                        false,
                    ) == Some(RelationPresence::Present) {
                        lemma_listed_kept(records_at_start, records@, flow_delta_for(km, true));
                    }
                    if relation_presence(input, km, true) == Some(RelationPresence::Present) && relation_presence(
                        input,
                        km,
                        false,
                    ) == Some(RelationPresence::Absent) {
                        lemma_listed_kept(records_at_start, records@, flow_delta_for(km, false));
                    }
                }
            }
        }
    }
    let ghost flow_records = records@;
    proof {
        assert forall|key: RelationIdentity| #[trigger] relation_deltas_listed(input, flow_records, key) by {
            lemma_relation_deltas(input, flow_records, keys@, before_relations@, after_relations@, ambiguous@, key);
        }
    }
    let ghost before_sources = records@;
    compare_sources(&input, &before_relations, &after_relations, &changed, &explanatory, &mut records);
    proof {
        assert forall|k: int| 0 <= k < records@.len() implies flow_delta_justified(input, #[trigger] records@[k].delta) by {
            if k < before_sources.len() {
                assert(records@[k].delta == before_sources[k].delta);
            }
        }
    }
    let ambiguities = &input.alignment.ambiguities;
    let mut a: usize = 0;
    while a < ambiguities.len()
        invariant
            a <= ambiguities@.len(),
            ambiguities == &input.alignment.ambiguities,
            records@.len() >= node_records.len(),
            forall|j: int| 0 <= j < node_records.len() ==> (#[trigger] records@[j]).delta == node_records[j].delta,
            node_deltas_listed(input, node_records, input.alignment.nodes@.len() as int),
            records@.len() >= flow_records.len(),
            forall|j: int| 0 <= j < flow_records.len() ==> (#[trigger] records@[j]).delta == flow_records[j].delta,
            forall|key: RelationIdentity| #[trigger] relation_deltas_listed(input, flow_records, key),
            deltas_justified(input, records@),
            a > 0 ==> exists|k: int|
                0 <= k < records@.len() && unknown_code((#[trigger] records@[k]).delta) == Some(
                    DiagnosticCode::AmbiguousMatch,
                ),
        decreases ambiguities.len() - a,
    {
        insert_record(
            &mut records,
            FlowDelta::AnalysisUnknown {
                subject: String::from_str("alignment:").concat(
                    debug_text(&ambiguities[a].candidates).as_str(),
                ),
                side: None,
                diagnostic: DiagnosticCode::AmbiguousMatch,
            },
            Vec::new(),
            None,
            None,
            None,
        );
        a = a + 1;
    }
    proof {
        assert(a == ambiguities@.len());
        assert(input.alignment.ambiguities@.len() > 0 ==> exists|k: int|
            0 <= k < records@.len() && unknown_code((#[trigger] records@[k]).delta) == Some(
                DiagnosticCode::AmbiguousMatch,
            ));
    }
    proof {
        assert forall|m: int| 0 <= m < input.alignment.nodes@.len() implies (node_delta_owed(
            input,
            #[trigger] input.alignment.nodes@[m],
        ) matches Some(d) ==> delta_listed(records@, d)) && (operation_change_owed(
            input,
            input.alignment.nodes@[m],
        ) matches Some(d) ==> delta_listed(records@, d)) by {
            if let Some(d) = node_delta_owed(input, input.alignment.nodes@[m]) {
                lemma_listed_kept(node_records, records@, d);
            }
            if let Some(d) = operation_change_owed(input, input.alignment.nodes@[m]) {
                lemma_listed_kept(node_records, records@, d);
            }
        }
    }
    proof {
        assert forall|key: RelationIdentity| #[trigger] relation_deltas_listed(input, records@, key) by {
            assert(relation_deltas_listed(input, flow_records, key));
            if relation_presence(input, key, true) == Some(RelationPresence::Absent) && relation_presence(
                input,
                key,
                false,
            ) == Some(RelationPresence::Present) {
                lemma_listed_kept(flow_records, records@, flow_delta_for(key, true));
            }
            if relation_presence(input, key, true) == Some(RelationPresence::Present) && relation_presence(
                input,
                key,
                false,
            ) == Some(RelationPresence::Absent) {
                lemma_listed_kept(flow_records, records@, flow_delta_for(key, false));
            }
        }
    }
    let out = ComparisonOutput { deltas: records };
    proof {
        if input.alignment.ambiguities@.len() > 0 {
            let k = choose|k: int|
                0 <= k < records@.len() && unknown_code((#[trigger] records@[k]).delta) == Some(
                    DiagnosticCode::AmbiguousMatch,
                );
            assert(unknown_code(out.deltas@[k].delta) == Some(DiagnosticCode::AmbiguousMatch));
        }
        assert(input.alignment.ambiguities@.len() > 0 ==> exists|k: int|
            0 <= k < out.deltas@.len() && unknown_code((#[trigger] out.deltas@[k]).delta) == Some(
                DiagnosticCode::AmbiguousMatch,
            ));
    }
    let res: Result<ComparisonOutput, ComparisonError> = Ok(out);
    assert(res matches Ok(o) ==> o.deltas@ == records@);
    res
}

} // verus!
