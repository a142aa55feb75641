//! Deterministic cross-revision identity alignment: which declarations and
//! operations of two lowered versions of one procedure may be compared.
use vstd::prelude::*;
use crate::ifds::ir::{ComputeInputRole, Operation, ProcedureIr, find_node, LiteralKind,
    PrimitiveOperator, UnknownEffectKind};
use crate::ifds::branches::char_text;
use crate::ifds::model::{
    Alignment, AlignmentAmbiguity, AlignmentCandidate, AlignmentEntity, BindingAlignment,
    BindingId, Diagnostic, DiagnosticCode, FileChangeKind, LogicalBindingId, LogicalNodeId, NodeId,
    Place, RepositoryDiff, SnapshotSide, SourceSpan,
};

verus! {

#[derive(Debug, Clone, Copy, PartialEq, Eq, PartialOrd, Ord, Structural)]
pub enum AlignableBindingRole {
    Local,
    Parameter,
}

#[derive(Debug, Clone, Copy, PartialEq, Eq, PartialOrd, Ord, Structural)]
pub enum AlignableScopeRole {
    Program,
    Function,
    Block,
}

/// A declaration that alignment may pair: its lexical role, the kinds of
/// the scopes from the program down to it, and its enclosing symbol.
#[derive(Debug, Clone, PartialEq, Eq, PartialOrd, Ord)]
pub struct AlignableBinding {
    pub id: BindingId,
    pub name: String,
    pub role: AlignableBindingRole,
    pub declaration: SourceSpan,
    pub enclosing_symbol: Option<String>,
    pub scope_path: Vec<AlignableScopeRole>,
}

#[derive(Debug, Clone, PartialEq, Eq)]
pub struct AlignmentResult {
    pub bindings: Vec<BindingAlignment>,
    pub nodes: Vec<Alignment>,
    pub ambiguities: Vec<AlignmentAmbiguity>,
    pub diagnostics: Vec<Diagnostic>,
    pub before_fingerprints: Vec<(NodeId, String)>,
    pub after_fingerprints: Vec<(NodeId, String)>,
}

#[derive(Debug, Clone, PartialEq, Eq)]
pub enum AlignmentError {
    InvalidSnapshots(String),
    MissingSelectedBinding(BindingId),
    MissingCounterpart(BindingId),
    IncompatibleCounterpart(String),
}

/// A pair of aligned identities with the evidence for it.
type NodePair = (NodeId, NodeId, String);

// ---------------------------------------------------------------------------
// Small helpers.

fn option_text_equal(a: &Option<String>, b: &Option<String>) -> (res: bool)
    ensures
        res == match (a, b) {
            (Some(x), Some(y)) => x@ == y@,
            (None, None) => true,
            _ => false,
        },
{
    match (a, b) {
        (Some(x), Some(y)) => *x == *y,
        (None, None) => true,
        _ => false,
    }
}

fn scope_paths_equal(a: &Vec<AlignableScopeRole>, b: &Vec<AlignableScopeRole>) -> (res: bool)
    ensures
        res == (a@ == b@),
{
    if a.len() != b.len() {
        return false;
    }
    let mut i: usize = 0;
    while i < a.len()
        invariant
            a@.len() == b@.len(),
            i <= a@.len(),
            forall|j: int| 0 <= j < i ==> a@[j] == b@[j],
        decreases a.len() - i,
    {
        if a[i] != b[i] {
            return false;
        }
        i = i + 1;
    }
    proof {
        assert(a@ =~= b@);
    }
    true
}

/// Position `k` holds the first binding with the identifier.
pub open spec fn first_binding_at(bindings: Seq<AlignableBinding>, id: BindingId, k: int) -> bool {
    &&& 0 <= k < bindings.len()
    &&& bindings[k].id@ == id@
    &&& forall|j: int| 0 <= j < k ==> (#[trigger] bindings[j]).id@ != id@
}

/// The position of the first binding with the identifier.
pub open spec fn first_binding(bindings: Seq<AlignableBinding>, id: BindingId) -> int {
    choose|k: int| first_binding_at(bindings, id, k)
}

proof fn lemma_first_binding(bindings: Seq<AlignableBinding>, id: BindingId, k: int)
    requires
        first_binding_at(bindings, id, k),
    ensures
        first_binding(bindings, id) == k,
{
    let c = first_binding(bindings, id);
    assert(first_binding_at(bindings, id, c));
    if c < k {
        assert(bindings[c].id@ != id@);
    } else if k < c {
        assert(bindings[k].id@ != id@);
    }
}

fn find_binding(bindings: &[AlignableBinding], id: &BindingId) -> (res: Option<usize>)
    ensures
        match res {
            Some(i) => first_binding_at(bindings@, *id, i as int),
            None => forall|j: int| 0 <= j < bindings@.len() ==> (#[trigger] bindings@[j]).id@ != id@,
        },
{
    let mut i: usize = 0;
    while i < bindings.len()
        invariant
            i <= bindings@.len(),
            forall|j: int| 0 <= j < i ==> (#[trigger] bindings@[j]).id@ != id@,
        decreases bindings.len() - i,
    {
        if bindings[i].id.same(id) {
            return Some(i);
        }
        i = i + 1;
    }
    None
}

/// A change that renames `before` to `after`.
pub open spec fn renamed_between(change: crate::ifds::model::FileChange, before: Seq<char>, after: Seq<char>) -> bool {
    change.kind == FileChangeKind::Renamed && (change.before_path matches Some(b) && b@ == before)
        && (change.after_path matches Some(a) && a@ == after)
}

/// Whether two paths are the same file, or a rename in the diff maps one to
/// the other.
pub fn paths_correspond(before: &String, after: &String, diff: &RepositoryDiff) -> (res: bool)
    ensures
        res == (before@ == after@ || exists|i: int| 0 <= i < diff.changes@.len() && renamed_between(
            #[trigger] diff.changes@[i],
            before@,
            after@,
        )),
{
    if *before == *after {
        return true;
    }
    let mut k: usize = 0;
    while k < diff.changes.len()
        invariant
            k <= diff.changes@.len(),
            forall|i: int| 0 <= i < k ==> !renamed_between(#[trigger] diff.changes@[i], before@, after@),
        decreases diff.changes.len() - k,
    {
        let change = &diff.changes[k];
        if change.kind == FileChangeKind::Renamed && option_text_equal(
            &change.before_path,
            &Some(before.clone()),
        ) && option_text_equal(&change.after_path, &Some(after.clone())) {
            return true;
        }
        k = k + 1;
    }
    false
}

fn pair_contains_before(pairs: &Vec<NodePair>, id: &NodeId) -> bool {
    let mut k: usize = 0;
    while k < pairs.len()
        invariant
            k <= pairs@.len(),
        decreases pairs.len() - k,
    {
        if pairs[k].0.same(id) {
            return true;
        }
        k = k + 1;
    }
    false
}

fn pair_contains_after(pairs: &Vec<NodePair>, id: &NodeId) -> bool {
    let mut k: usize = 0;
    while k < pairs.len()
        invariant
            k <= pairs@.len(),
        decreases pairs.len() - k,
    {
        if pairs[k].1.same(id) {
            return true;
        }
        k = k + 1;
    }
    false
}

fn clone_pair(p: &NodePair) -> (res: NodePair)
    ensures
        res == *p,
{
    (p.0.clone(), p.1.clone(), p.2.clone())
}

fn clone_binding_pair(p: &(BindingId, BindingId, String)) -> (BindingId, BindingId, String) {
    (p.0.clone(), p.1.clone(), p.2.clone())
}

fn clone_pairs(pairs: &Vec<NodePair>) -> (out: Vec<NodePair>)
    ensures
        out@ == pairs@,
{
    let mut res: Vec<NodePair> = Vec::new();
    let mut k: usize = 0;
    while k < pairs.len()
        invariant
            k <= pairs@.len(),
            res@ == pairs@.take(k as int),
        decreases pairs.len() - k,
    {
        proof {
            assert(pairs@.take(k + 1) =~= pairs@.take(k as int).push(pairs@[k as int]));
        }
        res.push(clone_pair(&pairs[k]));
        k = k + 1;
    }
    proof {
        assert(pairs@.take(k as int) =~= pairs@);
    }
    res
}

/// Adds a pair unless an equal one is present.
/// Two node pairs with the same nodes and label.
pub open spec fn pair_same(a: NodePair, b: NodePair) -> bool {
    a.0@ == b.0@ && a.1@ == b.1@ && a.2@ == b.2@
}

fn insert_pair(pairs: &mut Vec<NodePair>, pair: NodePair)
    ensures
        if exists|i: int| 0 <= i < old(pairs)@.len() && pair_same(#[trigger] old(pairs)@[i], pair) {
            final(pairs)@ == old(pairs)@
        } else {
            final(pairs)@ == old(pairs)@.push(pair)
        },
{
    let mut k: usize = 0;
    while k < pairs.len()
        invariant
            k <= pairs@.len(),
            pairs@ == old(pairs)@,
            forall|i: int| 0 <= i < k ==> !pair_same(#[trigger] pairs@[i], pair),
        decreases pairs.len() - k,
    {
        if pairs[k].0.same(&pair.0) && pairs[k].1.same(&pair.1) && pairs[k].2 == pair.2 {
            proof {
                assert(pair_same(pairs@[k as int], pair));
            }
            return;
        }
        k = k + 1;
    }
    pairs.push(pair);
}

fn contains_node_id(ids: &Vec<NodeId>, id: &NodeId) -> bool {
    let mut k: usize = 0;
    while k < ids.len()
        invariant
            k <= ids@.len(),
        decreases ids.len() - k,
    {
        if ids[k].same(id) {
            return true;
        }
        k = k + 1;
    }
    false
}

/// Two entities of the same kind with the same identity.
pub open spec fn entity_matches(a: AlignmentEntity, b: AlignmentEntity) -> bool {
    match (a, b) {
        (AlignmentEntity::Binding(x), AlignmentEntity::Binding(y)) => x@ == y@,
        (AlignmentEntity::Node(x), AlignmentEntity::Node(y)) => x@ == y@,
        _ => false,
    }
}

fn entity_same(a: &AlignmentEntity, b: &AlignmentEntity) -> (res: bool)
    ensures
        res == entity_matches(*a, *b),
{
    match (a, b) {
        (AlignmentEntity::Binding(x), AlignmentEntity::Binding(y)) => x.same(y),
        (AlignmentEntity::Node(x), AlignmentEntity::Node(y)) => x.same(y),
        _ => false,
    }
}

fn entity_clone(e: &AlignmentEntity) -> (res: AlignmentEntity)
    ensures
        res == *e,
{
    match e {
        AlignmentEntity::Binding(x) => AlignmentEntity::Binding(x.clone()),
        AlignmentEntity::Node(x) => AlignmentEntity::Node(x.clone()),
    }
}

/// An entity that some candidate of an ambiguity names on either side.
pub open spec fn named_by(ambiguities: Seq<AlignmentAmbiguity>, e: AlignmentEntity) -> bool {
    exists|x: int, c: int|
        0 <= x < ambiguities.len() && 0 <= c < ambiguities[x].candidates@.len() && (entity_matches(
            #[trigger] ambiguities[x].candidates@[c].before,
            e,
        ) || entity_matches(ambiguities[x].candidates@[c].after, e))
}

/// An entity that the list holds.
pub open spec fn listed(entities: Seq<AlignmentEntity>, e: AlignmentEntity) -> bool {
    exists|i: int| 0 <= i < entities.len() && entity_matches(#[trigger] entities[i], e)
}

proof fn lemma_listed_push(entities: Seq<AlignmentEntity>, x: AlignmentEntity)
    ensures
        forall|e: AlignmentEntity| listed(entities, e) ==> #[trigger] listed(entities.push(x), e),
        listed(entities.push(x), x),
{
    assert forall|e: AlignmentEntity| listed(entities, e) implies #[trigger] listed(entities.push(x), e) by {
        let i = choose|i: int| 0 <= i < entities.len() && entity_matches(#[trigger] entities[i], e);
        assert(entities.push(x)[i] == entities[i]);
    }
    assert(entities.push(x)[entities.len() as int] == x);
    assert(entity_matches(x, x));
}

/// Every declaration and operation that an ambiguity names.
pub fn ambiguous_entities(ambiguities: &Vec<AlignmentAmbiguity>) -> (entities: Vec<AlignmentEntity>)
    ensures
        forall|i: int| 0 <= i < entities@.len() ==> named_by(ambiguities@, #[trigger] entities@[i]),
        forall|x: int, c: int|
            0 <= x < ambiguities@.len() && 0 <= c < ambiguities@[x].candidates@.len() ==> listed(
                entities@,
                #[trigger] ambiguities@[x].candidates@[c].before,
            ) && listed(entities@, ambiguities@[x].candidates@[c].after),
{
    let mut entities: Vec<AlignmentEntity> = Vec::new();
    let mut a: usize = 0;
    while a < ambiguities.len()
        invariant
            a <= ambiguities@.len(),
            forall|i: int| 0 <= i < entities@.len() ==> named_by(ambiguities@, #[trigger] entities@[i]),
            forall|x: int, c: int|
                0 <= x < a && 0 <= c < ambiguities@[x].candidates@.len() ==> listed(
                    entities@,
                    #[trigger] ambiguities@[x].candidates@[c].before,
                ) && listed(entities@, ambiguities@[x].candidates@[c].after),
        decreases ambiguities.len() - a,
    {
        let candidates = &ambiguities[a].candidates;
        let mut c: usize = 0;
        while c < candidates.len()
            invariant
                a < ambiguities@.len(),
                candidates == &ambiguities@[a as int].candidates,
                c <= candidates@.len(),
                forall|i: int| 0 <= i < entities@.len() ==> named_by(ambiguities@, #[trigger] entities@[i]),
                forall|x: int, d: int|
                    0 <= x < a && 0 <= d < ambiguities@[x].candidates@.len() ==> listed(
                        entities@,
                        #[trigger] ambiguities@[x].candidates@[d].before,
                    ) && listed(entities@, ambiguities@[x].candidates@[d].after),
                forall|d: int|
                    0 <= d < c ==> listed(entities@, #[trigger] candidates@[d].before) && listed(
                        entities@,
                        candidates@[d].after,
                    ),
            decreases candidates.len() - c,
        {
            let sides = [entity_clone(&candidates[c].before), entity_clone(&candidates[c].after)];
            let mut s: usize = 0;
            while s < 2
                invariant
                    a < ambiguities@.len(),
                    candidates == &ambiguities@[a as int].candidates,
                    c < candidates@.len(),
                    s <= 2,
                    sides@[0] == candidates@[c as int].before,
                    sides@[1] == candidates@[c as int].after,
                    forall|i: int| 0 <= i < entities@.len() ==> named_by(ambiguities@, #[trigger] entities@[i]),
                    forall|x: int, d: int|
                        0 <= x < a && 0 <= d < ambiguities@[x].candidates@.len() ==> listed(
                            entities@,
                            #[trigger] ambiguities@[x].candidates@[d].before,
                        ) && listed(entities@, ambiguities@[x].candidates@[d].after),
                    forall|d: int|
                        0 <= d < c ==> listed(entities@, #[trigger] candidates@[d].before) && listed(
                            entities@,
                            candidates@[d].after,
                        ),
                    s >= 1 ==> listed(entities@, sides@[0]),
                    s >= 2 ==> listed(entities@, sides@[1]),
                decreases 2 - s,
            {
                let mut present = false;
                let mut k: usize = 0;
                while k < entities.len()
                    invariant
                        k <= entities@.len(),
                        s < 2,
                        present == exists|i: int| 0 <= i < k && entity_matches(#[trigger] entities@[i], sides@[s as int]),
                    decreases entities.len() - k,
                {
                    if entity_same(&entities[k], &sides[s]) {
                        present = true;
                    }
                    k = k + 1;
                }
                if !present {
                    let ghost before = entities@;
                    let e = entity_clone(&sides[s]);
                    entities.push(e);
                    proof {
                        lemma_listed_push(before, e);
                        assert(entities@ == before.push(e));
                        assert forall|i: int| 0 <= i < entities@.len() implies named_by(ambiguities@, #[trigger] entities@[i]) by {
                            if i == before.len() {
                                let cand = candidates@[c as int];
                                assert(cand == ambiguities@[a as int].candidates@[c as int]);
                                assert(entity_matches(e, e));
                                if s == 0 {
                                    assert(entity_matches(ambiguities@[a as int].candidates@[c as int].before, e));
                                } else {
                                    assert(entity_matches(ambiguities@[a as int].candidates@[c as int].after, e));
                                }
                            } else {
                                assert(entities@[i] == before[i]);
                            }
                        }
                    }
                }
                s = s + 1;
            }
            c = c + 1;
        }
        a = a + 1;
    }
    entities
}

fn is_ambiguous_node(entities: &Vec<AlignmentEntity>, id: &NodeId) -> (res: bool)
    ensures
        res == exists|i: int| 0 <= i < entities@.len() && entity_matches(#[trigger] entities@[i], AlignmentEntity::Node(*id)),
{
    let target = AlignmentEntity::Node(id.clone());
    let mut k: usize = 0;
    while k < entities.len()
        invariant
            k <= entities@.len(),
            target == AlignmentEntity::Node(*id),
            forall|i: int| 0 <= i < k ==> !entity_matches(#[trigger] entities@[i], target),
        decreases entities.len() - k,
    {
        if entity_same(&entities[k], &target) {
            return true;
        }
        k = k + 1;
    }
    false
}

fn is_ambiguous_binding(entities: &Vec<AlignmentEntity>, id: &BindingId) -> (res: bool)
    ensures
        res == exists|i: int| 0 <= i < entities@.len() && entity_matches(#[trigger] entities@[i], AlignmentEntity::Binding(*id)),
{
    let target = AlignmentEntity::Binding(id.clone());
    let mut k: usize = 0;
    while k < entities.len()
        invariant
            k <= entities@.len(),
            target == AlignmentEntity::Binding(*id),
            forall|i: int| 0 <= i < k ==> !entity_matches(#[trigger] entities@[i], target),
        decreases entities.len() - k,
    {
        if entity_same(&entities[k], &target) {
            return true;
        }
        k = k + 1;
    }
    false
}

// ---------------------------------------------------------------------------
// Declarations.

/// A write of the binding whose span starts where the declaration does, in
/// the same file, and covers it.
pub open spec fn writes_declaration(node: crate::ifds::ir::IrNode, binding: BindingId, declaration: SourceSpan) -> bool {
    &&& node.operation matches Operation::Write { target: Place::Binding(target), .. } && target@ == binding@
    &&& node.span matches Some(span) && span.path@ == declaration.path@ && span.byte_start == declaration.byte_start
        && span.byte_end >= declaration.byte_end
}

/// Two declarations that may correspond: in the same or a renamed file,
/// with the same role, scope path and containing procedure.
pub open spec fn counterpart_compatible(before: AlignableBinding, after: AlignableBinding, diff: RepositoryDiff) -> bool {
    &&& (before.declaration.path@ == after.declaration.path@ || exists|i: int| 0 <= i < diff.changes@.len() && renamed_between(
        #[trigger] diff.changes@[i],
        before.declaration.path@,
        after.declaration.path@,
    ))
    &&& before.role == after.role
    &&& before.scope_path@ == after.scope_path@
    &&& crate::ifds::branches::text_view(before.enclosing_symbol) == crate::ifds::branches::text_view(after.enclosing_symbol)
}

/// The write that a binding's declaration performs: a write to the binding
/// whose span starts at the declaration and covers it.
pub fn declaration_write(procedure: &ProcedureIr, binding: &BindingId, declaration: &SourceSpan) -> (res:
    Option<NodeId>)
    ensures
        res matches Some(id) ==> exists|i: int|
            0 <= i < procedure.nodes.len() && (#[trigger] procedure.nodes@[i]).id == id,
        match res {
            Some(id) => exists|i: int|
                0 <= i < procedure.nodes.len() && writes_declaration(procedure.nodes@[i], *binding, *declaration)
                    && procedure.nodes@[i].id == id && forall|j: int|
                    0 <= j < i ==> !writes_declaration(#[trigger] procedure.nodes@[j], *binding, *declaration),
            None => forall|j: int|
                0 <= j < procedure.nodes.len() ==> !writes_declaration(#[trigger] procedure.nodes@[j], *binding, *declaration),
        },
{
    let mut i: usize = 0;
    while i < procedure.nodes.len()
        invariant
            i <= procedure.nodes@.len(),
            forall|j: int| 0 <= j < i ==> !writes_declaration(#[trigger] procedure.nodes@[j], *binding, *declaration),
        decreases procedure.nodes.len() - i,
    {
        let node = &procedure.nodes[i];
        if let Operation::Write { target: Place::Binding(target), .. } = &node.operation {
            if let Some(span) = &node.span {
                if target.same(binding) && span.path == declaration.path && span.byte_start
                    == declaration.byte_start && span.byte_end >= declaration.byte_end {
                    return Some(node.id.clone());
                }
            }
        }
        i = i + 1;
    }
    None
}

/// An explicit counterpart must be in the same (or a validly renamed) file,
/// have the same lexical role, scope path and enclosing symbol.
fn validate_explicit_counterpart(
    before: &AlignableBinding,
    after: &AlignableBinding,
    diff: &RepositoryDiff,
) -> (res: Result<(), AlignmentError>)
    ensures
        res matches Err(e) ==> e is IncompatibleCounterpart,
        res is Ok <==> counterpart_compatible(*before, *after, *diff),
{
    if !paths_correspond(&before.declaration.path, &after.declaration.path, diff) {
        return Err(
            AlignmentError::IncompatibleCounterpart(
                String::from_str("declarations are not in the same or validated-renamed file"),
            ),
        );
    }
    if before.role != after.role {
        return Err(
            AlignmentError::IncompatibleCounterpart(
                String::from_str("a parameter cannot correspond to a local declaration"),
            ),
        );
    }
    if !scope_paths_equal(&before.scope_path, &after.scope_path) || !option_text_equal(
        &before.enclosing_symbol,
        &after.enclosing_symbol,
    ) {
        return Err(
            AlignmentError::IncompatibleCounterpart(
                String::from_str(
                    "declarations have incompatible containing procedures or lexical roles",
                ),
            ),
        );
    }
    Ok(())
}

/// Two declarations share a lexical role: role, scope path, enclosing
/// symbol and name.
fn same_binding_key(a: &AlignableBinding, b: &AlignableBinding) -> bool {
    a.role == b.role && scope_paths_equal(&a.scope_path, &b.scope_path) && option_text_equal(
        &a.enclosing_symbol,
        &b.enclosing_symbol,
    ) && a.name == b.name
}

/// Indices sorted by declaration start (stable).
/// The declaration start of the binding an index names.
spec fn start_at(bindings: Seq<AlignableBinding>, indices: Seq<usize>, x: int) -> u64 {
    bindings[indices[x] as int].declaration.byte_start
}

fn sort_by_start(bindings: &[AlignableBinding], indices: &mut Vec<usize>)
    requires
        forall|k: int| 0 <= k < old(indices)@.len() ==> #[trigger] old(indices)@[k] < bindings@.len(),
    ensures
        forall|k: int| 0 <= k < final(indices)@.len() ==> #[trigger] final(indices)@[k] < bindings@.len(),
        final(indices)@.to_multiset() == old(indices)@.to_multiset(),
        forall|a: int, b: int|
            0 <= a < b < final(indices)@.len() ==> start_at(bindings@, final(indices)@, a) <= start_at(
                bindings@,
                final(indices)@,
                b,
            ),
{
    let mut i: usize = 1;
    while i < indices.len()
        invariant
            indices@.len() == old(indices)@.len(),
            forall|k: int| 0 <= k < indices@.len() ==> #[trigger] indices@[k] < bindings@.len(),
            indices@.to_multiset() == old(indices)@.to_multiset(),
            1 <= i || indices@.len() == 0,
            forall|a: int, b: int|
                0 <= a < b < i && b < indices@.len() ==> start_at(bindings@, indices@, a) <= start_at(bindings@, indices@, b),
        decreases indices.len() - i,
    {
        let mut j: usize = i;
        while j > 0 && j < indices.len() && bindings[indices[j]].declaration.byte_start
            < bindings[indices[j - 1]].declaration.byte_start
            invariant
                indices@.len() == old(indices)@.len(),
                forall|k: int| 0 <= k < indices@.len() ==> #[trigger] indices@[k] < bindings@.len(),
                indices@.to_multiset() == old(indices)@.to_multiset(),
                i < indices@.len(),
                j <= i,
                forall|a: int, b: int|
                    0 <= a < b <= i && a != j && b != j ==> start_at(bindings@, indices@, a) <= start_at(
                        bindings@,
                        indices@,
                        b,
                    ),
                forall|b: int| j < b <= i ==> start_at(bindings@, indices@, j as int) <= start_at(bindings@, indices@, b),
            decreases j,
        {
            let a = indices[j - 1];
            let b = indices[j];
            let ghost before = indices@;
            indices.set(j - 1, b);
            indices.set(j, a);
            proof {
                let s1 = before.update(j - 1, b);
                assert(indices@ == s1.update(j as int, a));
                assert(s1[j as int] == b);
                vstd::seq_lib::to_multiset_update(before, j - 1, b);
                vstd::seq_lib::to_multiset_update(s1, j as int, a);
                let m0 = before.to_multiset();
                vstd::seq_lib::to_multiset_contains(before, a);
                vstd::seq_lib::to_multiset_contains(before, b);
                assert(before[j - 1] == a && before[j as int] == b);
                assert(before.contains(a));
                assert(before.contains(b));
                assert(m0.insert(b).remove(a).insert(a).remove(b) =~= m0);
                assert forall|x: int| 0 <= x < indices@.len() && x != j - 1 && x != j implies indices@[x] == before[x] by {}
                assert(start_at(bindings@, indices@, j - 1) == start_at(bindings@, before, j as int));
                assert(start_at(bindings@, indices@, j as int) == start_at(bindings@, before, j - 1));
                assert forall|x: int, y: int|
                    0 <= x < y <= i && x != j - 1 && y != j - 1 implies start_at(bindings@, indices@, x) <= start_at(
                        bindings@,
                        indices@,
                        y,
                    ) by {
                    if y == j {
                        assert(start_at(bindings@, before, x) <= start_at(bindings@, before, j - 1));
                    } else if x == j {
                        assert(start_at(bindings@, before, j - 1) <= start_at(bindings@, before, y));
                    } else {
                        assert(start_at(bindings@, before, x) <= start_at(bindings@, before, y));
                    }
                }
                assert forall|y: int| j - 1 < y <= i implies start_at(bindings@, indices@, j - 1) <= #[trigger] start_at(
                    bindings@,
                    indices@,
                    y,
                ) by {
                    if y > j {
                        assert(start_at(bindings@, before, j as int) <= start_at(bindings@, before, y));
                    }
                }
            }
            j = j - 1;
        }
        proof {
            assert forall|x: int, y: int| 0 <= x < y <= i implies start_at(bindings@, indices@, x) <= start_at(
                bindings@,
                indices@,
                y,
            ) by {
                if y == j && x < j {
                    assert(j > 0);
                    assert(start_at(bindings@, indices@, j - 1) <= start_at(bindings@, indices@, j as int));
                    if x < j - 1 {
                        assert(start_at(bindings@, indices@, x) <= start_at(bindings@, indices@, j - 1));
                    }
                }
            }
        }
        i = i + 1;
    }
}

fn binding_paired_before(pairs: &Vec<(BindingId, BindingId, String)>, id: &BindingId) -> bool {
    let mut k: usize = 0;
    while k < pairs.len()
        invariant
            k <= pairs@.len(),
        decreases pairs.len() - k,
    {
        if pairs[k].0.same(id) {
            return true;
        }
        k = k + 1;
    }
    false
}

fn binding_paired_after(pairs: &Vec<(BindingId, BindingId, String)>, id: &BindingId) -> bool {
    let mut k: usize = 0;
    while k < pairs.len()
        invariant
            k <= pairs@.len(),
        decreases pairs.len() - k,
    {
        if pairs[k].1.same(id) {
            return true;
        }
        k = k + 1;
    }
    false
}

/// Pairs declarations that share a lexical role and corresponding files:
/// equal numbers on both sides pair in declaration order; unequal numbers
/// are ambiguous.
fn align_automatic_bindings(
    before: &[AlignableBinding],
    after: &[AlignableBinding],
    diff: &RepositoryDiff,
    pairs: &mut Vec<(BindingId, BindingId, String)>,
    ambiguities: &mut Vec<AlignmentAmbiguity>,
) {
    let mut taken_before: Vec<bool> = Vec::new();
    let mut i: usize = 0;
    while i < before.len()
        invariant
            i <= before@.len(),
            taken_before@.len() == i,
        decreases before.len() - i,
    {
        taken_before.push(binding_paired_before(pairs, &before[i].id));
        i = i + 1;
    }
    let mut taken_after: Vec<bool> = Vec::new();
    let mut i: usize = 0;
    while i < after.len()
        invariant
            i <= after@.len(),
            taken_after@.len() == i,
        decreases after.len() - i,
    {
        taken_after.push(binding_paired_after(pairs, &after[i].id));
        i = i + 1;
    }
    let mut grouped_before: Vec<bool> = taken_before.clone();
    let mut grouped_after: Vec<bool> = taken_after.clone();
    let mut new_pairs: Vec<(BindingId, BindingId, String)> = Vec::new();
    // One group per lexical key, found from its first member on either side.
    let total: usize = if before.len() <= usize::MAX - after.len() {
        before.len() + after.len()
    } else {
        usize::MAX
    };
    let mut g: usize = 0;
    while g < total
        invariant
            grouped_before@.len() == before@.len(),
            grouped_after@.len() == after@.len(),
            taken_before@.len() == before@.len(),
            taken_after@.len() == after@.len(),
        decreases total - g,
    {
        let representative: &AlignableBinding = if g < before.len() {
            if grouped_before[g] {
                g = g + 1;
                continue;
            }
            &before[g]
        } else {
            let a = g - before.len();
            if a >= after.len() || grouped_after[a] {
                g = g + 1;
                continue;
            }
            &after[a]
        };
        let mut left: Vec<usize> = Vec::new();
        let mut i: usize = 0;
        while i < before.len()
            invariant
                grouped_before@.len() == before@.len(),
                taken_before@.len() == before@.len(),
                forall|k: int| 0 <= k < left@.len() ==> #[trigger] left@[k] < before@.len(),
            decreases before.len() - i,
        {
            if !taken_before[i] && same_binding_key(&before[i], representative) {
                left.push(i);
                grouped_before.set(i, true);
            }
            i = i + 1;
        }
        let mut right: Vec<usize> = Vec::new();
        let mut i: usize = 0;
        while i < after.len()
            invariant
                grouped_after@.len() == after@.len(),
                taken_after@.len() == after@.len(),
                forall|k: int| 0 <= k < right@.len() ==> #[trigger] right@[k] < after@.len(),
            decreases after.len() - i,
        {
            if !taken_after[i] && same_binding_key(&after[i], representative) {
                right.push(i);
                grouped_after.set(i, true);
            }
            i = i + 1;
        }
        // Keep only members whose file corresponds to some member on the other side.
        let mut kept_left: Vec<usize> = Vec::new();
        let mut k: usize = 0;
        while k < left.len()
            invariant
                forall|j: int| 0 <= j < left@.len() ==> #[trigger] left@[j] < before@.len(),
                forall|j: int| 0 <= j < right@.len() ==> #[trigger] right@[j] < after@.len(),
                forall|j: int| 0 <= j < kept_left@.len() ==> #[trigger] kept_left@[j] < before@.len(),
            decreases left.len() - k,
        {
            let mut any = false;
            let mut r: usize = 0;
            while r < right.len()
                invariant
                    k < left@.len(),
                    forall|j: int| 0 <= j < left@.len() ==> #[trigger] left@[j] < before@.len(),
                    forall|j: int| 0 <= j < right@.len() ==> #[trigger] right@[j] < after@.len(),
                decreases right.len() - r,
            {
                if paths_correspond(&before[left[k]].declaration.path, &after[right[r]].declaration.path, diff) {
                    any = true;
                }
                r = r + 1;
            }
            if any {
                kept_left.push(left[k]);
            }
            k = k + 1;
        }
        let mut kept_right: Vec<usize> = Vec::new();
        let mut k: usize = 0;
        while k < right.len()
            invariant
                forall|j: int| 0 <= j < kept_left@.len() ==> #[trigger] kept_left@[j] < before@.len(),
                forall|j: int| 0 <= j < right@.len() ==> #[trigger] right@[j] < after@.len(),
                forall|j: int| 0 <= j < kept_right@.len() ==> #[trigger] kept_right@[j] < after@.len(),
            decreases right.len() - k,
        {
            let mut any = false;
            let mut l: usize = 0;
            while l < kept_left.len()
                invariant
                    k < right@.len(),
                    forall|j: int| 0 <= j < kept_left@.len() ==> #[trigger] kept_left@[j] < before@.len(),
                    forall|j: int| 0 <= j < right@.len() ==> #[trigger] right@[j] < after@.len(),
                decreases kept_left.len() - l,
            {
                if paths_correspond(&before[kept_left[l]].declaration.path, &after[right[k]].declaration.path, diff) {
                    any = true;
                }
                l = l + 1;
            }
            if any {
                kept_right.push(right[k]);
            }
            k = k + 1;
        }
        sort_by_start(before, &mut kept_left);
        sort_by_start(after, &mut kept_right);
        if kept_left.len() == kept_right.len() {
            let mut k: usize = 0;
            while k < kept_left.len()
                invariant
                    kept_left@.len() == kept_right@.len(),
                    forall|j: int| 0 <= j < kept_left@.len() ==> #[trigger] kept_left@[j] < before@.len(),
                    forall|j: int| 0 <= j < kept_right@.len() ==> #[trigger] kept_right@[j] < after@.len(),
                decreases kept_left.len() - k,
            {
                new_pairs.push(
                    (
                        before[kept_left[k]].id.clone(),
                        after[kept_right[k]].id.clone(),
                        String::from_str("file mapping and lexical role"),
                    ),
                );
                k = k + 1;
            }
        } else if kept_left.len() > 0 && kept_right.len() > 0 {
            let mut candidates: Vec<AlignmentCandidate> = Vec::new();
            let mut l: usize = 0;
            while l < kept_left.len()
                invariant
                    forall|j: int| 0 <= j < kept_left@.len() ==> #[trigger] kept_left@[j] < before@.len(),
                    forall|j: int| 0 <= j < kept_right@.len() ==> #[trigger] kept_right@[j] < after@.len(),
                decreases kept_left.len() - l,
            {
                let mut r: usize = 0;
                while r < kept_right.len()
                    invariant
                        l < kept_left@.len(),
                        forall|j: int| 0 <= j < kept_left@.len() ==> #[trigger] kept_left@[j] < before@.len(),
                        forall|j: int| 0 <= j < kept_right@.len() ==> #[trigger] kept_right@[j] < after@.len(),
                    decreases kept_right.len() - r,
                {
                    candidates.push(
                        AlignmentCandidate {
                            before: AlignmentEntity::Binding(before[kept_left[l]].id.clone()),
                            after: AlignmentEntity::Binding(after[kept_right[r]].id.clone()),
                        },
                    );
                    r = r + 1;
                }
                l = l + 1;
            }
            ambiguities.push(
                AlignmentAmbiguity {
                    candidates,
                    evidence: String::from_str("multiple declarations share the same lexical role"),
                },
            );
        }
        g = g + 1;
    }
    let mut k: usize = 0;
    while k < new_pairs.len()
        invariant
            k <= new_pairs@.len(),
        decreases new_pairs.len() - k,
    {
        pairs.push(clone_binding_pair(&new_pairs[k]));
        k = k + 1;
    }
}

// ---------------------------------------------------------------------------
// Fingerprints.

fn input_role(role: &ComputeInputRole) -> String {
    match role {
        ComputeInputRole::Operand { index } => String::from_str("operand:").concat(
            index.to_string().as_str(),
        ),
        ComputeInputRole::TemplateChunk { index } => String::from_str("chunk:").concat(
            index.to_string().as_str(),
        ),
        ComputeInputRole::TemplateInterpolation { index } => String::from_str(
            "interpolation:",
        ).concat(index.to_string().as_str()),
    }
}

/// The name of an operation's kind.
/// The name of an operation's kind.
pub open spec fn operation_kind_name(operation: Operation) -> Seq<char> {
    match operation {
        Operation::Entry => "entry"@,
        Operation::Read { .. } => "read"@,
        Operation::Write { .. } => "write"@,
        Operation::Literal { .. } => "literal"@,
        Operation::Compute { .. } => "compute"@,
        Operation::Branch { .. } => "branch"@,
        Operation::Join => "join"@,
        Operation::Call { .. } => "call"@,
        Operation::ReturnSite { .. } => "return_site"@,
        Operation::Return { .. } => "return"@,
        Operation::Exit => "exit"@,
        Operation::UnknownEffect { .. } => "unknown_effect"@,
    }
}

pub fn operation_kind(operation: &Operation) -> (res: &'static str)
    ensures
        res@ == operation_kind_name(*operation),
{
    match operation {
        Operation::Entry => "entry",
        Operation::Read { .. } => "read",
        Operation::Write { .. } => "write",
        Operation::Literal { .. } => "literal",
        Operation::Compute { .. } => "compute",
        Operation::Branch { .. } => "branch",
        Operation::Join => "join",
        Operation::Call { .. } => "call",
        Operation::ReturnSite { .. } => "return_site",
        Operation::Return { .. } => "return",
        Operation::Exit => "exit",
        Operation::UnknownEffect { .. } => "unknown_effect",
    }
}

fn same_operation_kind(a: &Operation, b: &Operation) -> bool {
    str_same(operation_kind(a), operation_kind(b))
}

fn str_same(a: &str, b: &str) -> bool {
    crate::ifds::adapters::typescript::syntax::str_equal(a, b)
}

/// A text between double quotes with a backslash before each character, so
/// that the quoting of one text is never a prefix of another's.
pub open spec fn quoted_text(t: Seq<char>) -> Seq<char> {
    seq!['"'] + Seq::new(2 * t.len(), |j: int| if j % 2 == 0 { '\\' } else { t[j / 2] }) + seq!['"']
}

fn quoted(text: &String) -> (res: String)
    ensures
        res@ == quoted_text(text@),
{
    proof {
        reveal_strlit("\"");
        reveal_strlit("\\");
    }
    let n = text.as_str().unicode_len();
    let mut out = String::from_str("\"");
    let mut i: usize = 0;
    while i < n
        invariant
            n == text@.len(),
            i <= n,
            out@ == seq!['"'] + Seq::new(2 * i as nat, |j: int| if j % 2 == 0 { '\\' } else { text@[j / 2] }),
        decreases n - i,
    {
        let c = text.as_str().get_char(i);
        out = out.concat("\\").concat(char_text(c).as_str());
        proof {
            reveal_strlit("\\");
            let next = Seq::new(2 * (i + 1) as nat, |j: int| if j % 2 == 0 { '\\' } else { text@[j / 2] });
            let prev = Seq::new(2 * i as nat, |j: int| if j % 2 == 0 { '\\' } else { text@[j / 2] });
            assert(next =~= prev + seq!['\\', c]);
            assert(out@ =~= seq!['"'] + next);
        }
        i = i + 1;
    }
    let res = out.concat("\"");
    proof {
        reveal_strlit("\"");
        assert(res@ =~= quoted_text(text@));
    }
    res
}

/// An optional text as a fingerprint writes it.
pub open spec fn option_quoted_text(text: Option<Seq<char>>) -> Seq<char> {
    match text {
        Some(t) => "Some("@ + quoted_text(t) + ")"@,
        None => "None"@,
    }
}

fn option_quoted(text: &Option<String>) -> (res: String)
    ensures
        res@ == option_quoted_text(crate::ifds::snapshots::opt_text(*text)),
{
    match text {
        Some(t) => String::from_str("Some(").concat(quoted(t).as_str()).concat(")"),
        None => String::from_str("None"),
    }
}

/// The name of a literal kind.
pub open spec fn literal_kind_text(kind: LiteralKind) -> Seq<char> {
    match kind {
        LiteralKind::Number => "Number"@,
        LiteralKind::String => "String"@,
        LiteralKind::Boolean => "Boolean"@,
        LiteralKind::Null => "Null"@,
        LiteralKind::BigInt => "BigInt"@,
        LiteralKind::Undefined => "Undefined"@,
        LiteralKind::TemplateChunk => "TemplateChunk"@,
    }
}

pub(crate) fn literal_kind_name(kind: LiteralKind) -> (res: &'static str)
    ensures
        res@ == literal_kind_text(kind),
{
    match kind {
        LiteralKind::Number => "Number",
        LiteralKind::String => "String",
        LiteralKind::Boolean => "Boolean",
        LiteralKind::Null => "Null",
        LiteralKind::BigInt => "BigInt",
        LiteralKind::Undefined => "Undefined",
        LiteralKind::TemplateChunk => "TemplateChunk",
    }
}

/// How a fingerprint names an operator: its variant, and for a property
/// read the quoted property.
pub open spec fn operator_text(operator: PrimitiveOperator) -> Seq<char> {
    match operator {
        PrimitiveOperator::Add => "Add"@,
        PrimitiveOperator::Subtract => "Subtract"@,
        PrimitiveOperator::Multiply => "Multiply"@,
        PrimitiveOperator::Divide => "Divide"@,
        PrimitiveOperator::Remainder => "Remainder"@,
        PrimitiveOperator::UnaryPlus => "UnaryPlus"@,
        PrimitiveOperator::UnaryMinus => "UnaryMinus"@,
        PrimitiveOperator::LogicalNot => "LogicalNot"@,
        PrimitiveOperator::StrictEqual => "StrictEqual"@,
        PrimitiveOperator::StrictNotEqual => "StrictNotEqual"@,
        PrimitiveOperator::GreaterThan => "GreaterThan"@,
        PrimitiveOperator::LessThan => "LessThan"@,
        PrimitiveOperator::PropertyRead { property } => "PropertyRead("@ + quoted_text(property@) + ")"@,
        PrimitiveOperator::IndexRead => "IndexRead"@,
        PrimitiveOperator::Template => "Template"@,
    }
}

pub(crate) fn operator_name(operator: &PrimitiveOperator) -> (res: String)
    ensures
        res@ == operator_text(*operator),
{
    match operator {
        PrimitiveOperator::Add => String::from_str("Add"),
        PrimitiveOperator::Subtract => String::from_str("Subtract"),
        PrimitiveOperator::Multiply => String::from_str("Multiply"),
        PrimitiveOperator::Divide => String::from_str("Divide"),
        PrimitiveOperator::Remainder => String::from_str("Remainder"),
        PrimitiveOperator::UnaryPlus => String::from_str("UnaryPlus"),
        PrimitiveOperator::UnaryMinus => String::from_str("UnaryMinus"),
        PrimitiveOperator::LogicalNot => String::from_str("LogicalNot"),
        PrimitiveOperator::StrictEqual => String::from_str("StrictEqual"),
        PrimitiveOperator::StrictNotEqual => String::from_str("StrictNotEqual"),
        PrimitiveOperator::GreaterThan => String::from_str("GreaterThan"),
        PrimitiveOperator::LessThan => String::from_str("LessThan"),
        PrimitiveOperator::PropertyRead { property } => String::from_str("PropertyRead(").concat(
            quoted(property).as_str(),
        ).concat(")"),
        PrimitiveOperator::IndexRead => String::from_str("IndexRead"),
        PrimitiveOperator::Template => String::from_str("Template"),
    }
}

/// The name of an unknown effect's kind.
pub open spec fn effect_kind_text(kind: UnknownEffectKind) -> Seq<char> {
    match kind {
        UnknownEffectKind::Value => "Value"@,
        UnknownEffectKind::Control => "Control"@,
    }
}

pub(crate) fn effect_kind_name(kind: UnknownEffectKind) -> (res: &'static str)
    ensures
        res@ == effect_kind_text(kind),
{
    match kind {
        UnknownEffectKind::Value => "Value",
        UnknownEffectKind::Control => "Control",
    }
}

/// The start of every fingerprint of a computation: its operator.
pub open spec fn compute_head(operator: PrimitiveOperator) -> Seq<char> {
    "compute("@ + operator_text(operator) + ",["@
}

/// `text` begins with `prefix`.
pub open spec fn starts_with(text: Seq<char>, prefix: Seq<char>) -> bool {
    prefix.len() <= text.len() && text.subrange(0, prefix.len() as int) == prefix
}

/// The start of every fingerprint of an operation: its kind, and what the
/// operation holds apart from the places it reads and writes (a literal's
/// kind and texts, a computation's operator, an unknown effect's kind and
/// description).
pub open spec fn operation_head(operation: Operation) -> Seq<char> {
    match operation {
        Operation::Entry => "entry"@,
        Operation::Exit => "exit"@,
        Operation::Join => "join"@,
        Operation::ReturnSite { .. } => "return_site"@,
        Operation::Read { .. } => "read("@,
        Operation::Write { .. } => "write(target="@,
        Operation::Literal { literal_kind, raw, cooked, .. } => "literal("@ + literal_kind_text(literal_kind)
            + ","@ + quoted_text(raw@) + ","@ + option_quoted_text(crate::ifds::snapshots::opt_text(cooked))
            + ")"@,
        Operation::Compute { operator, .. } => compute_head(operator),
        Operation::Branch { .. } => "branch("@,
        Operation::Call { .. } => "call(["@,
        Operation::Return { .. } => "return("@,
        Operation::UnknownEffect { effect_kind, description, .. } => "unknown("@ + effect_kind_text(effect_kind)
            + ","@ + quoted_text(description@) + ",inputs=["@,
    }
}

/// A fingerprint fits an operation: it begins with the operation's head.
pub open spec fn fingerprint_fits(operation: Operation, fingerprint: Seq<char>) -> bool {
    starts_with(fingerprint, operation_head(operation))
}

/// Two operators are the same: the same variant, and for property reads the
/// same property text.
pub open spec fn same_operator(a: PrimitiveOperator, b: PrimitiveOperator) -> bool {
    match (a, b) {
        (PrimitiveOperator::PropertyRead { property: p }, PrimitiveOperator::PropertyRead { property: q }) => p@
            == q@,
        _ => a == b,
    }
}

/// Two texts differ at a position both have.
pub open spec fn diverge(x: Seq<char>, y: Seq<char>) -> bool {
    exists|k: int| #![trigger x[k], y[k]] 0 <= k < x.len() && k < y.len() && x[k] != y[k]
}

proof fn lemma_diverge_within(c: Seq<char>, x: Seq<char>, y: Seq<char>, d: Seq<char>, e: Seq<char>)
    requires
        diverge(x, y),
    ensures
        diverge(c + x + d, c + y + e),
{
    let k = choose|k: int| #![trigger x[k], y[k]] 0 <= k < x.len() && k < y.len() && x[k] != y[k];
    assert((c + x + d)[c.len() + k] == x[k]);
    assert((c + y + e)[c.len() + k] == y[k]);
}

proof fn lemma_quoted_diverge(s: Seq<char>, t: Seq<char>)
    requires
        s != t,
    ensures
        diverge(quoted_text(s), quoted_text(t)),
{
    let qs = quoted_text(s);
    let qt = quoted_text(t);
    assert(qs.len() == 2 * s.len() + 2);
    assert(qt.len() == 2 * t.len() + 2);
    if exists|i: int| 0 <= i < s.len() && i < t.len() && s[i] != t[i] {
        let i = choose|i: int| 0 <= i < s.len() && i < t.len() && s[i] != t[i];
        assert((1 + 2 * i) / 2 == i);
        assert(qs[2 + 2 * i] == s[i]);
        assert(qt[2 + 2 * i] == t[i]);
    } else if s.len() < t.len() {
        let m: int = 2 * (s.len() as int);
        assert(qs[1 + m] == '"');
        assert(m % 2 == 0);
        assert(qt[1 + m] == '\\');
    } else if t.len() < s.len() {
        let m: int = 2 * (t.len() as int);
        assert(qt[1 + m] == '"');
        assert(m % 2 == 0);
        assert(qs[1 + m] == '\\');
    } else {
        assert(s =~= t);
    }
}

#[verifier::spinoff_prover]
#[verifier::rlimit(100)]
proof fn lemma_operator_heads_diverge(a: PrimitiveOperator, b: PrimitiveOperator)
    requires
        !same_operator(a, b),
    ensures
        diverge(compute_head(a), compute_head(b)),
{
    reveal_strlit("compute(");
    reveal_strlit(",[");
    reveal_strlit("PropertyRead(");
    reveal_strlit(")");
    reveal_strlit("Add");
    reveal_strlit("Subtract");
    reveal_strlit("Multiply");
    reveal_strlit("Divide");
    reveal_strlit("Remainder");
    reveal_strlit("UnaryPlus");
    reveal_strlit("UnaryMinus");
    reveal_strlit("LogicalNot");
    reveal_strlit("StrictEqual");
    reveal_strlit("StrictNotEqual");
    reveal_strlit("GreaterThan");
    reveal_strlit("LessThan");
    reveal_strlit("IndexRead");
    reveal_strlit("Template");
    let ha = compute_head(a);
    let hb = compute_head(b);
    match (a, b) {
        (PrimitiveOperator::PropertyRead { property: p }, PrimitiveOperator::PropertyRead { property: q }) => {
            let c = "compute("@ + "PropertyRead("@;
            let rest = ")"@ + ",["@;
            lemma_quoted_diverge(p@, q@);
            lemma_diverge_within(c, quoted_text(p@), quoted_text(q@), rest, rest);
            assert(ha =~= c + quoted_text(p@) + rest);
            assert(hb =~= c + quoted_text(q@) + rest);
        },
        _ => {
            assert(ha.len() >= 13 && hb.len() >= 13);
            if ha[8] != hb[8] {
            } else if ha[9] != hb[9] {
            } else if ha[13] != hb[13] {
            } else {
                assert(ha[14] != hb[14]);
            }
        },
    }
}

/// Operations whose operators differ, a read of one property and a read of
/// another among them, never share a fingerprint: the fingerprint of a
/// computation begins with its operator, and no operator's text begins
/// another's.
pub proof fn lemma_operator_change_changes_fingerprint(
    a: PrimitiveOperator,
    b: PrimitiveOperator,
    fa: Seq<char>,
    fb: Seq<char>,
)
    requires
        starts_with(fa, compute_head(a)),
        starts_with(fb, compute_head(b)),
        !same_operator(a, b),
    ensures
        fa != fb,
{
    lemma_operator_heads_diverge(a, b);
    let ha = compute_head(a);
    let hb = compute_head(b);
    let k = choose|k: int| #![trigger ha[k], hb[k]] 0 <= k < ha.len() && k < hb.len() && ha[k] != hb[k];
    assert(fa.subrange(0, ha.len() as int)[k] == fa[k]);
    assert(fb.subrange(0, hb.len() as int)[k] == fb[k]);
}

/// Which kind of operation this is.
pub open spec fn operation_variant(operation: Operation) -> int {
    match operation {
        Operation::Entry => 0,
        Operation::Read { .. } => 1,
        Operation::Write { .. } => 2,
        Operation::Literal { .. } => 3,
        Operation::Compute { .. } => 4,
        Operation::Branch { .. } => 5,
        Operation::Join => 6,
        Operation::Call { .. } => 7,
        Operation::ReturnSite { .. } => 8,
        Operation::Return { .. } => 9,
        Operation::Exit => 10,
        Operation::UnknownEffect { .. } => 11,
    }
}

/// Two operations agree on everything a fingerprint states of them apart
/// from the places they read and write: their kind, a literal's kind, raw
/// and cooked texts, a computation's operator, an unknown effect's kind and
/// description.
pub open spec fn same_operation_head(a: Operation, b: Operation) -> bool {
    &&& operation_variant(a) == operation_variant(b)
    &&& match (a, b) {
        (
            Operation::Literal { literal_kind: k1, raw: r1, cooked: c1, .. },
            Operation::Literal { literal_kind: k2, raw: r2, cooked: c2, .. },
        ) => k1 == k2 && r1@ == r2@ && crate::ifds::snapshots::opt_text(c1) == crate::ifds::snapshots::opt_text(
            c2,
        ),
        (Operation::Compute { operator: o1, .. }, Operation::Compute { operator: o2, .. }) => same_operator(
            o1,
            o2,
        ),
        (
            Operation::UnknownEffect { effect_kind: e1, description: d1, .. },
            Operation::UnknownEffect { effect_kind: e2, description: d2, .. },
        ) => e1 == e2 && d1@ == d2@,
        _ => true,
    }
}

#[verifier::spinoff_prover]
#[verifier::rlimit(100)]
proof fn lemma_kind_heads_diverge(a: Operation, b: Operation)
    requires
        operation_variant(a) != operation_variant(b),
    ensures
        diverge(operation_head(a), operation_head(b)),
{
    reveal_strlit("entry");
    reveal_strlit("exit");
    reveal_strlit("join");
    reveal_strlit("return_site");
    reveal_strlit("read(");
    reveal_strlit("write(target=");
    reveal_strlit("literal(");
    reveal_strlit("compute(");
    reveal_strlit("branch(");
    reveal_strlit("call([");
    reveal_strlit("return(");
    reveal_strlit("unknown(");
    let ha = operation_head(a);
    let hb = operation_head(b);
    assert(ha.len() >= 4 && hb.len() >= 4);
    if ha[0] != hb[0] {
    } else if ha[1] != hb[1] {
    } else if ha[2] != hb[2] {
    } else {
        assert(ha[6] != hb[6]);
    }
}

#[verifier::spinoff_prover]
#[verifier::rlimit(100)]
proof fn lemma_literal_heads_diverge(a: Operation, b: Operation)
    requires
        a is Literal,
        b is Literal,
        !same_operation_head(a, b),
    ensures
        diverge(operation_head(a), operation_head(b)),
{
    reveal_strlit("literal(");
    reveal_strlit(",");
    reveal_strlit(")");
    reveal_strlit("Some(");
    reveal_strlit("None");
    reveal_strlit("Number");
    reveal_strlit("String");
    reveal_strlit("Boolean");
    reveal_strlit("Null");
    reveal_strlit("BigInt");
    reveal_strlit("Undefined");
    reveal_strlit("TemplateChunk");
    match (a, b) {
        (
            Operation::Literal { literal_kind: k1, raw: r1, cooked: c1, .. },
            Operation::Literal { literal_kind: k2, raw: r2, cooked: c2, .. },
        ) => {
            let ha = operation_head(a);
            let hb = operation_head(b);
            let o1 = option_quoted_text(crate::ifds::snapshots::opt_text(c1));
            let o2 = option_quoted_text(crate::ifds::snapshots::opt_text(c2));
            if k1 != k2 {
                assert(ha.len() >= 12 && hb.len() >= 12);
                if ha[8] != hb[8] {
                } else if ha[9] != hb[9] {
                } else {
                    assert(ha[10] != hb[10]);
                }
            } else if r1@ != r2@ {
                let c = "literal("@ + literal_kind_text(k1) + ","@;
                lemma_quoted_diverge(r1@, r2@);
                lemma_diverge_within(c, quoted_text(r1@), quoted_text(r2@), ","@ + o1 + ")"@, ","@ + o2 + ")"@);
                assert(ha =~= c + quoted_text(r1@) + (","@ + o1 + ")"@));
                assert(hb =~= c + quoted_text(r2@) + (","@ + o2 + ")"@));
            } else {
                let c = "literal("@ + literal_kind_text(k1) + ","@ + quoted_text(r1@) + ","@;
                assert(ha =~= c + o1 + ")"@);
                assert(hb =~= c + o2 + ")"@);
                match (crate::ifds::snapshots::opt_text(c1), crate::ifds::snapshots::opt_text(c2)) {
                    (Some(t1), Some(t2)) => {
                        lemma_quoted_diverge(t1, t2);
                        lemma_diverge_within("Some("@, quoted_text(t1), quoted_text(t2), ")"@, ")"@);
                    },
                    _ => {
                        assert(o1[0] != o2[0]);
                    },
                }
                lemma_diverge_within(c, o1, o2, ")"@, ")"@);
            }
        },
        _ => {},
    }
}

#[verifier::spinoff_prover]
#[verifier::rlimit(100)]
proof fn lemma_unknown_heads_diverge(a: Operation, b: Operation)
    requires
        a is UnknownEffect,
        b is UnknownEffect,
        !same_operation_head(a, b),
    ensures
        diverge(operation_head(a), operation_head(b)),
{
    reveal_strlit("unknown(");
    reveal_strlit(",");
    reveal_strlit(",inputs=[");
    reveal_strlit("Value");
    reveal_strlit("Control");
    match (a, b) {
        (
            Operation::UnknownEffect { effect_kind: e1, description: d1, .. },
            Operation::UnknownEffect { effect_kind: e2, description: d2, .. },
        ) => {
            let ha = operation_head(a);
            let hb = operation_head(b);
            if e1 != e2 {
                assert(ha[8] != hb[8]);
            } else {
                let c = "unknown("@ + effect_kind_text(e1) + ","@;
                lemma_quoted_diverge(d1@, d2@);
                lemma_diverge_within(c, quoted_text(d1@), quoted_text(d2@), ",inputs=["@, ",inputs=["@);
                assert(ha =~= c + quoted_text(d1@) + ",inputs=["@);
                assert(hb =~= c + quoted_text(d2@) + ",inputs=["@);
            }
        },
        _ => {},
    }
}

/// Operations that differ in what a fingerprint states of them apart from
/// their places (their kind; a literal's kind, raw or cooked text; a
/// computation's operator, the property a read names among them; an unknown
/// effect's kind or description) never share a fingerprint.
pub proof fn lemma_fingerprint_tells_operations_apart(a: Operation, b: Operation, fa: Seq<char>, fb: Seq<char>)
    requires
        fingerprint_fits(a, fa),
        fingerprint_fits(b, fb),
        !same_operation_head(a, b),
    ensures
        fa != fb,
{
    let ha = operation_head(a);
    let hb = operation_head(b);
    if operation_variant(a) != operation_variant(b) {
        lemma_kind_heads_diverge(a, b);
    } else {
        match (a, b) {
            (Operation::Compute { operator: o1, .. }, Operation::Compute { operator: o2, .. }) => {
                lemma_operator_heads_diverge(o1, o2);
            },
            (Operation::Literal { .. }, Operation::Literal { .. }) => {
                lemma_literal_heads_diverge(a, b);
            },
            (Operation::UnknownEffect { .. }, Operation::UnknownEffect { .. }) => {
                lemma_unknown_heads_diverge(a, b);
            },
            _ => {},
        }
    }
    let k = choose|k: int| #![trigger ha[k], hb[k]] 0 <= k < ha.len() && k < hb.len() && ha[k] != hb[k];
    assert(fa.subrange(0, ha.len() as int)[k] == fa[k]);
    assert(fb.subrange(0, hb.len() as int)[k] == fb[k]);
}

/// A binding place's fingerprint is the token of the first entry for the
/// binding, or, when none has one, marks the binding as unmatched.
pub open spec fn binding_token_fits(tokens: Seq<(BindingId, String)>, b: BindingId, text: Seq<char>) -> bool {
    ||| exists|k: int|
        0 <= k < tokens.len() && (#[trigger] tokens[k]).0@ == b@ && (forall|j: int|
            0 <= j < k ==> (#[trigger] tokens[j]).0@ != b@) && text == tokens[k].1@
    ||| (forall|j: int| 0 <= j < tokens.len() ==> (#[trigger] tokens[j]).0@ != b@) && starts_with(
        text,
        "unmatched-binding:"@,
    )
}

/// A read of a binding writes the binding's token in its fingerprint, and so
/// does a write to one.
pub open spec fn binding_texts_fit(tokens: Seq<(BindingId, String)>, operation: Operation, text: Seq<char>) -> bool {
    match operation {
        Operation::Read { source: Place::Binding(b), .. } => exists|x: Seq<char>|
            text == "read("@ + x + ")"@ && binding_token_fits(tokens, b, x),
        Operation::Write { target: Place::Binding(b), .. } => exists|x: Seq<char>, y: Seq<char>|
            text == "write(target="@ + x + ",sources=["@ + y + "])"@ && binding_token_fits(tokens, b, x),
        _ => true,
    }
}

/// Fingerprints of one procedure's operations, built bottom-up through the
/// producers of temporaries; binding places are replaced by their aligned
/// tokens.
struct Fingerprinter<'a> {
    procedure: &'a ProcedureIr,
    tokens: &'a Vec<(BindingId, String)>,
    cache: Vec<Option<String>>,
    visiting: Vec<bool>,
    depth: usize,
}

impl<'a> Fingerprinter<'a> {
    spec fn wf(&self) -> bool {
        &&& self.cache@.len() == self.procedure.nodes.len()
        &&& self.visiting@.len() == self.procedure.nodes.len()
        &&& self.depth <= self.procedure.nodes.len()
        &&& forall|j: int|
            0 <= j < self.cache@.len() && (#[trigger] self.cache@[j]) is Some ==> fingerprint_fits(
                self.procedure.nodes@[j].operation,
                self.cache@[j]->0@,
            ) && binding_texts_fit(self.tokens@, self.procedure.nodes@[j].operation, self.cache@[j]->0@)
    }

    fn place(&mut self, place: &Place) -> (res: String)
        requires
            old(self).wf(),
        ensures
            final(self).wf(),
            final(self).procedure == old(self).procedure,
            final(self).depth == old(self).depth,
            final(self).visiting@ == old(self).visiting@,
            final(self).tokens == old(self).tokens,
            *place matches Place::Binding(b) ==> binding_token_fits(old(self).tokens@, b, res@),
            *place matches Place::Temporary(_) ==> starts_with(res@, "temporary:"@),
        decreases old(self).procedure.nodes.len() - old(self).depth, 2nat,
    {
        match place {
            Place::Binding(binding) => {
                let mut k: usize = 0;
                while k < self.tokens.len()
                    invariant
                        k <= self.tokens@.len(),
                        forall|j: int| 0 <= j < k ==> (#[trigger] self.tokens@[j]).0@ != binding@,
                        *place == Place::Binding(*binding),
                        self.tokens == old(self).tokens,
                        self.wf(),
                        self.procedure == old(self).procedure,
                        self.depth == old(self).depth,
                        self.visiting@ == old(self).visiting@,
                    decreases self.tokens.len() - k,
                {
                    if self.tokens[k].0.same(binding) {
                        let text = self.tokens[k].1.clone();
                        proof {
                            assert(text@ == self.tokens@[k as int].1@);
                        }
                        return text;
                    }
                    k = k + 1;
                }
                let text = String::from_str("unmatched-binding:").concat(binding.local.to_string().as_str());
                proof {
                    assert(text@.subrange(0, "unmatched-binding:"@.len() as int) =~= "unmatched-binding:"@);
                }
                text
            },
            Place::Temporary(producer) => {
                let inner = match find_node(self.procedure, producer) {
                    Some(i) => self.node(i),
                    None => String::from_str("missing"),
                };
                let text = String::from_str("temporary:").concat(inner.as_str());
                proof {
                    assert(text@.subrange(0, "temporary:"@.len() as int) =~= "temporary:"@);
                }
                text
            },
        }
    }

    fn places(&mut self, places: &Vec<Place>) -> (res: String)
        requires
            old(self).wf(),
        ensures
            final(self).wf(),
            final(self).procedure == old(self).procedure,
            final(self).depth == old(self).depth,
            final(self).visiting@ == old(self).visiting@,
            final(self).tokens == old(self).tokens,
        decreases old(self).procedure.nodes.len() - old(self).depth, 3nat,
    {
        let mut text = String::new();
        let mut k: usize = 0;
        while k < places.len()
            invariant
                self.wf(),
                self.procedure == old(self).procedure,
                self.depth == old(self).depth,
                self.visiting@ == old(self).visiting@,
                self.tokens == old(self).tokens,
                k <= places@.len(),
            decreases places.len() - k,
        {
            if k > 0 {
                text = text.concat(",");
            }
            let part = self.place(&places[k]);
            text = text.concat(part.as_str());
            k = k + 1;
        }
        text
    }

    fn inputs(&mut self, inputs: &Vec<crate::ifds::ir::ComputeInput>) -> (res: String)
        requires
            old(self).wf(),
        ensures
            final(self).wf(),
            final(self).procedure == old(self).procedure,
            final(self).depth == old(self).depth,
            final(self).visiting@ == old(self).visiting@,
            final(self).tokens == old(self).tokens,
        decreases old(self).procedure.nodes.len() - old(self).depth, 3nat,
    {
        let mut text = String::new();
        let mut k: usize = 0;
        while k < inputs.len()
            invariant
                self.wf(),
                self.procedure == old(self).procedure,
                self.depth == old(self).depth,
                self.visiting@ == old(self).visiting@,
                self.tokens == old(self).tokens,
                k <= inputs@.len(),
            decreases inputs.len() - k,
        {
            if k > 0 {
                text = text.concat(",");
            }
            let role = input_role(&inputs[k].role);
            let part = self.place(&inputs[k].place);
            text = text.concat(role.as_str()).concat(":").concat(part.as_str());
            k = k + 1;
        }
        text
    }

    fn node(&mut self, i: usize) -> (res: String)
        requires
            old(self).wf(),
            i < old(self).procedure.nodes.len(),
        ensures
            final(self).wf(),
            final(self).procedure == old(self).procedure,
            final(self).depth == old(self).depth,
            final(self).visiting@ == old(self).visiting@,
            final(self).tokens == old(self).tokens,
            old(self).cache@[i as int] is Some || (!old(self).visiting@[i as int] && old(self).depth < old(
                self,
            ).procedure.nodes.len()) ==> fingerprint_fits(old(self).procedure.nodes@[i as int].operation, res@)
                && binding_texts_fit(old(self).tokens@, old(self).procedure.nodes@[i as int].operation, res@),
        decreases old(self).procedure.nodes.len() - old(self).depth, 1nat,
    {
        if let Some(value) = &self.cache[i] {
            return value.clone();
        }
        if self.visiting[i] || self.depth >= self.procedure.nodes.len() {
            return String::from_str("cycle");
        }
        self.visiting.set(i, true);
        self.depth = self.depth + 1;
        let procedure = self.procedure;
        let operation = &procedure.nodes[i].operation;
        let ghost head = operation_head(*operation);
        let value = match operation {
            Operation::Entry => String::from_str("entry"),
            Operation::Exit => String::from_str("exit"),
            Operation::Read { source, .. } => {
                let p = self.place(source);
                let text = String::from_str("read(").concat(p.as_str()).concat(")");
                proof {
                    assert(text@ =~= head + (p@ + ")"@));
                    assert(text@ =~= "read("@ + p@ + ")"@);
                }
                text
            },
            Operation::Write { target, sources, .. } => {
                let t = self.place(target);
                let s = self.places(sources);
                let text = String::from_str("write(target=").concat(t.as_str()).concat(",sources=[").concat(
                    s.as_str(),
                ).concat("])");
                proof {
                    assert(text@ =~= head + (t@ + ",sources=["@ + s@ + "])"@));
                    assert(text@ =~= "write(target="@ + t@ + ",sources=["@ + s@ + "])"@);
                }
                text
            },
            Operation::Literal { literal_kind, raw, cooked, .. } => {
                String::from_str("literal(").concat(literal_kind_name(*literal_kind)).concat(
                    ",",
                ).concat(quoted(raw).as_str()).concat(",").concat(option_quoted(cooked).as_str()).concat(
                    ")",
                )
            },
            Operation::Compute { inputs, operator, .. } => {
                let s = self.inputs(inputs);
                let text = String::from_str("compute(").concat(operator_name(operator).as_str()).concat(
                    ",[",
                ).concat(s.as_str()).concat("])");
                proof {
                    assert(text@ =~= head + (s@ + "])"@));
                }
                text
            },
            Operation::Branch { condition } => {
                let p = self.place(condition);
                let text = String::from_str("branch(").concat(p.as_str()).concat(")");
                proof {
                    assert(text@ =~= head + (p@ + ")"@));
                }
                text
            },
            Operation::Join => String::from_str("join"),
            Operation::Call { arguments, result, .. } => {
                let s = self.places(arguments);
                let text = String::from_str("call([").concat(s.as_str()).concat("],result=").concat(
                    if result.is_some() {
                        "true"
                    } else {
                        "false"
                    },
                ).concat(")");
                proof {
                    assert(text@.subrange(0, head.len() as int) =~= head);
                }
                text
            },
            Operation::ReturnSite { .. } => String::from_str("return_site"),
            Operation::Return { value } => {
                let v = match value {
                    Some(v) => self.place(v),
                    None => String::from_str("void"),
                };
                let text = String::from_str("return(").concat(v.as_str()).concat(")");
                proof {
                    assert(text@ =~= head + (v@ + ")"@));
                }
                text
            },
            Operation::UnknownEffect {
                effect_kind,
                description,
                inputs,
                result,
                affected_places,
                ..
            } => {
                let s = self.inputs(inputs);
                let a = self.places(affected_places);
                let text = String::from_str("unknown(").concat(effect_kind_name(*effect_kind)).concat(",").concat(
                    quoted(description).as_str(),
                ).concat(",inputs=[").concat(s.as_str()).concat("],result=").concat(
                    if result.is_some() {
                        "true"
                    } else {
                        "false"
                    },
                ).concat(",affected=[").concat(a.as_str()).concat("])");
                proof {
                    assert(text@.subrange(0, head.len() as int) =~= head);
                }
                text
            },
        };
        proof {
            assert(value@.subrange(0, head.len() as int) =~= head);
        }
        self.visiting.set(i, false);
        self.depth = self.depth - 1;
        proof {
            assert(self.visiting@ =~= old(self).visiting@);
            assert(fingerprint_fits(self.procedure.nodes@[i as int].operation, value@));
            assert(binding_texts_fit(self.tokens@, self.procedure.nodes@[i as int].operation, value@));
        }
        self.cache.set(i, Some(value.clone()));
        value
    }
}

/// The fingerprint of every operation of a procedure, in node order.
fn fingerprints(procedure: &ProcedureIr, tokens: &Vec<(BindingId, String)>) -> (res: Vec<(NodeId, String)>)
    ensures
        res@.len() == procedure.nodes.len(),
        forall|i: int| 0 <= i < res@.len() ==> (#[trigger] res@[i]).0 == procedure.nodes@[i].id,
        forall|i: int| 0 <= i < res@.len() ==> fingerprint_fits(procedure.nodes@[i].operation, (#[trigger] res@[i]).1@),
        forall|i: int|
            0 <= i < res@.len() ==> binding_texts_fit(tokens@, procedure.nodes@[i].operation, (#[trigger] res@[i]).1@),
{
    let n = procedure.nodes.len();
    let mut cache: Vec<Option<String>> = Vec::new();
    let mut visiting: Vec<bool> = Vec::new();
    let mut i: usize = 0;
    while i < n
        invariant
            i <= n,
            cache@.len() == i,
            visiting@.len() == i,
            forall|j: int| 0 <= j < i ==> (#[trigger] cache@[j]) is None,
            forall|j: int| 0 <= j < i ==> !(#[trigger] visiting@[j]),
        decreases n - i,
    {
        cache.push(None);
        visiting.push(false);
        i = i + 1;
    }
    let mut printer = Fingerprinter { procedure, tokens, cache, visiting, depth: 0 };
    let mut res: Vec<(NodeId, String)> = Vec::new();
    let mut i: usize = 0;
    while i < n
        invariant
            n == procedure.nodes.len(),
            printer.wf(),
            printer.procedure == procedure,
            printer.depth == 0,
            i <= n,
            res@.len() == i,
            forall|j: int| 0 <= j < res@.len() ==> (#[trigger] res@[j]).0 == procedure.nodes@[j].id,
            forall|j: int| 0 <= j < n ==> !(#[trigger] printer.visiting@[j]),
            forall|j: int|
                0 <= j < res@.len() ==> fingerprint_fits(procedure.nodes@[j].operation, (#[trigger] res@[j]).1@),
            forall|j: int|
                0 <= j < res@.len() ==> binding_texts_fit(tokens@, procedure.nodes@[j].operation, (#[trigger] res@[j]).1@),
            printer.tokens == tokens,
        decreases n - i,
    {
        let value = printer.node(i);
        res.push((procedure.nodes[i].id.clone(), value));
        i = i + 1;
    }
    res
}

/// The fingerprint of the first entry for a node, if any.
pub open spec fn first_fingerprint(fingerprints: Seq<(NodeId, String)>, id: crate::ifds::model::LocalIdView) -> Option<Seq<char>>
    decreases fingerprints.len(),
{
    if fingerprints.len() == 0 {
        None
    } else if fingerprints[0].0@ == id {
        Some(fingerprints[0].1@)
    } else {
        first_fingerprint(fingerprints.drop_first(), id)
    }
}

fn fingerprint_at(fingerprints: &Vec<(NodeId, String)>, id: &NodeId) -> (res: String)
    ensures
        match first_fingerprint(fingerprints@, id@) {
            Some(f) => res@ == f,
            None => res@ == Seq::<char>::empty(),
        },
{
    let mut k: usize = 0;
    proof {
        assert(fingerprints@.skip(0) =~= fingerprints@);
    }
    while k < fingerprints.len()
        invariant
            k <= fingerprints@.len(),
            first_fingerprint(fingerprints@, id@) == first_fingerprint(fingerprints@.skip(k as int), id@),
        decreases fingerprints.len() - k,
    {
        proof {
            let rest = fingerprints@.skip(k as int);
            assert(rest[0] == fingerprints@[k as int]);
            assert(rest.drop_first() =~= fingerprints@.skip(k + 1));
        }
        if fingerprints[k].0.same(id) {
            return fingerprints[k].1.clone();
        }
        k = k + 1;
    }
    proof {
        assert(fingerprints@.skip(k as int).len() == 0);
    }
    String::new()
}

// ---------------------------------------------------------------------------
// Operations.

fn align_synthetic_nodes(before: &ProcedureIr, after: &ProcedureIr, pairs: &mut Vec<NodePair>) {
    insert_pair(
        pairs,
        (before.entry.clone(), after.entry.clone(), String::from_str("synthetic procedure entry")),
    );
    if before.exits.len() == 1 && after.exits.len() == 1 {
        insert_pair(
            pairs,
            (
                before.exits[0].clone(),
                after.exits[0].clone(),
                String::from_str("synthetic procedure exit"),
            ),
        );
    }
}

fn spans_equal(a: &Option<crate::ifds::model::SourceSpan>, b: &Option<crate::ifds::model::SourceSpan>) -> bool {
    crate::ifds::model::option_span_equal(a, b)
}

/// Pairs operations with identical fingerprints (equal numbers pair in
/// order; an unchanged literal at an identical span pairs first), then the
/// single remaining operation of each kind per side (leaving out the
/// declaration writes of declarations that exist on one side only), then
/// producers of aligned inputs.
fn align_source_nodes(
    before: &ProcedureIr,
    after: &ProcedureIr,
    before_fingerprints: &Vec<(NodeId, String)>,
    after_fingerprints: &Vec<(NodeId, String)>,
    one_sided_before: &Vec<NodeId>,
    one_sided_after: &Vec<NodeId>,
    pairs: &mut Vec<NodePair>,
    ambiguities: &mut Vec<AlignmentAmbiguity>,
) {
    let synthetic: Vec<NodePair> = clone_pairs(pairs);
    // Candidate positions on each side: operations with a span, not synthetic.
    let mut left_all: Vec<usize> = Vec::new();
    let mut i: usize = 0;
    while i < before.nodes.len()
        invariant
            forall|k: int| 0 <= k < left_all@.len() ==> #[trigger] left_all@[k] < before.nodes@.len(),
        decreases before.nodes.len() - i,
    {
        if before.nodes[i].span.is_some() && !pair_contains_before(&synthetic, &before.nodes[i].id) {
            left_all.push(i);
        }
        i = i + 1;
    }
    let mut right_all: Vec<usize> = Vec::new();
    let mut i: usize = 0;
    while i < after.nodes.len()
        invariant
            forall|k: int| 0 <= k < right_all@.len() ==> #[trigger] right_all@[k] < after.nodes@.len(),
        decreases after.nodes.len() - i,
    {
        if after.nodes[i].span.is_some() && !pair_contains_after(&synthetic, &after.nodes[i].id) {
            right_all.push(i);
        }
        i = i + 1;
    }
    let mut left_fp: Vec<String> = Vec::new();
    let mut k: usize = 0;
    while k < left_all.len()
        invariant
            left_fp@.len() == k,
            k <= left_all@.len(),
            forall|j: int| 0 <= j < left_all@.len() ==> #[trigger] left_all@[j] < before.nodes@.len(),
        decreases left_all.len() - k,
    {
        left_fp.push(fingerprint_at(before_fingerprints, &before.nodes[left_all[k]].id));
        k = k + 1;
    }
    let mut right_fp: Vec<String> = Vec::new();
    let mut k: usize = 0;
    while k < right_all.len()
        invariant
            right_fp@.len() == k,
            k <= right_all@.len(),
            forall|j: int| 0 <= j < right_all@.len() ==> #[trigger] right_all@[j] < after.nodes@.len(),
        decreases right_all.len() - k,
    {
        right_fp.push(fingerprint_at(after_fingerprints, &after.nodes[right_all[k]].id));
        k = k + 1;
    }
    let mut ambiguous: Vec<NodeId> = Vec::new();
    let mut done_left: Vec<bool> = Vec::new();
    let mut k: usize = 0;
    while k < left_all.len()
        invariant
            done_left@.len() == k,
            k <= left_all@.len(),
        decreases left_all.len() - k,
    {
        done_left.push(false);
        k = k + 1;
    }
    let mut done_right: Vec<bool> = Vec::new();
    let mut k: usize = 0;
    while k < right_all.len()
        invariant
            done_right@.len() == k,
            k <= right_all@.len(),
        decreases right_all.len() - k,
    {
        done_right.push(false);
        k = k + 1;
    }
    // One group per fingerprint, found from its first member on either side.
    let total: usize = if left_all.len() <= usize::MAX - right_all.len() {
        left_all.len() + right_all.len()
    } else {
        usize::MAX
    };
    let mut g: usize = 0;
    while g < total
        invariant
            left_fp@.len() == left_all@.len(),
            right_fp@.len() == right_all@.len(),
            done_left@.len() == left_all@.len(),
            done_right@.len() == right_all@.len(),
            forall|j: int| 0 <= j < left_all@.len() ==> #[trigger] left_all@[j] < before.nodes@.len(),
            forall|j: int| 0 <= j < right_all@.len() ==> #[trigger] right_all@[j] < after.nodes@.len(),
        decreases total - g,
    {
        let fingerprint: String = if g < left_all.len() {
            if done_left[g] {
                g = g + 1;
                continue;
            }
            left_fp[g].clone()
        } else {
            let a = g - left_all.len();
            if a >= right_all.len() || done_right[a] {
                g = g + 1;
                continue;
            }
            right_fp[a].clone()
        };
        let mut left: Vec<usize> = Vec::new();
        let mut k: usize = 0;
        while k < left_all.len()
            invariant
                left_fp@.len() == left_all@.len(),
                done_left@.len() == left_all@.len(),
                forall|j: int| 0 <= j < left_all@.len() ==> #[trigger] left_all@[j] < before.nodes@.len(),
                forall|j: int| 0 <= j < left@.len() ==> #[trigger] left@[j] < before.nodes@.len(),
            decreases left_all.len() - k,
        {
            if !done_left[k] && left_fp[k] == fingerprint {
                left.push(left_all[k]);
                done_left.set(k, true);
            }
            k = k + 1;
        }
        let mut right: Vec<usize> = Vec::new();
        let mut k: usize = 0;
        while k < right_all.len()
            invariant
                right_fp@.len() == right_all@.len(),
                done_right@.len() == right_all@.len(),
                forall|j: int| 0 <= j < right_all@.len() ==> #[trigger] right_all@[j] < after.nodes@.len(),
                forall|j: int| 0 <= j < right@.len() ==> #[trigger] right@[j] < after.nodes@.len(),
            decreases right_all.len() - k,
        {
            if !done_right[k] && right_fp[k] == fingerprint {
                right.push(right_all[k]);
                done_right.set(k, true);
            }
            k = k + 1;
        }
        if left.len() != right.len() {
            let mut stable_left: Vec<usize> = Vec::new();
            let mut stable_right: Vec<usize> = Vec::new();
            let mut l: usize = 0;
            while l < left.len()
                invariant
                    forall|j: int| 0 <= j < left@.len() ==> #[trigger] left@[j] < before.nodes@.len(),
                    forall|j: int| 0 <= j < right@.len() ==> #[trigger] right@[j] < after.nodes@.len(),
                decreases left.len() - l,
            {
                let old_node = &before.nodes[left[l]];
                if let Operation::Literal { .. } = &old_node.operation {
                    if old_node.span.is_some() {
                        let mut same_left: usize = 0;
                        let mut x: usize = 0;
                        while x < left.len()
                            invariant
                                l < left@.len(),
                                same_left <= x,
                                forall|j: int| 0 <= j < left@.len() ==> #[trigger] left@[j] < before.nodes@.len(),
                            decreases left.len() - x,
                        {
                            if spans_equal(&before.nodes[left[x]].span, &old_node.span) {
                                same_left = same_left + 1;
                            }
                            x = x + 1;
                        }
                        if same_left == 1 {
                            let mut found: Option<usize> = None;
                            let mut count: usize = 0;
                            let mut y: usize = 0;
                            while y < right.len()
                                invariant
                                    count <= y,
                                    forall|j: int| 0 <= j < right@.len() ==> #[trigger] right@[j] < after.nodes@.len(),
                                    found matches Some(f) ==> f < after.nodes@.len(),
                                decreases right.len() - y,
                            {
                                if spans_equal(&after.nodes[right[y]].span, &old_node.span) {
                                    if count == 0 {
                                        found = Some(right[y]);
                                    }
                                    count = count + 1;
                                }
                                y = y + 1;
                            }
                            if count == 1 {
                                if let Some(f) = found {
                                    insert_pair(
                                        pairs,
                                        (
                                            old_node.id.clone(),
                                            after.nodes[f].id.clone(),
                                            String::from_str(
                                                "unchanged literal at identical source span",
                                            ),
                                        ),
                                    );
                                    stable_left.push(left[l]);
                                    stable_right.push(f);
                                }
                            }
                        }
                    }
                }
                l = l + 1;
            }
            let mut rest_left: Vec<usize> = Vec::new();
            let mut l: usize = 0;
            while l < left.len()
                invariant
                    forall|j: int| 0 <= j < left@.len() ==> #[trigger] left@[j] < before.nodes@.len(),
                    forall|j: int| 0 <= j < rest_left@.len() ==> #[trigger] rest_left@[j] < before.nodes@.len(),
                decreases left.len() - l,
            {
                let mut stable = false;
                let mut s: usize = 0;
                while s < stable_left.len()
                    invariant
                        s <= stable_left@.len(),
                        l < left@.len(),
                    decreases stable_left.len() - s,
                {
                    if stable_left[s] == left[l] {
                        stable = true;
                    }
                    s = s + 1;
                }
                if !stable {
                    rest_left.push(left[l]);
                }
                l = l + 1;
            }
            let mut rest_right: Vec<usize> = Vec::new();
            let mut r: usize = 0;
            while r < right.len()
                invariant
                    forall|j: int| 0 <= j < right@.len() ==> #[trigger] right@[j] < after.nodes@.len(),
                    forall|j: int| 0 <= j < rest_right@.len() ==> #[trigger] rest_right@[j] < after.nodes@.len(),
                decreases right.len() - r,
            {
                let mut stable = false;
                let mut s: usize = 0;
                while s < stable_right.len()
                    invariant
                        s <= stable_right@.len(),
                        r < right@.len(),
                    decreases stable_right.len() - s,
                {
                    if stable_right[s] == right[r] {
                        stable = true;
                    }
                    s = s + 1;
                }
                if !stable {
                    rest_right.push(right[r]);
                }
                r = r + 1;
            }
            left = rest_left;
            right = rest_right;
        }
        if left.len() == right.len() {
            let mut k: usize = 0;
            while k < left.len()
                invariant
                    left@.len() == right@.len(),
                    forall|j: int| 0 <= j < left@.len() ==> #[trigger] left@[j] < before.nodes@.len(),
                    forall|j: int| 0 <= j < right@.len() ==> #[trigger] right@[j] < after.nodes@.len(),
                decreases left.len() - k,
            {
                insert_pair(
                    pairs,
                    (
                        before.nodes[left[k]].id.clone(),
                        after.nodes[right[k]].id.clone(),
                        String::from_str("identical semantic fingerprint"),
                    ),
                );
                k = k + 1;
            }
        } else if left.len() > 0 && right.len() > 0 {
            let mut candidates: Vec<AlignmentCandidate> = Vec::new();
            let mut l: usize = 0;
            while l < left.len()
                invariant
                    forall|j: int| 0 <= j < left@.len() ==> #[trigger] left@[j] < before.nodes@.len(),
                    forall|j: int| 0 <= j < right@.len() ==> #[trigger] right@[j] < after.nodes@.len(),
                decreases left.len() - l,
            {
                ambiguous.push(before.nodes[left[l]].id.clone());
                let mut r: usize = 0;
                while r < right.len()
                    invariant
                        l < left@.len(),
                        forall|j: int| 0 <= j < left@.len() ==> #[trigger] left@[j] < before.nodes@.len(),
                        forall|j: int| 0 <= j < right@.len() ==> #[trigger] right@[j] < after.nodes@.len(),
                    decreases right.len() - r,
                {
                    candidates.push(
                        AlignmentCandidate {
                            before: AlignmentEntity::Node(before.nodes[left[l]].id.clone()),
                            after: AlignmentEntity::Node(after.nodes[right[r]].id.clone()),
                        },
                    );
                    r = r + 1;
                }
                l = l + 1;
            }
            let mut r: usize = 0;
            while r < right.len()
                invariant
                    forall|j: int| 0 <= j < right@.len() ==> #[trigger] right@[j] < after.nodes@.len(),
                decreases right.len() - r,
            {
                ambiguous.push(after.nodes[right[r]].id.clone());
                r = r + 1;
            }
            ambiguities.push(
                AlignmentAmbiguity {
                    candidates,
                    evidence: String::from_str(
                        "indistinguishable repeated operations with fingerprint ",
                    ).concat(fingerprint.as_str()),
                },
            );
        }
        g = g + 1;
    }
    // The single remaining operation of a kind on each side pairs up.
    let mut kind_index: usize = 0;
    let kinds = [
        "entry",
        "read",
        "write",
        "literal",
        "compute",
        "branch",
        "join",
        "call",
        "return_site",
        "return",
        "exit",
        "unknown_effect",
    ];
    let snapshot: Vec<NodePair> = clone_pairs(pairs);
    while kind_index < 12
        decreases 12 - kind_index,
    {
        let kind = kinds[kind_index];
        let mut left: Option<usize> = None;
        let mut left_count: usize = 0;
        let mut i: usize = 0;
        while i < before.nodes.len()
            invariant
                left_count <= i,
                left matches Some(x) ==> x < before.nodes@.len(),
            decreases before.nodes.len() - i,
        {
            let node = &before.nodes[i];
            if node.span.is_some() && !pair_contains_before(&snapshot, &node.id) && !contains_node_id(
                &ambiguous,
                &node.id,
            ) && !contains_node_id(one_sided_before, &node.id) && str_same(
                operation_kind(&node.operation),
                kind,
            ) {
                left = Some(i);
                left_count = left_count + 1;
            }
            i = i + 1;
        }
        let mut right: Option<usize> = None;
        let mut right_count: usize = 0;
        let mut i: usize = 0;
        while i < after.nodes.len()
            invariant
                right_count <= i,
                right matches Some(x) ==> x < after.nodes@.len(),
            decreases after.nodes.len() - i,
        {
            let node = &after.nodes[i];
            if node.span.is_some() && !pair_contains_after(&snapshot, &node.id) && !contains_node_id(
                &ambiguous,
                &node.id,
            ) && !contains_node_id(one_sided_after, &node.id) && str_same(
                operation_kind(&node.operation),
                kind,
            ) {
                right = Some(i);
                right_count = right_count + 1;
            }
            i = i + 1;
        }
        if left_count == 1 && right_count == 1 {
            if let (Some(l), Some(r)) = (left, right) {
                insert_pair(
                    pairs,
                    (
                        before.nodes[l].id.clone(),
                        after.nodes[r].id.clone(),
                        String::from_str("unique syntax role and local edit context"),
                    ),
                );
            }
        }
        kind_index = kind_index + 1;
    }
    align_nested_sources(before, after, pairs, ambiguities);
}

/// The places an operation consumes as inputs when it is a write or a
/// computation.
fn operation_input_places(operation: &Operation) -> Option<Vec<Place>> {
    match operation {
        Operation::Write { sources, .. } => Some(sources.clone()),
        Operation::Compute { inputs, .. } => {
            let mut places: Vec<Place> = Vec::new();
            let mut k: usize = 0;
            while k < inputs.len()
                invariant
                    k <= inputs@.len(),
                decreases inputs.len() - k,
            {
                places.push(inputs[k].place.clone());
                k = k + 1;
            }
            Some(places)
        },
        _ => None,
    }
}

/// Repeatedly pairs the producers of inputs of already-paired writes and
/// computations when their kinds agree; then drops the ambiguities that
/// pairing resolved entirely.
fn align_nested_sources(
    before: &ProcedureIr,
    after: &ProcedureIr,
    pairs: &mut Vec<NodePair>,
    ambiguities: &mut Vec<AlignmentAmbiguity>,
) {
    let mut rounds: usize = 0;
    let bound = before.nodes.len();
    while rounds < bound
        decreases bound - rounds,
    {
        let current: Vec<NodePair> = clone_pairs(pairs);
        let mut additions: Vec<NodePair> = Vec::new();
        let mut p: usize = 0;
        while p < current.len()
            invariant
                p <= current@.len(),
            decreases current.len() - p,
        {
            let old_index = find_node(before, &current[p].0);
            let new_index = find_node(after, &current[p].1);
            if let (Some(oi), Some(ni)) = (old_index, new_index) {
                let old_inputs = operation_input_places(&before.nodes[oi].operation);
                let new_inputs = operation_input_places(&after.nodes[ni].operation);
                let same_shape = match (&before.nodes[oi].operation, &after.nodes[ni].operation) {
                    (Operation::Write { .. }, Operation::Write { .. }) => true,
                    (Operation::Compute { .. }, Operation::Compute { .. }) => true,
                    _ => false,
                };
                if let (Some(old_places), Some(new_places)) = (old_inputs, new_inputs) {
                    if same_shape && old_places.len() == new_places.len() {
                        let mut q: usize = 0;
                        while q < old_places.len()
                            invariant
                                old_places@.len() == new_places@.len(),
                            decreases old_places.len() - q,
                        {
                            if let (Place::Temporary(old_source), Place::Temporary(new_source)) = (
                                &old_places[q],
                                &new_places[q],
                            ) {
                                if !pair_contains_before(&current, old_source)
                                    && !pair_contains_after(&current, new_source) {
                                    if let (Some(os), Some(ns)) = (
                                        find_node(before, old_source),
                                        find_node(after, new_source),
                                    ) {
                                        if same_operation_kind(
                                            &before.nodes[os].operation,
                                            &after.nodes[ns].operation,
                                        ) {
                                            insert_pair(
                                                &mut additions,
                                                (
                                                    old_source.clone(),
                                                    new_source.clone(),
                                                    String::from_str(
                                                        "matched producer of aligned input",
                                                    ),
                                                ),
                                            );
                                        }
                                    }
                                }
                            }
                            q = q + 1;
                        }
                    }
                }
            }
            p = p + 1;
        }
        if additions.len() == 0 {
            break;
        }
        let mut k: usize = 0;
        while k < additions.len()
            invariant
                k <= additions@.len(),
            decreases additions.len() - k,
        {
            insert_pair(pairs, clone_pair(&additions[k]));
            k = k + 1;
        }
        rounds = rounds + 1;
    }
    let mut kept: Vec<AlignmentAmbiguity> = Vec::new();
    let mut a: usize = 0;
    while a < ambiguities.len()
        invariant
            a <= ambiguities@.len(),
        decreases ambiguities.len() - a,
    {
        let candidates = &ambiguities[a].candidates;
        let mut all_resolved = true;
        let mut c: usize = 0;
        while c < candidates.len()
            invariant
                c <= candidates@.len(),
            decreases candidates.len() - c,
        {
            let resolved = match (&candidates[c].before, &candidates[c].after) {
                (AlignmentEntity::Node(old), AlignmentEntity::Node(new)) => pair_contains_before(
                    pairs,
                    old,
                ) && pair_contains_after(pairs, new),
                _ => false,
            };
            if !resolved {
                all_resolved = false;
            }
            c = c + 1;
        }
        if !all_resolved {
            kept.push(ambiguities[a].clone());
        }
        a = a + 1;
    }
    *ambiguities = kept;
}

// ---------------------------------------------------------------------------
// The alignment.

/// Whether one of the two lists holds the binding.
pub open spec fn listed_binding(bindings: Seq<AlignableBinding>, id: BindingId) -> bool {
    exists|k: int| 0 <= k < bindings.len() && (#[trigger] bindings[k]).id@ == id@
}

/// The declaration pair that an explicit counterpart fixes, as positions in
/// the two lists: the selected binding on its side and the counterpart on
/// the other, the selected binding looked up first among the earlier ones.
pub open spec fn explicit_pair(
    before_bindings: Seq<AlignableBinding>,
    after_bindings: Seq<AlignableBinding>,
    selected: BindingId,
    counterpart: BindingId,
) -> Option<(int, int)> {
    if listed_binding(before_bindings, selected) {
        if listed_binding(after_bindings, counterpart) {
            Some((first_binding(before_bindings, selected), first_binding(after_bindings, counterpart)))
        } else {
            None
        }
    } else if listed_binding(before_bindings, counterpart) && listed_binding(after_bindings, selected) {
        Some((first_binding(before_bindings, counterpart), first_binding(after_bindings, selected)))
    } else {
        None
    }
}

/// The inputs that the alignment accepts: sides in order, a selected
/// binding that one side lists, and an explicit counterpart, where there is
/// one, found on the other side and compatible with the selection.
pub open spec fn alignment_accepts(
    before: ProcedureIr,
    after: ProcedureIr,
    before_bindings: Seq<AlignableBinding>,
    after_bindings: Seq<AlignableBinding>,
    diff: RepositoryDiff,
    selected: BindingId,
    explicit_counterpart: Option<BindingId>,
) -> bool {
    &&& before.id.snapshot.side == SnapshotSide::Before
    &&& after.id.snapshot.side == SnapshotSide::After
    &&& (listed_binding(before_bindings, selected) || listed_binding(after_bindings, selected))
    &&& explicit_counterpart matches Some(c) ==> (explicit_pair(before_bindings, after_bindings, selected, c)
        matches Some((b, a)) && counterpart_compatible(before_bindings[b], after_bindings[a], diff))
}

/// Aligns two lowered versions of one containing procedure. `selected` may
/// belong to either side; an explicit counterpart fixes that declaration
/// pairing before automatic alignment, after it is checked to be in the
/// same or a validly renamed file with the same lexical role.
pub fn align_procedures(
    before: &ProcedureIr,
    after: &ProcedureIr,
    before_bindings: &[AlignableBinding],
    after_bindings: &[AlignableBinding],
    diff: &RepositoryDiff,
    selected: &BindingId,
    explicit_counterpart: Option<&BindingId>,
) -> (res: Result<AlignmentResult, AlignmentError>)
    ensures
        (before.id.snapshot.side != SnapshotSide::Before || after.id.snapshot.side
            != SnapshotSide::After) ==> (res matches Err(e) && e is InvalidSnapshots),
        before.id.snapshot.side == SnapshotSide::Before && after.id.snapshot.side
            == SnapshotSide::After && !listed_binding(before_bindings@, *selected) && !listed_binding(
            after_bindings@,
            *selected,
        ) ==> (res matches Err(e) && e is MissingSelectedBinding),
        res is Ok <==> alignment_accepts(
            *before,
            *after,
            before_bindings@,
            after_bindings@,
            *diff,
            *selected,
            match explicit_counterpart {
                Some(c) => Some(*c),
                None => None,
            },
        ),
        res matches Err(e) ==> (e is InvalidSnapshots <==> (before.id.snapshot.side != SnapshotSide::Before
            || after.id.snapshot.side != SnapshotSide::After)),
        res matches Err(e) ==> (before.id.snapshot.side == SnapshotSide::Before && after.id.snapshot.side
            == SnapshotSide::After ==> (e is MissingSelectedBinding <==> (!listed_binding(
            before_bindings@,
            *selected,
        ) && !listed_binding(after_bindings@, *selected)))),
        explicit_counterpart matches Some(c) ==> (res matches Err(e) ==> (e is MissingCounterpart <==> (
            before.id.snapshot.side == SnapshotSide::Before && after.id.snapshot.side == SnapshotSide::After
                && (listed_binding(before_bindings@, *selected) || listed_binding(after_bindings@, *selected))
                && explicit_pair(before_bindings@, after_bindings@, *selected, *c) is None))),
        res matches Ok(r) ==> r.before_fingerprints@.len() == before.nodes.len()
            && r.after_fingerprints@.len() == after.nodes.len(),
        res matches Ok(r) ==> forall|i: int|
            0 <= i < before.nodes.len() ==> fingerprint_fits(
                before.nodes@[i].operation,
                (#[trigger] r.before_fingerprints@[i]).1@,
            ),
        res matches Ok(r) ==> forall|i: int|
            0 <= i < after.nodes.len() ==> fingerprint_fits(
                after.nodes@[i].operation,
                (#[trigger] r.after_fingerprints@[i]).1@,
            ),
{
    if before.id.snapshot.side != SnapshotSide::Before || after.id.snapshot.side != SnapshotSide::After {
        return Err(
            AlignmentError::InvalidSnapshots(
                String::from_str("procedures must be ordered before, then after"),
            ),
        );
    }
    let selected_before = find_binding(before_bindings, selected);
    let selected_after = find_binding(after_bindings, selected);
    if selected_before.is_none() && selected_after.is_none() {
        return Err(AlignmentError::MissingSelectedBinding(selected.clone()));
    }
    let mut binding_pairs: Vec<(BindingId, BindingId, String)> = Vec::new();
    if let Some(counterpart_id) = explicit_counterpart {
        let (b, a) = match selected_before {
            Some(s) => match find_binding(after_bindings, counterpart_id) {
                Some(c) => (s, c),
                None => {
                    return Err(AlignmentError::MissingCounterpart(counterpart_id.clone()));
                },
            },
            None => match find_binding(before_bindings, counterpart_id) {
                Some(c) => match selected_after {
                    Some(s) => (c, s),
                    None => {
                        return Err(AlignmentError::MissingSelectedBinding(selected.clone()));
                    },
                },
                None => {
                    return Err(AlignmentError::MissingCounterpart(counterpart_id.clone()));
                },
            },
        };
        if let Err(e) = validate_explicit_counterpart(&before_bindings[b], &after_bindings[a], diff) {
            return Err(e);
        }
        binding_pairs.push(
            (
                before_bindings[b].id.clone(),
                after_bindings[a].id.clone(),
                String::from_str("explicit counterpart"),
            ),
        );
    }
    let mut ambiguities: Vec<AlignmentAmbiguity> = Vec::new();
    align_automatic_bindings(before_bindings, after_bindings, diff, &mut binding_pairs, &mut ambiguities);
    let ambiguous_ids = ambiguous_entities(&ambiguities);
    let mut bindings: Vec<BindingAlignment> = Vec::new();
    let mut next_binding: u64 = 1;
    let mut k: usize = 0;
    while k < binding_pairs.len()
        invariant
            k <= binding_pairs@.len(),
        decreases binding_pairs.len() - k,
    {
        bindings.push(
            BindingAlignment {
                logical: LogicalBindingId(next_binding),
                before: Some(binding_pairs[k].0.clone()),
                after: Some(binding_pairs[k].1.clone()),
                evidence: binding_pairs[k].2.clone(),
            },
        );
        next_binding = next_binding.wrapping_add(1);
        k = k + 1;
    }
    let mut k: usize = 0;
    while k < before_bindings.len()
        invariant
            k <= before_bindings@.len(),
        decreases before_bindings.len() - k,
    {
        let id = &before_bindings[k].id;
        if !binding_paired_before(&binding_pairs, id) && !is_ambiguous_binding(&ambiguous_ids, id) {
            bindings.push(
                BindingAlignment {
                    logical: LogicalBindingId(next_binding),
                    before: Some(id.clone()),
                    after: None,
                    evidence: String::from_str("confirmed one-sided declaration"),
                },
            );
            next_binding = next_binding.wrapping_add(1);
        }
        k = k + 1;
    }
    let mut k: usize = 0;
    while k < after_bindings.len()
        invariant
            k <= after_bindings@.len(),
        decreases after_bindings.len() - k,
    {
        let id = &after_bindings[k].id;
        if !binding_paired_after(&binding_pairs, id) && !is_ambiguous_binding(&ambiguous_ids, id) {
            bindings.push(
                BindingAlignment {
                    logical: LogicalBindingId(next_binding),
                    before: None,
                    after: Some(id.clone()),
                    evidence: String::from_str("confirmed one-sided declaration"),
                },
            );
            next_binding = next_binding.wrapping_add(1);
        }
        k = k + 1;
    }
    // Fingerprints name bindings by their logical number, which keeps a
    // renamed binding's identity.
    let mut before_tokens: Vec<(BindingId, String)> = Vec::new();
    let mut after_tokens: Vec<(BindingId, String)> = Vec::new();
    let mut k: usize = 0;
    while k < bindings.len()
        invariant
            k <= bindings@.len(),
        decreases bindings.len() - k,
    {
        let token = String::from_str("binding:").concat(bindings[k].logical.0.to_string().as_str());
        if let Some(id) = &bindings[k].before {
            before_tokens.push((id.clone(), token.clone()));
        }
        if let Some(id) = &bindings[k].after {
            after_tokens.push((id.clone(), token));
        }
        k = k + 1;
    }
    let before_fingerprints = fingerprints(before, &before_tokens);
    let after_fingerprints = fingerprints(after, &after_tokens);
    let mut node_pairs: Vec<NodePair> = Vec::new();
    align_synthetic_nodes(before, after, &mut node_pairs);
    let mut k: usize = 0;
    while k < bindings.len()
        invariant
            k <= bindings@.len(),
        decreases bindings.len() - k,
    {
        if let (Some(before_id), Some(after_id)) = (&bindings[k].before, &bindings[k].after) {
            if let (Some(b), Some(a)) = (
                find_binding(before_bindings, before_id),
                find_binding(after_bindings, after_id),
            ) {
                let old = declaration_write(before, before_id, &before_bindings[b].declaration);
                let new = declaration_write(after, after_id, &after_bindings[a].declaration);
                if let (Some(old), Some(new)) = (old, new) {
                    insert_pair(
                        &mut node_pairs,
                        (old, new, String::from_str("aligned declaration write")),
                    );
                }
            }
        }
        k = k + 1;
    }
    let mut one_sided_before: Vec<NodeId> = Vec::new();
    let mut one_sided_after: Vec<NodeId> = Vec::new();
    let mut k: usize = 0;
    while k < bindings.len()
        invariant
            k <= bindings@.len(),
        decreases bindings.len() - k,
    {
        match (&bindings[k].before, &bindings[k].after) {
            (Some(before_id), None) => {
                if let Some(b) = find_binding(before_bindings, before_id) {
                    if let Some(write) = declaration_write(
                        before,
                        before_id,
                        &before_bindings[b].declaration,
                    ) {
                        one_sided_before.push(write);
                    }
                }
            },
            (None, Some(after_id)) => {
                if let Some(a) = find_binding(after_bindings, after_id) {
                    if let Some(write) = declaration_write(
                        after,
                        after_id,
                        &after_bindings[a].declaration,
                    ) {
                        one_sided_after.push(write);
                    }
                }
            },
            _ => {},
        }
        k = k + 1;
    }
    align_source_nodes(
        before,
        after,
        &before_fingerprints,
        &after_fingerprints,
        &one_sided_before,
        &one_sided_after,
        &mut node_pairs,
        &mut ambiguities,
    );
    let ambiguous_nodes = ambiguous_entities(&ambiguities);
    let mut nodes: Vec<Alignment> = Vec::new();
    let mut next_node: u64 = 1;
    let mut k: usize = 0;
    while k < node_pairs.len()
        invariant
            k <= node_pairs@.len(),
        decreases node_pairs.len() - k,
    {
        nodes.push(
            Alignment {
                logical: LogicalNodeId(next_node),
                before: Some(node_pairs[k].0.clone()),
                after: Some(node_pairs[k].1.clone()),
                evidence: node_pairs[k].2.clone(),
            },
        );
        next_node = next_node.wrapping_add(1);
        k = k + 1;
    }
    let mut i: usize = 0;
    while i < before.nodes.len()
        invariant
            i <= before.nodes@.len(),
        decreases before.nodes.len() - i,
    {
        let id = &before.nodes[i].id;
        if !pair_contains_before(&node_pairs, id) && !is_ambiguous_node(&ambiguous_nodes, id) {
            nodes.push(
                Alignment {
                    logical: LogicalNodeId(next_node),
                    before: Some(id.clone()),
                    after: None,
                    evidence: String::from_str("confirmed one-sided operation"),
                },
            );
            next_node = next_node.wrapping_add(1);
        }
        i = i + 1;
    }
    let mut i: usize = 0;
    while i < after.nodes.len()
        invariant
            i <= after.nodes@.len(),
        decreases after.nodes.len() - i,
    {
        let id = &after.nodes[i].id;
        if !pair_contains_after(&node_pairs, id) && !is_ambiguous_node(&ambiguous_nodes, id) {
            nodes.push(
                Alignment {
                    logical: LogicalNodeId(next_node),
                    before: None,
                    after: Some(id.clone()),
                    evidence: String::from_str("confirmed one-sided operation"),
                },
            );
            next_node = next_node.wrapping_add(1);
        }
        i = i + 1;
    }
    let mut diagnostics: Vec<Diagnostic> = Vec::new();
    let mut a: usize = 0;
    while a < ambiguities.len()
        invariant
            a <= ambiguities@.len(),
        decreases ambiguities.len() - a,
    {
        let mut flows: Vec<String> = Vec::new();
        let candidates = &ambiguities[a].candidates;
        let mut c: usize = 0;
        while c < candidates.len()
            invariant
                c <= candidates@.len(),
            decreases candidates.len() - c,
        {
            flows.push(
                entity_text(&candidates[c].before).concat(" -> ").concat(
                    entity_text(&candidates[c].after).as_str(),
                ),
            );
            c = c + 1;
        }
        diagnostics.push(
            Diagnostic {
                code: DiagnosticCode::AmbiguousMatch,
                message: ambiguities[a].evidence.clone(),
                snapshot: None,
                frontier: None,
                span: None,
                affected_flows: flows,
            },
        );
        a = a + 1;
    }
    Ok(
        AlignmentResult {
            bindings,
            nodes,
            ambiguities,
            diagnostics,
            before_fingerprints,
            after_fingerprints,
        },
    )
}

fn entity_text(entity: &AlignmentEntity) -> String {
    match entity {
        AlignmentEntity::Binding(id) => String::from_str("binding ").concat(
            id.local.to_string().as_str(),
        ),
        AlignmentEntity::Node(id) => String::from_str("node ").concat(id.local.to_string().as_str()),
    }
}

} // verus!
