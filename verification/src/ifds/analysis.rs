//! The snapshot-backed analysis of one variable: validate the query, read
//! and index both files, resolve the binding and its counterpart, lower,
//! align, solve, slice, compare and assemble the report.
use vstd::prelude::*;
use crate::ifds::adapters::typescript::syntax::source_text;
use crate::ifds::adapters::typescript::lowering::trim;
use crate::ifds::adapters::typescript::{
    alignable_bindings, index_bindings, index_wf, lower_containing_procedure, BindingKind, LexicalBinding,
    TypeScriptAdapterError, TypeScriptBindingIndex, TypeScriptLoweringError,
};
use crate::ifds::compare::{align_procedures, AlignmentError, AlignmentResult};
use crate::ifds::compact::{
    project_variable_sources, references_ok, report_id_spec, scope_tail, snapshots_same, VariableSourceReport,
    COMPACT_SCHEMA_VERSION,
};
use crate::ifds::comparison::{compare_flow_slices, ComparisonError, ComparisonInput};
use crate::ifds::ir::{debug_text, ProcedureIr};
use crate::ifds::model::{
    span_valid,
    insert_diagnostic, insert_frontier, report_spans_valid, AnalysisStats, BindingId, BindingSelector,
    Completeness, Coverage, DeltaRecord, Diagnostic, Direction, EntryAssumption, EntryPoint,
    FlowExtent, FlowGraph, FlowNode, InputError, PathEnding, ResolvedQuery, SchemaError,
    SnapshotHandle, SnapshotSide, Source, UnknownFrontier, VariableFlowQuery, VariableFlowReport,
    Witness, WitnessId, REPORT_SCHEMA_VERSION,
};
use crate::ifds::provenance::seed_entry_facts;
use crate::ifds::slicing::{build_flow_slice, SliceError, SliceOutput, SliceRequest};
use crate::ifds::snapshots::{
    query_shape_ok, snapshot_pair_shape_ok, validate_query, AnalysisEnvironment, SnapshotProvider,
};
use crate::ifds::solver::{
    IntraproceduralSolver, Solver, SolverError, SolverOutput, SolverRequest, SystemSolverControl,
};

verus! {

/// The version of the analysis recorded in its reports.
pub const ANALYSIS_VERSION: &'static str = "0.1.0";

#[derive(Debug)]
pub enum AnalysisError {
    Input(InputError),
    Adapter(String),
    Alignment(AlignmentError),
    Solver(SolverError),
    Slice(SliceError),
    Comparison(ComparisonError),
    Schema(SchemaError),
}

/// `String::from_utf8`: the text whose UTF-8 encoding is the bytes, or the
/// text of the error for bytes that are not UTF-8.
#[verifier::external_body]
pub(crate) fn utf8_string(bytes: Vec<u8>) -> (res: Result<String, String>)
    ensures
        res is Ok <==> vstd::utf8::valid_utf8(bytes@),
        res matches Ok(text) ==> vstd::utf8::encode_utf8(text@) == bytes@,
{
    match String::from_utf8(bytes) {
        Ok(text) => Ok(text),
        Err(error) => Err(error.to_string()),
    }
}

fn adapter_message(error: &TypeScriptAdapterError) -> String {
    match error {
        TypeScriptAdapterError::UnsupportedFileKind(path) => String::from_str(
            "unsupported TypeScript file kind for ",
        ).concat(debug_text(path).as_str()),
        TypeScriptAdapterError::Parser(reason) => String::from_str(
            "failed to initialize TypeScript parser: ",
        ).concat(reason.as_str()),
    }
}

fn lowering_message(error: &TypeScriptLoweringError) -> String {
    String::from_str("TypeScript lowering failed: ").concat(debug_text(error).as_str())
}

/// Reads a file of a snapshot and indexes its bindings.
fn read_index<P: SnapshotProvider>(provider: &P, handle: &SnapshotHandle, path: &str) -> (res: Result<
    (String, TypeScriptBindingIndex),
    AnalysisError,
>)
    ensures
        res matches Ok((_, index)) ==> index_wf(index),
{
    let bytes = match provider.read_file(handle, path) {
        Ok(bytes) => bytes,
        Err(e) => {
            return Err(AnalysisError::Input(e));
        },
    };
    let source = match utf8_string(bytes) {
        Ok(text) => text,
        Err(reason) => {
            return Err(
                AnalysisError::Adapter(
                    String::from_str(path).concat(": invalid UTF-8: ").concat(reason.as_str()),
                ),
            );
        },
    };
    match index_bindings(handle.id.clone(), path, source.as_str()) {
        Ok(index) => Ok((source, index)),
        Err(e) => Err(AnalysisError::Adapter(adapter_message(&e))),
    }
}

fn option_text_is(a: &Option<String>, text: &str) -> (res: bool)
    ensures
        res == (a matches Some(x) && x@ == text@),
{
    match a {
        Some(x) => crate::ifds::adapters::typescript::syntax::str_equal(x.as_str(), text),
        None => false,
    }
}

/// The path of the file on the other side: the one the diff pairs with
/// `path`, else `path` itself.
/// The path on the other side of the first change that names `path` on
/// `side` and has a path on the other side.
pub open spec fn counterpart_path(changes: Seq<crate::ifds::model::FileChange>, path: Seq<char>, side: SnapshotSide) -> Option<Seq<char>>
    decreases changes.len(),
{
    if changes.len() == 0 {
        None
    } else {
        let c = changes[0];
        let (own, other) = match side {
            SnapshotSide::Before => (c.before_path, c.after_path),
            SnapshotSide::After => (c.after_path, c.before_path),
        };
        if (own matches Some(x) && x@ == path) && other is Some {
            Some(other->0@)
        } else {
            counterpart_path(changes.drop_first(), path, side)
        }
    }
}

fn opposite_path(query: &VariableFlowQuery, path: &str, side: SnapshotSide) -> (res: String)
    ensures
        res@ == match counterpart_path(query.diff.changes@, path@, side) {
            Some(p) => p,
            None => path@,
        },
{
    let changes = &query.diff.changes;
    let mut k: usize = 0;
    proof {
        assert(changes@.skip(0) =~= changes@);
    }
    while k < changes.len()
        invariant
            k <= changes@.len(),
            changes == &query.diff.changes,
            counterpart_path(changes@, path@, side) == counterpart_path(changes@.skip(k as int), path@, side),
        decreases changes.len() - k,
    {
        proof {
            let rest = changes@.skip(k as int);
            assert(rest[0] == changes@[k as int]);
            assert(rest.drop_first() =~= changes@.skip(k + 1));
        }
        let change = &changes[k];
        match side {
            SnapshotSide::Before => {
                if option_text_is(&change.before_path, path) {
                    if let Some(other) = &change.after_path {
                        return other.clone();
                    }
                }
            },
            SnapshotSide::After => {
                if option_text_is(&change.after_path, path) {
                    if let Some(other) = &change.before_path {
                        return other.clone();
                    }
                }
            },
        }
        k = k + 1;
    }
    proof {
        assert(changes@.skip(k as int).len() == 0);
    }
    String::from_str(path)
}

fn is_parameter_kind(kind: BindingKind) -> (res: bool)
    ensures
        res == (kind == BindingKind::Parameter),
{
    match kind {
        BindingKind::Parameter => true,
        _ => false,
    }
}

fn option_text_same(a: &Option<String>, b: &Option<String>) -> (res: bool)
    ensures
        res == (crate::ifds::snapshots::opt_text(*a) == crate::ifds::snapshots::opt_text(*b)),
{
    match (a, b) {
        (Some(x), Some(y)) => *x == *y,
        (None, None) => true,
        _ => false,
    }
}

/// A binding of the other snapshot that may stand for the selected one: the
/// same name in the same enclosing function (or both at module level).
pub open spec fn counterpart_candidate(b: LexicalBinding, selected: LexicalBinding) -> bool {
    &&& b.name@ == selected.name@
    &&& crate::ifds::snapshots::opt_text(b.enclosing_symbol) == crate::ifds::snapshots::opt_text(
        selected.enclosing_symbol,
    )
}

/// Both bindings are parameters, or neither is.
pub open spec fn same_binding_role(b: LexicalBinding, selected: LexicalBinding) -> bool {
    (b.kind == BindingKind::Parameter) == (selected.kind == BindingKind::Parameter)
}

/// The binding at `k` is the one counterpart: a candidate, and every other
/// candidate is passed over because `k` has the selected binding's role and
/// it has not.
pub open spec fn sole_counterpart(bindings: Seq<LexicalBinding>, selected: LexicalBinding, k: int) -> bool {
    &&& 0 <= k < bindings.len()
    &&& counterpart_candidate(bindings[k], selected)
    &&& forall|j: int|
        0 <= j < bindings.len() && j != k && counterpart_candidate(#[trigger] bindings[j], selected) ==> (
        same_binding_role(bindings[k], selected) && !same_binding_role(bindings[j], selected))
}

/// A binding that alone in the other snapshot has the selected binding's name
/// and enclosing function is its counterpart.
pub proof fn lemma_only_same_scope_binding_is_counterpart(
    bindings: Seq<LexicalBinding>,
    selected: LexicalBinding,
    k: int,
)
    requires
        0 <= k < bindings.len(),
        bindings[k].name@ == selected.name@,
        crate::ifds::snapshots::opt_text(bindings[k].enclosing_symbol) == crate::ifds::snapshots::opt_text(
            selected.enclosing_symbol,
        ),
        forall|j: int|
            0 <= j < bindings.len() && j != k ==> !((#[trigger] bindings[j]).name@ == selected.name@
                && crate::ifds::snapshots::opt_text(bindings[j].enclosing_symbol) == crate::ifds::snapshots::opt_text(
                selected.enclosing_symbol,
            )),
    ensures
        sole_counterpart(bindings, selected, k),
{
}

/// The indices in a list rise strictly.
spec fn rising(v: Seq<usize>) -> bool {
    forall|a: int, b: int| 0 <= a < b < v.len() ==> v[a] < v[b]
}

/// The binding of the other snapshot with the selected binding's name and
/// enclosing function, preferring one of the same kind (parameter or not);
/// there must be exactly one.
fn inferred_counterpart<'b>(index: &'b TypeScriptBindingIndex, selected: &LexicalBinding) -> (res:
    Result<&'b LexicalBinding, AnalysisError>)
    ensures
        res is Ok <==> exists|k: int| sole_counterpart(index.bindings@, *selected, k),
        res matches Ok(b) ==> exists|k: int| sole_counterpart(index.bindings@, *selected, k) && *b == index.bindings@[k],
        res matches Ok(b) ==> b.name@ == selected.name@ && crate::ifds::snapshots::opt_text(b.enclosing_symbol)
            == crate::ifds::snapshots::opt_text(selected.enclosing_symbol),
        res matches Err(e) ==> e is Input,
{
    let bindings = &index.bindings;
    let ghost bs = bindings@;
    let ghost sel = *selected;
    let mut candidates: Vec<usize> = Vec::new();
    let mut k: usize = 0;
    while k < bindings.len()
        invariant
            k <= bindings@.len(),
            bs == bindings@,
            sel == *selected,
            rising(candidates@),
            forall|a: int| 0 <= a < candidates@.len() ==> #[trigger] candidates@[a] < k,
            forall|j: int|
                0 <= j < k ==> (counterpart_candidate(#[trigger] bs[j], sel) <==> candidates@.contains(j as usize)),
            forall|a: int| 0 <= a < candidates@.len() ==> counterpart_candidate(bs[#[trigger] candidates@[a] as int], sel),
        decreases bindings.len() - k,
    {
        let ghost before = candidates@;
        let same_name = bindings[k].name == selected.name;
        let same_owner = option_text_same(&bindings[k].enclosing_symbol, &selected.enclosing_symbol);
        proof {
            assert(same_name == (bs[k as int].name@ == sel.name@));
            assert((same_name && same_owner) == counterpart_candidate(bs[k as int], sel));
        }
        if same_name && same_owner {
            candidates.push(k);
        }
        proof {
            if !(same_name && same_owner) {
                assert(!before.contains(k));
            }
            assert forall|j: int|
                0 <= j < k + 1 implies (counterpart_candidate(#[trigger] bs[j], sel) <==> candidates@.contains(
                j as usize,
            )) by {
                if before.contains(j as usize) {
                    let a = choose|a: int| 0 <= a < before.len() && before[a] == j as usize;
                    assert(candidates@[a] == j as usize);
                    assert(candidates@.contains(j as usize));
                }
                if candidates@.contains(j as usize) {
                    let a = choose|a: int| 0 <= a < candidates@.len() && candidates@[a] == j as usize;
                    if a < before.len() {
                        assert(before[a] == j as usize);
                        assert(before.contains(j as usize));
                    } else {
                        assert(j == k);
                    }
                }
                if j == k && same_name && same_owner {
                    assert(candidates@[candidates@.len() - 1] == k);
                    assert(candidates@.contains(j as usize));
                }
            }
        }
        k = k + 1;
    }
    let mut same_role: Vec<usize> = Vec::new();
    let mut c: usize = 0;
    while c < candidates.len()
        invariant
            c <= candidates@.len(),
            bs == bindings@,
            sel == *selected,
            rising(candidates@),
            rising(same_role@),
            forall|a: int| 0 <= a < candidates@.len() ==> #[trigger] candidates@[a] < bs.len(),
            forall|j: int|
                0 <= j < bs.len() ==> (counterpart_candidate(#[trigger] bs[j], sel) <==> candidates@.contains(j as usize)),
            forall|a: int| 0 <= a < candidates@.len() ==> counterpart_candidate(bs[#[trigger] candidates@[a] as int], sel),
            forall|a: int| 0 <= a < same_role@.len() ==> exists|b: int| 0 <= b < c && candidates@[b] == #[trigger] same_role@[a],
            forall|b: int|
                0 <= b < c && same_binding_role(bs[#[trigger] candidates@[b] as int], sel) ==> same_role@.contains(candidates@[b]),
            forall|a: int|
                0 <= a < same_role@.len() ==> counterpart_candidate(bs[#[trigger] same_role@[a] as int], sel)
                    && same_binding_role(bs[same_role@[a] as int], sel) && same_role@[a] < bs.len(),
            same_role@.len() > 0 ==> exists|b: int| 0 <= b < c && candidates@[b] == same_role@.last(),
        decreases candidates.len() - c,
    {
        let ghost before = same_role@;
        if is_parameter_kind(bindings[candidates[c]].kind) == is_parameter_kind(selected.kind) {
            proof {
                if same_role@.len() > 0 {
                    let b = choose|b: int| 0 <= b < c && candidates@[b] == same_role@.last();
                    assert(candidates@[b] < candidates@[c as int]);
                }
            }
            same_role.push(candidates[c]);
        }
        proof {
            assert forall|a: int| 0 <= a < same_role@.len() implies exists|b: int|
                0 <= b < c + 1 && candidates@[b] == #[trigger] same_role@[a] by {
                if a < before.len() {
                    assert(before[a] == same_role@[a]);
                    let b = choose|b: int| 0 <= b < c && candidates@[b] == before[a];
                    assert(candidates@[b] == same_role@[a]);
                } else {
                    assert(candidates@[c as int] == same_role@[a]);
                }
            }
            assert forall|b: int|
                0 <= b < c + 1 && same_binding_role(bs[#[trigger] candidates@[b] as int], sel) implies same_role@.contains(
                candidates@[b],
            ) by {
                if b < c {
                    assert(before.contains(candidates@[b]));
                    let a = choose|a: int| 0 <= a < before.len() && before[a] == candidates@[b];
                    assert(same_role@[a] == candidates@[b]);
                } else {
                    assert(same_role@[same_role@.len() - 1] == candidates@[b]);
                }
            }
            if same_role@.len() > 0 {
                if same_role@.len() > before.len() {
                    assert(candidates@[c as int] == same_role@.last());
                } else {
                    assert(same_role@ == before);
                    let b = choose|b: int| 0 <= b < c && candidates@[b] == before.last();
                    assert(candidates@[b] == same_role@.last());
                }
            }
        }
        c = c + 1;
    }
    proof {
        // Every same-role candidate is listed in `same_role`, and only those.
        assert forall|j: int|
            0 <= j < bs.len() && counterpart_candidate(#[trigger] bs[j], sel) && same_binding_role(bs[j], sel)
                implies same_role@.contains(j as usize) by {
            assert(candidates@.contains(j as usize));
            let b = choose|b: int| 0 <= b < candidates@.len() && candidates@[b] == j as usize;
            assert(same_binding_role(bs[candidates@[b] as int], sel));
        }
    }
    let use_role = same_role.len() > 0;
    let chosen = if use_role {
        same_role
    } else {
        candidates
    };
    if chosen.len() == 0 {
        proof {
            assert forall|k2: int| !sole_counterpart(bs, sel, k2) by {
                if sole_counterpart(bs, sel, k2) {
                    assert(candidates@.contains(k2 as usize));
                }
            }
        }
        return Err(
            AnalysisError::Input(
                InputError::InvalidSelector(
                    String::from_str(
                        "selected binding has no supported counterpart in the other snapshot",
                    ),
                ),
            ),
        );
    }
    if chosen.len() > 1 {
        proof {
            let x = chosen@[0] as int;
            let y = chosen@[1] as int;
            assert(x < y);
            assert(counterpart_candidate(bs[x], sel) && counterpart_candidate(bs[y], sel));
            assert forall|k2: int| !sole_counterpart(bs, sel, k2) by {
                if sole_counterpart(bs, sel, k2) {
                    if use_role {
                        assert(same_binding_role(bs[x], sel) && same_binding_role(bs[y], sel));
                        if k2 != x {
                            assert(counterpart_candidate(bs[x], sel));
                        } else {
                            assert(k2 != y);
                            assert(counterpart_candidate(bs[y], sel));
                        }
                    } else {
                        if k2 != x {
                            assert(counterpart_candidate(bs[x], sel));
                        } else {
                            assert(counterpart_candidate(bs[y], sel));
                        }
                        assert(same_binding_role(bs[k2], sel));
                        assert(same_role@.contains(k2 as usize));
                    }
                }
            }
        }
        return Err(
            AnalysisError::Input(
                InputError::InvalidSelector(
                    String::from_str(
                        "selected binding counterpart is ambiguous; provide an explicit selector",
                    ),
                ),
            ),
        );
    }
    proof {
        let x = chosen@[0] as int;
        assert(counterpart_candidate(bs[x], sel));
        assert forall|j: int|
            0 <= j < bs.len() && j != x && counterpart_candidate(#[trigger] bs[j], sel) implies (same_binding_role(
            bs[x],
            sel,
        ) && !same_binding_role(bs[j], sel)) by {
            if use_role {
                assert(same_binding_role(bs[x], sel));
                if same_binding_role(bs[j], sel) {
                    assert(same_role@.contains(j as usize));
                    let a = choose|a: int| 0 <= a < same_role@.len() && same_role@[a] == j as usize;
                    assert(a == 0);
                }
            } else {
                assert(candidates@.contains(j as usize));
                let a = choose|a: int| 0 <= a < candidates@.len() && candidates@[a] == j as usize;
                assert(a == 0);
            }
        }
        assert(sole_counterpart(bs, sel, x));
    }
    Ok(&bindings[chosen[0]])
}

/// `function <name>` for a binding inside a named function, else `module`.
fn scope_name(index: &TypeScriptBindingIndex, binding: &BindingId) -> (res: String)
    ensures
        (exists|i: int| 0 <= i < index.bindings@.len() && index.bindings@[i].id@ == binding@ && (forall|j: int|
            0 <= j < i ==> (#[trigger] index.bindings@[j]).id@ != binding@) && res@ == match index.bindings@[i].enclosing_symbol {
                Some(owner) => "function "@ + owner@,
                None => "module"@,
            }) || (forall|j: int| 0 <= j < index.bindings@.len() ==> (#[trigger] index.bindings@[j]).id@ != binding@) && res@
            == "module"@,
{
    let mut k: usize = 0;
    while k < index.bindings.len()
        invariant
            k <= index.bindings@.len(),
            forall|j: int| 0 <= j < k ==> (#[trigger] index.bindings@[j]).id@ != binding@,
        decreases index.bindings.len() - k,
    {
        if index.bindings[k].id.same(binding) {
            return match &index.bindings[k].enclosing_symbol {
                Some(owner) => String::from_str("function ").concat(owner.as_str()),
                None => String::from_str("module"),
            };
        }
        k = k + 1;
    }
    String::from_str("module")
}

/// Appends the trimmed source text of each node to its operation name.
fn annotate_operations(graph: &mut FlowGraph, source: &str)
    ensures
        final(graph).nodes@.len() == old(graph).nodes@.len(),
        forall|i: int|
            0 <= i < final(graph).nodes@.len() ==> (#[trigger] final(graph).nodes@[i]).span
                == old(graph).nodes@[i].span && final(graph).nodes@[i].id == old(graph).nodes@[i].id,
        final(graph).edges == old(graph).edges,
        final(graph).facts == old(graph).facts,
{
    let mut nodes: Vec<FlowNode> = Vec::new();
    let mut k: usize = 0;
    while k < graph.nodes.len()
        invariant
            k <= graph.nodes@.len(),
            graph.nodes == old(graph).nodes,
            nodes@.len() == k,
            forall|i: int|
                0 <= i < k ==> (#[trigger] nodes@[i]).span == graph.nodes@[i].span && nodes@[i].id
                    == graph.nodes@[i].id,
        decreases graph.nodes.len() - k,
    {
        let node = &graph.nodes[k];
        let start = node.span.byte_start as usize;
        let end = node.span.byte_end as usize;
        let mut operation = node.operation.clone();
        if let Some(snippet) = source_text(source, start, end) {
            let snippet = trim(snippet.as_str());
            if snippet.unicode_len() > 0 {
                operation = operation.concat(" `").concat(snippet.as_str()).concat("`");
            }
        }
        nodes.push(
            FlowNode {
                id: node.id.clone(),
                operation,
                span: node.span.clone(),
                enclosing_declaration: match &node.enclosing_declaration {
                    Some(d) => Some(d.clone()),
                    None => None,
                },
                fingerprint: node.fingerprint.clone(),
            },
        );
        k = k + 1;
    }
    graph.nodes = nodes;
}

fn add_saturating(a: u64, b: u64) -> (res: u64)
    ensures
        res == if a + b <= u64::MAX {
            a + b
        } else {
            u64::MAX as int
        },
{
    if a <= u64::MAX - b {
        a + b
    } else {
        u64::MAX
    }
}

fn combine_completeness(a: Completeness, b: Completeness) -> (res: Completeness)
    ensures
        res == if a == Completeness::Unsupported || b == Completeness::Unsupported {
            Completeness::Unsupported
        } else if a == Completeness::Partial || b == Completeness::Partial {
            Completeness::Partial
        } else {
            Completeness::CompleteForQuery
        },
{
    if a == Completeness::Unsupported || b == Completeness::Unsupported {
        Completeness::Unsupported
    } else if a == Completeness::Partial || b == Completeness::Partial {
        Completeness::Partial
    } else {
        Completeness::CompleteForQuery
    }
}

fn set_region(regions: &mut Vec<(String, Coverage)>, name: String, coverage: Coverage)
    ensures
        (exists|i: int|
            0 <= i < old(regions)@.len() && old(regions)@[i].0@ == name@ && (forall|j: int|
                0 <= j < i ==> (#[trigger] old(regions)@[j]).0@ != name@) && final(regions)@ == old(regions)@.update(i, (name, coverage)))
            || ((forall|j: int| 0 <= j < old(regions)@.len() ==> (#[trigger] old(regions)@[j]).0@ != name@) && final(regions)@
            == old(regions)@.push((name, coverage))),
{
    let mut k: usize = 0;
    while k < regions.len()
        invariant
            k <= regions@.len(),
            regions@ == old(regions)@,
            forall|j: int| 0 <= j < k ==> (#[trigger] regions@[j]).0@ != name@,
        decreases regions.len() - k,
    {
        if regions[k].0 == name {
            regions.set(k, (name, coverage));
            return;
        }
        k = k + 1;
    }
    regions.push((name, coverage));
}

fn direction_name(direction: Direction) -> &'static str {
    match direction {
        Direction::Upstream => "upstream",
        Direction::Downstream => "downstream",
    }
}

fn contains_text(list: &Vec<String>, text: &str) -> (res: bool)
    ensures
        res == exists|i: int| 0 <= i < list@.len() && (#[trigger] list@[i])@ == text@,
{
    let mut k: usize = 0;
    while k < list.len()
        invariant
            k <= list@.len(),
            forall|i: int| 0 <= i < k ==> (#[trigger] list@[i])@ != text@,
        decreases list.len() - k,
    {
        if crate::ifds::adapters::typescript::syntax::str_equal(list[k].as_str(), text) {
            return true;
        }
        k = k + 1;
    }
    false
}

/// Every diagnostic's span, where it has one, is valid.
pub open spec fn diagnostic_spans_valid(list: Seq<Diagnostic>) -> bool {
    forall|i: int| 0 <= i < list.len() ==> ((#[trigger] list[i]).span matches Some(s) ==> span_valid(s))
}

/// Every path ending's location is valid.
pub open spec fn ending_spans_valid(list: Seq<PathEnding>) -> bool {
    forall|i: int| 0 <= i < list.len() ==> span_valid((#[trigger] list[i]).location)
}

/// A copy of a diagnostic with the same code and span.
fn copy_diagnostic(d: &Diagnostic) -> (res: Diagnostic)
    ensures
        res.code == d.code,
        res.span == d.span,
{
    Diagnostic {
        code: d.code,
        message: d.message.clone(),
        snapshot: match &d.snapshot {
            Some(x) => Some(x.clone()),
            None => None,
        },
        frontier: match &d.frontier {
            Some(x) => Some(x.clone()),
            None => None,
        },
        span: match &d.span {
            Some(x) => Some(x.clone()),
            None => None,
        },
        affected_flows: d.affected_flows.clone(),
    }
}

/// A copy of a path ending at the same location.
fn copy_ending(e: &PathEnding) -> (res: PathEnding)
    ensures
        res.location == e.location,
        res.witness == e.witness,
{
    PathEnding {
        kind: e.kind,
        origin: e.origin.clone(),
        carrier: e.carrier.clone(),
        location: e.location.clone(),
        condition: match &e.condition {
            Some(x) => Some(x.clone()),
            None => None,
        },
        context: e.context.clone(),
        witness: e.witness,
        model: e.model.clone(),
        diagnostic: e.diagnostic,
    }
}

fn add_diagnostics(list: &mut Vec<Diagnostic>, items: &Vec<Diagnostic>)
    ensures
        diagnostic_spans_valid(old(list)@) && diagnostic_spans_valid(items@) ==> diagnostic_spans_valid(
            final(list)@,
        ),
{
    let mut k: usize = 0;
    while k < items.len()
        invariant
            k <= items@.len(),
            diagnostic_spans_valid(old(list)@) && diagnostic_spans_valid(items@) ==> diagnostic_spans_valid(list@),
        decreases items.len() - k,
    {
        let item = copy_diagnostic(&items[k]);
        proof {
            if diagnostic_spans_valid(items@) {
                assert(items@[k as int].span == item.span);
            }
        }
        insert_diagnostic(list, item);
        k = k + 1;
    }
}

fn witness_shifted(w: &Witness, offset: u64) -> Witness {
    Witness {
        id: WitnessId(add_saturating(w.id.0, offset)),
        nodes: w.nodes.clone(),
        backedges: w.backedges.clone(),
        summary_expansions: w.summary_expansions.clone(),
        evidence: w.evidence.clone(),
    }
}

/// Combines the two slices, the alignment, the comparison and the solver
/// outputs into one report and validates it.
#[verifier::rlimit(50)]
fn assemble_report(
    query: VariableFlowQuery,
    before_binding: BindingId,
    after_binding: BindingId,
    alignment: AlignmentResult,
    before: SliceOutput,
    after: SliceOutput,
    before_solved: SolverOutput,
    after_solved: SolverOutput,
    before_parse_diagnostics: Vec<Diagnostic>,
    after_parse_diagnostics: Vec<Diagnostic>,
    deltas: Vec<DeltaRecord>,
    before_ir: &ProcedureIr,
    after_ir: &ProcedureIr,
) -> (res: Result<VariableFlowReport, AnalysisError>)
    ensures
        res matches Ok(report) ==> {
            &&& report.schema_version == REPORT_SCHEMA_VERSION
            &&& report_spans_valid(report)
            &&& report.query.request == query
            &&& report.completeness == combine_spec(before.completeness, after.completeness)
            &&& report.before_graph == before.graph
            &&& report.after_graph == after.graph
            &&& report.alignment == alignment.nodes
            &&& report.deltas == deltas
            &&& report.human_summary@.len() == 0
            &&& report.query.before_binding == Some(before_binding)
            &&& report.query.after_binding == Some(after_binding)
        },
        res matches Err(e) ==> e is Schema,
        ({
            &&& span_valid(query.selected_binding.declaration)
            &&& query.counterpart matches Some(c) ==> span_valid(c.declaration)
            &&& forall|i: int| 0 <= i < before.graph.nodes@.len() ==> span_valid((#[trigger] before.graph.nodes@[i]).span)
            &&& forall|i: int| 0 <= i < after.graph.nodes@.len() ==> span_valid((#[trigger] after.graph.nodes@[i]).span)
            &&& forall|i: int|
                0 <= i < deltas@.len() ==> {
                    &&& (#[trigger] deltas@[i]).before_span matches Some(s) ==> span_valid(s)
                    &&& deltas@[i].after_span matches Some(s) ==> span_valid(s)
                }
            &&& diagnostic_spans_valid(before.diagnostics@)
            &&& diagnostic_spans_valid(after.diagnostics@)
            &&& diagnostic_spans_valid(alignment.diagnostics@)
            &&& diagnostic_spans_valid(before_parse_diagnostics@)
            &&& diagnostic_spans_valid(after_parse_diagnostics@)
            &&& diagnostic_spans_valid(before_solved.diagnostics@)
            &&& diagnostic_spans_valid(after_solved.diagnostics@)
            &&& ending_spans_valid(before.path_endings@)
            &&& ending_spans_valid(after.path_endings@)
        }) ==> res is Ok,
        res matches Ok(report) ==> report.path_endings@.len() == before.path_endings@.len()
            + after.path_endings@.len(),
{
    let mut diagnostics: Vec<Diagnostic> = Vec::new();
    assert(diagnostic_spans_valid(diagnostics@));
    add_diagnostics(&mut diagnostics, &before.diagnostics);
    add_diagnostics(&mut diagnostics, &after.diagnostics);
    add_diagnostics(&mut diagnostics, &alignment.diagnostics);
    add_diagnostics(&mut diagnostics, &before_parse_diagnostics);
    add_diagnostics(&mut diagnostics, &after_parse_diagnostics);
    add_diagnostics(&mut diagnostics, &before_solved.diagnostics);
    add_diagnostics(&mut diagnostics, &after_solved.diagnostics);
    let mut unknown_frontiers: Vec<UnknownFrontier> = Vec::new();
    let mut k: usize = 0;
    while k < before.unknown_frontiers.len()
        invariant
            k <= before.unknown_frontiers@.len(),
        decreases before.unknown_frontiers.len() - k,
    {
        insert_frontier(&mut unknown_frontiers, before.unknown_frontiers[k].clone());
        k = k + 1;
    }
    let mut k: usize = 0;
    while k < after.unknown_frontiers.len()
        invariant
            k <= after.unknown_frontiers@.len(),
        decreases after.unknown_frontiers.len() - k,
    {
        insert_frontier(&mut unknown_frontiers, after.unknown_frontiers[k].clone());
        k = k + 1;
    }
    let mut k: usize = 0;
    while k < diagnostics.len()
        invariant
            k <= diagnostics@.len(),
        decreases diagnostics.len() - k,
    {
        let diagnostic = &diagnostics[k];
        if let Some(node) = &diagnostic.frontier {
            let mut d: usize = 0;
            while d < 2
                decreases 2 - d,
            {
                let direction = if d == 0 {
                    Direction::Upstream
                } else {
                    Direction::Downstream
                };
                if contains_text(&diagnostic.affected_flows, direction_name(direction)) {
                    insert_frontier(
                        &mut unknown_frontiers,
                        UnknownFrontier {
                            node: node.clone(),
                            next_operation: diagnostic.message.clone(),
                            diagnostic: diagnostic.code,
                            affected_direction: direction,
                        },
                    );
                }
                d = d + 1;
            }
        }
        k = k + 1;
    }
    let mut offset: u64 = 0;
    let mut k: usize = 0;
    while k < before.witnesses.len()
        invariant
            k <= before.witnesses@.len(),
        decreases before.witnesses.len() - k,
    {
        let next = add_saturating(before.witnesses[k].id.0, 1);
        if next > offset {
            offset = next;
        }
        k = k + 1;
    }
    let mut witnesses: Vec<Witness> = Vec::new();
    let mut k: usize = 0;
    while k < before.witnesses.len()
        invariant
            k <= before.witnesses@.len(),
        decreases before.witnesses.len() - k,
    {
        witnesses.push(witness_shifted(&before.witnesses[k], 0));
        k = k + 1;
    }
    let mut k: usize = 0;
    while k < after.witnesses.len()
        invariant
            k <= after.witnesses@.len(),
        decreases after.witnesses.len() - k,
    {
        witnesses.push(witness_shifted(&after.witnesses[k], offset));
        k = k + 1;
    }
    let mut path_endings: Vec<PathEnding> = Vec::new();
    let mut k: usize = 0;
    while k < before.path_endings.len()
        invariant
            k <= before.path_endings@.len(),
            path_endings@.len() == k,
            forall|i: int| 0 <= i < k ==> (#[trigger] path_endings@[i]).location == before.path_endings@[i].location,
        decreases before.path_endings.len() - k,
    {
        path_endings.push(copy_ending(&before.path_endings[k]));
        k = k + 1;
    }
    let mut k: usize = 0;
    let ghost first = path_endings@;
    while k < after.path_endings.len()
        invariant
            k <= after.path_endings@.len(),
            path_endings@.len() == first.len() + k,
            forall|i: int| 0 <= i < first.len() ==> #[trigger] path_endings@[i] == first[i],
            forall|i: int| 0 <= i < k ==> (#[trigger] path_endings@[first.len() + i]).location
                == after.path_endings@[i].location,
        decreases after.path_endings.len() - k,
    {
        let mut ending = copy_ending(&after.path_endings[k]);
        ending.witness = WitnessId(add_saturating(after.path_endings[k].witness.0, offset));
        path_endings.push(ending);
        k = k + 1;
    }
    let completeness = combine_completeness(before.completeness, after.completeness);
    let mut region_completeness: Vec<(String, Coverage)> = Vec::new();
    set_region(&mut region_completeness, String::from_str("before:upstream"), before.extent.upstream);
    set_region(&mut region_completeness, String::from_str("before:downstream"), before.extent.downstream);
    set_region(&mut region_completeness, String::from_str("after:upstream"), after.extent.upstream);
    set_region(&mut region_completeness, String::from_str("after:downstream"), after.extent.downstream);
    let mut side: usize = 0;
    while side < 2
        decreases 2 - side,
    {
        let (name, solved) = if side == 0 {
            ("before", &before_solved)
        } else {
            ("after", &after_solved)
        };
        let mut r: usize = 0;
        while r < solved.region_completeness.len()
            invariant
                r <= solved.region_completeness@.len(),
            decreases solved.region_completeness.len() - r,
        {
            let (region, coverage) = &solved.region_completeness[r];
            let key = String::from_str(name).concat(":").concat(region.name.as_str()).concat(
                ":",
            ).concat(direction_name(region.direction));
            set_region(&mut region_completeness, key, *coverage);
            r = r + 1;
        }
        side = side + 1;
    }
    let b = &before_solved.stats;
    let a = &after_solved.stats;
    let mut limits_hit = b.limits_hit.clone();
    let mut k: usize = 0;
    while k < a.limits_hit.len()
        invariant
            k <= a.limits_hit@.len(),
        decreases a.limits_hit.len() - k,
    {
        if !contains_text(&limits_hit, a.limits_hit[k].as_str()) {
            limits_hit.push(a.limits_hit[k].clone());
        }
        k = k + 1;
    }
    let stats = AnalysisStats {
        elapsed_ms: add_saturating(b.elapsed_ms, a.elapsed_ms),
        peak_memory_bytes: if b.peak_memory_bytes >= a.peak_memory_bytes {
            b.peak_memory_bytes
        } else {
            a.peak_memory_bytes
        },
        processed_path_edges: add_saturating(b.processed_path_edges, a.processed_path_edges),
        graph_nodes: add_saturating(before.graph.nodes.len() as u64, after.graph.nodes.len() as u64),
        graph_edges: add_saturating(before.graph.edges.len() as u64, after.graph.edges.len() as u64),
        witnesses_emitted: add_saturating(before.witnesses.len() as u64, after.witnesses.len() as u64),
        witnesses_omitted: add_saturating(b.witnesses_omitted, a.witnesses_omitted),
        limits_hit,
        graph_truncated: b.graph_truncated || a.graph_truncated,
        witnesses_truncated: b.witnesses_truncated || a.witnesses_truncated,
    };
    let mut entry_assumptions: Vec<EntryAssumption> = Vec::new();
    let mut side: usize = 0;
    while side < 2
        decreases 2 - side,
    {
        let ir = if side == 0 {
            before_ir
        } else {
            after_ir
        };
        let mut p: usize = 0;
        while p < ir.parameters.len()
            invariant
                p <= ir.parameters@.len(),
            decreases ir.parameters.len() - p,
        {
            let name = String::from_str("parameter ").concat(ir.parameters[p].index.to_string().as_str());
            let source = Source::FunctionInput(ir.parameters[p].binding.clone());
            let mut present = false;
            let mut e: usize = 0;
            while e < entry_assumptions.len()
                invariant
                    e <= entry_assumptions@.len(),
                decreases entry_assumptions.len() - e,
            {
                if entry_assumptions[e].name == name && entry_assumptions[e].value.is_none()
                    && entry_assumptions[e].source.same(&source) {
                    present = true;
                }
                e = e + 1;
            }
            if !present {
                entry_assumptions.push(EntryAssumption { name, value: None, source });
            }
            p = p + 1;
        }
        side = side + 1;
    }
    let mut snapshots = Vec::new();
    snapshots.push(query.before.id.clone());
    if !query.after.id.same(&query.before.id) {
        snapshots.push(query.after.id.clone());
    }
    let capabilities = query.capabilities.clone();
    let report = VariableFlowReport {
        schema_version: REPORT_SCHEMA_VERSION,
        analysis_version: String::from_str(ANALYSIS_VERSION),
        snapshots,
        query: ResolvedQuery {
            request: query,
            before_binding: Some(before_binding),
            after_binding: Some(after_binding),
        },
        entry_assumptions,
        before_graph: before.graph,
        after_graph: after.graph,
        alignment: alignment.nodes,
        deltas,
        human_summary: String::new(),
        witnesses,
        diagnostics,
        unknown_frontiers,
        capabilities,
        summaries_used: Vec::new(),
        flow_extent: FlowExtent { before: before.extent, after: after.extent },
        path_endings,
        completeness,
        region_completeness,
        stats,
    };
    proof {
        if diagnostic_spans_valid(before.diagnostics@) && diagnostic_spans_valid(after.diagnostics@)
            && diagnostic_spans_valid(alignment.diagnostics@) && diagnostic_spans_valid(before_parse_diagnostics@)
            && diagnostic_spans_valid(after_parse_diagnostics@) && diagnostic_spans_valid(before_solved.diagnostics@)
            && diagnostic_spans_valid(after_solved.diagnostics@) {
            assert(diagnostic_spans_valid(report.diagnostics@));
        }
        if ending_spans_valid(before.path_endings@) && ending_spans_valid(after.path_endings@) {
            assert forall|i: int| 0 <= i < report.path_endings@.len() implies span_valid(
                (#[trigger] report.path_endings@[i]).location,
            ) by {
                if i >= first.len() {
                    assert(report.path_endings@[first.len() + (i - first.len())].location
                        == after.path_endings@[i - first.len()].location);
                } else {
                    assert(report.path_endings@[i] == first[i]);
                }
            }
        }
    }
    match report.validate() {
        Ok(()) => Ok(report),
        Err(e) => Err(AnalysisError::Schema(e)),
    }
}

/// How the completeness of two sides combines: unsupported over partial
/// over complete.
pub open spec fn combine_spec(a: Completeness, b: Completeness) -> Completeness {
    if a == Completeness::Unsupported || b == Completeness::Unsupported {
        Completeness::Unsupported
    } else if a == Completeness::Partial || b == Completeness::Partial {
        Completeness::Partial
    } else {
        Completeness::CompleteForQuery
    }
}

/// Analyses one lexical variable across a validated pair of immutable
/// snapshots. Call entries are not supported; every returned report has the
/// supported schema version and valid spans and carries the query.
pub fn analyze_variable_flow<P: SnapshotProvider>(
    query: VariableFlowQuery,
    provider: &P,
    before_environment: &AnalysisEnvironment,
    after_environment: &AnalysisEnvironment,
) -> (res: Result<VariableFlowReport, AnalysisError>)
    ensures
        !snapshot_pair_shape_ok(query) ==> (res matches Err(AnalysisError::Input(e))
            && e is SnapshotMismatch),
        res matches Ok(report) ==> {
            &&& query_shape_ok(query, *before_environment, *after_environment)
            &&& query.entry is ContainingFunction
            &&& report.schema_version == REPORT_SCHEMA_VERSION
            &&& report_spans_valid(report)
            &&& report.query.request == query
        },
{
    match analyze_variable_flow_reports(query, provider, before_environment, after_environment) {
        Ok((full, _)) => Ok(full),
        Err(e) => Err(e),
    }
}

/// The full evidence report and its compact projection, from one analysis.
/// The projection is checked against the report before both are returned.
pub fn analyze_variable_flow_reports<P: SnapshotProvider>(
    query: VariableFlowQuery,
    provider: &P,
    before_environment: &AnalysisEnvironment,
    after_environment: &AnalysisEnvironment,
) -> (res: Result<(VariableFlowReport, VariableSourceReport), AnalysisError>)
    ensures
        !snapshot_pair_shape_ok(query) ==> (res matches Err(AnalysisError::Input(e))
            && e is SnapshotMismatch),
        res matches Ok((report, compact)) ==> {
            &&& query_shape_ok(query, *before_environment, *after_environment)
            &&& query.entry is ContainingFunction
            &&& report.schema_version == REPORT_SCHEMA_VERSION
            &&& report_spans_valid(report)
            &&& report.query.request == query
            &&& compact.schema_version == COMPACT_SCHEMA_VERSION
            &&& compact.full_report_id@ == report_id_spec(report)
            &&& snapshots_same(compact.snapshots@, report.snapshots@)
            &&& references_ok(compact, report)
            &&& compact.analysis_coverage == report.completeness
            &&& report.human_summary@.len() >= scope_tail(compact).len()
            &&& report.human_summary@.subrange(
                report.human_summary@.len() - scope_tail(compact).len(),
                report.human_summary@.len() as int,
            ) == scope_tail(compact)
        },
{
    if let Err(e) = validate_query(&query, provider, before_environment, after_environment) {
        return Err(AnalysisError::Input(e));
    }
    match &query.entry {
        EntryPoint::ContainingFunction => {},
        _ => {
            return Err(
                AnalysisError::Input(
                    InputError::CapabilityMismatch(
                        String::from_str("call-entry analysis is not supported in stage 1"),
                    ),
                ),
            );
        },
    }
    let selected_side = query.selected_binding.snapshot.side;
    let selected_path = query.selected_binding.declaration.path.clone();
    let other_path = match &query.counterpart {
        Some(selector) => selector.declaration.path.clone(),
        None => opposite_path(&query, selected_path.as_str(), selected_side),
    };
    let (before_path, after_path) = if selected_side == SnapshotSide::Before {
        (selected_path, other_path)
    } else {
        (other_path, selected_path)
    };
    let (before_source, before_index) = read_index(provider, &query.before, before_path.as_str())?;
    let (after_source, after_index) = read_index(provider, &query.after, after_path.as_str())?;
    let (selected_index, other_index) = if selected_side == SnapshotSide::Before {
        (&before_index, &after_index)
    } else {
        (&after_index, &before_index)
    };
    let selected = match selected_index.resolve_selector(&query.selected_binding) {
        Ok(b) => b,
        Err(e) => {
            return Err(AnalysisError::Input(e));
        },
    };
    let counterpart = match &query.counterpart {
        Some(selector) => match other_index.resolve_selector(selector) {
            Ok(b) => b,
            Err(e) => {
                return Err(AnalysisError::Input(e));
            },
        },
        None => inferred_counterpart(other_index, selected)?,
    };
    let (before_binding, after_binding) = if selected_side == SnapshotSide::Before {
        (selected.id.clone(), counterpart.id.clone())
    } else {
        (counterpart.id.clone(), selected.id.clone())
    };
    let before = match lower_containing_procedure(before_source.as_str(), &before_index, &before_binding) {
        Ok(l) => l,
        Err(e) => {
            return Err(AnalysisError::Adapter(lowering_message(&e)));
        },
    };
    let after = match lower_containing_procedure(after_source.as_str(), &after_index, &after_binding) {
        Ok(l) => l,
        Err(e) => {
            return Err(AnalysisError::Adapter(lowering_message(&e)));
        },
    };
    let before_alignable = alignable_bindings(&before_index, &before.procedure);
    let after_alignable = alignable_bindings(&after_index, &after.procedure);
    let selected_id = if selected_side == SnapshotSide::Before {
        &before_binding
    } else {
        &after_binding
    };
    let explicit = match &query.counterpart {
        Some(_) => Some(
            if selected_side == SnapshotSide::Before {
                &after_binding
            } else {
                &before_binding
            },
        ),
        None => None,
    };
    let alignment = match align_procedures(
        &before.procedure,
        &after.procedure,
        before_alignable.as_slice(),
        after_alignable.as_slice(),
        &query.diff,
        selected_id,
        explicit,
    ) {
        Ok(a) => a,
        Err(e) => {
            return Err(AnalysisError::Alignment(e));
        },
    };
    let solver = IntraproceduralSolver::new();
    let control = SystemSolverControl::new();
    let before_solved = match solver.solve(
        SolverRequest {
            procedure: &before.procedure,
            entry_facts: seed_entry_facts(&before.procedure),
            limits: query.limits.clone(),
        },
        &control,
    ) {
        Ok(s) => s,
        Err(e) => {
            return Err(AnalysisError::Solver(e));
        },
    };
    let after_solved = match solver.solve(
        SolverRequest {
            procedure: &after.procedure,
            entry_facts: seed_entry_facts(&after.procedure),
            limits: query.limits.clone(),
        },
        &control,
    ) {
        Ok(s) => s,
        Err(e) => {
            return Err(AnalysisError::Solver(e));
        },
    };
    let before_scope = scope_name(&before_index, &before_binding);
    let after_scope = scope_name(&after_index, &after_binding);
    let mut before_slice = match build_flow_slice(
        SliceRequest {
            procedure: &before.procedure,
            solved: &before_solved,
            selected_binding: &before_binding,
            declared_scope: before_scope.as_str(),
        },
    ) {
        Ok(s) => s,
        Err(e) => {
            return Err(AnalysisError::Slice(e));
        },
    };
    let mut after_slice = match build_flow_slice(
        SliceRequest {
            procedure: &after.procedure,
            solved: &after_solved,
            selected_binding: &after_binding,
            declared_scope: after_scope.as_str(),
        },
    ) {
        Ok(s) => s,
        Err(e) => {
            return Err(AnalysisError::Slice(e));
        },
    };
    annotate_operations(&mut before_slice.graph, before_source.as_str());
    annotate_operations(&mut after_slice.graph, after_source.as_str());
    let query_key = selector_key(&query.selected_binding);
    let no_presence = Vec::new();
    let no_presence_after = Vec::new();
    let no_conditions = Vec::new();
    let comparison = match compare_flow_slices(
        ComparisonInput {
            before: &before_slice,
            after: &after_slice,
            before_ir: &before.procedure,
            after_ir: &after.procedure,
            before_binding: Some(&before_binding),
            after_binding: Some(&after_binding),
            alignment: &alignment,
            query_key: query_key.as_str(),
            before_presence: &no_presence,
            after_presence: &no_presence_after,
            condition_proofs: &no_conditions,
        },
    ) {
        Ok(c) => c,
        Err(e) => {
            return Err(AnalysisError::Comparison(e));
        },
    };
    let before_ir = before.procedure;
    let after_ir = after.procedure;
    let report = match assemble_report(
        query,
        before_binding,
        after_binding,
        alignment,
        before_slice,
        after_slice,
        before_solved,
        after_solved,
        before.diagnostics,
        after.diagnostics,
        comparison.deltas,
        &before_ir,
        &after_ir,
    ) {
        Ok(r) => r,
        Err(e) => {
            return Err(e);
        },
    };
    let compact = project_variable_sources(&report, &before_ir, &after_ir);
    let mut report = report;
    report.human_summary = compact.render_text();
    if let Err(e) = report.validate() {
        return Err(AnalysisError::Schema(e));
    }
    match compact.validate_with_full(&report) {
        Ok(()) => Ok((report, compact)),
        Err(e) => Err(AnalysisError::Schema(e)),
    }
}

/// A stable key of the selected declaration: its debug form.
fn selector_key(selector: &BindingSelector) -> String {
    debug_text(selector)
}

} // verus!
