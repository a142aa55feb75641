//! Lowering of the procedure that contains a selected TypeScript binding
//! into the language-independent IR.
use vstd::prelude::*;
use crate::ifds::ir::{
    ComputeInput, ComputeInputRole, EdgeKind, IrEdge, IrNode, LiteralKind, Operation,
    PrimitiveOperator, ProcedureIr, ProcedureParameter, UnknownEffectKind, ir_valid,
};
use crate::ifds::model::{
    BindingId, DefinitionId, Diagnostic, DiagnosticCode, NodeId, Place, ProcedureId, SourceSpan,
};
use crate::ifds::adapters::typescript::{
    BindingKind, ScopeId, ScopeKind, TypeScriptBindingIndex, index_wf, is_function_like,
    child_by_field, named_children, named_child, node_text, node_span, child_of, field_is,
    text_between_bytes,
};
use crate::ifds::compare::{AlignableBinding, AlignableBindingRole, AlignableScopeRole};
use crate::ifds::adapters::typescript::syntax::{
    SyntaxKind, SyntaxTree, tree_wf, parse_syntax, source_text, str_equal,
};

verus! {

#[derive(Debug, Clone, PartialEq, Eq)]
pub struct TypeScriptLoweringResult {
    pub procedure: ProcedureIr,
    pub selected_binding: BindingId,
    pub diagnostics: Vec<Diagnostic>,
}

#[derive(Debug, Clone, PartialEq, Eq)]
pub enum TypeScriptLoweringError {
    SnapshotMismatch,
    MissingSelectedBinding,
    Parse(String),
    InvalidIr(String),
}

// ---------------------------------------------------------------------------
// Text helpers.

/// The characters `str::trim` removes (Unicode `White_Space`).
pub open spec fn white_space(c: char) -> bool {
    ||| c == ' ' || c == '\t' || c == '\n' || c == '\r' || c == '\u{0B}' || c == '\u{0C}'
    ||| c == '\u{85}' || c == '\u{A0}' || c == '\u{1680}' || c == '\u{2028}' || c == '\u{2029}'
    ||| c == '\u{202F}' || c == '\u{205F}' || c == '\u{3000}'
    ||| ('\u{2000}' <= c && c <= '\u{200A}')
}

fn is_white_space(c: char) -> (res: bool)
    ensures
        res == white_space(c),
{
    c == ' ' || c == '\t' || c == '\n' || c == '\r' || c == '\u{0B}' || c == '\u{0C}' || c
        == '\u{85}' || c == '\u{A0}' || c == '\u{1680}' || c == '\u{2028}' || c == '\u{2029}' || c
        == '\u{202F}' || c == '\u{205F}' || c == '\u{3000}' || ('\u{2000}' <= c && c <= '\u{200A}')
}

/// The text without white space at either end.
pub open spec fn trimmed(s: Seq<char>, start: int, end: int) -> bool {
    &&& 0 <= start <= end <= s.len()
    &&& forall|i: int| 0 <= i < start ==> white_space(#[trigger] s[i])
    &&& forall|i: int| end <= i < s.len() ==> white_space(#[trigger] s[i])
    &&& start < end ==> !white_space(s[start]) && !white_space(s[end - 1])
}

pub(crate) fn trim(text: &str) -> (res: String)
    ensures
        exists|start: int, end: int| trimmed(text@, start, end) && res@ == text@.subrange(start, end),
{
    let n = text.unicode_len();
    let mut start: usize = 0;
    while start < n && is_white_space(text.get_char(start))
        invariant
            n == text@.len(),
            start <= n,
            forall|i: int| 0 <= i < start ==> white_space(#[trigger] text@[i]),
        decreases n - start,
    {
        start = start + 1;
    }
    let mut end: usize = n;
    while end > start && is_white_space(text.get_char(end - 1))
        invariant
            n == text@.len(),
            start <= end <= n,
            forall|i: int| 0 <= i < start ==> white_space(#[trigger] text@[i]),
            forall|i: int| end <= i < n ==> white_space(#[trigger] text@[i]),
            start < n ==> !white_space(text@[start as int]),
        decreases end,
    {
        end = end - 1;
    }
    let res = text.substring_char(start, end).to_owned();
    proof {
        assert(trimmed(text@, start as int, end as int));
    }
    res
}

/// A text's last character is `c`.
fn ends_with_char(text: &str, c: char) -> (res: bool)
    ensures
        res == (text@.len() > 0 && text@.last() == c),
{
    let n = text.unicode_len();
    n > 0 && text.get_char(n - 1) == c
}

/// A text contains `c`.
fn contains_char(text: &str, c: char) -> (res: bool)
    ensures
        res == text@.contains(c),
{
    let n = text.unicode_len();
    let mut i: usize = 0;
    while i < n
        invariant
            n == text@.len(),
            i <= n,
            forall|j: int| 0 <= j < i ==> text@[j] != c,
        decreases n - i,
    {
        if text.get_char(i) == c {
            proof {
                assert(text@[i as int] == c);
            }
            return true;
        }
        i = i + 1;
    }
    false
}

/// The string a JSON string literal denotes, as `serde_json` decodes it.
pub uninterp spec fn json_string_value(raw: Seq<char>) -> Option<Seq<char>>;

/// `serde_json::from_str::<String>`: the decoded string, or nothing when the
/// text is not a JSON string literal.
#[verifier::external_body]
fn json_string(raw: &str) -> (res: Option<String>)
    ensures
        match res {
            Some(s) => json_string_value(raw@) == Some(s@),
            None => json_string_value(raw@) is None,
        },
{
    serde_json::from_str::<String>(raw).ok()
}

/// The binary operator a token names, if it is one the IR models.
pub open spec fn binary_operator_spec(op: Seq<char>) -> Option<PrimitiveOperator> {
    if op == "+"@ {
        Some(PrimitiveOperator::Add)
    } else if op == "-"@ {
        Some(PrimitiveOperator::Subtract)
    } else if op == "*"@ {
        Some(PrimitiveOperator::Multiply)
    } else if op == "/"@ {
        Some(PrimitiveOperator::Divide)
    } else if op == "%"@ {
        Some(PrimitiveOperator::Remainder)
    } else if op == "==="@ {
        Some(PrimitiveOperator::StrictEqual)
    } else if op == "!=="@ {
        Some(PrimitiveOperator::StrictNotEqual)
    } else if op == ">"@ {
        Some(PrimitiveOperator::GreaterThan)
    } else if op == "<"@ {
        Some(PrimitiveOperator::LessThan)
    } else {
        None
    }
}

/// The binary operator a trimmed token names.
pub fn primitive_binary(operator: &str) -> (res: Option<PrimitiveOperator>)
    ensures
        exists|start: int, end: int|
            trimmed(operator@, start, end) && res == binary_operator_spec(
                operator@.subrange(start, end),
            ),
{
    let op = trim(operator);
    let o = op.as_str();
    if str_equal(o, "+") {
        Some(PrimitiveOperator::Add)
    } else if str_equal(o, "-") {
        Some(PrimitiveOperator::Subtract)
    } else if str_equal(o, "*") {
        Some(PrimitiveOperator::Multiply)
    } else if str_equal(o, "/") {
        Some(PrimitiveOperator::Divide)
    } else if str_equal(o, "%") {
        Some(PrimitiveOperator::Remainder)
    } else if str_equal(o, "===") {
        Some(PrimitiveOperator::StrictEqual)
    } else if str_equal(o, "!==") {
        Some(PrimitiveOperator::StrictNotEqual)
    } else if str_equal(o, ">") {
        Some(PrimitiveOperator::GreaterThan)
    } else if str_equal(o, "<") {
        Some(PrimitiveOperator::LessThan)
    } else {
        None
    }
}

/// The unary operator a trimmed prefix names.
pub open spec fn unary_operator_spec(op: Seq<char>) -> Option<PrimitiveOperator> {
    if op == "+"@ {
        Some(PrimitiveOperator::UnaryPlus)
    } else if op == "-"@ {
        Some(PrimitiveOperator::UnaryMinus)
    } else if op == "!"@ {
        Some(PrimitiveOperator::LogicalNot)
    } else {
        None
    }
}

fn primitive_unary(prefix: &str) -> (res: Option<PrimitiveOperator>)
    ensures
        exists|start: int, end: int|
            trimmed(prefix@, start, end) && res == unary_operator_spec(prefix@.subrange(start, end)),
{
    let op = trim(prefix);
    let o = op.as_str();
    if str_equal(o, "+") {
        Some(PrimitiveOperator::UnaryPlus)
    } else if str_equal(o, "-") {
        Some(PrimitiveOperator::UnaryMinus)
    } else if str_equal(o, "!") {
        Some(PrimitiveOperator::LogicalNot)
    } else {
        None
    }
}

/// Each binary token the IR models names its own operator: `+` adds, `-`
/// subtracts, `*` multiplies, `/` divides, `%` takes the remainder, `===` and
/// `!==` compare strictly, `>` is greater-than and `<` is less-than; the
/// other comparison and assignment tokens name none.
pub proof fn lemma_binary_operator_tokens()
    ensures
        binary_operator_spec("+"@) == Some(PrimitiveOperator::Add),
        binary_operator_spec("-"@) == Some(PrimitiveOperator::Subtract),
        binary_operator_spec("*"@) == Some(PrimitiveOperator::Multiply),
        binary_operator_spec("/"@) == Some(PrimitiveOperator::Divide),
        binary_operator_spec("%"@) == Some(PrimitiveOperator::Remainder),
        binary_operator_spec("==="@) == Some(PrimitiveOperator::StrictEqual),
        binary_operator_spec("!=="@) == Some(PrimitiveOperator::StrictNotEqual),
        binary_operator_spec(">"@) == Some(PrimitiveOperator::GreaterThan),
        binary_operator_spec("<"@) == Some(PrimitiveOperator::LessThan),
        binary_operator_spec("<="@) is None,
        binary_operator_spec(">="@) is None,
        binary_operator_spec("=="@) is None,
        binary_operator_spec("!="@) is None,
        binary_operator_spec("&&"@) is None,
        binary_operator_spec("||"@) is None,
        binary_operator_spec("="@) is None,
{
    reveal_strlit("+");
    reveal_strlit("-");
    reveal_strlit("*");
    reveal_strlit("/");
    reveal_strlit("%");
    reveal_strlit("===");
    reveal_strlit("!==");
    reveal_strlit(">");
    reveal_strlit("<");
    reveal_strlit("<=");
    reveal_strlit(">=");
    reveal_strlit("==");
    reveal_strlit("!=");
    reveal_strlit("&&");
    reveal_strlit("||");
    reveal_strlit("=");
    assert("+"@[0] == '+' && "-"@[0] == '-' && "*"@[0] == '*' && "/"@[0] == '/' && "%"@[0] == '%');
    assert("==="@[0] == '=' && "!=="@[0] == '!' && ">"@[0] == '>' && "<"@[0] == '<');
    assert("<="@[0] == '<' && ">="@[0] == '>' && "=="@[0] == '=' && "!="@[0] == '!');
    assert("&&"@[0] == '&' && "||"@[0] == '|' && "="@[0] == '=');
    assert("+"@.len() == 1 && "-"@.len() == 1 && "*"@.len() == 1 && "/"@.len() == 1 && "%"@.len() == 1);
    assert(">"@.len() == 1 && "<"@.len() == 1 && "="@.len() == 1 && "==="@.len() == 3 && "!=="@.len() == 3);
    assert("<="@.len() == 2 && ">="@.len() == 2 && "=="@.len() == 2 && "!="@.len() == 2);
}

/// Each unary prefix the IR models names its own operator: `+` is unary
/// plus, `-` negates and `!` is logical not; `~` and `typeof` name none.
pub proof fn lemma_unary_operator_tokens()
    ensures
        unary_operator_spec("+"@) == Some(PrimitiveOperator::UnaryPlus),
        unary_operator_spec("-"@) == Some(PrimitiveOperator::UnaryMinus),
        unary_operator_spec("!"@) == Some(PrimitiveOperator::LogicalNot),
        unary_operator_spec("~"@) is None,
        unary_operator_spec("typeof"@) is None,
{
    reveal_strlit("+");
    reveal_strlit("-");
    reveal_strlit("!");
    reveal_strlit("~");
    reveal_strlit("typeof");
    assert("+"@[0] == '+' && "-"@[0] == '-' && "!"@[0] == '!' && "~"@[0] == '~');
}

/// The source text between two byte offsets (empty when not text).
fn text_between(source: &str, start: usize, end: usize) -> (res: String)
    ensures
        text_between_bytes(source@, start as int, end as int, res@),
{
    match source_text(source, start, end) {
        Some(text) => text,
        None => String::new(),
    }
}

// ---------------------------------------------------------------------------
// Scopes and syntax positions.

/// Whether `scope` lies in `procedure` without crossing another function.
/// Whether the walk from a scope up through its block scopes meets the
/// procedure's scope before leaving a function or the program.
pub open spec fn scope_within(index: TypeScriptBindingIndex, scope: ScopeId, procedure: ScopeId) -> bool
    decreases scope.0,
{
    if scope == procedure {
        true
    } else if index.scopes@[scope.0 as int].kind == ScopeKind::Function {
        false
    } else {
        match index.scopes@[scope.0 as int].parent {
            Some(parent) => if parent.0 < scope.0 {
                scope_within(index, parent, procedure)
            } else {
                false
            },
            None => false,
        }
    }
}

pub fn scope_belongs_to_procedure(index: &TypeScriptBindingIndex, scope: ScopeId, procedure: ScopeId) -> (res: bool)
    requires
        index_wf(*index),
        scope.0 < index.scopes.len(),
    ensures
        res == scope_within(*index, scope, procedure),
{
    let mut current = scope;
    loop
        invariant
            index_wf(*index),
            current.0 < index.scopes.len(),
            scope_within(*index, scope, procedure) == scope_within(*index, current, procedure),
        decreases current.0,
    {
        if current == procedure {
            return true;
        }
        let record = &index.scopes[current.0 as usize];
        if record.kind == ScopeKind::Function {
            return false;
        }
        match record.parent {
            Some(parent) => {
                assert(current.0 > 0);
                current = parent;
            },
            None => {
                return false;
            },
        }
    }
}

/// The nearest scope at or above `scope` that is not a block.
pub open spec fn enclosing_non_block(index: TypeScriptBindingIndex, scope: ScopeId) -> ScopeId
    decreases scope.0,
{
    if index.scopes@[scope.0 as int].kind != ScopeKind::Block {
        scope
    } else {
        match index.scopes@[scope.0 as int].parent {
            Some(parent) => if parent.0 < scope.0 {
                enclosing_non_block(index, parent)
            } else {
                scope
            },
            None => scope,
        }
    }
}

/// The innermost function or program scope around a scope.
pub fn procedure_scope(index: &TypeScriptBindingIndex, scope: ScopeId) -> (res: ScopeId)
    requires
        index_wf(*index),
        scope.0 < index.scopes.len(),
    ensures
        res.0 < index.scopes.len(),
        index.scopes@[res.0 as int].kind != ScopeKind::Block,
        res == enclosing_non_block(*index, scope),
{
    let mut current = scope;
    loop
        invariant
            index_wf(*index),
            current.0 < index.scopes.len(),
            enclosing_non_block(*index, scope) == enclosing_non_block(*index, current),
        decreases current.0,
    {
        let record = &index.scopes[current.0 as usize];
        if record.kind != ScopeKind::Block {
            return current;
        }
        match record.parent {
            Some(parent) => {
                assert(current.0 > 0);
                current = parent;
            },
            None => {
                return current;
            },
        }
    }
}

/// A node of the kind at exactly the byte range.
pub open spec fn node_exactly_at(node: crate::ifds::adapters::typescript::syntax::SyntaxNode, start: usize, end: usize, kind: SyntaxKind) -> bool {
    node.start_byte == start && node.end_byte == end && node.kind == kind
}

/// The nearest function-like proper ancestor of a node, else the root.
pub open spec fn enclosing_procedure(t: SyntaxTree, node: int) -> int
    decreases node,
{
    match t.nodes@[node].parent {
        Some(parent) => if node == 0 || parent >= node {
            0
        } else if crate::ifds::adapters::typescript::function_like(t.nodes@[parent as int].kind) {
            parent as int
        } else {
            enclosing_procedure(t, parent as int)
        },
        None => 0,
    }
}

/// A binding declared exactly over the node's bytes.
pub open spec fn declared_over(b: crate::ifds::adapters::typescript::LexicalBinding, node: crate::ifds::adapters::typescript::syntax::SyntaxNode) -> bool {
    b.declaration.byte_start == node.start_byte as u64 && b.declaration.byte_end == node.end_byte as u64
}

/// A reference made exactly over the node's bytes.
pub open spec fn referenced_over(r: crate::ifds::adapters::typescript::BindingReference, node: crate::ifds::adapters::typescript::syntax::SyntaxNode) -> bool {
    r.span.byte_start == node.start_byte as u64 && r.span.byte_end == node.end_byte as u64
}

/// The first node in preorder with the given byte range and kind.
fn find_exact_node(t: &SyntaxTree, start: usize, end: usize, kind: SyntaxKind) -> (res: Option<usize>)
    requires
        tree_wf(*t),
    ensures
        res matches Some(n) ==> n < t.nodes.len() && t.nodes@[n as int].start_byte == start
            && t.nodes@[n as int].end_byte == end && t.nodes@[n as int].kind == kind && forall|j: int|
            0 <= j < n ==> !node_exactly_at(#[trigger] t.nodes@[j], start, end, kind),
        res is None ==> forall|j: int| 0 <= j < t.nodes.len() ==> !node_exactly_at(#[trigger] t.nodes@[j], start, end, kind),
{
    let mut n: usize = 0;
    while n < t.nodes.len()
        invariant
            n <= t.nodes.len(),
            forall|j: int| 0 <= j < n ==> !node_exactly_at(#[trigger] t.nodes@[j], start, end, kind),
        decreases t.nodes.len() - n,
    {
        if t.nodes[n].start_byte == start && t.nodes[n].end_byte == end && t.nodes[n].kind == kind {
            return Some(n);
        }
        n = n + 1;
    }
    None
}

/// The nearest function-like ancestor of a node, or the root.
fn containing_procedure(t: &SyntaxTree, n: usize) -> (res: usize)
    requires
        tree_wf(*t),
        n < t.nodes.len(),
    ensures
        res < t.nodes.len(),
        res == enclosing_procedure(*t, n as int),
{
    let mut node = n;
    loop
        invariant
            tree_wf(*t),
            node < t.nodes.len(),
            enclosing_procedure(*t, n as int) == enclosing_procedure(*t, node as int),
        decreases node,
    {
        match t.nodes[node].parent {
            Some(parent) => {
                if node == 0 {
                    return 0;
                }
                assert(parent < node);
                if is_function_like(t.nodes[parent].kind) {
                    return parent;
                }
                node = parent;
            },
            None => {
                return 0;
            },
        }
    }
}

/// Counts function-like nodes in preorder over named children until
/// `target`; reports the target's ordinal when it is reached.
fn ordinal_walk(t: &SyntaxTree, n: usize, target: usize, ordinal: &mut u64) -> (res: Option<u64>)
    requires
        tree_wf(*t),
        n < t.nodes.len(),
    decreases t.nodes.len() - n,
{
    if is_function_like(t.nodes[n].kind) {
        *ordinal = ordinal.wrapping_add(1);
        if n == target {
            return Some(*ordinal);
        }
    }
    let named = named_children(t, n);
    let mut k: usize = 0;
    while k < named.len()
        invariant
            tree_wf(*t),
            n < t.nodes.len(),
            forall|j: int| 0 <= j < named@.len() ==> n < #[trigger] named@[j] < t.nodes.len(),
            k <= named@.len(),
        decreases named.len() - k,
    {
        if let Some(found) = ordinal_walk(t, named[k], target, ordinal) {
            return Some(found);
        }
        k = k + 1;
    }
    None
}

/// The ordinal of a procedure: 1 for the program, otherwise one more than
/// the number of function-like nodes up to it in preorder.
fn procedure_ordinal(t: &SyntaxTree, target: usize) -> u64
    requires
        tree_wf(*t),
        target < t.nodes.len(),
{
    if t.nodes[target].kind == SyntaxKind::Program {
        return 1;
    }
    let mut ordinal: u64 = 1;
    match ordinal_walk(t, 0, target, &mut ordinal) {
        Some(found) => found,
        None => 1,
    }
}

/// The identifier nodes below a node (not below an identifier), in preorder.
fn identifier_nodes(t: &SyntaxTree, n: usize, found: &mut Vec<usize>)
    requires
        tree_wf(*t),
        n < t.nodes.len(),
        forall|j: int| 0 <= j < old(found)@.len() ==> #[trigger] old(found)@[j] < t.nodes.len(),
    ensures
        forall|j: int| 0 <= j < final(found)@.len() ==> #[trigger] final(found)@[j] < t.nodes.len(),
        forall|j: int| 0 <= j < old(found)@.len() ==> final(found)@[j] == old(found)@[j],
        final(found)@.len() >= old(found)@.len(),
        forall|j: int| old(found)@.len() <= j < final(found)@.len() ==> n <= #[trigger] final(found)@[j],
    decreases t.nodes.len() - n,
{
    if t.nodes[n].kind == SyntaxKind::Identifier {
        found.push(n);
        return;
    }
    let named = named_children(t, n);
    let mut k: usize = 0;
    let ghost start = found@.len();
    while k < named.len()
        invariant
            tree_wf(*t),
            n < t.nodes.len(),
            forall|j: int| 0 <= j < named@.len() ==> n < #[trigger] named@[j] < t.nodes.len(),
            k <= named@.len(),
            forall|j: int| 0 <= j < found@.len() ==> #[trigger] found@[j] < t.nodes.len(),
            found@.len() >= old(found)@.len(),
            forall|j: int| 0 <= j < old(found)@.len() ==> found@[j] == old(found)@[j],
            forall|j: int| old(found)@.len() <= j < found@.len() ==> n <= #[trigger] found@[j],
        decreases named.len() - k,
    {
        identifier_nodes(t, named[k], found);
        k = k + 1;
    }
}

/// The parameters of a procedure scope, numbered in declaration order, with
/// entry definitions in a range of their own.
fn procedure_parameters(index: &TypeScriptBindingIndex, procedure_scope: ScopeId, ordinal: u64) -> (res:
    Vec<ProcedureParameter>)
    ensures
        forall|k: int| 0 <= k < res@.len() ==> (#[trigger] res@[k]).index == k,
{
    let mut res: Vec<ProcedureParameter> = Vec::new();
    let mut k: usize = 0;
    while k < index.bindings.len()
        invariant
            k <= index.bindings@.len(),
            res@.len() <= k,
            forall|j: int| 0 <= j < res@.len() ==> (#[trigger] res@[j]).index == j,
        decreases index.bindings.len() - k,
    {
        let binding = &index.bindings[k];
        if binding.scope == procedure_scope && binding.kind == BindingKind::Parameter {
            let position = res.len();
            if position <= u32::MAX as usize {
                let local = (ordinal << 32u64) | (1u64 << 31u64) | (position as u64);
                let ghost before = res@;
                res.push(
                    ProcedureParameter {
                        index: position as u32,
                        binding: binding.id.clone(),
                        entry_definition: DefinitionId::new(index.snapshot.clone(), local),
                    },
                );
                proof {
                    assert forall|j: int| 0 <= j < res@.len() implies (#[trigger] res@[j]).index == j by {
                        if j < before.len() {
                            assert(res@[j] == before[j]);
                        }
                    }
                }
            }
        }
        k = k + 1;
    }
    res
}

fn normal_edge(source: NodeId, target: NodeId) -> IrEdge {
    IrEdge { source, target, kind: EdgeKind::Normal, construct: None, assumption: None }
}

// ---------------------------------------------------------------------------
// The lowerer.

/// `c` is the first child of node `n` under field `name`.
pub open spec fn first_field_child(t: SyntaxTree, n: int, name: Seq<char>, c: int) -> bool {
    exists|i: int|
        0 <= i < t.children@[n]@.len() && t.children@[n]@[i] as int == c && field_is(t, c, name) && forall|j: int|
            0 <= j < i ==> !field_is(t, #[trigger] t.children@[n]@[j] as int, name)
}

/// `token` is the operator text of a binary expression: its child under
/// field `operator`, or else the source between its operands.
pub open spec fn binary_token_text(
    t: SyntaxTree,
    source: Seq<char>,
    n: int,
    left: int,
    right: int,
    token: Seq<char>,
) -> bool {
    ||| exists|c: int|
        first_field_child(t, n, "operator"@, c) && text_between_bytes(
            source,
            t.nodes@[c].start_byte as int,
            t.nodes@[c].end_byte as int,
            token,
        )
    ||| !has_field_child(t, n, "operator"@) && text_between_bytes(
        source,
        t.nodes@[left].end_byte as int,
        t.nodes@[right].start_byte as int,
        token,
    )
}

/// Some child of node `n` stands under field `name`.
pub open spec fn has_field_child(t: SyntaxTree, n: int, name: Seq<char>) -> bool {
    exists|i: int| 0 <= i < t.children@[n]@.len() && field_is(t, #[trigger] t.children@[n]@[i] as int, name)
}

/// `property` is what a member expression reads: the source text of its
/// first child under field `property`, or nothing when it has none.
pub open spec fn property_read_text(t: SyntaxTree, source: Seq<char>, n: int, property: Seq<char>) -> bool {
    ||| exists|i: int|
        0 <= i < t.children@[n]@.len() && field_is(t, #[trigger] t.children@[n]@[i] as int, "property"@) && (forall|
            j: int,
        | 0 <= j < i ==> !field_is(t, #[trigger] t.children@[n]@[j] as int, "property"@)) && text_between_bytes(
            source,
            t.nodes@[t.children@[n]@[i] as int].start_byte as int,
            t.nodes@[t.children@[n]@[i] as int].end_byte as int,
            property,
        )
    ||| !has_field_child(t, n, "property"@) && property == Seq::<char>::empty()
}

/// A property read names exactly the source text of the member expression's
/// first child under field `property`, when it has one.
pub proof fn lemma_property_read_names_source(t: SyntaxTree, source: Seq<char>, n: int, c: int, property: Seq<char>)
    requires
        first_field_child(t, n, "property"@, c),
        property_read_text(t, source, n, property),
    ensures
        text_between_bytes(source, t.nodes@[c].start_byte as int, t.nodes@[c].end_byte as int, property),
{
    let i = choose|i: int|
        0 <= i < t.children@[n]@.len() && t.children@[n]@[i] as int == c && field_is(t, c, "property"@) && forall|j: int|
            0 <= j < i ==> !field_is(t, #[trigger] t.children@[n]@[j] as int, "property"@);
    assert(has_field_child(t, n, "property"@)) by {
        assert(field_is(t, t.children@[n]@[i] as int, "property"@));
    }
    let i2 = choose|i2: int|
        0 <= i2 < t.children@[n]@.len() && field_is(t, #[trigger] t.children@[n]@[i2] as int, "property"@) && (forall|
            j: int,
        | 0 <= j < i2 ==> !field_is(t, #[trigger] t.children@[n]@[j] as int, "property"@)) && text_between_bytes(
            source,
            t.nodes@[t.children@[n]@[i2] as int].start_byte as int,
            t.nodes@[t.children@[n]@[i2] as int].end_byte as int,
            property,
        );
    if i2 < i {
        assert(!field_is(t, t.children@[n]@[i2] as int, "property"@));
    } else if i < i2 {
        assert(!field_is(t, t.children@[n]@[i] as int, "property"@));
    }
}

proof fn lemma_trimmed_unique(s: Seq<char>, a: int, b: int, c: int, d: int)
    requires
        trimmed(s, a, b),
        trimmed(s, c, d),
    ensures
        s.subrange(a, b) == s.subrange(c, d),
{
    if a < b && c < d {
        if a < c {
            assert(white_space(s[a]));
        } else if c < a {
            assert(white_space(s[c]));
        }
        if b < d {
            assert(white_space(s[d - 1]));
        } else if d < b {
            assert(white_space(s[b - 1]));
        }
    } else if a < b {
        if c < a {
            assert(white_space(s[c]) || !white_space(s[c]));
        }
        assert(white_space(s[a]));
    } else if c < d {
        assert(white_space(s[c]));
    } else {
        assert(s.subrange(a, b) =~= s.subrange(c, d));
    }
}

proof fn lemma_text_between_unique(source: Seq<char>, start: int, end: int, x: Seq<char>, y: Seq<char>)
    requires
        text_between_bytes(source, start, end, x),
        text_between_bytes(source, start, end, y),
    ensures
        x == y,
{
    vstd::utf8::encode_utf8_decode_utf8(x);
    vstd::utf8::encode_utf8_decode_utf8(y);
}

proof fn lemma_first_field_child_unique(t: SyntaxTree, n: int, name: Seq<char>, c: int, d: int)
    requires
        first_field_child(t, n, name, c),
        first_field_child(t, n, name, d),
    ensures
        c == d,
{
    let i = choose|i: int|
        0 <= i < t.children@[n]@.len() && t.children@[n]@[i] as int == c && field_is(t, c, name) && forall|j: int|
            0 <= j < i ==> !field_is(t, #[trigger] t.children@[n]@[j] as int, name);
    let k = choose|k: int|
        0 <= k < t.children@[n]@.len() && t.children@[n]@[k] as int == d && field_is(t, d, name) && forall|j: int|
            0 <= j < k ==> !field_is(t, #[trigger] t.children@[n]@[j] as int, name);
    if i < k {
        assert(!field_is(t, t.children@[n]@[i] as int, name));
    } else if k < i {
        assert(!field_is(t, t.children@[n]@[k] as int, name));
    }
}

proof fn lemma_binary_token_unique(
    t: SyntaxTree,
    source: Seq<char>,
    n: int,
    left: int,
    right: int,
    x: Seq<char>,
    y: Seq<char>,
)
    requires
        binary_token_text(t, source, n, left, right, x),
        binary_token_text(t, source, n, left, right, y),
    ensures
        x == y,
{
    if has_field_child(t, n, "operator"@) {
        let c = choose|c: int|
            first_field_child(t, n, "operator"@, c) && text_between_bytes(
                source,
                t.nodes@[c].start_byte as int,
                t.nodes@[c].end_byte as int,
                x,
            );
        let d = choose|d: int|
            first_field_child(t, n, "operator"@, d) && text_between_bytes(
                source,
                t.nodes@[d].start_byte as int,
                t.nodes@[d].end_byte as int,
                y,
            );
        lemma_first_field_child_unique(t, n, "operator"@, c, d);
        lemma_text_between_unique(source, t.nodes@[c].start_byte as int, t.nodes@[c].end_byte as int, x, y);
    } else {
        assert forall|c: int| !first_field_child(t, n, "operator"@, c) by {
            if first_field_child(t, n, "operator"@, c) {
                let i = choose|i: int|
                    0 <= i < t.children@[n]@.len() && t.children@[n]@[i] as int == c && field_is(t, c, "operator"@)
                        && forall|j: int| 0 <= j < i ==> !field_is(t, #[trigger] t.children@[n]@[j] as int, "operator"@);
                assert(field_is(t, t.children@[n]@[i] as int, "operator"@));
            }
        }
        lemma_text_between_unique(
            source,
            t.nodes@[left].end_byte as int,
            t.nodes@[right].start_byte as int,
            x,
            y,
        );
    }
}

struct Lowerer<'a> {
    source: &'a str,
    index: &'a TypeScriptBindingIndex,
    tree: &'a SyntaxTree,
    procedure_ordinal: u64,
    procedure_scope: ScopeId,
    next_operation: u64,
    entry: NodeId,
    tail: Option<NodeId>,
    terminals: Vec<NodeId>,
    nodes: Vec<IrNode>,
    edges: Vec<IrEdge>,
    diagnostics: Vec<Diagnostic>,
}

impl<'a> Lowerer<'a> {
    spec fn wf(&self) -> bool {
        &&& tree_wf(*self.tree)
        &&& index_wf(*self.index)
        &&& self.procedure_scope.0 < self.index.scopes.len()
    }

    spec fn keeps(&self, old: &Self) -> bool {
        &&& self.source == old.source
        &&& self.index == old.index
        &&& self.tree == old.tree
        &&& self.procedure_ordinal == old.procedure_ordinal
        &&& self.procedure_scope == old.procedure_scope
    }

    fn new(
        source: &'a str,
        index: &'a TypeScriptBindingIndex,
        tree: &'a SyntaxTree,
        procedure_ordinal: u64,
        procedure_scope: ScopeId,
    ) -> (res: Self)
        requires
            tree_wf(*tree),
            index_wf(*index),
            procedure_scope.0 < index.scopes.len(),
        ensures
            res.wf(),
            res.tree == tree,
            res.index == index,
    {
        let entry = NodeId::new(index.snapshot.clone(), (procedure_ordinal << 32u64) | 1);
        let mut nodes: Vec<IrNode> = Vec::new();
        nodes.push(IrNode { id: entry.clone(), operation: Operation::Entry, span: None });
        Lowerer {
            source,
            index,
            tree,
            procedure_ordinal,
            procedure_scope,
            next_operation: 2,
            entry: entry.clone(),
            tail: Some(entry),
            terminals: Vec::new(),
            nodes,
            edges: Vec::new(),
            diagnostics: Vec::new(),
        }
    }

    fn peek_id(&self) -> NodeId {
        NodeId::new(self.index.snapshot.clone(), (self.procedure_ordinal << 32u64) | self.next_operation)
    }

    fn insert_edge(&mut self, edge: IrEdge)
        ensures
            final(self).keeps(old(self)),
            final(self).tail == old(self).tail,
            final(self).terminals == old(self).terminals,
            final(self).nodes == old(self).nodes,
    {
        let mut k: usize = 0;
        while k < self.edges.len()
            invariant
                k <= self.edges@.len(),
            decreases self.edges.len() - k,
        {
            if self.edges[k].same(&edge) {
                return;
            }
            k = k + 1;
        }
        self.edges.push(edge);
    }

    fn emit(&mut self, operation: Operation, span: Option<SourceSpan>) -> (res: NodeId)
        ensures
            final(self).keeps(old(self)),
            final(self).nodes@.len() == old(self).nodes@.len() + 1,
            final(self).nodes@.last().operation == operation,
    {
        let id = self.peek_id();
        self.next_operation = self.next_operation.wrapping_add(1);
        self.nodes.push(IrNode { id: id.clone(), operation, span });
        match self.tail.take() {
            Some(previous) => self.insert_edge(normal_edge(previous, id.clone())),
            None => {},
        }
        self.tail = Some(id.clone());
        id
    }

    fn span(&self, n: usize) -> (res: SourceSpan)
        requires
            n < self.tree.nodes.len(),
    {
        node_span(self.index.path.as_str(), self.tree, n)
    }

    fn input(&self, place: Place, role: ComputeInputRole, n: usize) -> (res: ComputeInput)
        requires
            n < self.tree.nodes.len(),
        ensures
            res.place == place,
            res.role == role,
    {
        ComputeInput { place, role, span: self.span(n) }
    }

    fn binding_at(&self, n: usize) -> (res: Option<BindingId>)
        requires
            n < self.tree.nodes.len(),
        ensures
            match res {
                Some(b) => exists|k: int|
                    0 <= k < self.index.bindings@.len() && declared_over(self.index.bindings@[k], self.tree.nodes@[n as int])
                        && self.index.bindings@[k].id == b && forall|j: int|
                        0 <= j < k ==> !declared_over(#[trigger] self.index.bindings@[j], self.tree.nodes@[n as int]),
                None => forall|j: int|
                    0 <= j < self.index.bindings@.len() ==> !declared_over(#[trigger] self.index.bindings@[j], self.tree.nodes@[n as int]),
            },
    {
        let start = self.tree.nodes[n].start_byte as u64;
        let end = self.tree.nodes[n].end_byte as u64;
        let mut k: usize = 0;
        while k < self.index.bindings.len()
            invariant
                k <= self.index.bindings@.len(),
                start == self.tree.nodes@[n as int].start_byte as u64,
                end == self.tree.nodes@[n as int].end_byte as u64,
                forall|j: int| 0 <= j < k ==> !declared_over(#[trigger] self.index.bindings@[j], self.tree.nodes@[n as int]),
            decreases self.index.bindings.len() - k,
        {
            if self.index.bindings[k].declaration.byte_start == start
                && self.index.bindings[k].declaration.byte_end == end {
                return Some(self.index.bindings[k].id.clone());
            }
            k = k + 1;
        }
        None
    }

    fn reference_binding_at(&self, n: usize) -> (res: Option<BindingId>)
        requires
            n < self.tree.nodes.len(),
        ensures
            (exists|k: int|
                0 <= k < self.index.references@.len() && referenced_over(self.index.references@[k], self.tree.nodes@[n as int])
                    && self.index.references@[k].binding == res && forall|j: int|
                    0 <= j < k ==> !referenced_over(#[trigger] self.index.references@[j], self.tree.nodes@[n as int]))
                || ((forall|j: int|
                0 <= j < self.index.references@.len() ==> !referenced_over(#[trigger] self.index.references@[j], self.tree.nodes@[n as int]))
                && res is None),
    {
        let start = self.tree.nodes[n].start_byte as u64;
        let end = self.tree.nodes[n].end_byte as u64;
        let mut k: usize = 0;
        while k < self.index.references.len()
            invariant
                k <= self.index.references@.len(),
                start == self.tree.nodes@[n as int].start_byte as u64,
                end == self.tree.nodes@[n as int].end_byte as u64,
                forall|j: int| 0 <= j < k ==> !referenced_over(#[trigger] self.index.references@[j], self.tree.nodes@[n as int]),
            decreases self.index.references.len() - k,
        {
            if self.index.references[k].span.byte_start == start
                && self.index.references[k].span.byte_end == end {
                return match &self.index.references[k].binding {
                    Some(b) => Some(b.clone()),
                    None => None,
                };
            }
            k = k + 1;
        }
        None
    }

    /// Bindings of the procedure that are not constants and are declared at
    /// or before `byte`.
    fn affected_places(&self, byte: usize) -> Vec<Place>
        requires
            self.wf(),
    {
        let mut places: Vec<Place> = Vec::new();
        let mut k: usize = 0;
        while k < self.index.bindings.len()
            invariant
                self.wf(),
                k <= self.index.bindings@.len(),
            decreases self.index.bindings.len() - k,
        {
            let binding = &self.index.bindings[k];
            if binding.kind != BindingKind::Const && binding.declaration.byte_start <= byte as u64
                && scope_belongs_to_procedure(self.index, binding.scope, self.procedure_scope) {
                places.push(Place::Binding(binding.id.clone()));
            }
            k = k + 1;
        }
        places
    }

    fn contains_procedure_capture(&self, n: usize) -> bool
        requires
            self.wf(),
            n < self.tree.nodes.len(),
    {
        let start = self.tree.nodes[n].start_byte as u64;
        let end = self.tree.nodes[n].end_byte as u64;
        let mut r: usize = 0;
        while r < self.index.references.len()
            invariant
                self.wf(),
                r <= self.index.references@.len(),
            decreases self.index.references.len() - r,
        {
            let reference = &self.index.references[r];
            if reference.span.byte_start >= start && reference.span.byte_end <= end {
                if let Some(binding_id) = &reference.binding {
                    let mut k: usize = 0;
                    while k < self.index.bindings.len()
                        invariant
                            self.wf(),
                            k <= self.index.bindings@.len(),
                        decreases self.index.bindings.len() - k,
                    {
                        let binding = &self.index.bindings[k];
                        if binding.id.same(binding_id) && scope_belongs_to_procedure(
                            self.index,
                            binding.scope,
                            self.procedure_scope,
                        ) {
                            return true;
                        }
                        k = k + 1;
                    }
                }
            }
            r = r + 1;
        }
        false
    }

    fn emit_literal(&mut self, kind: LiteralKind, raw: String, cooked: Option<String>, n: usize) -> (res:
        Place)
        requires
            old(self).wf(),
            n < old(self).tree.nodes.len(),
        ensures
            final(self).wf(),
            final(self).keeps(old(self)),
    {
        let id = self.peek_id();
        let result = Place::Temporary(id.clone());
        let span = self.span(n);
        self.emit(
            Operation::Literal {
                definition: DefinitionId::new(self.index.snapshot.clone(), id.local),
                literal_kind: kind,
                raw,
                cooked,
                result: result.clone(),
            },
            Some(span),
        );
        result
    }

    fn emit_compute(&mut self, n: usize, operator: PrimitiveOperator, inputs: Vec<ComputeInput>) -> (res:
        Place)
        requires
            old(self).wf(),
            n < old(self).tree.nodes.len(),
        ensures
            final(self).wf(),
            final(self).keeps(old(self)),
            final(self).nodes@.len() == old(self).nodes@.len() + 1,
            final(self).nodes@.last().operation matches Operation::Compute { operator: op, inputs: i, .. } && op
                == operator && i == inputs,
    {
        let id = self.peek_id();
        let result = Place::Temporary(id.clone());
        let span = self.span(n);
        self.emit(
            Operation::Compute {
                definition: DefinitionId::new(self.index.snapshot.clone(), id.local),
                inputs,
                result: result.clone(),
                operator,
            },
            Some(span),
        );
        result
    }

    fn emit_unknown(
        &mut self,
        n: usize,
        effect_kind: UnknownEffectKind,
        inputs: Vec<ComputeInput>,
        has_result: bool,
    ) -> (res: Option<Place>)
        requires
            old(self).wf(),
            n < old(self).tree.nodes.len(),
        ensures
            final(self).wf(),
            final(self).keeps(old(self)),
            has_result ==> res is Some,
            final(self).nodes@.len() > 0,
            final(self).nodes@.last().operation is UnknownEffect,
    {
        let id = self.peek_id();
        let result = if has_result {
            Some(Place::Temporary(id.clone()))
        } else {
            None
        };
        let definition = if has_result {
            Some(DefinitionId::new(self.index.snapshot.clone(), id.local))
        } else {
            None
        };
        let span = self.span(n);
        let description = String::from_str("unsupported TypeScript construct \"").concat(
            self.tree.nodes[n].kind_name.as_str(),
        ).concat("\"");
        let affected_places = self.affected_places(self.tree.nodes[n].start_byte);
        let emitted = self.emit(
            Operation::UnknownEffect {
                effect_kind,
                description: description.clone(),
                inputs,
                result: result.clone(),
                definition,
                affected_places,
            },
            Some(span.clone()),
        );
        self.diagnostics.push(
            Diagnostic {
                code: DiagnosticCode::UnsupportedSyntax,
                message: description,
                snapshot: Some(self.index.snapshot.clone()),
                frontier: Some(emitted),
                span: Some(span),
                affected_flows: Vec::new(),
            },
        );
        result
    }

    fn unknown_value(&mut self, n: usize) -> (res: Place)
        requires
            old(self).wf(),
            n < old(self).tree.nodes.len(),
        ensures
            final(self).wf(),
            final(self).keeps(old(self)),
            final(self).nodes@.len() > 0,
            final(self).nodes@.last().operation is UnknownEffect,
    {
        self.emit_unknown(n, UnknownEffectKind::Value, Vec::new(), true).unwrap()
    }

    // -----------------------------------------------------------------------
    // Expressions.

    fn lower_expression(&mut self, n: usize) -> (res: Place)
        requires
            old(self).wf(),
            n < old(self).tree.nodes.len(),
        ensures
            final(self).wf(),
            final(self).keeps(old(self)),
        decreases old(self).tree.nodes.len() - n, 1nat,
    {
        match self.tree.nodes[n].kind {
            SyntaxKind::Identifier => {
                let text = node_text(self.source, self.tree, n);
                let binding = self.reference_binding_at(n);
                if str_equal(text.as_str(), "undefined") && binding.is_none() {
                    return self.emit_literal(
                        LiteralKind::Undefined,
                        String::from_str("undefined"),
                        None,
                        n,
                    );
                }
                match binding {
                    Some(binding) => {
                        let id = self.peek_id();
                        let result = Place::Temporary(id.clone());
                        let span = self.span(n);
                        self.emit(
                            Operation::Read {
                                source: Place::Binding(binding),
                                result: result.clone(),
                            },
                            Some(span),
                        );
                        result
                    },
                    None => self.unknown_value(n),
                }
            },
            SyntaxKind::Number => {
                let raw = node_text(self.source, self.tree, n);
                let kind = if ends_with_char(raw.as_str(), 'n') {
                    LiteralKind::BigInt
                } else {
                    LiteralKind::Number
                };
                self.emit_literal(kind, raw, None, n)
            },
            SyntaxKind::String => {
                let raw = node_text(self.source, self.tree, n);
                let cooked = json_string(raw.as_str());
                self.emit_literal(LiteralKind::String, raw, cooked, n)
            },
            SyntaxKind::True | SyntaxKind::False => {
                let raw = node_text(self.source, self.tree, n);
                let cooked = Some(raw.clone());
                self.emit_literal(LiteralKind::Boolean, raw, cooked, n)
            },
            SyntaxKind::Null => {
                self.emit_literal(
                    LiteralKind::Null,
                    String::from_str("null"),
                    Some(String::from_str("null")),
                    n,
                )
            },
            SyntaxKind::ParenthesizedExpression | SyntaxKind::AsExpression
            | SyntaxKind::SatisfiesExpression | SyntaxKind::NonNullExpression
            | SyntaxKind::TypeAssertion => {
                let inner = match child_by_field(self.tree, n, "expression") {
                    Some(inner) => Some(inner),
                    None => named_child(self.tree, n, 0),
                };
                match inner {
                    Some(inner) => self.lower_expression(inner),
                    None => self.unknown_value(n),
                }
            },
            SyntaxKind::BinaryExpression => self.lower_binary(n),
            SyntaxKind::UnaryExpression => self.lower_unary(n),
            SyntaxKind::MemberExpression => self.lower_member(n),
            SyntaxKind::SubscriptExpression => self.lower_subscript(n),
            SyntaxKind::TemplateString => self.lower_template(n),
            SyntaxKind::CallExpression | SyntaxKind::NewExpression => self.lower_call_like(n),
            _ => self.unknown_value(n),
        }
    }

    fn lower_binary(&mut self, n: usize) -> (res: Place)
        requires
            old(self).wf(),
            n < old(self).tree.nodes.len(),
        ensures
            final(self).wf(),
            final(self).keeps(old(self)),
            final(self).nodes@.len() > 0,
            forall|left: int, right: int, token: Seq<char>, start: int, end: int|
                #![trigger binary_token_text(*old(self).tree, old(self).source@, n as int, left, right, token), trimmed(token, start, end)]
                first_field_child(*old(self).tree, n as int, "left"@, left) && first_field_child(
                    *old(self).tree,
                    n as int,
                    "right"@,
                    right,
                ) && binary_token_text(*old(self).tree, old(self).source@, n as int, left, right, token) && trimmed(
                    token,
                    start,
                    end,
                ) && binary_operator_spec(token.subrange(start, end)) is Some ==> final(self).nodes@.last().operation is Compute,
            final(self).nodes@.last().operation matches Operation::Compute { inputs, .. } ==> inputs@.len() == 2
                && inputs@[0].role == (ComputeInputRole::Operand { index: 0 }) && inputs@[1].role
                == (ComputeInputRole::Operand { index: 1 }),
            final(self).nodes@.last().operation matches Operation::Compute { operator: op, .. } ==> exists|
                left: int,
                right: int,
                token: Seq<char>,
                start: int,
                end: int,
            |
                first_field_child(*old(self).tree, n as int, "left"@, left) && first_field_child(
                    *old(self).tree,
                    n as int,
                    "right"@,
                    right,
                ) && binary_token_text(*old(self).tree, old(self).source@, n as int, left, right, token) && trimmed(
                    token,
                    start,
                    end,
                ) && binary_operator_spec(token.subrange(start, end)) == Some(op),
        decreases old(self).tree.nodes.len() - n, 0nat,
    {
        let left = match child_by_field(self.tree, n, "left") {
            Some(left) => left,
            None => {
                return self.unknown_value(n);
            },
        };
        let right = match child_by_field(self.tree, n, "right") {
            Some(right) => right,
            None => {
                return self.unknown_value(n);
            },
        };
        let operator_text = match child_by_field(self.tree, n, "operator") {
            Some(operator) => {
                let text = node_text(self.source, self.tree, operator);
                proof {
                    assert(first_field_child(*self.tree, n as int, "operator"@, operator as int));
                }
                text
            },
            None => {
                let text = text_between(
                    self.source,
                    self.tree.nodes[left].end_byte,
                    self.tree.nodes[right].start_byte,
                );
                proof {
                    assert(!has_field_child(*self.tree, n as int, "operator"@));
                }
                text
            },
        };
        let ghost token = operator_text@;
        proof {
            let t = *self.tree;
            assert(first_field_child(t, n as int, "left"@, left as int));
            assert(first_field_child(t, n as int, "right"@, right as int));
            assert(binary_token_text(t, self.source@, n as int, left as int, right as int, token));
        }
        let operator = match primitive_binary(operator_text.as_str()) {
            Some(operator) => operator,
            None => {
                proof {
                    let t = *self.tree;
                    let src = self.source@;
                    assert forall|l2: int, r2: int, tok: Seq<char>, st: int, en: int|
                        first_field_child(t, n as int, "left"@, l2) && first_field_child(t, n as int, "right"@, r2)
                            && binary_token_text(t, src, n as int, l2, r2, tok) && trimmed(tok, st, en) implies binary_operator_spec(
                        tok.subrange(st, en),
                    ) is None by {
                        lemma_first_field_child_unique(t, n as int, "left"@, l2, left as int);
                        lemma_first_field_child_unique(t, n as int, "right"@, r2, right as int);
                        lemma_binary_token_unique(t, src, n as int, left as int, right as int, tok, token);
                        let (s0, e0) = choose|s0: int, e0: int|
                            trimmed(token, s0, e0) && None::<PrimitiveOperator> == binary_operator_spec(
                                token.subrange(s0, e0),
                            );
                        lemma_trimmed_unique(token, st, en, s0, e0);
                    }
                }
                return self.unknown_value(n);
            },
        };
        let ghost tree = *self.tree;
        let ghost source = self.source@;
        let left_place = self.lower_expression(left);
        let right_place = self.lower_expression(right);
        let inputs = vec![
            self.input(left_place, ComputeInputRole::Operand { index: 0 }, left),
            self.input(right_place, ComputeInputRole::Operand { index: 1 }, right),
        ];
        let res = self.emit_compute(n, operator, inputs);
        proof {
            let (st, en) = choose|st: int, en: int|
                trimmed(token, st, en) && Some(operator) == binary_operator_spec(token.subrange(st, en));
            assert(first_field_child(tree, n as int, "left"@, left as int) && first_field_child(
                tree,
                n as int,
                "right"@,
                right as int,
            ) && binary_token_text(tree, source, n as int, left as int, right as int, token) && trimmed(token, st, en)
                && binary_operator_spec(token.subrange(st, en)) == Some(operator));
        }
        res
    }

    fn lower_unary(&mut self, n: usize) -> (res: Place)
        requires
            old(self).wf(),
            n < old(self).tree.nodes.len(),
        ensures
            final(self).wf(),
            final(self).keeps(old(self)),
            final(self).nodes@.len() > 0,
            final(self).nodes@.last().operation matches Operation::Compute { operator: op, .. } ==> exists|
                argument: int,
                prefix: Seq<char>,
                start: int,
                end: int,
            |
                n < argument < old(self).tree.nodes.len() && child_of(*old(self).tree, n as int, argument) && (
                first_field_child(*old(self).tree, n as int, "argument"@, argument) || !has_field_child(
                    *old(self).tree,
                    n as int,
                    "argument"@,
                )) && text_between_bytes(
                    old(self).source@,
                    old(self).tree.nodes@[n as int].start_byte as int,
                    old(self).tree.nodes@[argument].start_byte as int,
                    prefix,
                ) && trimmed(prefix, start, end) && unary_operator_spec(prefix.subrange(start, end)) == Some(op),
        decreases old(self).tree.nodes.len() - n, 0nat,
    {
        let argument = match child_by_field(self.tree, n, "argument") {
            Some(argument) => argument,
            None => match named_child(self.tree, n, 0) {
                Some(argument) => argument,
                None => {
                    return self.unknown_value(n);
                },
            },
        };
        let prefix = text_between(
            self.source,
            self.tree.nodes[n].start_byte,
            self.tree.nodes[argument].start_byte,
        );
        let operator = match primitive_unary(prefix.as_str()) {
            Some(operator) => operator,
            None => {
                return self.unknown_value(n);
            },
        };
        let place = self.lower_expression(argument);
        let inputs = vec![self.input(place, ComputeInputRole::Operand { index: 0 }, argument)];
        self.emit_compute(n, operator, inputs)
    }

    fn lower_member(&mut self, n: usize) -> (res: Place)
        requires
            old(self).wf(),
            n < old(self).tree.nodes.len(),
        ensures
            final(self).wf(),
            final(self).keeps(old(self)),
            has_field_child(*old(self).tree, n as int, "object"@) ==> final(self).nodes@.len() > 0,
            has_field_child(*old(self).tree, n as int, "object"@) ==> (final(self).nodes@.last().operation matches Operation::Compute {
                operator: PrimitiveOperator::PropertyRead { property },
                inputs,
                ..
            } && property_read_text(*old(self).tree, old(self).source@, n as int, property@) && inputs@.len() == 1
                && inputs@[0].role == (ComputeInputRole::Operand { index: 0 })),
        decreases old(self).tree.nodes.len() - n, 0nat,
    {
        let object = match child_by_field(self.tree, n, "object") {
            Some(object) => object,
            None => {
                return self.unknown_value(n);
            },
        };
        let property = match child_by_field(self.tree, n, "property") {
            Some(property) => node_text(self.source, self.tree, property),
            None => String::new(),
        };
        let place = self.lower_expression(object);
        let inputs = vec![self.input(place, ComputeInputRole::Operand { index: 0 }, object)];
        self.emit_compute(n, PrimitiveOperator::PropertyRead { property }, inputs)
    }

    fn lower_subscript(&mut self, n: usize) -> (res: Place)
        requires
            old(self).wf(),
            n < old(self).tree.nodes.len(),
        ensures
            final(self).wf(),
            final(self).keeps(old(self)),
        decreases old(self).tree.nodes.len() - n, 0nat,
    {
        let object = match child_by_field(self.tree, n, "object") {
            Some(object) => object,
            None => {
                return self.unknown_value(n);
            },
        };
        let index_node = match child_by_field(self.tree, n, "index") {
            Some(index_node) => index_node,
            None => {
                return self.unknown_value(n);
            },
        };
        let object_place = self.lower_expression(object);
        let index_place = self.lower_expression(index_node);
        let inputs = vec![
            self.input(object_place, ComputeInputRole::Operand { index: 0 }, object),
            self.input(index_place, ComputeInputRole::Operand { index: 1 }, index_node),
        ];
        self.emit_compute(n, PrimitiveOperator::IndexRead, inputs)
    }

    fn lower_template(&mut self, n: usize) -> (res: Place)
        requires
            old(self).wf(),
            n < old(self).tree.nodes.len(),
        ensures
            final(self).wf(),
            final(self).keeps(old(self)),
        decreases old(self).tree.nodes.len() - n, 0nat,
    {
        let mut inputs: Vec<ComputeInput> = Vec::new();
        let named = named_children(self.tree, n);
        let mut chunk_index: u32 = 0;
        let mut interpolation_index: u32 = 0;
        let mut k: usize = 0;
        while k < named.len()
            invariant
                self.wf(),
                self.keeps(old(self)),
                n < self.tree.nodes.len(),
                forall|j: int| 0 <= j < named@.len() ==> n < #[trigger] named@[j] < self.tree.nodes.len(),
                k <= named@.len(),
            decreases named.len() - k,
        {
            let child = named[k];
            if self.tree.nodes[child].kind == SyntaxKind::TemplateSubstitution {
                if let Some(expression) = named_child(self.tree, child, 0) {
                    let place = self.lower_expression(expression);
                    inputs.push(
                        self.input(
                            place,
                            ComputeInputRole::TemplateInterpolation { index: interpolation_index },
                            expression,
                        ),
                    );
                    interpolation_index = interpolation_index.wrapping_add(1);
                }
            } else {
                let raw = node_text(self.source, self.tree, child);
                let cooked = if contains_char(raw.as_str(), '\\') {
                    None
                } else {
                    Some(raw.clone())
                };
                let place = self.emit_literal(LiteralKind::TemplateChunk, raw, cooked, child);
                inputs.push(
                    self.input(place, ComputeInputRole::TemplateChunk { index: chunk_index }, child),
                );
                chunk_index = chunk_index.wrapping_add(1);
            }
            k = k + 1;
        }
        self.emit_compute(n, PrimitiveOperator::Template, inputs)
    }

    fn lower_call_like(&mut self, n: usize) -> (res: Place)
        requires
            old(self).wf(),
            n < old(self).tree.nodes.len(),
        ensures
            final(self).wf(),
            final(self).keeps(old(self)),
        decreases old(self).tree.nodes.len() - n, 0nat,
    {
        let mut inputs: Vec<ComputeInput> = Vec::new();
        let function = match child_by_field(self.tree, n, "function") {
            Some(function) => Some(function),
            None => child_by_field(self.tree, n, "constructor"),
        };
        if let Some(function) = function {
            let place = self.lower_expression(function);
            inputs.push(self.input(place, ComputeInputRole::Operand { index: 0 }, function));
        }
        if let Some(arguments) = child_by_field(self.tree, n, "arguments") {
            let named = named_children(self.tree, arguments);
            let mut k: usize = 0;
            while k < named.len()
                invariant
                    self.wf(),
                    self.keeps(old(self)),
                    n < arguments < self.tree.nodes.len(),
                    forall|j: int| 0 <= j < named@.len() ==> arguments < #[trigger] named@[j] < self.tree.nodes.len(),
                    k <= named@.len(),
                decreases named.len() - k,
            {
                let argument = named[k];
                let place = self.lower_expression(argument);
                let offset: u32 = if k < u32::MAX as usize {
                    k as u32 + 1
                } else {
                    u32::MAX
                };
                inputs.push(self.input(place, ComputeInputRole::Operand { index: offset }, argument));
                k = k + 1;
            }
        }
        self.emit_unknown(n, UnknownEffectKind::Value, inputs, true).unwrap()
    }

    // -----------------------------------------------------------------------
    // Statements.

    fn lower_children(&mut self, n: usize)
        requires
            old(self).wf(),
            n < old(self).tree.nodes.len(),
        ensures
            final(self).wf(),
            final(self).keeps(old(self)),
        decreases old(self).tree.nodes.len() - n, 0nat,
    {
        let named = named_children(self.tree, n);
        let mut k: usize = 0;
        while k < named.len()
            invariant
                self.wf(),
                self.keeps(old(self)),
                n < self.tree.nodes.len(),
                forall|j: int| 0 <= j < named@.len() ==> n < #[trigger] named@[j] < self.tree.nodes.len(),
                k <= named@.len(),
            decreases named.len() - k,
        {
            self.lower_statement(named[k]);
            k = k + 1;
        }
    }

    fn lower_statement(&mut self, n: usize)
        requires
            old(self).wf(),
            n < old(self).tree.nodes.len(),
        ensures
            final(self).wf(),
            final(self).keeps(old(self)),
        decreases old(self).tree.nodes.len() - n, 1nat,
    {
        match self.tree.nodes[n].kind {
            SyntaxKind::LexicalDeclaration => self.lower_declaration(n),
            SyntaxKind::ExpressionStatement => {
                if let Some(expression) = named_child(self.tree, n, 0) {
                    if self.tree.nodes[expression].kind == SyntaxKind::AssignmentExpression {
                        self.lower_assignment(expression);
                    } else {
                        self.lower_expression(expression);
                    }
                }
            },
            SyntaxKind::ReturnStatement => self.lower_return(n),
            SyntaxKind::IfStatement => self.lower_if(n),
            SyntaxKind::FunctionDeclaration | SyntaxKind::GeneratorFunctionDeclaration => {
                if self.contains_procedure_capture(n) {
                    self.emit_unknown(n, UnknownEffectKind::Value, Vec::new(), false);
                }
            },
            SyntaxKind::ExportStatement => self.lower_export(n),
            SyntaxKind::ImportStatement => {
                self.emit_unknown(n, UnknownEffectKind::Value, Vec::new(), false);
            },
            SyntaxKind::EmptyStatement | SyntaxKind::Comment => {},
            SyntaxKind::StatementBlock => self.lower_children(n),
            _ => {
                self.emit_unknown(n, UnknownEffectKind::Control, Vec::new(), false);
                self.tail = None;
            },
        }
    }

    fn lower_export(&mut self, n: usize)
        requires
            old(self).wf(),
            n < old(self).tree.nodes.len(),
        ensures
            final(self).wf(),
            final(self).keeps(old(self)),
        decreases old(self).tree.nodes.len() - n, 0nat,
    {
        let named = named_children(self.tree, n);
        let mut lowered_declaration = false;
        let mut k: usize = 0;
        while k < named.len()
            invariant
                self.wf(),
                self.keeps(old(self)),
                n < self.tree.nodes.len(),
                forall|j: int| 0 <= j < named@.len() ==> n < #[trigger] named@[j] < self.tree.nodes.len(),
                k <= named@.len(),
            decreases named.len() - k,
        {
            let child = named[k];
            match self.tree.nodes[child].kind {
                SyntaxKind::LexicalDeclaration | SyntaxKind::FunctionDeclaration
                | SyntaxKind::GeneratorFunctionDeclaration => {
                    self.lower_statement(child);
                    lowered_declaration = true;
                },
                _ => {},
            }
            k = k + 1;
        }
        if !lowered_declaration {
            let mut identifiers: Vec<usize> = Vec::new();
            identifier_nodes(self.tree, n, &mut identifiers);
            let mut inputs: Vec<ComputeInput> = Vec::new();
            let mut k: usize = 0;
            while k < identifiers.len()
                invariant
                    self.wf(),
                    self.keeps(old(self)),
                    n < self.tree.nodes.len(),
                    forall|j: int| 0 <= j < identifiers@.len() ==> #[trigger] identifiers@[j] < self.tree.nodes.len(),
                    k <= identifiers@.len(),
                decreases identifiers.len() - k,
            {
                let identifier = identifiers[k];
                if self.reference_binding_at(identifier).is_some() {
                    let place = self.lower_expression(identifier);
                    let position: u32 = if inputs.len() <= u32::MAX as usize {
                        inputs.len() as u32
                    } else {
                        u32::MAX
                    };
                    inputs.push(
                        self.input(place, ComputeInputRole::Operand { index: position }, identifier),
                    );
                }
                k = k + 1;
            }
            self.emit_unknown(n, UnknownEffectKind::Value, inputs, false);
        }
    }

    fn lower_declaration(&mut self, declaration: usize)
        requires
            old(self).wf(),
            declaration < old(self).tree.nodes.len(),
        ensures
            final(self).wf(),
            final(self).keeps(old(self)),
    {
        let named = named_children(self.tree, declaration);
        let mut k: usize = 0;
        while k < named.len()
            invariant
                self.wf(),
                self.keeps(old(self)),
                declaration < self.tree.nodes.len(),
                forall|j: int| 0 <= j < named@.len() ==> #[trigger] named@[j] < self.tree.nodes.len(),
                k <= named@.len(),
            decreases named.len() - k,
        {
            let declarator = named[k];
            if self.tree.nodes[declarator].kind == SyntaxKind::VariableDeclarator {
                match child_by_field(self.tree, declarator, "name") {
                    None => {
                        self.emit_unknown(declarator, UnknownEffectKind::Value, Vec::new(), false);
                    },
                    Some(name) => {
                        if self.tree.nodes[name].kind != SyntaxKind::Identifier {
                            self.emit_unknown(declarator, UnknownEffectKind::Value, Vec::new(), false);
                        } else {
                            match self.binding_at(name) {
                                None => {
                                    self.emit_unknown(
                                        declarator,
                                        UnknownEffectKind::Value,
                                        Vec::new(),
                                        false,
                                    );
                                },
                                Some(binding) => {
                                    let value = match child_by_field(self.tree, declarator, "value") {
                                        Some(value) => self.lower_expression(value),
                                        None => self.emit_literal(
                                            LiteralKind::Undefined,
                                            String::from_str("undefined"),
                                            None,
                                            name,
                                        ),
                                    };
                                    let node_id = self.peek_id();
                                    let definition = DefinitionId::new(
                                        self.index.snapshot.clone(),
                                        node_id.local,
                                    );
                                    let span = self.span(declarator);
                                    self.emit(
                                        Operation::Write {
                                            target: Place::Binding(binding),
                                            sources: vec![value],
                                            definition,
                                        },
                                        Some(span),
                                    );
                                },
                            }
                        }
                    },
                }
            }
            k = k + 1;
        }
    }

    fn lower_assignment(&mut self, assignment: usize)
        requires
            old(self).wf(),
            assignment < old(self).tree.nodes.len(),
        ensures
            final(self).wf(),
            final(self).keeps(old(self)),
    {
        let left = match child_by_field(self.tree, assignment, "left") {
            Some(left) => left,
            None => {
                self.emit_unknown(assignment, UnknownEffectKind::Value, Vec::new(), false);
                return;
            },
        };
        let right = match child_by_field(self.tree, assignment, "right") {
            Some(right) => right,
            None => {
                self.emit_unknown(assignment, UnknownEffectKind::Value, Vec::new(), true);
                return;
            },
        };
        let operator = trim(
            text_between(
                self.source,
                self.tree.nodes[left].end_byte,
                self.tree.nodes[right].start_byte,
            ).as_str(),
        );
        if self.tree.nodes[left].kind != SyntaxKind::Identifier || !str_equal(operator.as_str(), "=") {
            self.emit_unknown(assignment, UnknownEffectKind::Value, Vec::new(), true);
            return;
        }
        let target = match self.reference_binding_at(left) {
            Some(target) => target,
            None => {
                self.emit_unknown(assignment, UnknownEffectKind::Value, Vec::new(), true);
                return;
            },
        };
        let value = self.lower_expression(right);
        let node_id = self.peek_id();
        let span = self.span(assignment);
        self.emit(
            Operation::Write {
                target: Place::Binding(target),
                sources: vec![value],
                definition: DefinitionId::new(self.index.snapshot.clone(), node_id.local),
            },
            Some(span),
        );
    }

    fn lower_return(&mut self, n: usize)
        requires
            old(self).wf(),
            n < old(self).tree.nodes.len(),
        ensures
            final(self).wf(),
            final(self).keeps(old(self)),
    {
        let value = match named_child(self.tree, n, 0) {
            Some(value) => Some(self.lower_expression(value)),
            None => None,
        };
        let span = self.span(n);
        let id = self.emit(Operation::Return { value }, Some(span));
        self.terminals.push(id);
        self.tail = None;
    }

    fn lower_if(&mut self, n: usize)
        requires
            old(self).wf(),
            n < old(self).tree.nodes.len(),
        ensures
            final(self).wf(),
            final(self).keeps(old(self)),
        decreases old(self).tree.nodes.len() - n, 0nat,
    {
        let condition_node = match child_by_field(self.tree, n, "condition") {
            Some(c) => c,
            None => {
                self.emit_unknown(n, UnknownEffectKind::Control, Vec::new(), false);
                self.tail = None;
                return;
            },
        };
        let consequence = match child_by_field(self.tree, n, "consequence") {
            Some(c) => c,
            None => {
                self.emit_unknown(n, UnknownEffectKind::Control, Vec::new(), false);
                self.tail = None;
                return;
            },
        };
        let condition = self.lower_expression(condition_node);
        let condition_span = self.span(condition_node);
        let branch = self.emit(Operation::Branch { condition }, Some(condition_span));
        let construct = self.span(n);
        let label = trim(node_text(self.source, self.tree, condition_node).as_str());
        let alternative = match child_by_field(self.tree, n, "alternative") {
            Some(alternative) => {
                if self.tree.nodes[alternative].kind == SyntaxKind::ElseClause {
                    named_child(self.tree, alternative, 0)
                } else {
                    Some(alternative)
                }
            },
            None => None,
        };
        let mut continuing: Vec<NodeId> = Vec::new();
        let mut arm_index: usize = 0;
        while arm_index < 2
            invariant
                self.wf(),
                self.keeps(old(self)),
                n < self.tree.nodes.len(),
                n < consequence < self.tree.nodes.len(),
                alternative matches Some(a) ==> n < a < self.tree.nodes.len(),
            decreases 2 - arm_index,
        {
            let outcome = arm_index == 0;
            let arm = if outcome {
                Some(consequence)
            } else {
                alternative
            };
            self.tail = None;
            let entry = self.emit(Operation::Join, None);
            let assumption = if outcome {
                label.clone()
            } else {
                String::from_str("!(").concat(label.as_str()).concat(")")
            };
            self.insert_edge(
                IrEdge {
                    source: branch.clone(),
                    target: entry,
                    kind: EdgeKind::Branch { outcome },
                    construct: Some(construct.clone()),
                    assumption: Some(assumption),
                },
            );
            if let Some(arm) = arm {
                self.lower_statement(arm);
            }
            if let Some(tail) = self.tail.take() {
                continuing.push(tail);
            }
            arm_index = arm_index + 1;
        }
        self.tail = None;
        if continuing.len() > 0 {
            let join = self.emit(Operation::Join, None);
            let mut k: usize = 0;
            while k < continuing.len()
                invariant
                    self.keeps(old(self)),
                    self.wf(),
                    k <= continuing@.len(),
                decreases continuing.len() - k,
            {
                self.insert_edge(normal_edge(continuing[k].clone(), join.clone()));
                k = k + 1;
            }
        }
    }

    fn lower(&mut self, container: usize)
        requires
            old(self).wf(),
            container < old(self).tree.nodes.len(),
        ensures
            final(self).wf(),
            final(self).keeps(old(self)),
    {
        if self.tree.nodes[container].kind == SyntaxKind::Program {
            self.lower_children(container);
            return;
        }
        if let Some(body) = child_by_field(self.tree, container, "body") {
            if self.tree.nodes[body].kind == SyntaxKind::StatementBlock {
                self.lower_children(body);
            } else {
                let value = self.lower_expression(body);
                let span = self.span(body);
                let ret = self.emit(Operation::Return { value: Some(value) }, Some(span));
                self.terminals.push(ret);
                self.tail = None;
            }
        }
    }

    fn finish(self, selected_binding: BindingId) -> (res: Result<
        TypeScriptLoweringResult,
        TypeScriptLoweringError,
    >)
        ensures
            res matches Ok(r) ==> ir_valid(r.procedure) && r.selected_binding == selected_binding,
            res matches Err(e) ==> e is InvalidIr,
    {
        let mut this = self;
        let exit = this.peek_id();
        this.nodes.push(IrNode { id: exit.clone(), operation: Operation::Exit, span: None });
        match this.tail.take() {
            Some(tail) => this.insert_edge(normal_edge(tail, exit.clone())),
            None => {},
        }
        let mut k: usize = 0;
        while k < this.terminals.len()
            invariant
                k <= this.terminals@.len(),
            decreases this.terminals.len() - k,
        {
            let terminal = this.terminals[k].clone();
            this.insert_edge(normal_edge(terminal, exit.clone()));
            k = k + 1;
        }
        let parameters = procedure_parameters(this.index, this.procedure_scope, this.procedure_ordinal);
        let procedure = ProcedureIr {
            id: ProcedureId::new(this.index.snapshot.clone(), this.procedure_ordinal),
            parameters,
            entry: this.entry,
            exits: vec![exit],
            nodes: this.nodes,
            edges: this.edges,
        };
        if procedure.validate().is_err() {
            return Err(TypeScriptLoweringError::InvalidIr(String::from_str("lowered IR is invalid")));
        }
        Ok(TypeScriptLoweringResult { procedure, selected_binding, diagnostics: this.diagnostics })
    }
}

/// Whether an operation names a binding as one of its places.
fn operation_mentions(operation: &Operation, binding: &BindingId) -> bool {
    let mut places: Vec<&Place> = Vec::new();
    match operation {
        Operation::Read { source, result } => {
            places.push(source);
            places.push(result);
        },
        Operation::Write { target, sources, .. } => {
            places.push(target);
            let mut k: usize = 0;
            while k < sources.len()
                invariant
                    k <= sources@.len(),
                decreases sources.len() - k,
            {
                places.push(&sources[k]);
                k = k + 1;
            }
        },
        Operation::Compute { inputs, .. } => {
            let mut k: usize = 0;
            while k < inputs.len()
                invariant
                    k <= inputs@.len(),
                decreases inputs.len() - k,
            {
                places.push(&inputs[k].place);
                k = k + 1;
            }
        },
        Operation::Branch { condition } => places.push(condition),
        Operation::Call { arguments, result, .. } => {
            let mut k: usize = 0;
            while k < arguments.len()
                invariant
                    k <= arguments@.len(),
                decreases arguments.len() - k,
            {
                places.push(&arguments[k]);
                k = k + 1;
            }
            if let Some(r) = result {
                places.push(r);
            }
        },
        Operation::Return { value } => {
            if let Some(v) = value {
                places.push(v);
            }
        },
        Operation::UnknownEffect { inputs, result, affected_places, .. } => {
            let mut k: usize = 0;
            while k < inputs.len()
                invariant
                    k <= inputs@.len(),
                decreases inputs.len() - k,
            {
                places.push(&inputs[k].place);
                k = k + 1;
            }
            if let Some(r) = result {
                places.push(r);
            }
            let mut k: usize = 0;
            while k < affected_places.len()
                invariant
                    k <= affected_places@.len(),
                decreases affected_places.len() - k,
            {
                places.push(&affected_places[k]);
                k = k + 1;
            }
        },
        _ => {},
    }
    let mut k: usize = 0;
    while k < places.len()
        invariant
            k <= places@.len(),
        decreases places.len() - k,
    {
        if let Place::Binding(b) = places[k] {
            if b.same(binding) {
                return true;
            }
        }
        k = k + 1;
    }
    false
}

/// The kinds of the scopes from the program down to a scope.
/// The role of a scope kind.
pub open spec fn scope_role(kind: ScopeKind) -> AlignableScopeRole {
    match kind {
        ScopeKind::Program => AlignableScopeRole::Program,
        ScopeKind::Function => AlignableScopeRole::Function,
        ScopeKind::Block => AlignableScopeRole::Block,
    }
}

/// The roles of the scopes from the outermost down to `scope`.
pub open spec fn scope_roles(index: TypeScriptBindingIndex, scope: ScopeId) -> Seq<AlignableScopeRole>
    decreases scope.0,
{
    let role = scope_role(index.scopes@[scope.0 as int].kind);
    match index.scopes@[scope.0 as int].parent {
        Some(parent) => if scope.0 != 0 && parent.0 < scope.0 {
            scope_roles(index, parent).push(role)
        } else {
            seq![role]
        },
        None => seq![role],
    }
}

fn scope_path(index: &TypeScriptBindingIndex, scope: ScopeId) -> (res: Vec<AlignableScopeRole>)
    requires
        index_wf(*index),
        scope.0 < index.scopes.len(),
    ensures
        res@ == scope_roles(*index, scope),
{
    let mut reversed: Vec<AlignableScopeRole> = Vec::new();
    let mut current = scope;
    loop
        invariant_except_break
            scope_roles(*index, scope) == scope_roles(*index, current) + reversed@.reverse(),
        invariant
            index_wf(*index),
            current.0 < index.scopes.len(),
        ensures
            scope_roles(*index, scope) == reversed@.reverse(),
        decreases current.0,
    {
        let ghost before = reversed@;
        let role = match index.scopes[current.0 as usize].kind {
            ScopeKind::Program => AlignableScopeRole::Program,
            ScopeKind::Function => AlignableScopeRole::Function,
            ScopeKind::Block => AlignableScopeRole::Block,
        };
        reversed.push(role);
        proof {
            assert(role == scope_role(index.scopes@[current.0 as int].kind));
            assert(reversed@.reverse() =~= seq![role] + before.reverse());
        }
        match index.scopes[current.0 as usize].parent {
            Some(parent) => {
                if current.0 == 0 {
                    proof {
                        assert(scope_roles(*index, current) == seq![role]);
                        assert(scope_roles(*index, scope) =~= reversed@.reverse());
                    }
                    break;
                }
                proof {
                    assert(parent.0 < current.0);
                    assert(scope_roles(*index, current) == scope_roles(*index, parent).push(role));
                    assert(scope_roles(*index, parent).push(role) + before.reverse() =~= scope_roles(*index, parent) + reversed@.reverse());
                }
                current = parent;
            },
            None => {
                proof {
                    assert(scope_roles(*index, current) == seq![role]);
                    assert(scope_roles(*index, scope) =~= reversed@.reverse());
                }
                break;
            },
        }
    }
    let mut path: Vec<AlignableScopeRole> = Vec::new();
    let mut k: usize = reversed.len();
    while k > 0
        invariant
            k <= reversed@.len(),
            path@ == reversed@.subrange(k as int, reversed@.len() as int).reverse(),
        decreases k,
    {
        k = k - 1;
        proof {
            assert(reversed@.subrange(k as int, reversed@.len() as int).reverse() =~= reversed@.subrange(
                k + 1,
                reversed@.len() as int,
            ).reverse().push(reversed@[k as int]));
        }
        path.push(reversed[k]);
    }
    proof {
        assert(reversed@.subrange(0, reversed@.len() as int) =~= reversed@);
    }
    path
}

/// The declarations a lowered procedure works with (its parameters and the
/// bindings its operations name), as alignment candidates. Parameters and
/// locals of one procedure share the local lexical role, so that a
/// declaration may move between the parameter list and the body.
pub fn alignable_bindings(index: &TypeScriptBindingIndex, procedure: &ProcedureIr) -> (res: Vec<
    AlignableBinding,
>)
    requires
        index_wf(*index),
    ensures
        res@.len() <= index.bindings@.len(),
{
    let mut res: Vec<AlignableBinding> = Vec::new();
    let mut k: usize = 0;
    while k < index.bindings.len()
        invariant
            index_wf(*index),
            k <= index.bindings@.len(),
            res@.len() <= k,
        decreases index.bindings.len() - k,
    {
        let binding = &index.bindings[k];
        let mut used = false;
        let mut p: usize = 0;
        while p < procedure.parameters.len()
            invariant
                p <= procedure.parameters@.len(),
            decreases procedure.parameters.len() - p,
        {
            if procedure.parameters[p].binding.same(&binding.id) {
                used = true;
            }
            p = p + 1;
        }
        let mut i: usize = 0;
        while i < procedure.nodes.len() && !used
            invariant
                i <= procedure.nodes@.len(),
            decreases procedure.nodes.len() - i,
        {
            if operation_mentions(&procedure.nodes[i].operation, &binding.id) {
                used = true;
            }
            i = i + 1;
        }
        if used {
            res.push(
                AlignableBinding {
                    id: binding.id.clone(),
                    name: binding.name.clone(),
                    role: AlignableBindingRole::Local,
                    declaration: binding.declaration.clone(),
                    enclosing_symbol: match &binding.enclosing_symbol {
                        Some(s) => Some(s.clone()),
                        None => None,
                    },
                    scope_path: scope_path(index, binding.scope),
                },
            );
        }
        k = k + 1;
    }
    res
}

/// Lowers the procedure that contains a selected binding: the innermost
/// function-like construct around its declaration, or the whole program.
pub fn lower_containing_procedure(
    source: &str,
    index: &TypeScriptBindingIndex,
    selected_binding: &BindingId,
) -> (res: Result<TypeScriptLoweringResult, TypeScriptLoweringError>)
    requires
        index_wf(*index),
    ensures
        selected_binding.snapshot@ != index.snapshot@ ==> res == Err::<
            TypeScriptLoweringResult,
            TypeScriptLoweringError,
        >(TypeScriptLoweringError::SnapshotMismatch),
        selected_binding.snapshot@ == index.snapshot@ && !(exists|k: int|
            0 <= k < index.bindings.len() && (#[trigger] index.bindings@[k]).id@ == selected_binding@)
            ==> res == Err::<TypeScriptLoweringResult, TypeScriptLoweringError>(
            TypeScriptLoweringError::MissingSelectedBinding,
        ),
        res matches Ok(r) ==> {
            &&& ir_valid(r.procedure)
            &&& r.selected_binding == *selected_binding
            &&& exists|k: int|
                0 <= k < index.bindings.len() && (#[trigger] index.bindings@[k]).id@ == selected_binding@
        },
{
    if !selected_binding.snapshot.same(&index.snapshot) {
        return Err(TypeScriptLoweringError::SnapshotMismatch);
    }
    let mut found: Option<usize> = None;
    let mut k: usize = 0;
    while k < index.bindings.len()
        invariant
            k <= index.bindings@.len(),
            found is None ==> forall|j: int| 0 <= j < k ==> (#[trigger] index.bindings@[j]).id@ != selected_binding@,
            found matches Some(f) ==> f < index.bindings@.len() && index.bindings@[f as int].id@ == selected_binding@,
        decreases index.bindings.len() - k,
    {
        if found.is_none() && index.bindings[k].id.same(selected_binding) {
            found = Some(k);
        }
        k = k + 1;
    }
    let selected = match found {
        Some(f) => &index.bindings[f],
        None => {
            return Err(TypeScriptLoweringError::MissingSelectedBinding);
        },
    };
    let tree = match parse_syntax(source, index.grammar) {
        Ok(tree) => tree,
        Err(message) => {
            return Err(TypeScriptLoweringError::Parse(message));
        },
    };
    if tree.nodes[0].has_error {
        return Err(TypeScriptLoweringError::Parse(String::from_str("source contains a syntax error")));
    }
    let declaration = match find_exact_node(
        &tree,
        selected.declaration.byte_start as usize,
        selected.declaration.byte_end as usize,
        SyntaxKind::Identifier,
    ) {
        Some(declaration) => declaration,
        None => {
            return Err(TypeScriptLoweringError::MissingSelectedBinding);
        },
    };
    let container = containing_procedure(&tree, declaration);
    let ordinal = procedure_ordinal(&tree, container);
    let scope = procedure_scope(index, selected.scope);
    let mut lowerer = Lowerer::new(source, index, &tree, ordinal, scope);
    lowerer.lower(container);
    lowerer.finish(selected_binding.clone())
}

} // verus!
