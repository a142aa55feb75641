//! TypeScript parsing and lexical binding for the scalar subset.
use vstd::prelude::*;
use crate::ifds::model::{
    BindingId, BindingSelector, Diagnostic, DiagnosticCode, InputError, SnapshotId, SourceSpan,
    insert_diagnostic,
};

pub mod syntax;
pub mod lowering;

pub use syntax::TypeScriptGrammar;
pub use lowering::{
    alignable_bindings, lower_containing_procedure, TypeScriptLoweringError,
    TypeScriptLoweringResult,
};
use syntax::{SyntaxKind, SyntaxTree, tree_wf, parse_syntax, source_text};

verus! {

#[derive(Debug, Clone, Copy, PartialEq, Eq, PartialOrd, Ord, Hash, Structural)]
pub struct ScopeId(pub u64);

#[derive(Debug, Clone, Copy, PartialEq, Eq, Structural)]
pub enum ScopeKind {
    Program,
    Function,
    Block,
}

#[derive(Debug, Clone, PartialEq, Eq)]
pub struct LexicalScope {
    pub id: ScopeId,
    pub parent: Option<ScopeId>,
    pub kind: ScopeKind,
    pub span: SourceSpan,
    pub enclosing_symbol: Option<String>,
}

#[derive(Debug, Clone, Copy, PartialEq, Eq, Structural)]
pub enum BindingKind {
    Let,
    Const,
    Parameter,
}

#[derive(Debug, Clone, PartialEq, Eq)]
pub struct LexicalBinding {
    pub id: BindingId,
    pub name: String,
    pub kind: BindingKind,
    pub declaration: SourceSpan,
    pub scope: ScopeId,
    pub enclosing_symbol: Option<String>,
}

#[derive(Debug, Clone, PartialEq, Eq)]
pub struct BindingReference {
    pub name: String,
    pub span: SourceSpan,
    pub scope: ScopeId,
    pub binding: Option<BindingId>,
}

#[derive(Debug, Clone, PartialEq, Eq)]
pub struct TypeScriptBindingIndex {
    pub snapshot: SnapshotId,
    pub path: String,
    pub grammar: TypeScriptGrammar,
    pub scopes: Vec<LexicalScope>,
    pub bindings: Vec<LexicalBinding>,
    pub references: Vec<BindingReference>,
    pub diagnostics: Vec<Diagnostic>,
}

/// Scopes are numbered by position, the program scope comes first, every
/// other scope's parent comes before it, and bindings and references name
/// existing scopes; bindings are numbered from one in the index's snapshot.
pub open spec fn scopes_wf(scopes: Seq<LexicalScope>) -> bool {
    &&& scopes.len() > 0
    &&& scopes[0].parent is None
    &&& scopes[0].kind == ScopeKind::Program
    &&& forall|i: int| 0 <= i < scopes.len() ==> (#[trigger] scopes[i]).id.0 == i
    &&& forall|i: int|
        0 < i < scopes.len() ==> ((#[trigger] scopes[i]).parent matches Some(p) && p.0 < i)
}

/// A binding of the name declared directly in the scope.
pub open spec fn declares_name(b: LexicalBinding, scope: ScopeId, name: Seq<char>) -> bool {
    b.scope == scope && b.name@ == name
}

/// How many bindings declare the name directly in the scope.
pub open spec fn declaration_count(bindings: Seq<LexicalBinding>, scope: ScopeId, name: Seq<char>) -> nat
    decreases bindings.len(),
{
    if bindings.len() == 0 {
        0
    } else {
        declaration_count(bindings.drop_last(), scope, name) + (if declares_name(bindings.last(), scope, name) {
            1nat
        } else {
            0nat
        })
    }
}

pub open spec fn index_wf(index: TypeScriptBindingIndex) -> bool {
    &&& scopes_wf(index.scopes@)
    &&& forall|k: int|
        0 <= k < index.bindings.len() ==> {
            &&& (#[trigger] index.bindings@[k]).scope.0 < index.scopes.len()
            &&& index.bindings@[k].id.snapshot == index.snapshot
            &&& index.bindings@[k].id.local == k + 1
        }
    &&& forall|k: int|
        0 <= k < index.references.len() ==> (#[trigger] index.references@[k]).scope.0
            < index.scopes.len()
}

#[derive(Debug, Clone, PartialEq, Eq)]
pub enum TypeScriptAdapterError {
    UnsupportedFileKind(String),
    Parser(String),
}

// ---------------------------------------------------------------------------
// Selectors.

/// A binding declared exactly at a byte range.
pub open spec fn declared_at(b: LexicalBinding, start: u64, end: u64) -> bool {
    b.declaration.byte_start == start && b.declaration.byte_end == end
}

/// What resolving a selector gives: the one binding declared exactly at the
/// selector's range, when the selector names the index's snapshot and path
/// and its expectations (name, enclosing symbol) hold.
pub open spec fn selector_resolves_to(
    index: TypeScriptBindingIndex,
    selector: BindingSelector,
    k: int,
) -> bool {
    &&& selector.snapshot@ == index.snapshot@
    &&& selector.declaration.path@ == index.path@
    &&& 0 <= k < index.bindings.len()
    &&& declared_at(
        index.bindings@[k],
        selector.declaration.byte_start,
        selector.declaration.byte_end,
    )
    &&& forall|j: int|
        0 <= j < index.bindings.len() && j != k ==> !declared_at(
            #[trigger] index.bindings@[j],
            selector.declaration.byte_start,
            selector.declaration.byte_end,
        )
    &&& selector.expected_name matches Some(n) ==> n@ == index.bindings@[k].name@
    &&& selector.expected_enclosing_symbol matches Some(s) ==> (
    index.bindings@[k].enclosing_symbol matches Some(e) && e@ == s@)
}

impl TypeScriptBindingIndex {
    /// Finds the declaration a selector names. Refuses selectors for another
    /// snapshot or path, ranges that declare nothing or more than one
    /// binding, and stale expectations.
    pub fn resolve_selector(&self, selector: &BindingSelector) -> (res: Result<
        &LexicalBinding,
        InputError,
    >)
        ensures
            res matches Ok(b) ==> exists|k: int|
                selector_resolves_to(*self, *selector, k) && *b == self.bindings@[k],
            (exists|k: int| selector_resolves_to(*self, *selector, k)) ==> res is Ok,
            selector.snapshot@ != self.snapshot@ ==> (res matches Err(e) && e is SnapshotMismatch),
            selector.snapshot@ == self.snapshot@ && res is Err ==> res->Err_0 is InvalidSelector,
    {
        if !selector.snapshot.same(&self.snapshot) {
            return Err(
                InputError::SnapshotMismatch(
                    String::from_str("selector snapshot does not match the binding index"),
                ),
            );
        }
        if selector.declaration.path != self.path {
            return Err(
                InputError::InvalidSelector(
                    String::from_str("selector path does not match the indexed path"),
                ),
            );
        }
        let start = selector.declaration.byte_start;
        let end = selector.declaration.byte_end;
        let mut found: Option<usize> = None;
        let mut k: usize = 0;
        while k < self.bindings.len()
            invariant
                k <= self.bindings@.len(),
                selector.snapshot@ == self.snapshot@,
                selector.declaration.path@ == self.path@,
                start == selector.declaration.byte_start,
                end == selector.declaration.byte_end,
                match found {
                    Some(f) => f < k && declared_at(self.bindings@[f as int], start, end) && forall|j: int|
                        0 <= j < k && j != f ==> !declared_at(#[trigger] self.bindings@[j], start, end),
                    None => forall|j: int| 0 <= j < k ==> !declared_at(#[trigger] self.bindings@[j], start, end),
                },
            decreases self.bindings.len() - k,
        {
            if self.bindings[k].declaration.byte_start == start && self.bindings[k].declaration.byte_end
                == end {
                if found.is_some() {
                    proof {
                        let f = found->0;
                        assert forall|j: int| !selector_resolves_to(*self, *selector, j) by {
                            if selector_resolves_to(*self, *selector, j) {
                                if j != f as int {
                                    assert(!declared_at(self.bindings@[f as int], start, end));
                                } else {
                                    assert(!declared_at(self.bindings@[k as int], start, end));
                                }
                            }
                        }
                    }
                    return Err(
                        InputError::InvalidSelector(
                            String::from_str("selector identifies multiple declarations"),
                        ),
                    );
                }
                found = Some(k);
            }
            k = k + 1;
        }
        let f = match found {
            Some(f) => f,
            None => {
                let mut is_reference = false;
                let mut r: usize = 0;
                while r < self.references.len()
                    invariant
                        r <= self.references@.len(),
                    decreases self.references.len() - r,
                {
                    if self.references[r].span.byte_start == start && self.references[r].span.byte_end
                        == end {
                        is_reference = true;
                    }
                    r = r + 1;
                }
                if is_reference {
                    return Err(
                        InputError::InvalidSelector(
                            String::from_str(
                                "selector points to a reference occurrence, not a declaration",
                            ),
                        ),
                    );
                }
                return Err(
                    InputError::InvalidSelector(
                        String::from_str("selector does not identify a supported declaration"),
                    ),
                );
            },
        };
        let binding = &self.bindings[f];
        if let Some(expected) = &selector.expected_name {
            if *expected != binding.name {
                return Err(
                    InputError::InvalidSelector(
                        String::from_str("stale selector: the declaration name differs"),
                    ),
                );
            }
        }
        if let Some(expected) = &selector.expected_enclosing_symbol {
            let matches_symbol = match &binding.enclosing_symbol {
                Some(symbol) => *symbol == *expected,
                None => false,
            };
            if !matches_symbol {
                return Err(
                    InputError::InvalidSelector(
                        String::from_str("stale selector: the enclosing symbol differs"),
                    ),
                );
            }
        }
        proof {
            assert(selector_resolves_to(*self, *selector, f as int));
        }
        Ok(binding)
    }
}

// ---------------------------------------------------------------------------
// Grammar selection.

/// The extension `std::path::Path::extension` finds in a path.
pub uninterp spec fn path_extension(path: Seq<char>) -> Option<Seq<char>>;

/// `Path::extension` of a path, when it is valid text.
#[verifier::external_body]
fn extension_of(path: &str) -> (res: Option<String>)
    ensures
        match res {
            Some(e) => path_extension(path@) == Some(e@),
            None => path_extension(path@) is None,
        },
{
    std::path::Path::new(path).extension().and_then(|value| value.to_str()).map(|value| value.to_owned())
}

/// `.ts` files use the TypeScript grammar and `.tsx` files the TSX grammar;
/// every other path is refused.
pub fn grammar_for_path(path: &str) -> (res: Result<TypeScriptGrammar, TypeScriptAdapterError>)
    ensures
        path_extension(path@) == Some("ts"@) ==> res == Ok::<_, TypeScriptAdapterError>(
            TypeScriptGrammar::TypeScript,
        ),
        path_extension(path@) == Some("tsx"@) ==> res == Ok::<_, TypeScriptAdapterError>(
            TypeScriptGrammar::Tsx,
        ),
        path_extension(path@) != Some("ts"@) && path_extension(path@) != Some("tsx"@) ==> (
        res matches Err(e) && e matches TypeScriptAdapterError::UnsupportedFileKind(p) && p@ == path@),
{
    proof {
        reveal_strlit("ts");
        reveal_strlit("tsx");
        assert("ts"@.len() == 2 && "tsx"@.len() == 3);
        assert("ts"@ != "tsx"@);
    }
    match extension_of(path) {
        Some(extension) => {
            if syntax::str_equal(extension.as_str(), "ts") {
                return Ok(TypeScriptGrammar::TypeScript);
            }
            if syntax::str_equal(extension.as_str(), "tsx") {
                return Ok(TypeScriptGrammar::Tsx);
            }
            Err(TypeScriptAdapterError::UnsupportedFileKind(path.to_owned()))
        },
        None => Err(TypeScriptAdapterError::UnsupportedFileKind(path.to_owned())),
    }
}

// ---------------------------------------------------------------------------
// Reading the tree.

/// Whether a node kind starts a function-like construct.
pub open spec fn function_like(kind: SyntaxKind) -> bool {
    kind == SyntaxKind::FunctionDeclaration || kind == SyntaxKind::FunctionExpression || kind
        == SyntaxKind::GeneratorFunctionDeclaration || kind == SyntaxKind::GeneratorFunction || kind
        == SyntaxKind::ArrowFunction || kind == SyntaxKind::MethodDefinition
}

pub fn is_function_like(kind: SyntaxKind) -> (res: bool)
    ensures
        res == function_like(kind),
{
    match kind {
        SyntaxKind::FunctionDeclaration | SyntaxKind::FunctionExpression
        | SyntaxKind::GeneratorFunctionDeclaration | SyntaxKind::GeneratorFunction
        | SyntaxKind::ArrowFunction | SyntaxKind::MethodDefinition => true,
        _ => false,
    }
}

/// A child of node `n`, by position among its children.
pub open spec fn child_of(t: SyntaxTree, n: int, c: int) -> bool {
    exists|k: int| 0 <= k < t.children@[n]@.len() && t.children@[n]@[k] == c
}

/// Whether a node carries the given field name.
pub open spec fn field_is(t: SyntaxTree, c: int, name: Seq<char>) -> bool {
    t.nodes@[c].field matches Some(f) && f@ == name
}

/// The first child that the parent holds under field `name`.
pub fn child_by_field(t: &SyntaxTree, n: usize, name: &str) -> (res: Option<usize>)
    requires
        tree_wf(*t),
        n < t.nodes.len(),
    ensures
        res matches Some(c) ==> n < c < t.nodes.len() && child_of(*t, n as int, c as int),
        match res {
            Some(c) => exists|i: int|
                0 <= i < t.children@[n as int]@.len() && t.children@[n as int]@[i] == c && field_is(*t, c as int, name@)
                    && forall|j: int| 0 <= j < i ==> !field_is(*t, #[trigger] t.children@[n as int]@[j] as int, name@),
            None => forall|j: int|
                0 <= j < t.children@[n as int]@.len() ==> !field_is(*t, #[trigger] t.children@[n as int]@[j] as int, name@),
        },
{
    let kids = &t.children[n];
    let mut k: usize = 0;
    while k < kids.len()
        invariant
            tree_wf(*t),
            n < t.nodes.len(),
            kids == t.children@[n as int],
            k <= kids@.len(),
            forall|j: int| 0 <= j < k ==> !field_is(*t, #[trigger] t.children@[n as int]@[j] as int, name@),
        decreases kids.len() - k,
    {
        let c = kids[k];
        assert(n < t.children@[n as int]@[k as int] < t.nodes.len());
        match &t.nodes[c].field {
            Some(field) => {
                if syntax::str_equal(field.as_str(), name) {
                    return Some(c);
                }
            },
            None => {},
        }
        k = k + 1;
    }
    None
}

/// The named children of a node, in order.
pub fn named_children(t: &SyntaxTree, n: usize) -> (res: Vec<usize>)
    requires
        tree_wf(*t),
        n < t.nodes.len(),
    ensures
        forall|k: int| 0 <= k < res@.len() ==> n < #[trigger] res@[k] < t.nodes.len() && child_of(*t, n as int, res@[k] as int),
        res@ == t.children@[n as int]@.filter(|c: usize| t.nodes@[c as int].named),
{
    let kids = &t.children[n];
    let mut res: Vec<usize> = Vec::new();
    let mut k: usize = 0;
    while k < kids.len()
        invariant
            tree_wf(*t),
            n < t.nodes.len(),
            kids == t.children@[n as int],
            k <= kids@.len(),
            res@ == kids@.take(k as int).filter(|c: usize| t.nodes@[c as int].named),
            forall|j: int| 0 <= j < res@.len() ==> n < #[trigger] res@[j] < t.nodes.len() && child_of(*t, n as int, res@[j] as int),
        decreases kids.len() - k,
    {
        let c = kids[k];
        assert(n < t.children@[n as int]@[k as int] < t.nodes.len());
        proof {
            reveal(Seq::filter);
            assert(kids@.take(k + 1).drop_last() =~= kids@.take(k as int));
            assert(kids@.take(k + 1).last() == c);
        }
        if t.nodes[c].named {
            let ghost before = res@;
            res.push(c);
            proof {
                assert forall|j: int| 0 <= j < res@.len() implies n < #[trigger] res@[j] < t.nodes.len() && child_of(*t, n as int, res@[j] as int) by {
                    if j < before.len() {
                        assert(res@[j] == before[j]);
                    } else {
                        assert(t.children@[n as int]@[k as int] == c);
                    }
                }
            }
        }
        k = k + 1;
    }
    proof {
        assert(kids@.take(k as int) =~= kids@);
    }
    res
}

/// The named child at a position among the named children.
pub fn named_child(t: &SyntaxTree, n: usize, position: usize) -> (res: Option<usize>)
    requires
        tree_wf(*t),
        n < t.nodes.len(),
    ensures
        res matches Some(c) ==> n < c < t.nodes.len() && child_of(*t, n as int, c as int),
{
    let named = named_children(t, n);
    if position < named.len() {
        Some(named[position])
    } else {
        None
    }
}

/// The source text of a node (empty when its range is not text of the source).
/// `text` is what the source holds between two byte offsets: the characters
/// whose UTF-8 encoding is that byte range, or nothing when the range does
/// not lie within the source on character boundaries.
pub open spec fn text_between_bytes(source: Seq<char>, start: int, end: int, text: Seq<char>) -> bool {
    let bytes = vstd::utf8::encode_utf8(source);
    if 0 <= start <= end <= bytes.len() && vstd::utf8::is_char_boundary(bytes, start)
        && vstd::utf8::is_char_boundary(bytes, end) {
        vstd::utf8::encode_utf8(text) == bytes.subrange(start, end)
    } else {
        text == Seq::<char>::empty()
    }
}

pub fn node_text(source: &str, t: &SyntaxTree, n: usize) -> (res: String)
    requires
        n < t.nodes.len(),
    ensures
        text_between_bytes(source@, t.nodes@[n as int].start_byte as int, t.nodes@[n as int].end_byte as int, res@),
{
    match source_text(source, t.nodes[n].start_byte, t.nodes[n].end_byte) {
        Some(text) => text,
        None => String::new(),
    }
}

/// A one-based line from a zero-based row.
fn line_of(row: usize) -> (res: u32)
    ensures
        row < u32::MAX ==> res == row + 1,
{
    if row >= u32::MAX as usize {
        u32::MAX
    } else {
        row as u32 + 1
    }
}

/// The line on which a node ends, not counting a final line break.
fn end_line_of(t: &SyntaxTree, n: usize) -> u32
    requires
        n < t.nodes.len(),
{
    let node = &t.nodes[n];
    if node.end_row > node.start_row && node.end_column == 0 {
        if node.end_row >= u32::MAX as usize {
            u32::MAX
        } else {
            node.end_row as u32
        }
    } else {
        line_of(node.end_row)
    }
}

/// The source span of a node.
pub fn node_span(path: &str, t: &SyntaxTree, n: usize) -> (res: SourceSpan)
    requires
        n < t.nodes.len(),
    ensures
        res.path@ == path@,
        res.byte_start == t.nodes@[n as int].start_byte,
        res.byte_end == t.nodes@[n as int].end_byte,
{
    SourceSpan {
        path: path.to_owned(),
        byte_start: t.nodes[n].start_byte as u64,
        byte_end: t.nodes[n].end_byte as u64,
        start_line: line_of(t.nodes[n].start_row),
        end_line: end_line_of(t, n),
    }
}

/// Removes quotes from both ends of a text.
/// A quote character.
pub open spec fn quote_char(c: char) -> bool {
    c == '\'' || c == '"'
}

/// The text without its leading quotes.
pub open spec fn without_leading_quotes(s: Seq<char>) -> Seq<char>
    decreases s.len(),
{
    if s.len() > 0 && quote_char(s[0]) {
        without_leading_quotes(s.drop_first())
    } else {
        s
    }
}

/// The text without its trailing quotes.
pub open spec fn without_trailing_quotes(s: Seq<char>) -> Seq<char>
    decreases s.len(),
{
    if s.len() > 0 && quote_char(s.last()) {
        without_trailing_quotes(s.drop_last())
    } else {
        s
    }
}

fn trim_quotes(text: &str) -> (res: String)
    ensures
        res@ == without_trailing_quotes(without_leading_quotes(text@)),
{
    let n = text.unicode_len();
    let mut start: usize = 0;
    proof {
        assert(text@.subrange(0, n as int) =~= text@);
    }
    while start < n && (text.get_char(start) == '\'' || text.get_char(start) == '"')
        invariant
            n == text@.len(),
            start <= n,
            without_leading_quotes(text@) == without_leading_quotes(text@.subrange(start as int, n as int)),
        decreases n - start,
    {
        proof {
            let rest = text@.subrange(start as int, n as int);
            assert(rest[0] == text@[start as int]);
            assert(rest.drop_first() =~= text@.subrange(start + 1, n as int));
        }
        start = start + 1;
    }
    proof {
        let rest = text@.subrange(start as int, n as int);
        if start < n {
            assert(rest[0] == text@[start as int]);
        }
        assert(without_leading_quotes(rest) == rest);
    }
    let mut end: usize = n;
    while end > start && (text.get_char(end - 1) == '\'' || text.get_char(end - 1) == '"')
        invariant
            n == text@.len(),
            start <= end <= n,
            without_trailing_quotes(text@.subrange(start as int, n as int)) == without_trailing_quotes(
                text@.subrange(start as int, end as int),
            ),
        decreases end,
    {
        proof {
            let rest = text@.subrange(start as int, end as int);
            assert(rest.last() == text@[end - 1]);
            assert(rest.drop_last() =~= text@.subrange(start as int, end - 1));
        }
        end = end - 1;
    }
    proof {
        let rest = text@.subrange(start as int, end as int);
        if end > start {
            assert(rest.last() == text@[end - 1]);
        }
        assert(without_trailing_quotes(rest) == rest);
    }
    text.substring_char(start, end).to_owned()
}

/// The symbol a function-like node declares: its name, or the variable an
/// arrow function initializes.
fn function_symbol(source: &str, t: &SyntaxTree, n: usize) -> Option<String>
    requires
        tree_wf(*t),
        n < t.nodes.len(),
{
    if let Some(name) = child_by_field(t, n, "name") {
        let text = node_text(source, t, name);
        return Some(trim_quotes(text.as_str()));
    }
    if t.nodes[n].kind == SyntaxKind::ArrowFunction {
        if let Some(parent) = t.nodes[n].parent {
            if parent < t.nodes.len() && t.nodes[parent].kind == SyntaxKind::VariableDeclarator {
                if let Some(name) = child_by_field(t, parent, "name") {
                    if t.nodes[name].kind == SyntaxKind::Identifier {
                        return Some(node_text(source, t, name));
                    }
                }
            }
        }
    }
    None
}

// ---------------------------------------------------------------------------
// Building the index.

struct IndexBuilder<'a> {
    snapshot: SnapshotId,
    path: &'a str,
    source: &'a str,
    tree: &'a SyntaxTree,
    grammar: TypeScriptGrammar,
    scopes: Vec<LexicalScope>,
    bindings: Vec<LexicalBinding>,
    references: Vec<BindingReference>,
    diagnostics: Vec<Diagnostic>,
    scope_starts: Vec<Option<ScopeId>>,
    declarations: Vec<bool>,
    ignored_identifiers: Vec<bool>,
    jsx_boundaries: Vec<bool>,
}

impl<'a> IndexBuilder<'a> {
    spec fn wf(&self) -> bool {
        &&& tree_wf(*self.tree)
        &&& scopes_wf(self.scopes@)
        &&& self.scope_starts@.len() == self.tree.nodes.len()
        &&& self.declarations@.len() == self.tree.nodes.len()
        &&& self.ignored_identifiers@.len() == self.tree.nodes.len()
        &&& self.jsx_boundaries@.len() == self.tree.nodes.len()
        &&& forall|n: int|
            0 <= n < self.scope_starts@.len() ==> ((#[trigger] self.scope_starts@[n]) matches Some(
                s,
            ) ==> s.0 < self.scopes.len())
        &&& forall|k: int|
            0 <= k < self.bindings.len() ==> {
                &&& (#[trigger] self.bindings@[k]).scope.0 < self.scopes.len()
                &&& self.bindings@[k].id.snapshot == self.snapshot
                &&& self.bindings@[k].id.local == k + 1
            }
        &&& forall|k: int|
            0 <= k < self.references.len() ==> (#[trigger] self.references@[k]).scope.0
                < self.scopes.len()
    }

    spec fn grows(&self, old: &Self) -> bool {
        &&& self.snapshot == old.snapshot
        &&& self.path == old.path
        &&& self.source == old.source
        &&& self.tree == old.tree
        &&& self.grammar == old.grammar
        &&& self.scopes.len() >= old.scopes.len()
    }

    fn new(
        snapshot: SnapshotId,
        path: &'a str,
        source: &'a str,
        tree: &'a SyntaxTree,
        grammar: TypeScriptGrammar,
    ) -> (res: Self)
        requires
            tree_wf(*tree),
        ensures
            res.wf(),
            res.snapshot == snapshot,
            res.path == path,
            res.grammar == grammar,
            res.tree == tree,
    {
        let n = tree.nodes.len();
        let mut scope_starts: Vec<Option<ScopeId>> = Vec::new();
        let mut declarations: Vec<bool> = Vec::new();
        let mut ignored: Vec<bool> = Vec::new();
        let mut jsx: Vec<bool> = Vec::new();
        let mut i: usize = 0;
        while i < n
            invariant
                i <= n,
                scope_starts@.len() == i,
                declarations@.len() == i,
                ignored@.len() == i,
                jsx@.len() == i,
                forall|j: int| 0 <= j < i ==> (#[trigger] scope_starts@[j]) is None,
            decreases n - i,
        {
            scope_starts.push(None);
            declarations.push(false);
            ignored.push(false);
            jsx.push(false);
            i = i + 1;
        }
        let span = node_span(path, tree, 0);
        let mut scopes: Vec<LexicalScope> = Vec::new();
        scopes.push(
            LexicalScope {
                id: ScopeId(0),
                parent: None,
                kind: ScopeKind::Program,
                span,
                enclosing_symbol: None,
            },
        );
        IndexBuilder {
            snapshot,
            path,
            source,
            tree,
            grammar,
            scopes,
            bindings: Vec::new(),
            references: Vec::new(),
            diagnostics: Vec::new(),
            scope_starts,
            declarations,
            ignored_identifiers: ignored,
            jsx_boundaries: jsx,
        }
    }

    fn finish(self) -> (res: TypeScriptBindingIndex)
        requires
            self.wf(),
        ensures
            index_wf(res),
            res.snapshot == self.snapshot,
            res.path@ == self.path@,
            res.grammar == self.grammar,
    {
        let mut diagnostics: Vec<Diagnostic> = Vec::new();
        let mut k: usize = 0;
        while k < self.diagnostics.len()
            invariant
                k <= self.diagnostics@.len(),
            decreases self.diagnostics.len() - k,
        {
            insert_diagnostic(&mut diagnostics, self.diagnostics[k].clone());
            k = k + 1;
        }
        TypeScriptBindingIndex {
            snapshot: self.snapshot,
            path: self.path.to_owned(),
            grammar: self.grammar,
            scopes: self.scopes,
            bindings: self.bindings,
            references: self.references,
            diagnostics,
        }
    }

    fn push_diagnostic(&mut self, code: DiagnosticCode, message: &str, n: usize)
        requires
            old(self).wf(),
            n < old(self).tree.nodes.len(),
        ensures
            final(self).wf(),
            final(self).grows(old(self)),
            final(self).scopes == old(self).scopes,
            final(self).bindings == old(self).bindings,
            final(self).references == old(self).references,
            final(self).scope_starts == old(self).scope_starts,
            final(self).declarations == old(self).declarations,
            final(self).ignored_identifiers == old(self).ignored_identifiers,
            final(self).diagnostics@.len() == old(self).diagnostics@.len() + 1,
            final(self).diagnostics@.take(old(self).diagnostics@.len() as int) == old(self).diagnostics@,
            final(self).diagnostics@.last().code == code,
            final(self).diagnostics@.last().message@ == message@,
            final(self).diagnostics@.last().snapshot == Some(old(self).snapshot),
            final(self).diagnostics@.last().frontier is None,
            final(self).diagnostics@.last().span is Some,
            final(self).diagnostics@.last().affected_flows@.len() == 0,
    {
        let span = node_span(self.path, self.tree, n);
        self.diagnostics.push(
            Diagnostic {
                code,
                message: message.to_owned(),
                snapshot: Some(self.snapshot.clone()),
                frontier: None,
                span: Some(span),
                affected_flows: Vec::new(),
            },
        );
    }

    fn scope_symbol(&self, scope: ScopeId) -> Option<String>
        requires
            self.wf(),
            scope.0 < self.scopes.len(),
    {
        match &self.scopes[scope.0 as usize].enclosing_symbol {
            Some(s) => Some(s.clone()),
            None => None,
        }
    }

    fn new_scope(&mut self, n: usize, parent: ScopeId, kind: ScopeKind, symbol: Option<String>) -> (res:
        ScopeId)
        requires
            old(self).wf(),
            n < old(self).tree.nodes.len(),
            parent.0 < old(self).scopes.len(),
        ensures
            final(self).wf(),
            final(self).grows(old(self)),
            res.0 < final(self).scopes.len(),
            final(self).bindings == old(self).bindings,
            final(self).references == old(self).references,
            final(self).declarations == old(self).declarations,
            final(self).ignored_identifiers == old(self).ignored_identifiers,
            res.0 == old(self).scopes@.len(),
            final(self).scopes@ == old(self).scopes@.push(final(self).scopes@.last()),
            final(self).scopes@.last().id == res,
            final(self).scopes@.last().parent == Some(parent),
            final(self).scopes@.last().kind == kind,
            final(self).scopes@.last().enclosing_symbol == symbol,
    {
        let id = ScopeId(self.scopes.len() as u64);
        let span = node_span(self.path, self.tree, n);
        let ghost before = self.scopes@;
        self.scopes.push(LexicalScope { id, parent: Some(parent), kind, span, enclosing_symbol: symbol });
        self.scope_starts.set(n, Some(id));
        proof {
            assert forall|i: int| 0 <= i < self.scopes@.len() implies (#[trigger] self.scopes@[i]).id.0 == i by {
                if i < before.len() {
                    assert(self.scopes@[i] == before[i]);
                }
            }
            assert forall|i: int|
                0 < i < self.scopes@.len() implies ((#[trigger] self.scopes@[i]).parent matches Some(p) && p.0 < i) by {
                if i < before.len() {
                    assert(self.scopes@[i] == before[i]);
                }
            }
        }
        id
    }

    fn add_binding(&mut self, n: usize, scope: ScopeId, kind: BindingKind)
        requires
            old(self).wf(),
            n < old(self).tree.nodes.len(),
            scope.0 < old(self).scopes.len(),
        ensures
            final(self).wf(),
            final(self).grows(old(self)),
            final(self).scopes == old(self).scopes,
            final(self).references == old(self).references,
            final(self).scope_starts == old(self).scope_starts,
            final(self).ignored_identifiers == old(self).ignored_identifiers,
    {
        if self.bindings.len() as u64 >= u64::MAX {
            return;
        }
        self.declarations.set(n, true);
        let name = node_text(self.source, self.tree, n);
        let local = self.bindings.len() as u64 + 1;
        let id = BindingId::new(self.snapshot.clone(), local);
        let declaration = node_span(self.path, self.tree, n);
        let enclosing_symbol = self.scope_symbol(scope);
        let ghost before = self.bindings@;
        self.bindings.push(LexicalBinding { id, name, kind, declaration, scope, enclosing_symbol });
        proof {
            assert forall|k: int| 0 <= k < self.bindings.len() implies {
                &&& (#[trigger] self.bindings@[k]).scope.0 < self.scopes.len()
                &&& self.bindings@[k].id.snapshot == self.snapshot
                &&& self.bindings@[k].id.local == k + 1
            } by {
                if k < before.len() {
                    assert(self.bindings@[k] == before[k]);
                }
            }
        }
    }

    fn ignore_identifier_tree(&mut self, n: usize)
        requires
            old(self).wf(),
            n < old(self).tree.nodes.len(),
        ensures
            final(self).wf(),
            final(self).grows(old(self)),
            final(self).scopes == old(self).scopes,
            final(self).bindings == old(self).bindings,
            final(self).references == old(self).references,
            final(self).scope_starts == old(self).scope_starts,
            final(self).declarations == old(self).declarations,
        decreases old(self).tree.nodes.len() - n,
    {
        if self.tree.nodes[n].kind == SyntaxKind::Identifier {
            self.ignored_identifiers.set(n, true);
        }
        let named = named_children(self.tree, n);
        let mut k: usize = 0;
        while k < named.len()
            invariant
                self.wf(),
                self.grows(old(self)),
                self.scopes == old(self).scopes,
                self.bindings == old(self).bindings,
                self.references == old(self).references,
                self.scope_starts == old(self).scope_starts,
                self.declarations == old(self).declarations,
                n < self.tree.nodes.len(),
                forall|j: int| 0 <= j < named@.len() ==> n < #[trigger] named@[j] < self.tree.nodes.len(),
                k <= named@.len(),
            decreases named.len() - k,
        {
            self.ignore_identifier_tree(named[k]);
            k = k + 1;
        }
    }

    fn unsupported_binding(&mut self, n: usize, message: &str)
        requires
            old(self).wf(),
            n < old(self).tree.nodes.len(),
        ensures
            final(self).wf(),
            final(self).grows(old(self)),
            final(self).scopes == old(self).scopes,
            final(self).bindings == old(self).bindings,
            final(self).references == old(self).references,
            final(self).scope_starts == old(self).scope_starts,
            final(self).declarations == old(self).declarations,
    {
        self.ignore_identifier_tree(n);
        self.push_diagnostic(DiagnosticCode::UnsupportedSyntax, message, n);
    }

    fn collect_parse_errors(&mut self, n: usize)
        requires
            old(self).wf(),
            n < old(self).tree.nodes.len(),
        ensures
            final(self).wf(),
            final(self).grows(old(self)),
            final(self).scopes == old(self).scopes,
            final(self).bindings == old(self).bindings,
            final(self).references == old(self).references,
        decreases old(self).tree.nodes.len() - n,
    {
        if self.tree.nodes[n].error || self.tree.nodes[n].missing {
            self.push_diagnostic(
                DiagnosticCode::ParseError,
                "TypeScript parse error; lexical bindings were not inferred",
                n,
            );
        }
        let kids = self.tree.children[n].clone();
        assert(kids@ =~= self.tree.children@[n as int]@);
        let mut k: usize = 0;
        while k < kids.len()
            invariant
                self.wf(),
                self.grows(old(self)),
                self.scopes == old(self).scopes,
                self.bindings == old(self).bindings,
                self.references == old(self).references,
                n < self.tree.nodes.len(),
                kids@ == self.tree.children@[n as int]@,
                k <= kids@.len(),
            decreases kids.len() - k,
        {
            let c = kids[k];
            assert(n < self.tree.children@[n as int]@[k as int] < self.tree.nodes.len());
            if self.tree.nodes[c].has_error || self.tree.nodes[c].error || self.tree.nodes[c].missing {
                self.collect_parse_errors(c);
            }
            k = k + 1;
        }
    }

    fn collect_declarations(&mut self, n: usize, scope: ScopeId, function_body: bool)
        requires
            old(self).wf(),
            n < old(self).tree.nodes.len(),
            scope.0 < old(self).scopes.len(),
        ensures
            final(self).wf(),
            final(self).grows(old(self)),
            final(self).references == old(self).references,
        decreases old(self).tree.nodes.len() - n, 1nat,
    {
        let kind = self.tree.nodes[n].kind;
        if kind == SyntaxKind::Jsx {
            if !self.jsx_boundaries[n] {
                self.jsx_boundaries.set(n, true);
                self.push_diagnostic(
                    DiagnosticCode::UnsupportedSyntax,
                    "JSX parsed successfully but its execution semantics are not modeled",
                    n,
                );
            }
            return;
        }
        if is_function_like(kind) {
            self.collect_function(n, scope);
            return;
        }
        let scope = if kind == SyntaxKind::StatementBlock && !function_body {
            let symbol = self.scope_symbol(scope);
            self.new_scope(n, scope, ScopeKind::Block, symbol)
        } else {
            scope
        };
        if kind == SyntaxKind::LexicalDeclaration {
            self.collect_lexical_declaration(n, scope);
        } else if kind == SyntaxKind::VariableDeclaration {
            self.push_diagnostic(
                DiagnosticCode::UnsupportedSyntax,
                "var declarations and hoisting semantics are not supported",
                n,
            );
        }
        let kids = self.tree.children[n].clone();
        assert(kids@ =~= self.tree.children@[n as int]@);
        let mut k: usize = 0;
        while k < kids.len()
            invariant
                self.wf(),
                self.grows(old(self)),
                self.references == old(self).references,
                n < self.tree.nodes.len(),
                scope.0 < self.scopes.len(),
                kids@ == self.tree.children@[n as int]@,
                k <= kids@.len(),
            decreases kids.len() - k,
        {
            let c = kids[k];
            assert(n < self.tree.children@[n as int]@[k as int] < self.tree.nodes.len());
            self.collect_declarations(c, scope, false);
            k = k + 1;
        }
    }

    fn collect_function(&mut self, n: usize, parent: ScopeId)
        requires
            old(self).wf(),
            n < old(self).tree.nodes.len(),
            parent.0 < old(self).scopes.len(),
        ensures
            final(self).wf(),
            final(self).grows(old(self)),
            final(self).references == old(self).references,
        decreases old(self).tree.nodes.len() - n, 0nat,
    {
        let symbol = function_symbol(self.source, self.tree, n);
        if let Some(name) = child_by_field(self.tree, n, "name") {
            self.ignore_identifier_tree(name);
        }
        let scope = self.new_scope(n, parent, ScopeKind::Function, symbol);
        if let Some(parameter) = child_by_field(self.tree, n, "parameter") {
            if self.tree.nodes[parameter].kind == SyntaxKind::Identifier {
                self.add_binding(parameter, scope, BindingKind::Parameter);
            } else {
                self.unsupported_binding(parameter, "unsupported arrow parameter binding form");
            }
        }
        if let Some(parameters) = child_by_field(self.tree, n, "parameters") {
            let named = named_children(self.tree, parameters);
            let mut k: usize = 0;
            while k < named.len()
                invariant
                    self.wf(),
                    self.grows(old(self)),
                    self.references == old(self).references,
                    scope.0 < self.scopes.len(),
                    forall|j: int| 0 <= j < named@.len() ==> #[trigger] named@[j] < self.tree.nodes.len(),
                    k <= named@.len(),
                decreases named.len() - k,
            {
                self.collect_parameter(named[k], scope);
                k = k + 1;
            }
        }
        if let Some(body) = child_by_field(self.tree, n, "body") {
            self.collect_declarations(body, scope, true);
        }
    }

    fn collect_parameter(&mut self, parameter: usize, scope: ScopeId)
        requires
            old(self).wf(),
            parameter < old(self).tree.nodes.len(),
            scope.0 < old(self).scopes.len(),
        ensures
            final(self).wf(),
            final(self).grows(old(self)),
            final(self).references == old(self).references,
    {
        if self.tree.nodes[parameter].kind != SyntaxKind::RequiredParameter {
            self.unsupported_binding(parameter, "unsupported optional/default parameter form");
            return;
        }
        let name = match child_by_field(self.tree, parameter, "name") {
            Some(name) => Some(name),
            None => child_by_field(self.tree, parameter, "pattern"),
        };
        match name {
            Some(name) => {
                if self.tree.nodes[name].kind == SyntaxKind::Identifier {
                    self.add_binding(name, scope, BindingKind::Parameter);
                } else {
                    self.unsupported_binding(name, "unsupported parameter binding form");
                }
            },
            None => self.unsupported_binding(parameter, "unsupported parameter binding form"),
        }
    }

    fn collect_lexical_declaration(&mut self, declaration: usize, scope: ScopeId)
        requires
            old(self).wf(),
            declaration < old(self).tree.nodes.len(),
            scope.0 < old(self).scopes.len(),
        ensures
            final(self).wf(),
            final(self).grows(old(self)),
            final(self).scopes == old(self).scopes,
            final(self).references == old(self).references,
    {
        let binding_kind = match child_by_field(self.tree, declaration, "kind") {
            Some(k) => if self.tree.nodes[k].kind == SyntaxKind::Const {
                BindingKind::Const
            } else {
                BindingKind::Let
            },
            None => BindingKind::Let,
        };
        let named = named_children(self.tree, declaration);
        let mut k: usize = 0;
        while k < named.len()
            invariant
                self.wf(),
                self.grows(old(self)),
                self.scopes == old(self).scopes,
                self.references == old(self).references,
                scope.0 < self.scopes.len(),
                forall|j: int| 0 <= j < named@.len() ==> #[trigger] named@[j] < self.tree.nodes.len(),
                k <= named@.len(),
            decreases named.len() - k,
        {
            let declarator = named[k];
            if self.tree.nodes[declarator].kind == SyntaxKind::VariableDeclarator {
                if let Some(name) = child_by_field(self.tree, declarator, "name") {
                    if self.tree.nodes[name].kind == SyntaxKind::Identifier {
                        self.add_binding(name, scope, binding_kind);
                    } else {
                        self.unsupported_binding(name, "destructuring bindings are not supported");
                    }
                }
            }
            k = k + 1;
        }
    }

    fn collect_references(&mut self, n: usize, scope: ScopeId, function_body: bool)
        requires
            old(self).wf(),
            n < old(self).tree.nodes.len(),
            scope.0 < old(self).scopes.len(),
        ensures
            final(self).wf(),
            final(self).grows(old(self)),
            final(self).scopes == old(self).scopes,
            final(self).bindings == old(self).bindings,
            final(self).scope_starts == old(self).scope_starts,
            final(self).declarations == old(self).declarations,
            final(self).ignored_identifiers == old(self).ignored_identifiers,
        decreases old(self).tree.nodes.len() - n,
    {
        let kind = self.tree.nodes[n].kind;
        if kind == SyntaxKind::Jsx {
            return;
        }
        let mut scope = match self.scope_starts[n] {
            Some(s) => s,
            None => scope,
        };
        if kind == SyntaxKind::StatementBlock && function_body {
            // A function body's top-level lexical declarations share its parameter scope.
        } else if let Some(block_scope) = self.scope_starts[n] {
            scope = block_scope;
        }
        if kind == SyntaxKind::Identifier && !self.declarations[n] && !self.ignored_identifiers[n] {
            let name = node_text(self.source, self.tree, n);
            let span = node_span(self.path, self.tree, n);
            let ghost before = self.references@;
            self.references.push(BindingReference { name, span, scope, binding: None });
            proof {
                assert forall|k: int| 0 <= k < self.references.len() implies (#[trigger] self.references@[k]).scope.0
                    < self.scopes.len() by {
                    if k < before.len() {
                        assert(self.references@[k] == before[k]);
                    }
                }
            }
        }
        let body = if is_function_like(kind) {
            child_by_field(self.tree, n, "body")
        } else {
            None
        };
        let kids = self.tree.children[n].clone();
        assert(kids@ =~= self.tree.children@[n as int]@);
        let mut k: usize = 0;
        while k < kids.len()
            invariant
                self.wf(),
                self.grows(old(self)),
                self.scopes == old(self).scopes,
                self.bindings == old(self).bindings,
                self.scope_starts == old(self).scope_starts,
                self.declarations == old(self).declarations,
                self.ignored_identifiers == old(self).ignored_identifiers,
                n < self.tree.nodes.len(),
                scope.0 < self.scopes.len(),
                kids@ == self.tree.children@[n as int]@,
                k <= kids@.len(),
            decreases kids.len() - k,
        {
            let c = kids[k];
            assert(n < self.tree.children@[n as int]@[k as int] < self.tree.nodes.len());
            let is_body = match body {
                Some(b) => b == c,
                None => false,
            };
            self.collect_references(c, scope, is_body);
            k = k + 1;
        }
    }

    /// The bindings a scope declares under a name: how many, and the first.
    fn declared(&self, scope: ScopeId, name: &String) -> (res: (usize, Option<BindingId>))
        requires
            self.wf(),
        ensures
            res.0 == declaration_count(self.bindings@, scope, name@),
            match res.1 {
                Some(b) => exists|k: int|
                    0 <= k < self.bindings@.len() && declares_name(self.bindings@[k], scope, name@) && self.bindings@[k].id
                        == b && forall|j: int| 0 <= j < k ==> !declares_name(#[trigger] self.bindings@[j], scope, name@),
                None => forall|j: int| 0 <= j < self.bindings@.len() ==> !declares_name(#[trigger] self.bindings@[j], scope, name@),
            },
    {
        let mut count: usize = 0;
        let mut first: Option<BindingId> = None;
        let mut k: usize = 0;
        while k < self.bindings.len()
            invariant
                k <= self.bindings@.len(),
                count <= k,
                count == declaration_count(self.bindings@.take(k as int), scope, name@),
                first is None <==> count == 0,
                match first {
                    Some(b) => exists|x: int|
                        0 <= x < k && declares_name(self.bindings@[x], scope, name@) && self.bindings@[x].id == b && forall|j: int|
                            0 <= j < x ==> !declares_name(#[trigger] self.bindings@[j], scope, name@),
                    None => forall|j: int| 0 <= j < k ==> !declares_name(#[trigger] self.bindings@[j], scope, name@),
                },
            decreases self.bindings.len() - k,
        {
            proof {
                assert(self.bindings@.take(k + 1).drop_last() =~= self.bindings@.take(k as int));
                assert(self.bindings@.take(k + 1).last() == self.bindings@[k as int]);
            }
            if self.bindings[k].scope == scope && self.bindings[k].name == *name {
                if count == 0 {
                    first = Some(self.bindings[k].id.clone());
                }
                count = count + 1;
            }
            k = k + 1;
        }
        proof {
            assert(self.bindings@.take(k as int) =~= self.bindings@);
        }
        (count, first)
    }

    fn resolve_references(&mut self)
        requires
            old(self).wf(),
        ensures
            final(self).wf(),
            final(self).grows(old(self)),
    {
        let mut pending: Vec<Diagnostic> = Vec::new();
        let mut r: usize = 0;
        while r < self.references.len()
            invariant
                self.wf(),
                self.grows(old(self)),
                r <= self.references@.len(),
            decreases self.references.len() - r,
        {
            let mut current: Option<ScopeId> = Some(self.references[r].scope);
            let mut ambiguous = false;
            let mut resolved: Option<BindingId> = None;
            let name = self.references[r].name.clone();
            while current.is_some()
                invariant
                    self.wf(),
                    self.grows(old(self)),
                    r < self.references@.len(),
                    current matches Some(s) ==> s.0 < self.scopes.len(),
                decreases match current {
                    Some(s) => s.0 + 1,
                    None => 0,
                },
            {
                let scope = current.unwrap();
                let (count, first) = self.declared(scope, &name);
                if count > 0 {
                    if count == 1 {
                        resolved = first;
                    } else {
                        ambiguous = true;
                        pending.push(
                            Diagnostic {
                                code: DiagnosticCode::AmbiguousMatch,
                                message: String::from_str(
                                    "reference has multiple declarations in one lexical scope",
                                ).concat(" ").concat(name.as_str()),
                                snapshot: Some(self.snapshot.clone()),
                                frontier: None,
                                span: Some(self.references[r].span.clone()),
                                affected_flows: Vec::new(),
                            },
                        );
                    }
                    break;
                }
                current = self.scopes[scope.0 as usize].parent;
            }
            if resolved.is_none() && !ambiguous {
                pending.push(
                    Diagnostic {
                        code: DiagnosticCode::UnresolvedBinding,
                        message: String::from_str("unresolved lexical reference ").concat(
                            name.as_str(),
                        ),
                        snapshot: Some(self.snapshot.clone()),
                        frontier: None,
                        span: Some(self.references[r].span.clone()),
                        affected_flows: Vec::new(),
                    },
                );
            }
            let reference = BindingReference {
                name: self.references[r].name.clone(),
                span: self.references[r].span.clone(),
                scope: self.references[r].scope,
                binding: resolved,
            };
            let ghost before = self.references@;
            self.references.set(r, reference);
            proof {
                assert forall|k: int| 0 <= k < self.references.len() implies (#[trigger] self.references@[k]).scope.0
                    < self.scopes.len() by {
                    if k != r {
                        assert(self.references@[k] == before[k]);
                    }
                }
            }
            r = r + 1;
        }
        let mut k: usize = 0;
        while k < pending.len()
            invariant
                self.wf(),
                self.grows(old(self)),
                k <= pending@.len(),
            decreases pending.len() - k,
        {
            self.diagnostics.push(pending[k].clone());
            k = k + 1;
        }
    }
}

/// Parses a TypeScript or TSX file and indexes its lexical scopes,
/// declarations and references. A file with syntax errors yields only its
/// parse diagnostics.
pub fn index_bindings(snapshot: SnapshotId, path: &str, source: &str) -> (res: Result<
    TypeScriptBindingIndex,
    TypeScriptAdapterError,
>)
    ensures
        path_extension(path@) != Some("ts"@) && path_extension(path@) != Some("tsx"@) ==> (
        res matches Err(e) && e is UnsupportedFileKind),
        res matches Ok(index) ==> {
            &&& index_wf(index)
            &&& index.snapshot == snapshot
            &&& index.path@ == path@
            &&& path_extension(path@) == Some("ts"@) ==> index.grammar == TypeScriptGrammar::TypeScript
            &&& path_extension(path@) == Some("tsx"@) ==> index.grammar == TypeScriptGrammar::Tsx
        },
{
    let grammar = match grammar_for_path(path) {
        Ok(grammar) => grammar,
        Err(e) => {
            return Err(e);
        },
    };
    let tree = match parse_syntax(source, grammar) {
        Ok(tree) => tree,
        Err(message) => {
            return Err(
                TypeScriptAdapterError::Parser(
                    String::from_str("failed to initialize TypeScript parser: ").concat(
                        message.as_str(),
                    ),
                ),
            );
        },
    };
    let mut builder = IndexBuilder::new(snapshot, path, source, &tree, grammar);
    if tree.nodes[0].has_error {
        builder.collect_parse_errors(0);
        return Ok(builder.finish());
    }
    builder.collect_declarations(0, ScopeId(0), false);
    builder.collect_references(0, ScopeId(0), false);
    builder.resolve_references();
    Ok(builder.finish())
}

} // verus!
