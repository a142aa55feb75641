//! The parsed TypeScript syntax tree as plain values: the parser runs in
//! tree-sitter, and everything the adapter reads of its result is copied
//! into a `SyntaxTree` whose nodes are numbered in preorder.
use vstd::prelude::*;
use vstd::string::StringSliceAdditionalSpecFns;
use tree_sitter::{Language, LanguageError, Node, Parser, Tree};

verus! {

#[verifier::external_type_specification]
#[verifier::external_body]
pub struct ExParser(Parser);

#[verifier::external_type_specification]
#[verifier::external_body]
pub struct ExTree(Tree);

#[verifier::external_type_specification]
#[verifier::external_body]
pub struct ExLanguage(Language);

#[verifier::external_type_specification]
#[verifier::external_body]
pub struct ExLanguageError(LanguageError);

#[verifier::external_type_specification]
#[verifier::external_body]
pub struct ExNode<'tree>(Node<'tree>);

// ---------------------------------------------------------------------------
// Calls into tree-sitter. Nothing is promised of what the parser produces:
// the library only relies on the structure it builds itself below.

/// `Parser::new`: a parser with no language.
#[verifier::external_body]
fn new_parser() -> Parser {
    Parser::new()
}

/// The TypeScript grammar of `tree-sitter-typescript` (`LANGUAGE_TYPESCRIPT`).
#[verifier::external_body]
fn typescript_language() -> Language {
    tree_sitter_typescript::LANGUAGE_TYPESCRIPT.into()
}

/// The TSX grammar of `tree-sitter-typescript` (`LANGUAGE_TSX`).
#[verifier::external_body]
fn tsx_language() -> Language {
    tree_sitter_typescript::LANGUAGE_TSX.into()
}

/// `Parser::set_language`; it fails only on an incompatible grammar version.
#[verifier::external_body]
fn set_parser_language(parser: &mut Parser, language: &Language) -> Result<(), LanguageError> {
    parser.set_language(language)
}

/// The message of a `LanguageError` (its `Display`).
#[verifier::external_body]
fn language_error_text(error: &LanguageError) -> String {
    error.to_string()
}

/// `Parser::parse` on the whole source with no previous tree.
#[verifier::external_body]
fn parse_text(parser: &mut Parser, source: &str) -> Option<Tree> {
    parser.parse(source, None)
}

/// `Tree::root_node`.
#[verifier::external_body]
fn tree_root<'t>(tree: &'t Tree) -> Node<'t> {
    tree.root_node()
}

/// `Node::kind`, the grammar's name for the node's type.
#[verifier::external_body]
fn node_kind_name(node: &Node) -> String {
    node.kind().to_owned()
}

/// `Node::is_named`.
#[verifier::external_body]
fn node_is_named(node: &Node) -> bool {
    node.is_named()
}

/// `Node::is_error`.
#[verifier::external_body]
fn node_is_error(node: &Node) -> bool {
    node.is_error()
}

/// `Node::is_missing`.
#[verifier::external_body]
fn node_is_missing(node: &Node) -> bool {
    node.is_missing()
}

/// `Node::has_error`.
#[verifier::external_body]
fn node_has_error(node: &Node) -> bool {
    node.has_error()
}

/// `Node::start_byte`.
#[verifier::external_body]
fn node_start_byte(node: &Node) -> usize {
    node.start_byte()
}

/// `Node::end_byte`.
#[verifier::external_body]
fn node_end_byte(node: &Node) -> usize {
    node.end_byte()
}

/// `Node::start_position`, as zero-based row and column.
#[verifier::external_body]
fn node_start_position(node: &Node) -> (usize, usize) {
    let point = node.start_position();
    (point.row, point.column)
}

/// `Node::end_position`, as zero-based row and column.
#[verifier::external_body]
fn node_end_position(node: &Node) -> (usize, usize) {
    let point = node.end_position();
    (point.row, point.column)
}

/// `Node::child_count`.
#[verifier::external_body]
fn node_child_count(node: &Node) -> usize {
    node.child_count()
}

/// `Node::child`.
#[verifier::external_body]
fn node_child<'t>(node: &Node<'t>, index: usize) -> Option<Node<'t>> {
    node.child(index)
}

/// `Node::field_name_for_child`: the field under which the parent holds
/// its child at `index`, if any.
#[verifier::external_body]
fn node_field_name(node: &Node, index: u32) -> Option<String> {
    node.field_name_for_child(index).map(|name| name.to_owned())
}

/// `str::get` on a byte range: the text when the range lies within the
/// source on character boundaries, and nothing otherwise.
#[verifier::external_body]
pub fn source_text(source: &str, start: usize, end: usize) -> (res: Option<String>)
    ensures
        res is Some <==> (start <= end <= vstd::utf8::encode_utf8(source@).len()
            && vstd::utf8::is_char_boundary(vstd::utf8::encode_utf8(source@), start as int)
            && vstd::utf8::is_char_boundary(vstd::utf8::encode_utf8(source@), end as int)),
        res matches Some(text) ==> vstd::utf8::encode_utf8(text@) == vstd::utf8::encode_utf8(source@).subrange(
            start as int,
            end as int,
        ),
{
    source.get(start..end).map(|text| text.to_owned())
}

// ---------------------------------------------------------------------------
// Text.

/// Compares two texts through their bytes.
pub fn str_equal(a: &str, b: &str) -> (res: bool)
    ensures
        res == (a@ == b@),
{
    let x = a.as_bytes();
    let y = b.as_bytes();
    proof {
        vstd::utf8::encode_utf8_decode_utf8(a@);
        vstd::utf8::encode_utf8_decode_utf8(b@);
    }
    if x.len() != y.len() {
        return false;
    }
    let mut i: usize = 0;
    while i < x.len()
        invariant
            x@.len() == y@.len(),
            x@ == a.spec_bytes(),
            y@ == b.spec_bytes(),
            i <= x@.len(),
            forall|j: int| 0 <= j < i ==> x@[j] == y@[j],
        decreases x.len() - i,
    {
        if x[i] != y[i] {
            proof {
                if a@ == b@ {
                    assert(x@ == a.spec_bytes());
                    assert(y@ == b.spec_bytes());
                    assert(x@ == y@);
                }
            }
            return false;
        }
        i = i + 1;
    }
    proof {
        assert(x@ =~= y@);
    }
    true
}

/// Whether a text starts with `jsx_`.
pub open spec fn jsx_name(s: Seq<char>) -> bool {
    s.len() >= 4 && s[0] == 'j' && s[1] == 's' && s[2] == 'x' && s[3] == '_'
}

fn is_jsx_name(s: &str) -> (res: bool)
    ensures
        res == jsx_name(s@),
{
    s.unicode_len() >= 4 && s.get_char(0) == 'j' && s.get_char(1) == 's' && s.get_char(2) == 'x'
        && s.get_char(3) == '_'
}

// ---------------------------------------------------------------------------
// The plain tree.

/// The node types the adapter distinguishes; every other type is `Other`.
#[derive(Debug, Clone, Copy, PartialEq, Eq, Structural)]
pub enum SyntaxKind {
    Program,
    Identifier,
    StatementBlock,
    LexicalDeclaration,
    VariableDeclaration,
    VariableDeclarator,
    RequiredParameter,
    FunctionDeclaration,
    FunctionExpression,
    GeneratorFunctionDeclaration,
    GeneratorFunction,
    ArrowFunction,
    MethodDefinition,
    ExpressionStatement,
    AssignmentExpression,
    ReturnStatement,
    IfStatement,
    ElseClause,
    ExportStatement,
    ImportStatement,
    EmptyStatement,
    Comment,
    Number,
    String,
    True,
    False,
    Null,
    ParenthesizedExpression,
    AsExpression,
    SatisfiesExpression,
    NonNullExpression,
    TypeAssertion,
    BinaryExpression,
    UnaryExpression,
    MemberExpression,
    SubscriptExpression,
    TemplateString,
    TemplateSubstitution,
    CallExpression,
    NewExpression,
    Const,
    Jsx,
    Other,
}

/// The kind a node type name stands for.
pub open spec fn kind_of(s: Seq<char>) -> SyntaxKind {
    if s == "program"@ {
        SyntaxKind::Program
    } else if s == "identifier"@ {
        SyntaxKind::Identifier
    } else if s == "statement_block"@ {
        SyntaxKind::StatementBlock
    } else if s == "lexical_declaration"@ {
        SyntaxKind::LexicalDeclaration
    } else if s == "variable_declaration"@ {
        SyntaxKind::VariableDeclaration
    } else if s == "variable_declarator"@ {
        SyntaxKind::VariableDeclarator
    } else if s == "required_parameter"@ {
        SyntaxKind::RequiredParameter
    } else if s == "function_declaration"@ {
        SyntaxKind::FunctionDeclaration
    } else if s == "function_expression"@ {
        SyntaxKind::FunctionExpression
    } else if s == "generator_function_declaration"@ {
        SyntaxKind::GeneratorFunctionDeclaration
    } else if s == "generator_function"@ {
        SyntaxKind::GeneratorFunction
    } else if s == "arrow_function"@ {
        SyntaxKind::ArrowFunction
    } else if s == "method_definition"@ {
        SyntaxKind::MethodDefinition
    } else if s == "expression_statement"@ {
        SyntaxKind::ExpressionStatement
    } else if s == "assignment_expression"@ {
        SyntaxKind::AssignmentExpression
    } else if s == "return_statement"@ {
        SyntaxKind::ReturnStatement
    } else if s == "if_statement"@ {
        SyntaxKind::IfStatement
    } else if s == "else_clause"@ {
        SyntaxKind::ElseClause
    } else if s == "export_statement"@ {
        SyntaxKind::ExportStatement
    } else if s == "import_statement"@ {
        SyntaxKind::ImportStatement
    } else if s == "empty_statement"@ {
        SyntaxKind::EmptyStatement
    } else if s == "comment"@ {
        SyntaxKind::Comment
    } else if s == "number"@ {
        SyntaxKind::Number
    } else if s == "string"@ {
        SyntaxKind::String
    } else if s == "true"@ {
        SyntaxKind::True
    } else if s == "false"@ {
        SyntaxKind::False
    } else if s == "null"@ {
        SyntaxKind::Null
    } else if s == "parenthesized_expression"@ {
        SyntaxKind::ParenthesizedExpression
    } else if s == "as_expression"@ {
        SyntaxKind::AsExpression
    } else if s == "satisfies_expression"@ {
        SyntaxKind::SatisfiesExpression
    } else if s == "non_null_expression"@ {
        SyntaxKind::NonNullExpression
    } else if s == "type_assertion"@ {
        SyntaxKind::TypeAssertion
    } else if s == "binary_expression"@ {
        SyntaxKind::BinaryExpression
    } else if s == "unary_expression"@ {
        SyntaxKind::UnaryExpression
    } else if s == "member_expression"@ {
        SyntaxKind::MemberExpression
    } else if s == "subscript_expression"@ {
        SyntaxKind::SubscriptExpression
    } else if s == "template_string"@ {
        SyntaxKind::TemplateString
    } else if s == "template_substitution"@ {
        SyntaxKind::TemplateSubstitution
    } else if s == "call_expression"@ {
        SyntaxKind::CallExpression
    } else if s == "new_expression"@ {
        SyntaxKind::NewExpression
    } else if s == "const"@ {
        SyntaxKind::Const
    } else if jsx_name(s) {
        SyntaxKind::Jsx
    } else {
        SyntaxKind::Other
    }
}

/// Classifies a node type name.
pub fn classify(name: &str) -> (res: SyntaxKind)
    ensures
        res == kind_of(name@),
{
    if str_equal(name, "program") {
        SyntaxKind::Program
    } else if str_equal(name, "identifier") {
        SyntaxKind::Identifier
    } else if str_equal(name, "statement_block") {
        SyntaxKind::StatementBlock
    } else if str_equal(name, "lexical_declaration") {
        SyntaxKind::LexicalDeclaration
    } else if str_equal(name, "variable_declaration") {
        SyntaxKind::VariableDeclaration
    } else if str_equal(name, "variable_declarator") {
        SyntaxKind::VariableDeclarator
    } else if str_equal(name, "required_parameter") {
        SyntaxKind::RequiredParameter
    } else if str_equal(name, "function_declaration") {
        SyntaxKind::FunctionDeclaration
    } else if str_equal(name, "function_expression") {
        SyntaxKind::FunctionExpression
    } else if str_equal(name, "generator_function_declaration") {
        SyntaxKind::GeneratorFunctionDeclaration
    } else if str_equal(name, "generator_function") {
        SyntaxKind::GeneratorFunction
    } else if str_equal(name, "arrow_function") {
        SyntaxKind::ArrowFunction
    } else if str_equal(name, "method_definition") {
        SyntaxKind::MethodDefinition
    } else if str_equal(name, "expression_statement") {
        SyntaxKind::ExpressionStatement
    } else if str_equal(name, "assignment_expression") {
        SyntaxKind::AssignmentExpression
    } else if str_equal(name, "return_statement") {
        SyntaxKind::ReturnStatement
    } else if str_equal(name, "if_statement") {
        SyntaxKind::IfStatement
    } else if str_equal(name, "else_clause") {
        SyntaxKind::ElseClause
    } else if str_equal(name, "export_statement") {
        SyntaxKind::ExportStatement
    } else if str_equal(name, "import_statement") {
        SyntaxKind::ImportStatement
    } else if str_equal(name, "empty_statement") {
        SyntaxKind::EmptyStatement
    } else if str_equal(name, "comment") {
        SyntaxKind::Comment
    } else if str_equal(name, "number") {
        SyntaxKind::Number
    } else if str_equal(name, "string") {
        SyntaxKind::String
    } else if str_equal(name, "true") {
        SyntaxKind::True
    } else if str_equal(name, "false") {
        SyntaxKind::False
    } else if str_equal(name, "null") {
        SyntaxKind::Null
    } else if str_equal(name, "parenthesized_expression") {
        SyntaxKind::ParenthesizedExpression
    } else if str_equal(name, "as_expression") {
        SyntaxKind::AsExpression
    } else if str_equal(name, "satisfies_expression") {
        SyntaxKind::SatisfiesExpression
    } else if str_equal(name, "non_null_expression") {
        SyntaxKind::NonNullExpression
    } else if str_equal(name, "type_assertion") {
        SyntaxKind::TypeAssertion
    } else if str_equal(name, "binary_expression") {
        SyntaxKind::BinaryExpression
    } else if str_equal(name, "unary_expression") {
        SyntaxKind::UnaryExpression
    } else if str_equal(name, "member_expression") {
        SyntaxKind::MemberExpression
    } else if str_equal(name, "subscript_expression") {
        SyntaxKind::SubscriptExpression
    } else if str_equal(name, "template_string") {
        SyntaxKind::TemplateString
    } else if str_equal(name, "template_substitution") {
        SyntaxKind::TemplateSubstitution
    } else if str_equal(name, "call_expression") {
        SyntaxKind::CallExpression
    } else if str_equal(name, "new_expression") {
        SyntaxKind::NewExpression
    } else if str_equal(name, "const") {
        SyntaxKind::Const
    } else if is_jsx_name(name) {
        SyntaxKind::Jsx
    } else {
        SyntaxKind::Other
    }
}

/// One node: its type, flags, byte range, zero-based start and end
/// positions, parent, and the field under which the parent holds it.
#[derive(Debug, Clone, PartialEq, Eq)]
pub struct SyntaxNode {
    pub kind: SyntaxKind,
    pub kind_name: String,
    pub named: bool,
    pub error: bool,
    pub missing: bool,
    pub has_error: bool,
    pub start_byte: usize,
    pub end_byte: usize,
    pub start_row: usize,
    pub start_column: usize,
    pub end_row: usize,
    pub end_column: usize,
    pub parent: Option<usize>,
    pub field: Option<String>,
}

/// A syntax tree with nodes in preorder: node 0 is the root, and
/// `children[i]` lists the children of node `i` in source order.
#[derive(Debug, Clone, PartialEq, Eq)]
pub struct SyntaxTree {
    pub nodes: Vec<SyntaxNode>,
    pub children: Vec<Vec<usize>>,
}

/// The root has no parent, every other node's parent comes before it, and
/// every child comes after its parent and names it as parent.
pub open spec fn tree_wf(t: SyntaxTree) -> bool {
    &&& t.nodes.len() > 0
    &&& t.children.len() == t.nodes.len()
    &&& t.nodes@[0].parent is None
    &&& forall|i: int|
        0 < i < t.nodes.len() ==> ((#[trigger] t.nodes@[i]).parent matches Some(p) && p < i)
    &&& forall|i: int, k: int|
        0 <= i < t.nodes.len() && 0 <= k < t.children@[i]@.len() ==> i < (#[trigger] t.children@[i]@[k])
            < t.nodes.len() && t.nodes@[t.children@[i]@[k] as int].parent == Some(i as usize)
}

/// The most nodes a syntax tree may have.
pub const MAX_SYNTAX_NODES: usize = 0x4000_0000;

/// Copies the parse tree below `root` in preorder.
fn copy_tree(root: Node) -> (res: Option<SyntaxTree>)
    ensures
        res matches Some(t) ==> tree_wf(t),
{
    let mut nodes: Vec<SyntaxNode> = Vec::new();
    let mut children: Vec<Vec<usize>> = Vec::new();
    let mut stack: Vec<(Node, Option<usize>, Option<String>)> = Vec::new();
    stack.push((root, None, None));
    while stack.len() > 0
        invariant
            children@.len() == nodes@.len(),
            nodes@.len() <= MAX_SYNTAX_NODES,
            nodes@.len() == 0 ==> stack@.len() == 1 && stack@[0].1 is None,
            nodes@.len() > 0 ==> nodes@[0].parent is None,
            nodes@.len() > 0 ==> forall|s: int| 0 <= s < stack@.len() ==> ((#[trigger] stack@[s]).1 matches Some(p) && p < nodes@.len()),
            forall|i: int|
                0 < i < nodes@.len() ==> ((#[trigger] nodes@[i]).parent matches Some(p) && p < i),
            forall|i: int, k: int|
                0 <= i < nodes@.len() && 0 <= k < children@[i]@.len() ==> i < (
                #[trigger] children@[i]@[k]) < nodes@.len() && nodes@[children@[i]@[k] as int].parent
                    == Some(i as usize),
        decreases MAX_SYNTAX_NODES - nodes@.len(),
    {
        if nodes.len() >= MAX_SYNTAX_NODES {
            return None;
        }
        let (node, parent, field) = stack.pop().unwrap();
        if nodes.len() > 0 && parent.is_none() {
            return None;
        }
        let index = nodes.len();
        let name = node_kind_name(&node);
        let (start_row, start_column) = node_start_position(&node);
        let (end_row, end_column) = node_end_position(&node);
        let syntax = SyntaxNode {
            kind: classify(name.as_str()),
            kind_name: name,
            named: node_is_named(&node),
            error: node_is_error(&node),
            missing: node_is_missing(&node),
            has_error: node_has_error(&node),
            start_byte: node_start_byte(&node),
            end_byte: node_end_byte(&node),
            start_row,
            start_column,
            end_row,
            end_column,
            parent,
            field,
        };
        let ghost nodes_before = nodes@;
        let ghost children_before = children@;
        nodes.push(syntax);
        children.push(Vec::new());
        if let Some(p) = parent {
            let mut row = children[p].clone();
            assert(row@ =~= children@[p as int]@);
            row.push(index);
            children.set(p, row);
        }
        proof {
            assert forall|i: int, k: int|
                0 <= i < nodes@.len() && 0 <= k < children@[i]@.len() implies i < (
                #[trigger] children@[i]@[k]) < nodes@.len() && nodes@[children@[i]@[k] as int].parent
                    == Some(i as usize) by {
                if i < nodes_before.len() && k < children_before[i]@.len() {
                    assert(children@[i]@[k] == children_before[i]@[k]);
                    assert(nodes@[children_before[i]@[k] as int] == nodes_before[children_before[i]@[k] as int]);
                }
            }
            assert forall|s: int| 0 <= s < stack@.len() implies ((#[trigger] stack@[s]).1 matches Some(p) && p < nodes@.len()) by {
            }
        }
        let count = node_child_count(&node);
        let mut c: usize = count;
        while c > 0
            invariant
                children@.len() == nodes@.len(),
                index < nodes@.len(),
                forall|s: int| 0 <= s < stack@.len() ==> ((#[trigger] stack@[s]).1 matches Some(p) && p < nodes@.len()),
            decreases c,
        {
            c = c - 1;
            match node_child(&node, c) {
                Some(child) => {
                    let field_name = if c <= u32::MAX as usize {
                        node_field_name(&node, c as u32)
                    } else {
                        None
                    };
                    stack.push((child, Some(index), field_name));
                },
                None => {},
            }
        }
    }
    if nodes.len() == 0 {
        return None;
    }
    Some(SyntaxTree { nodes, children })
}

/// The grammar to parse with.
#[derive(Debug, Clone, Copy, PartialEq, Eq, Structural)]
pub enum TypeScriptGrammar {
    TypeScript,
    Tsx,
}

/// Parses a source text with tree-sitter and copies the result. Fails with
/// the parser's message when the grammar cannot be loaded, when the parser
/// returns no tree, or when the tree is too large to copy.
pub fn parse_syntax(source: &str, grammar: TypeScriptGrammar) -> (res: Result<SyntaxTree, String>)
    ensures
        res matches Ok(t) ==> tree_wf(t),
{
    let mut parser = new_parser();
    let language = match grammar {
        TypeScriptGrammar::TypeScript => typescript_language(),
        TypeScriptGrammar::Tsx => tsx_language(),
    };
    if let Err(error) = set_parser_language(&mut parser, &language) {
        return Err(language_error_text(&error));
    }
    let tree = match parse_text(&mut parser, source) {
        Some(tree) => tree,
        None => {
            return Err(String::from_str("parser returned no tree"));
        },
    };
    let root = tree_root(&tree);
    match copy_tree(root) {
        Some(syntax) => Ok(syntax),
        None => Err(String::from_str("syntax tree is too large")),
    }
}

} // verus!
