//! The boundary with tree-sitter: parsing a text with one of the registered
//! grammars, and reading the tree it gives.
//!
//! A node of a parse is named by the grammar, the text, and its path: the
//! positions of the children taken from the root down to it. What tree-sitter
//! reports of a node depends on that name alone. The types here keep the name
//! of each value they hold; their fields are private, so that only the
//! functions of this module, which take them from tree-sitter, make them.
use vstd::prelude::*;
use vstd::utf8::encode_utf8;
use crate::symbol_extractor::{children_tokens, leaf_token, node_tokens, SyntaxNode};

verus! {

#[verifier::external_type_specification]
#[verifier::external_body]
pub struct ExParser(tree_sitter::Parser);

#[verifier::external_type_specification]
#[verifier::external_body]
pub struct ExTree(tree_sitter::Tree);

#[verifier::external_type_specification]
#[verifier::external_body]
pub struct ExLanguage(tree_sitter::Language);

#[verifier::external_type_specification]
#[verifier::external_body]
pub struct ExNode<'tree>(tree_sitter::Node<'tree>);

/// The grammars that skeletons can be made with.
#[derive(Debug, Clone, Copy, PartialEq, Eq)]
pub enum LanguageId {
    Rust,
    Python,
    TypeScript,
}

/// What tree-sitter's `Node::child_count` gives for the node at `path` in
/// the parse of `source` with grammar `lang`.
pub uninterp spec fn node_child_count(lang: LanguageId, source: Seq<char>, path: Seq<usize>) -> usize;

/// What tree-sitter's `Node::start_byte` gives for the node at `path` in the
/// parse of `source` with grammar `lang`.
pub uninterp spec fn node_start_byte(lang: LanguageId, source: Seq<char>, path: Seq<usize>) -> usize;

/// What tree-sitter's `Node::end_byte` gives for the node at `path` in the
/// parse of `source` with grammar `lang`.
pub uninterp spec fn node_end_byte(lang: LanguageId, source: Seq<char>, path: Seq<usize>) -> usize;

/// A registered grammar.
struct Grammar {
    id: LanguageId,
    language: tree_sitter::Language,
}

/// A parser that has a registered grammar.
struct GrammarParser {
    parser: tree_sitter::Parser,
    lang: LanguageId,
}

/// The tree of `source` parsed with grammar `lang`.
struct ParsedTree<'a> {
    tree: tree_sitter::Tree,
    lang: LanguageId,
    source: &'a str,
}

/// The node at `path` in the parse of `source` with grammar `lang`.
struct SourceNode<'a> {
    node: tree_sitter::Node<'a>,
    lang: LanguageId,
    source: &'a str,
    path: Vec<usize>,
}

/// Relies on tree_sitter_rust::LANGUAGE, the Rust grammar.
#[verifier::external_body]
fn rust_grammar() -> (g: Grammar)
    ensures
        g.id == LanguageId::Rust,
{
    Grammar { id: LanguageId::Rust, language: tree_sitter_rust::LANGUAGE.into() }
}

/// Relies on tree_sitter_python::LANGUAGE, the Python grammar.
#[verifier::external_body]
fn python_grammar() -> (g: Grammar)
    ensures
        g.id == LanguageId::Python,
{
    Grammar { id: LanguageId::Python, language: tree_sitter_python::LANGUAGE.into() }
}

/// Relies on tree_sitter_typescript::LANGUAGE_TYPESCRIPT, the TypeScript grammar.
#[verifier::external_body]
fn typescript_grammar() -> (g: Grammar)
    ensures
        g.id == LanguageId::TypeScript,
{
    Grammar { id: LanguageId::TypeScript, language: tree_sitter_typescript::LANGUAGE_TYPESCRIPT.into() }
}

/// Relies on tree_sitter::Parser::new: a parser with no grammar yet.
#[verifier::external_body]
fn new_parser() -> tree_sitter::Parser {
    tree_sitter::Parser::new()
}

/// Relies on tree_sitter::Parser::set_language, which fails only when the
/// grammar's ABI version lies outside MIN_COMPATIBLE_LANGUAGE_VERSION (13)
/// ..= LANGUAGE_VERSION (14); the three registered grammars are generated
/// with version 14, so it succeeds for them.
#[verifier::external_body]
fn set_parser_language(parser: tree_sitter::Parser, grammar: &Grammar) -> (r: Result<GrammarParser, String>)
    ensures
        r is Ok,
        r is Ok ==> r->Ok_0.lang == grammar.id,
{
    let mut parser = parser;
    match parser.set_language(&grammar.language) {
        Ok(()) => Ok(GrammarParser { parser, lang: grammar.id }),
        Err(e) => Err(e.to_string()),
    }
}

/// Relies on tree_sitter::Parser::parse, which gives no tree only when the
/// parser has no grammar, or a timeout or cancellation flag stops it; a
/// `GrammarParser` has a grammar and sets neither.
#[verifier::external_body]
fn parse_text<'a>(parser: &mut GrammarParser, source: &'a str) -> (r: Option<ParsedTree<'a>>)
    ensures
        final(parser).lang == old(parser).lang,
        r is Some,
        r is Some ==> r->Some_0.lang == old(parser).lang && r->Some_0.source@ == source@,
{
    let lang = parser.lang;
    parser.parser.parse(source, None).map(|tree| ParsedTree { tree, lang, source })
}

/// Relies on tree_sitter::Tree::root_node: the node with the empty path.
#[verifier::external_body]
fn root_of<'a>(t: &'a ParsedTree<'a>) -> (r: SourceNode<'a>)
    ensures
        r.lang == t.lang,
        r.source@ == t.source@,
        r.path@ == Seq::<usize>::empty(),
{
    SourceNode { node: t.tree.root_node(), lang: t.lang, source: t.source, path: Vec::new() }
}

/// Relies on tree_sitter::Node::child_count.
#[verifier::external_body]
fn child_count_of(n: &SourceNode<'_>) -> (r: usize)
    ensures
        r == node_child_count(n.lang, n.source@, n.path@),
{
    n.node.child_count()
}

/// Relies on tree_sitter::Node::child, which finds a child at every position
/// below the child count (ts_node_child in tree-sitter's node.c).
#[verifier::external_body]
fn child_at<'a>(n: &SourceNode<'a>, i: usize) -> (r: Option<SourceNode<'a>>)
    ensures
        i < node_child_count(n.lang, n.source@, n.path@) ==> r is Some,
        r is Some ==> r->Some_0.lang == n.lang && r->Some_0.source@ == n.source@
            && r->Some_0.path@ == n.path@.push(i),
{
    let mut path = n.path.clone();
    path.push(i);
    n.node.child(i).map(|node| SourceNode { node, lang: n.lang, source: n.source, path })
}

/// Relies on tree_sitter::Node::start_byte.
#[verifier::external_body]
fn start_byte_of(n: &SourceNode<'_>) -> (r: usize)
    ensures
        r == node_start_byte(n.lang, n.source@, n.path@),
{
    n.node.start_byte()
}

/// Relies on tree_sitter::Node::end_byte.
#[verifier::external_body]
fn end_byte_of(n: &SourceNode<'_>) -> (r: usize)
    ensures
        r == node_end_byte(n.lang, n.source@, n.path@),
{
    n.node.end_byte()
}

/// The tokens of the node at `path` of the parse of `src` with grammar
/// `lang`, when `levels` more levels below it may be visited, in source order.
pub open spec fn parsed_tokens(lang: LanguageId, src: Seq<char>, path: Seq<usize>, levels: nat) -> Seq<Seq<char>>
    decreases levels, 0nat,
{
    if node_child_count(lang, src, path) == 0 {
        match leaf_token(encode_utf8(src), node_start_byte(lang, src, path), node_end_byte(lang, src, path)) {
            Some(t) => seq![t],
            None => Seq::empty(),
        }
    } else if levels == 0 {
        Seq::empty()
    } else {
        parsed_children_tokens(lang, src, path, (levels - 1) as nat, node_child_count(lang, src, path) as nat)
    }
}

/// The tokens of the first `n` children of the node at `path`.
pub open spec fn parsed_children_tokens(
    lang: LanguageId,
    src: Seq<char>,
    path: Seq<usize>,
    levels: nat,
    n: nat,
) -> Seq<Seq<char>>
    decreases levels, n + 1,
{
    if n == 0 {
        Seq::empty()
    } else {
        parsed_children_tokens(lang, src, path, levels, (n - 1) as nat) + parsed_tokens(
            lang,
            src,
            path.push((n - 1) as usize),
            levels,
        )
    }
}

/// The part of the tree at `node` that a walk with `levels` more levels
/// below it visits.
fn build_node(node: &SourceNode<'_>, levels: usize) -> (r: SyntaxNode)
    ensures
        node_tokens(r, encode_utf8(node.source@), levels as nat) == parsed_tokens(
            node.lang,
            node.source@,
            node.path@,
            levels as nat,
        ),
        node_child_count(node.lang, node.source@, node.path@) == 0 ==> r is Leaf,
    decreases levels, 0usize,
{
    if child_count_of(node) == 0 {
        SyntaxNode::Leaf { start_byte: start_byte_of(node), end_byte: end_byte_of(node) }
    } else if levels == 0 {
        SyntaxNode::Branch { children: Vec::new() }
    } else {
        SyntaxNode::Branch { children: build_children(node, levels - 1) }
    }
}

/// The children of `node`, each with `levels` more levels below it.
fn build_children(node: &SourceNode<'_>, levels: usize) -> (r: Vec<SyntaxNode>)
    ensures
        children_tokens(r@, encode_utf8(node.source@), levels as nat) == parsed_children_tokens(
            node.lang,
            node.source@,
            node.path@,
            levels as nat,
            node_child_count(node.lang, node.source@, node.path@) as nat,
        ),
    decreases levels, 1usize,
{
    let ghost bytes = encode_utf8(node.source@);
    let n = child_count_of(node);
    let mut children: Vec<SyntaxNode> = Vec::new();
    let mut i: usize = 0;
    while i < n
        invariant
            n == node_child_count(node.lang, node.source@, node.path@),
            bytes == encode_utf8(node.source@),
            i <= n,
            children_tokens(children@, bytes, levels as nat) == parsed_children_tokens(
                node.lang,
                node.source@,
                node.path@,
                levels as nat,
                i as nat,
            ),
        decreases n - i,
    {
        match child_at(node, i) {
            Some(c) => {
                let built = build_node(&c, levels);
                let ghost prev = children@;
                children.push(built);
                assert(children@.drop_last() =~= prev);
            },
            None => {},
        }
        i = i + 1;
    }
    children
}

/// The tree of `source` parsed with grammar `lang`, cut where a walk to
/// `max_depth` stops, which leaves its skeleton tokens as they are.
pub fn parse_for_skeleton(lang: LanguageId, source: &str, max_depth: usize) -> (r: SyntaxNode)
    ensures
        node_tokens(r, encode_utf8(source@), max_depth as nat + 1) == parsed_tokens(
            lang,
            source@,
            Seq::empty(),
            max_depth as nat + 1,
        ),
{
    let grammar = match lang {
        LanguageId::Rust => rust_grammar(),
        LanguageId::Python => python_grammar(),
        LanguageId::TypeScript => typescript_grammar(),
    };
    let mut parser = match set_parser_language(new_parser(), &grammar) {
        Ok(p) => p,
        Err(_) => {
            proof {
                assert(false);
            }
            return SyntaxNode::Branch { children: Vec::new() };
        },
    };
    let tree = match parse_text(&mut parser, source) {
        Some(t) => t,
        None => {
            proof {
                assert(false);
            }
            return SyntaxNode::Branch { children: Vec::new() };
        },
    };
    let root = root_of(&tree);
    if child_count_of(&root) == 0 {
        build_node(&root, 0)
    } else {
        SyntaxNode::Branch { children: build_children(&root, max_depth) }
    }
}

} // verus!
