//! Skeletons: a source file flattened to the leaf tokens of its syntax tree
//! down to a bounded depth.
//!
//! Depth counts levels from the root, which is at depth 0. With a maximum
//! depth `d`, every node at depth `d + 1` or less is visited, so the leaves
//! that hang directly below the root already show at depth 0. A leaf gives
//! its source text, trimmed, when that is not empty; a node below the last
//! visited level gives nothing.
use vstd::prelude::*;
use vstd::slice::slice_subrange;
use vstd::string::StringExecFns;
use vstd::utf8::{decode_utf8, encode_utf8, valid_utf8};
use crate::paths::chars_of;
use crate::text::{join_with_spaces, space_joined, trim, trimmed};
use crate::types::{result_view, strings_view};
use crate::syntax_tree::{parse_for_skeleton, parsed_tokens};
pub use crate::syntax_tree::LanguageId;

verus! {

/// A syntax tree as the skeleton sees it: leaves with the byte range of their
/// text, and inner nodes with their children. An inner node whose children
/// lie below the last level of interest may hold none.
#[derive(Debug)]
pub enum SyntaxNode {
    Leaf { start_byte: usize, end_byte: usize },
    Branch { children: Vec<SyntaxNode> },
}

/// The token of a leaf whose text is `src[start..end]`: that text decoded and
/// trimmed, when the range is in bounds, the bytes are UTF-8 and something
/// is left.
pub open spec fn leaf_token(src: Seq<u8>, start: usize, end: usize) -> Option<Seq<char>> {
    if start <= end <= src.len() && valid_utf8(src.subrange(start as int, end as int)) {
        let t = trimmed(decode_utf8(src.subrange(start as int, end as int)));
        if t.len() > 0 {
            Some(t)
        } else {
            None
        }
    } else {
        None
    }
}

/// The tokens of `n` when `levels` more levels below it may be visited, in
/// source order.
pub open spec fn node_tokens(n: SyntaxNode, src: Seq<u8>, levels: nat) -> Seq<Seq<char>>
    decreases levels, 0nat,
{
    match n {
        SyntaxNode::Leaf { start_byte, end_byte } => match leaf_token(src, start_byte, end_byte) {
            Some(t) => seq![t],
            None => Seq::empty(),
        },
        SyntaxNode::Branch { children } => if levels == 0 {
            Seq::empty()
        } else {
            children_tokens(children@, src, (levels - 1) as nat)
        },
    }
}

/// The tokens of the nodes `cs`, one node after another.
pub open spec fn children_tokens(cs: Seq<SyntaxNode>, src: Seq<u8>, levels: nat) -> Seq<Seq<char>>
    decreases levels, cs.len() + 1,
{
    if cs.len() == 0 {
        Seq::empty()
    } else {
        children_tokens(cs.drop_last(), src, levels) + node_tokens(cs.last(), src, levels)
    }
}

/// The tokens of the tree rooted at `root` with maximum depth `max_depth`.
pub open spec fn skeleton_tokens(root: SyntaxNode, src: Seq<u8>, max_depth: nat) -> Seq<Seq<char>> {
    node_tokens(root, src, max_depth + 1)
}

/// The skeleton text: the tokens joined by single spaces, or a note that
/// there were none.
pub open spec fn skeleton_text(root: SyntaxNode, src: Seq<u8>, max_depth: nat) -> Seq<char> {
    let ts = skeleton_tokens(root, src, max_depth);
    if ts.len() == 0 {
        NO_STRUCTURE@
    } else {
        space_joined(ts)
    }
}

/// The tokens of those nodes of `cs` that are leaves themselves.
pub open spec fn leaf_tokens(cs: Seq<SyntaxNode>, src: Seq<u8>) -> Seq<Seq<char>>
    decreases cs.len(),
{
    if cs.len() == 0 {
        Seq::empty()
    } else {
        leaf_tokens(cs.drop_last(), src) + match cs.last() {
            SyntaxNode::Leaf { start_byte, end_byte } => match leaf_token(src, start_byte, end_byte) {
                Some(t) => seq![t],
                None => Seq::empty(),
            },
            SyntaxNode::Branch { .. } => Seq::empty(),
        }
    }
}

proof fn lemma_children_at_last_level(cs: Seq<SyntaxNode>, src: Seq<u8>)
    ensures
        children_tokens(cs, src, 0) == leaf_tokens(cs, src),
    decreases cs.len(),
{
    if cs.len() > 0 {
        lemma_children_at_last_level(cs.drop_last(), src);
        let rest = leaf_tokens(cs.drop_last(), src);
        assert(children_tokens(cs, src, 0) == rest + node_tokens(cs.last(), src, 0));
        match cs.last() {
            SyntaxNode::Leaf { start_byte, end_byte } => {
                let own = match leaf_token(src, start_byte, end_byte) {
                    Some(t) => seq![t],
                    None => Seq::empty(),
                };
                assert(node_tokens(cs.last(), src, 0) == own);
                assert(leaf_tokens(cs, src) == rest + own);
            },
            SyntaxNode::Branch { .. } => {
                assert(node_tokens(cs.last(), src, 0) =~= Seq::<Seq<char>>::empty());
                assert(leaf_tokens(cs, src) == rest + Seq::<Seq<char>>::empty());
                assert(rest + Seq::<Seq<char>>::empty() =~= rest);
            },
        }
    }
}

/// At depth 0 a skeleton holds exactly the tokens of the leaves directly
/// below the root, in order, and nothing from deeper in the tree.
pub proof fn lemma_depth_zero_is_top_level_leaves(children: Vec<SyntaxNode>, src: Seq<u8>)
    ensures
        skeleton_tokens(SyntaxNode::Branch { children }, src, 0) == leaf_tokens(children@, src),
{
    lemma_children_at_last_level(children@, src);
}

proof fn lemma_node_deeper(n: SyntaxNode, src: Seq<u8>, l1: nat, l2: nat)
    requires
        l1 <= l2,
    ensures
        node_tokens(n, src, l1).len() <= node_tokens(n, src, l2).len(),
    decreases l1, 0nat,
{
    match n {
        SyntaxNode::Leaf { .. } => {},
        SyntaxNode::Branch { children } => {
            if l1 > 0 {
                lemma_children_deeper(children@, src, (l1 - 1) as nat, (l2 - 1) as nat);
            }
        },
    }
}

proof fn lemma_children_deeper(cs: Seq<SyntaxNode>, src: Seq<u8>, l1: nat, l2: nat)
    requires
        l1 <= l2,
    ensures
        children_tokens(cs, src, l1).len() <= children_tokens(cs, src, l2).len(),
    decreases l1, cs.len() + 1,
{
    if cs.len() > 0 {
        lemma_children_deeper(cs.drop_last(), src, l1, l2);
        lemma_node_deeper(cs.last(), src, l1, l2);
    }
}

/// A deeper walk of the same tree never gives fewer tokens.
pub proof fn lemma_deeper_gives_no_fewer_tokens(root: SyntaxNode, src: Seq<u8>, d1: nat, d2: nat)
    requires
        d1 <= d2,
    ensures
        skeleton_tokens(root, src, d1).len() <= skeleton_tokens(root, src, d2).len(),
{
    lemma_node_deeper(root, src, d1 + 1, d2 + 1);
}

/// What a skeleton says when the walk found no token.
pub const NO_STRUCTURE: &'static str = "(No structure found)";

/// Relies on std::str::from_utf8: it accepts exactly the byte sequences that
/// are valid UTF-8, and the text it gives is what they encode.
#[verifier::external_body]
fn str_from_utf8(b: &[u8]) -> (r: Option<&str>)
    ensures
        r is Some <==> valid_utf8(b@),
        r matches Some(s) ==> s@ == decode_utf8(b@),
{
    std::str::from_utf8(b).ok()
}

/// The token of the leaf that spans `start..end` of `src`, if it gives one.
fn leaf_text(src: &[u8], start: usize, end: usize) -> (r: Option<String>)
    ensures
        match r {
            Some(t) => leaf_token(src@, start, end) == Some(t@),
            None => leaf_token(src@, start, end) is None,
        },
{
    if start <= end && end <= src.len() {
        let bytes = slice_subrange(src, start, end);
        match str_from_utf8(bytes) {
            Some(text) => {
                let t = trim(text);
                if t.as_str().is_empty() {
                    None
                } else {
                    Some(t)
                }
            },
            None => None,
        }
    } else {
        None
    }
}

/// Appends the tokens of `node` to `tokens`, visiting at most `levels` more
/// levels below it.
fn collect_tokens_at_depth(node: &SyntaxNode, levels: usize, tokens: &mut Vec<String>, src: &[u8])
    ensures
        strings_view(final(tokens)@) == strings_view(old(tokens)@) + node_tokens(
            *node,
            src@,
            levels as nat,
        ),
    decreases levels,
{
    match node {
        SyntaxNode::Leaf { start_byte, end_byte } => {
            let ghost prev = tokens@;
            match leaf_text(src, *start_byte, *end_byte) {
                Some(t) => {
                    tokens.push(t);
                    assert(strings_view(tokens@) =~= strings_view(prev) + node_tokens(
                        *node,
                        src@,
                        levels as nat,
                    ));
                },
                None => {
                    assert(strings_view(tokens@) =~= strings_view(prev) + node_tokens(
                        *node,
                        src@,
                        levels as nat,
                    ));
                },
            }
        },
        SyntaxNode::Branch { children } => {
            if levels == 0 {
                assert(strings_view(tokens@) =~= strings_view(tokens@) + node_tokens(
                    *node,
                    src@,
                    levels as nat,
                ));
                return;
            }
            let ghost start = strings_view(tokens@);
            let mut i: usize = 0;
            while i < children.len()
                invariant
                    0 < levels,
                    i <= children.len(),
                    strings_view(tokens@) == start + children_tokens(
                        children@.take(i as int),
                        src@,
                        (levels - 1) as nat,
                    ),
                decreases children.len() - i,
            {
                assert(children@.take(i + 1).drop_last() =~= children@.take(i as int));
                let ghost mid = strings_view(tokens@);
                collect_tokens_at_depth(&children[i], levels - 1, tokens, src);
                assert(strings_view(tokens@) =~= start + children_tokens(
                    children@.take(i + 1),
                    src@,
                    (levels - 1) as nat,
                ));
                i = i + 1;
            }
            assert(children@.take(children.len() as int) =~= children@);
        },
    }
}

/// The tokens of the tree at `root`, maximum depth `max_depth`.
pub fn tree_tokens(root: &SyntaxNode, source: &str, max_depth: usize) -> (r: Vec<String>)
    ensures
        strings_view(r@) == skeleton_tokens(*root, encode_utf8(source@), max_depth as nat),
{
    let src = source.as_bytes();
    let mut tokens: Vec<String> = Vec::new();
    match root {
        SyntaxNode::Leaf { .. } => {
            collect_tokens_at_depth(root, 0, &mut tokens, src);
        },
        SyntaxNode::Branch { children } => {
            let mut i: usize = 0;
            while i < children.len()
                invariant
                    i <= children.len(),
                    strings_view(tokens@) == children_tokens(
                        children@.take(i as int),
                        src@,
                        max_depth as nat,
                    ),
                decreases children.len() - i,
            {
                assert(children@.take(i + 1).drop_last() =~= children@.take(i as int));
                collect_tokens_at_depth(&children[i], max_depth, &mut tokens, src);
                i = i + 1;
            }
            assert(children@.take(children.len() as int) =~= children@);
        },
    }
    assert(strings_view(Seq::<String>::empty()) =~= Seq::<Seq<char>>::empty());
    tokens
}

/// The skeleton of the tree at `root` for the source text it was parsed from.
pub fn skeleton_of_tree(root: &SyntaxNode, source: &str, max_depth: usize) -> (r: String)
    ensures
        r@ == skeleton_text(*root, encode_utf8(source@), max_depth as nat),
{
    let tokens = tree_tokens(root, source, max_depth);
    if tokens.len() == 0 {
        String::from_str(NO_STRUCTURE)
    } else {
        join_with_spaces(&tokens)
    }
}

/// The grammar registered for a file extension: `rs`, `py` and `ts`.
pub open spec fn language_of_extension(ext: Seq<char>) -> Option<LanguageId> {
    if ext == "rs"@ {
        Some(LanguageId::Rust)
    } else if ext == "py"@ {
        Some(LanguageId::Python)
    } else if ext == "ts"@ {
        Some(LanguageId::TypeScript)
    } else {
        None
    }
}

/// The grammar registered for the file extension `ext`, if any.
pub fn language_for_extension(ext: &str) -> (r: Option<LanguageId>)
    ensures
        r == language_of_extension(ext@),
{
    let e = String::from_str(ext);
    if e == String::from_str("rs") {
        Some(LanguageId::Rust)
    } else if e == String::from_str("py") {
        Some(LanguageId::Python)
    } else if e == String::from_str("ts") {
        Some(LanguageId::TypeScript)
    } else {
        None
    }
}

/// The message for an extension that has no grammar.
pub open spec fn unsupported_message(ext: Seq<char>) -> Seq<char> {
    "Language support not configured for file extension: '"@ + ext + "'"@
}

/// The skeleton text of `source` parsed with grammar `lang`, walked to
/// `max_depth`.
pub open spec fn parsed_skeleton_text(lang: LanguageId, source: Seq<char>, max_depth: nat) -> Seq<char> {
    let ts = parsed_tokens(lang, source, Seq::empty(), max_depth + 1);
    if ts.len() == 0 {
        NO_STRUCTURE@
    } else {
        space_joined(ts)
    }
}

/// What [`create_skeleton_by_depth`] gives: the skeleton made with the
/// grammar registered for `ext`, or the message that there is none.
pub open spec fn skeleton_result(source: Seq<char>, ext: Seq<char>, max_depth: nat) -> Result<
    Seq<char>,
    Seq<char>,
> {
    match language_of_extension(ext) {
        None => Err(unsupported_message(ext)),
        Some(lang) => Ok(parsed_skeleton_text(lang, source, max_depth)),
    }
}

/// The skeleton of `source_code`, parsed with the grammar for
/// `file_extension`, walked to `max_depth` (see the module's note on depth).
/// Fails for an extension with no grammar.
pub fn create_skeleton_by_depth(source_code: &str, file_extension: &str, max_depth: usize) -> (r:
    Result<String, String>)
    ensures
        result_view(r) == skeleton_result(source_code@, file_extension@, max_depth as nat),
{
    let lang = match language_for_extension(file_extension) {
        Some(l) => l,
        None => {
            let m = String::from_str("Language support not configured for file extension: '");
            return Err(m.concat(file_extension).concat("'"));
        },
    };
    let tree = parse_for_skeleton(lang, source_code, max_depth);
    let text = skeleton_of_tree(&tree, source_code, max_depth);
    Ok(text)
}

} // verus!
