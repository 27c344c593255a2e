use context_builder::symbol_extractor::{
    create_skeleton_by_depth, language_for_extension, skeleton_of_tree, tree_tokens, LanguageId,
    SyntaxNode,
};

fn token_count(skeleton: &str) -> usize {
    if skeleton == "(No structure found)" {
        0
    } else {
        skeleton.split(' ').count()
    }
}

#[test]
fn depth_zero_of_a_function_shows_no_nested_tokens() {
    let r = create_skeleton_by_depth("fn main() {}", "rs", 0).unwrap();
    assert_eq!(r, "(No structure found)");
}

#[test]
fn depth_one_shows_the_function_head() {
    let r = create_skeleton_by_depth("fn main() {}", "rs", 1).unwrap();
    assert_eq!(r, "fn main");
}

#[test]
fn depth_two_shows_the_whole_small_function() {
    let r = create_skeleton_by_depth("fn main() {}", "rs", 2).unwrap();
    assert_eq!(r, "fn main ( ) { }");
}

#[test]
fn deeper_skeletons_never_have_fewer_tokens() {
    let src = "struct P { x: i32 }\nimpl P {\n    fn get(&self) -> i32 { self.x + 1 }\n}\n";
    let mut last = 0;
    for depth in 0..8 {
        let n = token_count(&create_skeleton_by_depth(src, "rs", depth).unwrap());
        assert!(n >= last, "depth {} gave {} tokens after {}", depth, n, last);
        last = n;
    }
    assert!(last > 10);
}

#[test]
fn python_and_typescript_are_supported() {
    let py = create_skeleton_by_depth("def f():\n    return 1\n", "py", 1).unwrap();
    assert!(py.starts_with("def f"));
    let ts = create_skeleton_by_depth("let x: number = 1;", "ts", 3).unwrap();
    assert!(ts.contains("let") && ts.contains("x"));
}

#[test]
fn unknown_extension_is_rejected() {
    let r = create_skeleton_by_depth("x = 1", "zig", 3);
    assert_eq!(
        r,
        Err("Language support not configured for file extension: 'zig'".to_string())
    );
}

#[test]
fn extensions_map_to_grammars() {
    assert_eq!(language_for_extension("rs"), Some(LanguageId::Rust));
    assert_eq!(language_for_extension("py"), Some(LanguageId::Python));
    assert_eq!(language_for_extension("ts"), Some(LanguageId::TypeScript));
    assert_eq!(language_for_extension("tsx"), None);
    assert_eq!(language_for_extension(""), None);
}

fn leaf(a: usize, b: usize) -> SyntaxNode {
    SyntaxNode::Leaf { start_byte: a, end_byte: b }
}

#[test]
fn tree_walk_counts_levels_from_the_root() {
    // "a (b c)": the root has a leaf and a branch holding two leaves.
    let src = "a (b c)";
    let tree = SyntaxNode::Branch {
        children: vec![
            leaf(0, 1),
            SyntaxNode::Branch { children: vec![leaf(3, 4), leaf(5, 6)] },
        ],
    };
    assert_eq!(tree_tokens(&tree, src, 0), vec!["a".to_string()]);
    assert_eq!(tree_tokens(&tree, src, 1), vec!["a", "b", "c"]);
    assert_eq!(skeleton_of_tree(&tree, src, 1), "a b c");
}

#[test]
fn blank_and_out_of_range_leaves_give_no_token() {
    let src = "x   y";
    let tree = SyntaxNode::Branch { children: vec![leaf(0, 2), leaf(1, 4), leaf(4, 5), leaf(3, 99)] };
    assert_eq!(skeleton_of_tree(&tree, src, 0), "x y");
    let empty = SyntaxNode::Branch { children: vec![leaf(1, 3)] };
    assert_eq!(skeleton_of_tree(&empty, src, 5), "(No structure found)");
}

#[test]
fn leaf_text_is_cut_at_utf8_boundaries_only() {
    let src = "é z";
    // Bytes 0..1 split the two-byte 'é': not valid UTF-8, so no token.
    let tree = SyntaxNode::Branch { children: vec![leaf(0, 1), leaf(0, 2), leaf(3, 4)] };
    assert_eq!(skeleton_of_tree(&tree, src, 0), "é z");
}
