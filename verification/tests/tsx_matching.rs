use match_tree::language::SigilSyntax;
use match_tree::match_tree::{
    does_node_match_exactly, extract_var_from_node, match_end_non_recursive, match_node_non_recursive,
};
use match_tree::meta_var::MetaVarEnv;
use match_tree::node::Node;
use match_tree::pattern::Pattern;

fn tsx() -> SigilSyntax {
    SigilSyntax { sigil: '$' }
}

fn to_node(n: tree_sitter::Node, src: &str) -> Node {
    let mut children = Vec::new();
    let mut i = 0;
    while i < n.child_count() {
        children.push(to_node(n.child(i).unwrap(), src));
        i += 1;
    }
    Node {
        id: n.id(),
        kind_id: n.kind_id(),
        text: n.utf8_text(src.as_bytes()).unwrap().to_string(),
        start: n.start_byte(),
        end: n.end_byte(),
        named: n.is_named(),
        children,
    }
}

fn to_pattern(n: tree_sitter::Node, src: &str) -> Pattern {
    if let Some(meta_var) = extract_var_from_node(&to_node(n, src), &tsx()) {
        Pattern::MetaVar { meta_var }
    } else if n.child_count() == 0 {
        Pattern::Terminal {
            text: n.utf8_text(src.as_bytes()).unwrap().to_string(),
            is_named: n.is_named(),
            kind_id: n.kind_id(),
        }
    } else {
        let mut children = Vec::new();
        let mut i = 0;
        while i < n.child_count() {
            let child = n.child(i).unwrap();
            if !child.is_missing() {
                children.push(to_pattern(child, src));
            }
            i += 1;
        }
        Pattern::Internal { kind_id: n.kind_id(), children }
    }
}

fn parse_tree(src: &str) -> tree_sitter::Tree {
    let mut parser = tree_sitter::Parser::new();
    parser
        .set_language(&tree_sitter_typescript::LANGUAGE_TSX.into())
        .unwrap();
    parser.parse(src, None).unwrap()
}

fn root(src: &str) -> Node {
    to_node(parse_tree(src).root_node(), src)
}

fn pattern(src: &str) -> Pattern {
    let tree = parse_tree(src);
    let mut node = tree.root_node();
    assert!(node.child_count() > 0);
    while node.child_count() == 1 {
        node = node.child(0).unwrap();
    }
    let goal = to_pattern(node, src);
    assert!(goal.is_well_formed());
    assert!(!goal.is_unnamed_ellipsis());
    goal
}

fn find_node_recursive<'t>(goal: &Pattern, node: &'t Node, env: &mut MetaVarEnv<'t>) -> Option<&'t Node> {
    match_node_non_recursive(goal, node, env).or_else(|| {
        node.children
            .iter()
            .find_map(|sub| find_node_recursive(goal, sub, env))
    })
}

fn sexp(node: &Node) -> String {
    let mut out = String::new();
    if node.named {
        out.push_str(&format!("({}:{}", node.kind_id, node.text.replace('\n', " ")));
    } else {
        out.push_str(&format!("[{}", node.text));
    }
    for c in &node.children {
        out.push(' ');
        out.push_str(&sexp(c));
    }
    out.push_str(if node.named { ")" } else { "]" });
    out
}

fn check_match(s1: &str, s2: &str) {
    let goal = pattern(s1);
    let cand = root(s2);
    let mut env = MetaVarEnv::new();
    let ret = find_node_recursive(&goal, &cand, &mut env);
    assert!(ret.is_some(), "goal: {}, candidate: {}", s1, sexp(&cand));
}

fn check_non_match(s1: &str, s2: &str) {
    let goal = pattern(s1);
    let cand = root(s2);
    let mut env = MetaVarEnv::new();
    let ret = find_node_recursive(&goal, &cand, &mut env);
    assert!(ret.is_none());
}

fn texts(nodes: &[&Node]) -> Vec<String> {
    nodes.iter().map(|n| n.text.clone()).collect()
}

#[test]
fn test_simple_match() {
    check_match("const a = 123", "const a=123");
    check_non_match("const a = 123", "var a = 123");
}

#[test]
fn test_nested_match() {
    check_match("const a = 123", "function() {const a= 123;}");
    check_match("const a = 123", "class A { constructor() {const a= 123;}}");
    check_match(
        "const a = 123",
        "for (let a of []) while (true) { const a = 123;}",
    );
}

#[test]
fn test_should_exactly_match() {
    check_match(
        "function foo() { let a = 123; }",
        "function foo() { let a = 123; }",
    );
    check_non_match(
        "function foo() { let a = 123; }",
        "function bar() { let a = 123; }",
    );
}

#[test]
fn test_match_inner() {
    check_match(
        "function bar() { let a = 123; }",
        "function foo() { function bar() {let a = 123; }}",
    );
    check_non_match(
        "function foo() { let a = 123; }",
        "function foo() { function bar() {let a = 123; }}",
    );
}

#[test]
fn test_single_ellipsis() {
    check_match("foo($$$)", "foo(a, b, c)");
    check_match("foo($$$)", "foo()");
}

#[test]
fn test_named_ellipsis() {
    check_match("foo($$$A, c)", "foo(a, b, c)");
    check_match("foo($$$A, b, c)", "foo(a, b, c)");
    check_match("foo($$$A, a, b, c)", "foo(a, b, c)");
    check_non_match("foo($$$A, a, b, c)", "foo(b, c)");
}

#[test]
fn test_leading_ellipsis() {
    check_match("foo($$$, c)", "foo(a, b, c)");
    check_match("foo($$$, b, c)", "foo(a, b, c)");
    check_match("foo($$$, a, b, c)", "foo(a, b, c)");
    check_non_match("foo($$$, a, b, c)", "foo(b, c)");
}

#[test]
fn test_trailing_ellipsis() {
    check_match("foo(a, $$$)", "foo(a, b, c)");
    check_match("foo(a, b, $$$)", "foo(a, b, c)");
    check_non_match("foo(a, b, c, $$$)", "foo(b, c)");
}

#[test]
fn test_meta_var_named() {
    check_match("return $A", "return 123;");
    check_match("return $_", "return 123;");
    check_non_match("return $A", "return;");
    check_non_match("return $_", "return;");
    check_match("return $$A", "return;");
    check_match("return $$_A", "return;");
}

#[test]
fn test_meta_var_multiple_occurrence() {
    check_match("$A($$$)", "test(123)");
    check_match("$A($B)", "test(123)");
    check_non_match("$A($A)", "test(aaa)");
    check_non_match("$A($A)", "test(123)");
    check_non_match("$A($A, $A)", "test(123, 456)");
    check_match("$A($A)", "test(test)");
    check_non_match("$A($A)", "foo(bar)");
}

#[test]
fn test_string() {
    check_match("'a'", "'a'");
    check_match("'abcdefg'", "'abcdefg'");
    check_match("`abcdefg`", "`abcdefg`");
    check_non_match("'a'", "'b'");
    check_non_match("'abcdefg'", "'gggggg'");
}

#[test]
fn test_skip_trivial_node() {
    check_match("foo($A, $B)", "foo(a, b,)");
    check_match("class A { b() {}}", "class A { get b() {}}");
}

#[test]
fn test_trivia_in_pattern() {
    check_match("foo($A, $B,)", "foo(a, b,)");
    check_non_match("foo($A, $B,)", "foo(a, b)");
    check_match("class A { get b() {}}", "class A { get b() {}}");
    check_non_match("class A { get b() {}}", "class A { b() {}}");
}

fn find_end_recursive(goal: &Pattern, node: &Node) -> Option<usize> {
    match_end_non_recursive(goal, node).or_else(|| {
        node.children
            .iter()
            .find_map(|sub| find_end_recursive(goal, sub))
    })
}

fn check_end(s1: &str, s2: &str) -> Option<usize> {
    let goal = pattern(s1);
    let cand = root(s2);
    find_end_recursive(&goal, &cand)
}

#[test]
fn test_match_end() {
    let end = check_end("return $A", "return 123 /* trivia */");
    assert_eq!(end.expect("should work"), 10);
    let end = check_end("return f($A)", "return f(1,) /* trivia */");
    assert_eq!(end.expect("should work"), 12);
}

#[test]
fn test_ellipsis_end() {
    let end = check_end(
        "import {$$$A, B, $$$C} from 'a'",
        "import {A, B, C} from 'a'",
    );
    assert_eq!(end.expect("must match"), 25);
}

#[test]
fn end_matcher_asks_for_a_named_node_too() {
    assert_eq!(check_end("return $A", "return;"), None);
    assert_eq!(check_end("return $_", "return;"), None);
    assert_eq!(check_end("return $$A", "return;"), Some(7));
    assert_eq!(check_end("return $$_A", "return;"), Some(7));
    assert_eq!(check_end("return $A", "return 123;"), Some(10));
    assert_eq!(check_end("foo($A, $B)", "foo(a, b,)"), Some(10));
    assert_eq!(check_end("foo($A, $B,)", "foo(a, b)"), None);
}

#[test]
fn test_gh_1087() {
    check_match("($P) => $F($P)", "(x) => bar(x)");
}

#[test]
fn named_ellipsis_binds_the_shortest_run() {
    let goal = pattern("foo($$$A, c)");
    let cand = root("foo(a, b, c)");
    let mut env = MetaVarEnv::new();
    assert!(find_node_recursive(&goal, &cand, &mut env).is_some());
    let run = env.get_multiple_matches("A");
    assert_eq!(texts(&run), vec!["a", ",", "b"]);
    let named: Vec<&Node> = run.into_iter().filter(|n| n.named).collect();
    assert_eq!(texts(&named), vec!["a", "b"]);
    assert!(env.get_match("A").is_none());
}

#[test]
fn ellipsis_binds_nothing_before_the_first_argument() {
    let goal = pattern("foo($$$A, a, b, c)");
    let cand = root("foo(a, b, c)");
    let mut env = MetaVarEnv::new();
    assert!(find_node_recursive(&goal, &cand, &mut env).is_some());
    assert!(env.get_multiple_matches("A").is_empty());
}

#[test]
fn last_ellipsis_matches_when_no_statement_is_left() {
    let goal = pattern("a; $$$REST");
    let one = root("a;");
    let mut env = MetaVarEnv::new();
    assert_eq!(match_node_non_recursive(&goal, &one, &mut env).map(|n| n.end), Some(2));
    assert!(env.get_multiple_matches("REST").is_empty());
    assert_eq!(match_end_non_recursive(&goal, &one), Some(2));
    let three = root("a; b; c;");
    let mut env = MetaVarEnv::new();
    assert!(match_node_non_recursive(&goal, &three, &mut env).is_some());
    assert_eq!(texts(&env.get_multiple_matches("REST")), vec!["b;", "c;"]);
    assert_eq!(match_end_non_recursive(&goal, &three), Some(8));
}

#[test]
fn captures_hold_the_nodes_matched() {
    let goal = pattern("foo($A, $B)");
    let cand = root("foo(a, b,)");
    let mut env = MetaVarEnv::new();
    let found = find_node_recursive(&goal, &cand, &mut env).expect("should match");
    assert_eq!(found.text, "foo(a, b,)");
    assert_eq!(env.get_match("A").map(|n| n.text.as_str()), Some("a"));
    assert_eq!(env.get_match("B").map(|n| n.text.as_str()), Some("b"));
    assert_eq!(env.get_match("B").map(|n| (n.start, n.end)), Some((7, 8)));
}

#[test]
fn parameter_and_its_use_are_equal_by_text() {
    let cand = root("(x) => bar(x)");
    let arrow = &cand.children[0].children[0];
    let parameter = &arrow.children[0].children[1];
    let argument = &arrow.children[2].children[1].children[1];
    assert_eq!(parameter.text, "x");
    assert_eq!(argument.text, "x");
    assert_ne!(parameter.kind_id, argument.kind_id);
    assert_eq!(parameter.children.len(), 1);
    assert!(argument.children.is_empty());
    assert!(does_node_match_exactly(parameter, argument));
    assert!(does_node_match_exactly(argument, parameter));
    let callee = &arrow.children[2].children[0];
    assert!(!does_node_match_exactly(parameter, callee));
}

#[test]
fn pattern_of_a_lone_ellipsis_is_told_apart() {
    let tree = parse_tree("$$$");
    let mut node = tree.root_node();
    while node.child_count() == 1 {
        node = node.child(0).unwrap();
    }
    let goal = to_pattern(node, "$$$");
    assert!(goal.is_well_formed());
    assert!(goal.is_unnamed_ellipsis());
}
