use ruda::ast::HeadParam;
use ruda::formater::refactor;
use ruda::grammar::{
    analize_tree, count_tabs, generate_ast, get_globals, get_node_args, get_nodes, read_head,
    Head, Node as GNode, NodeType,
};
use ruda::lexer::{Line, NumberLit, Operators, Tokens};
use ruda::preprocessor::Errors;
use ruda::tokenize;
use ruda::tree_walker::{
    construct_token, extract_tokens_range, maybes_end, maybes_start, prep_nodes, put,
    token_cmp, ArgNodeType, CompareResult, Node, TokenOrNode,
};

fn text(s: &str) -> Tokens {
    Tokens::Text(s.to_string())
}

fn string(s: &str) -> Tokens {
    Tokens::String(s.to_string())
}

fn number(n: usize, kind: char) -> Tokens {
    Tokens::Number(NumberLit { whole: n, fraction: None }, kind)
}

fn grammar_text() -> &'static str {
    "globals [vars flag\n\tx\n;\nentry [nodes\n\t\"'any\"? set=\"nodes\"\n\t\tKW\n\tend! \n\tmode=\"a\"\n\t\tb\n;\n"
}

fn head<'a>(tree: &'a [(String, Head)], name: &str) -> &'a Head {
    &tree.iter().find(|(n, _)| n == name).unwrap().1
}

fn arg<'a>(args: &'a [(String, String)], name: &str) -> Option<&'a str> {
    args.iter().find(|(n, _)| n == name).map(|(_, v)| v.as_str())
}

#[test]
fn formats_grammar_tokens() {
    let (tokens, mut lines, mut errors) = tokenize("a  b\t\"x y\"::+= 12 3.5 7u\n", false);
    let out = refactor(tokens, &mut lines, &mut errors).ok().unwrap();
    assert_eq!(
        out,
        vec![
            text("a"),
            text("b"),
            Tokens::Tab,
            string("x y"),
            Tokens::DoubleColon,
            Tokens::Operator(Operators::AddEq),
            number(12, 'i'),
            Tokens::Number(NumberLit { whole: 3, fraction: Some("5".to_string()) }, 'f'),
            number(7, 'u'),
        ]
    );
    assert!(errors.is_empty());
    assert_eq!(lines.len(), out.len() + 1);
}

#[test]
fn formatting_reports_a_bad_number() {
    let (tokens, mut lines, mut errors) = tokenize("1a.b", false);
    let out = refactor(tokens, &mut lines, &mut errors).ok().unwrap();
    assert_eq!(out, vec![text("1a"), Tokens::Dot, text("b")]);
    assert_eq!(errors.len(), 1);
    match &errors[0] {
        Errors::InvalidNumber(line, txt) => {
            assert_eq!(*line, Line { line: 0, column: 0 });
            assert_eq!(txt, "1a");
        }
        _ => panic!("wrong error"),
    }
}

#[test]
fn formatting_joins_operators_and_keeps_an_unclosed_string() {
    let (tokens, mut lines, mut errors) = tokenize("a<= b != c \"rest of it", false);
    let out = refactor(tokens, &mut lines, &mut errors).ok().unwrap();
    assert_eq!(
        out,
        vec![
            text("a"),
            Tokens::Operator(Operators::MoreEq),
            text("b"),
            Tokens::Operator(Operators::NotEqual),
            text("c"),
            string("rest of it"),
        ]
    );
    assert_eq!(lines.len(), out.len());
}

#[test]
fn counts_tabs() {
    let tokens = vec![Tokens::Tab, Tokens::Tab, text("x")];
    assert_eq!(count_tabs(&tokens, 0), 2);
    assert_eq!(count_tabs(&tokens, 1), 1);
    assert_eq!(count_tabs(&tokens, 2), 0);
}

#[test]
fn reads_node_arguments() {
    let tokens = vec![
        text("a"),
        Tokens::Operator(Operators::Equal),
        string("1"),
        text("b"),
        Tokens::Operator(Operators::Equal),
        text("zz"),
        text("a"),
        Tokens::Operator(Operators::Equal),
        string("2"),
        Tokens::Tab,
    ];
    let mut idx = 0;
    let args = get_node_args(&tokens, &mut idx);
    assert_eq!(idx, 9);
    assert_eq!(args, vec![("a".to_string(), "2".to_string())]);
}

#[test]
fn reads_nodes_by_indentation() {
    let mut tokens = vec![
        Tokens::Tab,
        text("x"),
        Tokens::Optional,
        Tokens::Tab,
        Tokens::Tab,
        text("y"),
        Tokens::Semicolon,
    ];
    let mut idx = 0;
    let nodes = get_nodes(&mut tokens, &mut idx, 1);
    assert_eq!(nodes.len(), 1);
    match &nodes[0] {
        NodeType::Maybe(GNode { kind, arguments, nodes }) => {
            assert_eq!(*kind, text("x"));
            assert!(arguments.is_empty());
            assert_eq!(nodes.len(), 1);
            assert!(matches!(&nodes[0], NodeType::Expect(n) if n.kind == text("y")));
        }
        _ => panic!("expected an optional node"),
    }
    assert_eq!(tokens, vec![Tokens::Tab, Tokens::Tab, Tokens::Tab, Tokens::Semicolon]);
    assert_eq!(idx, 3);
}

#[test]
fn reads_a_head() {
    let mut tokens = vec![
        text("expr"),
        Tokens::SquareBracket(false),
        text("list"),
        text("one"),
        Tokens::Tab,
        text("z"),
        Tokens::Semicolon,
    ];
    let mut idx = 0;
    let h = read_head(&mut tokens, &mut idx).unwrap();
    assert_eq!(h.name, "expr");
    assert!(matches!(&h.parameters[0], HeadParam::Array(n) if n == "list"));
    assert!(matches!(&h.parameters[1], HeadParam::Value(n) if n == "one"));
    assert_eq!(h.nodes.len(), 1);
    assert_eq!(idx, 5);
}

#[test]
fn a_closed_bracket_gives_no_head() {
    let mut tokens = vec![text("expr"), Tokens::SquareBracket(true), Tokens::Tab];
    let mut idx = 0;
    assert!(read_head(&mut tokens, &mut idx).is_none());
    assert_eq!(idx, 1);
    let mut end = 3;
    assert!(read_head(&mut tokens, &mut end).is_none());
}

#[test]
fn reads_a_whole_grammar() {
    let (tree, globals) = generate_ast(grammar_text()).unwrap();
    assert_eq!(tree.len(), 2);
    let g = head(&tree, "globals");
    assert_eq!(g.parameters.len(), 2);
    assert!(matches!(&g.nodes[0], NodeType::Expect(n) if n.kind == text("x")));
    assert_eq!(globals.len(), 2);
    assert!(matches!(&globals[0], HeadParam::Array(n) if n == "vars"));
    assert!(matches!(&globals[1], HeadParam::Value(n) if n == "flag"));

    let e = head(&tree, "entry");
    assert!(matches!(&e.parameters[0], HeadParam::Array(n) if n == "nodes"));
    assert_eq!(e.nodes.len(), 3);
    match &e.nodes[0] {
        NodeType::Maybe(n) => {
            assert_eq!(n.kind, string("'any"));
            assert_eq!(arg(&n.arguments, "set"), Some("nodes"));
            assert!(matches!(&n.nodes[0], NodeType::Expect(k) if k.kind == text("KW")));
        }
        _ => panic!("expected an optional node"),
    }
    assert!(matches!(&e.nodes[1], NodeType::Command(n) if n.kind == text("end")));
    match &e.nodes[2] {
        NodeType::ArgsCondition(c) => {
            assert_eq!(arg(&c.params, "mode"), Some("a"));
            assert!(matches!(&c.nodes[0], NodeType::Expect(k) if k.kind == text("b")));
        }
        _ => panic!("expected a condition"),
    }
}

#[test]
fn analyses_formatted_tokens() {
    let (tokens, mut lines, mut errors) = tokenize(grammar_text(), false);
    let mut formatted = refactor(tokens, &mut lines, &mut errors).ok().unwrap();
    let (tree, globals) = analize_tree(&mut formatted);
    assert_eq!(tree.len(), 2);
    assert_eq!(globals.len(), 2);
    assert_eq!(get_globals(&tree).len(), 2);
}

#[test]
fn a_grammar_without_globals_has_none() {
    let (tree, globals) = generate_ast("entry\n\tx\n;\n").unwrap();
    assert_eq!(tree.len(), 1);
    assert!(globals.is_empty());
}

#[test]
fn compares_grammar_and_source_tokens() {
    assert_eq!(token_cmp(&string("'int"), &number(1, 'i')), CompareResult::Eq);
    assert_eq!(token_cmp(&string("'int"), &number(1, 'f')), CompareResult::NotEq);
    assert_eq!(token_cmp(&string("'float"), &number(1, 'f')), CompareResult::Eq);
    assert_eq!(token_cmp(&string("'number"), &number(1, 'u')), CompareResult::Eq);
    assert_eq!(token_cmp(&string("'string"), &string("hi")), CompareResult::Eq);
    assert_eq!(token_cmp(&string("'string"), &text("hi")), CompareResult::NotEq);
    assert_eq!(token_cmp(&string("'text"), &text("hi")), CompareResult::Eq);
    assert_eq!(token_cmp(&string("'char"), &Tokens::Char('c')), CompareResult::Eq);
    assert_eq!(token_cmp(&string("'eof"), &Tokens::EndOfFile), CompareResult::Eq);
    assert_eq!(token_cmp(&string("'any"), &Tokens::Colon), CompareResult::Eq);
    assert_eq!(token_cmp(&string("fn"), &text("fn")), CompareResult::Eq);
    assert_eq!(token_cmp(&string("fn"), &text("fx")), CompareResult::NotEq);
    assert_eq!(token_cmp(&text("expr"), &Tokens::Colon), CompareResult::Ident("expr".to_string()));
    assert_eq!(token_cmp(&Tokens::Colon, &Tokens::Colon), CompareResult::Eq);
    assert_eq!(token_cmp(&Tokens::Colon, &Tokens::Dot), CompareResult::NotEq);
}

fn node(kind: Tokens) -> GNode {
    GNode { kind, arguments: Vec::new(), nodes: Vec::new() }
}

#[test]
fn finds_runs_of_optional_nodes() {
    let syntax = vec![
        NodeType::Expect(node(text("a"))),
        NodeType::Maybe(node(text("b"))),
        NodeType::Maybe(node(text("c"))),
        NodeType::Command(node(text("end"))),
        NodeType::Maybe(node(text("d"))),
    ];
    assert_eq!(maybes_end(&syntax, 1), 3);
    assert_eq!(maybes_end(&syntax, 0), 0);
    assert_eq!(maybes_end(&syntax, 4), 5);
    assert_eq!(maybes_start(&syntax, 2), 0);
    assert_eq!(maybes_start(&syntax, 4), 4);
    assert_eq!(maybes_start(&syntax, 3), 4);
    assert_eq!(extract_tokens_range(&syntax, (0, 5)), vec![text("a"), text("b"), text("c"), text("d")]);
    assert!(extract_tokens_range(&syntax, (3, 1)).is_empty());
}

#[test]
fn the_first_optional_nodes_start_at_zero() {
    let syntax = vec![NodeType::Maybe(node(text("b"))), NodeType::Maybe(node(text("c")))];
    assert_eq!(maybes_start(&syntax, 1), 0);
}

#[test]
fn builds_nodes_from_tokens() {
    let n = construct_token(&text("a"), &string("'text"));
    assert_eq!(n.name, text("a"));
    assert_eq!(n.data, Some(string("'text")));
    assert!(n.nodes.is_empty());
    let m = construct_token(&text("a"), &Tokens::Colon);
    assert_eq!(m.data, None);
}

#[test]
fn records_found_tokens_in_parts() {
    let mut list = ArgNodeType::Array(Vec::new());
    ruda::tree_walker::set(TokenOrNode::Token(text("a")), &string("'text"), &mut list);
    ruda::tree_walker::set(
        TokenOrNode::Node(Node { name: text("inner"), data: None, nodes: Vec::new() }),
        &Tokens::Colon,
        &mut list,
    );
    let arr = list.get_array();
    assert_eq!(arr.len(), 2);
    assert_eq!(arr[0].data, Some(string("'text")));
    assert_eq!(arr[1].name, text("inner"));

    let mut single = ArgNodeType::Value(Node { name: text("'none"), data: None, nodes: Vec::new() });
    ruda::tree_walker::set(TokenOrNode::Token(text("b")), &Tokens::Colon, &mut single);
    assert_eq!(single.get_value().name, text("b"));
}

#[test]
fn puts_entries_as_a_map() {
    let mut m: Vec<(String, u8)> = Vec::new();
    put(&mut m, "a".to_string(), 1);
    put(&mut m, "b".to_string(), 2);
    put(&mut m, "a".to_string(), 3);
    assert_eq!(m, vec![("a".to_string(), 3), ("b".to_string(), 2)]);
}

#[test]
fn prepares_the_parts_of_a_head() {
    let (tree, _) = generate_ast(grammar_text()).unwrap();
    let parts = prep_nodes(&tree, &"globals".to_string()).unwrap();
    assert_eq!(parts.len(), 2);
    assert!(matches!(&parts[0], (n, ArgNodeType::Array(v)) if n == "vars" && v.is_empty()));
    match &parts[1] {
        (n, ArgNodeType::Value(v)) => {
            assert_eq!(n, "flag");
            assert_eq!(v.name, text("'none"));
            assert!(v.data.is_none());
        }
        _ => panic!("expected a single node"),
    }
    assert!(prep_nodes(&tree, &"missing".to_string()).is_none());
}
