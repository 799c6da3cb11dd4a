use ruda::ast::{HeadParam, ParseError};
use ruda::grammar::{generate_ast, Head, Node as GNode, NodeType};
use ruda::lexer::{NumberLit, Tokens};
use ruda::tree_walker::{ArgNodeType, Node};
use ruda::walker::{
    copy_node, generate_tree, get_arg, parse_node, parse_scope, parse_uint_exec, split_spaces,
    split_words, ReturnActions,
};

fn text(s: &str) -> Tokens {
    Tokens::Text(s.to_string())
}

fn string(s: &str) -> Tokens {
    Tokens::String(s.to_string())
}

fn args(list: &[(&str, &str)]) -> Vec<(String, String)> {
    list.iter().map(|(k, v)| (k.to_string(), v.to_string())).collect()
}

fn gnode(kind: Tokens, a: &[(&str, &str)]) -> GNode {
    GNode { kind, arguments: args(a), nodes: Vec::new() }
}

fn part<'a>(n: &'a Node, name: &str) -> &'a ArgNodeType {
    &n.nodes.iter().find(|(k, _)| k == name).unwrap().1
}

#[test]
fn walks_a_grammar_with_a_nested_head() {
    let grammar = "entry [items\n\titem? set=\"items\" back=\"0\"\n;\nitem name\n\t\"'text\" set=\"name\"\n;\n";
    let (tree, globals) = generate_ast(grammar).unwrap();
    let tokens = vec![text("x"), text("y")];
    let (root, g) = generate_tree(&tokens, (&tree, &globals), &Vec::new()).unwrap();
    assert_eq!(root.name, text("entry"));
    assert!(g.is_empty());
    match part(&root, "items") {
        ArgNodeType::Array(items) => {
            assert_eq!(items.len(), 2);
            for (item, word) in items.iter().zip(["x", "y"]) {
                assert_eq!(item.name, text("item"));
                match part(item, "name") {
                    ArgNodeType::Value(v) => {
                        assert_eq!(v.name, text(word));
                        assert_eq!(v.data, Some(string("'text")));
                    }
                    _ => panic!("expected a single node"),
                }
            }
        }
        _ => panic!("expected a list"),
    }
}

#[test]
fn a_token_of_the_wrong_kind_fails_the_walk() {
    let (tree, globals) = generate_ast("entry\n\t\"'number\"\n;\n").unwrap();
    assert!(generate_tree(&vec![text("x")], (&tree, &globals), &Vec::new()).is_none());
    let mut idx = 0;
    let mut g = Vec::new();
    let mut fuel = 100;
    match parse_node(&vec![text("x")], &tree, &Vec::new(), &mut idx, &"entry".to_string(), &mut g, &mut fuel) {
        Err((ParseError::Expected(expected, found), hard)) => {
            assert_eq!(expected, string("'number"));
            assert_eq!(found, text("x"));
            assert!(!hard);
        }
        _ => panic!("expected an error"),
    }
    let number = Tokens::Number(NumberLit { whole: 4, fraction: None }, 'i');
    assert!(generate_tree(&vec![number], (&tree, &globals), &Vec::new()).is_some());
}

#[test]
fn the_walk_stops_when_its_steps_are_used_up() {
    let (tree, _) = generate_ast("entry\n\t\"'text\"\n;\n").unwrap();
    for budget in [0usize, 1] {
        let mut idx = 0;
        let mut g = Vec::new();
        let mut fuel = budget;
        let r = parse_node(&vec![text("x")], &tree, &Vec::new(), &mut idx, &"entry".to_string(), &mut g, &mut fuel);
        assert!(matches!(r, Err((ParseError::StepLimit, true))));
        assert_eq!(fuel, 0);
    }
}

#[test]
fn an_optional_head_that_fails_softly_is_passed() {
    let entry = Head {
        name: "entry".to_string(),
        parameters: vec![HeadParam::Value("word".to_string())],
        nodes: vec![
            NodeType::Maybe(gnode(text("num"), &[])),
            NodeType::Expect(gnode(string("'text"), &[("set", "word")])),
        ],
    };
    let num = Head {
        name: "num".to_string(),
        parameters: vec![],
        nodes: vec![NodeType::Expect(gnode(string("'number"), &[]))],
    };
    let tree = vec![("entry".to_string(), entry), ("num".to_string(), num)];
    let (root, _) = generate_tree(&vec![text("x")], (&tree, &Vec::new()), &Vec::new()).unwrap();
    match part(&root, "word") {
        ArgNodeType::Value(v) => assert_eq!(v.name, text("x")),
        _ => panic!("expected a single node"),
    }
}

fn scope(
    tokens: &Vec<Tokens>,
    params: &[(&str, &str)],
    nodes: Vec<NodeType>,
    data: &mut Vec<(String, ArgNodeType)>,
) -> (Result<Option<(usize, ReturnActions)>, (ParseError, bool)>, usize, bool) {
    let mut idx = 0;
    let mut hard = false;
    let mut globals = Vec::new();
    let mut fuel = 1000;
    let tree = Vec::new();
    let r = parse_scope(tokens, &tree, &args(params), &mut idx, &nodes, data, &mut hard, &mut globals, &mut fuel);
    (r, idx, hard)
}

#[test]
fn a_scope_ends_with_its_ending_token() {
    let tokens = vec![text("a"), Tokens::Semicolon];
    let nodes = vec![NodeType::Maybe(gnode(string("'text"), &[("back", "0")]))];
    let (r, idx, _) = scope(&tokens, &[("endwith", ";")], nodes, &mut Vec::new());
    assert!(matches!(r, Ok(Some((0, ReturnActions::Chain)))));
    assert_eq!(idx, 2);
}

#[test]
fn a_scope_checks_the_token_it_ends_on() {
    let tokens = vec![text("a"), Tokens::Semicolon];
    let nodes = vec![NodeType::Expect(gnode(string("'text"), &[]))];
    let (r, idx, _) = scope(&tokens, &[("endwith", ";")], nodes, &mut Vec::new());
    match r {
        Err((ParseError::WrongEndingToken(expected, found), false)) => {
            assert_eq!(expected, Tokens::Semicolon);
            assert_eq!(found, Tokens::Semicolon);
        }
        _ => panic!("expected a wrong ending token"),
    }
    assert_eq!(idx, 1);
}

#[test]
fn commands_end_and_check_parts() {
    let tokens = vec![text("a")];
    let (r, idx, _) = scope(&tokens, &[], vec![NodeType::Command(gnode(text("end"), &[]))], &mut Vec::new());
    assert!(matches!(r, Ok(Some((0, ReturnActions::Chain)))));
    assert_eq!(idx, 0);

    let mut data = vec![("items".to_string(), ArgNodeType::Array(Vec::new()))];
    let nodes = vec![NodeType::Command(gnode(text("notempty"), &[("nodes", "items")]))];
    let (r, _, hard) = scope(&tokens, &[], nodes, &mut data);
    match r {
        Err((ParseError::Expected(kind, found), true)) => {
            assert_eq!(kind, text("notempty"));
            assert_eq!(found, text("a"));
        }
        _ => panic!("expected a hard error"),
    }
    assert!(hard);
}

#[test]
fn a_scope_that_reaches_the_end_of_the_tokens_goes_on() {
    let nodes = vec![NodeType::Maybe(gnode(string("'text"), &[]))];
    let (r, idx, _) = scope(&Vec::new(), &[], nodes, &mut Vec::new());
    assert!(matches!(r, Ok(Some((0, ReturnActions::Advance)))));
    assert_eq!(idx, 0);
    let nodes = vec![NodeType::Expect(gnode(string("'text"), &[]))];
    let (r, _, _) = scope(&Vec::new(), &[], nodes, &mut Vec::new());
    assert!(matches!(r, Err((ParseError::FileEndPeaceful, true))));
}

#[test]
fn splits_words_and_parses_numbers() {
    assert_eq!(split_words(" a\tbc  d "), vec!["a".to_string(), "bc".to_string(), "d".to_string()]);
    assert!(split_words("   ").is_empty());
    assert_eq!(split_spaces("a  b"), vec!["a".to_string(), String::new(), "b".to_string()]);
    assert_eq!(split_spaces(""), vec![String::new()]);
    assert_eq!(parse_uint_exec("42"), Some(42));
    assert_eq!(parse_uint_exec("+7"), Some(7));
    assert_eq!(parse_uint_exec("+"), None);
    assert_eq!(parse_uint_exec("-1"), None);
    assert_eq!(parse_uint_exec("99999999999999999999999"), None);
    let a = args(&[("k", "1"), ("k", "2")]);
    assert_eq!(get_arg(&a, "k").map(|s| s.as_str()), Some("1"));
    assert!(get_arg(&a, "x").is_none());
}

#[test]
fn copies_nodes_deeply() {
    let inner = Node { name: text("in"), data: Some(string("'text")), nodes: Vec::new() };
    let n = Node {
        name: text("out"),
        data: None,
        nodes: vec![
            ("v".to_string(), ArgNodeType::Value(inner)),
            ("a".to_string(), ArgNodeType::Array(vec![Node { name: text("e"), data: None, nodes: Vec::new() }])),
        ],
    };
    let c = copy_node(&n);
    assert_eq!(c.name, text("out"));
    assert_eq!(c.nodes.len(), 2);
    match &c.nodes[0].1 {
        ArgNodeType::Value(v) => assert_eq!(v.data, Some(string("'text"))),
        _ => panic!(),
    }
    match &c.nodes[1].1 {
        ArgNodeType::Array(v) => assert_eq!(v[0].name, text("e")),
        _ => panic!(),
    }
}

#[test]
fn a_walk_with_steps_left_is_the_same_under_a_larger_budget() {
    let grammar = "entry [items\n\titem? set=\"items\" back=\"0\"\n;\nitem name\n\t\"'text\" set=\"name\"\n;\n";
    let (tree, _) = generate_ast(grammar).unwrap();
    let tokens = vec![text("x"), text("y"), text("z")];
    let mut runs = Vec::new();
    for budget in [200usize, 5000] {
        let mut idx = 0;
        let mut g = Vec::new();
        let mut fuel = budget;
        let r = parse_node(&tokens, &tree, &Vec::new(), &mut idx, &"entry".to_string(), &mut g, &mut fuel);
        let root = r.ok().unwrap();
        assert!(fuel > 0);
        runs.push((root, idx, budget - fuel));
    }
    assert_eq!(runs[0].1, runs[1].1);
    assert_eq!(runs[0].2, runs[1].2);
    assert!(same_node(&runs[0].0, &runs[1].0));
    match part(&runs[0].0, "items") {
        ArgNodeType::Array(items) => assert_eq!(items.len(), 3),
        _ => panic!("expected a list"),
    }
}

fn same_node(a: &Node, b: &Node) -> bool {
    a.name == b.name
        && a.data == b.data
        && a.nodes.len() == b.nodes.len()
        && a.nodes.iter().zip(b.nodes.iter()).all(|((ka, pa), (kb, pb))| {
            ka == kb
                && match (pa, pb) {
                    (ArgNodeType::Value(x), ArgNodeType::Value(y)) => same_node(x, y),
                    (ArgNodeType::Array(xs), ArgNodeType::Array(ys)) => {
                        xs.len() == ys.len() && xs.iter().zip(ys.iter()).all(|(x, y)| same_node(x, y))
                    }
                    _ => false,
                }
        })
}
