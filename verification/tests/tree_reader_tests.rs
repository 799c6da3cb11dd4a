use ruda::lexer::{Operators, Tokens};
use ruda::tree_reader::{
    count_refs, get_break_ident, get_generics_decl, get_ident, get_loop_ident, get_nested_ident,
    get_operator, get_token, get_traits, public, step_inside_arr, step_inside_val,
    try_get_ident, try_step_inside_arr, try_step_inside_val,
};
use ruda::tree_walker::{ArgNodeType, Node};
use ruda::types::ErrType;

fn text(s: &str) -> Tokens {
    Tokens::Text(s.to_string())
}

fn leaf(name: Tokens) -> Node {
    Node { name, data: None, nodes: Vec::new() }
}

fn with(name: Tokens, parts: Vec<(&str, ArgNodeType)>) -> Node {
    Node { name, data: None, nodes: parts.into_iter().map(|(k, v)| (k.to_string(), v)).collect() }
}

fn value(n: Node) -> ArgNodeType {
    ArgNodeType::Value(n)
}

fn named(word: Tokens) -> Node {
    with(text("x"), vec![("identifier", value(with(text("ident"), vec![("identifier", value(leaf(word)))])))])
}

fn path(words: &[&str]) -> Node {
    let parts = words.iter().map(|w| with(text("part"), vec![("identifier", value(leaf(text(w))))])).collect();
    with(text("path"), vec![("nodes", ArgNodeType::Array(parts))])
}

#[test]
fn steps_inside_parts() {
    let n = with(
        text("n"),
        vec![("one", value(leaf(text("a")))), ("many", ArgNodeType::Array(vec![leaf(text("b")), leaf(text("c"))]))],
    );
    assert_eq!(step_inside_val(&n, "one").name, text("a"));
    assert_eq!(step_inside_arr(&n, "many").len(), 2);
    assert!(try_step_inside_val(&n, "none").is_none());
    assert_eq!(try_step_inside_val(&n, "one").unwrap().name, text("a"));
    assert!(try_step_inside_arr(&n, "none").is_none());
    assert_eq!(try_step_inside_arr(&n, "many").unwrap()[1].name, text("c"));
    assert_eq!(*get_token(&n, "one"), text("a"));
}

#[test]
fn reads_the_operator() {
    let n = with(text("n"), vec![("op", value(leaf(Tokens::Operator(Operators::Plus))))]);
    assert_eq!(get_operator(&n), Tokens::Operator(Operators::Plus));
}

#[test]
fn reads_names() {
    assert_eq!(get_ident(&named(text("foo"))), "foo");
    assert_eq!(try_get_ident(&named(text("foo"))), Some("foo".to_string()));
    assert_eq!(try_get_ident(&named(Tokens::String("foo".to_string()))), None);
    let unnamed = with(text("x"), vec![("identifier", value(leaf(text("ident"))))]);
    assert_eq!(try_get_ident(&unnamed), None);
}

#[test]
fn counts_references() {
    let refs = vec![
        leaf(Tokens::Operator(Operators::Ampersant)),
        leaf(Tokens::Operator(Operators::And)),
        leaf(text("x")),
    ];
    let n = with(text("type"), vec![("ref", value(with(text("r"), vec![("refs", ArgNodeType::Array(refs))])))]);
    assert_eq!(count_refs(&n), 3);
    let none = with(text("type"), vec![("ref", value(leaf(text("r"))))]);
    assert_eq!(count_refs(&none), 0);
}

#[test]
fn reads_visibility() {
    assert!(public(&with(text("f"), vec![("public", value(leaf(text("pub"))))])));
    assert!(!public(&with(text("f"), vec![("public", value(leaf(text("priv"))))])));
    assert!(!public(&with(text("f"), vec![("public", value(leaf(Tokens::String("pub".to_string()))))])));
}

#[test]
fn reads_loop_and_break_labels() {
    let labelled = with(
        text("loop"),
        vec![(
            "identifier",
            value(with(text("loop_ident"), vec![("identifier", value(leaf(Tokens::String("outer".to_string()))))])),
        )],
    );
    assert_eq!(get_loop_ident(&labelled), Some("outer".to_string()));
    let plain = with(text("loop"), vec![("identifier", value(leaf(text("x"))))]);
    assert_eq!(get_loop_ident(&plain), None);
    let brk = with(text("break"), vec![("identifier", value(leaf(Tokens::String("outer".to_string()))))]);
    assert_eq!(get_break_ident(&brk), Some("outer".to_string()));
    assert_eq!(get_break_ident(&plain), None);
}

#[test]
fn reads_paths_and_traits() {
    let mut errors: Vec<ErrType> = Vec::new();
    assert_eq!(get_nested_ident(&path(&["std", "io"]), &mut errors), vec!["std".to_string(), "io".to_string()]);
    let n = with(text("s"), vec![("traits", ArgNodeType::Array(vec![path(&["Clone"]), path(&["a", "B"])]))]);
    let traits = get_traits(&n, &mut errors);
    assert_eq!(traits, vec![vec!["Clone".to_string()], vec!["a".to_string(), "B".to_string()]]);
    assert!(errors.is_empty());
}

#[test]
fn reads_generic_declarations() {
    let mut errors: Vec<ErrType> = Vec::new();
    let mut g = named(text("T"));
    g.nodes.push(("traits".to_string(), ArgNodeType::Array(vec![path(&["Clone"])])));
    let n = with(
        text("fun"),
        vec![("generic", value(with(text("g"), vec![("identifiers", ArgNodeType::Array(vec![g]))])))],
    );
    let decls = get_generics_decl(&n, &mut errors);
    assert_eq!(decls.len(), 1);
    assert_eq!(decls[0].identifier, "T");
    assert_eq!(decls[0].traits, vec![vec!["Clone".to_string()]]);
    let none = with(text("fun"), vec![("generic", value(leaf(text("g"))))]);
    assert!(get_generics_decl(&none, &mut errors).is_empty());
}
