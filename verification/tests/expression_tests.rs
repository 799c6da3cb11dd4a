use ruda::ast::{Ref, TreeTransformError, ValueType};
use ruda::expression::{get_ref_type, list_into_tree, try_get_op};
use ruda::lexer::{Line, Operators, Tokens};
use ruda::tree_walker::{ArgNodeType, Node};
use ruda::types::ErrType;

fn line(n: usize) -> Line {
    Line { line: n, column: 0 }
}

fn op(o: Operators, n: usize) -> ValueType {
    ValueType::Operator(o, line(n))
}

fn leaf(name: Tokens) -> Node {
    Node { name, data: None, nodes: Vec::new() }
}

#[test]
fn the_loosest_operator_is_the_root() {
    let mut list = vec![ValueType::Blank, op(Operators::Plus, 1), ValueType::Blank, op(Operators::Star, 2), ValueType::Blank];
    match list_into_tree(&mut list) {
        Ok(ValueType::Expression(e)) => {
            assert_eq!(e.operator, Some(Operators::Plus));
            assert_eq!(e.line, line(1));
            assert!(!e.is_root);
            assert!(matches!(e.left, Some(ValueType::Blank)));
            match &e.right {
                Some(ValueType::Expression(r)) => assert_eq!(r.operator, Some(Operators::Star)),
                _ => panic!("expected the product on the right"),
            }
        }
        _ => panic!("expected an expression"),
    }
}

#[test]
fn operators_of_one_kind_group_to_the_left() {
    let mut list = vec![ValueType::Blank, op(Operators::Minus, 1), ValueType::Blank, op(Operators::Minus, 2), ValueType::Blank];
    match list_into_tree(&mut list) {
        Ok(ValueType::Expression(e)) => {
            assert_eq!(e.line, line(2));
            match &e.left {
                Some(ValueType::Expression(l)) => assert_eq!(l.line, line(1)),
                _ => panic!("expected the first difference on the left"),
            }
            assert!(matches!(e.right, Some(ValueType::Blank)));
        }
        _ => panic!("expected an expression"),
    }
}

#[test]
fn malformed_lists_give_errors() {
    assert!(matches!(list_into_tree(&mut vec![]), Ok(ValueType::Blank)));
    let mut single = vec![ValueType::Blank];
    assert!(matches!(list_into_tree(&mut single), Ok(ValueType::Blank)));
    assert!(single.is_empty());
    assert!(matches!(
        list_into_tree(&mut vec![op(Operators::Plus, 3)]),
        Err(TreeTransformError::ExcessOperator(l)) if l == line(3)
    ));
    assert!(matches!(
        list_into_tree(&mut vec![ValueType::Blank, op(Operators::Plus, 4)]),
        Err(TreeTransformError::ExcessOperator(l)) if l == line(4)
    ));
    assert!(matches!(
        list_into_tree(&mut vec![ValueType::Blank, ValueType::Blank]),
        Err(TreeTransformError::NotImplementedCuzLazy)
    ));
    assert!(matches!(
        list_into_tree(&mut vec![op(Operators::Plus, 5), ValueType::Blank]),
        Err(TreeTransformError::NotImplementedCuzLazy)
    ));
}

fn ref_node(tokens: Vec<Tokens>) -> Node {
    let toks = tokens.into_iter().map(leaf).collect();
    let inner = Node { name: Tokens::Text("r".to_string()), data: None, nodes: vec![("tokens".to_string(), ArgNodeType::Array(toks))] };
    Node { name: Tokens::Text("v".to_string()), data: None, nodes: vec![("ref".to_string(), ArgNodeType::Value(inner))] }
}

#[test]
fn counts_references_against_dereferences() {
    let amp = Tokens::Operator(Operators::Ampersant);
    let and = Tokens::Operator(Operators::And);
    let star = Tokens::Operator(Operators::Star);
    assert_eq!(get_ref_type(&ref_node(vec![amp.clone(), and.clone()])), Ref::Reference(3));
    assert_eq!(get_ref_type(&ref_node(vec![star.clone(), star.clone(), amp.clone()])), Ref::Dereferencing(1));
    assert_eq!(get_ref_type(&ref_node(vec![and, star.clone(), star])), Ref::NoRef);
    assert_eq!(get_ref_type(&ref_node(vec![])), Ref::NoRef);
}

#[test]
fn reads_operators() {
    let mut errors: Vec<ErrType> = Vec::new();
    let n = Node {
        name: Tokens::Text("operator".to_string()),
        data: None,
        nodes: vec![("op".to_string(), ArgNodeType::Value(leaf(Tokens::Operator(Operators::Plus))))],
    };
    assert_eq!(try_get_op(&n, &mut errors), Some(Operators::Plus));
    let other = Node { name: Tokens::Text("value".to_string()), data: None, nodes: Vec::new() };
    assert_eq!(try_get_op(&other, &mut errors), None);
    let not_op = Node {
        name: Tokens::Text("operator".to_string()),
        data: None,
        nodes: vec![("op".to_string(), ArgNodeType::Value(leaf(Tokens::Text("x".to_string()))))],
    };
    assert_eq!(try_get_op(&not_op, &mut errors), None);
}
