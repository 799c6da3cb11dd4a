//! Parsed code: statements and expressions.
use vstd::prelude::*;
use crate::lexer::{Line, Operators, Tokens};
use crate::types::{Function, ShallowType};

verus! {

/// Statements of a code block.
pub enum Nodes {
    Let { ident: String, expr: Option<ValueType>, kind: Option<ShallowType> },
    If {
        cond: ValueType,
        body: Vec<Nodes>,
        elif: Vec<(ValueType, Nodes)>,
        els: Option<Vec<Nodes>>,
    },
    While { cond: ValueType, body: Vec<Nodes> },
    For { ident: String, expr: ValueType, body: Vec<Nodes> },
    Return { expr: Option<ValueType> },
    Expr { expr: ValueType },
    Block { body: Vec<Nodes> },
    Break,
    Continue,
    Loop { body: Vec<Nodes> },
    Yeet { expr: (String, Vec<TailNodes>) },
    Try {
        body: Vec<Nodes>,
        /// catches ((ident, [types]), body)
        catch: Vec<Catch>,
        finally: Option<Vec<Nodes>>,
    },
    Switch {
        expr: ValueType,
        body: Vec<(ValueType, Vec<Nodes>)>,
        default: Option<Vec<Nodes>>,
    },
    /// an assignment (`Set` in the language's own terms)
    SetTo { target: ValueType, expr: ValueType, op: Operators },
}

/// A `catch` clause.
pub struct Catch {
    pub ident: String,
    pub kinds: Vec<Vec<String>>,
    pub body: Vec<Nodes>,
}

/// Referencing or dereferencing applied to a value.
#[derive(Debug, Clone, Copy, PartialEq, Eq, Structural)]
pub enum Ref {
    Dereferencing(usize),
    Reference(usize),
    /// neither
    NoRef,
}

/// A binary expression.
pub struct ExprNode {
    pub left: Option<ValueType>,
    pub right: Option<ValueType>,
    pub operator: Option<Operators>,
    pub line: Line,
    pub is_root: bool,
}

/// A value in an expression.
pub enum ValueType {
    Literal(Literal),
    AnonymousFunction(Function),
    /// parenthesis
    Parenthesis(Box<ValueType>, Vec<(TailNodes, Line)>, Option<(Operators, Line)>),
    Expression(Box<ExprNode>),
    /// only for inner functionality
    Operator(Operators, Line),
    Value(Variable),
    Blank,
}

/// A literal value.
pub struct Literal {
    pub unary: Option<(Operators, Line)>,
    pub refs: Ref,
    /// the keyword `new`, when present
    pub modificatior: Option<(String, Line)>,
    pub value: Literals,
    pub line: Line,
}

/// Kinds of literals.
pub enum Literals {
    Number(Tokens),
    Array(ArrayRule),
    String(String),
    Char(char),
}

/// How an array literal is written.
pub enum ArrayRule {
    Fill { value: Box<ValueType>, size: Box<ValueType> },
    Explicit(Vec<ValueType>),
}

/// A variable with what follows it: `*danda[5].touch_grass(9)`.
pub struct Variable {
    pub unary: Option<(Operators, Line)>,
    pub refs: Ref,
    /// the keyword `new`, when present
    pub modificatior: Option<(String, Line)>,
    /// the first identifier (`danda`)
    pub root: (String, Line),
    /// what follows the root
    pub tail: Vec<(TailNodes, Line)>,
    pub line: Line,
}

/// The arguments of a call.
pub struct FunctionCall {
    pub generic: Vec<ShallowType>,
    pub args: Vec<ValueType>,
}

/// What can follow the root of a variable.
pub enum TailNodes {
    Nested(String),
    Index(ValueType),
    Call(FunctionCall),
    Cast(Vec<String>),
}

impl ExprNode {
    /// A binary expression from its parts.
    pub fn new(
        left: Option<ValueType>,
        right: Option<ValueType>,
        operator: Option<Operators>,
        line: Line,
        is_root: bool,
    ) -> (r: ExprNode)
        ensures
            r.left == left,
            r.right == right,
            r.operator == operator,
            r.line == line,
            r.is_root == is_root,
    {
        ExprNode { left, right, operator, line, is_root }
    }

    /// An expression with no parts, at the start of the source.
    pub fn blank() -> (r: ExprNode)
        ensures
            r.left is None,
            r.right is None,
            r.operator is None,
            r.line == (Line { line: 0, column: 0 }),
            !r.is_root,
    {
        ExprNode {
            left: None,
            right: None,
            operator: None,
            line: Line::from_pos((0, 0)),
            is_root: false,
        }
    }
}

impl ValueType {
    /// An anonymous function as a value.
    pub fn fun(fun: Function) -> (r: ValueType)
        ensures
            r == ValueType::AnonymousFunction(fun),
    {
        ValueType::AnonymousFunction(fun)
    }

    /// A literal as a value.
    pub fn value(val: Literal) -> (r: ValueType)
        ensures
            r == ValueType::Literal(val),
    {
        ValueType::Literal(val)
    }

    /// Whether the value is a binary expression.
    pub fn is_expression(&self) -> (r: bool)
        ensures
            r == (self is Expression),
    {
        match self {
            ValueType::Expression(_) => true,
            _ => false,
        }
    }
}

impl Literal {
    /// A literal with no reference and no `new`.
    pub fn is_simple(&self) -> (r: bool)
        ensures
            r == (self.refs == Ref::NoRef && self.modificatior is None),
    {
        self.refs == Ref::NoRef && self.modificatior.is_none()
    }
}

impl Variable {
    /// A variable with no reference and no `new`, followed only by field names.
    pub fn is_simple(&self) -> (r: bool)
        ensures
            r == (self.refs == Ref::NoRef && self.modificatior is None && forall|i: int|
                0 <= i < self.tail@.len() ==> (#[trigger] self.tail@[i]).0 is Nested),
    {
        if !(self.refs == Ref::NoRef && self.modificatior.is_none()) {
            return false;
        }
        let mut i: usize = 0;
        while i < self.tail.len()
            invariant
                i <= self.tail@.len(),
                forall|j: int| 0 <= j < i ==> (#[trigger] self.tail@[j]).0 is Nested,
            decreases self.tail@.len() - i,
        {
            match &self.tail[i].0 {
                TailNodes::Nested(_) => {},
                _ => {
                    return false;
                },
            }
            i = i + 1;
        }
        true
    }

    /// A bare name: no reference, no `new`, nothing after it and no unary operator.
    pub fn is_true_simple(&self) -> (r: bool)
        ensures
            r == (self.refs == Ref::NoRef && self.modificatior is None && self.tail@.len() == 0
                && self.unary is None),
    {
        self.refs == Ref::NoRef && self.modificatior.is_none() && self.tail.len() == 0
            && self.unary.is_none()
    }
}


/// What goes wrong when an expression is turned into a tree.
pub enum TreeTransformError {
    NoValue(Line),
    ExcessOperator(Line),
    ExcessValue(Line),
    NotImplementedCuzLazy,
}

/// A parameter that a grammar declares global: a list or a single node.
pub enum HeadParam {
    Array(String),
    Value(String),
}


/// What goes wrong while code is parsed against the grammar.
pub enum ParseError {
    /// (expected, found)
    Expected(Tokens, Tokens),
    ExpectedOneOf(Vec<Tokens>, Tokens),
    Msg(String),
    FileEnd,
    FileEndPeaceful,
    Pass(String),
    /// (expected, found)
    WrongEndingToken(Tokens, Tokens),
    EmptyNodeParameter(String),
    /// the walk used up the steps it was given
    StepLimit,
}

} // verus!
