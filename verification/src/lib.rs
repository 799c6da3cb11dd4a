//! Ruda: the front end, type model and project tooling of the Ruda language,
//! with their behaviour stated as contracts and proved by Verus.
#![allow(unused_imports)]

pub mod lexer;
pub mod preprocessor;
pub mod ast;
pub mod types;
pub mod libloader;
pub mod codegen;
pub mod context;
pub mod names;
pub mod grammar;
pub mod tree_walker;
pub mod formater;
pub mod tree_reader;
pub mod walker;
pub mod expression;
pub mod budget;

use vstd::prelude::*;
use vstd::string::StringSliceAdditionalSpecFns;
use crate::ast::ParseError;
use crate::lexer::{lex, lexable, views, Line, Tokens};
use crate::preprocessor::{err_views, raw_positions, refactor_spec, Errors};
use crate::types::ErrType;

pub use crate::names::new_imports;

verus! {

/// Where in the compilation something went wrong.
pub enum ErrorOrigin {
    LexingError(Vec<Errors>),
    ParsingError((ParseError, Line)),
    CodeBlockParserError(Vec<Errors>),
    IntermediateError(Vec<Errors>),
    LibLoadError(Vec<Errors>),
    AnalyzationError(Vec<ErrType>),
    LinkingError(LinkingError),
}

/// A file that could not be read.
pub enum LinkingError {
    /// (file, reason)
    FileNotFound(String, String),
    /// (file, reason)
    CouldNotOpen(String, String),
}

/// Which grammar file something went wrong with.
#[derive(Debug, Clone, Copy, PartialEq, Eq, Structural)]
pub enum AstType {
    Ast,
    Registry,
}

/// What goes wrong while the grammar files are read.
#[derive(Debug, Clone, Copy, PartialEq, Eq, Structural)]
pub enum AstGenError {
    NotFound(AstType),
    ParseError(AstType),
    CouldNotOpen(AstType),
}

/// The word by which messages name a grammar file.
pub open spec fn ast_type_word(t: AstType) -> Seq<char> {
    match t {
        AstType::Ast => "ast"@,
        AstType::Registry => "registry"@,
    }
}

/// The message of an error met while the grammar files are read.
pub open spec fn ast_gen_message(e: AstGenError) -> Seq<char> {
    match e {
        AstGenError::NotFound(t) => "Could not find "@ + ast_type_word(t) + " file."@,
        AstGenError::ParseError(t) => "Could not parse "@ + ast_type_word(t) + " file."@,
        AstGenError::CouldNotOpen(t) => "Could not open "@ + ast_type_word(t) + " file."@,
    }
}

impl AstType {
    /// The word by which messages name this grammar file.
    pub fn to_string(&self) -> (r: String)
        ensures
            r@ == ast_type_word(*self),
    {
        match self {
            AstType::Ast => String::from_str("ast"),
            AstType::Registry => String::from_str("registry"),
        }
    }
}

impl AstGenError {
    /// The message of this error.
    pub fn to_string(&self) -> (r: String)
        ensures
            r@ == ast_gen_message(*self),
    {
        let (lead, t) = match self {
            AstGenError::NotFound(t) => (String::from_str("Could not find "), t),
            AstGenError::ParseError(t) => (String::from_str("Could not parse "), t),
            AstGenError::CouldNotOpen(t) => (String::from_str("Could not open "), t),
        };
        let word = t.to_string();
        let r = lead.concat(word.as_str()).concat(" file.");
        r
    }
}

/// The tokens of a source text with their places, and, when `formating` is
/// set, with literals, comments and operators joined, and the errors found.
pub fn tokenize(content: &str, formating: bool) -> (r: (Vec<Tokens>, Vec<(usize, usize)>, Vec<Errors>))
    requires
        lexable(content.spec_bytes()),
        formating ==> refactor_spec(lex(content.spec_bytes()), raw_positions(content.spec_bytes())) is Some,
    ensures
        !formating ==> views(r.0@) == lex(content.spec_bytes()) && r.1@ == raw_positions(
            content.spec_bytes(),
        ) && r.2@.len() == 0,
        formating ==> {
            let s = refactor_spec(lex(content.spec_bytes()), raw_positions(content.spec_bytes()))->0;
            &&& views(r.0@) == s.0
            &&& r.1@ == s.1
            &&& err_views(r.2@) == s.2
        },
{
    crate::preprocessor::tokenize(content.as_bytes(), formating)
}

/// The tokens of a source text with their places, without the second pass;
/// `None` where a piece of the text is not valid UTF-8, which the lexer
/// cannot read.
pub fn try_tokenize(content: &str) -> (r: Option<(Vec<Tokens>, Vec<(usize, usize)>)>)
    ensures
        r is Some <==> lexable(content.spec_bytes()),
        r matches Some(t) ==> views(t.0@) == lex(content.spec_bytes()) && t.1@ == raw_positions(
            content.spec_bytes(),
        ),
{
    if !crate::lexer::is_lexable(content.as_bytes()) {
        return None;
    }
    let (tokens, lines, _errors) = crate::preprocessor::tokenize(content.as_bytes(), false);
    Some((tokens, lines))
}

} // verus!
pub mod canvas;
pub mod remote;
pub mod lens;
pub mod config;
pub mod sum;
