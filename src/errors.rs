//! Diagnostics: parse errors and runtime errors, each at a token.

use vstd::prelude::*;

use crate::token::Token;

verus! {

/// What a diagnostic says: the offending token's line and lexeme, and a message.
pub struct DiagnosticView {
    pub line: nat,
    pub lexeme: Seq<char>,
    pub message: Seq<char>,
}

/// The two kinds of diagnostic, as mathematical values.
pub enum LoxErrorView {
    Parse(DiagnosticView),
    Runtime(DiagnosticView),
}

/// A diagnostic attributed to one token of the source.
#[derive(Debug, PartialEq)]
pub struct GenericError {
    pub line: u32,
    pub lexeme: String,
    pub message: String,
}

impl View for GenericError {
    type V = DiagnosticView;

    open spec fn view(&self) -> DiagnosticView {
        DiagnosticView { line: self.line as nat, lexeme: self.lexeme@, message: self.message@ }
    }
}

impl GenericError {
    /// A diagnostic at token `t` with the given message.
    pub fn new(t: &Token, message: &str) -> (r: Self)
        ensures
            r@ == (DiagnosticView { line: t.line as nat, lexeme: t.lexeme@, message: message@ }),
    {
        GenericError { line: t.line, lexeme: t.lexeme.clone(), message: String::from_str(message) }
    }
}

/// The error of any stage: a malformed source or token stream, or an operator
/// applied to operands for which it is undefined.
#[derive(Debug, PartialEq)]
pub enum LoxError {
    ParseError(GenericError),
    RuntimeError(GenericError),
}

impl View for LoxError {
    type V = LoxErrorView;

    open spec fn view(&self) -> LoxErrorView {
        match self {
            LoxError::ParseError(e) => LoxErrorView::Parse(e@),
            LoxError::RuntimeError(e) => LoxErrorView::Runtime(e@),
        }
    }
}

/// The parse error at a token with the given line and lexeme.
pub open spec fn parse_error(line: nat, lexeme: Seq<char>, message: Seq<char>) -> LoxErrorView {
    LoxErrorView::Parse(DiagnosticView { line, lexeme, message })
}

/// The runtime error at a token with the given line and lexeme.
pub open spec fn runtime_error(line: nat, lexeme: Seq<char>, message: Seq<char>) -> LoxErrorView {
    LoxErrorView::Runtime(DiagnosticView { line, lexeme, message })
}

impl LoxError {
    /// A runtime error at token `t`.
    pub fn new_runtime(t: &Token, msg: &str) -> (r: Self)
        ensures
            r@ == runtime_error(t.line as nat, t.lexeme@, msg@),
    {
        LoxError::RuntimeError(GenericError::new(t, msg))
    }

    /// A parse error at token `t`.
    pub fn new_parse(t: &Token, msg: &str) -> (r: Self)
        ensures
            r@ == parse_error(t.line as nat, t.lexeme@, msg@),
    {
        LoxError::ParseError(GenericError::new(t, msg))
    }
}

} // verus!
