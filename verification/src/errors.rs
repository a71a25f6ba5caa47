//! The error taxonomy of the compiler. Every stage reports failure as a
//! `CompileError`; nothing in the library panics.

use vstd::prelude::*;
use crate::lexical::{SpecToken, Token};

verus! {

/// One fatal diagnostic. Each variant names the offending construct and,
/// where the source carries one, the 1-based source line.
#[derive(Debug)]
pub enum CompileError {
    /// The lexer met a character that starts no token.
    InvalidChar { line: i32 },
    /// The parser needed `expected` but found another token on `line`.
    MissingToken { expected: Token, found: Token, line: i32 },
    /// The parser needed `expected` but the token stream ended.
    UnexpectedEnd { expected: Token },
    /// An expression had to start here and none does.
    ExpectedExpression { line: i32 },
    /// A statement had to start here and this token starts none.
    ExpectedStatement { line: i32 },
    /// A function name had to follow the `fn` keyword.
    ExpectedIdentifier { line: i32 },
    /// A return type had to follow the `->` arrow.
    ExpectedType { line: i32 },
    /// The program declares no function named `main`.
    MissingMain,
    /// A `let` re-declares a name already visible; `line` is the line of the
    /// prior declaration.
    AlreadyDefined { name: String, line: i32 },
    /// A re-assignment names a variable that no visible scope declares;
    /// `line` is the line of the use.
    NotDeclared { name: String, line: i32 },
    /// An expression reads a variable that no visible scope declares.
    UndefinedVariable { name: String },
    /// The program needs more branch labels than the label counter can
    /// count.
    TooManyLabels,
}

/// The mathematical image of a `CompileError`: text payloads become
/// `Seq<char>`, tokens their images, lines `int`.
pub enum SpecError {
    InvalidChar { line: int },
    MissingToken { expected: SpecToken, found: SpecToken, line: int },
    UnexpectedEnd { expected: SpecToken },
    ExpectedExpression { line: int },
    ExpectedStatement { line: int },
    ExpectedIdentifier { line: int },
    ExpectedType { line: int },
    MissingMain,
    AlreadyDefined { name: Seq<char>, line: int },
    NotDeclared { name: Seq<char>, line: int },
    UndefinedVariable { name: Seq<char> },
    TooManyLabels,
}

impl View for CompileError {
    type V = SpecError;

    open spec fn view(&self) -> SpecError {
        match self {
            CompileError::InvalidChar { line } => SpecError::InvalidChar { line: *line as int },
            CompileError::MissingToken { expected, found, line } => SpecError::MissingToken {
                expected: expected@,
                found: found@,
                line: *line as int,
            },
            CompileError::UnexpectedEnd { expected } => SpecError::UnexpectedEnd {
                expected: expected@,
            },
            CompileError::ExpectedExpression { line } => SpecError::ExpectedExpression {
                line: *line as int,
            },
            CompileError::ExpectedStatement { line } => SpecError::ExpectedStatement {
                line: *line as int,
            },
            CompileError::ExpectedIdentifier { line } => SpecError::ExpectedIdentifier {
                line: *line as int,
            },
            CompileError::ExpectedType { line } => SpecError::ExpectedType { line: *line as int },
            CompileError::MissingMain => SpecError::MissingMain,
            CompileError::AlreadyDefined { name, line } => SpecError::AlreadyDefined {
                name: name@,
                line: *line as int,
            },
            CompileError::NotDeclared { name, line } => SpecError::NotDeclared {
                name: name@,
                line: *line as int,
            },
            CompileError::UndefinedVariable { name } => SpecError::UndefinedVariable {
                name: name@,
            },
            CompileError::TooManyLabels => SpecError::TooManyLabels,
        }
    }
}

} // verus!
