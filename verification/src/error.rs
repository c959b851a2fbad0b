//! The errors that end a compilation.
use crate::token::{kind_name, TokenType};
use vstd::prelude::*;
use vstd::string::*;

verus! {

/// Why a compilation stopped. The first four are lexical errors, raised while
/// scanning a token; the last is a limit of the machine; the others are
/// raised by the parser.
#[derive(Debug)]
pub enum CompileError {
    /// A `!` that is not followed by `=`; holds the character that follows.
    LoneBang(String),
    /// A character that may not stand inside a string literal.
    IllegalStringChar,
    /// A decimal point that is not followed by a digit.
    IllegalNumberChar,
    /// A character that begins no token.
    UnknownChar(String),
    /// The grammar asks for one category and the current token has another.
    UnexpectedKind { expected: TokenType, found: TokenType },
    /// The current token begins no statement.
    InvalidStatement { text: String, found: TokenType },
    /// An expression after `IF` or `WHILE` with no comparison operator behind it.
    MissingComparison(String),
    /// A token that is neither a number nor an identifier where an operand must stand.
    UnexpectedToken(String),
    /// An identifier that is read before any `LET` or `INPUT` assigned it.
    UndefinedVariable(String),
    /// A second `LABEL` with a name that is already defined.
    DuplicateLabel(String),
    /// A `GOTO` whose label the program never defines.
    UndeclaredLabel(String),
    /// A source text too long for the lexer's cursor to count past its end.
    SourceTooLong,
}

/// A `CompileError` as plain values.
pub enum ErrorView {
    LoneBang(Seq<char>),
    IllegalStringChar,
    IllegalNumberChar,
    UnknownChar(Seq<char>),
    UnexpectedKind { expected: TokenType, found: TokenType },
    InvalidStatement { text: Seq<char>, found: TokenType },
    MissingComparison(Seq<char>),
    UnexpectedToken(Seq<char>),
    UndefinedVariable(Seq<char>),
    DuplicateLabel(Seq<char>),
    UndeclaredLabel(Seq<char>),
    SourceTooLong,
}

impl View for CompileError {
    type V = ErrorView;

    open spec fn view(&self) -> ErrorView {
        match self {
            CompileError::LoneBang(t) => ErrorView::LoneBang(t@),
            CompileError::IllegalStringChar => ErrorView::IllegalStringChar,
            CompileError::IllegalNumberChar => ErrorView::IllegalNumberChar,
            CompileError::UnknownChar(t) => ErrorView::UnknownChar(t@),
            CompileError::UnexpectedKind { expected, found } => ErrorView::UnexpectedKind {
                expected: *expected,
                found: *found,
            },
            CompileError::InvalidStatement { text, found } => ErrorView::InvalidStatement {
                text: text@,
                found: *found,
            },
            CompileError::MissingComparison(t) => ErrorView::MissingComparison(t@),
            CompileError::UnexpectedToken(t) => ErrorView::UnexpectedToken(t@),
            CompileError::UndefinedVariable(t) => ErrorView::UndefinedVariable(t@),
            CompileError::DuplicateLabel(t) => ErrorView::DuplicateLabel(t@),
            CompileError::UndeclaredLabel(t) => ErrorView::UndeclaredLabel(t@),
            CompileError::SourceTooLong => ErrorView::SourceTooLong,
        }
    }
}

impl ErrorView {
    /// Whether the error was raised while scanning a token.
    pub open spec fn is_lexical(self) -> bool {
        self is LoneBang || self is IllegalStringChar || self is IllegalNumberChar
            || self is UnknownChar
    }

    /// The message that describes the error.
    pub open spec fn message(self) -> Seq<char> {
        match self {
            ErrorView::LoneBang(t) => "Expected !=, got !"@ + t,
            ErrorView::IllegalStringChar => "Illegal character in string"@,
            ErrorView::IllegalNumberChar => "Illegal character in number"@,
            ErrorView::UnknownChar(t) => "Unknown token: "@ + t,
            ErrorView::UnexpectedKind { expected, found } => "Expected "@ + kind_name(expected)
                + ", got "@ + kind_name(found),
            ErrorView::InvalidStatement { text, found } => "Invalid statement at "@ + text + " ("@
                + kind_name(found) + ")"@,
            ErrorView::MissingComparison(t) => "Expected comparison operator at: "@ + t,
            ErrorView::UnexpectedToken(t) => "Unexpected token at "@ + t,
            ErrorView::UndefinedVariable(t) => "Referencing variable before assignment: "@ + t,
            ErrorView::DuplicateLabel(t) => "Label already exists: "@ + t,
            ErrorView::UndeclaredLabel(t) => "Label "@ + t + " referenced but not declared"@,
            ErrorView::SourceTooLong => "Source text is too long"@,
        }
    }
}

impl CompileError {
    /// Whether the error was raised while scanning a token.
    pub fn is_lexical(&self) -> (r: bool)
        ensures
            r == self@.is_lexical(),
    {
        match self {
            CompileError::LoneBang(_) => true,
            CompileError::IllegalStringChar => true,
            CompileError::IllegalNumberChar => true,
            CompileError::UnknownChar(_) => true,
            _ => false,
        }
    }

    /// The message that describes the error, with the offending text and,
    /// where a category was expected, both categories by name.
    pub fn message(&self) -> (r: String)
        ensures
            r@ == self@.message(),
    {
        match self {
            CompileError::LoneBang(t) => String::from_str("Expected !=, got !").concat(t.as_str()),
            CompileError::IllegalStringChar => String::from_str("Illegal character in string"),
            CompileError::IllegalNumberChar => String::from_str("Illegal character in number"),
            CompileError::UnknownChar(t) => String::from_str("Unknown token: ").concat(t.as_str()),
            CompileError::UnexpectedKind { expected, found } => {
                String::from_str("Expected ").concat(expected.name()).concat(", got ").concat(
                    found.name(),
                )
            },
            CompileError::InvalidStatement { text, found } => {
                String::from_str("Invalid statement at ").concat(text.as_str()).concat(" (").concat(
                    found.name(),
                ).concat(")")
            },
            CompileError::MissingComparison(t) => {
                String::from_str("Expected comparison operator at: ").concat(t.as_str())
            },
            CompileError::UnexpectedToken(t) => {
                String::from_str("Unexpected token at ").concat(t.as_str())
            },
            CompileError::UndefinedVariable(t) => {
                String::from_str("Referencing variable before assignment: ").concat(t.as_str())
            },
            CompileError::DuplicateLabel(t) => {
                String::from_str("Label already exists: ").concat(t.as_str())
            },
            CompileError::UndeclaredLabel(t) => {
                String::from_str("Label ").concat(t.as_str()).concat(" referenced but not declared")
            },
            CompileError::SourceTooLong => String::from_str("Source text is too long"),
        }
    }
}

} // verus!
