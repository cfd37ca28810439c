//! The uniform error taxonomy shared by the stages. Errors are values;
//! each stage lifts its local failure into this type at its boundary.

use vstd::prelude::*;
use vstd::string::*;

verus! {

/// Mathematical model of a [`TranspilerError`].
#[verifier::ext_equal]
pub enum ErrV {
    ParseError { token: Seq<char>, message: Seq<char>, line: int, column: int },
    CodegenError(Seq<char>),
    UnsupportedConstruct(Seq<char>),
    TypeConversionError { from: Seq<char>, to: Seq<char> },
    SyntaxError(Seq<char>),
    InternalError(Seq<char>),
}

/// What went wrong, and in which stage. `InternalError` is reserved for
/// programmer faults: no verified pipeline function returns it.
#[derive(Debug, PartialEq)]
pub enum TranspilerError {
    ParseError { token: String, message: String, line: usize, column: usize },
    CodegenError(String),
    UnsupportedConstruct(String),
    TypeConversionError { from: String, to: String },
    SyntaxError(String),
    InternalError(String),
}

impl DeepView for TranspilerError {
    type V = ErrV;

    open spec fn deep_view(&self) -> ErrV {
        match self {
            TranspilerError::ParseError { token, message, line, column } => ErrV::ParseError {
                token: token@,
                message: message@,
                line: *line as int,
                column: *column as int,
            },
            TranspilerError::CodegenError(s) => ErrV::CodegenError(s@),
            TranspilerError::UnsupportedConstruct(s) => ErrV::UnsupportedConstruct(s@),
            TranspilerError::TypeConversionError { from, to } => ErrV::TypeConversionError {
                from: from@,
                to: to@,
            },
            TranspilerError::SyntaxError(s) => ErrV::SyntaxError(s@),
            TranspilerError::InternalError(s) => ErrV::InternalError(s@),
        }
    }
}

/// The one-line human-readable rendering of an error.
pub open spec fn err_text(e: ErrV) -> Seq<char> {
    match e {
        ErrV::ParseError { token, message, .. } => "Parsing error at token "@ + token + ": "@
            + message,
        ErrV::CodegenError(s) => "Code generation error: "@ + s,
        ErrV::UnsupportedConstruct(s) => "Unsupported language construct: "@ + s,
        ErrV::TypeConversionError { from, to } => "Type conversion error: Cannot convert "@
            + from + " to "@ + to,
        ErrV::SyntaxError(s) => "Syntax error: "@ + s,
        ErrV::InternalError(s) => "Internal transpiler error: "@ + s,
    }
}

impl TranspilerError {
    pub fn new_parse_error(token: &str, message: &str, line: usize, column: usize) -> (r: Self)
        ensures
            r.deep_view() == (ErrV::ParseError {
                token: token@,
                message: message@,
                line: line as int,
                column: column as int,
            }),
    {
        TranspilerError::ParseError {
            token: String::from_str(token),
            message: String::from_str(message),
            line,
            column,
        }
    }

    pub fn new_type_conversion_error(from: &str, to: &str) -> (r: Self)
        ensures
            r.deep_view() == (ErrV::TypeConversionError { from: from@, to: to@ }),
    {
        TranspilerError::TypeConversionError {
            from: String::from_str(from),
            to: String::from_str(to),
        }
    }

    /// The error's one-line message: the stage, the offending text, and the
    /// reason, exactly as [`err_text`] states.
    pub fn message(&self) -> (s: String)
        ensures
            s@ == err_text(self.deep_view()),
    {
        match self {
            TranspilerError::ParseError { token, message, .. } => {
                let mut s = String::from_str("Parsing error at token ");
                s.append(token.as_str());
                s.append(": ");
                s.append(message.as_str());
                s
            },
            TranspilerError::CodegenError(m) => {
                let mut s = String::from_str("Code generation error: ");
                s.append(m.as_str());
                s
            },
            TranspilerError::UnsupportedConstruct(m) => {
                let mut s = String::from_str("Unsupported language construct: ");
                s.append(m.as_str());
                s
            },
            TranspilerError::TypeConversionError { from, to } => {
                let mut s = String::from_str("Type conversion error: Cannot convert ");
                s.append(from.as_str());
                s.append(" to ");
                s.append(to.as_str());
                s
            },
            TranspilerError::SyntaxError(m) => {
                let mut s = String::from_str("Syntax error: ");
                s.append(m.as_str());
                s
            },
            TranspilerError::InternalError(m) => {
                let mut s = String::from_str("Internal transpiler error: ");
                s.append(m.as_str());
                s
            },
        }
    }
}

} // verus!
