//! Errors of the later revision: runtime errors learn their source position on
//! the way out, and ternary-digit errors have a category of their own.
use vstd::prelude::*;

verus! {

broadcast use vstd::string::group_string_axioms;

/// An error of the lexer, of the parser, of the running program, or of the
/// ternary-digit values.
#[derive(Debug)]
pub enum OnfexError {
    Lexer { message: String, line: usize, col: usize },
    Parser { message: String, line: usize, col: usize },
    /// A runtime error; its position may be unknown when it is raised and is
    /// filled in by the nearest statement or instruction it passes through.
    Runtime { message: String, line: Option<usize>, col: Option<usize> },
    Qtriner { message: String, line: Option<usize>, col: Option<usize> },
}

/// Pairs two optional values when both are present (`Option::zip`).
pub open spec fn zip_opt(a: Option<usize>, b: Option<usize>) -> Option<(usize, usize)> {
    match (a, b) {
        (Some(x), Some(y)) => Some((x, y)),
        _ => None,
    }
}

impl OnfexError {
    pub open spec fn kind_spec(&self) -> Seq<char> {
        match self {
            OnfexError::Lexer { .. } => "Lexer Ern"@,
            OnfexError::Parser { .. } => "Parser Ern"@,
            OnfexError::Runtime { .. } => "Runtime Ern"@,
            OnfexError::Qtriner { .. } => "Qtriner Ern"@,
        }
    }

    pub open spec fn message_spec(&self) -> Seq<char> {
        match self {
            OnfexError::Lexer { message, .. } => message@,
            OnfexError::Parser { message, .. } => message@,
            OnfexError::Runtime { message, .. } => message@,
            OnfexError::Qtriner { message, .. } => message@,
        }
    }

    pub open spec fn location_spec(&self) -> Option<(usize, usize)> {
        match self {
            OnfexError::Lexer { line, col, .. } => Some((*line, *col)),
            OnfexError::Parser { line, col, .. } => Some((*line, *col)),
            OnfexError::Runtime { line, col, .. } => zip_opt(*line, *col),
            OnfexError::Qtriner { line, col, .. } => zip_opt(*line, *col),
        }
    }

    /// Human readable name of the error category.
    pub fn kind(&self) -> (r: &'static str)
        ensures
            r@ == self.kind_spec(),
    {
        match self {
            OnfexError::Lexer { .. } => "Lexer Ern",
            OnfexError::Parser { .. } => "Parser Ern",
            OnfexError::Runtime { .. } => "Runtime Ern",
            OnfexError::Qtriner { .. } => "Qtriner Ern",
        }
    }

    /// The raw message carried by this error, without any decoration.
    pub fn message(&self) -> (r: &str)
        ensures
            r@ == self.message_spec(),
    {
        match self {
            OnfexError::Lexer { message, .. } => message.as_str(),
            OnfexError::Parser { message, .. } => message.as_str(),
            OnfexError::Runtime { message, .. } => message.as_str(),
            OnfexError::Qtriner { message, .. } => message.as_str(),
        }
    }

    /// Source location of this error, if one is tracked (for runtime and
    /// ternary errors, only when both line and column are known).
    pub fn location(&self) -> (r: Option<(usize, usize)>)
        ensures
            r == self.location_spec(),
    {
        match self {
            OnfexError::Lexer { line, col, .. } => Some((*line, *col)),
            OnfexError::Parser { line, col, .. } => Some((*line, *col)),
            OnfexError::Runtime { line, col, .. } => match (line, col) {
                (Some(l), Some(c)) => Some((*l, *c)),
                _ => None,
            },
            OnfexError::Qtriner { line, col, .. } => match (line, col) {
                (Some(l), Some(c)) => Some((*l, *c)),
                _ => None,
            },
        }
    }

    /// The error with `line`/`col` filled in where its line is still unknown.
    pub open spec fn located(self, line: usize, col: usize) -> OnfexError {
        match self {
            OnfexError::Runtime { message, line: None, .. } =>
                OnfexError::Runtime { message, line: Some(line), col: Some(col) },
            OnfexError::Qtriner { message, line: None, .. } =>
                OnfexError::Qtriner { message, line: Some(line), col: Some(col) },
            _ => self,
        }
    }

    /// Gives a runtime or ternary error the position `line`/`col` when its line
    /// is still unknown; any other error, or one that already knows its line,
    /// is returned unchanged. An error thus keeps the innermost position.
    pub fn with_location_default(self, line: usize, col: usize) -> (r: Self)
        ensures
            r == self.located(line, col),
    {
        match self {
            OnfexError::Runtime { message, line: None, .. } => OnfexError::Runtime {
                message,
                line: Some(line),
                col: Some(col),
            },
            OnfexError::Qtriner { message, line: None, .. } => OnfexError::Qtriner {
                message,
                line: Some(line),
                col: Some(col),
            },
            other => other,
        }
    }

    pub fn lexer(message: String, line: usize, col: usize) -> (e: Self)
        ensures
            e == (OnfexError::Lexer { message, line, col }),
    {
        OnfexError::Lexer { message, line, col }
    }

    pub fn parser(message: String, line: usize, col: usize) -> (e: Self)
        ensures
            e == (OnfexError::Parser { message, line, col }),
    {
        OnfexError::Parser { message, line, col }
    }

    /// A runtime error whose position is not known yet.
    pub fn runtime(message: String) -> (e: Self)
        ensures
            e == (OnfexError::Runtime { message, line: None, col: None }),
    {
        OnfexError::Runtime { message, line: None, col: None }
    }

    /// A ternary-digit error whose position is not known yet.
    pub fn qtriner(message: String) -> (e: Self)
        ensures
            e == (OnfexError::Qtriner { message, line: None, col: None }),
    {
        OnfexError::Qtriner { message, line: None, col: None }
    }
}

/// Once an error knows its position, filling in a default position again
/// leaves it as it is: the innermost position wins.
pub proof fn law_location_default_keeps_innermost(e: OnfexError, l1: usize, c1: usize, l2: usize, c2: usize)
    ensures
        e.located(l1, c1).located(l2, c2) == e.located(l1, c1),
{
}

/// Filling in a position changes neither the category nor the message.
pub proof fn law_location_default_keeps_message(e: OnfexError, l: usize, c: usize)
    ensures
        e.located(l, c).kind_spec() == e.kind_spec(),
        e.located(l, c).message_spec() == e.message_spec(),
{
}

} // verus!
