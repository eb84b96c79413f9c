//! Errors raised while lexing, parsing or running an Onfex program.
use vstd::prelude::*;
use crate::text::{decimal, push_decimal, push_str};

verus! {

broadcast use vstd::string::group_string_axioms;

/// An error of the lexer, of the parser, or of the running program.
#[derive(Debug, Clone)]
pub enum OnfexError {
    Lexer { message: String, line: usize, col: usize },
    Parser { message: String, line: usize, col: usize },
    Runtime { message: String },
}

/// The line that frames a rendered error.
pub open spec fn bar() -> Seq<char> {
    "──────────────────────────────────────────"@
}

impl OnfexError {
    /// The category name of an error.
    pub open spec fn kind_spec(&self) -> Seq<char> {
        match self {
            OnfexError::Lexer { .. } => "Lexer Error"@,
            OnfexError::Parser { .. } => "Parser Error"@,
            OnfexError::Runtime { .. } => "Runtime Error"@,
        }
    }

    /// The message an error carries.
    pub open spec fn message_spec(&self) -> Seq<char> {
        match self {
            OnfexError::Lexer { message, .. } => message@,
            OnfexError::Parser { message, .. } => message@,
            OnfexError::Runtime { message } => message@,
        }
    }

    /// The source position of an error, where one is tracked.
    pub open spec fn location_spec(&self) -> Option<(usize, usize)> {
        match self {
            OnfexError::Lexer { line, col, .. } => Some((*line, *col)),
            OnfexError::Parser { line, col, .. } => Some((*line, *col)),
            OnfexError::Runtime { .. } => None,
        }
    }

    /// Human readable name of the error category.
    pub fn kind(&self) -> (r: &'static str)
        ensures
            r@ == self.kind_spec(),
    {
        match self {
            OnfexError::Lexer { .. } => "Lexer Error",
            OnfexError::Parser { .. } => "Parser Error",
            OnfexError::Runtime { .. } => "Runtime Error",
        }
    }

    /// The raw message carried by this error, without any decoration.
    pub fn message(&self) -> (r: &str)
        ensures
            r@ == self.message_spec(),
    {
        match self {
            OnfexError::Lexer { message, .. } => message.as_str(),
            OnfexError::Parser { message, .. } => message.as_str(),
            OnfexError::Runtime { message } => message.as_str(),
        }
    }

    /// Source location of this error, if one was tracked.
    pub fn location(&self) -> (r: Option<(usize, usize)>)
        ensures
            r == self.location_spec(),
    {
        match self {
            OnfexError::Lexer { line, col, .. } => Some((*line, *col)),
            OnfexError::Parser { line, col, .. } => Some((*line, *col)),
            OnfexError::Runtime { .. } => None,
        }
    }

    /// A lexer error at the given position.
    pub fn lexer(message: String, line: usize, col: usize) -> (e: Self)
        ensures
            e == (OnfexError::Lexer { message, line, col }),
    {
        OnfexError::Lexer { message, line, col }
    }

    /// A parser error at the given position.
    pub fn parser(message: String, line: usize, col: usize) -> (e: Self)
        ensures
            e == (OnfexError::Parser { message, line, col }),
    {
        OnfexError::Parser { message, line, col }
    }

    /// A runtime error; runtime errors carry no position.
    pub fn runtime(message: String) -> (e: Self)
        ensures
            e == (OnfexError::Runtime { message }),
    {
        OnfexError::Runtime { message }
    }

    /// The text of the error as it is shown to the user.
    pub open spec fn render_spec(&self) -> Seq<char> {
        "——"@ + self.kind_spec() + " "@ + bar() + "\n"@
            + " Error  : "@ + self.message_spec() + "\n"@
            + match self.location_spec() {
                Some((line, col)) =>
                    "   Location : line "@ + decimal(line as nat) + ", column "@ + decimal(col as nat) + "\n"@,
                None => "   Location : (not tracked for runtime errors)\n"@,
            }
            + " -"@ + bar()
    }

    /// Renders the error the way it is displayed: a framed block with the
    /// category, the message and the position.
    pub fn render(&self) -> (s: String)
        ensures
            s@ == self.render_spec(),
    {
        let mut s = String::new();
        push_str(&mut s, "——");
        push_str(&mut s, self.kind());
        push_str(&mut s, " ");
        push_str(&mut s, "──────────────────────────────────────────");
        push_str(&mut s, "\n");
        push_str(&mut s, " Error  : ");
        push_str(&mut s, self.message());
        push_str(&mut s, "\n");
        match self.location() {
            Some((line, col)) => {
                push_str(&mut s, "   Location : line ");
                push_decimal(&mut s, line as u128);
                push_str(&mut s, ", column ");
                push_decimal(&mut s, col as u128);
                push_str(&mut s, "\n");
            },
            None => {
                push_str(&mut s, "   Location : (not tracked for runtime errors)\n");
            },
        }
        push_str(&mut s, " -");
        push_str(&mut s, "──────────────────────────────────────────");
        assert(s@ =~= self.render_spec());
        s
    }
}

} // verus!
