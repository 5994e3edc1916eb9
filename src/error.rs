use vstd::prelude::*;
use crate::text::{push_str, push_usize, decimal_digits};
use crate::token::TokenPosition;

verus! {

/// What went wrong: a fixed message.
#[derive(Debug, PartialEq)]
pub enum RunErrorValue {
    Constant(String),
}

/// An error of the parser or of the type checker, with the position of the
/// offending token where it is known.
#[derive(Debug, PartialEq)]
pub struct RunError {
    pub value: RunErrorValue,
    pub position: Option<TokenPosition>,
}

/// The message that an error carries.
pub open spec fn error_text(e: RunError) -> Seq<char> {
    match e.value {
        RunErrorValue::Constant(s) => s@,
    }
}

/// How an error is shown: `line:col: message`, or the message alone.
pub open spec fn error_display(e: RunError) -> Seq<char> {
    match e.position {
        Some(p) => decimal_digits(p.line as nat) + ":"@ + decimal_digits(p.col as nat) + ": "@
            + error_text(e),
        None => error_text(e),
    }
}

impl RunError {
    pub fn new(value: &str) -> (r: RunError)
        ensures
            error_text(r) == value@,
            r.position is None,
    {
        RunError { value: RunErrorValue::Constant(String::from_str(value)), position: None }
    }

    pub fn new_pos(position: TokenPosition, value: &str) -> (r: RunError)
        ensures
            error_text(r) == value@,
            r.position == Some(position),
    {
        RunError { value: RunErrorValue::Constant(String::from_str(value)), position: Some(position) }
    }

    /// An error that carries an owned message.
    pub fn from_message(message: String, position: Option<TokenPosition>) -> (r: RunError)
        ensures
            error_text(r) == message@,
            r.position == position,
    {
        RunError { value: RunErrorValue::Constant(message), position }
    }

    /// The message alone.
    pub fn text(&self) -> (r: String)
        ensures
            r@ == error_text(*self),
    {
        match &self.value {
            RunErrorValue::Constant(s) => s.clone(),
        }
    }

    /// The error as it is shown to a user.
    pub fn to_string(&self) -> (r: String)
        ensures
            r@ == error_display(*self),
    {
        let mut out = String::new();
        if let Some(p) = self.position {
            push_usize(&mut out, p.line);
            push_str(&mut out, ":");
            push_usize(&mut out, p.col);
            push_str(&mut out, ": ");
        }
        match &self.value {
            RunErrorValue::Constant(s) => push_str(&mut out, s.as_str()),
        }
        out
    }
}

} // verus!
