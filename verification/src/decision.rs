//! Reading one line of player input: recognised tokens become actions,
//! anything else is left for the caller to re-prompt.

use vstd::prelude::*;
use crate::board::Decision;
use crate::text::{lower_of, lowercase, trim_of, trim_ws};

verus! {

/// What one recognised line of input asks for.
#[derive(Clone, Copy, Debug, PartialEq, Eq, Structural)]
pub enum Action {
    /// Record a raise for the acting player.
    Raise,
    /// Record a call for the acting player.
    Call,
    /// End the process gracefully.
    Quit,
}

impl Action {
    /// The decision this action records at the table, if it records one.
    pub fn to_decision(&self) -> (r: Option<Decision>)
        ensures
            r == (match self {
                Action::Raise => Some(Decision::Raise),
                Action::Call => Some(Decision::Call),
                Action::Quit => None::<Decision>,
            }),
    {
        match self {
            Action::Raise => Some(Decision::Raise),
            Action::Call => Some(Decision::Call),
            Action::Quit => None,
        }
    }
}

/// The action a normalised (trimmed, lower-cased) token asks for: `raise`
/// or `r` raises, `call` or `c` calls, `quit`, `exit`, `q` or `e` quits;
/// any other token is unrecognised.
pub open spec fn spec_parse(token: Seq<char>) -> Option<Action> {
    if token == "raise"@ || token == "r"@ {
        Some(Action::Raise)
    } else if token == "call"@ || token == "c"@ {
        Some(Action::Call)
    } else if token == "quit"@ || token == "exit"@ || token == "q"@ || token == "e"@ {
        Some(Action::Quit)
    } else {
        None
    }
}

/// Reads a token that is already trimmed and lower-cased.
pub fn parse_token(token: &str) -> (r: Option<Action>)
    ensures
        r == spec_parse(token@),
{
    let t = token.to_owned();
    if t == "raise".to_owned() || t == "r".to_owned() {
        Some(Action::Raise)
    } else if t == "call".to_owned() || t == "c".to_owned() {
        Some(Action::Call)
    } else if t == "quit".to_owned() || t == "exit".to_owned() || t == "q".to_owned() || t
        == "e".to_owned() {
        Some(Action::Quit)
    } else {
        None
    }
}

/// Reads one raw input line, ignoring surrounding whitespace and case.
pub fn parse_decision(raw: &str) -> (r: Option<Action>)
    ensures
        r == spec_parse(lower_of(trim_of(raw@))),
{
    let trimmed = trim_ws(raw);
    let lowered = lowercase(trimmed);
    parse_token(lowered.as_str())
}

} // verus!
