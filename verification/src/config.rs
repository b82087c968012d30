//! The parts of a project's configuration that the interface reads.
use vstd::prelude::*;

verus! {

/// What kind of answer a parameter takes.
#[derive(Debug, Clone, Copy, PartialEq, Eq, Structural)]
pub enum ParamKind {
    /// Any text.
    Text,
    /// A whole number.
    Int,
    /// Yes or no.
    Bool,
    /// One of a fixed list.
    Choice,
}

/// Bounds on a number.
#[derive(Debug, Clone, Copy, PartialEq, Eq, Structural)]
pub struct ParamValidate {
    pub min: Option<i64>,
    pub max: Option<i64>,
}

/// A command whose output lists the candidates for a parameter.
#[derive(Debug)]
pub struct Completions {
    pub cmd: String,
    pub args: Vec<String>,
}

/// A parameter that a task declares.
#[derive(Debug)]
pub struct TaskParam {
    pub name: String,
    /// Text shown above the input, where it differs from the name.
    pub prompt: Option<String>,
    pub required: bool,
    pub default: Option<String>,
    pub kind: ParamKind,
    pub choices: Vec<String>,
    pub completions: Option<Completions>,
    pub validate: Option<ParamValidate>,
}

/// A task, as far as the interface cares.
#[derive(Debug)]
pub struct Task {
    /// Whether it waits for a human at its terminal.
    pub interactive: bool,
    /// What has to be asked before it runs.
    pub params: Vec<TaskParam>,
}

/// The text of an optional string.
pub open spec fn text_of(s: Option<String>) -> Option<Seq<char>> {
    match s {
        Some(s) => Some(s@),
        None => None,
    }
}

/// A copy of an optional string.
pub fn copy_text(s: &Option<String>) -> (r: Option<String>)
    ensures
        r == *s,
{
    match s {
        Some(s) => Some(s.clone()),
        None => None,
    }
}

} // verus!
