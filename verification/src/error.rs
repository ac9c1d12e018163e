//! The errors of a run.

use vstd::prelude::*;

verus! {

/// The error of a transformation unit.
#[derive(Debug, Clone, PartialEq, Eq)]
pub struct PluginError {
    pub message: String,
}

/// Why a run failed.
#[derive(Debug, Clone, PartialEq, Eq)]
pub enum ProcessError {
    /// The input markup is malformed; the text says where and how.
    Parse(String),
    /// Reading the input or writing the output failed.
    Io(String),
    /// A transformation unit failed in `init`, `process_element` or
    /// `finalize`.
    Unit(PluginError),
    /// The input was well-formed and held no event.
    EmptyDocument,
}

impl ProcessError {
    /// What the error of every kind but `EmptyDocument` says.
    pub open spec fn detail(self) -> Seq<char> {
        match self {
            ProcessError::Parse(text) => text@,
            ProcessError::Io(text) => text@,
            ProcessError::Unit(error) => error.message@,
            ProcessError::EmptyDocument => Seq::empty(),
        }
    }

    /// The text to report the error with.
    pub fn message(&self) -> (text: String)
        ensures
            self is EmptyDocument ==> text@ == "No SVG content was processed"@,
            !(self is EmptyDocument) ==> text@ == self.detail(),
    {
        match self {
            ProcessError::Parse(text) => text.clone(),
            ProcessError::Io(text) => text.clone(),
            ProcessError::Unit(error) => error.message.clone(),
            ProcessError::EmptyDocument => "No SVG content was processed".to_owned(),
        }
    }
}

} // verus!
