//! The load failure taxonomy. Every failure is detected at its point of
//! origin and unwinds the whole load; nothing is caught or retried.

use vstd::prelude::*;
use crate::scenario::{ScenarioDescriptor, ScenarioModel};

verus! {

/// What went wrong inside a single line.
#[derive(Clone, Copy, Debug, PartialEq, Eq, Structural)]
pub enum ParseError {
    /// The line is not of the shape `key ":" value` with exactly one colon.
    MalformedLine,
    /// The trimmed key is none of the recognized keys.
    UnknownKey,
    /// An empty digit run, or one whose value overflows `u32`.
    InvalidNumber,
    /// The next character is not the expected delimiter.
    UnexpectedToken,
    /// The input ended where a character was required.
    UnexpectedEndOfInput,
    /// The sub-parser did not consume the whole trimmed value.
    TrailingCharacters,
}

/// Why a whole load failed.
#[derive(Clone, Debug, PartialEq, Eq)]
pub enum LoadError {
    /// A line failed to parse; carries the zero-based line index.
    AtLine { line: usize, error: ParseError },
    /// All lines parsed but the final invariant check failed; carries the
    /// accumulated descriptor for diagnostics.
    InvalidScenario { snapshot: ScenarioDescriptor },
}

/// The mathematical value of a [`LoadError`].
#[verifier::ext_equal]
pub enum LoadErrorModel {
    AtLine { line: int, error: ParseError },
    InvalidScenario { snapshot: ScenarioModel },
}

impl View for LoadError {
    type V = LoadErrorModel;

    open spec fn view(&self) -> LoadErrorModel {
        match self {
            LoadError::AtLine { line, error } => LoadErrorModel::AtLine {
                line: *line as int,
                error: *error,
            },
            LoadError::InvalidScenario { snapshot } => LoadErrorModel::InvalidScenario {
                snapshot: snapshot@,
            },
        }
    }
}

} // verus!
