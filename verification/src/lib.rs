//! A state-machine code generator with a verified core.
//!
//! The library turns a declarative machine description — states with typed
//! fields, messages that trigger transitions, accessor methods — into the
//! source text of a ready-to-use tagged-union state machine, plus a dot-format
//! rendering of its transition graph.  A second, runtime-checked variant
//! (`dynamic_machine`) interprets a transition table directly, keeping a trace
//! of every dispatched event and an absorbing error state.

use vstd::prelude::*;

pub mod casing;
pub mod dynamic_def;
pub mod dynamic_machine;
pub mod machine;
pub mod methods;
pub mod parse;
pub mod text;
pub mod tokens;
pub mod transitions;
pub mod types;

verus! {

/// A syntax error produced by one of the parsers; `pos` is the index of the
/// offending token in the input.
pub struct SyntaxError {
    pub pos: usize,
}

/// A build-time error of the semantic checks: a reference to a state the
/// machine does not declare, or a use of the reserved `Error` state.
pub enum SemanticError {
    UnknownState(String),
    ReservedState(String),
}

/// Everything that can stop code generation: a malformed declaration, or one
/// that breaks a semantic rule.
pub enum BuildError {
    Syntax(SyntaxError),
    Semantic(SemanticError),
}

} // verus!
