//! The errors that interpretation ends with.

use vstd::prelude::*;

verus! {

/// Why interpretation failed.
#[derive(Clone, Copy, Debug, PartialEq, Eq, Structural)]
pub enum ArcError {
    /// The source did not compile; the diagnostics say why.
    CompileError,
    /// The program failed while running.
    RuntimeError,
}

} // verus!
