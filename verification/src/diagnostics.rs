//! The error type shared by every stage of the pipeline.

use vstd::prelude::*;

verus! {

/// The stage-level classification of a compilation failure.
#[derive(Debug, Clone, Copy, PartialEq, Eq, Structural)]
pub enum ErrorKind {
    /// The lexer found no token at a non-empty position.
    Lexical,
    /// The parser met a token that no production accepts.
    Syntactic,
    /// The lowering rejected a structurally valid tree (an invalid lvalue).
    Semantic,
    /// An internal bookkeeping limit was exceeded; never reached on real input.
    Internal,
}

/// A hard error carrying its classification and a human-readable message.
#[derive(Debug)]
pub struct CompileError {
    pub kind: ErrorKind,
    pub message: String,
}

impl CompileError {
    pub fn new(kind: ErrorKind, message: String) -> (r: CompileError)
        ensures
            r.kind == kind,
    {
        CompileError { kind, message }
    }
}

} // verus!
