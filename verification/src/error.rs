//! The ways in which a compilation fails.

use vstd::prelude::*;

verus! {

/// What went wrong.
#[derive(Clone, Copy, Debug, PartialEq, Eq, Structural)]
pub enum ErrorKind {
    /// A code identifier was asked of a virtual-group name.
    InvalidRouteName,
    /// A route module is not a syntactically valid module.
    ParseError,
    /// A route module exports no handler.
    EmptyHandlerSet,
    /// A relative path was asked between unrelated paths.
    PathResolutionError,
    /// A file of the source tree could not be read.
    IOError,
}

/// A failure, with the path of the file or node at which it arose.
#[derive(Clone, Debug)]
pub struct CompileError {
    pub kind: ErrorKind,
    pub path: String,
}

/// A failure as plain values.
pub struct Failure {
    pub kind: ErrorKind,
    pub path: Seq<char>,
}

impl View for CompileError {
    type V = Failure;

    open spec fn view(&self) -> Failure {
        Failure { kind: self.kind, path: self.path@ }
    }
}

/// The sentence that describes a kind of failure.
pub open spec fn kind_text(kind: ErrorKind) -> Seq<char> {
    match kind {
        ErrorKind::InvalidRouteName => "Virtual group should not be used as a route name"@,
        ErrorKind::ParseError => "Failed to parse the route module"@,
        ErrorKind::EmptyHandlerSet => "No valid endpoint handlers found"@,
        ErrorKind::PathResolutionError => "Failed to compute relative path"@,
        ErrorKind::IOError => "Failed to read the file"@,
    }
}

impl CompileError {
    /// A failure of the given kind at the given path.
    pub fn new(kind: ErrorKind, path: &str) -> (e: CompileError)
        ensures
            e.kind == kind,
            e.path@ == path@,
    {
        CompileError { kind, path: String::from_str(path) }
    }

    /// The message for the user: the sentence of the kind, then the path.
    pub fn message(&self) -> (m: String)
        ensures
            m@ == kind_text(self.kind) + ": "@ + self.path@,
    {
        let mut m = match self.kind {
            ErrorKind::InvalidRouteName => String::from_str(
                "Virtual group should not be used as a route name",
            ),
            ErrorKind::ParseError => String::from_str("Failed to parse the route module"),
            ErrorKind::EmptyHandlerSet => String::from_str("No valid endpoint handlers found"),
            ErrorKind::PathResolutionError => String::from_str("Failed to compute relative path"),
            ErrorKind::IOError => String::from_str("Failed to read the file"),
        };
        m.append(": ");
        m.append(self.path.as_str());
        m
    }
}

} // verus!
