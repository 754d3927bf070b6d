//! The errors a resolution can end with, and what caused them.

use vstd::prelude::*;

verus! {

/// Why a resolution failed underneath a factory: either the factory
/// itself reported a domain-level construction failure, or one of the
/// dependencies it requested failed to resolve.
#[derive(Debug)]
pub enum ResolveCause {
    /// The factory returned a construction failure of its own.
    Domain(String),
    /// A dependency requested by the factory failed to resolve.
    Nested(Box<ResolveError>),
}

/// The kind of a resolution failure.
#[derive(Debug)]
pub enum ResolveErrorKind {
    /// The requested token has no registered entry.
    NotFound,
    /// The requested token is already mid-construction on the current
    /// call path.
    CircularReferenceFound,
    /// The token's factory failed; the cause is wrapped, not swallowed.
    ErrorWhileResolving(Box<ResolveCause>),
    /// The stored instance does not carry the requested token. This is
    /// a defensive check: the provider proves it never returns it.
    TypeMismatch,
}

/// A resolution failure, carrying the diagnostic name of the type whose
/// resolution was requested, so a human can trace which request failed
/// and why.
#[derive(Debug)]
pub struct ResolveError {
    /// Diagnostic name of the requested type.
    pub label: String,
    /// What went wrong.
    pub kind: ResolveErrorKind,
}

impl ResolveError {
    /// Attaches the requesting type's diagnostic name to a failure kind.
    pub fn for_type(label: String, kind: ResolveErrorKind) -> (e: ResolveError)
        ensures
            e.label == label,
            e.kind == kind,
    {
        ResolveError { label, kind }
    }
}

} // verus!
