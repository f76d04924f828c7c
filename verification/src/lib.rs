//! Rewrites a JVM stack trace printed in one Minecraft naming scheme into the
//! equivalent trace in another scheme.
//!
//! The crate models mapping tables (`mappings`), parses the two published
//! mapping formats and the stack-trace text format, composes mappings along a
//! path in the scheme graph, and rewrites every class, method and source-file
//! name in the trace.  Network and file access live outside this crate; the
//! functions here work on plain values handed to them.
use vstd::prelude::*;

use crate::parsing::ParseErrors;

pub mod mappings;
pub mod mojang_api;
pub mod names;
pub mod parsing;
pub mod stacktrace;

verus! {

/// What went wrong, by kind.
#[derive(Clone, Copy, PartialEq, Eq, Structural, Debug)]
pub enum ErrorKind {
    /// A bad argument: an unknown naming scheme or Minecraft version.
    InvalidArgument,
    /// A request failed or returned a bad status.
    NetworkFailure,
    /// A cache directory or file could not be used.
    IoFailure,
    /// A mapping artifact did not have the expected shape.
    FormatFailure,
    /// A cached artifact failed its size or hash check.
    IntegrityFailure,
    /// No path between the requested naming schemes.
    UnsupportedConversion,
    /// A loaded mapper disagrees with the requested edge endpoints.
    InternalInvariant,
}

/// The error carried by fallible operations: a kind, a causal chain of
/// human-readable context lines (outermost last), and, for parse failures,
/// the side-channel diagnostic payload with the source text and spans.
#[derive(Debug)]
pub struct SPError {
    pub kind: ErrorKind,
    pub context: Vec<String>,
    pub parse_errors: Option<ParseErrors>,
}

impl SPError {
    pub fn new(kind: ErrorKind) -> (r: SPError)
        ensures
            r.kind == kind,
            r.context@.len() == 0,
            r.parse_errors is None,
    {
        SPError { kind, context: Vec::new(), parse_errors: None }
    }

    /// An error that carries a parse diagnostic payload.
    pub fn from_parse_errors(kind: ErrorKind, parse_errors: ParseErrors) -> (r: SPError)
        ensures
            r.kind == kind,
            r.context@.len() == 0,
            r.parse_errors == Some(parse_errors),
    {
        SPError { kind, context: Vec::new(), parse_errors: Some(parse_errors) }
    }

    /// Add one line of context to the causal chain.
    pub fn attach(&mut self, msg: String)
        ensures
            final(self).kind == old(self).kind,
            final(self).context@ == old(self).context@.push(msg),
            final(self).parse_errors == old(self).parse_errors,
    {
        self.context.push(msg);
    }
}

} // verus!
