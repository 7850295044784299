//! Plain data types of the wire protocol spoken with the analyzer
//! subprocess: positions, ranges, locations, diagnostics, outline symbols,
//! and the polymorphic response shapes that the projection layer
//! normalizes.

use vstd::prelude::*;

verus! {

/// A zero-based position in a document. `character` counts UTF-16 code
/// units from the start of the line, as the wire protocol requires; it is
/// neither a byte count nor a scalar count.
#[derive(Debug, Clone, Copy, PartialEq, Eq, Structural)]
pub struct Position {
    pub line: u32,
    pub character: u32,
}

/// A span between two positions, inclusive on both ends under line-major,
/// then character-major ordering.
#[derive(Debug, Clone, Copy, PartialEq, Eq, Structural)]
pub struct Range {
    pub start: Position,
    pub end: Position,
}

/// A file identifier (a `file://` URI) together with a range inside it.
#[derive(Debug, Clone, PartialEq, Eq)]
pub struct Location {
    pub uri: String,
    pub range: Range,
}

/// One step of nested containment in an outline: a symbol name and its
/// numeric wire-protocol kind.
#[derive(Debug, Clone, PartialEq, Eq)]
pub struct SymbolPathSegment {
    pub name: String,
    pub kind: u32,
}

/// A severity-tagged, range-anchored message pushed by the analyzer.
#[derive(Debug, Clone, PartialEq, Eq)]
pub struct Diagnostic {
    pub range: Range,
    pub severity: Option<u32>,
    pub message: String,
}

impl Diagnostic {
    /// The display label of this diagnostic's severity: an absent severity
    /// counts as an error, and numbers outside the protocol's four are
    /// named unknown.
    pub fn severity_label(&self) -> (label: &'static str)
        ensures
            ({
                let sev = match self.severity {
                    Some(s) => s,
                    None => 1u32,
                };
                if sev == 1 {
                    label@ == "ERROR"@
                } else if sev == 2 {
                    label@ == "WARNING"@
                } else if sev == 3 {
                    label@ == "INFO"@
                } else if sev == 4 {
                    label@ == "HINT"@
                } else {
                    label@ == "UNKNOWN"@
                }
            }),
    {
        let sev = match self.severity {
            Some(s) => s,
            None => 1,
        };
        if sev == 1 {
            "ERROR"
        } else if sev == 2 {
            "WARNING"
        } else if sev == 3 {
            "INFO"
        } else if sev == 4 {
            "HINT"
        } else {
            "UNKNOWN"
        }
    }
}

} // verus!
