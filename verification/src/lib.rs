//! Verified core of a language-analysis tool server.
//!
//! The library converts byte offsets to protocol positions, classifies
//! offsets as code versus comment or string text, locates symbols inside
//! caller-supplied snippets, frames and parses length-prefixed protocol
//! messages, tracks session state with a diagnostics store, and projects
//! polymorphic protocol responses into canonical shapes. All process
//! management and stream I/O around the analyzer subprocess lives outside
//! this crate.

use vstd::prelude::*;

pub mod codec;
pub mod context;
pub mod framing;
pub mod lines;
pub mod locate;
pub mod params;
pub mod project;
pub mod protocol;
pub mod session;
pub mod symbol;

pub use codec::{index_to_line_col, to_position};
pub use context::is_valid_code_context;
pub use locate::{create_position_marker, find_block_range, find_symbol_location, LocateError};
pub use project::DefinitionDetails;
pub use protocol::{Diagnostic, Location, Position, Range, SymbolPathSegment};
pub use session::{DiagnosticsStore, Session};
pub use symbol::{identity_from_definition, symbol_kind_from_lsp_kind, SymbolIdentity, SymbolKind};

verus! {

} // verus!
