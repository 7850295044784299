//! Parameter records for the exposed tool operations: plain data handed in
//! by the dispatch layer, carrying file paths, symbol names, snippets and
//! positions.

use vstd::prelude::*;

verus! {

#[derive(Debug)]
pub struct FindDefinitionParams {
    pub file_path: String,
    pub symbol: String,
    pub code_block: String,
    pub occurrence: Option<u32>,
}

#[derive(Debug)]
pub struct FindReferencesParams {
    pub file_path: String,
    pub symbol: String,
    pub code_block: String,
    pub occurrence: Option<u32>,
}

#[derive(Debug)]
pub struct GetHoverParams {
    pub file_path: String,
    pub symbol: String,
    pub code_block: String,
    pub occurrence: Option<u32>,
}

#[derive(Debug)]
pub struct GetDiagnosticsParams {
    pub file_path: String,
}

#[derive(Debug)]
pub struct GetDocumentSymbolsParams {
    pub file_path: String,
}

#[derive(Debug)]
pub struct GetSymbolSourceParams {
    pub file_path: String,
    pub symbol: String,
    pub code_block: String,
    pub occurrence: Option<u32>,
}

#[derive(Debug)]
pub struct WorkspaceSymbolsParams {
    pub query: String,
}

#[derive(Debug)]
pub struct RenameSymbolParams {
    pub file_path: String,
    pub symbol: String,
    pub code_block: String,
    pub occurrence: Option<u32>,
    pub new_name: String,
}

#[derive(Debug)]
pub struct RunCargoCheckParams {
    pub workspace_path: String,
}

#[derive(Debug)]
pub struct ExtractFunctionParams {
    pub file_path: String,
    pub start_line: u32,
    pub start_character: u32,
    pub end_line: u32,
    pub end_character: u32,
    pub function_name: String,
}

#[derive(Debug)]
pub struct InlineFunctionParams {
    pub file_path: String,
    pub line: u32,
    pub character: u32,
}

#[derive(Debug)]
pub struct ApplyClippySuggestionsParams {
    pub file_path: String,
}

#[derive(Debug)]
pub struct GetTypeHierarchyParams {
    pub file_path: String,
    pub symbol: String,
    pub code_block: String,
    pub occurrence: Option<u32>,
}

#[derive(Debug)]
pub struct InspectMirParams {
    pub file_path: String,
    pub line: Option<u32>,
    pub character: Option<u32>,
    pub symbol_name: Option<String>,
    pub opt_level: Option<String>,
    pub target: Option<String>,
}

#[derive(Debug)]
pub struct InspectLlvmIrParams {
    pub file_path: String,
    pub line: Option<u32>,
    pub character: Option<u32>,
    pub symbol_name: Option<String>,
    pub opt_level: Option<String>,
    pub target: Option<String>,
}

#[derive(Debug)]
pub struct InspectAsmParams {
    pub file_path: String,
    pub line: Option<u32>,
    pub character: Option<u32>,
    pub symbol_name: Option<String>,
    pub opt_level: Option<String>,
    pub target: Option<String>,
}

#[derive(Debug)]
pub struct InspectParams {
    pub view: String,
    pub file_path: String,
    pub line: u32,
    pub character: u32,
    pub symbol_name: Option<String>,
    pub opt_level: Option<String>,
    pub target: Option<String>,
    pub gating_mode: Option<String>,
}

#[derive(Debug)]
pub struct CapabilitiesParams {
    pub gating_mode: Option<String>,
}

} // verus!
