use rust_mcp_server::protocol::SymbolPathSegment;
use rust_mcp_server::symbol::{
    container_segments, crate_name_from_uri, identities_from_workspace_symbols,
    identity_from_definition, module_path_from_uri, normalize_container_name, path_from_uri,
    symbol_information_to_identity, symbol_kind_from_lsp_kind, KindField, SymbolIdentity,
    SymbolKind, WorkspaceSymbolRecord,
};

fn record(
    name: Option<&str>,
    kind: KindField,
    uri: Option<&str>,
    container: Option<&str>,
) -> WorkspaceSymbolRecord {
    WorkspaceSymbolRecord {
        name: name.map(|s| s.to_string()),
        kind,
        location_uri: uri.map(|s| s.to_string()),
        container_name: container.map(|s| s.to_string()),
    }
}

#[test]
fn parses_free_function_symbol_information() {
    let symbol = record(
        Some("do_thing"),
        KindField::Number(12),
        Some("file:///workspace/demo/src/utils/mod.rs"),
        Some("demo::utils"),
    );

    let identity = symbol_information_to_identity(&symbol).unwrap();

    assert_eq!(identity.crate_name, "demo");
    assert_eq!(identity.module_segments, vec!["utils".to_string()]);
    assert_eq!(identity.item_name, "do_thing");
    assert_eq!(identity.kind, SymbolKind::FreeFunction);
}

#[test]
fn parses_method_symbol_information() {
    let symbol = record(
        Some("handle"),
        KindField::Number(6),
        Some("file:///workspace/demo/src/types/item.rs"),
        Some("demo::types::Item"),
    );

    let identity = symbol_information_to_identity(&symbol).unwrap();

    assert_eq!(identity.crate_name, "demo");
    assert_eq!(
        identity.module_segments,
        vec!["types".to_string(), "Item".to_string()]
    );
    assert_eq!(identity.item_name, "handle");
    assert_eq!(identity.kind, SymbolKind::Method);
}

#[test]
fn infers_impl_from_container_name() {
    let symbol = record(
        Some("new"),
        KindField::Number(0),
        Some("file:///workspace/demo/src/types/item.rs"),
        Some("impl demo::types::Item"),
    );

    let identity = symbol_information_to_identity(&symbol).unwrap();

    assert_eq!(identity.crate_name, "demo");
    assert_eq!(
        identity.module_segments,
        vec!["types".to_string(), "Item".to_string()]
    );
    assert_eq!(identity.item_name, "new");
    assert_eq!(identity.kind, SymbolKind::Impl);
}

#[test]
fn parses_workspace_symbol_response_array() {
    let records = vec![record(
        Some("navigate"),
        KindField::Number(12),
        Some("file:///workspace/demo/src/tools/navigation.rs"),
        None,
    )];

    let identities = identities_from_workspace_symbols(&records);

    assert_eq!(identities.len(), 1);
    let SymbolIdentity { crate_name, module_segments, item_name, kind } = identities[0].clone();

    assert_eq!(crate_name, "demo");
    assert_eq!(
        module_segments,
        vec!["tools".to_string(), "navigation".to_string()]
    );
    assert_eq!(item_name, "navigate");
    assert_eq!(kind, SymbolKind::FreeFunction);
}

#[test]
fn nameless_records_derive_nothing() {
    let records = vec![
        record(None, KindField::Number(12), Some("file:///w/demo/src/a.rs"), None),
        record(Some("b"), KindField::Other, Some("file:///w/demo/src/a.rs"), None),
    ];
    assert!(symbol_information_to_identity(&records[0]).is_none());
    let identities = identities_from_workspace_symbols(&records);
    assert_eq!(identities.len(), 1);
    assert_eq!(identities[0].item_name, "b");
    assert_eq!(identities[0].kind, SymbolKind::Unknown);
}

#[test]
fn textual_kinds_classify_case_insensitively() {
    let k = |text: &str| {
        let rec = record(Some("x"), KindField::Text(text.to_string()), None, None);
        symbol_information_to_identity(&rec).unwrap().kind
    };
    assert_eq!(k("method"), SymbolKind::Method);
    assert_eq!(k("Method"), SymbolKind::Method);
    assert_eq!(k("function"), SymbolKind::FreeFunction);
    assert_eq!(k("FN"), SymbolKind::FreeFunction);
    assert_eq!(k("trait"), SymbolKind::Trait);
    assert_eq!(k("impl"), SymbolKind::Impl);
    assert_eq!(k("class"), SymbolKind::Unknown);
}

#[test]
fn unknown_crate_without_hints() {
    let rec = record(Some("x"), KindField::Other, None, None);
    let id = symbol_information_to_identity(&rec).unwrap();
    assert_eq!(id.crate_name, "unknown");
    assert!(id.module_segments.is_empty());
}

#[test]
fn numeric_symbol_kinds() {
    assert_eq!(symbol_kind_from_lsp_kind(6, None), SymbolKind::Method);
    assert_eq!(symbol_kind_from_lsp_kind(11, None), SymbolKind::Trait);
    assert_eq!(symbol_kind_from_lsp_kind(12, None), SymbolKind::FreeFunction);
    assert_eq!(symbol_kind_from_lsp_kind(23, None), SymbolKind::Impl);
    assert_eq!(symbol_kind_from_lsp_kind(5, None), SymbolKind::Unknown);
    assert_eq!(
        symbol_kind_from_lsp_kind(5, Some("  impl Item")),
        SymbolKind::Impl
    );
    assert_eq!(symbol_kind_from_lsp_kind(5, Some("Item")), SymbolKind::Unknown);
}

#[test]
fn container_names_normalize_and_split() {
    assert_eq!(normalize_container_name("  ::impl demo::Item  "), "demo::Item");
    assert_eq!(normalize_container_name("impl impl X"), "X");
    assert_eq!(normalize_container_name("plain"), "plain");
    assert_eq!(
        container_segments("demo:: types ::Item"),
        vec!["demo".to_string(), "types".to_string(), "Item".to_string()]
    );
    assert_eq!(container_segments("::demo"), vec!["demo".to_string()]);
    assert_eq!(container_segments(""), Vec::<String>::new());
}

#[test]
fn uris_reduce_to_paths_and_names() {
    assert_eq!(path_from_uri("file:///w/demo/src/lib.rs"), "/w/demo/src/lib.rs");
    assert_eq!(path_from_uri("/already/a/path.rs"), "/already/a/path.rs");
    assert_eq!(
        crate_name_from_uri("file:///w/demo/src/utils/mod.rs"),
        Some("demo".to_string())
    );
    // Without a src component the parent directory names the crate.
    assert_eq!(
        crate_name_from_uri("file:///w/demo/lib.rs"),
        Some("demo".to_string())
    );
    assert_eq!(crate_name_from_uri("lib.rs"), None);
    assert_eq!(
        module_path_from_uri("file:///w/demo/src/utils/mod.rs"),
        vec!["utils".to_string()]
    );
    assert_eq!(
        module_path_from_uri("file:///w/demo/src/tools/navigation.rs"),
        vec!["tools".to_string(), "navigation".to_string()]
    );
    assert_eq!(module_path_from_uri("file:///w/demo/src/lib.rs"), vec!["lib".to_string()]);
    assert_eq!(module_path_from_uri("file:///w/demo/lib.rs"), Vec::<String>::new());
}

#[test]
fn definition_identity_extends_module_path() {
    let path = vec![
        SymbolPathSegment { name: "Item".to_string(), kind: 23 },
        SymbolPathSegment { name: "new".to_string(), kind: 0 },
    ];
    let id = identity_from_definition("file:///w/demo/src/types/item.rs", &path).unwrap();
    assert_eq!(id.crate_name, "demo");
    assert_eq!(
        id.module_segments,
        vec!["types".to_string(), "item".to_string(), "Item".to_string()]
    );
    assert_eq!(id.item_name, "new");
    assert_eq!(id.kind, SymbolKind::Unknown);

    let impl_path = vec![
        SymbolPathSegment { name: "impl Item".to_string(), kind: 23 },
        SymbolPathSegment { name: "new".to_string(), kind: 0 },
    ];
    let id = identity_from_definition("file:///w/demo/src/types/item.rs", &impl_path).unwrap();
    assert_eq!(id.kind, SymbolKind::Impl);

    assert!(identity_from_definition("file:///w/demo/src/lib.rs", &[]).is_none());
}
