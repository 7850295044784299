use rust_mcp_server::lines::{line_at, line_span, split_lines};
use rust_mcp_server::project::{
    definition_details_from_responses, find_info_range, find_symbol_path_in_document_symbols,
    find_symbol_range_recursive, format_symbol_path, hierarchy_display_items, position_in_range,
    select_definition_location, source_target, symbol_path_from_response, DefinitionResponse,
    DocumentSymbol, DocumentSymbolResponse, LocationLink, SymbolInformation, TypeHierarchyItem,
};
use rust_mcp_server::protocol::{Location, Position, Range, SymbolPathSegment};

fn pos(line: u32, character: u32) -> Position {
    Position { line, character }
}

fn span(sl: u32, sc: u32, el: u32, ec: u32) -> Range {
    Range { start: pos(sl, sc), end: pos(el, ec) }
}

fn loc(uri: &str, range: Range) -> Location {
    Location { uri: uri.to_string(), range }
}

#[test]
fn range_containment_is_inclusive() {
    let r = span(1, 2, 3, 4);
    assert!(position_in_range(&r, &pos(1, 2)));
    assert!(position_in_range(&r, &pos(3, 4)));
    assert!(position_in_range(&r, &pos(2, 0)));
    assert!(!position_in_range(&r, &pos(1, 1)));
    assert!(!position_in_range(&r, &pos(3, 5)));
    assert!(!position_in_range(&r, &pos(0, 9)));
}

#[test]
fn definition_tie_break_picks_last() {
    let a = loc("file:///a.rs", span(0, 0, 0, 1));
    let b = loc("file:///b.rs", span(1, 0, 1, 1));
    let c = loc("file:///c.rs", span(2, 0, 2, 1));
    // Three locations: the projection returns the last one, every time.
    for _ in 0..3 {
        let arr = DefinitionResponse::LocationArray(vec![a.clone(), b.clone(), c.clone()]);
        assert_eq!(select_definition_location(arr), Some(c.clone()));
    }
    let single = DefinitionResponse::SingleLocation(a.clone());
    assert_eq!(select_definition_location(single), Some(a.clone()));
    let links = DefinitionResponse::LocationLinks(vec![
        LocationLink { target_uri: "file:///x.rs".to_string(), target_selection_range: span(5, 0, 5, 3) },
        LocationLink { target_uri: "file:///y.rs".to_string(), target_selection_range: span(7, 0, 7, 3) },
    ]);
    assert_eq!(
        select_definition_location(links),
        Some(loc("file:///y.rs", span(7, 0, 7, 3)))
    );
    assert_eq!(
        select_definition_location(DefinitionResponse::LocationArray(vec![])),
        None
    );
}

fn seg(name: &str, kind: u32) -> SymbolPathSegment {
    SymbolPathSegment { name: name.to_string(), kind }
}

fn sym(name: &str, kind: u32, range: Range, selection: Range, children: Option<Vec<DocumentSymbol>>) -> DocumentSymbol {
    DocumentSymbol {
        name: name.to_string(),
        kind,
        range,
        selection_range: selection,
        children,
    }
}

#[test]
fn hierarchical_outline_path_accumulates() {
    let inner = sym("handle", 6, span(2, 0, 4, 1), span(2, 7, 2, 13), None);
    let outer = sym("Item", 23, span(0, 0, 6, 1), span(0, 5, 6, 1), Some(vec![inner]));
    let symbols = vec![outer];
    let path = find_symbol_path_in_document_symbols(&symbols, &pos(2, 8)).unwrap();
    let names: Vec<&str> = path.iter().map(|s| s.name.as_str()).collect();
    assert_eq!(names, vec!["Item", "handle"]);
    assert!(find_symbol_path_in_document_symbols(&symbols, &pos(9, 0)).is_none());
}

#[test]
fn flat_outline_path_uses_container() {
    let infos = vec![
        SymbolInformation {
            name: "other".to_string(),
            kind: 12,
            location: loc("file:///a.rs", span(0, 0, 0, 5)),
            container_name: None,
        },
        SymbolInformation {
            name: "handle".to_string(),
            kind: 6,
            location: loc("file:///a.rs", span(2, 0, 4, 1)),
            container_name: Some("Item".to_string()),
        },
    ];
    let resp = DocumentSymbolResponse::SymbolInformation(infos);
    let path = symbol_path_from_response(resp, &pos(3, 0)).unwrap();
    let names: Vec<&str> = path.iter().map(|s| s.name.as_str()).collect();
    assert_eq!(names, vec!["Item", "handle"]);
}

#[test]
fn innermost_range_wins() {
    let inner = sym("inner", 12, span(2, 0, 3, 1), span(2, 3, 2, 8), None);
    let outer = sym("outer", 23, span(0, 0, 6, 1), span(0, 5, 0, 9), Some(vec![inner]));
    let symbols = vec![outer];
    assert_eq!(find_symbol_range_recursive(&symbols, &pos(2, 5)), Some(span(2, 0, 3, 1)));
    assert_eq!(find_symbol_range_recursive(&symbols, &pos(5, 0)), Some(span(0, 0, 6, 1)));
    assert_eq!(find_symbol_range_recursive(&symbols, &pos(9, 0)), None);
    let infos = vec![SymbolInformation {
        name: "outer".to_string(),
        kind: 23,
        location: loc("file:///a.rs", span(0, 0, 6, 1)),
        container_name: None,
    }];
    assert_eq!(find_info_range(&infos, &pos(1, 0)), Some(span(0, 0, 6, 1)));
    assert_eq!(find_info_range(&infos, &pos(9, 0)), None);
}

#[test]
fn definition_details_compose() {
    let target = loc("file:///t.rs", span(4, 0, 4, 9));
    let def = DefinitionResponse::LocationArray(vec![
        loc("file:///skip.rs", span(0, 0, 0, 1)),
        target.clone(),
    ]);
    let outline = DocumentSymbolResponse::DocumentSymbols(vec![sym(
        "thing",
        12,
        span(3, 0, 6, 1),
        span(4, 0, 4, 9),
        None,
    )]);
    let details = definition_details_from_responses(def, Some(outline)).unwrap();
    assert_eq!(details.location, target);
    assert_eq!(details.symbol_path.len(), 1);
    assert_eq!(details.symbol_path[0].name, "thing");

    // No outline: the path is empty, best-effort.
    let def = DefinitionResponse::SingleLocation(target.clone());
    let details = definition_details_from_responses(def, None).unwrap();
    assert!(details.symbol_path.is_empty());

    // An empty array names no definition.
    assert!(definition_details_from_responses(DefinitionResponse::LocationArray(vec![]), None)
        .is_none());
}

#[test]
fn symbol_paths_format_with_double_colons() {
    assert_eq!(format_symbol_path(&[]), None);
    assert_eq!(
        format_symbol_path(&[seg("demo", 2)]),
        Some("demo".to_string())
    );
    assert_eq!(
        format_symbol_path(&[seg("demo", 2), seg("utils", 2), seg("go", 12)]),
        Some("demo::utils::go".to_string())
    );
}

#[test]
fn hierarchy_display_skips_entries_named_like_root() {
    let items = vec![
        TypeHierarchyItem { name: "Root".to_string(), detail: None },
        TypeHierarchyItem { name: "Child".to_string(), detail: Some("impl".to_string()) },
        TypeHierarchyItem { name: "Root".to_string(), detail: Some("again".to_string()) },
    ];
    let shown = hierarchy_display_items(&items, "Root");
    assert_eq!(shown.len(), 1);
    assert_eq!(shown[0].name, "Child");
    assert_eq!(shown[0].detail.as_deref(), Some("impl"));
}

#[test]
fn source_target_falls_back() {
    let fallback = pos(3, 4);
    let (uri, p) = source_target(None, "file:///f.rs".to_string(), fallback);
    assert_eq!(uri, "file:///f.rs");
    assert_eq!(p, fallback);

    let (uri, p) = source_target(
        Some(DefinitionResponse::LocationArray(vec![])),
        "file:///f.rs".to_string(),
        fallback,
    );
    assert_eq!(uri, "file:///f.rs");
    assert_eq!(p, fallback);

    let target = loc("file:///t.rs", span(7, 2, 8, 0));
    let (uri, p) = source_target(
        Some(DefinitionResponse::SingleLocation(target)),
        "file:///f.rs".to_string(),
        fallback,
    );
    assert_eq!(uri, "file:///t.rs");
    assert_eq!(p, pos(7, 2));
}

#[test]
fn lines_split_and_join() {
    let text = "fn add() {\n    1\r\n}\n";
    let ls = split_lines(text);
    assert_eq!(ls, vec!["fn add() {", "    1", "}"]);
    assert_eq!(line_at(text, 1), Some("    1".to_string()));
    assert_eq!(line_at(text, 3), None);
    assert_eq!(line_span(text, 0, 2), Some("fn add() {\n    1\n}".to_string()));
    // The end is clamped to the last line.
    assert_eq!(line_span(text, 1, 99), Some("    1\n}".to_string()));
    // A span past the last line names nothing.
    assert_eq!(line_span(text, 3, 5), None);
    // An inverted span yields empty text.
    assert_eq!(line_span(text, 2, 1), Some(String::new()));
    assert_eq!(split_lines(""), Vec::<String>::new());
    // Without a newline after it, a trailing carriage return stays.
    assert_eq!(split_lines("a\r"), vec!["a\r"]);
}
