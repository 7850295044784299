//! Result projection: maps the polymorphic wire-response shapes — a
//! definition as one location, an array, or a set of links; an outline as
//! a hierarchical tree or a flat list — into the canonical shapes the rest
//! of the system consumes.

use vstd::prelude::*;

use crate::protocol::{Location, Position, Range, SymbolPathSegment};

verus! {

/// A definition link: the target file and the selection range of the
/// defined symbol there.
#[derive(Debug, Clone, PartialEq, Eq)]
pub struct LocationLink {
    pub target_uri: String,
    pub target_selection_range: Range,
}

/// The three wire shapes of a definition response.
#[derive(Debug, Clone, PartialEq, Eq)]
pub enum DefinitionResponse {
    SingleLocation(Location),
    LocationArray(Vec<Location>),
    LocationLinks(Vec<LocationLink>),
}

/// One node of a hierarchical outline; `selection_range` covers the
/// symbol's name, `range` its whole extent, and `children` the symbols
/// nested inside it.
#[derive(Debug, PartialEq, Eq)]
pub struct DocumentSymbol {
    pub name: String,
    pub kind: u32,
    pub range: Range,
    pub selection_range: Range,
    pub children: Option<Vec<DocumentSymbol>>,
}

/// One entry of a flat outline.
#[derive(Debug, Clone, PartialEq, Eq)]
pub struct SymbolInformation {
    pub name: String,
    pub kind: u32,
    pub location: Location,
    pub container_name: Option<String>,
}

/// The two wire shapes of an outline response.
#[derive(Debug, PartialEq, Eq)]
pub enum DocumentSymbolResponse {
    DocumentSymbols(Vec<DocumentSymbol>),
    SymbolInformation(Vec<SymbolInformation>),
}

/// One entry of a type-hierarchy response.
#[derive(Debug, Clone, PartialEq, Eq)]
pub struct TypeHierarchyItem {
    pub name: String,
    pub detail: Option<String>,
}

/// A resolved definition: where the symbol is defined, and the chain of
/// named containers from the file root down to it (empty when no outline
/// was available or no symbol encloses the location).
#[derive(Debug, Clone)]
pub struct DefinitionDetails {
    pub location: Location,
    pub symbol_path: Vec<SymbolPathSegment>,
}

/// A position lies in a range iff it is at or after the start and at or
/// before the end, under line-major, then character-major ordering —
/// inclusive on both ends.
pub open spec fn spec_position_in_range(range: Range, position: Position) -> bool {
    &&& (range.start.line < position.line || (range.start.line == position.line
        && range.start.character <= position.character))
    &&& (range.end.line > position.line || (range.end.line == position.line
        && range.end.character >= position.character))
}

pub fn position_in_range(range: &Range, position: &Position) -> (r: bool)
    ensures
        r == spec_position_in_range(*range, *position),
{
    let starts_before = range.start.line < position.line || (range.start.line == position.line
        && range.start.character <= position.character);
    let ends_after = range.end.line > position.line || (range.end.line == position.line
        && range.end.character >= position.character);
    starts_before && ends_after
}

/// The one location a definition response names: a single location passes
/// through; an array or a list of links yields its last element — the
/// documented tie-break, preserved exactly — or nothing when empty.
pub open spec fn spec_select_definition_location(definition: DefinitionResponse) -> Option<
    Location,
> {
    match definition {
        DefinitionResponse::SingleLocation(location) => Some(location),
        DefinitionResponse::LocationArray(locations) => if locations@.len() == 0 {
            None
        } else {
            Some(locations@.last())
        },
        DefinitionResponse::LocationLinks(links) => if links@.len() == 0 {
            None
        } else {
            Some(
                Location {
                    uri: links@.last().target_uri,
                    range: links@.last().target_selection_range,
                },
            )
        },
    }
}

/// Picks the one location out of a definition response. For an array of
/// several locations this returns the last one, reproducibly, every time.
pub fn select_definition_location(definition: DefinitionResponse) -> (r: Option<Location>)
    ensures
        r == spec_select_definition_location(definition),
{
    match definition {
        DefinitionResponse::SingleLocation(location) => Some(location),
        DefinitionResponse::LocationArray(mut locations) => locations.pop(),
        DefinitionResponse::LocationLinks(mut links) => {
            match links.pop() {
                Some(link) => Some(
                    Location { uri: link.target_uri, range: link.target_selection_range },
                ),
                None => None,
            }
        },
    }
}

/// The symbol path a hierarchical outline gives for a position: the first
/// symbol in document order whose selection range contains the position
/// contributes its (name, kind); the search then continues into its
/// children, accumulating from outermost to innermost.
pub open spec fn spec_symbol_path_in(
    symbols: Seq<DocumentSymbol>,
    position: Position,
) -> Option<Seq<SymbolPathSegment>>
    decreases symbols,
{
    if symbols.len() == 0 {
        None
    } else if spec_position_in_range(symbols[0].selection_range, position) {
        let head = seq![
            SymbolPathSegment { name: symbols[0].name, kind: symbols[0].kind },
        ];
        match symbols[0].children {
            Some(children) => match spec_symbol_path_in(children@, position) {
                Some(rest) => Some(head + rest),
                None => Some(head),
            },
            None => Some(head),
        }
    } else {
        spec_symbol_path_in(symbols.drop_first(), position)
    }
}

/// Walks a hierarchical outline for the first symbol (in document order)
/// whose selection range contains `position`, accumulating (name, kind)
/// pairs from the root down into matching children.
pub fn find_symbol_path_in_document_symbols(
    symbols: &[DocumentSymbol],
    position: &Position,
) -> (r: Option<Vec<SymbolPathSegment>>)
    ensures
        match r {
            Some(path) => spec_symbol_path_in(symbols@, *position) == Some(path@),
            None => spec_symbol_path_in(symbols@, *position) is None,
        },
    decreases symbols@,
{
    let n = symbols.len();
    let mut i: usize = 0;
    proof {
        assert(symbols@.subrange(0, n as int) =~= symbols@);
    }
    while i < n
        invariant
            i <= n,
            n == symbols@.len(),
            spec_symbol_path_in(symbols@, *position) == spec_symbol_path_in(
                symbols@.subrange(i as int, n as int),
                *position,
            ),
        decreases n - i,
    {
        let ghost tail = symbols@.subrange(i as int, n as int);
        if position_in_range(&symbols[i].selection_range, position) {
            let mut path: Vec<SymbolPathSegment> = Vec::new();
            path.push(SymbolPathSegment { name: symbols[i].name.clone(), kind: symbols[i].kind });
            let ghost head = seq![
                SymbolPathSegment { name: symbols@[i as int].name, kind: symbols@[i as int].kind },
            ];
            proof {
                assert(path@ =~= head);
            }
            match &symbols[i].children {
                Some(children) => {
                    proof {
                        assert(decreases_to!(symbols@ => children@));
                    }
                    match find_symbol_path_in_document_symbols(children.as_slice(), position) {
                        Some(mut child_path) => {
                            path.append(&mut child_path);
                        },
                        None => {},
                    }
                },
                None => {},
            }
            proof {
                assert(tail[0] == symbols@[i as int]);
            }
            return Some(path);
        }
        proof {
            assert(tail[0] == symbols@[i as int]);
            assert(tail.drop_first() =~= symbols@.subrange(i + 1, n as int));
        }
        i = i + 1;
    }
    None
}

/// The symbol path a flat outline gives for a position: the first entry
/// whose location range contains it, as a path of its container name (if
/// present) and its own name.
pub open spec fn spec_first_info_path(
    infos: Seq<SymbolInformation>,
    position: Position,
) -> Option<Seq<SymbolPathSegment>>
    decreases infos.len(),
{
    if infos.len() == 0 {
        None
    } else if spec_position_in_range(infos[0].location.range, position) {
        let own = SymbolPathSegment { name: infos[0].name, kind: infos[0].kind };
        match infos[0].container_name {
            Some(container) => Some(
                seq![SymbolPathSegment { name: container, kind: infos[0].kind }, own],
            ),
            None => Some(seq![own]),
        }
    } else {
        spec_first_info_path(infos.drop_first(), position)
    }
}

/// The symbol path either outline shape gives for a position.
pub open spec fn spec_symbol_path_from_response(
    symbols: DocumentSymbolResponse,
    position: Position,
) -> Option<Seq<SymbolPathSegment>> {
    match symbols {
        DocumentSymbolResponse::DocumentSymbols(list) => spec_symbol_path_in(list@, position),
        DocumentSymbolResponse::SymbolInformation(infos) => spec_first_info_path(infos@, position),
    }
}

/// Projects an outline response of either shape to the symbol path
/// enclosing `position`, if any symbol encloses it.
pub fn symbol_path_from_response(
    symbols: DocumentSymbolResponse,
    position: &Position,
) -> (r: Option<Vec<SymbolPathSegment>>)
    ensures
        match r {
            Some(path) => spec_symbol_path_from_response(symbols, *position) == Some(path@),
            None => spec_symbol_path_from_response(symbols, *position) is None,
        },
{
    match &symbols {
        DocumentSymbolResponse::DocumentSymbols(list) => {
            find_symbol_path_in_document_symbols(list.as_slice(), position)
        },
        DocumentSymbolResponse::SymbolInformation(infos) => {
            let n = infos.len();
            let mut i: usize = 0;
            proof {
                assert(infos@.subrange(0, n as int) =~= infos@);
            }
            while i < n
                invariant
                    i <= n,
                    n == infos@.len(),
                    spec_symbol_path_from_response(symbols, *position) == spec_first_info_path(
                        infos@,
                        *position,
                    ),
                    spec_first_info_path(infos@, *position) == spec_first_info_path(
                        infos@.subrange(i as int, n as int),
                        *position,
                    ),
                decreases n - i,
            {
                let ghost tail = infos@.subrange(i as int, n as int);
                if position_in_range(&infos[i].location.range, position) {
                    let mut path: Vec<SymbolPathSegment> = Vec::new();
                    match &infos[i].container_name {
                        Some(container) => {
                            path.push(
                                SymbolPathSegment { name: container.clone(), kind: infos[i].kind },
                            );
                        },
                        None => {},
                    }
                    path.push(
                        SymbolPathSegment { name: infos[i].name.clone(), kind: infos[i].kind },
                    );
                    proof {
                        assert(tail[0] == infos@[i as int]);
                        match infos@[i as int].container_name {
                            Some(container) => {
                                assert(path@ =~= seq![
                                    SymbolPathSegment {
                                        name: container,
                                        kind: infos@[i as int].kind,
                                    },
                                    SymbolPathSegment {
                                        name: infos@[i as int].name,
                                        kind: infos@[i as int].kind,
                                    },
                                ]);
                            },
                            None => {
                                assert(path@ =~= seq![
                                    SymbolPathSegment {
                                        name: infos@[i as int].name,
                                        kind: infos@[i as int].kind,
                                    },
                                ]);
                            },
                        }
                    }
                    return Some(path);
                }
                proof {
                    assert(tail[0] == infos@[i as int]);
                    assert(tail.drop_first() =~= infos@.subrange(i + 1, n as int));
                }
                i = i + 1;
            }
            None
        },
    }
}

/// A resolved definition paired with its symbol path, computed from the
/// definition response and the outline of the target file: the location
/// is the response's tie-broken pick; the path is best-effort and empty
/// when no outline came back or no symbol encloses the location.
pub fn definition_details_from_responses(
    definition: DefinitionResponse,
    symbols: Option<DocumentSymbolResponse>,
) -> (r: Option<DefinitionDetails>)
    ensures
        match spec_select_definition_location(definition) {
            None => r is None,
            Some(location) => r matches Some(d) && d.location == location && d.symbol_path@
                == (match symbols {
                Some(resp) => match spec_symbol_path_from_response(resp, location.range.start) {
                    Some(path) => path,
                    None => Seq::<SymbolPathSegment>::empty(),
                },
                None => Seq::<SymbolPathSegment>::empty(),
            }),
        },
{
    let location = match select_definition_location(definition) {
        Some(location) => location,
        None => {
            return None;
        },
    };
    let symbol_path: Vec<SymbolPathSegment> = match symbols {
        Some(resp) => {
            match symbol_path_from_response(resp, &location.range.start) {
                Some(path) => path,
                None => Vec::new(),
            }
        },
        None => Vec::new(),
    };
    Some(DefinitionDetails { location, symbol_path })
}

/// The names of a symbol path joined with `::`, outermost first.
pub open spec fn joined_names(path: Seq<SymbolPathSegment>) -> Seq<char>
    decreases path.len(),
{
    if path.len() == 0 {
        Seq::empty()
    } else if path.len() == 1 {
        path[0].name@
    } else {
        joined_names(path.drop_last()) + "::"@ + path.last().name@
    }
}

/// Renders a symbol path for display: the segment names joined with `::`,
/// or nothing for an empty path.
pub fn format_symbol_path(path: &[SymbolPathSegment]) -> (r: Option<String>)
    ensures
        match r {
            Some(s) => path@.len() > 0 && s@ == joined_names(path@),
            None => path@.len() == 0,
        },
{
    let n = path.len();
    if n == 0 {
        return None;
    }
    let mut out = String::new();
    let mut i: usize = 0;
    while i < n
        invariant
            0 < n,
            i <= n,
            n == path@.len(),
            i > 0 ==> out@ == joined_names(path@.subrange(0, i as int)),
            i == 0 ==> out@ == Seq::<char>::empty(),
        decreases n - i,
    {
        if i > 0 {
            out.append("::");
        }
        out.append(path[i].name.as_str());
        proof {
            reveal_strlit("::");
            let pre = path@.subrange(0, i + 1);
            assert(pre.drop_last() =~= path@.subrange(0, i as int));
            assert(pre.last() == path@[i as int]);
            if i == 0 {
                assert(pre.len() == 1);
                assert(out@ =~= joined_names(pre));
            } else {
                assert(out@ =~= joined_names(pre));
            }
        }
        i = i + 1;
    }
    proof {
        assert(path@.subrange(0, n as int) =~= path@);
    }
    Some(out)
}

/// The type-hierarchy entries shown to the caller: every entry except
/// those whose name equals the root's name — the display convention that
/// skips the root itself when the analyzer includes it.
pub open spec fn visible_items(
    items: Seq<TypeHierarchyItem>,
    root: Seq<char>,
) -> Seq<TypeHierarchyItem>
    decreases items.len(),
{
    if items.len() == 0 {
        Seq::empty()
    } else if items.last().name@ != root {
        visible_items(items.drop_last(), root).push(items.last())
    } else {
        visible_items(items.drop_last(), root)
    }
}

/// Filters a type-hierarchy response down to the entries displayed under
/// a root item: entries named like the root are skipped, nothing else is
/// de-duplicated.
pub fn hierarchy_display_items(
    items: &Vec<TypeHierarchyItem>,
    root_name: &str,
) -> (r: Vec<TypeHierarchyItem>)
    ensures
        r@ == visible_items(items@, root_name@),
{
    let n = items.len();
    let mut out: Vec<TypeHierarchyItem> = Vec::new();
    let mut i: usize = 0;
    proof {
        assert(items@.subrange(0, 0) =~= Seq::<TypeHierarchyItem>::empty());
    }
    while i < n
        invariant
            i <= n,
            n == items@.len(),
            out@ == visible_items(items@.subrange(0, i as int), root_name@),
        decreases n - i,
    {
        let keep = !crate::session::str_eq(items[i].name.as_str(), root_name);
        proof {
            let pre = items@.subrange(0, i + 1);
            assert(pre.drop_last() =~= items@.subrange(0, i as int));
            assert(pre.last() == items@[i as int]);
        }
        if keep {
            let detail = match &items[i].detail {
                Some(d) => Some(d.clone()),
                None => None,
            };
            out.push(TypeHierarchyItem { name: items[i].name.clone(), detail });
            proof {
                assert(out@.drop_last() =~= visible_items(items@.subrange(0, i as int), root_name@));
            }
        }
        i = i + 1;
    }
    proof {
        assert(items@.subrange(0, n as int) =~= items@);
    }
    out
}

/// The whole-extent range a hierarchical outline gives for a position:
/// the first symbol in document order whose range contains it, refined to
/// the innermost matching child.
pub open spec fn spec_symbol_range_in(symbols: Seq<DocumentSymbol>, position: Position) -> Option<
    Range,
>
    decreases symbols,
{
    if symbols.len() == 0 {
        None
    } else if spec_position_in_range(symbols[0].range, position) {
        match symbols[0].children {
            Some(children) => match spec_symbol_range_in(children@, position) {
                Some(child_range) => Some(child_range),
                None => Some(symbols[0].range),
            },
            None => Some(symbols[0].range),
        }
    } else {
        spec_symbol_range_in(symbols.drop_first(), position)
    }
}

/// Walks a hierarchical outline for the innermost symbol whose whole
/// range contains `position`, and returns that range.
pub fn find_symbol_range_recursive(symbols: &[DocumentSymbol], position: &Position) -> (r: Option<
    Range,
>)
    ensures
        r == spec_symbol_range_in(symbols@, *position),
    decreases symbols@,
{
    let n = symbols.len();
    let mut i: usize = 0;
    proof {
        assert(symbols@.subrange(0, n as int) =~= symbols@);
    }
    while i < n
        invariant
            i <= n,
            n == symbols@.len(),
            spec_symbol_range_in(symbols@, *position) == spec_symbol_range_in(
                symbols@.subrange(i as int, n as int),
                *position,
            ),
        decreases n - i,
    {
        let ghost tail = symbols@.subrange(i as int, n as int);
        proof {
            assert(tail[0] == symbols@[i as int]);
        }
        if position_in_range(&symbols[i].range, position) {
            match &symbols[i].children {
                Some(children) => {
                    proof {
                        assert(decreases_to!(symbols@ => children@));
                    }
                    match find_symbol_range_recursive(children.as_slice(), position) {
                        Some(child_range) => {
                            return Some(child_range);
                        },
                        None => {},
                    }
                },
                None => {},
            }
            return Some(symbols[i].range);
        }
        proof {
            assert(tail.drop_first() =~= symbols@.subrange(i + 1, n as int));
        }
        i = i + 1;
    }
    None
}

/// The range a flat outline gives for a position: the location range of
/// the first entry whose location range contains it.
pub open spec fn spec_first_info_range(infos: Seq<SymbolInformation>, position: Position) -> Option<
    Range,
>
    decreases infos.len(),
{
    if infos.len() == 0 {
        None
    } else if spec_position_in_range(infos[0].location.range, position) {
        Some(infos[0].location.range)
    } else {
        spec_first_info_range(infos.drop_first(), position)
    }
}

/// Scans a flat outline for the first entry whose location range contains
/// `position`, and returns that range.
pub fn find_info_range(infos: &[SymbolInformation], position: &Position) -> (r: Option<Range>)
    ensures
        r == spec_first_info_range(infos@, *position),
{
    let n = infos.len();
    let mut i: usize = 0;
    proof {
        assert(infos@.subrange(0, n as int) =~= infos@);
    }
    while i < n
        invariant
            i <= n,
            n == infos@.len(),
            spec_first_info_range(infos@, *position) == spec_first_info_range(
                infos@.subrange(i as int, n as int),
                *position,
            ),
        decreases n - i,
    {
        let ghost tail = infos@.subrange(i as int, n as int);
        proof {
            assert(tail[0] == infos@[i as int]);
        }
        if position_in_range(&infos[i].location.range, position) {
            return Some(infos[i].location.range);
        }
        proof {
            assert(tail.drop_first() =~= infos@.subrange(i + 1, n as int));
        }
        i = i + 1;
    }
    None
}

/// The target a source lookup settles on: the tie-broken definition
/// location when the definition request produced one, else the caller's
/// own file and position — the fallback that lets the lookup work when
/// the cursor already sits on a definition.
pub fn source_target(
    definition: Option<DefinitionResponse>,
    fallback_uri: String,
    fallback_position: Position,
) -> (r: (String, Position))
    ensures
        match definition {
            Some(d) => match spec_select_definition_location(d) {
                Some(location) => r.0 == location.uri && r.1 == location.range.start,
                None => r.0 == fallback_uri && r.1 == fallback_position,
            },
            None => r.0 == fallback_uri && r.1 == fallback_position,
        },
{
    match definition {
        Some(d) => {
            match select_definition_location(d) {
                Some(location) => (location.uri, location.range.start),
                None => (fallback_uri, fallback_position),
            }
        },
        None => (fallback_uri, fallback_position),
    }
}

} // verus!
