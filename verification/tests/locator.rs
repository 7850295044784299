use rust_mcp_server::codec::{index_to_line_col, to_position};
use rust_mcp_server::context::is_valid_code_context;
use rust_mcp_server::locate::{create_position_marker, find_block_range, find_symbol_location, LocateError};

#[test]
fn test_index_to_line_col() {
    let text = "hello\nworld\n! 123";
    // "h" -> 0, 0
    assert_eq!(index_to_line_col(text, 0), (0, 0));
    // "w" in "world" -> index 6 (hello=5 + \n=1)
    assert_eq!(index_to_line_col(text, 6), (1, 0));
    // "!" -> index 12 (hello\n=6, world\n=6)
    assert_eq!(index_to_line_col(text, 12), (2, 0));
    // "1" -> index 14
    assert_eq!(index_to_line_col(text, 14), (2, 2));
}

#[test]
fn test_unicode() {
    let text = "a\nб\nв"; // 'б' is 2 bytes
    // 'a' (0) -> 0,0
    // '\n' (1)
    // 'б' (2) -> 1,0
    assert_eq!(index_to_line_col(text, 2), (1, 0));
    // '\n' after 'б' is at 2+2=4.
    // 'в' at 5.
    assert_eq!(index_to_line_col(text, 5), (2, 0));
}

#[test]
fn test_is_valid_code_context() {
    let code = "
        let x = 1; // comment with x
        let s = \"string with x\";
        /*
           multi-line comment with x
        */
        let x = 2;
        ";

    // Find all 'x' indices manually
    // x at line 2: "let x"
    let first_x = code.find("let x").unwrap() + 4;
    assert!(is_valid_code_context(code, first_x));

    // x in comment: "// comment with x"
    let comment_start = code.find("//").unwrap();
    let x_in_comment = comment_start + code[comment_start..].find("x").unwrap();
    assert!(!is_valid_code_context(code, x_in_comment));

    // x in string: "\"string with x\""
    let string_start = code.find("\"").unwrap();
    let x_in_string = string_start + code[string_start..].find("x").unwrap();
    assert!(!is_valid_code_context(code, x_in_string));

    // x in block comment
    let block_start = code.find("/*").unwrap();
    let x_in_block = block_start + code[block_start..].find("x").unwrap();
    assert!(!is_valid_code_context(code, x_in_block));

    // last x
    let last_let = code.rfind("let x").unwrap();
    let last_x = last_let + 4;
    assert!(is_valid_code_context(code, last_x));
}

#[test]
fn test_word_boundary_logic() {
    let block_content = "let service = rust_server.serve(stdio()).await?;";
    let symbol = "serve";
    let occurrence = 1;

    // "rust_server" starts at 14. "serve" inside it starts at 19.
    // ".serve" starts at 25 (dot) -> serve at 26.
    // 1. Index 19: char before is '_', an identifier character. SKIP.
    // 2. Index 26: char before is '.', char after is '('. MATCH.
    let found = find_symbol_location(block_content, symbol, block_content, occurrence);
    assert_eq!(
        found,
        Ok((0, 26)),
        "Should find the standalone 'serve', skipping 'rust_server'"
    );
}

#[test]
fn classifier_marker_in_each_context() {
    let code = "marker\n// marker\n\"marker\"\n/* outer /* marker */ still */\ndone";
    let plain = 0;
    assert!(is_valid_code_context(code, plain));
    let in_line_comment = code.find("// marker").unwrap() + 3;
    assert!(!is_valid_code_context(code, in_line_comment));
    let in_string = code.find("\"marker\"").unwrap() + 1;
    assert!(!is_valid_code_context(code, in_string));
    let in_nested_block = code.find("/* marker").unwrap() + 3;
    assert!(!is_valid_code_context(code, in_nested_block));
}

#[test]
fn locate_first_occurrence_and_count_mismatch() {
    let file = "fn main() {\n    let x = 1;\n    let y = x + 2;\n}\n";
    let snippet = "let x = 1;";
    let first = find_symbol_location(file, "x", snippet, 1);
    let x_offset = file.find(snippet).unwrap() + 4;
    let (line, character) = index_to_line_col(file, x_offset);
    assert_eq!(first, Ok((line, character)));

    let second = find_symbol_location(file, "x", snippet, 2);
    assert_eq!(
        second,
        Err(LocateError::OccurrenceNotFound { expected: 2, found: 1 })
    );
}

#[test]
fn locate_rejects_partial_identifier_matches() {
    let file = "fn go() {\n    rust_server.serve(stdio());\n}\n";
    let snippet = "rust_server.serve(stdio());";
    let r = find_symbol_location(file, "serve", snippet, 1);
    let dot = file.find(".serve").unwrap();
    let (line, character) = index_to_line_col(file, dot + 1);
    assert_eq!(r, Ok((line, character)));
    // No second whole-word occurrence exists: the one inside rust_server
    // never counts.
    assert_eq!(
        find_symbol_location(file, "serve", snippet, 2),
        Err(LocateError::OccurrenceNotFound { expected: 2, found: 1 })
    );
}

#[test]
fn locate_snippet_not_found() {
    let file = "fn main() {}\n";
    assert_eq!(
        find_symbol_location(file, "x", "let x = 1;", 1),
        Err(LocateError::SnippetNotFound { occurrence: 1 })
    );
}

#[test]
fn locate_ignores_matches_in_comments() {
    let file = "// count\nlet count = 1;\n";
    let snippet = file;
    let r = find_symbol_location(file, "count", snippet, 1);
    let code_count = file.find("let count").unwrap() + 4;
    let (line, character) = index_to_line_col(file, code_count);
    assert_eq!(r, Ok((line, character)));
    assert_eq!(line, 1);
}

#[test]
fn end_to_end_add_function() {
    let file = "fn add(a: i32, b: i32) -> i32 {\n    a + b\n}\n";
    let snippet = file;
    let r = find_symbol_location(file, "add", snippet, 1);
    assert_eq!(r, Ok((0, 3)));
}

#[test]
fn surrogate_pair_counts_two_units() {
    // '😀' takes four UTF-8 bytes but two UTF-16 code units.
    let text = "a😀b";
    let b_offset = text.find('b').unwrap();
    assert_eq!(index_to_line_col(text, b_offset), (0, 3));
    let p = to_position(text, b_offset);
    assert_eq!((p.line, p.character), (0, 3));
}

#[test]
fn line_start_offsets_have_column_zero() {
    let text = "alpha\nbeta\r\ngamma\n";
    for (off, ch) in text.char_indices() {
        let at_line_start = off == 0 || text.as_bytes()[off - 1] == b'\n';
        let (_, character) = index_to_line_col(text, off);
        if at_line_start {
            assert_eq!(character, 0, "offset {off} of {ch:?}");
        }
    }
}

#[test]
fn block_range_positions_and_overlap() {
    let file = "aaa\nbbb\n";
    assert_eq!(find_block_range(file, "aa", 1), Ok((0, 0, 0, 2)));
    // Overlapping repeats count: the second "aa" starts one byte later.
    assert_eq!(find_block_range(file, "aa", 2), Ok((0, 1, 0, 3)));
    assert_eq!(find_block_range(file, "bbb\n", 1), Ok((1, 0, 2, 0)));
    assert_eq!(
        find_block_range(file, "zz", 1),
        Err(LocateError::SnippetNotFound { occurrence: 1 })
    );
    assert_eq!(
        find_block_range(file, "aa", 3),
        Err(LocateError::SnippetNotFound { occurrence: 3 })
    );
}

#[test]
fn position_marker_shapes() {
    assert_eq!(create_position_marker("let x = 1;", 4), "    ^");
    assert_eq!(create_position_marker("\tx", 1), "    ^");
    // A marker past the end of the line is padded with spaces.
    assert_eq!(create_position_marker("ab", 4), "    ^");
    assert_eq!(create_position_marker("", 0), "^");
    // Multi-byte characters count once.
    assert_eq!(create_position_marker("ба", 1), " ^");
}
