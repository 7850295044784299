//! Symbol locator: resolves a (symbol, snippet, occurrence) triple against
//! full file text into an exact (line, UTF-16 column) position, rejecting
//! matches that are substrings of longer identifiers or that lie inside
//! comments or string literals.

use vstd::prelude::*;
use vstd::string::StringSliceAdditionalSpecFns;

use crate::codec::{column_of, index_to_line_col, line_of};
use crate::context::{is_valid_code_context, spec_is_code_context};

verus! {

/// Locator failure: either the snippet is not a byte-exact substring of
/// the file, or fewer qualifying matches of the symbol exist than the
/// requested occurrence; both carry what was asked and, for occurrences,
/// what was found.
#[derive(Debug, Clone, Copy, PartialEq, Eq, Structural)]
pub enum LocateError {
    SnippetNotFound { occurrence: usize },
    OccurrenceNotFound { expected: usize, found: usize },
}

/// `pat` occurs byte-exactly in `text` at offset `i`.
pub open spec fn is_match_at(text: Seq<u8>, pat: Seq<u8>, i: int) -> bool {
    &&& 0 <= i
    &&& i + pat.len() <= text.len()
    &&& text.subrange(i, i + pat.len()) == pat
}

/// Offset of the first match of `pat` in `text` at or after `i`.
pub open spec fn first_match_from(text: Seq<u8>, pat: Seq<u8>, i: int) -> Option<int>
    decreases text.len() + 1 - i,
{
    if i < 0 || i + pat.len() > text.len() {
        None
    } else if is_match_at(text, pat, i) {
        Some(i)
    } else {
        first_match_from(text, pat, i + 1)
    }
}

/// Every match offset of `pat` in `text` at or after `i`, in increasing
/// order, overlapping matches included: the scan resumes one byte past
/// each match's start.
pub open spec fn match_positions_from(text: Seq<u8>, pat: Seq<u8>, i: int) -> Seq<int>
    decreases text.len() + 1 - i,
{
    if i < 0 || i + pat.len() > text.len() {
        Seq::empty()
    } else if is_match_at(text, pat, i) {
        seq![i] + match_positions_from(text, pat, i + 1)
    } else {
        match_positions_from(text, pat, i + 1)
    }
}

/// Bytes that may continue an identifier: ASCII digits, letters, the
/// underscore, and every byte outside ASCII (multi-byte characters are
/// treated as identifier-continuing).
pub open spec fn is_ident_byte(b: u8) -> bool {
    (48 <= b <= 57) || (65 <= b <= 90) || (97 <= b <= 122) || b == 95 || b >= 0x80
}

/// The match of length `plen` at `i` is a whole word in `block`: the byte
/// immediately before (if any) and immediately after (if any) both fail
/// the identifier test.
pub open spec fn word_bounded(block: Seq<u8>, i: int, plen: int) -> bool {
    &&& (i == 0 || !is_ident_byte(block[i - 1]))
    &&& (i + plen == block.len() || !is_ident_byte(block[i + plen]))
}

/// A symbol match at offset `i` of the snippet window qualifies when it is
/// a whole word and its absolute offset in the file lies in plain code.
pub open spec fn match_qualifies(
    file: Seq<u8>,
    bstart: int,
    block: Seq<u8>,
    sym: Seq<u8>,
    i: int,
) -> bool {
    &&& word_bounded(block, i, sym.len() as int)
    &&& spec_is_code_context(file, bstart + i)
}

/// Offsets of the qualifying symbol matches inside the snippet window, in
/// left-to-right order, enumerated without overlap: the scan resumes past
/// each substring match, whether or not it qualified.
pub open spec fn qual_positions_from(
    file: Seq<u8>,
    bstart: int,
    block: Seq<u8>,
    sym: Seq<u8>,
    i: int,
) -> Seq<int>
    decreases block.len() + 1 - i,
{
    let step = if sym.len() == 0 {
        1int
    } else {
        sym.len() as int
    };
    if i < 0 || i + sym.len() > block.len() {
        Seq::empty()
    } else if is_match_at(block, sym, i) {
        if match_qualifies(file, bstart, block, sym, i) {
            seq![i] + qual_positions_from(file, bstart, block, sym, i + step)
        } else {
            qual_positions_from(file, bstart, block, sym, i + step)
        }
    } else {
        qual_positions_from(file, bstart, block, sym, i + 1)
    }
}

/// A run of `n` spaces.
pub open spec fn space_run(n: int) -> Seq<char>
    decreases n,
{
    if n <= 0 {
        Seq::empty()
    } else {
        seq![' '] + space_run(n - 1)
    }
}

/// The characters of a position marker for a line, with `budget`
/// characters of the line still to cover before the caret: a tab widens to
/// four spaces for visual alignment, any other character becomes one space
/// (continuation bytes belong to an already-covered character), the caret
/// is placed the moment the budget is spent, and a budget outlasting the
/// line is padded with spaces.
pub open spec fn marker_chars(s: Seq<u8>, budget: int) -> Seq<char>
    decreases s.len(),
{
    if budget <= 0 {
        seq!['^']
    } else if s.len() == 0 {
        space_run(budget) + seq!['^']
    } else if vstd::utf8::is_continuation_byte(s[0]) {
        marker_chars(s.drop_first(), budget)
    } else if s[0] == 9 {
        seq![' ', ' ', ' ', ' '] + marker_chars(s.drop_first(), budget - 1)
    } else {
        seq![' '] + marker_chars(s.drop_first(), budget - 1)
    }
}

/// A first match found at `j` really is a match, and no earlier offset at
/// or after `i` matches.
pub proof fn lemma_first_match_is_match(text: Seq<u8>, pat: Seq<u8>, i: int, j: int)
    requires
        first_match_from(text, pat, i) == Some(j),
    ensures
        is_match_at(text, pat, j),
        i <= j,
    decreases text.len() + 1 - i,
{
    if !(i < 0 || i + pat.len() > text.len()) && !is_match_at(text, pat, i) {
        lemma_first_match_is_match(text, pat, i + 1, j);
    }
}

/// Byte-exact comparison of `pat` against `text` at offset `i`.
fn match_at(text: &[u8], pat: &[u8], i: usize) -> (r: bool)
    requires
        i + pat@.len() <= text@.len(),
    ensures
        r == is_match_at(text@, pat@, i as int),
{
    let tlen = text.len();
    let plen = pat.len();
    let mut k: usize = 0;
    while k < plen
        invariant
            k <= plen,
            tlen == text@.len(),
            plen == pat@.len(),
            i + plen <= tlen,
            forall|m: int| 0 <= m < k ==> text@[i + m] == pat@[m],
        decreases plen - k,
    {
        if text[i + k] != pat[k] {
            proof {
                assert(text@.subrange(i as int, i + plen)[k as int] == text@[i + k]);
            }
            return false;
        }
        k = k + 1;
    }
    proof {
        assert(text@.subrange(i as int, i + plen) =~= pat@);
    }
    true
}

/// First byte-exact occurrence of `pat` in `text`, scanning from the
/// start.
fn find_first(text: &[u8], pat: &[u8]) -> (r: Option<usize>)
    requires
        text@.len() < usize::MAX,
    ensures
        match r {
            Some(i) => first_match_from(text@, pat@, 0) == Some(i as int),
            None => first_match_from(text@, pat@, 0) is None,
        },
{
    let tlen = text.len();
    let plen = pat.len();
    if plen > tlen {
        return None;
    }
    let bound = tlen - plen;
    let mut i: usize = 0;
    while i <= bound
        invariant
            plen <= tlen,
            tlen < usize::MAX,
            bound == tlen - plen,
            tlen == text@.len(),
            plen == pat@.len(),
            i <= bound + 1,
            first_match_from(text@, pat@, 0) == first_match_from(text@, pat@, i as int),
        decreases bound + 1 - i,
    {
        if match_at(text, pat, i) {
            return Some(i);
        }
        i = i + 1;
    }
    None
}

fn ident_byte(b: u8) -> (r: bool)
    ensures
        r == is_ident_byte(b),
{
    (48 <= b && b <= 57) || (65 <= b && b <= 90) || (97 <= b && b <= 122) || b == 95 || b >= 0x80
}

/// Finds the `occurrence`-th (1-based) whole-word, code-context match of
/// `symbol` inside the first byte-exact occurrence of `code_block` in
/// `file_content`, and converts its absolute offset to a zero-based
/// (line, UTF-16 column) pair.
///
/// Fails with `SnippetNotFound` iff the snippet occurs nowhere in the
/// file, and with `OccurrenceNotFound` — carrying the number of qualifying
/// matches actually found — iff fewer than `occurrence` qualifying matches
/// exist (in particular whenever `occurrence` is zero).
pub fn find_symbol_location(
    file_content: &str,
    symbol: &str,
    code_block: &str,
    occurrence: usize,
) -> (r: Result<(u32, u32), LocateError>)
    requires
        file_content.spec_bytes().len() < u32::MAX,
    ensures
        ({
            let file = file_content.spec_bytes();
            let block = code_block.spec_bytes();
            let sym = symbol.spec_bytes();
            match first_match_from(file, block, 0) {
                None => r == Err::<(u32, u32), LocateError>(LocateError::SnippetNotFound {
                    occurrence: 1,
                }),
                Some(bstart) => {
                    let quals = qual_positions_from(file, bstart, block, sym, 0);
                    if 1 <= occurrence <= quals.len() {
                        r == Ok::<(u32, u32), LocateError>(
                            (
                                line_of(file, bstart + quals[occurrence - 1]) as u32,
                                column_of(file, bstart + quals[occurrence - 1]) as u32,
                            ),
                        )
                    } else {
                        r == Err::<(u32, u32), LocateError>(LocateError::OccurrenceNotFound {
                            expected: occurrence,
                            found: quals.len() as usize,
                        })
                    }
                },
            }
        }),
{
    let file = file_content.as_bytes();
    let block = code_block.as_bytes();
    let sym = symbol.as_bytes();
    let ghost filev = file_content.spec_bytes();
    let ghost blockv = code_block.spec_bytes();
    let ghost symv = symbol.spec_bytes();

    let bstart = match find_first(file, block) {
        Some(i) => i,
        None => {
            return Err(LocateError::SnippetNotFound { occurrence: 1 });
        },
    };
    proof {
        lemma_first_match_is_match(filev, blockv, 0, bstart as int);
    }

    let blen = block.len();
    let slen = sym.len();
    if slen > blen {
        return Err(LocateError::OccurrenceNotFound { expected: occurrence, found: 0 });
    }
    let step: usize = if slen == 0 {
        1
    } else {
        slen
    };
    let ghost quals = qual_positions_from(filev, bstart as int, blockv, symv, 0);
    let ghost mut done: Seq<int> = Seq::empty();
    let mut count: usize = 0;
    let mut j: usize = 0;
    proof {
        assert(quals =~= done + qual_positions_from(filev, bstart as int, blockv, symv, 0));
    }
    let bound = blen - slen;
    while j <= bound
        invariant
            filev == file_content.spec_bytes(),
            blockv == code_block.spec_bytes(),
            symv == symbol.spec_bytes(),
            filev.len() < u32::MAX,
            file@ == filev,
            block@ == blockv,
            sym@ == symv,
            first_match_from(filev, blockv, 0) == Some(bstart as int),
            blen == blockv.len(),
            slen == symv.len(),
            slen <= blen,
            bound == blen - slen,
            step == if slen == 0 { 1int } else { slen as int },
            0 <= bstart,
            bstart + blen <= filev.len(),
            j <= blen + 1,
            count <= j,
            quals == qual_positions_from(filev, bstart as int, blockv, symv, 0),
            quals == done + qual_positions_from(filev, bstart as int, blockv, symv, j as int),
            count == done.len(),
            occurrence == 0 || count < occurrence,
        decreases blen + 1 - j,
    {
        let ghost jj = j as int;
        if match_at(block, sym, j) {
            let valid_start = j == 0 || !ident_byte(block[j - 1]);
            let valid_end = j + slen == blen || !ident_byte(block[j + slen]);
            let in_code = is_valid_code_context(file_content, bstart + j);
            if valid_start && valid_end && in_code {
                proof {
                    assert(word_bounded(blockv, jj, slen as int));
                    assert(match_qualifies(filev, bstart as int, blockv, symv, jj));
                    assert(qual_positions_from(filev, bstart as int, blockv, symv, jj)
                        == seq![jj] + qual_positions_from(
                        filev,
                        bstart as int,
                        blockv,
                        symv,
                        jj + step,
                    ));
                }
                count = count + 1;
                if count == occurrence {
                    proof {
                        assert(quals[done.len() as int] == jj);
                    }
                    let (line, character) = index_to_line_col(file_content, bstart + j);
                    return Ok((line, character));
                }
                proof {
                    done = done.push(jj);
                    assert(quals =~= done + qual_positions_from(
                        filev,
                        bstart as int,
                        blockv,
                        symv,
                        jj + step,
                    ));
                }
            } else {
                proof {
                    assert(!match_qualifies(filev, bstart as int, blockv, symv, jj));
                }
            }
            j = j + step;
        } else {
            j = j + 1;
        }
    }
    proof {
        assert(qual_positions_from(filev, bstart as int, blockv, symv, j as int)
            =~= Seq::<int>::empty());
        assert(quals =~= done);
    }
    Err(LocateError::OccurrenceNotFound { expected: occurrence, found: count })
}

/// Finds the `occurrence`-th (1-based) byte-exact occurrence of
/// `code_block` in `file_content`, counting repeated matches one byte
/// apart, and returns the snippet's own start and end as two zero-based
/// (line, UTF-16 column) pairs.
///
/// Fails with `SnippetNotFound` — carrying the requested occurrence — iff
/// fewer matches than `occurrence` exist (in particular whenever
/// `occurrence` is zero).
pub fn find_block_range(
    file_content: &str,
    code_block: &str,
    occurrence: usize,
) -> (r: Result<(u32, u32, u32, u32), LocateError>)
    requires
        file_content.spec_bytes().len() < u32::MAX,
    ensures
        ({
            let file = file_content.spec_bytes();
            let block = code_block.spec_bytes();
            let ms = match_positions_from(file, block, 0);
            if 1 <= occurrence <= ms.len() {
                r == Ok::<(u32, u32, u32, u32), LocateError>(
                    (
                        line_of(file, ms[occurrence - 1]) as u32,
                        column_of(file, ms[occurrence - 1]) as u32,
                        line_of(file, ms[occurrence - 1] + block.len()) as u32,
                        column_of(file, ms[occurrence - 1] + block.len()) as u32,
                    ),
                )
            } else {
                r == Err::<(u32, u32, u32, u32), LocateError>(LocateError::SnippetNotFound {
                    occurrence,
                })
            }
        }),
{
    let file = file_content.as_bytes();
    let block = code_block.as_bytes();
    let ghost filev = file_content.spec_bytes();
    let ghost blockv = code_block.spec_bytes();

    let flen = file.len();
    let blen = block.len();
    let ghost ms = match_positions_from(filev, blockv, 0);
    if blen > flen {
        return Err(LocateError::SnippetNotFound { occurrence });
    }
    let ghost mut done: Seq<int> = Seq::empty();
    let mut count: usize = 0;
    let mut j: usize = 0;
    proof {
        assert(ms =~= done + match_positions_from(filev, blockv, 0));
    }
    let bound = flen - blen;
    while j <= bound
        invariant
            filev == file_content.spec_bytes(),
            blockv == code_block.spec_bytes(),
            filev.len() < u32::MAX,
            file@ == filev,
            block@ == blockv,
            flen == filev.len(),
            blen == blockv.len(),
            blen <= flen,
            bound == flen - blen,
            j <= bound + 1,
            count <= j,
            ms == match_positions_from(filev, blockv, 0),
            ms == done + match_positions_from(filev, blockv, j as int),
            count == done.len(),
            occurrence == 0 || count < occurrence,
        decreases bound + 1 - j,
    {
        let ghost jj = j as int;
        if match_at(file, block, j) {
            proof {
                assert(match_positions_from(filev, blockv, jj) == seq![jj]
                    + match_positions_from(filev, blockv, jj + 1));
            }
            count = count + 1;
            if count == occurrence {
                proof {
                    assert(ms[done.len() as int] == jj);
                }
                let (start_line, start_char) = index_to_line_col(file_content, j);
                let (end_line, end_char) = index_to_line_col(file_content, j + blen);
                return Ok((start_line, start_char, end_line, end_char));
            }
            proof {
                done = done.push(jj);
                assert(ms =~= done + match_positions_from(filev, blockv, jj + 1));
            }
        }
        j = j + 1;
    }
    proof {
        assert(match_positions_from(filev, blockv, j as int) =~= Seq::<int>::empty());
        assert(ms =~= done);
    }
    Err(LocateError::SnippetNotFound { occurrence })
}

/// Renders a line of spaces ending in a caret that points at the character
/// counted by `char_idx` in `line_content`, widening tabs to four spaces
/// so the caret lines up under the character it names.
pub fn create_position_marker(line_content: &str, char_idx: u32) -> (marker: String)
    ensures
        marker@ == marker_chars(line_content.spec_bytes(), char_idx as int),
{
    let bytes = line_content.as_bytes();
    let n = bytes.len();
    let ghost s = line_content.spec_bytes();
    let mut marker = String::new();
    let mut counted: u32 = 0;
    let mut i: usize = 0;
    proof {
        assert(s.subrange(0, n as int) =~= s);
    }
    while i < n
        invariant
            s == line_content.spec_bytes(),
            bytes@ == s,
            n == s.len(),
            i <= n,
            counted <= char_idx,
            marker_chars(s, char_idx as int) == marker@ + marker_chars(
                s.subrange(i as int, n as int),
                char_idx - counted,
            ),
        decreases n - i,
    {
        let ghost rest = s.subrange(i as int, n as int);
        if counted == char_idx {
            marker.append("^");
            proof {
                reveal_strlit("^");
                assert("^"@ =~= seq!['^']);
                assert(marker_chars(rest, 0) =~= seq!['^']);
                assert(marker@ =~= marker_chars(s, char_idx as int));
            }
            return marker;
        }
        let b = bytes[i];
        if 0x80 <= b && b <= 0xBF {
            // a continuation byte of the character already counted
        } else if b == 9 {
            marker.append("    ");
            proof {
                reveal_strlit("    ");
                assert("    "@ =~= seq![' ', ' ', ' ', ' ']);
            }
            counted = counted + 1;
        } else {
            marker.append(" ");
            proof {
                reveal_strlit(" ");
                assert(" "@ =~= seq![' ']);
            }
            counted = counted + 1;
        }
        i = i + 1;
        proof {
            assert(rest.drop_first() =~= s.subrange(i as int, n as int));
        }
    }
    while counted < char_idx
        invariant
            counted <= char_idx,
            marker_chars(s, char_idx as int) == marker@ + marker_chars(
                Seq::<u8>::empty(),
                char_idx - counted,
            ),
        decreases char_idx - counted,
    {
        marker.append(" ");
        proof {
            reveal_strlit(" ");
            assert(" "@ =~= seq![' ']);
            assert(Seq::<u8>::empty().len() == 0);
        }
        counted = counted + 1;
    }
    marker.append("^");
    proof {
        reveal_strlit("^");
        assert("^"@ =~= seq!['^']);
        assert(marker_chars(Seq::<u8>::empty(), 0) =~= seq!['^']);
        assert(marker@ =~= marker_chars(s, char_idx as int));
    }
    marker
}

} // verus!
