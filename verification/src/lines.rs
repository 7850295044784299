//! Line access over file text: decomposing text into lines the way the
//! platform's line iterator does — split at newlines, a carriage return
//! stripped only when a newline followed it, a trailing newline adding no
//! extra line — and extracting one line or a joined span of lines.

use vstd::prelude::*;

verus! {

/// A line piece with a carriage return left by an `\r\n` ending removed.
pub open spec fn strip_cr(p: Seq<char>) -> Seq<char> {
    if p.len() > 0 && p.last() == '\r' {
        p.drop_last()
    } else {
        p
    }
}

/// The lines of `s` from `start` on, with the cursor at `i`: each newline
/// ends a line (whose trailing carriage return, if any, is dropped); text
/// after the last newline forms a final line kept verbatim; a trailing
/// newline adds no empty line.
pub open spec fn lines_from(s: Seq<char>, i: int, start: int) -> Seq<Seq<char>>
    decreases s.len() + 1 - i,
{
    if i < start || i >= s.len() {
        if start >= s.len() {
            Seq::empty()
        } else {
            seq![s.subrange(start, s.len() as int)]
        }
    } else if s[i] == '\n' {
        seq![strip_cr(s.subrange(start, i))] + lines_from(s, i + 1, i + 1)
    } else {
        lines_from(s, i + 1, start)
    }
}

/// The lines of a text.
pub open spec fn spec_lines(s: Seq<char>) -> Seq<Seq<char>> {
    lines_from(s, 0, 0)
}

/// Lines joined back with single newlines, no terminator.
pub open spec fn joined_lines(ls: Seq<Seq<char>>) -> Seq<char>
    decreases ls.len(),
{
    if ls.len() == 0 {
        Seq::empty()
    } else if ls.len() == 1 {
        ls[0]
    } else {
        joined_lines(ls.drop_last()) + seq!['\n'] + ls.last()
    }
}

/// Splits text into its lines.
pub fn split_lines(text: &str) -> (r: Vec<String>)
    ensures
        r@.map_values(|x: String| x@) == spec_lines(text@),
{
    let n = text.unicode_len();
    let mut out: Vec<String> = Vec::new();
    let mut start: usize = 0;
    let mut i: usize = 0;
    proof {
        assert(out@.map_values(|x: String| x@) =~= Seq::<Seq<char>>::empty());
    }
    while i < n
        invariant
            start <= i,
            i <= n,
            n == text@.len(),
            spec_lines(text@) == out@.map_values(|x: String| x@) + lines_from(
                text@,
                i as int,
                start as int,
            ),
        decreases n - i,
    {
        if text.get_char(i) == '\n' {
            let piece_end = if i > start && text.get_char(i - 1) == '\r' {
                i - 1
            } else {
                i
            };
            proof {
                let piece = text@.subrange(start as int, i as int);
                if i > start && text@[i - 1] == '\r' {
                    assert(piece.last() == text@[i - 1]);
                    assert(strip_cr(piece) =~= text@.subrange(start as int, i - 1));
                } else {
                    if piece.len() > 0 {
                        assert(piece.last() == text@[i - 1]);
                    }
                    assert(strip_cr(piece) =~= piece);
                }
            }
            out.push(text.substring_char(start, piece_end).to_owned());
            proof {
                assert(out@.map_values(|x: String| x@) =~= out@.drop_last().map_values(
                    |x: String| x@,
                ).push(out@.last()@));
            }
            i = i + 1;
            start = i;
        } else {
            i = i + 1;
        }
    }
    if start < n {
        out.push(text.substring_char(start, n).to_owned());
        proof {
            assert(out@.map_values(|x: String| x@) =~= out@.drop_last().map_values(
                |x: String| x@,
            ).push(out@.last()@));
        }
    }
    proof {
        assert(out@.map_values(|x: String| x@) =~= spec_lines(text@));
    }
    out
}

/// The line at a zero-based index, or nothing when the text has fewer
/// lines.
pub fn line_at(text: &str, line: usize) -> (r: Option<String>)
    ensures
        match r {
            Some(l) => line < spec_lines(text@).len() && l@ == spec_lines(text@)[line as int],
            None => line >= spec_lines(text@).len(),
        },
{
    let ls = split_lines(text);
    if line < ls.len() {
        proof {
            assert(ls@.map_values(|x: String| x@)[line as int] == ls@[line as int]@);
        }
        Some(ls[line].clone())
    } else {
        None
    }
}

/// The text of the lines from `start_line` through `end_line`, joined
/// with newlines: nothing when `start_line` is past the last line; the
/// end is clamped to the last line; an inverted span yields empty text.
pub fn line_span(text: &str, start_line: usize, end_line: usize) -> (r: Option<String>)
    ensures
        ({
            let ls = spec_lines(text@);
            match r {
                None => start_line >= ls.len(),
                Some(out) => start_line < ls.len() && {
                    let end_safe = if end_line < ls.len() {
                        end_line as int
                    } else {
                        ls.len() - 1
                    };
                    if start_line > end_safe {
                        out@ == Seq::<char>::empty()
                    } else {
                        out@ == joined_lines(ls.subrange(start_line as int, end_safe + 1))
                    }
                },
            }
        }),
{
    let ls = split_lines(text);
    let ghost lsv = ls@.map_values(|x: String| x@);
    let n = ls.len();
    if start_line >= n {
        return None;
    }
    let end_safe = if end_line < n {
        end_line
    } else {
        n - 1
    };
    let mut out = String::new();
    if start_line > end_safe {
        return Some(out);
    }
    let mut k = start_line;
    while k <= end_safe
        invariant
            lsv == ls@.map_values(|x: String| x@),
            start_line <= k <= end_safe + 1,
            end_safe < n,
            n == ls@.len(),
            k == start_line ==> out@ == Seq::<char>::empty(),
            k > start_line ==> out@ == joined_lines(lsv.subrange(start_line as int, k as int)),
        decreases end_safe + 1 - k,
    {
        if k > start_line {
            out.append("\n");
        }
        out.append(ls[k].as_str());
        proof {
            reveal_strlit("\n");
            assert("\n"@ =~= seq!['\n']);
            let pre = lsv.subrange(start_line as int, k + 1);
            assert(pre.drop_last() =~= lsv.subrange(start_line as int, k as int));
            assert(pre.last() == lsv[k as int]);
            assert(lsv[k as int] == ls@[k as int]@);
            if k == start_line {
                assert(pre.len() == 1);
                assert(out@ =~= joined_lines(pre));
            } else {
                assert(out@ =~= joined_lines(pre));
            }
        }
        k = k + 1;
    }
    Some(out)
}

} // verus!
