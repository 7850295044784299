//! Code-context classifier: decides whether a byte offset in source text
//! lies in plain code rather than inside a string literal, a line comment,
//! or a (possibly nested) block comment, by a single linear scan from the
//! start of the text.

use vstd::prelude::*;
use vstd::string::StringSliceAdditionalSpecFns;

use crate::codec::NEWLINE;

verus! {

pub const QUOTE: u8 = 34;

pub const BACKSLASH: u8 = 92;

pub const SLASH: u8 = 47;

pub const STAR: u8 = 42;

/// Whether a scan state lies in plain code: not inside a string literal,
/// not inside a line comment, and at block-comment depth zero.
pub open spec fn state_is_code(in_string: bool, in_line_comment: bool, depth: nat) -> bool {
    !in_string && !in_line_comment && depth == 0
}

/// The classifier's scan, resumed at byte `i` in the given state: the scan
/// stops the instant the cursor reaches `target` (or the end of the text)
/// and answers whether the state there is plain code. In a line comment, a
/// newline returns to code. At block-comment depth one or more, `/*` and
/// `*/` adjust the depth and both their bytes are consumed at once, so a
/// target landing on the second byte sees the adjusted state. In a string,
/// a backslash consumes the following byte unconditionally and `"` returns
/// to code. In code, `//` opens a line comment, `/*` a block comment, and
/// `"` a string.
pub open spec fn scan_is_code(
    s: Seq<u8>,
    i: int,
    target: int,
    in_string: bool,
    in_line_comment: bool,
    depth: nat,
) -> bool
    decreases s.len() + 2 - i,
{
    if i >= target || i >= s.len() || i < 0 {
        state_is_code(in_string, in_line_comment, depth)
    } else {
        let c = s[i];
        if in_line_comment {
            scan_is_code(s, i + 1, target, in_string, c != NEWLINE, depth)
        } else if depth > 0 {
            if c == SLASH && i + 1 < s.len() && s[i + 1] == STAR {
                scan_is_code(s, i + 2, target, in_string, in_line_comment, depth + 1)
            } else if c == STAR && i + 1 < s.len() && s[i + 1] == SLASH {
                scan_is_code(s, i + 2, target, in_string, in_line_comment, (depth - 1) as nat)
            } else {
                scan_is_code(s, i + 1, target, in_string, in_line_comment, depth)
            }
        } else if in_string {
            if c == BACKSLASH {
                scan_is_code(s, i + 2, target, true, in_line_comment, depth)
            } else {
                scan_is_code(s, i + 1, target, c != QUOTE, in_line_comment, depth)
            }
        } else {
            if c == SLASH && i + 1 < s.len() && s[i + 1] == SLASH {
                scan_is_code(s, i + 2, target, false, true, depth)
            } else if c == SLASH && i + 1 < s.len() && s[i + 1] == STAR {
                scan_is_code(s, i + 2, target, false, false, 1)
            } else if c == QUOTE {
                scan_is_code(s, i + 1, target, true, false, depth)
            } else {
                scan_is_code(s, i + 1, target, false, false, depth)
            }
        }
    }
}

/// Whether the byte at `target` lies in plain code, scanning from the
/// start of the text in the initial state.
pub open spec fn spec_is_code_context(s: Seq<u8>, target: int) -> bool {
    scan_is_code(s, 0, target, false, false, 0)
}

/// True iff `target_idx` lies outside any string literal, line comment, or
/// nested block comment of `text`, as determined by scanning from the
/// start. An offset at or past the end of the text is classified by the
/// state in which the scan ran out of text.
pub fn is_valid_code_context(text: &str, target_idx: usize) -> (r: bool)
    ensures
        r == spec_is_code_context(text.spec_bytes(), target_idx as int),
{
    let bytes = text.as_bytes();
    let n = bytes.len();
    let ghost s = text.spec_bytes();
    let mut i: usize = 0;
    let mut in_string = false;
    let mut in_line_comment = false;
    let mut depth: usize = 0;
    while i < target_idx && i < n
        invariant
            bytes@ == s,
            n == s.len(),
            i <= n,
            depth <= i,
            scan_is_code(s, i as int, target_idx as int, in_string, in_line_comment, depth as nat)
                == spec_is_code_context(s, target_idx as int),
        decreases n - i,
    {
        let c = bytes[i];
        if in_line_comment {
            if c == NEWLINE {
                in_line_comment = false;
            }
            i = i + 1;
        } else if depth > 0 {
            if c == SLASH && i + 1 < n && bytes[i + 1] == STAR {
                depth = depth + 1;
                i = i + 2;
            } else if c == STAR && i + 1 < n && bytes[i + 1] == SLASH {
                depth = depth - 1;
                i = i + 2;
            } else {
                i = i + 1;
            }
        } else if in_string {
            if c == BACKSLASH {
                let ghost prev = i as int;
                if i + 1 < n {
                    i = i + 2;
                } else {
                    i = n;
                    proof {
                        assert(scan_is_code(
                            s,
                            prev + 2,
                            target_idx as int,
                            true,
                            in_line_comment,
                            depth as nat,
                        ) == scan_is_code(
                            s,
                            n as int,
                            target_idx as int,
                            true,
                            in_line_comment,
                            depth as nat,
                        ));
                    }
                }
            } else {
                if c == QUOTE {
                    in_string = false;
                }
                i = i + 1;
            }
        } else {
            if c == SLASH && i + 1 < n && bytes[i + 1] == SLASH {
                in_line_comment = true;
                i = i + 2;
            } else if c == SLASH && i + 1 < n && bytes[i + 1] == STAR {
                depth = 1;
                i = i + 2;
            } else {
                if c == QUOTE {
                    in_string = true;
                }
                i = i + 1;
            }
        }
    }
    !in_string && !in_line_comment && depth == 0
}

} // verus!
