//! Symbol identity: classifies wire-protocol symbol kinds and derives a
//! (crate, module path, item name, kind) identity from definition results
//! and workspace-symbol records, working from container names and file
//! URIs.

use vstd::prelude::*;

verus! {

/// The kind of a named item, as far as the wire protocol's numeric kinds
/// and container-name hints reveal it.
#[derive(Debug, Clone, PartialEq, Eq, Structural)]
pub enum SymbolKind {
    FreeFunction,
    Method,
    Trait,
    Impl,
    Unknown,
}

/// Where an item lives and what it is: its crate, the module path inside
/// the crate, the item's own name, and its kind.
#[derive(Debug, Clone, PartialEq, Eq)]
pub struct SymbolIdentity {
    pub crate_name: String,
    pub module_segments: Vec<String>,
    pub item_name: String,
    pub kind: SymbolKind,
}

/// ASCII whitespace, the only whitespace the protocol's names carry.
pub open spec fn is_ws_char(c: char) -> bool {
    c == ' ' || c == '\t' || c == '\n' || c == '\r'
}

/// The characters with leading and trailing ASCII whitespace removed.
pub open spec fn trim_chars(s: Seq<char>) -> Seq<char>
    decreases s.len(),
{
    if s.len() > 0 && is_ws_char(s[0]) {
        trim_chars(s.drop_first())
    } else if s.len() > 0 && is_ws_char(s.last()) {
        trim_chars(s.drop_last())
    } else {
        s
    }
}

/// The characters with leading ASCII whitespace removed.
pub open spec fn trim_start_chars(s: Seq<char>) -> Seq<char>
    decreases s.len(),
{
    if s.len() > 0 && is_ws_char(s[0]) {
        trim_start_chars(s.drop_first())
    } else {
        s
    }
}

/// The characters with every repetition of the non-empty prefix `p`
/// removed from the front.
pub open spec fn strip_prefix_all(s: Seq<char>, p: Seq<char>) -> Seq<char>
    decreases s.len(),
{
    if p.len() > 0 && s.len() >= p.len() && s.subrange(0, p.len() as int) == p {
        strip_prefix_all(s.skip(p.len() as int), p)
    } else {
        s
    }
}

/// Whether the characters of `s` in `[from, to)` begin with `p`.
fn chars_start_with(s: &str, from: usize, to: usize, p: &str) -> (r: bool)
    requires
        from <= to <= s@.len(),
    ensures
        r == (to - from >= p@.len() && s@.subrange(from as int, from + p@.len()) == p@),
{
    let plen = p.unicode_len();
    if plen > to - from {
        return false;
    }
    let mut k: usize = 0;
    while k < plen
        invariant
            k <= plen,
            plen == p@.len(),
            from + plen <= to <= s@.len(),
            forall|m: int| 0 <= m < k ==> s@[from + m] == p@[m],
        decreases plen - k,
    {
        if s.get_char(from + k) != p.get_char(k) {
            proof {
                assert(s@.subrange(from as int, from + plen)[k as int] == s@[from + k]);
            }
            return false;
        }
        k = k + 1;
    }
    proof {
        assert(s@.subrange(from as int, from + plen) =~= p@);
    }
    true
}

fn ws_char(c: char) -> (r: bool)
    ensures
        r == is_ws_char(c),
{
    c == ' ' || c == '\t' || c == '\n' || c == '\r'
}

/// The bounds of `s`'s region `[lo0, hi0)` after trimming ASCII
/// whitespace off both ends.
fn trim_bounds(s: &str, lo0: usize, hi0: usize) -> (r: (usize, usize))
    requires
        lo0 <= hi0 <= s@.len(),
    ensures
        lo0 <= r.0 <= r.1 <= hi0,
        trim_chars(s@.subrange(lo0 as int, hi0 as int)) == s@.subrange(r.0 as int, r.1 as int),
{
    let mut lo = lo0;
    let mut hi = hi0;
    while lo < hi && ws_char(s.get_char(lo))
        invariant
            lo0 <= lo <= hi <= hi0 <= s@.len(),
            trim_chars(s@.subrange(lo0 as int, hi0 as int)) == trim_chars(
                s@.subrange(lo as int, hi as int),
            ),
        decreases hi - lo,
    {
        proof {
            assert(s@.subrange(lo as int, hi as int).drop_first() =~= s@.subrange(
                lo + 1,
                hi as int,
            ));
        }
        lo = lo + 1;
    }
    while lo < hi && ws_char(s.get_char(hi - 1))
        invariant
            lo0 <= lo <= hi <= hi0 <= s@.len(),
            lo == hi || !is_ws_char(s@[lo as int]),
            trim_chars(s@.subrange(lo0 as int, hi0 as int)) == trim_chars(
                s@.subrange(lo as int, hi as int),
            ),
        decreases hi - lo,
    {
        proof {
            assert(s@.subrange(lo as int, hi as int).drop_last() =~= s@.subrange(
                lo as int,
                hi - 1,
            ));
        }
        hi = hi - 1;
    }
    proof {
        assert(trim_chars(s@.subrange(lo as int, hi as int)) == s@.subrange(lo as int, hi as int));
    }
    (lo, hi)
}

/// A container name cleaned for splitting: whitespace trimmed, then every
/// leading `::`, then every leading `impl `.
pub open spec fn spec_normalize_container(s: Seq<char>) -> Seq<char> {
    strip_prefix_all(strip_prefix_all(trim_chars(s), "::"@), "impl "@)
}

/// Cleans a container name for splitting: trims whitespace, then strips
/// every leading `::`, then every leading `impl `.
pub fn normalize_container_name(container: &str) -> (r: String)
    ensures
        r@ == spec_normalize_container(container@),
{
    let n = container.unicode_len();
    proof {
        assert(container@.subrange(0, n as int) =~= container@);
    }
    let (lo1, hi) = trim_bounds(container, 0, n);
    let mut lo = lo1;
    let seplen = "::".unicode_len();
    proof {
        reveal_strlit("::");
    }
    while chars_start_with(container, lo, hi, "::")
        invariant
            seplen == "::"@.len(),
            seplen == 2,
            lo <= hi <= container@.len(),
            strip_prefix_all(s_sub(container@, lo1 as int, hi as int), "::"@) == strip_prefix_all(
                s_sub(container@, lo as int, hi as int),
                "::"@,
            ),
        decreases hi - lo,
    {
        proof {
            assert(s_sub(container@, lo as int, hi as int).subrange(0, 2) =~= container@.subrange(
                lo as int,
                lo + 2,
            ));
            assert(s_sub(container@, lo as int, hi as int).skip(2) =~= s_sub(
                container@,
                lo + 2,
                hi as int,
            ));
        }
        lo = lo + seplen;
    }
    proof {
        if hi - lo >= 2 {
            assert(s_sub(container@, lo as int, hi as int).subrange(0, 2) =~= container@.subrange(
                lo as int,
                lo + 2,
            ));
        }
        assert(strip_prefix_all(s_sub(container@, lo as int, hi as int), "::"@) == s_sub(
            container@,
            lo as int,
            hi as int,
        ));
    }
    let ghost lo2 = lo;
    let implen = "impl ".unicode_len();
    proof {
        reveal_strlit("impl ");
    }
    while chars_start_with(container, lo, hi, "impl ")
        invariant
            implen == "impl "@.len(),
            implen == 5,
            lo <= hi <= container@.len(),
            strip_prefix_all(s_sub(container@, lo2 as int, hi as int), "impl "@) == strip_prefix_all(
                s_sub(container@, lo as int, hi as int),
                "impl "@,
            ),
        decreases hi - lo,
    {
        proof {
            assert(s_sub(container@, lo as int, hi as int).subrange(0, 5) =~= container@.subrange(
                lo as int,
                lo + 5,
            ));
            assert(s_sub(container@, lo as int, hi as int).skip(5) =~= s_sub(
                container@,
                lo + 5,
                hi as int,
            ));
        }
        lo = lo + implen;
    }
    let out = container.substring_char(lo, hi).to_owned();
    proof {
        if hi - lo >= 5 {
            assert(s_sub(container@, lo as int, hi as int).subrange(0, 5) =~= container@.subrange(
                lo as int,
                lo + 5,
            ));
        }
        assert(strip_prefix_all(s_sub(container@, lo as int, hi as int), "impl "@) == s_sub(
            container@,
            lo as int,
            hi as int,
        ));
    }
    out
}

/// Shorthand for a character subrange, used where the full form would not
/// fit a clause.
pub open spec fn s_sub(s: Seq<char>, from: int, to: int) -> Seq<char> {
    s.subrange(from, to)
}

/// The `::`-separated segments of a container name, scanned left to
/// right from `start` with the cursor at `i`: empty segments are dropped,
/// kept ones are trimmed.
pub open spec fn spec_segments_from(s: Seq<char>, i: int, start: int) -> Seq<Seq<char>>
    decreases s.len() + 1 - i,
{
    if i < start || i + 2 > s.len() {
        let piece = s.subrange(start, s.len() as int);
        if piece.len() == 0 {
            Seq::empty()
        } else {
            seq![trim_chars(piece)]
        }
    } else if s[i] == ':' && s[i + 1] == ':' {
        let piece = s.subrange(start, i);
        let rest = spec_segments_from(s, i + 2, i + 2);
        if piece.len() == 0 {
            rest
        } else {
            seq![trim_chars(piece)] + rest
        }
    } else {
        spec_segments_from(s, i + 1, start)
    }
}

/// The non-empty, trimmed `::`-separated segments of a container name.
pub open spec fn spec_container_segments(s: Seq<char>) -> Seq<Seq<char>> {
    spec_segments_from(s, 0, 0)
}

/// Splits a container name on `::`, dropping empty segments and trimming
/// the rest.
pub fn container_segments(container: &str) -> (r: Vec<String>)
    ensures
        r@.map_values(|x: String| x@) == spec_container_segments(container@),
{
    let n = container.unicode_len();
    let mut out: Vec<String> = Vec::new();
    let mut start: usize = 0;
    let mut i: usize = 0;
    while i < n && i + 1 < n
        invariant
            start <= i,
            i <= n,
            n == container@.len(),
            spec_container_segments(container@) == out@.map_values(|x: String| x@)
                + spec_segments_from(container@, i as int, start as int),
        decreases n - i,
    {
        if container.get_char(i) == ':' && container.get_char(i + 1) == ':' {
            if start < i {
                let (a, b) = trim_bounds(container, start, i);
                out.push(container.substring_char(a, b).to_owned());
                proof {
                    assert(out@.map_values(|x: String| x@) =~= out@.drop_last().map_values(
                        |x: String| x@,
                    ).push(out@.last()@));
                }
            } else {
                proof {
                    assert(s_sub(container@, start as int, i as int).len() == 0);
                }
            }
            i = i + 2;
            start = i;
        } else {
            i = i + 1;
        }
    }
    if start < n {
        let (a, b) = trim_bounds(container, start, n);
        out.push(container.substring_char(a, b).to_owned());
        proof {
            assert(out@.map_values(|x: String| x@) =~= out@.drop_last().map_values(
                |x: String| x@,
            ).push(out@.last()@));
            assert(spec_segments_from(container@, n as int, start as int) == seq![
                trim_chars(s_sub(container@, start as int, n as int)),
            ]);
        }
    }
    proof {
        if start >= n {
            assert(s_sub(container@, start as int, n as int).len() == 0);
        }
        assert(out@.map_values(|x: String| x@) =~= spec_container_segments(container@));
    }
    out
}

/// The filesystem path a file URI names: the characters after the
/// `file://` scheme prefix, or the text unchanged when the prefix is
/// absent.
pub open spec fn spec_path_from_uri(s: Seq<char>) -> Seq<char> {
    if s.len() >= "file://"@.len() && s.subrange(0, "file://"@.len() as int) == "file://"@ {
        s.skip("file://"@.len() as int)
    } else {
        s
    }
}

/// Strips the `file://` scheme off a URI, leaving a filesystem path; text
/// without the scheme passes through unchanged.
pub fn path_from_uri(uri: &str) -> (r: String)
    ensures
        r@ == spec_path_from_uri(uri@),
{
    let n = uri.unicode_len();
    let plen = "file://".unicode_len();
    if chars_start_with(uri, 0, n, "file://") {
        let out = uri.substring_char(plen, n).to_owned();
        proof {
            assert(uri@.subrange(0, plen as int) =~= s_sub(uri@, 0, n as int).subrange(
                0,
                plen as int,
            ));
            assert(uri@.skip(plen as int) =~= uri@.subrange(plen as int, n as int));
        }
        out
    } else {
        let out = uri.substring_char(0, n).to_owned();
        proof {
            assert(uri@.subrange(0, n as int) =~= uri@);
        }
        out
    }
}

/// What a path component contributes to the component list: nothing when
/// it is empty or names the current or parent directory, else itself.
pub open spec fn keep_component(p: Seq<char>) -> Seq<Seq<char>> {
    if p.len() == 0 || p == seq!['.'] || p == seq!['.', '.'] {
        Seq::empty()
    } else {
        seq![p]
    }
}

/// The slash-separated components of a path from `start` on with the
/// cursor at `i`, dropping empty ones and the current- and
/// parent-directory names.
pub open spec fn comps_from(s: Seq<char>, i: int, start: int) -> Seq<Seq<char>>
    decreases s.len() + 1 - i,
{
    if i < start || i >= s.len() {
        keep_component(s.subrange(start, s.len() as int))
    } else if s[i] == '/' {
        keep_component(s.subrange(start, i)) + comps_from(s, i + 1, i + 1)
    } else {
        comps_from(s, i + 1, start)
    }
}

/// The named components of a path.
pub open spec fn spec_path_components(s: Seq<char>) -> Seq<Seq<char>> {
    comps_from(s, 0, 0)
}

/// Whether the region `[start, to)` of `s` is a component to keep.
fn component_kept(s: &str, start: usize, to: usize) -> (r: bool)
    requires
        start <= to <= s@.len(),
    ensures
        r == (keep_component(s@.subrange(start as int, to as int)) != Seq::<Seq<char>>::empty()),
        r == (keep_component(s@.subrange(start as int, to as int)) == seq![
            s@.subrange(start as int, to as int),
        ]),
{
    let ghost piece = s@.subrange(start as int, to as int);
    proof {
        assert(seq![piece].len() == 1);
    }
    if start == to {
        proof {
            assert(piece.len() == 0);
            assert(keep_component(piece).len() == 0);
        }
        return false;
    }
    if to - start == 1 && s.get_char(start) == '.' {
        proof {
            assert(piece =~= seq!['.']);
            assert(keep_component(piece).len() == 0);
        }
        return false;
    }
    if to - start == 2 && s.get_char(start) == '.' && s.get_char(start + 1) == '.' {
        proof {
            assert(piece =~= seq!['.', '.']);
            assert(keep_component(piece).len() == 0);
        }
        return false;
    }
    proof {
        assert(piece.len() > 0);
        if piece == seq!['.'] {
            assert(piece.len() == 1 && piece[0] == '.');
        }
        if piece == seq!['.', '.'] {
            assert(piece.len() == 2 && piece[0] == '.' && piece[1] == '.');
        }
        assert(keep_component(piece) == seq![piece]);
        assert(seq![piece] != Seq::<Seq<char>>::empty()) by {
            assert(seq![piece].len() == 1);
        }
    }
    true
}

/// Splits a path into its named components, dropping empty ones and the
/// current- and parent-directory names.
pub fn path_components(path: &str) -> (r: Vec<String>)
    ensures
        r@.map_values(|x: String| x@) == spec_path_components(path@),
{
    let n = path.unicode_len();
    let mut out: Vec<String> = Vec::new();
    let mut start: usize = 0;
    let mut i: usize = 0;
    while i < n
        invariant
            start <= i,
            i <= n,
            n == path@.len(),
            spec_path_components(path@) == out@.map_values(|x: String| x@) + comps_from(
                path@,
                i as int,
                start as int,
            ),
        decreases n - i,
    {
        if path.get_char(i) == '/' {
            if component_kept(path, start, i) {
                out.push(path.substring_char(start, i).to_owned());
                proof {
                    assert(out@.map_values(|x: String| x@) =~= out@.drop_last().map_values(
                        |x: String| x@,
                    ).push(out@.last()@));
                }
            }
            i = i + 1;
            start = i;
        } else {
            i = i + 1;
        }
    }
    if component_kept(path, start, n) {
        out.push(path.substring_char(start, n).to_owned());
        proof {
            assert(out@.map_values(|x: String| x@) =~= out@.drop_last().map_values(
                |x: String| x@,
            ).push(out@.last()@));
        }
    }
    proof {
        assert(out@.map_values(|x: String| x@) =~= spec_path_components(path@));
    }
    out
}

/// The index of the first component equal to `target`, at or after `i`.
pub open spec fn first_index_of(comps: Seq<Seq<char>>, target: Seq<char>, i: int) -> Option<int>
    decreases comps.len() - i,
{
    if i < 0 || i >= comps.len() {
        None
    } else if comps[i] == target {
        Some(i)
    } else {
        first_index_of(comps, target, i + 1)
    }
}

/// The crate a file URI belongs to: the path component right before the
/// first `src` component; with no usable `src`, the file's parent
/// directory name; with neither, nothing.
pub open spec fn spec_crate_name_from_uri(s: Seq<char>) -> Option<Seq<char>> {
    let comps = spec_path_components(spec_path_from_uri(s));
    let fallback: Option<Seq<char>> = if comps.len() >= 2 {
        Some(comps[comps.len() - 2])
    } else {
        None
    };
    match first_index_of(comps, seq!['s', 'r', 'c'], 0) {
        Some(k) => if k >= 1 {
            Some(comps[k - 1])
        } else {
            fallback
        },
        None => fallback,
    }
}

/// Finds the index of the first component equal to "src", if any.
fn find_src_index(comps: &Vec<String>) -> (r: Option<usize>)
    ensures
        ({
            let cv = comps@.map_values(|x: String| x@);
            match r {
                Some(k) => k < comps@.len() && first_index_of(cv, seq!['s', 'r', 'c'], 0) == Some(
                    k as int,
                ),
                None => first_index_of(cv, seq!['s', 'r', 'c'], 0) is None,
            }
        }),
{
    let ghost cv = comps@.map_values(|x: String| x@);
    let n = comps.len();
    let mut k: usize = 0;
    while k < n
        invariant
            cv == comps@.map_values(|x: String| x@),
            k <= n,
            n == comps@.len(),
            first_index_of(cv, seq!['s', 'r', 'c'], 0) == first_index_of(
                cv,
                seq!['s', 'r', 'c'],
                k as int,
            ),
        decreases n - k,
    {
        let c = &comps[k];
        let clen = c.as_str().unicode_len();
        if clen == 3 && c.as_str().get_char(0) == 's' && c.as_str().get_char(1) == 'r'
            && c.as_str().get_char(2) == 'c' {
            proof {
                assert(cv[k as int] =~= seq!['s', 'r', 'c']);
            }
            return Some(k);
        }
        proof {
            assert(cv[k as int] != seq!['s', 'r', 'c']) by {
                if cv[k as int] == seq!['s', 'r', 'c'] {
                    assert(cv[k as int].len() == 3);
                    assert(cv[k as int][0] == 's' && cv[k as int][1] == 'r' && cv[k as int][2]
                        == 'c');
                }
            }
        }
        k = k + 1;
    }
    None
}

/// Derives the crate a file URI belongs to: the component right before
/// the first `src` in the path, else the file's parent directory name.
pub fn crate_name_from_uri(uri: &str) -> (r: Option<String>)
    ensures
        match r {
            Some(c) => spec_crate_name_from_uri(uri@) == Some(c@),
            None => spec_crate_name_from_uri(uri@) is None,
        },
{
    let path = path_from_uri(uri);
    let comps = path_components(path.as_str());
    let n = comps.len();
    match find_src_index(&comps) {
        Some(k) => {
            if k >= 1 {
                proof {
                    assert(comps@.map_values(|x: String| x@)[k - 1] == comps@[k - 1]@);
                }
                return Some(comps[k - 1].clone());
            }
        },
        None => {},
    }
    if n >= 2 {
        proof {
            assert(comps@.map_values(|x: String| x@)[n - 2] == comps@[n - 2]@);
        }
        Some(comps[n - 2].clone())
    } else {
        None
    }
}

/// The index of the last `.` in a component, scanning from `i` down.
pub open spec fn last_dot_from(p: Seq<char>, i: int) -> Option<int>
    decreases i + 1,
{
    if i < 0 || i >= p.len() {
        None
    } else if p[i] == '.' {
        Some(i)
    } else {
        last_dot_from(p, i - 1)
    }
}

/// A file name without its extension: the part before the last `.`,
/// unless that dot leads the name or there is none.
pub open spec fn stem_of(p: Seq<char>) -> Seq<char> {
    match last_dot_from(p, p.len() - 1) {
        Some(d) => if d > 0 {
            p.subrange(0, d)
        } else {
            p
        },
        None => p,
    }
}

/// The module path a file URI implies: the path components strictly after
/// the first `src`, with the file name reduced to its stem and a `mod`
/// file standing for its directory.
pub open spec fn spec_module_path_from_uri(s: Seq<char>) -> Seq<Seq<char>> {
    let comps = spec_path_components(spec_path_from_uri(s));
    match first_index_of(comps, seq!['s', 'r', 'c'], 0) {
        None => Seq::empty(),
        Some(k) => {
            let tail = comps.skip(k + 1);
            if tail.len() == 0 {
                Seq::empty()
            } else {
                let stem = stem_of(tail.last());
                tail.drop_last() + (if stem == seq!['m', 'o', 'd'] {
                    Seq::<Seq<char>>::empty()
                } else {
                    seq![stem]
                })
            }
        },
    }
}

/// The stem of a file-name component: the part before the last dot,
/// unless the dot leads the name or there is none.
fn component_stem(c: &str) -> (r: String)
    ensures
        r@ == stem_of(c@),
{
    let n = c.unicode_len();
    let mut i: usize = n;
    while i > 0
        invariant
            i <= n,
            n == c@.len(),
            last_dot_from(c@, c@.len() - 1) == last_dot_from(c@, i - 1),
        decreases i,
    {
        if c.get_char(i - 1) == '.' {
            if i - 1 > 0 {
                let out = c.substring_char(0, i - 1).to_owned();
                return out;
            } else {
                let out = c.substring_char(0, n).to_owned();
                proof {
                    assert(c@.subrange(0, n as int) =~= c@);
                }
                return out;
            }
        }
        i = i - 1;
    }
    let out = c.substring_char(0, n).to_owned();
    proof {
        assert(c@.subrange(0, n as int) =~= c@);
    }
    out
}

/// Derives the module path a file URI implies: the components strictly
/// after the first `src`, the file name reduced to its stem, with a `mod`
/// file standing for its directory.
pub fn module_path_from_uri(uri: &str) -> (r: Vec<String>)
    ensures
        r@.map_values(|x: String| x@) == spec_module_path_from_uri(uri@),
{
    let path = path_from_uri(uri);
    let comps = path_components(path.as_str());
    let ghost cv = comps@.map_values(|x: String| x@);
    let n = comps.len();
    let k = match find_src_index(&comps) {
        Some(k) => k,
        None => {
            proof {
                assert(Seq::<String>::empty().map_values(|x: String| x@)
                    =~= Seq::<Seq<char>>::empty());
            }
            return Vec::new();
        },
    };
    let mut out: Vec<String> = Vec::new();
    if k + 1 >= n {
        proof {
            assert(cv.skip(k + 1).len() == 0);
            assert(out@.map_values(|x: String| x@) =~= Seq::<Seq<char>>::empty());
        }
        return out;
    }
    let mut j: usize = k + 1;
    while j < n - 1
        invariant
            cv == comps@.map_values(|x: String| x@),
            k + 1 <= j <= n - 1,
            n == comps@.len(),
            out@.map_values(|x: String| x@) =~= cv.subrange(k + 1, j as int),
        decreases n - j,
    {
        let ghost out0 = out@;
        out.push(comps[j].clone());
        proof {
            assert(cv[j as int] == comps@[j as int]@);
            assert(out@.drop_last() =~= out0);
            assert(out@.last()@ == cv[j as int]);
            assert(out0.map_values(|x: String| x@).len() == out0.len());
            assert(out0.len() == j - (k + 1));
            assert(out@.len() == out0.len() + 1);
            assert forall|m: int| 0 <= m < out@.len() implies out@.map_values(|x: String| x@)[m]
                == #[trigger] cv.subrange(k + 1, j + 1)[m] by {
                assert(out@.map_values(|x: String| x@)[m] == out@[m]@);
                if m < out@.len() - 1 {
                    assert(out@[m] == out0[m]);
                    assert(out0.map_values(|x: String| x@)[m] == out0[m]@);
                    assert(out0.map_values(|x: String| x@)[m] == cv.subrange(k + 1, j as int)[m]);
                } else {
                    assert(out@[m] == out@.last());
                }
            }
            assert(out@.map_values(|x: String| x@) =~= cv.subrange(k + 1, j + 1));
        }
        j = j + 1;
    }
    let stem = component_stem(comps[n - 1].as_str());
    let is_mod = stem.as_str().unicode_len() == 3 && stem.as_str().get_char(0) == 'm'
        && stem.as_str().get_char(1) == 'o' && stem.as_str().get_char(2) == 'd';
    proof {
        let tail = cv.skip(k + 1);
        assert(tail.len() > 0);
        assert(tail.last() == cv[n - 1]);
        assert(tail.drop_last() =~= cv.subrange(k + 1, n - 1));
        assert(cv[n - 1] == comps@[n - 1]@);
        if is_mod {
            assert(stem@ =~= seq!['m', 'o', 'd']);
        } else {
            assert(stem@ != seq!['m', 'o', 'd']) by {
                if stem@ == seq!['m', 'o', 'd'] {
                    assert(stem@.len() == 3);
                    assert(stem@[0] == 'm' && stem@[1] == 'o' && stem@[2] == 'd');
                }
            }
        }
    }
    if !is_mod {
        out.push(stem);
        proof {
            assert(out@.map_values(|x: String| x@) =~= out@.drop_last().map_values(
                |x: String| x@,
            ).push(out@.last()@));
        }
    }
    proof {
        assert(out@.map_values(|x: String| x@) =~= spec_module_path_from_uri(uri@));
    }
    out
}

/// A sequence of strings pushed keeps its views in step.
proof fn lemma_string_views_push(s0: Seq<String>, s1: Seq<String>, x: String)
    requires
        s1 == s0.push(x),
    ensures
        s1.map_values(|t: String| t@) == s0.map_values(|t: String| t@).push(x@),
{
    assert(s1.map_values(|t: String| t@) =~= s0.map_values(|t: String| t@).push(x@));
}

/// Two characters equal up to ASCII case.
pub open spec fn ascii_ci_char(a: char, b: char) -> bool {
    ||| a == b
    ||| (65 <= (a as u32) <= 90 && (a as u32) + 32 == (b as u32))
    ||| (65 <= (b as u32) <= 90 && (b as u32) + 32 == (a as u32))
}

/// Two character sequences equal up to ASCII case.
pub open spec fn ascii_ci_eq(a: Seq<char>, b: Seq<char>) -> bool {
    a.len() == b.len() && (forall|i: int| 0 <= i < a.len() ==> ascii_ci_char(a[i], #[trigger] b[i]))
}

fn ci_char(a: char, b: char) -> (r: bool)
    ensures
        r == ascii_ci_char(a, b),
{
    let au = a as u32;
    let bu = b as u32;
    a == b || (65 <= au && au <= 90 && au + 32 == bu) || (65 <= bu && bu <= 90 && bu + 32 == au)
}

/// Compares two strings character by character, up to ASCII case.
fn eq_ignore_ascii_case(a: &str, b: &str) -> (r: bool)
    ensures
        r == ascii_ci_eq(a@, b@),
{
    let n = a.unicode_len();
    if n != b.unicode_len() {
        return false;
    }
    let mut k: usize = 0;
    while k < n
        invariant
            k <= n,
            n == a@.len(),
            n == b@.len(),
            forall|m: int| 0 <= m < k ==> ascii_ci_char(a@[m], #[trigger] b@[m]),
        decreases n - k,
    {
        if !ci_char(a.get_char(k), b.get_char(k)) {
            return false;
        }
        k = k + 1;
    }
    true
}

/// The index where a string's leading ASCII whitespace ends.
fn trim_start_index(s: &str) -> (lo: usize)
    ensures
        lo <= s@.len(),
        trim_start_chars(s@) == s@.subrange(lo as int, s@.len() as int),
{
    let n = s.unicode_len();
    proof {
        assert(s@.subrange(0, n as int) =~= s@);
    }
    let mut lo: usize = 0;
    while lo < n && ws_char(s.get_char(lo))
        invariant
            lo <= n,
            n == s@.len(),
            trim_start_chars(s@) == trim_start_chars(s@.subrange(lo as int, n as int)),
        decreases n - lo,
    {
        proof {
            assert(s@.subrange(lo as int, n as int).drop_first() =~= s@.subrange(
                lo + 1,
                n as int,
            ));
        }
        lo = lo + 1;
    }
    proof {
        assert(trim_start_chars(s@.subrange(lo as int, n as int)) == s@.subrange(
            lo as int,
            n as int,
        ));
    }
    lo
}

/// Whether a name, after its leading whitespace, begins with `impl `.
pub open spec fn starts_with_impl(s: Seq<char>) -> bool {
    let t = trim_start_chars(s);
    t.len() >= "impl "@.len() && t.subrange(0, "impl "@.len() as int) == "impl "@
}

/// Checks whether a name, after its leading whitespace, begins with
/// `impl `.
fn name_starts_with_impl(name: &str) -> (r: bool)
    ensures
        r == starts_with_impl(name@),
{
    let lo = trim_start_index(name);
    let n = name.unicode_len();
    let r = chars_start_with(name, lo, n, "impl ");
    proof {
        let t = trim_start_chars(name@);
        if n - lo >= "impl "@.len() {
            assert(t.subrange(0, "impl "@.len() as int) =~= name@.subrange(
                lo as int,
                lo + "impl "@.len(),
            ));
        }
    }
    r
}

/// The symbol kind a numeric wire kind stands for; for unknown numbers, a
/// hint name beginning with `impl ` marks an impl block.
pub open spec fn spec_symbol_kind_from_lsp(kind: u32, name_hint: Option<Seq<char>>) -> SymbolKind {
    if kind == 6 {
        SymbolKind::Method
    } else if kind == 11 {
        SymbolKind::Trait
    } else if kind == 12 {
        SymbolKind::FreeFunction
    } else if kind == 23 {
        SymbolKind::Impl
    } else {
        match name_hint {
            Some(h) => if starts_with_impl(h) {
                SymbolKind::Impl
            } else {
                SymbolKind::Unknown
            },
            None => SymbolKind::Unknown,
        }
    }
}

/// Classifies a numeric wire-protocol symbol kind, with a container-name
/// hint for the numbers the protocol leaves open.
pub fn symbol_kind_from_lsp_kind(kind: u32, name_hint: Option<&str>) -> (r: SymbolKind)
    ensures
        r == spec_symbol_kind_from_lsp(
            kind,
            match name_hint {
                Some(h) => Some(h@),
                None => None::<Seq<char>>,
            },
        ),
{
    if kind == 6 {
        SymbolKind::Method
    } else if kind == 11 {
        SymbolKind::Trait
    } else if kind == 12 {
        SymbolKind::FreeFunction
    } else if kind == 23 {
        SymbolKind::Impl
    } else {
        match name_hint {
            Some(h) => {
                if name_starts_with_impl(h) {
                    SymbolKind::Impl
                } else {
                    SymbolKind::Unknown
                }
            },
            None => SymbolKind::Unknown,
        }
    }
}

/// The kind field of a symbol record as the wire carries it: a
/// non-negative integer, a string, or anything else.
#[derive(Debug, Clone, PartialEq, Eq)]
pub enum KindField {
    Number(u64),
    Text(String),
    Other,
}

/// The symbol kind a textual kind names, compared without regard to ASCII
/// case.
pub open spec fn spec_text_kind(s: Seq<char>) -> SymbolKind {
    if ascii_ci_eq(s, "method"@) {
        SymbolKind::Method
    } else if ascii_ci_eq(s, "function"@) || ascii_ci_eq(s, "fn"@) {
        SymbolKind::FreeFunction
    } else if ascii_ci_eq(s, "trait"@) {
        SymbolKind::Trait
    } else if ascii_ci_eq(s, "impl"@) {
        SymbolKind::Impl
    } else {
        SymbolKind::Unknown
    }
}

/// The kind a record's kind field names, before the container hint.
pub open spec fn spec_base_kind(kind: KindField) -> SymbolKind {
    match kind {
        KindField::Number(n) => if n == 6 {
            SymbolKind::Method
        } else if n == 11 {
            SymbolKind::Trait
        } else if n == 12 {
            SymbolKind::FreeFunction
        } else if n == 23 {
            SymbolKind::Impl
        } else {
            SymbolKind::Unknown
        },
        KindField::Text(s) => spec_text_kind(s@),
        KindField::Other => SymbolKind::Unknown,
    }
}

/// The kind a record derives: the kind its field names, upgraded to an
/// impl block when the field was inconclusive and the container name
/// begins with `impl `.
pub open spec fn spec_parse_symbol_kind(kind: KindField, container: Option<Seq<char>>) -> SymbolKind {
    let base = spec_base_kind(kind);
    if (base == SymbolKind::Unknown || base == SymbolKind::FreeFunction) && (match container {
        Some(c) => starts_with_impl(c),
        None => false,
    }) {
        SymbolKind::Impl
    } else {
        base
    }
}

/// Classifies a record's kind field — numeric or textual — with the
/// container name as a hint for impl blocks.
pub fn parse_symbol_kind(kind_value: &KindField, container_name: Option<&str>) -> (r: SymbolKind)
    ensures
        r == spec_parse_symbol_kind(
            *kind_value,
            match container_name {
                Some(c) => Some(c@),
                None => None::<Seq<char>>,
            },
        ),
{
    let base = match kind_value {
        KindField::Number(n) => {
            if *n == 6 {
                SymbolKind::Method
            } else if *n == 11 {
                SymbolKind::Trait
            } else if *n == 12 {
                SymbolKind::FreeFunction
            } else if *n == 23 {
                SymbolKind::Impl
            } else {
                SymbolKind::Unknown
            }
        },
        KindField::Text(s) => {
            if eq_ignore_ascii_case(s.as_str(), "method") {
                SymbolKind::Method
            } else if eq_ignore_ascii_case(s.as_str(), "function") || eq_ignore_ascii_case(
                s.as_str(),
                "fn",
            ) {
                SymbolKind::FreeFunction
            } else if eq_ignore_ascii_case(s.as_str(), "trait") {
                SymbolKind::Trait
            } else if eq_ignore_ascii_case(s.as_str(), "impl") {
                SymbolKind::Impl
            } else {
                SymbolKind::Unknown
            }
        },
        KindField::Other => SymbolKind::Unknown,
    };
    let inconclusive = match base {
        SymbolKind::Unknown => true,
        SymbolKind::FreeFunction => true,
        _ => false,
    };
    if inconclusive {
        match container_name {
            Some(c) => {
                if name_starts_with_impl(c) {
                    return SymbolKind::Impl;
                }
            },
            None => {},
        }
    }
    base
}

/// The view of an identity: its crate name, module path, item name and
/// kind as mathematical values.
pub open spec fn identity_view(id: SymbolIdentity) -> (Seq<char>, Seq<Seq<char>>, Seq<char>, SymbolKind) {
    (
        id.crate_name@,
        id.module_segments@.map_values(|x: String| x@),
        id.item_name@,
        id.kind,
    )
}

/// The view of an optional string.
pub open spec fn opt_view(s: Option<String>) -> Option<Seq<char>> {
    match s {
        Some(x) => Some(x@),
        None => None,
    }
}

/// The crate name and module path a record derives: the container name,
/// normalized and split, names the crate and any deeper modules; what it
/// does not settle falls back to the location URI; with nothing to go on,
/// the crate is `unknown`.
pub open spec fn spec_derive_paths(container: Option<Seq<char>>, uri: Option<Seq<char>>) -> (
    Seq<char>,
    Seq<Seq<char>>,
) {
    let cont_segs = match container {
        Some(c) => spec_container_segments(spec_normalize_container(c)),
        None => Seq::<Seq<char>>::empty(),
    };
    let crate_opt = if cont_segs.len() > 0 {
        Some(cont_segs[0])
    } else {
        match uri {
            Some(u) => spec_crate_name_from_uri(u),
            None => None,
        }
    };
    let from_container = if cont_segs.len() > 1 {
        cont_segs.drop_first()
    } else {
        Seq::<Seq<char>>::empty()
    };
    let modules = if from_container.len() == 0 {
        match uri {
            Some(u) => spec_module_path_from_uri(u),
            None => Seq::<Seq<char>>::empty(),
        }
    } else {
        from_container
    };
    (
        match crate_opt {
            Some(c) => c,
            None => "unknown"@,
        },
        modules,
    )
}

/// Derives a record's crate name and module path from its container name
/// and location URI.
pub fn derive_paths(container_name: Option<&str>, location_uri: Option<&str>) -> (r: (
    String,
    Vec<String>,
))
    ensures
        ({
            let paths = spec_derive_paths(
                match container_name {
                    Some(c) => Some(c@),
                    None => None::<Seq<char>>,
                },
                match location_uri {
                    Some(u) => Some(u@),
                    None => None::<Seq<char>>,
                },
            );
            r.0@ == paths.0 && r.1@.map_values(|x: String| x@) == paths.1
        }),
{
    let mut segs: Vec<String> = match container_name {
        Some(c) => {
            let normalized = normalize_container_name(c);
            container_segments(normalized.as_str())
        },
        None => Vec::new(),
    };
    proof {
        assert(Seq::<String>::empty().map_values(|x: String| x@) =~= Seq::<Seq<char>>::empty());
    }
    if segs.len() > 0 {
        let ghost segs0 = segs@;
        let crate_name = segs.remove(0);
        proof {
            assert(segs@ =~= segs0.drop_first());
            assert(segs@.map_values(|x: String| x@) =~= segs0.map_values(
                |x: String| x@,
            ).drop_first());
            assert(crate_name@ == segs0.map_values(|x: String| x@)[0]);
        }
        if segs.len() > 0 {
            (crate_name, segs)
        } else {
            let modules = match location_uri {
                Some(u) => module_path_from_uri(u),
                None => Vec::new(),
            };
            (crate_name, modules)
        }
    } else {
        let crate_name = match location_uri {
            Some(u) => {
                match crate_name_from_uri(u) {
                    Some(c) => c,
                    None => String::from_str("unknown"),
                }
            },
            None => String::from_str("unknown"),
        };
        let modules = match location_uri {
            Some(u) => module_path_from_uri(u),
            None => Vec::new(),
        };
        (crate_name, modules)
    }
}

/// One workspace-symbol record, reduced to the fields identity derivation
/// reads: the item name, the kind field, the location's URI, and the
/// container name.
#[derive(Debug)]
pub struct WorkspaceSymbolRecord {
    pub name: Option<String>,
    pub kind: KindField,
    pub location_uri: Option<String>,
    pub container_name: Option<String>,
}

/// The identity a record derives, by views: nothing when the record names
/// no item.
pub open spec fn spec_record_identity(rec: WorkspaceSymbolRecord) -> Option<
    (Seq<char>, Seq<Seq<char>>, Seq<char>, SymbolKind),
> {
    match rec.name {
        None => None,
        Some(n) => {
            let paths = spec_derive_paths(opt_view(rec.container_name), opt_view(rec.location_uri));
            Some(
                (
                    paths.0,
                    paths.1,
                    n@,
                    spec_parse_symbol_kind(rec.kind, opt_view(rec.container_name)),
                ),
            )
        },
    }
}

/// Derives an item's identity from one workspace-symbol record; a record
/// without a name derives nothing.
pub fn symbol_information_to_identity(symbol_info: &WorkspaceSymbolRecord) -> (r: Option<
    SymbolIdentity,
>)
    ensures
        match r {
            Some(id) => spec_record_identity(*symbol_info) == Some(identity_view(id)),
            None => spec_record_identity(*symbol_info) is None,
        },
{
    let item_name = match &symbol_info.name {
        Some(n) => n.clone(),
        None => {
            return None;
        },
    };
    let container: Option<&str> = match &symbol_info.container_name {
        Some(c) => Some(c.as_str()),
        None => None,
    };
    let uri: Option<&str> = match &symbol_info.location_uri {
        Some(u) => Some(u.as_str()),
        None => None,
    };
    let kind = parse_symbol_kind(&symbol_info.kind, container);
    let (crate_name, module_segments) = derive_paths(container, uri);
    Some(SymbolIdentity { crate_name, module_segments, item_name, kind })
}

/// The identities a list of records derives, in order, nameless records
/// skipped.
pub open spec fn spec_identities(recs: Seq<WorkspaceSymbolRecord>) -> Seq<
    (Seq<char>, Seq<Seq<char>>, Seq<char>, SymbolKind),
>
    decreases recs.len(),
{
    if recs.len() == 0 {
        Seq::empty()
    } else {
        let rest = spec_identities(recs.drop_last());
        match spec_record_identity(recs.last()) {
            Some(v) => rest.push(v),
            None => rest,
        }
    }
}

/// Derives the identities of every named record of a workspace-symbol
/// response, in response order.
pub fn identities_from_workspace_symbols(records: &Vec<WorkspaceSymbolRecord>) -> (r: Vec<
    SymbolIdentity,
>)
    ensures
        r@.map_values(|id: SymbolIdentity| identity_view(id)) == spec_identities(records@),
{
    let n = records.len();
    let mut out: Vec<SymbolIdentity> = Vec::new();
    let mut i: usize = 0;
    proof {
        assert(records@.subrange(0, 0) =~= Seq::<WorkspaceSymbolRecord>::empty());
        assert(out@.map_values(|id: SymbolIdentity| identity_view(id)) =~= Seq::<
            (Seq<char>, Seq<Seq<char>>, Seq<char>, SymbolKind),
        >::empty());
    }
    while i < n
        invariant
            i <= n,
            n == records@.len(),
            out@.map_values(|id: SymbolIdentity| identity_view(id)) == spec_identities(
                records@.subrange(0, i as int),
            ),
        decreases n - i,
    {
        let ghost pre = records@.subrange(0, i + 1);
        proof {
            assert(pre.drop_last() =~= records@.subrange(0, i as int));
            assert(pre.last() == records@[i as int]);
        }
        match symbol_information_to_identity(&records[i]) {
            Some(id) => {
                let ghost out0 = out@;
                out.push(id);
                proof {
                    assert(out@.map_values(|id: SymbolIdentity| identity_view(id)) =~= out0
                        .map_values(|id: SymbolIdentity| identity_view(id)).push(
                        identity_view(out@.last()),
                    ));
                }
            },
            None => {},
        }
        i = i + 1;
    }
    proof {
        assert(records@.subrange(0, n as int) =~= records@);
    }
    out
}

/// Derives an item's identity from a resolved definition: the last path
/// segment names the item, the segment above it hints at the kind, the
/// URI gives the crate and base module path, and any enclosing path
/// segments extend the module path.
pub fn identity_from_definition(uri: &str, symbol_path: &[crate::protocol::SymbolPathSegment]) -> (r:
    Option<SymbolIdentity>)
    ensures
        match r {
            None => symbol_path@.len() == 0,
            Some(id) => {
                let path = symbol_path@;
                &&& path.len() > 0
                &&& id.item_name@ == path.last().name@
                &&& id.kind == spec_symbol_kind_from_lsp(
                    path.last().kind,
                    if path.len() >= 2 {
                        Some(path[path.len() - 2].name@)
                    } else {
                        None::<Seq<char>>
                    },
                )
                &&& id.crate_name@ == (match spec_crate_name_from_uri(uri@) {
                    Some(c) => c,
                    None => "unknown"@,
                })
                &&& id.module_segments@.map_values(|x: String| x@) == spec_module_path_from_uri(
                    uri@,
                ) + (if path.len() > 1 {
                    path.subrange(0, path.len() - 1).map_values(
                        |seg: crate::protocol::SymbolPathSegment| seg.name@,
                    )
                } else {
                    Seq::<Seq<char>>::empty()
                })
            },
        },
{
    let plen = symbol_path.len();
    if plen == 0 {
        return None;
    }
    let mut module_segments = module_path_from_uri(uri);
    let crate_name = match crate_name_from_uri(uri) {
        Some(c) => c,
        None => String::from_str("unknown"),
    };
    let hint: Option<&str> = if plen >= 2 {
        Some(symbol_path[plen - 2].name.as_str())
    } else {
        None
    };
    let kind = symbol_kind_from_lsp_kind(symbol_path[plen - 1].kind, hint);
    let ghost base = module_segments@.map_values(|x: String| x@);
    let ghost names = symbol_path@.subrange(0, plen - 1).map_values(
        |seg: crate::protocol::SymbolPathSegment| seg.name@,
    );
    if plen > 1 {
        let mut i: usize = 0;
        while i < plen - 1
            invariant
                1 <= plen,
                i <= plen - 1,
                plen == symbol_path@.len(),
                names == symbol_path@.subrange(0, plen - 1).map_values(
                    |seg: crate::protocol::SymbolPathSegment| seg.name@,
                ),
                module_segments@.map_values(|x: String| x@) == base + names.subrange(0, i as int),
            decreases plen - 1 - i,
        {
            let ghost m0 = module_segments@;
            module_segments.push(symbol_path[i].name.clone());
            proof {
                lemma_string_views_push(m0, module_segments@, module_segments@.last());
                assert(names[i as int] == symbol_path@[i as int].name@);
                assert(module_segments@.last()@ == names[i as int]);
                assert((base + names.subrange(0, i as int)).push(names[i as int]) =~= base
                    + names.subrange(0, i + 1));
            }
            i = i + 1;
        }
        proof {
            assert(names.subrange(0, plen - 1) =~= names);
        }
    } else {
        proof {
            assert(names.subrange(0, 0) =~= Seq::<Seq<char>>::empty());
            assert(module_segments@.map_values(|x: String| x@) =~= base
                + Seq::<Seq<char>>::empty());
        }
    }
    Some(
        SymbolIdentity {
            crate_name,
            module_segments,
            item_name: symbol_path[plen - 1].name.clone(),
            kind,
        },
    )
}

} // verus!
