//! Message framing for the wire protocol: a frame is a `Content-Length`
//! header block terminated by an empty line, followed by exactly that many
//! bytes of JSON payload. This module builds outgoing frames and request
//! bodies byte-exactly, and classifies incoming header lines.

use vstd::prelude::*;
use vstd::string::StringSliceAdditionalSpecFns;

verus! {

/// The ASCII decimal digits of a non-negative number, most significant
/// first.
pub open spec fn decimal_digits(n: int) -> Seq<u8>
    recommends
        n >= 0,
    decreases n,
{
    if n < 10 {
        seq![(48 + n) as u8]
    } else {
        decimal_digits(n / 10).push((48 + n % 10) as u8)
    }
}

/// Value of a run of ASCII decimal digits, most significant first.
pub open spec fn digits_value(s: Seq<u8>) -> int
    decreases s.len(),
{
    if s.len() == 0 {
        0
    } else {
        digits_value(s.drop_last()) * 10 + (s.last() - 48)
    }
}

pub open spec fn is_digit_byte(b: u8) -> bool {
    48 <= b <= 57
}

pub open spec fn all_digits(s: Seq<u8>) -> bool {
    forall|i: int| 0 <= i < s.len() ==> is_digit_byte(#[trigger] s[i])
}

/// ASCII whitespace: space, tab, line feed, carriage return.
pub open spec fn is_ascii_ws(b: u8) -> bool {
    b == 32 || b == 9 || b == 10 || b == 13
}

/// The sequence with leading and trailing ASCII whitespace removed.
pub open spec fn trim_spec(s: Seq<u8>) -> Seq<u8>
    decreases s.len(),
{
    if s.len() > 0 && is_ascii_ws(s[0]) {
        trim_spec(s.drop_first())
    } else if s.len() > 0 && is_ascii_ws(s.last()) {
        trim_spec(s.drop_last())
    } else {
        s
    }
}

/// One parsed header line: the blank separator, a well-formed
/// `Content-Length` header carrying its value, a `Content-Length` header
/// whose value does not parse, or any other header.
#[derive(Debug, Clone, Copy, PartialEq, Eq, Structural)]
pub enum HeaderLine {
    Blank,
    ContentLength(u64),
    Malformed,
    Other,
}

/// Classification of a header line: the exact bytes `\r\n` form the blank
/// separator; a line starting with `Content-Length:` carries the decimal
/// value of its remainder after trimming ASCII whitespace (an optional
/// leading plus sign accepted), or is malformed when the remainder is
/// empty, has a non-digit, or overflows; every other line is ignored.
pub open spec fn spec_classify_header_line(line: Seq<u8>) -> HeaderLine {
    let p = "Content-Length:".spec_bytes();
    if line == "\r\n".spec_bytes() {
        HeaderLine::Blank
    } else if line.len() >= p.len() && line.subrange(0, p.len() as int) == p {
        let t = trim_spec(line.subrange(p.len() as int, line.len() as int));
        let digits = if t.len() > 0 && t[0] == 43 {
            t.drop_first()
        } else {
            t
        };
        if digits.len() == 0 || !all_digits(digits) || digits_value(digits) > u64::MAX {
            HeaderLine::Malformed
        } else {
            HeaderLine::ContentLength(digits_value(digits) as u64)
        }
    } else {
        HeaderLine::Other
    }
}

fn slice_eq(a: &[u8], b: &[u8]) -> (r: bool)
    ensures
        r == (a@ == b@),
{
    let n = a.len();
    if n != b.len() {
        proof {
            assert(a@ != b@);
        }
        return false;
    }
    let mut k: usize = 0;
    while k < n
        invariant
            k <= n,
            n == a@.len(),
            n == b@.len(),
            forall|m: int| 0 <= m < k ==> a@[m] == b@[m],
        decreases n - k,
    {
        if a[k] != b[k] {
            return false;
        }
        k = k + 1;
    }
    proof {
        assert(a@ =~= b@);
    }
    true
}

fn starts_with(a: &[u8], p: &[u8]) -> (r: bool)
    ensures
        r == (a@.len() >= p@.len() && a@.subrange(0, p@.len() as int) == p@),
{
    let n = p.len();
    if n > a.len() {
        return false;
    }
    let mut k: usize = 0;
    while k < n
        invariant
            k <= n,
            n == p@.len(),
            n <= a@.len(),
            forall|m: int| 0 <= m < k ==> a@[m] == p@[m],
        decreases n - k,
    {
        if a[k] != p[k] {
            proof {
                assert(a@.subrange(0, n as int)[k as int] == a@[k as int]);
            }
            return false;
        }
        k = k + 1;
    }
    proof {
        assert(a@.subrange(0, n as int) =~= p@);
    }
    true
}

fn is_ws(b: u8) -> (r: bool)
    ensures
        r == is_ascii_ws(b),
{
    b == 32 || b == 9 || b == 10 || b == 13
}

/// Every digit prepended keeps the value of a digit run non-negative.
proof fn lemma_digits_value_nonneg(s: Seq<u8>)
    requires
        all_digits(s),
    ensures
        digits_value(s) >= 0,
    decreases s.len(),
{
    if s.len() > 0 {
        assert(all_digits(s.drop_last())) by {
            assert(forall|i: int|
                0 <= i < s.len() - 1 ==> #[trigger] s.drop_last()[i] == s[i]);
        }
        lemma_digits_value_nonneg(s.drop_last());
    }
}

/// A prefix of a digit run never has a larger value than the whole run.
proof fn lemma_digits_value_prefix_le(s: Seq<u8>, k: int)
    requires
        all_digits(s),
        0 <= k <= s.len(),
    ensures
        digits_value(s.subrange(0, k)) <= digits_value(s),
    decreases s.len(),
{
    if k < s.len() {
        assert(all_digits(s.drop_last())) by {
            assert(forall|i: int|
                0 <= i < s.len() - 1 ==> #[trigger] s.drop_last()[i] == s[i]);
        }
        assert(s.subrange(0, k) =~= s.drop_last().subrange(0, k));
        lemma_digits_value_prefix_le(s.drop_last(), k);
        lemma_digits_value_nonneg(s.drop_last());
        assert(digits_value(s) == digits_value(s.drop_last()) * 10 + (s.last() - 48));
        assert(digits_value(s.drop_last()) * 10 >= digits_value(s.drop_last())) by (nonlinear_arith)
            requires
                digits_value(s.drop_last()) >= 0,
        ;
    } else {
        assert(s.subrange(0, k) =~= s);
    }
}

/// The header block of a frame whose body is `n` bytes long: the
/// `Content-Length` header line and the blank separator line.
pub open spec fn content_length_header(n: int) -> Seq<u8> {
    "Content-Length: ".spec_bytes() + decimal_digits(n) + "\r\n\r\n".spec_bytes()
}

/// The body of a protocol request: a JSON object with the protocol
/// version, the request id, the method name, and the caller-serialized
/// parameters, keys in the sorted order the serializer emits.
pub open spec fn request_body(id: int, method: Seq<u8>, params: Seq<u8>) -> Seq<u8> {
    "{\"id\":".spec_bytes() + decimal_digits(id)
        + ",\"jsonrpc\":\"2.0\",\"method\":\"".spec_bytes() + method + "\",\"params\":".spec_bytes()
        + params + "}".spec_bytes()
}

/// The body of a protocol notification: as a request, but with no id.
pub open spec fn notification_body(method: Seq<u8>, params: Seq<u8>) -> Seq<u8> {
    "{\"jsonrpc\":\"2.0\",\"method\":\"".spec_bytes() + method + "\",\"params\":".spec_bytes()
        + params + "}".spec_bytes()
}

/// Bytes that can stand unescaped inside a JSON string: no quote, no
/// backslash, no control byte. Method names of the protocol are such
/// tokens.
pub open spec fn json_plain_token(s: Seq<u8>) -> bool {
    forall|i: int| 0 <= i < s.len() ==> 0x20 <= #[trigger] s[i] && s[i] != 34 && s[i] != 92
}

/// Appends the decimal digits of `n` to `out`.
fn push_decimal(out: &mut Vec<u8>, n: u64)
    ensures
        final(out)@ == old(out)@ + decimal_digits(n as int),
    decreases n,
{
    if n < 10 {
        out.push(48 + n as u8);
        proof {
            assert(out@ =~= old(out)@ + decimal_digits(n as int));
        }
    } else {
        push_decimal(out, n / 10);
        out.push(48 + (n % 10) as u8);
        proof {
            assert(out@ =~= old(out)@ + decimal_digits(n as int));
        }
    }
}

/// Builds one framed message from its already-serialized body: the
/// `Content-Length` header naming the body's byte count, the blank
/// separator, then the body itself.
pub fn encode_frame(body: &[u8]) -> (frame: Vec<u8>)
    ensures
        frame@ == content_length_header(body@.len() as int) + body@,
{
    let mut out: Vec<u8> = Vec::new();
    out.extend_from_slice("Content-Length: ".as_bytes());
    push_decimal(&mut out, body.len() as u64);
    out.extend_from_slice("\r\n\r\n".as_bytes());
    out.extend_from_slice(body);
    proof {
        assert(out@ =~= content_length_header(body@.len() as int) + body@);
    }
    out
}

/// Builds the body of a request carrying the given id, method and
/// caller-serialized parameter object.
pub fn build_request_body(id: u64, method: &str, params_json: &[u8]) -> (body: Vec<u8>)
    requires
        json_plain_token(method.spec_bytes()),
    ensures
        body@ == request_body(id as int, method.spec_bytes(), params_json@),
{
    let mut out: Vec<u8> = Vec::new();
    out.extend_from_slice("{\"id\":".as_bytes());
    push_decimal(&mut out, id);
    out.extend_from_slice(",\"jsonrpc\":\"2.0\",\"method\":\"".as_bytes());
    out.extend_from_slice(method.as_bytes());
    out.extend_from_slice("\",\"params\":".as_bytes());
    out.extend_from_slice(params_json);
    out.extend_from_slice("}".as_bytes());
    proof {
        assert(out@ =~= request_body(id as int, method.spec_bytes(), params_json@));
    }
    out
}

/// Builds the body of a notification carrying the given method and
/// caller-serialized parameter object; a notification has no id and gets
/// no reply.
pub fn build_notification_body(method: &str, params_json: &[u8]) -> (body: Vec<u8>)
    requires
        json_plain_token(method.spec_bytes()),
    ensures
        body@ == notification_body(method.spec_bytes(), params_json@),
{
    let mut out: Vec<u8> = Vec::new();
    out.extend_from_slice("{\"jsonrpc\":\"2.0\",\"method\":\"".as_bytes());
    out.extend_from_slice(method.as_bytes());
    out.extend_from_slice("\",\"params\":".as_bytes());
    out.extend_from_slice(params_json);
    out.extend_from_slice("}".as_bytes());
    proof {
        assert(out@ =~= notification_body(method.spec_bytes(), params_json@));
    }
    out
}

/// The decimal digits of a number are digits.
pub proof fn lemma_decimal_digits_are_digits(n: int)
    requires
        n >= 0,
    ensures
        all_digits(decimal_digits(n)),
        decimal_digits(n).len() >= 1,
    decreases n,
{
    if n < 10 {
        assert(decimal_digits(n) =~= seq![(48 + n) as u8]);
    } else {
        lemma_decimal_digits_are_digits(n / 10);
        let d = decimal_digits(n);
        assert(d == decimal_digits(n / 10).push((48 + n % 10) as u8));
        assert(forall|i: int| 0 <= i < d.len() - 1 ==> #[trigger] d[i] == decimal_digits(n / 10)[i]);
        assert(is_digit_byte(d[d.len() - 1]));
    }
}

/// Reading the decimal digits of a number back gives the number: the
/// framed length survives the round trip through the header.
pub proof fn lemma_decimal_digits_value(n: int)
    requires
        n >= 0,
    ensures
        digits_value(decimal_digits(n)) == n,
    decreases n,
{
    assert(digits_value(Seq::<u8>::empty()) == 0);
    if n < 10 {
        let s = decimal_digits(n);
        assert(s =~= seq![(48 + n) as u8]);
        assert(s.last() == (48 + n) as u8);
        assert(s.drop_last() =~= Seq::<u8>::empty());
        assert(digits_value(s) == digits_value(s.drop_last()) * 10 + (s.last() - 48));
    } else {
        lemma_decimal_digits_value(n / 10);
        let s = decimal_digits(n);
        assert(s.drop_last() =~= decimal_digits(n / 10));
        assert(s.last() == (48 + n % 10) as u8);
        assert(digits_value(s) == digits_value(s.drop_last()) * 10 + (s.last() - 48));
    }
}

/// Classifies one header line of an incoming frame.
pub fn classify_header_line(line: &str) -> (r: HeaderLine)
    ensures
        r == spec_classify_header_line(line.spec_bytes()),
{
    let b = line.as_bytes();
    let ghost lv = line.spec_bytes();
    if slice_eq(b, "\r\n".as_bytes()) {
        return HeaderLine::Blank;
    }
    let prefix = "Content-Length:".as_bytes();
    if !starts_with(b, prefix) {
        return HeaderLine::Other;
    }
    let plen = prefix.len();
    let n = b.len();
    let ghost rest = lv.subrange(plen as int, n as int);

    // Trim ASCII whitespace off the remainder: [lo, hi) is the kept region.
    let mut lo = plen;
    let mut hi = n;
    while lo < hi && is_ws(b[lo])
        invariant
            lv == line.spec_bytes(),
            b@ == lv,
            n == lv.len(),
            plen <= lo <= hi <= n,
            trim_spec(rest) == trim_spec(lv.subrange(lo as int, hi as int)),
        decreases hi - lo,
    {
        proof {
            assert(lv.subrange(lo as int, hi as int).drop_first() =~= lv.subrange(
                lo + 1,
                hi as int,
            ));
        }
        lo = lo + 1;
    }
    while lo < hi && is_ws(b[hi - 1])
        invariant
            lv == line.spec_bytes(),
            b@ == lv,
            n == lv.len(),
            plen <= lo <= hi <= n,
            lo == hi || !is_ascii_ws(lv[lo as int]),
            trim_spec(rest) == trim_spec(lv.subrange(lo as int, hi as int)),
        decreases hi - lo,
    {
        proof {
            assert(lv.subrange(lo as int, hi as int).drop_last() =~= lv.subrange(
                lo as int,
                hi - 1,
            ));
        }
        hi = hi - 1;
    }
    proof {
        assert(trim_spec(lv.subrange(lo as int, hi as int)) == lv.subrange(lo as int, hi as int));
    }
    let ghost t = trim_spec(rest);

    // An optional leading plus sign.
    let mut dstart = lo;
    if lo < hi && b[lo] == 43 {
        dstart = lo + 1;
        proof {
            assert(t.drop_first() =~= lv.subrange(dstart as int, hi as int));
        }
    }
    let ghost digits = lv.subrange(dstart as int, hi as int);

    if dstart == hi {
        proof {
            assert(digits.len() == 0);
        }
        return HeaderLine::Malformed;
    }
    proof {
        assert(spec_classify_header_line(lv) == (if !all_digits(digits) || digits_value(digits)
            > u64::MAX {
            HeaderLine::Malformed
        } else {
            HeaderLine::ContentLength(digits_value(digits) as u64)
        }));
    }

    // Every byte of the digit region must be a decimal digit.
    let mut k = dstart;
    while k < hi
        invariant
            lv == line.spec_bytes(),
            b@ == lv,
            n == lv.len(),
            dstart <= k <= hi <= n,
            digits == lv.subrange(dstart as int, hi as int),
            spec_classify_header_line(lv) == (if !all_digits(digits) || digits_value(digits)
                > u64::MAX {
                HeaderLine::Malformed
            } else {
                HeaderLine::ContentLength(digits_value(digits) as u64)
            }),
            forall|m: int| dstart <= m < k ==> is_digit_byte(#[trigger] lv[m]),
        decreases hi - k,
    {
        let c = b[k];
        if c < 48 || c > 57 {
            proof {
                assert(digits[k - dstart] == lv[k as int]);
                assert(!all_digits(digits));
            }
            return HeaderLine::Malformed;
        }
        k = k + 1;
    }
    proof {
        assert(all_digits(digits)) by {
            assert(forall|m: int|
                0 <= m < digits.len() ==> #[trigger] digits[m] == lv[dstart + m]);
        }
    }

    // Accumulate the value, watching for overflow past u64.
    let mut acc: u64 = 0;
    let mut j = dstart;
    proof {
        assert(lv.subrange(dstart as int, dstart as int) =~= Seq::<u8>::empty());
    }
    while j < hi
        invariant
            lv == line.spec_bytes(),
            b@ == lv,
            n == lv.len(),
            dstart <= j <= hi <= n,
            digits == lv.subrange(dstart as int, hi as int),
            all_digits(digits),
            spec_classify_header_line(lv) == (if !all_digits(digits) || digits_value(digits)
                > u64::MAX {
                HeaderLine::Malformed
            } else {
                HeaderLine::ContentLength(digits_value(digits) as u64)
            }),
            acc == digits_value(lv.subrange(dstart as int, j as int)),
        decreases hi - j,
    {
        proof {
            assert(is_digit_byte(lv[j as int])) by {
                assert(digits[j - dstart] == lv[j as int]);
            }
        }
        let d = b[j] - 48;
        if acc > (u64::MAX - d as u64) / 10 {
            proof {
                let pre = lv.subrange(dstart as int, j + 1);
                assert(pre.drop_last() =~= lv.subrange(dstart as int, j as int));
                assert(pre.last() == lv[j as int]);
                assert(digits_value(pre) == acc * 10 + d) by {
                    assert(digits_value(pre) == digits_value(pre.drop_last()) * 10 + (pre.last()
                        - 48));
                }
                assert(acc * 10 + d > u64::MAX) by (nonlinear_arith)
                    requires
                        acc > (u64::MAX - d as u64) / 10,
                        0 <= d <= 9,
                ;
                assert(all_digits(pre)) by {
                    assert(forall|m: int|
                        0 <= m < pre.len() ==> #[trigger] pre[m] == digits[m]);
                }
                assert(pre =~= digits.subrange(0, j + 1 - dstart));
                lemma_digits_value_prefix_le(digits, j + 1 - dstart);
                assert(digits_value(digits) > u64::MAX);
            }
            return HeaderLine::Malformed;
        }
        proof {
            let pre = lv.subrange(dstart as int, j + 1);
            assert(pre.drop_last() =~= lv.subrange(dstart as int, j as int));
            assert(pre.last() == lv[j as int]);
            assert(acc * 10 + d <= u64::MAX) by (nonlinear_arith)
                requires
                    acc <= (u64::MAX - d as u64) / 10,
                    0 <= d <= 9,
            ;
        }
        acc = acc * 10 + d as u64;
        j = j + 1;
    }
    proof {
        assert(lv.subrange(dstart as int, hi as int) =~= digits);
        assert(digits_value(digits) <= u64::MAX);
    }
    HeaderLine::ContentLength(acc)
}

/// Framing loses nothing: the header block of an encoded frame is exactly
/// one `Content-Length` line and the blank separator, the length line
/// classifies back to the body length the frame was built with, and the
/// separator classifies blank.
pub proof fn lemma_frame_header_round_trip(n: u64)
    ensures
        content_length_header(n as int) == "Content-Length: ".spec_bytes() + decimal_digits(
            n as int,
        ) + "\r\n".spec_bytes() + "\r\n".spec_bytes(),
        spec_classify_header_line(
            "Content-Length: ".spec_bytes() + decimal_digits(n as int) + "\r\n".spec_bytes(),
        ) == HeaderLine::ContentLength(n),
        spec_classify_header_line("\r\n".spec_bytes()) == HeaderLine::Blank,
{
    broadcast use vstd::string::is_ascii_spec_bytes;

    reveal_strlit("Content-Length: ");
    reveal_strlit("Content-Length:");
    reveal_strlit("\r\n");
    reveal_strlit("\r\n\r\n");
    assert(vstd::string::is_ascii("Content-Length: "));
    assert(vstd::string::is_ascii("Content-Length:"));
    assert(vstd::string::is_ascii("\r\n"));
    assert(vstd::string::is_ascii("\r\n\r\n"));

    let p16 = "Content-Length: ".spec_bytes();
    let p15 = "Content-Length:".spec_bytes();
    let crlf = "\r\n".spec_bytes();
    let d = decimal_digits(n as int);
    lemma_decimal_digits_are_digits(n as int);
    lemma_decimal_digits_value(n as int);
    let line = p16 + d + crlf;

    assert(p16.len() == 16);
    assert(p15.len() == 15);
    assert(crlf.len() == 2);
    assert(crlf[0] == 13u8 && crlf[1] == 10u8);
    assert(p16[15] == 32u8);
    assert("\r\n\r\n".spec_bytes() =~= crlf + crlf);
    assert(content_length_header(n as int) =~= p16 + d + crlf + crlf);

    assert(line.len() == 18 + d.len());
    assert(line != crlf);
    assert(line.subrange(0, 15) =~= p15);

    let rest = line.subrange(15, line.len() as int);
    assert(rest =~= seq![32u8] + d + crlf);
    let r1 = d + crlf;
    assert(rest[0] == 32u8);
    assert(rest.drop_first() =~= r1);
    assert(is_digit_byte(d[0]));
    assert(is_digit_byte(d.last()));
    let r2 = d + seq![13u8];
    assert(r1[0] == d[0]);
    assert(r1.last() == 10u8);
    assert(r1.drop_last() =~= r2);
    assert(r2[0] == d[0]);
    assert(r2.last() == 13u8);
    assert(r2.drop_last() =~= d);
    assert(trim_spec(rest) == trim_spec(r1));
    assert(trim_spec(r1) == trim_spec(r2));
    assert(trim_spec(r2) == trim_spec(d));
    assert(trim_spec(d) == d);

    assert(d[0] != 43u8);
    assert(digits_value(d) == n);
    assert(spec_classify_header_line(line) == HeaderLine::ContentLength(n));
}

} // verus!
