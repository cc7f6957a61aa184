//! Wire framing: `Content-Length` headers around JSON bodies.
//!
//! A frame is a header block of ASCII lines separated by CRLF and closed by
//! an empty line, holding at least `Content-Length: <n>`, followed by exactly
//! `n` body bytes. This module encodes frames, finds the header terminator in
//! an incoming byte stream, and extracts the declared body length from a
//! header block.
use vstd::prelude::*;

use crate::ProtocolError;
use crate::json::spec_dec_bytes;
use crate::json::spec_digit_byte;
use crate::json::write_u64_dec;
use crate::parse::is_digit;
use crate::parse::spec_dec_value;
use crate::parse::spec_pow10;
use crate::parse::lemma_pow10_mono;

verus! {

/// The bytes of `Content-Length:`.
pub open spec fn spec_cl_prefix() -> Seq<u8> {
    Seq::empty().push(67u8).push(111u8).push(110u8).push(116u8).push(101u8).push(110u8).push(
        116u8).push(45u8).push(76u8).push(101u8).push(110u8).push(103u8).push(116u8).push(
        104u8).push(58u8)
}

/// The header block this client sends for a body of `n` bytes:
/// `Content-Length: <n>` and the blank line, CRLF separated.
pub open spec fn spec_frame_header(n: nat) -> Seq<u8> {
    spec_cl_prefix() + seq![32u8] + spec_dec_bytes(n) + seq![13u8, 10u8, 13u8, 10u8]
}

/// One whole outgoing frame: header block, then the body itself.
pub open spec fn spec_frame_bytes(body: Seq<u8>) -> Seq<u8> {
    spec_frame_header(body.len()) + body
}

/// Encodes one frame around `body`.
pub fn encode_frame(body: &Vec<u8>) -> (out: Vec<u8>)
    ensures
        out@ == spec_frame_bytes(body@),
{
    let mut out: Vec<u8> = Vec::new();
    out.push(67u8);
    out.push(111u8);
    out.push(110u8);
    out.push(116u8);
    out.push(101u8);
    out.push(110u8);
    out.push(116u8);
    out.push(45u8);
    out.push(76u8);
    out.push(101u8);
    out.push(110u8);
    out.push(103u8);
    out.push(116u8);
    out.push(104u8);
    out.push(58u8);
    out.push(32u8);
    assert(out@ =~= spec_cl_prefix() + seq![32u8]);
    write_u64_dec(body.len() as u64, &mut out);
    out.push(13u8);
    out.push(10u8);
    out.push(13u8);
    out.push(10u8);
    let mut k: usize = 0;
    while k < body.len()
        invariant
            k <= body.len(),
            out@ == spec_cl_prefix() + seq![32u8] + spec_dec_bytes(body@.len() as nat)
                + seq![13u8, 10u8, 13u8, 10u8] + body@.take(k as int),
        decreases body.len() - k,
    {
        out.push(body[k]);
        proof {
            assert(body@.take(k as int).push(body@[k as int]) =~= body@.take(k as int + 1));
            assert(out@ =~= spec_cl_prefix() + seq![32u8] + spec_dec_bytes(body@.len() as nat)
                + seq![13u8, 10u8, 13u8, 10u8] + body@.take(k as int + 1));
        }
        k = k + 1;
    }
    proof {
        assert(body@.take(body@.len() as int) =~= body@);
        assert(out@ =~= spec_frame_bytes(body@));
    }
    out
}

/// Whether the four bytes ending at `e` are the header terminator CRLFCRLF.
pub open spec fn is_term_at(s: Seq<u8>, e: int) -> bool {
    s[e - 4] == 13 && s[e - 3] == 10 && s[e - 2] == 13 && s[e - 1] == 10
}

/// The least end position at or after `e` where the header terminator
/// closes, or nothing if the stream holds no terminator yet.
pub open spec fn spec_find_term(s: Seq<u8>, e: int) -> Option<int>
    decreases s.len() + 1 - e,
{
    if e < 4 || e > s.len() {
        None
    } else if is_term_at(s, e) {
        Some(e)
    } else {
        spec_find_term(s, e + 1)
    }
}


/// Finds the end of the header block of the frame that starts at `i`: the
/// least position `e >= i + 4` such that the four bytes before `e` are
/// CRLFCRLF.
pub fn find_header_end(s: &Vec<u8>, i: usize) -> (r: Option<usize>)
    requires
        i <= s.len(),
        s@.len() < usize::MAX,
    ensures
        r is Some <==> spec_find_term(s@, i as int + 4) is Some,
        r matches Some(e) ==> spec_find_term(s@, i as int + 4) == Some(e as int) && i + 4 <= e
            <= s.len(),
{
    if s.len() < 4 || i > s.len() - 4 {
        return None;
    }
    let mut e = i + 4;
    while e <= s.len()
        invariant
            i + 4 <= e <= s.len() + 1,
            s@.len() < usize::MAX,
            spec_find_term(s@, i as int + 4) == spec_find_term(s@, e as int),
        decreases s.len() + 1 - e,
    {
        if s[e - 4] == 13 && s[e - 3] == 10 && s[e - 2] == 13 && s[e - 1] == 10 {
            return Some(e);
        }
        e = e + 1;
    }
    None
}

/// ASCII whitespace, as trimming treats it: space, tab, and the four other
/// control separators.
pub open spec fn is_hws(b: u8) -> bool {
    b == 32 || b == 9 || b == 10 || b == 11 || b == 12 || b == 13
}

/// `s` without leading whitespace.
pub open spec fn spec_trim_start(s: Seq<u8>) -> Seq<u8>
    decreases s.len(),
{
    if s.len() > 0 && is_hws(s[0]) {
        spec_trim_start(s.drop_first())
    } else {
        s
    }
}

/// `s` without trailing whitespace.
pub open spec fn spec_trim_end(s: Seq<u8>) -> Seq<u8>
    decreases s.len(),
{
    if s.len() > 0 && is_hws(s.last()) {
        spec_trim_end(s.drop_last())
    } else {
        s
    }
}

/// `s` without leading or trailing whitespace.
pub open spec fn spec_trim(s: Seq<u8>) -> Seq<u8> {
    spec_trim_end(spec_trim_start(s))
}

/// The position of the next line feed at or after `p`, or the block's end.
pub open spec fn spec_line_end(h: Seq<u8>, p: int) -> int
    decreases h.len() - p,
{
    if 0 <= p < h.len() {
        if h[p] == 10 {
            p
        } else {
            spec_line_end(h, p + 1)
        }
    } else {
        p
    }
}

/// Whether a header line begins with `Content-Length:`.
pub open spec fn spec_is_cl_line(line: Seq<u8>) -> bool {
    line.len() >= 15 && line.subrange(0, 15) == spec_cl_prefix()
}

/// The raw value (the bytes after the first colon) of the first
/// `Content-Length` line at or after `p`, if any line of the block carries
/// one. Lines are split at line feeds, with a carriage return before the
/// feed not counted as line content.
pub open spec fn spec_cl_from(h: Seq<u8>, p: int) -> Option<Seq<u8>>
    decreases h.len() - p,
{
    if p < 0 || p > h.len() {
        None
    } else {
        let e = spec_line_end(h, p);
        if e < p || e > h.len() {
            None
        } else {
            let c = if e > p && h[e - 1] == 13 {
                e - 1
            } else {
                e
            };
            let line = h.subrange(p, c);
            if spec_is_cl_line(line) {
                Some(line.skip(15))
            } else if e >= h.len() {
                None
            } else {
                spec_cl_from(h, e + 1)
            }
        }
    }
}

/// Whether every byte of `s` is a decimal digit.
pub open spec fn spec_all_digits(s: Seq<u8>) -> bool {
    forall|t: int| 0 <= t < s.len() ==> is_digit(s[t])
}

/// What a header block declares as its body length: the value of the first
/// `Content-Length` line, trimmed, as a non-negative decimal integer that
/// fits the machine; or which of the two header errors the block earns.
pub open spec fn spec_content_length(h: Seq<u8>) -> Result<int, ProtocolError> {
    match spec_cl_from(h, 0) {
        None => Err(ProtocolError::MissingContentLength),
        Some(raw) => {
            let t = spec_trim(raw);
            if t.len() == 0 || !spec_all_digits(t) {
                Err(ProtocolError::MalformedHeader)
            } else if spec_dec_value(t) > usize::MAX {
                Err(ProtocolError::MalformedHeader)
            } else {
                Ok(spec_dec_value(t))
            }
        },
    }
}

pub proof fn lemma_dec_bytes_digits(n: nat)
    ensures
        spec_dec_bytes(n).len() >= 1,
        forall|t: int| 0 <= t < spec_dec_bytes(n).len() ==> is_digit(#[trigger] spec_dec_bytes(
            n,
        )[t]),
    decreases n,
{
    if n >= 10 {
        lemma_dec_bytes_digits(n / 10);
        let d = spec_dec_bytes(n);
        assert forall|t: int| 0 <= t < d.len() implies is_digit(#[trigger] d[t]) by {
            if t < d.len() - 1 {
                assert(d[t] == spec_dec_bytes(n / 10)[t]);
            } else {
                assert(d[t] == spec_digit_byte(n % 10));
            }
        }
    }
}

pub proof fn lemma_dec_value_of_dec_bytes(n: nat)
    ensures
        spec_dec_value(spec_dec_bytes(n)) == n,
    decreases n,
{
    if n < 10 {
        let d = spec_dec_bytes(n);
        assert(d.drop_last() =~= Seq::<u8>::empty());
        assert(spec_dec_value(d.drop_last()) == 0);
        assert(d.last() == spec_digit_byte(n));
    } else {
        lemma_dec_value_of_dec_bytes(n / 10);
        let x = spec_dec_bytes(n / 10);
        let d = spec_dec_bytes(n);
        assert(d == x.push(spec_digit_byte(n % 10)));
        assert(d.drop_last() =~= x);
        assert(d.last() == spec_digit_byte(n % 10));
        assert(spec_dec_value(d) == spec_dec_value(x) * 10 + (spec_digit_byte(n % 10) - 48));
    }
}

/// The byte layout of the header block this client writes: the fixed
/// prefix and space, the length digits, then CRLFCRLF, with nothing that
/// looks like a line feed or carriage return before the terminator.
pub proof fn lemma_frame_header_shape(n: nat)
    ensures
        spec_frame_header(n).len() == 20 + spec_dec_bytes(n).len(),
        spec_frame_header(n)[spec_frame_header(n).len() - 4] == 13,
        spec_frame_header(n)[spec_frame_header(n).len() - 3] == 10,
        spec_frame_header(n)[spec_frame_header(n).len() - 2] == 13,
        spec_frame_header(n)[spec_frame_header(n).len() - 1] == 10,
        forall|t: int| 0 <= t < spec_frame_header(n).len() - 4 ==> #[trigger] spec_frame_header(
            n,
        )[t] != 13 && spec_frame_header(n)[t] != 10,
{
    lemma_dec_bytes_digits(n);
    let h = spec_frame_header(n);
    let d = spec_dec_bytes(n);
    assert forall|t: int| 0 <= t < h.len() - 4 implies #[trigger] h[t] != 13 && h[t] != 10 by {
        if t < 15 {
            assert(h[t] == spec_cl_prefix()[t]);
        } else if t == 15 {
            assert(h[t] == 32);
        } else {
            assert(h[t] == d[t - 16]);
            assert(is_digit(d[t - 16]));
        }
    }
}

pub proof fn lemma_find_term_scan(s: Seq<u8>, e: int, tgt: int)
    requires
        4 <= e <= tgt <= s.len(),
        is_term_at(s, tgt),
        forall|k: int| e <= k < tgt ==> !is_term_at(s, k),
    ensures
        spec_find_term(s, e) == Some(tgt),
    decreases tgt - e,
{
    if e < tgt {
        lemma_find_term_scan(s, e + 1, tgt);
    }
}

proof fn lemma_line_end_scan(h: Seq<u8>, p: int, tgt: int)
    requires
        0 <= p <= tgt < h.len(),
        h[tgt] == 10,
        forall|k: int| p <= k < tgt ==> h[k] != 10,
    ensures
        spec_line_end(h, p) == tgt,
    decreases tgt - p,
{
    if p < tgt {
        lemma_line_end_scan(h, p + 1, tgt);
    }
}

/// The header block this client writes for a body of `n` bytes declares
/// exactly `n`: extracting `Content-Length` from it gives the length back.
pub proof fn lemma_content_length_of_header(n: nat)
    requires
        n <= usize::MAX,
    ensures
        spec_content_length(spec_frame_header(n)) == Ok::<int, ProtocolError>(n as int),
{
    lemma_dec_bytes_digits(n);
    lemma_dec_value_of_dec_bytes(n);
    lemma_frame_header_shape(n);
    let h = spec_frame_header(n);
    let d = spec_dec_bytes(n);
    let hlen = h.len();
    lemma_line_end_scan(h, 0, hlen - 3);
    assert(spec_line_end(h, 0) == hlen - 3);
    let e = hlen - 3;
    assert(h[e - 1] == 13);
    let c = e - 1;
    let line = h.subrange(0, c);
    assert(line.len() == 16 + d.len());
    assert(line.subrange(0, 15) =~= spec_cl_prefix());
    assert(spec_is_cl_line(line));
    let raw = line.skip(15);
    assert(raw =~= seq![32u8] + d);
    assert(spec_cl_from(h, 0) == Some(raw));
    assert(raw[0] == 32 && is_hws(raw[0]));
    assert(raw.drop_first() =~= d);
    assert(is_digit(d[0]) && !is_hws(d[0]));
    assert(spec_trim_start(raw) == spec_trim_start(d));
    assert(spec_trim_start(d) == d);
    assert(is_digit(d.last()) && !is_hws(d.last()));
    assert(spec_trim_end(d) == d);
    assert(spec_trim(raw) == d);
    assert(spec_all_digits(d));
    assert(spec_dec_value(d) == n);
}

/// In a stream that holds a whole frame at `i`, the header scan finds
/// exactly the frame's own header terminator.
pub proof fn lemma_frame_find_term(s: Seq<u8>, i: int, body: Seq<u8>)
    requires
        0 <= i,
        i + spec_frame_bytes(body).len() <= s.len(),
        s.subrange(i, i + spec_frame_bytes(body).len()) == spec_frame_bytes(body),
    ensures
        spec_find_term(s, i + 4) == Some(i + spec_frame_header(body.len()).len()),
{
    lemma_frame_header_shape(body.len());
    let f = spec_frame_bytes(body);
    let h = spec_frame_header(body.len());
    let hlen = h.len();
    assert forall|t: int| 0 <= t < f.len() implies #[trigger] s[i + t] == f[t] by {
        assert(s.subrange(i, i + f.len())[t] == s[i + t]);
    }
    assert forall|t: int| 0 <= t < hlen implies #[trigger] s[i + t] == h[t] by {
        assert(f[t] == h[t]);
    }
    assert(is_term_at(s, i + hlen)) by {
        assert(s[i + (hlen - 4)] == h[hlen - 4]);
        assert(s[i + (hlen - 3)] == h[hlen - 3]);
        assert(s[i + (hlen - 2)] == h[hlen - 2]);
        assert(s[i + (hlen - 1)] == h[hlen - 1]);
    }
    assert forall|e: int| i + 4 <= e < i + hlen implies !is_term_at(s, e) by {
        assert(s[i + (e - 4 - i)] == h[e - 4 - i]);
        assert(h[e - 4 - i] != 13);
        assert(s[e - 4] != 13);
    }
    lemma_find_term_scan(s, i + 4, i + hlen);
}

proof fn lemma_dec_value_drop_zero(s: Seq<u8>)
    requires
        s.len() > 0,
        s[0] == 48,
    ensures
        spec_dec_value(s) == spec_dec_value(s.drop_first()),
    decreases s.len(),
{
    if s.len() == 1 {
        assert(s.drop_last() =~= Seq::<u8>::empty());
        assert(s.drop_first() =~= Seq::<u8>::empty());
    } else {
        lemma_dec_value_drop_zero(s.drop_last());
        assert(s.drop_first().drop_last() =~= s.drop_last().drop_first());
        assert(s.drop_first().last() == s.last());
    }
}

pub proof fn lemma_dec_value_lower_pub(ds: Seq<u8>)
    requires
        ds.len() > 0,
        ds[0] != 48,
        forall|t: int| 0 <= t < ds.len() ==> is_digit(ds[t]),
    ensures
        spec_dec_value(ds) >= spec_pow10((ds.len() - 1) as nat),
    decreases ds.len(),
{
    if ds.len() == 1 {
        assert(ds.drop_last() =~= Seq::<u8>::empty());
        assert(ds.last() == ds[0]);
        assert(is_digit(ds[0]));
        assert(spec_dec_value(ds.drop_last()) == 0);
        assert(spec_dec_value(ds) == ds[0] - 48);
        assert(spec_dec_value(ds) >= 1);
        assert(spec_pow10(0) == 1);
    } else {
        let dl = ds.drop_last();
        assert(dl[0] == ds[0]);
        assert forall|t: int| 0 <= t < dl.len() implies is_digit(dl[t]) by {
            assert(dl[t] == ds[t]);
        }
        lemma_dec_value_lower_pub(dl);
        assert(is_digit(ds.last()));
        assert(spec_pow10((ds.len() - 1) as nat) == 10 * spec_pow10((ds.len() - 2) as nat));
        assert(spec_dec_value(dl) * 10 >= spec_pow10((ds.len() - 2) as nat) * 10) by (nonlinear_arith)
            requires
                spec_dec_value(dl) >= spec_pow10((ds.len() - 2) as nat),
        {
        }
        assert(spec_dec_value(ds) == spec_dec_value(dl) * 10 + (ds.last() - 48));
        assert(ds.last() - 48 >= 0);
        assert(spec_dec_value(ds) >= spec_pow10((ds.len() - 1) as nat));
    }
}

fn find_content_length_raw(h: &Vec<u8>) -> (r: Option<(usize, usize)>)
    requires
        h@.len() < usize::MAX,
    ensures
        r is Some <==> spec_cl_from(h@, 0) is Some,
        r matches Some(p) ==> p.0 <= p.1 <= h.len() && spec_cl_from(h@, 0) == Some(
            h@.subrange(p.0 as int, p.1 as int),
        ),
{
    let mut p: usize = 0;
    loop
        invariant
            p <= h.len(),
            h@.len() < usize::MAX,
            spec_cl_from(h@, 0) == spec_cl_from(h@, p as int),
        decreases h.len() - p,
    {
        let mut e = p;
        while e < h.len() && h[e] != 10
            invariant
                p <= e <= h.len(),
                spec_line_end(h@, p as int) == spec_line_end(h@, e as int),
            decreases h.len() - e,
        {
            e = e + 1;
        }
        assert(spec_line_end(h@, p as int) == e as int);
        let c = if e > p && h[e - 1] == 13 {
            e - 1
        } else {
            e
        };
        let ghost line = h@.subrange(p as int, c as int);
        let mut is_cl = false;
        if c - p >= 15 {
            is_cl = h[p] == 67 && h[p + 1] == 111 && h[p + 2] == 110 && h[p + 3] == 116 && h[p + 4]
                == 101 && h[p + 5] == 110 && h[p + 6] == 116 && h[p + 7] == 45 && h[p + 8] == 76
                && h[p + 9] == 101 && h[p + 10] == 110 && h[p + 11] == 103 && h[p + 12] == 116 && h[
                p + 13] == 104 && h[p + 14] == 58;
        }
        proof {
            if c - p >= 15 {
                if is_cl {
                    assert(line.subrange(0, 15) =~= spec_cl_prefix());
                    assert(spec_is_cl_line(line));
                } else {
                    if spec_is_cl_line(line) {
                        assert(line.subrange(0, 15) == spec_cl_prefix());
                        assert(h@[p as int] == 67) by {
                            assert(line.subrange(0, 15)[0] == spec_cl_prefix()[0]);
                        };
                        assert(h@[p as int + 1] == 111) by {
                            assert(line.subrange(0, 15)[1] == spec_cl_prefix()[1]);
                        };
                        assert(h@[p as int + 2] == 110) by {
                            assert(line.subrange(0, 15)[2] == spec_cl_prefix()[2]);
                        };
                        assert(h@[p as int + 3] == 116) by {
                            assert(line.subrange(0, 15)[3] == spec_cl_prefix()[3]);
                        };
                        assert(h@[p as int + 4] == 101) by {
                            assert(line.subrange(0, 15)[4] == spec_cl_prefix()[4]);
                        };
                        assert(h@[p as int + 5] == 110) by {
                            assert(line.subrange(0, 15)[5] == spec_cl_prefix()[5]);
                        };
                        assert(h@[p as int + 6] == 116) by {
                            assert(line.subrange(0, 15)[6] == spec_cl_prefix()[6]);
                        };
                        assert(h@[p as int + 7] == 45) by {
                            assert(line.subrange(0, 15)[7] == spec_cl_prefix()[7]);
                        };
                        assert(h@[p as int + 8] == 76) by {
                            assert(line.subrange(0, 15)[8] == spec_cl_prefix()[8]);
                        };
                        assert(h@[p as int + 9] == 101) by {
                            assert(line.subrange(0, 15)[9] == spec_cl_prefix()[9]);
                        };
                        assert(h@[p as int + 10] == 110) by {
                            assert(line.subrange(0, 15)[10] == spec_cl_prefix()[10]);
                        };
                        assert(h@[p as int + 11] == 103) by {
                            assert(line.subrange(0, 15)[11] == spec_cl_prefix()[11]);
                        };
                        assert(h@[p as int + 12] == 116) by {
                            assert(line.subrange(0, 15)[12] == spec_cl_prefix()[12]);
                        };
                        assert(h@[p as int + 13] == 104) by {
                            assert(line.subrange(0, 15)[13] == spec_cl_prefix()[13]);
                        };
                        assert(h@[p as int + 14] == 58) by {
                            assert(line.subrange(0, 15)[14] == spec_cl_prefix()[14]);
                        };
                        assert(false);
                    }
                }
            } else {
                assert(!spec_is_cl_line(line));
            }
        }
        if is_cl {
            proof {
                assert(line.skip(15) =~= h@.subrange(p as int + 15, c as int));
            }
            return Some((p + 15, c));
        }
        if e >= h.len() {
            return None;
        }
        p = e + 1;
    }
}

/// Extracts the declared body length from a header block: exactly what
/// `spec_content_length` says of the bytes.
pub fn parse_content_length(h: &Vec<u8>) -> (r: Result<usize, ProtocolError>)
    requires
        h@.len() < usize::MAX,
    ensures
        r is Ok <==> spec_content_length(h@) is Ok,
        r matches Ok(n) ==> spec_content_length(h@) == Ok::<int, ProtocolError>(n as int),
        r matches Err(pe) ==> spec_content_length(h@) == Err::<int, ProtocolError>(pe),
{
    let rr = find_content_length_raw(h);
    match rr {
        None => Err(ProtocolError::MissingContentLength),
        Some((a, b)) => {
            let ghost raw = h@.subrange(a as int, b as int);
            let mut a2 = a;
            while a2 < b && (h[a2] == 32 || h[a2] == 9 || h[a2] == 10 || h[a2] == 11 || h[a2] == 12
                || h[a2] == 13)
                invariant
                    a <= a2 <= b,
                    b <= h.len(),
                    spec_trim_start(raw) == spec_trim_start(h@.subrange(a2 as int, b as int)),
                decreases b - a2,
            {
                proof {
                    assert(h@.subrange(a2 as int, b as int).drop_first() =~= h@.subrange(
                        a2 as int + 1, b as int));
                }
                a2 = a2 + 1;
            }
            assert(spec_trim_start(raw) == h@.subrange(a2 as int, b as int));
            let mut b2 = b;
            while b2 > a2 && (h[b2 - 1] == 32 || h[b2 - 1] == 9 || h[b2 - 1] == 10 || h[b2 - 1]
                == 11 || h[b2 - 1] == 12 || h[b2 - 1] == 13)
                invariant
                    a2 <= b2 <= b,
                    b <= h.len(),
                    spec_trim_end(h@.subrange(a2 as int, b as int)) == spec_trim_end(
                        h@.subrange(a2 as int, b2 as int)),
                decreases b2,
            {
                proof {
                    assert(h@.subrange(a2 as int, b2 as int).drop_last() =~= h@.subrange(
                        a2 as int, b2 as int - 1));
                }
                b2 = b2 - 1;
            }
            let ghost t = h@.subrange(a2 as int, b2 as int);
            proof {
                assert(spec_trim(raw) == t);
            }
            if a2 == b2 {
                return Err(ProtocolError::MalformedHeader);
            }
            let mut k = a2;
            while k < b2 && 48 <= h[k] && h[k] <= 57
                invariant
                    a2 <= k <= b2,
                    b2 <= h.len(),
                    forall|q: int| a2 <= q < k ==> is_digit(h@[q]),
                decreases b2 - k,
            {
                k = k + 1;
            }
            if k < b2 {
                proof {
                    assert(t[k as int - a2 as int] == h@[k as int]);
                    assert(!spec_all_digits(t));
                }
                return Err(ProtocolError::MalformedHeader);
            }
            proof {
                assert forall|x: int| 0 <= x < t.len() implies is_digit(t[x]) by {
                    assert(t[x] == h@[a2 as int + x]);
                }
                assert(spec_all_digits(t));
            }
            let mut a3 = a2;
            while a3 < b2 && h[a3] == 48
                invariant
                    a2 <= a3 <= b2,
                    b2 <= h.len(),
                    forall|q: int| a2 <= q < b2 ==> is_digit(h@[q]),
                    spec_dec_value(t) == spec_dec_value(h@.subrange(a3 as int, b2 as int)),
                decreases b2 - a3,
            {
                proof {
                    lemma_dec_value_drop_zero(h@.subrange(a3 as int, b2 as int));
                    assert(h@.subrange(a3 as int, b2 as int).drop_first() =~= h@.subrange(
                        a3 as int + 1, b2 as int));
                }
                a3 = a3 + 1;
            }
            let ghost u = h@.subrange(a3 as int, b2 as int);
            proof {
                assert forall|x: int| 0 <= x < u.len() implies is_digit(u[x]) by {
                    assert(u[x] == h@[a3 as int + x]);
                }
            }
            if b2 - a3 > 20 {
                proof {
                    assert(u[0] == h@[a3 as int]);
                    lemma_dec_value_lower_pub(u);
                    lemma_pow10_mono(20, (u.len() - 1) as nat);
                    reveal_with_fuel(spec_pow10, 22);
                    assert(spec_pow10(20) == 100000000000000000000);
                    assert(spec_dec_value(t) > usize::MAX);
                }
                return Err(ProtocolError::MalformedHeader);
            }
            let mut acc: u128 = 0;
            let mut q2 = a3;
            proof {
                assert(h@.subrange(a3 as int, a3 as int) =~= Seq::<u8>::empty());
            }
            while q2 < b2
                invariant
                    a3 <= q2 <= b2,
                    b2 <= h.len(),
                    b2 - a3 <= 20,
                    forall|q: int| a3 <= q < b2 ==> is_digit(h@[q]),
                    acc as int == spec_dec_value(h@.subrange(a3 as int, q2 as int)),
                    (acc as int) < spec_pow10((q2 - a3) as nat),
                decreases b2 - q2,
            {
                proof {
                    lemma_pow10_mono((q2 - a3) as nat, 19);
                    reveal_with_fuel(spec_pow10, 21);
                    assert(spec_pow10(19) == 10000000000000000000);
                }
                let d: u8 = h[q2] - 48;
                acc = acc * 10 + (d as u128);
                proof {
                    assert(h@.subrange(a3 as int, q2 as int + 1).drop_last() =~= h@.subrange(
                        a3 as int, q2 as int));
                    assert(h@.subrange(a3 as int, q2 as int + 1).last() == h@[q2 as int]);
                }
                q2 = q2 + 1;
            }
            assert(acc as int == spec_dec_value(t));
            if acc > usize::MAX as u128 {
                return Err(ProtocolError::MalformedHeader);
            }
            Ok(acc as usize)
        },
    }
}

} // verus!
