//! The JSON parser: a recursive-descent grammar stated as spec functions,
//! and an executable parser proved to return exactly what the grammar says.
//!
//! The grammar accepts RFC-8259 JSON: `null`, `true`, `false`, strings
//! with the short backslash escapes and `\uXXXX` escapes (surrogate pairs
//! included), numbers (integers that fit 64 bits become `Int`; fractions,
//! exponents and wider integers are carried as opaque `Num` tokens),
//! arrays and objects, with whitespace between tokens.
use vstd::prelude::*;

use crate::json::Json;
use crate::json::JsonView;
use crate::json::json_bytes;
use crate::json::spec_arr_items;
use crate::json::spec_obj_members;
use crate::json::spec_string_bytes;
use crate::json::json_view;
use crate::json::spec_dec_bytes;
use crate::json::json_views;
use crate::json::member_views;
use crate::json::subvec;

verus! {

/// JSON insignificant whitespace: space, tab, line feed, carriage return.
pub open spec fn is_ws(b: u8) -> bool {
    b == 32 || b == 9 || b == 10 || b == 13
}

/// A decimal digit byte.
pub open spec fn is_digit(b: u8) -> bool {
    48 <= b <= 57
}

/// The first position at or after `i` that does not hold whitespace.
pub open spec fn spec_skip_ws(s: Seq<u8>, i: int) -> int
    decreases s.len() - i,
{
    if 0 <= i < s.len() && is_ws(s[i]) {
        spec_skip_ws(s, i + 1)
    } else {
        i
    }
}


/// What a short backslash escape stands for: quote, backslash, slash, and
/// the five control escapes. (`\u` escapes are handled separately.)
pub open spec fn spec_unescape(e: u8) -> Option<u8> {
    if e == 34 {
        Some(34u8)
    } else if e == 92 {
        Some(92u8)
    } else if e == 47 {
        Some(47u8)
    } else if e == 98 {
        Some(8u8)
    } else if e == 102 {
        Some(12u8)
    } else if e == 110 {
        Some(10u8)
    } else if e == 114 {
        Some(13u8)
    } else if e == 116 {
        Some(9u8)
    } else {
        None
    }
}

/// The value of one hexadecimal digit byte, either letter case.
pub open spec fn spec_hex_val(b: u8) -> Option<int> {
    if 48 <= b <= 57 {
        Some((b - 48) as int)
    } else if 97 <= b <= 102 {
        Some((b - 87) as int)
    } else if 65 <= b <= 70 {
        Some((b - 55) as int)
    } else {
        None
    }
}

/// The value of four hexadecimal digit bytes starting at `i`.
pub open spec fn spec_hex4(s: Seq<u8>, i: int) -> Option<int> {
    match (spec_hex_val(s[i]), spec_hex_val(s[i + 1]), spec_hex_val(s[i + 2]), spec_hex_val(
        s[i + 3],
    )) {
        (Some(a), Some(b), Some(c), Some(d)) => Some(a * 4096 + b * 256 + c * 16 + d),
        _ => None,
    }
}

/// The UTF-8 encoding of one Unicode scalar value.
pub open spec fn spec_utf8_enc(cp: int) -> Seq<u8> {
    if cp < 0x80 {
        seq![cp as u8]
    } else if cp < 0x800 {
        seq![(0xC0 + cp / 0x40) as u8, (0x80 + cp % 0x40) as u8]
    } else if cp < 0x10000 {
        seq![
            (0xE0 + cp / 0x1000) as u8,
            (0x80 + (cp / 0x40) % 0x40) as u8,
            (0x80 + cp % 0x40) as u8,
        ]
    } else {
        seq![
            (0xF0 + cp / 0x40000) as u8,
            (0x80 + (cp / 0x1000) % 0x40) as u8,
            (0x80 + (cp / 0x40) % 0x40) as u8,
            (0x80 + cp % 0x40) as u8,
        ]
    }
}

/// Parses the body of a string literal starting just after the opening
/// quote: the unescaped content and the position just after the closing
/// quote. A `\uXXXX` escape turns into the scalar's UTF-8 bytes; a high
/// surrogate must be followed by a low one, and a lone surrogate is an
/// error.
pub open spec fn spec_parse_string_body(s: Seq<u8>, i: int) -> Option<(Seq<u8>, int)>
    decreases s.len() - i,
{
    if i < 0 || i >= s.len() {
        None
    } else if s[i] == 34 {
        Some((Seq::empty(), i + 1))
    } else if s[i] == 92 {
        if i + 2 > s.len() {
            None
        } else if s[i + 1] == 117 {
            if i + 6 > s.len() {
                None
            } else {
                match spec_hex4(s, i + 2) {
                    None => None,
                    Some(cp) => {
                        if 0xD800 <= cp < 0xDC00 {
                            if i + 12 > s.len() {
                                None
                            } else if s[i + 6] != 92 || s[i + 7] != 117 {
                                None
                            } else {
                                match spec_hex4(s, i + 8) {
                                    None => None,
                                    Some(lo) => {
                                        if !(0xDC00 <= lo < 0xE000) {
                                            None
                                        } else {
                                            match spec_parse_string_body(s, i + 12) {
                                                None => None,
                                                Some(r) => Some(
                                                    (
                                                        spec_utf8_enc(
                                                            0x10000 + (cp - 0xD800) * 0x400 + (lo
                                                                - 0xDC00),
                                                        ) + r.0,
                                                        r.1,
                                                    ),
                                                ),
                                            }
                                        }
                                    },
                                }
                            }
                        } else if 0xDC00 <= cp < 0xE000 {
                            None
                        } else {
                            match spec_parse_string_body(s, i + 6) {
                                None => None,
                                Some(r) => Some((spec_utf8_enc(cp) + r.0, r.1)),
                            }
                        }
                    },
                }
            }
        } else {
            match spec_unescape(s[i + 1]) {
                None => None,
                Some(b) => match spec_parse_string_body(s, i + 2) {
                    None => None,
                    Some(r) => Some((seq![b] + r.0, r.1)),
                },
            }
        }
    } else if s[i] < 32 {
        None
    } else {
        match spec_parse_string_body(s, i + 1) {
            None => None,
            Some(r) => Some((seq![s[i]] + r.0, r.1)),
        }
    }
}


/// The first position at or after `i` that does not hold a digit.
pub open spec fn spec_digits_end(s: Seq<u8>, i: int) -> int
    decreases s.len() - i,
{
    if 0 <= i < s.len() && is_digit(s[i]) {
        spec_digits_end(s, i + 1)
    } else {
        i
    }
}


/// The value of a run of decimal digit bytes, most significant first.
pub open spec fn spec_dec_value(ds: Seq<u8>) -> int
    decreases ds.len(),
{
    if ds.len() == 0 {
        0
    } else {
        spec_dec_value(ds.drop_last()) * 10 + (ds.last() - 48)
    }
}

/// Ten to the `n`.
pub open spec fn spec_pow10(n: nat) -> int
    decreases n,
{
    if n == 0 {
        1
    } else {
        10 * spec_pow10((n - 1) as nat)
    }
}

pub proof fn lemma_pow10_mono(m: nat, n: nat)
    requires
        m <= n,
    ensures
        spec_pow10(m) <= spec_pow10(n),
        spec_pow10(m) >= 1,
    decreases n,
{
    if n > 0 {
        if m == n {
            lemma_pow10_mono((m - 1) as nat, (n - 1) as nat);
        } else {
            lemma_pow10_mono(m, (n - 1) as nat);
        }
    }
}

pub proof fn lemma_dec_value_bound(ds: Seq<u8>)
    requires
        forall|t: int| 0 <= t < ds.len() ==> is_digit(ds[t]),
    ensures
        0 <= spec_dec_value(ds) < spec_pow10(ds.len() as nat),
    decreases ds.len(),
{
    if ds.len() > 0 {
        lemma_dec_value_bound(ds.drop_last());
    }
}

/// The end of an optional fraction part at `e1`: unchanged when no `.`
/// stands there, after its digits when one does, and an error when the
/// `.` has no digits.
pub open spec fn spec_frac_end(s: Seq<u8>, e1: int) -> Option<int> {
    if e1 < s.len() && s[e1] == 46 {
        let d = spec_digits_end(s, e1 + 1);
        if d == e1 + 1 {
            None
        } else {
            Some(d)
        }
    } else {
        Some(e1)
    }
}

/// The end of an optional exponent part at `e2`: unchanged when no `e`/`E`
/// stands there, after its optional sign and digits when one does, and an
/// error when the digits are missing.
pub open spec fn spec_exp_end(s: Seq<u8>, e2: int) -> Option<int> {
    if e2 < s.len() && (s[e2] == 101 || s[e2] == 69) {
        let p = if e2 + 1 < s.len() && (s[e2 + 1] == 43 || s[e2 + 1] == 45) {
            e2 + 2
        } else {
            e2 + 1
        };
        let d = spec_digits_end(s, p);
        if d == p {
            None
        } else {
            Some(d)
        }
    } else {
        Some(e2)
    }
}

/// Parses a number token at `i` (the caller has seen a digit or a minus
/// sign there): an optional sign, digits with no leading zero, and
/// optional fraction and exponent parts. A plain integer that fits 64
/// signed bits becomes `Int`; any other token — fraction, exponent, or a
/// wider integer — is carried opaquely as `Num`.
pub open spec fn spec_parse_number(s: Seq<u8>, i: int) -> Option<(JsonView, int)> {
    let neg = s[i] == 45;
    let j = if neg { i + 1 } else { i };
    let e1 = spec_digits_end(s, j);
    if e1 == j {
        None
    } else if s[j] == 48 && e1 > j + 1 {
        None
    } else {
        match spec_frac_end(s, e1) {
            None => None,
            Some(e2) => match spec_exp_end(s, e2) {
                None => None,
                Some(e3) => {
                    if e2 != e1 || e3 != e2 {
                        Some((JsonView::Num(s.subrange(i, e3)), e3))
                    } else {
                        let mag = spec_dec_value(s.subrange(j, e1));
                        if neg && mag <= 9223372036854775808 {
                            Some((JsonView::Int(-mag), e1))
                        } else if !neg && mag <= 9223372036854775807 {
                            Some((JsonView::Int(mag), e1))
                        } else {
                            Some((JsonView::Num(s.subrange(i, e1)), e1))
                        }
                    }
                },
            },
        }
    }
}

/// Parses one JSON value at `i`, whitespace allowed before it. The fuel
/// falls on each descent into an array or object and on each further list
/// element; a caller that grants one more unit than the input's length can
/// never run out.
pub open spec fn spec_parse_value(s: Seq<u8>, i: int, fuel: nat) -> Option<(JsonView, int)>
    decreases fuel, 0nat,
{
    if fuel == 0 || i < 0 || i > s.len() {
        None
    } else {
        let j = spec_skip_ws(s, i);
        if j >= s.len() {
            None
        } else if s[j] == 110 {
            if j + 4 <= s.len() && s[j + 1] == 117 && s[j + 2] == 108 && s[j + 3] == 108 {
                Some((JsonView::Null, j + 4))
            } else {
                None
            }
        } else if s[j] == 116 {
            if j + 4 <= s.len() && s[j + 1] == 114 && s[j + 2] == 117 && s[j + 3] == 101 {
                Some((JsonView::Bool(true), j + 4))
            } else {
                None
            }
        } else if s[j] == 102 {
            if j + 5 <= s.len() && s[j + 1] == 97 && s[j + 2] == 108 && s[j + 3] == 115 && s[j + 4]
                == 101 {
                Some((JsonView::Bool(false), j + 5))
            } else {
                None
            }
        } else if s[j] == 34 {
            match spec_parse_string_body(s, j + 1) {
                None => None,
                Some(r) => Some((JsonView::Str(r.0), r.1)),
            }
        } else if s[j] == 45 || is_digit(s[j]) {
            spec_parse_number(s, j)
        } else if s[j] == 91 {
            let k = spec_skip_ws(s, j + 1);
            if k < s.len() && s[k] == 93 {
                Some((JsonView::Arr(Seq::empty()), k + 1))
            } else {
                match spec_parse_items(s, j + 1, (fuel - 1) as nat) {
                    None => None,
                    Some(r) => Some((JsonView::Arr(r.0), r.1)),
                }
            }
        } else if s[j] == 123 {
            let k = spec_skip_ws(s, j + 1);
            if k < s.len() && s[k] == 125 {
                Some((JsonView::Obj(Seq::empty()), k + 1))
            } else {
                match spec_parse_members(s, j + 1, (fuel - 1) as nat) {
                    None => None,
                    Some(r) => Some((JsonView::Obj(r.0), r.1)),
                }
            }
        } else {
            None
        }
    }
}

/// Parses the items of a non-empty array from `i`: one value, then either a
/// comma and more items, or the closing bracket.
pub open spec fn spec_parse_items(s: Seq<u8>, i: int, fuel: nat) -> Option<(Seq<JsonView>, int)>
    decreases fuel, 1nat,
{
    if fuel == 0 {
        None
    } else {
        match spec_parse_value(s, i, fuel) {
            None => None,
            Some(r) => {
                let k = spec_skip_ws(s, r.1);
                if k < s.len() && s[k] == 44 {
                    match spec_parse_items(s, k + 1, (fuel - 1) as nat) {
                        None => None,
                        Some(r2) => Some((seq![r.0] + r2.0, r2.1)),
                    }
                } else if k < s.len() && s[k] == 93 {
                    Some((seq![r.0], k + 1))
                } else {
                    None
                }
            },
        }
    }
}

/// Parses the members of a non-empty object from `i`: a string key, a
/// colon, a value, then either a comma and more members, or the closing
/// brace.
pub open spec fn spec_parse_members(s: Seq<u8>, i: int, fuel: nat) -> Option<
    (Seq<(Seq<u8>, JsonView)>, int),
>
    decreases fuel, 1nat,
{
    if fuel == 0 || i < 0 {
        None
    } else {
        let j = spec_skip_ws(s, i);
        if j < s.len() && s[j] == 34 {
            match spec_parse_string_body(s, j + 1) {
                None => None,
                Some(ks) => {
                    let c = spec_skip_ws(s, ks.1);
                    if c < s.len() && s[c] == 58 {
                        match spec_parse_value(s, c + 1, fuel) {
                            None => None,
                            Some(r) => {
                                let k = spec_skip_ws(s, r.1);
                                if k < s.len() && s[k] == 44 {
                                    match spec_parse_members(s, k + 1, (fuel - 1) as nat) {
                                        None => None,
                                        Some(r2) => Some((seq![(ks.0, r.0)] + r2.0, r2.1)),
                                    }
                                } else if k < s.len() && s[k] == 125 {
                                    Some((seq![(ks.0, r.0)], k + 1))
                                } else {
                                    None
                                }
                            },
                        }
                    } else {
                        None
                    }
                },
            }
        } else {
            None
        }
    }
}

/// Parses one complete JSON document: one value, with nothing but
/// whitespace after it.
pub open spec fn spec_parse_json(s: Seq<u8>) -> Option<JsonView> {
    match spec_parse_value(s, 0, (s.len() + 1) as nat) {
        None => None,
        Some(r) => if spec_skip_ws(s, r.1) == s.len() {
            Some(r.0)
        } else {
            None
        },
    }
}

proof fn lemma_json_views_cons(x: Json, t: Seq<Json>)
    ensures
        json_views(seq![x] + t) == seq![json_view(x)] + json_views(t),
{
    let s = seq![x] + t;
    assert(s.len() == t.len() + 1);
    assert(s[0] == x);
    assert(s.drop_first() =~= t);
    assert(json_views(s) =~= seq![json_view(x)] + json_views(t));
}

proof fn lemma_member_views_cons(k: Vec<u8>, x: Json, t: Seq<(Vec<u8>, Json)>)
    ensures
        member_views(seq![(k, x)] + t) == seq![(k@, json_view(x))] + member_views(t),
{
    let s = seq![(k, x)] + t;
    assert(s.len() == t.len() + 1);
    assert(s[0] == (k, x));
    assert(s.drop_first() =~= t);
    assert(member_views(s) =~= seq![(k@, json_view(x))] + member_views(t));
}

fn skip_ws(s: &Vec<u8>, i: usize) -> (r: usize)
    requires
        i <= s.len(),
    ensures
        r as int == spec_skip_ws(s@, i as int),
        i <= r <= s.len(),
{
    let mut j: usize = i;
    while j < s.len() && (s[j] == 32 || s[j] == 9 || s[j] == 10 || s[j] == 13)
        invariant
            i <= j <= s.len(),
            spec_skip_ws(s@, i as int) == spec_skip_ws(s@, j as int),
        decreases s.len() - j,
    {
        j = j + 1;
    }
    j
}

fn hex_val(b: u8) -> (r: Option<u8>)
    ensures
        r is Some <==> spec_hex_val(b) is Some,
        r matches Some(x) ==> spec_hex_val(b) == Some(x as int) && x < 16,
{
    if 48 <= b && b <= 57 {
        Some(b - 48)
    } else if 97 <= b && b <= 102 {
        Some(b - 87)
    } else if 65 <= b && b <= 70 {
        Some(b - 55)
    } else {
        None
    }
}

fn prepend_utf8(cp: u32, t: &mut Vec<u8>)
    requires
        cp < 0x110000,
    ensures
        final(t)@ == spec_utf8_enc(cp as int) + old(t)@,
{
    if cp < 0x80 {
        t.insert(0, cp as u8);
        assert(t@ =~= spec_utf8_enc(cp as int) + old(t)@);
    } else if cp < 0x800 {
        t.insert(0, (0x80 + cp % 0x40) as u8);
        t.insert(0, (0xC0 + cp / 0x40) as u8);
        assert(t@ =~= spec_utf8_enc(cp as int) + old(t)@);
    } else if cp < 0x10000 {
        t.insert(0, (0x80 + cp % 0x40) as u8);
        t.insert(0, (0x80 + (cp / 0x40) % 0x40) as u8);
        t.insert(0, (0xE0 + cp / 0x1000) as u8);
        assert(t@ =~= spec_utf8_enc(cp as int) + old(t)@);
    } else {
        t.insert(0, (0x80 + cp % 0x40) as u8);
        t.insert(0, (0x80 + (cp / 0x40) % 0x40) as u8);
        t.insert(0, (0x80 + (cp / 0x1000) % 0x40) as u8);
        t.insert(0, (0xF0 + cp / 0x40000) as u8);
        assert(t@ =~= spec_utf8_enc(cp as int) + old(t)@);
    }
}

fn parse_string_body(s: &Vec<u8>, i: usize) -> (r: Option<(Vec<u8>, usize)>)
    requires
        i <= s.len(),
    ensures
        r is Some <==> spec_parse_string_body(s@, i as int) is Some,
        r matches Some(p) ==> spec_parse_string_body(s@, i as int) == Some((p.0@, p.1 as int))
            && p.1 <= s.len(),
    decreases s.len() - i,
{
    if i >= s.len() {
        return None;
    }
    let b: u8 = s[i];
    if b == 34 {
        let acc: Vec<u8> = Vec::new();
        assert(acc@ =~= Seq::<u8>::empty());
        return Some((acc, i + 1));
    }
    if b == 92 {
        if s.len() - i < 2 {
            return None;
        }
        let e: u8 = s[i + 1];
        if e == 117 {
            if s.len() - i < 6 {
                return None;
            }
            let h1 = hex_val(s[i + 2]);
            let h2 = hex_val(s[i + 3]);
            let h3 = hex_val(s[i + 4]);
            let h4 = hex_val(s[i + 5]);
            match (h1, h2, h3, h4) {
                (Some(a), Some(b2), Some(c), Some(d)) => {
                    let cp: u32 = (a as u32) * 4096 + (b2 as u32) * 256 + (c as u32) * 16 + (
                    d as u32);
                    assert(spec_hex4(s@, i as int + 2) == Some(cp as int));
                    if 0xD800 <= cp && cp < 0xDC00 {
                        if s.len() - i < 12 {
                            return None;
                        }
                        if s[i + 6] != 92 || s[i + 7] != 117 {
                            return None;
                        }
                        let g1 = hex_val(s[i + 8]);
                        let g2 = hex_val(s[i + 9]);
                        let g3 = hex_val(s[i + 10]);
                        let g4 = hex_val(s[i + 11]);
                        match (g1, g2, g3, g4) {
                            (Some(a2), Some(b3), Some(c2), Some(d2)) => {
                                let lo: u32 = (a2 as u32) * 4096 + (b3 as u32) * 256 + (
                                c2 as u32) * 16 + (d2 as u32);
                                assert(spec_hex4(s@, i as int + 8) == Some(lo as int));
                                if !(0xDC00 <= lo && lo < 0xE000) {
                                    return None;
                                }
                                let scalar: u32 = 0x10000 + (cp - 0xD800) * 0x400 + (lo
                                    - 0xDC00);
                                match parse_string_body(s, i + 12) {
                                    None => {
                                        return None;
                                    },
                                    Some((t, j)) => {
                                        let mut t2 = t;
                                        prepend_utf8(scalar, &mut t2);
                                        return Some((t2, j));
                                    },
                                }
                            },
                            _ => {
                                return None;
                            },
                        }
                    } else if 0xDC00 <= cp && cp < 0xE000 {
                        return None;
                    } else {
                        match parse_string_body(s, i + 6) {
                            None => {
                                return None;
                            },
                            Some((t, j)) => {
                                let mut t2 = t;
                                prepend_utf8(cp, &mut t2);
                                return Some((t2, j));
                            },
                        }
                    }
                },
                _ => {
                    return None;
                },
            }
        }
        let ub: Option<u8> = if e == 34 {
            Some(34u8)
        } else if e == 92 {
            Some(92u8)
        } else if e == 47 {
            Some(47u8)
        } else if e == 98 {
            Some(8u8)
        } else if e == 102 {
            Some(12u8)
        } else if e == 110 {
            Some(10u8)
        } else if e == 114 {
            Some(13u8)
        } else if e == 116 {
            Some(9u8)
        } else {
            None
        };
        match ub {
            None => {
                return None;
            },
            Some(c) => {
                match parse_string_body(s, i + 2) {
                    None => {
                        return None;
                    },
                    Some((t, j)) => {
                        let mut t2 = t;
                        let ghost t0 = t2@;
                        t2.insert(0, c);
                        proof {
                            assert(t2@ =~= seq![c] + t0);
                        }
                        return Some((t2, j));
                    },
                }
            },
        }
    }
    if b < 32 {
        return None;
    }
    match parse_string_body(s, i + 1) {
        None => None,
        Some((t, j)) => {
            let mut t2 = t;
            let ghost t0 = t2@;
            t2.insert(0, b);
            proof {
                assert(t2@ =~= seq![b] + t0);
            }
            Some((t2, j))
        },
    }
}

fn digits_end(s: &Vec<u8>, j: usize) -> (e: usize)
    requires
        j <= s.len(),
    ensures
        e as int == spec_digits_end(s@, j as int),
        j <= e <= s.len(),
        forall|t: int| j <= t < e ==> is_digit(s@[t]),
{
    let mut e = j;
    while e < s.len() && 48 <= s[e] && s[e] <= 57
        invariant
            j <= e <= s.len(),
            spec_digits_end(s@, j as int) == spec_digits_end(s@, e as int),
            forall|t: int| j <= t < e ==> is_digit(s@[t]),
        decreases s.len() - e,
    {
        e = e + 1;
    }
    e
}

fn parse_number(s: &Vec<u8>, i: usize) -> (r: Option<(Json, usize)>)
    requires
        i < s.len(),
        s@[i as int] == 45 || is_digit(s@[i as int]),
    ensures
        r is Some <==> spec_parse_number(s@, i as int) is Some,
        r matches Some(p) ==> spec_parse_number(s@, i as int) == Some((p.0@, p.1 as int)) && p.1
            <= s.len(),
{
    let neg = s[i] == 45;
    let j = if neg { i + 1 } else { i };
    let e1 = digits_end(s, j);
    if e1 == j {
        return None;
    }
    if s[j] == 48 && e1 > j + 1 {
        return None;
    }
    let mut e2 = e1;
    if e1 < s.len() && s[e1] == 46 {
        let d = digits_end(s, e1 + 1);
        if d == e1 + 1 {
            assert(spec_frac_end(s@, e1 as int) is None);
            return None;
        }
        e2 = d;
    }
    assert(spec_frac_end(s@, e1 as int) == Some(e2 as int));
    let mut e3 = e2;
    if e2 < s.len() && (s[e2] == 101 || s[e2] == 69) {
        let p = if e2 + 1 < s.len() && (s[e2 + 1] == 43 || s[e2 + 1] == 45) {
            e2 + 2
        } else {
            e2 + 1
        };
        let d = digits_end(s, p);
        if d == p {
            assert(spec_exp_end(s@, e2 as int) is None);
            return None;
        }
        e3 = d;
    }
    assert(spec_exp_end(s@, e2 as int) == Some(e3 as int));
    if e2 != e1 || e3 != e2 {
        let tok = subvec(s, i, e3);
        return Some((Json::Num(tok), e3));
    }
    if e1 - j > 19 {
        proof {
            let d = s@.subrange(j as int, e1 as int);
            assert forall|x: int| 0 <= x < d.len() implies is_digit(d[x]) by {
                assert(d[x] == s@[j + x]);
            }
            assert(d[0] == s@[j as int]);
            crate::frame::lemma_dec_value_lower_pub(d);
            lemma_pow10_mono(19, (d.len() - 1) as nat);
            assert(spec_pow10(19) == 10000000000000000000) by {
                reveal_with_fuel(spec_pow10, 21);
            }
        }
        let tok = subvec(s, i, e1);
        return Some((Json::Num(tok), e1));
    }
    proof {
        lemma_dec_value_bound(s@.subrange(j as int, e1 as int));
    }
    let mut acc: u64 = 0;
    let mut k = j;
    proof {
        assert(s@.subrange(j as int, j as int) =~= Seq::<u8>::empty());
    }
    while k < e1
        invariant
            j <= k <= e1,
            e1 <= s.len(),
            e1 - j <= 19,
            forall|t: int| j <= t < e1 ==> is_digit(s@[t]),
            acc as int == spec_dec_value(s@.subrange(j as int, k as int)),
            (acc as int) < spec_pow10((k - j) as nat),
        decreases e1 - k,
    {
        proof {
            lemma_pow10_mono((k - j) as nat, 18);
            reveal_with_fuel(spec_pow10, 20);
            assert(spec_pow10(18) == 1000000000000000000);
        }
        let d: u8 = s[k] - 48;
        acc = acc * 10 + (d as u64);
        proof {
            assert(s@.subrange(j as int, k as int + 1).drop_last() =~= s@.subrange(
                j as int, k as int));
            assert(s@.subrange(j as int, k as int + 1).last() == s@[k as int]);
        }
        k = k + 1;
    }
    assert(acc as int == spec_dec_value(s@.subrange(j as int, e1 as int)));
    if neg {
        if acc > 9223372036854775808u64 {
            let tok = subvec(s, i, e1);
            return Some((Json::Num(tok), e1));
        }
        if acc == 9223372036854775808u64 {
            return Some((Json::Int(i64::MIN), e1));
        }
        return Some((Json::Int(-(acc as i64)), e1));
    } else {
        if acc > 9223372036854775807u64 {
            let tok = subvec(s, i, e1);
            return Some((Json::Num(tok), e1));
        }
        return Some((Json::Int(acc as i64), e1));
    }
}

fn parse_value(s: &Vec<u8>, i: usize, fuel: usize) -> (r: Option<(Json, usize)>)
    requires
        i <= s.len(),
    ensures
        r is Some <==> spec_parse_value(s@, i as int, fuel as nat) is Some,
        r matches Some(p) ==> spec_parse_value(s@, i as int, fuel as nat) == Some(
            (p.0@, p.1 as int),
        ) && p.1 <= s.len(),
    decreases fuel, 0nat,
{
    if fuel == 0 {
        return None;
    }
    let j = skip_ws(s, i);
    if j >= s.len() {
        return None;
    }
    let b: u8 = s[j];
    if b == 110 {
        if s.len() - j >= 4 && s[j + 1] == 117 && s[j + 2] == 108 && s[j + 3] == 108 {
            return Some((Json::Null, j + 4));
        }
        return None;
    }
    if b == 116 {
        if s.len() - j >= 4 && s[j + 1] == 114 && s[j + 2] == 117 && s[j + 3] == 101 {
            return Some((Json::Bool(true), j + 4));
        }
        return None;
    }
    if b == 102 {
        if s.len() - j >= 5 && s[j + 1] == 97 && s[j + 2] == 108 && s[j + 3] == 115 && s[j + 4]
            == 101 {
            return Some((Json::Bool(false), j + 5));
        }
        return None;
    }
    if b == 34 {
        match parse_string_body(s, j + 1) {
            None => {
                return None;
            },
            Some((t, p)) => {
                return Some((Json::Str(t), p));
            },
        }
    }
    if b == 45 || (48 <= b && b <= 57) {
        match parse_number(s, j) {
            None => {
                return None;
            },
            Some((n, p)) => {
                return Some((n, p));
            },
        }
    }
    if b == 91 {
        let k = skip_ws(s, j + 1);
        if k < s.len() && s[k] == 93 {
            let a: Vec<Json> = Vec::new();
            proof {
                assert(json_views(a@) =~= Seq::<JsonView>::empty());
            }
            return Some((Json::Arr(a), k + 1));
        }
        match parse_items(s, j + 1, fuel - 1) {
            None => {
                return None;
            },
            Some((items, p)) => {
                return Some((Json::Arr(items), p));
            },
        }
    }
    if b == 123 {
        let k = skip_ws(s, j + 1);
        if k < s.len() && s[k] == 125 {
            let m: Vec<(Vec<u8>, Json)> = Vec::new();
            proof {
                assert(member_views(m@) =~= Seq::<(Seq<u8>, JsonView)>::empty());
            }
            return Some((Json::Obj(m), k + 1));
        }
        match parse_members(s, j + 1, fuel - 1) {
            None => {
                return None;
            },
            Some((members, p)) => {
                return Some((Json::Obj(members), p));
            },
        }
    }
    None
}

fn parse_items(s: &Vec<u8>, i: usize, fuel: usize) -> (r: Option<(Vec<Json>, usize)>)
    requires
        i <= s.len(),
    ensures
        r is Some <==> spec_parse_items(s@, i as int, fuel as nat) is Some,
        r matches Some(p) ==> spec_parse_items(s@, i as int, fuel as nat) == Some(
            (json_views(p.0@), p.1 as int),
        ) && p.1 <= s.len(),
    decreases fuel, 1nat,
{
    if fuel == 0 {
        return None;
    }
    match parse_value(s, i, fuel) {
        None => {
            return None;
        },
        Some((v, j2)) => {
            let k = skip_ws(s, j2);
            if k < s.len() && s[k] == 44 {
                match parse_items(s, k + 1, fuel - 1) {
                    None => {
                        return None;
                    },
                    Some((rest, p)) => {
                        let mut rest2 = rest;
                        let ghost r0 = rest2@;
                        rest2.insert(0, v);
                        proof {
                            assert(rest2@ =~= seq![v] + r0);
                            lemma_json_views_cons(v, r0);
                        }
                        return Some((rest2, p));
                    },
                }
            } else if k < s.len() && s[k] == 93 {
                let mut one: Vec<Json> = Vec::new();
                one.push(v);
                proof {
                    assert(one@ =~= seq![v]);
                    lemma_json_views_cons(v, Seq::empty());
                    assert(seq![v] + Seq::<Json>::empty() =~= seq![v]);
                    assert(json_views(one@) =~= seq![json_view(v)]);
                }
                return Some((one, k + 1));
            } else {
                return None;
            }
        },
    }
}

fn parse_members(s: &Vec<u8>, i: usize, fuel: usize) -> (r: Option<(Vec<(Vec<u8>, Json)>, usize)>)
    requires
        i <= s.len(),
    ensures
        r is Some <==> spec_parse_members(s@, i as int, fuel as nat) is Some,
        r matches Some(p) ==> spec_parse_members(s@, i as int, fuel as nat) == Some(
            (member_views(p.0@), p.1 as int),
        ) && p.1 <= s.len(),
    decreases fuel, 1nat,
{
    if fuel == 0 {
        return None;
    }
    let j = skip_ws(s, i);
    if j < s.len() && s[j] == 34 {
        match parse_string_body(s, j + 1) {
            None => {
                return None;
            },
            Some((key, p1)) => {
                let c = skip_ws(s, p1);
                if c < s.len() && s[c] == 58 {
                    match parse_value(s, c + 1, fuel) {
                        None => {
                            return None;
                        },
                        Some((v, p2)) => {
                            let k = skip_ws(s, p2);
                            if k < s.len() && s[k] == 44 {
                                match parse_members(s, k + 1, fuel - 1) {
                                    None => {
                                        return None;
                                    },
                                    Some((rest, p3)) => {
                                        let mut rest2 = rest;
                                        let ghost r0 = rest2@;
                                        rest2.insert(0, (key, v));
                                        proof {
                                            assert(rest2@ =~= seq![(key, v)] + r0);
                                            lemma_member_views_cons(key, v, r0);
                                        }
                                        return Some((rest2, p3));
                                    },
                                }
                            } else if k < s.len() && s[k] == 125 {
                                let mut one: Vec<(Vec<u8>, Json)> = Vec::new();
                                let ghost gk = key@;
                                let ghost gv = json_view(v);
                                one.push((key, v));
                                proof {
                                    lemma_member_views_cons(one@[0].0, one@[0].1, Seq::empty());
                                    assert(one@ =~= seq![one@[0]]);
                                    assert(seq![one@[0]] + Seq::<(Vec<u8>, Json)>::empty()
                                        =~= one@);
                                    assert(member_views(one@) =~= seq![(gk, gv)]);
                                }
                                return Some((one, k + 1));
                            } else {
                                return None;
                            }
                        },
                    }
                } else {
                    return None;
                }
            },
        }
    } else {
        return None;
    }
}

/// Parses one complete JSON document: succeeds exactly when
/// `spec_parse_json` accepts the bytes, and returns the value the grammar
/// gives them.
pub fn parse_json(s: &Vec<u8>) -> (r: Option<Json>)
    requires
        s@.len() < usize::MAX,
    ensures
        r is Some <==> spec_parse_json(s@) is Some,
        r matches Some(v) ==> spec_parse_json(s@) == Some(v@),
{
    match parse_value(s, 0, s.len() + 1) {
        None => None,
        Some((v, p)) => {
            let k = skip_ws(s, p);
            if k == s.len() {
                Some(v)
            } else {
                None
            }
        },
    }
}

proof fn lemma_digits_end_scan(s: Seq<u8>, j: int, tgt: int)
    requires
        0 <= j <= tgt <= s.len(),
        forall|k: int| j <= k < tgt ==> is_digit(s[k]),
        tgt < s.len() ==> !is_digit(s[tgt]),
    ensures
        spec_digits_end(s, j) == tgt,
    decreases tgt - j,
{
    if j < tgt {
        lemma_digits_end_scan(s, j + 1, tgt);
    }
}

proof fn lemma_dec_bytes_first(n: nat)
    ensures
        n > 0 ==> spec_dec_bytes(n)[0] != 48,
    decreases n,
{
    if n >= 10 {
        lemma_dec_bytes_first(n / 10);
        crate::frame::lemma_dec_bytes_digits(n / 10);
        assert(spec_dec_bytes(n)[0] == spec_dec_bytes(n / 10)[0]);
    }
}

proof fn lemma_hex_of_digit(d: nat)
    requires
        d < 16,
    ensures
        spec_hex_val(crate::json::spec_hex_digit(d)) == Some(d as int),
{
}

proof fn lemma_parse_escaped_body(w: Seq<u8>, i: int, s: Seq<u8>)
    requires
        0 <= i,
        i + crate::json::spec_escape(s).len() + 1 <= w.len(),
        forall|t: int| 0 <= t < crate::json::spec_escape(s).len() ==> w[i + t]
            == #[trigger] crate::json::spec_escape(s)[t],
        w[i + crate::json::spec_escape(s).len()] == 34,
    ensures
        spec_parse_string_body(w, i) == Some((s, i + crate::json::spec_escape(s).len() + 1)),
    decreases s.len(),
{
    let esc = crate::json::spec_escape(s);
    if s.len() == 0 {
        assert(esc.len() == 0);
        assert(w[i + 0] == 34);
    } else {
        let b = s[0];
        let eb = crate::json::spec_escape_byte(b);
        let s2 = s.drop_first();
        let rest = crate::json::spec_escape(s2);
        assert(esc == eb + rest);
        assert forall|t: int| 0 <= t < eb.len() implies w[i + t] == #[trigger] eb[t] by {
            assert(esc[t] == eb[t]);
        }
        let i2 = i + eb.len();
        assert forall|t: int| 0 <= t < rest.len() implies w[i2 + t] == #[trigger] rest[t] by {
            assert(w[i + (eb.len() + t)] == esc[eb.len() + t]);
            assert(esc[eb.len() + t] == rest[t]);
        }
        assert(w[i2 + rest.len() as int] == 34) by {
            assert(i2 + rest.len() == i + esc.len());
        }
        lemma_parse_escaped_body(w, i2, s2);
        assert(spec_parse_string_body(w, i2) == Some((s2, i2 + rest.len() + 1)));
        if 32 <= b && b != 34 && b != 92 {
            assert(eb == seq![b]);
            assert(eb[0] == b);
            assert(w[i + 0] == eb[0]);
            assert(seq![b] + s2 =~= s);
        } else if b == 34 || b == 92 || b == 8 || b == 9 || b == 10 || b == 12 || b == 13 {
            assert(eb.len() == 2 && eb[0] == 92);
            assert(w[i + 0] == 92 && w[i + 1] == eb[1]);
            assert(eb[1] != 117);
            assert(spec_unescape(eb[1]) == Some(b));
            assert(seq![b] + s2 =~= s);
        } else {
            assert(b < 32);
            assert(eb.len() == 6);
            assert(eb[0] == 92 && eb[1] == 117 && eb[2] == 48 && eb[3] == 48);
            assert(eb[4] == crate::json::spec_hex_digit((b / 16) as nat));
            assert(eb[5] == crate::json::spec_hex_digit((b % 16) as nat));
            assert(w[i + 0] == 92 && w[i + 1] == 117);
            lemma_hex_of_digit((b / 16) as nat);
            lemma_hex_of_digit((b % 16) as nat);
            assert(spec_hex_val(w[i + 2]) == Some(0int));
            assert(spec_hex_val(w[i + 3]) == Some(0int));
            assert(spec_hex_val(w[i + 4]) == Some((b / 16) as int));
            assert(spec_hex_val(w[i + 5]) == Some((b % 16) as int));
            assert(spec_hex4(w, i + 2) == Some(b as int));
            assert(!(0xD800 <= (b as int) && (b as int) < 0xDC00));
            assert(spec_utf8_enc(b as int) == seq![b]);
            assert(seq![b] + s2 =~= s);
        }
    }
}

/// Values whose serialization this grammar reads back unchanged: every
/// value built of null, booleans, 64-bit integers, strings (any content)
/// and nested arrays and objects — all a caller of this library can
/// construct. The one exclusion is an opaque `Num` token, which only
/// parsing itself produces.
pub open spec fn spec_clean_json(v: JsonView) -> bool
    decreases v,
{
    match v {
        JsonView::Null => true,
        JsonView::Bool(_) => true,
        JsonView::Int(i) => i64::MIN <= i <= i64::MAX,
        JsonView::Num(_) => false,
        JsonView::Str(_) => true,
        JsonView::Arr(a) => forall|k: int| 0 <= k < a.len() ==> spec_clean_json(#[trigger] a[k]),
        JsonView::Obj(m) => forall|k: int|
            0 <= k < m.len() ==> spec_clean_json(#[trigger] m[k].1),
    }
}

proof fn lemma_json_bytes_first(v: JsonView)
    requires
        spec_clean_json(v),
    ensures
        json_bytes(v).len() >= 1,
        !is_ws(json_bytes(v)[0]),
        json_bytes(v)[0] != 93,
        json_bytes(v)[0] != 44,
        json_bytes(v)[0] != 125,
        json_bytes(v)[0] != 58,
{
    match v {
        JsonView::Int(i) => {
            let n = (if i < 0 { -i } else { i }) as nat;
            crate::frame::lemma_dec_bytes_digits(n);
            if i >= 0 {
                assert(json_bytes(v)[0] == spec_dec_bytes(n)[0]);
                assert(is_digit(spec_dec_bytes(n)[0]));
            }
        },
        JsonView::Num(_) => {
            assert(false);
        },
        _ => {},
    }
}

proof fn lemma_parse_int_at(w: Seq<u8>, i: int, num: int)
    requires
        i64::MIN <= num <= i64::MAX,
        0 <= i,
        i + json_bytes(JsonView::Int(num)).len() <= w.len(),
        forall|t: int| 0 <= t < json_bytes(JsonView::Int(num)).len() ==> w[i + t]
            == #[trigger] json_bytes(JsonView::Int(num))[t],
        i + json_bytes(JsonView::Int(num)).len() < w.len() ==> !is_num_extender(
            w[i + json_bytes(JsonView::Int(num)).len()],
        ),
    ensures
        spec_parse_number(w, i) == Some(
            (JsonView::Int(num), i + json_bytes(JsonView::Int(num)).len()),
        ),
{
    let b = json_bytes(JsonView::Int(num));
    let blen = b.len() as int;
    let neg = num < 0;
    let n = (if num < 0 { -num } else { num }) as nat;
    let d = spec_dec_bytes(n);
    crate::frame::lemma_dec_bytes_digits(n);
    crate::frame::lemma_dec_value_of_dec_bytes(n);
    lemma_dec_bytes_first(n);
    lemma_dec_value_bound(d);
    if d.len() >= 20 && n > 0 {
        crate::frame::lemma_dec_value_lower_pub(d);
        lemma_pow10_mono(19, (d.len() - 1) as nat);
        assert(spec_pow10(19) == 10000000000000000000) by {
            reveal_with_fuel(spec_pow10, 21);
        }
        assert(false);
    }
    assert(d.len() <= 19);
    let j: int = if neg { i + 1 } else { i };
    assert(b =~= (if neg { seq![45u8] + d } else { d }));
    assert forall|t: int| 0 <= t < d.len() implies w[j + t] == d[t] by {
        assert(w[i + (j - i + t)] == b[j - i + t]);
    }
    assert forall|k: int| j <= k < i + blen implies is_digit(w[k]) by {
        assert(w[j + (k - j)] == d[k - j]);
    }
    lemma_digits_end_scan(w, j, i + blen);
    assert(spec_digits_end(w, j) == i + blen);
    assert(w.subrange(j, i + blen) =~= d);
    if n > 0 {
        assert(w[j + 0] == d[0]);
    } else {
        assert(d.len() == 1);
    }
    if i + blen < w.len() {
        assert(!is_num_extender(w[i + blen]));
    }
    assert(spec_frac_end(w, i + blen) == Some(i + blen));
    assert(spec_exp_end(w, i + blen) == Some(i + blen));
    assert(w[i + 0] == b[0]);
    if neg {
        assert(b[0] == 45);
        assert(w[i] == 45);
    } else {
        assert(b[0] == d[0]);
        assert(is_digit(w[i]) && w[i] != 45);
    }
    assert(spec_dec_value(w.subrange(j, i + blen)) == n);
    assert(spec_parse_number(w, i) == Some((JsonView::Int(num), i + blen)));
}

/// A byte that could extend a number token if it stood right after one.
pub open spec fn is_num_extender(b: u8) -> bool {
    is_digit(b) || b == 46 || b == 101 || b == 69
}

#[verifier::rlimit(60)]
proof fn lemma_parse_value_at(w: Seq<u8>, i: int, v: JsonView, fuel: nat)
    requires
        spec_clean_json(v),
        0 <= i,
        i + json_bytes(v).len() <= w.len(),
        forall|t: int| 0 <= t < json_bytes(v).len() ==> w[i + t] == #[trigger] json_bytes(v)[t],
        i + json_bytes(v).len() < w.len() ==> !is_num_extender(w[i + json_bytes(v).len()]),
        fuel >= w.len() - i + 1,
    ensures
        spec_parse_value(w, i, fuel) == Some((v, i + json_bytes(v).len())),
    decreases v, 0nat,
{
    let b = json_bytes(v);
    let blen = b.len() as int;
    lemma_json_bytes_first(v);
    assert(w[i + 0] == b[0]);
    assert(spec_skip_ws(w, i) == i);
    match v {
        JsonView::Null => {
            assert(b.len() == 4 && b[0] == 110 && b[1] == 117 && b[2] == 108 && b[3] == 108);
            assert(w[i + 1] == b[1] && w[i + 2] == b[2] && w[i + 3] == b[3]);
            assert(spec_parse_value(w, i, fuel) == Some((v, i + 4)));
        },
        JsonView::Bool(b2) => {
            if b2 {
                assert(w[i + 1] == b[1] && w[i + 2] == b[2] && w[i + 3] == b[3]);
            } else {
                assert(w[i + 1] == b[1] && w[i + 2] == b[2] && w[i + 3] == b[3] && w[i + 4]
                    == b[4]);
            }
            assert(spec_parse_value(w, i, fuel) == Some((v, i + blen)));
        },
        JsonView::Int(num) => {
            lemma_parse_int_at(w, i, num);
            assert(spec_parse_value(w, i, fuel) == Some((v, i + blen)));
        },
        JsonView::Num(_) => {
            assert(false);
        },
        JsonView::Str(s) => {
            let esc = crate::json::spec_escape(s);
            assert(b == seq![34u8] + esc + seq![34u8]);
            assert forall|t: int| 0 <= t < esc.len() implies w[i + 1 + t] == #[trigger] esc[t] by {
                assert(w[i + (1 + t)] == b[1 + t]);
            }
            assert(w[i + (1 + esc.len() as int)] == b[1 + esc.len() as int]);
            assert(w[i + 1 + esc.len() as int] == 34);
            lemma_parse_escaped_body(w, i + 1, s);
            assert(spec_parse_value(w, i, fuel) == Some((v, i + blen)));
        },
        JsonView::Arr(a) => {
            assert(w[i] == 91);
            if a.len() == 0 {
                assert(spec_arr_items(a) == Seq::<u8>::empty());
                assert(b.len() == 2);
                assert(b[1] == 93);
                assert(w[i + 1] == b[1]);
                assert(spec_skip_ws(w, i + 1) == i + 1);
                assert(a =~= Seq::<JsonView>::empty());
            } else {
                let items = spec_arr_items(a);
                assert(b == seq![91u8] + items + seq![93u8]);
                lemma_json_bytes_first(a[0]);
                if a.len() == 1 {
                    assert(items == json_bytes(a[0]));
                } else {
                    assert(items == json_bytes(a[0]) + seq![44u8] + spec_arr_items(
                        a.drop_first()));
                }
                assert(items.len() >= 1);
                assert(items[0] == json_bytes(a[0])[0]);
                assert(w[i + 1] == b[1] && b[1] == items[0]);
                assert(spec_skip_ws(w, i + 1) == i + 1);
                assert(w[i + 1] != 93);
                assert forall|t: int| 0 <= t < items.len() implies w[i + 1 + t] == #[trigger] items[t] by {
                    assert(w[i + (1 + t)] == b[1 + t]);
                }
                assert(w[i + (1 + items.len() as int)] == b[1 + items.len() as int]);
                assert(w[i + 1 + items.len() as int] == 93);
                lemma_parse_items_at(w, i + 1, a, (fuel - 1) as nat);
                assert(i + 1 + items.len() + 1 == i + blen);
            }
            assert(spec_parse_value(w, i, fuel) == Some((v, i + blen)));
        },
        JsonView::Obj(m) => {
            assert(w[i] == 123);
            if m.len() == 0 {
                assert(spec_obj_members(m) == Seq::<u8>::empty());
                assert(b.len() == 2);
                assert(b[1] == 125);
                assert(w[i + 1] == b[1]);
                assert(spec_skip_ws(w, i + 1) == i + 1);
                assert(m =~= Seq::<(Seq<u8>, JsonView)>::empty());
            } else {
                let mem = spec_obj_members(m);
                assert(b == seq![123u8] + mem + seq![125u8]);
                assert(mem.len() >= 1);
                assert(mem[0] == spec_string_bytes(m[0].0)[0]);
                assert(spec_string_bytes(m[0].0)[0] == 34);
                assert(w[i + 1] == b[1] && b[1] == mem[0]);
                assert(spec_skip_ws(w, i + 1) == i + 1);
                assert(w[i + 1] != 125);
                assert forall|t: int| 0 <= t < mem.len() implies w[i + 1 + t] == #[trigger] mem[t] by {
                    assert(w[i + (1 + t)] == b[1 + t]);
                }
                assert(w[i + (1 + mem.len() as int)] == b[1 + mem.len() as int]);
                assert(w[i + 1 + mem.len() as int] == 125);
                lemma_parse_members_at(w, i + 1, m, (fuel - 1) as nat);
                assert(i + 1 + mem.len() + 1 == i + blen);
            }
            assert(spec_parse_value(w, i, fuel) == Some((v, i + blen)));
        },
    }
}

proof fn lemma_parse_items_at(w: Seq<u8>, i: int, a: Seq<JsonView>, fuel: nat)
    requires
        a.len() >= 1,
        forall|k: int| 0 <= k < a.len() ==> spec_clean_json(#[trigger] a[k]),
        0 <= i,
        i + spec_arr_items(a).len() < w.len(),
        forall|t: int| 0 <= t < spec_arr_items(a).len() ==> w[i + t] == #[trigger] spec_arr_items(
            a,
        )[t],
        w[i + spec_arr_items(a).len()] == 93,
        fuel >= w.len() - i + 1,
    ensures
        spec_parse_items(w, i, fuel) == Some((a, i + spec_arr_items(a).len() + 1)),
    decreases a, 1nat,
{
    let items = spec_arr_items(a);
    let v0 = a[0];
    let b0 = json_bytes(v0);
    lemma_json_bytes_first(v0);
    if a.len() == 1 {
        assert(items == b0);
        lemma_parse_value_at(w, i, v0, fuel);
        assert(spec_skip_ws(w, i + b0.len() as int) == i + b0.len());
        assert(w[i + b0.len() as int] == 93);
        assert(seq![v0] =~= a);
    } else {
        let rest = a.drop_first();
        let items_r = spec_arr_items(rest);
        assert(items == b0 + seq![44u8] + items_r);
        assert forall|t: int| 0 <= t < b0.len() implies w[i + t] == #[trigger] b0[t] by {
            assert(items[t] == b0[t]);
        }
        assert(w[i + b0.len() as int] == items[b0.len() as int]);
        assert(w[i + b0.len() as int] == 44);
        lemma_parse_value_at(w, i, v0, fuel);
        assert(spec_skip_ws(w, i + b0.len() as int) == i + b0.len());
        let i2 = i + b0.len() + 1;
        assert forall|k: int| 0 <= k < rest.len() implies spec_clean_json(#[trigger] rest[k]) by {
            assert(rest[k] == a[k + 1]);
        }
        assert forall|t: int| 0 <= t < items_r.len() implies w[i2 + t] == #[trigger] items_r[t] by {
            assert(w[i + (b0.len() + 1 + t)] == items[b0.len() + 1 + t]);
            assert(items[b0.len() + 1 + t] == items_r[t]);
        }
        assert(w[i + items.len() as int] == 93);
        assert(i2 + items_r.len() == i + items.len());
        lemma_parse_items_at(w, i2, rest, (fuel - 1) as nat);
        assert(seq![v0] + rest =~= a);
    }
}

proof fn lemma_parse_members_at(w: Seq<u8>, i: int, m: Seq<(Seq<u8>, JsonView)>, fuel: nat)
    requires
        m.len() >= 1,
        forall|k: int| 0 <= k < m.len() ==> spec_clean_json(#[trigger] m[k].1),
        0 <= i,
        i + spec_obj_members(m).len() < w.len(),
        forall|t: int| 0 <= t < spec_obj_members(m).len() ==> w[i + t] == #[trigger] spec_obj_members(
            m,
        )[t],
        w[i + spec_obj_members(m).len()] == 125,
        fuel >= w.len() - i + 1,
    ensures
        spec_parse_members(w, i, fuel) == Some((m, i + spec_obj_members(m).len() + 1)),
    decreases m, 1nat,
{
    let mem = spec_obj_members(m);
    let key = m[0].0;
    let v0 = m[0].1;
    let kb = spec_string_bytes(key);
    let kesc = crate::json::spec_escape(key);
    let b0 = json_bytes(v0);
    assert(kb == seq![34u8] + kesc + seq![34u8]);
    let head = kb + seq![58u8] + b0;
    if m.len() == 1 {
        assert(mem == head);
    } else {
        assert(mem == head + seq![44u8] + spec_obj_members(m.drop_first()));
    }
    assert forall|t: int| 0 <= t < head.len() implies w[i + t] == #[trigger] head[t] by {
        assert(w[i + t] == mem[t]);
    }
    assert(w[i + 0] == head[0]);
    assert(head[0] == kb[0]);
    assert(kb[0] == 34);
    assert(spec_skip_ws(w, i) == i);
    assert forall|t: int| 0 <= t < kesc.len() implies w[i + 1 + t] == #[trigger] kesc[t] by {
        assert(w[i + (1 + t)] == head[1 + t]);
        assert(head[1 + t] == kb[1 + t]);
        assert(kb[1 + t] == kesc[t]);
    }
    assert(w[i + (1 + kesc.len() as int)] == head[1 + kesc.len() as int]);
    assert(head[1 + kesc.len() as int] == kb[1 + kesc.len() as int]);
    assert(w[i + 1 + kesc.len() as int] == 34);
    lemma_parse_escaped_body(w, i + 1, key);
    let c0 = i + kb.len();
    assert(i + 1 + kesc.len() + 1 == c0);
    assert(spec_parse_string_body(w, i + 1) == Some((key, c0)));
    assert(w[i + kb.len() as int] == head[kb.len() as int]);
    assert(w[c0] == 58);
    assert(spec_skip_ws(w, c0) == c0);
    let iv = c0 + 1;
    lemma_json_bytes_first(v0);
    assert forall|t: int| 0 <= t < b0.len() implies w[iv + t] == #[trigger] b0[t] by {
        assert(w[i + (kb.len() + 1 + t)] == head[kb.len() + 1 + t]);
        assert(head[kb.len() + 1 + t] == b0[t]);
    }
    let after = iv + b0.len();
    assert(after == i + head.len());
    if m.len() == 1 {
        assert(w[after] == 125);
        lemma_parse_value_at(w, iv, v0, fuel);
        assert(spec_skip_ws(w, after) == after);
        assert(seq![(key, v0)] =~= m);
    } else {
        assert(w[after] == mem[head.len() as int]);
        assert(w[after] == 44);
        lemma_parse_value_at(w, iv, v0, fuel);
        assert(spec_skip_ws(w, after) == after);
        let rest = m.drop_first();
        let mem_r = spec_obj_members(rest);
        let i2 = after + 1;
        assert forall|k: int| 0 <= k < rest.len() implies spec_clean_json(
            #[trigger] rest[k].1,
        ) by {
            assert(rest[k] == m[k + 1]);
        }
        assert forall|t: int| 0 <= t < mem_r.len() implies w[i2 + t] == #[trigger] mem_r[t] by {
            assert(w[i + (head.len() + 1 + t)] == mem[head.len() + 1 + t]);
            assert(mem[head.len() + 1 + t] == mem_r[t]);
        }
        assert(w[i + mem.len() as int] == 125);
        assert(i2 + mem_r.len() == i + mem.len());
        lemma_parse_members_at(w, i2, rest, (fuel - 1) as nat);
        assert(seq![(key, v0)] + rest =~= m);
    }
}

/// The round trip: serializing any value a caller of this library can
/// build — null, booleans, 64-bit integers, strings of any content,
/// arrays and objects — and parsing the bytes back returns the value
/// unchanged, consuming the whole input. (An opaque `Num` token, which
/// only parsing itself produces, is the one leaf outside the law.)
pub proof fn lemma_round_trip(v: JsonView)
    requires
        spec_clean_json(v),
    ensures
        spec_parse_json(json_bytes(v)) == Some(v),
{
    let w = json_bytes(v);
    lemma_parse_value_at(w, 0, v, (w.len() + 1) as nat);
    assert(spec_skip_ws(w, w.len() as int) == w.len());
}

} // verus!
