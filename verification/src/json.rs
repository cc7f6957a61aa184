//! The JSON data model of the transport, and its serializer.
//!
//! A frame body is one JSON value. The model keeps strings as their raw
//! UTF-8 bytes and objects as ordered member lists, so that serialization is
//! a pure function from a value to the exact bytes put on the wire. The
//! mathematical model of a value is `JsonView`, a `Seq`-based tree; every
//! contract speaks of views.
use vstd::prelude::*;

verus! {

/// One JSON value. Strings hold their raw (unescaped) UTF-8 bytes; an object
/// is an ordered list of key/value members, serialized in list order.
/// A number is an `Int` when it is a plain signed 64-bit integer — the only
/// numbers the protocol payloads this transport builds ever need — and
/// otherwise a `Num`, which carries the number token's bytes opaquely
/// (fractions, exponents, and integers beyond 64 bits), so that any
/// RFC-8259 body passes through undamaged.
#[derive(Debug, PartialEq, Eq)]
pub enum Json {
    Null,
    Bool(bool),
    Int(i64),
    Num(Vec<u8>),
    Str(Vec<u8>),
    Arr(Vec<Json>),
    Obj(Vec<(Vec<u8>, Json)>),
}

/// The mathematical model of a JSON value.
#[verifier::ext_equal]
pub enum JsonView {
    Null,
    Bool(bool),
    Int(int),
    Num(Seq<u8>),
    Str(Seq<u8>),
    Arr(Seq<JsonView>),
    Obj(Seq<(Seq<u8>, JsonView)>),
}

/// The view of one value: the same tree over `Seq`.
pub open spec fn json_view(v: Json) -> JsonView
    decreases v,
{
    match v {
        Json::Null => JsonView::Null,
        Json::Bool(b) => JsonView::Bool(b),
        Json::Int(i) => JsonView::Int(i as int),
        Json::Num(t) => JsonView::Num(t@),
        Json::Str(s) => JsonView::Str(s@),
        Json::Arr(a) => JsonView::Arr(json_views(a@)),
        Json::Obj(m) => JsonView::Obj(member_views(m@)),
    }
}

/// The views of a sequence of values, in order.
pub open spec fn json_views(s: Seq<Json>) -> Seq<JsonView>
    decreases s,
{
    if s.len() == 0 {
        Seq::empty()
    } else {
        seq![json_view(s[0])] + json_views(s.drop_first())
    }
}

/// The views of a sequence of object members, in order.
pub open spec fn member_views(m: Seq<(Vec<u8>, Json)>) -> Seq<(Seq<u8>, JsonView)>
    decreases m,
{
    if m.len() == 0 {
        Seq::empty()
    } else {
        seq![(m[0].0@, json_view(m[0].1))] + member_views(m.drop_first())
    }
}

impl View for Json {
    type V = JsonView;

    open spec fn view(&self) -> JsonView {
        json_view(*self)
    }
}

pub proof fn lemma_json_views_len(s: Seq<Json>)
    ensures
        json_views(s).len() == s.len(),
        forall|k: int| 0 <= k < s.len() ==> json_views(s)[k] == json_view(s[k]),
    decreases s,
{
    if s.len() > 0 {
        lemma_json_views_len(s.drop_first());
    }
}

pub proof fn lemma_member_views_len(m: Seq<(Vec<u8>, Json)>)
    ensures
        member_views(m).len() == m.len(),
        forall|k: int| 0 <= k < m.len() ==> member_views(m)[k] == (m[k].0@, json_view(m[k].1)),
    decreases m,
{
    if m.len() > 0 {
        lemma_member_views_len(m.drop_first());
    }
}

pub proof fn lemma_json_views_snoc(s: Seq<Json>, x: Json)
    ensures
        json_views(s.push(x)) == json_views(s).push(json_view(x)),
    decreases s,
{
    if s.len() == 0 {
        assert(s.push(x)[0] == x);
        assert(s.push(x).drop_first() =~= s);
        assert(json_views(s.push(x)) =~= json_views(s).push(json_view(x)));
    } else {
        assert(s.push(x).drop_first() =~= s.drop_first().push(x));
        lemma_json_views_snoc(s.drop_first(), x);
        assert(json_views(s.push(x)) =~= json_views(s).push(json_view(x)));
    }
}

pub proof fn lemma_member_views_snoc(m: Seq<(Vec<u8>, Json)>, k: Vec<u8>, x: Json)
    ensures
        member_views(m.push((k, x))) == member_views(m).push((k@, json_view(x))),
    decreases m,
{
    if m.len() == 0 {
        assert(m.push((k, x))[0] == (k, x));
        assert(m.push((k, x)).drop_first() =~= m);
        assert(member_views(m.push((k, x))) =~= member_views(m).push((k@, json_view(x))));
    } else {
        assert(m.push((k, x)).drop_first() =~= m.drop_first().push((k, x)));
        lemma_member_views_snoc(m.drop_first(), k, x);
        assert(member_views(m.push((k, x))) =~= member_views(m).push((k@, json_view(x))));
    }
}

/// The decimal digit byte for `d` (`0..=9`).
pub open spec fn spec_digit_byte(d: nat) -> u8 {
    (48 + d) as u8
}

/// The decimal digits of `n`, most significant first, no sign and no
/// leading zeros (a single `0` for zero).
pub open spec fn spec_dec_bytes(n: nat) -> Seq<u8>
    decreases n,
{
    if n < 10 {
        seq![spec_digit_byte(n)]
    } else {
        spec_dec_bytes(n / 10).push(spec_digit_byte(n % 10))
    }
}

/// The decimal rendering of a signed integer: a `-` sign for negatives,
/// then the digits of the magnitude.
pub open spec fn spec_int_bytes(i: int) -> Seq<u8> {
    if i < 0 {
        seq![45u8] + spec_dec_bytes((-i) as nat)
    } else {
        spec_dec_bytes(i as nat)
    }
}

/// The lower-case hexadecimal digit byte for `d` (`0..=15`).
pub open spec fn spec_hex_digit(d: nat) -> u8 {
    if d < 10 {
        (48 + d) as u8
    } else {
        (87 + d) as u8
    }
}

/// How one raw string byte appears inside a JSON string literal: the quote
/// and backslash bytes and the control bytes are escaped, everything else
/// passes through.
pub open spec fn spec_escape_byte(b: u8) -> Seq<u8> {
    if b == 34 {
        seq![92u8, 34u8]
    } else if b == 92 {
        seq![92u8, 92u8]
    } else if b == 8 {
        seq![92u8, 98u8]
    } else if b == 9 {
        seq![92u8, 116u8]
    } else if b == 10 {
        seq![92u8, 110u8]
    } else if b == 12 {
        seq![92u8, 102u8]
    } else if b == 13 {
        seq![92u8, 114u8]
    } else if b < 32 {
        seq![92u8, 117u8, 48u8, 48u8, spec_hex_digit((b / 16) as nat), spec_hex_digit((b % 16) as nat)]
    } else {
        seq![b]
    }
}

/// The escaped form of a whole string body.
pub open spec fn spec_escape(s: Seq<u8>) -> Seq<u8>
    decreases s.len(),
{
    if s.len() == 0 {
        Seq::empty()
    } else {
        spec_escape_byte(s[0]) + spec_escape(s.drop_first())
    }
}

/// A JSON string literal: quote, escaped body, quote.
pub open spec fn spec_string_bytes(s: Seq<u8>) -> Seq<u8> {
    seq![34u8] + spec_escape(s) + seq![34u8]
}

/// The exact serialization of a JSON value: compact (no whitespace), object
/// members in list order.
pub open spec fn json_bytes(v: JsonView) -> Seq<u8>
    decreases v,
{
    match v {
        JsonView::Null => seq![110u8, 117u8, 108u8, 108u8],
        JsonView::Bool(b) => if b {
            seq![116u8, 114u8, 117u8, 101u8]
        } else {
            seq![102u8, 97u8, 108u8, 115u8, 101u8]
        },
        JsonView::Int(i) => spec_int_bytes(i),
        JsonView::Num(t) => t,
        JsonView::Str(s) => spec_string_bytes(s),
        JsonView::Arr(a) => seq![91u8] + spec_arr_items(a) + seq![93u8],
        JsonView::Obj(m) => seq![123u8] + spec_obj_members(m) + seq![125u8],
    }
}

/// The comma-separated serializations of array items.
pub open spec fn spec_arr_items(s: Seq<JsonView>) -> Seq<u8>
    decreases s,
{
    if s.len() == 0 {
        Seq::empty()
    } else if s.len() == 1 {
        json_bytes(s[0])
    } else {
        json_bytes(s[0]) + seq![44u8] + spec_arr_items(s.drop_first())
    }
}

/// The comma-separated serializations of object members, each one
/// `"key":value`.
pub open spec fn spec_obj_members(m: Seq<(Seq<u8>, JsonView)>) -> Seq<u8>
    decreases m,
{
    if m.len() == 0 {
        Seq::empty()
    } else if m.len() == 1 {
        spec_string_bytes(m[0].0) + seq![58u8] + json_bytes(m[0].1)
    } else {
        spec_string_bytes(m[0].0) + seq![58u8] + json_bytes(m[0].1) + seq![44u8]
            + spec_obj_members(m.drop_first())
    }
}

proof fn lemma_escape_snoc(s: Seq<u8>, b: u8)
    ensures
        spec_escape(s.push(b)) == spec_escape(s) + spec_escape_byte(b),
    decreases s.len(),
{
    if s.len() == 0 {
        assert(s.push(b).drop_first() =~= s);
        assert(spec_escape(s.push(b)) =~= spec_escape(s) + spec_escape_byte(b));
    } else {
        assert(s.push(b).drop_first() =~= s.drop_first().push(b));
        lemma_escape_snoc(s.drop_first(), b);
        assert(spec_escape(s.push(b)) =~= spec_escape(s) + spec_escape_byte(b));
    }
}

proof fn lemma_arr_items_snoc(s: Seq<JsonView>, x: JsonView)
    ensures
        spec_arr_items(s.push(x)) == if s.len() == 0 {
            json_bytes(x)
        } else {
            spec_arr_items(s) + seq![44u8] + json_bytes(x)
        },
    decreases s.len(),
{
    let t = s.push(x);
    if s.len() == 0 {
        assert(t.len() == 1 && t[0] == x);
    } else if s.len() == 1 {
        assert(t.drop_first() =~= seq![x]);
        assert(t[0] == s[0]);
        assert(spec_arr_items(t.drop_first()) == json_bytes(x));
        assert(spec_arr_items(s) == json_bytes(s[0]));
        assert(spec_arr_items(t) =~= spec_arr_items(s) + seq![44u8] + json_bytes(x));
    } else {
        assert(t.drop_first() =~= s.drop_first().push(x));
        lemma_arr_items_snoc(s.drop_first(), x);
        assert(spec_arr_items(t) =~= spec_arr_items(s) + seq![44u8] + json_bytes(x));
    }
}

proof fn lemma_obj_members_snoc(m: Seq<(Seq<u8>, JsonView)>, k: Seq<u8>, x: JsonView)
    ensures
        spec_obj_members(m.push((k, x))) == if m.len() == 0 {
            spec_string_bytes(k) + seq![58u8] + json_bytes(x)
        } else {
            spec_obj_members(m) + seq![44u8] + spec_string_bytes(k) + seq![58u8] + json_bytes(x)
        },
    decreases m.len(),
{
    let t = m.push((k, x));
    if m.len() == 0 {
        assert(t.len() == 1 && t[0] == (k, x));
        assert(spec_obj_members(t) =~= spec_string_bytes(k) + seq![58u8] + json_bytes(x));
    } else if m.len() == 1 {
        assert(t.drop_first() =~= seq![(k, x)]);
        assert(t[0] == m[0]);
        assert(spec_obj_members(t.drop_first()) == spec_string_bytes(k) + seq![58u8]
            + json_bytes(x));
        assert(spec_obj_members(m) == spec_string_bytes(m[0].0) + seq![58u8] + json_bytes(m[0].1));
        assert(spec_obj_members(t) =~= spec_obj_members(m) + seq![44u8] + spec_string_bytes(k)
            + seq![58u8] + json_bytes(x));
    } else {
        assert(t.drop_first() =~= m.drop_first().push((k, x)));
        lemma_obj_members_snoc(m.drop_first(), k, x);
        assert(spec_obj_members(t) =~= spec_obj_members(m) + seq![44u8] + spec_string_bytes(k)
            + seq![58u8] + json_bytes(x));
    }
}

/// Escaping passes a string through unchanged when it holds none of the
/// escaped bytes: nothing below space, no quote, no backslash.
pub proof fn lemma_escape_plain(s: Seq<u8>)
    requires
        forall|t: int| 0 <= t < s.len() ==> 32 <= #[trigger] s[t] && s[t] != 34 && s[t] != 92,
    ensures
        spec_escape(s) == s,
    decreases s.len(),
{
    if s.len() == 0 {
        assert(spec_escape(s) =~= s);
    } else {
        lemma_escape_plain(s.drop_first());
        assert(spec_escape_byte(s[0]) == seq![s[0]]);
        assert(spec_escape(s) =~= s);
    }
}

pub(crate) fn write_u64_dec(n: u64, out: &mut Vec<u8>)
    ensures
        final(out)@ == old(out)@ + spec_dec_bytes(n as nat),
    decreases n,
{
    if n < 10 {
        out.push((48 + n) as u8);
        assert(out@ =~= old(out)@ + spec_dec_bytes(n as nat));
    } else {
        write_u64_dec(n / 10, out);
        out.push((48 + n % 10) as u8);
        assert(out@ =~= old(out)@ + spec_dec_bytes(n as nat));
    }
}

fn write_int(i: i64, out: &mut Vec<u8>)
    ensures
        final(out)@ == old(out)@ + spec_int_bytes(i as int),
{
    if i < 0 {
        out.push(45u8);
        let m: u64 = ((-(i + 1)) as u64) + 1;
        assert(m as nat == (-(i as int)) as nat);
        write_u64_dec(m, out);
        assert(out@ =~= old(out)@ + spec_int_bytes(i as int));
    } else {
        write_u64_dec(i as u64, out);
        assert(out@ =~= old(out)@ + spec_int_bytes(i as int));
    }
}

fn write_escaped(s: &Vec<u8>, out: &mut Vec<u8>)
    ensures
        final(out)@ == old(out)@ + spec_escape(s@),
{
    let mut i: usize = 0;
    while i < s.len()
        invariant
            i <= s.len(),
            out@ == old(out)@ + spec_escape(s@.take(i as int)),
        decreases s.len() - i,
    {
        let b: u8 = s[i];
        if b == 34 {
            out.push(92u8);
            out.push(34u8);
        } else if b == 92 {
            out.push(92u8);
            out.push(92u8);
        } else if b == 8 {
            out.push(92u8);
            out.push(98u8);
        } else if b == 9 {
            out.push(92u8);
            out.push(116u8);
        } else if b == 10 {
            out.push(92u8);
            out.push(110u8);
        } else if b == 12 {
            out.push(92u8);
            out.push(102u8);
        } else if b == 13 {
            out.push(92u8);
            out.push(114u8);
        } else if b < 32 {
            out.push(92u8);
            out.push(117u8);
            out.push(48u8);
            out.push(48u8);
            let hi: u8 = b / 16;
            let lo: u8 = b % 16;
            out.push(if hi < 10 { 48 + hi } else { 87 + hi });
            out.push(if lo < 10 { 48 + lo } else { 87 + lo });
        } else {
            out.push(b);
        }
        proof {
            lemma_escape_snoc(s@.take(i as int), s@[i as int]);
            assert(s@.take(i as int).push(s@[i as int]) =~= s@.take(i as int + 1));
            assert(out@ =~= old(out)@ + spec_escape(s@.take(i as int + 1)));
        }
        i = i + 1;
    }
    assert(s@.take(s.len() as int) =~= s@);
}

fn write_string_lit(s: &Vec<u8>, out: &mut Vec<u8>)
    ensures
        final(out)@ == old(out)@ + spec_string_bytes(s@),
{
    out.push(34u8);
    write_escaped(s, out);
    out.push(34u8);
    assert(out@ =~= old(out)@ + spec_string_bytes(s@));
}

/// Appends the exact serialization of `v` to `out`.
pub fn write_json(v: &Json, out: &mut Vec<u8>)
    ensures
        final(out)@ == old(out)@ + json_bytes(v@),
    decreases v,
{
    match v {
        Json::Null => {
            out.push(110u8);
            out.push(117u8);
            out.push(108u8);
            out.push(108u8);
            assert(out@ =~= old(out)@ + json_bytes(v@));
        },
        Json::Bool(b) => {
            if *b {
                out.push(116u8);
                out.push(114u8);
                out.push(117u8);
                out.push(101u8);
            } else {
                out.push(102u8);
                out.push(97u8);
                out.push(108u8);
                out.push(115u8);
                out.push(101u8);
            }
            assert(out@ =~= old(out)@ + json_bytes(v@));
        },
        Json::Int(i) => {
            write_int(*i, out);
        },
        Json::Num(t) => {
            let mut k: usize = 0;
            while k < t.len()
                invariant
                    k <= t.len(),
                    out@ == old(out)@ + t@.take(k as int),
                decreases t.len() - k,
            {
                out.push(t[k]);
                proof {
                    assert(t@.take(k as int).push(t@[k as int]) =~= t@.take(k as int + 1));
                }
                k = k + 1;
            }
            proof {
                assert(t@.take(t@.len() as int) =~= t@);
                assert(out@ =~= old(out)@ + json_bytes(v@));
            }
        },
        Json::Str(s) => {
            write_string_lit(s, out);
        },
        Json::Arr(a) => {
            out.push(91u8);
            let mut idx: usize = 0;
            while idx < a.len()
                invariant
                    idx <= a.len(),
                    out@ == old(out)@ + seq![91u8] + spec_arr_items(json_views(a@.take(idx as int))),
                    *v == Json::Arr(*a),
                decreases a.len() - idx,
            {
                if idx > 0 {
                    out.push(44u8);
                }
                proof {
                    assert(decreases_to!(*v => (*v)->Arr_0));
                    assert(decreases_to!((*v)->Arr_0 => (*v)->Arr_0@));
                    assert(decreases_to!((*v)->Arr_0@ => (*v)->Arr_0@[idx as int]));
                    assert((*v)->Arr_0@[idx as int] == a@[idx as int]);
                }
                write_json(&a[idx], out);
                proof {
                    lemma_arr_items_snoc(json_views(a@.take(idx as int)), json_view(a@[idx as int]));
                    lemma_json_views_snoc(a@.take(idx as int), a@[idx as int]);
                    assert(a@.take(idx as int).push(a@[idx as int]) =~= a@.take(idx as int + 1));
                    lemma_json_views_len(a@.take(idx as int));
                    assert(out@ =~= old(out)@ + seq![91u8] + spec_arr_items(
                        json_views(a@.take(idx as int + 1))));
                }
                idx = idx + 1;
            }
            out.push(93u8);
            proof {
                assert(a@.take(a.len() as int) =~= a@);
                assert(out@ =~= old(out)@ + json_bytes(v@));
            }
        },
        Json::Obj(m) => {
            out.push(123u8);
            let mut idx: usize = 0;
            while idx < m.len()
                invariant
                    idx <= m.len(),
                    out@ == old(out)@ + seq![123u8] + spec_obj_members(
                        member_views(m@.take(idx as int))),
                    *v == Json::Obj(*m),
                decreases m.len() - idx,
            {
                if idx > 0 {
                    out.push(44u8);
                }
                write_string_lit(&m[idx].0, out);
                out.push(58u8);
                proof {
                    assert(decreases_to!(*v => (*v)->Obj_0));
                    assert(decreases_to!((*v)->Obj_0 => (*v)->Obj_0@));
                    assert(decreases_to!((*v)->Obj_0@ => (*v)->Obj_0@[idx as int]));
                    assert(decreases_to!((*v)->Obj_0@[idx as int] => (*v)->Obj_0@[idx as int].1));
                    assert((*v)->Obj_0@[idx as int].1 == m@[idx as int].1);
                }
                write_json(&m[idx].1, out);
                proof {
                    lemma_obj_members_snoc(member_views(m@.take(idx as int)), m@[idx as int].0@,
                        json_view(m@[idx as int].1));
                    lemma_member_views_snoc(m@.take(idx as int), m@[idx as int].0, m@[idx as int].1);
                    assert(m@.take(idx as int).push((m@[idx as int].0, m@[idx as int].1))
                        =~= m@.take(idx as int + 1));
                    lemma_member_views_len(m@.take(idx as int));
                    assert(out@ =~= old(out)@ + seq![123u8] + spec_obj_members(
                        member_views(m@.take(idx as int + 1))));
                }
                idx = idx + 1;
            }
            out.push(125u8);
            proof {
                assert(m@.take(m.len() as int) =~= m@);
                assert(out@ =~= old(out)@ + json_bytes(v@));
            }
        },
    }
}

/// The value of the first member of `m` named `k`, searching from `i`.
pub open spec fn spec_obj_lookup_from(m: Seq<(Seq<u8>, JsonView)>, k: Seq<u8>, i: int) -> Option<
    JsonView,
>
    decreases m.len() - i,
{
    if !(0 <= i < m.len()) {
        None
    } else if m[i].0 == k {
        Some(m[i].1)
    } else {
        spec_obj_lookup_from(m, k, i + 1)
    }
}

/// The value of the first member of `m` named `k`, if any.
pub open spec fn spec_obj_lookup(m: Seq<(Seq<u8>, JsonView)>, k: Seq<u8>) -> Option<JsonView> {
    spec_obj_lookup_from(m, k, 0)
}

fn bytes_eq(a: &Vec<u8>, b: &Vec<u8>) -> (r: bool)
    ensures
        r == (a@ == b@),
{
    if a.len() != b.len() {
        return false;
    }
    let mut k: usize = 0;
    while k < a.len()
        invariant
            k <= a.len(),
            a.len() == b.len(),
            forall|t: int| 0 <= t < k ==> a@[t] == b@[t],
        decreases a.len() - k,
    {
        if a[k] != b[k] {
            return false;
        }
        k = k + 1;
    }
    proof {
        assert(a@ =~= b@);
    }
    true
}

/// Looks a key up among an object's members: the first member with that
/// key wins, as `spec_obj_lookup` says.
pub fn obj_get<'a>(m: &'a Vec<(Vec<u8>, Json)>, key: &Vec<u8>) -> (r: Option<&'a Json>)
    ensures
        r is Some <==> spec_obj_lookup(member_views(m@), key@) is Some,
        r matches Some(v) ==> spec_obj_lookup(member_views(m@), key@) == Some(v@),
{
    proof {
        lemma_member_views_len(m@);
    }
    let mut idx: usize = 0;
    while idx < m.len()
        invariant
            idx <= m.len(),
            member_views(m@).len() == m@.len(),
            forall|k2: int| 0 <= k2 < m@.len() ==> member_views(m@)[k2] == (
                m@[k2].0@,
                json_view(m@[k2].1),
            ),
            spec_obj_lookup(member_views(m@), key@) == spec_obj_lookup_from(
                member_views(m@),
                key@,
                idx as int,
            ),
        decreases m.len() - idx,
    {
        if bytes_eq(&m[idx].0, key) {
            return Some(&m[idx].1);
        }
        idx = idx + 1;
    }
    None
}

/// The bytes of `s` from `a` (inclusive) to `b` (exclusive), as a fresh
/// vector.
pub fn subvec(s: &Vec<u8>, a: usize, b: usize) -> (r: Vec<u8>)
    requires
        a <= b <= s.len(),
    ensures
        r@ == s@.subrange(a as int, b as int),
{
    let mut r: Vec<u8> = Vec::new();
    proof {
        assert(s@.subrange(a as int, a as int) =~= Seq::<u8>::empty());
    }
    let mut k = a;
    while k < b
        invariant
            a <= k <= b <= s.len(),
            r@ == s@.subrange(a as int, k as int),
        decreases b - k,
    {
        r.push(s[k]);
        proof {
            assert(s@.subrange(a as int, k as int).push(s@[k as int]) =~= s@.subrange(
                a as int, k as int + 1));
        }
        k = k + 1;
    }
    r
}

/// A fresh copy of a byte vector.
pub fn copy_bytes(v: &Vec<u8>) -> (r: Vec<u8>)
    ensures
        r@ == v@,
{
    vstd::slice::slice_to_vec(v.as_slice())
}

/// A deep copy of `v`: a fresh value with the same view.
pub fn clone_json(v: &Json) -> (r: Json)
    ensures
        r@ == v@,
    decreases v,
{
    match v {
        Json::Null => Json::Null,
        Json::Bool(b) => Json::Bool(*b),
        Json::Int(i) => Json::Int(*i),
        Json::Num(t) => Json::Num(copy_bytes(t)),
        Json::Str(s) => {
            let mut t: Vec<u8> = Vec::new();
            let mut k: usize = 0;
            while k < s.len()
                invariant
                    k <= s.len(),
                    t@ == s@.take(k as int),
                decreases s.len() - k,
            {
                t.push(s[k]);
                proof {
                    assert(s@.take(k as int).push(s@[k as int]) =~= s@.take(k as int + 1));
                }
                k = k + 1;
            }
            proof {
                assert(s@.take(s@.len() as int) =~= s@);
            }
            Json::Str(t)
        },
        Json::Arr(a) => {
            let mut t: Vec<Json> = Vec::new();
            proof {
                assert(t@ =~= Seq::<Json>::empty());
                assert(json_views(a@.take(0)) =~= Seq::<JsonView>::empty());
            }
            let mut k: usize = 0;
            while k < a.len()
                invariant
                    k <= a.len(),
                    json_views(t@) == json_views(a@.take(k as int)),
                    *v == Json::Arr(*a),
                decreases a.len() - k,
            {
                proof {
                    assert(decreases_to!(*v => (*v)->Arr_0));
                    assert(decreases_to!((*v)->Arr_0 => (*v)->Arr_0@));
                    assert(decreases_to!((*v)->Arr_0@ => (*v)->Arr_0@[k as int]));
                    assert((*v)->Arr_0@[k as int] == a@[k as int]);
                }
                let c = clone_json(&a[k]);
                let ghost t0 = t@;
                let ghost cv = json_view(c);
                t.push(c);
                proof {
                    lemma_json_views_snoc(t0, t@.last());
                    assert(t@ =~= t0.push(t@.last()));
                    assert(json_view(t@.last()) == cv);
                    assert(cv == json_view(a@[k as int]));
                    lemma_json_views_snoc(a@.take(k as int), a@[k as int]);
                    assert(a@.take(k as int).push(a@[k as int]) =~= a@.take(k as int + 1));
                    assert(json_views(t@) == json_views(a@.take(k as int + 1)));
                }
                k = k + 1;
            }
            proof {
                assert(a@.take(a@.len() as int) =~= a@);
            }
            Json::Arr(t)
        },
        Json::Obj(m) => {
            let mut t: Vec<(Vec<u8>, Json)> = Vec::new();
            proof {
                assert(t@ =~= Seq::<(Vec<u8>, Json)>::empty());
                assert(member_views(m@.take(0)) =~= Seq::<(Seq<u8>, JsonView)>::empty());
            }
            let mut k: usize = 0;
            while k < m.len()
                invariant
                    k <= m.len(),
                    member_views(t@) == member_views(m@.take(k as int)),
                    *v == Json::Obj(*m),
                decreases m.len() - k,
            {
                let mut kb: Vec<u8> = Vec::new();
                let mut q: usize = 0;
                while q < m[k].0.len()
                    invariant
                        k < m@.len(),
                        q <= m@[k as int].0.len(),
                        kb@ == m@[k as int].0@.take(q as int),
                    decreases m@[k as int].0.len() - q,
                {
                    kb.push(m[k].0[q]);
                    proof {
                        assert(m@[k as int].0@.take(q as int).push(m@[k as int].0@[q as int])
                            =~= m@[k as int].0@.take(q as int + 1));
                    }
                    q = q + 1;
                }
                proof {
                    assert(m@[k as int].0@.take(m@[k as int].0@.len() as int) =~= m@[
                        k as int].0@);
                }
                proof {
                    assert(decreases_to!(*v => (*v)->Obj_0));
                    assert(decreases_to!((*v)->Obj_0 => (*v)->Obj_0@));
                    assert(decreases_to!((*v)->Obj_0@ => (*v)->Obj_0@[k as int]));
                    assert(decreases_to!((*v)->Obj_0@[k as int] => (*v)->Obj_0@[k as int].1));
                    assert((*v)->Obj_0@[k as int].1 == m@[k as int].1);
                }
                let c = clone_json(&m[k].1);
                let ghost kv = kb@;
                let ghost cv = json_view(c);
                let ghost t0 = t@;
                t.push((kb, c));
                proof {
                    lemma_member_views_snoc(t0, t@.last().0, t@.last().1);
                    assert(t@ =~= t0.push((t@.last().0, t@.last().1)));
                    assert(t@.last().0@ == kv && json_view(t@.last().1) == cv);
                    assert(kv == m@[k as int].0@);
                    assert(cv == json_view(m@[k as int].1));
                    lemma_member_views_snoc(m@.take(k as int), m@[k as int].0, m@[k as int].1);
                    assert(m@.take(k as int).push((m@[k as int].0, m@[k as int].1)) =~= m@.take(
                        k as int + 1));
                    assert(member_views(t@) == member_views(m@.take(k as int + 1)));
                }
                k = k + 1;
            }
            proof {
                assert(m@.take(m@.len() as int) =~= m@);
            }
            Json::Obj(t)
        },
    }
}

/// The serialization of `v` as a fresh byte vector.
pub fn to_bytes(v: &Json) -> (out: Vec<u8>)
    ensures
        out@ == json_bytes(v@),
{
    let mut out: Vec<u8> = Vec::new();
    write_json(v, &mut out);
    out
}

} // verus!
