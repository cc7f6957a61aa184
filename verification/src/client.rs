//! The framing client: deframes an incoming byte stream and correlates the
//! first id-bearing response, and frames outgoing messages.
//!
//! The receive path is the state machine of the protocol: scan for the
//! header terminator, extract `Content-Length`, take exactly that many body
//! bytes, parse them as JSON, and either return the value (its `id` member
//! is present and not null) or silently discard it and continue with the
//! next frame. `spec_receive` states the machine; the executable scanner is
//! proved to follow it on every stream.
use vstd::prelude::*;

use crate::ProtocolError;
use crate::frame::encode_frame;
use crate::frame::find_header_end;
use crate::frame::parse_content_length;
use crate::frame::spec_content_length;
use crate::frame::spec_find_term;
use crate::frame::spec_frame_bytes;
use crate::frame::spec_frame_header;
use crate::json::Json;
use crate::json::JsonView;
use crate::json::json_bytes;
use crate::json::obj_get;
use crate::json::subvec;
use crate::json::spec_obj_lookup;
use crate::json::to_bytes;
use crate::parse::parse_json;
use crate::parse::spec_parse_json;

verus! {

/// The key `id`.
pub open spec fn key_id() -> Seq<u8> {
    seq![105u8, 100u8]
}

/// The key `jsonrpc`.
pub open spec fn key_jsonrpc() -> Seq<u8> {
    seq![106u8, 115u8, 111u8, 110u8, 114u8, 112u8, 99u8]
}

/// A response-shaped body: a JSON object whose `jsonrpc` member is a
/// string.
pub open spec fn spec_is_response_shape(v: JsonView) -> bool {
    match v {
        JsonView::Obj(m) => spec_obj_lookup(m, key_jsonrpc()) matches Some(JsonView::Str(_)),
        _ => false,
    }
}

/// The `id` member of a response-shaped body, if present.
pub open spec fn spec_response_id(v: JsonView) -> Option<JsonView> {
    match v {
        JsonView::Obj(m) => spec_obj_lookup(m, key_id()),
        _ => None,
    }
}

/// Whether a body carries an identifier that correlates it to a request:
/// an `id` member that is present and not null.
pub open spec fn spec_has_live_id(v: JsonView) -> bool {
    match spec_response_id(v) {
        Some(x) => !(x is Null),
        None => false,
    }
}

/// What one receive attempt yields, at the model level.
pub enum SpecReceive {
    /// The stream holds no complete qualifying frame yet.
    Incomplete,
    /// The frame at hand is broken: the error kind, how many bytes the
    /// attempt consumed before failing, and — for a malformed body — the
    /// raw body bytes, kept for diagnostics.
    Failed(ProtocolError, int, Seq<u8>),
    /// The first id-bearing response body, and the stream position just
    /// after its frame.
    Got(JsonView, int),
}

/// The receive state machine over a byte stream, starting at `i`: read a
/// header block to its CRLFCRLF terminator, extract `Content-Length`, read
/// exactly that many body bytes, parse them as JSON; return an id-bearing
/// object, discard an id-less one and continue, and fail on a broken header
/// or body.
pub open spec fn spec_receive(s: Seq<u8>, i: int) -> SpecReceive
    decreases s.len() - i,
{
    if !(0 <= i <= s.len()) {
        SpecReceive::Incomplete
    } else {
        match spec_find_term(s, i + 4) {
            None => SpecReceive::Incomplete,
            Some(e) => {
                // a terminator position outside the scanned range cannot
                // occur; the guard keeps the recursion measure falling
                if e < i + 4 || e > s.len() {
                    SpecReceive::Incomplete
                } else {
                    match spec_content_length(s.subrange(i, e)) {
                        Err(pe) => SpecReceive::Failed(pe, e, Seq::empty()),
                        Ok(n) => {
                            if n < 0 || e + n > s.len() {
                                SpecReceive::Incomplete
                            } else {
                                match spec_parse_json(s.subrange(e, e + n)) {
                                    None => SpecReceive::Failed(
                                        ProtocolError::MalformedBody,
                                        e + n,
                                        s.subrange(e, e + n),
                                    ),
                                    Some(v) => {
                                        if !spec_is_response_shape(v) {
                                            SpecReceive::Failed(
                                                ProtocolError::MalformedBody,
                                                e + n,
                                                s.subrange(e, e + n),
                                            )
                                        } else if spec_has_live_id(v) {
                                            SpecReceive::Got(v, e + n)
                                        } else {
                                            spec_receive(s, e + n)
                                        }
                                    },
                                }
                            }
                        },
                    }
                }
            },
        }
    }
}

/// What the receive machine does with the frame standing at `i`: fail on a
/// body that is not response-shaped JSON, return a live-id body, and step
/// over an id-less one.
pub proof fn lemma_receive_frame_step(s: Seq<u8>, i: int, body: Seq<u8>)
    requires
        0 <= i,
        i + spec_frame_bytes(body).len() <= s.len(),
        s.subrange(i, i + spec_frame_bytes(body).len()) == spec_frame_bytes(body),
        body.len() <= usize::MAX,
    ensures
        spec_receive(s, i) == (match spec_parse_json(body) {
            None => SpecReceive::Failed(
                ProtocolError::MalformedBody,
                i + spec_frame_bytes(body).len(),
                body,
            ),
            Some(v) => {
                if !spec_is_response_shape(v) {
                    SpecReceive::Failed(
                        ProtocolError::MalformedBody,
                        i + spec_frame_bytes(body).len(),
                        body,
                    )
                } else if spec_has_live_id(v) {
                    SpecReceive::Got(v, i + spec_frame_bytes(body).len())
                } else {
                    spec_receive(s, i + spec_frame_bytes(body).len())
                }
            },
        }),
{
    let f = spec_frame_bytes(body);
    let h = spec_frame_header(body.len());
    let hlen = h.len();
    let n = body.len() as int;
    crate::frame::lemma_frame_find_term(s, i, body);
    crate::frame::lemma_frame_header_shape(body.len());
    assert(spec_find_term(s, i + 4) == Some(i + hlen));
    assert(hlen >= 21);
    assert forall|t: int| 0 <= t < f.len() implies #[trigger] s[i + t] == f[t] by {
        assert(s.subrange(i, i + f.len())[t] == s[i + t]);
    }
    assert(s.subrange(i, i + hlen) =~= h) by {
        assert forall|t: int| 0 <= t < hlen implies #[trigger] s.subrange(i, i + hlen)[t]
            == h[t] by {
            assert(s.subrange(i, i + hlen)[t] == s[i + t]);
            assert(f[t] == h[t]);
        }
    }
    crate::frame::lemma_content_length_of_header(body.len());
    assert(spec_content_length(s.subrange(i, i + hlen)) == Ok::<int, ProtocolError>(n));
    assert(s.subrange(i + hlen, i + hlen + n) =~= body) by {
        assert forall|t: int| 0 <= t < n implies #[trigger] s.subrange(i + hlen, i + hlen + n)[t]
            == body[t] by {
            assert(s.subrange(i + hlen, i + hlen + n)[t] == s[i + (hlen + t)]);
            assert(f[hlen + t] == body[t]);
        }
    }
}

/// A stream holding one well-formed frame whose body is an id-bearing
/// response, then anything after it: one receive attempt returns that very
/// body and consumes exactly the frame — header and declared body — and
/// not a byte of the remainder.
pub proof fn lemma_receive_single_frame(body: Seq<u8>, rest: Seq<u8>, v: JsonView)
    requires
        spec_parse_json(body) == Some(v),
        spec_is_response_shape(v),
        spec_has_live_id(v),
        body.len() <= usize::MAX,
    ensures
        spec_receive(spec_frame_bytes(body) + rest, 0) == SpecReceive::Got(
            v,
            spec_frame_bytes(body).len() as int,
        ),
{
    let s = spec_frame_bytes(body) + rest;
    assert(s.subrange(0, spec_frame_bytes(body).len() as int) =~= spec_frame_bytes(body));
    lemma_receive_frame_step(s, 0, body);
}

/// The skip-until-match law: a stream carrying an id-less frame (a
/// notification) and then an id-bearing response frame yields the
/// response; the notification is silently discarded, and both frames are
/// consumed.
pub proof fn lemma_receive_skips_notification(
    b1: Seq<u8>,
    v1: JsonView,
    b2: Seq<u8>,
    v2: JsonView,
    rest: Seq<u8>,
)
    requires
        spec_parse_json(b1) == Some(v1),
        spec_is_response_shape(v1),
        !spec_has_live_id(v1),
        spec_parse_json(b2) == Some(v2),
        spec_is_response_shape(v2),
        spec_has_live_id(v2),
        b1.len() <= usize::MAX,
        b2.len() <= usize::MAX,
    ensures
        spec_receive(spec_frame_bytes(b1) + spec_frame_bytes(b2) + rest, 0) == SpecReceive::Got(
            v2,
            spec_frame_bytes(b1).len() + spec_frame_bytes(b2).len() as int,
        ),
{
    let f1 = spec_frame_bytes(b1);
    let f2 = spec_frame_bytes(b2);
    let s = f1 + f2 + rest;
    assert(s.subrange(0, f1.len() as int) =~= f1);
    lemma_receive_frame_step(s, 0, b1);
    assert(s.subrange(f1.len() as int, f1.len() + f2.len() as int) =~= f2);
    lemma_receive_frame_step(s, f1.len() as int, b2);
}

/// A header block that closes without any `Content-Length` line fails the
/// receive with exactly that error, having consumed only the header bytes
/// read so far — the machine never reaches for a body.
pub proof fn lemma_receive_missing_header(s: Seq<u8>, e: int)
    requires
        spec_find_term(s, 4) == Some(e),
        4 <= e <= s.len(),
        spec_content_length(s.subrange(0, e)) == Err::<int, ProtocolError>(
            ProtocolError::MissingContentLength,
        ),
    ensures
        spec_receive(s, 0) == SpecReceive::Failed(
            ProtocolError::MissingContentLength,
            e,
            Seq::empty(),
        ),
{
}

/// What one receive attempt yields, executably.
pub enum Received {
    /// More bytes must be read from the transport first.
    NeedMore,
    /// The stream is broken at this frame: the error kind, how many bytes
    /// the attempt consumed before giving up, and — when a body was read
    /// and failed to parse — the raw body bytes, for diagnostics.
    Failed(ProtocolError, usize, Vec<u8>),
    /// An id-bearing response body, and the bytes its frames consumed.
    Response(Json, usize),
}

/// The model of an executable receive outcome.
pub open spec fn received_view(r: Received) -> SpecReceive {
    match r {
        Received::NeedMore => SpecReceive::Incomplete,
        Received::Failed(k, c, d) => SpecReceive::Failed(k, c as int, d@),
        Received::Response(v, c) => SpecReceive::Got(v@, c as int),
    }
}

/// Whether `v` has the response shape: an object whose `jsonrpc` member is
/// a string.
pub fn is_response_shape(v: &Json) -> (r: bool)
    ensures
        r == spec_is_response_shape(v@),
{
    match v {
        Json::Obj(m) => {
            let key: Vec<u8> = vec![106u8, 115u8, 111u8, 110u8, 114u8, 112u8, 99u8];
            proof {
                assert(key@ =~= key_jsonrpc());
            }
            match obj_get(m, &key) {
                None => false,
                Some(x) => match x {
                    Json::Str(_) => true,
                    _ => false,
                },
            }
        },
        _ => false,
    }
}

/// Whether `v` carries an `id` member that is present and not null.
pub fn has_live_id(v: &Json) -> (r: bool)
    ensures
        r == spec_has_live_id(v@),
{
    match v {
        Json::Obj(m) => {
            let key: Vec<u8> = vec![105u8, 100u8];
            proof {
                assert(key@ =~= key_id());
            }
            match obj_get(m, &key) {
                None => false,
                Some(x) => match x {
                    Json::Null => false,
                    _ => true,
                },
            }
        },
        _ => false,
    }
}

/// Runs the receive state machine over the buffered stream bytes: exactly
/// what `spec_receive` says of them, from the start.
pub fn scan_response(s: &Vec<u8>) -> (r: Received)
    requires
        s@.len() < usize::MAX,
    ensures
        received_view(r) == spec_receive(s@, 0),
        r matches Received::Failed(k, c, d) ==> c <= s.len(),
        r matches Received::Response(v, c) ==> c <= s.len(),
{
    let mut i: usize = 0;
    loop
        invariant
            i <= s.len(),
            s@.len() < usize::MAX,
            spec_receive(s@, 0) == spec_receive(s@, i as int),
        decreases s.len() - i,
    {
        match find_header_end(s, i) {
            None => {
                return Received::NeedMore;
            },
            Some(e) => {
                let h = subvec(s, i, e);
                match parse_content_length(&h) {
                    Err(pe) => {
                        let none: Vec<u8> = Vec::new();
                        proof {
                            assert(none@ =~= Seq::<u8>::empty());
                        }
                        return Received::Failed(pe, e, none);
                    },
                    Ok(n) => {
                        if n > s.len() - e {
                            return Received::NeedMore;
                        }
                        let body = subvec(s, e, e + n);
                        match parse_json(&body) {
                            None => {
                                return Received::Failed(ProtocolError::MalformedBody, e + n, body);
                            },
                            Some(v) => {
                                if is_response_shape(&v) {
                                    if has_live_id(&v) {
                                        return Received::Response(v, e + n);
                                    }
                                    i = e + n;
                                } else {
                                    return Received::Failed(
                                        ProtocolError::MalformedBody,
                                        e + n,
                                        body,
                                    );
                                }
                            },
                        }
                    },
                }
            },
        }
    }
}

/// Frames one message for sending: exactly
/// `Content-Length: <n>\r\n\r\n` followed by the `n` serialized JSON bytes.
pub fn frame_json(msg: &Json) -> (out: Vec<u8>)
    ensures
        out@ == spec_frame_bytes(json_bytes(msg@)),
{
    let body = to_bytes(msg);
    encode_frame(&body)
}

/// The framing client engine: it owns the receive buffer that accumulates
/// stream bytes between frames. The transport itself stays outside; a
/// caller writes what `frame_json` returns to its socket, and feeds what it
/// reads into `push_bytes`.
pub struct LspClient {
    buf: Vec<u8>,
}

impl View for LspClient {
    type V = Seq<u8>;

    closed spec fn view(&self) -> Seq<u8> {
        self.buf@
    }
}

impl LspClient {
    /// A client with an empty receive buffer.
    pub fn new() -> (c: LspClient)
        ensures
            c@ == Seq::<u8>::empty(),
    {
        LspClient { buf: Vec::new() }
    }

    /// How many stream bytes sit in the receive buffer.
    pub fn buffered(&self) -> (n: usize)
        ensures
            n == self@.len(),
    {
        self.buf.len()
    }

    /// Buffers bytes read from the transport.
    pub fn push_bytes(&mut self, chunk: &[u8])
        requires
            old(self)@.len() + chunk@.len() <= usize::MAX,
        ensures
            final(self)@ == old(self)@ + chunk@,
    {
        let mut k: usize = 0;
        while k < chunk.len()
            invariant
                k <= chunk@.len(),
                self@ == old(self)@ + chunk@.take(k as int),
            decreases chunk@.len() - k,
        {
            self.buf.push(chunk[k]);
            proof {
                assert(chunk@.take(k as int).push(chunk@[k as int]) =~= chunk@.take(k as int + 1));
                assert(self@ =~= old(self)@ + chunk@.take(k as int + 1));
            }
            k = k + 1;
        }
        proof {
            assert(chunk@.take(chunk@.len() as int) =~= chunk@);
        }
    }

    /// One receive attempt over the buffered bytes. A response or a failure
    /// consumes its bytes from the buffer; an incomplete stream leaves the
    /// buffer as it was, to be fed more bytes.
    pub fn try_receive(&mut self) -> (r: Received)
        requires
            old(self)@.len() < usize::MAX,
        ensures
            received_view(r) == spec_receive(old(self)@, 0),
            r matches Received::NeedMore ==> final(self)@ == old(self)@,
            r matches Received::Failed(k, c, d) ==> c <= old(self)@.len() && final(self)@ == old(
                self,
            )@.skip(c as int),
            r matches Received::Response(v, c) ==> c <= old(self)@.len() && final(self)@ == old(
                self,
            )@.skip(c as int),
    {
        let r = scan_response(&self.buf);
        match &r {
            Received::NeedMore => {},
            Received::Failed(_, c, _) => {
                let rest = subvec(&self.buf, *c, self.buf.len());
                proof {
                    assert(old(self)@.subrange(*c as int, old(self)@.len() as int) =~= old(
                        self,
                    )@.skip(*c as int));
                }
                self.buf = rest;
            },
            Received::Response(_, c) => {
                let rest = subvec(&self.buf, *c, self.buf.len());
                proof {
                    assert(old(self)@.subrange(*c as int, old(self)@.len() as int) =~= old(
                        self,
                    )@.skip(*c as int));
                }
                self.buf = rest;
            },
        }
        r
    }
}

} // verus!
