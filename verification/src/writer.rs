//! The response writer: serializing an outgoing envelope and wrapping it in
//! the same `Content-Length` framing the reader understands.
//!
//! Every function here returns the exact bytes to put on the wire; actually
//! writing and flushing a stream is the embedding application's job, which
//! must keep each returned block contiguous so frame boundaries survive.

use vstd::prelude::*;

use crate::codec::{encode, encode_spec, OutShape, Outgoing};
use crate::digits::{dec_digits, u64_digits};
use crate::dispatch::{handle_body_spec, method_not_found_code, not_supported_text, outs_view};
use crate::frame::{frames_view, push_all};
use crate::registry::HandlerRegistry;

verus! {

/// `Content-Length: `
pub open spec fn cl_header() -> Seq<u8> {
    seq![67u8, 111, 110, 116, 101, 110, 116, 45, 76, 101, 110, 103, 116, 104, 58, 32]
}

/// `\r\n\r\n`
pub open spec fn crlf2() -> Seq<u8> {
    seq![13u8, 10, 13, 10]
}

/// A body wrapped in its frame: `Content-Length: <N>\r\n\r\n<body>`.
pub open spec fn frame_spec(body: Seq<u8>) -> Seq<u8> {
    cl_header() + dec_digits(body.len()) + crlf2() + body
}

/// The framed wire form of an outgoing envelope.
pub open spec fn wire_spec(o: OutShape) -> Seq<u8> {
    frame_spec(encode_spec(o))
}

/// One fully-delimited outgoing message: the body and its declared length.
pub struct Message {
    pub content_length: usize,
    pub body: Vec<u8>,
}

impl Message {
    pub open spec fn wf(&self) -> bool {
        self.content_length == self.body@.len()
    }

    /// Wraps a body, recording its exact byte length.
    pub fn new(body: Vec<u8>) -> (r: Message)
        ensures
            r.wf(),
            r.body@ == body@,
    {
        let content_length = body.len();
        Message { content_length, body }
    }

    /// The framed bytes of this message.
    pub fn to_wire(&self) -> (r: Vec<u8>)
        requires
            self.wf(),
        ensures
            r@ == frame_spec(self.body@),
    {
        frame_bytes(self.body.as_slice())
    }
}

/// Wraps a body in its `Content-Length` frame.
pub fn frame_bytes(body: &[u8]) -> (r: Vec<u8>)
    ensures
        r@ == frame_spec(body@),
{
    let mut out: Vec<u8> = Vec::new();
    let hdr: Vec<u8> = vec![
        67u8, 111, 110, 116, 101, 110, 116, 45, 76, 101, 110, 103, 116, 104, 58, 32,
    ];
    proof {
        assert(hdr@ =~= cl_header());
    }
    push_all(&mut out, hdr.as_slice());
    let digits = u64_digits(body.len() as u64);
    push_all(&mut out, digits.as_slice());
    let sep: Vec<u8> = vec![13u8, 10, 13, 10];
    proof {
        assert(sep@ =~= crlf2());
    }
    push_all(&mut out, sep.as_slice());
    push_all(&mut out, body);
    proof {
        assert(out@ =~= frame_spec(body@));
    }
    out
}

/// Encodes an outgoing envelope and frames it: the exact block to write and
/// flush as one unit.
pub fn send_message(o: &Outgoing) -> (r: Vec<u8>)
    ensures
        r@ == wire_spec(o@),
{
    let body = encode(o);
    frame_bytes(body.as_slice())
}

/// The framed error reply with the given id, code and message.
pub fn send_error_response(id: Option<u64>, code: i64, message: &[u8]) -> (r: Vec<u8>)
    ensures
        r@ == wire_spec(
            OutShape::ErrorReply { id, code: code as int, message: message@ },
        ),
{
    let mut msg: Vec<u8> = Vec::new();
    push_all(&mut msg, message);
    proof {
        assert(msg@ =~= message@);
    }
    let o = Outgoing::ErrorReply { id, code, message: msg };
    send_message(&o)
}

/// The framed method-not-found reply: code `-32601`, message
/// `` `<method>` is not supported ``, echoing the request's id.
pub fn send_method_not_found_response(id: Option<u64>, method: &[u8]) -> (r: Vec<u8>)
    ensures
        r@ == wire_spec(
            OutShape::ErrorReply {
                id,
                code: method_not_found_code(),
                message: not_supported_text(method@),
            },
        ),
{
    let mut msg: Vec<u8> = Vec::new();
    msg.push(96);
    proof {
        assert(msg@ =~= seq![96u8]);
    }
    push_all(&mut msg, method);
    let tail: Vec<u8> = vec![
        96u8, 32, 105, 115, 32, 110, 111, 116, 32, 115, 117, 112, 112, 111, 114, 116, 101, 100,
    ];
    push_all(&mut msg, tail.as_slice());
    proof {
        assert(msg@ =~= not_supported_text(method@));
    }
    let o = Outgoing::ErrorReply { id, code: -32601, message: msg };
    send_message(&o)
}

/// The framed `window/logMessage` notification (severity Info) carrying
/// `message`.
pub fn log_message(message: &[u8]) -> (r: Vec<u8>)
    ensures
        r@ == wire_spec(OutShape::LogMessage { message: message@ }),
{
    let mut msg: Vec<u8> = Vec::new();
    push_all(&mut msg, message);
    proof {
        assert(msg@ =~= message@);
    }
    let o = Outgoing::LogMessage { message: msg };
    send_message(&o)
}

/// The framed reply to an `initialize` request: an empty capabilities
/// object under the request's id.
pub fn initialize(id: u64) -> (r: Vec<u8>)
    ensures
        r@ == wire_spec(OutShape::InitializeResult { id }),
{
    let o = Outgoing::InitializeResult { id };
    send_message(&o)
}

/// The framed notification the `initialized` handler emits: a log message
/// reporting the name of the notification.
pub fn initialized() -> (r: Vec<u8>)
    ensures
        r@ == wire_spec(
            OutShape::LogMessage { message: crate::registry::initialized_log_text() },
        ),
{
    let msg: Vec<u8> = vec![105u8, 110, 105, 116, 105, 97, 108, 105, 122, 101, 100];
    proof {
        assert(msg@ =~= crate::registry::initialized_log_text());
    }
    let o = Outgoing::LogMessage { message: msg };
    send_message(&o)
}

/// The framed wire forms of everything sent for one frame body.
pub open spec fn respond_spec(reg: HandlerRegistry, body: Seq<u8>) -> Seq<Seq<u8>> {
    handle_body_spec(reg, body).map_values(|o: OutShape| wire_spec(o))
}

/// The complete per-message pipeline: decode one frame body, dispatch it,
/// and return each outgoing message already framed, in send order.
pub fn respond(reg: &HandlerRegistry, body: &[u8]) -> (r: Vec<Vec<u8>>)
    ensures
        frames_view(r@) == respond_spec(*reg, body@),
{
    let outs = crate::dispatch::handle_body(reg, body);
    let mut r: Vec<Vec<u8>> = Vec::new();
    let mut k: usize = 0;
    while k < outs.len()
        invariant
            0 <= k <= outs@.len(),
            outs_view(outs@) == handle_body_spec(*reg, body@),
            r@.len() == k,
            forall|q: int| 0 <= q < k ==> #[trigger] r@[q]@ == wire_spec(outs@[q]@),
        decreases outs@.len() - k,
    {
        let w = send_message(&outs[k]);
        r.push(w);
        k = k + 1;
    }
    proof {
        assert forall|q: int| 0 <= q < r@.len() implies #[trigger] frames_view(r@)[q]
            == respond_spec(*reg, body@)[q] by {
            assert(outs_view(outs@)[q] == outs@[q]@);
        }
        assert(frames_view(r@) =~= respond_spec(*reg, body@));
    }
    r
}

/// No byte of the frame header before its CRLF is a CR, and the
/// `Content-Length` line parses back to the body's length. Stepping stone
/// for the framing laws.
pub proof fn lemma_drain_frame(body: Seq<u8>, rest: Seq<u8>)
    requires
        body.len() <= usize::MAX,
    ensures
        ({
            let sub = crate::frame::drain(
                crate::frame::Phase::Headers { expected: None },
                rest,
            );
            crate::frame::drain(
                crate::frame::Phase::Headers { expected: None },
                frame_spec(body) + rest,
            ) == (crate::frame::ScanResult {
                frames: seq![body] + sub.frames,
                phase: sub.phase,
                rest: sub.rest,
                err: sub.err,
            })
        }),
{
    let hn = crate::frame::Phase::Headers { expected: None };
    let dg = dec_digits(body.len());
    let dl = dg.len() as int;
    let s = frame_spec(body) + rest;
    let p = 16 + dl;
    crate::digits::lemma_dec_digits_wf(body.len());
    crate::digits::lemma_dec_val_digits(body.len());
    assert(cl_header().len() == 16 && crlf2().len() == 4);
    assert(s.len() == 20 + dl + body.len() + rest.len());
    // where every byte of s before the body comes from
    assert(forall|q: int| 0 <= q < 16 ==> #[trigger] s[q] == cl_header()[q]);
    assert(forall|q: int| 16 <= q < 16 + dl ==> #[trigger] s[q] == dg[q - 16]);
    assert(forall|q: int| 16 + dl <= q < 20 + dl ==> #[trigger] s[q] == crlf2()[q - 16 - dl]);
    // the first CRLF sits right after the digits
    assert(s[p] == 13 && s[p + 1] == 10);
    assert(forall|q: int| 0 <= q < 16 ==> #[trigger] cl_header()[q] != 13);
    assert(forall|q: int| 0 <= q < p ==> #[trigger] s[q] != 13) by {
        assert(forall|q: int| 16 <= q < p ==> crate::digits::is_digit(#[trigger] dg[q - 16]));
    }
    crate::frame::lemma_find_crlf(s);
    match crate::frame::find_crlf(s) {
        Some(p2) => {
            if p2 < p {
                assert(s[p2] != 13);
            }
            if p2 > p {
                assert(!(s[p] == 13 && s[p + 1] == 10));
            }
            assert(p2 == p);
        },
        None => {
            assert(!(s[p] == 13 && s[p + 1] == 10));
        },
    }
    let line = s.take(p);
    assert(line =~= cl_header() + dg);
    // the header line splits at the colon into `Content-Length` and digits
    assert(line[14] == 58);
    assert(forall|q: int| 0 <= q < 14 ==> #[trigger] line[q] != 58);
    crate::frame::lemma_find_colon(line);
    match crate::frame::find_colon(line) {
        Some(c) => {
            if c < 14 {
                assert(line[c] != 58);
            }
            if c > 14 {
                assert(line[14] != 58);
            }
            assert(c == 14);
        },
        None => {
            assert(line[14] != 58);
        },
    }
    let key = line.take(14);
    assert(key =~= crate::frame::cl_key());
    assert(crate::frame::trim_end(key) == key && crate::frame::trim_start(key) == key);
    let raw = line.skip(15);
    assert(raw =~= seq![32u8] + dg);
    assert(raw.last() == dg.last() && crate::digits::is_digit(dg.last()));
    assert(crate::frame::trim_end(raw) == raw);
    assert(raw.skip(1) =~= dg);
    assert(crate::frame::trim_start(raw) == crate::frame::trim_start(dg));
    assert(crate::frame::trim_start(dg) == dg);
    assert(crate::frame::trim(raw) == dg);
    assert(crate::frame::header_line(line, None) == Ok::<Option<usize>, crate::frame::FramingError>(
        Some(body.len() as usize),
    ));
    // after the header line: the blank line, then the body
    let rest1 = s.skip(p + 2);
    assert(rest1.len() >= 2 && rest1[0] == 13 && rest1[1] == 10);
    assert(crate::frame::find_crlf(rest1) == Some(0int));
    let rest2 = rest1.skip(2);
    assert(rest2 =~= body + rest);
    assert(rest2.take(body.len() as int) =~= body);
    assert(rest2.skip(body.len() as int) =~= rest);
    assert(crate::frame::drain(hn, s) == crate::frame::drain(
        crate::frame::Phase::Headers { expected: Some(body.len() as usize) },
        rest1,
    ));
    assert(rest1.take(0) =~= Seq::<u8>::empty());
    assert(crate::frame::drain(
        crate::frame::Phase::Headers { expected: Some(body.len() as usize) },
        rest1,
    ) == crate::frame::drain(crate::frame::Phase::Body { expected: body.len() as usize }, rest2));
}

/// Framing round trip: a framed body fed to a fresh reader yields exactly
/// that body, and leaves the reader fresh again — the expected length never
/// leaks into the next frame.
pub proof fn lemma_frame_round_trip(body: Seq<u8>)
    requires
        body.len() <= usize::MAX,
    ensures
        crate::frame::drain(
            crate::frame::Phase::Headers { expected: None },
            frame_spec(body),
        ) == (crate::frame::ScanResult {
            frames: seq![body],
            phase: crate::frame::Phase::Headers { expected: None },
            rest: Seq::<u8>::empty(),
            err: None,
        }),
{
    let hn = crate::frame::Phase::Headers { expected: None };
    lemma_drain_frame(body, Seq::<u8>::empty());
    assert(frame_spec(body) + Seq::<u8>::empty() =~= frame_spec(body));
    assert(crate::frame::drain(hn, Seq::<u8>::empty()) == crate::frame::scan_stuck(
        hn,
        Seq::<u8>::empty(),
    ));
    assert(seq![body] + Seq::<Seq<u8>>::empty() =~= seq![body]);
}

/// Frame splitting: two framed messages concatenated into one chunk come
/// out as exactly two frames, in order, each with the right body; the
/// second frame's length is read fresh, from a reset reader state.
pub proof fn lemma_frame_splitting(b1: Seq<u8>, b2: Seq<u8>)
    requires
        b1.len() <= usize::MAX,
        b2.len() <= usize::MAX,
    ensures
        crate::frame::drain(
            crate::frame::Phase::Headers { expected: None },
            frame_spec(b1) + frame_spec(b2),
        ) == (crate::frame::ScanResult {
            frames: seq![b1, b2],
            phase: crate::frame::Phase::Headers { expected: None },
            rest: Seq::<u8>::empty(),
            err: None,
        }),
{
    lemma_drain_frame(b1, frame_spec(b2));
    lemma_frame_round_trip(b2);
    assert(seq![b1] + seq![b2] =~= seq![b1, b2]);
}

} // verus!
