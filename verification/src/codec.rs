//! The message codec: decoding a raw frame body into a JSON-RPC envelope,
//! and encoding outgoing envelopes as canonical JSON-RPC 2.0 text.
//!
//! Decoding scans the body once: the top-level value must be a JSON object;
//! its `id` member counts only when it is a non-negative integer fitting
//! `u64`, its `method` member only when it is a string — any other value for
//! those keys, like their absence, leaves the field unset, and a later
//! duplicate key overrides an earlier one. All other members are validated
//! and skipped.

use vstd::prelude::*;

use crate::digits::{all_digits, dec_digits, dec_val, u64_digits};
use crate::json::{
    skip_ws_x, str_body, str_body_x, value_end, value_end_x, ws_end,
};

verus! {

/// A frame body that could not be decoded.
#[derive(Clone, Copy, PartialEq, Eq, Structural, Debug)]
pub enum CodecError {
    /// The body is not a single well-formed JSON value.
    ParseFailure,
    /// The body is well-formed JSON, but not an object.
    InvalidRequest,
}

/// The decoded JSON-RPC envelope: the fields classification depends on,
/// plus the `params` a request handler is invoked with. The `method` bytes
/// are the unescaped string contents; `params` is the raw JSON text of the
/// last `params` member, handed to handlers as it stood on the wire.
#[derive(Clone, PartialEq, Eq, Debug)]
pub struct Envelope {
    pub id: Option<u64>,
    pub method: Option<Vec<u8>>,
    pub params: Option<Vec<u8>>,
}

/// How an envelope is treated, derived from which fields are present.
#[derive(Clone, Copy, PartialEq, Eq, Structural, Debug)]
pub enum MessageClass {
    /// `id` and `method` present: expects exactly one reply.
    Request,
    /// only `method`: must never receive a reply.
    Notification,
    /// only `id`: a server receives these only as malformed traffic.
    Response,
    /// neither: answered with an invalid-request error.
    Invalid,
}

pub open spec fn opt_bytes(m: Option<Vec<u8>>) -> Option<Seq<u8>> {
    match m {
        Some(v) => Some(v@),
        None => None,
    }
}

pub open spec fn class_of(id: Option<u64>, method: Option<Seq<u8>>) -> MessageClass {
    match (id, method) {
        (Some(_), Some(_)) => MessageClass::Request,
        (None, Some(_)) => MessageClass::Notification,
        (Some(_), None) => MessageClass::Response,
        (None, None) => MessageClass::Invalid,
    }
}

impl Envelope {
    pub fn classify(&self) -> (r: MessageClass)
        ensures
            r == class_of(self.id, opt_bytes(self.method)),
    {
        match (&self.id, &self.method) {
            (Some(_), Some(_)) => MessageClass::Request,
            (None, Some(_)) => MessageClass::Notification,
            (Some(_), None) => MessageClass::Response,
            (None, None) => MessageClass::Invalid,
        }
    }
}

pub open spec fn id_key() -> Seq<u8> {
    seq![105u8, 100]
}

pub open spec fn method_key() -> Seq<u8> {
    seq![109u8, 101, 116, 104, 111, 100]
}

/// What serde-style `as_u64` extraction yields for the value at `[v, e)`:
/// the value counts as an id only if its whole lexeme is plain digits whose
/// value fits `u64`.
pub open spec fn num_id(s: Seq<u8>, v: int, e: int) -> Option<u64> {
    let lex = s.subrange(v, e);
    if lex.len() > 0 && all_digits(lex) && dec_val(lex) <= u64::MAX {
        Some(dec_val(lex) as u64)
    } else {
        None
    }
}

/// The unescaped contents of the value starting at `v`, if it is a string.
pub open spec fn str_method(s: Seq<u8>, v: int) -> Option<Seq<u8>> {
    if 0 <= v < s.len() && s[v] == 34 {
        match str_body(s, v + 1) {
            Some(q) => Some(q.0),
            None => None,
        }
    } else {
        None
    }
}

/// Top-level object scan, just after `{`: either `}` or the first member.
/// Accumulates the last-seen `id` and `method` values.
pub open spec fn scan_first(s: Seq<u8>, i: int) -> Option<(Option<u64>, Option<Seq<u8>>, int)>
    decreases s.len() - i, 2int,
{
    if !(0 <= i <= s.len()) {
        None
    } else {
        let w = ws_end(s, i);
        if !(i <= w && w < s.len()) {
            None
        } else if s[w] == 125 {
            Some((None, None, w + 1))
        } else {
            scan_memb(s, w, None, None)
        }
    }
}

/// One top-level `"key": value` member starting at the key's quote.
pub open spec fn scan_memb(s: Seq<u8>, i: int, id: Option<u64>, m: Option<Seq<u8>>) -> Option<
    (Option<u64>, Option<Seq<u8>>, int),
>
    decreases s.len() - i, 1int,
{
    if !(0 <= i < s.len() && s[i] == 34) {
        None
    } else {
        match str_body(s, i + 1) {
            None => None,
            Some(p) => {
                let w = ws_end(s, p.1);
                if !(i < w && w < s.len() && s[w] == 58) {
                    None
                } else {
                    let v = ws_end(s, w + 1);
                    if !(i < v && v <= s.len()) {
                        None
                    } else {
                        match value_end(s, v) {
                            None => None,
                            Some(e) => if i < e && e <= s.len() {
                                let id2 = if p.0 == id_key() {
                                    num_id(s, v, e)
                                } else {
                                    id
                                };
                                let m2 = if p.0 == method_key() {
                                    str_method(s, v)
                                } else {
                                    m
                                };
                                scan_next(s, e, id2, m2)
                            } else {
                                None
                            },
                        }
                    }
                }
            },
        }
    }
}

/// After a top-level member's value: `}` or `, "key": value`.
pub open spec fn scan_next(s: Seq<u8>, i: int, id: Option<u64>, m: Option<Seq<u8>>) -> Option<
    (Option<u64>, Option<Seq<u8>>, int),
>
    decreases s.len() - i, 2int,
{
    if !(0 <= i <= s.len()) {
        None
    } else {
        let w = ws_end(s, i);
        if !(i <= w && w < s.len()) {
            None
        } else if s[w] == 125 {
            Some((id, m, w + 1))
        } else if s[w] == 44 {
            let n = ws_end(s, w + 1);
            if i < n && n <= s.len() {
                scan_memb(s, n, id, m)
            } else {
                None
            }
        } else {
            None
        }
    }
}

pub open spec fn params_key() -> Seq<u8> {
    seq![112u8, 97, 114, 97, 109, 115]
}

/// Scan for the `params` member, just after `{`: either `}` or the first
/// member. Accumulates the raw JSON text of the last `params` value.
pub open spec fn pscan_first(s: Seq<u8>, i: int) -> Option<(Option<Seq<u8>>, int)>
    decreases s.len() - i, 2int,
{
    if !(0 <= i <= s.len()) {
        None
    } else {
        let w = ws_end(s, i);
        if !(i <= w && w < s.len()) {
            None
        } else if s[w] == 125 {
            Some((None, w + 1))
        } else {
            pscan_memb(s, w, None)
        }
    }
}

pub open spec fn pscan_memb(s: Seq<u8>, i: int, pr: Option<Seq<u8>>) -> Option<
    (Option<Seq<u8>>, int),
>
    decreases s.len() - i, 1int,
{
    if !(0 <= i < s.len() && s[i] == 34) {
        None
    } else {
        match str_body(s, i + 1) {
            None => None,
            Some(p) => {
                let w = ws_end(s, p.1);
                if !(i < w && w < s.len() && s[w] == 58) {
                    None
                } else {
                    let v = ws_end(s, w + 1);
                    if !(i < v && v <= s.len()) {
                        None
                    } else {
                        match value_end(s, v) {
                            None => None,
                            Some(e) => if i < e && e <= s.len() {
                                let pr2 = if p.0 == params_key() {
                                    Some(s.subrange(v, e))
                                } else {
                                    pr
                                };
                                pscan_next(s, e, pr2)
                            } else {
                                None
                            },
                        }
                    }
                }
            },
        }
    }
}

pub open spec fn pscan_next(s: Seq<u8>, i: int, pr: Option<Seq<u8>>) -> Option<
    (Option<Seq<u8>>, int),
>
    decreases s.len() - i, 2int,
{
    if !(0 <= i <= s.len()) {
        None
    } else {
        let w = ws_end(s, i);
        if !(i <= w && w < s.len()) {
            None
        } else if s[w] == 125 {
            Some((pr, w + 1))
        } else if s[w] == 44 {
            let n = ws_end(s, w + 1);
            if i < n && n <= s.len() {
                pscan_memb(s, n, pr)
            } else {
                None
            }
        } else {
            None
        }
    }
}

/// The raw JSON text of a body's last `params` member, if the body is a
/// well-formed object with one.
pub open spec fn body_params(s: Seq<u8>) -> Option<Seq<u8>> {
    let w = ws_end(s, 0);
    if 0 <= w < s.len() && s[w] == 123 {
        match pscan_first(s, w + 1) {
            Some(t) => if ws_end(s, t.1) == s.len() {
                t.0
            } else {
                None
            },
            None => None,
        }
    } else {
        None
    }
}

/// The full decode specification: the `id` and `method` fields of a body,
/// or the error it is rejected with. The body must hold exactly one JSON
/// value (plus whitespace); a non-object value is `InvalidRequest`,
/// anything malformed is `ParseFailure`.
pub open spec fn body_fields(s: Seq<u8>) -> Result<(Option<u64>, Option<Seq<u8>>), CodecError> {
    let w = ws_end(s, 0);
    if 0 <= w < s.len() && s[w] == 123 {
        match scan_first(s, w + 1) {
            Some(t) => if ws_end(s, t.2) == s.len() {
                Ok((t.0, t.1))
            } else {
                Err(CodecError::ParseFailure)
            },
            None => Err(CodecError::ParseFailure),
        }
    } else if 0 <= w < s.len() {
        match value_end(s, w) {
            Some(e) => if ws_end(s, e) == s.len() {
                Err(CodecError::InvalidRequest)
            } else {
                Err(CodecError::ParseFailure)
            },
            None => Err(CodecError::ParseFailure),
        }
    } else {
        Err(CodecError::ParseFailure)
    }
}

/// Copy of `s[i..j]`.
fn slice_part(s: &[u8], i: usize, j: usize) -> (r: Vec<u8>)
    requires
        i <= j <= s@.len(),
    ensures
        r@ == s@.subrange(i as int, j as int),
{
    let mut r: Vec<u8> = Vec::new();
    let mut k: usize = i;
    while k < j
        invariant
            i <= k <= j <= s@.len(),
            r@ == s@.subrange(i as int, k as int),
        decreases j - k,
    {
        r.push(s[k]);
        proof {
            assert(s@.subrange(i as int, k + 1) =~= s@.subrange(i as int, k as int).push(
                s@[k as int],
            ));
        }
        k = k + 1;
    }
    r
}

fn key_is(key: &Vec<u8>, b0: u8, b1: u8) -> (r: bool)
    ensures
        r == (key@ == seq![b0, b1]),
{
    if key.len() == 2 && key[0] == b0 && key[1] == b1 {
        proof {
            assert(key@ =~= seq![b0, b1]);
        }
        true
    } else {
        proof {
            assert(key@ != seq![b0, b1]);
        }
        false
    }
}

fn key_is_method(key: &Vec<u8>) -> (r: bool)
    ensures
        r == (key@ == method_key()),
{
    let pat: Vec<u8> = vec![109u8, 101, 116, 104, 111, 100];
    proof {
        assert(pat@ =~= method_key());
    }
    if key.len() != pat.len() {
        proof {
            assert(key@ != method_key());
        }
        return false;
    }
    let mut k: usize = 0;
    while k < key.len()
        invariant
            0 <= k <= key@.len(),
            key@.len() == pat@.len(),
            pat@ == method_key(),
            forall|q: int| 0 <= q < k ==> #[trigger] key@[q] == pat@[q],
        decreases key@.len() - k,
    {
        if key[k] != pat[k] {
            proof {
                assert(key@ != method_key());
            }
            return false;
        }
        k = k + 1;
    }
    proof {
        assert(key@ =~= method_key());
    }
    true
}

fn id_of_value(s: &[u8], v: usize, e: usize) -> (r: Option<u64>)
    requires
        v <= e <= s@.len(),
    ensures
        r == num_id(s@, v as int, e as int),
{
    let lex = slice_part(s, v, e);
    crate::digits::parse_u64(lex.as_slice())
}

fn method_of_value(s: &[u8], v: usize) -> (r: Option<Vec<u8>>)
    requires
        v <= s@.len(),
    ensures
        opt_bytes(r) == str_method(s@, v as int),
{
    if v < s.len() && s[v] == 34 {
        match str_body_x(s, v + 1) {
            Some(p) => Some(p.0),
            None => None,
        }
    } else {
        None
    }
}

fn scan_first_x(s: &[u8], i: usize) -> (r: Option<(Option<u64>, Option<Vec<u8>>, usize)>)
    requires
        i <= s@.len(),
    ensures
        match r {
            Some(t) => scan_first(s@, i as int) == Some((t.0, opt_bytes(t.1), t.2 as int)) && i
                < t.2 <= s@.len(),
            None => scan_first(s@, i as int) == None::<(Option<u64>, Option<Seq<u8>>, int)>,
        },
    decreases s@.len() - i, 2int,
{
    let w = skip_ws_x(s, i);
    if w >= s.len() {
        return None;
    }
    if s[w] == 125 {
        return Some((None, None, w + 1));
    }
    scan_memb_x(s, w, None, None)
}

fn scan_memb_x(s: &[u8], i: usize, id: Option<u64>, m: Option<Vec<u8>>) -> (r: Option<
    (Option<u64>, Option<Vec<u8>>, usize),
>)
    requires
        i <= s@.len(),
    ensures
        match r {
            Some(t) => scan_memb(s@, i as int, id, opt_bytes(m)) == Some(
                (t.0, opt_bytes(t.1), t.2 as int),
            ) && i < t.2 <= s@.len(),
            None => scan_memb(s@, i as int, id, opt_bytes(m)) == None::<
                (Option<u64>, Option<Seq<u8>>, int),
            >,
        },
    decreases s@.len() - i, 1int,
{
    if i >= s.len() || s[i] != 34 {
        return None;
    }
    match str_body_x(s, i + 1) {
        None => None,
        Some(p) => {
            let w = skip_ws_x(s, p.1);
            if w >= s.len() || s[w] != 58 {
                return None;
            }
            let v = skip_ws_x(s, w + 1);
            match value_end_x(s, v) {
                None => None,
                Some(e) => {
                    let id2 = if key_is(&p.0, 105, 100) {
                        proof {
                            assert(p.0@ == id_key());
                        }
                        id_of_value(s, v, e)
                    } else {
                        id
                    };
                    let m2 = if key_is_method(&p.0) {
                        method_of_value(s, v)
                    } else {
                        m
                    };
                    scan_next_x(s, e, id2, m2)
                },
            }
        },
    }
}

fn scan_next_x(s: &[u8], i: usize, id: Option<u64>, m: Option<Vec<u8>>) -> (r: Option<
    (Option<u64>, Option<Vec<u8>>, usize),
>)
    requires
        i <= s@.len(),
    ensures
        match r {
            Some(t) => scan_next(s@, i as int, id, opt_bytes(m)) == Some(
                (t.0, opt_bytes(t.1), t.2 as int),
            ) && i < t.2 <= s@.len(),
            None => scan_next(s@, i as int, id, opt_bytes(m)) == None::<
                (Option<u64>, Option<Seq<u8>>, int),
            >,
        },
    decreases s@.len() - i, 2int,
{
    let w = skip_ws_x(s, i);
    if w >= s.len() {
        return None;
    }
    if s[w] == 125 {
        return Some((id, m, w + 1));
    }
    if s[w] == 44 {
        let n = skip_ws_x(s, w + 1);
        scan_memb_x(s, n, id, m)
    } else {
        None
    }
}

fn key_is_params(key: &Vec<u8>) -> (r: bool)
    ensures
        r == (key@ == params_key()),
{
    let pat: Vec<u8> = vec![112u8, 97, 114, 97, 109, 115];
    proof {
        assert(pat@ =~= params_key());
    }
    if key.len() != pat.len() {
        proof {
            assert(key@ != params_key());
        }
        return false;
    }
    let mut k: usize = 0;
    while k < key.len()
        invariant
            0 <= k <= key@.len(),
            key@.len() == pat@.len(),
            pat@ == params_key(),
            forall|q: int| 0 <= q < k ==> #[trigger] key@[q] == pat@[q],
        decreases key@.len() - k,
    {
        if key[k] != pat[k] {
            proof {
                assert(key@ != params_key());
            }
            return false;
        }
        k = k + 1;
    }
    proof {
        assert(key@ =~= params_key());
    }
    true
}

fn pscan_first_x(s: &[u8], i: usize) -> (r: Option<(Option<Vec<u8>>, usize)>)
    requires
        i <= s@.len(),
    ensures
        match r {
            Some(t) => pscan_first(s@, i as int) == Some((opt_bytes(t.0), t.1 as int)) && i < t.1
                <= s@.len(),
            None => pscan_first(s@, i as int) == None::<(Option<Seq<u8>>, int)>,
        },
    decreases s@.len() - i, 2int,
{
    let w = skip_ws_x(s, i);
    if w >= s.len() {
        return None;
    }
    if s[w] == 125 {
        return Some((None, w + 1));
    }
    pscan_memb_x(s, w, None)
}

fn pscan_memb_x(s: &[u8], i: usize, pr: Option<Vec<u8>>) -> (r: Option<(Option<Vec<u8>>, usize)>)
    requires
        i <= s@.len(),
    ensures
        match r {
            Some(t) => pscan_memb(s@, i as int, opt_bytes(pr)) == Some(
                (opt_bytes(t.0), t.1 as int),
            ) && i < t.1 <= s@.len(),
            None => pscan_memb(s@, i as int, opt_bytes(pr)) == None::<(Option<Seq<u8>>, int)>,
        },
    decreases s@.len() - i, 1int,
{
    if i >= s.len() || s[i] != 34 {
        return None;
    }
    match str_body_x(s, i + 1) {
        None => None,
        Some(p) => {
            let w = skip_ws_x(s, p.1);
            if w >= s.len() || s[w] != 58 {
                return None;
            }
            let v = skip_ws_x(s, w + 1);
            match value_end_x(s, v) {
                None => None,
                Some(e) => {
                    let pr2 = if key_is_params(&p.0) {
                        Some(slice_part(s, v, e))
                    } else {
                        pr
                    };
                    pscan_next_x(s, e, pr2)
                },
            }
        },
    }
}

fn pscan_next_x(s: &[u8], i: usize, pr: Option<Vec<u8>>) -> (r: Option<(Option<Vec<u8>>, usize)>)
    requires
        i <= s@.len(),
    ensures
        match r {
            Some(t) => pscan_next(s@, i as int, opt_bytes(pr)) == Some(
                (opt_bytes(t.0), t.1 as int),
            ) && i < t.1 <= s@.len(),
            None => pscan_next(s@, i as int, opt_bytes(pr)) == None::<(Option<Seq<u8>>, int)>,
        },
    decreases s@.len() - i, 2int,
{
    let w = skip_ws_x(s, i);
    if w >= s.len() {
        return None;
    }
    if s[w] == 125 {
        return Some((pr, w + 1));
    }
    if s[w] == 44 {
        let n = skip_ws_x(s, w + 1);
        pscan_memb_x(s, n, pr)
    } else {
        None
    }
}

/// The raw text of the body's last `params` member, per [`body_params`].
fn extract_params(body: &[u8]) -> (r: Option<Vec<u8>>)
    ensures
        opt_bytes(r) == body_params(body@),
{
    let w = skip_ws_x(body, 0);
    if w >= body.len() || body[w] != 123 {
        return None;
    }
    match pscan_first_x(body, w + 1) {
        Some(t) => {
            let tail = skip_ws_x(body, t.1);
            if tail == body.len() {
                t.0
            } else {
                None
            }
        },
        None => None,
    }
}

/// Decodes a frame body. On success the envelope holds the last `id` member
/// that is a non-negative integer fitting `u64` and the last `method`
/// member that is a string, per [`body_fields`].
pub fn decode(body: &[u8]) -> (r: Result<Envelope, CodecError>)
    ensures
        match r {
            Ok(env) => body_fields(body@) == Ok::<_, CodecError>((env.id, opt_bytes(env.method)))
                && opt_bytes(env.params) == body_params(body@),
            Err(e) => body_fields(body@) == Err::<(Option<u64>, Option<Seq<u8>>), _>(e),
        },
{
    let w = skip_ws_x(body, 0);
    if w >= body.len() {
        return Err(CodecError::ParseFailure);
    }
    if body[w] == 123 {
        match scan_first_x(body, w + 1) {
            Some(t) => {
                let tail = skip_ws_x(body, t.2);
                if tail == body.len() {
                    Ok(Envelope { id: t.0, method: t.1, params: extract_params(body) })
                } else {
                    Err(CodecError::ParseFailure)
                }
            },
            None => Err(CodecError::ParseFailure),
        }
    } else {
        match value_end_x(body, w) {
            Some(e) => {
                let tail = skip_ws_x(body, e);
                if tail == body.len() {
                    Err(CodecError::InvalidRequest)
                } else {
                    Err(CodecError::ParseFailure)
                }
            },
            None => Err(CodecError::ParseFailure),
        }
    }
}

/// An outgoing envelope. Only the reference handlers' shapes are in scope:
/// the `initialize` result, error replies, and the `window/logMessage`
/// notification.
#[derive(Clone, PartialEq, Eq, Debug)]
pub enum Outgoing {
    /// `{"jsonrpc":"2.0","id":<id>,"result":{"capabilities":{}}}`
    InitializeResult { id: u64 },
    /// `{"jsonrpc":"2.0","id":<id|null>,"error":{"code":<code>,"message":<message>}}`
    ErrorReply { id: Option<u64>, code: i64, message: Vec<u8> },
    /// `{"jsonrpc":"2.0","method":"window/logMessage","params":{"type":3,"message":<message>}}`
    LogMessage { message: Vec<u8> },
}

/// The mathematical shape of an outgoing envelope.
pub enum OutShape {
    InitializeResult { id: u64 },
    ErrorReply { id: Option<u64>, code: int, message: Seq<u8> },
    LogMessage { message: Seq<u8> },
}

impl View for Outgoing {
    type V = OutShape;

    open spec fn view(&self) -> OutShape {
        match self {
            Outgoing::InitializeResult { id } => OutShape::InitializeResult { id: *id },
            Outgoing::ErrorReply { id, code, message } => OutShape::ErrorReply {
                id: *id,
                code: *code as int,
                message: message@,
            },
            Outgoing::LogMessage { message } => OutShape::LogMessage { message: message@ },
        }
    }
}

/// An outgoing envelope whose text parts are well-formed UTF-8 — what the
/// reference handlers and the dispatcher always produce.
pub open spec fn wf_outgoing(o: OutShape) -> bool {
    match o {
        OutShape::InitializeResult { .. } => true,
        OutShape::ErrorReply { message, .. } => crate::json::is_utf8(message),
        OutShape::LogMessage { message } => crate::json::is_utf8(message),
    }
}

pub open spec fn hex_digit(d: u8) -> u8 {
    if d < 10 {
        (48 + d) as u8
    } else {
        (87 + d) as u8
    }
}

/// JSON string escaping of one byte: quote, backslash and the named control
/// escapes get a backslash form, other control bytes a `\u00XX` form, and
/// everything else passes through.
pub open spec fn esc_seq(b: u8) -> Seq<u8> {
    if b == 34 {
        seq![92u8, 34]
    } else if b == 92 {
        seq![92u8, 92]
    } else if b == 8 {
        seq![92u8, 98]
    } else if b == 9 {
        seq![92u8, 116]
    } else if b == 10 {
        seq![92u8, 110]
    } else if b == 12 {
        seq![92u8, 102]
    } else if b == 13 {
        seq![92u8, 114]
    } else if b < 32 {
        seq![92u8, 117, 48, 48, hex_digit(b / 16), hex_digit(b % 16)]
    } else {
        seq![b]
    }
}

pub open spec fn escape(s: Seq<u8>) -> Seq<u8>
    decreases s.len(),
{
    if s.len() == 0 {
        Seq::empty()
    } else {
        esc_seq(s[0]) + escape(s.skip(1))
    }
}

pub open spec fn json_rpc_prefix() -> Seq<u8> {
    seq![123u8, 34, 106, 115, 111, 110, 114, 112, 99, 34, 58, 34, 50, 46, 48, 34, 44]
}

pub open spec fn id_prefix() -> Seq<u8> {
    seq![34u8, 105, 100, 34, 58]
}

pub open spec fn result_caps_suffix() -> Seq<u8> {
    seq![
        44u8, 34, 114, 101, 115, 117, 108, 116, 34, 58, 123, 34, 99, 97, 112, 97, 98, 105, 108,
        105, 116, 105, 101, 115, 34, 58, 123, 125, 125, 125,
    ]
}

pub open spec fn error_prefix() -> Seq<u8> {
    seq![44u8, 34, 101, 114, 114, 111, 114, 34, 58, 123, 34, 99, 111, 100, 101, 34, 58]
}

pub open spec fn message_prefix() -> Seq<u8> {
    seq![44u8, 34, 109, 101, 115, 115, 97, 103, 101, 34, 58, 34]
}

pub open spec fn str_close_suffix() -> Seq<u8> {
    seq![34u8, 125, 125]
}

pub open spec fn log_prefix() -> Seq<u8> {
    seq![
        34u8, 109, 101, 116, 104, 111, 100, 34, 58, 34, 119, 105, 110, 100, 111, 119, 47, 108,
        111, 103, 77, 101, 115, 115, 97, 103, 101, 34, 44, 34, 112, 97, 114, 97, 109, 115, 34, 58,
        123, 34, 116, 121, 112, 101, 34, 58, 51, 44, 34, 109, 101, 115, 115, 97, 103, 101, 34, 58,
        34,
    ]
}

pub open spec fn null_text() -> Seq<u8> {
    seq![110u8, 117, 108, 108]
}

pub open spec fn id_text(id: Option<u64>) -> Seq<u8> {
    match id {
        Some(n) => dec_digits(n as nat),
        None => null_text(),
    }
}

pub open spec fn int_text(c: int) -> Seq<u8> {
    if c >= 0 {
        dec_digits(c as nat)
    } else {
        seq![45u8] + dec_digits((-c) as nat)
    }
}

/// Canonical JSON-RPC 2.0 text of an outgoing envelope: `"jsonrpc":"2.0"`
/// always first, then exactly one of `result`/`error` for replies, or
/// `method`/`params` for the log notification.
pub open spec fn encode_spec(o: OutShape) -> Seq<u8> {
    match o {
        OutShape::InitializeResult { id } => json_rpc_prefix() + id_prefix() + dec_digits(
            id as nat,
        ) + result_caps_suffix(),
        OutShape::ErrorReply { id, code, message } => json_rpc_prefix() + id_prefix() + id_text(id)
            + error_prefix() + int_text(code) + message_prefix() + escape(message)
            + str_close_suffix(),
        OutShape::LogMessage { message } => json_rpc_prefix() + log_prefix() + escape(message)
            + str_close_suffix(),
    }
}

fn escape_x(s: &[u8]) -> (r: Vec<u8>)
    ensures
        r@ == escape(s@),
{
    let mut out: Vec<u8> = Vec::new();
    let mut k: usize = 0;
    proof {
        assert(s@.skip(0) =~= s@);
        assert(Seq::<u8>::empty() + escape(s@) =~= escape(s@));
    }
    while k < s.len()
        invariant
            0 <= k <= s@.len(),
            escape(s@) == out@ + escape(s@.skip(k as int)),
        decreases s@.len() - k,
    {
        let ghost out0 = out@;
        let b = s[k];
        proof {
            assert(s@.skip(k as int)[0] == b);
            assert(s@.skip(k as int).skip(1) =~= s@.skip(k + 1));
            assert(escape(s@.skip(k as int)) == esc_seq(b) + escape(s@.skip(k + 1)));
        }
        if b == 34 || b == 92 {
            out.push(92);
            out.push(b);
        } else if b == 8 {
            out.push(92);
            out.push(98);
        } else if b == 9 {
            out.push(92);
            out.push(116);
        } else if b == 10 {
            out.push(92);
            out.push(110);
        } else if b == 12 {
            out.push(92);
            out.push(102);
        } else if b == 13 {
            out.push(92);
            out.push(114);
        } else if b < 32 {
            out.push(92);
            out.push(117);
            out.push(48);
            out.push(48);
            let hi = b / 16;
            let lo = b % 16;
            out.push(if hi < 10 { 48 + hi } else { 87 + hi });
            out.push(if lo < 10 { 48 + lo } else { 87 + lo });
        } else {
            out.push(b);
        }
        proof {
            assert(out@ =~= out0 + esc_seq(b));
            assert((out0 + esc_seq(b)) + escape(s@.skip(k + 1)) =~= out0 + (esc_seq(b) + escape(
                s@.skip(k + 1),
            )));
        }
        k = k + 1;
    }
    proof {
        assert(s@.skip(k as int) =~= Seq::<u8>::empty());
        assert(out@ + escape(Seq::<u8>::empty()) =~= out@);
    }
    out
}

fn push_lit(out: &mut Vec<u8>, lit: &[u8])
    ensures
        final(out)@ == old(out)@ + lit@,
{
    crate::frame::push_all(out, lit);
}

/// Serializes an outgoing envelope as canonical JSON-RPC 2.0 text.
pub fn encode(o: &Outgoing) -> (r: Vec<u8>)
    ensures
        r@ == encode_spec(o@),
{
    let mut out: Vec<u8> = Vec::new();
    let rpc: Vec<u8> = vec![
        123u8, 34, 106, 115, 111, 110, 114, 112, 99, 34, 58, 34, 50, 46, 48, 34, 44,
    ];
    proof {
        assert(rpc@ =~= json_rpc_prefix());
    }
    push_lit(&mut out, rpc.as_slice());
    match o {
        Outgoing::InitializeResult { id } => {
            let idp: Vec<u8> = vec![34u8, 105, 100, 34, 58];
            proof {
                assert(idp@ =~= id_prefix());
            }
            push_lit(&mut out, idp.as_slice());
            let digits = u64_digits(*id);
            push_lit(&mut out, digits.as_slice());
            let caps: Vec<u8> = vec![
                44u8, 34, 114, 101, 115, 117, 108, 116, 34, 58, 123, 34, 99, 97, 112, 97, 98, 105,
                108, 105, 116, 105, 101, 115, 34, 58, 123, 125, 125, 125,
            ];
            proof {
                assert(caps@ =~= result_caps_suffix());
            }
            push_lit(&mut out, caps.as_slice());
            proof {
                assert(out@ =~= encode_spec(o@));
            }
        },
        Outgoing::ErrorReply { id, code, message } => {
            let idp: Vec<u8> = vec![34u8, 105, 100, 34, 58];
            proof {
                assert(idp@ =~= id_prefix());
            }
            push_lit(&mut out, idp.as_slice());
            match id {
                Some(n) => {
                    let digits = u64_digits(*n);
                    push_lit(&mut out, digits.as_slice());
                },
                None => {
                    let nul: Vec<u8> = vec![110u8, 117, 108, 108];
                    proof {
                        assert(nul@ =~= null_text());
                    }
                    push_lit(&mut out, nul.as_slice());
                },
            }
            let errp: Vec<u8> = vec![
                44u8, 34, 101, 114, 114, 111, 114, 34, 58, 123, 34, 99, 111, 100, 101, 34, 58,
            ];
            proof {
                assert(errp@ =~= error_prefix());
            }
            push_lit(&mut out, errp.as_slice());
            if *code < 0 {
                out.push(45);
                // magnitude without overflowing at i64::MIN
                let mag: u64 = ((-(*code + 1)) as u64) + 1;
                proof {
                    assert(mag == (-(*code as int)) as nat);
                }
                let digits = u64_digits(mag);
                push_lit(&mut out, digits.as_slice());
                proof {
                    assert(out@ =~= json_rpc_prefix() + id_prefix() + id_text(*id)
                        + error_prefix() + int_text(*code as int));
                }
            } else {
                let digits = u64_digits(*code as u64);
                push_lit(&mut out, digits.as_slice());
            }
            let msgp: Vec<u8> = vec![
                44u8, 34, 109, 101, 115, 115, 97, 103, 101, 34, 58, 34,
            ];
            proof {
                assert(msgp@ =~= message_prefix());
            }
            push_lit(&mut out, msgp.as_slice());
            let esc = escape_x(message.as_slice());
            push_lit(&mut out, esc.as_slice());
            let close: Vec<u8> = vec![34u8, 125, 125];
            proof {
                assert(close@ =~= str_close_suffix());
            }
            push_lit(&mut out, close.as_slice());
            proof {
                assert(out@ =~= encode_spec(o@));
            }
        },
        Outgoing::LogMessage { message } => {
            let logp: Vec<u8> = vec![
                34u8, 109, 101, 116, 104, 111, 100, 34, 58, 34, 119, 105, 110, 100, 111, 119, 47,
                108, 111, 103, 77, 101, 115, 115, 97, 103, 101, 34, 44, 34, 112, 97, 114, 97, 109,
                115, 34, 58, 123, 34, 116, 121, 112, 101, 34, 58, 51, 44, 34, 109, 101, 115, 115,
                97, 103, 101, 34, 58, 34,
            ];
            proof {
                assert(logp@ =~= log_prefix());
            }
            push_lit(&mut out, logp.as_slice());
            let esc = escape_x(message.as_slice());
            push_lit(&mut out, esc.as_slice());
            let close: Vec<u8> = vec![34u8, 125, 125];
            proof {
                assert(close@ =~= str_close_suffix());
            }
            push_lit(&mut out, close.as_slice());
            proof {
                assert(out@ =~= encode_spec(o@));
            }
        },
    }
    out
}

} // verus!
