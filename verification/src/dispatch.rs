//! The dispatcher: routes a classified envelope to the registry and decides
//! what, if anything, goes back out.
//!
//! - an invalid envelope (neither `id` nor `method`) is answered with an
//!   invalid-request error, `id: null`;
//! - a response-shaped envelope (only `id`) is ignored;
//! - a notification runs its handler if one is registered and never gets a
//!   reply, known method or not;
//! - a request runs its handler, or is answered with a method-not-found
//!   error carrying the original `id`.

use vstd::prelude::*;

use crate::codec::{body_fields, body_params, opt_bytes, CodecError, Envelope, OutShape, Outgoing};
use crate::registry::{lookup, notification_output, request_reply, HandlerRegistry};

verus! {

/// JSON-RPC error codes.
pub open spec fn parse_error_code() -> int {
    -32700
}

pub open spec fn invalid_request_code() -> int {
    -32600
}

pub open spec fn method_not_found_code() -> int {
    -32601
}

/// `Received an invalid request`
pub open spec fn invalid_request_text() -> Seq<u8> {
    seq![
        82u8, 101, 99, 101, 105, 118, 101, 100, 32, 97, 110, 32, 105, 110, 118, 97, 108, 105,
        100, 32, 114, 101, 113, 117, 101, 115, 116,
    ]
}

/// `received an invalid JSON`
pub open spec fn parse_error_text() -> Seq<u8> {
    seq![
        114u8, 101, 99, 101, 105, 118, 101, 100, 32, 97, 110, 32, 105, 110, 118, 97, 108, 105,
        100, 32, 74, 83, 79, 78,
    ]
}

/// `` `<method>` is not supported ``
pub open spec fn not_supported_text(method: Seq<u8>) -> Seq<u8> {
    seq![96u8] + method + seq![
        96u8, 32, 105, 115, 32, 110, 111, 116, 32, 115, 117, 112, 112, 111, 114, 116, 101, 100,
    ]
}

pub open spec fn outs_view(v: Seq<Outgoing>) -> Seq<OutShape> {
    Seq::new(v.len(), |i: int| v[i]@)
}

/// Everything the dispatcher sends for one decoded envelope, in order.
/// A found request handler is invoked with the request's `(id, params)`.
pub open spec fn dispatch_spec(
    reg: HandlerRegistry,
    id: Option<u64>,
    method: Option<Seq<u8>>,
    params: Option<Seq<u8>>,
) -> Seq<OutShape> {
    match (id, method) {
        (None, None) => seq![
            OutShape::ErrorReply {
                id: None,
                code: invalid_request_code(),
                message: invalid_request_text(),
            },
        ],
        (Some(_), None) => seq![],
        (None, Some(m)) => match lookup(reg.notification_handlers@, m) {
            Some(h) => notification_output(h),
            None => seq![],
        },
        (Some(n), Some(m)) => match lookup(reg.request_handlers@, m) {
            Some(h) => seq![request_reply(h, n, params)],
            None => seq![
                OutShape::ErrorReply {
                    id: Some(n),
                    code: method_not_found_code(),
                    message: not_supported_text(m),
                },
            ],
        },
    }
}

/// Everything sent for one raw frame body: decode errors become the
/// parse-error or invalid-request reply, a decoded envelope is dispatched.
pub open spec fn handle_body_spec(reg: HandlerRegistry, body: Seq<u8>) -> Seq<OutShape> {
    match body_fields(body) {
        Ok(f) => dispatch_spec(reg, f.0, f.1, body_params(body)),
        Err(CodecError::ParseFailure) => seq![
            OutShape::ErrorReply {
                id: None,
                code: parse_error_code(),
                message: parse_error_text(),
            },
        ],
        Err(CodecError::InvalidRequest) => seq![
            OutShape::ErrorReply {
                id: None,
                code: invalid_request_code(),
                message: invalid_request_text(),
            },
        ],
    }
}

fn invalid_request_reply() -> (r: Outgoing)
    ensures
        r@ == (OutShape::ErrorReply {
            id: None,
            code: invalid_request_code(),
            message: invalid_request_text(),
        }),
{
    let msg: Vec<u8> = vec![
        82u8, 101, 99, 101, 105, 118, 101, 100, 32, 97, 110, 32, 105, 110, 118, 97, 108, 105,
        100, 32, 114, 101, 113, 117, 101, 115, 116,
    ];
    proof {
        assert(msg@ =~= invalid_request_text());
    }
    Outgoing::ErrorReply { id: None, code: -32600, message: msg }
}

fn parse_error_reply() -> (r: Outgoing)
    ensures
        r@ == (OutShape::ErrorReply {
            id: None,
            code: parse_error_code(),
            message: parse_error_text(),
        }),
{
    let msg: Vec<u8> = vec![
        114u8, 101, 99, 101, 105, 118, 101, 100, 32, 97, 110, 32, 105, 110, 118, 97, 108, 105,
        100, 32, 74, 83, 79, 78,
    ];
    proof {
        assert(msg@ =~= parse_error_text());
    }
    Outgoing::ErrorReply { id: None, code: -32700, message: msg }
}

fn not_supported_reply(id: u64, method: &[u8]) -> (r: Outgoing)
    ensures
        r@ == (OutShape::ErrorReply {
            id: Some(id),
            code: method_not_found_code(),
            message: not_supported_text(method@),
        }),
{
    let mut msg: Vec<u8> = Vec::new();
    msg.push(96);
    proof {
        assert(msg@ =~= seq![96u8]);
    }
    crate::frame::push_all(&mut msg, method);
    let tail: Vec<u8> = vec![
        96u8, 32, 105, 115, 32, 110, 111, 116, 32, 115, 117, 112, 112, 111, 114, 116, 101, 100,
    ];
    crate::frame::push_all(&mut msg, tail.as_slice());
    proof {
        assert(msg@ =~= not_supported_text(method@));
    }
    Outgoing::ErrorReply { id: Some(id), code: -32601, message: msg }
}

/// Routes one decoded envelope; the result is every envelope to send, in
/// order. Per JSON-RPC, notifications are never answered, and response-
/// shaped traffic is dropped.
pub fn dispatch(reg: &HandlerRegistry, env: &Envelope) -> (r: Vec<Outgoing>)
    ensures
        outs_view(r@) == dispatch_spec(*reg, env.id, opt_bytes(env.method), opt_bytes(env.params)),
{
    match (&env.id, &env.method) {
        (None, None) => {
            let mut out: Vec<Outgoing> = Vec::new();
            out.push(invalid_request_reply());
            proof {
                assert(outs_view(out@) =~= dispatch_spec(*reg, env.id, opt_bytes(env.method), opt_bytes(env.params)));
            }
            out
        },
        (Some(_), None) => {
            let out: Vec<Outgoing> = Vec::new();
            proof {
                assert(outs_view(out@) =~= dispatch_spec(*reg, env.id, opt_bytes(env.method), opt_bytes(env.params)));
            }
            out
        },
        (None, Some(m)) => {
            match reg.notification_for(m.as_slice()) {
                Some(h) => reg.run_notification(h),
                None => {
                    let out: Vec<Outgoing> = Vec::new();
                    proof {
                        assert(outs_view(out@) =~= dispatch_spec(
                            *reg,
                            env.id,
                            opt_bytes(env.method),
                            opt_bytes(env.params),
                        ));
                    }
                    out
                },
            }
        },
        (Some(n), Some(m)) => {
            let mut out: Vec<Outgoing> = Vec::new();
            match reg.request_for(m.as_slice()) {
                Some(h) => {
                    out.push(reg.run_request(h, *n, &env.params));
                },
                None => {
                    out.push(not_supported_reply(*n, m.as_slice()));
                },
            }
            proof {
                assert(outs_view(out@) =~= dispatch_spec(*reg, env.id, opt_bytes(env.method), opt_bytes(env.params)));
            }
            out
        },
    }
}

/// Decodes one frame body and dispatches it; decode failures become the
/// matching error reply, so the read loop never aborts on bad input.
pub fn handle_body(reg: &HandlerRegistry, body: &[u8]) -> (r: Vec<Outgoing>)
    ensures
        outs_view(r@) == handle_body_spec(*reg, body@),
{
    match crate::codec::decode(body) {
        Ok(env) => dispatch(reg, &env),
        Err(CodecError::ParseFailure) => {
            let mut out: Vec<Outgoing> = Vec::new();
            out.push(parse_error_reply());
            proof {
                assert(outs_view(out@) =~= handle_body_spec(*reg, body@));
            }
            out
        },
        Err(CodecError::InvalidRequest) => {
            let mut out: Vec<Outgoing> = Vec::new();
            out.push(invalid_request_reply());
            proof {
                assert(outs_view(out@) =~= handle_body_spec(*reg, body@));
            }
            out
        },
    }
}

} // verus!
