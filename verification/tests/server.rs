use lsp_wire::codec::{decode, Outgoing};
use lsp_wire::dispatch::{dispatch, handle_body};
use lsp_wire::frame::FrameReader;
use lsp_wire::registry::{HandlerRegistry, NotificationHandler, RequestHandler};
use lsp_wire::writer::{
    frame_bytes, initialize, initialized, log_message, respond, send_error_response,
    send_message, send_method_not_found_response, Message,
};

fn framed(body: &str) -> Vec<u8> {
    format!("Content-Length: {}\r\n\r\n{}", body.len(), body).into_bytes()
}

fn text(bytes: &[u8]) -> String {
    String::from_utf8(bytes.to_vec()).unwrap()
}

#[test]
fn unknown_request_method_gets_method_not_found() {
    let reg = HandlerRegistry::with_reference_handlers();
    let out = respond(&reg, b"{\"jsonrpc\":\"2.0\",\"id\":7,\"method\":\"foo\"}");
    assert_eq!(out.len(), 1);
    let body = "{\"jsonrpc\":\"2.0\",\"id\":7,\"error\":{\"code\":-32601,\"message\":\"`foo` is not supported\"}}";
    assert_eq!(text(&out[0]), format!("Content-Length: {}\r\n\r\n{}", body.len(), body));
}

#[test]
fn unknown_notification_method_gets_no_reply() {
    let reg = HandlerRegistry::with_reference_handlers();
    let out = respond(&reg, b"{\"jsonrpc\":\"2.0\",\"method\":\"bar\"}");
    assert!(out.is_empty());
}

#[test]
fn initialize_flow_returns_capabilities() {
    let reg = HandlerRegistry::with_reference_handlers();
    let out = respond(
        &reg,
        b"{\"jsonrpc\":\"2.0\",\"id\":1,\"method\":\"initialize\",\"params\":{}}",
    );
    assert_eq!(out.len(), 1);
    let body = "{\"jsonrpc\":\"2.0\",\"id\":1,\"result\":{\"capabilities\":{}}}";
    assert_eq!(text(&out[0]), format!("Content-Length: {}\r\n\r\n{}", body.len(), body));
}

#[test]
fn invalid_envelope_gets_invalid_request() {
    let reg = HandlerRegistry::with_reference_handlers();
    let out = respond(&reg, b"{\"jsonrpc\":\"2.0\"}");
    assert_eq!(out.len(), 1);
    let body = "{\"jsonrpc\":\"2.0\",\"id\":null,\"error\":{\"code\":-32600,\"message\":\"Received an invalid request\"}}";
    assert_eq!(text(&out[0]), format!("Content-Length: {}\r\n\r\n{}", body.len(), body));
}

#[test]
fn non_object_body_gets_invalid_request() {
    let reg = HandlerRegistry::with_reference_handlers();
    let out = respond(&reg, b"[1,2]");
    assert_eq!(out.len(), 1);
    assert!(text(&out[0]).contains("\"code\":-32600"));
}

#[test]
fn malformed_json_gets_parse_error_and_reader_recovers() {
    let reg = HandlerRegistry::with_reference_handlers();
    let mut reader = FrameReader::new();

    let (frames, err) = reader.feed(&framed("this is not json"));
    assert!(err.is_none());
    assert_eq!(frames.len(), 1);
    let out = respond(&reg, &frames[0]);
    assert_eq!(out.len(), 1);
    let body = "{\"jsonrpc\":\"2.0\",\"id\":null,\"error\":{\"code\":-32700,\"message\":\"received an invalid JSON\"}}";
    assert_eq!(text(&out[0]), format!("Content-Length: {}\r\n\r\n{}", body.len(), body));

    // the same reader keeps working for the next, valid frame
    let (frames, err) = reader.feed(&framed(
        "{\"jsonrpc\":\"2.0\",\"id\":1,\"method\":\"initialize\"}",
    ));
    assert!(err.is_none());
    assert_eq!(frames.len(), 1);
    let out = respond(&reg, &frames[0]);
    assert_eq!(out.len(), 1);
    assert!(text(&out[0]).contains("\"result\":{\"capabilities\":{}}"));
}

#[test]
fn initialized_notification_emits_log_message() {
    let reg = HandlerRegistry::with_reference_handlers();
    let out = respond(&reg, b"{\"jsonrpc\":\"2.0\",\"method\":\"initialized\"}");
    assert_eq!(out.len(), 1);
    let body = "{\"jsonrpc\":\"2.0\",\"method\":\"window/logMessage\",\"params\":{\"type\":3,\"message\":\"initialized\"}}";
    assert_eq!(text(&out[0]), format!("Content-Length: {}\r\n\r\n{}", body.len(), body));
}

#[test]
fn response_shaped_traffic_is_ignored() {
    let reg = HandlerRegistry::with_reference_handlers();
    let out = respond(&reg, b"{\"jsonrpc\":\"2.0\",\"id\":4,\"result\":{}}");
    assert!(out.is_empty());
}

#[test]
fn wire_round_trip() {
    // frame an outgoing envelope, feed it back, decode the frame: the
    // fields survive, and the reader ends up fresh for the next frame
    let reg = HandlerRegistry::with_reference_handlers();
    let outgoing = respond(
        &reg,
        b"{\"jsonrpc\":\"2.0\",\"id\":31,\"method\":\"initialize\"}",
    );
    assert_eq!(outgoing.len(), 1);
    let mut reader = FrameReader::new();
    let (frames, err) = reader.feed(&outgoing[0]);
    assert!(err.is_none());
    assert_eq!(frames.len(), 1);
    let env = decode(&frames[0]).unwrap();
    assert_eq!(env.id, Some(31));
    assert_eq!(env.method, None);
    assert!(reader.buf.is_empty());
}

#[test]
fn dispatch_on_empty_registry_knows_nothing() {
    let reg = HandlerRegistry::new();
    let env = decode(b"{\"jsonrpc\":\"2.0\",\"id\":2,\"method\":\"initialize\"}").unwrap();
    let out = dispatch(&reg, &env);
    assert_eq!(out.len(), 1);
    assert!(matches!(&out[0], Outgoing::ErrorReply { id: Some(2), code: -32601, .. }));
}

#[test]
fn registration_binds_methods() {
    let mut reg = HandlerRegistry::new();
    reg.register_request(b"initialize".to_vec(), RequestHandler::Initialize);
    reg.register_notification(b"initialized".to_vec(), NotificationHandler::Initialized);
    let out = handle_body(&reg, b"{\"jsonrpc\":\"2.0\",\"id\":5,\"method\":\"initialize\"}");
    assert_eq!(out.len(), 1);
    assert!(matches!(&out[0], Outgoing::InitializeResult { id: 5 }));
    let out = handle_body(&reg, b"{\"jsonrpc\":\"2.0\",\"method\":\"initialized\"}");
    assert_eq!(out.len(), 1);
    assert!(matches!(&out[0], Outgoing::LogMessage { .. }));
}

#[test]
fn writer_helpers_produce_framed_messages() {
    let init = initialize(1);
    let body = "{\"jsonrpc\":\"2.0\",\"id\":1,\"result\":{\"capabilities\":{}}}";
    assert_eq!(text(&init), format!("Content-Length: {}\r\n\r\n{}", body.len(), body));

    let ntf = initialized();
    let body = "{\"jsonrpc\":\"2.0\",\"method\":\"window/logMessage\",\"params\":{\"type\":3,\"message\":\"initialized\"}}";
    assert_eq!(text(&ntf), format!("Content-Length: {}\r\n\r\n{}", body.len(), body));

    let log = log_message(b"hi");
    assert!(text(&log).contains("\"message\":\"hi\""));

    let err = send_error_response(None, -32700, b"received an invalid JSON");
    let body = "{\"jsonrpc\":\"2.0\",\"id\":null,\"error\":{\"code\":-32700,\"message\":\"received an invalid JSON\"}}";
    assert_eq!(text(&err), format!("Content-Length: {}\r\n\r\n{}", body.len(), body));

    let nf = send_method_not_found_response(Some(9), b"nope");
    let body = "{\"jsonrpc\":\"2.0\",\"id\":9,\"error\":{\"code\":-32601,\"message\":\"`nope` is not supported\"}}";
    assert_eq!(text(&nf), format!("Content-Length: {}\r\n\r\n{}", body.len(), body));
}

#[test]
fn message_wraps_a_body_with_its_length() {
    let msg = Message::new(b"{\"jsonrpc\":\"2.0\"}".to_vec());
    assert_eq!(msg.content_length, 17);
    assert_eq!(
        text(&msg.to_wire()),
        "Content-Length: 17\r\n\r\n{\"jsonrpc\":\"2.0\"}"
    );
    assert_eq!(text(&frame_bytes(b"ab")), "Content-Length: 2\r\n\r\nab");
}

#[test]
fn send_message_frames_an_envelope() {
    let w = send_message(&Outgoing::InitializeResult { id: 3 });
    let body = "{\"jsonrpc\":\"2.0\",\"id\":3,\"result\":{\"capabilities\":{}}}";
    assert_eq!(text(&w), format!("Content-Length: {}\r\n\r\n{}", body.len(), body));
}

#[test]
fn non_utf8_body_draws_the_parse_error_reply() {
    let reg = HandlerRegistry::with_reference_handlers();
    let out = respond(&reg, b"{\"method\":\"\xff\"}");
    assert_eq!(out.len(), 1);
    assert!(text(&out[0]).contains("\"code\":-32700"));
}

#[test]
fn request_handler_is_invoked_with_id_and_params() {
    let reg = HandlerRegistry::with_reference_handlers();
    let env = decode(b"{\"jsonrpc\":\"2.0\",\"id\":6,\"method\":\"initialize\",\"params\":{\"x\":1}}")
        .unwrap();
    assert_eq!(env.params, Some(b"{\"x\":1}".to_vec()));
    let out = dispatch(&reg, &env);
    assert_eq!(out.len(), 1);
    assert!(matches!(&out[0], Outgoing::InitializeResult { id: 6 }));
}
