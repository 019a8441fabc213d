use lsp_wire::codec::{decode, encode, CodecError, MessageClass, Outgoing};

fn dec(s: &str) -> Result<lsp_wire::codec::Envelope, CodecError> {
    decode(s.as_bytes())
}

#[test]
fn request_fields_are_extracted() {
    let env = dec("{\"jsonrpc\":\"2.0\",\"id\":7,\"method\":\"foo\"}").unwrap();
    assert_eq!(env.id, Some(7));
    assert_eq!(env.method, Some(b"foo".to_vec()));
    assert_eq!(env.classify(), MessageClass::Request);
}

#[test]
fn notification_has_no_id() {
    let env = dec("{\"jsonrpc\":\"2.0\",\"method\":\"bar\"}").unwrap();
    assert_eq!(env.id, None);
    assert_eq!(env.method, Some(b"bar".to_vec()));
    assert_eq!(env.classify(), MessageClass::Notification);
}

#[test]
fn response_shape_has_only_id() {
    let env = dec("{\"jsonrpc\":\"2.0\",\"id\":3,\"result\":{}}").unwrap();
    assert_eq!(env.id, Some(3));
    assert_eq!(env.method, None);
    assert_eq!(env.classify(), MessageClass::Response);
}

#[test]
fn envelope_without_id_or_method_is_invalid() {
    let env = dec("{\"jsonrpc\":\"2.0\"}").unwrap();
    assert_eq!(env.id, None);
    assert_eq!(env.method, None);
    assert_eq!(env.classify(), MessageClass::Invalid);
}

#[test]
fn malformed_json_is_a_parse_failure() {
    assert_eq!(dec("{\"jsonrpc\":"), Err(CodecError::ParseFailure));
    assert_eq!(dec(""), Err(CodecError::ParseFailure));
    assert_eq!(dec("{\"a\":01}"), Err(CodecError::ParseFailure));
    assert_eq!(dec("{\"a\":1,}"), Err(CodecError::ParseFailure));
    assert_eq!(dec("{\"a\" 1}"), Err(CodecError::ParseFailure));
    assert_eq!(dec("{\"a\":1} extra"), Err(CodecError::ParseFailure));
    assert_eq!(dec("{\"a\":\"\\x\"}"), Err(CodecError::ParseFailure));
}

#[test]
fn non_object_body_is_an_invalid_request() {
    assert_eq!(dec("42"), Err(CodecError::InvalidRequest));
    assert_eq!(dec("\"text\""), Err(CodecError::InvalidRequest));
    assert_eq!(dec("[1,2,3]"), Err(CodecError::InvalidRequest));
    assert_eq!(dec("null"), Err(CodecError::InvalidRequest));
    assert_eq!(dec(" true "), Err(CodecError::InvalidRequest));
}

#[test]
fn whitespace_is_insignificant() {
    let env = dec(" {\n\t\"id\" : 5 ,\r\n \"method\" : \"m\" } ").unwrap();
    assert_eq!(env.id, Some(5));
    assert_eq!(env.method, Some(b"m".to_vec()));
}

#[test]
fn nested_params_are_skipped() {
    let env = dec(
        "{\"method\":\"go\",\"params\":{\"a\":[1,-2.5e3,true,null,\"s\"],\"b\":{\"c\":[]}},\"id\":9}",
    )
    .unwrap();
    assert_eq!(env.id, Some(9));
    assert_eq!(env.method, Some(b"go".to_vec()));
}

#[test]
fn id_must_be_an_unsigned_integer() {
    assert_eq!(dec("{\"id\":\"7\",\"method\":\"m\"}").unwrap().id, None);
    assert_eq!(dec("{\"id\":-7,\"method\":\"m\"}").unwrap().id, None);
    assert_eq!(dec("{\"id\":7.0,\"method\":\"m\"}").unwrap().id, None);
    assert_eq!(dec("{\"id\":7e2,\"method\":\"m\"}").unwrap().id, None);
    assert_eq!(dec("{\"id\":null,\"method\":\"m\"}").unwrap().id, None);
    assert_eq!(
        dec("{\"id\":18446744073709551615}").unwrap().id,
        Some(u64::MAX)
    );
    assert_eq!(dec("{\"id\":18446744073709551616}").unwrap().id, None);
}

#[test]
fn method_must_be_a_string() {
    assert_eq!(dec("{\"id\":1,\"method\":7}").unwrap().method, None);
    assert_eq!(dec("{\"id\":1,\"method\":{}}").unwrap().method, None);
}

#[test]
fn last_duplicate_key_wins() {
    let env = dec("{\"id\":1,\"id\":2,\"method\":\"a\",\"method\":\"b\"}").unwrap();
    assert_eq!(env.id, Some(2));
    assert_eq!(env.method, Some(b"b".to_vec()));
    let env = dec("{\"id\":1,\"id\":\"x\"}").unwrap();
    assert_eq!(env.id, None);
}

#[test]
fn method_escapes_are_unescaped() {
    let env = dec("{\"method\":\"a\\nb\\\"c\\\\d\\u0041\"}").unwrap();
    assert_eq!(env.method, Some(b"a\nb\"c\\dA".to_vec()));
}

#[test]
fn unicode_escapes_become_utf8() {
    let env = dec("{\"method\":\"\\u00e9\\u20ac\\ud83d\\ude00\"}").unwrap();
    let mut expect = Vec::new();
    expect.extend_from_slice("é€😀".as_bytes());
    assert_eq!(env.method, Some(expect));
}

#[test]
fn lone_surrogate_is_rejected() {
    assert_eq!(dec("{\"method\":\"\\ud800\"}"), Err(CodecError::ParseFailure));
}

#[test]
fn encode_initialize_result() {
    let out = encode(&Outgoing::InitializeResult { id: 1 });
    assert_eq!(
        String::from_utf8(out).unwrap(),
        "{\"jsonrpc\":\"2.0\",\"id\":1,\"result\":{\"capabilities\":{}}}"
    );
}

#[test]
fn encode_error_reply_with_id() {
    let out = encode(&Outgoing::ErrorReply {
        id: Some(7),
        code: -32601,
        message: b"`foo` is not supported".to_vec(),
    });
    assert_eq!(
        String::from_utf8(out).unwrap(),
        "{\"jsonrpc\":\"2.0\",\"id\":7,\"error\":{\"code\":-32601,\"message\":\"`foo` is not supported\"}}"
    );
}

#[test]
fn encode_error_reply_with_null_id() {
    let out = encode(&Outgoing::ErrorReply {
        id: None,
        code: -32600,
        message: b"Received an invalid request".to_vec(),
    });
    assert_eq!(
        String::from_utf8(out).unwrap(),
        "{\"jsonrpc\":\"2.0\",\"id\":null,\"error\":{\"code\":-32600,\"message\":\"Received an invalid request\"}}"
    );
}

#[test]
fn encode_log_message() {
    let out = encode(&Outgoing::LogMessage {
        message: b"initialized".to_vec(),
    });
    assert_eq!(
        String::from_utf8(out).unwrap(),
        "{\"jsonrpc\":\"2.0\",\"method\":\"window/logMessage\",\"params\":{\"type\":3,\"message\":\"initialized\"}}"
    );
}

#[test]
fn encode_escapes_the_message() {
    let out = encode(&Outgoing::ErrorReply {
        id: None,
        code: 1,
        message: b"a\"b\\c\nd\x01".to_vec(),
    });
    assert_eq!(
        String::from_utf8(out).unwrap(),
        "{\"jsonrpc\":\"2.0\",\"id\":null,\"error\":{\"code\":1,\"message\":\"a\\\"b\\\\c\\nd\\u0001\"}}"
    );
}

#[test]
fn codec_round_trip_on_encoder_output() {
    // what the encoder writes, the decoder reads back, field for field
    let reply = encode(&Outgoing::InitializeResult { id: 42 });
    let env = decode(&reply).unwrap();
    assert_eq!(env.id, Some(42));
    assert_eq!(env.method, None);

    let err = encode(&Outgoing::ErrorReply {
        id: Some(9),
        code: -32601,
        message: b"`x\"y` is not supported".to_vec(),
    });
    let env = decode(&err).unwrap();
    assert_eq!(env.id, Some(9));
    assert_eq!(env.method, None);

    let log = encode(&Outgoing::LogMessage {
        message: b"hello\nworld".to_vec(),
    });
    let env = decode(&log).unwrap();
    assert_eq!(env.id, None);
    assert_eq!(env.method, Some(b"window/logMessage".to_vec()));
}

#[test]
fn non_utf8_string_bytes_are_a_parse_failure() {
    // a lone 0xFF can never appear in UTF-8 text
    assert_eq!(
        decode(b"{\"\xff\":1}"),
        Err(CodecError::ParseFailure)
    );
    assert_eq!(
        decode(b"{\"method\":\"\xff\"}"),
        Err(CodecError::ParseFailure)
    );
    // overlong two-byte form of NUL
    assert_eq!(
        decode(b"{\"a\":\"\xc0\x80\"}"),
        Err(CodecError::ParseFailure)
    );
    // a UTF-8-encoded surrogate
    assert_eq!(
        decode(b"{\"a\":\"\xed\xa0\x80\"}"),
        Err(CodecError::ParseFailure)
    );
    // a truncated sequence
    assert_eq!(
        decode(b"{\"a\":\"\xe2\x82\"}"),
        Err(CodecError::ParseFailure)
    );
}

#[test]
fn well_formed_utf8_string_bytes_are_accepted() {
    // two-, three- and four-byte sequences, raw on the wire
    let body = "{\"method\":\"é€😀\"}".as_bytes();
    let env = decode(body).unwrap();
    assert_eq!(env.method, Some("é€😀".as_bytes().to_vec()));
}

#[test]
fn params_text_is_carried_in_the_envelope() {
    let env = dec("{\"id\":4,\"method\":\"initialize\",\"params\":{\"a\":[1,2]}}").unwrap();
    assert_eq!(env.params, Some(b"{\"a\":[1,2]}".to_vec()));
    let env = dec("{\"id\":4,\"method\":\"m\"}").unwrap();
    assert_eq!(env.params, None);
    // the raw text of the last params member, exactly as it stood
    let env = dec("{\"params\":1,\"params\":[true, null]}").unwrap();
    assert_eq!(env.params, Some(b"[true, null]".to_vec()));
}
