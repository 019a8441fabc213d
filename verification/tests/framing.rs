use lsp_wire::frame::{FrameReader, FramingError, Phase};

fn framed(body: &str) -> Vec<u8> {
    format!("Content-Length: {}\r\n\r\n{}", body.len(), body).into_bytes()
}

fn text(frame: &[u8]) -> String {
    String::from_utf8(frame.to_vec()).unwrap()
}

#[test]
fn single_frame_round_trip() {
    let mut r = FrameReader::new();
    let (frames, err) = r.feed(&framed("{\"jsonrpc\":\"2.0\"}"));
    assert!(err.is_none());
    assert_eq!(frames.len(), 1);
    assert_eq!(text(&frames[0]), "{\"jsonrpc\":\"2.0\"}");
    assert!(matches!(r.phase, Phase::Headers { expected: None }));
    assert!(r.buf.is_empty());
}

#[test]
fn frame_splitting_two_in_one_chunk() {
    let mut input = framed("first body");
    input.extend_from_slice(&framed("the second body"));
    let mut r = FrameReader::new();
    let (frames, err) = r.feed(&input);
    assert!(err.is_none());
    assert_eq!(frames.len(), 2);
    assert_eq!(text(&frames[0]), "first body");
    assert_eq!(text(&frames[1]), "the second body");
    assert!(r.buf.is_empty());
}

#[test]
fn state_reset_between_frames() {
    // frame 1 declares 50 bytes; frame 2 must be measured afresh
    let body1 = "x".repeat(50);
    let mut input = framed(&body1);
    input.extend_from_slice(&framed("tiny"));
    let mut r = FrameReader::new();
    let (frames, err) = r.feed(&input);
    assert!(err.is_none());
    assert_eq!(frames.len(), 2);
    assert_eq!(frames[0].len(), 50);
    assert_eq!(text(&frames[1]), "tiny");
    // the stale expected length is gone
    assert!(matches!(r.phase, Phase::Headers { expected: None }));
}

#[test]
fn partial_chunks_accumulate() {
    let input = framed("split me");
    let mut r = FrameReader::new();
    let (a, e1) = r.feed(&input[..9]);
    assert!(a.is_empty() && e1.is_none());
    let (b, e2) = r.feed(&input[9..24]);
    assert!(b.is_empty() && e2.is_none());
    let (c, e3) = r.feed(&input[24..]);
    assert!(e3.is_none());
    assert_eq!(c.len(), 1);
    assert_eq!(text(&c[0]), "split me");
}

#[test]
fn empty_chunk_yields_nothing() {
    let mut r = FrameReader::new();
    let (frames, err) = r.feed(&[]);
    assert!(frames.is_empty() && err.is_none());
}

#[test]
fn extra_headers_are_ignored() {
    let body = "payload";
    let input = format!(
        "Content-Type: application/vscode-jsonrpc\r\nContent-Length: {}\r\nX-Extra: 1\r\n\r\n{}",
        body.len(),
        body
    )
    .into_bytes();
    let mut r = FrameReader::new();
    let (frames, err) = r.feed(&input);
    assert!(err.is_none());
    assert_eq!(frames.len(), 1);
    assert_eq!(text(&frames[0]), "payload");
}

#[test]
fn header_value_is_trimmed() {
    let input = b"Content-Length:   3 \r\n\r\nabc".to_vec();
    let mut r = FrameReader::new();
    let (frames, err) = r.feed(&input);
    assert!(err.is_none());
    assert_eq!(frames.len(), 1);
    assert_eq!(text(&frames[0]), "abc");
}

#[test]
fn missing_content_length_is_an_error() {
    let mut r = FrameReader::new();
    let (frames, err) = r.feed(b"Content-Type: text\r\n\r\nrest");
    assert!(frames.is_empty());
    assert_eq!(err, Some(FramingError::MissingContentLength));
}

#[test]
fn non_numeric_content_length_is_an_error() {
    let mut r = FrameReader::new();
    let (frames, err) = r.feed(b"Content-Length: ten\r\n\r\n");
    assert!(frames.is_empty());
    assert_eq!(err, Some(FramingError::InvalidContentLength));
}

#[test]
fn empty_content_length_is_an_error() {
    let mut r = FrameReader::new();
    let (frames, err) = r.feed(b"Content-Length:\r\n\r\n");
    assert!(frames.is_empty());
    assert_eq!(err, Some(FramingError::InvalidContentLength));
}

#[test]
fn oversized_content_length_is_an_error() {
    let mut r = FrameReader::new();
    let (frames, err) = r.feed(b"Content-Length: 99999999999999999999999\r\n\r\n");
    assert!(frames.is_empty());
    assert_eq!(err, Some(FramingError::InvalidContentLength));
}

#[test]
fn zero_length_frame_is_emitted_empty() {
    let mut r = FrameReader::new();
    let (frames, err) = r.feed(b"Content-Length: 0\r\n\r\n");
    assert!(err.is_none());
    assert_eq!(frames.len(), 1);
    assert!(frames[0].is_empty());
}

#[test]
fn good_frames_before_a_bad_header_still_come_out() {
    let mut input = framed("good one");
    input.extend_from_slice(b"Content-Length: nope\r\n\r\n");
    let mut r = FrameReader::new();
    let (frames, err) = r.feed(&input);
    assert_eq!(frames.len(), 1);
    assert_eq!(text(&frames[0]), "good one");
    assert_eq!(err, Some(FramingError::InvalidContentLength));
}

#[test]
fn body_bytes_may_contain_crlf() {
    let body = "line one\r\nline two";
    let input = framed(body);
    let mut r = FrameReader::new();
    let (frames, err) = r.feed(&input);
    assert!(err.is_none());
    assert_eq!(frames.len(), 1);
    assert_eq!(text(&frames[0]), body);
}
