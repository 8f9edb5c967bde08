use linearf::rpc::{
    MessageId, MsgDe, MsgDeBody, PreloadError, PreloadResponse, Requests, SessionId, SourceRequest
};
use linearf::transport::{encode_frame, FrameReader, ReadError};

#[test]
fn frame_has_little_endian_length_header() {
    assert_eq!(encode_frame(b"abc"), vec![3, 0, 0, 0, b'a', b'b', b'c']);
    assert_eq!(encode_frame(b""), vec![0, 0, 0, 0]);
    let long = vec![7u8; 300];
    let f = encode_frame(&long);
    assert_eq!(&f[..4], &[44, 1, 0, 0]);
    assert_eq!(f.len(), 304);
}

#[test]
fn reader_gives_back_what_was_framed() {
    let mut r = FrameReader::new();
    assert_eq!(r.take_frame(), None);
    r.feed(&encode_frame(b"{\"a\":1}"));
    assert_eq!(r.take_frame(), Some(b"{\"a\":1}".to_vec()));
    assert_eq!(r.take_frame(), None);
}

#[test]
fn look_keeps_the_frame_until_consumed() {
    let mut r = FrameReader::new();
    r.feed(&encode_frame(b"not json"));
    r.feed(&encode_frame(b"x"));
    assert_eq!(r.look(), Some(b"not json".to_vec()));
    // looking again gives the same frame: nothing was removed
    assert_eq!(r.look(), Some(b"not json".to_vec()));
    r.consume();
    assert_eq!(r.look(), Some(b"x".to_vec()));
    r.consume();
    assert_eq!(r.look(), None);
}

#[test]
fn reader_waits_for_split_frames() {
    let bytes = encode_frame(b"hello");
    let mut r = FrameReader::new();
    r.feed(&bytes[..2]);
    assert_eq!(r.take_frame(), None);
    r.feed(&bytes[2..6]);
    assert_eq!(r.take_frame(), None);
    r.feed(&bytes[6..]);
    assert_eq!(r.take_frame(), Some(b"hello".to_vec()));
}

#[test]
fn reader_splits_two_frames_fed_at_once() {
    let mut bytes = encode_frame(b"one");
    bytes.extend(encode_frame(b"two"));
    let mut r = FrameReader::new();
    r.feed(&bytes);
    assert_eq!(r.take_frame(), Some(b"one".to_vec()));
    assert_eq!(r.take_frame(), Some(b"two".to_vec()));
    assert_eq!(r.take_frame(), None);
}

#[test]
fn read_error_variants() {
    let e = ReadError::Error("bad json".into());
    assert!(matches!(e, ReadError::Error(m) if m == "bad json"));
    assert!(matches!(ReadError::Closed, ReadError::Closed));
}

#[test]
fn ids_count_up() {
    assert_eq!(MessageId(1).next(), MessageId(2));
    assert_eq!(SessionId(41).next(), SessionId(42));
}

#[test]
fn answers_reach_their_requests_once() {
    let mut reqs: Requests<&str> = Requests::new();
    let a = reqs.register("first");
    let b = reqs.register("second");
    assert_eq!(a, MessageId(1));
    assert_eq!(b, MessageId(2));
    assert_eq!(reqs.answer(Some(MessageId(2))), Some("second"));
    assert_eq!(reqs.answer(Some(MessageId(2))), None);
    assert_eq!(reqs.answer(None), None);
    assert_eq!(reqs.answer(Some(MessageId(7))), None);
    assert_eq!(reqs.answer(Some(MessageId(1))), Some("first"));
    assert_eq!(reqs.register("third"), MessageId(3));
}

#[test]
fn messages_carry_their_bodies() {
    let msg = MsgDe {
        id: Some(MessageId(3)),
        body: MsgDeBody::Source(SourceRequest { session: SessionId(1), name: "file".into() }),
    };
    let body = msg.body.clone();
    assert!(matches!(body, MsgDeBody::Source(r) if r.name == "file" && r.session == SessionId(1)));
    let ok = MsgDeBody::Preload(Ok(PreloadResponse {}));
    assert!(matches!(ok.clone(), MsgDeBody::Preload(Ok(PreloadResponse {}))));
    assert_eq!(PreloadError {}, PreloadError {});
}
