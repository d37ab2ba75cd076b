use sidl_session::codec::{decode, encode, DecodeError};
use sidl_session::messages::{BaseMessage, BaseMessageKind};

fn assert_same(a: &BaseMessage, b: &BaseMessage) {
    assert_eq!(a.service, b.service);
    assert_eq!(a.object, b.object);
    assert_eq!(a.kind, b.kind);
    assert_eq!(a.content, b.content);
}

#[test]
fn round_trip_request() {
    let m = BaseMessage {
        service: 7,
        object: 3,
        kind: BaseMessageKind::Request(42),
        content: vec![1, 2, 3, 4, 5],
    };
    let bytes = encode(&m);
    let back = decode(&bytes).expect("a frame produced by encode decodes");
    assert_same(&m, &back);
}

#[test]
fn round_trip_response() {
    let m = BaseMessage {
        service: 0,
        object: 0,
        kind: BaseMessageKind::Response(u64::MAX),
        content: vec![],
    };
    let bytes = encode(&m);
    let back = decode(&bytes).expect("a frame produced by encode decodes");
    assert_same(&m, &back);
}

#[test]
fn round_trip_event() {
    let m = BaseMessage {
        service: u32::MAX,
        object: 9,
        kind: BaseMessageKind::Event,
        content: vec![0xff, 0x00, 0xaa],
    };
    let bytes = encode(&m);
    let back = decode(&bytes).expect("a frame produced by encode decodes");
    assert_same(&m, &back);
}

#[test]
fn request_frame_layout() {
    let m = BaseMessage {
        service: 1,
        object: 2,
        kind: BaseMessageKind::Request(3),
        content: vec![9],
    };
    let bytes = encode(&m);
    let mut expected = vec![
        1, 0, 0, 0, // service
        2, 0, 0, 0, // object
        0, // request tag
        3, 0, 0, 0, 0, 0, 0, 0, // request id
        1, 0, 0, 0, // content length
    ];
    expected.push(9);
    assert_eq!(bytes, expected);
}

#[test]
fn decode_rejects_truncated_header() {
    assert!(matches!(decode(&[1, 2, 3]), Err(DecodeError::Malformed)));
    assert!(matches!(decode(&[]), Err(DecodeError::Malformed)));
}

#[test]
fn decode_rejects_unknown_kind_tag() {
    let bytes = vec![
        1, 0, 0, 0, //
        2, 0, 0, 0, //
        7, // no such kind
        0, 0, 0, 0,
    ];
    assert!(matches!(decode(&bytes), Err(DecodeError::UnknownKind)));
}

#[test]
fn decode_rejects_truncated_request() {
    // A request tag but no room for the correlation id.
    let bytes = vec![1, 0, 0, 0, 2, 0, 0, 0, 0, 5, 5];
    assert!(matches!(decode(&bytes), Err(DecodeError::Malformed)));
}

#[test]
fn decode_rejects_length_mismatch() {
    let m = BaseMessage {
        service: 1,
        object: 2,
        kind: BaseMessageKind::Event,
        content: vec![8, 8],
    };
    let mut bytes = encode(&m);
    bytes.push(0); // trailing byte the length prefix does not cover
    assert!(matches!(decode(&bytes), Err(DecodeError::Malformed)));
}

#[test]
fn decode_rejects_truncated_content() {
    let m = BaseMessage {
        service: 1,
        object: 2,
        kind: BaseMessageKind::Event,
        content: vec![8, 8],
    };
    let mut bytes = encode(&m);
    bytes.pop();
    assert!(matches!(decode(&bytes), Err(DecodeError::Malformed)));
}
