use byteorder::BigEndian;
use byteorder::WriteBytesExt;
use peer_conn::codec::decode_frame;
use peer_conn::codec::decode_req;
use peer_conn::codec::encode_req;
use peer_conn::codec::encode_wire;
use peer_conn::codec::take_frame;
use peer_conn::codec::MsgKind;
use peer_conn::errors::CodecError;

#[test]
fn round_trip_three_args() {
    let args: Vec<Vec<u8>> = vec![b"a".to_vec(), b"bb".to_vec(), b"ccc".to_vec()];
    let encoded = encode_req(&args).unwrap();
    let decoded = decode_req(&encoded).unwrap();
    assert_eq!(decoded.len(), 3);
    assert_eq!(decoded[0].len(), 1);
    assert_eq!(decoded[1].len(), 2);
    assert_eq!(decoded[2].len(), 3);
    assert_eq!(decoded, args);
}

#[test]
fn exact_wire_bytes() {
    let args: Vec<Vec<u8>> = vec![b"a".to_vec(), b"bb".to_vec(), b"ccc".to_vec()];
    let encoded = encode_req(&args).unwrap();
    let expected: Vec<u8> = vec![
        0, 3, // argument count
        0, 0, 0, 1, // length of "a"
        0, 0, 0, 2, // length of "bb"
        0, 0, 0, 3, // length of "ccc"
        97, 98, 98, 99, 99, 99,
    ];
    assert_eq!(encoded, expected);
}

#[test]
fn header_matches_byteorder() {
    let args: Vec<Vec<u8>> = vec![b"hello".to_vec(), b"".to_vec()];
    let encoded = encode_req(&args).unwrap();
    let mut expected: Vec<u8> = Vec::new();
    expected.write_u16::<BigEndian>(2).unwrap();
    expected.write_u32::<BigEndian>(5).unwrap();
    expected.write_u32::<BigEndian>(0).unwrap();
    expected.extend_from_slice(b"hello");
    assert_eq!(encoded, expected);
}

#[test]
fn empty_request_round_trips() {
    let args: Vec<Vec<u8>> = vec![];
    let encoded = encode_req(&args).unwrap();
    assert_eq!(encoded, vec![0u8, 0u8]);
    let decoded = decode_req(&encoded).unwrap();
    assert!(decoded.is_empty());
}

#[test]
fn rejects_too_many_args() {
    let args: Vec<Vec<u8>> = vec![Vec::new(); 65_536];
    match encode_req(&args) {
        Err(CodecError::TooManyArgs) => {}
        _ => panic!("65_536 arguments must be rejected"),
    }
}

#[test]
fn accepts_max_arg_count() {
    let args: Vec<Vec<u8>> = vec![Vec::new(); 65_535];
    let encoded = encode_req(&args).unwrap();
    let decoded = decode_req(&encoded).unwrap();
    assert_eq!(decoded.len(), 65_535);
}

#[test]
fn decode_rejects_truncated_input() {
    // too short for the count field
    assert!(decode_req(&vec![0u8]).is_none());
    // count says one argument but its length field is missing
    assert!(decode_req(&vec![0u8, 1u8]).is_none());
    // length field says 2 bytes but only 1 follows
    assert!(decode_req(&vec![0u8, 1u8, 0u8, 0u8, 0u8, 2u8, 7u8]).is_none());
}

#[test]
fn decode_rejects_trailing_bytes() {
    let args: Vec<Vec<u8>> = vec![b"x".to_vec()];
    let mut encoded = encode_req(&args).unwrap();
    encoded.push(0);
    assert!(decode_req(&encoded).is_none());
}

#[test]
fn frame_envelope_round_trips() {
    let body = encode_req(&vec![b"zz".to_vec()]).unwrap();
    let wire = encode_wire(MsgKind::Request, 9, &body);
    let mut buf = wire.clone();
    let frame = take_frame(&mut buf).unwrap();
    assert!(buf.is_empty());
    let (kind, reqno, got) = decode_frame(&frame).unwrap();
    assert_eq!(kind, MsgKind::Request);
    assert_eq!(reqno, 9);
    assert_eq!(got, body);
}

#[test]
fn take_frame_waits_for_complete_frame() {
    let body: Vec<u8> = b"PONG".to_vec();
    let wire = encode_wire(MsgKind::Response, 3, &body);
    // nothing yet
    let mut partial: Vec<u8> = wire[..7].to_vec();
    assert!(take_frame(&mut partial).is_none());
    assert_eq!(partial.len(), 7);
    // half the frame
    let mut partial2: Vec<u8> = wire[..wire.len() - 1].to_vec();
    assert!(take_frame(&mut partial2).is_none());
    // whole frame plus the start of the next one
    let mut buf = wire.clone();
    buf.extend_from_slice(&[0, 0, 0]);
    let frame = take_frame(&mut buf).unwrap();
    assert_eq!(buf, vec![0u8, 0u8, 0u8]);
    let (kind, reqno, got) = decode_frame(&frame).unwrap();
    assert_eq!(kind, MsgKind::Response);
    assert_eq!(reqno, 3);
    assert_eq!(got, body);
}

#[test]
fn decode_frame_rejects_unknown_kind() {
    let mut frame: Vec<u8> = vec![2];
    frame.extend_from_slice(&[0, 0, 0, 0, 0, 0, 0, 1]);
    assert!(decode_frame(&frame).is_none());
    // too short for the fixed header
    assert!(decode_frame(&vec![0u8, 0u8]).is_none());
}
