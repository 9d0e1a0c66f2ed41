use peer_conn::codec::decode_frame;
use peer_conn::codec::decode_req;
use peer_conn::codec::encode_wire;
use peer_conn::codec::take_frame;
use peer_conn::codec::MsgKind;
use peer_conn::conn::DaemonAction;
use peer_conn::conn::NetEvent;
use peer_conn::conn::PeerConn;
use peer_conn::errors::ConnError;
use peer_conn::errors::IoFault;
use peer_conn::errors::ReqError;

#[test]
fn conn_it_works() {}

#[test]
fn lib_it_works() {}

/// Splits one on-wire unit into its frame.
fn frame_of(wire: Vec<u8>) -> Vec<u8> {
    let mut buf = wire;
    let frame = take_frame(&mut buf).unwrap();
    assert!(buf.is_empty());
    frame
}

#[test]
fn ping_pong() {
    let mut conn = PeerConn::new(None, None);
    let (resp, wire) = conn.req(&vec![b"PING".to_vec()], 0).unwrap();
    assert!(!conn.responseReady(&resp));

    // the peer's side: read the request off the wire
    let frame = frame_of(wire);
    let (kind, id, body) = decode_frame(&frame).unwrap();
    assert_eq!(kind, MsgKind::Request);
    assert_eq!(id, resp.reqId());
    let args = decode_req(&body).unwrap();
    assert_eq!(args, vec![b"PING".to_vec()]);

    // the peer answers under the same identifier
    let reply = frame_of(encode_wire(MsgKind::Response, id, &b"PONG".to_vec()));
    let act = conn.daemon_step(NetEvent::Frame(reply));
    assert!(matches!(act, DaemonAction::Continue));

    assert!(conn.responseReady(&resp));
    match conn.response(&resp) {
        Ok(v) => assert_eq!(v, &b"PONG".to_vec()),
        Err(_) => panic!("expected the routed payload"),
    }
}

#[test]
fn out_of_order_responses_route_by_id() {
    let mut conn = PeerConn::new(None, None);
    let (ra, _wa) = conn.req(&vec![b"A".to_vec()], 0).unwrap();
    let (rb, _wb) = conn.req(&vec![b"B".to_vec()], 0).unwrap();

    // the peer answers B first, then A
    let reply_b = frame_of(encode_wire(MsgKind::Response, rb.reqId(), &b"for B".to_vec()));
    conn.daemon_step(NetEvent::Frame(reply_b));
    assert!(conn.responseReady(&rb));
    assert!(!conn.responseReady(&ra));

    let reply_a = frame_of(encode_wire(MsgKind::Response, ra.reqId(), &b"for A".to_vec()));
    conn.daemon_step(NetEvent::Frame(reply_a));
    assert!(conn.responseReady(&ra));

    match conn.response(&ra) {
        Ok(v) => assert_eq!(v, &b"for A".to_vec()),
        Err(_) => panic!("A's promise must hold A's payload"),
    }
    match conn.response(&rb) {
        Ok(v) => assert_eq!(v, &b"for B".to_vec()),
        Err(_) => panic!("B's promise must hold B's payload"),
    }
}

#[test]
fn close_fails_every_request() {
    let mut conn = PeerConn::new(None, None);
    let (ra, _w) = conn.req(&vec![b"A".to_vec()], 0).unwrap();
    conn.close();

    // a request issued after close fails fast
    match conn.req(&vec![b"B".to_vec()], 0) {
        Err(ReqError::Terminal(ConnError::Closed)) => {}
        _ => panic!("a closed connection must reject new requests"),
    }

    // the loop's next step drains the pending promise
    let act = conn.daemon_step(NetEvent::ReadTimeout(0));
    assert!(matches!(act, DaemonAction::Exit));
    assert!(conn.responseReady(&ra));
    match conn.response(&ra) {
        Err(ConnError::Closed) => {}
        _ => panic!("the pending promise must resolve with the closed error"),
    }

    // and the connection stays terminal
    match conn.req(&vec![b"C".to_vec()], 0) {
        Err(ReqError::Terminal(ConnError::Closed)) => {}
        _ => panic!("a closed connection must stay closed"),
    }
}

#[test]
fn transport_failure_drains_and_sticks() {
    let mut conn = PeerConn::new(None, None);
    let (ra, _w) = conn.req(&vec![b"A".to_vec()], 0).unwrap();

    let act = conn.daemon_step(NetEvent::Failure(104));
    assert!(matches!(act, DaemonAction::Exit));

    assert!(conn.responseReady(&ra));
    match conn.response(&ra) {
        Err(ConnError::IoError(IoFault::Os(104))) => {}
        _ => panic!("the pending promise must resolve with the transport failure"),
    }

    // new requests fail without attempting I/O
    match conn.req(&vec![b"B".to_vec()], 0) {
        Err(ReqError::Terminal(ConnError::IoError(IoFault::Os(104)))) => {}
        _ => panic!("a failed connection must reject new requests"),
    }
}

#[test]
fn write_failure_reported_by_caller() {
    let mut conn = PeerConn::new(None, None);
    let (_ra, _w) = conn.req(&vec![b"A".to_vec()], 0).unwrap();
    // the transport reports a write failure; the first recorded error wins
    let e = conn.setIoError(32);
    assert_eq!(e, ConnError::IoError(IoFault::Os(32)));
    let e2 = conn.setIoError(104);
    assert_eq!(e2, ConnError::IoError(IoFault::Os(32)));
    match conn.req(&vec![b"B".to_vec()], 0) {
        Err(ReqError::Terminal(ConnError::IoError(IoFault::Os(32)))) => {}
        _ => panic!("the first recorded error is the one every caller sees"),
    }
}

#[test]
fn stale_request_fails_the_connection() {
    let mut conn = PeerConn::new(Some(1_000), None);
    let (ra, _w) = conn.req(&vec![b"A".to_vec()], 0).unwrap();

    // not yet stale
    let act = conn.daemon_step(NetEvent::ReadTimeout(500));
    assert!(matches!(act, DaemonAction::Continue));
    assert!(!conn.responseReady(&ra));

    // past the timeout: the whole connection turns terminal
    let act = conn.daemon_step(NetEvent::ReadTimeout(5_000));
    assert!(matches!(act, DaemonAction::Exit));
    assert!(conn.responseReady(&ra));
    match conn.response(&ra) {
        Err(ConnError::IoError(IoFault::Timeout)) => {}
        _ => panic!("a stale request must surface the timeout"),
    }
}

#[test]
fn inbound_request_is_forwarded() {
    let mut conn = PeerConn::new(None, None);
    let body = peer_conn::codec::encode_req(&vec![b"X".to_vec(), b"Y".to_vec()]).unwrap();
    let frame = frame_of(encode_wire(MsgKind::Request, 0, &body));
    let act = conn.daemon_step(NetEvent::Frame(frame));
    match act {
        DaemonAction::Forward(id, args) => {
            assert_eq!(id, 0);
            assert_eq!(args, vec![b"X".to_vec(), b"Y".to_vec()]);
        }
        _ => panic!("an inbound request goes to the application handler"),
    }
}

#[test]
fn unknown_response_is_dropped() {
    let mut conn = PeerConn::new(None, None);
    let frame = frame_of(encode_wire(MsgKind::Response, 7, &b"stray".to_vec()));
    let act = conn.daemon_step(NetEvent::Frame(frame));
    assert!(matches!(act, DaemonAction::Continue));
    // the connection is still healthy
    assert!(conn.req(&vec![b"A".to_vec()], 0).is_ok());
}

#[test]
fn malformed_frame_is_terminal() {
    let mut conn = PeerConn::new(None, None);
    let (ra, _w) = conn.req(&vec![b"A".to_vec()], 0).unwrap();
    let act = conn.daemon_step(NetEvent::Frame(vec![9, 9]));
    assert!(matches!(act, DaemonAction::Exit));
    match conn.response(&ra) {
        Err(ConnError::IoError(IoFault::Decode)) => {}
        _ => panic!("a malformed frame must fail the connection"),
    }
}

#[test]
fn request_ids_unique_and_nonzero() {
    let mut conn = PeerConn::new(None, None);
    let mut ids: Vec<u64> = Vec::new();
    for i in 0..5u8 {
        let (r, _w) = conn.req(&vec![vec![i]], 0).unwrap();
        ids.push(r.reqId());
    }
    for (i, a) in ids.iter().enumerate() {
        assert_ne!(*a, 0);
        for b in ids[i + 1..].iter() {
            assert_ne!(*a, *b);
        }
    }
}

#[test]
fn oversized_request_is_rejected_without_state_change() {
    let mut conn = PeerConn::new(None, None);
    let args: Vec<Vec<u8>> = vec![Vec::new(); 65_536];
    match conn.req(&args, 0) {
        Err(ReqError::Encode(peer_conn::errors::CodecError::TooManyArgs)) => {}
        _ => panic!("an oversized request must be rejected"),
    }
    // the connection is still healthy and issues the first identifier next
    let (r, _w) = conn.req(&vec![b"ok".to_vec()], 0).unwrap();
    assert_eq!(r.reqId(), 1);
}

#[test]
fn error_descriptions() {
    assert_eq!(ConnError::Closed.describe(), "previously closed");
    assert_eq!(
        ConnError::IoError(IoFault::Os(1)).describe(),
        "transport failure"
    );
}
