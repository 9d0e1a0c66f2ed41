use peer_conn::correlator::responsePair;
use peer_conn::future::Future;

#[test]
fn future_set_then_get() {
    let mut f: Future<String, String> = Future::new();
    assert!(!f.isDone());
    f.set(Ok("sent!".to_string()));
    assert!(f.isDone());
    match f.get() {
        Ok(s) => assert_eq!(s, "sent!"),
        Err(_) => panic!("the installed result was Ok"),
    }
    // every reader observes the same installed result
    match f.get() {
        Ok(s) => assert_eq!(s, "sent!"),
        Err(_) => panic!("the installed result was Ok"),
    }
}

#[test]
fn future_holds_error_result() {
    let mut f: Future<u32, String> = Future::new();
    f.set(Err("gone".to_string()));
    match f.get() {
        Ok(_) => panic!("the installed result was Err"),
        Err(s) => assert_eq!(s, "gone"),
    }
}

#[test]
fn response_pair_starts_unset() {
    let (resp, _pending) = responsePair(4, 2, 100);
    assert_eq!(resp.reqId(), 4);
    assert_eq!(resp.slotIndex(), 2);
}
