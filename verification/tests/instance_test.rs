use loco_protocol::{
    build_request_frame, decode_bson_document, encode_bson_document, BodyType, DispatchAction,
    EncodedMethod, Error, InstanceState, LocoHeader,
};

fn reply_header(pid: i32, method: &str, body_size: u32) -> LocoHeader {
    LocoHeader {
        id: pid,
        status: 0,
        method: EncodedMethod::from_str(method).unwrap(),
        body_type: BodyType::Bson,
        body_size,
    }
}

#[test]
fn request_response_pairing() {
    let mut state = InstanceState::new();
    let pid = state.begin_request(0, "LOGIN").expect("method fits");

    let mut request = bson::Document::new();
    request.insert("user", "a");
    let body = encode_bson_document(&request).expect("encode");
    let frame = build_request_frame(pid, "LOGIN", &body).expect("frame");
    assert_eq!(frame.len(), 22 + body.len());

    let mut reply = bson::Document::new();
    reply.insert("ok", true);
    let reply_body = encode_bson_document(&reply).expect("encode");
    let header = reply_header(pid, "LOGIN", reply_body.len() as u32);

    match state.dispatch(&header) {
        DispatchAction::Reply { pid: rpid, method_mismatch, .. } => {
            assert_eq!(rpid, pid);
            assert!(!method_mismatch);
        },
        other => panic!("expected a reply, got {:?}", other),
    }
    let delivered = decode_bson_document(&reply_body).expect("decode");
    assert_eq!(delivered.get_bool("ok"), Ok(true));
    assert_eq!(state.pending_len(), 0);
}

#[test]
fn timeout_evicts_the_pending_entry() {
    let mut state = InstanceState::new();
    let pid = state.begin_request(0, "NOOP").expect("method fits");

    let untouched = state.sweep(100, 100);
    assert!(untouched.is_empty());
    assert_eq!(state.pending_len(), 1);

    let expired = state.sweep(101, 100);
    assert_eq!(expired, vec![pid]);
    assert_eq!(state.pending_len(), 0);

    let again = state.sweep(1000, 100);
    assert!(again.is_empty());
}

#[test]
fn push_when_no_pid_matches() {
    let mut state = InstanceState::new();
    let header = reply_header(99999, "PUSH", 0);
    match state.dispatch(&header) {
        DispatchAction::Push => {},
        other => panic!("expected a push, got {:?}", other),
    }
    assert_eq!(state.pending_len(), 0);
}

#[test]
fn method_mismatch_still_delivers() {
    let mut state = InstanceState::new();
    let pid = state.begin_request(0, "A").expect("method fits");
    let header = reply_header(pid, "B", 0);
    match state.dispatch(&header) {
        DispatchAction::Reply { pid: rpid, method_mismatch, expected_method } => {
            assert_eq!(rpid, pid);
            assert!(method_mismatch);
            assert_eq!(expected_method, EncodedMethod::from_str("A").unwrap());
        },
        other => panic!("expected a reply, got {:?}", other),
    }
}

#[test]
fn pids_are_unique_and_monotonic() {
    let mut state = InstanceState::new();
    let p1 = state.begin_request(0, "ONE").expect("fits");
    let p2 = state.begin_request(0, "TWO").expect("fits");
    let p3 = state.next_pid();
    assert_eq!(p1, 1);
    assert_eq!(p2, 2);
    assert_eq!(p3, 3);
    assert_ne!(p1, p2);
    assert_eq!(state.pending_len(), 2);
}

#[test]
fn pending_table_bounded_by_inflight_requests() {
    let mut state = InstanceState::new();
    for i in 0..5 {
        let before = state.pending_len();
        let _ = state.next_pid();
        assert_eq!(state.pending_len(), before, "fire-and-forget sends never grow the table");
        let _ = state.begin_request(i, "M").expect("fits");
        assert_eq!(state.pending_len() as u64, i + 1);
    }
    let header = reply_header(2, "M", 0);
    match state.dispatch(&header) {
        DispatchAction::Reply { .. } => {},
        other => panic!("expected a reply, got {:?}", other),
    }
    assert_eq!(state.pending_len(), 4);
}

#[test]
fn each_pid_resolves_exactly_once() {
    let mut state = InstanceState::new();
    let pid = state.begin_request(0, "ONCE").expect("fits");
    match state.dispatch(&reply_header(pid, "ONCE", 0)) {
        DispatchAction::Reply { .. } => {},
        other => panic!("expected a reply, got {:?}", other),
    }
    match state.dispatch(&reply_header(pid, "ONCE", 0)) {
        DispatchAction::Push => {},
        other => panic!("a second reply with the same pid is a push, got {:?}", other),
    }
    assert!(state.sweep(u64::MAX, 0).is_empty());
    assert!(state.drain().is_empty());
}

#[test]
fn drain_closes_every_pending_request() {
    let mut state = InstanceState::new();
    let p1 = state.begin_request(0, "A").expect("fits");
    let p2 = state.begin_request(0, "B").expect("fits");
    let closed = state.drain();
    assert_eq!(closed, vec![p1, p2]);
    assert_eq!(state.pending_len(), 0);
}

#[test]
fn stop_flag_round_trip() {
    let mut state = InstanceState::new();
    assert!(!state.is_stopped());
    state.stop();
    assert!(state.is_stopped());
}

#[test]
fn non_bson_payload_is_discarded() {
    let mut state = InstanceState::new();
    let pid = state.begin_request(0, "KEEP").expect("fits");
    let header = LocoHeader {
        id: pid,
        status: 0,
        method: EncodedMethod::from_str("KEEP").unwrap(),
        body_type: BodyType::Unknown(3),
        body_size: 0,
    };
    match state.dispatch(&header) {
        DispatchAction::Discard => {},
        other => panic!("expected a discard, got {:?}", other),
    }
    assert_eq!(state.pending_len(), 1, "a discarded payload leaves the entry pending");
}

#[test]
fn inbound_id_advances_the_counter() {
    let mut state = InstanceState::new();
    let header = reply_header(50, "JUMP", 0);
    let _ = state.dispatch(&header);
    assert_eq!(state.next_pid(), 51);
}

#[test]
fn request_frame_wire_layout() {
    let body = vec![1u8, 2];
    let frame = build_request_frame(1, "TEST", &body).expect("frame");
    let mut expected = vec![1, 0, 0, 0, 0, 0];
    expected.extend_from_slice(b"TEST");
    expected.extend_from_slice(&[0u8; 7]);
    expected.push(0);
    expected.extend_from_slice(&2u32.to_le_bytes());
    expected.extend_from_slice(&[1, 2]);
    assert_eq!(frame, expected);
}

#[test]
fn overlong_method_fails_the_request() {
    let mut state = InstanceState::new();
    assert_eq!(state.begin_request(0, "THIRTEENCHARS"), Err(Error::Io));
    assert_eq!(state.pending_len(), 0);
    assert_eq!(build_request_frame(1, "THIRTEENCHARS", &Vec::new()), Err(Error::Io));
}

#[test]
fn bson_round_trip_through_the_wrappers() {
    let mut doc = bson::Document::new();
    doc.insert("n", 7i32);
    doc.insert("s", "x");
    let bytes = encode_bson_document(&doc).expect("encode");
    let back = decode_bson_document(&bytes).expect("decode");
    assert_eq!(back, doc);
    assert_eq!(decode_bson_document(&[1, 2, 3]), Err(Error::BsonDe));
}
