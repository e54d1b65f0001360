use coap::observer::encode_coap_uint;

#[test]
fn test_encode_coap_uint() {
    assert_eq!(encode_coap_uint(0), vec![] as Vec<u8>);
    assert_eq!(encode_coap_uint(1), vec![0x01]);
    assert_eq!(encode_coap_uint(255), vec![0xFF]);
    assert_eq!(encode_coap_uint(256), vec![0x01, 0x00]);
    assert_eq!(encode_coap_uint(0xFFFFFFFF), vec![0xFF, 0xFF, 0xFF, 0xFF]);
    if usize::BITS == 64 {
        assert_eq!(encode_coap_uint(0x100000000u64 as usize), vec![0xFF, 0xFF, 0xFF, 0xFF]);
    }
}

use coap::block::BlockValue;
use coap::message::header::MessageType;
use coap::observer::{
    compute_etag, ObserveFlag, ObserveMethod, ObserveRequest, Observer, ObserverAction,
};

fn request(mt: MessageType, method: ObserveMethod, observe: Option<ObserveFlag>, path: &str) -> ObserveRequest {
    ObserveRequest {
        message_type: mt,
        method,
        observe,
        path: path.to_string(),
        token: vec![],
        message_id: 0,
        source: None,
        payload: vec![],
        block2: None,
        has_response: true,
    }
}

fn put(path: &str, payload: Vec<u8>) -> ObserveRequest {
    let mut r = request(MessageType::Confirmable, ObserveMethod::Put, None, path);
    r.payload = payload;
    r
}

fn register(path: &str, token: Vec<u8>, block: Option<usize>) -> ObserveRequest {
    let mut r = request(MessageType::Confirmable, ObserveMethod::Get, Some(ObserveFlag::Register), path);
    r.token = token;
    r.block2 = block.map(|b| BlockValue::new(0, false, b).unwrap().to_bytes());
    r
}

fn decode_uint(data: &[u8]) -> usize {
    data.iter().fold(0, |acc, &b| (acc << 8) | b as usize)
}

#[test]
fn observe_without_resource_is_not_found() {
    let mut observer: Observer<u32> = Observer::new();
    let addr = "127.0.0.1:5683".to_string();
    let (forward, actions) = observer.request_handler(&register("/test", vec![1], None), 1, &addr);
    assert!(!forward);
    assert!(matches!(actions.as_slice(), [ObserverAction::RespondNotFound]));
    assert!(!observer.is_observing(&addr, &"/test".to_string()));
}

#[test]
fn observe_cancelled_by_reset() {
    let mut observer: Observer<u32> = Observer::new();
    let path = "test";
    let addr = "127.0.0.1:5683".to_string();
    observer.request_handler(&put(path, vec![]), 0, &addr);
    let (forward, _) = observer.request_handler(&register(path, vec![1, 2, 3, 4], None), 1, &addr);
    assert!(!forward);
    assert!(observer.is_observing(&addr, &path.to_string()));

    // a change notifies the observer with a confirmable message
    let (forward, actions) = observer.request_handler(&put(path, b"data1".to_vec()), 0, &addr);
    assert!(forward);
    let mid = match actions.as_slice() {
        [ObserverAction::Notify { key, token, message_id, content }] => {
            assert_eq!(key, &format!("{}${}", addr, path));
            assert_eq!(token, &vec![1, 2, 3, 4]);
            assert_eq!(content.payload, b"data1".to_vec());
            assert_eq!(content.observe, 1);
            assert_eq!(observer.responder(key), Some(&1));
            *message_id
        }
        _ => panic!("expected one notification"),
    };

    // a reset from another address is ignored
    let mut rst = request(MessageType::Reset, ObserveMethod::Other, None, "");
    rst.message_id = mid;
    rst.source = Some("127.0.0.1:9999".to_string());
    observer.request_handler(&rst, 0, &addr);
    assert!(observer.is_observing(&addr, &path.to_string()));

    // the client rejects the notification with a reset
    rst.source = Some(addr.clone());
    let (forward, actions) = observer.request_handler(&rst, 0, &addr);
    assert!(!forward);
    assert!(actions.is_empty());
    assert!(!observer.is_observing(&addr, &path.to_string()));

    // no notification after the cancellation
    let (_, actions) = observer.request_handler(&put(path, b"data2".to_vec()), 0, &addr);
    assert!(actions.is_empty());
}

#[test]
fn observer_block_size_boundaries_and_preferences() {
    let mut observer: Observer<u32> = Observer::new();
    let path = "test";
    let addr1 = "127.0.0.1:5001".to_string();
    let addr2 = "127.0.0.1:5002".to_string();
    observer.request_handler(&put(path, vec![0xAA; 1024]), 0, &addr1);

    // a payload exactly as long as the block size goes whole
    let (_, actions) = observer.request_handler(&register(path, vec![], Some(1024)), 1, &addr1);
    match actions.as_slice() {
        [ObserverAction::Respond(c)] => {
            assert_eq!(c.payload.len(), 1024);
            assert!(c.block2.is_none());
            assert_eq!(decode_uint(&c.size2), 1024);
        }
        _ => panic!("expected a response"),
    }

    observer.request_handler(&put(path, vec![0xBB; 1500]), 0, &addr1);
    let (_, actions) = observer.request_handler(&register(path, vec![2], Some(512)), 2, &addr2);
    match actions.as_slice() {
        [ObserverAction::Respond(c)] => {
            assert_eq!(c.payload.len(), 512);
            let b = BlockValue::try_from_bytes(c.block2.clone().unwrap()).unwrap();
            assert_eq!(b.size(), 512);
            assert!(b.more);
            assert_eq!(decode_uint(&c.size2), 1500);
        }
        _ => panic!("expected a response"),
    }

    // a change notifies both observers, each with its block size
    let (_, actions) = observer.request_handler(&put(path, vec![0xCC; 1500]), 0, &addr1);
    assert_eq!(actions.len(), 2);
    for a in actions.iter() {
        match a {
            ObserverAction::Notify { key, content, .. } => {
                let expected = if key.starts_with(&addr1) { 1024 } else { 512 };
                assert_eq!(content.payload.len(), expected);
                assert_eq!(decode_uint(&content.size2), 1500);
            }
            _ => panic!("expected notifications"),
        }
    }
}

#[test]
fn observe_empty_resource_includes_size2() {
    let mut observer: Observer<u32> = Observer::new();
    let addr = "127.0.0.1:5003".to_string();
    observer.request_handler(&put("empty", vec![]), 0, &addr);
    let (_, actions) = observer.request_handler(&register("empty", vec![], None), 1, &addr);
    match actions.as_slice() {
        [ObserverAction::Respond(c)] => {
            assert_eq!(c.size2, Vec::<u8>::new());
            assert_eq!(decode_uint(&c.size2), 0);
            assert_eq!(c.etag, compute_etag(&[]));
        }
        _ => panic!("expected a response"),
    }
}

#[test]
fn observe_reregistration_updates_token_and_block_size() {
    let mut observer: Observer<u32> = Observer::new();
    let path = "test_update";
    let addr = "127.0.0.1:6001".to_string();
    observer.request_handler(&put(path, vec![0xAA; 1500]), 0, &addr);
    observer.request_handler(&register(path, vec![1], Some(1024)), 1, &addr);
    observer.request_handler(&register(path, vec![2], Some(512)), 2, &addr);
    let (_, actions) = observer.request_handler(&put(path, vec![0xBB; 1500]), 0, &addr);
    match actions.as_slice() {
        [ObserverAction::Notify { key, token, content, .. }] => {
            assert_eq!(token, &vec![2]);
            assert_eq!(content.payload.len(), 512);
            let b = BlockValue::try_from_bytes(content.block2.clone().unwrap()).unwrap();
            assert_eq!(b.size(), 512);
            assert_eq!(observer.responder(key), Some(&2));
        }
        _ => panic!("expected one notification"),
    }
}

#[test]
fn acknowledgement_and_retries() {
    let mut observer: Observer<u32> = Observer::new();
    let path = "r";
    let addr = "127.0.0.1:7000".to_string();
    observer.request_handler(&put(path, vec![1]), 0, &addr);
    observer.request_handler(&register(path, vec![5], None), 1, &addr);
    let (_, actions) = observer.request_handler(&put(path, vec![2]), 0, &addr);
    let mid = match actions.as_slice() {
        [ObserverAction::Notify { message_id, .. }] => *message_id,
        _ => panic!("expected one notification"),
    };
    // each tick sends the notification again, ten times, then gives up
    for _ in 0..10 {
        let actions = observer.timer_handler();
        assert_eq!(actions.len(), 1);
    }
    assert!(observer.timer_handler().is_empty());
    assert!(observer.timer_handler().is_empty());
    // the observation goes on
    assert!(observer.is_observing(&addr, &path.to_string()));

    // a new change, acknowledged with the wrong token, then the right one
    let (_, actions) = observer.request_handler(&put(path, vec![3]), 0, &addr);
    let mid2 = match actions.as_slice() {
        [ObserverAction::Notify { message_id, .. }] => *message_id,
        _ => panic!("expected one notification"),
    };
    assert_eq!(mid2, mid + 1);
    let mut ack = request(MessageType::Acknowledgement, ObserveMethod::Other, None, "");
    ack.message_id = mid2;
    ack.token = vec![9];
    observer.request_handler(&ack, 0, &addr);
    assert_eq!(observer.timer_handler().len(), 1);
    ack.token = vec![5];
    let (forward, _) = observer.request_handler(&ack, 0, &addr);
    assert!(!forward);
    assert!(observer.timer_handler().is_empty());
}

#[test]
fn deregistration_ends_the_observation() {
    let mut observer: Observer<u32> = Observer::new();
    let addr = "127.0.0.1:7001".to_string();
    observer.request_handler(&put("d", vec![1]), 0, &addr);
    observer.request_handler(&register("d", vec![3], None), 1, &addr);
    let mut dereg = request(MessageType::Confirmable, ObserveMethod::Get, Some(ObserveFlag::Deregister), "d");
    dereg.token = vec![3];
    dereg.source = Some(addr.clone());
    let (forward, actions) = observer.request_handler(&dereg, 0, &addr);
    assert!(forward);
    assert!(actions.is_empty());
    assert!(!observer.is_observing(&addr, &"d".to_string()));
    // the payload and entity tag stay available
    let (payload, etag) = observer.get_resource_payload_and_etag(&"d".to_string()).unwrap();
    assert_eq!(payload, vec![1]);
    assert_eq!(etag, compute_etag(&[1]));
}

#[test]
fn etag_is_fnv1a_high_bytes() {
    // FNV-1a of the empty input is the offset basis 0xcbf29ce484222325
    assert_eq!(compute_etag(&[]), vec![0xcb, 0xf2, 0x9c, 0xe4]);
    // FNV-1a of "a" is 0xaf63dc4c8601ec8c
    assert_eq!(compute_etag(b"a"), vec![0xaf, 0x63, 0xdc, 0x4c]);
}
