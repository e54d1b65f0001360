use coap::client::{
    block1_part, block1_step, check_block1_response, coap_url_from_parts, gen_message_id, parse_coap_url,
    Block1Step, Block2Step, BlockState, TransferError, UrlError, UrlParts,
};

#[test]
fn client_test_parse_coap_url_good_url() {
    assert!(parse_coap_url("coap://127.0.0.1").is_ok());
    assert!(parse_coap_url("coap://127.0.0.1:5683").is_ok());
    assert!(parse_coap_url("coap://[::1]").is_ok());
    assert!(parse_coap_url("coap://[::1]:5683").is_ok());
    assert!(parse_coap_url("coap://[bbbb::9329:f033:f558:7418]").is_ok());
    assert!(parse_coap_url("coap://[bbbb::9329:f033:f558:7418]:5683").is_ok());
    assert!(parse_coap_url("coap://127.0.0.1/?hello=world").is_ok());
}

#[test]
fn client_test_parse_coap_url_bad_url() {
    assert!(parse_coap_url("coap://127.0.0.1:65536").is_err());
    assert!(parse_coap_url("coap://").is_err());
    assert!(parse_coap_url("coap://:5683").is_err());
    assert!(parse_coap_url("127.0.0.1").is_err());
}

#[test]
fn mod_test_parse_coap_url_good_url() {
    assert!(parse_coap_url("coap://127.0.0.1").is_ok());
    assert!(parse_coap_url("coap://127.0.0.1:5683").is_ok());
    assert!(parse_coap_url("coap://[::1]").is_ok());
    assert!(parse_coap_url("coap://[::1]:5683").is_ok());
    assert!(parse_coap_url("coap://[bbbb::9329:f033:f558:7418]").is_ok());
    assert!(parse_coap_url("coap://[bbbb::9329:f033:f558:7418]:5683").is_ok());
}

#[test]
fn mod_test_parse_coap_url_bad_url() {
    assert!(parse_coap_url("coap://127.0.0.1:65536").is_err());
    assert!(parse_coap_url("coap://").is_err());
    assert!(parse_coap_url("coap://:5683").is_err());
    assert!(parse_coap_url("127.0.0.1").is_err());
}

#[test]
fn test_parse_queries() {
    if let Ok((_, _, _, Some(queries))) = parse_coap_url("coap://127.0.0.1/?hello=world&test1=test2") {
        assert_eq!("hello=world&test1=test2".as_bytes().to_vec(), queries);
    } else {
        panic!("Parse Queries failed");
    }
}

#[test]
fn url_components() {
    let (host, port, path, query) = parse_coap_url("coap://[::1]/a/b").unwrap();
    assert_eq!(host, "::1");
    assert_eq!(port, 5683);
    assert_eq!(path, "/a/b");
    assert_eq!(query, None);
    let (host, port, _, _) = parse_coap_url("coap://example.com:1234").unwrap();
    assert_eq!(host, "example.com");
    assert_eq!(port, 1234);
    assert_eq!(parse_coap_url("127.0.0.1"), Err(UrlError::InvalidUrl));
    assert_eq!(parse_coap_url("coap://"), Err(UrlError::InvalidHost));
    assert_eq!(UrlError::InvalidHost.message(), "host error");
}

#[test]
fn url_from_parts() {
    let parts = UrlParts { host: Some("[fe80::1]".to_string()), port: None, path: "/x".to_string(), query: Some("q=1".to_string()) };
    assert_eq!(
        coap_url_from_parts(Some(parts)),
        Ok(("fe80::1".to_string(), 5683, "/x".to_string(), Some(b"q=1".to_vec())))
    );
    let parts = UrlParts { host: Some(String::new()), port: Some(1), path: String::new(), query: None };
    assert_eq!(coap_url_from_parts(Some(parts)), Err(UrlError::InvalidHost));
    assert_eq!(coap_url_from_parts(None), Err(UrlError::InvalidUrl));
}

#[test]
fn message_ids_count_up() {
    let mut id: u16 = 41;
    assert_eq!(gen_message_id(&mut id), 42);
    assert_eq!(id, 42);
}

#[test]
fn block1_parts_split_the_payload() {
    let payload: Vec<u8> = (0..40u8).collect();
    // blocks of 16 bytes: exponent 0
    let (chunk, opt, more) = block1_part(&payload, 0, 16).unwrap();
    assert_eq!(chunk, (0..16u8).collect::<Vec<u8>>());
    assert_eq!(opt, vec![0x08]);
    assert!(more);
    let (chunk, opt, more) = block1_part(&payload, 2, 16).unwrap();
    assert_eq!(chunk, (32..40u8).collect::<Vec<u8>>());
    assert_eq!(opt, vec![0x20]);
    assert!(!more);
    assert_eq!(block1_part(&payload, 0, 4096), Err(TransferError::CouldNotSetBlockSize));
}

#[test]
fn block1_responses_are_checked() {
    assert_eq!(check_block1_response(6, &None), Err(TransferError::BlockwiseUnsupported));
    assert_eq!(check_block1_response(6, &Some(vec![1, 2, 3])), Err(TransferError::InvalidBlock));
    assert_eq!(check_block1_response(6, &Some(vec![0x05])), Err(TransferError::NegotiationUnsupported));
    assert_eq!(check_block1_response(6, &Some(vec![0x0E])), Ok(()));
    assert_eq!(
        TransferError::NegotiationUnsupported.message(),
        "negotiating block size is currently unsupported"
    );
}

#[test]
fn block2_reassembly() {
    let mut state = BlockState::default();
    // no block option: complete as it is
    assert!(matches!(state.handle_response_block2(&None, &vec![1]), Ok(Block2Step::Complete)));
    // block 0 of 16 bytes, more to come
    let first: Vec<u8> = vec![7; 16];
    match state.handle_response_block2(&Some(vec![0x08]), &first) {
        Ok(Block2Step::RequestNext(next)) => assert_eq!(next, vec![0x18]),
        _ => panic!("expected a request for the next block"),
    }
    // block 1, the last one
    match state.handle_response_block2(&Some(vec![0x10]), &vec![9, 9]) {
        Ok(Block2Step::Assembled(p)) => {
            let mut expected = vec![7u8; 16];
            expected.extend_from_slice(&[9, 9]);
            assert_eq!(p, expected);
        }
        _ => panic!("expected the assembled payload"),
    }
    assert!(state.cached_payload.is_none());
}

#[test]
fn block2_refuses_far_blocks() {
    let mut state = BlockState::default();
    // block 1000 of 1024 bytes would grow the payload by far more than 16 KiB
    let opt = vec![0x3E, 0x86];
    assert!(state.handle_response_block2(&Some(opt), &vec![0; 10]).is_err());
}

#[test]
fn block1_steps_send_the_payload_in_order() {
    let payload: Vec<u8> = (0..40u8).collect();
    match block1_step(&payload, 16, 0, &None) {
        Block1Step::Send(chunk, block1) => {
            assert_eq!(chunk, (0..16u8).collect::<Vec<u8>>());
            assert_eq!(block1, vec![0x08]);
        }
        _ => panic!("expected the first block"),
    }
    match block1_step(&payload, 16, 1, &Some(vec![0x08])) {
        Block1Step::Send(chunk, block1) => {
            assert_eq!(chunk, (16..32u8).collect::<Vec<u8>>());
            assert_eq!(block1, vec![0x18]);
        }
        _ => panic!("expected the second block"),
    }
    match block1_step(&payload, 16, 2, &Some(vec![0x18])) {
        Block1Step::Send(chunk, block1) => {
            assert_eq!(chunk, (32..40u8).collect::<Vec<u8>>());
            assert_eq!(block1, vec![0x20]);
        }
        _ => panic!("expected the last block"),
    }
    assert!(matches!(block1_step(&payload, 16, 3, &None), Block1Step::Done));
    assert!(matches!(
        block1_step(&payload, 16, 1, &None),
        Block1Step::Fail(TransferError::BlockwiseUnsupported)
    ));
    assert!(matches!(
        block1_step(&payload, 16, 1, &Some(vec![0x0A])),
        Block1Step::Fail(TransferError::NegotiationUnsupported)
    ));
    assert!(matches!(block1_step(&payload, 64, 0, &None), Block1Step::Single));
    assert!(matches!(
        block1_step(&payload, 4096, 0, &None),
        Block1Step::Single
    ));
    assert!(matches!(
        block1_step(&vec![0u8; 5000], 4096, 0, &None),
        Block1Step::Fail(TransferError::CouldNotSetBlockSize)
    ));
}
