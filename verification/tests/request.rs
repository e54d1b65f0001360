use coap::block_transfer::{block_request, next_progress, BlockTransferProgress};
use coap::message::header::{MessageClass, MessageType, Requests, Responses};
use coap::message::options::BlockSize;
use coap::message::packet::{CoAPOption, Packet};
use coap::message::request::CoAPRequest;
use coap::message::response::CoAPResponse;
use coap::message::IsMessage;

#[test]
fn request_path_roundtrip() {
    let mut request: CoAPRequest<()> = CoAPRequest::new();
    request.set_path("/a//b/c/");
    assert_eq!(
        *request.message.get_option(CoAPOption::UriPath).unwrap(),
        vec![b"a".to_vec(), b"b".to_vec(), b"c".to_vec()]
    );
    assert_eq!(request.get_path(), "a/b/c");
    request.set_path("x");
    assert_eq!(request.get_path(), "x");
    request.set_path("");
    assert_eq!(request.get_path(), "");
}

#[test]
fn request_method() {
    let mut request: CoAPRequest<u32> = CoAPRequest::new();
    assert_eq!(request.get_method(), None);
    request.set_method(Requests::Delete);
    assert_eq!(request.get_method(), Some(Requests::Delete));
    assert_eq!(request.message.header.code, MessageClass::RequestType(Requests::Delete));
}

#[test]
fn request_from_packet_has_a_response() {
    let mut packet = Packet::new();
    packet.header.set_type(MessageType::Confirmable);
    let request = CoAPRequest::from_packet(packet, 7u32);
    assert_eq!(request.source, Some(7));
    assert!(request.response.is_some());
}

#[test]
fn block_transfer_requests() {
    let payload: Vec<u8> = (0..20u8).collect();
    let r: CoAPRequest<()> = block_request("/up", &payload, 0, 0, BlockSize::S16, 5);
    assert_eq!(r.message.header.get_message_id(), 5);
    assert_eq!(r.message.header.code, MessageClass::RequestType(Requests::Put));
    assert_eq!(r.message.payload, (0..16u8).collect::<Vec<u8>>());
    assert_eq!(*r.message.get_option(CoAPOption::Block1).unwrap(), vec![vec![0x08]]);
    assert_eq!(*r.message.get_option(CoAPOption::UriPath).unwrap(), vec![b"up".to_vec()]);
    let r: CoAPRequest<()> = block_request("/up", &payload, 1, 16, BlockSize::S16, 6);
    assert_eq!(r.message.payload, (16..20u8).collect::<Vec<u8>>());
    assert_eq!(*r.message.get_option(CoAPOption::Block1).unwrap(), vec![vec![0x10]]);
}

#[test]
fn block_transfer_progress() {
    // an acknowledgement with code 2.31 Continue asks for the next block
    let cont = [0x60, 0x5F, 0x00, 0x05];
    let p = next_progress(BlockTransferProgress::Progress(0, 0, BlockSize::S16, 5), &cont).unwrap();
    match p {
        BlockTransferProgress::Progress(nr, sent, _, mid) => {
            assert_eq!((nr, sent, mid), (1, 16, 6));
        }
        _ => panic!("expected progress"),
    }
    // 2.04 Changed ends the transfer with that response
    let done = [0x60, 0x44, 0x00, 0x06];
    let p = next_progress(BlockTransferProgress::Progress(1, 16, BlockSize::S16, 6), &done).unwrap();
    match p {
        BlockTransferProgress::Finished(r) => {
            assert_eq!(r.message.header.code, MessageClass::ResponseType(Responses::Changed));
            assert_eq!(r.get_status(), Some(Responses::Changed));
        }
        _ => panic!("expected the end of the transfer"),
    }
    // bytes that do not parse are refused
    assert!(next_progress(BlockTransferProgress::Progress(1, 16, BlockSize::S16, 6), &[0x60]).is_err());
}

#[test]
fn test_request_create() {
    let mut packet = Packet::new();
    let mut request1: CoAPRequest<&str> = CoAPRequest::new();

    packet.set_token(vec![0x17, 0x38]);
    request1.set_token(vec![0x17, 0x38]);

    packet.add_option(CoAPOption::UriPath, b"test-interface".to_vec());
    request1.add_option(CoAPOption::UriPath, b"test-interface".to_vec());

    packet.header.set_message_id(42);
    request1.set_message_id(42);

    packet.header.set_version(2);
    request1.set_version(2);

    packet.header.set_type(MessageType::Confirmable);
    request1.set_type(MessageType::Confirmable);

    packet.header.set_code("0.04");
    request1.set_code("0.04");

    let request2 = CoAPRequest::from_packet(packet, "127.0.0.1:1234");

    assert_eq!(request1.message.to_bytes().unwrap(), request2.message.to_bytes().unwrap());
}

#[test]
fn test_method() {
    let mut request: CoAPRequest<()> = CoAPRequest::new();

    request.set_code("0.01");
    assert_eq!(Some(Requests::Get), request.get_method());

    request.set_code("0.02");
    assert_eq!(Some(Requests::Post), request.get_method());

    request.set_code("0.03");
    assert_eq!(Some(Requests::Put), request.get_method());

    request.set_code("0.04");
    assert_eq!(Some(Requests::Delete), request.get_method());

    request.set_method(Requests::Get);
    assert_eq!("0.01", request.get_code());

    request.set_method(Requests::Post);
    assert_eq!("0.02", request.get_code());

    request.set_method(Requests::Put);
    assert_eq!("0.03", request.get_code());

    request.set_method(Requests::Delete);
    assert_eq!("0.04", request.get_code());
}

#[test]
fn test_path() {
    let mut request: CoAPRequest<()> = CoAPRequest::new();

    let path = "test-interface";
    request.add_option(CoAPOption::UriPath, path.as_bytes().to_vec());
    assert_eq!(path, request.get_path());

    let path2 = "test-interface2";
    request.set_path(path2);
    assert_eq!(path2.as_bytes().to_vec(), request.get_option(CoAPOption::UriPath).unwrap()[0]);

    request.set_path("/test-interface2");
    assert_eq!(path2.as_bytes().to_vec(), request.get_option(CoAPOption::UriPath).unwrap()[0]);
}
