use coap::message::header::{Header, MessageClass, MessageType, Requests, Responses};
use coap::message::options::{BlockOption, BlockSize};
use coap::message::packet::{CoAPOption, ContentFormat, Packet};
use coap::message::response::CoAPResponse;

#[test]
fn create_one_byte_block_option() {
    let block_option = BlockOption::new(3, true, BlockSize::S1024).expect("Failed to create block option");
    let u8_vector: Vec<u8> = Vec::from(block_option);
    assert_eq!(u8_vector.len(), 1)
}

#[test]
fn create_two_byte_block_option() {
    let block_option = BlockOption::new(20, true, BlockSize::S1024).expect("Failed to create block option");
    let u8_vector: Vec<u8> = Vec::from(block_option);
    assert_eq!(u8_vector.len(), 2)
}

#[test]
fn create_three_byte_block_option() {
    let block_option = BlockOption::new(1000000, true, BlockSize::S1024).expect("Failed to create block option");
    let u8_vector: Vec<u8> = Vec::from(block_option);
    assert_eq!(u8_vector.len(), 3)
}

#[test]
fn fail_on_to_large_num_for_block_option() {
    BlockOption::new(2000000, true, BlockSize::S1024).expect_err("Creating block with NUM so large should fail");
}

#[test]
fn test_to_add_usize_to_block_option() {
    assert_eq!(1 + BlockSize::S1024, 1025);
    assert_eq!(1 + BlockSize::S512, 513);
    assert_eq!(1 + BlockSize::S256, 257);
    assert_eq!(1 + BlockSize::S128, 129);
    assert_eq!(1 + BlockSize::S64, 65);
    assert_eq!(1 + BlockSize::S32, 33);
    assert_eq!(1 + BlockSize::S16, 17);
}

#[test]
fn block_option_exact_bytes() {
    // num 3, more, 1024 bytes (exponent 6): 3 << 4 | 8 | 6 = 0x3E
    let b = BlockOption::new(3, true, BlockSize::S1024).unwrap();
    assert_eq!(b.to_bytes(), vec![0x3E]);
    // num 20, no more, 16 bytes: 20 << 4 = 0x140
    let b = BlockOption::new(20, false, BlockSize::S16).unwrap();
    assert_eq!(b.to_bytes(), vec![0x01, 0x40]);
    // the largest block number (20 bits) is accepted, one more is not
    assert!(BlockOption::new(0xFFFFF, false, BlockSize::S16).is_ok());
    assert!(BlockOption::new(0x100000, false, BlockSize::S16).is_err());
    // a zero middle byte is kept: num 4096 is 0x10000
    let b = BlockOption::new(4096, false, BlockSize::S16).unwrap();
    assert_eq!(b.to_bytes(), vec![0x01, 0x00, 0x00]);
    // through `From`
    let v: Vec<u8> = Vec::from(BlockOption::new(3, true, BlockSize::S1024).unwrap());
    assert_eq!(v, vec![0x3E]);
    let v: Vec<u8> = Vec::from(BlockOption::new(20, true, BlockSize::S1024).unwrap());
    assert_eq!(v, vec![0x01, 0x4E]);
    let v: Vec<u8> = Vec::from(BlockOption::new(1000000, true, BlockSize::S1024).unwrap());
    assert_eq!(v, vec![0xF4, 0x24, 0x0E]);
}

#[test]
fn packet_test_decode_packet_with_options() {
    let buf = [0x44, 0x01, 0x84, 0x9e, 0x51, 0x55, 0x77, 0xe8, 0xb2, 0x48, 0x69, 0x04, 0x54,
               0x65, 0x73, 0x74, 0x43, 0x61, 0x3d, 0x31];
    let packet = Packet::from_bytes(&buf);
    assert!(packet.is_ok());
    let packet = packet.unwrap();
    assert_eq!(packet.header.get_version(), 1);
    assert_eq!(packet.header.get_type(), MessageType::Confirmable);
    assert_eq!(packet.header.get_token_length(), 4);
    assert_eq!(packet.header.code, MessageClass::RequestType(Requests::Get));
    assert_eq!(packet.header.get_message_id(), 33950);
    assert_eq!(*packet.get_token(), vec![0x51, 0x55, 0x77, 0xE8]);
    assert_eq!(packet.options.len(), 2);

    let uri_path = packet.get_option(CoAPOption::UriPath);
    assert!(uri_path.is_some());
    let uri_path = uri_path.unwrap();
    let expected_uri_path = vec!["Hi".as_bytes().to_vec(), "Test".as_bytes().to_vec()];
    assert_eq!(*uri_path, expected_uri_path);

    let uri_query = packet.get_option(CoAPOption::UriQuery);
    assert!(uri_query.is_some());
    let uri_query = uri_query.unwrap();
    let expected_uri_query = vec!["a=1".as_bytes().to_vec()];
    assert_eq!(*uri_query, expected_uri_query);
}

#[test]
fn packet_test_decode_packet_with_payload() {
    let buf = [0x64, 0x45, 0x13, 0xFD, 0xD0, 0xE2, 0x4D, 0xAC, 0xFF, 0x48, 0x65, 0x6C, 0x6C,
               0x6F];
    let packet = Packet::from_bytes(&buf);
    assert!(packet.is_ok());
    let packet = packet.unwrap();
    assert_eq!(packet.header.get_version(), 1);
    assert_eq!(packet.header.get_type(), MessageType::Acknowledgement);
    assert_eq!(packet.header.get_token_length(), 4);
    assert_eq!(packet.header.code, MessageClass::ResponseType(Responses::Content));
    assert_eq!(packet.header.get_message_id(), 5117);
    assert_eq!(*packet.get_token(), vec![0xD0, 0xE2, 0x4D, 0xAC]);
    assert_eq!(packet.payload, "Hello".as_bytes().to_vec());
}

#[test]
fn packet_test_encode_packet_with_options() {
    let mut packet = Packet::new();
    packet.header.set_version(1);
    packet.header.set_type(MessageType::Confirmable);
    packet.header.code = MessageClass::RequestType(Requests::Get);
    packet.header.set_message_id(33950);
    packet.set_token(vec![0x51, 0x55, 0x77, 0xE8]);
    packet.add_option(CoAPOption::UriPath, b"Hi".to_vec());
    packet.add_option(CoAPOption::UriPath, b"Test".to_vec());
    packet.add_option(CoAPOption::UriQuery, b"a=1".to_vec());
    assert_eq!(packet.to_bytes().unwrap(),
               vec![0x44, 0x01, 0x84, 0x9e, 0x51, 0x55, 0x77, 0xe8, 0xb2, 0x48, 0x69, 0x04,
                    0x54, 0x65, 0x73, 0x74, 0x43, 0x61, 0x3d, 0x31]);
}

#[test]
fn packet_test_encode_packet_with_payload() {
    let mut packet = Packet::new();
    packet.header.set_version(1);
    packet.header.set_type(MessageType::Acknowledgement);
    packet.header.code = MessageClass::ResponseType(Responses::Content);
    packet.header.set_message_id(5117);
    packet.set_token(vec![0xD0, 0xE2, 0x4D, 0xAC]);
    packet.payload = "Hello".as_bytes().to_vec();
    assert_eq!(packet.to_bytes().unwrap(),
               vec![0x64, 0x45, 0x13, 0xFD, 0xD0, 0xE2, 0x4D, 0xAC, 0xFF, 0x48, 0x65, 0x6C,
                    0x6C, 0x6F]);
}

#[test]
fn test_encode_decode_content_format() {
    let mut packet = Packet::new();
    packet.set_content_format(ContentFormat::ApplicationJSON);
    assert_eq!(ContentFormat::ApplicationJSON, packet.get_content_format().unwrap())
}

#[test]
fn test_decode_empty_content_format() {
    let packet = Packet::new();
    assert!(packet.get_content_format().is_none());
}

#[test]
fn packet_roundtrip_keeps_everything() {
    let mut packet = Packet::new();
    packet.header.set_type(MessageType::NonConfirmable);
    packet.header.code = MessageClass::RequestType(Requests::Put);
    packet.header.set_message_id(7);
    packet.set_token(vec![9, 8, 7]);
    packet.add_option(CoAPOption::UriPath, b"a".to_vec());
    packet.set_content_format(ContentFormat::ApplicationJSON);
    packet.payload = vec![1, 2, 3];
    let bytes = packet.to_bytes().unwrap();
    let back = Packet::from_bytes(&bytes).unwrap();
    assert_eq!(back.header.get_type(), MessageType::NonConfirmable);
    assert_eq!(back.header.code, MessageClass::RequestType(Requests::Put));
    assert_eq!(back.header.get_message_id(), 7);
    assert_eq!(*back.get_token(), vec![9, 8, 7]);
    assert_eq!(*back.get_option(CoAPOption::UriPath).unwrap(), vec![b"a".to_vec()]);
    assert_eq!(back.get_content_format(), Some(ContentFormat::ApplicationJSON));
    assert_eq!(back.payload, vec![1, 2, 3]);
}

#[test]
fn test_new_response_valid() {
    for mtyp in vec![MessageType::Confirmable, MessageType::NonConfirmable] {
        let mut packet = Packet::new();
        packet.header.set_type(mtyp);
        let opt_resp = CoAPResponse::new(&packet);
        assert!(opt_resp.is_some());

        let response = opt_resp.unwrap();
        assert_eq!(packet.payload, response.message.payload);
    }
}

#[test]
fn test_new_response_invalid() {
    let mut packet = Packet::new();
    packet.header.set_type(MessageType::Acknowledgement);
    assert!(CoAPResponse::new(&packet).is_none());
}

use coap::message::header::{class_to_code, class_to_str, code_to_class, code_to_str};

#[test]
fn test_header_codes() {
    for code in 0..255 {
        let class = code_to_class(&code);
        let code_str = code_to_str(&code);
        let class_str = class_to_str(&class);

        // Reserved class could technically be many codes
        //   so only check valid items
        if class != MessageClass::Reserved {
            assert_eq!(class_to_code(&class), code);
            assert_eq!(code_str, class_str);
        }
    }
}

#[test]
fn codes_without_class_are_reserved() {
    assert_eq!(code_to_class(&0x5F), MessageClass::Reserved);
    assert_eq!(code_to_class(&0x8E), MessageClass::Reserved);
    assert_eq!(code_to_class(&0xFF), MessageClass::Reserved);
    assert_eq!(class_to_code(&MessageClass::Reserved), 0xFF);
    assert_eq!(code_to_class(&class_to_code(&MessageClass::Reserved)), MessageClass::Reserved);
    assert_eq!(code_to_str(&0x5F), "2.31");
}

#[test]
fn header_raw_roundtrip() {
    let mut h = Header::new();
    h.set_version(1);
    h.set_type(MessageType::Reset);
    h.set_message_id(7);
    for code in [MessageClass::Reserved, MessageClass::Empty, MessageClass::ResponseType(Responses::NotFound)] {
        h.code = code;
        let h2 = Header::from_raw(&h.to_raw());
        assert_eq!(h2, h);
    }
}
