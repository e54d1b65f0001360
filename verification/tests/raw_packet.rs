use coap::message::packet::Packet as MessagePacket;
use coap::packet::{OptionType, Packet, PacketType};
use quickcheck::{Gen, QuickCheck, TestResult};

#[test]
fn raw_packet_decode_with_options() {
    let buf = [0x44, 0x01, 0x84, 0x9e, 0x51, 0x55, 0x77, 0xe8, 0xb2, 0x48, 0x69, 0x04, 0x54, 0x65,
               0x73, 0x74, 0x43, 0x61, 0x3d, 0x31];
    let packet = Packet::from_bytes(&buf);
    assert!(packet.is_ok());
    let packet = packet.unwrap();
    assert_eq!(packet.header.get_version(), 1);
    assert_eq!(packet.header.get_type(), PacketType::Confirmable);
    assert_eq!(packet.header.get_token_length(), 4);
    assert_eq!(packet.header.get_code(), "0.01");
    assert_eq!(packet.header.get_message_id(), 33950);
    assert_eq!(*packet.get_token(), vec![0x51, 0x55, 0x77, 0xE8]);
    assert_eq!(packet.options.len(), 2);

    let uri_path = packet.get_option(OptionType::UriPath);
    assert!(uri_path.is_some());
    let uri_path = uri_path.unwrap();
    let expected_uri_path = vec!["Hi".as_bytes().to_vec(), "Test".as_bytes().to_vec()];
    assert_eq!(*uri_path, expected_uri_path);

    let uri_query = packet.get_option(OptionType::UriQuery);
    assert!(uri_query.is_some());
    let uri_query = uri_query.unwrap();
    let expected_uri_query = vec!["a=1".as_bytes().to_vec()];
    assert_eq!(*uri_query, expected_uri_query);
}

#[test]
fn raw_packet_decode_with_payload() {
    let buf = [0x64, 0x45, 0x13, 0xFD, 0xD0, 0xE2, 0x4D, 0xAC, 0xFF, 0x48, 0x65, 0x6C, 0x6C, 0x6F];
    let packet = Packet::from_bytes(&buf);
    assert!(packet.is_ok());
    let packet = packet.unwrap();
    assert_eq!(packet.header.get_version(), 1);
    assert_eq!(packet.header.get_type(), PacketType::Acknowledgement);
    assert_eq!(packet.header.get_token_length(), 4);
    assert_eq!(packet.header.get_code(), "2.05");
    assert_eq!(packet.header.get_message_id(), 5117);
    assert_eq!(*packet.get_token(), vec![0xD0, 0xE2, 0x4D, 0xAC]);
    assert_eq!(packet.payload, "Hello".as_bytes().to_vec());
}

#[test]
fn raw_packet_encode_with_options() {
    let mut packet = Packet::new();
    packet.header.set_version(1);
    packet.header.set_type(PacketType::Confirmable);
    packet.header.set_code("0.01");
    packet.header.set_message_id(33950);
    packet.set_token(vec![0x51, 0x55, 0x77, 0xE8]);
    packet.add_option(OptionType::UriPath, b"Hi".to_vec());
    packet.add_option(OptionType::UriPath, b"Test".to_vec());
    packet.add_option(OptionType::UriQuery, b"a=1".to_vec());
    assert_eq!(packet.to_bytes().unwrap(),
               vec![0x44, 0x01, 0x84, 0x9e, 0x51, 0x55, 0x77, 0xe8, 0xb2, 0x48, 0x69, 0x04, 0x54,
                    0x65, 0x73, 0x74, 0x43, 0x61, 0x3d, 0x31]);
}

#[test]
fn raw_packet_encode_with_payload() {
    let mut packet = Packet::new();
    packet.header.set_version(1);
    packet.header.set_type(PacketType::Acknowledgement);
    packet.header.set_code("2.05");
    packet.header.set_message_id(5117);
    packet.set_token(vec![0xD0, 0xE2, 0x4D, 0xAC]);
    packet.payload = "Hello".as_bytes().to_vec();
    assert_eq!(packet.to_bytes().unwrap(),
               vec![0x64, 0x45, 0x13, 0xFD, 0xD0, 0xE2, 0x4D, 0xAC, 0xFF, 0x48, 0x65, 0x6C, 0x6C,
                    0x6F]);
}

fn run_message_packet(x: Vec<u8>) -> TestResult {
    match MessagePacket::from_bytes(&x[..]) {
        Ok(packet) => {
            TestResult::from_bool(packet.get_token().len() == packet.header.get_token_length() as usize)
        }
        Err(_) => TestResult::passed(),
    }
}

fn run_raw_packet(x: Vec<u8>) -> TestResult {
    match Packet::from_bytes(&x[..]) {
        Ok(packet) => {
            TestResult::from_bool(packet.get_token().len() == packet.header.get_token_length() as usize)
        }
        Err(_) => TestResult::passed(),
    }
}

#[test]
fn packet_test_malicious_packet() {
    QuickCheck::new()
        .tests(10000)
        .rng(Gen::new(1500))
        .quickcheck(run_message_packet as fn(Vec<u8>) -> TestResult)
}

#[test]
fn raw_packet_malicious_packet() {
    QuickCheck::new()
        .tests(10000)
        .rng(Gen::new(1500))
        .quickcheck(run_raw_packet as fn(Vec<u8>) -> TestResult)
}
