use coap::tcp::{decode_length, decode_tcp, encode_tcp, FrameError};

/// Build a minimal datagram message: version 1, non-confirmable, message id 0.
fn make_udp_bytes(tkl: u8, code: u8, token: &[u8], payload: &[u8]) -> Vec<u8> {
    assert!(tkl as usize == token.len());
    let mut v = vec![0x50 | tkl, code, 0x00, 0x00];
    v.extend_from_slice(token);
    if !payload.is_empty() {
        v.push(0xFF);
        v.extend_from_slice(payload);
    }
    v
}

#[test]
fn test_framing_small_len() {
    let udp = make_udp_bytes(0, 0x01, &[], &[]);
    let tcp = encode_tcp(&udp).unwrap();
    assert_eq!(tcp[0] >> 4, 1);
    assert_eq!(tcp[0] & 0x0F, 0);
    let decoded = decode_tcp(&tcp).unwrap();
    assert_eq!(decoded, udp);
}

#[test]
fn test_framing_with_token_and_payload() {
    let token = [0xDE, 0xAD, 0xBE, 0xEF];
    let payload = b"hello world";
    let udp = make_udp_bytes(4, 0x45, &token, payload);
    let tcp = encode_tcp(&udp).unwrap();
    let decoded = decode_tcp(&tcp).unwrap();
    assert_eq!(decoded, udp);
}

#[test]
fn test_framing_extended_len_13() {
    let token = [0xAA; 4];
    let payload = vec![0xBB; 13];
    let udp = make_udp_bytes(4, 0x45, &token, &payload);
    let tcp = encode_tcp(&udp).unwrap();
    assert_eq!(tcp[0] >> 4, 13);
    let decoded = decode_tcp(&tcp).unwrap();
    assert_eq!(decoded, udp);
}

#[test]
fn test_framing_extended_len_14() {
    let token = [0x00; 8];
    let payload = vec![0xCC; 262];
    let udp = make_udp_bytes(8, 0x45, &token, &payload);
    let tcp = encode_tcp(&udp).unwrap();
    assert_eq!(tcp[0] >> 4, 14);
    let decoded = decode_tcp(&tcp).unwrap();
    assert_eq!(decoded, udp);
}

#[test]
fn test_decode_tcp_rejects_short_frame() {
    assert!(decode_tcp(&[]).is_err());
    assert!(decode_tcp(&[0xD0]).is_err());
}

#[test]
fn framing_rejects_short_datagram() {
    assert_eq!(encode_tcp(&[0x50, 0x01, 0x00]), Err(FrameError::PacketTooShort));
}

#[test]
fn framing_exact_bytes_small() {
    // data length 1 + 2 = 3 bytes: code, token of two bytes
    let udp = vec![0x52, 0x45, 0x12, 0x34, 0xAB, 0xCD];
    let tcp = encode_tcp(&udp).unwrap();
    assert_eq!(tcp, vec![0x32, 0x45, 0xAB, 0xCD]);
    // the message id is not carried
    assert_eq!(decode_tcp(&tcp).unwrap(), vec![0x52, 0x45, 0x00, 0x00, 0xAB, 0xCD]);
}

#[test]
fn framing_exact_bytes_extended_13() {
    let mut udp = vec![0x50, 0x01, 0x00, 0x00];
    udp.extend_from_slice(&[7u8; 20]);
    let tcp = encode_tcp(&udp).unwrap();
    // data length 21: Len 13, extended length 21 - 13 = 8
    assert_eq!(&tcp[..3], &[0xD0, 8, 0x01]);
    assert_eq!(tcp.len(), 2 + 21);
}

#[test]
fn framing_exact_bytes_extended_14() {
    let mut udp = vec![0x50, 0x01, 0x00, 0x00];
    udp.extend_from_slice(&vec![1u8; 300]);
    let tcp = encode_tcp(&udp).unwrap();
    // data length 301: Len 14, extended length 301 - 269 = 32 in two bytes
    assert_eq!(&tcp[..4], &[0xE0, 0x00, 32, 0x01]);
    assert_eq!(decode_tcp(&tcp).unwrap(), udp);
}

#[test]
fn framing_extended_15_roundtrip() {
    let mut udp = vec![0x50, 0x01, 0x00, 0x00];
    udp.extend_from_slice(&vec![2u8; 70000]);
    let tcp = encode_tcp(&udp).unwrap();
    let d = 70001 - 65805;
    assert_eq!(&tcp[..6], &[0xF0, 0, 0, (d >> 8) as u8, (d & 0xFF) as u8, 0x01]);
    assert_eq!(decode_tcp(&tcp).unwrap(), udp);
}

#[test]
fn decode_errors_are_told_apart() {
    assert_eq!(decode_tcp(&[]), Err(FrameError::EmptyFrame));
    assert_eq!(decode_tcp(&[0xE0, 0x00]), Err(FrameError::TruncatedExtendedLength));
    assert_eq!(decode_tcp(&[0x30, 0x01]), Err(FrameError::FrameTooShort));
    assert_eq!(FrameError::FrameTooShort.message(), "frame too short");
}

#[test]
fn decode_tcp_refuses_a_frame_without_code_byte() {
    assert_eq!(decode_tcp(&[0x00]), Err(FrameError::FrameTooShort));
    assert_eq!(decode_tcp(&[0x05, 0x01, 0x02]), Err(FrameError::FrameTooShort));
    assert_eq!(decode_tcp(&[0xD0]), Err(FrameError::TruncatedExtendedLength));
}

#[test]
fn decode_length_on_any_nibble() {
    assert_eq!(decode_length(0, &[]), Ok((0, 1)));
    assert_eq!(decode_length(12, &[0x00]), Ok((12, 1)));
    assert_eq!(decode_length(13, &[0xD0, 0x02]), Ok((15, 2)));
    assert_eq!(decode_length(13, &[0xD0]), Err(FrameError::TruncatedExtendedLength));
    assert_eq!(decode_length(14, &[0xE0, 0x01, 0x00]), Ok((256 + 269, 3)));
    assert_eq!(decode_length(15, &[0xF0, 0, 0, 0, 1]), Ok((65806, 5)));
    assert_eq!(decode_length(15, &[0xF0, 0, 0]), Err(FrameError::TruncatedExtendedLength));
    assert_eq!(decode_length(16, &[0x00]), Err(FrameError::InvalidLenNibble));
    assert_eq!(FrameError::InvalidLenNibble.message(), "invalid Len nibble");
}

#[test]
fn encode_tcp_exact_frames() {
    assert_eq!(encode_tcp(&[0x50, 0x01, 0x00, 0x00]), Ok(vec![0x10, 0x01]));
    let mut u2 = vec![0x58, 0x45, 0x00, 0x00];
    u2.extend_from_slice(&[0x00; 8]);
    u2.push(0xFF);
    u2.extend_from_slice(&[0xCC; 262]);
    let t = encode_tcp(&u2).unwrap();
    assert_eq!(t[0], 0xE8);
    assert_eq!(&t[1..3], &[0x00, 0x03]);
    assert_eq!(t[3], 0x45);
    assert_eq!(&t[4..], &u2[4..]);
    assert_eq!(decode_tcp(&t), Ok(u2));
}
