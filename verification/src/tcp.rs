//! CoAP over reliable transports (RFC 8323): conversion between the
//! datagram message layout and the stream framing.
//!
//! Datagram layout: `[Ver|T|TKL][Code][MsgID hi][MsgID lo][Token, options, payload]`.
//! Stream layout: `[Len|TKL][extended length, 0 to 4 bytes][Code][Token, options, payload]`.
//!
//! `Len` and the extended length together give the data length, which here
//! counts the code byte and everything after it.

use vstd::prelude::*;

verus! {

/// Why a frame could not be converted.
#[derive(Debug, Clone, Copy, PartialEq, Eq, Structural)]
pub enum FrameError {
    /// A datagram message shorter than its four-byte header.
    PacketTooShort,
    /// No bytes at all.
    EmptyFrame,
    /// The frame holds fewer bytes than its length fields announce.
    FrameTooShort,
    /// The extended length bytes that the `Len` nibble announces are missing.
    TruncatedExtendedLength,
    /// A `Len` nibble above 15.
    InvalidLenNibble,
}

impl FrameError {
    /// The human-readable description of the error.
    pub fn message(&self) -> (r: &'static str)
        ensures
            *self == FrameError::PacketTooShort ==> r@ == "packet too short"@,
            *self == FrameError::EmptyFrame ==> r@ == "empty frame"@,
            *self == FrameError::FrameTooShort ==> r@ == "frame too short"@,
            *self == FrameError::TruncatedExtendedLength ==> r@ == "truncated extended length"@,
            *self == FrameError::InvalidLenNibble ==> r@ == "invalid Len nibble"@,
    {
        match self {
            FrameError::PacketTooShort => "packet too short",
            FrameError::EmptyFrame => "empty frame",
            FrameError::FrameTooShort => "frame too short",
            FrameError::TruncatedExtendedLength => "truncated extended length",
            FrameError::InvalidLenNibble => "invalid Len nibble",
        }
    }
}

/// The two bytes of `x` in big-endian order.
pub open spec fn be16(x: int) -> Seq<u8> {
    seq![(x / 256) as u8, (x % 256) as u8]
}

/// The four bytes of `x` in big-endian order.
pub open spec fn be32(x: int) -> Seq<u8> {
    seq![
        (x / 0x1000000) as u8,
        ((x / 0x10000) % 256) as u8,
        ((x / 256) % 256) as u8,
        (x % 256) as u8,
    ]
}

/// The length header of a frame whose data (code, token, options and
/// payload) is `data_len` bytes long: the first byte holds the `Len` nibble
/// and the token length, then come the extended length bytes.  Lengths past
/// the four-byte range keep their low 32 bits.
pub open spec fn frame_header(data_len: int, tkl: int) -> Seq<u8> {
    if data_len <= 12 {
        seq![(data_len * 16 + tkl) as u8]
    } else if data_len <= 268 {
        seq![(13 * 16 + tkl) as u8, (data_len - 13) as u8]
    } else if data_len <= 65804 {
        seq![(14 * 16 + tkl) as u8] + be16(data_len - 269)
    } else {
        seq![(15 * 16 + tkl) as u8] + be32((data_len - 65805) % 0x1_0000_0000)
    }
}

/// The stream frame of the datagram message `u` (at least four bytes): the
/// version, type and message id are dropped, the token length is kept.
pub open spec fn tcp_frame_of(u: Seq<u8>) -> Seq<u8> {
    let rest = u.subrange(4, u.len() as int);
    frame_header(1 + rest.len() as int, (u[0] % 16) as int) + seq![u[1]] + rest
}

/// The data length and the offset at which the data starts, as the `Len`
/// nibble `n` (at most 15) and the extended length bytes after the first
/// byte of `t` give them; `None` when the extended length bytes are missing.
pub open spec fn length_fields(n: u8, t: Seq<u8>) -> Option<(int, int)> {
    if n <= 12 {
        Some((n as int, 1))
    } else if n == 13 {
        if t.len() < 2 { None } else { Some((t[1] + 13, 2)) }
    } else if n == 14 {
        if t.len() < 3 { None } else { Some((t[1] * 256 + t[2] + 269, 3)) }
    } else if t.len() < 5 {
        None
    } else {
        Some((t[1] * 0x1000000 + t[2] * 0x10000 + t[3] * 256 + t[4] + 65805, 5))
    }
}

/// The data length and data offset of the frame `t`, from its first byte's
/// `Len` nibble.
pub open spec fn frame_length(t: Seq<u8>) -> Option<(int, int)> {
    length_fields(t[0] / 16, t)
}

/// The datagram message rebuilt from the frame `t`: version 1,
/// non-confirmable, message id 0, the frame's token length, code, token,
/// options and payload; `None` when the frame is empty, announces no code
/// byte (data length 0) or is shorter than its length fields say.
pub open spec fn datagram_of(t: Seq<u8>) -> Option<Seq<u8>> {
    if t.len() == 0 {
        None
    } else {
        match frame_length(t) {
            None => None,
            Some((d, h)) => if d < 1 || t.len() < h + d {
                None
            } else {
                Some(seq![(0x50 + t[0] % 16) as u8, t[h], 0u8, 0u8] + t.subrange(h + 1, h + d))
            },
        }
    }
}

/// The error `decode_tcp` gives where `datagram_of` is `None`.
pub open spec fn decode_error(t: Seq<u8>) -> FrameError {
    if t.len() == 0 {
        FrameError::EmptyFrame
    } else if frame_length(t) is None {
        FrameError::TruncatedExtendedLength
    } else {
        FrameError::FrameTooShort
    }
}

/// Appends `b[start..end]` to `out`.
fn append_range(out: &mut Vec<u8>, b: &[u8], start: usize, end: usize)
    requires
        start <= end <= b@.len(),
    ensures
        final(out)@ == old(out)@ + b@.subrange(start as int, end as int),
{
    let mut i: usize = start;
    while i < end
        invariant
            start <= i <= end <= b@.len(),
            out@ == old(out)@ + b@.subrange(start as int, i as int),
        decreases end - i,
    {
        out.push(b[i]);
        i = i + 1;
        assert(out@ =~= old(out)@ + b@.subrange(start as int, i as int));
    }
}

/// Converts a datagram message into its stream frame.  Fails when the
/// message is shorter than the four-byte header.
pub fn encode_tcp(udp_bytes: &[u8]) -> (r: Result<Vec<u8>, FrameError>)
    ensures
        udp_bytes@.len() < 4 <==> r == Err::<Vec<u8>, FrameError>(FrameError::PacketTooShort),
        udp_bytes@.len() >= 4 ==> (r matches Ok(v) && v@ == tcp_frame_of(udp_bytes@)),
{
    if udp_bytes.len() < 4 {
        return Err(FrameError::PacketTooShort);
    }
    let tkl: u8 = udp_bytes[0] & 0x0F;
    let code: u8 = udp_bytes[1];
    let b0: u8 = udp_bytes[0];
    assert(b0 & 0x0F == b0 % 16) by (bit_vector);
    let data_len: usize = 1 + (udp_bytes.len() - 4);
    let mut out: Vec<u8> = Vec::new();
    if data_len <= 12 {
        out.push((data_len as u8) * 16 + tkl);
    } else if data_len <= 268 {
        out.push(13 * 16 + tkl);
        out.push((data_len - 13) as u8);
    } else if data_len <= 65804 {
        let x: usize = data_len - 269;
        out.push(14 * 16 + tkl);
        out.push((x / 256) as u8);
        out.push((x % 256) as u8);
    } else {
        let y: u64 = (data_len - 65805) as u64;
        let x: u32 = y as u32;
        assert(x == y % 0x1_0000_0000) by (bit_vector)
            requires
                x == y as u32,
        ;
        out.push(15 * 16 + tkl);
        out.push((x / 0x1000000) as u8);
        out.push(((x / 0x10000) % 256) as u8);
        out.push(((x / 256) % 256) as u8);
        out.push((x % 256) as u8);
    }
    proof {
        let rest = udp_bytes@.subrange(4, udp_bytes@.len() as int);
        assert(out@ =~= frame_header(1 + rest.len() as int, (udp_bytes@[0] % 16) as int));
    }
    out.push(code);
    append_range(&mut out, udp_bytes, 4, udp_bytes.len());
    Ok(out)
}

/// How many extended length bytes follow the first byte of a frame whose
/// `Len` nibble is `len_nibble`.
pub fn extended_length_size(len_nibble: u8) -> (r: usize)
    ensures
        r == if len_nibble <= 12 { 0usize } else if len_nibble == 13 { 1usize } else if len_nibble == 14 { 2usize } else { 4usize },
{
    if len_nibble <= 12 {
        0
    } else if len_nibble == 13 {
        1
    } else if len_nibble == 14 {
        2
    } else {
        4
    }
}

/// Reads the data length and the data offset of a frame from its `Len`
/// nibble and the extended length bytes after the first byte of `buf`.
/// Fails for a nibble above 15, when the extended length bytes are missing,
/// and, where `usize` is too narrow to hold the length, with
/// `FrameTooShort`.
pub fn decode_length(len_nibble: u8, buf: &[u8]) -> (r: Result<(usize, usize), FrameError>)
    ensures
        len_nibble > 15 ==> r == Err::<(usize, usize), FrameError>(FrameError::InvalidLenNibble),
        len_nibble <= 15 ==> match length_fields(len_nibble, buf@) {
            None => r == Err::<(usize, usize), FrameError>(FrameError::TruncatedExtendedLength),
            Some((d, h)) => if d <= usize::MAX {
                r == Ok::<(usize, usize), FrameError>((d as usize, h as usize))
            } else {
                r == Err::<(usize, usize), FrameError>(FrameError::FrameTooShort)
            },
        },
{
    if len_nibble > 15 {
        return Err(FrameError::InvalidLenNibble);
    }
    if len_nibble <= 12 {
        Ok((len_nibble as usize, 1))
    } else if len_nibble == 13 {
        if buf.len() < 2 {
            return Err(FrameError::TruncatedExtendedLength);
        }
        Ok((buf[1] as usize + 13, 2))
    } else if len_nibble == 14 {
        if buf.len() < 3 {
            return Err(FrameError::TruncatedExtendedLength);
        }
        Ok((buf[1] as usize * 256 + buf[2] as usize + 269, 3))
    } else {
        if buf.len() < 5 {
            return Err(FrameError::TruncatedExtendedLength);
        }
        let x: u64 = buf[1] as u64 * 0x1000000 + buf[2] as u64 * 0x10000 + buf[3] as u64 * 256
            + buf[4] as u64 + 65805;
        if x > usize::MAX as u64 {
            return Err(FrameError::FrameTooShort);
        }
        Ok((x as usize, 5))
    }
}

/// Converts one complete stream frame back into a datagram message (version
/// 1, non-confirmable, message id 0).  A frame whose data length is 0
/// announces no code byte and is refused with `FrameTooShort`.
pub fn decode_tcp(tcp_bytes: &[u8]) -> (r: Result<Vec<u8>, FrameError>)
    ensures
        match datagram_of(tcp_bytes@) {
            Some(u) => r matches Ok(v) && v@ == u,
            None => r == Err::<Vec<u8>, FrameError>(decode_error(tcp_bytes@)),
        },
{
    if tcp_bytes.len() == 0 {
        return Err(FrameError::EmptyFrame);
    }
    let first_byte: u8 = tcp_bytes[0];
    let len_nibble: u8 = (first_byte >> 4) & 0x0F;
    let tkl: u8 = first_byte & 0x0F;
    assert(first_byte >> 4 & 0x0F == first_byte / 16 && first_byte & 0x0F == first_byte % 16)
        by (bit_vector);
    let (data_len, header_end) = match decode_length(len_nibble, tcp_bytes) {
        Ok(p) => p,
        Err(e) => {
            return Err(e);
        },
    };
    if data_len == 0 || tcp_bytes.len() - header_end < data_len {
        return Err(FrameError::FrameTooShort);
    }
    let code: u8 = tcp_bytes[header_end];
    let mut out: Vec<u8> = Vec::new();
    out.push(0x50 + tkl);
    out.push(code);
    out.push(0);
    out.push(0);
    append_range(&mut out, tcp_bytes, header_end + 1, header_end + data_len);
    assert(out@ =~= datagram_of(tcp_bytes@)->0);
    Ok(out)
}

/// The datagram messages that the stream framing carries unchanged: at
/// least the four header bytes, version 1, non-confirmable, message id 0,
/// and a data length that fits the four-byte extended length.
pub open spec fn framable(u: Seq<u8>) -> bool {
    &&& u.len() >= 4
    &&& u[0] / 16 == 5
    &&& u[2] == 0
    &&& u[3] == 0
    &&& u.len() - 3 - 65805 <= u32::MAX
}

/// Framing a datagram message and reading the frame back gives the message
/// with version 1, type non-confirmable and message id 0 and everything
/// else kept, for every message of at least four bytes whose data length
/// fits the four-byte extended length; the message itself where it already
/// is so (see `framable`).
pub proof fn lemma_tcp_roundtrip(u: Seq<u8>)
    requires
        u.len() >= 4,
        u.len() - 3 - 65805 <= u32::MAX,
    ensures
        tcp_frame_of(u).len() > 0,
        tcp_frame_of(u)[0] >= 16,
        datagram_of(tcp_frame_of(u)) == Some(
            seq![(0x50 + u[0] % 16) as u8, u[1], 0u8, 0u8] + u.subrange(4, u.len() as int),
        ),
        framable(u) ==> datagram_of(tcp_frame_of(u)) == Some(u),
{
    let rest = u.subrange(4, u.len() as int);
    let d = 1 + rest.len() as int;
    let tkl = (u[0] % 16) as int;
    let hdr = frame_header(d, tkl);
    let t = tcp_frame_of(u);
    assert(t =~= hdr + seq![u[1]] + rest);
    let h = hdr.len() as int;
    assert(t[0] == hdr[0]);
    assert(t[0] / 16 == if d <= 12 { d } else if d <= 268 { 13 } else if d <= 65804 { 14 } else { 15 });
    assert(t[0] % 16 == tkl);
    if d <= 12 {
    } else if d <= 268 {
        assert(t[1] == hdr[1]);
    } else if d <= 65804 {
        assert(t[1] == hdr[1] && t[2] == hdr[2]);
        assert(t[1] * 256 + t[2] == d - 269);
    } else {
        let x = (d - 65805) % 0x1_0000_0000;
        assert(x == d - 65805);
        assert(t[1] == hdr[1] && t[2] == hdr[2] && t[3] == hdr[3] && t[4] == hdr[4]);
        assert(t[1] * 0x1000000 + t[2] * 0x10000 + t[3] * 256 + t[4] == x);
    }
    assert(frame_length(t) == Some((d, h)));
    assert(t[h] == u[1]);
    assert(t.subrange(h + 1, h + d) =~= rest);
    if framable(u) {
        assert(seq![(0x50 + t[0] % 16) as u8, t[h], 0u8, 0u8] + t.subrange(h + 1, h + d) =~= u);
    }
}

} // verus!
