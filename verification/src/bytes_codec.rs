//! The fixed four-byte header on the wire, read and written with bincode's
//! big-endian fixed-width integer encoding.

use vstd::prelude::*;

verus! {

#[verifier::external_type_specification]
#[verifier::external_body]
pub struct ExBincodeErrorKind(bincode::ErrorKind);

/// Calls `bincode::config().big_endian().deserialize::<(u8, u8, u16)>`.
/// With the legacy configuration (fixed-width integers, trailing bytes
/// allowed, no size limit) it reads the first two bytes as they stand and
/// the next two as a big-endian `u16`, and fails exactly when fewer than
/// four bytes are given (the reader runs out of input).
#[verifier::external_body]
#[allow(deprecated)]
pub(crate) fn decode_header_bytes(buf: &[u8]) -> (r: Result<(u8, u8, u16), Box<bincode::ErrorKind>>)
    ensures
        r is Ok <==> buf@.len() >= 4,
        r matches Ok(t) ==> t.0 == buf@[0] && t.1 == buf@[1] && t.2 as int == buf@[2] as int * 256
            + buf@[3] as int,
{
    bincode::config().big_endian().deserialize::<(u8, u8, u16)>(buf)
}

/// Calls `bincode::config().big_endian().serialize_into` on the tuple
/// `(ver_type_tkl, code, message_id)`: it appends the two bytes and then the
/// `u16` in big-endian order.  Writing into a `Vec` cannot fail and the
/// legacy configuration sets no size limit, so the result is `Ok`.
#[verifier::external_body]
#[allow(deprecated)]
pub(crate) fn encode_header_bytes(buf: &mut Vec<u8>, raw: (u8, u8, u16)) -> (r: Result<(), Box<bincode::ErrorKind>>)
    ensures
        r is Ok,
        final(buf)@ == old(buf)@ + seq![raw.0, raw.1, (raw.2 / 256) as u8, (raw.2 % 256) as u8],
{
    bincode::config().big_endian().serialize_into(buf, &raw)
}

} // verus!
