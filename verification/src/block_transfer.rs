//! Sending a payload block by block (RFC 7959, Block1): which request goes
//! out next and how the transfer moves on after each response.  The
//! caller sends the requests and receives the responses.

use vstd::prelude::*;
use crate::message::header::{Header, MessageClass, Requests};
use crate::message::options::{BlockOption, BlockSize, block_option_bytes, block_size_bytes, max_block_number};
use crate::message::packet::{CoAPOption, Packet, ParseError, option_values, parse_packet};
use crate::message::request::{CoAPRequest, uri_path_values};
use crate::message::response::CoAPResponse;
use crate::wire::lookup;

verus! {

/// Where a block-wise transfer stands: the number of the next block, the
/// bytes sent so far, the block size and the next message id; or the
/// final response.
pub enum BlockTransferProgress {
    Progress(u32, usize, BlockSize, u16),
    Finished(CoAPResponse),
}

/// The end of the block that starts at `bytes_sent`.
pub open spec fn block_end(payload_len: nat, bytes_sent: nat, block_size: BlockSize) -> nat {
    if bytes_sent + block_size_bytes(block_size) < payload_len {
        bytes_sent + block_size_bytes(block_size) as nat
    } else {
        payload_len
    }
}

/// The request that carries the block of `payload` that starts at
/// `bytes_sent`: a PUT to `path` with message id `message_id`, the bytes of
/// the block as payload and a Block1 option with the block number, whether
/// more blocks follow, and the block size.
pub fn block_request<Endpoint>(
    path: &str,
    payload: &[u8],
    block_nr: u32,
    bytes_sent: usize,
    block_size: BlockSize,
    message_id: u16,
) -> (r: CoAPRequest<Endpoint>)
    requires
        bytes_sent <= payload@.len(),
        bytes_sent + block_size_bytes(block_size) <= usize::MAX,
        block_nr <= max_block_number(),
    ensures
        r.message.header == (Header { ver_type_tkl: 0, code: MessageClass::RequestType(Requests::Put), message_id }),
        r.message.token@ == Seq::<u8>::empty(),
        option_values(r.message.options@, 11) == uri_path_values(path@),
        option_values(r.message.options@, 27) == seq![
            block_option_bytes(
                block_nr,
                block_end(payload@.len(), bytes_sent as nat, block_size) < payload@.len(),
                block_size,
            ),
        ],
        forall|j: usize| j != 11 && j != 27 ==> lookup(r.message.options@, j) is None,
        r.message.payload@ == payload@.subrange(
            bytes_sent as int,
            block_end(payload@.len(), bytes_sent as nat, block_size) as int,
        ),
        r.response is None,
        r.source is None,
{
    let mut request: CoAPRequest<Endpoint> = CoAPRequest::new();
    request.set_method(Requests::Put);
    request.set_path(path);
    request.message.header.set_message_id(message_id);
    let end: usize = if bytes_sent + block_size.bytes() < payload.len() {
        bytes_sent + block_size.bytes()
    } else {
        payload.len()
    };
    let mut chunk: Vec<u8> = Vec::new();
    let mut i: usize = bytes_sent;
    while i < end
        invariant
            bytes_sent <= i <= end <= payload@.len(),
            chunk@ == payload@.subrange(bytes_sent as int, i as int),
        decreases end - i,
    {
        chunk.push(payload[i]);
        i = i + 1;
        assert(chunk@ =~= payload@.subrange(bytes_sent as int, i as int));
    }
    request.message.set_payload(chunk);
    let block = match BlockOption::new(block_nr, end < payload.len(), block_size) {
        Ok(b) => b,
        Err(_) => {
            return request;
        },
    };
    request.message.add_option(CoAPOption::Block1, block.to_bytes());
    proof {
        assert(lookup(request.message.options@, 27) is Some);
        assert(option_values(request.message.options@, 27) =~= seq![
            block_option_bytes(block_nr, end < payload@.len(), block_size),
        ]);
    }
    request
}

/// The code byte of a 2.31 Continue response (RFC 7959), which asks for
/// the next block.
pub const CONTINUE_CODE: u8 = 0x5F;

/// How a transfer moves on after the response whose bytes are `response`:
/// bytes that do not parse are refused with the parse error; a Continue
/// response (code byte 2.31) asks for the next block, with the next message
/// id; any other response ends the transfer with it.  A finished transfer
/// stays finished.
pub fn next_progress(progress: BlockTransferProgress, response: &[u8]) -> (r: Result<BlockTransferProgress, ParseError>)
    requires
        progress matches BlockTransferProgress::Progress(nr, sent, bs, mid) ==> (
            response@.len() >= 2 && response@[1] == CONTINUE_CODE ==> {
                &&& nr < u32::MAX
                &&& sent + block_size_bytes(bs) <= usize::MAX
                &&& mid < u16::MAX
            }),
    ensures
        match progress {
            BlockTransferProgress::Progress(nr, sent, bs, mid) => match parse_packet(response@) {
                Err(e) => r == Err::<BlockTransferProgress, ParseError>(e),
                Ok(m) => if response@[1] == CONTINUE_CODE {
                    r == Ok::<BlockTransferProgress, ParseError>(
                        BlockTransferProgress::Progress((nr + 1) as u32, (sent + block_size_bytes(bs)) as usize, bs, (mid + 1) as u16),
                    )
                } else {
                    r matches Ok(BlockTransferProgress::Finished(f)) && f.message@ == m
                },
            },
            BlockTransferProgress::Finished(f) => r == Ok::<BlockTransferProgress, ParseError>(BlockTransferProgress::Finished(f)),
        },
{
    match progress {
        BlockTransferProgress::Progress(block_nr, bytes_sent, block_size, message_id) => {
            let packet = match Packet::from_bytes(response) {
                Ok(p) => p,
                Err(e) => {
                    return Err(e);
                },
            };
            if response[1] == CONTINUE_CODE {
                Ok(BlockTransferProgress::Progress(block_nr + 1, bytes_sent + block_size.bytes(), block_size, message_id + 1))
            } else {
                Ok(BlockTransferProgress::Finished(CoAPResponse { message: packet }))
            }
        },
        BlockTransferProgress::Finished(f) => Ok(BlockTransferProgress::Finished(f)),
    }
}

/// The payloads of the blocks from `bytes_sent` on, one after another,
/// where every response asks for the next block.
pub open spec fn blocks_from(payload: Seq<u8>, bytes_sent: nat, block_size: BlockSize) -> Seq<u8>
    decreases payload.len() - bytes_sent,
{
    if bytes_sent >= payload.len() {
        Seq::empty()
    } else {
        payload.subrange(bytes_sent as int, block_end(payload.len(), bytes_sent, block_size) as int) + if bytes_sent
            + block_size_bytes(block_size) < payload.len() {
            blocks_from(payload, bytes_sent + block_size_bytes(block_size) as nat, block_size)
        } else {
            Seq::empty()
        }
    }
}

/// Sent block after block, the blocks put the payload back together: the
/// block payloads from `bytes_sent` on are the rest of the payload.
pub proof fn lemma_blocks_cover(payload: Seq<u8>, bytes_sent: nat, block_size: BlockSize)
    requires
        bytes_sent <= payload.len(),
    ensures
        blocks_from(payload, bytes_sent, block_size) == payload.subrange(bytes_sent as int, payload.len() as int),
    decreases payload.len() - bytes_sent,
{
    let bs = block_size_bytes(block_size) as nat;
    assert(bs >= 16);
    if bytes_sent < payload.len() {
        let e = block_end(payload.len(), bytes_sent, block_size);
        if bytes_sent + bs < payload.len() {
            lemma_blocks_cover(payload, bytes_sent + bs, block_size);
        }
        assert(payload.subrange(bytes_sent as int, e as int) + payload.subrange(e as int, payload.len() as int)
            =~= payload.subrange(bytes_sent as int, payload.len() as int));
    } else {
        assert(payload.subrange(bytes_sent as int, payload.len() as int) =~= Seq::<u8>::empty());
    }
}

/// The block option of a block says that more blocks follow exactly when
/// the block ends before the payload does.
pub proof fn lemma_more_flag(payload_len: nat, bytes_sent: nat, block_size: BlockSize)
    requires
        bytes_sent < payload_len,
    ensures
        (block_end(payload_len, bytes_sent, block_size) < payload_len) == (bytes_sent + block_size_bytes(block_size) < payload_len),
{
}

} // verus!
