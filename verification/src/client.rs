//! Client-side decisions that do not depend on the transport.

use vstd::prelude::*;
use crate::block::{BlockValue, BlockValueError, block_of_scalar, be_value, uint16_bytes, block_scalar, size_exponent_for};
use vstd::arithmetic::power2::pow2;
use crate::message::header::{Header, MessageClass, MessageType, type_of};
use crate::message::packet::Packet;

verus! {

/// A message to a running observation.
#[derive(Debug, Clone, Copy, PartialEq, Eq, Structural)]
pub enum ObserveMessage {
    /// End the observation.
    Terminate,
}

/// The next message id: one more than `message_id`, which it replaces.
pub fn gen_message_id(message_id: &mut u16) -> (r: u16)
    requires
        *old(message_id) < u16::MAX,
    ensures
        r == *old(message_id) + 1,
        *final(message_id) == r,
{
    *message_id = *message_id + 1;
    *message_id
}

/// The most a block-wise response may grow the reassembled payload by in
/// one step.
pub const MAX_BLOCK2_EXTEND: usize = 16 * 1024;

/// `dst` after its bytes `start..end` are replaced by `with`, where `dst`
/// is first padded with zero bytes up to `end`; `None` where the padding
/// would exceed `max_extend` bytes.
pub open spec fn splice_spec(dst: Seq<u8>, start: int, end: int, with: Seq<u8>, max_extend: int) -> Option<Seq<u8>> {
    if end >= dst.len() && end - dst.len() > max_extend {
        None
    } else {
        let padded = if end > dst.len() { dst + Seq::new((end - dst.len()) as nat, |i: int| 0u8) } else { dst };
        Some(padded.take(start) + with + padded.skip(end))
    }
}

/// Calls `coap_lite::block_handler::extending_splice(dst, start..end,
/// with, max_extend)` and drops the returned splice, which performs it:
/// where `end` lies past the end of `dst` by more than `max_extend` it
/// fails and leaves `dst` alone; otherwise `dst` is padded with zeros up to
/// `end` and its bytes `start..end` are replaced by `with`.
#[verifier::external_body]
fn extending_splice_bytes(dst: &mut Vec<u8>, start: usize, end: usize, with: &Vec<u8>, max_extend: usize) -> (r: Result<(), String>)
    requires
        start <= end,
    ensures
        match splice_spec(old(dst)@, start as int, end as int, with@, max_extend as int) {
            None => r is Err && final(dst)@ == old(dst)@,
            Some(d) => r is Ok && final(dst)@ == d,
        },
{
    coap_lite::block_handler::extending_splice(dst, start..end, with.iter().copied(), max_extend).map(|_splice| ())
}

/// The state of a block-wise response that is being received: the payload
/// put together so far.
#[derive(Debug, Clone, Default)]
pub struct BlockState {
    pub cached_payload: Option<Vec<u8>>,
}

/// What the client does with a response.
pub enum Block2Step {
    /// The response is complete as it is (no usable Block2 option).
    Complete,
    /// Ask for the next block with this Block2 option value.
    RequestNext(Vec<u8>),
    /// The last block arrived: this is the whole payload.
    Assembled(Vec<u8>),
}

/// The block value that a Block2 option value holds, if it has at most
/// two bytes.
pub open spec fn block2_value(b: Option<Seq<u8>>) -> Option<BlockValue> {
    match b {
        Some(v) => if v.len() <= 2 { Some(block_of_scalar(be_value(v) as int)) } else { None },
        None => None,
    }
}

/// The payload put together so far with the block `bv` carrying `payload`.
pub open spec fn block2_splice(cached: Option<Seq<u8>>, bv: BlockValue, payload: Seq<u8>) -> Option<Seq<u8>> {
    let size = pow2(bv.size_exponent as nat + 4) as int;
    let start = bv.num as int * size;
    splice_spec(
        match cached {
            Some(c) => c,
            None => Seq::empty(),
        },
        start,
        start + size,
        payload,
        MAX_BLOCK2_EXTEND as int,
    )
}

impl BlockState {
    /// Handles the Block2 option value `block2` of a response carrying
    /// `payload`: without one the response is complete; otherwise the
    /// block is written at its place in the payload put together so far
    /// (which fails where that would grow it by more than
    /// `MAX_BLOCK2_EXTEND` bytes, keeping what was put together so far),
    /// and either the next block is asked for
    /// or, after the last block, the whole payload is handed over and the
    /// state is cleared.
    pub fn handle_response_block2(&mut self, block2: &Option<Vec<u8>>, payload: &Vec<u8>) -> (r: Result<Block2Step, String>)
        requires
            block2_value(crate::observer::opt_bytes_view(*block2)) matches Some(bv) ==> !(bv.more && bv.num == u16::MAX),
        ensures
            match block2_value(crate::observer::opt_bytes_view(*block2)) {
                None => r matches Ok(Block2Step::Complete) && crate::observer::opt_bytes_view(final(self).cached_payload)
                    == crate::observer::opt_bytes_view(old(self).cached_payload),
                Some(bv) => match block2_splice(crate::observer::opt_bytes_view(old(self).cached_payload), bv, payload@) {
                    None => r is Err && crate::observer::opt_bytes_view(final(self).cached_payload) == Some(
                        match crate::observer::opt_bytes_view(old(self).cached_payload) {
                            Some(c) => c,
                            None => Seq::<u8>::empty(),
                        },
                    ),
                    Some(c) => if bv.more {
                        &&& r matches Ok(Block2Step::RequestNext(next)) && next@ == uint16_bytes(
                            block_scalar(BlockValue { num: (bv.num + 1) as u16, ..bv }),
                        )
                        &&& crate::observer::opt_bytes_view(final(self).cached_payload) == Some(c)
                    } else {
                        &&& r matches Ok(Block2Step::Assembled(p)) && p@ == c
                        &&& final(self).cached_payload is None
                    },
                },
            },
    {
        let bv = match block2 {
            Some(b) => match BlockValue::try_from_bytes(b.clone()) {
                Ok(bv) => bv,
                Err(_) => {
                    return Ok(Block2Step::Complete);
                },
            },
            None => {
                return Ok(Block2Step::Complete);
            },
        };
        let mut cached: Vec<u8> = match self.cached_payload.take() {
            Some(c) => c,
            None => Vec::new(),
        };
        let size: usize = bv.size();
        proof {
            vstd::arithmetic::power2::lemma2_to64();
            assert(size <= 2048) by {
                if bv.size_exponent < 7 {
                    vstd::arithmetic::power2::lemma_pow2_strictly_increases(bv.size_exponent as nat + 4, 11);
                }
            }
            assert(bv.num as int * size <= 65535 * 2048) by (nonlinear_arith)
                requires
                    size <= 2048,
            ;
        }
        let start: usize = bv.num as usize * size;
        let ghost old_cached = cached@;
        match extending_splice_bytes(&mut cached, start, start + size, payload, MAX_BLOCK2_EXTEND) {
            Ok(()) => {},
            Err(e) => {
                self.cached_payload = Some(cached);
                return Err(e);
            },
        }
        if bv.more {
            let next = BlockValue { num: bv.num + 1, more: bv.more, size_exponent: bv.size_exponent };
            self.cached_payload = Some(cached);
            Ok(Block2Step::RequestNext(next.to_bytes()))
        } else {
            Ok(Block2Step::Assembled(cached))
        }
    }
}

/// Why a block-wise request failed.
#[derive(Debug, Clone, Copy, PartialEq, Eq, Structural)]
pub enum TransferError {
    /// The block number or the block size cannot be encoded.
    CouldNotSetBlockSize,
    /// The server answered a block without a Block1 option.
    BlockwiseUnsupported,
    /// The server's Block1 option could not be read.
    InvalidBlock,
    /// The server asked for another block size.
    NegotiationUnsupported,
}

/// The message of a transfer error.
pub open spec fn transfer_error_message(e: TransferError) -> Seq<char> {
    match e {
        TransferError::CouldNotSetBlockSize => "could not set block size"@,
        TransferError::BlockwiseUnsupported => "endpoint does not support blockwise transfers. Try setting block1_size to a larger value"@,
        TransferError::InvalidBlock => "endpoint responded with invalid block"@,
        TransferError::NegotiationUnsupported => "negotiating block size is currently unsupported"@,
    }
}

impl TransferError {
    /// The human-readable message of the error.
    pub fn message(&self) -> (r: &'static str)
        ensures
            r@ == transfer_error_message(*self),
    {
        match self {
            TransferError::CouldNotSetBlockSize => "could not set block size",
            TransferError::BlockwiseUnsupported => "endpoint does not support blockwise transfers. Try setting block1_size to a larger value",
            TransferError::InvalidBlock => "endpoint responded with invalid block",
            TransferError::NegotiationUnsupported => "negotiating block size is currently unsupported",
        }
    }
}

/// The end of block `index` of a payload of `len` bytes in blocks of
/// `block_size` bytes.
pub open spec fn chunk_end(len: nat, index: nat, block_size: nat) -> nat {
    if (index + 1) * block_size < len {
        (index + 1) * block_size
    } else {
        len
    }
}

/// Block `index` of a request payload sent in blocks of `block1_size`
/// bytes: its bytes, the value of its Block1 option, and whether more
/// blocks follow.  Fails where the block number or the size cannot be
/// encoded (see `BlockValue::new`).
pub fn block1_part(payload: &Vec<u8>, index: usize, block1_size: usize) -> (r: Result<(Vec<u8>, Vec<u8>, bool), TransferError>)
    requires
        block1_size > 0,
        index * block1_size < payload@.len(),
    ensures
        (block1_size >= 4096 || index > u16::MAX) ==> r == Err::<(Vec<u8>, Vec<u8>, bool), TransferError>(
            TransferError::CouldNotSetBlockSize,
        ),
        (block1_size < 4096 && index <= u16::MAX) ==> (r matches Ok(part) && {
            let more = (index + 1) * block1_size < payload@.len();
            &&& part.0@ == payload@.subrange(
                index * block1_size,
                chunk_end(payload@.len(), index as nat, block1_size as nat) as int,
            )
            &&& part.1@ == uint16_bytes(
                block_scalar(BlockValue { num: index as u16, more, size_exponent: size_exponent_for(block1_size as nat) as u8 }),
            )
            &&& part.2 == more
        }),
{
    let len: usize = payload.len();
    assert(index * block1_size < len);
    let start: usize = index * block1_size;
    let rest: usize = payload.len() - start;
    let more: bool = rest > block1_size;
    proof {
        assert((index + 1) * block1_size == start + block1_size) by (nonlinear_arith)
            requires
                start == index * block1_size,
        ;
    }
    let end: usize = if more { start + block1_size } else { payload.len() };
    let block = match BlockValue::new(index, more, block1_size) {
        Ok(b) => b,
        Err(_) => {
            return Err(TransferError::CouldNotSetBlockSize);
        },
    };
    let mut chunk: Vec<u8> = Vec::new();
    let mut i: usize = start;
    while i < end
        invariant
            start <= i <= end <= payload@.len(),
            chunk@ == payload@.subrange(start as int, i as int),
        decreases end - i,
    {
        chunk.push(payload[i]);
        i = i + 1;
        assert(chunk@ =~= payload@.subrange(start as int, i as int));
    }
    Ok((chunk, block.to_bytes(), more))
}

/// Checks the server's answer to a block that is not the last one: it
/// must carry a readable Block1 option with the size exponent that was
/// sent.
pub fn check_block1_response(sent_size_exponent: u8, response_block1: &Option<Vec<u8>>) -> (r: Result<(), TransferError>)
    ensures
        r == match crate::observer::opt_bytes_view(*response_block1) {
            None => Err(TransferError::BlockwiseUnsupported),
            Some(v) => if v.len() > 2 {
                Err(TransferError::InvalidBlock)
            } else if block_of_scalar(be_value(v) as int).size_exponent != sent_size_exponent {
                Err(TransferError::NegotiationUnsupported)
            } else {
                Ok(())
            },
        },
{
    match response_block1 {
        None => Err(TransferError::BlockwiseUnsupported),
        Some(v) => match BlockValue::try_from_bytes(v.clone()) {
            Err(_) => Err(TransferError::InvalidBlock),
            Ok(b) => if b.size_exponent != sent_size_exponent {
                Err(TransferError::NegotiationUnsupported)
            } else {
                Ok(())
            },
        },
    }
}

/// What `check_block1_response` answers for the sent size exponent and the
/// server's Block1 option value.
pub open spec fn block1_check_spec(sent_size_exponent: u8, block1: Option<Seq<u8>>) -> Result<(), TransferError> {
    match block1 {
        None => Err(TransferError::BlockwiseUnsupported),
        Some(v) => if v.len() > 2 {
            Err(TransferError::InvalidBlock)
        } else if block_of_scalar(be_value(v) as int).size_exponent != sent_size_exponent {
            Err(TransferError::NegotiationUnsupported)
        } else {
            Ok(())
        },
    }
}

/// The next step of sending a request payload in blocks.
pub enum Block1Step {
    /// The payload fits in one request: send it as it is.
    Single,
    /// Send this block: its bytes and its Block1 option value.
    Send(Vec<u8>, Vec<u8>),
    /// Every block went out: the last response is the answer.
    Done,
    /// Stop the transfer with this error; nothing more is sent.
    Fail(TransferError),
}

/// The bytes of block `index` of `payload` in blocks of `block_size` bytes.
pub open spec fn block1_chunk(payload: Seq<u8>, index: nat, block_size: nat) -> Seq<u8> {
    payload.subrange((index * block_size) as int, chunk_end(payload.len(), index, block_size) as int)
}

/// The step after `index` blocks of `payload` (in blocks of `block1_size`
/// bytes) went out, where `last_block1` is the Block1 option value of the
/// response to the last of them:
/// - before any block, a payload of at most `block1_size` bytes goes out
///   in one request (`Single`);
/// - once every block went out, `Done`;
/// - otherwise the response to the previous block must carry a Block1
///   option with the size exponent that was sent (see
///   `check_block1_response`), else the transfer fails;
/// - and then block `index` goes out (see `block1_part`), or the transfer
///   fails where its number or size cannot be encoded.
pub fn block1_step(payload: &Vec<u8>, block1_size: usize, index: usize, last_block1: &Option<Vec<u8>>) -> (r: Block1Step)
    requires
        block1_size > 0 || payload@.len() == 0,
        index == 0 || (index - 1) * block1_size < payload@.len(),
        payload@.len() + block1_size <= usize::MAX,
    ensures
        index == 0 && payload@.len() <= block1_size ==> r is Single,
        index > 0 && index * block1_size >= payload@.len() ==> r is Done,
        (index > 0 || payload@.len() > block1_size) && index * block1_size < payload@.len() ==> {
            let exp = size_exponent_for(block1_size as nat) as u8;
            let more = (index + 1) * block1_size < payload@.len();
            if index > 0 && (block1_size >= 4096 || index - 1 > u16::MAX) {
                r matches Block1Step::Fail(e) && e == TransferError::CouldNotSetBlockSize
            } else if index > 0 && block1_check_spec(exp, crate::observer::opt_bytes_view(*last_block1)) is Err {
                r matches Block1Step::Fail(e) && Err::<(), TransferError>(e) == block1_check_spec(
                    exp,
                    crate::observer::opt_bytes_view(*last_block1),
                )
            } else if block1_size >= 4096 || index > u16::MAX {
                r matches Block1Step::Fail(e) && e == TransferError::CouldNotSetBlockSize
            } else {
                r matches Block1Step::Send(chunk, block1) && chunk@ == block1_chunk(
                    payload@,
                    index as nat,
                    block1_size as nat,
                ) && block1@ == uint16_bytes(
                    block_scalar(BlockValue { num: index as u16, more, size_exponent: exp }),
                )
            }
        },
{
    if index == 0 && payload.len() <= block1_size {
        return Block1Step::Single;
    }
    assert(block1_size > 0);
    if index > 0 {
        proof {
            assert(index * block1_size == (index - 1) * block1_size + block1_size) by (nonlinear_arith);
        }
        let end: usize = index * block1_size;
        if end >= payload.len() {
            return Block1Step::Done;
        }
        let sent = match BlockValue::new(index - 1, true, block1_size) {
            Ok(b) => b,
            Err(_) => {
                return Block1Step::Fail(TransferError::CouldNotSetBlockSize);
            },
        };
        match check_block1_response(sent.size_exponent, last_block1) {
            Ok(()) => {},
            Err(e) => {
                return Block1Step::Fail(e);
            },
        }
    }
    match block1_part(payload, index, block1_size) {
        Ok((chunk, block1, _more)) => Block1Step::Send(chunk, block1),
        Err(e) => Block1Step::Fail(e),
    }
}

/// Sent one after another, the blocks from `index` on give the rest of the
/// payload from `index * block_size`.
pub open spec fn block1_chunks_from(payload: Seq<u8>, index: nat, block_size: nat) -> Seq<u8>
    decreases payload.len() + block_size - index * block_size,
    when block_size > 0
{
    if index * block_size >= payload.len() {
        Seq::empty()
    } else {
        proof {
            assert((index + 1) * block_size == index * block_size + block_size) by (nonlinear_arith);
        }
        block1_chunk(payload, index, block_size) + block1_chunks_from(payload, index + 1, block_size)
    }
}

/// The blocks that `block1_step` sends, in order from block `index`, put
/// the payload back together from `index * block_size` on; from block 0,
/// the whole payload.
pub proof fn lemma_block1_chunks_cover(payload: Seq<u8>, index: nat, block_size: nat)
    requires
        block_size > 0,
        index * block_size <= payload.len(),
    ensures
        block1_chunks_from(payload, index, block_size) == payload.subrange((index * block_size) as int, payload.len() as int),
    decreases payload.len() + block_size - index * block_size,
{
    assert((index + 1) * block_size == index * block_size + block_size) by (nonlinear_arith);
    if index * block_size >= payload.len() {
        assert(payload.subrange((index * block_size) as int, payload.len() as int) =~= Seq::<u8>::empty());
    } else {
        let e = chunk_end(payload.len(), index, block_size);
        if (index + 1) * block_size < payload.len() {
            lemma_block1_chunks_cover(payload, index + 1, block_size);
        } else {
            assert(block1_chunks_from(payload, index + 1, block_size) == Seq::<u8>::empty());
        }
        assert(payload.subrange((index * block_size) as int, e as int) + payload.subrange(e as int, payload.len() as int)
            =~= payload.subrange((index * block_size) as int, payload.len() as int));
    }
}

/// The components of a URL as `url::Url::parse` reads it: the host (as
/// `host_str` gives it), the explicit port, the path and the query; `None`
/// where it is not a URL.
pub uninterp spec fn url_components(url: Seq<char>) -> Option<(Option<Seq<char>>, Option<u16>, Seq<char>, Option<Seq<char>>)>;

/// The components of a parsed URL.
pub struct UrlParts {
    pub host: Option<String>,
    pub port: Option<u16>,
    pub path: String,
    pub query: Option<String>,
}

pub open spec fn url_parts_view(p: UrlParts) -> (Option<Seq<char>>, Option<u16>, Seq<char>, Option<Seq<char>>) {
    (crate::observer::opt_string_view(p.host), p.port, p.path@, crate::observer::opt_string_view(p.query))
}

/// Calls `url::Url::parse(url)` and reads `host_str`, `port`, `path` and
/// `query` of the result; what they are is named `url_components`.
#[verifier::external_body]
fn parse_url(url: &str) -> (r: Option<UrlParts>)
    ensures
        match r {
            None => url_components(url@) is None,
            Some(p) => url_components(url@) == Some(url_parts_view(p)),
        },
{
    url::Url::parse(url).ok().map(|u| UrlParts {
        host: u.host_str().map(|h| h.to_string()),
        port: u.port(),
        path: u.path().to_string(),
        query: u.query().map(|q| q.to_string()),
    })
}

/// `host` without the square brackets round it, where it starts with `[`,
/// ends with `]` and holds no line feed (what replacing `^\[(.*?)]$` by
/// its group does).
pub open spec fn strip_brackets_spec(host: Seq<char>) -> Seq<char> {
    if host.len() >= 2 && host[0] == '[' && host.last() == ']' && !host.subrange(1, host.len() - 1).contains('\n') {
        host.subrange(1, host.len() - 1)
    } else {
        host
    }
}

/// Calls `regex::Regex::new(r"^\[(.*?)]$").replace(host, "$1")`: the
/// pattern matches exactly a whole host in square brackets with no line
/// feed inside (`.` does not match one), and the replacement keeps what is
/// between the brackets.
#[verifier::external_body]
fn strip_brackets(host: &str) -> (r: String)
    ensures
        r@ == strip_brackets_spec(host@),
{
    regex::Regex::new(r"^\[(.*?)]$").map(|re| re.replace(host, "$1").to_string()).unwrap_or_else(|_| host.to_string())
}

/// Why a CoAP URL is not accepted.
#[derive(Debug, Clone, Copy, PartialEq, Eq, Structural)]
pub enum UrlError {
    /// It is not a URL.
    InvalidUrl,
    /// It has no host, or an empty one.
    InvalidHost,
}

impl UrlError {
    /// The human-readable message of the error.
    pub fn message(&self) -> (r: &'static str)
        ensures
            r@ == match *self {
                UrlError::InvalidUrl => "url error"@,
                UrlError::InvalidHost => "host error"@,
            },
    {
        match self {
            UrlError::InvalidUrl => "url error",
            UrlError::InvalidHost => "host error",
        }
    }
}

/// The port of a CoAP URL without one.
pub const COAP_DEFAULT_PORT: u16 = 5683;

/// What a CoAP URL gives, from its components (`None` where it is not a
/// URL): the host without square brackets, the port (5683 by default), the
/// path, and the query as bytes.
pub open spec fn coap_url_spec(parts: Option<(Option<Seq<char>>, Option<u16>, Seq<char>, Option<Seq<char>>)>) -> Result<
    (Seq<char>, u16, Seq<char>, Option<Seq<u8>>),
    UrlError,
> {
    match parts {
        None => Err(UrlError::InvalidUrl),
        Some((host, port, path, query)) => match host {
            None => Err(UrlError::InvalidHost),
            Some(h) => if h.len() == 0 {
                Err(UrlError::InvalidHost)
            } else {
                Ok(
                    (
                        strip_brackets_spec(h),
                        match port {
                            Some(p) => p,
                            None => COAP_DEFAULT_PORT,
                        },
                        path,
                        match query {
                            Some(q) => Some(vstd::utf8::encode_utf8(q)),
                            None => None,
                        },
                    ),
                )
            },
        },
    }
}

pub open spec fn coap_url_view(r: Result<(String, u16, String, Option<Vec<u8>>), UrlError>) -> Result<
    (Seq<char>, u16, Seq<char>, Option<Seq<u8>>),
    UrlError,
> {
    match r {
        Ok(t) => Ok((t.0@, t.1, t.2@, crate::observer::opt_bytes_view(t.3))),
        Err(e) => Err(e),
    }
}

/// The host, port, path and query of a CoAP URL, from the components of
/// the parsed URL (see `coap_url_spec`).
pub fn coap_url_from_parts(parts: Option<UrlParts>) -> (r: Result<(String, u16, String, Option<Vec<u8>>), UrlError>)
    ensures
        coap_url_view(r) == coap_url_spec(match parts {
            Some(p) => Some(url_parts_view(p)),
            None => None,
        }),
{
    let parts = match parts {
        Some(p) => p,
        None => {
            return Err(UrlError::InvalidUrl);
        },
    };
    let host = match &parts.host {
        Some(h) => {
            if h.as_str().unicode_len() == 0 {
                return Err(UrlError::InvalidHost);
            }
            strip_brackets(h.as_str())
        },
        None => {
            return Err(UrlError::InvalidHost);
        },
    };
    let port: u16 = match parts.port {
        Some(p) => p,
        None => COAP_DEFAULT_PORT,
    };
    let queries: Option<Vec<u8>> = match &parts.query {
        Some(q) => Some(crate::router::response::utf8_bytes(q.as_str())),
        None => None,
    };
    Ok((host, port, parts.path, queries))
}

/// The host, port, path and query of a CoAP URL (see `coap_url_spec` over
/// `url_components`).
pub fn parse_coap_url(url: &str) -> (r: Result<(String, u16, String, Option<Vec<u8>>), UrlError>)
    ensures
        coap_url_view(r) == coap_url_spec(url_components(url@)),
{
    coap_url_from_parts(parse_url(url))
}

/// The empty acknowledgement of message `message_id`: version 1, type
/// Acknowledgement, no token, code 0.00.
pub fn make_ack(message_id: u16) -> (r: Vec<u8>)
    ensures
        r@ == seq![0x60u8, 0x00u8, (message_id / 256) as u8, (message_id % 256) as u8],
{
    let mut ack = Packet::new();
    ack.header = Header { ver_type_tkl: 0x60, code: MessageClass::Empty, message_id };
    proof {
        assert(crate::wire::encode_options(ack.options@) =~= Seq::<u8>::empty()) by {
            reveal_with_fuel(crate::wire::encode_flat, 2);
        }
    }
    match ack.to_bytes() {
        Ok(b) => {
            assert(b@ =~= seq![0x60u8, 0x00u8, (message_id / 256) as u8, (message_id % 256) as u8]);
            b
        },
        Err(_) => Vec::new(),
    }
}

/// The acknowledgement that a received message calls for: one for a
/// confirmable response, none otherwise.
pub fn parse_for_ack(header: &Header) -> (r: Option<Vec<u8>>)
    ensures
        r is Some <==> (type_of(header.ver_type_tkl) == MessageType::Confirmable && header.code is ResponseType),
        r matches Some(b) ==> b@ == seq![0x60u8, 0x00u8, (header.message_id / 256) as u8, (header.message_id % 256) as u8],
{
    match (header.get_type(), header.code) {
        (MessageType::Confirmable, MessageClass::ResponseType(_)) => Some(make_ack(header.message_id)),
        _ => None,
    }
}

} // verus!
