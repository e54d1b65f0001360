//! Option kinds and the Block1/Block2 option value (RFC 7959).

use vstd::prelude::*;
use vstd::std_specs::ops::AddSpecImpl;
use vstd::arithmetic::power2::{pow2, lemma2_to64};

verus! {

/// Why a block option could not be made.
#[derive(Debug, Clone, Copy, PartialEq, Eq, Structural)]
pub enum OptionCreateError {
    InvalidBlockNumber,
}

/// The block sizes of block-wise transfers, from 16 to 1024 bytes.
#[derive(Debug, Clone, Copy, PartialEq, Eq, Structural)]
pub enum BlockSize {
    S1024,
    S512,
    S256,
    S128,
    S64,
    S32,
    S16,
}

/// The size exponent of a block size (the block is `2^(exponent + 4)`
/// bytes).
pub open spec fn block_size_exponent(b: BlockSize) -> u32 {
    match b {
        BlockSize::S1024 => 6,
        BlockSize::S512 => 5,
        BlockSize::S256 => 4,
        BlockSize::S128 => 3,
        BlockSize::S64 => 2,
        BlockSize::S32 => 1,
        BlockSize::S16 => 0,
    }
}

/// The number of bytes of a block size.
pub open spec fn block_size_bytes(b: BlockSize) -> usize {
    match b {
        BlockSize::S1024 => 1024,
        BlockSize::S512 => 512,
        BlockSize::S256 => 256,
        BlockSize::S128 => 128,
        BlockSize::S64 => 64,
        BlockSize::S32 => 32,
        BlockSize::S16 => 16,
    }
}

impl BlockSize {
    /// The size exponent (the `SZX` field).
    pub fn exponent(&self) -> (e: u32)
        ensures
            e == block_size_exponent(*self),
    {
        match self {
            BlockSize::S1024 => 6,
            BlockSize::S512 => 5,
            BlockSize::S256 => 4,
            BlockSize::S128 => 3,
            BlockSize::S64 => 2,
            BlockSize::S32 => 1,
            BlockSize::S16 => 0,
        }
    }

    /// The number of bytes in a block.
    pub fn bytes(&self) -> (n: usize)
        ensures
            n == block_size_bytes(*self),
    {
        match self {
            BlockSize::S1024 => 1024,
            BlockSize::S512 => 512,
            BlockSize::S256 => 256,
            BlockSize::S128 => 128,
            BlockSize::S64 => 64,
            BlockSize::S32 => 32,
            BlockSize::S16 => 16,
        }
    }
}

/// A block size is `2^(SZX + 4)` bytes (RFC 7959, 2.2): its size exponent
/// and its number of bytes agree, and the sizes run from 16 to 1024 bytes.
pub proof fn lemma_block_size_exponent(b: BlockSize)
    ensures
        pow2((block_size_exponent(b) + 4) as nat) == block_size_bytes(b),
        16 <= block_size_bytes(b) <= 1024,
        block_size_exponent(b) <= 6,
{
    lemma2_to64();
}

/// `n + size` is `n` plus the number of bytes of the block size.
impl core::ops::Add<BlockSize> for usize {
    type Output = usize;

    fn add(self, other: BlockSize) -> usize {
        self + other.bytes()
    }
}

impl AddSpecImpl<BlockSize> for usize {
    open spec fn obeys_add_spec() -> bool {
        true
    }

    open spec fn add_req(self, rhs: BlockSize) -> bool {
        self + block_size_bytes(rhs) <= usize::MAX
    }

    open spec fn add_spec(self, rhs: BlockSize) -> usize {
        (self + block_size_bytes(rhs)) as usize
    }
}

/// Option kinds.
#[derive(Debug, Clone, Copy, PartialEq, Eq, Structural)]
pub enum CoAPOption {
    IfMatch,
    UriHost,
    ETag,
    IfNoneMatch,
    Observe,
    UriPort,
    LocationPath,
    UriPath,
    ContentFormat,
    MaxAge,
    UriQuery,
    Accept,
    LocationQuery,
    Block2,
    Block1,
    ProxyUri,
    ProxyScheme,
    Size1,
    Size2,
    NoResponse,
}

/// Values of the Observe option.
#[derive(Debug, Clone, Copy, PartialEq, Eq, Structural)]
pub enum ObserveOption {
    Register,
    Deregister,
}

/// The largest block number a block option takes: the number is a 20-bit
/// field.
pub open spec fn max_block_number() -> u32 {
    0xFFFFF
}

/// A block option value: block number, more-blocks flag and block size.
#[derive(Debug)]
pub struct BlockOption {
    num: u32,
    m: bool,
    block_size: BlockSize,
}

impl View for BlockOption {
    type V = (u32, bool, BlockSize);

    closed spec fn view(&self) -> (u32, bool, BlockSize) {
        (self.num, self.m, self.block_size)
    }
}

/// The 24-bit value of a block option: the number, the more flag and the
/// size exponent, packed as `num << 4 | m << 3 | szx`.
pub open spec fn block_option_scalar(num: u32, m: bool, size: BlockSize) -> nat {
    num as nat * 16 + (if m { 8nat } else { 0nat }) + block_size_exponent(size) as nat
}

/// The bytes of a block option: its 24-bit value in big-endian order,
/// without leading zero bytes (one byte at least).
pub open spec fn block_option_bytes(num: u32, m: bool, size: BlockSize) -> Seq<u8> {
    let v = block_option_scalar(num, m, size);
    let b2 = ((v / 65536) % 256) as u8;
    let b1 = ((v / 256) % 256) as u8;
    let b0 = (v % 256) as u8;
    if b2 != 0 {
        seq![b2, b1, b0]
    } else if b1 != 0 {
        seq![b1, b0]
    } else {
        seq![b0]
    }
}

impl BlockOption {
    #[verifier::type_invariant]
    closed spec fn inv(self) -> bool {
        self.num <= max_block_number()
    }

    /// A block option; fails for a block number of 2^20 or more, which
    /// does not fit in the 20-bit field.
    pub fn new(num: u32, m: bool, block_size: BlockSize) -> (r: Result<BlockOption, OptionCreateError>)
        ensures
            num > max_block_number() ==> (r matches Err(e) && e == OptionCreateError::InvalidBlockNumber),
            num <= max_block_number() ==> (r matches Ok(b) && b@ == (num, m, block_size)),
    {
        if num > 0xFFFFF {
            return Err(OptionCreateError::InvalidBlockNumber);
        }
        Ok(BlockOption { num, m, block_size })
    }

    /// The bytes of the option value.
    pub fn to_bytes(&self) -> (v: Vec<u8>)
        ensures
            v@ == block_option_bytes(self@.0, self@.1, self@.2),
    {
        proof {
            use_type_invariant(self);
        }
        let more: u32 = if self.m { 1 } else { 0 };
        let block_as_u32: u32 = self.num * 16 + more * 8 + self.block_size.exponent();
        let mut result: Vec<u8> = Vec::new();
        let b2 = ((block_as_u32 / 65536) % 256) as u8;
        let b1 = ((block_as_u32 / 256) % 256) as u8;
        if b2 != 0 {
            result.push(b2);
            result.push(b1);
        } else if b1 != 0 {
            result.push(b1);
        }
        result.push((block_as_u32 % 256) as u8);
        assert(result@ =~= block_option_bytes(self@.0, self@.1, self@.2));
        result
    }
}

impl From<BlockOption> for Vec<u8> {
    /// The bytes of the option value, as `BlockOption::to_bytes` gives them.
    fn from(option: BlockOption) -> (v: Vec<u8>)
        ensures
            v@ == block_option_bytes(option@.0, option@.1, option@.2),
    {
        option.to_bytes()
    }
}

impl vstd::std_specs::convert::FromSpecImpl<BlockOption> for Vec<u8> {
    open spec fn obeys_from_spec() -> bool {
        false
    }

    open spec fn from_spec(v: BlockOption) -> Vec<u8> {
        arbitrary()
    }
}

} // verus!
