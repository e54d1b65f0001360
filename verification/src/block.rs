//! Block-wise transfer values (RFC 7959): the block number, the "more"
//! flag and the size exponent, and their encoding as an option value.

use vstd::prelude::*;
use std::convert::TryFrom;
use vstd::arithmetic::power2::{pow2, lemma_pow2_unfold, lemma_pow2_strictly_increases, lemma2_to64};

verus! {

/// The exponent of the largest power of two that does not exceed `n`
/// (for `n >= 1`).
pub open spec fn floor_log2(n: nat) -> nat
    decreases n,
{
    if n < 2 {
        0
    } else {
        1 + floor_log2(n / 2)
    }
}

/// `floor_log2(n)` is the exponent `k` with `2^k <= n < 2^(k+1)`.
pub proof fn lemma_floor_log2_bounds(n: nat)
    requires
        n >= 1,
    ensures
        pow2(floor_log2(n)) <= n < pow2(floor_log2(n) + 1),
    decreases n,
{
    lemma_pow2_unfold(floor_log2(n) + 1);
    if n >= 2 {
        lemma_floor_log2_bounds(n / 2);
        lemma_pow2_unfold(floor_log2(n));
    } else {
        lemma2_to64();
    }
}

/// Any `k` with `2^k <= n < 2^(k+1)` is `floor_log2(n)`.
pub proof fn lemma_floor_log2_unique(n: nat, k: nat)
    requires
        pow2(k) <= n < pow2(k + 1),
    ensures
        floor_log2(n) == k,
    decreases k,
{
    lemma_pow2_unfold(k + 1);
    lemma2_to64();
    if k > 0 {
        lemma_pow2_unfold(k);
        lemma_floor_log2_unique(n / 2, (k - 1) as nat);
    }
}

/// What `BlockValue::largest_power_of_2_not_in_excess` gives: nothing for
/// 0, else the exponent of the largest power of two not above the target.
pub open spec fn largest_power_spec(target: nat) -> Option<nat> {
    if target == 0 {
        None
    } else {
        Some(floor_log2(target))
    }
}

/// Why a block value could not be built.
#[derive(Debug, Clone, Copy, PartialEq, Eq, Structural)]
pub enum BlockValueError {
    /// The size (given) is 0 or above the largest block size.
    SizeExponentEncodingError(usize),
    /// The block number does not fit in 16 bits.
    TypeBoundsError,
}

/// Why an option value could not be read as a block value.
#[derive(Debug, Clone, Copy, PartialEq, Eq, Structural)]
pub enum OptionValueFormatError {
    /// The value has more bytes (`got`) than the integer holds (`expected`).
    Overflow { got: usize, expected: usize },
}

/// A block option value.
#[derive(Debug, Clone, PartialEq, Eq, Structural)]
pub struct BlockValue {
    pub num: u16,
    pub more: bool,
    pub size_exponent: u8,
}

/// The size exponent that `BlockValue::new` stores for a block size of
/// `size` bytes: the exponent of the largest power of two not above it,
/// minus 4, and never below 0.
pub open spec fn size_exponent_for(size: nat) -> int {
    if floor_log2(size) < 4 {
        0
    } else {
        floor_log2(size) - 4
    }
}

/// The 16-bit value of a block option: `num << 4 | more << 3 | szx & 7`,
/// where the top four bits of the number fall off.
pub open spec fn block_scalar(b: BlockValue) -> int {
    (b.num as int * 16) % 0x10000 + (if b.more { 8int } else { 0int }) + (b.size_exponent % 8) as int
}

/// A 16-bit option value as bytes: big-endian, without leading zero
/// bytes, so 0 is the empty value.
pub open spec fn uint16_bytes(v: int) -> Seq<u8> {
    if v == 0 {
        Seq::empty()
    } else if v < 256 {
        seq![v as u8]
    } else {
        seq![(v / 256) as u8, (v % 256) as u8]
    }
}

/// The number that the big-endian bytes `s` hold.
pub open spec fn be_value(s: Seq<u8>) -> nat
    decreases s.len(),
{
    if s.len() == 0 {
        0
    } else {
        be_value(s.drop_last()) * 256 + s.last() as nat
    }
}

/// The block value that a 16-bit option value holds.
pub open spec fn block_of_scalar(v: int) -> BlockValue {
    BlockValue { num: (v / 16) as u16, more: (v / 8) % 2 == 1, size_exponent: (v % 8) as u8 }
}

/// Calls `Vec::<u8>::from(coap_lite::option_value::OptionValueU16(v))`,
/// which writes `v` in big-endian order without leading zero bytes (and
/// nothing at all for 0).
#[verifier::external_body]
fn option_value_u16_bytes(v: u16) -> (r: Vec<u8>)
    ensures
        r@ == uint16_bytes(v as int),
{
    Vec::from(coap_lite::option_value::OptionValueU16(v))
}

#[verifier::external_type_specification]
#[verifier::external_body]
pub struct ExIncompatibleOptionValueFormat(coap_lite::error::IncompatibleOptionValueFormat);

/// Calls `coap_lite::option_value::OptionValueU16::try_from(value)`: it
/// fails when the value has more than two bytes, and otherwise reads the
/// bytes as a big-endian number (the empty value is 0).
#[verifier::external_body]
fn option_value_u16_parse(value: Vec<u8>) -> (r: Result<u16, coap_lite::error::IncompatibleOptionValueFormat>)
    ensures
        r is Ok <==> value@.len() <= 2,
        r matches Ok(x) ==> x as nat == be_value(value@),
{
    coap_lite::option_value::OptionValueU16::try_from(value).map(|x| x.0)
}

impl BlockValue {
    /// A block value for block `num` of blocks of (about) `size` bytes: the
    /// size is rounded down to a power of two, at least 16 and at most
    /// 2048.  Fails for a size of 0 or of 4096 and more, and for a block
    /// number above 65535.
    pub fn new(num: usize, more: bool, size: usize) -> (r: Result<BlockValue, BlockValueError>)
        ensures
            (size == 0 || size >= 4096) ==> r == Err::<BlockValue, BlockValueError>(
                BlockValueError::SizeExponentEncodingError(size),
            ),
            (1 <= size < 4096 && num > u16::MAX) ==> r == Err::<BlockValue, BlockValueError>(
                BlockValueError::TypeBoundsError,
            ),
            (1 <= size < 4096 && num <= u16::MAX) ==> r == Ok::<BlockValue, BlockValueError>(
                BlockValue { num: num as u16, more, size_exponent: size_exponent_for(size as nat) as u8 },
            ),
    {
        let true_size_exponent: usize = match Self::largest_power_of_2_not_in_excess(size) {
            Some(e) => e,
            None => {
                return Err(BlockValueError::SizeExponentEncodingError(size));
            },
        };
        proof {
            if size >= 1 {
                lemma_floor_log2_bounds(size as nat);
                if size >= 4096 {
                    lemma2_to64();
                    if floor_log2(size as nat) < 12 {
                        lemma_pow2_strictly_increases(floor_log2(size as nat) + 1, 12);
                    }
                } else {
                    lemma2_to64();
                    if floor_log2(size as nat) >= 12 {
                        lemma_pow2_strictly_increases(12, floor_log2(size as nat));
                    }
                }
            }
        }
        let e: usize = if true_size_exponent >= 4 { true_size_exponent - 4 } else { 0 };
        if e > 7 {
            return Err(BlockValueError::SizeExponentEncodingError(size));
        }
        let size_exponent: u8 = e as u8;
        if num > 0xFFFF {
            return Err(BlockValueError::TypeBoundsError);
        }
        Ok(BlockValue { num: num as u16, more, size_exponent })
    }

    /// The exponent of the largest power of two that does not exceed
    /// `target`; `None` for 0.
    pub fn largest_power_of_2_not_in_excess(target: usize) -> (r: Option<usize>)
        ensures
            r matches Some(p) ==> largest_power_spec(target as nat) == Some(p as nat),
            r is None <==> largest_power_spec(target as nat) is None,
    {
        if target == 0 {
            return None;
        }
        let max_power: u32 = usize::BITS;
        let mut i: u32 = 0;
        let mut p: usize = 1;
        proof {
            lemma2_to64();
        }
        loop
            invariant
                1 <= target,
                max_power == usize::BITS,
                i < max_power,
                p == pow2(i as nat),
                i == 0 ==> p == 1,
                i > 0 ==> pow2((i - 1) as nat) <= target,
            decreases max_power - i,
        {
            if p > target {
                proof {
                    lemma_floor_log2_unique(target as nat, (i - 1) as nat);
                }
                return Some((i - 1) as usize);
            }
            if i == max_power - 1 {
                proof {
                    lemma2_to64();
                    assert(usize::BITS == 32 || usize::BITS == 64);
                    assert(target < pow2((i + 1) as nat)) by {
                        if usize::BITS == 32 {
                            assert(usize::MAX == 0xffff_ffff);
                        } else {
                            assert(usize::MAX == 0xffff_ffff_ffff_ffff);
                        }
                    }
                    lemma_floor_log2_unique(target as nat, i as nat);
                }
                return Some(i as usize);
            }
            proof {
                vstd::bits::lemma_usize_pow2_no_overflow((i + 1) as nat);
                lemma_pow2_unfold((i + 1) as nat);
            }
            p = p * 2;
            i = i + 1;
        }
    }

    /// The block size in bytes: `2^(size_exponent + 4)`.
    pub fn size(&self) -> (r: usize)
        requires
            self.size_exponent + 4 < usize::BITS,
        ensures
            r == pow2(self.size_exponent as nat + 4),
    {
        let shift: usize = (self.size_exponent + 4) as usize;
        proof {
            vstd::bits::lemma_usize_pow2_no_overflow(shift as nat);
            vstd::bits::lemma_usize_shl_is_mul(1, shift);
        }
        1usize << shift
    }

    /// The option value bytes of the block value.
    pub fn to_bytes(&self) -> (r: Vec<u8>)
        ensures
            r@ == uint16_bytes(block_scalar(*self)),
    {
        let n: u16 = self.num;
        let hi: u16 = n % 0x1000 * 16;
        let m: u16 = if self.more { 8 } else { 0 };
        let e: u16 = (self.size_exponent % 8) as u16;
        assert(hi == (n as int * 16) % 0x10000) by (nonlinear_arith)
            requires
                hi == n % 0x1000 * 16,
        ;
        let scalar: u16 = hi + m + e;
        option_value_u16_bytes(scalar)
    }

    /// Reads a block value from option value bytes; fails when there are
    /// more than two bytes.
    pub fn try_from_bytes(value: Vec<u8>) -> (r: Result<BlockValue, OptionValueFormatError>)
        ensures
            value@.len() > 2 ==> r == Err::<BlockValue, OptionValueFormatError>(
                OptionValueFormatError::Overflow { got: value@.len() as usize, expected: 2 },
            ),
            value@.len() <= 2 ==> r == Ok::<BlockValue, OptionValueFormatError>(
                block_of_scalar(be_value(value@) as int),
            ),
    {
        let got: usize = value.len();
        match option_value_u16_parse(value) {
            Ok(scalar) => {
                let num: u16 = scalar / 16;
                let more: bool = (scalar / 8) % 2 == 1;
                let size_exponent: u8 = (scalar % 8) as u8;
                Ok(BlockValue { num, more, size_exponent })
            },
            Err(_) => Err(OptionValueFormatError::Overflow { got, expected: 2 }),
        }
    }
}

impl From<BlockValue> for Vec<u8> {
    /// The option value bytes, as `BlockValue::to_bytes` gives them.
    fn from(block_value: BlockValue) -> (r: Vec<u8>)
        ensures
            r@ == uint16_bytes(block_scalar(block_value)),
    {
        block_value.to_bytes()
    }
}

impl vstd::std_specs::convert::FromSpecImpl<BlockValue> for Vec<u8> {
    open spec fn obeys_from_spec() -> bool {
        false
    }

    open spec fn from_spec(v: BlockValue) -> Vec<u8> {
        arbitrary()
    }
}

/// Reading back the bytes of a block value gives the block value, when its
/// number fits in twelve bits and its size exponent in three.
pub proof fn lemma_block_value_roundtrip(b: BlockValue)
    requires
        b.num < 0x1000,
        b.size_exponent < 8,
    ensures
        uint16_bytes(block_scalar(b)).len() <= 2,
        block_of_scalar(be_value(uint16_bytes(block_scalar(b))) as int) == b,
{
    let v = block_scalar(b);
    assert(v == b.num as int * 16 + (if b.more { 8int } else { 0int }) + b.size_exponent as int);
    assert(0 <= v < 0x10000);
    let s = uint16_bytes(v);
    reveal_with_fuel(be_value, 3);
    if v == 0 {
        assert(be_value(s) == 0);
    } else if v < 256 {
        assert(s.drop_last() =~= Seq::<u8>::empty());
        assert(be_value(s) == v);
    } else {
        assert(s.drop_last() =~= seq![(v / 256) as u8]);
        assert(s.drop_last().drop_last() =~= Seq::<u8>::empty());
        assert(be_value(s) == v);
    }
    assert(v / 16 == b.num);
    assert(v % 8 == b.size_exponent);
    assert((v / 8) % 2 == 1 <==> b.more);
}

/// The key under which the state of a block-wise transfer is kept: the
/// request's method code, its path segments and its source.
#[derive(Ord, PartialOrd, Eq, PartialEq, Clone, Debug)]
pub struct RequestCacheKey<Endpoint: Ord + Clone> {
    request_type_ord: u8,
    path: Vec<String>,
    requester: Option<Endpoint>,
}

impl<Endpoint: Ord + Clone> RequestCacheKey<Endpoint> {
    /// The method code of the request.
    pub closed spec fn method_code(&self) -> u8 {
        self.request_type_ord
    }

    /// The path segments of the request.
    pub closed spec fn path_segments(&self) -> Seq<Seq<char>> {
        self.path@.map_values(|s: String| s@)
    }

    /// The source of the request.
    pub closed spec fn source(&self) -> Option<Endpoint> {
        self.requester
    }

    /// The key of a request with method code `request_type_ord`, path
    /// segments `path` and source `requester`.
    pub fn new(request_type_ord: u8, path: Vec<String>, requester: Option<Endpoint>) -> (r: RequestCacheKey<Endpoint>)
        ensures
            r.method_code() == request_type_ord,
            r.path_segments() == path@.map_values(|s: String| s@),
            r.source() == requester,
    {
        RequestCacheKey { request_type_ord, path, requester }
    }
}

} // verus!
