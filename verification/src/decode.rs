//! Pure decoding of raw ERC-20 Transfer logs.
//!
//! A Transfer log carries the sender and recipient as the rightmost
//! twenty bytes of its second and third topic, and the amount as a
//! 32-byte big-endian unsigned integer in its data.  Amounts are kept in
//! token micro-units (the token has six decimals), so a decoded amount of
//! `1_000_000` stands for exactly `1.000000` tokens; amounts are decoded
//! only while they fit the store's 96-bit decimal mantissa.

use vstd::prelude::*;
use vstd::arithmetic::power2::{
    pow2,
    lemma_pow2_adds,
    lemma_pow2_strictly_increases,
    lemma2_to64,
};
use vstd::arithmetic::mul::{lemma_mul_inequality, lemma_mul_is_associative};

verus! {

/// The number of decimals of the tracked token: amounts are scaled by
/// ten to the minus this power.
pub const TOKEN_DECIMALS: u32 = 6;

/// A raw log as delivered by the RPC provider, reduced to plain values.
/// Fields that the provider may omit for pending blocks are optional.
pub struct RawLog {
    pub block_number: Option<u64>,
    pub transaction_hash: Option<Vec<u8>>,
    pub log_index: Option<u64>,
    pub topics: Vec<Vec<u8>>,
    pub data: Vec<u8>,
}

/// A decoded Transfer: raw sender and recipient addresses (twenty bytes
/// each) and the amount in token micro-units.
pub struct DecodedTransfer {
    pub from: Vec<u8>,
    pub to: Vec<u8>,
    pub amount: u128,
}

/// The value of a byte string read as a big-endian unsigned integer.
pub open spec fn be_bytes_nat(s: Seq<u8>) -> nat
    decreases s.len(),
{
    if s.len() == 0 {
        0
    } else {
        (be_bytes_nat(s.drop_last()) * 256 + s.last()) as nat
    }
}

/// A log decodes successfully exactly when it has the Transfer shape:
/// three 32-byte topics, exactly 32 bytes of data, and an amount that
/// fits the store's 96-bit decimal mantissa.
pub open spec fn spec_decodable(log: RawLog) -> bool {
    &&& log.topics@.len() == 3
    &&& log.topics@[1]@.len() == 32
    &&& log.topics@[2]@.len() == 32
    &&& log.data@.len() == 32
    &&& be_bytes_nat(log.data@) < pow2(96)
}

/// A byte string of zeros has value zero.
proof fn lemma_be_zeros(s: Seq<u8>)
    requires
        forall|i: int| 0 <= i < s.len() ==> s[i] == 0,
    ensures
        be_bytes_nat(s) == 0,
    decreases s.len(),
{
    if s.len() > 0 {
        lemma_be_zeros(s.drop_last());
    }
}

/// Leading zero bytes do not change the value.
proof fn lemma_be_zero_prefix(s: Seq<u8>, k: int)
    requires
        0 <= k <= s.len(),
        forall|i: int| 0 <= i < k ==> s[i] == 0,
    ensures
        be_bytes_nat(s) == be_bytes_nat(s.subrange(k, s.len() as int)),
    decreases s.len(),
{
    if s.len() == k {
        lemma_be_zeros(s);
        assert(s.subrange(k, s.len() as int) =~= Seq::<u8>::empty());
    } else {
        lemma_be_zero_prefix(s.drop_last(), k);
        let t = s.subrange(k, s.len() as int);
        assert(s.drop_last().subrange(k, s.drop_last().len() as int) =~= t.drop_last());
        assert(t.last() == s.last());
    }
}

/// Any single byte bounds the value from below by its place value.
proof fn lemma_be_lower(s: Seq<u8>, i: int)
    requires
        0 <= i < s.len(),
    ensures
        be_bytes_nat(s) >= s[i] * pow2((8 * (s.len() - 1 - i)) as nat),
    decreases s.len(),
{
    lemma2_to64();
    if i == s.len() - 1 {
        assert((8 * (s.len() - 1 - i)) as nat == 0);
        assert(pow2((8 * (s.len() - 1 - i)) as nat) == 1);
        assert(be_bytes_nat(s) >= s.last());
    } else {
        let d = s.drop_last();
        lemma_be_lower(d, i);
        assert(d[i] == s[i]);
        let k = (8 * (s.len() - 2 - i)) as nat;
        lemma_mul_inequality(s[i] * pow2(k), be_bytes_nat(d) as int, 256);
        lemma_mul_is_associative(s[i] as int, pow2(k) as int, 256);
        lemma_pow2_adds(k, 8);
        assert(s[i] * pow2(k) * 256 == s[i] * (pow2(k) * 256));
        assert(pow2(k) * 256 == pow2(k + 8));
        assert(be_bytes_nat(s) >= be_bytes_nat(d) * 256);
        assert(k + 8 == 8 * (s.len() - 1 - i));
        assert(s[i] * pow2((8 * (s.len() - 1 - i)) as nat) == s[i] * pow2(k + 8));
    }
}

/// Copy `v[a..b]` into a fresh vector.
fn copy_range(v: &Vec<u8>, a: usize, b: usize) -> (r: Vec<u8>)
    requires
        a <= b <= v@.len(),
    ensures
        r@ == v@.subrange(a as int, b as int),
{
    let mut r: Vec<u8> = Vec::new();
    let mut i: usize = a;
    assert(r@ =~= v@.subrange(a as int, a as int));
    while i < b
        invariant
            a <= i <= b <= v@.len(),
            r@ =~= v@.subrange(a as int, i as int),
        decreases b - i,
    {
        r.push(v[i]);
        assert(r@ =~= v@.subrange(a as int, i + 1));
        i = i + 1;
    }
    r
}

/// Decode a raw log under the ERC-20 Transfer schema.
///
/// The decoder is total: it returns the sender, the recipient and the
/// exact amount for every log of the Transfer shape, and `None` for
/// every other log.
pub fn decode_transfer(log: &RawLog) -> (r: Option<DecodedTransfer>)
    ensures
        r is Some <==> spec_decodable(*log),
        r matches Some(d) ==> {
            &&& d.from@ == log.topics@[1]@.subrange(12, 32)
            &&& d.to@ == log.topics@[2]@.subrange(12, 32)
            &&& d.amount == be_bytes_nat(log.data@)
        },
{
    if log.topics.len() != 3 {
        return None;
    }
    let t1 = &log.topics[1];
    let t2 = &log.topics[2];
    if t1.len() != 32 || t2.len() != 32 || log.data.len() != 32 {
        return None;
    }
    // An amount fits the 96-bit mantissa exactly when the twenty
    // high-order bytes are zero.
    let mut i: usize = 0;
    while i < 20
        invariant
            i <= 20,
            log.data@.len() == 32,
            forall|k: int| 0 <= k < i ==> log.data@[k] == 0,
        decreases 20 - i,
    {
        if log.data[i] != 0 {
            proof {
                lemma_be_lower(log.data@, i as int);
                lemma2_to64();
                let e = (8 * (31 - i)) as nat;
                if e != 96 {
                    lemma_pow2_strictly_increases(96, e);
                }
                lemma_mul_inequality(1, log.data@[i as int] as int, pow2(e) as int);
            }
            return None;
        }
        i = i + 1;
    }
    let mut acc: u128 = 0;
    let mut j: usize = 20;
    proof {
        lemma2_to64();
        assert(log.data@.subrange(20, 20) =~= Seq::<u8>::empty());
    }
    while j < 32
        invariant
            20 <= j <= 32,
            log.data@.len() == 32,
            acc == be_bytes_nat(log.data@.subrange(20, j as int)),
            acc < pow2((8 * (j - 20)) as nat),
        decreases 32 - j,
    {
        proof {
            lemma2_to64();
            lemma_pow2_adds((8 * (j - 20)) as nat, 8);
            lemma_pow2_adds(64, 32);
            if 8 * (j - 20) + 8 != 96 {
                lemma_pow2_strictly_increases((8 * (j - 20) + 8) as nat, 96);
            }
            assert(acc * 256 <= (pow2((8 * (j - 20)) as nat) - 1) * 256);
        }
        acc = acc * 256 + (log.data[j] as u128);
        proof {
            assert(log.data@.subrange(20, j + 1).drop_last() =~= log.data@.subrange(20, j as int));
            assert(log.data@.subrange(20, j + 1).last() == log.data@[j as int]);
        }
        j = j + 1;
    }
    proof {
        lemma_be_zero_prefix(log.data@, 20);
        lemma_pow2_adds(64, 32);
        lemma2_to64();
        assert(log.data@.subrange(20, 32) =~= log.data@.subrange(20, log.data@.len() as int));
    }
    let from = copy_range(t1, 12, 32);
    let to = copy_range(t2, 12, 32);
    Some(DecodedTransfer { from, to, amount: acc })
}

} // verus!
