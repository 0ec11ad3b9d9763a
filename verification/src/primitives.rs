//! Fixed-width values of the chain: 256-bit integers, account addresses and transaction hashes.
use vstd::arithmetic::power::pow;
use vstd::prelude::*;

verus! {

/// The number of values that a 256-bit word can hold.
pub open spec fn u256_modulus() -> nat {
    0x1_0000000000000000_0000000000000000_0000000000000000_0000000000000000nat
}

/// What is left of `a` once `b` is taken away, never below zero.
pub open spec fn saturating_difference(a: nat, b: nat) -> nat {
    if b <= a {
        (a - b) as nat
    } else {
        0
    }
}

/// An unsigned 256-bit integer as four 64-bit limbs, least significant first.
#[derive(Clone, Copy, Debug, PartialEq, Eq)]
pub struct U256 {
    pub limbs: [u64; 4],
}

impl View for U256 {
    type V = nat;

    /// The integer that the limbs stand for.
    open spec fn view(&self) -> nat {
        (self.limbs@[0] + self.limbs@[1] * 0x1_0000000000000000 + self.limbs@[2]
            * 0x1_0000000000000000_0000000000000000 + self.limbs@[3]
            * 0x1_0000000000000000_0000000000000000_0000000000000000) as nat
    }
}

impl U256 {
    /// The 256-bit integer with the value of `x`.
    pub fn from_u64(x: u64) -> (r: U256)
        ensures
            r@ == x,
    {
        U256 { limbs: [x, 0, 0, 0] }
    }

    /// The 256-bit integer with the value of `x`.
    pub fn from_u128(x: u128) -> (r: U256)
        ensures
            r@ == x,
    {
        let low: u64 = (x % 0x1_0000_0000_0000_0000) as u64;
        let high: u64 = (x / 0x1_0000_0000_0000_0000) as u64;
        U256 { limbs: [low, high, 0, 0] }
    }

    /// Multiplication (`*`) of `alloy::primitives::U256`: the product modulo 2^256.
    #[verifier::external_body]
    pub(crate) fn wrapping_mul(self, rhs: U256) -> (r: U256)
        ensures
            r@ == (self@ * rhs@) % u256_modulus(),
    {
        let a = alloy::primitives::U256::from_limbs(self.limbs);
        let b = alloy::primitives::U256::from_limbs(rhs.limbs);
        U256 { limbs: (a * b).into_limbs() }
    }

    /// Addition (`+`) of `alloy::primitives::U256`: the sum modulo 2^256.
    #[verifier::external_body]
    pub(crate) fn wrapping_add(self, rhs: U256) -> (r: U256)
        ensures
            r@ == (self@ + rhs@) % u256_modulus(),
    {
        let a = alloy::primitives::U256::from_limbs(self.limbs);
        let b = alloy::primitives::U256::from_limbs(rhs.limbs);
        U256 { limbs: (a + b).into_limbs() }
    }

    /// `alloy::primitives::U256::saturating_sub`: the difference, or zero where it would be
    /// negative.
    #[verifier::external_body]
    pub(crate) fn saturating_sub(self, rhs: U256) -> (r: U256)
        ensures
            r@ == saturating_difference(self@, rhs@),
    {
        let a = alloy::primitives::U256::from_limbs(self.limbs);
        let b = alloy::primitives::U256::from_limbs(rhs.limbs);
        U256 { limbs: a.saturating_sub(b).into_limbs() }
    }

    /// `alloy::primitives::U256::pow`: the power modulo 2^256.
    #[verifier::external_body]
    pub(crate) fn wrapping_pow(self, exponent: U256) -> (r: U256)
        ensures
            r@ == pow(self@ as int, exponent@) % u256_modulus() as int,
    {
        let base = alloy::primitives::U256::from_limbs(self.limbs);
        let exponent = alloy::primitives::U256::from_limbs(exponent.limbs);
        U256 { limbs: base.pow(exponent).into_limbs() }
    }

    /// Comparison (`<`) of two `alloy::primitives::U256`: the order of the integers.
    #[verifier::external_body]
    pub(crate) fn less_than(self, rhs: U256) -> (r: bool)
        ensures
            r == (self@ < rhs@),
    {
        let a = alloy::primitives::U256::from_limbs(self.limbs);
        let b = alloy::primitives::U256::from_limbs(rhs.limbs);
        a < b
    }
}

/// A 256-bit integer is below 2^256, and its limbs are the only ones that stand for it.
pub proof fn law_u256_is_its_value(a: U256, b: U256)
    ensures
        a@ < u256_modulus(),
        a@ == b@ ==> a == b,
{
    if a@ == b@ {
        assert(a.limbs@[0] == b.limbs@[0] && a.limbs@[1] == b.limbs@[1] && a.limbs@[2]
            == b.limbs@[2] && a.limbs@[3] == b.limbs@[3]);
        assert(a.limbs =~= b.limbs);
    }
}

/// The integer whose big-endian bytes are `bytes`.
pub open spec fn be_value(bytes: Seq<u8>) -> nat
    decreases bytes.len(),
{
    if bytes.len() == 0 {
        0
    } else {
        be_value(bytes.drop_last()) * 256 + bytes.last() as nat
    }
}

/// `bytes` bytes hold at most `256^bytes` values.
proof fn lemma_be_value_bound(bytes: Seq<u8>)
    requires
        bytes.len() <= 16,
    ensures
        be_value(bytes) < pow(256, bytes.len()),
        pow(256, bytes.len()) <= 0x1_0000000000000000_0000000000000000,
    decreases bytes.len(),
{
    reveal_with_fuel(pow, 17);
    if bytes.len() > 0 {
        lemma_be_value_bound(bytes.drop_last());
        assert(pow(256, bytes.len()) == 256 * pow(256, (bytes.len() - 1) as nat));
    }
}

/// Byte strings of one length with the same big-endian value are the same.
proof fn lemma_be_value_injective(a: Seq<u8>, b: Seq<u8>)
    requires
        a.len() == b.len(),
        be_value(a) == be_value(b),
    ensures
        a == b,
    decreases a.len(),
{
    if a.len() > 0 {
        lemma_be_value_injective(a.drop_last(), b.drop_last());
        assert(a =~= a.drop_last().push(a.last()));
        assert(b =~= b.drop_last().push(b.last()));
    } else {
        assert(a =~= b);
    }
}

/// The big-endian value of `bytes[start..end]`.
fn be_fold(bytes: &[u8], start: usize, end: usize) -> (value: u128)
    requires
        start <= end <= bytes@.len(),
        end - start <= 16,
    ensures
        value == be_value(bytes@.subrange(start as int, end as int)),
{
    let mut value: u128 = 0;
    let mut i: usize = start;
    assert(bytes@.subrange(start as int, start as int).len() == 0);
    while i < end
        invariant
            start <= i <= end <= bytes@.len(),
            end - start <= 16,
            value == be_value(bytes@.subrange(start as int, i as int)),
        decreases end - i,
    {
        proof {
            let longer = bytes@.subrange(start as int, i + 1);
            lemma_be_value_bound(longer);
            assert(longer.drop_last() =~= bytes@.subrange(start as int, i as int));
        }
        value = value * 256 + bytes[i] as u128;
        i = i + 1;
    }
    value
}

/// The value of one byte string after another.
proof fn lemma_be_value_of_both(a: Seq<u8>, b: Seq<u8>)
    ensures
        be_value(a + b) == be_value(a) * pow(256, b.len()) + be_value(b),
    decreases b.len(),
{
    reveal(pow);
    if b.len() == 0 {
        assert(a + b =~= a);
    } else {
        lemma_be_value_of_both(a, b.drop_last());
        assert((a + b).drop_last() =~= a + b.drop_last());
        let power = pow(256, (b.len() - 1) as nat);
        assert(pow(256, b.len()) == 256 * power);
        assert((be_value(a) * power) * 256 == be_value(a) * (256 * power)) by (nonlinear_arith);
    }
}

/// The upper and the lower half of a 256-bit integer, given its bytes, most significant first.
pub fn halves(bytes: &[u8; 32]) -> (r: (u128, u128))
    ensures
        be_value(bytes@) == r.0 * 0x1_0000000000000000_0000000000000000 + r.1,
{
    let slice = bytes.as_slice();
    let high = be_fold(slice, 0, 16);
    let low = be_fold(slice, 16, 32);
    proof {
        let (a, b) = (bytes@.subrange(0, 16), bytes@.subrange(16, 32));
        lemma_be_value_of_both(a, b);
        assert(bytes@ =~= a + b);
        assert(pow(256, 16) == 0x1_0000000000000000_0000000000000000) by {
            reveal_with_fuel(pow, 17);
        }
    }
    (high, low)
}

/// The pair of integers that stands for a byte string in an ordered map: the value of the bytes
/// before the last sixteen, and the value of those sixteen.
pub open spec fn key_of(bytes: Seq<u8>) -> (u128, u128) {
    let cut = bytes.len() - 16;
    (
        be_value(bytes.subrange(0, cut)) as u128,
        be_value(bytes.subrange(cut, bytes.len() as int)) as u128,
    )
}

/// Byte strings of one length, sixteen to thirty-two, have different keys.
pub(crate) proof fn lemma_key_injective(a: Seq<u8>, b: Seq<u8>)
    requires
        a.len() == b.len(),
        16 <= a.len() <= 32,
        key_of(a) == key_of(b),
    ensures
        a == b,
{
    let cut = a.len() - 16;
    let end = a.len() as int;
    lemma_be_value_bound(a.subrange(0, cut));
    lemma_be_value_bound(b.subrange(0, cut));
    lemma_be_value_bound(a.subrange(cut, end));
    lemma_be_value_bound(b.subrange(cut, end));
    lemma_be_value_injective(a.subrange(0, cut), b.subrange(0, cut));
    lemma_be_value_injective(a.subrange(cut, end), b.subrange(cut, end));
    assert(a =~= a.subrange(0, cut) + a.subrange(cut, end));
    assert(b =~= b.subrange(0, cut) + b.subrange(cut, end));
}

/// The address of an account.
#[derive(Clone, Copy, Debug, PartialEq, Eq)]
pub struct Address {
    pub bytes: [u8; 20],
}

impl View for Address {
    type V = Seq<u8>;

    open spec fn view(&self) -> Seq<u8> {
        self.bytes@
    }
}

impl Address {
    /// The integers by which the address is ordered and found again.
    pub fn key(&self) -> (key: (u128, u128))
        ensures
            key == key_of(self@),
    {
        let bytes = self.bytes.as_slice();
        (be_fold(bytes, 0, 4), be_fold(bytes, 4, 20))
    }
}

/// The hash of a transaction.
#[derive(Clone, Copy, Debug, PartialEq, Eq)]
pub struct TxHash {
    pub bytes: [u8; 32],
}

impl View for TxHash {
    type V = Seq<u8>;

    open spec fn view(&self) -> Seq<u8> {
        self.bytes@
    }
}

impl TxHash {
    /// The integers by which the hash is ordered and found again.
    pub fn key(&self) -> (key: (u128, u128))
        ensures
            key == key_of(self@),
    {
        let bytes = self.bytes.as_slice();
        (be_fold(bytes, 0, 16), be_fold(bytes, 16, 32))
    }
}

/// The number in four limbs: each limb counts 2^64 times as much as the one before.
pub proof fn law_limbs(x: U256)
    ensures
        x@ == x.limbs@[0] + 0x1_0000000000000000 * (x.limbs@[1] + 0x1_0000000000000000 * (
        x.limbs@[2] + 0x1_0000000000000000 * x.limbs@[3])),
{
}

/// What is left added to what was taken away gives what there was, and nothing is left where more
/// is taken away than there was.
pub proof fn law_difference(a: nat, b: nat)
    ensures
        b <= a ==> saturating_difference(a, b) + b == a,
        b >= a ==> saturating_difference(a, b) == 0,
{
}

/// Big-endian bytes: none stand for zero, one for itself, and those in front for 256 times as much
/// for each byte behind them.
pub proof fn law_big_endian(front: Seq<u8>, back: Seq<u8>, byte: u8)
    ensures
        be_value(Seq::<u8>::empty()) == 0,
        be_value(seq![byte]) == byte,
        be_value(front + back) == be_value(front) * pow(256, back.len()) + be_value(back),
{
    assert(seq![byte].drop_last() =~= Seq::<u8>::empty());
    lemma_be_value_of_both(front, back);
}

/// What is kept of a sequence, each element turned into another, grows by the last element, if that
/// is kept.
pub(crate) proof fn lemma_kept<A, B>(s: Seq<A>, keep: spec_fn(A) -> bool, turn: spec_fn(A) -> B)
    ensures
        s.len() == 0 ==> s.filter(keep).map_values(turn) == Seq::<B>::empty(),
        s.len() > 0 ==> s.filter(keep).map_values(turn) == (if keep(s.last()) {
            s.drop_last().filter(keep).map_values(turn).push(turn(s.last()))
        } else {
            s.drop_last().filter(keep).map_values(turn)
        }),
{
    reveal(Seq::filter);
    if s.len() > 0 {
        let earlier = s.drop_last().filter(keep);
        if keep(s.last()) {
            assert(s.filter(keep) == earlier.push(s.last()));
            assert(earlier.push(s.last()).map_values(turn) =~= earlier.map_values(turn).push(
                turn(s.last()),
            ));
        }
    } else {
        assert(s.filter(keep).map_values(turn) =~= Seq::<B>::empty());
    }
}

} // verus!
