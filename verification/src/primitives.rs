//! The fixed-width values of the ledger: addresses, 32-byte words and
//! 256-bit unsigned integers.
//!
//! The values are plain data. What is computed on 256-bit integers is computed
//! by the `alloy` crate: each such computation is a single call behind a
//! function whose contract records what the crate documents of it.

use vstd::prelude::*;
use vstd::arithmetic::power2::pow2;
use crate::byte_order::{
    be_value, bytes_equal, bytes_precede, lemma_be_value_below, lemma_be_value_concat,
    lemma_be_value_injective, pow256,
};
use crate::ordered_map::Key;

verus! {

/// A 20-byte account address. Addresses are ordered as their bytes are,
/// first byte first.
#[derive(Debug, Clone, Copy, PartialEq, Eq, Hash, PartialOrd, Ord)]
pub struct Address(pub [u8; 20]);

impl Address {
    /// Whether the two addresses hold the same bytes.
    pub fn same(&self, other: &Address) -> (r: bool)
        ensures
            r == (*self == *other),
            r == (self.0@ == other.0@),
    {
        bytes_equal(&self.0, &other.0)
    }

    /// The address whose 20 bytes all equal `byte`.
    pub fn repeat_byte(byte: u8) -> (a: Address)
        ensures
            forall|i: int| 0 <= i < 20 ==> a.0@[i] == byte,
    {
        Address([byte;20])
    }

    /// The address of 20 zero bytes.
    pub fn zero() -> (a: Address)
        ensures
            forall|i: int| 0 <= i < 20 ==> a.0@[i] == 0,
    {
        Address([0u8;20])
    }
}

impl Key for Address {
    open spec fn rank(self) -> nat {
        be_value(self.0@)
    }

    proof fn lemma_rank_injective(a: Self, b: Self) {
        lemma_be_value_injective(a.0@, b.0@);
        assert(a.0 =~= b.0);
    }

    fn precedes(&self, other: &Self) -> (r: bool) {
        bytes_precede(&self.0, &other.0)
    }
}

/// A 32-byte word: a storage key or a hash. Words are ordered as their bytes
/// are, first byte first.
#[derive(Debug, Clone, Copy, PartialEq, Eq, Hash, PartialOrd, Ord)]
pub struct B256(pub [u8; 32]);

impl B256 {
    /// Whether the two words hold the same bytes.
    pub fn same(&self, other: &B256) -> (r: bool)
        ensures
            r == (*self == *other),
            r == (self.0@ == other.0@),
    {
        bytes_equal(&self.0, &other.0)
    }

    /// The word whose 32 bytes all equal `byte`.
    pub fn repeat_byte(byte: u8) -> (w: B256)
        ensures
            forall|i: int| 0 <= i < 32 ==> w.0@[i] == byte,
    {
        B256([byte;32])
    }

    /// The word of 32 zero bytes.
    pub fn zero() -> (w: B256)
        ensures
            forall|i: int| 0 <= i < 32 ==> w.0@[i] == 0,
    {
        B256([0u8;32])
    }
}

impl Key for B256 {
    open spec fn rank(self) -> nat {
        be_value(self.0@)
    }

    proof fn lemma_rank_injective(a: Self, b: Self) {
        lemma_be_value_injective(a.0@, b.0@);
        assert(a.0 =~= b.0);
    }

    fn precedes(&self, other: &Self) -> (r: bool) {
        bytes_precede(&self.0, &other.0)
    }
}

/// Two to the power 64: the weight of the second limb of a `U256`.
pub open spec fn limb_weight() -> nat {
    0x1_0000_0000_0000_0000
}

/// A 256-bit unsigned integer as four 64-bit limbs, least significant first.
#[derive(Debug, Clone, Copy, PartialEq, Eq, Hash, Structural)]
pub struct U256 {
    pub l0: u64,
    pub l1: u64,
    pub l2: u64,
    pub l3: u64,
}

impl U256 {
    /// The number that the four limbs spell.
    pub open spec fn value(self) -> nat {
        self.l0 as nat + self.l1 as nat * limb_weight() + self.l2 as nat * limb_weight()
            * limb_weight() + self.l3 as nat * limb_weight() * limb_weight() * limb_weight()
    }

    /// The integer that 32 bytes spell, most significant byte first: each
    /// limb is spelt by eight of them.
    pub open spec fn of_be_bytes(bytes: Seq<u8>) -> U256 {
        U256 {
            l0: be_value(bytes.subrange(24, 32)) as u64,
            l1: be_value(bytes.subrange(16, 24)) as u64,
            l2: be_value(bytes.subrange(8, 16)) as u64,
            l3: be_value(bytes.subrange(0, 8)) as u64,
        }
    }

    /// The value of `of_be_bytes` is the number that the bytes spell.
    pub proof fn lemma_of_be_bytes(bytes: Seq<u8>)
        requires
            bytes.len() == 32,
        ensures
            U256::of_be_bytes(bytes).value() == be_value(bytes),
    {
        let c3 = bytes.subrange(0, 8);
        let c2 = bytes.subrange(8, 16);
        let c1 = bytes.subrange(16, 24);
        let c0 = bytes.subrange(24, 32);
        assert(bytes =~= ((c3 + c2) + c1) + c0);
        lemma_be_value_concat(c3, c2);
        lemma_be_value_concat(c3 + c2, c1);
        lemma_be_value_concat((c3 + c2) + c1, c0);
        lemma_be_value_below(c3);
        lemma_be_value_below(c2);
        lemma_be_value_below(c1);
        lemma_be_value_below(c0);
        assert(pow256(8) == limb_weight()) by {
            reveal_with_fuel(pow256, 9);
        }
        let w: nat = limb_weight();
        let (v3, v2, v1, v0) = (be_value(c3), be_value(c2), be_value(c1), be_value(c0));
        assert(((v3 * w + v2) * w + v1) * w + v0 == v0 + v1 * w + v2 * w * w + v3 * w * w * w)
            by (nonlinear_arith);
    }

    /// No two integers have one value.
    pub proof fn lemma_value_injective(a: U256, b: U256)
        requires
            a.value() == b.value(),
        ensures
            a == b,
    {
        lemma_limbs_order(a, b);
        lemma_limbs_order(b, a);
    }

    /// The integer that 32 bytes spell, most significant byte first.
    pub fn from_be_bytes(bytes: [u8; 32]) -> (x: U256)
        ensures
            x == U256::of_be_bytes(bytes@),
            x.value() == be_value(bytes@),
    {
        let x = uint_from_be_bytes(bytes);
        proof {
            U256::lemma_of_be_bytes(bytes@);
            U256::lemma_value_injective(x, U256::of_be_bytes(bytes@));
        }
        x
    }

    /// The integer with the given limbs, least significant first.
    pub fn from_limbs(limbs: [u64; 4]) -> (x: U256)
        ensures
            x == (U256 { l0: limbs@[0], l1: limbs@[1], l2: limbs@[2], l3: limbs@[3] }),
    {
        U256 { l0: limbs[0], l1: limbs[1], l2: limbs[2], l3: limbs[3] }
    }

    /// The four limbs, least significant first.
    pub fn into_limbs(self) -> (limbs: [u64; 4])
        ensures
            limbs@ == seq![self.l0, self.l1, self.l2, self.l3],
    {
        let limbs: [u64; 4] = [self.l0, self.l1, self.l2, self.l3];
        assert(limbs@ =~= seq![self.l0, self.l1, self.l2, self.l3]);
        limbs
    }

    /// Zero.
    pub fn zero() -> (x: U256)
        ensures
            x == (U256 { l0: 0, l1: 0, l2: 0, l3: 0 }),
            x.value() == 0,
    {
        U256 { l0: 0, l1: 0, l2: 0, l3: 0 }
    }
}

impl From<u64> for U256 {
    fn from(n: u64) -> (x: U256) {
        U256 { l0: n, l1: 0, l2: 0, l3: 0 }
    }
}

impl vstd::std_specs::convert::FromSpecImpl<u64> for U256 {
    open spec fn obeys_from_spec() -> bool {
        true
    }

    open spec fn from_spec(n: u64) -> U256 {
        U256 { l0: n, l1: 0, l2: 0, l3: 0 }
    }
}

impl Key for U256 {
    open spec fn rank(self) -> nat {
        self.value()
    }

    proof fn lemma_rank_injective(a: Self, b: Self) {
        U256::lemma_value_injective(a, b);
    }

    fn precedes(&self, other: &Self) -> (r: bool) {
        proof {
            lemma_limbs_order(*self, *other);
        }
        if self.l3 != other.l3 {
            self.l3 < other.l3
        } else if self.l2 != other.l2 {
            self.l2 < other.l2
        } else if self.l1 != other.l1 {
            self.l1 < other.l1
        } else {
            self.l0 < other.l0
        }
    }
}

/// Integers compare as their limbs do, most significant limb first.
pub proof fn lemma_limbs_order(a: U256, b: U256)
    ensures
        a.value() < b.value() <==> (a.l3 < b.l3 || (a.l3 == b.l3 && (a.l2 < b.l2 || (a.l2 == b.l2
            && (a.l1 < b.l1 || (a.l1 == b.l1 && a.l0 < b.l0)))))),
{
    let w: nat = limb_weight();
    assert(w * w == 0x1_0000_0000_0000_0000_0000_0000_0000_0000) by (nonlinear_arith)
        requires
            w == 0x1_0000_0000_0000_0000,
    ;
    assert(w * w * w == 0x1_0000_0000_0000_0000_0000_0000_0000_0000_0000_0000_0000_0000)
        by (nonlinear_arith)
        requires
            w == 0x1_0000_0000_0000_0000,
    ;
}

/// `Uint::from_be_bytes` of `ruint`, reached as `alloy::primitives::U256`:
/// the integer whose big-endian spelling the 32 bytes are. The call cannot
/// fail, since 32 bytes is the width of the type.
#[verifier::external_body]
fn uint_from_be_bytes(bytes: [u8; 32]) -> (x: U256)
    ensures
        x.value() == be_value(bytes@),
{
    let limbs = alloy::primitives::U256::from_be_bytes(bytes).into_limbs();
    U256 { l0: limbs[0], l1: limbs[1], l2: limbs[2], l3: limbs[3] }
}

/// The operator `>>` of `ruint` on `alloy::primitives::U256` with a `usize`
/// shift: the quotient of the value by two to the power `bits`, rounded down.
/// A shift by 256 bits or more gives zero.
#[verifier::external_body]
pub(crate) fn uint_shr(x: U256, bits: usize) -> (y: U256)
    ensures
        y.value() == x.value() / pow2(bits as nat),
{
    let limbs = (alloy::primitives::U256::from_limbs([x.l0, x.l1, x.l2, x.l3]) >> bits).into_limbs();
    U256 { l0: limbs[0], l1: limbs[1], l2: limbs[2], l3: limbs[3] }
}

/// The operator `&` of `ruint` on `alloy::primitives::U256`: the bitwise
/// conjunction, limb by limb.
#[verifier::external_body]
pub(crate) fn uint_bitand(x: U256, y: U256) -> (z: U256)
    ensures
        z.l0 == x.l0 & y.l0,
        z.l1 == x.l1 & y.l1,
        z.l2 == x.l2 & y.l2,
        z.l3 == x.l3 & y.l3,
{
    let a = alloy::primitives::U256::from_limbs([x.l0, x.l1, x.l2, x.l3]);
    let b = alloy::primitives::U256::from_limbs([y.l0, y.l1, y.l2, y.l3]);
    let limbs = (a & b).into_limbs();
    U256 { l0: limbs[0], l1: limbs[1], l2: limbs[2], l3: limbs[3] }
}

/// The Keccak-256 digest of the UTF-8 bytes of a text, as
/// `alloy::primitives::keccak256` computes it.
pub uninterp spec fn keccak256_digest(text: Seq<char>) -> Seq<u8>;

/// `alloy::primitives::keccak256` on the bytes of `text`: the digest is a
/// function of the text alone.
#[verifier::external_body]
pub(crate) fn keccak256_text(text: &str) -> (digest: B256)
    ensures
        digest.0@ == keccak256_digest(text@),
{
    B256(alloy::primitives::keccak256(text.as_bytes()).0)
}

} // verus!
