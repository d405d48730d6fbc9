//! 256-bit unsigned integers, byte-order helpers and the conversion between
//! wei and base-chain capacity.

use crate::error::Error;
use vstd::prelude::*;

verus! {

/// `256^n`.
pub open spec fn pow256(n: nat) -> nat
    decreases n,
{
    if n == 0 {
        1
    } else {
        256 * pow256((n - 1) as nat)
    }
}

/// The number written by little-endian bytes.
pub open spec fn le_value(s: Seq<u8>) -> nat
    decreases s.len(),
{
    if s.len() == 0 {
        0
    } else {
        s[0] as nat + 256 * le_value(s.drop_first())
    }
}

/// The number written by big-endian bytes.
pub open spec fn be_value(s: Seq<u8>) -> nat
    decreases s.len(),
{
    if s.len() == 0 {
        0
    } else {
        be_value(s.drop_last()) * 256 + s.last() as nat
    }
}

/// One past the largest 256-bit value.
pub open spec fn u256_limit() -> nat {
    pow256(32)
}

/// One past the largest `u64`, as a count of bytes.
pub open spec fn u64_limit() -> nat {
    pow256(8)
}

/// Wei in one shannon, the base chain's smallest capacity unit.
pub const SHANNON_TO_WEI: u64 = 10_000_000_000;

/// Capacity `c` (in shannons) expressed in wei.
pub open spec fn spec_capacity_to_wei(c: u64) -> nat {
    c as nat * SHANNON_TO_WEI as nat
}

/// Wei `w` expressed in capacity: truncated toward zero, absent when the
/// quotient does not fit in a `u64`.
pub open spec fn spec_wei_to_capacity(w: nat) -> Option<u64> {
    if w / (SHANNON_TO_WEI as nat) < u64_limit() {
        Some((w / (SHANNON_TO_WEI as nat)) as u64)
    } else {
        None
    }
}

pub proof fn lemma_pow256_known()
    ensures
        pow256(8) == 0x1_0000_0000_0000_0000,
        pow256(32) == 0x1_0000_0000_0000_0000_0000_0000_0000_0000_0000_0000_0000_0000_0000_0000_0000_0000,
{
    reveal_with_fuel(pow256, 33);
}

pub proof fn lemma_pow256_positive(n: nat)
    ensures
        pow256(n) >= 1,
    decreases n,
{
    if n > 0 {
        lemma_pow256_positive((n - 1) as nat);
    }
}

pub proof fn lemma_pow256_monotone(a: nat, b: nat)
    requires
        a <= b,
    ensures
        pow256(a) <= pow256(b),
    decreases b,
{
    if a < b {
        lemma_pow256_monotone(a, (b - 1) as nat);
        lemma_pow256_positive((b - 1) as nat);
    }
}

pub proof fn lemma_le_value_split(a: Seq<u8>, b: Seq<u8>)
    ensures
        le_value(a + b) == le_value(a) + pow256(a.len()) * le_value(b),
    decreases a.len(),
{
    if a.len() == 0 {
        assert(a + b =~= b);
        assert(pow256(0) == 1);
        assert(le_value(a) == 0);
    } else {
        assert((a + b).drop_first() =~= a.drop_first() + b);
        lemma_le_value_split(a.drop_first(), b);
        let r = le_value(a.drop_first());
        let p = pow256(a.drop_first().len());
        let v = le_value(b);
        assert((a + b)[0] == a[0]);
        assert(pow256(a.len()) == 256 * p);
        assert(le_value(a + b) == a[0] as nat + 256 * (r + p * v));
        assert(le_value(a) == a[0] as nat + 256 * r);
        assert(pow256(a.len()) * v == (256 * p) * v);
        assert(256 * (r + p * v) == 256 * r + (256 * p) * v) by (nonlinear_arith);
    }
}

pub proof fn lemma_le_value_bound(s: Seq<u8>)
    ensures
        le_value(s) < pow256(s.len()),
    decreases s.len(),
{
    if s.len() > 0 {
        lemma_le_value_bound(s.drop_first());
    }
}

/// Little-endian bytes are worth zero exactly when each of them is zero.
pub proof fn lemma_le_value_zero(s: Seq<u8>)
    ensures
        le_value(s) == 0 <==> forall|i: int| 0 <= i < s.len() ==> s[i] == 0,
    decreases s.len(),
{
    if s.len() > 0 {
        lemma_le_value_zero(s.drop_first());
        if le_value(s) == 0 {
            assert forall|i: int| 0 <= i < s.len() implies s[i] == 0 by {
                if i > 0 {
                    assert(s[i] == s.drop_first()[i - 1]);
                }
            }
        }
        if forall|i: int| 0 <= i < s.len() ==> s[i] == 0 {
            assert forall|i: int| 0 <= i < s.drop_first().len() implies s.drop_first()[i] == 0 by {
                assert(s.drop_first()[i] == s[i + 1]);
            }
        }
    }
}

pub proof fn lemma_be_value_bound(s: Seq<u8>)
    ensures
        be_value(s) < pow256(s.len()),
    decreases s.len(),
{
    if s.len() > 0 {
        lemma_be_value_bound(s.drop_last());
    }
}

/// Leading zero bytes do not change a big-endian value.
pub proof fn lemma_be_value_leading_zeros(z: Seq<u8>, s: Seq<u8>)
    requires
        forall|i: int| 0 <= i < z.len() ==> z[i] == 0,
    ensures
        be_value(z + s) == be_value(s),
    decreases z.len() + s.len(),
{
    if s.len() == 0 {
        assert(z + s =~= z);
        if z.len() > 0 {
            lemma_be_value_leading_zeros(z.drop_last(), s);
            assert(z.drop_last() + s =~= z.drop_last());
        }
    } else {
        assert((z + s).drop_last() =~= z + s.drop_last());
        lemma_be_value_leading_zeros(z, s.drop_last());
    }
}

proof fn lemma_le_value_all_ff(s: Seq<u8>)
    requires
        forall|i: int| 0 <= i < s.len() ==> s[i] == 0xff,
    ensures
        le_value(s) + 1 == pow256(s.len()),
    decreases s.len(),
{
    if s.len() > 0 {
        lemma_le_value_all_ff(s.drop_first());
    }
}

/// An unsigned 256-bit integer, held as its 32 little-endian bytes.
#[derive(Clone, Copy, Debug, PartialEq, Eq)]
pub struct U256 {
    pub le_bytes: [u8; 32],
}

/// Relies on numext_fixed_uint::U256::checked_mul: the product, or none
/// when it exceeds 256 bits.
#[verifier::external_body]
fn numext_checked_mul(a: &U256, b: &U256) -> (r: Option<U256>)
    ensures
        r is Some <==> a.value() * b.value() < u256_limit(),
        r matches Some(c) ==> c.value() == a.value() * b.value(),
{
    let x = numext_fixed_uint::U256::from_le_bytes(&a.le_bytes);
    let y = numext_fixed_uint::U256::from_le_bytes(&b.le_bytes);
    x.checked_mul(&y).map(|c| U256 { le_bytes: c.to_le_bytes() })
}

/// Relies on numext_fixed_uint::U256::checked_add: the sum, or none when it
/// exceeds 256 bits.
#[verifier::external_body]
fn numext_checked_add(a: &U256, b: &U256) -> (r: Option<U256>)
    ensures
        r is Some <==> a.value() + b.value() < u256_limit(),
        r matches Some(c) ==> c.value() == a.value() + b.value(),
{
    let x = numext_fixed_uint::U256::from_le_bytes(&a.le_bytes);
    let y = numext_fixed_uint::U256::from_le_bytes(&b.le_bytes);
    x.checked_add(&y).map(|c| U256 { le_bytes: c.to_le_bytes() })
}

/// Relies on numext_fixed_uint::U256::overflowing_div: the quotient
/// truncated toward zero (it panics on a zero divisor).
#[verifier::external_body]
fn numext_div(a: &U256, b: &U256) -> (r: U256)
    requires
        b.value() > 0,
    ensures
        r.value() == a.value() / b.value(),
{
    let x = numext_fixed_uint::U256::from_le_bytes(&a.le_bytes);
    let y = numext_fixed_uint::U256::from_le_bytes(&b.le_bytes);
    U256 { le_bytes: x.overflowing_div(&y).0.to_le_bytes() }
}

/// Relies on numext_fixed_uint::U256::from_be_bytes: the number written by
/// 32 big-endian bytes.
#[verifier::external_body]
fn numext_from_be_bytes(b: &[u8; 32]) -> (r: U256)
    ensures
        r.value() == be_value(b@),
{
    U256 { le_bytes: numext_fixed_uint::U256::from_be_bytes(b).to_le_bytes() }
}

/// Relies on numext_fixed_uint's `From<u64>` for U256: the same number.
#[verifier::external_body]
fn numext_from_u64(n: u64) -> (r: U256)
    ensures
        r.value() == n,
{
    U256 { le_bytes: numext_fixed_uint::U256::from(n).to_le_bytes() }
}

impl U256 {
    pub open spec fn value(self) -> nat {
        le_value(self.le_bytes@)
    }

    pub fn zero() -> (r: U256)
        ensures
            r.value() == 0,
    {
        let r = U256 { le_bytes: [0u8; 32] };
        proof {
            lemma_le_value_zero(r.le_bytes@);
        }
        r
    }

    /// The largest 256-bit value.
    pub fn max_value() -> (r: U256)
        ensures
            r.value() == u256_limit() - 1,
    {
        let r = U256 { le_bytes: [0xffu8; 32] };
        proof {
            lemma_le_value_all_ff(r.le_bytes@);
        }
        r
    }

    /// The two numbers are equal.
    pub fn same(&self, other: &U256) -> (r: bool)
        ensures
            r == (self.le_bytes@ == other.le_bytes@),
    {
        let mut i: usize = 0;
        while i < 32
            invariant
                i <= 32,
                forall|j: int| 0 <= j < i ==> self.le_bytes@[j] == other.le_bytes@[j],
            decreases 32 - i,
        {
            if self.le_bytes[i] != other.le_bytes[i] {
                return false;
            }
            i = i + 1;
        }
        assert(self.le_bytes@ =~= other.le_bytes@);
        true
    }

    pub fn from_u64(n: u64) -> (r: U256)
        ensures
            r.value() == n,
    {
        numext_from_u64(n)
    }

    /// `self * rhs`, or none on overflow.
    pub fn checked_mul(&self, rhs: &U256) -> (r: Option<U256>)
        ensures
            r is Some <==> self.value() * rhs.value() < u256_limit(),
            r matches Some(c) ==> c.value() == self.value() * rhs.value(),
    {
        numext_checked_mul(self, rhs)
    }

    /// `self + rhs`, or none on overflow.
    pub fn checked_add(&self, rhs: &U256) -> (r: Option<U256>)
        ensures
            r is Some <==> self.value() + rhs.value() < u256_limit(),
            r matches Some(c) ==> c.value() == self.value() + rhs.value(),
    {
        numext_checked_add(self, rhs)
    }

    /// The 32 big-endian bytes of the number.
    pub fn to_be_bytes(&self) -> (r: Vec<u8>)
        ensures
            r@.len() == 32,
            r@ == self.le_bytes@.reverse(),
    {
        let mut r: Vec<u8> = Vec::new();
        let mut i: usize = 32;
        while i > 0
            invariant
                i <= 32,
                r@ == self.le_bytes@.subrange(i as int, 32).reverse(),
            decreases i,
        {
            i = i - 1;
            r.push(self.le_bytes[i]);
            assert(r@ =~= self.le_bytes@.subrange(i as int, 32).reverse());
        }
        assert(self.le_bytes@.subrange(0, 32) =~= self.le_bytes@);
        r
    }
}

/// Reads the `u64` written by at most eight big-endian bytes.
pub fn bytes_to_u64(bytes: &[u8]) -> (r: Result<u64, Error>)
    ensures
        r is Err <==> bytes@.len() > 8,
        r matches Ok(v) ==> v as nat == be_value(bytes@),
        r matches Err(e) ==> e is MalformedData,
{
    if bytes.len() > 8 {
        return Err(Error::malformed("Invalid field length"));
    }
    proof {
        lemma_pow256_known();
    }
    let mut v: u64 = 0;
    let mut i: usize = 0;
    while i < bytes.len()
        invariant
            i <= bytes@.len() <= 8,
            v as nat == be_value(bytes@.take(i as int)),
            pow256(8) == 0x1_0000_0000_0000_0000,
        decreases bytes@.len() - i,
    {
        proof {
            assert(bytes@.take(i as int + 1).drop_last() =~= bytes@.take(i as int));
            lemma_be_value_bound(bytes@.take(i as int));
            lemma_pow256_monotone(i as nat + 1, 8);
        }
        v = v * 256 + bytes[i] as u64;
        i = i + 1;
    }
    assert(bytes@.take(i as int) =~= bytes@);
    Ok(v)
}

/// Reads the 256-bit number written by at most 32 big-endian bytes.
pub fn bytes_to_u256(bytes: &[u8]) -> (r: Result<U256, Error>)
    ensures
        r is Err <==> bytes@.len() > 32,
        r matches Ok(v) ==> v.value() == be_value(bytes@),
        r matches Err(e) ==> e is MalformedData,
{
    if bytes.len() > 32 {
        return Err(Error::malformed("Invalid field length"));
    }
    let mut data = [0u8; 32];
    let start: usize = 32 - bytes.len();
    let mut j: usize = 0;
    while j < bytes.len()
        invariant
            bytes@.len() <= 32,
            start == 32 - bytes@.len(),
            j <= bytes@.len(),
            data@.len() == 32,
            forall|k: int| 0 <= k < start ==> data@[k] == 0,
            forall|k: int| 0 <= k < j ==> data@[start + k] == bytes@[k],
        decreases bytes@.len() - j,
    {
        data[start + j] = bytes[j];
        j = j + 1;
    }
    let ghost zeros = data@.take(start as int);
    proof {
        assert(data@ =~= zeros + bytes@);
        lemma_be_value_leading_zeros(zeros, bytes@);
    }
    Ok(numext_from_be_bytes(&data))
}

/// Reads the `u64` written by the first eight little-endian bytes of `b`.
fn le_u64_prefix(b: &[u8; 32]) -> (r: u64)
    ensures
        r as nat == le_value(b@.take(8)),
{
    proof {
        lemma_pow256_known();
    }
    let mut v: u64 = 0;
    let mut i: usize = 8;
    while i > 0
        invariant
            i <= 8,
            b@.len() == 32,
            v as nat == le_value(b@.subrange(i as int, 8)),
            pow256(8) == 0x1_0000_0000_0000_0000,
        decreases i,
    {
        proof {
            assert(b@.subrange(i - 1, 8).drop_first() =~= b@.subrange(i as int, 8));
            lemma_le_value_bound(b@.subrange(i as int, 8));
            lemma_pow256_monotone((8 - i) as nat + 1, 8);
        }
        i = i - 1;
        v = b[i] as u64 + 256 * v;
    }
    assert(b@.subrange(0, 8) =~= b@.take(8));
    v
}

/// The number of wei in one shannon.
pub fn shannon_to_wei() -> (r: U256)
    ensures
        r.value() == SHANNON_TO_WEI,
{
    U256::from_u64(SHANNON_TO_WEI)
}

/// Converts wei to capacity, truncating toward zero; a quotient beyond
/// `u64` is an error.
#[verifier::loop_isolation(false)]
pub fn wei_to_capacity(w: &U256) -> (r: Result<u64, Error>)
    ensures
        r is Ok <==> spec_wei_to_capacity(w.value()) is Some,
        r matches Ok(c) ==> spec_wei_to_capacity(w.value()) == Some(c),
        r matches Err(e) ==> (e matches Error::MalformedData(m) && m@ == "Exceeds maximum range of capacity!"@),
{
    let q = numext_div(w, &shannon_to_wei());
    let b = q.le_bytes;
    let ghost lo = b@.take(8);
    let ghost hi = b@.skip(8);
    proof {
        assert(b@ =~= lo + hi);
        lemma_le_value_split(lo, hi);
        lemma_le_value_bound(lo);
        lemma_le_value_zero(hi);
    }
    let mut i: usize = 8;
    while i < 32
        invariant
            8 <= i <= 32,
            b@.len() == 32,
            hi == b@.skip(8),
            forall|k: int| 8 <= k < i ==> b@[k] == 0,
        decreases 32 - i,
    {
        if b[i] != 0 {
            proof {
                assert(hi[i - 8] != 0);
                lemma_le_value_zero(hi);
                lemma_le_value_split(lo, hi);
                lemma_le_value_bound(lo);
                let v = le_value(hi);
                assert(v >= 1);
                assert(pow256(8) * v >= pow256(8)) by (nonlinear_arith)
                    requires
                        v >= 1,
                ;
            }
            return Err(Error::malformed("Exceeds maximum range of capacity!"));
        }
        i = i + 1;
    }
    proof {
        assert forall|k: int| 0 <= k < hi.len() implies hi[k] == 0 by {
            assert(hi[k] == b@[k + 8]);
        }
    }
    let c = le_u64_prefix(&b);
    Ok(c)
}

/// Converts capacity to wei.
pub fn capacity_to_wei(c: u64) -> (r: Result<U256, Error>)
    ensures
        r matches Ok(w) && w.value() == spec_capacity_to_wei(c),
{
    proof {
        lemma_pow256_known();
        assert(c as nat * SHANNON_TO_WEI as nat <= 0xffff_ffff_ffff_ffff * 10_000_000_000nat) by (nonlinear_arith);
    }
    match U256::from_u64(c).checked_mul(&shannon_to_wei()) {
        Some(w) => Ok(w),
        None => Err(Error::malformed("Shannon cannot be expressed in wei!")),
    }
}

/// Converting capacity to wei and back gives the capacity unchanged.
pub proof fn lemma_capacity_wei_round_trip(c: u64)
    ensures
        spec_wei_to_capacity(spec_capacity_to_wei(c)) == Some(c),
{
    lemma_pow256_known();
    let w = spec_capacity_to_wei(c);
    assert(w / (SHANNON_TO_WEI as nat) == c as nat) by (nonlinear_arith)
        requires
            w == c as nat * SHANNON_TO_WEI as nat,
    ;
}

} // verus!
