//! Cyclic sequence numbers and their relative order.

use vstd::prelude::*;

verus! {

/// Number of distinct sequence numbers.
pub const SEQ_MODULUS: u64 = 0x1_0000_0000;

/// Half of the cycle: offsets at or above it count as "before".
pub const SEQ_HALF: u32 = 0x8000_0000;

/// The position of `k` steps after `s`, wrapping around the cycle.
pub open spec fn seq_add(s: u32, k: int) -> u32 {
    ((s as int + k) % (SEQ_MODULUS as int)) as u32
}

/// How far `a` lies after `b` when walking forward on the cycle.
pub open spec fn seq_offset(a: u32, b: u32) -> int {
    (a as int - b as int) % (SEQ_MODULUS as int)
}

/// A 32-bit cyclic sequence number.
#[derive(Clone, Copy, PartialEq, Eq, Structural, Debug)]
pub struct SeqNo {
    pub value: u32,
}

/// Where one sequence number lies relative to another.
#[derive(Clone, Copy, PartialEq, Eq, Structural, Debug)]
pub enum SeqIndex {
    /// Precedes the reference point by this many steps (never zero).
    Left(u32),
    /// Equals (zero) or follows the reference point by this many steps.
    Right(u32),
}

/// The relative position that `index` reports for `a` against `b`.
pub open spec fn index_spec(a: u32, b: u32) -> SeqIndex {
    let d = seq_offset(a, b);
    if d < SEQ_HALF as int {
        SeqIndex::Right(d as u32)
    } else {
        SeqIndex::Left((SEQ_MODULUS as int - d) as u32)
    }
}

pub proof fn lemma_offset_bounds(a: u32, b: u32)
    ensures
        0 <= seq_offset(a, b) < SEQ_MODULUS as int,
{
}

/// Walking `k` steps forward from `s` lands `k` steps after `s`.
pub proof fn lemma_offset_of_add(s: u32, k: int)
    requires
        0 <= k < SEQ_MODULUS as int,
    ensures
        seq_offset(seq_add(s, k), s) == k,
{
    let m = SEQ_MODULUS as int;
    let t = s as int + k;
    if t < m {
        assert(seq_add(s, k) as int == t);
    } else {
        assert(seq_add(s, k) as int == t - m);
    }
}

/// One step after `k` steps is `k + 1` steps.
pub proof fn lemma_add_succ(s: u32, k: int)
    requires
        0 <= k,
    ensures
        seq_add(seq_add(s, k), 1) == seq_add(s, k + 1),
{
    let m = SEQ_MODULUS as int;
    let t = s as int + k;
    vstd::arithmetic::div_mod::lemma_add_mod_noop(t, 1, m);
    vstd::arithmetic::div_mod::lemma_mod_twice(t, m);
    assert(((t % m) + 1) % m == (t + 1) % m) by {
        vstd::arithmetic::div_mod::lemma_add_mod_noop(t, 1, m);
        vstd::arithmetic::div_mod::lemma_small_mod(1, m as nat);
    }
}

/// `a` steps and then `b` steps are `a + b` steps.
pub proof fn lemma_add_add(s: u32, a: int, b: int)
    requires
        0 <= a,
        0 <= b,
    ensures
        seq_add(seq_add(s, a), b) == seq_add(s, a + b),
{
    let m = SEQ_MODULUS as int;
    vstd::arithmetic::div_mod::lemma_add_mod_noop(s as int + a, b, m);
    vstd::arithmetic::div_mod::lemma_mod_twice(b, m);
    vstd::arithmetic::div_mod::lemma_add_mod_noop(s as int + a, b % m, m);
    assert(seq_add(s, a) as int == (s as int + a) % m);
    assert(((s as int + a) % m + b) % m == (s as int + a + b) % m) by {
        vstd::arithmetic::div_mod::lemma_add_mod_noop(s as int + a, b, m);
        vstd::arithmetic::div_mod::lemma_mod_twice(s as int + a, m);
        vstd::arithmetic::div_mod::lemma_add_mod_noop((s as int + a) % m, b, m);
    }
}

/// Zero steps stay in place.
pub proof fn lemma_add_zero(s: u32)
    ensures
        seq_add(s, 0) == s,
{
}

/// Walking forward by the offset of `a` from `b` leads from `b` to `a`.
pub proof fn lemma_add_offset(a: u32, b: u32)
    ensures
        seq_add(b, seq_offset(a, b)) == a,
{
    let m = SEQ_MODULUS as int;
    if a >= b {
        assert(seq_offset(a, b) == a - b);
    } else {
        assert(seq_offset(a, b) == a - b + m);
    }
}

/// `k` steps from `s` reach `s` again only when `k` is zero (within one cycle).
pub proof fn lemma_add_injective(s: u32, j: int, k: int)
    requires
        0 <= j < SEQ_MODULUS as int,
        0 <= k < SEQ_MODULUS as int,
        seq_add(s, j) == seq_add(s, k),
    ensures
        j == k,
{
    lemma_offset_of_add(s, j);
    lemma_offset_of_add(s, k);
}

impl SeqNo {
    pub fn new(value: u32) -> (r: SeqNo)
        ensures
            r.value == value,
    {
        SeqNo { value }
    }

    /// The sequence number that follows this one.
    pub fn next(self) -> (r: SeqNo)
        ensures
            r.value == seq_add(self.value, 1),
    {
        SeqNo { value: self.value.wrapping_add(1) }
    }

    /// The sequence number `k` steps after this one.
    pub fn advance(self, k: u32) -> (r: SeqNo)
        ensures
            r.value == seq_add(self.value, k as int),
    {
        SeqNo { value: self.value.wrapping_add(k) }
    }

    /// Where `self` lies relative to `other`: `Right(k)` when it follows by
    /// `k` steps (zero when equal), `Left(k)` when it precedes by `k`.
    pub fn index(self, other: SeqNo) -> (r: SeqIndex)
        ensures
            r == index_spec(self.value, other.value),
    {
        let d = self.value.wrapping_sub(other.value);
        proof {
            lemma_offset_bounds(self.value, other.value);
            let m = SEQ_MODULUS as int;
            if self.value >= other.value {
                assert(seq_offset(self.value, other.value) == self.value - other.value);
            } else {
                assert(seq_offset(self.value, other.value) == self.value - other.value + m);
            }
        }
        if d < SEQ_HALF {
            SeqIndex::Right(d)
        } else {
            SeqIndex::Left(0u32.wrapping_sub(d))
        }
    }
}

} // verus!
