//! Values that a fast field can hold, and their mapping to the `u64` (or
//! `u128`) that the codecs store.
use vstd::prelude::*;

verus! {

/// The `u64` whose top bit alone is set: the mapping of `i64` to `u64` flips it.
pub const HIGHEST_BIT: u64 = 0x8000_0000_0000_0000;

/// A type whose values are stored in a fast field as `u64`.
pub trait FastValue: Sized {
    /// The value that a stored `u64` stands for.
    spec fn spec_from_u64(val: u64) -> Self;

    /// The `u64` under which a value is stored.
    spec fn spec_to_u64(&self) -> u64;

    /// Converts a stored `u64` back to a value.
    fn from_u64(val: u64) -> (r: Self)
        ensures
            r == Self::spec_from_u64(val),
    ;

    /// Converts a value to the `u64` that stores it.
    fn to_u64(&self) -> (r: u64)
        ensures
            r == self.spec_to_u64(),
    ;

    /// Storing a value and reading it back gives the value.
    proof fn lemma_from_to_u64(v: Self)
        ensures
            Self::spec_from_u64(v.spec_to_u64()) == v,
    ;

    /// Reading stored `u64` back keeps their order, in the stored form.
    proof fn lemma_from_u64_monotonic(a: u64, b: u64)
        requires
            a <= b,
        ensures
            Self::spec_from_u64(a).spec_to_u64() <= Self::spec_from_u64(b).spec_to_u64(),
    ;
}

impl FastValue for u64 {
    open spec fn spec_from_u64(val: u64) -> u64 {
        val
    }

    open spec fn spec_to_u64(&self) -> u64 {
        *self
    }

    fn from_u64(val: u64) -> (r: u64) {
        val
    }

    fn to_u64(&self) -> (r: u64) {
        *self
    }

    proof fn lemma_from_to_u64(v: u64) {
    }

    proof fn lemma_from_u64_monotonic(a: u64, b: u64) {
    }
}

/// The `u64` under which an `i64` is stored: the value shifted up by 2^63, so
/// that the order of `i64` is the order of the stored `u64`.
pub open spec fn i64_to_u64_spec(val: i64) -> u64 {
    (val + 0x8000_0000_0000_0000int) as u64
}

/// The `i64` that a stored `u64` stands for.
pub open spec fn u64_to_i64_spec(val: u64) -> i64 {
    (val - 0x8000_0000_0000_0000int) as i64
}

/// Maps an `i64` to the `u64` that stores it, keeping the order.
pub fn i64_to_u64(val: i64) -> (r: u64)
    ensures
        r == i64_to_u64_spec(val),
{
    let r = (val as u64) ^ HIGHEST_BIT;
    assert(r == (val + 0x8000_0000_0000_0000int) as u64) by (bit_vector)
        requires
            r == (val as u64) ^ 0x8000_0000_0000_0000u64,
    ;
    r
}

/// Maps a stored `u64` back to the `i64` it stands for.
pub fn u64_to_i64(val: u64) -> (r: i64)
    ensures
        r == u64_to_i64_spec(val),
{
    let r = (val ^ HIGHEST_BIT) as i64;
    assert(r == (val - 0x8000_0000_0000_0000int) as i64) by (bit_vector)
        requires
            r == (val ^ 0x8000_0000_0000_0000u64) as i64,
    ;
    r
}

impl FastValue for i64 {
    open spec fn spec_from_u64(val: u64) -> i64 {
        u64_to_i64_spec(val)
    }

    open spec fn spec_to_u64(&self) -> u64 {
        i64_to_u64_spec(*self)
    }

    fn from_u64(val: u64) -> (r: i64) {
        u64_to_i64(val)
    }

    fn to_u64(&self) -> (r: u64) {
        i64_to_u64(*self)
    }

    proof fn lemma_from_to_u64(v: i64) {
    }

    proof fn lemma_from_u64_monotonic(a: u64, b: u64) {
        law_u64_to_i64_inverse(a);
        law_u64_to_i64_inverse(b);
    }
}

impl FastValue for bool {
    open spec fn spec_from_u64(val: u64) -> bool {
        val != 0
    }

    open spec fn spec_to_u64(&self) -> u64 {
        if *self {
            1
        } else {
            0
        }
    }

    fn from_u64(val: u64) -> (r: bool) {
        val != 0
    }

    fn to_u64(&self) -> (r: u64) {
        if *self {
            1
        } else {
            0
        }
    }

    proof fn lemma_from_to_u64(v: bool) {
    }

    proof fn lemma_from_u64_monotonic(a: u64, b: u64) {
    }
}

/// The stored form of `i64` keeps its order: a smaller `i64` is stored under
/// a smaller `u64`, and reading a stored `u64` back inverts the mapping.
pub proof fn law_i64_mapping_monotonic(a: i64, b: i64)
    ensures
        a < b <==> i64_to_u64_spec(a) < i64_to_u64_spec(b),
        a == b <==> i64_to_u64_spec(a) == i64_to_u64_spec(b),
        u64_to_i64_spec(i64_to_u64_spec(a)) == a,
{
}

/// Every stored `u64` stands for an `i64`, and mapping that `i64` back gives
/// the same `u64`.
pub proof fn law_u64_to_i64_inverse(u: u64)
    ensures
        i64_to_u64_spec(u64_to_i64_spec(u)) == u,
{
}

/// A type whose values are stored in a fast field as `u128`.
pub trait FastValueU128: Sized {
    /// The value that a stored `u128` stands for.
    spec fn spec_from_u128(val: u128) -> Self;

    /// The `u128` under which a value is stored.
    spec fn spec_to_u128(&self) -> u128;

    /// Converts a stored `u128` back to a value.
    fn from_u128(val: u128) -> (r: Self)
        ensures
            r == Self::spec_from_u128(val),
    ;

    /// Converts a value to the `u128` that stores it.
    fn to_u128(&self) -> (r: u128)
        ensures
            r == self.spec_to_u128(),
    ;

    /// Storing a value and reading it back gives the value.
    proof fn lemma_from_to_u128(v: Self)
        ensures
            Self::spec_from_u128(v.spec_to_u128()) == v,
    ;
}

impl FastValueU128 for u128 {
    open spec fn spec_from_u128(val: u128) -> u128 {
        val
    }

    open spec fn spec_to_u128(&self) -> u128 {
        *self
    }

    fn from_u128(val: u128) -> (r: u128) {
        val
    }

    fn to_u128(&self) -> (r: u128) {
        *self
    }

    proof fn lemma_from_to_u128(v: u128) {
    }
}

} // verus!
