//! The footer of a blockwise linearly interpolated column, as its reader
//! deserializes it: the length of the footer in the last 4 bytes; before
//! them the footer, starting with the number of values, the minimum and the
//! maximum (8 bytes each), then the number of blocks as a variable-length
//! integer (7 bits per byte, least significant first, the last byte marked
//! by its high bit), then one record of 29 bytes per block whose last byte
//! is the block's bit width.
use crate::le_bytes::{read_u32_le, u32_at};
use vstd::prelude::*;

verus! {

/// The bytes of one block's record in the footer.
pub const BLOCK_RECORD_BYTES: usize = 29;

/// The largest bit width that a block's bit unpacker accepts.
pub const MAX_BLOCK_BIT_WIDTH: u8 = 64;

/// The length of the footer, stored in the last 4 bytes.
pub open spec fn multi_footer_len(bytes: Seq<u8>) -> int {
    u32_at(bytes, bytes.len() - 4) as int
}

/// Where the footer starts.
pub open spec fn multi_footer_start(bytes: Seq<u8>) -> int {
    bytes.len() - 4 - multi_footer_len(bytes)
}

/// The stored length fits: the bytes hold it and the footer it counts, and
/// adding 4 to it does not overflow a `u32`.
pub open spec fn multi_footer_fits(bytes: Seq<u8>) -> bool {
    &&& bytes.len() >= 4
    &&& multi_footer_len(bytes) + 4 <= u32::MAX
    &&& multi_footer_len(bytes) + 4 <= bytes.len()
}

/// The bytes from the count of blocks to the end: those after the three
/// numbers of the footer.
pub open spec fn multi_count_bytes(bytes: Seq<u8>) -> Seq<u8> {
    bytes.subrange(multi_footer_start(bytes) + 24, bytes.len() as int)
}

/// `128` to the power `i`.
pub open spec fn pow128(i: nat) -> nat
    decreases i,
{
    if i == 0 {
        1
    } else {
        128 * pow128((i - 1) as nat)
    }
}

/// Byte `k` ends the variable-length integer at the start of `t`: it is
/// among the first ten, it has the high bit, and no byte before it has.
pub open spec fn vint_end(t: Seq<u8>, k: int) -> bool {
    &&& 0 <= k < t.len()
    &&& k < 10
    &&& t[k] >= 128
    &&& forall|j: int| 0 <= j < k ==> #[trigger] t[j] < 128
}

/// Reading the variable-length integer at the start of `t` runs out of
/// bytes: `t` has at most ten bytes, none with the high bit.
pub open spec fn vint_runs_out(t: Seq<u8>) -> bool {
    &&& t.len() <= 10
    &&& forall|j: int| 0 <= j < t.len() ==> #[trigger] t[j] < 128
}

/// The low 7 bits of the first `k` bytes of `t`, least significant first.
pub open spec fn vint_sum(t: Seq<u8>, k: nat) -> nat
    decreases k,
{
    if k == 0 {
        0
    } else {
        vint_sum(t, (k - 1) as nat) + ((t[k - 1] % 128) as nat) * pow128((k - 1) as nat)
    }
}

/// The value of the variable-length integer that ends at byte `k`, its bits
/// above the 64th dropped.
pub open spec fn vint_value(t: Seq<u8>, k: int) -> nat {
    vint_sum(t, (k + 1) as nat) % 0x1_0000_0000_0000_0000
}

/// The bit width stored in the record of block `j`, whose records start at
/// `first` in `t`.
pub open spec fn block_bit_width(t: Seq<u8>, first: int, j: int) -> u8 {
    t[first + BLOCK_RECORD_BYTES * j + BLOCK_RECORD_BYTES - 1]
}

/// After the count that ends at byte `k`, the records of all its blocks are
/// there, each with a bit width of at most 64.
pub open spec fn blocks_read(t: Seq<u8>, k: int) -> bool {
    let n = vint_value(t, k);
    &&& k + 1 + n * BLOCK_RECORD_BYTES <= t.len()
    &&& forall|j: int| 0 <= j < n ==> #[trigger] block_bit_width(t, k + 1, j) <= MAX_BLOCK_BIT_WIDTH
}

/// The blockwise reader opens `bytes`: the footer fits, holds its three
/// numbers, a count that ends within its first ten bytes, and the records
/// of all the blocks counted, with bit widths it accepts.
pub open spec fn multi_opens(bytes: Seq<u8>) -> bool {
    &&& multi_footer_fits(bytes)
    &&& multi_footer_len(bytes) >= 20
    &&& exists|k: int| vint_end(multi_count_bytes(bytes), k) && blocks_read(multi_count_bytes(bytes), k)
}

/// Opening `bytes` reports an error without reaching any block: the footer
/// fits but is too short for its three numbers, or its count runs out of
/// bytes.
pub open spec fn multi_open_fails(bytes: Seq<u8>) -> bool {
    &&& multi_footer_fits(bytes)
    &&& (multi_footer_len(bytes) < 20 || vint_runs_out(multi_count_bytes(bytes)))
}

/// The blockwise reader returns on `bytes`, a reader or an error.
pub open spec fn multi_can_open(bytes: Seq<u8>) -> bool {
    multi_opens(bytes) || multi_open_fails(bytes)
}

proof fn lemma_pow128_monotonic(i: nat, j: nat)
    requires
        i <= j,
    ensures
        pow128(i) <= pow128(j),
    decreases j,
{
    if i < j {
        lemma_pow128_monotonic(i, (j - 1) as nat);
    }
}

proof fn lemma_pow128_nine()
    ensures
        pow128(9) == 0x8000_0000_0000_0000,
{
    assert(pow128(0) == 1);
    assert(pow128(1) == 0x80);
    assert(pow128(2) == 0x4000);
    assert(pow128(3) == 0x20_0000);
    assert(pow128(4) == 0x1000_0000);
    assert(pow128(5) == 0x8_0000_0000);
    assert(pow128(6) == 0x400_0000_0000);
    assert(pow128(7) == 0x2_0000_0000_0000);
    assert(pow128(8) == 0x100_0000_0000_0000);
}

proof fn lemma_vint_sum_bound(t: Seq<u8>, k: nat)
    ensures
        vint_sum(t, k) < pow128(k),
    decreases k,
{
    if k > 0 {
        lemma_vint_sum_bound(t, (k - 1) as nat);
        let d = (t[k - 1] % 128) as nat;
        let s = vint_sum(t, (k - 1) as nat);
        let p = pow128((k - 1) as nat);
        assert(s + d * p < 128 * p) by (nonlinear_arith)
            requires
                s < p,
                d <= 127,
        ;
    }
}

/// Whether every block counted has its record after the count, with a bit
/// width of at most 64.
fn check_blocks(t: &[u8], first: usize, n: u64) -> (r: bool)
    requires
        first <= t@.len(),
    ensures
        r == (first + n * BLOCK_RECORD_BYTES <= t@.len() && forall|j: int|
            0 <= j < n ==> #[trigger] block_bit_width(t@, first as int, j) <= MAX_BLOCK_BIT_WIDTH),
{
    let room = t.len() - first;
    if n > (room / BLOCK_RECORD_BYTES) as u64 {
        assert(first + n * BLOCK_RECORD_BYTES > t@.len()) by (nonlinear_arith)
            requires
                n > room / 29,
                room == t@.len() - first,
        ;
        return false;
    }
    assert(n * BLOCK_RECORD_BYTES <= room) by (nonlinear_arith)
        requires
            n <= room / 29,
    ;
    let count = n as usize;
    assert(first + count * 29 <= t@.len());
    let mut j: usize = 0;
    let mut pos: usize = first;
    while j < count
        invariant
            j <= count,
            count == n,
            pos == first + 29 * j,
            first + count * 29 <= t@.len(),
            t@.len() <= usize::MAX,
            forall|i: int| 0 <= i < j ==> #[trigger] block_bit_width(t@, first as int, i) <= 64,
        decreases count - j,
    {
        assert(pos + 29 <= first + count * 29) by (nonlinear_arith)
            requires
                pos == first + 29 * j,
                j < count,
        ;
        let width = t[pos + 28];
        if width > MAX_BLOCK_BIT_WIDTH {
            assert(block_bit_width(t@, first as int, j as int) == width);
            return false;
        }
        j = j + 1;
        pos = pos + 29;
    }
    true
}

/// Whether the blockwise reader returns on `bytes`, a reader or an error.
pub fn multi_check_can_open(bytes: &[u8]) -> (r: bool)
    ensures
        r == multi_can_open(bytes@),
{
    let len = bytes.len();
    if len < 4 {
        return false;
    }
    let footer_len = read_u32_le(bytes, len - 4);
    if footer_len > u32::MAX - 4 || footer_len as usize + 4 > len {
        return false;
    }
    if footer_len < 20 {
        return true;
    }
    let start = len - 4 - footer_len as usize;
    let (_head, t) = bytes.split_at(start + 24);
    assert(t@ =~= multi_count_bytes(bytes@));
    let mut k: usize = 0;
    let mut acc: u128 = 0;
    let mut p: u128 = 1;
    proof {
        lemma_pow128_nine();
    }
    while k < 10 && k < t.len()
        invariant
            k <= 10,
            k <= t@.len(),
            p == pow128(k as nat),
            acc == vint_sum(t@, k as nat),
            pow128(9) == 0x8000_0000_0000_0000,
            forall|j: int| 0 <= j < k ==> #[trigger] t@[j] < 128,
            t@ == multi_count_bytes(bytes@),
            multi_footer_fits(bytes@),
            multi_footer_len(bytes@) >= 20,
        decreases 10 - k,
    {
        let b = t[k];
        proof {
            lemma_vint_sum_bound(t@, k as nat);
            lemma_pow128_monotonic(k as nat, 9);
            assert(acc + ((b % 128) as nat) * p < 0x100_0000_0000_0000_0000) by (nonlinear_arith)
                requires
                    acc < p,
                    p <= 0x8000_0000_0000_0000,
                    b % 128 <= 127,
            ;
        }
        acc = acc + ((b % 128) as u128) * p;
        if b >= 128 {
            assert(vint_end(t@, k as int));
            let n = (acc % 0x1_0000_0000_0000_0000u128) as u64;
            assert(n == vint_value(t@, k as int));
            let ok = check_blocks(t, k + 1, n);
            proof {
                if ok {
                    assert(vint_end(t@, k as int) && blocks_read(t@, k as int));
                }
                assert forall|k2: int| vint_end(t@, k2) implies k2 == k by {
                    if k2 < k {
                        assert(t@[k2] < 128);
                    } else if k2 > k {
                        assert(t@[k as int] < 128);
                    }
                }
                assert(!vint_runs_out(t@)) by {
                    assert(t@[k as int] >= 128);
                }
                assert(multi_count_bytes(bytes@) == t@);
                assert(!multi_open_fails(bytes@));
                assert(blocks_read(t@, k as int) == ok);
                assert(multi_opens(bytes@) == ok);
            }
            return ok;
        }
        p = p * 128;
        k = k + 1;
    }
    proof {
        assert forall|k2: int| !vint_end(t@, k2) by {
            if 0 <= k2 < k {
                assert(t@[k2] < 128);
            }
        }
    }
    t.len() <= 10
}

} // verus!
