//! Reading fixed runs of bytes out of a slice.

use vstd::prelude::*;
use vstd::slice::{slice_subrange, slice_to_vec};

verus! {

/// The number that `bytes` spell in base 256, most significant byte first.
pub open spec fn be_value(bytes: Seq<u8>) -> nat
    decreases bytes.len(),
{
    if bytes.len() == 0 {
        0
    } else {
        be_value(bytes.drop_last()) * 256 + bytes.last() as nat
    }
}

/// 256 to the power `n`.
pub open spec fn pow256(n: nat) -> nat
    decreases n,
{
    if n == 0 {
        1
    } else {
        256 * pow256((n - 1) as nat)
    }
}

/// A big-endian number of `n` bytes is below 256 to the power `n`.
pub proof fn lemma_be_value_bound(bytes: Seq<u8>)
    ensures
        be_value(bytes) < pow256(bytes.len()),
    decreases bytes.len(),
{
    if bytes.len() > 0 {
        lemma_be_value_bound(bytes.drop_last());
    }
}

/// Reads `n` bytes at `pos` as one big-endian number.
pub fn read_be(input: &[u8], pos: usize, n: usize) -> (value: u64)
    requires
        n <= 8,
        pos + n <= input@.len(),
    ensures
        value == be_value(input@.subrange(pos as int, pos + n)),
{
    assert(input@.len() == input.len());
    let mut value: u64 = 0;
    let mut i: usize = 0;
    while i < n
        invariant
            i <= n <= 8,
            pos + n <= input@.len() <= usize::MAX,
            value == be_value(input@.subrange(pos as int, pos + i)),
        decreases n - i,
    {
        let ghost before = input@.subrange(pos as int, pos + i);
        let ghost after = input@.subrange(pos as int, pos + i + 1);
        proof {
            assert(after.drop_last() =~= before);
            lemma_be_value_bound(before);
            reveal_with_fuel(pow256, 9);
            assert(pow256(i as nat) <= pow256(7)) by {
                lemma_pow256_monotonic(i as nat, 7);
            }
        }
        value = value * 256 + input[pos + i] as u64;
        i = i + 1;
    }
    value
}

/// `pow256` grows with its argument.
pub proof fn lemma_pow256_monotonic(a: nat, b: nat)
    requires
        a <= b,
    ensures
        pow256(a) <= pow256(b),
    decreases b,
{
    if a < b {
        lemma_pow256_monotonic(a, (b - 1) as nat);
    }
}

/// The low five bits of a byte.
pub fn low5(b: u8) -> (r: u8)
    ensures
        r == b % 32,
{
    assert(b & 0x1f == b % 32) by (bit_vector);
    b & 0x1f
}

/// The low seven bits of a byte.
pub fn low7(b: u8) -> (r: u8)
    ensures
        r == b % 128,
{
    assert(b & 0x7f == b % 128) by (bit_vector);
    b & 0x7f
}

/// The high three bits of a byte, as a number in 0..=7.
pub fn high3(b: u8) -> (r: u8)
    ensures
        r == b / 32,
{
    assert(b >> 5 == b / 32) by (bit_vector);
    b >> 5
}

/// A byte with its low five bits cleared.
pub fn clear_low5(b: u8) -> (r: u8)
    ensures
        r == b - b % 32,
{
    assert(b & 0xe0 == b - b % 32) by (bit_vector);
    b & 0xe0
}

/// Whether the high bit of a byte is set.
pub fn high_bit(b: u8) -> (r: bool)
    ensures
        r == (b >= 128),
{
    assert((b & 0x80 != 0) == (b >= 128)) by (bit_vector);
    b & 0x80 != 0
}

/// Copies the `n` bytes at `pos` into a vector of their own.
pub fn copy_range(input: &[u8], pos: usize, n: usize) -> (out: Vec<u8>)
    requires
        pos + n <= input@.len(),
    ensures
        out@ == input@.subrange(pos as int, pos + n),
{
    assert(input@.len() == input.len());
    slice_to_vec(slice_subrange(input, pos, pos + n))
}

} // verus!
