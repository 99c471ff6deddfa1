//! Trusted views of the `bit_field` crate's bit addressing: single bits of a
//! byte array, and a bit range of a `usize`.

use vstd::prelude::*;

verus! {

/// Bit `i` of a byte array, as `bit_field` addresses it: bit `i % 8` of
/// byte `i / 8`.
pub open spec fn bit_get(bytes: Seq<u8>, i: int) -> bool {
    bytes[i / 8] & ((1u8 << (i % 8) as u8) as u8) != 0
}

/// The bits of `x` from `lo` (inclusive) to `hi` (exclusive), shifted down
/// to the low end: `(x >> lo) & ((1 << (hi - lo)) - 1)`.
pub open spec fn bits_range(x: u64, lo: u64, hi: u64) -> u64 {
    (x >> lo) & ((((1u64 << ((hi - lo) as u64)) as u64) - 1) as u64)
}

/// Relies on `bit_field`'s `BitArray<u8>` impl for `[u8]`: `get_bit(bit)`
/// reads bit `bit % 8` of byte `bit / 8`.
#[verifier::external_body]
pub(crate) fn bitmap_get_bit(bytes: &[u8; 512], bit: usize) -> (r: bool)
    requires
        bit < 4096,
    ensures
        r == bit_get(bytes@, bit as int),
{
    <[u8] as bit_field::BitArray<u8>>::get_bit(bytes, bit)
}

/// Relies on `bit_field`'s `BitArray<u8>` impl for `[u8]`: `set_bit(bit, v)`
/// writes bit `bit % 8` of byte `bit / 8` and leaves every other bit alone.
#[verifier::external_body]
pub(crate) fn bitmap_set_bit(bytes: &mut [u8; 512], bit: usize, value: bool)
    requires
        bit < 4096,
    ensures
        bit_get(final(bytes)@, bit as int) == value,
        forall|j: int|
            0 <= j < 4096 && j != bit ==> #[trigger] bit_get(final(bytes)@, j) == bit_get(
                old(bytes)@,
                j,
            ),
{
    <[u8] as bit_field::BitArray<u8>>::set_bit(bytes, bit, value)
}

/// Relies on `bit_field`'s `BitField` impl for `u64`: `get_bits(lo..hi)`
/// shifts away the bits outside `lo..hi` and returns the rest at the low
/// end.
#[verifier::external_body]
pub(crate) fn u64_get_bits(x: u64, lo: usize, hi: usize) -> (r: u64)
    requires
        lo < hi <= 63,
    ensures
        r == bits_range(x, lo as u64, hi as u64),
{
    <u64 as bit_field::BitField>::get_bits(&x, lo..hi)
}

} // verus!
