//! Bit access on integers through the `bit_field` crate.
use vstd::prelude::*;
use bit_field::BitField;

verus! {

/// Calls `BitField::get_bit` on a `u16`; the crate asserts `bit < 16` and
/// returns whether `v & (1 << bit)` is nonzero.
#[verifier::external_body]
pub(crate) fn u16_get_bit(v: u16, bit: usize) -> (r: bool)
    requires
        bit < 16,
    ensures
        r == (v & (1u16 << (bit as u16)) != 0),
{
    v.get_bit(bit)
}

/// Calls `BitField::set_bit` on a `u16`; the crate asserts `bit < 16`, then
/// ors in `1 << bit` when `value` holds and masks it out otherwise.
#[verifier::external_body]
pub(crate) fn u16_set_bit(v: &mut u16, bit: usize, value: bool)
    requires
        bit < 16,
    ensures
        *final(v) == if value {
            *old(v) | (1u16 << (bit as u16))
        } else {
            *old(v) & !(1u16 << (bit as u16))
        },
{
    v.set_bit(bit, value);
}

/// Calls `BitField::get_bits` on a `u16` with the range `lo..=hi`; the crate
/// shifts the bits above `hi` out and then shifts right by `lo`.
#[verifier::external_body]
pub(crate) fn u16_get_bits_incl(v: u16, lo: usize, hi: usize) -> (r: u16)
    requires
        lo <= hi < 16,
    ensures
        r == ((v << ((15 - hi) as u16)) >> ((15 - hi) as u16)) >> (lo as u16),
{
    v.get_bits(lo..=hi)
}

/// Calls `BitField::set_bits` on a `u16` with the range `lo..=hi`; the crate
/// asserts that `value` fits in the range's width, clears the range and ors
/// in `value << lo`.
#[verifier::external_body]
pub(crate) fn u16_set_bits_incl(v: &mut u16, lo: usize, hi: usize, value: u16)
    requires
        lo <= hi < 16,
        (value << ((15 - (hi - lo)) as u16)) >> ((15 - (hi - lo)) as u16) == value,
    ensures
        *final(v) == (*old(v) & !(((((!0u16) << ((15 - hi) as u16)) >> ((15 - hi) as u16)) >> (
        lo as u16)) << (lo as u16))) | (value << (lo as u16)),
{
    v.set_bits(lo..=hi, value);
}

/// Calls `BitField::get_bit` on a `u64`; the crate asserts `bit < 64` and
/// returns whether `v & (1 << bit)` is nonzero.
#[verifier::external_body]
pub(crate) fn u64_get_bit(v: u64, bit: usize) -> (r: bool)
    requires
        bit < 64,
    ensures
        r == (v & (1u64 << (bit as u64)) != 0),
{
    v.get_bit(bit)
}

/// Calls `BitField::set_bit` on a `u64`; the crate asserts `bit < 64`, then
/// ors in `1 << bit` when `value` holds and masks it out otherwise.
#[verifier::external_body]
pub(crate) fn u64_set_bit(v: &mut u64, bit: usize, value: bool)
    requires
        bit < 64,
    ensures
        *final(v) == if value {
            *old(v) | (1u64 << (bit as u64))
        } else {
            *old(v) & !(1u64 << (bit as u64))
        },
{
    v.set_bit(bit, value);
}

} // verus!
