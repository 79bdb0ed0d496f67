//! Rounding integers to a multiple of an alignment, and dividing rounding up.
use vstd::prelude::*;

verus! {

/// `x` rounded down to a multiple of `a`; an alignment of 0 leaves it.
pub open spec fn align_down_spec(x: int, a: int) -> int {
    if a == 0 {
        x
    } else {
        x - x % a
    }
}

/// A nonzero word with one bit set is 2 to some power below 64.
proof fn lemma_pow2_exponent(a: u64) -> (k: nat)
    requires
        a != 0,
        a & ((a - 1) as u64) == 0,
    ensures
        k < 64,
        vstd::arithmetic::power2::pow2(k) == a,
        vstd::bits::low_bits_mask(k) == a - 1,
    decreases a,
{
    vstd::arithmetic::power2::lemma2_to64();
    if a == 1 {
        0
    } else {
        let h = a / 2;
        assert(a % 2 == 0 && h != 0 && h & ((h - 1) as u64) == 0 && h <= 0x7fff_ffff_ffff_ffff) by (bit_vector)
            requires
                a != 0,
                a != 1,
                a & ((a - 1) as u64) == 0,
                h == a / 2,
        ;
        let k1 = lemma_pow2_exponent(h);
        vstd::arithmetic::power2::lemma_pow2_unfold(k1 + 1);
        if k1 == 63 {
            assert(vstd::arithmetic::power2::pow2(63) == 0x8000_0000_0000_0000);
        }
        k1 + 1
    }
}

/// Rounding to a multiple of an alignment.
pub trait Align: Sized {
    /// Whether `align_up` stays in range: `self + align` fits the type and
    /// is not 0.
    spec fn align_up_ok(self, align: Self) -> bool;

    /// Rounds down (the same as `align_down`).
    fn align(self, align: Self) -> Self;

    /// Rounds up: `self + align - 1` rounded down.
    fn align_up(self, align: Self) -> Self
        requires
            self.align_up_ok(align),
    ;

    /// Rounds down to a multiple of `align`; an alignment of 0 leaves the
    /// value as it is.
    fn align_down(self, align: Self) -> Self;
}

/// Division rounding up.
pub trait CeilDiv: Sized {
    /// Whether the division is defined and `self + d` fits the type.
    spec fn ceil_div_ok(self, d: Self) -> bool;

    fn ceil_div(self, d: Self) -> Self
        requires
            self.ceil_div_ok(d),
    ;
}

impl Align for u64 {
    open spec fn align_up_ok(self, align: u64) -> bool {
        1 <= self + align <= u64::MAX
    }

    fn align(self, align: u64) -> (r: u64)
        ensures
            r == align_down_spec(self as int, align as int),
    {
        self.align_down(align)
    }

    fn align_up(self, align: u64) -> (r: u64)
        ensures
            r == align_down_spec(self + align - 1, align as int),
    {
        assert(1 <= self + align <= u64::MAX);
        (self + align - 1).align(align)
    }

    fn align_down(self, align: u64) -> (r: u64)
        ensures
            r == align_down_spec(self as int, align as int),
    {
        let m = align.wrapping_sub(1);
        if align != 0 && align & m == 0 {
            let r = self & !m;
            proof {
                let k = lemma_pow2_exponent(align);
                vstd::bits::lemma_u64_low_bits_mask_is_mod(self, k);
                assert(r == self - (self & m)) by (bit_vector)
                    requires
                        r == self & !m,
                ;
            }
            r
        } else if align == 0 {
            self
        } else {
            assert(self % align <= self) by (nonlinear_arith)
                requires
                    align > 0,
            ;
            self - (self % align)
        }
    }
}

impl CeilDiv for u64 {
    open spec fn ceil_div_ok(self, d: u64) -> bool {
        d > 0 && self + d <= u64::MAX
    }

    fn ceil_div(self, d: u64) -> (r: u64)
        ensures
            r == (self + d - 1) / (d as int),
    {
        assert(d > 0 && self + d <= u64::MAX);
        (self + d - 1) / d
    }
}

impl Align for u8 {
    open spec fn align_up_ok(self, align: u8) -> bool {
        1 <= self + align <= u8::MAX
    }

    fn align(self, align: u8) -> (r: u8)
        ensures
            r == align_down_spec(self as int, align as int),
    {
        self.align_down(align)
    }

    fn align_up(self, align: u8) -> (r: u8)
        ensures
            r == align_down_spec(self + align - 1, align as int),
    {
        assert(1 <= self + align <= u8::MAX);
        (self + align - 1).align(align)
    }

    fn align_down(self, align: u8) -> (r: u8)
        ensures
            r == align_down_spec(self as int, align as int),
    {
        let r = (self as u64).align_down(align as u64);
        proof {
            lemma_align_down_le(self as u64, align as u64);
        }
        r as u8
    }
}

impl CeilDiv for u8 {
    open spec fn ceil_div_ok(self, d: u8) -> bool {
        d > 0 && self + d <= u8::MAX
    }

    fn ceil_div(self, d: u8) -> (r: u8)
        ensures
            r == (self + d - 1) / (d as int),
    {
        assert(d > 0 && self + d <= u8::MAX);
        (self + d - 1) / d
    }
}

impl Align for u16 {
    open spec fn align_up_ok(self, align: u16) -> bool {
        1 <= self + align <= u16::MAX
    }

    fn align(self, align: u16) -> (r: u16)
        ensures
            r == align_down_spec(self as int, align as int),
    {
        self.align_down(align)
    }

    fn align_up(self, align: u16) -> (r: u16)
        ensures
            r == align_down_spec(self + align - 1, align as int),
    {
        assert(1 <= self + align <= u16::MAX);
        (self + align - 1).align(align)
    }

    fn align_down(self, align: u16) -> (r: u16)
        ensures
            r == align_down_spec(self as int, align as int),
    {
        let r = (self as u64).align_down(align as u64);
        proof {
            lemma_align_down_le(self as u64, align as u64);
        }
        r as u16
    }
}

impl CeilDiv for u16 {
    open spec fn ceil_div_ok(self, d: u16) -> bool {
        d > 0 && self + d <= u16::MAX
    }

    fn ceil_div(self, d: u16) -> (r: u16)
        ensures
            r == (self + d - 1) / (d as int),
    {
        assert(d > 0 && self + d <= u16::MAX);
        (self + d - 1) / d
    }
}

impl Align for u32 {
    open spec fn align_up_ok(self, align: u32) -> bool {
        1 <= self + align <= u32::MAX
    }

    fn align(self, align: u32) -> (r: u32)
        ensures
            r == align_down_spec(self as int, align as int),
    {
        self.align_down(align)
    }

    fn align_up(self, align: u32) -> (r: u32)
        ensures
            r == align_down_spec(self + align - 1, align as int),
    {
        assert(1 <= self + align <= u32::MAX);
        (self + align - 1).align(align)
    }

    fn align_down(self, align: u32) -> (r: u32)
        ensures
            r == align_down_spec(self as int, align as int),
    {
        let r = (self as u64).align_down(align as u64);
        proof {
            lemma_align_down_le(self as u64, align as u64);
        }
        r as u32
    }
}

impl CeilDiv for u32 {
    open spec fn ceil_div_ok(self, d: u32) -> bool {
        d > 0 && self + d <= u32::MAX
    }

    fn ceil_div(self, d: u32) -> (r: u32)
        ensures
            r == (self + d - 1) / (d as int),
    {
        assert(d > 0 && self + d <= u32::MAX);
        (self + d - 1) / d
    }
}

impl Align for usize {
    open spec fn align_up_ok(self, align: usize) -> bool {
        1 <= self + align <= usize::MAX
    }

    fn align(self, align: usize) -> (r: usize)
        ensures
            r == align_down_spec(self as int, align as int),
    {
        self.align_down(align)
    }

    fn align_up(self, align: usize) -> (r: usize)
        ensures
            r == align_down_spec(self + align - 1, align as int),
    {
        assert(1 <= self + align <= usize::MAX);
        (self + align - 1).align(align)
    }

    fn align_down(self, align: usize) -> (r: usize)
        ensures
            r == align_down_spec(self as int, align as int),
    {
        let r = (self as u64).align_down(align as u64);
        proof {
            lemma_align_down_le(self as u64, align as u64);
        }
        r as usize
    }
}

impl CeilDiv for usize {
    open spec fn ceil_div_ok(self, d: usize) -> bool {
        d > 0 && self + d <= usize::MAX
    }

    fn ceil_div(self, d: usize) -> (r: usize)
        ensures
            r == (self + d - 1) / (d as int),
    {
        assert(d > 0 && self + d <= usize::MAX);
        (self + d - 1) / d
    }
}

/// Rounding down never goes above the value.
proof fn lemma_align_down_le(x: u64, a: u64)
    ensures
        0 <= align_down_spec(x as int, a as int) <= x,
{
    if a > 0 {
        assert(0 <= x % a <= x) by (nonlinear_arith)
            requires
                a > 0,
        ;
    }
}

/// Rounding down gives the largest multiple of the alignment that is not
/// above the value; dividing rounding up gives the least quotient whose
/// product reaches the value.
pub proof fn lemma_align_down_bounds(x: u64, a: u64)
    requires
        a > 0,
    ensures
        align_down_spec(x as int, a as int) <= x,
        align_down_spec(x as int, a as int) % (a as int) == 0,
        x < align_down_spec(x as int, a as int) + a,
{
    let r = x % a;
    assert(0 <= r < a) by (nonlinear_arith)
        requires
            a > 0,
            r == x % a,
    ;
    let q = (x / a) as int;
    vstd::arithmetic::div_mod::lemma_fundamental_div_mod(x as int, a as int);
    assert(x - r == q * a) by (nonlinear_arith)
        requires
            x == a * q + r,
    ;
    vstd::arithmetic::div_mod::lemma_mod_multiples_basic(q, a as int);
}

/// `ceil_div(x, d) * d` is at least `x`, by less than `d`.
pub proof fn lemma_ceil_div_bounds(x: u64, d: u64)
    requires
        d > 0,
    ensures
        ((x + d - 1) / (d as int)) * d >= x,
        ((x + d - 1) / (d as int)) * d < x + d,
{
    let n = x + d - 1;
    let q = n / (d as int);
    vstd::arithmetic::div_mod::lemma_fundamental_div_mod(n, d as int);
    assert(0 <= n % (d as int) < d) by {
        vstd::arithmetic::div_mod::lemma_mod_bound(n, d as int);
    }
    assert(q * d == d * q) by (nonlinear_arith);
}

} // verus!
