//! Address alignment helpers and decimal rendering of counters.

use vstd::prelude::*;

verus! {

/// `a` is a power of two.
pub open spec fn is_power_of_two(a: usize) -> bool {
    a != 0 && a & (a - 1) as usize == 0
}

/// `x` is a multiple of the power of two `a`: its bits below `a` are clear.
pub open spec fn multiple_of(x: usize, a: usize) -> bool {
    x & (a - 1) as usize == 0
}

/// Rounding `x` down by clearing the bits below a power of two `a` gives a
/// multiple of `a` within `a` below `x`.
proof fn lemma_mask_down(x: usize, a: usize)
    requires
        is_power_of_two(a),
    ensures
        x & !((a - 1) as usize) <= x,
        x - (x & !((a - 1) as usize)) < a,
        multiple_of(x & !((a - 1) as usize), a),
{
    assert(a != 0 && a & (a - 1) as usize == 0 ==> x & !((a - 1) as usize) <= x) by (bit_vector);
    assert(a != 0 && a & (a - 1) as usize == 0 ==> x - (x & !((a - 1) as usize)) < a) by (bit_vector);
    assert((x & !((a - 1) as usize)) & (a - 1) as usize == 0) by (bit_vector);
}

/// Rounds `addr` up to a multiple of `align`, a power of two; an alignment
/// of 0 leaves `addr` as it is.
pub fn align_up(addr: usize, align: usize) -> (r: usize)
    requires
        align == 0 || addr + align - 1 <= usize::MAX,
    ensures
        align == 0 ==> r == addr,
        align != 0 ==> r == (addr + (align - 1)) as usize & !((align - 1) as usize),
        is_power_of_two(align) ==> multiple_of(r, align) && addr <= r && r - addr < align,
{
    if align == 0 {
        return addr;
    }
    proof {
        if is_power_of_two(align) {
            lemma_mask_down((addr + (align - 1)) as usize, align);
        }
    }
    (addr + (align - 1)) & !(align - 1)
}

/// Rounds `addr` down to a multiple of `align`, a power of two; an alignment
/// of 0 leaves `addr` as it is.
pub fn align_down(addr: usize, align: usize) -> (r: usize)
    ensures
        align == 0 ==> r == addr,
        align != 0 ==> r == addr & !((align - 1) as usize),
        is_power_of_two(align) ==> multiple_of(r, align) && r <= addr && addr - r < align,
{
    if align == 0 {
        return addr;
    }
    proof {
        if is_power_of_two(align) {
            lemma_mask_down(addr, align);
        }
    }
    addr & !(align - 1)
}

/// Whether `addr` is a multiple of `align`, a power of two; every address
/// counts as aligned to 0.
pub fn is_aligned(addr: usize, align: usize) -> (r: bool)
    ensures
        align == 0 ==> r,
        align != 0 ==> r == multiple_of(addr, align),
{
    if align == 0 {
        return true;
    }
    (addr & (align - 1)) == 0
}

/// ASCII decimal digits of `n`, most significant first, no leading zeros
/// (a single `0` for zero).
pub open spec fn decimal(n: nat) -> Seq<u8>
    decreases n,
{
    if n < 10 {
        seq![(n + 48) as u8]
    } else {
        decimal(n / 10).push((n % 10 + 48) as u8)
    }
}

/// The decimal digits of `n` as ASCII bytes, for console output.
pub fn decimal_digits(n: u32) -> (r: Vec<u8>)
    ensures
        r@ == decimal(n as nat),
    decreases n,
{
    if n < 10 {
        let mut r: Vec<u8> = Vec::new();
        r.push(n as u8 + 48);
        assert(r@ =~= decimal(n as nat));
        r
    } else {
        let mut r = decimal_digits(n / 10);
        r.push((n % 10) as u8 + 48);
        r
    }
}

} // verus!
