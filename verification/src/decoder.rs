use vstd::prelude::*;

verus! {

/// The bit field `from[lo..=hi]`, as a non-negative number.
pub open spec fn field(from: u32, lo: u32, hi: u32) -> u32 {
    (from >> lo) & (((1u64 << ((hi - lo + 1) as u64)) - 1) as u32)
}

/// Extracts the bit field `lo..=hi` of an instruction word.
pub fn fetch(from: u32, lo: u32, hi: u32) -> (r: i32)
    requires
        lo <= hi < 32,
    ensures
        r as u32 == field(from, lo, hi),
        hi - lo < 31 ==> 0 <= r < (1u64 << ((hi - lo + 1) as u64)),
{
    let n: u64 = (hi - lo + 1) as u64;
    assert(1 <= (1u64 << n) <= 0x1_0000_0000u64) by (bit_vector)
        requires 1 <= n <= 32;
    let mask: u64 = (1u64 << n) - 1;
    let m32: u32 = mask as u32;
    let r: u32 = (from >> lo) & m32;
    assert(r <= mask) by (bit_vector)
        requires r == (from >> lo) & m32, m32 == mask, mask < 0x1_0000_0000u64;
    assert(n <= 31 ==> mask < 0x8000_0000u64) by (bit_vector)
        requires mask == (1u64 << n) - 1, 1 <= n;
    let out: i32 = #[verifier::truncate] (r as i32);
    assert(out as u32 == r) by (bit_vector)
        requires out == #[verifier::truncate] (r as i32);
    out
}


/// The ranges of the instruction fields.
pub proof fn lemma_field_bounds(x: u32)
    ensures
        field(x, 0, 6) < 128,
        field(x, 7, 11) < 32,
        field(x, 12, 14) < 8,
        field(x, 15, 19) < 32,
        field(x, 20, 24) < 32,
        field(x, 25, 31) < 128,
        field(x, 20, 31) < 4096,
        field(x, 12, 31) < 0x10_0000,
{
    assert(field(x, 0, 6) < 128 && field(x, 7, 11) < 32 && field(x, 12, 14) < 8 && field(x, 15, 19)
        < 32 && field(x, 20, 24) < 32 && field(x, 25, 31) < 128 && field(x, 20, 31) < 4096 && field(
        x,
        12,
        31,
    ) < 0x10_0000) by (bit_vector);
}

} // verus!
