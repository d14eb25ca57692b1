use vstd::prelude::*;
use vstd::std_specs::bits::u64_trailing_zeros;

verus! {

/// The number of one bits of `x`.
pub open spec fn popcount(x: u64) -> nat
    decreases x,
{
    if x == 0 {
        0
    } else {
        (x % 2) as nat + popcount(x / 2)
    }
}

/// The number of one bits in `x`.
pub fn xpopcount(x: u64) -> (r: u32)
    ensures
        r == popcount(x),
{
    proof {
        vstd::arithmetic::power2::lemma2_to64_rest();
        lemma_popcount_bound(x, 64);
    }
    let mut v = x;
    let mut count: u32 = 0;
    while v != 0
        invariant
            count + popcount(v) == popcount(x),
            popcount(x) <= 64,
        decreases v,
    {
        count = count + (v % 2) as u32;
        v = v / 2;
    }
    count
}

/// A value below `2^k` has at most `k` one bits.
proof fn lemma_popcount_bound(x: u64, k: nat)
    requires
        k <= 64,
        x < vstd::arithmetic::power2::pow2(k),
    ensures
        popcount(x) <= k,
    decreases k,
{
    vstd::arithmetic::power2::lemma2_to64();
    vstd::arithmetic::power2::lemma2_to64_rest();
    if k == 0 {
        assert(x == 0);
    } else {
        vstd::arithmetic::power2::lemma_pow2_unfold(k);
        if x != 0 {
            lemma_popcount_bound(x / 2, (k - 1) as nat);
        }
    }
}

/// The number of trailing zero bits of `x`; 64 for zero.
pub fn xctz(x: u64) -> (r: u32)
    ensures
        x == 0 ==> r == 64,
        x != 0 ==> r == u64_trailing_zeros(x),
{
    if x == 0 {
        64
    } else {
        x.trailing_zeros()
    }
}

/// Saturates a 64-bit integer into the 32-bit range.
pub fn trim_to_int(x: i64) -> (r: i32)
    ensures
        r as int == if x < i32::MIN {
            i32::MIN as int
        } else if x > i32::MAX {
            i32::MAX as int
        } else {
            x as int
        },
{
    if x < i32::MIN as i64 {
        i32::MIN
    } else if x > i32::MAX as i64 {
        i32::MAX
    } else {
        x as i32
    }
}

/// Appends a decimal digit to `value`: `value * 10 + digit`. Fails, leaving
/// `value` as it was, where the result does not fit in an `i32`.
pub fn vim_append_digit_int(value: &mut i32, digit: i32) -> (r: Result<(), ()>)
    ensures
        r is Ok <==> i32::MIN <= *old(value) * 10 + digit <= i32::MAX && i32::MIN <= *old(value) * 10 <= i32::MAX,
        r is Ok ==> *final(value) == *old(value) * 10 + digit,
        r is Err ==> *final(value) == *old(value),
{
    match value.checked_mul(10) {
        Some(v) => match v.checked_add(digit) {
            Some(new_value) => {
                *value = new_value;
                Ok(())
            },
            None => Err(()),
        },
        None => Err(()),
    }
}

} // verus!
