use vstd::prelude::*;

verus! {

/// `n` is a power of two (1, 2, 4, ...); zero is not.
pub open spec fn is_pow2(n: nat) -> bool
    decreases n,
{
    if n == 0 {
        false
    } else if n == 1 {
        true
    } else {
        n % 2 == 0 && is_pow2(n / 2)
    }
}

proof fn lemma_bit_trick(x: u32)
    requires
        x != 0,
    ensures
        ((x & ((x - 1) as u32)) == 0) == is_pow2(x as nat),
    decreases x,
{
    if x == 1 {
        assert((1u32 & 0u32) == 0) by (bit_vector);
    } else if x % 2 == 0 {
        let h: u32 = x / 2;
        assert(((x & ((x - 1) as u32)) == 0) == ((h & ((h - 1) as u32)) == 0)) by (bit_vector)
            requires
                x != 0,
                x % 2 == 0,
                h == x / 2,
        ;
        lemma_bit_trick(h);
    } else {
        assert((x & ((x - 1) as u32)) == ((x - 1) as u32)) by (bit_vector)
            requires
                x % 2 == 1,
        ;
    }
}

/// Whether `size` is a power of two; `false` for zero.
pub fn is_power_of_two(size: u32) -> (r: bool)
    ensures
        r == is_pow2(size as nat),
{
    if size == 0 {
        return false;
    }
    proof {
        lemma_bit_trick(size);
    }
    (size & (size - 1)) == 0
}

/// Whether `value` is a power of two; `false` for zero.
pub fn check_power_of_two(value: u32) -> (r: bool)
    ensures
        r == is_pow2(value as nat),
{
    proof {
        if value != 0 {
            lemma_bit_trick(value);
        }
    }
    value != 0 && (value & (value - 1)) == 0
}

} // verus!
