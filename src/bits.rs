//! Facts about single-bit updates of the masks that hold candidate and conflict sets.
use vstd::prelude::*;

verus! {

pub proof fn lemma_u16_set_bit(m: u16, a: u16, b: u16)
    requires
        a < 16,
        b < 16,
    ensures
        ((m | (1u16 << a)) >> b) & 1u16 == 1u16 <==> (((m >> b) & 1u16 == 1u16) || a == b),
{
    assert(((m | (1u16 << a)) >> b) & 1u16 == 1u16 <==> (((m >> b) & 1u16 == 1u16) || a == b))
        by (bit_vector)
        requires
            a < 16,
            b < 16,
    ;
}

pub proof fn lemma_u16_clear_bit(m: u16, a: u16, b: u16)
    requires
        a < 16,
        b < 16,
    ensures
        ((m & !(1u16 << a)) >> b) & 1u16 == 1u16 <==> (((m >> b) & 1u16 == 1u16) && a != b),
{
    assert(((m & !(1u16 << a)) >> b) & 1u16 == 1u16 <==> (((m >> b) & 1u16 == 1u16) && a != b))
        by (bit_vector)
        requires
            a < 16,
            b < 16,
    ;
}

pub proof fn lemma_u16_bounds(m: u16, a: u16)
    requires
        a < 9,
        m <= 511,
    ensures
        m | (1u16 << a) <= 511,
        m & !(1u16 << a) <= 511,
{
    assert(m | (1u16 << a) <= 511 && m & !(1u16 << a) <= 511) by (bit_vector)
        requires
            a < 9,
            m <= 511,
    ;
}

pub proof fn lemma_u16_zero(b: u16)
    ensures
        (0u16 >> b) & 1u16 != 1u16,
{
    assert((0u16 >> b) & 1u16 != 1u16) by (bit_vector);
}

pub proof fn lemma_u128_set_bit(m: u128, a: u128, b: u128)
    requires
        a < 128,
        b < 128,
    ensures
        ((m | (1u128 << a)) >> b) & 1u128 == 1u128 <==> (((m >> b) & 1u128 == 1u128) || a == b),
{
    assert(((m | (1u128 << a)) >> b) & 1u128 == 1u128 <==> (((m >> b) & 1u128 == 1u128) || a
        == b)) by (bit_vector)
        requires
            a < 128,
            b < 128,
    ;
}

pub proof fn lemma_u128_clear_bit(m: u128, a: u128, b: u128)
    requires
        a < 128,
        b < 128,
    ensures
        ((m & !(1u128 << a)) >> b) & 1u128 == 1u128 <==> (((m >> b) & 1u128 == 1u128) && a != b),
{
    assert(((m & !(1u128 << a)) >> b) & 1u128 == 1u128 <==> (((m >> b) & 1u128 == 1u128) && a
        != b)) by (bit_vector)
        requires
            a < 128,
            b < 128,
    ;
}

pub proof fn lemma_u128_zero(b: u128)
    ensures
        (0u128 >> b) & 1u128 != 1u128,
{
    assert((0u128 >> b) & 1u128 != 1u128) by (bit_vector);
}

} // verus!
