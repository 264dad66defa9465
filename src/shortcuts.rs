//! Arithmetic shortcuts of the fast path, each proved equal to the plain
//! operation it replaces over its whole domain.
use vstd::prelude::*;

verus! {

/// `256 mod s`, computed without a 16-bit operand as `(255 - s + 1) mod s`.
///
/// This is the rejection floor of Lemire's method: a product whose low byte
/// lies below it must be drawn again.
pub fn two_fifty_six_modulo(s: u8) -> (r: u8)
    requires
        s >= 1,
    ensures
        r == 256int % (s as int),
        r < s,
{
    let r = (u8::MAX - s + 1) % s;
    assert((256 - s as int) % (s as int) == 256int % (s as int)) by (nonlinear_arith)
        requires
            s >= 1,
    {
        vstd::arithmetic::div_mod::lemma_mod_sub_multiples_vanish(256, s as int);
    }
    r
}

/// The roll that a product `m` stands for: `m div 256`, taken as a shift by
/// eight bits.
pub fn convert_an_m_to_a_roll_result(m: u16) -> (r: u16)
    ensures
        r == m / 256,
{
    let r = m >> 8;
    assert(m >> 8 == m / 256) by (bit_vector);
    r
}

/// `m mod 256`, taken as a truncation to the low byte.
pub fn modulo_256(m: u16) -> (r: u8)
    ensures
        r == m % 256,
{
    let r = m as u8;
    assert(m as u8 == m % 256) by (bit_vector);
    r
}

} // verus!
