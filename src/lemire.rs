//! Lemire's nearly-divisionless method for a bound below 256.
//!
//! A byte `seed` and the bound `s` give the product `m = seed * s`. Its high
//! byte `m / 256` is the candidate roll; its low byte `m % 256` decides
//! whether the byte is kept. Exactly `256 % s` of the 256 bytes give a low
//! byte below the floor `256 % s` and are drawn again; the kept bytes spread
//! evenly over `[0, s)`.
use vstd::prelude::*;
use crate::shortcuts::{convert_an_m_to_a_roll_result, modulo_256, two_fifty_six_modulo};
use crate::source::{drawn_since, ByteSource, SamplingError};

verus! {

/// How many bytes a sampler draws at most before it gives up with
/// `SourceExhausted`. With a uniform source each draw is kept with
/// probability above one half, so the limit is never reached in practice.
pub const MAX_ATTEMPTS: u32 = 65536;

/// The product of a byte and the bound.
pub open spec fn product(seed: u8, s: u8) -> int {
    seed as int * s as int
}

/// Whether the byte `seed` is kept for bound `s`: the low byte of the
/// product is at least the floor `256 % s`. With bound zero the product is
/// zero and the byte is kept.
pub open spec fn lemire_accepts(seed: u8, s: u8) -> bool {
    s == 0 || product(seed, s) % 256 >= 256int % (s as int)
}

/// The roll that the byte `seed` stands for: the high byte of the product.
pub open spec fn lemire_roll(seed: u8, s: u8) -> int {
    product(seed, s) / 256
}

/// What one call of a Lemire sampler did, given the bytes `fresh` that it
/// drew, oldest first, and its result `r`:
/// - bound zero is refused, and nothing else is;
/// - every byte drawn but the last was rejected;
/// - a roll is the roll of the last byte drawn, which was kept;
/// - bound zero draws nothing; `SourceExhausted` comes after exactly
///   `MAX_ATTEMPTS` draws, the last of them rejected.
pub open spec fn lemire_run(s: u8, fresh: Seq<u8>, r: Result<u16, SamplingError>) -> bool {
    &&& (s == 0 <==> r == Err::<u16, SamplingError>(SamplingError::InvalidBound))
    &&& forall|i: int| 0 <= i < fresh.len() - 1 ==> !lemire_accepts(#[trigger] fresh[i], s)
    &&& match r {
        Ok(v) => fresh.len() >= 1 && lemire_accepts(fresh.last(), s) && v == lemire_roll(
            fresh.last(),
            s,
        ),
        Err(SamplingError::InvalidBound) => fresh.len() == 0,
        Err(SamplingError::SourceExhausted) => fresh.len() == MAX_ATTEMPTS && !lemire_accepts(
            fresh.last(),
            s,
        ),
    }
}

/// The result of a Lemire sampler is a function of the bytes it drew: two
/// calls that drew the same bytes returned the same result, whichever of
/// the fast, one-trick and readable forms made them.
pub proof fn lemma_lemire_run_is_determined(
    s: u8,
    fresh: Seq<u8>,
    r1: Result<u16, SamplingError>,
    r2: Result<u16, SamplingError>,
)
    requires
        lemire_run(s, fresh, r1),
        lemire_run(s, fresh, r2),
    ensures
        r1 == r2,
{
}

/// A rejected byte in front of the bytes of a call that returned a roll
/// changes nothing but the number of draws: with it the same roll comes out.
pub proof fn lemma_rejected_byte_only_delays(s: u8, b: u8, fresh: Seq<u8>, v: u16)
    requires
        lemire_run(s, fresh, Ok(v)),
        !lemire_accepts(b, s),
    ensures
        lemire_run(s, seq![b] + fresh, Ok(v)),
{
    let longer = seq![b] + fresh;
    assert forall|i: int| 0 <= i < longer.len() - 1 implies !lemire_accepts(#[trigger] longer[i], s) by {
        if i > 0 {
            assert(longer[i] == fresh[i - 1]);
        }
    }
    assert(longer.last() == fresh.last());
}

/// The roll of any byte lies in `[0, s)`.
pub proof fn lemma_roll_below_bound(seed: u8, s: u8)
    requires
        s >= 1,
    ensures
        0 <= lemire_roll(seed, s) < s,
{
    assert(0 <= (seed as int * s as int) / 256 < s as int) by (nonlinear_arith)
        requires
            s >= 1,
            seed <= 255,
    ;
}

/// The bytes, as integers in `[0, 256)`, that Lemire's method keeps for
/// bound `s` and turns into the roll `r`.
pub open spec fn lemire_preimage(s: u8, r: int) -> Set<int> {
    Set::new(|i: int| 0 <= i < 256 && lemire_accepts(i as u8, s) && lemire_roll(i as u8, s) == r)
}

proof fn lemma_scaled_bounds(i: int, k: int, si: int, q: int)
    requires
        si >= 1,
        q >= 0,
    ensures
        i >= k ==> i * si >= k * si,
        i < k ==> i * si <= k * si - si,
        i < k + q ==> i * si <= k * si + q * si - si,
        i >= k + q ==> i * si >= k * si + q * si,
{
    assert(i >= k ==> i * si >= k * si) by (nonlinear_arith)
        requires
            si >= 1,
    ;
    assert(i < k ==> i * si <= k * si - si) by (nonlinear_arith)
        requires
            si >= 1,
    ;
    assert(i < k + q ==> i * si <= k * si + q * si - si) by (nonlinear_arith)
        requires
            si >= 1,
    ;
    assert(i >= k + q ==> i * si >= k * si + q * si) by (nonlinear_arith)
        requires
            si >= 1,
    ;
}

/// Lemire's method is unbiased: for a bound `s` of at least one, every roll
/// `r` in `[0, s)` is the roll of exactly `256 / s` of the kept bytes.
///
/// The kept bytes with roll `r` are those whose product falls in
/// `[256 r + 256 % s, 256 r + 256)`, a stretch of `(256 / s) * s` integers
/// that holds exactly `256 / s` multiples of `s`.
pub proof fn lemma_lemire_is_uniform(s: u8, r: int)
    requires
        s >= 1,
        0 <= r < s,
    ensures
        lemire_preimage(s, r).finite(),
        lemire_preimage(s, r).len() == 256int / (s as int),
{
    let si = s as int;
    let t = 256int % si;
    let q = 256int / si;
    let a = 256 * r + t;
    let k = (a + si - 1) / si;
    vstd::arithmetic::div_mod::lemma_fundamental_div_mod(256, si);
    vstd::arithmetic::div_mod::lemma_fundamental_div_mod(a + si - 1, si);
    assert(0 <= t < si);
    assert(0 <= (a + si - 1) % si < si);
    assert(si * k <= a + si - 1);
    assert(si * k >= a);
    vstd::arithmetic::mul::lemma_mul_is_commutative(si, k);
    vstd::arithmetic::mul::lemma_mul_is_commutative(si, q);
    assert(a + q * si == 256 * r + 256);
    assert(k >= 0) by (nonlinear_arith)
        requires
            si >= 1,
            k * si >= a,
            a >= 0,
    ;
    assert(k + q <= 256) by (nonlinear_arith)
        requires
            si >= 1,
            k * si <= a + si - 1,
            a + q * si == 256 * r + 256,
            r + 1 <= si,
    ;
    let range = vstd::set_lib::set_int_range(k, k + q);
    assert forall|i: int| lemire_preimage(s, r).contains(i) <==> range.contains(i) by {
        lemma_scaled_bounds(i, k, si, q);
        if 0 <= i < 256 {
            let b = i as u8;
            assert(b as int == i);
            assert(product(b, s) == i * si);
            vstd::arithmetic::div_mod::lemma_fundamental_div_mod(i * si, 256);
        }
    }
    assert(lemire_preimage(s, r) =~= range);
    vstd::set_lib::lemma_int_range(k, k + q);
}

fn product_of(seed: u8, s: u8) -> (m: u16)
    ensures
        m == product(seed, s),
{
    assert(seed as int * s as int <= 255 * 255) by (nonlinear_arith)
        requires
            seed <= 255,
            s <= 255,
    ;
    seed as u16 * s as u16
}

/// One attempt of Lemire's method: the roll of `seed`, the high byte of
/// the product `seed * s`, if the byte is kept; `None` if it must be drawn
/// again.
pub fn lemire_from_seed(seed: u8, s: u8) -> (r: Option<u16>)
    ensures
        r == (if lemire_accepts(seed, s) {
            Some(lemire_roll(seed, s) as u16)
        } else {
            None::<u16>
        }),
        s >= 1 ==> (r matches Some(v) ==> v < s),
{
    proof {
        if s >= 1 {
            lemma_roll_below_bound(seed, s);
        }
    }
    let m = product_of(seed, s);
    let l: u8 = (m % 256) as u8;
    if l >= s {
        return Some(convert_an_m_to_a_roll_result(m));
    }
    let floor = two_fifty_six_modulo(s);
    if l < floor {
        None
    } else {
        Some(convert_an_m_to_a_roll_result(m))
    }
}

/// Carries what a sampler's loop knows of the whole history `after` over
/// to the bytes drawn since `before`: their number, their last byte, and
/// that all of them but the last were rejected by Lemire's method.
pub(crate) proof fn lemma_fresh_draws(s: u8, before: Seq<u8>, after: Seq<u8>)
    requires
        before.is_prefix_of(after),
        after.len() > before.len(),
        forall|i: int| before.len() <= i < after.len() - 1 ==> !lemire_accepts(#[trigger] after[i], s),
    ensures
        drawn_since(before, after).len() == after.len() - before.len(),
        drawn_since(before, after).last() == after.last(),
        forall|i: int|
            0 <= i < drawn_since(before, after).len() - 1 ==> !lemire_accepts(
                #[trigger] drawn_since(before, after)[i],
                s,
            ),
{
    let fresh = drawn_since(before, after);
    assert forall|i: int| 0 <= i < fresh.len() - 1 implies !lemire_accepts(#[trigger] fresh[i], s) by {
        assert(fresh[i] == after[before.len() + i]);
    }
}

/// Lemire's method in full: draws bytes from `source` until one is kept and
/// returns the roll of that first kept byte, which lies in `[0, s)`.
///
/// The low byte is taken by truncation and the roll by a shift; the floor
/// `256 % s` is computed only when the low byte is below `s`, since a low
/// byte at or above `s` is always kept. Bound zero is refused before any
/// byte is drawn.
pub fn roll_using_lemire_fast<S: ByteSource>(s: u8, source: &mut S) -> (r: Result<u16, SamplingError>)
    ensures
        old(source).drawn().is_prefix_of(final(source).drawn()),
        lemire_run(s, drawn_since(old(source).drawn(), final(source).drawn()), r),
        r matches Ok(v) ==> v < s,
        s >= 1 && 256int % (s as int) == 0 ==> r is Ok,
{
    let ghost before = source.drawn();
    if s == 0 {
        assert(drawn_since(before, source.drawn()) =~= Seq::<u8>::empty());
        return Err(SamplingError::InvalidBound);
    }
    let seed = source.next_byte();
    let mut m = product_of(seed, s);
    let mut l: u8 = modulo_256(m);
    let ghost mut kept: u8 = seed;
    let mut attempts: u32 = 1;
    if l < s {
        let floor: u8 = two_fifty_six_modulo(s);
        while l < floor
            invariant
                s >= 1,
                floor == 256int % (s as int),
                1 <= attempts <= MAX_ATTEMPTS,
                m == product(kept, s),
                l == m % 256,
                before == old(source).drawn(),
                before == old(source).drawn(),
            before.is_prefix_of(source.drawn()),
                source.drawn().len() == before.len() + attempts,
                source.drawn().last() == kept,
                forall|i: int|
                    before.len() <= i < source.drawn().len() - 1 ==> !lemire_accepts(
                        #[trigger] source.drawn()[i],
                        s,
                    ),
            decreases MAX_ATTEMPTS - attempts,
        {
            if attempts == MAX_ATTEMPTS {
                proof {
                    lemma_fresh_draws(s, before, source.drawn());
                }
                return Err(SamplingError::SourceExhausted);
            }
            let seed = source.next_byte();
            m = product_of(seed, s);
            l = modulo_256(m);
            proof {
                kept = seed;
            }
            attempts = attempts + 1;
        }
    }
    proof {
        lemma_roll_below_bound(kept, s);
        lemma_fresh_draws(s, before, source.drawn());
    }
    Ok(convert_an_m_to_a_roll_result(m))
}

/// Lemire's method with the plain operations: the low byte as `m % 256` and
/// the roll as `m / 256`; otherwise as [`roll_using_lemire_fast`].
pub fn roll_using_lemire_only_one_trick<S: ByteSource>(s: u8, source: &mut S) -> (r: Result<u16, SamplingError>)
    ensures
        old(source).drawn().is_prefix_of(final(source).drawn()),
        lemire_run(s, drawn_since(old(source).drawn(), final(source).drawn()), r),
        r matches Ok(v) ==> v < s,
        s >= 1 && 256int % (s as int) == 0 ==> r is Ok,
{
    let ghost before = source.drawn();
    if s == 0 {
        assert(drawn_since(before, source.drawn()) =~= Seq::<u8>::empty());
        return Err(SamplingError::InvalidBound);
    }
    let seed = source.next_byte();
    let mut m = product_of(seed, s);
    let mut l: u8 = (m % 256) as u8;
    let ghost mut kept: u8 = seed;
    let mut attempts: u32 = 1;
    if l < s {
        let floor: u8 = (u8::MAX - s + 1) % s;
        proof {
            vstd::arithmetic::div_mod::lemma_mod_sub_multiples_vanish(256, s as int);
        }
        while l < floor
            invariant
                s >= 1,
                floor == 256int % (s as int),
                1 <= attempts <= MAX_ATTEMPTS,
                m == product(kept, s),
                l == m % 256,
                before == old(source).drawn(),
                before == old(source).drawn(),
            before.is_prefix_of(source.drawn()),
                source.drawn().len() == before.len() + attempts,
                source.drawn().last() == kept,
                forall|i: int|
                    before.len() <= i < source.drawn().len() - 1 ==> !lemire_accepts(
                        #[trigger] source.drawn()[i],
                        s,
                    ),
            decreases MAX_ATTEMPTS - attempts,
        {
            if attempts == MAX_ATTEMPTS {
                proof {
                    lemma_fresh_draws(s, before, source.drawn());
                }
                return Err(SamplingError::SourceExhausted);
            }
            let seed = source.next_byte();
            m = product_of(seed, s);
            l = (m % 256) as u8;
            proof {
                kept = seed;
            }
            attempts = attempts + 1;
        }
    }
    proof {
        lemma_roll_below_bound(kept, s);
        lemma_fresh_draws(s, before, source.drawn());
    }
    Ok(m / 256)
}

} // verus!
