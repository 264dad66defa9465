//! The classical rejection method: bytes at or above the largest multiple of
//! the bound that is at most 256 are drawn again, the others are reduced
//! modulo the bound.
use vstd::prelude::*;
use crate::lemire::MAX_ATTEMPTS;
use crate::shortcuts::two_fifty_six_modulo;
use crate::source::{drawn_since, ByteSource, SamplingError};

verus! {

/// The ceiling for bound `s`: `256 - 256 % s`, the largest multiple of `s`
/// that is at most 256.
pub open spec fn ceiling_of(s: u8) -> int {
    256 - 256int % (s as int)
}

/// Whether the rejection method keeps the byte `seed` for bound `s`.
pub open spec fn rejection_keeps(seed: u8, s: u8) -> bool {
    (seed as int) < ceiling_of(s)
}

/// What one call of the rejection sampler did, given the bytes `fresh` that
/// it drew, oldest first, and its result `r`:
/// - bound zero is refused, and nothing else is;
/// - every byte drawn but the last lay at or above the ceiling;
/// - a roll is the last byte drawn, which lay below the ceiling, modulo `s`;
/// - bound zero draws nothing; `SourceExhausted` comes after exactly
///   `MAX_ATTEMPTS` draws, the last of them at or above the ceiling.
pub open spec fn rejection_run(s: u8, fresh: Seq<u8>, r: Result<u8, SamplingError>) -> bool {
    &&& (s == 0 <==> r == Err::<u8, SamplingError>(SamplingError::InvalidBound))
    &&& forall|i: int| 0 <= i < fresh.len() - 1 ==> !rejection_keeps(#[trigger] fresh[i], s)
    &&& match r {
        Ok(v) => fresh.len() >= 1 && rejection_keeps(fresh.last(), s) && v as int == fresh.last() as int
            % (s as int),
        Err(SamplingError::InvalidBound) => fresh.len() == 0,
        Err(SamplingError::SourceExhausted) => fresh.len() == MAX_ATTEMPTS && !rejection_keeps(
            fresh.last(),
            s,
        ),
    }
}

/// The result of the rejection sampler is a function of the bytes it drew:
/// two calls that drew the same bytes returned the same result.
pub proof fn lemma_rejection_run_is_determined(
    s: u8,
    fresh: Seq<u8>,
    r1: Result<u8, SamplingError>,
    r2: Result<u8, SamplingError>,
)
    requires
        rejection_run(s, fresh, r1),
        rejection_run(s, fresh, r2),
    ensures
        r1 == r2,
{
}

/// The bytes, as integers in `[0, 256)`, that the rejection method keeps
/// for bound `s` and turns into the roll `r`.
pub open spec fn rejection_preimage(s: u8, r: int) -> Set<int> {
    Set::new(
        |i: int| 0 <= i < 256 && rejection_keeps(i as u8, s) && (i as u8) as int % (s as int) == r,
    )
}

/// The rejection method is unbiased: for a bound `s` of at least one, every
/// roll `r` in `[0, s)` is the remainder of exactly `256 / s` of the kept
/// bytes, namely `r, r + s, ..., r + (256 / s - 1) * s`.
pub proof fn lemma_rejection_is_uniform(s: u8, r: int)
    requires
        s >= 1,
        0 <= r < s,
    ensures
        rejection_preimage(s, r).finite(),
        rejection_preimage(s, r).len() == 256int / (s as int),
{
    let si = s as int;
    let q = 256int / si;
    vstd::arithmetic::div_mod::lemma_fundamental_div_mod(256, si);
    vstd::arithmetic::mul::lemma_mul_is_commutative(si, q);
    assert(ceiling_of(s) == q * si);
    let steps = vstd::set_lib::set_int_range(0, q);
    let f = |j: int| r + j * si;
    assert forall|j1: int, j2: int|
        steps.contains(j1) && steps.contains(j2) && #[trigger] f(j1) == #[trigger] f(j2) implies j1
        == j2 by {
        assert(j1 * si == j2 * si);
        assert(j1 == j2) by (nonlinear_arith)
            requires
                j1 * si == j2 * si,
                si >= 1,
        ;
    }
    assert forall|v: int| rejection_preimage(s, r).contains(v) <==> steps.map(f).contains(v) by {
        if rejection_preimage(s, r).contains(v) {
            let b = v as u8;
            assert(b as int == v);
            vstd::arithmetic::div_mod::lemma_fundamental_div_mod(v, si);
            let j = v / si;
            vstd::arithmetic::mul::lemma_mul_is_commutative(si, j);
            assert(j * si <= v);
            vstd::arithmetic::div_mod::lemma_div_pos_is_pos(v, si);
            assert(j * si < q * si);
            vstd::arithmetic::mul::lemma_mul_strict_inequality_converse(j, q, si);
            assert(steps.contains(j) && f(j) == v);
        }
        if steps.map(f).contains(v) {
            let j = choose|j: int| steps.contains(j) && f(j) == v;
            assert(0 <= j * si <= (q - 1) * si) by (nonlinear_arith)
                requires
                    0 <= j < q,
                    si >= 1,
            ;
            assert((q - 1) * si == q * si - si) by (nonlinear_arith);
            vstd::arithmetic::div_mod::lemma_fundamental_div_mod_converse(v, si, j, r);
            let b = v as u8;
            assert(b as int == v);
        }
    }
    assert(rejection_preimage(s, r) =~= steps.map(f));
    vstd::set_lib::lemma_int_range(0, q);
    vstd::set_lib::lemma_map_size(steps, rejection_preimage(s, r), f);
}

/// The ceiling below which a byte is kept for bound `s`: a multiple of `s`,
/// at most 256, and less than `s` away from 256.
pub fn rejection_ceiling(s: u8) -> (c: u16)
    requires
        s >= 1,
    ensures
        c == ceiling_of(s),
        c % (s as u16) == 0,
        c <= 256,
        256 - c < s,
{
    let floor = two_fifty_six_modulo(s);
    let c = 256 - floor as u16;
    proof {
        vstd::arithmetic::div_mod::lemma_fundamental_div_mod(256, s as int);
        vstd::arithmetic::div_mod::lemma_mod_multiples_basic(256int / (s as int), s as int);
        vstd::arithmetic::mul::lemma_mul_is_commutative(s as int, 256int / (s as int));
    }
    c
}

/// The rejection method in full: draws bytes from `source` until one lies
/// below [`rejection_ceiling`] and returns that first such byte modulo `s`,
/// which lies in `[0, s)`. The ceiling is computed from `s` once, before the
/// first draw. Bound zero is refused before any byte is drawn.
pub fn roll_using_traditional_rejection_method<S: ByteSource>(s: u8, source: &mut S) -> (r: Result<
    u8,
    SamplingError,
>)
    ensures
        old(source).drawn().is_prefix_of(final(source).drawn()),
        rejection_run(s, drawn_since(old(source).drawn(), final(source).drawn()), r),
        r matches Ok(v) ==> v < s,
        s >= 1 && 256int % (s as int) == 0 ==> r is Ok,
{
    let ghost before = source.drawn();
    if s == 0 {
        assert(drawn_since(before, source.drawn()) =~= Seq::<u8>::empty());
        return Err(SamplingError::InvalidBound);
    }
    let ceiling = rejection_ceiling(s);
    let mut attempts: u32 = 0;
    while attempts < MAX_ATTEMPTS
        invariant
            s >= 1,
            ceiling == ceiling_of(s),
            attempts <= MAX_ATTEMPTS,
            before == old(source).drawn(),
            before.is_prefix_of(source.drawn()),
            source.drawn().len() == before.len() + attempts,
            forall|i: int|
                before.len() <= i < source.drawn().len() ==> !rejection_keeps(
                    #[trigger] source.drawn()[i],
                    s,
                ),
        decreases MAX_ATTEMPTS - attempts,
    {
        let seed = source.next_byte();
        if (seed as u16) < ceiling {
            proof {
                lemma_fresh_rejections(s, before, source.drawn());
            }
            return Ok(seed % s);
        }
        attempts = attempts + 1;
    }
    proof {
        lemma_fresh_rejections(s, before, source.drawn());
    }
    Err(SamplingError::SourceExhausted)
}

/// Carries what a sampler's loop knows of the whole history `after` over
/// to the bytes drawn since `before`: their number, their last byte, and
/// that all of them but the last were at or above the ceiling.
proof fn lemma_fresh_rejections(s: u8, before: Seq<u8>, after: Seq<u8>)
    requires
        before.is_prefix_of(after),
        after.len() > before.len(),
        forall|i: int| before.len() <= i < after.len() - 1 ==> !rejection_keeps(#[trigger] after[i], s),
    ensures
        drawn_since(before, after).len() == after.len() - before.len(),
        drawn_since(before, after).last() == after.last(),
        forall|i: int|
            0 <= i < drawn_since(before, after).len() - 1 ==> !rejection_keeps(
                #[trigger] drawn_since(before, after)[i],
                s,
            ),
{
    let fresh = drawn_since(before, after);
    assert forall|i: int| 0 <= i < fresh.len() - 1 implies !rejection_keeps(#[trigger] fresh[i], s) by {
        assert(fresh[i] == after[before.len() + i]);
    }
}

} // verus!
