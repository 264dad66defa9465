//! Lemire's method split in two: a pure single attempt and a loop that
//! retries until an attempt succeeds.
use vstd::prelude::*;
use crate::lemire::{
    lemire_accepts, lemire_from_seed, lemire_run, lemma_fresh_draws, lemma_roll_below_bound,
    MAX_ATTEMPTS,
};
use crate::source::{drawn_since, ByteSource, SamplingError};

verus! {

/// Draws bytes from `source` and hands each to [`lemire_from_seed`] until
/// one is kept, then returns the roll of that first kept byte, which lies in
/// `[0, s)`. Bound zero is refused before any byte is drawn.
pub fn roll_using_readable_lemire<S: ByteSource>(s: u8, source: &mut S) -> (r: Result<
    u16,
    SamplingError,
>)
    ensures
        old(source).drawn().is_prefix_of(final(source).drawn()),
        lemire_run(s, drawn_since(old(source).drawn(), final(source).drawn()), r),
        r matches Ok(v) ==> v < s,
        s >= 1 && 256int % (s as int) == 0 ==> r is Ok,
{
    let ghost before = source.drawn();
    if s == 0 {
        assert(drawn_since(before, source.drawn()) =~= Seq::<u8>::empty());
        return Err(SamplingError::InvalidBound);
    }
    let mut attempts: u32 = 0;
    while attempts < MAX_ATTEMPTS
        invariant
            s >= 1,
            attempts <= MAX_ATTEMPTS,
            before == old(source).drawn(),
            before.is_prefix_of(source.drawn()),
            source.drawn().len() == before.len() + attempts,
            forall|i: int|
                before.len() <= i < source.drawn().len() ==> !lemire_accepts(
                    #[trigger] source.drawn()[i],
                    s,
                ),
        decreases MAX_ATTEMPTS - attempts,
    {
        let seed = source.next_byte();
        match lemire_from_seed(seed, s) {
            Some(v) => {
                proof {
                    lemma_roll_below_bound(seed, s);
                    lemma_fresh_draws(s, before, source.drawn());
                }
                return Ok(v);
            },
            None => {},
        }
        attempts = attempts + 1;
    }
    proof {
        lemma_fresh_draws(s, before, source.drawn());
    }
    Err(SamplingError::SourceExhausted)
}

} // verus!
