//! Where the samplers get their bytes, and how a sampling call can fail.
use vstd::prelude::*;

verus! {

/// Why a sampling call returned no roll.
#[derive(Debug, Clone, Copy, PartialEq, Eq, Structural)]
pub enum SamplingError {
    /// The bound was zero: the range `[0, 0)` is empty.
    InvalidBound,
    /// Every byte drawn within the attempt limit was rejected.
    SourceExhausted,
}

/// A supplier of bytes, each meant to be uniform over `0..=255` and
/// independent of the others.
///
/// The samplers take nothing for granted about the values of the bytes:
/// their contracts are stated over [`ByteSource::drawn`], the bytes handed
/// out so far, whatever they are.
pub trait ByteSource {
    /// Every byte handed out so far, oldest first.
    spec fn drawn(&self) -> Seq<u8>;

    /// Draws the next byte.
    fn next_byte(&mut self) -> (b: u8)
        ensures
            final(self).drawn() == old(self).drawn().push(b),
    ;
}

/// The bytes that `after` holds beyond its prefix `before`: what a call drew
/// when the source's history went from `before` to `after`.
pub open spec fn drawn_since(before: Seq<u8>, after: Seq<u8>) -> Seq<u8> {
    after.skip(before.len() as int)
}

/// Bytes drawn from `rand`'s thread-local generator.
pub struct RandomBytes {
    history: Ghost<Seq<u8>>,
}

impl RandomBytes {
    /// A source that has drawn nothing yet.
    pub fn new() -> (r: RandomBytes)
        ensures
            r.drawn() == Seq::<u8>::empty(),
    {
        RandomBytes { history: Ghost(Seq::empty()) }
    }
}

impl ByteSource for RandomBytes {
    closed spec fn drawn(&self) -> Seq<u8> {
        self.history@
    }

    fn next_byte(&mut self) -> (b: u8) {
        let b = random_byte();
        self.history = Ghost(self.history@.push(b));
        b
    }
}

/// Relies on `rand::random::<u8>`, which draws one byte from the thread-local
/// generator. Nothing is promised of its value.
#[verifier::external_body]
fn random_byte() -> u8 {
    rand::random::<u8>()
}

/// Where a [`ReplayBytes`] stands in its recording, and what it has handed
/// out so far.
struct Cursor {
    next: usize,
    history: Ghost<Seq<u8>>,
}

/// Bytes replayed from a recording: its bytes in order, starting over after
/// the last one. Useful to rerun a sampler on the bytes of an earlier run.
pub struct ReplayBytes {
    recording: Vec<u8>,
    cursor: Cursor,
}

impl ReplayBytes {
    #[verifier::type_invariant]
    spec fn well_formed(self) -> bool {
        &&& self.recording.len() > 0
        &&& self.cursor.next < self.recording.len()
        &&& self.cursor.next == self.cursor.history@.len() % (self.recording.len() as nat)
        &&& forall|i: int|
            0 <= i < self.cursor.history@.len() ==> #[trigger] self.cursor.history@[i]
                == self.recording@[i % (self.recording.len() as int)]
    }

    /// The recording that is replayed.
    pub closed spec fn recording(&self) -> Seq<u8> {
        self.recording@
    }

    /// A source that replays `recording` from its first byte.
    pub fn new(recording: Vec<u8>) -> (r: ReplayBytes)
        requires
            recording.len() > 0,
        ensures
            r.drawn() == Seq::<u8>::empty(),
            r.recording() == recording@,
    {
        proof {
            vstd::arithmetic::div_mod::lemma_small_mod(0, recording.len() as nat);
        }
        ReplayBytes { recording, cursor: Cursor { next: 0, history: Ghost(Seq::empty()) } }
    }
}

impl ByteSource for ReplayBytes {
    closed spec fn drawn(&self) -> Seq<u8> {
        self.cursor.history@
    }

    /// Hands out the byte of the recording at the place reached, the places
    /// counted from the start of the recording over and over.
    fn next_byte(&mut self) -> (b: u8)
        ensures
            final(self).recording() == old(self).recording(),
            b == old(self).recording()[(old(self).drawn().len() % old(self).recording().len()) as int],
    {
        proof {
            use_type_invariant(&*self);
        }
        let len = self.recording.len();
        let i = self.cursor.next;
        let b = self.recording[i];
        let next = if i + 1 == len {
            0
        } else {
            i + 1
        };
        let ghost h = self.cursor.history@;
        proof {
            let q = h.len() as int / len as int;
            vstd::arithmetic::div_mod::lemma_fundamental_div_mod(h.len() as int, len as int);
            if i + 1 == len {
                assert(h.len() + 1 == (q + 1) * len) by (nonlinear_arith)
                    requires
                        h.len() == len * q + i,
                        i + 1 == len,
                ;
                vstd::arithmetic::div_mod::lemma_fundamental_div_mod_converse(
                    h.len() + 1int,
                    len as int,
                    q + 1,
                    0,
                );
            } else {
                vstd::arithmetic::mul::lemma_mul_is_commutative(len as int, q);
                vstd::arithmetic::div_mod::lemma_fundamental_div_mod_converse(
                    h.len() + 1int,
                    len as int,
                    q,
                    i + 1,
                );
            }
            assert(h.push(b)[h.len() as int] == b);
        }
        self.cursor = Cursor { next, history: Ghost(h.push(b)) };
        b
    }
}

} // verus!
