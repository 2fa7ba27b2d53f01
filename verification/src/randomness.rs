//! Sources of uniform draws for generation.
//!
//! Generation needs one primitive: a uniformly drawn integer from a
//! half-open range. [`random_index`] takes it from the thread-local
//! generator of the `rand` crate; [`DrawSequence`] replays a
//! caller-supplied list of values instead, so that generation can be
//! driven deterministically, for reproducible output and for tests.

use vstd::prelude::*;
use rand::Rng;

verus! {

/// Relies on rand::Rng::gen_range over the half-open range `lo..hi`,
/// on rand::thread_rng: the result lies in `[lo, hi)`. The call panics
/// only on an empty range, which the precondition rules out. Nothing
/// more is assumed: the draw is random, so two calls with the same
/// arguments may differ.
#[verifier::external_body]
pub(crate) fn random_index(lo: usize, hi: usize) -> (r: usize)
    requires
        lo < hi,
    ensures
        lo <= r < hi,
{
    rand::thread_rng().gen_range(lo..hi)
}

/// The value a [`DrawSequence`] yields at `pos` when asked for a draw
/// from `[lo, hi)`: the recorded value if there is one and it lies in
/// the range, and `lo` otherwise.
pub open spec fn draw_value(tape: Seq<usize>, pos: int, lo: int, hi: int) -> int {
    if 0 <= pos < tape.len() && lo <= tape[pos] < hi {
        tape[pos] as int
    } else {
        lo
    }
}

/// The position of a [`DrawSequence`] after one draw at `pos`: the
/// next recorded value, or `pos` itself once the list is used up.
pub open spec fn draw_next(tape: Seq<usize>, pos: int) -> int {
    if pos < tape.len() {
        pos + 1
    } else {
        pos
    }
}

/// A deterministic source of draws: a recorded list of values handed
/// out in order. A recorded value that does not fit the requested
/// range is replaced by the range's lower end, and once the list is
/// used up every further draw is the lower end; so a finite list
/// drives any number of draws, and what generation returns is a
/// function of the structure and this list alone.
pub struct DrawSequence {
    /// The recorded values, handed out from the front.
    pub values: Vec<usize>,
    /// How many values have been handed out.
    pub pos: usize,
}

impl DrawSequence {
    /// The position has not run past the recorded values.
    pub open spec fn wf(&self) -> bool {
        self.pos <= self.values@.len()
    }

    /// A source that replays `values` from the start.
    pub fn new(values: Vec<usize>) -> (r: DrawSequence)
        ensures
            r.values@ == values@,
            r.pos == 0,
            r.wf(),
    {
        DrawSequence { values, pos: 0 }
    }

    /// The next draw, asked from `[lo, hi)`.
    pub fn next_in(&mut self, lo: usize, hi: usize) -> (r: usize)
        requires
            lo < hi,
            old(self).wf(),
        ensures
            final(self).wf(),
            final(self).values@ == old(self).values@,
            final(self).pos == draw_next(old(self).values@, old(self).pos as int),
            r == draw_value(old(self).values@, old(self).pos as int, lo as int, hi as int),
            lo <= r < hi,
    {
        if self.pos < self.values.len() {
            let v = self.values[self.pos];
            self.pos = self.pos + 1;
            if lo <= v && v < hi {
                v
            } else {
                lo
            }
        } else {
            lo
        }
    }
}

} // verus!
