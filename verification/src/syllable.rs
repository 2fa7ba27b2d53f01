//! One syllable: onset, nucleus and coda.
//!
//! A syllable is built from its three segments in fixed order. Each
//! segment emits up to its configured number of characters, each drawn
//! uniformly from the segment's dictionary; before every character
//! (except a forced first one) the segment draws a continuation
//! decision, and stops with three chances in ten. The nucleus's first
//! character is forced: whenever the nucleus length is positive, every
//! syllable holds at least one nucleus character.

use vstd::prelude::*;
use vstd::string::StringExecFns;

use crate::randomness::draw_next;
use crate::randomness::draw_value;
use crate::randomness::random_index;
use crate::randomness::DrawSequence;
use crate::structure::Structure;

verus! {

/// A continuation decision is drawn uniformly from
/// `[0, DECISION_RANGE)`; draws below [`CONTINUE_THRESHOLD`] continue
/// the segment. Seven chances in ten to continue, three to stop.
pub const DECISION_RANGE: usize = 10;

/// See [`DECISION_RANGE`].
pub const CONTINUE_THRESHOLD: usize = 7;

/// When a syllable can draw only on its onset and coda (a nucleus of
/// length zero), the first decisions of those two segments have one
/// hundred equally likely outcomes, of which three times three leave
/// the syllable empty. The word loop appends syllables until the word
/// is long enough, so an empty syllable would be dropped and drawn
/// again; instead the loop draws from the remaining outcomes directly,
/// which gives the same distribution and a character from every
/// syllable.
const NONEMPTY_OUTCOMES: usize = 91;

/// The outcomes among [`NONEMPTY_OUTCOMES`] in which the onset
/// continues into its first character: seven tenths of the hundred.
const ONSET_FIRST_OUTCOMES: usize = 70;

/// Relies on String::push of std: appends exactly the given character
/// at the end of the string.
#[verifier::external_body]
pub(crate) fn push_char(s: &mut String, c: char)
    ensures
        final(s)@ == old(s)@.push(c),
{
    s.push(c);
}

/// What one segment emits when its draws come from a [`DrawSequence`]
/// at position `pos`: the emitted characters and the position after
/// them. `rem` is how many characters the segment may still emit;
/// `forced` says that the next character is emitted without a
/// continuation decision.
pub open spec fn segment_model(
    dict: Seq<char>,
    rem: int,
    forced: bool,
    tape: Seq<usize>,
    pos: int,
) -> (Seq<char>, int)
    decreases rem,
{
    if rem <= 0 {
        (Seq::<char>::empty(), pos)
    } else if forced {
        let i = draw_value(tape, pos, 0, dict.len() as int);
        let p1 = draw_next(tape, pos);
        let rest = segment_model(dict, rem - 1, false, tape, p1);
        (seq![dict[i]] + rest.0, rest.1)
    } else {
        let dec = draw_value(tape, pos, 0, DECISION_RANGE as int);
        let p1 = draw_next(tape, pos);
        if dec >= CONTINUE_THRESHOLD as int {
            (Seq::<char>::empty(), p1)
        } else {
            let i = draw_value(tape, p1, 0, dict.len() as int);
            let p2 = draw_next(tape, p1);
            let rest = segment_model(dict, rem - 1, false, tape, p2);
            (seq![dict[i]] + rest.0, rest.1)
        }
    }
}

/// What one syllable is when its draws come from a [`DrawSequence`] at
/// position `pos`: onset, then nucleus (first character forced), then
/// coda, and the position after all three.
pub open spec fn syllable_model(s: Structure, tape: Seq<usize>, pos: int) -> (Seq<char>, int) {
    let o = segment_model(s.onset_dict@, s.onset as int, false, tape, pos);
    let n = segment_model(s.nucleus_dict@, s.nucleus as int, true, tape, o.1);
    let c = segment_model(s.coda_dict@, s.coda as int, false, tape, n.1);
    (o.0 + n.0 + c.0, c.1)
}

/// A segment leaves the draw position between where it started and the
/// end of the recorded values, emits at most `rem` characters, and
/// emits at least one when its first character is forced.
pub proof fn lemma_segment_bounds(
    dict: Seq<char>,
    rem: int,
    forced: bool,
    tape: Seq<usize>,
    pos: int,
)
    requires
        0 <= pos <= tape.len(),
    ensures
        ({
            let r = segment_model(dict, rem, forced, tape, pos);
            &&& pos <= r.1 <= tape.len()
            &&& r.0.len() <= (if rem > 0 { rem } else { 0 })
            &&& (rem > 0 && forced) ==> r.0.len() >= 1
        }),
    decreases rem,
{
    if rem > 0 {
        if forced {
            let p1 = draw_next(tape, pos);
            lemma_segment_bounds(dict, rem - 1, false, tape, p1);
        } else {
            let dec = draw_value(tape, pos, 0, DECISION_RANGE as int);
            let p1 = draw_next(tape, pos);
            if dec < CONTINUE_THRESHOLD as int {
                let p2 = draw_next(tape, p1);
                lemma_segment_bounds(dict, rem - 1, false, tape, p2);
            }
        }
    }
}

/// Every character a segment emits comes from its dictionary.
pub proof fn lemma_segment_chars(
    dict: Seq<char>,
    rem: int,
    forced: bool,
    tape: Seq<usize>,
    pos: int,
)
    requires
        rem > 0 ==> dict.len() > 0,
    ensures
        ({
            let r = segment_model(dict, rem, forced, tape, pos);
            forall|j: int| 0 <= j < r.0.len() ==> dict.contains(#[trigger] r.0[j])
        }),
    decreases rem,
{
    if rem > 0 {
        let r = segment_model(dict, rem, forced, tape, pos);
        if forced {
            let i = draw_value(tape, pos, 0, dict.len() as int);
            let p1 = draw_next(tape, pos);
            let rest = segment_model(dict, rem - 1, false, tape, p1);
            lemma_segment_chars(dict, rem - 1, false, tape, p1);
            assert forall|j: int| 0 <= j < r.0.len() implies dict.contains(#[trigger] r.0[j]) by {
                if j == 0 {
                    assert(r.0[j] == dict[i]);
                } else {
                    assert(r.0[j] == rest.0[j - 1]);
                }
            }
        } else {
            let dec = draw_value(tape, pos, 0, DECISION_RANGE as int);
            let p1 = draw_next(tape, pos);
            if dec < CONTINUE_THRESHOLD as int {
                let i = draw_value(tape, p1, 0, dict.len() as int);
                let p2 = draw_next(tape, p1);
                let rest = segment_model(dict, rem - 1, false, tape, p2);
                lemma_segment_chars(dict, rem - 1, false, tape, p2);
                assert forall|j: int| 0 <= j < r.0.len() implies dict.contains(
                    #[trigger] r.0[j],
                ) by {
                    if j == 0 {
                        assert(r.0[j] == dict[i]);
                    } else {
                        assert(r.0[j] == rest.0[j - 1]);
                    }
                }
            }
        }
    }
}

/// A segment that may still emit either advances the draw position or
/// emits a character: used up draws fall back to the range's lower
/// end, which is a decision to continue.
pub proof fn lemma_segment_progress(
    dict: Seq<char>,
    rem: int,
    forced: bool,
    tape: Seq<usize>,
    pos: int,
)
    requires
        rem > 0,
        0 <= pos <= tape.len(),
    ensures
        ({
            let r = segment_model(dict, rem, forced, tape, pos);
            r.1 > pos || r.0.len() >= 1
        }),
{
}

/// One segment, drawing from a [`DrawSequence`]: emits exactly what
/// [`segment_model`] says for the sequence's current position.
pub(crate) fn segment_with(
    dict: &Vec<char>,
    max: usize,
    forced: bool,
    d: &mut DrawSequence,
) -> (part: String)
    requires
        max > 0 ==> dict@.len() > 0,
        old(d).wf(),
    ensures
        final(d).wf(),
        final(d).values@ == old(d).values@,
        (part@, final(d).pos as int) == segment_model(
            dict@,
            max as int,
            forced,
            old(d).values@,
            old(d).pos as int,
        ),
{
    let ghost tape = d.values@;
    let ghost pos0 = d.pos as int;
    let mut part = String::new();
    let mut n: usize = 0;
    while n < max
        invariant_except_break
            ({
                let rest = segment_model(
                    dict@,
                    max - n,
                    forced && n == 0,
                    tape,
                    d.pos as int,
                );
                segment_model(dict@, max as int, forced, tape, pos0) == (
                    part@ + rest.0,
                    rest.1,
                )
            }),
        invariant
            n <= max,
            max > 0 ==> dict@.len() > 0,
            d.wf(),
            d.values@ == tape,
        ensures
            d.wf(),
            d.values@ == tape,
            (part@, d.pos as int) == segment_model(dict@, max as int, forced, tape, pos0),
        decreases max - n,
    {
        if !(forced && n == 0) {
            let dec = d.next_in(0, DECISION_RANGE);
            if dec >= CONTINUE_THRESHOLD {
                proof {
                    assert(part@ + Seq::<char>::empty() =~= part@);
                }
                break;
            }
        }
        let i = d.next_in(0, dict.len());
        let c = dict[i];
        let ghost before = part@;
        push_char(&mut part, c);
        n = n + 1;
        proof {
            let rest = segment_model(dict@, max - n, false, tape, d.pos as int);
            assert(before.push(c) + rest.0 =~= before + (seq![c] + rest.0));
        }
    }
    proof {
        assert(part@ + Seq::<char>::empty() =~= part@);
    }
    part
}

/// One segment, drawing from the thread-local random generator. The
/// contract states what holds of every outcome: at most `max`
/// characters, all from `dict`, and at least one when the first is
/// forced.
pub(crate) fn random_segment(dict: &Vec<char>, max: usize, forced: bool) -> (part: String)
    requires
        max > 0 ==> dict@.len() > 0,
    ensures
        part@.len() <= max,
        forall|j: int| 0 <= j < part@.len() ==> dict@.contains(#[trigger] part@[j]),
        (forced && max > 0) ==> part@.len() >= 1,
{
    let mut part = String::new();
    let mut n: usize = 0;
    while n < max
        invariant
            n <= max,
            max > 0 ==> dict@.len() > 0,
            part@.len() <= n,
            forall|j: int| 0 <= j < part@.len() ==> dict@.contains(#[trigger] part@[j]),
            (forced && n > 0) ==> part@.len() >= 1,
        ensures
            part@.len() <= max,
            forall|j: int| 0 <= j < part@.len() ==> dict@.contains(#[trigger] part@[j]),
            (forced && max > 0) ==> part@.len() >= 1,
        decreases max - n,
    {
        if !(forced && n == 0) {
            let dec = random_index(0, DECISION_RANGE);
            if dec >= CONTINUE_THRESHOLD {
                break;
            }
        }
        let i = random_index(0, dict.len());
        push_char(&mut part, dict[i]);
        n = n + 1;
    }
    part
}

/// A syllable leaves the draw position between where it started and
/// the end of the recorded values; and as long as some segment has a
/// positive length, it advances the position or emits a character.
pub proof fn lemma_syllable_model_bounds(s: Structure, tape: Seq<usize>, pos: int)
    requires
        0 <= pos <= tape.len(),
    ensures
        ({
            let r = syllable_model(s, tape, pos);
            &&& pos <= r.1 <= tape.len()
            &&& s.has_segment() ==> (r.1 > pos || r.0.len() >= 1)
        }),
{
    let o = segment_model(s.onset_dict@, s.onset as int, false, tape, pos);
    lemma_segment_bounds(s.onset_dict@, s.onset as int, false, tape, pos);
    let n = segment_model(s.nucleus_dict@, s.nucleus as int, true, tape, o.1);
    lemma_segment_bounds(s.nucleus_dict@, s.nucleus as int, true, tape, o.1);
    let c = segment_model(s.coda_dict@, s.coda as int, false, tape, n.1);
    lemma_segment_bounds(s.coda_dict@, s.coda as int, false, tape, n.1);
    if s.onset > 0 {
        lemma_segment_progress(s.onset_dict@, s.onset as int, false, tape, pos);
    } else if s.nucleus > 0 {
        lemma_segment_progress(s.nucleus_dict@, s.nucleus as int, true, tape, o.1);
    } else if s.coda > 0 {
        lemma_segment_progress(s.coda_dict@, s.coda as int, false, tape, n.1);
    }
}

/// Every character of a syllable belongs to the union of the three
/// dictionaries.
pub proof fn lemma_syllable_model_in_pool(s: Structure, tape: Seq<usize>, pos: int)
    requires
        s.dicts_ok(),
    ensures
        ({
            let r = syllable_model(s, tape, pos);
            forall|j: int| 0 <= j < r.0.len() ==> s.in_pool(#[trigger] r.0[j])
        }),
{
    let o = segment_model(s.onset_dict@, s.onset as int, false, tape, pos);
    let n = segment_model(s.nucleus_dict@, s.nucleus as int, true, tape, o.1);
    let c = segment_model(s.coda_dict@, s.coda as int, false, tape, n.1);
    lemma_segment_chars(s.onset_dict@, s.onset as int, false, tape, pos);
    lemma_segment_chars(s.nucleus_dict@, s.nucleus as int, true, tape, o.1);
    lemma_segment_chars(s.coda_dict@, s.coda as int, false, tape, n.1);
    let r = syllable_model(s, tape, pos);
    assert forall|j: int| 0 <= j < r.0.len() implies s.in_pool(#[trigger] r.0[j]) by {
        if j < o.0.len() {
            assert(r.0[j] == o.0[j]);
        } else if j < o.0.len() + n.0.len() {
            assert(r.0[j] == n.0[j - o.0.len()]);
        } else {
            assert(r.0[j] == c.0[j - o.0.len() - n.0.len()]);
        }
    }
}

/// Whenever the nucleus length is positive, a syllable holds at least
/// one character, and one of its characters comes from the nucleus
/// dictionary.
pub proof fn lemma_syllable_model_nucleus(s: Structure, tape: Seq<usize>, pos: int)
    requires
        s.dicts_ok(),
        s.nucleus > 0,
        0 <= pos <= tape.len(),
    ensures
        ({
            let r = syllable_model(s, tape, pos);
            &&& r.0.len() >= 1
            &&& exists|j: int|
                0 <= j < r.0.len() && s.nucleus_dict@.contains(#[trigger] r.0[j])
        }),
{
    let o = segment_model(s.onset_dict@, s.onset as int, false, tape, pos);
    let n = segment_model(s.nucleus_dict@, s.nucleus as int, true, tape, o.1);
    lemma_segment_bounds(s.onset_dict@, s.onset as int, false, tape, pos);
    lemma_segment_bounds(s.nucleus_dict@, s.nucleus as int, true, tape, o.1);
    lemma_segment_chars(s.nucleus_dict@, s.nucleus as int, true, tape, o.1);
    let r = syllable_model(s, tape, pos);
    assert(r.0[o.0.len() as int] == n.0[0]);
    assert(s.nucleus_dict@.contains(r.0[o.0.len() as int]));
}

impl Structure {
    /// One syllable, drawing from a [`DrawSequence`]: exactly what
    /// [`syllable_model`] says for the sequence's current position, so
    /// equal structures and equal sequences give equal syllables.
    pub fn syllable_with(&self, d: &mut DrawSequence) -> (syl: String)
        requires
            self.dicts_ok(),
            old(d).wf(),
        ensures
            final(d).wf(),
            final(d).values@ == old(d).values@,
            (syl@, final(d).pos as int) == syllable_model(
                *self,
                old(d).values@,
                old(d).pos as int,
            ),
    {
        let mut syl = segment_with(&self.onset_dict, self.onset, false, d);
        let nuc = segment_with(&self.nucleus_dict, self.nucleus, true, d);
        let cod = segment_with(&self.coda_dict, self.coda, false, d);
        syl.append(nuc.as_str());
        syl.append(cod.as_str());
        syl
    }

    /// One syllable, drawing from the thread-local random generator.
    /// The contract states what holds of every outcome.
    pub fn syllable(&self) -> (syl: String)
        requires
            self.dicts_ok(),
        ensures
            syl@.len() <= self.onset + self.nucleus + self.coda,
            forall|j: int| 0 <= j < syl@.len() ==> self.in_pool(#[trigger] syl@[j]),
            self.nucleus > 0 ==> syl@.len() >= 1,
            self.nucleus > 0 ==> exists|j: int|
                0 <= j < syl@.len() && self.nucleus_dict@.contains(#[trigger] syl@[j]),
    {
        let mut syl = random_segment(&self.onset_dict, self.onset, false);
        let nuc = random_segment(&self.nucleus_dict, self.nucleus, true);
        let cod = random_segment(&self.coda_dict, self.coda, false);
        let ghost ov = syl@;
        let ghost nv = nuc@;
        let ghost cv = cod@;
        syl.append(nuc.as_str());
        syl.append(cod.as_str());
        proof {
            assert(syl@ == ov + nv + cv);
            assert forall|j: int| 0 <= j < syl@.len() implies self.in_pool(
                #[trigger] syl@[j],
            ) by {
                if j < ov.len() {
                    assert(syl@[j] == ov[j]);
                } else if j < ov.len() + nv.len() {
                    assert(syl@[j] == nv[j - ov.len()]);
                } else {
                    assert(syl@[j] == cv[j - ov.len() - nv.len()]);
                }
            }
            if self.nucleus > 0 {
                assert(syl@[ov.len() as int] == nv[0]);
                assert(self.nucleus_dict@.contains(syl@[ov.len() as int]));
            }
        }
        syl
    }

    /// One random syllable that is never empty: what the retry of
    /// empty syllables in the word loop amounts to, drawn in one go
    /// (see [`NONEMPTY_OUTCOMES`]). With a positive nucleus length the
    /// plain machine already emits at least one character and runs
    /// unchanged.
    pub(crate) fn syllable_nonempty(&self) -> (syl: String)
        requires
            self.dicts_ok(),
            self.has_segment(),
        ensures
            1 <= syl@.len() <= self.onset + self.nucleus + self.coda,
            forall|j: int| 0 <= j < syl@.len() ==> self.in_pool(#[trigger] syl@[j]),
            self.nucleus > 0 ==> exists|j: int|
                0 <= j < syl@.len() && self.nucleus_dict@.contains(#[trigger] syl@[j]),
    {
        if self.nucleus > 0 {
            self.syllable()
        } else if self.onset > 0 && self.coda > 0 {
            let first = random_index(0, NONEMPTY_OUTCOMES);
            if first < ONSET_FIRST_OUTCOMES {
                let mut syl = random_segment(&self.onset_dict, self.onset, true);
                let cod = random_segment(&self.coda_dict, self.coda, false);
                let ghost ov = syl@;
                let ghost cv = cod@;
                syl.append(cod.as_str());
                proof {
                    assert forall|j: int| 0 <= j < syl@.len() implies self.in_pool(
                        #[trigger] syl@[j],
                    ) by {
                        if j < ov.len() {
                            assert(syl@[j] == ov[j]);
                        } else {
                            assert(syl@[j] == cv[j - ov.len()]);
                        }
                    }
                }
                syl
            } else {
                random_segment(&self.coda_dict, self.coda, true)
            }
        } else if self.onset > 0 {
            random_segment(&self.onset_dict, self.onset, true)
        } else {
            random_segment(&self.coda_dict, self.coda, true)
        }
    }
}

} // verus!
