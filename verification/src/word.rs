//! One word: syllables appended until a target length is reached.
//!
//! The target length is drawn uniformly from
//! `min_len..suggested_len`; syllables are then appended whole until
//! the word has at least that many characters. Since a syllable is
//! never split, the word may come out longer than the target; it is
//! never shorter than `min_len`.

use vstd::prelude::*;
use vstd::string::StrSliceExecFns;
use vstd::string::StringExecFns;

use crate::randomness::draw_next;
use crate::randomness::draw_value;
use crate::randomness::random_index;
use crate::randomness::DrawSequence;
use crate::structure::ConfigError;
use crate::structure::Structure;
use crate::syllable::lemma_syllable_model_bounds;
use crate::syllable::lemma_syllable_model_in_pool;
use crate::syllable::syllable_model;

verus! {

/// How many characters are still missing from a word of length `have`
/// aiming at `target`.
pub open spec fn chars_needed(target: int, have: int) -> int {
    if have >= target {
        0
    } else {
        target - have
    }
}

/// The word that grows from `acc` when every syllable comes from
/// [`syllable_model`] on the given draws, until `target` characters
/// are reached, and the draw position after it. Each round either
/// consumes a draw or lengthens the word, so the recursion ends.
pub open spec fn word_rec(
    s: Structure,
    tape: Seq<usize>,
    pos: int,
    acc: Seq<char>,
    target: int,
) -> (Seq<char>, int)
    decreases tape.len() - pos, chars_needed(target, acc.len() as int),
        when s.is_valid() && 0 <= pos <= tape.len()
        via word_rec_decreases
{
    if acc.len() >= target {
        (acc, pos)
    } else {
        let syl = syllable_model(s, tape, pos);
        word_rec(s, tape, syl.1, acc + syl.0, target)
    }
}

#[via_fn]
proof fn word_rec_decreases(s: Structure, tape: Seq<usize>, pos: int, acc: Seq<char>, target: int) {
    if s.is_valid() && 0 <= pos <= tape.len() && acc.len() < target {
        lemma_syllable_model_bounds(s, tape, pos);
    }
}

/// What word generation returns when its draws come from a
/// [`DrawSequence`] at position `pos`: the target length is drawn
/// first, then [`word_rec`] builds the word from nothing.
pub open spec fn word_model(s: Structure, tape: Seq<usize>, pos: int) -> (Seq<char>, int) {
    let target = draw_value(tape, pos, s.min_len as int, s.suggested_len as int);
    let p1 = draw_next(tape, pos);
    word_rec(s, tape, p1, Seq::<char>::empty(), target)
}

/// A word built by [`word_rec`] reaches the target length, and all of
/// its characters beyond those of `acc` come from the dictionaries.
pub proof fn lemma_word_rec_props(
    s: Structure,
    tape: Seq<usize>,
    pos: int,
    acc: Seq<char>,
    target: int,
)
    requires
        s.is_valid(),
        0 <= pos <= tape.len(),
        forall|j: int| 0 <= j < acc.len() ==> s.in_pool(#[trigger] acc[j]),
    ensures
        ({
            let r = word_rec(s, tape, pos, acc, target);
            &&& r.0.len() >= target
            &&& forall|j: int| 0 <= j < r.0.len() ==> s.in_pool(#[trigger] r.0[j])
        }),
    decreases tape.len() - pos, chars_needed(target, acc.len() as int),
{
    if acc.len() < target {
        let syl = syllable_model(s, tape, pos);
        lemma_syllable_model_bounds(s, tape, pos);
        lemma_syllable_model_in_pool(s, tape, pos);
        assert forall|j: int| 0 <= j < (acc + syl.0).len() implies s.in_pool(
            #[trigger] (acc + syl.0)[j],
        ) by {
            if j < acc.len() {
                assert((acc + syl.0)[j] == acc[j]);
            } else {
                assert((acc + syl.0)[j] == syl.0[j - acc.len()]);
            }
        }
        lemma_word_rec_props(s, tape, syl.1, acc + syl.0, target);
    }
}

/// The length of a word from [`word_model`] is at least `min_len`:
/// the drawn target is, and [`word_rec`] reaches the target.
pub proof fn lemma_word_model_len(s: Structure, tape: Seq<usize>, pos: int)
    requires
        s.is_valid(),
        0 <= pos <= tape.len(),
    ensures
        word_model(s, tape, pos).0.len() >= s.min_len,
{
    let target = draw_value(tape, pos, s.min_len as int, s.suggested_len as int);
    let p1 = draw_next(tape, pos);
    lemma_word_rec_props(s, tape, p1, Seq::<char>::empty(), target);
}

/// Every character of a word from [`word_model`] belongs to the union
/// of the three dictionaries.
pub proof fn lemma_word_model_in_pool(s: Structure, tape: Seq<usize>, pos: int)
    requires
        s.is_valid(),
        0 <= pos <= tape.len(),
    ensures
        ({
            let r = word_model(s, tape, pos);
            forall|j: int| 0 <= j < r.0.len() ==> s.in_pool(#[trigger] r.0[j])
        }),
{
    let target = draw_value(tape, pos, s.min_len as int, s.suggested_len as int);
    let p1 = draw_next(tape, pos);
    lemma_word_rec_props(s, tape, p1, Seq::<char>::empty(), target);
}

/// Generation from a draw sequence is deterministic: two sequences
/// that record the same values and stand at the same position drive
/// generation of the same word, whose value
/// [`Structure::generate_with`] pins to [`word_model`].
pub proof fn lemma_generation_deterministic(s: Structure, d1: DrawSequence, d2: DrawSequence)
    requires
        d1.values@ == d2.values@,
        d1.pos == d2.pos,
    ensures
        word_model(s, d1.values@, d1.pos as int) == word_model(s, d2.values@, d2.pos as int),
{
}

impl Structure {
    /// One word, drawing from the thread-local random generator.
    ///
    /// Fails exactly when [`Structure::validate`] does, with the same
    /// error. A returned word has at least `min_len` characters, all
    /// of them from the union of the three dictionaries.
    pub fn generate(&self) -> (r: Result<String, ConfigError>)
        ensures
            r is Ok <==> self.is_valid(),
            r is Err ==> r->Err_0 == self.validate_spec()->Err_0,
            r matches Ok(w) ==> w@.len() >= self.min_len,
            r matches Ok(w) ==> w@.len() < self.suggested_len + self.onset + self.nucleus
                + self.coda,
            r matches Ok(w) ==> forall|j: int|
                0 <= j < w@.len() ==> self.in_pool(#[trigger] w@[j]),
    {
        if let Err(e) = self.validate() {
            return Err(e);
        }
        let target = random_index(self.min_len, self.suggested_len);
        let mut word = String::new();
        loop
            invariant
                self.is_valid(),
                self.min_len <= target < self.suggested_len,
                word@.len() < target + self.onset + self.nucleus + self.coda,
                forall|j: int| 0 <= j < word@.len() ==> self.in_pool(#[trigger] word@[j]),
            ensures
                target <= word@.len() < target + self.onset + self.nucleus + self.coda,
                forall|j: int| 0 <= j < word@.len() ==> self.in_pool(#[trigger] word@[j]),
            decreases chars_needed(target as int, word@.len() as int),
        {
            let have = word.as_str().unicode_len();
            if have >= target {
                break;
            }
            let syl = self.syllable_nonempty();
            let ghost wv = word@;
            let ghost sv = syl@;
            word.append(syl.as_str());
            proof {
                assert forall|j: int| 0 <= j < word@.len() implies self.in_pool(
                    #[trigger] word@[j],
                ) by {
                    if j < wv.len() {
                        assert(word@[j] == wv[j]);
                    } else {
                        assert(word@[j] == sv[j - wv.len()]);
                    }
                }
            }
        }
        Ok(word)
    }

    /// One word, drawing from a [`DrawSequence`]: exactly what
    /// [`word_model`] says for the sequence's current position, so
    /// equal structures and equal sequences give equal words.
    ///
    /// Fails exactly when [`Structure::validate`] does, with the same
    /// error, and then leaves the sequence untouched.
    pub fn generate_with(&self, d: &mut DrawSequence) -> (r: Result<String, ConfigError>)
        requires
            old(d).wf(),
        ensures
            final(d).wf(),
            final(d).values@ == old(d).values@,
            r is Ok <==> self.is_valid(),
            r is Err ==> final(d).pos == old(d).pos && r->Err_0 == self.validate_spec()->Err_0,
            self.is_valid() ==> ({
                let m = word_model(*self, old(d).values@, old(d).pos as int);
                r matches Ok(w) && w@ == m.0 && final(d).pos as int == m.1
            }),
            r matches Ok(w) ==> w@.len() >= self.min_len,
            r matches Ok(w) ==> forall|j: int|
                0 <= j < w@.len() ==> self.in_pool(#[trigger] w@[j]),
    {
        if let Err(e) = self.validate() {
            return Err(e);
        }
        let target = d.next_in(self.min_len, self.suggested_len);
        let ghost tape = d.values@;
        let ghost p1 = d.pos as int;
        let mut word = String::new();
        loop
            invariant
                self.is_valid(),
                d.wf(),
                d.values@ == tape,
                word_rec(*self, tape, p1, Seq::<char>::empty(), target as int) == word_rec(
                    *self,
                    tape,
                    d.pos as int,
                    word@,
                    target as int,
                ),
            ensures
                d.wf(),
                d.values@ == tape,
                (word@, d.pos as int) == word_rec(
                    *self,
                    tape,
                    p1,
                    Seq::<char>::empty(),
                    target as int,
                ),
            decreases tape.len() - d.pos, chars_needed(target as int, word@.len() as int),
        {
            let have = word.as_str().unicode_len();
            if have >= target {
                break;
            }
            proof {
                lemma_syllable_model_bounds(*self, tape, d.pos as int);
            }
            let syl = self.syllable_with(d);
            word.append(syl.as_str());
        }
        proof {
            lemma_word_rec_props(*self, tape, p1, Seq::<char>::empty(), target as int);
        }
        Ok(word)
    }
}

} // verus!
