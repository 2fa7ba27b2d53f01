//! The phonotactic description of a language and its validation.

use vstd::prelude::*;
use vstd::string::StrSliceExecFns;

verus! {

/// Characters used by the consonant-like segments of the default structure.
pub const CONSONANTS: &'static str = "bcdfghjklmnpqrstvwxyz";

/// Characters used by the vowel-like segment of the default structure.
pub const VOCALS: &'static str = "aeiou";

/// The vowels together with their grave, acute and diaeresis variants.
pub const VOCALS_ACCENTS: &'static str =
    "aeiou\u{e0}\u{e8}\u{ec}\u{f2}\u{f9}\u{e1}\u{e9}\u{ed}\u{f3}\u{fa}\u{e4}\u{eb}\u{ef}\u{f6}\u{fc}";

/// Why a [`Structure`] cannot be used for generation.
#[derive(Clone, Copy, Debug, PartialEq, Eq, Structural)]
pub enum ConfigError {
    /// All three segment lengths are zero: no syllable could ever
    /// produce a character, so word generation could never finish.
    AllSegmentsZero,
    /// A segment length is positive but the matching dictionary is
    /// empty, so there would be nothing to sample from.
    EmptyDictionary,
    /// `min_len >= suggested_len`: the range from which the target word
    /// length is drawn is empty.
    InvalidLengthRange,
}

/// Structure of the language: per-segment lengths and character pools,
/// and the bounds for the word length.
///
/// A structure is built once and then only read; generation never
/// changes it.
#[derive(Clone, Debug)]
pub struct Structure {
    /// How many characters the onset may have.
    pub onset: usize,
    /// Allowed characters for the onset.
    pub onset_dict: Vec<char>,

    /// How many characters the nucleus may have. Whenever this is
    /// positive, every syllable holds at least one nucleus character.
    pub nucleus: usize,
    /// Allowed characters for the nucleus.
    pub nucleus_dict: Vec<char>,

    /// How many characters the coda may have.
    pub coda: usize,
    /// Allowed characters for the coda.
    pub coda_dict: Vec<char>,

    /// Minimum length of a word, in characters.
    pub min_len: usize,
    /// Words aim at a length just under `suggested_len`: the target
    /// length is drawn from `min_len..suggested_len`. Since syllables
    /// are appended whole, a word may come out longer than the target.
    pub suggested_len: usize,
}

impl Structure {
    /// At least one segment can contribute characters.
    pub open spec fn has_segment(&self) -> bool {
        self.onset > 0 || self.nucleus > 0 || self.coda > 0
    }

    /// Every segment with a positive length has characters to draw from.
    pub open spec fn dicts_ok(&self) -> bool {
        &&& self.onset > 0 ==> self.onset_dict@.len() > 0
        &&& self.nucleus > 0 ==> self.nucleus_dict@.len() > 0
        &&& self.coda > 0 ==> self.coda_dict@.len() > 0
    }

    /// The range the target word length is drawn from is not empty.
    pub open spec fn length_range_ok(&self) -> bool {
        self.min_len < self.suggested_len
    }

    /// A structure generation can work with.
    pub open spec fn is_valid(&self) -> bool {
        self.has_segment() && self.dicts_ok() && self.length_range_ok()
    }

    /// The character belongs to the union of the three dictionaries;
    /// every character of a generated word does.
    pub open spec fn in_pool(&self, c: char) -> bool {
        self.onset_dict@.contains(c) || self.nucleus_dict@.contains(c)
            || self.coda_dict@.contains(c)
    }

    /// What [`Structure::validate`] returns: the first configuration
    /// fault found, checked in the order all-segments-zero, empty
    /// dictionary, length range.
    pub open spec fn validate_spec(&self) -> Result<(), ConfigError> {
        if !self.has_segment() {
            Err(ConfigError::AllSegmentsZero)
        } else if !self.dicts_ok() {
            Err(ConfigError::EmptyDictionary)
        } else if !self.length_range_ok() {
            Err(ConfigError::InvalidLengthRange)
        } else {
            Ok(())
        }
    }

    /// Checks that this structure can drive generation; on failure the
    /// error says which invariant is broken.
    pub fn validate(&self) -> (r: Result<(), ConfigError>)
        ensures
            r == self.validate_spec(),
            r is Ok <==> self.is_valid(),
    {
        if !(self.onset > 0 || self.nucleus > 0 || self.coda > 0) {
            return Err(ConfigError::AllSegmentsZero);
        }
        if self.onset > 0 && self.onset_dict.len() == 0 {
            return Err(ConfigError::EmptyDictionary);
        }
        if self.nucleus > 0 && self.nucleus_dict.len() == 0 {
            return Err(ConfigError::EmptyDictionary);
        }
        if self.coda > 0 && self.coda_dict.len() == 0 {
            return Err(ConfigError::EmptyDictionary);
        }
        if self.min_len >= self.suggested_len {
            return Err(ConfigError::InvalidLengthRange);
        }
        Ok(())
    }
}

/// The characters of a string, in order, as a vector.
pub fn str_chars(s: &str) -> (v: Vec<char>)
    ensures
        v@ == s@,
{
    let n = s.unicode_len();
    let mut v: Vec<char> = Vec::new();
    let mut i: usize = 0;
    while i < n
        invariant
            i <= n,
            n == s@.len(),
            v@ == s@.subrange(0, i as int),
        decreases n - i,
    {
        v.push(s.get_char(i));
        i = i + 1;
        proof {
            assert(v@ =~= s@.subrange(0, i as int));
        }
    }
    proof {
        assert(v@ =~= s@);
    }
    v
}

impl Default for Structure {
    /// A minimal usable structure: one onset consonant, one vowel as
    /// the nucleus, no coda, and words of four characters or a little
    /// more.
    fn default() -> (s: Structure)
        ensures
            s.onset == 1 && s.onset_dict@ == CONSONANTS@,
            s.nucleus == 1 && s.nucleus_dict@ == VOCALS@,
            s.coda == 0 && s.coda_dict@ == Seq::<char>::empty(),
            s.min_len == 4 && s.suggested_len == 5,
            s.is_valid(),
    {
        proof {
            reveal_strlit("bcdfghjklmnpqrstvwxyz");
            reveal_strlit("aeiou");
        }
        Structure {
            onset: 1,
            onset_dict: str_chars(CONSONANTS),
            nucleus: 1,
            nucleus_dict: str_chars(VOCALS),
            coda: 0,
            coda_dict: Vec::new(),
            min_len: 4,
            suggested_len: 5,
        }
    }
}

} // verus!
