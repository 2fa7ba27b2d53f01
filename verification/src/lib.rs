//! Generation of pronounceable pseudo-words.
//!
//! A [`Structure`] describes the phonotactics of an invented language:
//! how long the onset, nucleus and coda of a syllable may be, which
//! characters each of those segments may use, and how long a word should
//! be. [`Structure::generate`] then builds one word by concatenating
//! randomly built syllables; [`Structure::generate_with`] does the same
//! from a caller-supplied sequence of draws, deterministically.

pub mod randomness;
pub mod structure;
pub mod syllable;
pub mod word;

pub use randomness::DrawSequence;
pub use structure::ConfigError;
pub use structure::Structure;
pub use structure::str_chars;
pub use structure::CONSONANTS;
pub use structure::VOCALS;
pub use structure::VOCALS_ACCENTS;
