//! Generation and validation, exercised with the real random source
//! and with replayed draw sequences.

use incantata::ConfigError;
use incantata::DrawSequence;
use incantata::Structure;
use incantata::CONSONANTS;
use incantata::VOCALS;

#[test]
fn it_works() {
    let s = Structure {
        onset: 1,
        onset_dict: CONSONANTS.chars().collect(),
        nucleus: 1,
        nucleus_dict: VOCALS.chars().collect(),
        coda: 1,
        coda_dict: CONSONANTS.chars().collect(),
        min_len: 4,
        suggested_len: 10,
    };

    for _ in 0..100 {
        let r = s.generate().unwrap();
        assert!(r.len() >= 4);
    }
}

#[test]
fn default_works() {
    let s = Structure::default();

    for _ in 0..100 {
        let r = s.generate().unwrap();
        assert!(r.len() >= 4);
    }
}

#[test]
fn empty_fails() {
    let s = Structure {
        onset: 0,
        onset_dict: CONSONANTS.chars().collect(),
        nucleus: 0,
        nucleus_dict: VOCALS.chars().collect(),
        coda: 0,
        coda_dict: CONSONANTS.chars().collect(),
        min_len: 4,
        suggested_len: 10,
    };

    assert_eq!(s.validate(), Err(ConfigError::AllSegmentsZero));
    for _ in 0..100 {
        assert_eq!(s.generate(), Err(ConfigError::AllSegmentsZero));
    }
}

#[test]
#[should_panic]
fn empty_panics() {
    let s = Structure {
        onset: 0,
        onset_dict: CONSONANTS.chars().collect(),
        nucleus: 0,
        nucleus_dict: VOCALS.chars().collect(),
        coda: 0,
        coda_dict: CONSONANTS.chars().collect(),
        min_len: 4,
        suggested_len: 10,
    };

    for _ in 0..100 {
        let r = s.generate().unwrap();
        assert!(r.len() >= 4);
    }
}

fn pool_structure() -> Structure {
    Structure {
        onset: 1,
        onset_dict: vec!['b', 'c', 'd'],
        nucleus: 1,
        nucleus_dict: vec!['a', 'e', 'i'],
        coda: 0,
        coda_dict: vec![],
        min_len: 4,
        suggested_len: 10,
    }
}

#[test]
fn words_stay_in_the_pool() {
    let s = pool_structure();
    for _ in 0..100 {
        let w = s.generate().unwrap();
        assert!(w.chars().count() >= 4);
        for c in w.chars() {
            assert!(['b', 'c', 'd', 'a', 'e', 'i'].contains(&c));
        }
    }
}

#[test]
fn syllables_carry_a_nucleus_character() {
    let s = Structure {
        onset: 2,
        onset_dict: CONSONANTS.chars().collect(),
        nucleus: 2,
        nucleus_dict: VOCALS.chars().collect(),
        coda: 2,
        coda_dict: CONSONANTS.chars().collect(),
        min_len: 4,
        suggested_len: 10,
    };
    for _ in 0..100 {
        let syl = s.syllable();
        assert!(!syl.is_empty());
        assert!(syl.chars().any(|c| VOCALS.contains(c)));
        assert!(syl.chars().count() <= 6);
    }
}

#[test]
fn validate_accepts_the_default() {
    assert_eq!(Structure::default().validate(), Ok(()));
}

#[test]
fn validate_rejects_empty_onset_dict() {
    let mut s = Structure::default();
    s.onset_dict = vec![];
    assert_eq!(s.validate(), Err(ConfigError::EmptyDictionary));
    assert_eq!(s.generate(), Err(ConfigError::EmptyDictionary));
}

#[test]
fn validate_rejects_empty_nucleus_dict() {
    let mut s = Structure::default();
    s.nucleus_dict = vec![];
    assert_eq!(s.validate(), Err(ConfigError::EmptyDictionary));
}

#[test]
fn validate_rejects_empty_coda_dict() {
    let mut s = Structure::default();
    s.coda = 1;
    s.coda_dict = vec![];
    assert_eq!(s.validate(), Err(ConfigError::EmptyDictionary));
}

#[test]
fn validate_rejects_equal_length_bounds() {
    let mut s = Structure::default();
    s.min_len = 10;
    s.suggested_len = 10;
    assert_eq!(s.validate(), Err(ConfigError::InvalidLengthRange));
    assert_eq!(s.generate(), Err(ConfigError::InvalidLengthRange));
}

#[test]
fn validate_rejects_zero_suggested_len() {
    let mut s = Structure::default();
    s.min_len = 0;
    s.suggested_len = 0;
    assert_eq!(s.validate(), Err(ConfigError::InvalidLengthRange));
}

#[test]
fn generation_is_deterministic_under_a_replayed_sequence() {
    let s = Structure {
        onset: 2,
        onset_dict: CONSONANTS.chars().collect(),
        nucleus: 1,
        nucleus_dict: VOCALS.chars().collect(),
        coda: 1,
        coda_dict: CONSONANTS.chars().collect(),
        min_len: 4,
        suggested_len: 9,
    };
    let values: Vec<usize> = vec![6, 2, 14, 8, 3, 0, 1, 19, 5, 5, 2, 7, 0, 11, 4];
    let mut d1 = DrawSequence::new(values.clone());
    let mut d2 = DrawSequence::new(values);
    let w1 = s.generate_with(&mut d1).unwrap();
    let w2 = s.generate_with(&mut d2).unwrap();
    assert_eq!(w1, w2);
    assert!(w1.chars().count() >= 4);
}

#[test]
fn a_recorded_sequence_replays_to_the_expected_word() {
    let s = Structure {
        onset: 1,
        onset_dict: vec!['b'],
        nucleus: 1,
        nucleus_dict: vec!['a'],
        coda: 0,
        coda_dict: vec![],
        min_len: 1,
        suggested_len: 2,
    };
    // target: 1 (in range); onset: decision 0 continues, index 0 is
    // 'b'; nucleus: forced, index 9 falls outside [0, 1) and becomes
    // 0, so 'a'; the word has reached one character.
    let mut d = DrawSequence::new(vec![1, 0, 0, 9]);
    assert_eq!(s.generate_with(&mut d), Ok("ba".to_string()));
    assert_eq!(d.pos, 4);
}

#[test]
fn a_used_up_sequence_keeps_drawing_the_lower_end() {
    let s = Structure {
        onset: 1,
        onset_dict: vec!['b'],
        nucleus: 1,
        nucleus_dict: vec!['a'],
        coda: 0,
        coda_dict: vec![],
        min_len: 4,
        suggested_len: 5,
    };
    // Every draw falls back to the range's lower end: the target is 4,
    // every decision continues, every index is 0.
    let mut d = DrawSequence::new(vec![]);
    assert_eq!(s.generate_with(&mut d), Ok("baba".to_string()));
    assert_eq!(d.pos, 0);
}

#[test]
fn a_syllable_replays_each_segment_in_order() {
    let s = Structure {
        onset: 2,
        onset_dict: vec!['b', 'c'],
        nucleus: 1,
        nucleus_dict: vec!['a'],
        coda: 1,
        coda_dict: vec!['x'],
        min_len: 1,
        suggested_len: 2,
    };
    // Onset: decision 0 continues, index 1 is 'c', decision 8 stops.
    // Nucleus: forced, so 0 is an index, 'a'. Coda: decision 0
    // continues, index 0 is 'x'.
    let mut d = DrawSequence::new(vec![0, 1, 8, 0, 0, 0]);
    assert_eq!(s.syllable_with(&mut d), "cax");
    assert_eq!(d.pos, 6);
}

#[test]
fn lengths_count_characters_not_bytes() {
    let s = Structure {
        onset: 0,
        onset_dict: vec![],
        nucleus: 1,
        nucleus_dict: vec!['\u{e0}'],
        coda: 0,
        coda_dict: vec![],
        min_len: 2,
        suggested_len: 3,
    };
    // Two two-byte characters make four bytes but exactly the two
    // characters the target asks for.
    let mut d = DrawSequence::new(vec![]);
    let w = s.generate_with(&mut d).unwrap();
    assert_eq!(w, "\u{e0}\u{e0}");
    assert_eq!(w.chars().count(), 2);
    assert_eq!(w.len(), 4);
}

#[test]
fn generate_with_reports_errors_without_drawing() {
    let mut s = Structure::default();
    s.onset = 0;
    s.nucleus = 0;
    s.coda = 0;
    let mut d = DrawSequence::new(vec![4, 2]);
    assert_eq!(s.generate_with(&mut d), Err(ConfigError::AllSegmentsZero));
    assert_eq!(d.pos, 0);
}

#[test]
fn next_in_clamps_and_advances() {
    let mut d = DrawSequence::new(vec![7, 3]);
    assert_eq!(d.next_in(2, 5), 2);
    assert_eq!(d.next_in(2, 5), 3);
    assert_eq!(d.next_in(2, 5), 2);
    assert_eq!(d.pos, 2);
}
