//! The character-pool helpers and the default structure.

use incantata::str_chars;
use incantata::Structure;
use incantata::CONSONANTS;
use incantata::VOCALS;
use incantata::VOCALS_ACCENTS;

#[test]
fn str_chars_lists_the_characters_in_order() {
    assert_eq!(str_chars("abc"), vec!['a', 'b', 'c']);
    assert_eq!(str_chars(""), Vec::<char>::new());
    let accented = str_chars(VOCALS_ACCENTS);
    assert_eq!(accented.len(), VOCALS_ACCENTS.chars().count());
    assert_eq!(accented, VOCALS_ACCENTS.chars().collect::<Vec<char>>());
}

#[test]
fn the_default_structure_matches_its_pools() {
    let s = Structure::default();
    assert_eq!(s.onset, 1);
    assert_eq!(s.onset_dict, CONSONANTS.chars().collect::<Vec<char>>());
    assert_eq!(s.nucleus, 1);
    assert_eq!(s.nucleus_dict, VOCALS.chars().collect::<Vec<char>>());
    assert_eq!(s.coda, 0);
    assert!(s.coda_dict.is_empty());
    assert_eq!(s.min_len, 4);
    assert_eq!(s.suggested_len, 5);
}
