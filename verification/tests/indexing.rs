use sastrawi::index::{get_prefiks_indexed_in_hash_map, get_suffiks_indexed_in_hash_map};
use sastrawi::words::{to_hash_set, WordSet};

fn word(s: &str) -> Vec<char> {
    s.chars().collect()
}

fn word_list(items: &[&str]) -> Vec<Vec<char>> {
    items.iter().map(|s| word(s)).collect()
}

#[test]
fn every_listed_prefix_is_terminal() {
    let idx = get_prefiks_indexed_in_hash_map(&word_list(&[
        "di", "ke", "se", "ber", "be", "ter", "te", "meng", "meny",
    ]));
    for p in ["di", "ke", "se", "ber", "be", "ter", "te", "meng", "meny"] {
        assert!(idx.is_terminal(&word(p)), "{} must be terminal", p);
    }
}

#[test]
fn strict_leading_fragments_are_present_but_not_terminal() {
    let idx = get_prefiks_indexed_in_hash_map(&word_list(&["meng"]));
    assert!(idx.has_key(&word("m")));
    assert!(idx.has_key(&word("me")));
    assert!(idx.has_key(&word("men")));
    assert!(!idx.is_terminal(&word("m")));
    assert!(!idx.is_terminal(&word("me")));
    assert!(!idx.is_terminal(&word("men")));
    assert!(idx.is_terminal(&word("meng")));
}

#[test]
fn fragment_of_one_prefix_stays_terminal_as_another() {
    // "me" is both a complete prefix and a fragment of "meng".
    let idx = get_prefiks_indexed_in_hash_map(&word_list(&["me", "meng"]));
    assert!(idx.is_terminal(&word("me")));
    assert!(idx.is_terminal(&word("meng")));
    assert!(!idx.is_terminal(&word("men")));
}

#[test]
fn pseudo_prefix_registers_the_literal_pair() {
    let idx = get_prefiks_indexed_in_hash_map(&word_list(&["ber", "bel-ajar"]));
    assert!(idx.is_terminal(&word("bel")));
    assert!(idx.has_continuation(&word("bel"), &word("ajar")));
    assert!(!idx.has_continuation(&word("ber"), &word("ajar")));
    assert!(!idx.has_key(&word("bel-ajar")));
}

#[test]
fn unknown_fragment_is_absent() {
    let idx = get_prefiks_indexed_in_hash_map(&word_list(&["di", "ke"]));
    assert!(!idx.has_key(&word("x")));
    assert!(!idx.is_terminal(&word("x")));
}

#[test]
fn every_listed_suffix_is_terminal_with_trailing_fragments() {
    let idx = get_suffiks_indexed_in_hash_map(&word_list(&[
        "lah", "kah", "tah", "pun", "ku", "mu", "nya", "i", "kan", "an", "is", "isme", "isasi",
    ]));
    assert!(idx.is_terminal(&word("lah")));
    assert!(idx.is_terminal(&word("isasi")));
    assert!(idx.has_key(&word("ah")));
    assert!(idx.has_key(&word("h")));
    assert!(idx.has_key(&word("sasi")));
    assert!(!idx.is_terminal(&word("ah")));
    assert!(!idx.is_terminal(&word("sasi")));
    // "an" is both a trailing fragment of "kan" and a suffix of its own.
    assert!(idx.is_terminal(&word("an")));
    // nothing outside the listed suffixes and their fragments is registered
    assert!(!idx.has_key(&word("x")));
    assert!(!idx.has_key(&word("lahi")));
}

#[test]
fn rebuilding_from_the_same_list_is_equivalent() {
    let list = word_list(&["di", "ke", "se", "ber", "meng"]);
    let a = get_prefiks_indexed_in_hash_map(&list);
    let b = get_prefiks_indexed_in_hash_map(&list);
    for probe in ["d", "di", "k", "ke", "s", "se", "b", "be", "ber", "m", "me", "men", "meng", "x"]
    {
        assert_eq!(a.has_key(&word(probe)), b.has_key(&word(probe)));
        assert_eq!(a.is_terminal(&word(probe)), b.is_terminal(&word(probe)));
    }
}

#[test]
fn word_list_text_splits_into_lines() {
    let ws: WordSet = to_hash_set("lari\nmakan\ntidur\n".chars().collect());
    assert!(ws.contains(&word("lari")));
    assert!(ws.contains(&word("makan")));
    assert!(ws.contains(&word("tidur")));
    assert!(!ws.contains(&word("terbang")));
}

#[test]
fn word_list_text_trailing_whitespace_is_trimmed() {
    let ws: WordSet = to_hash_set("lari\nmakan \n\n".chars().collect());
    assert!(ws.contains(&word("lari")));
    // every trailing whitespace character of the text is trimmed before splitting
    assert!(ws.contains(&word("makan")));
    assert!(!ws.contains(&word("makan ")));
}

#[test]
fn word_list_text_keeps_empty_interior_lines() {
    let ws: WordSet = to_hash_set("a\n\nb".chars().collect());
    assert!(ws.contains(&word("a")));
    assert!(ws.contains(&word("b")));
    assert!(ws.contains(&word("")));
}

#[test]
fn word_list_text_keeps_non_ascii_words() {
    let ws: WordSet = to_hash_set("caf\u{e9}\nlari".chars().collect());
    assert!(ws.contains(&word("caf\u{e9}")));
    assert!(ws.contains(&word("lari")));
}

#[test]
fn word_list_text_trims_unicode_whitespace() {
    // a trailing no-break space counts as whitespace, as text trimming does
    let ws: WordSet = to_hash_set("lari\u{a0}".chars().collect());
    assert!(ws.contains(&word("lari")));
    assert!(!ws.contains(&word("lari\u{a0}")));
}
