//! The affix rule catalog: ordered suffix rule groups and prefix rule
//! groups over lowercase words.
//!
//! Each rule is a pattern over the word's characters together with a pure
//! rewrite; a rule whose embedded phonotactic constraint fails contributes
//! no candidate. A group gathers the mutually exclusive alternative
//! rewrites for one morphological phenomenon; the driver tries them in
//! listed order.

use vstd::prelude::*;

use crate::words::{copy_word, sub_word, sub_word_pre};

verus! {

/// A candidate stem shorter than this floor is rejected; the rule
/// alternative that produced it is skipped as if it had not matched.
pub const MIN_STEM_LEN: usize = 2;

/// Number of ordered prefix rule groups in the catalog.
pub const PREFIX_GROUP_COUNT: usize = 42;

/// Number of ordered suffix rule groups in the catalog.
pub const SUFFIX_GROUP_COUNT: usize = 3;

pub open spec fn is_vowel(c: char) -> bool {
    c == 'a' || c == 'i' || c == 'u' || c == 'e' || c == 'o'
}

pub open spec fn is_letter(c: char) -> bool {
    'a' as u32 <= c as u32 && c as u32 <= 'z' as u32
}

pub open spec fn is_consonant(c: char) -> bool {
    is_letter(c) && !is_vowel(c)
}

/// The consonants that the liquid/nasal-sensitive rules exclude:
/// a consonant other than l, m, n, r, w and y.
pub open spec fn is_hard_consonant(c: char) -> bool {
    is_consonant(c) && c != 'l' && c != 'm' && c != 'n' && c != 'r' && c != 'w' && c != 'y'
}

pub fn vowel(c: char) -> (r: bool)
    ensures
        r == is_vowel(c),
{
    c == 'a' || c == 'i' || c == 'u' || c == 'e' || c == 'o'
}

pub fn letter(c: char) -> (r: bool)
    ensures
        r == is_letter(c),
{
    'a' as u32 <= c as u32 && c as u32 <= 'z' as u32
}

pub fn consonant(c: char) -> (r: bool)
    ensures
        r == is_consonant(c),
{
    letter(c) && !vowel(c)
}

pub fn hard_consonant(c: char) -> (r: bool)
    ensures
        r == is_hard_consonant(c),
{
    consonant(c) && c != 'l' && c != 'm' && c != 'n' && c != 'r' && c != 'w' && c != 'y'
}

pub open spec fn starts2_spec(w: Seq<char>, a: char, b: char) -> bool {
    w.len() >= 2 && w[0] == a && w[1] == b
}

pub open spec fn starts3_spec(w: Seq<char>, a: char, b: char, c: char) -> bool {
    w.len() >= 3 && w[0] == a && w[1] == b && w[2] == c
}

pub open spec fn starts4_spec(w: Seq<char>, a: char, b: char, c: char, d: char) -> bool {
    w.len() >= 4 && w[0] == a && w[1] == b && w[2] == c && w[3] == d
}

pub open spec fn starts5_spec(w: Seq<char>, a: char, b: char, c: char, d: char, e: char) -> bool {
    w.len() >= 5 && w[0] == a && w[1] == b && w[2] == c && w[3] == d && w[4] == e
}

pub fn starts2(w: &Vec<char>, a: char, b: char) -> (r: bool)
    ensures
        r == starts2_spec(w@, a, b),
{
    w.len() >= 2 && w[0] == a && w[1] == b
}

pub fn starts3(w: &Vec<char>, a: char, b: char, c: char) -> (r: bool)
    ensures
        r == starts3_spec(w@, a, b, c),
{
    w.len() >= 3 && w[0] == a && w[1] == b && w[2] == c
}

pub fn starts4(w: &Vec<char>, a: char, b: char, c: char, d: char) -> (r: bool)
    ensures
        r == starts4_spec(w@, a, b, c, d),
{
    w.len() >= 4 && w[0] == a && w[1] == b && w[2] == c && w[3] == d
}

pub fn starts5(w: &Vec<char>, a: char, b: char, c: char, d: char, e: char) -> (r: bool)
    ensures
        r == starts5_spec(w@, a, b, c, d, e),
{
    w.len() >= 5 && w[0] == a && w[1] == b && w[2] == c && w[3] == d && w[4] == e
}

/// The view of an optional candidate word.
pub open spec fn opt_word_view(o: Option<Vec<char>>) -> Option<Seq<char>> {
    match o {
        Some(v) => Some(v@),
        None => None,
    }
}

/// How many alternative rewrites the prefix group `g` lists.
pub open spec fn alt_count_spec(g: int) -> int {
    if g == 18 {
        4
    } else if g == 30 {
        3
    } else if g == 1 || g == 7 || g == 14 || g == 16 || g == 19 || g == 22 || g == 26 || g == 28
        || g == 31 || g == 36 || g == 37 || g == 38 || g == 39 {
        2
    } else {
        1
    }
}

pub fn alt_count(g: usize) -> (n: usize)
    ensures
        n == alt_count_spec(g as int),
{
    if g == 18 {
        4
    } else if g == 30 {
        3
    } else if g == 1 || g == 7 || g == 14 || g == 16 || g == 19 || g == 22 || g == 26 || g == 28
        || g == 31 || g == 36 || g == 37 || g == 38 || g == 39 {
        2
    } else {
        1
    }
}

/// `w` is exactly the irregular whole word whose fixed root is "ajar"
/// under the pe-l group.
pub open spec fn is_pelajar_spec(w: Seq<char>) -> bool {
    w.len() == 7 && starts5_spec(w, 'p', 'e', 'l', 'a', 'j') && w[5] == 'a' && w[6] == 'r'
}

pub fn is_pelajar(w: &Vec<char>) -> (r: bool)
    ensures
        r == is_pelajar_spec(w@),
{
    w.len() == 7 && starts5(w, 'p', 'e', 'l', 'a', 'j') && w[5] == 'a' && w[6] == 'r'
}

/// Length of the leading fragment that alternative `a` of prefix group `g`
/// removes from `w`, to be validated against the prefix index; 0 when the
/// rule's own embedded constraint already enforces the boundary (the
/// whole-word idioms and the infix-dropping groups). Only the pe-l group
/// reads the word: its rewrite carries the irregular `pelajar` exception,
/// which bypasses the index like the other idiom.
pub open spec fn frag_len_spec(g: int, a: int, w: Seq<char>) -> int {
    if g == 0 || g == 6 || g == 10 || g == 11 || g == 21 || g == 33 || g == 35 || g == 40 {
        2
    } else if g == 1 || g == 7 || g == 22 {
        if a == 0 {
            3
        } else {
            2
        }
    } else if g == 2 || g == 3 || g == 4 || g == 8 || g == 9 || g == 12 || g == 13 || g == 15
        || g == 20 || g == 23 || g == 24 || g == 25 || g == 27 || g == 34 || g == 41 {
        3
    } else if g == 14 || g == 16 || g == 26 || g == 28 {
        if a == 0 {
            2
        } else {
            3
        }
    } else if g == 17 || g == 29 || g == 30 {
        4
    } else if g == 18 {
        if a == 3 {
            2
        } else {
            4
        }
    } else if g == 19 || g == 31 {
        if a == 0 {
            2
        } else {
            4
        }
    } else if g == 32 {
        if is_pelajar_spec(w) {
            0
        } else {
            2
        }
    } else {
        0
    }
}

pub fn frag_len(g: usize, a: usize, w: &Vec<char>) -> (n: usize)
    ensures
        n == frag_len_spec(g as int, a as int, w@),
{
    if g == 0 || g == 6 || g == 10 || g == 11 || g == 21 || g == 33 || g == 35 || g == 40 {
        2
    } else if g == 1 || g == 7 || g == 22 {
        if a == 0 {
            3
        } else {
            2
        }
    } else if g == 2 || g == 3 || g == 4 || g == 8 || g == 9 || g == 12 || g == 13 || g == 15
        || g == 20 || g == 23 || g == 24 || g == 25 || g == 27 || g == 34 || g == 41 {
        3
    } else if g == 14 || g == 16 || g == 26 || g == 28 {
        if a == 0 {
            2
        } else {
            3
        }
    } else if g == 17 || g == 29 || g == 30 {
        4
    } else if g == 18 {
        if a == 3 {
            2
        } else {
            4
        }
    } else if g == 19 || g == 31 {
        if a == 0 {
            2
        } else {
            4
        }
    } else if g == 32 {
        if is_pelajar(w) {
            0
        } else {
            2
        }
    } else {
        0
    }
}

/// Candidates of the plain-prefix, ber- and ter- groups (groups 0 to 10).
pub open spec fn early_candidate_spec(g: int, a: int, w: Seq<char>) -> Option<Seq<char>> {
    let n = w.len() as int;
    if g == 0 {
        // remove a plain prefix: di-, ke-, se-
        if starts2_spec(w, 'd', 'i') || starts2_spec(w, 'k', 'e') || starts2_spec(w, 's', 'e') {
            Some(w.skip(2))
        } else {
            None
        }
    } else if g == 1 {
        // berV -> ber-V | be-rV
        if n >= 4 && starts3_spec(w, 'b', 'e', 'r') && is_vowel(w[3]) {
            if a == 0 {
                Some(w.skip(3))
            } else {
                Some(w.skip(2))
            }
        } else {
            None
        }
    } else if g == 2 || g == 3 {
        // berCAP -> ber-CAP where C != 'r' and P does not begin with 'er';
        // the catalog lists this alternation in two successive groups
        if n >= 5 && starts3_spec(w, 'b', 'e', 'r') && is_consonant(w[3]) && w[3] != 'r'
            && is_letter(w[4]) && !(n >= 7 && w[5] == 'e' && w[6] == 'r') {
            Some(w.skip(3))
        } else {
            None
        }
    } else if g == 4 {
        // berCAerV -> ber-CAerV where C != 'r'
        if n >= 8 && starts3_spec(w, 'b', 'e', 'r') && is_consonant(w[3]) && w[3] != 'r'
            && is_letter(w[4]) && w[5] == 'e' && w[6] == 'r' && is_vowel(w[7]) {
            Some(w.skip(3))
        } else {
            None
        }
    } else if g == 5 {
        // whole-word idiom: belajar -> ajar
        if n == 7 && starts5_spec(w, 'b', 'e', 'l', 'a', 'j') && w[5] == 'a' && w[6] == 'r' {
            Some(w.skip(3))
        } else {
            None
        }
    } else if g == 6 {
        // beC1erC2 -> be-C1erC2 where C1 != 'r'
        if n >= 6 && starts2_spec(w, 'b', 'e') && is_consonant(w[2]) && w[2] != 'r' && w[3] == 'e'
            && w[4] == 'r' && is_consonant(w[5]) {
            Some(w.skip(2))
        } else {
            None
        }
    } else if g == 7 {
        // terV -> ter-V | te-rV
        if n >= 4 && starts3_spec(w, 't', 'e', 'r') && is_vowel(w[3]) {
            if a == 0 {
                Some(w.skip(3))
            } else {
                Some(w.skip(2))
            }
        } else {
            None
        }
    } else if g == 8 {
        // terCerV -> ter-CerV where C != 'r'
        if n >= 7 && starts3_spec(w, 't', 'e', 'r') && is_consonant(w[3]) && w[3] != 'r'
            && w[4] == 'e' && w[5] == 'r' && is_vowel(w[6]) {
            Some(w.skip(3))
        } else {
            None
        }
    } else if g == 9 {
        // terCP -> ter-CP where C != 'r' and P does not begin with 'er'
        if n >= 4 && starts3_spec(w, 't', 'e', 'r') && is_consonant(w[3]) && w[3] != 'r' && !(n >= 6
            && w[4] == 'e' && w[5] == 'r') {
            Some(w.skip(3))
        } else {
            None
        }
    } else if g == 10 {
        // teC1erC2 -> te-C1erC2 where C1 != 'r'
        if n >= 6 && starts2_spec(w, 't', 'e') && is_consonant(w[2]) && w[2] != 'r' && w[3] == 'e'
            && w[4] == 'r' && is_consonant(w[5]) {
            Some(w.skip(2))
        } else {
            None
        }
    } else {
        None
    }
}

/// Candidates of the me- groups (groups 11 to 20).
pub open spec fn me_candidate_spec(g: int, a: int, w: Seq<char>) -> Option<Seq<char>> {
    let n = w.len() as int;
    if g == 11 {
        // me{l|r|w|y}V -> me-{l|r|w|y}V
        if n >= 4 && starts2_spec(w, 'm', 'e') && (w[2] == 'l' || w[2] == 'r' || w[2] == 'w'
            || w[2] == 'y') && is_vowel(w[3]) {
            Some(w.skip(2))
        } else {
            None
        }
    } else if g == 12 {
        // mem{b|f|v} -> mem-{b|f|v}
        if n >= 4 && starts3_spec(w, 'm', 'e', 'm') && (w[3] == 'b' || w[3] == 'f' || w[3] == 'v') {
            Some(w.skip(3))
        } else {
            None
        }
    } else if g == 13 {
        // mempe -> mem-pe
        if starts5_spec(w, 'm', 'e', 'm', 'p', 'e') {
            Some(w.skip(3))
        } else {
            None
        }
    } else if g == 14 {
        // memV -> me-mV | me-pV
        if n >= 4 && starts3_spec(w, 'm', 'e', 'm') && is_vowel(w[3]) {
            if a == 0 {
                Some(w.skip(2))
            } else {
                Some(seq!['p'] + w.skip(3))
            }
        } else {
            None
        }
    } else if g == 15 {
        // men{c|d|j|s|t|z} -> men-{c|d|j|s|t|z}
        if n >= 4 && starts3_spec(w, 'm', 'e', 'n') && (w[3] == 'c' || w[3] == 'd' || w[3] == 'j'
            || w[3] == 's' || w[3] == 't' || w[3] == 'z') {
            Some(w.skip(3))
        } else {
            None
        }
    } else if g == 16 {
        // menV -> me-nV | me-tV
        if n >= 4 && starts3_spec(w, 'm', 'e', 'n') && is_vowel(w[3]) {
            if a == 0 {
                Some(w.skip(2))
            } else {
                Some(seq!['t'] + w.skip(3))
            }
        } else {
            None
        }
    } else if g == 17 {
        // meng{g|h|q|k} -> meng-{g|h|q|k}
        if n >= 5 && starts4_spec(w, 'm', 'e', 'n', 'g') && (w[4] == 'g' || w[4] == 'h'
            || w[4] == 'q' || w[4] == 'k') {
            Some(w.skip(4))
        } else {
            None
        }
    } else if g == 18 {
        // mengV -> meng-V | meng-kV | menge- | me-ngV
        if n >= 5 && starts4_spec(w, 'm', 'e', 'n', 'g') && is_vowel(w[4]) {
            if a == 0 {
                Some(w.skip(4))
            } else if a == 1 {
                Some(seq!['k'] + w.skip(4))
            } else if a == 2 {
                if w[4] == 'e' {
                    Some(w.skip(5))
                } else {
                    None
                }
            } else {
                Some(w.skip(2))
            }
        } else {
            None
        }
    } else if g == 19 {
        // menyV -> me-nyV | meny-sV
        if n >= 5 && starts4_spec(w, 'm', 'e', 'n', 'y') && is_vowel(w[4]) {
            if a == 0 {
                Some(w.skip(2))
            } else {
                Some(seq!['s'] + w.skip(4))
            }
        } else {
            None
        }
    } else if g == 20 {
        // mempA -> mem-pA where A is a letter other than 'e' or 'n'
        if n >= 5 && starts4_spec(w, 'm', 'e', 'm', 'p') && is_letter(w[4]) && w[4] != 'e'
            && w[4] != 'n' {
            Some(w.skip(3))
        } else {
            None
        }
    } else {
        None
    }
}

/// Candidates of the pe- and per- groups (groups 21 to 35).
pub open spec fn pe_candidate_spec(g: int, a: int, w: Seq<char>) -> Option<Seq<char>> {
    let n = w.len() as int;
    if g == 21 {
        // pe{w|y}V -> pe-{w|y}V
        if n >= 4 && starts2_spec(w, 'p', 'e') && (w[2] == 'w' || w[2] == 'y') && is_vowel(w[3]) {
            Some(w.skip(2))
        } else {
            None
        }
    } else if g == 22 {
        // perV -> per-V | pe-rV
        if n >= 4 && starts3_spec(w, 'p', 'e', 'r') && is_vowel(w[3]) {
            if a == 0 {
                Some(w.skip(3))
            } else {
                Some(w.skip(2))
            }
        } else {
            None
        }
    } else if g == 23 {
        // perCAP -> per-CAP where C != 'r' and P does not begin with 'er'
        if n >= 5 && starts3_spec(w, 'p', 'e', 'r') && is_consonant(w[3]) && w[3] != 'r'
            && is_letter(w[4]) && !(n >= 7 && w[5] == 'e' && w[6] == 'r') {
            Some(w.skip(3))
        } else {
            None
        }
    } else if g == 24 {
        // perCAerV -> per-CAerV where C != 'r'
        if n >= 8 && starts3_spec(w, 'p', 'e', 'r') && is_consonant(w[3]) && w[3] != 'r'
            && is_letter(w[4]) && w[5] == 'e' && w[6] == 'r' && is_vowel(w[7]) {
            Some(w.skip(3))
        } else {
            None
        }
    } else if g == 25 {
        // pem{b|f|v} -> pem-{b|f|v}
        if n >= 4 && starts3_spec(w, 'p', 'e', 'm') && (w[3] == 'b' || w[3] == 'f' || w[3] == 'v') {
            Some(w.skip(3))
        } else {
            None
        }
    } else if g == 26 {
        // pemV -> pe-mV | pe-pV
        if n >= 4 && starts3_spec(w, 'p', 'e', 'm') && is_vowel(w[3]) {
            if a == 0 {
                Some(w.skip(2))
            } else {
                Some(seq!['p'] + w.skip(3))
            }
        } else {
            None
        }
    } else if g == 27 {
        // pen{c|d|j|s|t|z} -> pen-{c|d|j|s|t|z}
        if n >= 4 && starts3_spec(w, 'p', 'e', 'n') && (w[3] == 'c' || w[3] == 'd' || w[3] == 'j'
            || w[3] == 's' || w[3] == 't' || w[3] == 'z') {
            Some(w.skip(3))
        } else {
            None
        }
    } else if g == 28 {
        // penV -> pe-nV | pe-tV
        if n >= 4 && starts3_spec(w, 'p', 'e', 'n') && is_vowel(w[3]) {
            if a == 0 {
                Some(w.skip(2))
            } else {
                Some(seq!['t'] + w.skip(3))
            }
        } else {
            None
        }
    } else if g == 29 {
        // pengC -> peng-C
        if n >= 5 && starts4_spec(w, 'p', 'e', 'n', 'g') && is_consonant(w[4]) {
            Some(w.skip(4))
        } else {
            None
        }
    } else if g == 30 {
        // pengV -> peng-V | peng-kV | penge-
        if n >= 5 && starts4_spec(w, 'p', 'e', 'n', 'g') && is_vowel(w[4]) {
            if a == 0 {
                Some(w.skip(4))
            } else if a == 1 {
                Some(seq!['k'] + w.skip(4))
            } else {
                if w[4] == 'e' {
                    Some(w.skip(5))
                } else {
                    None
                }
            }
        } else {
            None
        }
    } else if g == 31 {
        // penyV -> pe-nyV | peny-sV
        if n >= 5 && starts4_spec(w, 'p', 'e', 'n', 'y') && is_vowel(w[4]) {
            if a == 0 {
                Some(w.skip(2))
            } else {
                Some(seq!['s'] + w.skip(4))
            }
        } else {
            None
        }
    } else if g == 32 {
        // pelV -> pe-lV, except the whole-word idiom pelajar -> ajar
        if is_pelajar_spec(w) {
            Some(w.skip(3))
        } else if n >= 4 && starts3_spec(w, 'p', 'e', 'l') && is_vowel(w[3]) {
            Some(w.skip(2))
        } else {
            None
        }
    } else if g == 33 {
        // peCP -> pe-CP where C is not l, m, n, r, w or y and P does not begin with 'er'
        if n >= 3 && starts2_spec(w, 'p', 'e') && is_hard_consonant(w[2]) && !(n >= 5 && w[3] == 'e'
            && w[4] == 'r') {
            Some(w.skip(2))
        } else {
            None
        }
    } else if g == 34 {
        // terC1erC2 -> ter-C1erC2 where C1 is a hard consonant
        if n >= 7 && starts3_spec(w, 't', 'e', 'r') && is_hard_consonant(w[3]) && w[4] == 'e'
            && w[5] == 'r' && is_consonant(w[6]) {
            Some(w.skip(3))
        } else {
            None
        }
    } else if g == 35 {
        // peC1erC2 -> pe-C1erC2 where C1 is a hard consonant
        if n >= 6 && starts2_spec(w, 'p', 'e') && is_hard_consonant(w[2]) && w[3] == 'e'
            && w[4] == 'r' && is_consonant(w[5]) {
            Some(w.skip(2))
        } else {
            None
        }
    } else {
        None
    }
}

/// Candidates of the infix-dropping and ku-/kau- groups (groups 36 to 41).
pub open spec fn infix_candidate_spec(g: int, a: int, w: Seq<char>) -> Option<Seq<char>> {
    let n = w.len() as int;
    if g == 36 {
        // CerV -> CerV | CV
        if n >= 4 && is_consonant(w[0]) && w[1] == 'e' && w[2] == 'r' && is_vowel(w[3]) {
            if a == 0 {
                Some(w)
            } else {
                Some(seq![w[0]] + w.skip(3))
            }
        } else {
            None
        }
    } else if g == 37 {
        // CelV -> CelV | CV
        if n >= 4 && is_consonant(w[0]) && w[1] == 'e' && w[2] == 'l' && is_vowel(w[3]) {
            if a == 0 {
                Some(w)
            } else {
                Some(seq![w[0]] + w.skip(3))
            }
        } else {
            None
        }
    } else if g == 38 {
        // CemV -> CemV | CV
        if n >= 4 && is_consonant(w[0]) && w[1] == 'e' && w[2] == 'm' && is_vowel(w[3]) {
            if a == 0 {
                Some(w)
            } else {
                Some(seq![w[0]] + w.skip(3))
            }
        } else {
            None
        }
    } else if g == 39 {
        // CinV -> CinV | CV
        if n >= 4 && is_consonant(w[0]) && w[1] == 'i' && w[2] == 'n' && is_vowel(w[3]) {
            if a == 0 {
                Some(w)
            } else {
                Some(seq![w[0]] + w.skip(3))
            }
        } else {
            None
        }
    } else if g == 40 {
        // kuA -> ku-A
        if starts2_spec(w, 'k', 'u') {
            Some(w.skip(2))
        } else {
            None
        }
    } else if g == 41 {
        // kauA -> kau-A
        if starts3_spec(w, 'k', 'a', 'u') {
            Some(w.skip(3))
        } else {
            None
        }
    } else {
        None
    }
}

/// The rewrite that alternative `a` of prefix group `g` yields for `w`, or
/// `None` when the group's pattern or its embedded constraint fails.
pub open spec fn prefix_candidate_spec(g: int, a: int, w: Seq<char>) -> Option<Seq<char>> {
    if g <= 10 {
        early_candidate_spec(g, a, w)
    } else if g <= 20 {
        me_candidate_spec(g, a, w)
    } else if g <= 35 {
        pe_candidate_spec(g, a, w)
    } else {
        infix_candidate_spec(g, a, w)
    }
}

fn early_candidate(g: usize, a: usize, w: &Vec<char>) -> (r: Option<Vec<char>>)
    requires
        g <= 10,
    ensures
        opt_word_view(r) == early_candidate_spec(g as int, a as int, w@),
{
    if g == 0 {
        if starts2(w, 'd', 'i') || starts2(w, 'k', 'e') || starts2(w, 's', 'e') {
            Some(sub_word(w, 2))
        } else {
            None
        }
    } else if g == 1 {
        if w.len() >= 4 && starts3(w, 'b', 'e', 'r') && vowel(w[3]) {
            if a == 0 {
                Some(sub_word(w, 3))
            } else {
                Some(sub_word(w, 2))
            }
        } else {
            None
        }
    } else if g == 2 || g == 3 {
        if w.len() >= 5 && starts3(w, 'b', 'e', 'r') && consonant(w[3]) && w[3] != 'r' && letter(
            w[4],
        ) && !(w.len() >= 7 && w[5] == 'e' && w[6] == 'r') {
            Some(sub_word(w, 3))
        } else {
            None
        }
    } else if g == 4 {
        if w.len() >= 8 && starts3(w, 'b', 'e', 'r') && consonant(w[3]) && w[3] != 'r' && letter(
            w[4],
        ) && w[5] == 'e' && w[6] == 'r' && vowel(w[7]) {
            Some(sub_word(w, 3))
        } else {
            None
        }
    } else if g == 5 {
        if w.len() == 7 && starts5(w, 'b', 'e', 'l', 'a', 'j') && w[5] == 'a' && w[6] == 'r' {
            Some(sub_word(w, 3))
        } else {
            None
        }
    } else if g == 6 {
        if w.len() >= 6 && starts2(w, 'b', 'e') && consonant(w[2]) && w[2] != 'r' && w[3] == 'e'
            && w[4] == 'r' && consonant(w[5]) {
            Some(sub_word(w, 2))
        } else {
            None
        }
    } else if g == 7 {
        if w.len() >= 4 && starts3(w, 't', 'e', 'r') && vowel(w[3]) {
            if a == 0 {
                Some(sub_word(w, 3))
            } else {
                Some(sub_word(w, 2))
            }
        } else {
            None
        }
    } else if g == 8 {
        if w.len() >= 7 && starts3(w, 't', 'e', 'r') && consonant(w[3]) && w[3] != 'r' && w[4] == 'e'
            && w[5] == 'r' && vowel(w[6]) {
            Some(sub_word(w, 3))
        } else {
            None
        }
    } else if g == 9 {
        if w.len() >= 4 && starts3(w, 't', 'e', 'r') && consonant(w[3]) && w[3] != 'r' && !(w.len()
            >= 6 && w[4] == 'e' && w[5] == 'r') {
            Some(sub_word(w, 3))
        } else {
            None
        }
    } else {
        if w.len() >= 6 && starts2(w, 't', 'e') && consonant(w[2]) && w[2] != 'r' && w[3] == 'e'
            && w[4] == 'r' && consonant(w[5]) {
            Some(sub_word(w, 2))
        } else {
            None
        }
    }
}

fn me_candidate(g: usize, a: usize, w: &Vec<char>) -> (r: Option<Vec<char>>)
    requires
        11 <= g <= 20,
    ensures
        opt_word_view(r) == me_candidate_spec(g as int, a as int, w@),
{
    if g == 11 {
        if w.len() >= 4 && starts2(w, 'm', 'e') && (w[2] == 'l' || w[2] == 'r' || w[2] == 'w'
            || w[2] == 'y') && vowel(w[3]) {
            Some(sub_word(w, 2))
        } else {
            None
        }
    } else if g == 12 {
        if w.len() >= 4 && starts3(w, 'm', 'e', 'm') && (w[3] == 'b' || w[3] == 'f' || w[3] == 'v') {
            Some(sub_word(w, 3))
        } else {
            None
        }
    } else if g == 13 {
        if starts5(w, 'm', 'e', 'm', 'p', 'e') {
            Some(sub_word(w, 3))
        } else {
            None
        }
    } else if g == 14 {
        if w.len() >= 4 && starts3(w, 'm', 'e', 'm') && vowel(w[3]) {
            if a == 0 {
                Some(sub_word(w, 2))
            } else {
                Some(sub_word_pre('p', w, 3))
            }
        } else {
            None
        }
    } else if g == 15 {
        if w.len() >= 4 && starts3(w, 'm', 'e', 'n') && (w[3] == 'c' || w[3] == 'd' || w[3] == 'j'
            || w[3] == 's' || w[3] == 't' || w[3] == 'z') {
            Some(sub_word(w, 3))
        } else {
            None
        }
    } else if g == 16 {
        if w.len() >= 4 && starts3(w, 'm', 'e', 'n') && vowel(w[3]) {
            if a == 0 {
                Some(sub_word(w, 2))
            } else {
                Some(sub_word_pre('t', w, 3))
            }
        } else {
            None
        }
    } else if g == 17 {
        if w.len() >= 5 && starts4(w, 'm', 'e', 'n', 'g') && (w[4] == 'g' || w[4] == 'h'
            || w[4] == 'q' || w[4] == 'k') {
            Some(sub_word(w, 4))
        } else {
            None
        }
    } else if g == 18 {
        if w.len() >= 5 && starts4(w, 'm', 'e', 'n', 'g') && vowel(w[4]) {
            if a == 0 {
                Some(sub_word(w, 4))
            } else if a == 1 {
                Some(sub_word_pre('k', w, 4))
            } else if a == 2 {
                if w[4] == 'e' {
                    Some(sub_word(w, 5))
                } else {
                    None
                }
            } else {
                Some(sub_word(w, 2))
            }
        } else {
            None
        }
    } else if g == 19 {
        if w.len() >= 5 && starts4(w, 'm', 'e', 'n', 'y') && vowel(w[4]) {
            if a == 0 {
                Some(sub_word(w, 2))
            } else {
                Some(sub_word_pre('s', w, 4))
            }
        } else {
            None
        }
    } else {
        if w.len() >= 5 && starts4(w, 'm', 'e', 'm', 'p') && letter(w[4]) && w[4] != 'e'
            && w[4] != 'n' {
            Some(sub_word(w, 3))
        } else {
            None
        }
    }
}

fn pe_candidate(g: usize, a: usize, w: &Vec<char>) -> (r: Option<Vec<char>>)
    requires
        21 <= g <= 35,
    ensures
        opt_word_view(r) == pe_candidate_spec(g as int, a as int, w@),
{
    if g == 21 {
        if w.len() >= 4 && starts2(w, 'p', 'e') && (w[2] == 'w' || w[2] == 'y') && vowel(w[3]) {
            Some(sub_word(w, 2))
        } else {
            None
        }
    } else if g == 22 {
        if w.len() >= 4 && starts3(w, 'p', 'e', 'r') && vowel(w[3]) {
            if a == 0 {
                Some(sub_word(w, 3))
            } else {
                Some(sub_word(w, 2))
            }
        } else {
            None
        }
    } else if g == 23 {
        if w.len() >= 5 && starts3(w, 'p', 'e', 'r') && consonant(w[3]) && w[3] != 'r' && letter(
            w[4],
        ) && !(w.len() >= 7 && w[5] == 'e' && w[6] == 'r') {
            Some(sub_word(w, 3))
        } else {
            None
        }
    } else if g == 24 {
        if w.len() >= 8 && starts3(w, 'p', 'e', 'r') && consonant(w[3]) && w[3] != 'r' && letter(
            w[4],
        ) && w[5] == 'e' && w[6] == 'r' && vowel(w[7]) {
            Some(sub_word(w, 3))
        } else {
            None
        }
    } else if g == 25 {
        if w.len() >= 4 && starts3(w, 'p', 'e', 'm') && (w[3] == 'b' || w[3] == 'f' || w[3] == 'v') {
            Some(sub_word(w, 3))
        } else {
            None
        }
    } else if g == 26 {
        if w.len() >= 4 && starts3(w, 'p', 'e', 'm') && vowel(w[3]) {
            if a == 0 {
                Some(sub_word(w, 2))
            } else {
                Some(sub_word_pre('p', w, 3))
            }
        } else {
            None
        }
    } else if g == 27 {
        if w.len() >= 4 && starts3(w, 'p', 'e', 'n') && (w[3] == 'c' || w[3] == 'd' || w[3] == 'j'
            || w[3] == 's' || w[3] == 't' || w[3] == 'z') {
            Some(sub_word(w, 3))
        } else {
            None
        }
    } else if g == 28 {
        if w.len() >= 4 && starts3(w, 'p', 'e', 'n') && vowel(w[3]) {
            if a == 0 {
                Some(sub_word(w, 2))
            } else {
                Some(sub_word_pre('t', w, 3))
            }
        } else {
            None
        }
    } else if g == 29 {
        if w.len() >= 5 && starts4(w, 'p', 'e', 'n', 'g') && consonant(w[4]) {
            Some(sub_word(w, 4))
        } else {
            None
        }
    } else if g == 30 {
        if w.len() >= 5 && starts4(w, 'p', 'e', 'n', 'g') && vowel(w[4]) {
            if a == 0 {
                Some(sub_word(w, 4))
            } else if a == 1 {
                Some(sub_word_pre('k', w, 4))
            } else {
                if w[4] == 'e' {
                    Some(sub_word(w, 5))
                } else {
                    None
                }
            }
        } else {
            None
        }
    } else if g == 31 {
        if w.len() >= 5 && starts4(w, 'p', 'e', 'n', 'y') && vowel(w[4]) {
            if a == 0 {
                Some(sub_word(w, 2))
            } else {
                Some(sub_word_pre('s', w, 4))
            }
        } else {
            None
        }
    } else if g == 32 {
        if is_pelajar(w) {
            Some(sub_word(w, 3))
        } else if w.len() >= 4 && starts3(w, 'p', 'e', 'l') && vowel(w[3]) {
            Some(sub_word(w, 2))
        } else {
            None
        }
    } else if g == 33 {
        if w.len() >= 3 && starts2(w, 'p', 'e') && hard_consonant(w[2]) && !(w.len() >= 5
            && w[3] == 'e' && w[4] == 'r') {
            Some(sub_word(w, 2))
        } else {
            None
        }
    } else if g == 34 {
        if w.len() >= 7 && starts3(w, 't', 'e', 'r') && hard_consonant(w[3]) && w[4] == 'e'
            && w[5] == 'r' && consonant(w[6]) {
            Some(sub_word(w, 3))
        } else {
            None
        }
    } else {
        if w.len() >= 6 && starts2(w, 'p', 'e') && hard_consonant(w[2]) && w[3] == 'e'
            && w[4] == 'r' && consonant(w[5]) {
            Some(sub_word(w, 2))
        } else {
            None
        }
    }
}

fn infix_candidate(g: usize, a: usize, w: &Vec<char>) -> (r: Option<Vec<char>>)
    requires
        36 <= g <= 41,
    ensures
        opt_word_view(r) == infix_candidate_spec(g as int, a as int, w@),
{
    if g == 36 {
        if w.len() >= 4 && consonant(w[0]) && w[1] == 'e' && w[2] == 'r' && vowel(w[3]) {
            if a == 0 {
                Some(copy_word(w))
            } else {
                Some(sub_word_pre(w[0], w, 3))
            }
        } else {
            None
        }
    } else if g == 37 {
        if w.len() >= 4 && consonant(w[0]) && w[1] == 'e' && w[2] == 'l' && vowel(w[3]) {
            if a == 0 {
                Some(copy_word(w))
            } else {
                Some(sub_word_pre(w[0], w, 3))
            }
        } else {
            None
        }
    } else if g == 38 {
        if w.len() >= 4 && consonant(w[0]) && w[1] == 'e' && w[2] == 'm' && vowel(w[3]) {
            if a == 0 {
                Some(copy_word(w))
            } else {
                Some(sub_word_pre(w[0], w, 3))
            }
        } else {
            None
        }
    } else if g == 39 {
        if w.len() >= 4 && consonant(w[0]) && w[1] == 'i' && w[2] == 'n' && vowel(w[3]) {
            if a == 0 {
                Some(copy_word(w))
            } else {
                Some(sub_word_pre(w[0], w, 3))
            }
        } else {
            None
        }
    } else if g == 40 {
        if starts2(w, 'k', 'u') {
            Some(sub_word(w, 2))
        } else {
            None
        }
    } else {
        if starts3(w, 'k', 'a', 'u') {
            Some(sub_word(w, 3))
        } else {
            None
        }
    }
}

/// The rewrite that alternative `a` of prefix group `g` yields for `w`.
pub fn prefix_candidate(g: usize, a: usize, w: &Vec<char>) -> (r: Option<Vec<char>>)
    requires
        g < PREFIX_GROUP_COUNT,
    ensures
        opt_word_view(r) == prefix_candidate_spec(g as int, a as int, w@),
{
    if g <= 10 {
        early_candidate(g, a, w)
    } else if g <= 20 {
        me_candidate(g, a, w)
    } else if g <= 35 {
        pe_candidate(g, a, w)
    } else {
        infix_candidate(g, a, w)
    }
}

/// Law: no prefix rewrite lengthens the word, and every rewrite other
/// than the identity readings of the infix groups is strictly shorter.
/// Together with the per-call visited set, which stops an identity
/// reading from being entered twice, this bounds the depth of the
/// recursive search by the word's length.
pub proof fn lemma_prefix_candidates_shrink(g: int, a: int, w: Seq<char>)
    ensures
        match prefix_candidate_spec(g, a, w) {
            Some(c) => c.len() <= w.len() && (c != w ==> c.len() < w.len()),
            None => true,
        },
{
}

/// Law: every suffix rewrite is strictly shorter than its input.
pub proof fn lemma_suffix_candidates_shrink(gi: int, w: Seq<char>)
    ensures
        match suffix_candidate_spec(gi, w) {
            Some(c) => c.len() < w.len(),
            None => true,
        },
{
}

pub open spec fn ends2_spec(w: Seq<char>, a: char, b: char) -> bool {
    w.len() >= 2 && w[w.len() - 2] == a && w[w.len() - 1] == b
}

pub open spec fn ends3_spec(w: Seq<char>, a: char, b: char, c: char) -> bool {
    w.len() >= 3 && w[w.len() - 3] == a && w[w.len() - 2] == b && w[w.len() - 1] == c
}

pub open spec fn ends4_spec(w: Seq<char>, a: char, b: char, c: char, d: char) -> bool {
    w.len() >= 4 && w[w.len() - 4] == a && w[w.len() - 3] == b && w[w.len() - 2] == c && w[w.len()
        - 1] == d
}

pub open spec fn ends5_spec(w: Seq<char>, a: char, b: char, c: char, d: char, e: char) -> bool {
    w.len() >= 5 && w[w.len() - 5] == a && w[w.len() - 4] == b && w[w.len() - 3] == c && w[w.len()
        - 2] == d && w[w.len() - 1] == e
}

pub fn ends2(w: &Vec<char>, a: char, b: char) -> (r: bool)
    ensures
        r == ends2_spec(w@, a, b),
{
    w.len() >= 2 && w[w.len() - 2] == a && w[w.len() - 1] == b
}

pub fn ends3(w: &Vec<char>, a: char, b: char, c: char) -> (r: bool)
    ensures
        r == ends3_spec(w@, a, b, c),
{
    w.len() >= 3 && w[w.len() - 3] == a && w[w.len() - 2] == b && w[w.len() - 1] == c
}

pub fn ends4(w: &Vec<char>, a: char, b: char, c: char, d: char) -> (r: bool)
    ensures
        r == ends4_spec(w@, a, b, c, d),
{
    w.len() >= 4 && w[w.len() - 4] == a && w[w.len() - 3] == b && w[w.len() - 2] == c && w[w.len()
        - 1] == d
}

pub fn ends5(w: &Vec<char>, a: char, b: char, c: char, d: char, e: char) -> (r: bool)
    ensures
        r == ends5_spec(w@, a, b, c, d, e),
{
    w.len() >= 5 && w[w.len() - 5] == a && w[w.len() - 4] == b && w[w.len() - 3] == c && w[w.len()
        - 2] == d && w[w.len() - 1] == e
}

/// The rewrite that suffix group `gi` yields for `w`: the longest listed
/// suffix ending `w` is removed, together with a hyphen written before an
/// inflectional suffix. `None` when no listed suffix ends `w`.
///
/// Group 0 removes an inflectional particle (-lah, -kah, -tah, -pun),
/// group 1 an inflectional possessive pronoun (-ku, -mu, -nya), and
/// group 2 a derivational suffix (-is, -isme, -isasi, -i, -kan, -an).
pub open spec fn suffix_candidate_spec(gi: int, w: Seq<char>) -> Option<Seq<char>> {
    let n = w.len() as int;
    if gi == 0 {
        if ends4_spec(w, '-', 'l', 'a', 'h') || ends4_spec(w, '-', 'k', 'a', 'h') || ends4_spec(
            w,
            '-',
            't',
            'a',
            'h',
        ) || ends4_spec(w, '-', 'p', 'u', 'n') {
            Some(w.take(n - 4))
        } else if ends3_spec(w, 'l', 'a', 'h') || ends3_spec(w, 'k', 'a', 'h') || ends3_spec(
            w,
            't',
            'a',
            'h',
        ) || ends3_spec(w, 'p', 'u', 'n') {
            Some(w.take(n - 3))
        } else {
            None
        }
    } else if gi == 1 {
        if ends4_spec(w, '-', 'n', 'y', 'a') {
            Some(w.take(n - 4))
        } else if ends3_spec(w, 'n', 'y', 'a') || ends3_spec(w, '-', 'k', 'u') || ends3_spec(
            w,
            '-',
            'm',
            'u',
        ) {
            Some(w.take(n - 3))
        } else if ends2_spec(w, 'k', 'u') || ends2_spec(w, 'm', 'u') {
            Some(w.take(n - 2))
        } else {
            None
        }
    } else if gi == 2 {
        if ends5_spec(w, 'i', 's', 'a', 's', 'i') {
            Some(w.take(n - 5))
        } else if ends4_spec(w, 'i', 's', 'm', 'e') {
            Some(w.take(n - 4))
        } else if ends3_spec(w, 'k', 'a', 'n') {
            Some(w.take(n - 3))
        } else if ends2_spec(w, 'i', 's') || ends2_spec(w, 'a', 'n') {
            Some(w.take(n - 2))
        } else if n >= 1 && w[n - 1] == 'i' {
            Some(w.take(n - 1))
        } else {
            None
        }
    } else {
        None
    }
}

/// The rewrite that suffix group `gi` yields for `w`.
pub fn suffix_candidate(gi: usize, w: &Vec<char>) -> (r: Option<Vec<char>>)
    requires
        gi < SUFFIX_GROUP_COUNT,
    ensures
        opt_word_view(r) == suffix_candidate_spec(gi as int, w@),
{
    if gi == 0 {
        if ends4(w, '-', 'l', 'a', 'h') || ends4(w, '-', 'k', 'a', 'h') || ends4(w, '-', 't', 'a', 'h')
            || ends4(w, '-', 'p', 'u', 'n') {
            Some(crate::words::take_word(w, w.len() - 4))
        } else if ends3(w, 'l', 'a', 'h') || ends3(w, 'k', 'a', 'h') || ends3(w, 't', 'a', 'h')
            || ends3(w, 'p', 'u', 'n') {
            Some(crate::words::take_word(w, w.len() - 3))
        } else {
            None
        }
    } else if gi == 1 {
        if ends4(w, '-', 'n', 'y', 'a') {
            Some(crate::words::take_word(w, w.len() - 4))
        } else if ends3(w, 'n', 'y', 'a') || ends3(w, '-', 'k', 'u') || ends3(w, '-', 'm', 'u') {
            Some(crate::words::take_word(w, w.len() - 3))
        } else if ends2(w, 'k', 'u') || ends2(w, 'm', 'u') {
            Some(crate::words::take_word(w, w.len() - 2))
        } else {
            None
        }
    } else {
        if ends5(w, 'i', 's', 'a', 's', 'i') {
            Some(crate::words::take_word(w, w.len() - 5))
        } else if ends4(w, 'i', 's', 'm', 'e') {
            Some(crate::words::take_word(w, w.len() - 4))
        } else if ends3(w, 'k', 'a', 'n') {
            Some(crate::words::take_word(w, w.len() - 3))
        } else if ends2(w, 'i', 's') || ends2(w, 'a', 'n') {
            Some(crate::words::take_word(w, w.len() - 2))
        } else if w.len() >= 1 && w[w.len() - 1] == 'i' {
            Some(crate::words::take_word(w, w.len() - 1))
        } else {
            None
        }
    }
}

} // verus!
