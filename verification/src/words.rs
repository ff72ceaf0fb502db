//! Words as character sequences, and immutable sets of words.
//!
//! A word is a `Vec<char>`; its mathematical model is its view, a
//! `Seq<char>`. A `WordSet` is an immutable collection of distinct words
//! whose membership test is the ground truth for "is this a valid stem".

use vstd::prelude::*;

verus! {

/// True when the two words hold the same characters in the same order.
pub fn words_eq(a: &Vec<char>, b: &Vec<char>) -> (r: bool)
    ensures
        r == (a@ == b@),
{
    if a.len() != b.len() {
        return false;
    }
    let mut i: usize = 0;
    while i < a.len()
        invariant
            i <= a@.len(),
            a@.len() == b@.len(),
            forall|k: int| 0 <= k < i ==> a@[k] == b@[k],
        decreases a@.len() - i,
    {
        if a[i] != b[i] {
            return false;
        }
        i += 1;
    }
    proof {
        assert(a@ =~= b@);
    }
    true
}

/// A fresh copy of a word.
pub fn copy_word(w: &Vec<char>) -> (r: Vec<char>)
    ensures
        r@ == w@,
{
    let mut out: Vec<char> = Vec::new();
    let mut i: usize = 0;
    while i < w.len()
        invariant
            i <= w@.len(),
            out@ =~= w@.take(i as int),
        decreases w@.len() - i,
    {
        out.push(w[i]);
        i += 1;
    }
    proof {
        assert(out@ =~= w@);
    }
    out
}

/// The word made of the characters of `w` from position `from` on.
pub fn sub_word(w: &Vec<char>, from: usize) -> (r: Vec<char>)
    requires
        from <= w@.len(),
    ensures
        r@ == w@.skip(from as int),
{
    let mut out: Vec<char> = Vec::new();
    let mut i: usize = from;
    while i < w.len()
        invariant
            from <= i <= w@.len(),
            out@ =~= w@.subrange(from as int, i as int),
        decreases w@.len() - i,
    {
        out.push(w[i]);
        i += 1;
    }
    proof {
        assert(out@ =~= w@.skip(from as int));
    }
    out
}

/// The character `c` followed by the characters of `w` from `from` on.
pub fn sub_word_pre(c: char, w: &Vec<char>, from: usize) -> (r: Vec<char>)
    requires
        from <= w@.len(),
    ensures
        r@ == seq![c] + w@.skip(from as int),
{
    let mut out: Vec<char> = Vec::new();
    out.push(c);
    let mut i: usize = from;
    while i < w.len()
        invariant
            from <= i <= w@.len(),
            out@ =~= seq![c] + w@.subrange(from as int, i as int),
        decreases w@.len() - i,
    {
        out.push(w[i]);
        i += 1;
    }
    proof {
        assert(out@ =~= seq![c] + w@.skip(from as int));
    }
    out
}

/// The first `k` characters of `w`.
pub fn take_word(w: &Vec<char>, k: usize) -> (r: Vec<char>)
    requires
        k <= w@.len(),
    ensures
        r@ == w@.take(k as int),
{
    let mut out: Vec<char> = Vec::new();
    let mut i: usize = 0;
    while i < k
        invariant
            i <= k <= w@.len(),
            out@ =~= w@.take(i as int),
        decreases k - i,
    {
        out.push(w[i]);
        i += 1;
    }
    out
}

/// An immutable set of words. Uniqueness of the stored words is an
/// invariant; membership is order-independent.
pub struct WordSet {
    words: Vec<Vec<char>>,
}

impl WordSet {
    /// Well-formed: no word is stored twice.
    pub closed spec fn wf(self) -> bool {
        forall|i: int, j: int|
            0 <= i < j < self.words@.len() ==> self.words@[i]@ != self.words@[j]@
    }

    /// Membership, stated over the mathematical word.
    pub closed spec fn contains_word(self, w: Seq<char>) -> bool {
        exists|i: int| 0 <= i < self.words@.len() && self.words@[i]@ == w
    }

    /// The empty set.
    pub fn new() -> (r: WordSet)
        ensures
            r.wf(),
            forall|w: Seq<char>| !r.contains_word(w),
    {
        WordSet { words: Vec::new() }
    }

    /// True when `w` is in the set.
    pub fn contains(&self, w: &Vec<char>) -> (r: bool)
        ensures
            r == self.contains_word(w@),
    {
        let mut i: usize = 0;
        while i < self.words.len()
            invariant
                i <= self.words@.len(),
                forall|k: int| 0 <= k < i ==> self.words@[k]@ != w@,
            decreases self.words@.len() - i,
        {
            if words_eq(&self.words[i], w) {
                return true;
            }
            i += 1;
        }
        false
    }

    /// Adds `w`; a word already present is not stored twice.
    pub fn insert(&mut self, w: Vec<char>)
        requires
            old(self).wf(),
        ensures
            final(self).wf(),
            forall|v: Seq<char>|
                final(self).contains_word(v) == (old(self).contains_word(v) || v == w@),
    {
        if !self.contains(&w) {
            let ghost n = self.words@.len();
            self.words.push(w);
            proof {
                assert forall|v: Seq<char>|
                    final(self).contains_word(v) implies (old(self).contains_word(v)
                    || v == w@) by {
                    let i = choose|i: int|
                        0 <= i < self.words@.len() && self.words@[i]@ == v;
                    if i < n {
                        assert(old(self).words@[i]@ == v);
                    }
                }
                assert forall|v: Seq<char>|
                    old(self).contains_word(v) || v == w@ implies final(self).contains_word(
                    v,
                ) by {
                    if old(self).contains_word(v) {
                        let i = choose|i: int|
                            0 <= i < old(self).words@.len() && old(self).words@[i]@ == v;
                        assert(self.words@[i]@ == v);
                    } else {
                        assert(self.words@[n as int]@ == v);
                    }
                }
            }
        }
    }
}

/// A whitespace character: the set that text trimming recognizes.
pub open spec fn is_ws_char(c: char) -> bool {
    c == ' ' || c == '\t' || c == '\n' || c == '\u{b}' || c == '\u{c}' || c == '\r' || c
        == '\u{85}' || c == '\u{a0}' || c == '\u{1680}' || c == '\u{2000}' || c == '\u{2001}' || c
        == '\u{2002}' || c == '\u{2003}' || c == '\u{2004}' || c == '\u{2005}' || c == '\u{2006}'
        || c == '\u{2007}' || c == '\u{2008}' || c == '\u{2009}' || c == '\u{200a}' || c
        == '\u{2028}' || c == '\u{2029}' || c == '\u{202f}' || c == '\u{205f}' || c == '\u{3000}'
}

/// The length of `s` once trailing whitespace is removed.
pub open spec fn trim_end_len(s: Seq<char>) -> int
    decreases s.len(),
{
    if s.len() > 0 && is_ws_char(s[s.len() - 1]) {
        trim_end_len(s.drop_last())
    } else {
        s.len() as int
    }
}

/// The characters `t[a .. b]` form one newline-delimited line of `t`.
pub open spec fn is_line(t: Seq<char>, a: int, b: int) -> bool {
    0 <= a <= b <= t.len() && (a == 0 || t[a - 1] == '\n') && (b == t.len() || t[b] == '\n') && (
    forall|k: int| a <= k < b ==> t[k] != '\n')
}

/// `w` is one of the newline-delimited lines of `t`.
pub open spec fn is_line_word(t: Seq<char>, w: Seq<char>) -> bool {
    exists|a: int, b: int| is_line(t, a, b) && w == t.subrange(a, b)
}

fn ws_char(c: char) -> (r: bool)
    ensures
        r == is_ws_char(c),
{
    c == ' ' || c == '\t' || c == '\n' || c == '\u{b}' || c == '\u{c}' || c == '\r' || c
        == '\u{85}' || c == '\u{a0}' || c == '\u{1680}' || c == '\u{2000}' || c == '\u{2001}' || c
        == '\u{2002}' || c == '\u{2003}' || c == '\u{2004}' || c == '\u{2005}' || c == '\u{2006}'
        || c == '\u{2007}' || c == '\u{2008}' || c == '\u{2009}' || c == '\u{200a}' || c
        == '\u{2028}' || c == '\u{2029}' || c == '\u{202f}' || c == '\u{205f}' || c == '\u{3000}'
}

fn segment_word(text: &Vec<char>, from: usize, to: usize) -> (r: Vec<char>)
    requires
        from <= to <= text@.len(),
    ensures
        r@ == text@.subrange(from as int, to as int),
{
    let mut out: Vec<char> = Vec::new();
    let mut i: usize = from;
    while i < to
        invariant
            from <= i <= to <= text@.len(),
            out@ =~= text@.subrange(from as int, i as int),
        decreases to - i,
    {
        out.push(text[i]);
        proof {
            assert(out@ =~= text@.subrange(from as int, i as int + 1));
        }
        i += 1;
    }
    proof {
        assert(out@ =~= text@.subrange(from as int, to as int));
    }
    out
}

/// Splits a word-list text into the set of its newline-delimited lines,
/// with trailing whitespace of the whole text removed first.
///
/// The text is the decoded contents of a stored word list. Decoding the
/// stored bytes is the loading boundary's concern: word lists are
/// startup-time configuration, and a blob that does not decode is
/// corrupted, so the loader must abort initialization there rather than
/// let a mis-read dictionary degrade the rule set.
pub fn to_hash_set(text: Vec<char>) -> (r: WordSet)
    ensures
        r.wf(),
        forall|w: Seq<char>|
            r.contains_word(w) == is_line_word(text@.take(trim_end_len(text@)), w),
{
    let mut n: usize = text.len();
    proof {
        assert(text@.take(text@.len() as int) =~= text@);
    }
    while n > 0 && ws_char(text[n - 1])
        invariant
            n <= text@.len(),
            trim_end_len(text@) == trim_end_len(text@.take(n as int)),
        decreases n,
    {
        proof {
            assert(text@.take(n as int).drop_last() =~= text@.take(n as int - 1));
        }
        n -= 1;
    }
    let ghost t = text@.take(n as int);
    proof {
        assert(trim_end_len(text@) == n as int);
    }
    let mut ws = WordSet::new();
    let mut start: usize = 0;
    let mut i: usize = 0;
    while i < n
        invariant
            start <= i <= n <= text@.len(),
            t == text@.take(n as int),
            trim_end_len(text@) == n as int,
            start == 0 || t[start as int - 1] == '\n',
            forall|k: int| start <= k < i ==> t[k] != '\n',
            ws.wf(),
            forall|w: Seq<char>|
                ws.contains_word(w) == exists|a: int, b: int|
                    is_line(t, a, b) && b < start && w == t.subrange(a, b),
        decreases n - i,
    {
        if text[i] == '\n' {
            let word = segment_word(&text, start, i);
            proof {
                assert(t.subrange(start as int, i as int) =~= text@.subrange(
                    start as int,
                    i as int,
                ));
            }
            let ghost ws0 = ws;
            ws.insert(word);
            proof {
                assert(is_line(t, start as int, i as int));
                assert forall|w: Seq<char>|
                    ws.contains_word(w) == exists|a: int, b: int|
                        is_line(t, a, b) && b < i + 1 && w == t.subrange(a, b) by {
                    if ws.contains_word(w) {
                        if ws0.contains_word(w) {
                            let (a, b) = choose|a: int, b: int|
                                is_line(t, a, b) && b < start && w == t.subrange(a, b);
                            assert(is_line(t, a, b) && b < i + 1 && w == t.subrange(a, b));
                        } else {
                            assert(is_line(t, start as int, i as int) && i < i + 1 && w
                                == t.subrange(start as int, i as int));
                        }
                    }
                    if exists|a: int, b: int|
                        is_line(t, a, b) && b < i + 1 && w == t.subrange(a, b) {
                        let (a, b) = choose|a: int, b: int|
                            is_line(t, a, b) && b < i + 1 && w == t.subrange(a, b);
                        if b < start {
                            assert(ws0.contains_word(w));
                        } else {
                            assert(t[b] == '\n' || b == t.len());
                            assert(b == i as int);
                            if a < start as int {
                                assert(t[start as int - 1] == '\n');
                                assert(false);
                            }
                            if a > start as int {
                                assert(t[a - 1] == '\n');
                                assert(false);
                            }
                            assert(w == t.subrange(start as int, i as int));
                        }
                    }
                }
            }
            start = i + 1;
        }
        i += 1;
    }
    let word = segment_word(&text, start, n);
    proof {
        assert(t.subrange(start as int, n as int) =~= text@.subrange(start as int, n as int));
    }
    let ghost ws0 = ws;
    ws.insert(word);
    proof {
        assert(is_line(t, start as int, n as int));
        assert forall|w: Seq<char>| ws.contains_word(w) == is_line_word(t, w) by {
            if ws.contains_word(w) {
                if ws0.contains_word(w) {
                    let (a, b) = choose|a: int, b: int|
                        is_line(t, a, b) && b < start && w == t.subrange(a, b);
                    assert(is_line(t, a, b) && w == t.subrange(a, b));
                } else {
                    assert(is_line(t, start as int, n as int) && w == t.subrange(
                        start as int,
                        n as int,
                    ));
                }
            }
            if is_line_word(t, w) {
                let (a, b) = choose|a: int, b: int| is_line(t, a, b) && w == t.subrange(a, b);
                if b < start {
                    assert(ws0.contains_word(w));
                } else {
                    assert(b == n as int);
                    if a < start as int {
                        assert(t[start as int - 1] == '\n');
                        assert(false);
                    }
                    if a > start as int {
                        assert(t[a - 1] == '\n');
                        assert(false);
                    }
                    assert(w == t.subrange(start as int, n as int));
                }
            }
        }
    }
    ws
}


} // verus!
