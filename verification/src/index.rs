//! The affix index: maps every affix fragment to whether it is itself a
//! complete standalone affix, and, for irregular pseudo-prefixes, to the
//! fixed literal continuations it may combine with.
//!
//! The index lets the stemming driver check "is this boundary a
//! linguistically valid affix cut point" without re-scanning the raw affix
//! word lists on every candidate. Rebuilding from the same lists always
//! yields an equivalent index: the contents below are keyed by string, not
//! by insertion order.

use vstd::prelude::*;

use crate::words::{copy_word, sub_word, take_word, words_eq};

verus! {

struct PrefixEntry {
    key: Vec<char>,
    terminal: bool,
    continuations: Vec<Vec<char>>,
}

/// The prefix index, keyed by leading affix fragments.
pub struct PrefixIndex {
    entries: Vec<PrefixEntry>,
}

impl PrefixIndex {
    /// Well-formed: no fragment is registered twice.
    pub closed spec fn wf(self) -> bool {
        forall|i: int, j: int|
            0 <= i < j < self.entries@.len() ==> self.entries@[i].key@ != self.entries@[j].key@
    }

    /// The fragment `k` is registered.
    pub closed spec fn has_key_spec(self, k: Seq<char>) -> bool {
        exists|i: int| 0 <= i < self.entries@.len() && self.entries@[i].key@ == k
    }

    /// The fragment `k` is registered as a complete standalone affix.
    pub closed spec fn terminal_spec(self, k: Seq<char>) -> bool {
        exists|i: int|
            0 <= i < self.entries@.len() && self.entries@[i].key@ == k && self.entries@[i].terminal
    }

    /// The irregular pseudo-prefix `k` lists `c` as a fixed continuation.
    pub closed spec fn continuation_spec(self, k: Seq<char>, c: Seq<char>) -> bool {
        exists|i: int, l: int|
            0 <= i < self.entries@.len() && self.entries@[i].key@ == k && 0 <= l
                < self.entries@[i].continuations@.len() && self.entries@[i].continuations@[l]@ == c
    }

    /// The empty index.
    pub fn new() -> (r: PrefixIndex)
        ensures
            r.wf(),
            forall|k: Seq<char>| !r.has_key_spec(k),
            forall|k: Seq<char>| !r.terminal_spec(k),
            forall|k: Seq<char>, c: Seq<char>| !r.continuation_spec(k, c),
    {
        PrefixIndex { entries: Vec::new() }
    }

    fn find(&self, k: &Vec<char>) -> (r: Option<usize>)
        ensures
            match r {
                Some(i) => i < self.entries@.len() && self.entries@[i as int].key@ == k@,
                None => !self.has_key_spec(k@),
            },
    {
        let mut i: usize = 0;
        while i < self.entries.len()
            invariant
                i <= self.entries@.len(),
                forall|j: int| 0 <= j < i ==> self.entries@[j].key@ != k@,
            decreases self.entries@.len() - i,
        {
            if words_eq(&self.entries[i].key, k) {
                return Some(i);
            }
            i += 1;
        }
        None
    }

    /// True when the fragment `k` is registered.
    pub fn has_key(&self, k: &Vec<char>) -> (r: bool)
        ensures
            r == self.has_key_spec(k@),
    {
        match self.find(k) {
            Some(_) => true,
            None => false,
        }
    }

    /// True when the fragment `k` is a complete standalone affix.
    pub fn is_terminal(&self, k: &Vec<char>) -> (r: bool)
        requires
            self.wf(),
        ensures
            r == self.terminal_spec(k@),
    {
        match self.find(k) {
            Some(i) => {
                let r = self.entries[i].terminal;
                proof {
                    if !r && self.terminal_spec(k@) {
                        let j = choose|j: int|
                            0 <= j < self.entries@.len() && self.entries@[j].key@ == k@
                                && self.entries@[j].terminal;
                        assert(j == i as int);
                    }
                }
                r
            },
            None => false,
        }
    }

    /// True when the pseudo-prefix `k` lists `c` as a continuation.
    pub fn has_continuation(&self, k: &Vec<char>, c: &Vec<char>) -> (r: bool)
        requires
            self.wf(),
        ensures
            r == self.continuation_spec(k@, c@),
    {
        match self.find(k) {
            Some(i) => {
                let conts = &self.entries[i].continuations;
                let mut l: usize = 0;
                while l < conts.len()
                    invariant
                        l <= conts@.len(),
                        conts@ == self.entries@[i as int].continuations@,
                        i < self.entries@.len(),
                        self.entries@[i as int].key@ == k@,
                        self.wf(),
                        forall|m: int| 0 <= m < l ==> conts@[m]@ != c@,
                    decreases conts@.len() - l,
                {
                    if words_eq(&conts[l], c) {
                        return true;
                    }
                    l += 1;
                }
                proof {
                    if self.continuation_spec(k@, c@) {
                        let (j, m) = choose|j: int, m: int|
                            0 <= j < self.entries@.len() && self.entries@[j].key@ == k@ && 0 <= m
                                < self.entries@[j].continuations@.len()
                                && self.entries@[j].continuations@[m]@ == c@;
                        assert(j == i as int);
                    }
                }
                false
            },
            None => false,
        }
    }

    /// Registers `k` as a (possibly non-terminal) fragment; a fragment
    /// already present is left as it is.
    fn ensure_key(&mut self, k: Vec<char>)
        requires
            old(self).wf(),
        ensures
            final(self).wf(),
            forall|x: Seq<char>|
                final(self).has_key_spec(x) == (old(self).has_key_spec(x) || x == k@),
            forall|x: Seq<char>| final(self).terminal_spec(x) == old(self).terminal_spec(x),
            forall|x: Seq<char>, c: Seq<char>|
                final(self).continuation_spec(x, c) == old(self).continuation_spec(x, c),
    {
        match self.find(&k) {
            Some(_) => {
                proof {
                    assert(old(self).has_key_spec(k@));
                }
            },
            None => {
                let ghost n = self.entries@.len();
                self.entries.push(PrefixEntry { key: k, terminal: false, continuations: Vec::new() });
                proof {
                    self.lemma_push_effect(*old(self), n as int);
                }
            },
        }
    }

    /// Registers `k` as a complete standalone affix, keeping any
    /// continuations it already has.
    fn mark_terminal(&mut self, k: Vec<char>)
        requires
            old(self).wf(),
        ensures
            final(self).wf(),
            forall|x: Seq<char>|
                final(self).has_key_spec(x) == (old(self).has_key_spec(x) || x == k@),
            forall|x: Seq<char>|
                final(self).terminal_spec(x) == (old(self).terminal_spec(x) || x == k@),
            forall|x: Seq<char>, c: Seq<char>|
                final(self).continuation_spec(x, c) == old(self).continuation_spec(x, c),
    {
        match self.find(&k) {
            Some(i) => {
                self.entries[i].terminal = true;
                proof {
                    self.lemma_update_effect(*old(self), i as int, k@);
                }
            },
            None => {
                let ghost n = self.entries@.len();
                self.entries.push(PrefixEntry { key: k, terminal: true, continuations: Vec::new() });
                proof {
                    self.lemma_push_effect(*old(self), n as int);
                }
            },
        }
    }

    /// Registers the irregular pseudo-prefix `k` with the fixed
    /// continuation `c`, marking it a complete irregular form.
    fn add_continuation(&mut self, k: Vec<char>, c: Vec<char>)
        requires
            old(self).wf(),
        ensures
            final(self).wf(),
            forall|x: Seq<char>|
                final(self).has_key_spec(x) == (old(self).has_key_spec(x) || x == k@),
            forall|x: Seq<char>|
                final(self).terminal_spec(x) == (old(self).terminal_spec(x) || x == k@),
            forall|x: Seq<char>, y: Seq<char>|
                final(self).continuation_spec(x, y) == (old(self).continuation_spec(x, y) || (x
                    == k@ && y == c@)),
    {
        match self.find(&k) {
            Some(i) => {
                let ghost mid0 = *self;
                self.entries[i].terminal = true;
                let ghost mid = *self;
                proof {
                    mid.lemma_update_effect(mid0, i as int, k@);
                }
                self.entries[i].continuations.push(c);
                proof {
                    self.lemma_cont_push_effect(mid, i as int, k@, c@);
                }
            },
            None => {
                let ghost n = self.entries@.len();
                let ghost cv = c@;
                let mut conts: Vec<Vec<char>> = Vec::new();
                conts.push(c);
                self.entries.push(PrefixEntry { key: k, terminal: true, continuations: conts });
                proof {
                    self.lemma_push_effect(*old(self), n as int);
                    assert forall|y: Seq<char>|
                        conts_contain(self.entries@[n as int].continuations@, y) == (y == cv) by {
                        if conts_contain(self.entries@[n as int].continuations@, y) {
                            let l = choose|l: int|
                                0 <= l < self.entries@[n as int].continuations@.len()
                                    && self.entries@[n as int].continuations@[l]@ == y;
                            assert(l == 0);
                        }
                        if y == cv {
                            assert(self.entries@[n as int].continuations@[0]@ == y);
                        }
                    }
                }
            },
        }
    }

    /// Effect of appending a fresh entry at position `n`.
    proof fn lemma_push_effect(self, prev: PrefixIndex, n: int)
        requires
            prev.wf(),
            0 <= n,
            n == prev.entries@.len(),
            self.entries@.len() == n + 1,
            !prev.has_key_spec(self.entries@[n].key@),
            forall|j: int| 0 <= j < n ==> self.entries@[j] == prev.entries@[j],
        ensures
            self.wf(),
            forall|x: Seq<char>|
                self.has_key_spec(x) == (prev.has_key_spec(x) || x == self.entries@[n].key@),
            forall|x: Seq<char>|
                self.terminal_spec(x) == (prev.terminal_spec(x) || (x == self.entries@[n].key@
                    && self.entries@[n].terminal)),
            forall|x: Seq<char>, y: Seq<char>|
                self.continuation_spec(x, y) == (prev.continuation_spec(x, y) || (x
                    == self.entries@[n].key@ && conts_contain(self.entries@[n].continuations@, y))),
    {
        let e = self.entries@[n];
        assert forall|i: int, j: int| 0 <= i < j < self.entries@.len() implies self.entries@[i].key@
            != self.entries@[j].key@ by {
            if j == n {
                if self.entries@[i].key@ == e.key@ {
                    assert(prev.has_key_spec(e.key@));
                }
            }
        }
        assert forall|x: Seq<char>| self.has_key_spec(x) implies (prev.has_key_spec(x) || x
            == e.key@) by {
            let i = choose|i: int| 0 <= i < self.entries@.len() && self.entries@[i].key@ == x;
            if i < n {
                assert(prev.entries@[i].key@ == x);
            }
        }
        assert forall|x: Seq<char>| prev.has_key_spec(x) || x == e.key@ implies self.has_key_spec(
            x,
        ) by {
            if prev.has_key_spec(x) {
                let i = choose|i: int| 0 <= i < prev.entries@.len() && prev.entries@[i].key@ == x;
                assert(self.entries@[i].key@ == x);
            } else {
                assert(self.entries@[n].key@ == x);
            }
        }
        assert forall|x: Seq<char>| self.terminal_spec(x) implies (prev.terminal_spec(x) || (x
            == e.key@ && e.terminal)) by {
            let i = choose|i: int|
                0 <= i < self.entries@.len() && self.entries@[i].key@ == x
                    && self.entries@[i].terminal;
            if i < n {
                assert(prev.entries@[i].key@ == x && prev.entries@[i].terminal);
            }
        }
        assert forall|x: Seq<char>| prev.terminal_spec(x) || (x == e.key@ && e.terminal) implies self
            .terminal_spec(x) by {
            if prev.terminal_spec(x) {
                let i = choose|i: int|
                    0 <= i < prev.entries@.len() && prev.entries@[i].key@ == x
                        && prev.entries@[i].terminal;
                assert(self.entries@[i].key@ == x && self.entries@[i].terminal);
            } else {
                assert(self.entries@[n].key@ == x && self.entries@[n].terminal);
            }
        }
        assert forall|x: Seq<char>, y: Seq<char>| self.continuation_spec(x, y) implies (prev
            .continuation_spec(x, y) || (x == e.key@ && conts_contain(e.continuations@, y))) by {
            let (i, l) = choose|i: int, l: int|
                0 <= i < self.entries@.len() && self.entries@[i].key@ == x && 0 <= l
                    < self.entries@[i].continuations@.len()
                    && self.entries@[i].continuations@[l]@ == y;
            if i < n {
                assert(prev.entries@[i].key@ == x && prev.entries@[i].continuations@[l]@ == y);
            }
        }
        assert forall|x: Seq<char>, y: Seq<char>|
            prev.continuation_spec(x, y) || (x == e.key@ && conts_contain(
                e.continuations@,
                y,
            )) implies self.continuation_spec(x, y) by {
            if prev.continuation_spec(x, y) {
                let (i, l) = choose|i: int, l: int|
                    0 <= i < prev.entries@.len() && prev.entries@[i].key@ == x && 0 <= l
                        < prev.entries@[i].continuations@.len()
                        && prev.entries@[i].continuations@[l]@ == y;
                assert(self.entries@[i].key@ == x && self.entries@[i].continuations@[l]@ == y);
            } else {
                let l = choose|l: int|
                    0 <= l < e.continuations@.len() && e.continuations@[l]@ == y;
                assert(self.entries@[n].key@ == x && self.entries@[n].continuations@[l]@ == y);
            }
        }
    }

    /// Effect of setting the terminal flag of the entry at `i`.
    proof fn lemma_update_effect(self, prev: PrefixIndex, i: int, k: Seq<char>)
        requires
            prev.wf(),
            0 <= i < prev.entries@.len(),
            prev.entries@[i].key@ == k,
            self.entries@.len() == prev.entries@.len(),
            self.entries@[i].key@ == k,
            self.entries@[i].terminal,
            self.entries@[i].continuations@ == prev.entries@[i].continuations@,
            forall|j: int|
                0 <= j < prev.entries@.len() && j != i ==> self.entries@[j] == prev.entries@[j],
        ensures
            self.wf(),
            forall|x: Seq<char>| self.has_key_spec(x) == (prev.has_key_spec(x) || x == k),
            forall|x: Seq<char>| self.terminal_spec(x) == (prev.terminal_spec(x) || x == k),
            forall|x: Seq<char>, y: Seq<char>|
                self.continuation_spec(x, y) == prev.continuation_spec(x, y),
    {
        assert(forall|j: int|
            0 <= j < self.entries@.len() ==> self.entries@[j].key@ == prev.entries@[j].key@);
        assert forall|x: Seq<char>| self.has_key_spec(x) == (prev.has_key_spec(x) || x == k) by {
            if self.has_key_spec(x) {
                let j = choose|j: int| 0 <= j < self.entries@.len() && self.entries@[j].key@ == x;
                assert(prev.entries@[j].key@ == x);
            }
            if prev.has_key_spec(x) {
                let j = choose|j: int| 0 <= j < prev.entries@.len() && prev.entries@[j].key@ == x;
                assert(self.entries@[j].key@ == x);
            }
            if x == k {
                assert(prev.entries@[i].key@ == x);
            }
        }
        assert forall|x: Seq<char>| self.terminal_spec(x) == (prev.terminal_spec(x) || x == k) by {
            if self.terminal_spec(x) {
                let j = choose|j: int|
                    0 <= j < self.entries@.len() && self.entries@[j].key@ == x
                        && self.entries@[j].terminal;
                if j != i {
                    assert(prev.entries@[j].key@ == x && prev.entries@[j].terminal);
                }
            }
            if prev.terminal_spec(x) {
                let j = choose|j: int|
                    0 <= j < prev.entries@.len() && prev.entries@[j].key@ == x
                        && prev.entries@[j].terminal;
                if j != i {
                    assert(self.entries@[j].key@ == x && self.entries@[j].terminal);
                } else {
                    assert(self.entries@[i].key@ == x && self.entries@[i].terminal);
                }
            }
            if x == k {
                assert(self.entries@[i].key@ == x && self.entries@[i].terminal);
            }
        }
        assert forall|x: Seq<char>, y: Seq<char>|
            self.continuation_spec(x, y) == prev.continuation_spec(x, y) by {
            if self.continuation_spec(x, y) {
                let (j, l) = choose|j: int, l: int|
                    0 <= j < self.entries@.len() && self.entries@[j].key@ == x && 0 <= l
                        < self.entries@[j].continuations@.len()
                        && self.entries@[j].continuations@[l]@ == y;
                assert(prev.entries@[j].key@ == x && prev.entries@[j].continuations@[l]@ == y);
            }
            if prev.continuation_spec(x, y) {
                let (j, l) = choose|j: int, l: int|
                    0 <= j < prev.entries@.len() && prev.entries@[j].key@ == x && 0 <= l
                        < prev.entries@[j].continuations@.len()
                        && prev.entries@[j].continuations@[l]@ == y;
                assert(self.entries@[j].key@ == x && self.entries@[j].continuations@[l]@ == y);
            }
        }
    }

    /// Effect of appending the continuation `c` to the entry at `i`.
    proof fn lemma_cont_push_effect(self, prev: PrefixIndex, i: int, k: Seq<char>, c: Seq<char>)
        requires
            prev.wf(),
            0 <= i < prev.entries@.len(),
            prev.entries@[i].key@ == k,
            prev.entries@[i].terminal,
            self.entries@.len() == prev.entries@.len(),
            self.entries@[i].key@ == k,
            self.entries@[i].terminal == prev.entries@[i].terminal,
            self.entries@[i].continuations@.len() == prev.entries@[i].continuations@.len() + 1,
            forall|l: int|
                0 <= l < prev.entries@[i].continuations@.len() ==> self.entries@[i].continuations@[l]
                    == prev.entries@[i].continuations@[l],
            self.entries@[i].continuations@[prev.entries@[i].continuations@.len() as int]@ == c,
            forall|j: int|
                0 <= j < prev.entries@.len() && j != i ==> self.entries@[j] == prev.entries@[j],
        ensures
            self.wf(),
            forall|x: Seq<char>| self.has_key_spec(x) == (prev.has_key_spec(x) || x == k),
            forall|x: Seq<char>| self.terminal_spec(x) == (prev.terminal_spec(x) || x == k),
            forall|x: Seq<char>, y: Seq<char>|
                self.continuation_spec(x, y) == (prev.continuation_spec(x, y) || (x == k && y
                    == c)),
    {
        assert(forall|j: int|
            0 <= j < self.entries@.len() ==> self.entries@[j].key@ == prev.entries@[j].key@
                && self.entries@[j].terminal == prev.entries@[j].terminal);
        assert forall|x: Seq<char>| self.has_key_spec(x) == (prev.has_key_spec(x) || x == k) by {
            if self.has_key_spec(x) {
                let j = choose|j: int| 0 <= j < self.entries@.len() && self.entries@[j].key@ == x;
                assert(prev.entries@[j].key@ == x);
            }
            if prev.has_key_spec(x) {
                let j = choose|j: int| 0 <= j < prev.entries@.len() && prev.entries@[j].key@ == x;
                assert(self.entries@[j].key@ == x);
            }
            if x == k {
                assert(prev.entries@[i].key@ == x);
            }
        }
        assert forall|x: Seq<char>| self.terminal_spec(x) == (prev.terminal_spec(x) || x == k) by {
            if self.terminal_spec(x) {
                let j = choose|j: int|
                    0 <= j < self.entries@.len() && self.entries@[j].key@ == x
                        && self.entries@[j].terminal;
                assert(prev.entries@[j].key@ == x && prev.entries@[j].terminal);
            }
            if prev.terminal_spec(x) {
                let j = choose|j: int|
                    0 <= j < prev.entries@.len() && prev.entries@[j].key@ == x
                        && prev.entries@[j].terminal;
                assert(self.entries@[j].key@ == x && self.entries@[j].terminal);
            }
        }
        assert forall|x: Seq<char>, y: Seq<char>|
            self.continuation_spec(x, y) == (prev.continuation_spec(x, y) || (x == k && y
                == c)) by {
            let m = prev.entries@[i].continuations@.len() as int;
            if self.continuation_spec(x, y) {
                let (j, l) = choose|j: int, l: int|
                    0 <= j < self.entries@.len() && self.entries@[j].key@ == x && 0 <= l
                        < self.entries@[j].continuations@.len()
                        && self.entries@[j].continuations@[l]@ == y;
                if j != i {
                    assert(prev.entries@[j].key@ == x && prev.entries@[j].continuations@[l]@ == y);
                } else {
                    if l < m {
                        assert(prev.entries@[i].key@ == x && prev.entries@[i].continuations@[l]@
                            == y);
                    } else {
                        assert(x == k && y == c);
                    }
                }
            }
            if prev.continuation_spec(x, y) {
                let (j, l) = choose|j: int, l: int|
                    0 <= j < prev.entries@.len() && prev.entries@[j].key@ == x && 0 <= l
                        < prev.entries@[j].continuations@.len()
                        && prev.entries@[j].continuations@[l]@ == y;
                assert(self.entries@[j].key@ == x && self.entries@[j].continuations@[l]@ == y);
            }
            if x == k && y == c {
                assert(self.entries@[i].key@ == x && self.entries@[i].continuations@[m]@ == y);
            }
        }
    }
}

/// Some word in `cs` reads `y`.
pub open spec fn conts_contain(cs: Seq<Vec<char>>, y: Seq<char>) -> bool {
    exists|l: int| 0 <= l < cs.len() && cs[l]@ == y
}

/// `p` holds a hyphen, the mark of an irregular pseudo-prefix pair.
pub open spec fn has_dash(p: Seq<char>) -> bool {
    exists|d: int| 0 <= d < p.len() && p[d] == '-'
}

/// Position `d` holds the first hyphen of `p`.
pub open spec fn first_dash_at(p: Seq<char>, d: int) -> bool {
    0 <= d < p.len() && p[d] == '-' && (forall|m: int| 0 <= m < d ==> p[m] != '-')
}

/// `k` is a non-empty leading fragment (possibly all) of a regular
/// listed prefix.
pub open spec fn listed_prefix_fragment(ps: Seq<Vec<char>>, k: Seq<char>) -> bool {
    exists|i: int, j: int|
        0 <= i < ps.len() && !has_dash(ps[i]@) && 1 <= j <= ps[i]@.len() && k == ps[i]@.take(j)
}

/// `k` is itself a regular listed prefix.
pub open spec fn listed_prefix(ps: Seq<Vec<char>>, k: Seq<char>) -> bool {
    exists|i: int| 0 <= i < ps.len() && !has_dash(ps[i]@) && k == ps[i]@
}

/// `k` is the head of a listed pseudo pair.
pub open spec fn listed_pseudo_head(ps: Seq<Vec<char>>, k: Seq<char>) -> bool {
    exists|i: int, d: int| 0 <= i < ps.len() && first_dash_at(ps[i]@, d) && k == ps[i]@.take(d)
}

/// `k` together with the continuation `c` is a listed pseudo pair.
pub open spec fn listed_pseudo_pair(ps: Seq<Vec<char>>, k: Seq<char>, c: Seq<char>) -> bool {
    exists|i: int, d: int|
        0 <= i < ps.len() && first_dash_at(ps[i]@, d) && k == ps[i]@.take(d) && c == ps[i]@.skip(
            d + 1,
        )
}

/// What the prefix index guarantees for one listed prefix `p`: a regular
/// prefix is itself a key, registered as terminal, with every non-empty
/// strict leading fragment present; a pseudo-form's head is a key,
/// terminal, and carries its fixed literal continuation.
pub open spec fn prefix_entry_indexed(r: PrefixIndex, p: Seq<char>) -> bool {
    (!has_dash(p) ==> r.terminal_spec(p) && r.has_key_spec(p) && (forall|j: int|
        1 <= j < p.len() ==> r.has_key_spec(p.take(j)))) && (forall|d: int|
        first_dash_at(p, d) ==> r.terminal_spec(p.take(d)) && r.has_key_spec(p.take(d))
            && r.continuation_spec(p.take(d), p.skip(d + 1)))
}

/// Every listed prefix among the first `n` is indexed as promised.
pub open spec fn prefix_list_indexed(r: PrefixIndex, ps: Seq<Vec<char>>, n: int) -> bool {
    forall|i: int| 0 <= i < n ==> prefix_entry_indexed(r, ps[i]@)
}

/// `r2` registers everything `r1` registers.
pub open spec fn index_extends(r2: PrefixIndex, r1: PrefixIndex) -> bool {
    (forall|x: Seq<char>| r1.has_key_spec(x) ==> r2.has_key_spec(x)) && (forall|x: Seq<char>|
        r1.terminal_spec(x) ==> r2.terminal_spec(x)) && (forall|x: Seq<char>, y: Seq<char>|
        r1.continuation_spec(x, y) ==> r2.continuation_spec(x, y))
}

proof fn lemma_indexed_monotone(r1: PrefixIndex, r2: PrefixIndex, ps: Seq<Vec<char>>, n: int)
    requires
        prefix_list_indexed(r1, ps, n),
        index_extends(r2, r1),
    ensures
        prefix_list_indexed(r2, ps, n),
{
    assert forall|i: int| 0 <= i < n implies prefix_entry_indexed(r2, ps[i]@) by {
        let p = ps[i]@;
        assert(prefix_entry_indexed(r1, p));
        if !has_dash(p) {
            assert(r2.terminal_spec(p));
            assert(r2.has_key_spec(p));
            assert forall|j: int| 1 <= j < p.len() implies r2.has_key_spec(p.take(j)) by {
                assert(r1.has_key_spec(p.take(j)));
            }
        }
        assert forall|d: int| first_dash_at(p, d) implies r2.terminal_spec(p.take(d))
            && r2.has_key_spec(p.take(d)) && r2.continuation_spec(p.take(d), p.skip(d + 1)) by {
            assert(r1.terminal_spec(p.take(d)));
            assert(r1.has_key_spec(p.take(d)));
            assert(r1.continuation_spec(p.take(d), p.skip(d + 1)));
        }
    }
}

/// The position of the first hyphen of `w`, if any.
fn find_dash(w: &Vec<char>) -> (r: Option<usize>)
    ensures
        match r {
            Some(d) => first_dash_at(w@, d as int),
            None => !has_dash(w@),
        },
{
    let mut i: usize = 0;
    while i < w.len()
        invariant
            i <= w@.len(),
            forall|m: int| 0 <= m < i ==> w@[m] != '-',
        decreases w@.len() - i,
    {
        if w[i] == '-' {
            return Some(i);
        }
        i += 1;
    }
    None
}

/// Builds the prefix index from the raw list of valid prefix strings.
///
/// A listed prefix without a hyphen registers every non-empty strict
/// leading fragment of itself, then stands as terminal. A listed
/// pseudo-form "key-continuation" instead registers the literal pair
/// directly: the key stands as a complete irregular form together with
/// its fixed continuation. The index registers nothing else: every key,
/// terminal mark and continuation traces back to the list, so the
/// contents are a function of the listed strings alone and rebuilding
/// from the same list yields an equivalent index. A malformed list (an
/// empty entry, or more than one hyphen in an entry) is rejected at this
/// boundary: dictionaries and affix lists are startup-time configuration.
pub fn get_prefiks_indexed_in_hash_map(prefiks: &Vec<Vec<char>>) -> (r: PrefixIndex)
    requires
        forall|i: int| 0 <= i < prefiks@.len() ==> prefiks@[i]@.len() >= 1,
        forall|i: int, d1: int, d2: int|
            0 <= i < prefiks@.len() && 0 <= d1 < d2 < prefiks@[i]@.len() ==> !(prefiks@[i]@[d1]
                == '-' && prefiks@[i]@[d2] == '-'),
    ensures
        r.wf(),
        prefix_list_indexed(r, prefiks@, prefiks@.len() as int),
        forall|k: Seq<char>|
            r.has_key_spec(k) ==> listed_prefix_fragment(prefiks@, k) || listed_pseudo_head(
                prefiks@,
                k,
            ),
        forall|k: Seq<char>|
            r.terminal_spec(k) ==> listed_prefix(prefiks@, k) || listed_pseudo_head(prefiks@, k),
        forall|k: Seq<char>, c: Seq<char>|
            r.continuation_spec(k, c) ==> listed_pseudo_pair(prefiks@, k, c),
{
    let mut r = PrefixIndex::new();
    let mut i: usize = 0;
    while i < prefiks.len()
        invariant
            i <= prefiks@.len(),
            r.wf(),
            prefix_list_indexed(r, prefiks@, i as int),
            forall|ii: int| 0 <= ii < prefiks@.len() ==> prefiks@[ii]@.len() >= 1,
            forall|ii: int, d1: int, d2: int|
                0 <= ii < prefiks@.len() && 0 <= d1 < d2 < prefiks@[ii]@.len() ==> !(prefiks@[ii]@[d1]
                    == '-' && prefiks@[ii]@[d2] == '-'),
            forall|k: Seq<char>|
                r.has_key_spec(k) ==> listed_prefix_fragment(prefiks@, k) || listed_pseudo_head(
                    prefiks@,
                    k,
                ),
            forall|k: Seq<char>|
                r.terminal_spec(k) ==> listed_prefix(prefiks@, k) || listed_pseudo_head(
                    prefiks@,
                    k,
                ),
            forall|k: Seq<char>, c: Seq<char>|
                r.continuation_spec(k, c) ==> listed_pseudo_pair(prefiks@, k, c),
        decreases prefiks@.len() - i,
    {
        let p = &prefiks[i];
        match find_dash(p) {
            Some(d) => {
                assert(d < p.len());
                let key = take_word(p, d);
                let cont = sub_word(p, d + 1);
                let ghost r0 = r;
                r.add_continuation(key, cont);
                proof {
                    assert(index_extends(r, r0));
                    lemma_indexed_monotone(r0, r, prefiks@, i as int);
                    assert forall|d2: int| first_dash_at(p@, d2) implies d2 == d as int by {
                        if d2 < d as int {
                            assert(p@[d2] == '-');
                        }
                        if d2 > d as int {
                            assert(p@[d as int] != '-');
                        }
                    }
                    assert(prefix_entry_indexed(r, prefiks@[i as int]@));
                    assert forall|k: Seq<char>|
                        r.has_key_spec(k) implies listed_prefix_fragment(prefiks@, k)
                        || listed_pseudo_head(prefiks@, k) by {
                        if !r0.has_key_spec(k) {
                            assert(k == key@);
                            assert(first_dash_at(prefiks@[i as int]@, d as int) && k
                                == prefiks@[i as int]@.take(d as int));
                            assert(listed_pseudo_head(prefiks@, k));
                        }
                    }
                    assert forall|k: Seq<char>|
                        r.terminal_spec(k) implies listed_prefix(prefiks@, k)
                        || listed_pseudo_head(prefiks@, k) by {
                        if !r0.terminal_spec(k) {
                            assert(k == key@);
                            assert(first_dash_at(prefiks@[i as int]@, d as int) && k
                                == prefiks@[i as int]@.take(d as int));
                            assert(listed_pseudo_head(prefiks@, k));
                        }
                    }
                    assert forall|k: Seq<char>, c: Seq<char>|
                        r.continuation_spec(k, c) implies listed_pseudo_pair(prefiks@, k, c) by {
                        if !r0.continuation_spec(k, c) {
                            assert(k == key@ && c == cont@);
                            assert(first_dash_at(prefiks@[i as int]@, d as int) && k
                                == prefiks@[i as int]@.take(d as int) && c
                                == prefiks@[i as int]@.skip(d as int + 1));
                            assert(listed_pseudo_pair(prefiks@, k, c));
                        }
                    }
                }
            },
            None => {
                let mut j: usize = 1;
                while j < p.len()
                    invariant
                        1 <= j,
                        j <= p@.len() || j == 1,
                        r.wf(),
                        p@ == prefiks@[i as int]@,
                        i < prefiks@.len(),
                        !has_dash(p@),
                        prefix_list_indexed(r, prefiks@, i as int),
                        forall|m: int| 1 <= m < j ==> r.has_key_spec(p@.take(m)),
                        forall|k: Seq<char>|
                            r.has_key_spec(k) ==> listed_prefix_fragment(prefiks@, k)
                                || listed_pseudo_head(prefiks@, k),
                        forall|k: Seq<char>|
                            r.terminal_spec(k) ==> listed_prefix(prefiks@, k)
                                || listed_pseudo_head(prefiks@, k),
                        forall|k: Seq<char>, c: Seq<char>|
                            r.continuation_spec(k, c) ==> listed_pseudo_pair(prefiks@, k, c),
                    decreases p@.len() - j,
                {
                    let frag = take_word(p, j);
                    let ghost r0 = r;
                    r.ensure_key(frag);
                    proof {
                        assert(index_extends(r, r0));
                        lemma_indexed_monotone(r0, r, prefiks@, i as int);
                        assert forall|m: int| 1 <= m < j + 1 implies r.has_key_spec(p@.take(m)) by {
                            if m < j {
                                assert(r0.has_key_spec(p@.take(m)));
                            }
                        }
                        assert forall|k: Seq<char>|
                            r.has_key_spec(k) implies listed_prefix_fragment(prefiks@, k)
                            || listed_pseudo_head(prefiks@, k) by {
                            if !r0.has_key_spec(k) {
                                assert(k == p@.take(j as int));
                                assert(1 <= j as int <= prefiks@[i as int]@.len() && k
                                    == prefiks@[i as int]@.take(j as int));
                                assert(listed_prefix_fragment(prefiks@, k));
                            }
                        }
                    }
                    j += 1;
                }
                let ghost r0 = r;
                r.mark_terminal(copy_word(p));
                proof {
                    assert(index_extends(r, r0));
                    lemma_indexed_monotone(r0, r, prefiks@, i as int);
                    assert forall|m: int| 1 <= m < p@.len() implies r.has_key_spec(p@.take(m)) by {
                        assert(r0.has_key_spec(p@.take(m)));
                    }
                    assert(!has_dash(p@));
                    assert forall|d2: int| !first_dash_at(p@, d2) by {
                        if 0 <= d2 < p@.len() && p@[d2] == '-' {
                            assert(has_dash(p@));
                        }
                    }
                    assert(prefix_entry_indexed(r, prefiks@[i as int]@));
                    assert(prefiks@[i as int]@.take(prefiks@[i as int]@.len() as int)
                        =~= prefiks@[i as int]@);
                    assert forall|k: Seq<char>|
                        r.has_key_spec(k) implies listed_prefix_fragment(prefiks@, k)
                        || listed_pseudo_head(prefiks@, k) by {
                        if !r0.has_key_spec(k) {
                            assert(k == p@);
                            assert(1 <= prefiks@[i as int]@.len() as int <= prefiks@[i as int]@.len()
                                && k == prefiks@[i as int]@.take(
                                prefiks@[i as int]@.len() as int,
                            ));
                            assert(listed_prefix_fragment(prefiks@, k));
                        }
                    }
                    assert forall|k: Seq<char>|
                        r.terminal_spec(k) implies listed_prefix(prefiks@, k) || listed_pseudo_head(
                        prefiks@,
                        k,
                    ) by {
                        if !r0.terminal_spec(k) {
                            assert(k == p@);
                            assert(listed_prefix(prefiks@, k));
                        }
                    }
                }
            },
        }
        i += 1;
    }
    r
}

struct SuffixEntry {
    key: Vec<char>,
    terminal: bool,
}

/// The suffix index, keyed by trailing affix fragments.
pub struct SuffixIndex {
    entries: Vec<SuffixEntry>,
}

impl SuffixIndex {
    /// Well-formed: no fragment is registered twice.
    pub closed spec fn wf(self) -> bool {
        forall|i: int, j: int|
            0 <= i < j < self.entries@.len() ==> self.entries@[i].key@ != self.entries@[j].key@
    }

    /// The fragment `k` is registered.
    pub closed spec fn has_key_spec(self, k: Seq<char>) -> bool {
        exists|i: int| 0 <= i < self.entries@.len() && self.entries@[i].key@ == k
    }

    /// The fragment `k` is registered as a complete standalone affix.
    pub closed spec fn terminal_spec(self, k: Seq<char>) -> bool {
        exists|i: int|
            0 <= i < self.entries@.len() && self.entries@[i].key@ == k && self.entries@[i].terminal
    }

    /// The empty index.
    pub fn new() -> (r: SuffixIndex)
        ensures
            r.wf(),
            forall|k: Seq<char>| !r.has_key_spec(k),
            forall|k: Seq<char>| !r.terminal_spec(k),
    {
        SuffixIndex { entries: Vec::new() }
    }

    fn find(&self, k: &Vec<char>) -> (r: Option<usize>)
        ensures
            match r {
                Some(i) => i < self.entries@.len() && self.entries@[i as int].key@ == k@,
                None => !self.has_key_spec(k@),
            },
    {
        let mut i: usize = 0;
        while i < self.entries.len()
            invariant
                i <= self.entries@.len(),
                forall|j: int| 0 <= j < i ==> self.entries@[j].key@ != k@,
            decreases self.entries@.len() - i,
        {
            if words_eq(&self.entries[i].key, k) {
                return Some(i);
            }
            i += 1;
        }
        None
    }

    /// True when the fragment `k` is registered.
    pub fn has_key(&self, k: &Vec<char>) -> (r: bool)
        ensures
            r == self.has_key_spec(k@),
    {
        match self.find(k) {
            Some(_) => true,
            None => false,
        }
    }

    /// True when the fragment `k` is a complete standalone affix.
    pub fn is_terminal(&self, k: &Vec<char>) -> (r: bool)
        requires
            self.wf(),
        ensures
            r == self.terminal_spec(k@),
    {
        match self.find(k) {
            Some(i) => {
                let r = self.entries[i].terminal;
                proof {
                    if !r && self.terminal_spec(k@) {
                        let j = choose|j: int|
                            0 <= j < self.entries@.len() && self.entries@[j].key@ == k@
                                && self.entries@[j].terminal;
                        assert(j == i as int);
                    }
                }
                r
            },
            None => false,
        }
    }

    /// Registers `k` as a (possibly non-terminal) fragment; a fragment
    /// already present is left as it is.
    fn ensure_key(&mut self, k: Vec<char>)
        requires
            old(self).wf(),
        ensures
            final(self).wf(),
            forall|x: Seq<char>|
                final(self).has_key_spec(x) == (old(self).has_key_spec(x) || x == k@),
            forall|x: Seq<char>| final(self).terminal_spec(x) == old(self).terminal_spec(x),
    {
        match self.find(&k) {
            Some(_) => {
                proof {
                    assert(old(self).has_key_spec(k@));
                }
            },
            None => {
                let ghost n = self.entries@.len();
                self.entries.push(SuffixEntry { key: k, terminal: false });
                proof {
                    self.lemma_push_effect(*old(self), n as int);
                }
            },
        }
    }

    /// Registers `k` as a complete standalone affix.
    fn mark_terminal(&mut self, k: Vec<char>)
        requires
            old(self).wf(),
        ensures
            final(self).wf(),
            forall|x: Seq<char>|
                final(self).has_key_spec(x) == (old(self).has_key_spec(x) || x == k@),
            forall|x: Seq<char>|
                final(self).terminal_spec(x) == (old(self).terminal_spec(x) || x == k@),
    {
        match self.find(&k) {
            Some(i) => {
                self.entries[i].terminal = true;
                proof {
                    self.lemma_update_effect(*old(self), i as int, k@);
                }
            },
            None => {
                let ghost n = self.entries@.len();
                self.entries.push(SuffixEntry { key: k, terminal: true });
                proof {
                    self.lemma_push_effect(*old(self), n as int);
                }
            },
        }
    }

    /// Effect of appending a fresh entry at position `n`.
    proof fn lemma_push_effect(self, prev: SuffixIndex, n: int)
        requires
            prev.wf(),
            0 <= n,
            n == prev.entries@.len(),
            self.entries@.len() == n + 1,
            !prev.has_key_spec(self.entries@[n].key@),
            forall|j: int| 0 <= j < n ==> self.entries@[j] == prev.entries@[j],
        ensures
            self.wf(),
            forall|x: Seq<char>|
                self.has_key_spec(x) == (prev.has_key_spec(x) || x == self.entries@[n].key@),
            forall|x: Seq<char>|
                self.terminal_spec(x) == (prev.terminal_spec(x) || (x == self.entries@[n].key@
                    && self.entries@[n].terminal)),
    {
        let e = self.entries@[n];
        assert forall|i: int, j: int| 0 <= i < j < self.entries@.len() implies self.entries@[i].key@
            != self.entries@[j].key@ by {
            if j == n {
                if self.entries@[i].key@ == e.key@ {
                    assert(prev.has_key_spec(e.key@));
                }
            }
        }
        assert forall|x: Seq<char>| self.has_key_spec(x) implies (prev.has_key_spec(x) || x
            == e.key@) by {
            let i = choose|i: int| 0 <= i < self.entries@.len() && self.entries@[i].key@ == x;
            if i < n {
                assert(prev.entries@[i].key@ == x);
            }
        }
        assert forall|x: Seq<char>| prev.has_key_spec(x) || x == e.key@ implies self.has_key_spec(
            x,
        ) by {
            if prev.has_key_spec(x) {
                let i = choose|i: int| 0 <= i < prev.entries@.len() && prev.entries@[i].key@ == x;
                assert(self.entries@[i].key@ == x);
            } else {
                assert(self.entries@[n].key@ == x);
            }
        }
        assert forall|x: Seq<char>| self.terminal_spec(x) implies (prev.terminal_spec(x) || (x
            == e.key@ && e.terminal)) by {
            let i = choose|i: int|
                0 <= i < self.entries@.len() && self.entries@[i].key@ == x
                    && self.entries@[i].terminal;
            if i < n {
                assert(prev.entries@[i].key@ == x && prev.entries@[i].terminal);
            }
        }
        assert forall|x: Seq<char>| prev.terminal_spec(x) || (x == e.key@ && e.terminal) implies self
            .terminal_spec(x) by {
            if prev.terminal_spec(x) {
                let i = choose|i: int|
                    0 <= i < prev.entries@.len() && prev.entries@[i].key@ == x
                        && prev.entries@[i].terminal;
                assert(self.entries@[i].key@ == x && self.entries@[i].terminal);
            } else {
                assert(self.entries@[n].key@ == x && self.entries@[n].terminal);
            }
        }
    }

    /// Effect of setting the terminal flag of the entry at `i`.
    proof fn lemma_update_effect(self, prev: SuffixIndex, i: int, k: Seq<char>)
        requires
            prev.wf(),
            0 <= i < prev.entries@.len(),
            prev.entries@[i].key@ == k,
            self.entries@.len() == prev.entries@.len(),
            self.entries@[i].key@ == k,
            self.entries@[i].terminal,
            forall|j: int|
                0 <= j < prev.entries@.len() && j != i ==> self.entries@[j] == prev.entries@[j],
        ensures
            self.wf(),
            forall|x: Seq<char>| self.has_key_spec(x) == (prev.has_key_spec(x) || x == k),
            forall|x: Seq<char>| self.terminal_spec(x) == (prev.terminal_spec(x) || x == k),
    {
        assert(forall|j: int|
            0 <= j < self.entries@.len() ==> self.entries@[j].key@ == prev.entries@[j].key@);
        assert forall|x: Seq<char>| self.has_key_spec(x) == (prev.has_key_spec(x) || x == k) by {
            if self.has_key_spec(x) {
                let j = choose|j: int| 0 <= j < self.entries@.len() && self.entries@[j].key@ == x;
                assert(prev.entries@[j].key@ == x);
            }
            if prev.has_key_spec(x) {
                let j = choose|j: int| 0 <= j < prev.entries@.len() && prev.entries@[j].key@ == x;
                assert(self.entries@[j].key@ == x);
            }
            if x == k {
                assert(prev.entries@[i].key@ == x);
            }
        }
        assert forall|x: Seq<char>| self.terminal_spec(x) == (prev.terminal_spec(x) || x == k) by {
            if self.terminal_spec(x) {
                let j = choose|j: int|
                    0 <= j < self.entries@.len() && self.entries@[j].key@ == x
                        && self.entries@[j].terminal;
                if j != i {
                    assert(prev.entries@[j].key@ == x && prev.entries@[j].terminal);
                }
            }
            if prev.terminal_spec(x) {
                let j = choose|j: int|
                    0 <= j < prev.entries@.len() && prev.entries@[j].key@ == x
                        && prev.entries@[j].terminal;
                if j != i {
                    assert(self.entries@[j].key@ == x && self.entries@[j].terminal);
                } else {
                    assert(self.entries@[i].key@ == x && self.entries@[i].terminal);
                }
            }
            if x == k {
                assert(self.entries@[i].key@ == x && self.entries@[i].terminal);
            }
        }
    }
}

/// `k` is a non-empty trailing fragment (possibly all) of a listed
/// suffix.
pub open spec fn listed_suffix_fragment(ss: Seq<Vec<char>>, k: Seq<char>) -> bool {
    exists|i: int, j: int| 0 <= i < ss.len() && 0 <= j < ss[i]@.len() && k == ss[i]@.skip(j)
}

/// `k` is itself a listed suffix.
pub open spec fn listed_suffix(ss: Seq<Vec<char>>, k: Seq<char>) -> bool {
    exists|i: int| 0 <= i < ss.len() && k == ss[i]@
}

/// What the suffix index guarantees for one listed suffix `s`: `s` is
/// itself a key, registered as terminal, and every non-empty strict
/// trailing fragment of it is present.
pub open spec fn suffix_entry_indexed(r: SuffixIndex, s: Seq<char>) -> bool {
    r.terminal_spec(s) && r.has_key_spec(s) && (forall|j: int|
        1 <= j < s.len() ==> r.has_key_spec(s.skip(j)))
}

/// Every listed suffix among the first `n` is indexed as promised.
pub open spec fn suffix_list_indexed(r: SuffixIndex, ss: Seq<Vec<char>>, n: int) -> bool {
    forall|i: int| 0 <= i < n ==> suffix_entry_indexed(r, ss[i]@)
}

/// `r2` registers everything `r1` registers.
pub open spec fn suffix_index_extends(r2: SuffixIndex, r1: SuffixIndex) -> bool {
    (forall|x: Seq<char>| r1.has_key_spec(x) ==> r2.has_key_spec(x)) && (forall|x: Seq<char>|
        r1.terminal_spec(x) ==> r2.terminal_spec(x))
}

proof fn lemma_suffix_indexed_monotone(r1: SuffixIndex, r2: SuffixIndex, ss: Seq<Vec<char>>, n: int)
    requires
        suffix_list_indexed(r1, ss, n),
        suffix_index_extends(r2, r1),
    ensures
        suffix_list_indexed(r2, ss, n),
{
    assert forall|i: int| 0 <= i < n implies suffix_entry_indexed(r2, ss[i]@) by {
        let s = ss[i]@;
        assert(suffix_entry_indexed(r1, s));
        assert(r2.terminal_spec(s));
        assert(r2.has_key_spec(s));
        assert forall|j: int| 1 <= j < s.len() implies r2.has_key_spec(s.skip(j)) by {
            assert(r1.has_key_spec(s.skip(j)));
        }
    }
}

/// Builds the suffix index from the raw list of valid suffix strings: the
/// symmetric construction to the prefix index, indexed by trailing
/// fragments, since suffixes are recognized right to left. The index
/// registers nothing beyond the listed suffixes and their trailing
/// fragments, so the contents are a function of the listed strings alone
/// and rebuilding from the same list yields an equivalent index. An
/// empty listed suffix is rejected at this boundary.
pub fn get_suffiks_indexed_in_hash_map(suffiks: &Vec<Vec<char>>) -> (r: SuffixIndex)
    requires
        forall|i: int| 0 <= i < suffiks@.len() ==> suffiks@[i]@.len() >= 1,
    ensures
        r.wf(),
        suffix_list_indexed(r, suffiks@, suffiks@.len() as int),
        forall|k: Seq<char>| r.has_key_spec(k) ==> listed_suffix_fragment(suffiks@, k),
        forall|k: Seq<char>| r.terminal_spec(k) ==> listed_suffix(suffiks@, k),
{
    let mut r = SuffixIndex::new();
    let mut i: usize = 0;
    while i < suffiks.len()
        invariant
            i <= suffiks@.len(),
            r.wf(),
            suffix_list_indexed(r, suffiks@, i as int),
            forall|ii: int| 0 <= ii < suffiks@.len() ==> suffiks@[ii]@.len() >= 1,
            forall|k: Seq<char>| r.has_key_spec(k) ==> listed_suffix_fragment(suffiks@, k),
            forall|k: Seq<char>| r.terminal_spec(k) ==> listed_suffix(suffiks@, k),
        decreases suffiks@.len() - i,
    {
        let s = &suffiks[i];
        let mut j: usize = 1;
        while j < s.len()
            invariant
                1 <= j,
                j <= s@.len() || j == 1,
                r.wf(),
                s@ == suffiks@[i as int]@,
                i < suffiks@.len(),
                suffix_list_indexed(r, suffiks@, i as int),
                forall|m: int| 1 <= m < j ==> r.has_key_spec(s@.skip(m)),
                forall|k: Seq<char>| r.has_key_spec(k) ==> listed_suffix_fragment(suffiks@, k),
                forall|k: Seq<char>| r.terminal_spec(k) ==> listed_suffix(suffiks@, k),
            decreases s@.len() - j,
        {
            let frag = sub_word(s, j);
            let ghost r0 = r;
            r.ensure_key(frag);
            proof {
                assert(suffix_index_extends(r, r0));
                lemma_suffix_indexed_monotone(r0, r, suffiks@, i as int);
                assert forall|m: int| 1 <= m < j + 1 implies r.has_key_spec(s@.skip(m)) by {
                    if m < j {
                        assert(r0.has_key_spec(s@.skip(m)));
                    }
                }
                assert forall|k: Seq<char>|
                    r.has_key_spec(k) implies listed_suffix_fragment(suffiks@, k) by {
                    if !r0.has_key_spec(k) {
                        assert(k == s@.skip(j as int));
                        assert(0 <= j as int && (j as int) < suffiks@[i as int]@.len() && k
                            == suffiks@[i as int]@.skip(j as int));
                        assert(listed_suffix_fragment(suffiks@, k));
                    }
                }
            }
            j += 1;
        }
        let ghost r0 = r;
        r.mark_terminal(copy_word(s));
        proof {
            assert(suffix_index_extends(r, r0));
            lemma_suffix_indexed_monotone(r0, r, suffiks@, i as int);
            assert forall|m: int| 1 <= m < s@.len() implies r.has_key_spec(s@.skip(m)) by {
                assert(r0.has_key_spec(s@.skip(m)));
            }
            assert(suffix_entry_indexed(r, suffiks@[i as int]@));
            assert(suffiks@[i as int]@.skip(0) =~= suffiks@[i as int]@);
            assert forall|k: Seq<char>|
                r.has_key_spec(k) implies listed_suffix_fragment(suffiks@, k) by {
                if !r0.has_key_spec(k) {
                    assert(k == s@);
                    assert(0 <= 0 < suffiks@[i as int]@.len() && k == suffiks@[i as int]@.skip(0));
                    assert(listed_suffix_fragment(suffiks@, k));
                }
            }
            assert forall|k: Seq<char>| r.terminal_spec(k) implies listed_suffix(suffiks@, k) by {
                if !r0.terminal_spec(k) {
                    assert(k == s@);
                    assert(listed_suffix(suffiks@, k));
                }
            }
        }
        i += 1;
    }
    r
}

} // verus!
