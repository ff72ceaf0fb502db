//! The recursive stemming driver.
//!
//! `stem` first looks the word up in the root-word dictionary, then runs
//! the precedence matcher, the three suffix rule groups and the ordered
//! prefix rule groups, recursing on each successful strip until a
//! dictionary hit, rule exhaustion, or a previously visited word form
//! recurs. The per-call visited set only ever grows and stops the search
//! from oscillating between mutually inverting rules; an explicit rule
//! application budget proportional to the word's length bounds the
//! recursion, so the driver is total.

use vstd::prelude::*;

use crate::index::{
    get_prefiks_indexed_in_hash_map, listed_prefix, listed_prefix_fragment, listed_pseudo_head,
    listed_pseudo_pair, prefix_list_indexed, PrefixIndex,
};
use crate::precedence::{precedence_matches, precedence_spec};
use crate::rules::{
    alt_count, alt_count_spec, frag_len, frag_len_spec, opt_word_view, prefix_candidate,
    prefix_candidate_spec, suffix_candidate, suffix_candidate_spec, MIN_STEM_LEN,
    PREFIX_GROUP_COUNT, SUFFIX_GROUP_COUNT,
};
use crate::words::{copy_word, take_word, words_eq, WordSet};

verus! {

/// The views of the words in a visited list.
pub open spec fn views_of(vs: Seq<Vec<char>>) -> Seq<Seq<char>> {
    vs.map_values(|v: Vec<char>| v@)
}

/// True when some word of `vis` reads `w`.
fn visited_contains(vis: &Vec<Vec<char>>, w: &Vec<char>) -> (r: bool)
    ensures
        r == views_of(vis@).contains(w@),
{
    let mut l: usize = 0;
    while l < vis.len()
        invariant
            l <= vis@.len(),
            forall|m: int| 0 <= m < l ==> vis@[m]@ != w@,
        decreases vis@.len() - l,
    {
        if words_eq(&vis[l], w) {
            proof {
                assert(views_of(vis@)[l as int] == w@);
            }
            return true;
        }
        l += 1;
    }
    proof {
        if views_of(vis@).contains(w@) {
            let m = choose|m: int| 0 <= m < views_of(vis@).len() && views_of(vis@)[m] == w@;
            assert(vis@[m]@ == w@);
        }
    }
    false
}

/// A stemming session: the immutable root-word dictionary and the prefix
/// index built once from the raw prefix list, shared by every call.
pub struct Stemmer {
    pub roots: WordSet,
    pub prefixes: PrefixIndex,
}

impl Stemmer {
    /// Well-formed: the dictionary and the index hold no duplicates.
    pub open spec fn wf(self) -> bool {
        self.roots.wf() && self.prefixes.wf()
    }

    /// The word is in the root-word dictionary.
    pub open spec fn is_root_spec(self, w: Seq<char>) -> bool {
        self.roots.contains_word(w)
    }

    /// The fragment that alternative `a` of group `g` strips is a valid
    /// affix cut point: either the rule's own constraint enforces the
    /// boundary, or the fragment is terminal in the prefix index.
    pub open spec fn frag_ok_spec(self, g: int, a: int, w: Seq<char>) -> bool {
        frag_len_spec(g, a, w) == 0 || (frag_len_spec(g, a, w) <= w.len()
            && self.prefixes.terminal_spec(w.take(frag_len_spec(g, a, w))))
    }

    /// The candidate stem that alternative `a` of group `g` yields, after
    /// the minimum-length floor and the affix index validation.
    pub open spec fn valid_candidate_spec(self, g: int, a: int, w: Seq<char>) -> Option<Seq<char>> {
        match prefix_candidate_spec(g, a, w) {
            Some(c) => if c.len() >= MIN_STEM_LEN && self.frag_ok_spec(g, a, w) {
                Some(c)
            } else {
                None
            },
            None => None,
        }
    }

    /// Some alternative of group `g` yields a valid candidate for `w`.
    pub open spec fn group_applicable_spec(self, g: int, w: Seq<char>) -> bool {
        exists|a: int| 0 <= a < alt_count_spec(g) && self.valid_candidate_spec(g, a, w) is Some
    }

    /// The first applicable prefix group at or after `g`, or the group
    /// count when none applies.
    pub open spec fn first_group_spec(self, w: Seq<char>, g: int) -> int
        decreases PREFIX_GROUP_COUNT as int - g when 0 <= g <= PREFIX_GROUP_COUNT as int
    {
        if g < 0 || g >= PREFIX_GROUP_COUNT as int {
            PREFIX_GROUP_COUNT as int
        } else if self.group_applicable_spec(g, w) {
            g
        } else {
            self.first_group_spec(w, g + 1)
        }
    }

    /// Tries the alternatives of group `g` from `a` on, in listed order:
    /// the first alternative whose entire subsequent pipeline reaches a
    /// dictionary hit wins; when none does, the first valid alternative's
    /// result is kept as the best-effort answer. Returns the hit flag,
    /// the kept result (`None` when no alternative was valid), and the
    /// grown visited set.
    pub open spec fn alts_spec(
        self,
        w: Seq<char>,
        g: int,
        a: int,
        vis: Seq<Seq<char>>,
        fuel: nat,
    ) -> (bool, Option<Seq<char>>, Seq<Seq<char>>)
        decreases fuel, 0int, alt_count_spec(g) - a
            when 0 <= a && (a < alt_count_spec(g) ==> alt_count_spec(g) - a >= 0)
    {
        if a < 0 || a >= alt_count_spec(g) {
            (false, None, vis)
        } else {
            match self.valid_candidate_spec(g, a, w) {
                None => self.alts_spec(w, g, a + 1, vis, fuel),
                Some(c) => {
                    if self.is_root_spec(c) {
                        (true, Some(c), vis)
                    } else if vis.contains(c) {
                        let r = self.alts_spec(w, g, a + 1, vis, fuel);
                        if r.0 {
                            r
                        } else {
                            (false, Some(c), r.2)
                        }
                    } else if fuel == 0 {
                        (false, Some(c), vis)
                    } else {
                        let s = self.step_spec(c, vis.push(c), (fuel - 1) as nat);
                        if s.0 {
                            (true, Some(s.1), s.2)
                        } else {
                            let r = self.alts_spec(w, g, a + 1, s.2, fuel);
                            if r.0 {
                                r
                            } else {
                                (false, Some(s.1), r.2)
                            }
                        }
                    }
                },
            }
        }
    }

    /// One derivation step: applies the first applicable prefix rule
    /// group to `w` and resolves its alternatives. When no group applies,
    /// `w` itself is the exhausted best-effort result.
    pub open spec fn step_spec(self, w: Seq<char>, vis: Seq<Seq<char>>, fuel: nat) -> (
        bool,
        Seq<char>,
        Seq<Seq<char>>,
    )
        decreases fuel, 1int, 0int
    {
        let g = self.first_group_spec(w, 0);
        if g >= PREFIX_GROUP_COUNT as int {
            (false, w, vis)
        } else {
            let r = self.alts_spec(w, g, 0, vis, fuel);
            match r.1 {
                Some(res) => (r.0, res, r.2),
                None => (false, w, r.2),
            }
        }
    }

    /// The suffix phase: the three suffix rule groups applied in order,
    /// each conditioned on the previous output, with a dictionary check
    /// after each successful strip.
    pub open spec fn suffix_phase_spec(self, w: Seq<char>, gi: int) -> (bool, Seq<char>)
        decreases SUFFIX_GROUP_COUNT as int - gi when 0 <= gi <= SUFFIX_GROUP_COUNT as int
    {
        if gi < 0 || gi >= SUFFIX_GROUP_COUNT as int {
            (false, w)
        } else {
            match suffix_candidate_spec(gi, w) {
                Some(c) => if c.len() >= MIN_STEM_LEN {
                    if self.is_root_spec(c) {
                        (true, c)
                    } else {
                        self.suffix_phase_spec(c, gi + 1)
                    }
                } else {
                    self.suffix_phase_spec(w, gi + 1)
                },
                None => self.suffix_phase_spec(w, gi + 1),
            }
        }
    }

    /// The standard order: suffixes first, then the prefix loop.
    pub open spec fn standard_pipeline_spec(
        self,
        w: Seq<char>,
        vis: Seq<Seq<char>>,
        fuel: nat,
    ) -> (bool, Seq<char>, Seq<Seq<char>>) {
        let s = self.suffix_phase_spec(w, 0);
        if s.0 {
            (true, s.1, vis)
        } else {
            self.step_spec(s.1, vis.push(s.1), fuel)
        }
    }

    /// The reordered pipeline a precedence match asks for: the prefix
    /// loop first, then the suffix phase on its result.
    pub open spec fn prefix_first_pipeline_spec(
        self,
        w: Seq<char>,
        vis: Seq<Seq<char>>,
        fuel: nat,
    ) -> (bool, Seq<char>, Seq<Seq<char>>) {
        let t = self.step_spec(w, vis.push(w), fuel);
        if t.0 {
            t
        } else {
            let s = self.suffix_phase_spec(t.1, 0);
            (s.0, s.1, t.2)
        }
    }

    /// The rule application budget: proportional to the word's length.
    pub open spec fn stem_fuel(w: Seq<char>) -> nat {
        (2 * w.len() + 4) as nat
    }

    /// What `stem` returns: the dictionary word itself on an immediate
    /// hit; under a precedence match, the prefix-first pipeline's hit,
    /// else the standard pipeline's hit, else the prefix-first pipeline's
    /// best effort; otherwise the standard pipeline's result.
    pub open spec fn stem_spec(self, w: Seq<char>) -> Seq<char> {
        if self.is_root_spec(w) {
            w
        } else if precedence_spec(w) {
            let p = self.prefix_first_pipeline_spec(w, Seq::empty(), Self::stem_fuel(w));
            if p.0 {
                p.1
            } else {
                let s = self.standard_pipeline_spec(w, p.2, Self::stem_fuel(w));
                if s.0 {
                    s.1
                } else {
                    p.1
                }
            }
        } else {
            self.standard_pipeline_spec(w, Seq::empty(), Self::stem_fuel(w)).1
        }
    }

    /// Builds a stemming session from the root-word dictionary and the
    /// raw prefix list.
    pub fn new(root_words: WordSet, prefiks: &Vec<Vec<char>>) -> (st: Stemmer)
        requires
            root_words.wf(),
            forall|i: int| 0 <= i < prefiks@.len() ==> prefiks@[i]@.len() >= 1,
            forall|i: int, d1: int, d2: int|
                0 <= i < prefiks@.len() && 0 <= d1 < d2 < prefiks@[i]@.len() ==> !(prefiks@[i]@[d1]
                    == '-' && prefiks@[i]@[d2] == '-'),
        ensures
            st.wf(),
            st.roots == root_words,
            prefix_list_indexed(st.prefixes, prefiks@, prefiks@.len() as int),
            forall|k: Seq<char>|
                st.prefixes.has_key_spec(k) ==> listed_prefix_fragment(prefiks@, k)
                    || listed_pseudo_head(prefiks@, k),
            forall|k: Seq<char>|
                st.prefixes.terminal_spec(k) ==> listed_prefix(prefiks@, k) || listed_pseudo_head(
                    prefiks@,
                    k,
                ),
            forall|k: Seq<char>, c: Seq<char>|
                st.prefixes.continuation_spec(k, c) ==> listed_pseudo_pair(prefiks@, k, c),
    {
        let prefixes = get_prefiks_indexed_in_hash_map(prefiks);
        Stemmer { roots: root_words, prefixes }
    }

    fn frag_ok(&self, g: usize, a: usize, w: &Vec<char>) -> (r: bool)
        requires
            self.wf(),
        ensures
            r == self.frag_ok_spec(g as int, a as int, w@),
    {
        let fl = frag_len(g, a, w);
        if fl == 0 {
            true
        } else if fl > w.len() {
            false
        } else {
            let frag = take_word(w, fl);
            self.prefixes.is_terminal(&frag)
        }
    }

    fn valid_candidate(&self, g: usize, a: usize, w: &Vec<char>) -> (r: Option<Vec<char>>)
        requires
            self.wf(),
            g < PREFIX_GROUP_COUNT,
        ensures
            opt_word_view(r) == self.valid_candidate_spec(g as int, a as int, w@),
    {
        match prefix_candidate(g, a, w) {
            Some(c) => {
                if c.len() >= MIN_STEM_LEN && self.frag_ok(g, a, w) {
                    Some(c)
                } else {
                    None
                }
            },
            None => None,
        }
    }

    fn group_applicable(&self, g: usize, w: &Vec<char>) -> (r: bool)
        requires
            self.wf(),
            g < PREFIX_GROUP_COUNT,
        ensures
            r == self.group_applicable_spec(g as int, w@),
    {
        let n = alt_count(g);
        let mut a: usize = 0;
        while a < n
            invariant
                a <= n,
                n == alt_count_spec(g as int),
                self.wf(),
                g < PREFIX_GROUP_COUNT,
                forall|b: int|
                    0 <= b < a ==> !(self.valid_candidate_spec(g as int, b, w@) is Some),
            decreases n - a,
        {
            match self.valid_candidate(g, a, w) {
                Some(_) => {
                    proof {
                        assert(self.valid_candidate_spec(g as int, a as int, w@) is Some);
                    }
                    return true;
                },
                None => {},
            }
            a += 1;
        }
        false
    }

    fn first_group(&self, w: &Vec<char>) -> (g: usize)
        requires
            self.wf(),
        ensures
            g as int == self.first_group_spec(w@, 0),
            g <= PREFIX_GROUP_COUNT,
            g < PREFIX_GROUP_COUNT ==> self.group_applicable_spec(g as int, w@),
    {
        let mut g: usize = 0;
        while g < PREFIX_GROUP_COUNT
            invariant
                g <= PREFIX_GROUP_COUNT,
                self.wf(),
                self.first_group_spec(w@, 0) == self.first_group_spec(w@, g as int),
            decreases PREFIX_GROUP_COUNT - g,
        {
            if self.group_applicable(g, w) {
                proof {
                    assert(self.first_group_spec(w@, g as int) == g as int);
                }
                return g;
            }
            proof {
                assert(self.first_group_spec(w@, g as int) == self.first_group_spec(
                    w@,
                    g as int + 1,
                ));
            }
            g += 1;
        }
        proof {
            assert(self.first_group_spec(w@, PREFIX_GROUP_COUNT as int)
                == PREFIX_GROUP_COUNT as int);
        }
        g
    }

    fn try_alts(&self, w: &Vec<char>, g: usize, a: usize, vis: Vec<Vec<char>>, fuel: usize) -> (r: (
        bool,
        Option<Vec<char>>,
        Vec<Vec<char>>,
    ))
        requires
            self.wf(),
            g < PREFIX_GROUP_COUNT,
        ensures
            ({
                let s = self.alts_spec(w@, g as int, a as int, views_of(vis@), fuel as nat);
                r.0 == s.0 && opt_word_view(r.1) == s.1 && views_of(r.2@) == s.2
            }),
        decreases fuel, 0int, alt_count_spec(g as int) - a,
    {
        let n = alt_count(g);
        if a >= n {
            return (false, None, vis);
        }
        match self.valid_candidate(g, a, w) {
            None => self.try_alts(w, g, a + 1, vis, fuel),
            Some(c) => {
                if self.roots.contains(&c) {
                    (true, Some(c), vis)
                } else if visited_contains(&vis, &c) {
                    let (rh, rr, rv) = self.try_alts(w, g, a + 1, vis, fuel);
                    if rh {
                        (rh, rr, rv)
                    } else {
                        (false, Some(c), rv)
                    }
                } else if fuel == 0 {
                    (false, Some(c), vis)
                } else {
                    let ghost vis0 = vis@;
                    let mut vis2 = vis;
                    vis2.push(copy_word(&c));
                    proof {
                        assert(views_of(vis2@) =~= views_of(vis0).push(c@));
                    }
                    let (sh, sres, svis) = self.step_rec(&c, vis2, fuel - 1);
                    if sh {
                        (true, Some(sres), svis)
                    } else {
                        let (rh, rr, rv) = self.try_alts(w, g, a + 1, svis, fuel);
                        if rh {
                            (rh, rr, rv)
                        } else {
                            (false, Some(sres), rv)
                        }
                    }
                }
            },
        }
    }

    fn step_rec(&self, w: &Vec<char>, vis: Vec<Vec<char>>, fuel: usize) -> (r: (
        bool,
        Vec<char>,
        Vec<Vec<char>>,
    ))
        requires
            self.wf(),
        ensures
            ({
                let s = self.step_spec(w@, views_of(vis@), fuel as nat);
                r.0 == s.0 && r.1@ == s.1 && views_of(r.2@) == s.2
            }),
        decreases fuel, 1int, 0int,
    {
        let g = self.first_group(w);
        if g == PREFIX_GROUP_COUNT {
            (false, copy_word(w), vis)
        } else {
            let (rh, rr, rv) = self.try_alts(w, g, 0, vis, fuel);
            match rr {
                Some(res) => (rh, res, rv),
                None => (false, copy_word(w), rv),
            }
        }
    }

    fn suffix_phase(&self, w: &Vec<char>) -> (r: (bool, Vec<char>))
        requires
            self.wf(),
        ensures
            ({
                let s = self.suffix_phase_spec(w@, 0);
                r.0 == s.0 && r.1@ == s.1
            }),
    {
        let mut cur = copy_word(w);
        let mut gi: usize = 0;
        while gi < SUFFIX_GROUP_COUNT
            invariant
                gi <= SUFFIX_GROUP_COUNT,
                self.wf(),
                self.suffix_phase_spec(w@, 0) == self.suffix_phase_spec(cur@, gi as int),
            decreases SUFFIX_GROUP_COUNT - gi,
        {
            match suffix_candidate(gi, &cur) {
                Some(c) => {
                    if c.len() >= MIN_STEM_LEN {
                        if self.roots.contains(&c) {
                            proof {
                                assert(self.suffix_phase_spec(cur@, gi as int) == (true, c@));
                            }
                            return (true, c);
                        }
                        proof {
                            assert(self.suffix_phase_spec(cur@, gi as int)
                                == self.suffix_phase_spec(c@, gi as int + 1));
                        }
                        cur = c;
                    } else {
                        proof {
                            assert(self.suffix_phase_spec(cur@, gi as int)
                                == self.suffix_phase_spec(cur@, gi as int + 1));
                        }
                    }
                },
                None => {
                    proof {
                        assert(self.suffix_phase_spec(cur@, gi as int) == self.suffix_phase_spec(
                            cur@,
                            gi as int + 1,
                        ));
                    }
                },
            }
            gi += 1;
        }
        (false, cur)
    }

    fn standard_pipeline(&self, w: &Vec<char>, vis: Vec<Vec<char>>, fuel: usize) -> (r: (
        bool,
        Vec<char>,
        Vec<Vec<char>>,
    ))
        requires
            self.wf(),
        ensures
            ({
                let s = self.standard_pipeline_spec(w@, views_of(vis@), fuel as nat);
                r.0 == s.0 && r.1@ == s.1 && views_of(r.2@) == s.2
            }),
    {
        let (sh, sres) = self.suffix_phase(w);
        if sh {
            (true, sres, vis)
        } else {
            let ghost vis0 = vis@;
            let mut vis2 = vis;
            vis2.push(copy_word(&sres));
            proof {
                assert(views_of(vis2@) =~= views_of(vis0).push(sres@));
            }
            self.step_rec(&sres, vis2, fuel)
        }
    }

    fn prefix_first_pipeline(&self, w: &Vec<char>, vis: Vec<Vec<char>>, fuel: usize) -> (r: (
        bool,
        Vec<char>,
        Vec<Vec<char>>,
    ))
        requires
            self.wf(),
        ensures
            ({
                let s = self.prefix_first_pipeline_spec(w@, views_of(vis@), fuel as nat);
                r.0 == s.0 && r.1@ == s.1 && views_of(r.2@) == s.2
            }),
    {
        let ghost vis0 = vis@;
        let mut vis2 = vis;
        vis2.push(copy_word(w));
        proof {
            assert(views_of(vis2@) =~= views_of(vis0).push(w@));
        }
        let (th, tres, tvis) = self.step_rec(w, vis2, fuel);
        if th {
            (th, tres, tvis)
        } else {
            let (sh, sres) = self.suffix_phase(&tres);
            (sh, sres, tvis)
        }
    }

    /// Stems one word: a total function that never fails. A word already
    /// in the dictionary is returned unchanged; otherwise the driver runs
    /// the pipelines in the order the precedence matcher dictates and
    /// returns the dictionary hit, or its best-effort most-stripped
    /// candidate when no pipeline reaches the dictionary.
    pub fn stem(&self, w: &Vec<char>) -> (r: Vec<char>)
        requires
            self.wf(),
            w@.len() <= 0x1000_0000,
        ensures
            r@ == self.stem_spec(w@),
            self.is_root_spec(w@) ==> r@ == w@,
            self.stem_resolved_spec(w@) ==> self.is_root_spec(r@),
    {
        proof {
            if self.stem_resolved_spec(w@) {
                lemma_resolved_stem_is_root(*self, w@);
            }
        }
        if self.roots.contains(w) {
            return copy_word(w);
        }
        let fuel: usize = 2 * w.len() + 4;
        if precedence_matches(w) {
            let empty1: Vec<Vec<char>> = Vec::new();
            proof {
                assert(views_of(empty1@) =~= Seq::<Seq<char>>::empty());
            }
            let (ph, pres, pvis) = self.prefix_first_pipeline(w, empty1, fuel);
            if ph {
                pres
            } else {
                let (sh, sres, _svis) = self.standard_pipeline(w, pvis, fuel);
                if sh {
                    sres
                } else {
                    pres
                }
            }
        } else {
            let empty2: Vec<Vec<char>> = Vec::new();
            proof {
                assert(views_of(empty2@) =~= Seq::<Seq<char>>::empty());
            }
            let (_h, res, _vis) = self.standard_pipeline(w, empty2, fuel);
            res
        }
    }
}

impl Stemmer {
    /// True when `stem` resolves `w` to a dictionary hit rather than a
    /// best-effort candidate.
    pub open spec fn stem_resolved_spec(self, w: Seq<char>) -> bool {
        if self.is_root_spec(w) {
            true
        } else if precedence_spec(w) {
            let p = self.prefix_first_pipeline_spec(w, Seq::empty(), Self::stem_fuel(w));
            p.0 || self.standard_pipeline_spec(w, p.2, Self::stem_fuel(w)).0
        } else {
            self.standard_pipeline_spec(w, Seq::empty(), Self::stem_fuel(w)).0
        }
    }
}

proof fn lemma_alts_hit_is_root(
    st: Stemmer,
    w: Seq<char>,
    g: int,
    a: int,
    vis: Seq<Seq<char>>,
    fuel: nat,
)
    requires
        0 <= a,
    ensures
        ({
            let r = st.alts_spec(w, g, a, vis, fuel);
            r.0 ==> match r.1 {
                Some(c) => st.is_root_spec(c),
                None => false,
            }
        }),
    decreases fuel, 0int, alt_count_spec(g) - a,
{
    if a >= alt_count_spec(g) {
    } else {
        match st.valid_candidate_spec(g, a, w) {
            None => {
                lemma_alts_hit_is_root(st, w, g, a + 1, vis, fuel);
            },
            Some(c) => {
                if st.is_root_spec(c) {
                } else if vis.contains(c) {
                    lemma_alts_hit_is_root(st, w, g, a + 1, vis, fuel);
                } else if fuel == 0 {
                } else {
                    lemma_step_hit_is_root(st, c, vis.push(c), (fuel - 1) as nat);
                    let s = st.step_spec(c, vis.push(c), (fuel - 1) as nat);
                    if !s.0 {
                        lemma_alts_hit_is_root(st, w, g, a + 1, s.2, fuel);
                    }
                }
            },
        }
    }
}

proof fn lemma_first_group_bounds(st: Stemmer, w: Seq<char>, g: int)
    requires
        0 <= g <= PREFIX_GROUP_COUNT as int,
    ensures
        g <= st.first_group_spec(w, g) <= PREFIX_GROUP_COUNT as int,
    decreases PREFIX_GROUP_COUNT as int - g,
{
    if g < PREFIX_GROUP_COUNT as int && !st.group_applicable_spec(g, w) {
        lemma_first_group_bounds(st, w, g + 1);
    }
}

proof fn lemma_step_hit_is_root(st: Stemmer, w: Seq<char>, vis: Seq<Seq<char>>, fuel: nat)
    ensures
        ({
            let s = st.step_spec(w, vis, fuel);
            s.0 ==> st.is_root_spec(s.1)
        }),
    decreases fuel, 1int, 0int,
{
    lemma_first_group_bounds(st, w, 0);
    let g = st.first_group_spec(w, 0);
    if 0 <= g < PREFIX_GROUP_COUNT as int {
        lemma_alts_hit_is_root(st, w, g, 0, vis, fuel);
    }
}

proof fn lemma_suffix_hit_is_root(st: Stemmer, w: Seq<char>, gi: int)
    requires
        0 <= gi <= SUFFIX_GROUP_COUNT as int,
    ensures
        ({
            let s = st.suffix_phase_spec(w, gi);
            s.0 ==> st.is_root_spec(s.1)
        }),
    decreases SUFFIX_GROUP_COUNT as int - gi,
{
    if gi < SUFFIX_GROUP_COUNT as int {
        match suffix_candidate_spec(gi, w) {
            Some(c) => {
                if c.len() >= MIN_STEM_LEN {
                    if !st.is_root_spec(c) {
                        lemma_suffix_hit_is_root(st, c, gi + 1);
                    }
                } else {
                    lemma_suffix_hit_is_root(st, w, gi + 1);
                }
            },
            None => {
                lemma_suffix_hit_is_root(st, w, gi + 1);
            },
        }
    }
}

proof fn lemma_standard_hit_is_root(st: Stemmer, w: Seq<char>, vis: Seq<Seq<char>>, fuel: nat)
    ensures
        ({
            let s = st.standard_pipeline_spec(w, vis, fuel);
            s.0 ==> st.is_root_spec(s.1)
        }),
{
    lemma_suffix_hit_is_root(st, w, 0);
    let s = st.suffix_phase_spec(w, 0);
    if !s.0 {
        lemma_step_hit_is_root(st, s.1, vis.push(s.1), fuel);
    }
}

proof fn lemma_prefix_first_hit_is_root(st: Stemmer, w: Seq<char>, vis: Seq<Seq<char>>, fuel: nat)
    ensures
        ({
            let p = st.prefix_first_pipeline_spec(w, vis, fuel);
            p.0 ==> st.is_root_spec(p.1)
        }),
{
    lemma_step_hit_is_root(st, w, vis.push(w), fuel);
    let t = st.step_spec(w, vis.push(w), fuel);
    if !t.0 {
        lemma_suffix_hit_is_root(st, t.1, 0);
    }
}

/// Law: dictionary priming. A word already in the Root-Word Set stems to
/// itself.
pub proof fn lemma_dictionary_priming(st: Stemmer, w: Seq<char>)
    requires
        st.is_root_spec(w),
    ensures
        st.stem_spec(w) == w,
{
}

/// Law: a resolved stem is itself a dictionary root. Whenever the driver
/// reports a dictionary hit, the word it returns is in the Root-Word Set.
pub proof fn lemma_resolved_stem_is_root(st: Stemmer, w: Seq<char>)
    requires
        st.stem_resolved_spec(w),
    ensures
        st.is_root_spec(st.stem_spec(w)),
{
    if st.is_root_spec(w) {
    } else if precedence_spec(w) {
        let fuel = Stemmer::stem_fuel(w);
        lemma_prefix_first_hit_is_root(st, w, Seq::empty(), fuel);
        let p = st.prefix_first_pipeline_spec(w, Seq::empty(), fuel);
        if !p.0 {
            lemma_standard_hit_is_root(st, w, p.2, fuel);
        }
    } else {
        lemma_standard_hit_is_root(st, w, Seq::empty(), Stemmer::stem_fuel(w));
    }
}

/// Law: idempotence. Stemming is idempotent on every word whose stem
/// resolves to a dictionary hit — so in particular on every word that is
/// already a dictionary root.
pub proof fn lemma_stem_idempotent(st: Stemmer, w: Seq<char>)
    requires
        st.stem_resolved_spec(w),
    ensures
        st.stem_spec(st.stem_spec(w)) == st.stem_spec(w),
{
    lemma_resolved_stem_is_root(st, w);
    lemma_dictionary_priming(st, st.stem_spec(w));
}

proof fn lemma_alts_first_root_wins_from(
    st: Stemmer,
    w: Seq<char>,
    g: int,
    b: int,
    a: int,
    vis: Seq<Seq<char>>,
    fuel: nat,
)
    requires
        0 <= b <= a < alt_count_spec(g),
        forall|m: int| b <= m < a ==> !(st.valid_candidate_spec(g, m, w) is Some),
        match st.valid_candidate_spec(g, a, w) {
            Some(c) => st.is_root_spec(c),
            None => false,
        },
    ensures
        st.alts_spec(w, g, b, vis, fuel) == (true, st.valid_candidate_spec(g, a, w), vis),
    decreases a - b,
{
    if b == a {
    } else {
        lemma_alts_first_root_wins_from(st, w, g, b + 1, a, vis, fuel);
    }
}

/// Law: ambiguous-rule resolution. Within a prefix rule group, when every
/// alternative before `a` is inapplicable and alternative `a` yields a
/// candidate that is a dictionary word, the driver selects exactly that
/// alternative's result, immediately and without growing the visited set.
pub proof fn lemma_ambiguous_rule_resolution(
    st: Stemmer,
    w: Seq<char>,
    g: int,
    a: int,
    vis: Seq<Seq<char>>,
    fuel: nat,
)
    requires
        0 <= a < alt_count_spec(g),
        forall|m: int| 0 <= m < a ==> !(st.valid_candidate_spec(g, m, w) is Some),
        match st.valid_candidate_spec(g, a, w) {
            Some(c) => st.is_root_spec(c),
            None => false,
        },
    ensures
        st.alts_spec(w, g, 0, vis, fuel) == (true, st.valid_candidate_spec(g, a, w), vis),
{
    lemma_alts_first_root_wins_from(st, w, g, 0, a, vis, fuel);
}

/// Law: suffix-then-prefix ordering. Outside the precedence patterns, a
/// word not in the dictionary goes through the standard pipeline, whose
/// suffix phase runs before any prefix rule; when the suffix phase alone
/// reaches a dictionary word, that word is the stem and the prefix rules
/// are never consulted.
pub proof fn lemma_suffix_then_prefix_order(st: Stemmer, w: Seq<char>)
    requires
        !st.is_root_spec(w),
        !precedence_spec(w),
    ensures
        st.stem_spec(w) == st.standard_pipeline_spec(w, Seq::empty(), Stemmer::stem_fuel(w)).1,
        ({
            let s = st.suffix_phase_spec(w, 0);
            s.0 ==> st.stem_spec(w) == s.1
        }),
{
}

/// Law: precedence override. A word matching a precedence pattern follows
/// the reordered, prefix-first pipeline: whenever that pipeline reaches a
/// dictionary hit, its result is the stem, and only when it does not is
/// the standard order consulted at all.
pub proof fn lemma_precedence_override(st: Stemmer, w: Seq<char>)
    requires
        !st.is_root_spec(w),
        precedence_spec(w),
    ensures
        ({
            let p = st.prefix_first_pipeline_spec(w, Seq::empty(), Stemmer::stem_fuel(w));
            p.0 ==> st.stem_spec(w) == p.1
        }),
{
}

} // verus!
