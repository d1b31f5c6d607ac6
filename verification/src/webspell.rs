//! Training of the spell model's n-gram counts: every window of the
//! training text contributes each of its prefixes, and a rotated copy of
//! the whole window, to the counts. The file-backed model that serves
//! lookups afterwards is storage and stays with the caller; the counting
//! is verified here.

use vstd::prelude::*;

verus! {

/// An n-gram: a short run of consecutive terms.
#[derive(Debug, Clone, PartialEq, Eq, PartialOrd, Ord)]
pub struct Ngram {
    pub terms: Vec<String>,
}

/// An n-gram in its stored form: the terms joined by single spaces.
#[derive(Debug, Clone)]
pub struct StoredNgram {
    pub combined: String,
}

/// The terms joined by single spaces.
pub open spec fn join_spec(parts: Seq<Seq<char>>) -> Seq<char>
    decreases parts.len(),
{
    if parts.len() == 0 {
        Seq::empty()
    } else if parts.len() == 1 {
        parts.last()
    } else {
        join_spec(parts.drop_last()) + seq![' '] + parts.last()
    }
}

impl StoredNgram {
    /// The stored form of an n-gram.
    pub fn from_ngram(n: &Ngram) -> (r: StoredNgram)
        ensures
            r.combined@ == join_spec(n.terms.deep_view()),
    {
        let mut combined = String::new();
        let mut i: usize = 0;
        proof {
            reveal_strlit(" ");
        }
        while i < n.terms.len()
            invariant
                i <= n.terms@.len(),
                " "@ =~= seq![' '],
                combined@ =~= join_spec(n.terms.deep_view().take(i as int)),
            decreases n.terms@.len() - i,
        {
            if i > 0 {
                combined.append(" ");
            }
            combined.append(n.terms[i].as_str());
            proof {
                assert(n.terms.deep_view()[i as int] == n.terms@[i as int]@);
                assert(n.terms.deep_view().take(i + 1).drop_last() =~= n.terms.deep_view().take(
                    i as int,
                ));
                assert(n.terms.deep_view().take(i + 1).last() == n.terms.deep_view()[i as int]);
                if i == 0 {
                    assert(combined@ =~= join_spec(n.terms.deep_view().take(1)));
                }
            }
            i = i + 1;
        }
        proof {
            assert(n.terms.deep_view().take(n.terms.deep_view().len() as int) =~= n.terms
                .deep_view());
        }
        StoredNgram { combined }
    }
}

/// Chooses which end of the word window the next backoff step drops.
/// Each strategy also has an `inverse` that walks the mirrored direction,
/// as an inherent method of its own type.
pub trait NextWordsStrategy: Sized {
    /// Whether the next step drops the first word (else the last).
    spec fn drops_first(&self) -> bool;

    /// The strategy's state after one step.
    spec fn stepped(&self) -> Self;

    /// The words the next backoff step scores.
    fn next_words<'a>(&mut self, words: &'a [String]) -> (r: &'a [String])
        requires
            words@.len() > 0,
        ensures
            old(self).drops_first() ==> r@ == words@.drop_first(),
            !old(self).drops_first() ==> r@ == words@.drop_last(),
            *final(self) == old(self).stepped(),
    ;
}

/// Backoff from the left: each step drops the first word.
pub struct LeftToRight;

/// Backoff from the right: each step drops the last word.
pub struct RightToLeft;

impl LeftToRight {
    /// The strategy that walks the mirrored direction.
    pub fn inverse(self) -> (r: RightToLeft) {
        RightToLeft
    }
}

impl NextWordsStrategy for LeftToRight {
    open spec fn drops_first(&self) -> bool {
        true
    }

    open spec fn stepped(&self) -> Self {
        LeftToRight
    }

    fn next_words<'a>(&mut self, words: &'a [String]) -> (r: &'a [String]) {
        let r = vstd::slice::slice_subrange(words, 1, words.len());
        proof {
            assert(r@ =~= words@.drop_first());
        }
        r
    }
}

impl RightToLeft {
    /// The strategy that walks the mirrored direction.
    pub fn inverse(self) -> (r: LeftToRight) {
        LeftToRight
    }
}

impl NextWordsStrategy for RightToLeft {
    open spec fn drops_first(&self) -> bool {
        false
    }

    open spec fn stepped(&self) -> Self {
        RightToLeft
    }

    fn next_words<'a>(&mut self, words: &'a [String]) -> (r: &'a [String]) {
        let r = vstd::slice::slice_subrange(words, 0, words.len() - 1);
        proof {
            assert(r@ =~= words@.drop_last());
        }
        r
    }
}

/// Backoff towards the middle: the steps alternate between dropping the
/// last and the first word.
pub struct IntoMiddle {
    pub last_left: bool,
}

impl Default for IntoMiddle {
    fn default() -> (r: Self)
        ensures
            r.drops_first() == false,
    {
        IntoMiddle { last_left: false }
    }
}

impl IntoMiddle {
    /// Walking towards the middle mirrors itself.
    pub fn inverse(self) -> (r: IntoMiddle)
        ensures
            r == self,
    {
        self
    }
}

impl NextWordsStrategy for IntoMiddle {
    open spec fn drops_first(&self) -> bool {
        self.last_left
    }

    open spec fn stepped(&self) -> Self {
        IntoMiddle { last_left: !self.last_left }
    }

    fn next_words<'a>(&mut self, words: &'a [String]) -> (r: &'a [String]) {
        let r = if self.last_left {
            vstd::slice::slice_subrange(words, 1, words.len())
        } else {
            vstd::slice::slice_subrange(words, 0, words.len() - 1)
        };
        proof {
            if old(self).last_left {
                assert(r@ =~= words@.drop_first());
            } else {
                assert(r@ =~= words@.drop_last());
            }
        }
        self.last_left = !self.last_left;
        r
    }
}

/// The count stored under the n-gram `g`.
pub open spec fn count_of(m: Seq<(Vec<String>, u64)>, g: Seq<Seq<char>>) -> int
    decreases m.len(),
{
    if m.len() == 0 {
        0
    } else if m.last().0.deep_view() == g {
        m.last().1 as int
    } else {
        count_of(m.drop_last(), g)
    }
}

/// Counts are stored values, so they stay within storable range.
pub broadcast proof fn lemma_count_of_bounds(m: Seq<(Vec<String>, u64)>, g: Seq<Seq<char>>)
    ensures
        0 <= #[trigger] count_of(m, g) <= u64::MAX,
    decreases m.len(),
{
    if m.len() > 0 {
        lemma_count_of_bounds(m.drop_last(), g);
    }
}

pub broadcast proof fn lemma_occ_upto_nonneg(
    tokens: Seq<Seq<char>>,
    max_size: int,
    g: Seq<Seq<char>>,
    w: int,
)
    ensures
        0 <= #[trigger] occ_upto(tokens, max_size, g, w),
    decreases w,
{
    if w > 0 {
        lemma_occ_upto_nonneg(tokens, max_size, g, w - 1);
    }
}

pub broadcast proof fn lemma_rot_upto_nonneg(
    tokens: Seq<Seq<char>>,
    max_size: int,
    g: Seq<Seq<char>>,
    w: int,
)
    ensures
        0 <= #[trigger] rot_upto(tokens, max_size, g, w),
    decreases w,
{
    if w > 0 {
        lemma_rot_upto_nonneg(tokens, max_size, g, w - 1);
    }
}

/// Whether every stored n-gram occurs once.
pub open spec fn unique_keys(m: Seq<(Vec<String>, u64)>) -> bool {
    forall|i: int, j: int|
        0 <= i < m.len() && 0 <= j < m.len() && i != j ==> (#[trigger] m[i]).0.deep_view() != (
        #[trigger] m[j]).0.deep_view()
}

/// A sum clipped at the largest storable count.
pub open spec fn sat_plus(a: int, b: int) -> int {
    if a + b <= u64::MAX {
        a + b
    } else {
        u64::MAX as int
    }
}

/// Whether `g` occurs at position `s` of the training tokens.
pub open spec fn matches_at(tokens: Seq<Seq<char>>, g: Seq<Seq<char>>, s: int) -> bool {
    0 <= s && s + g.len() <= tokens.len() && tokens.subrange(s, s + g.len()) == g
}

/// How many of the first `w` windows begin with `g`: one per window start
/// `s < w` where `g` occurs at `s`, for n-grams of size one up to
/// `max_size`.
pub open spec fn occ_upto(tokens: Seq<Seq<char>>, max_size: int, g: Seq<Seq<char>>, w: int) -> int
    decreases w,
{
    if w <= 0 {
        0
    } else {
        occ_upto(tokens, max_size, g, w - 1) + (if 1 <= g.len() <= max_size && matches_at(
            tokens,
            g,
            w - 1,
        ) {
            1int
        } else {
            0int
        })
    }
}

/// The rotation of the window starting at `s`: the window's tail followed
/// by its first term.
pub open spec fn rotated_window(tokens: Seq<Seq<char>>, max_size: int, s: int) -> Seq<Seq<char>> {
    tokens.subrange(s + 1, s + max_size) + seq![tokens[s]]
}

/// How many of the first `w` windows rotate to `g`.
pub open spec fn rot_upto(tokens: Seq<Seq<char>>, max_size: int, g: Seq<Seq<char>>, w: int) -> int
    decreases w,
{
    if w <= 0 {
        0
    } else {
        rot_upto(tokens, max_size, g, w - 1) + (if g == rotated_window(tokens, max_size, w - 1) {
            1int
        } else {
            0int
        })
    }
}

fn strs_eq(a: &Vec<String>, b: &Vec<String>) -> (r: bool)
    ensures
        r == (a.deep_view() == b.deep_view()),
{
    if a.len() != b.len() {
        proof {
            assert(a.deep_view().len() != b.deep_view().len());
        }
        return false;
    }
    let mut i: usize = 0;
    while i < a.len()
        invariant
            i <= a@.len(),
            a@.len() == b@.len(),
            forall|k: int| 0 <= k < i ==> a.deep_view()[k] == b.deep_view()[k],
        decreases a@.len() - i,
    {
        if !a[i].eq(&b[i]) {
            proof {
                assert(a.deep_view()[i as int] == a@[i as int]@);
                assert(b.deep_view()[i as int] == b@[i as int]@);
            }
            return false;
        }
        proof {
            assert(a.deep_view()[i as int] == a@[i as int]@);
            assert(b.deep_view()[i as int] == b@[i as int]@);
        }
        i = i + 1;
    }
    proof {
        assert(a.deep_view() =~= b.deep_view());
    }
    true
}

proof fn lemma_count_unique(m: Seq<(Vec<String>, u64)>, i: int, g: Seq<Seq<char>>)
    requires
        0 <= i < m.len(),
        m[i].0.deep_view() == g,
        forall|j: int| 0 <= j < m.len() && j != i ==> (#[trigger] m[j]).0.deep_view() != g,
    ensures
        count_of(m, g) == m[i].1 as int,
    decreases m.len(),
{
    if i == m.len() - 1 {
    } else {
        assert(m.last().0.deep_view() != g);
        lemma_count_unique(m.drop_last(), i, g);
    }
}

proof fn lemma_count_absent(m: Seq<(Vec<String>, u64)>, g: Seq<Seq<char>>)
    requires
        forall|j: int| 0 <= j < m.len() ==> (#[trigger] m[j]).0.deep_view() != g,
    ensures
        count_of(m, g) == 0,
    decreases m.len(),
{
    if m.len() > 0 {
        lemma_count_absent(m.drop_last(), g);
    }
}

proof fn lemma_count_update(m: Seq<(Vec<String>, u64)>, i: int, p: (Vec<String>, u64), g: Seq<
    Seq<char>,
>)
    requires
        0 <= i < m.len(),
        p.0.deep_view() == m[i].0.deep_view(),
        g != m[i].0.deep_view(),
    ensures
        count_of(m.update(i, p), g) == count_of(m, g),
    decreases m.len(),
{
    if i == m.len() - 1 {
        assert(m.update(i, p).drop_last() =~= m.drop_last());
    } else {
        assert(m.update(i, p).drop_last() =~= m.drop_last().update(i, p));
        assert(m.update(i, p).last() == m.last());
        lemma_count_update(m.drop_last(), i, p, g);
    }
}

/// Counts one more occurrence of `key`, clipping at the largest storable
/// count.
fn bump_map(m: &mut Vec<(Vec<String>, u64)>, key: Vec<String>)
    requires
        unique_keys(old(m)@),
    ensures
        unique_keys(final(m)@),
        forall|g: Seq<Seq<char>>|
            #[trigger] count_of(final(m)@, g) == (if g == key.deep_view() {
                sat_plus(count_of(old(m)@, g), 1)
            } else {
                count_of(old(m)@, g)
            }),
{
    broadcast use lemma_count_of_bounds;

    let ghost kv = key.deep_view();
    let mut i: usize = 0;
    let n = m.len();
    while i < n
        invariant
            i <= n,
            n == m@.len(),
            m@ == old(m)@,
            kv == key.deep_view(),
            unique_keys(m@),
            forall|j: int| 0 <= j < i ==> (#[trigger] m@[j]).0.deep_view() != kv,
        decreases n - i,
    {
        if strs_eq(&m[i].0, &key) {
            let c = m[i].1;
            let c2: u64 = if c < u64::MAX {
                c + 1
            } else {
                c
            };
            let ghost before = m@;
            let p = (key, c2);
            let ghost pv = (p.0.deep_view(), p.1);
            m.set(i, p);
            proof {
                assert(m@ =~= before.update(i as int, m@[i as int]));
                assert(m@[i as int].0.deep_view() == before[i as int].0.deep_view());
                assert forall|j: int|
                    0 <= j < before.len() && j != i as int implies (
                #[trigger] before[j]).0.deep_view() != kv by {
                    assert(before[j].0.deep_view() != before[i as int].0.deep_view());
                }
                assert forall|j: int|
                    0 <= j < m@.len() && j != i as int implies (#[trigger] m@[j]).0.deep_view()
                        != kv by {
                    assert(m@[j] == before[j]);
                }
                lemma_count_unique(m@, i as int, kv);
                lemma_count_unique(before, i as int, kv);
                assert(count_of(before, kv) == c as int);
                assert(count_of(m@, kv) == c2 as int);
                assert(c2 as int == sat_plus(c as int, 1));
                assert forall|g: Seq<Seq<char>>| g != kv implies #[trigger] count_of(m@, g)
                    == count_of(before, g) by {
                    lemma_count_update(before, i as int, m@[i as int], g);
                }
                assert forall|i2: int, j2: int|
                    0 <= i2 < m@.len() && 0 <= j2 < m@.len() && i2 != j2 implies (
                #[trigger] m@[i2]).0.deep_view() != (#[trigger] m@[j2]).0.deep_view() by {
                    assert(before[i2].0.deep_view() != before[j2].0.deep_view());
                }
            }
            return ;
        }
        i = i + 1;
    }
    let ghost before = m@;
    m.push((key, 1));
    proof {
        assert(m@.drop_last() =~= before);
        assert(m@.last().0.deep_view() == kv);
        lemma_count_absent(before, kv);
        assert forall|i2: int, j2: int|
            0 <= i2 < m@.len() && 0 <= j2 < m@.len() && i2 != j2 implies (
        #[trigger] m@[i2]).0.deep_view() != (#[trigger] m@[j2]).0.deep_view() by {
            if i2 < m@.len() - 1 && j2 < m@.len() - 1 {
                assert(before[i2].0.deep_view() != before[j2].0.deep_view());
            } else if i2 == m@.len() - 1 {
                assert(before[j2].0.deep_view() != kv);
            } else {
                assert(before[i2].0.deep_view() != kv);
            }
        }
    }
}

fn copy_strings(tokens: &[String], lo: usize, hi: usize) -> (r: Vec<String>)
    requires
        lo <= hi <= tokens@.len(),
    ensures
        r.deep_view() =~= tokens.deep_view().subrange(lo as int, hi as int),
{
    let mut r: Vec<String> = Vec::new();
    let mut i: usize = lo;
    while i < hi
        invariant
            lo <= i <= hi <= tokens@.len(),
            r@.len() == i - lo,
            forall|k: int| 0 <= k < i - lo ==> (#[trigger] r@[k])@ == tokens@[lo + k]@,
        decreases hi - i,
    {
        r.push(tokens[i].clone());
        i = i + 1;
    }
    proof {
        assert forall|k: int| 0 <= k < r@.len() implies #[trigger] r.deep_view()[k]
            == tokens.deep_view().subrange(lo as int, hi as int)[k] by {
            assert(r.deep_view()[k] == r@[k]@);
            assert(tokens.deep_view()[lo + k] == tokens@[lo + k]@);
        }
        assert(r.deep_view() =~= tokens.deep_view().subrange(lo as int, hi as int));
    }
    r
}

/// Accumulates the n-gram counts of a stupid-backoff language model:
/// every window of the training text counts each of its prefixes, its
/// rotation, and one occurrence per n-gram size.
pub struct StupidBackoffTrainer {
    max_ngram_size: usize,
    ngrams: Vec<(Vec<String>, u64)>,
    rotated_ngrams: Vec<(Vec<String>, u64)>,
    n_counts: Vec<u64>,
}

impl StupidBackoffTrainer {
    pub closed spec fn spec_max_ngram_size(&self) -> usize {
        self.max_ngram_size
    }

    /// The count trained for the n-gram `g`.
    pub closed spec fn spec_ngram_count(&self, g: Seq<Seq<char>>) -> int {
        count_of(self.ngrams@, g)
    }

    /// The count trained for the rotated n-gram `g`.
    pub closed spec fn spec_rotated_count(&self, g: Seq<Seq<char>>) -> int {
        count_of(self.rotated_ngrams@, g)
    }

    /// How many n-grams of each size were counted.
    pub closed spec fn spec_n_counts(&self) -> Seq<u64> {
        self.n_counts@
    }

    pub closed spec fn wf(&self) -> bool {
        &&& self.max_ngram_size >= 1
        &&& self.max_ngram_size < usize::MAX
        &&& self.n_counts@.len() == self.max_ngram_size
        &&& unique_keys(self.ngrams@)
        &&& unique_keys(self.rotated_ngrams@)
    }

    pub fn new(max_ngram_size: usize) -> (r: Self)
        requires
            1 <= max_ngram_size < usize::MAX,
        ensures
            r.wf(),
            r.spec_max_ngram_size() == max_ngram_size,
            forall|g: Seq<Seq<char>>| #[trigger] r.spec_ngram_count(g) == 0,
            forall|g: Seq<Seq<char>>| #[trigger] r.spec_rotated_count(g) == 0,
            r.spec_n_counts().len() == max_ngram_size,
            forall|j: int| 0 <= j < max_ngram_size ==> (#[trigger] r.spec_n_counts()[j]) == 0,
    {
        let mut n_counts: Vec<u64> = Vec::new();
        let mut i: usize = 0;
        while i < max_ngram_size
            invariant
                i <= max_ngram_size,
                n_counts@.len() == i,
                forall|j: int| 0 <= j < i ==> (#[trigger] n_counts@[j]) == 0,
            decreases max_ngram_size - i,
        {
            n_counts.push(0);
            i = i + 1;
        }
        StupidBackoffTrainer {
            max_ngram_size,
            ngrams: Vec::new(),
            rotated_ngrams: Vec::new(),
            n_counts,
        }
    }

    /// The trained count of one n-gram.
    pub fn ngram_count(&self, key: &Vec<String>) -> (r: u64)
        requires
            self.wf(),
        ensures
            r as int == self.spec_ngram_count(key.deep_view()),
    {
        broadcast use lemma_count_of_bounds;

        let mut i: usize = 0;
        let n = self.ngrams.len();
        while i < n
            invariant
                i <= n,
                n == self.ngrams@.len(),
                unique_keys(self.ngrams@),
                forall|j: int|
                    0 <= j < i ==> (#[trigger] self.ngrams@[j]).0.deep_view() != key.deep_view(),
            decreases n - i,
        {
            if strs_eq(&self.ngrams[i].0, key) {
                proof {
                    assert forall|j: int|
                        0 <= j < self.ngrams@.len() && j != i as int implies (
                    #[trigger] self.ngrams@[j]).0.deep_view() != key.deep_view() by {
                        assert(self.ngrams@[j].0.deep_view() != self.ngrams@[i as int].0
                            .deep_view());
                    }
                    lemma_count_unique(self.ngrams@, i as int, key.deep_view());
                }
                return self.ngrams[i].1;
            }
            i = i + 1;
        }
        proof {
            lemma_count_absent(self.ngrams@, key.deep_view());
        }
        0
    }

    /// How many n-grams of each size have been counted, smallest first.
    pub fn n_counts(&self) -> (r: &Vec<u64>)
        ensures
            r@ == self.spec_n_counts(),
    {
        &self.n_counts
    }

    /// Feeds one training text: every window of `max_ngram_size` tokens
    /// counts each of its prefixes once, counts one n-gram per size, and
    /// counts its rotation once. Counts clip at the largest storable
    /// value.
    pub fn train(&mut self, tokens: &[String])
        requires
            old(self).wf(),
        ensures
            final(self).wf(),
            final(self).spec_max_ngram_size() == old(self).spec_max_ngram_size(),
            ({
                let max = old(self).spec_max_ngram_size() as int;
                let w_total = if tokens.deep_view().len() >= max {
                    tokens.deep_view().len() - max + 1
                } else {
                    0
                };
                &&& forall|g: Seq<Seq<char>>|
                    #[trigger] final(self).spec_ngram_count(g) == sat_plus(
                        old(self).spec_ngram_count(g),
                        occ_upto(tokens.deep_view(), max, g, w_total),
                    )
                &&& forall|g: Seq<Seq<char>>|
                    #[trigger] final(self).spec_rotated_count(g) == sat_plus(
                        old(self).spec_rotated_count(g),
                        rot_upto(tokens.deep_view(), max, g, w_total),
                    )
                &&& forall|j: int|
                    0 <= j < max ==> (#[trigger] final(self).spec_n_counts()[j]) as int == sat_plus(
                        old(self).spec_n_counts()[j] as int,
                        w_total,
                    )
            }),
    {
        broadcast use lemma_count_of_bounds, lemma_occ_upto_nonneg, lemma_rot_upto_nonneg;

        let ghost tv = tokens.deep_view();
        let ghost max = self.max_ngram_size as int;
        let n = tokens.len();
        if n < self.max_ngram_size {
            proof {
                assert(tv.len() == n);
                assert forall|g: Seq<Seq<char>>| #[trigger] occ_upto(tv, max, g, 0) == 0 by {}
                assert forall|g: Seq<Seq<char>>| #[trigger] rot_upto(tv, max, g, 0) == 0 by {}
            }
            return ;
        }
        let w_total = n - self.max_ngram_size + 1;
        proof {
            assert(tv.len() == n);
            assert forall|g: Seq<Seq<char>>| #[trigger] occ_upto(tv, max, g, 0) == 0 by {}
            assert forall|g: Seq<Seq<char>>| #[trigger] rot_upto(tv, max, g, 0) == 0 by {}
        }
        let mut w: usize = 0;
        while w < w_total
            invariant
                w <= w_total,
                w_total == n - self.max_ngram_size + 1,
                n == tokens@.len(),
                n >= self.max_ngram_size,
                tv == tokens.deep_view(),
                tv.len() == n,
                max == self.max_ngram_size as int,
                self.wf(),
                self.max_ngram_size == old(self).spec_max_ngram_size(),
                forall|g: Seq<Seq<char>>|
                    #[trigger] count_of(self.ngrams@, g) == sat_plus(
                        old(self).spec_ngram_count(g),
                        occ_upto(tv, max, g, w as int),
                    ),
                forall|g: Seq<Seq<char>>|
                    #[trigger] count_of(self.rotated_ngrams@, g) == sat_plus(
                        old(self).spec_rotated_count(g),
                        rot_upto(tv, max, g, w as int),
                    ),
                forall|j: int|
                    0 <= j < max ==> (#[trigger] self.n_counts@[j]) as int == sat_plus(
                        old(self).spec_n_counts()[j] as int,
                        w as int,
                    ),
            decreases w_total - w,
        {
            let mut size: usize = 1;
            while size <= self.max_ngram_size
                invariant
                    1 <= size <= self.max_ngram_size + 1,
                    w < w_total,
                    w_total == n - self.max_ngram_size + 1,
                    n == tokens@.len(),
                    tv == tokens.deep_view(),
                    tv.len() == n,
                    max == self.max_ngram_size as int,
                    self.wf(),
                    self.max_ngram_size == old(self).spec_max_ngram_size(),
                    forall|g: Seq<Seq<char>>|
                        #[trigger] count_of(self.ngrams@, g) == sat_plus(
                            old(self).spec_ngram_count(g),
                            occ_upto(tv, max, g, w as int) + (if 1 <= g.len() < size
                                && matches_at(tv, g, w as int) {
                                1int
                            } else {
                                0int
                            }),
                        ),
                    forall|g: Seq<Seq<char>>|
                        #[trigger] count_of(self.rotated_ngrams@, g) == sat_plus(
                            old(self).spec_rotated_count(g),
                            rot_upto(tv, max, g, w as int),
                        ),
                    forall|j: int|
                        0 <= j < max ==> (#[trigger] self.n_counts@[j]) as int == sat_plus(
                            old(self).spec_n_counts()[j] as int,
                            w as int + (if j < size - 1 {
                                1int
                            } else {
                                0int
                            }),
                        ),
                decreases self.max_ngram_size + 1 - size,
            {
                let key = copy_strings(tokens, w, w + size);
                let ghost kv = key.deep_view();
                proof {
                    assert(kv =~= tv.subrange(w as int, w as int + size as int));
                    assert(matches_at(tv, kv, w as int));
                }
                bump_map(&mut self.ngrams, key);
                let c = self.n_counts[size - 1];
                let c2: u64 = if c < u64::MAX {
                    c + 1
                } else {
                    c
                };
                self.n_counts.set(size - 1, c2);
                proof {
                    assert forall|g: Seq<Seq<char>>| true implies #[trigger] count_of(
                        self.ngrams@,
                        g,
                    ) == sat_plus(
                        old(self).spec_ngram_count(g),
                        occ_upto(tv, max, g, w as int) + (if 1 <= g.len() < size + 1
                            && matches_at(tv, g, w as int) {
                            1int
                        } else {
                            0int
                        }),
                    ) by {
                        if g == kv {
                            assert(g.len() == size);
                        } else {
                            if g.len() == size && matches_at(tv, g, w as int) {
                                assert(g =~= tv.subrange(w as int, w as int + size as int));
                            }
                        }
                    }
                }
                size = size + 1;
            }
            // The rotated window: its tail, then its first term.
            let mut rot = copy_strings(tokens, w + 1, w + self.max_ngram_size);
            rot.push(tokens[w].clone());
            let ghost rv = rot.deep_view();
            proof {
                assert(rv =~= rotated_window(tv, max, w as int));
            }
            bump_map(&mut self.rotated_ngrams, rot);
            proof {
                assert forall|g: Seq<Seq<char>>| true implies #[trigger] count_of(
                    self.rotated_ngrams@,
                    g,
                ) == sat_plus(
                    old(self).spec_rotated_count(g),
                    rot_upto(tv, max, g, w + 1),
                ) by {}
                assert forall|g: Seq<Seq<char>>| true implies #[trigger] count_of(self.ngrams@, g)
                    == sat_plus(
                    old(self).spec_ngram_count(g),
                    occ_upto(tv, max, g, w + 1),
                ) by {
                    if 1 <= g.len() <= max && matches_at(tv, g, w as int) {
                    }
                }
            }
            w = w + 1;
        }
    }
}

} // verus!
