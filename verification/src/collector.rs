//! The de-duplicating top-N collector. Candidates carry a raw score and five
//! bucket keys (site, title, URL, URL without TLD, and a SimHash
//! fingerprint). While results are extracted, every already-taken document
//! sharing a bucket with a candidate demotes the candidate's score by the
//! configured penalty, and near-duplicates by SimHash are deferred and only
//! backfill otherwise unused slots.
//!
//! Candidates wait in a double-ended priority queue of an outside crate;
//! its contents are named by `heap_view` and every call into it goes through
//! a contracted wrapper. Extraction is proved equal to a mathematical
//! selection model, `model_collect`, over which the collector's laws are
//! stated.

use vstd::prelude::*;

use vstd::hash_map::HashMapWithView;
use vstd::hash_set::HashSetWithView;
use vstd::multiset::Multiset;

use crate::config::{CollectorConfig, PENALTY_SCALE};
use crate::ranking::Score;

verus! {

broadcast use
    vstd::seq_lib::group_to_multiset_ensures,
    vstd::std_specs::hash::group_hash_axioms,
    vstd::multiset::group_multiset_axioms,
    vstd::hash_map::group_hash_map_axioms,
;

/// The largest penalty the collector accepts: a million times
/// [`PENALTY_SCALE`], i.e. a demotion factor of a million per duplicate.
/// Keeping penalties below this bound keeps the fixed-point score
/// arithmetic inside 128 bits.
pub const MAX_PENALTY: u64 = 1_000_000_000_000;

impl CollectorConfig {
    /// Whether every penalty is within the range the collector's
    /// fixed-point arithmetic supports.
    pub open spec fn valid(&self) -> bool {
        self.site_penalty <= MAX_PENALTY && self.title_penalty <= MAX_PENALTY
            && self.url_penalty <= MAX_PENALTY && self.url_without_tld_penalty <= MAX_PENALTY
    }
}

/// A 128-bit bucket key, combined from two 64-bit halves stored in separate
/// columns. A value of zero means the key is missing and never dedupes.
#[derive(Debug, Clone, Copy, PartialEq, Eq, Structural, Hash)]
pub struct Prehashed(pub u128);

/// Combines the two 64-bit halves of a bucket key into one 128-bit value:
/// the first half fills the upper bits.
pub fn combine_u64s(h1: u64, h2: u64) -> (r: u128)
    ensures
        r == h1 * 0x1_0000_0000_0000_0000u128 + h2,
{
    (h1 as u128) * 0x1_0000_0000_0000_0000u128 + (h2 as u128)
}

/// The five bucket keys of one document.
#[derive(Debug, Clone, Copy, PartialEq, Eq, Structural, Hash)]
pub struct Hashes {
    pub site: Prehashed,
    pub title: Prehashed,
    pub url: Prehashed,
    pub url_without_tld: Prehashed,
    pub simhash: u64,
}

/// One candidate hit inside a segment: its bucket keys, its document id and
/// segment, and its raw score.
#[derive(Debug, Clone, Copy, PartialEq, Eq, Structural)]
pub struct SegmentDoc {
    pub hashes: Hashes,
    pub id: u32,
    pub segment: u32,
    pub score: Score,
}

impl DeepView for SegmentDoc {
    type V = SegmentDoc;

    open spec fn deep_view(&self) -> SegmentDoc {
        *self
    }
}

/// An entry of the candidate queue: the cached adjusted score, the raw
/// score, the reversed document address (so that smaller addresses win
/// ties), and the index of the document in the collector's document list.
/// Entries order lexicographically, so the queue's maximum is the candidate
/// with the best cached score under the tie-breaks.
pub type HeapItem = (u64, u64, u64, usize);

/// Lexicographic order on queue entries, as the outside crate's `Ord` for
/// tuples compares them.
pub open spec fn item_le(a: HeapItem, b: HeapItem) -> bool {
    a.0 < b.0 || (a.0 == b.0 && (a.1 < b.1 || (a.1 == b.1 && (a.2 < b.2 || (a.2 == b.2 && a.3
        <= b.3)))))
}

#[verifier::external_type_specification]
#[verifier::external_body]
#[verifier::reject_recursive_types(T)]
pub struct ExMinMaxHeap<T>(min_max_heap::MinMaxHeap<T>);

/// What the candidate queue holds.
pub uninterp spec fn heap_view(h: &min_max_heap::MinMaxHeap<HeapItem>) -> Multiset<HeapItem>;

/// Relies on MinMaxHeap::with_capacity: creates an empty queue.
#[verifier::external_body]
fn heap_with_capacity(cap: usize) -> (h: min_max_heap::MinMaxHeap<HeapItem>)
    ensures
        heap_view(&h) == Multiset::<HeapItem>::empty(),
{
    min_max_heap::MinMaxHeap::with_capacity(cap)
}

/// Relies on MinMaxHeap::push: adds one element to the queue.
#[verifier::external_body]
fn heap_push(h: &mut min_max_heap::MinMaxHeap<HeapItem>, item: HeapItem)
    ensures
        heap_view(final(h)) == heap_view(old(h)).insert(item),
{
    h.push(item)
}

/// Relies on MinMaxHeap::pop_max: removes and returns a maximum element
/// under the lexicographic tuple order, or `None` from an empty queue.
#[verifier::external_body]
fn heap_pop_max(h: &mut min_max_heap::MinMaxHeap<HeapItem>) -> (r: Option<HeapItem>)
    ensures
        heap_view(old(h)).len() == 0 ==> r.is_none() && heap_view(final(h)) == heap_view(old(h)),
        heap_view(old(h)).len() > 0 ==> r.is_some() && heap_view(old(h)).count(r.unwrap()) > 0
            && heap_view(final(h)) == heap_view(old(h)).remove(r.unwrap()) && (forall|x: HeapItem|
            heap_view(old(h)).count(x) > 0 ==> item_le(x, r.unwrap())),
{
    h.pop_max()
}

/// The count an already-taken bucket key contributes; a key of zero is
/// missing and never counts.
pub open spec fn count_for(m: Map<u128, u64>, h: u128) -> int {
    if h == 0 {
        0
    } else if m.contains_key(h) {
        m[h] as int
    } else {
        0
    }
}

pub open spec fn inc_sat(c: u64) -> u64 {
    if c < u64::MAX {
        (c + 1) as u64
    } else {
        c
    }
}

/// One bucket key taken once more; a key of zero is left alone.
pub open spec fn bump1(m: Map<u128, u64>, h: u128) -> Map<u128, u64> {
    if h == 0 {
        m
    } else {
        let c = if m.contains_key(h) {
            m[h]
        } else {
            0u64
        };
        m.insert(h, inc_sat(c))
    }
}

/// All four bucket keys of a taken document counted once more.
pub open spec fn bump_hashes(m: Map<u128, u64>, hs: Hashes) -> Map<u128, u64> {
    bump1(bump1(bump1(bump1(m, hs.site.0), hs.url.0), hs.url_without_tld.0), hs.title.0)
}

/// The adjusted score of a document under the taken-bucket counts: the raw
/// score divided by one plus the penalty-weighted counts, in fixed point:
/// `score * SCALE / (SCALE + c_site * p_site + c_url * p_url + c_no_tld *
/// p_no_tld + c_title * p_title)`.
pub open spec fn adjusted_of(d: SegmentDoc, m: Map<u128, u64>, cfg: CollectorConfig) -> int {
    (d.score.total * PENALTY_SCALE) / (PENALTY_SCALE + count_for(m, d.hashes.site.0)
        * cfg.site_penalty + count_for(m, d.hashes.url.0) * cfg.url_penalty + count_for(
        m,
        d.hashes.url_without_tld.0,
    ) * cfg.url_without_tld_penalty + count_for(m, d.hashes.title.0) * cfg.title_penalty)
}

/// The document address with segment and id packed into 64 bits, reversed
/// so that a larger value means an earlier address.
pub open spec fn rev_addr(d: SegmentDoc) -> u64 {
    (u64::MAX - (d.segment * 0x1_0000_0000 + d.id)) as u64
}

fn rev_addr_x(d: &SegmentDoc) -> (r: u64)
    ensures
        r == rev_addr(*d),
{
    u64::MAX - ((d.segment as u64) * 0x1_0000_0000 + (d.id as u64))
}

/// The selection key of document `i`: adjusted score, then raw score, then
/// earlier address, then index. Keys of distinct documents always differ.
pub open spec fn sel_key(docs: Seq<SegmentDoc>, cfg: CollectorConfig, m: Map<u128, u64>, i: int) -> (
    int,
    int,
    int,
    int,
) {
    (adjusted_of(docs[i], m, cfg), docs[i].score.total as int, rev_addr(docs[i]) as int, i)
}

/// Strict lexicographic order on selection keys.
pub open spec fn key_lt(a: (int, int, int, int), b: (int, int, int, int)) -> bool {
    a.0 < b.0 || (a.0 == b.0 && (a.1 < b.1 || (a.1 == b.1 && (a.2 < b.2 || (a.2 == b.2 && a.3
        < b.3)))))
}

/// Whether `i` is the best remaining document: the one every other
/// remaining document compares strictly below.
pub open spec fn is_best(
    docs: Seq<SegmentDoc>,
    cfg: CollectorConfig,
    m: Map<u128, u64>,
    remaining: Set<int>,
    i: int,
) -> bool {
    remaining.contains(i) && 0 <= i < docs.len() && (forall|j: int|
        remaining.contains(j) && 0 <= j < docs.len() && j != i ==> key_lt(
            #[trigger] sel_key(docs, cfg, m, j),
            sel_key(docs, cfg, m, i),
        ))
}

/// One run of the extraction: which documents are picked, which are
/// deferred as SimHash near-duplicates, and the adjusted score each picked
/// document was emitted at.
pub struct CollectOutcome {
    pub picked: Seq<int>,
    pub deferred: Seq<int>,
    pub scores: Seq<int>,
}

/// The selection model of the extraction: while fewer than `top_n`
/// documents are picked, take the best remaining document by adjusted
/// score. With de-ranking on, a document whose non-zero SimHash was already
/// seen is deferred; otherwise its SimHash is recorded and its four bucket
/// keys are counted, demoting what shares them.
pub open spec fn model_rest(
    docs: Seq<SegmentDoc>,
    cfg: CollectorConfig,
    de_rank: bool,
    top_n: int,
    remaining: Set<int>,
    m: Map<u128, u64>,
    seen: Set<u64>,
    emitted: int,
) -> CollectOutcome
    decreases remaining.len(),
{
    if emitted >= top_n || !remaining.finite() || remaining.is_empty() {
        CollectOutcome { picked: Seq::empty(), deferred: Seq::empty(), scores: Seq::empty() }
    } else {
        let b = choose|i: int| is_best(docs, cfg, m, remaining, i);
        if !is_best(docs, cfg, m, remaining, b) {
            CollectOutcome { picked: Seq::empty(), deferred: Seq::empty(), scores: Seq::empty() }
        } else {
            let d = docs[b];
            if de_rank && d.hashes.simhash != 0 && seen.contains(d.hashes.simhash) {
                let rest = model_rest(
                    docs,
                    cfg,
                    de_rank,
                    top_n,
                    remaining.remove(b),
                    m,
                    seen,
                    emitted,
                );
                CollectOutcome {
                    picked: rest.picked,
                    deferred: seq![b] + rest.deferred,
                    scores: rest.scores,
                }
            } else {
                let m2 = if de_rank {
                    bump_hashes(m, d.hashes)
                } else {
                    m
                };
                let seen2 = if de_rank && d.hashes.simhash != 0 {
                    seen.insert(d.hashes.simhash)
                } else {
                    seen
                };
                let rest = model_rest(
                    docs,
                    cfg,
                    de_rank,
                    top_n,
                    remaining.remove(b),
                    m2,
                    seen2,
                    emitted + 1,
                );
                CollectOutcome {
                    picked: seq![b] + rest.picked,
                    deferred: rest.deferred,
                    scores: seq![adjusted_of(d, m, cfg)] + rest.scores,
                }
            }
        }
    }
}

/// The whole extraction, starting from untouched counts.
pub open spec fn model_collect(
    docs: Seq<SegmentDoc>,
    cfg: CollectorConfig,
    de_rank: bool,
    top_n: int,
) -> CollectOutcome {
    model_rest(
        docs,
        cfg,
        de_rank,
        top_n,
        vstd::set_lib::set_int_range(0, docs.len() as int),
        Map::empty(),
        Set::empty(),
        0,
    )
}

/// The indices the extraction returns: the picked documents, topped up
/// from the deferred near-duplicates until `top_n` slots are used.
pub open spec fn model_output(
    docs: Seq<SegmentDoc>,
    cfg: CollectorConfig,
    de_rank: bool,
    top_n: int,
) -> Seq<int> {
    let o = model_collect(docs, cfg, de_rank, top_n);
    let want = top_n - o.picked.len();
    if want <= 0 {
        o.picked
    } else if want >= o.deferred.len() {
        o.picked + o.deferred
    } else {
        o.picked + o.deferred.take(want)
    }
}

/// The documents the extraction returns.
pub open spec fn model_output_docs(
    docs: Seq<SegmentDoc>,
    cfg: CollectorConfig,
    de_rank: bool,
    top_n: int,
) -> Seq<SegmentDoc> {
    model_output(docs, cfg, de_rank, top_n).map_values(|i: int| docs[i])
}

/// Counts the already-taken documents per bucket key.
pub struct BucketCount {
    config: CollectorConfig,
    buckets: HashMapWithView<u128, u64>,
}

impl BucketCount {
    pub closed spec fn counts(&self) -> Map<u128, u64> {
        self.buckets@
    }

    pub closed spec fn spec_config(&self) -> CollectorConfig {
        self.config
    }

    pub fn new(config: CollectorConfig) -> (r: Self)
        ensures
            r.counts() == Map::<u128, u64>::empty(),
            r.spec_config() == config,
    {
        BucketCount { config, buckets: HashMapWithView::new() }
    }

    fn count_of_key(&self, h: u128) -> (c: u64)
        ensures
            c as int == count_for(self.counts(), h),
    {
        if h == 0 {
            0
        } else {
            match self.buckets.get(&h) {
                Some(c) => *c,
                None => 0,
            }
        }
    }

    /// The adjusted score of `doc` under the current counts.
    pub fn adjust_score(&self, doc: &SegmentDoc) -> (r: u64)
        requires
            self.spec_config().valid(),
        ensures
            r as int == adjusted_of(*doc, self.counts(), self.spec_config()),
            r <= doc.score.total,
    {
        let c_site = self.count_of_key(doc.hashes.site.0);
        let c_url = self.count_of_key(doc.hashes.url.0);
        let c_no_tld = self.count_of_key(doc.hashes.url_without_tld.0);
        let c_title = self.count_of_key(doc.hashes.title.0);
        proof {
            vstd::arithmetic::mul::lemma_mul_upper_bound(
                c_site as int,
                u64::MAX as int,
                self.config.site_penalty as int,
                MAX_PENALTY as int,
            );
            vstd::arithmetic::mul::lemma_mul_upper_bound(
                c_url as int,
                u64::MAX as int,
                self.config.url_penalty as int,
                MAX_PENALTY as int,
            );
            vstd::arithmetic::mul::lemma_mul_upper_bound(
                c_no_tld as int,
                u64::MAX as int,
                self.config.url_without_tld_penalty as int,
                MAX_PENALTY as int,
            );
            vstd::arithmetic::mul::lemma_mul_upper_bound(
                c_title as int,
                u64::MAX as int,
                self.config.title_penalty as int,
                MAX_PENALTY as int,
            );
            vstd::arithmetic::mul::lemma_mul_nonnegative(
                c_site as int,
                self.config.site_penalty as int,
            );
            vstd::arithmetic::mul::lemma_mul_nonnegative(
                c_url as int,
                self.config.url_penalty as int,
            );
            vstd::arithmetic::mul::lemma_mul_nonnegative(
                c_no_tld as int,
                self.config.url_without_tld_penalty as int,
            );
            vstd::arithmetic::mul::lemma_mul_nonnegative(
                c_title as int,
                self.config.title_penalty as int,
            );
        }
        let denom: u128 = (PENALTY_SCALE as u128) + (c_site as u128) * (self.config.site_penalty
            as u128) + (c_url as u128) * (self.config.url_penalty as u128) + (c_no_tld as u128)
            * (self.config.url_without_tld_penalty as u128) + (c_title as u128)
            * (self.config.title_penalty as u128);
        let num: u128 = (doc.score.total as u128) * (PENALTY_SCALE as u128);
        let q: u128 = num / denom;
        proof {
            vstd::arithmetic::div_mod::lemma_div_is_ordered_by_denominator(
                num as int,
                PENALTY_SCALE as int,
                denom as int,
            );
            vstd::arithmetic::mul::lemma_mul_is_commutative(
                doc.score.total as int,
                PENALTY_SCALE as int,
            );
            vstd::arithmetic::div_mod::lemma_div_multiples_vanish(
                doc.score.total as int,
                PENALTY_SCALE as int,
            );
        }
        q as u64
    }

    fn bump_one(&mut self, h: u128)
        ensures
            final(self).counts() == bump1(old(self).counts(), h),
            final(self).spec_config() == old(self).spec_config(),
    {
        if h != 0 {
            let c: u64 = match self.buckets.get(&h) {
                Some(c) => *c,
                None => 0,
            };
            let c2: u64 = if c < u64::MAX {
                c + 1
            } else {
                c
            };
            self.buckets.insert(h, c2);
        }
    }

    /// Counts the four bucket keys of a taken document once more.
    pub fn update_counts(&mut self, doc: &SegmentDoc)
        ensures
            final(self).counts() == bump_hashes(old(self).counts(), doc.hashes),
            final(self).spec_config() == old(self).spec_config(),
    {
        self.bump_one(doc.hashes.site.0);
        self.bump_one(doc.hashes.url.0);
        self.bump_one(doc.hashes.url_without_tld.0);
        self.bump_one(doc.hashes.title.0);
    }
}

/// The initial queue entry of document `i`: with no buckets taken yet, its
/// adjusted score equals its raw score.
pub open spec fn initial_item(docs: Seq<SegmentDoc>, i: int) -> HeapItem {
    (docs[i].score.total, docs[i].score.total, rev_addr(docs[i]), i as usize)
}

/// Collects candidate documents and extracts the de-duplicated top N.
pub struct BucketCollector {
    top_n: usize,
    config: CollectorConfig,
    count: BucketCount,
    documents: min_max_heap::MinMaxHeap<HeapItem>,
    docs: Vec<SegmentDoc>,
}

impl BucketCollector {
    pub closed spec fn spec_docs(&self) -> Seq<SegmentDoc> {
        self.docs@
    }

    pub closed spec fn spec_top_n(&self) -> usize {
        self.top_n
    }

    pub closed spec fn spec_config(&self) -> CollectorConfig {
        self.config
    }

    /// Well-formed before extraction: no bucket is counted yet and the
    /// queue holds exactly one initial entry per inserted document.
    pub closed spec fn inv(&self) -> bool {
        &&& self.top_n > 0
        &&& self.config.valid()
        &&& self.count.spec_config() == self.config
        &&& self.count.counts() == Map::<u128, u64>::empty()
        &&& heap_view(&self.documents) == initial_items(
            self.docs@,
            self.docs@.len() as int,
        ).to_multiset()
    }

    pub fn new(top_n: usize, config: CollectorConfig) -> (r: Self)
        requires
            top_n > 0,
            config.valid(),
        ensures
            r.inv(),
            r.spec_docs().len() == 0,
            r.spec_top_n() == top_n,
            r.spec_config() == config,
    {
        let cap = if config.max_docs_considered < usize::MAX {
            config.max_docs_considered + 1
        } else {
            config.max_docs_considered
        };
        let r = BucketCollector {
            top_n,
            config,
            count: BucketCount::new(config),
            documents: heap_with_capacity(cap),
            docs: Vec::new(),
        };
        proof {
            assert(initial_items(r.docs@, r.docs@.len() as int) =~= Seq::<HeapItem>::empty());
            assert(Seq::<HeapItem>::empty().to_multiset() =~= Multiset::<HeapItem>::empty());
        }
        r
    }

    /// Adds one candidate, scored against the untouched bucket counts.
    pub fn insert(&mut self, doc: SegmentDoc)
        requires
            old(self).inv(),
            old(self).spec_docs().len() < usize::MAX,
        ensures
            final(self).inv(),
            final(self).spec_docs() == old(self).spec_docs().push(doc),
            final(self).spec_top_n() == old(self).spec_top_n(),
            final(self).spec_config() == old(self).spec_config(),
    {
        let idx = self.docs.len();
        let adjusted = self.count.adjust_score(&doc);
        proof {
            lemma_adjusted_initial(doc, self.config);
        }
        let item: HeapItem = (adjusted, doc.score.total, rev_addr_x(&doc), idx);
        heap_push(&mut self.documents, item);
        self.docs.push(doc);
        proof {
            assert(initial_items(self.docs@, self.docs@.len() as int) =~= initial_items(
                old(self).docs@,
                old(self).docs@.len() as int,
            ).push(item));
        }
    }
}

/// A cap on how many candidates the collectors of one query consider,
/// split evenly over the segments.
#[derive(Debug, Clone, Copy, PartialEq, Eq, Structural)]
pub struct MaxDocsConsidered {
    pub total_docs: usize,
    pub segments: usize,
}

/// The top-level collector of one query: how many hits to return, how many
/// to skip, whether near-duplicates are de-ranked, and the penalty
/// configuration.
#[derive(Debug, Clone)]
pub struct TopDocs {
    top_n: usize,
    offset: usize,
    max_docs: Option<MaxDocsConsidered>,
    de_rank_similar: bool,
    collector_config: CollectorConfig,
}

impl TopDocs {
    pub closed spec fn spec_top_n(&self) -> usize {
        self.top_n
    }

    pub closed spec fn spec_offset(&self) -> usize {
        self.offset
    }

    pub closed spec fn spec_max_docs(&self) -> Option<MaxDocsConsidered> {
        self.max_docs
    }

    pub closed spec fn spec_de_rank_similar(&self) -> bool {
        self.de_rank_similar
    }

    pub closed spec fn spec_collector_config(&self) -> CollectorConfig {
        self.collector_config
    }

    pub fn with_limit(top_n: usize) -> (r: Self)
        requires
            top_n > 0,
        ensures
            r.spec_top_n() == top_n,
            r.spec_offset() == 0,
            r.spec_max_docs().is_none(),
            r.spec_de_rank_similar() == false,
            r.spec_collector_config() == (CollectorConfig {
                site_penalty: crate::config::DEFAULT_SITE_PENALTY,
                title_penalty: crate::config::DEFAULT_TITLE_PENALTY,
                url_penalty: crate::config::DEFAULT_URL_PENALTY,
                url_without_tld_penalty: crate::config::DEFAULT_URL_WITHOUT_TLD_PENALTY,
                max_docs_considered: crate::config::DEFAULT_MAX_DOCS_CONSIDERED,
            }),
    {
        TopDocs {
            top_n,
            offset: 0,
            max_docs: None,
            de_rank_similar: false,
            collector_config: CollectorConfig::default(),
        }
    }

    pub fn max_docs(&self) -> (r: Option<&MaxDocsConsidered>)
        ensures
            r.is_some() <==> self.spec_max_docs().is_some(),
            r.is_some() ==> *r.unwrap() == self.spec_max_docs().unwrap(),
    {
        self.max_docs.as_ref()
    }

    pub fn and_offset(self, offset: usize) -> (r: Self)
        ensures
            r.spec_offset() == offset,
            r.spec_top_n() == self.spec_top_n(),
            r.spec_max_docs() == self.spec_max_docs(),
            r.spec_de_rank_similar() == self.spec_de_rank_similar(),
            r.spec_collector_config() == self.spec_collector_config(),
    {
        TopDocs { offset, ..self }
    }

    pub fn and_max_docs(self, max_docs: MaxDocsConsidered) -> (r: Self)
        ensures
            r.spec_max_docs() == Some(max_docs),
            r.spec_top_n() == self.spec_top_n(),
            r.spec_offset() == self.spec_offset(),
            r.spec_de_rank_similar() == self.spec_de_rank_similar(),
            r.spec_collector_config() == self.spec_collector_config(),
    {
        TopDocs { max_docs: Some(max_docs), ..self }
    }

    pub fn and_de_rank_similar(self) -> (r: Self)
        ensures
            r.spec_de_rank_similar() == true,
            r.spec_top_n() == self.spec_top_n(),
            r.spec_offset() == self.spec_offset(),
            r.spec_max_docs() == self.spec_max_docs(),
            r.spec_collector_config() == self.spec_collector_config(),
    {
        TopDocs { de_rank_similar: true, ..self }
    }

    pub fn and_collector_config(self, collector_config: CollectorConfig) -> (r: Self)
        ensures
            r.spec_collector_config() == collector_config,
            r.spec_top_n() == self.spec_top_n(),
            r.spec_offset() == self.spec_offset(),
            r.spec_max_docs() == self.spec_max_docs(),
            r.spec_de_rank_similar() == self.spec_de_rank_similar(),
    {
        TopDocs { collector_config, ..self }
    }

    /// The collector for one segment: its bucket collector is sized for
    /// `top_n + offset` hits, and its candidate budget is the query's
    /// budget split evenly over the segments.
    pub fn for_segment(&self, segment_local_id: u32) -> (r: TopSegmentCollector)
        requires
            self.spec_top_n() > 0,
            self.spec_top_n() + self.spec_offset() <= usize::MAX,
            self.spec_collector_config().valid(),
            self.spec_max_docs().is_some() ==> self.spec_max_docs().unwrap().segments > 0,
        ensures
            r.wf(),
            r.spec_segment_ord() == segment_local_id,
            r.spec_docs().len() == 0,
            r.spec_top_n() == self.spec_top_n() + self.spec_offset(),
            r.spec_config() == self.spec_collector_config(),
            r.spec_max_docs() == (match self.spec_max_docs() {
                Some(md) => Some((md.total_docs / md.segments) as usize),
                None => None::<usize>,
            }),
    {
        let max_docs: Option<usize> = match &self.max_docs {
            Some(md) => Some(md.total_docs / md.segments),
            None => None,
        };
        TopSegmentCollector {
            max_docs,
            num_docs_taken: 0,
            segment_ord: segment_local_id,
            bucket_collector: BucketCollector::new(
                self.top_n + self.offset,
                self.collector_config,
            ),
        }
    }
}

/// Collects the candidates of one segment, bounded by the per-segment
/// candidate budget.
pub struct TopSegmentCollector {
    max_docs: Option<usize>,
    num_docs_taken: usize,
    segment_ord: u32,
    bucket_collector: BucketCollector,
}

impl TopSegmentCollector {
    pub closed spec fn spec_max_docs(&self) -> Option<usize> {
        self.max_docs
    }

    pub closed spec fn spec_num_docs_taken(&self) -> usize {
        self.num_docs_taken
    }

    pub closed spec fn spec_segment_ord(&self) -> u32 {
        self.segment_ord
    }

    pub closed spec fn spec_docs(&self) -> Seq<SegmentDoc> {
        self.bucket_collector.spec_docs()
    }

    pub closed spec fn spec_top_n(&self) -> usize {
        self.bucket_collector.spec_top_n()
    }

    pub closed spec fn spec_config(&self) -> CollectorConfig {
        self.bucket_collector.spec_config()
    }

    pub closed spec fn wf(&self) -> bool {
        self.bucket_collector.inv() && self.num_docs_taken == self.bucket_collector.spec_docs().len()
    }

    /// Whether the per-segment candidate budget is exhausted.
    pub fn is_done(&self) -> (r: bool)
        ensures
            r == (match self.spec_max_docs() {
                Some(md) => self.spec_num_docs_taken() >= md,
                None => false,
            }),
    {
        match &self.max_docs {
            Some(md) => self.num_docs_taken >= *md,
            None => false,
        }
    }

    /// Feeds one scored document of this segment into the bucket
    /// collector, unless the candidate budget is exhausted.
    pub fn collect(&mut self, doc: u32, score: Score, hashes: Hashes)
        requires
            old(self).wf(),
            old(self).spec_docs().len() < usize::MAX,
        ensures
            final(self).wf(),
            final(self).spec_segment_ord() == old(self).spec_segment_ord(),
            final(self).spec_top_n() == old(self).spec_top_n(),
            final(self).spec_config() == old(self).spec_config(),
            final(self).spec_max_docs() == old(self).spec_max_docs(),
            (match old(self).spec_max_docs() {
                Some(md) => old(self).spec_num_docs_taken() >= md,
                None => false,
            }) ==> *final(self) == *old(self),
            !(match old(self).spec_max_docs() {
                Some(md) => old(self).spec_num_docs_taken() >= md,
                None => false,
            }) ==> final(self).spec_docs() == old(self).spec_docs().push(
                SegmentDoc { hashes, id: doc, segment: old(self).spec_segment_ord(), score },
            ) && final(self).spec_num_docs_taken() == old(self).spec_num_docs_taken() + 1,
    {
        if self.is_done() {
            return ;
        }
        self.num_docs_taken = self.num_docs_taken + 1;
        self.bucket_collector.insert(
            SegmentDoc { hashes, id: doc, segment: self.segment_ord, score },
        );
    }

    /// Extracts this segment's de-duplicated best hits.
    pub fn harvest(self) -> (r: Vec<SegmentDoc>)
        requires
            self.wf(),
        ensures
            r@ == model_output_docs(
                self.spec_docs(),
                self.spec_config(),
                true,
                self.spec_top_n() as int,
            ),
            r@.len() <= self.spec_top_n(),
    {
        self.bucket_collector.into_sorted_vec(true)
    }
}

/// The fruits of all segments concatenated, oldest segment first.
pub open spec fn concat_fruits(fruits: Seq<Seq<SegmentDoc>>) -> Seq<SegmentDoc>
    decreases fruits.len(),
{
    if fruits.len() == 0 {
        Seq::empty()
    } else {
        concat_fruits(fruits.drop_last()) + fruits.last()
    }
}

/// The final hits of a query, as pointers: the segment fruits are merged
/// through one more bucket collector sized `top_n + offset`, the offset is
/// skipped, and at most `top_n` pointers remain.
pub open spec fn merge_fruits_spec(
    fruits: Seq<Seq<SegmentDoc>>,
    cfg: CollectorConfig,
    de_rank: bool,
    top_n: int,
    offset: int,
) -> Seq<SegmentDoc> {
    let merged = model_output_docs(concat_fruits(fruits), cfg, de_rank, top_n + offset);
    let after_skip = if offset <= merged.len() {
        merged.skip(offset)
    } else {
        Seq::empty()
    };
    if top_n <= after_skip.len() {
        after_skip.take(top_n)
    } else {
        after_skip
    }
}

proof fn lemma_concat_take_le(fruits: Seq<Seq<SegmentDoc>>, i: int)
    requires
        0 <= i <= fruits.len(),
    ensures
        concat_fruits(fruits.take(i)).len() <= concat_fruits(fruits).len(),
    decreases fruits.len(),
{
    if i == fruits.len() {
        assert(fruits.take(i) =~= fruits);
    } else {
        assert(fruits.take(i) =~= fruits.drop_last().take(i));
        lemma_concat_take_le(fruits.drop_last(), i);
    }
}

proof fn lemma_concat_take_next(fruits: Seq<Seq<SegmentDoc>>, i: int)
    requires
        0 <= i < fruits.len(),
    ensures
        concat_fruits(fruits.take(i + 1)) == concat_fruits(fruits.take(i)) + fruits[i],
{
    assert(fruits.take(i + 1).drop_last() =~= fruits.take(i));
    assert(fruits.take(i + 1).last() == fruits[i]);
}

impl TopDocs {
    /// Merges the per-segment fruits into the final ranked pointers:
    /// every fruit document is fed into one more bucket collector, and the
    /// `offset` best are skipped before up to `top_n` hits are returned.
    pub fn merge_fruits(&self, segment_fruits: Vec<Vec<SegmentDoc>>) -> (r: Vec<
        crate::inverted_index::WebsitePointer,
    >)
        requires
            self.spec_top_n() > 0,
            self.spec_top_n() + self.spec_offset() <= usize::MAX,
            self.spec_collector_config().valid(),
            concat_fruits(segment_fruits.deep_view()).len() < usize::MAX,
        ensures
            r@.len() <= self.spec_top_n(),
            r@ == merge_fruits_spec(
                segment_fruits.deep_view(),
                self.spec_collector_config(),
                self.spec_de_rank_similar(),
                self.spec_top_n() as int,
                self.spec_offset() as int,
            ).map_values(
                |d: SegmentDoc| crate::inverted_index::WebsitePointer {
                    score: d.score,
                    hashes: d.hashes,
                    address: crate::inverted_index::DocAddress {
                        segment: d.segment,
                        doc_id: d.id,
                    },
                },
            ),
    {
        let ghost all = segment_fruits.deep_view();
        let mut collector = BucketCollector::new(self.top_n + self.offset, self.collector_config);
        let mut i: usize = 0;
        while i < segment_fruits.len()
            invariant
                i <= segment_fruits@.len(),
                all == segment_fruits.deep_view(),
                all.len() == segment_fruits@.len(),
                concat_fruits(all).len() < usize::MAX,
                collector.inv(),
                collector.spec_top_n() == self.spec_top_n() + self.spec_offset(),
                collector.spec_config() == self.spec_collector_config(),
                collector.spec_docs() =~= concat_fruits(all.take(i as int)),
            decreases segment_fruits@.len() - i,
        {
            let fruit = &segment_fruits[i];
            proof {
                assert(all[i as int] =~= fruit@);
            }
            let mut j: usize = 0;
            while j < fruit.len()
                invariant
                    j <= fruit@.len(),
                    i < segment_fruits@.len(),
                    all == segment_fruits.deep_view(),
                    all.len() == segment_fruits@.len(),
                    all[i as int] =~= fruit@,
                    concat_fruits(all).len() < usize::MAX,
                    collector.inv(),
                    collector.spec_top_n() == self.spec_top_n() + self.spec_offset(),
                    collector.spec_config() == self.spec_collector_config(),
                    collector.spec_docs() =~= concat_fruits(all.take(i as int)) + all[i as int].take(
                        j as int,
                    ),
                decreases fruit@.len() - j,
            {
                proof {
                    lemma_concat_take_next(all, i as int);
                    lemma_concat_take_le(all, i + 1);
                }
                collector.insert(fruit[j]);
                proof {
                    assert(all[i as int].take(j + 1) =~= all[i as int].take(j as int).push(
                        fruit@[j as int],
                    ));
                }
                j = j + 1;
            }
            proof {
                lemma_concat_take_next(all, i as int);
                assert(all[i as int].take(fruit@.len() as int) =~= all[i as int]);
            }
            i = i + 1;
        }
        proof {
            assert(all.take(all.len() as int) =~= all);
        }
        let docs = collector.into_sorted_vec(self.de_rank_similar);
        let mut r: Vec<crate::inverted_index::WebsitePointer> = Vec::new();
        let mut k: usize = self.offset;
        while k < docs.len() && r.len() < self.top_n
            invariant
                self.spec_offset() <= k,
                k <= docs@.len() || k == self.spec_offset(),
                r@.len() == k - self.spec_offset(),
                r@.len() <= self.spec_top_n(),
                forall|q: int|
                    0 <= q < r@.len() ==> (#[trigger] r@[q])
                        == (crate::inverted_index::WebsitePointer {
                        score: docs@[self.spec_offset() + q].score,
                        hashes: docs@[self.spec_offset() + q].hashes,
                        address: crate::inverted_index::DocAddress {
                            segment: docs@[self.spec_offset() + q].segment,
                            doc_id: docs@[self.spec_offset() + q].id,
                        },
                    }),
            decreases docs@.len() - k,
        {
            let d = docs[k];
            r.push(
                crate::inverted_index::WebsitePointer {
                    score: d.score,
                    hashes: d.hashes,
                    address: crate::inverted_index::DocAddress {
                        segment: d.segment,
                        doc_id: d.id,
                    },
                },
            );
            k = k + 1;
        }
        proof {
            let spec_out = merge_fruits_spec(
                all,
                self.spec_collector_config(),
                self.spec_de_rank_similar(),
                self.spec_top_n() as int,
                self.spec_offset() as int,
            );
            assert(r@ =~= spec_out.map_values(
                |d: SegmentDoc| crate::inverted_index::WebsitePointer {
                    score: d.score,
                    hashes: d.hashes,
                    address: crate::inverted_index::DocAddress {
                        segment: d.segment,
                        doc_id: d.id,
                    },
                },
            ));
        }
        r
    }
}

/// With no buckets taken, the adjusted score is the raw score.
proof fn lemma_adjusted_initial(d: SegmentDoc, cfg: CollectorConfig)
    ensures
        adjusted_of(d, Map::empty(), cfg) == d.score.total,
{
    vstd::arithmetic::mul::lemma_mul_is_commutative(d.score.total as int, PENALTY_SCALE as int);
    vstd::arithmetic::div_mod::lemma_div_multiples_vanish(
        d.score.total as int,
        PENALTY_SCALE as int,
    );
}

/// Counting one key once more never shrinks any count.
proof fn lemma_bump1_ge(m: Map<u128, u64>, h0: u128, h: u128)
    ensures
        count_for(bump1(m, h0), h) >= count_for(m, h),
{
}

/// Counting a document's keys never shrinks any count.
proof fn lemma_bump_ge(m: Map<u128, u64>, hs: Hashes, h: u128)
    ensures
        count_for(bump_hashes(m, hs), h) >= count_for(m, h),
{
    let m1 = bump1(m, hs.site.0);
    let m2 = bump1(m1, hs.url.0);
    let m3 = bump1(m2, hs.url_without_tld.0);
    lemma_bump1_ge(m, hs.site.0, h);
    lemma_bump1_ge(m1, hs.url.0, h);
    lemma_bump1_ge(m2, hs.url_without_tld.0, h);
    lemma_bump1_ge(m3, hs.title.0, h);
}

/// Larger bucket counts never raise an adjusted score.
proof fn lemma_adjusted_le(d: SegmentDoc, cfg: CollectorConfig, m1: Map<u128, u64>, m2: Map<
    u128,
    u64,
>)
    requires
        count_for(m1, d.hashes.site.0) <= count_for(m2, d.hashes.site.0),
        count_for(m1, d.hashes.url.0) <= count_for(m2, d.hashes.url.0),
        count_for(m1, d.hashes.url_without_tld.0) <= count_for(m2, d.hashes.url_without_tld.0),
        count_for(m1, d.hashes.title.0) <= count_for(m2, d.hashes.title.0),
    ensures
        adjusted_of(d, m2, cfg) <= adjusted_of(d, m1, cfg),
{
    vstd::arithmetic::mul::lemma_mul_inequality(
        count_for(m1, d.hashes.site.0),
        count_for(m2, d.hashes.site.0),
        cfg.site_penalty as int,
    );
    vstd::arithmetic::mul::lemma_mul_inequality(
        count_for(m1, d.hashes.url.0),
        count_for(m2, d.hashes.url.0),
        cfg.url_penalty as int,
    );
    vstd::arithmetic::mul::lemma_mul_inequality(
        count_for(m1, d.hashes.url_without_tld.0),
        count_for(m2, d.hashes.url_without_tld.0),
        cfg.url_without_tld_penalty as int,
    );
    vstd::arithmetic::mul::lemma_mul_inequality(
        count_for(m1, d.hashes.title.0),
        count_for(m2, d.hashes.title.0),
        cfg.title_penalty as int,
    );
    vstd::arithmetic::mul::lemma_mul_nonnegative(
        count_for(m1, d.hashes.site.0),
        cfg.site_penalty as int,
    );
    vstd::arithmetic::mul::lemma_mul_nonnegative(
        count_for(m1, d.hashes.url.0),
        cfg.url_penalty as int,
    );
    vstd::arithmetic::mul::lemma_mul_nonnegative(
        count_for(m1, d.hashes.url_without_tld.0),
        cfg.url_without_tld_penalty as int,
    );
    vstd::arithmetic::mul::lemma_mul_nonnegative(
        count_for(m1, d.hashes.title.0),
        cfg.title_penalty as int,
    );
    vstd::arithmetic::div_mod::lemma_div_is_ordered_by_denominator(
        (d.score.total * PENALTY_SCALE) as int,
        PENALTY_SCALE + count_for(m1, d.hashes.site.0) * cfg.site_penalty + count_for(
            m1,
            d.hashes.url.0,
        ) * cfg.url_penalty + count_for(m1, d.hashes.url_without_tld.0)
            * cfg.url_without_tld_penalty + count_for(m1, d.hashes.title.0) * cfg.title_penalty,
        PENALTY_SCALE + count_for(m2, d.hashes.site.0) * cfg.site_penalty + count_for(
            m2,
            d.hashes.url.0,
        ) * cfg.url_penalty + count_for(m2, d.hashes.url_without_tld.0)
            * cfg.url_without_tld_penalty + count_for(m2, d.hashes.title.0) * cfg.title_penalty,
    );
}

proof fn lemma_model_scores_helper(
    docs: Seq<SegmentDoc>,
    cfg: CollectorConfig,
    de_rank: bool,
    top_n: int,
    remaining: Set<int>,
    m: Map<u128, u64>,
    seen: Set<u64>,
    emitted: int,
)
    requires
        remaining.finite(),
        forall|i: int| remaining.contains(i) ==> 0 <= i < docs.len(),
    ensures
        ({
            let o = model_rest(docs, cfg, de_rank, top_n, remaining, m, seen, emitted);
            &&& forall|k1: int, k2: int|
                0 <= k1 <= k2 < o.scores.len() ==> o.scores[k2] <= o.scores[k1]
            &&& o.scores.len() > 0 ==> exists|i: int|
                remaining.contains(i) && 0 <= i < docs.len() && o.scores[0] <= adjusted_of(
                    docs[i],
                    m,
                    cfg,
                )
        }),
    decreases remaining.len(),
{
    let o = model_rest(docs, cfg, de_rank, top_n, remaining, m, seen, emitted);
    if emitted >= top_n || !remaining.finite() || remaining.is_empty() {
    } else {
        let b = choose|i: int| is_best(docs, cfg, m, remaining, i);
        if !is_best(docs, cfg, m, remaining, b) {
        } else {
            let d = docs[b];
            if de_rank && d.hashes.simhash != 0 && seen.contains(d.hashes.simhash) {
                lemma_model_scores_helper(
                    docs,
                    cfg,
                    de_rank,
                    top_n,
                    remaining.remove(b),
                    m,
                    seen,
                    emitted,
                );
                let rest = model_rest(
                    docs,
                    cfg,
                    de_rank,
                    top_n,
                    remaining.remove(b),
                    m,
                    seen,
                    emitted,
                );
                if rest.scores.len() > 0 {
                    let i0 = choose|i: int|
                        remaining.remove(b).contains(i) && 0 <= i < docs.len() && rest.scores[0]
                            <= adjusted_of(docs[i], m, cfg);
                    assert(remaining.contains(i0));
                }
            } else {
                let m2 = if de_rank {
                    bump_hashes(m, d.hashes)
                } else {
                    m
                };
                let seen2 = if de_rank && d.hashes.simhash != 0 {
                    seen.insert(d.hashes.simhash)
                } else {
                    seen
                };
                lemma_model_scores_helper(
                    docs,
                    cfg,
                    de_rank,
                    top_n,
                    remaining.remove(b),
                    m2,
                    seen2,
                    emitted + 1,
                );
                let rest = model_rest(
                    docs,
                    cfg,
                    de_rank,
                    top_n,
                    remaining.remove(b),
                    m2,
                    seen2,
                    emitted + 1,
                );
                let v = adjusted_of(d, m, cfg);
                if rest.scores.len() > 0 {
                    let i0 = choose|i: int|
                        remaining.remove(b).contains(i) && 0 <= i < docs.len() && rest.scores[0]
                            <= adjusted_of(docs[i], m2, cfg);
                    if de_rank {
                        lemma_bump_ge(m, d.hashes, docs[i0].hashes.site.0);
                        lemma_bump_ge(m, d.hashes, docs[i0].hashes.url.0);
                        lemma_bump_ge(m, d.hashes, docs[i0].hashes.url_without_tld.0);
                        lemma_bump_ge(m, d.hashes, docs[i0].hashes.title.0);
                        lemma_adjusted_le(docs[i0], cfg, m, m2);
                    }
                    assert(key_lt(sel_key(docs, cfg, m, i0), sel_key(docs, cfg, m, b)));
                    assert(adjusted_of(docs[i0], m, cfg) <= v);
                    assert(rest.scores[0] <= v);
                }
                assert forall|k1: int, k2: int|
                    0 <= k1 <= k2 < o.scores.len() implies o.scores[k2] <= o.scores[k1] by {
                    if k1 == 0 && k2 > 0 {
                        assert(o.scores[k2] == rest.scores[k2 - 1]);
                        assert(rest.scores[k2 - 1] <= rest.scores[0]);
                    }
                }
            }
        }
    }
}

/// After adjustment, an emitted document never scores above one emitted
/// before it: the collector's emission-time adjusted scores are
/// non-increasing along the output. In particular, when a document shares
/// a non-zero bucket key with an earlier output, its adjustment has already
/// counted that bucket, so it never scores above the earlier one.
pub proof fn lemma_collector_scores_nonincreasing(
    docs: Seq<SegmentDoc>,
    cfg: CollectorConfig,
    de_rank: bool,
    top_n: int,
)
    ensures
        forall|k1: int, k2: int|
            0 <= k1 <= k2 < model_collect(docs, cfg, de_rank, top_n).scores.len()
                ==> model_collect(docs, cfg, de_rank, top_n).scores[k2] <= model_collect(
                docs,
                cfg,
                de_rank,
                top_n,
            ).scores[k1],
{
    vstd::set_lib::lemma_int_range(0, docs.len() as int);
    lemma_model_scores_helper(
        docs,
        cfg,
        de_rank,
        top_n,
        vstd::set_lib::set_int_range(0, docs.len() as int),
        Map::empty(),
        Set::empty(),
        0,
    );
}

/// Two best remaining documents are the same document.
proof fn lemma_best_unique(
    docs: Seq<SegmentDoc>,
    cfg: CollectorConfig,
    m: Map<u128, u64>,
    remaining: Set<int>,
    b1: int,
    b2: int,
)
    requires
        is_best(docs, cfg, m, remaining, b1),
        is_best(docs, cfg, m, remaining, b2),
    ensures
        b1 == b2,
{
    if b1 != b2 {
        assert(key_lt(sel_key(docs, cfg, m, b1), sel_key(docs, cfg, m, b2)));
        assert(key_lt(sel_key(docs, cfg, m, b2), sel_key(docs, cfg, m, b1)));
    }
}

/// Whether a queue entry's cached score has fallen out of date.
pub open spec fn is_stale(
    docs: Seq<SegmentDoc>,
    cfg: CollectorConfig,
    m: Map<u128, u64>,
    it: HeapItem,
) -> bool {
    it.0 as int != adjusted_of(docs[it.3 as int], m, cfg)
}

/// The out-of-date entries of the queue.
pub open spec fn stale_set(
    docs: Seq<SegmentDoc>,
    cfg: CollectorConfig,
    m: Map<u128, u64>,
    h: Multiset<HeapItem>,
) -> Multiset<HeapItem> {
    h.filter(|it: HeapItem| is_stale(docs, cfg, m, it))
}

/// Removing an entry removes it from the stale entries, and nothing else.
proof fn lemma_stale_remove(
    docs: Seq<SegmentDoc>,
    cfg: CollectorConfig,
    m: Map<u128, u64>,
    h: Multiset<HeapItem>,
    x: HeapItem,
)
    requires
        h.count(x) > 0,
    ensures
        is_stale(docs, cfg, m, x) ==> stale_set(docs, cfg, m, h.remove(x)).len() == stale_set(
            docs,
            cfg,
            m,
            h,
        ).len() - 1,
        !is_stale(docs, cfg, m, x) ==> stale_set(docs, cfg, m, h.remove(x)) == stale_set(
            docs,
            cfg,
            m,
            h,
        ),
{
    if is_stale(docs, cfg, m, x) {
        assert(stale_set(docs, cfg, m, h) =~= stale_set(docs, cfg, m, h.remove(x)).insert(x));
        vstd::multiset::lemma_insert_len(stale_set(docs, cfg, m, h.remove(x)), x);
    } else {
        assert(stale_set(docs, cfg, m, h.remove(x)) =~= stale_set(docs, cfg, m, h));
    }
}

/// Adding an up-to-date entry leaves the stale entries unchanged.
proof fn lemma_stale_insert_fresh(
    docs: Seq<SegmentDoc>,
    cfg: CollectorConfig,
    m: Map<u128, u64>,
    h: Multiset<HeapItem>,
    x: HeapItem,
)
    requires
        !is_stale(docs, cfg, m, x),
    ensures
        stale_set(docs, cfg, m, h.insert(x)) == stale_set(docs, cfg, m, h),
{
    assert(stale_set(docs, cfg, m, h.insert(x)) =~= stale_set(docs, cfg, m, h));
}

/// The initial queue entries of the first `n` documents, in order.
pub open spec fn initial_items(docs: Seq<SegmentDoc>, n: int) -> Seq<HeapItem> {
    Seq::new(n as nat, |i: int| initial_item(docs, i))
}

/// The queue entries of the first `n` documents: one entry per document,
/// each carrying its own index.
proof fn lemma_initial_multiset(docs: Seq<SegmentDoc>, n: int)
    requires
        0 <= n <= docs.len(),
        docs.len() <= usize::MAX,
    ensures
        forall|it: HeapItem|
            #![trigger initial_items(docs, n).to_multiset().count(it)]
            initial_items(docs, n).to_multiset().count(it) <= 1 && (initial_items(
                docs,
                n,
            ).to_multiset().count(it) > 0 ==> it.3 < n && it == initial_item(docs, it.3 as int)),
    decreases n,
{
    if n > 0 {
        lemma_initial_multiset(docs, n - 1);
        let prev = initial_items(docs, n - 1);
        let cur = initial_items(docs, n);
        assert(cur =~= prev.push(initial_item(docs, n - 1)));
        assert(cur.to_multiset() =~= prev.to_multiset().insert(initial_item(docs, n - 1)));
    } else {
        let cur = initial_items(docs, n);
        assert(cur =~= Seq::<HeapItem>::empty());
        assert(cur.to_multiset() =~= Multiset::<HeapItem>::empty());
    }
}

/// Well-formedness of one queue entry against the current state.
pub open spec fn item_wf(
    docs: Seq<SegmentDoc>,
    cfg: CollectorConfig,
    m: Map<u128, u64>,
    remaining: Set<int>,
    it: HeapItem,
) -> bool {
    &&& it.3 < docs.len()
    &&& remaining.contains(it.3 as int)
    &&& it.1 == docs[it.3 as int].score.total
    &&& it.2 == rev_addr(docs[it.3 as int])
    &&& adjusted_of(docs[it.3 as int], m, cfg) <= it.0
}

/// Well-formedness of the whole queue: entries describe distinct remaining
/// documents with scores no older than the current counts, and `slot`
/// points at one live entry per remaining document.
pub open spec fn heap_wf(
    docs: Seq<SegmentDoc>,
    cfg: CollectorConfig,
    m: Map<u128, u64>,
    remaining: Set<int>,
    h: Multiset<HeapItem>,
    slot: Map<int, HeapItem>,
) -> bool {
    &&& forall|it: HeapItem| #[trigger] h.count(it) > 0 ==> item_wf(docs, cfg, m, remaining, it)
    &&& forall|it: HeapItem| #[trigger] h.count(it) <= 1
    &&& forall|it1: HeapItem, it2: HeapItem|
        #![trigger h.count(it1), h.count(it2)]
        h.count(it1) > 0 && h.count(it2) > 0 && it1 != it2 ==> it1.3 != it2.3
    &&& forall|i: int|
        remaining.contains(i) ==> slot.dom().contains(i) && (#[trigger] slot[i]).3 == i && h.count(
            slot[i],
        ) > 0
}

impl BucketCollector {
    /// Extracts the collected documents: the best `top_n` under bucket
    /// de-duplication when `de_rank_similar` is set, or simply the `top_n`
    /// highest raw scores when it is not. SimHash near-duplicates only
    /// backfill otherwise unused slots. The result is exactly what the
    /// selection model `model_output_docs` picks.
    pub fn into_sorted_vec(self, de_rank_similar: bool) -> (r: Vec<SegmentDoc>)
        requires
            self.inv(),
        ensures
            r@ == model_output_docs(
                self.spec_docs(),
                self.spec_config(),
                de_rank_similar,
                self.spec_top_n() as int,
            ),
            r@.len() <= self.spec_top_n(),
    {
        let BucketCollector { top_n, config, count: c0, documents: h0, docs } = self;
        let mut count = c0;
        let mut heap = h0;
        let n_docs = docs.len();
        let ghost dseq = docs@;
        let mut out: Vec<SegmentDoc> = Vec::new();
        let mut dups: Vec<SegmentDoc> = Vec::new();
        let mut seen: HashSetWithView<u64> = HashSetWithView::new();
        let ghost mut remaining: Set<int> = vstd::set_lib::set_int_range(0, dseq.len() as int);
        let ghost mut slot: Map<int, HeapItem> = Map::new(
            |i: int| 0 <= i < dseq.len(),
            |i: int| initial_item(dseq, i),
        );
        let ghost mut picked_idx: Seq<int> = Seq::empty();
        let ghost mut deferred_idx: Seq<int> = Seq::empty();

        proof {
            vstd::set_lib::lemma_int_range(0, dseq.len() as int);
            lemma_initial_multiset(dseq, dseq.len() as int);
            let ghost ms = initial_items(dseq, dseq.len() as int).to_multiset();
            assert(heap_view(&heap) == ms);
            assert forall|it: HeapItem| #[trigger] heap_view(&heap).count(it) > 0 implies item_wf(
                dseq,
                config,
                count.counts(),
                remaining,
                it,
            ) by {
                assert(ms.count(it) > 0);
                assert(it == initial_item(dseq, it.3 as int));
                lemma_adjusted_initial(dseq[it.3 as int], config);
            }
            assert forall|it: HeapItem| #[trigger] heap_view(&heap).count(it) <= 1 by {
                assert(ms.count(it) <= 1);
            }
            assert forall|it1: HeapItem, it2: HeapItem|
                #![trigger heap_view(&heap).count(it1), heap_view(&heap).count(it2)]
                heap_view(&heap).count(it1) > 0 && heap_view(&heap).count(it2) > 0 && it1
                    != it2 implies it1.3 != it2.3 by {
                assert(ms.count(it1) > 0 && ms.count(it2) > 0);
                assert(it1 == initial_item(dseq, it1.3 as int));
                assert(it2 == initial_item(dseq, it2.3 as int));
            }
            assert forall|i: int| remaining.contains(i) implies slot.dom().contains(i) && (
            #[trigger] slot[i]).3 == i && heap_view(&heap).count(slot[i]) > 0 by {
                assert(slot[i] == initial_item(dseq, i));
                assert(initial_items(dseq, dseq.len() as int)[i] == initial_item(dseq, i));
                assert(initial_items(dseq, dseq.len() as int).contains(initial_item(dseq, i)));
            }
            assert(heap_wf(dseq, config, count.counts(), remaining, heap_view(&heap), slot));
        }

        loop
            invariant
                config.valid(),
                top_n > 0,
                count.spec_config() == config,
                dseq == docs@,
                dseq.len() <= usize::MAX,
                remaining.finite(),
                forall|i: int| remaining.contains(i) ==> 0 <= i < dseq.len(),
                heap_wf(dseq, config, count.counts(), remaining, heap_view(&heap), slot),
                out@ == picked_idx.map_values(|i: int| dseq[i]),
                dups@ == deferred_idx.map_values(|i: int| dseq[i]),
                out@.len() == picked_idx.len(),
                dups@.len() == deferred_idx.len(),
                out@.len() <= top_n,
                model_collect(dseq, config, de_rank_similar, top_n as int).picked == picked_idx
                    + model_rest(
                    dseq,
                    config,
                    de_rank_similar,
                    top_n as int,
                    remaining,
                    count.counts(),
                    seen@,
                    picked_idx.len() as int,
                ).picked,
                model_collect(dseq, config, de_rank_similar, top_n as int).deferred == deferred_idx
                    + model_rest(
                    dseq,
                    config,
                    de_rank_similar,
                    top_n as int,
                    remaining,
                    count.counts(),
                    seen@,
                    picked_idx.len() as int,
                ).deferred,
            ensures
                model_collect(dseq, config, de_rank_similar, top_n as int).picked == picked_idx,
                model_collect(dseq, config, de_rank_similar, top_n as int).deferred
                    == deferred_idx,
                out@ == picked_idx.map_values(|i: int| dseq[i]),
                dups@ == deferred_idx.map_values(|i: int| dseq[i]),
                out@.len() == picked_idx.len(),
                dups@.len() == deferred_idx.len(),
                out@.len() <= top_n,
            decreases remaining.len(),
        {
            let ghost emitted = picked_idx.len() as int;
            if out.len() == top_n {
                proof {
                    assert(model_rest(
                        dseq,
                        config,
                        de_rank_similar,
                        top_n as int,
                        remaining,
                        count.counts(),
                        seen@,
                        emitted,
                    ).picked =~= Seq::<int>::empty());
                    assert(picked_idx + Seq::<int>::empty() =~= picked_idx);
                    assert(deferred_idx + model_rest(
                        dseq,
                        config,
                        de_rank_similar,
                        top_n as int,
                        remaining,
                        count.counts(),
                        seen@,
                        emitted,
                    ).deferred =~= deferred_idx);
                }
                break ;
            }

            // Pop the best remaining candidate, refreshing cached scores
            // that the latest bucket counts have outdated.
            let mut popped: Option<HeapItem> = None;
            loop
                invariant_except_break
                    popped.is_none(),
                    heap_wf(dseq, config, count.counts(), remaining, heap_view(&heap), slot),
                invariant
                    config.valid(),
                    count.spec_config() == config,
                    dseq == docs@,
                    dseq.len() <= usize::MAX,
                    remaining.finite(),
                    forall|i: int| remaining.contains(i) ==> 0 <= i < dseq.len(),
                ensures
                    heap_wf(dseq, config, count.counts(), remaining, heap_view(&heap), slot)
                        || popped.is_some(),
                    popped.is_none() ==> remaining.is_empty(),
                    popped.is_some() ==> {
                        let it = popped.unwrap();
                        &&& it.3 < dseq.len()
                        &&& remaining.contains(it.3 as int)
                        &&& it.1 == dseq[it.3 as int].score.total
                        &&& it.2 == rev_addr(dseq[it.3 as int])
                        &&& it.0 as int == adjusted_of(dseq[it.3 as int], count.counts(), config)
                        &&& is_best(dseq, config, count.counts(), remaining, it.3 as int)
                        &&& heap_wf(
                            dseq,
                            config,
                            count.counts(),
                            remaining.remove(it.3 as int),
                            heap_view(&heap),
                            slot,
                        )
                    },
                decreases stale_set(dseq, config, count.counts(), heap_view(&heap)).len(),
            {
                let ghost pre_heap = heap_view(&heap);
                let got = heap_pop_max(&mut heap);
                match got {
                    None => {
                        proof {
                            if !remaining.is_empty() {
                                let i0 = remaining.choose();
                                assert(pre_heap.count(slot[i0]) > 0);
                            }
                        }
                        break ;
                    },
                    Some(it) => {
                        proof {
                            assert(pre_heap.count(it) > 0);
                            assert(item_wf(dseq, config, count.counts(), remaining, it));
                        }
                        let a = count.adjust_score(&docs[it.3]);
                        if a == it.0 {
                            proof {
                                lemma_stale_remove(dseq, config, count.counts(), pre_heap, it);
                                let kt = sel_key(dseq, config, count.counts(), it.3 as int);
                                assert(kt == (it.0 as int, it.1 as int, it.2 as int, it.3 as int));
                                assert forall|i: int|
                                    remaining.contains(i) && i != it.3 as int implies key_lt(
                                    sel_key(dseq, config, count.counts(), i),
                                    sel_key(dseq, config, count.counts(), it.3 as int),
                                ) by {
                                    let si = slot[i];
                                    assert(pre_heap.count(si) > 0);
                                    assert(item_wf(dseq, config, count.counts(), remaining, si));
                                    assert(item_le(si, it));
                                    assert(si != it);
                                    let ki = sel_key(dseq, config, count.counts(), i);
                                    assert(ki.0 <= si.0 as int);
                                    assert(ki.1 == si.1 as int && ki.2 == si.2 as int && ki.3
                                        == si.3 as int);
                                    assert(key_lt(ki, kt));
                                }
                                assert(is_best(
                                    dseq,
                                    config,
                                    count.counts(),
                                    remaining,
                                    it.3 as int,
                                ));
                                assert forall|it2: HeapItem|
                                    #[trigger] heap_view(&heap).count(it2) > 0 implies item_wf(
                                    dseq,
                                    config,
                                    count.counts(),
                                    remaining.remove(it.3 as int),
                                    it2,
                                ) by {
                                    assert(pre_heap.count(it2) > 0);
                                    assert(it2 != it);
                                    assert(it2.3 != it.3);
                                }
                                assert forall|i: int|
                                    remaining.remove(it.3 as int).contains(i) implies slot.dom()
                                    .contains(i) && (#[trigger] slot[i]).3 == i && heap_view(
                                    &heap,
                                ).count(slot[i]) > 0 by {
                                    assert(remaining.contains(i));
                                    let si = slot[i];
                                    assert(si.3 == i);
                                    assert(si != it);
                                    assert(slot.dom().contains(i));
                                }
                                assert(forall|it2: HeapItem|
                                    #[trigger] heap_view(&heap).count(it2) <= 1);
                                assert(forall|it1: HeapItem, it2: HeapItem|
                                    #![trigger heap_view(&heap).count(it1), heap_view(&heap).count(it2)]
                                    heap_view(&heap).count(it1) > 0 && heap_view(&heap).count(it2)
                                        > 0 && it1 != it2 ==> it1.3 != it2.3);
                                assert forall|i: int|
                                    remaining.remove(it.3 as int).contains(i) implies #[trigger] slot.dom().contains(i) by {
                                    assert(remaining.contains(i));
                                    let si = slot[i];
                                    assert(si.3 == i);
                                }
                                assert(heap_wf(
                                    dseq,
                                    config,
                                    count.counts(),
                                    remaining.remove(it.3 as int),
                                    heap_view(&heap),
                                    slot,
                                ));
                            }
                            popped = Some(it);
                            break ;
                        } else {
                            let it2: HeapItem = (a, it.1, it.2, it.3);
                            proof {
                                lemma_stale_remove(dseq, config, count.counts(), pre_heap, it);
                                assert(is_stale(dseq, config, count.counts(), it));
                                assert(heap_view(&heap).count(it) == 0);
                                lemma_stale_insert_fresh(
                                    dseq,
                                    config,
                                    count.counts(),
                                    heap_view(&heap),
                                    it2,
                                );
                            }
                            let ghost mid_heap = heap_view(&heap);
                            heap_push(&mut heap, it2);
                            proof {
                                let ghost slot_pre = slot;
                                slot = slot.insert(it.3 as int, it2);
                                assert forall|i: int| remaining.contains(i) implies slot.dom()
                                    .contains(i) && (#[trigger] slot[i]).3 == i && heap_view(
                                    &heap,
                                ).count(slot[i]) > 0 by {
                                    if i == it.3 as int {
                                        assert(slot[i] == it2);
                                        assert(slot.dom().contains(i));
                                    } else {
                                        let old_si = slot_pre[i];
                                        assert(old_si.3 == i);
                                        assert(slot_pre.dom().contains(i));
                                        assert(slot[i] == old_si);
                                        assert(slot.dom().contains(i));
                                        assert(old_si != it);
                                        assert(mid_heap.count(old_si) > 0);
                                    }
                                }
                                assert forall|x1: HeapItem, x2: HeapItem|
                                    #![trigger heap_view(&heap).count(x1), heap_view(&heap).count(x2)]
                                    heap_view(&heap).count(x1) > 0 && heap_view(&heap).count(x2)
                                        > 0 && x1 != x2 implies x1.3 != x2.3 by {
                                    if x1 == it2 {
                                        assert(mid_heap.count(x2) > 0);
                                        assert(pre_heap.count(x2) > 0);
                                        assert(x2 != it);
                                    } else if x2 == it2 {
                                        assert(mid_heap.count(x1) > 0);
                                        assert(pre_heap.count(x1) > 0);
                                        assert(x1 != it);
                                    } else {
                                        assert(pre_heap.count(x1) > 0);
                                        assert(pre_heap.count(x2) > 0);
                                    }
                                }
                                assert forall|x1: HeapItem|
                                    #[trigger] heap_view(&heap).count(x1) > 0 implies item_wf(
                                    dseq,
                                    config,
                                    count.counts(),
                                    remaining,
                                    x1,
                                ) by {
                                    if x1 != it2 {
                                        assert(mid_heap.count(x1) > 0);
                                        assert(pre_heap.count(x1) > 0);
                                    }
                                }
                                assert forall|x1: HeapItem| #[trigger] heap_view(&heap).count(x1)
                                    <= 1 by {
                                    if x1 == it2 {
                                        if pre_heap.count(it2) > 0 {
                                            assert(it2.3 == it.3 && it2 != it);
                                        }
                                        assert(mid_heap.count(it2) == 0);
                                    } else {
                                        assert(heap_view(&heap).count(x1) == mid_heap.count(x1));
                                    }
                                }
                                assert forall|i: int|
                                    remaining.contains(i) implies #[trigger] slot.dom().contains(i) by {
                                    let si = slot[i];
                                    assert(si.3 == i);
                                }
                                assert(heap_wf(
                                    dseq,
                                    config,
                                    count.counts(),
                                    remaining,
                                    heap_view(&heap),
                                    slot,
                                ));
                            }
                        }
                    },
                }
            }

            match popped {
                None => {
                    proof {
                        assert(model_rest(
                            dseq,
                            config,
                            de_rank_similar,
                            top_n as int,
                            remaining,
                            count.counts(),
                            seen@,
                            emitted,
                        ).picked =~= Seq::<int>::empty());
                        assert(picked_idx + Seq::<int>::empty() =~= picked_idx);
                        assert(deferred_idx + Seq::<int>::empty() =~= deferred_idx);
                    }
                    break ;
                },
                Some(it) => {
                    let i = it.3;
                    let d = docs[i];
                    let ghost m_pre = count.counts();
                    let ghost seen_pre = seen@;
                    let ghost rem_pre = remaining;
                    proof {
                        let b = choose|j: int|
                            is_best(dseq, config, m_pre, rem_pre, j);
                        assert(is_best(dseq, config, m_pre, rem_pre, it.3 as int));
                        assert(is_best(dseq, config, m_pre, rem_pre, b));
                        lemma_best_unique(dseq, config, m_pre, rem_pre, b, it.3 as int);
                        remaining = remaining.remove(it.3 as int);
                    }
                    let is_dup = de_rank_similar && d.hashes.simhash != 0 && seen.contains(
                        &d.hashes.simhash,
                    );
                    if is_dup {
                        dups.push(d);
                        proof {
                            let rest = model_rest(
                                dseq,
                                config,
                                de_rank_similar,
                                top_n as int,
                                remaining,
                                m_pre,
                                seen_pre,
                                emitted,
                            );
                            assert(model_rest(
                                dseq,
                                config,
                                de_rank_similar,
                                top_n as int,
                                rem_pre,
                                m_pre,
                                seen_pre,
                                emitted,
                            ).deferred == seq![it.3 as int] + rest.deferred);
                            deferred_idx = deferred_idx.push(it.3 as int);
                            assert(dups@ =~= deferred_idx.map_values(|k: int| dseq[k]));
                            assert(deferred_idx + rest.deferred =~= deferred_idx.drop_last().push(
                                it.3 as int,
                            ) + rest.deferred);
                            assert(deferred_idx.drop_last() + (seq![it.3 as int] + rest.deferred)
                                =~= deferred_idx + rest.deferred);
                        }
                    } else {
                        if de_rank_similar {
                            count.update_counts(&d);
                            if d.hashes.simhash != 0 {
                                seen.insert(d.hashes.simhash);
                            }
                            proof {
                                assert forall|it2: HeapItem|
                                    #[trigger] heap_view(&heap).count(it2) > 0 implies item_wf(
                                    dseq,
                                    config,
                                    count.counts(),
                                    remaining,
                                    it2,
                                ) by {
                                    assert(item_wf(dseq, config, m_pre, remaining, it2));
                                    let d2 = dseq[it2.3 as int];
                                    lemma_bump_ge(m_pre, d.hashes, d2.hashes.site.0);
                                    lemma_bump_ge(m_pre, d.hashes, d2.hashes.url.0);
                                    lemma_bump_ge(m_pre, d.hashes, d2.hashes.url_without_tld.0);
                                    lemma_bump_ge(m_pre, d.hashes, d2.hashes.title.0);
                                    lemma_adjusted_le(d2, config, m_pre, count.counts());
                                }
                                assert forall|i2: int|
                                    remaining.contains(i2) implies #[trigger] slot.dom().contains(i2) by {
                                    let si = slot[i2];
                                    assert(si.3 == i2);
                                }
                                assert(heap_wf(
                                    dseq,
                                    config,
                                    count.counts(),
                                    remaining,
                                    heap_view(&heap),
                                    slot,
                                ));
                            }
                        }
                        out.push(d);
                        proof {
                            let rest = model_rest(
                                dseq,
                                config,
                                de_rank_similar,
                                top_n as int,
                                remaining,
                                count.counts(),
                                seen@,
                                emitted + 1,
                            );
                            assert(model_rest(
                                dseq,
                                config,
                                de_rank_similar,
                                top_n as int,
                                rem_pre,
                                m_pre,
                                seen_pre,
                                emitted,
                            ).picked == seq![it.3 as int] + rest.picked);
                            picked_idx = picked_idx.push(it.3 as int);
                            assert(out@ =~= picked_idx.map_values(|k: int| dseq[k]));
                            assert(picked_idx.drop_last() + (seq![it.3 as int] + rest.picked) =~=
                                picked_idx + rest.picked);
                        }
                    }
                },
            }
        }

        // Backfill unused slots from the deferred near-duplicates.
        let ghost picked_fin = picked_idx;
        let ghost deferred_fin = deferred_idx;
        let mut j: usize = 0;
        while j < dups.len() && out.len() < top_n
            invariant
                j <= dups@.len(),
                dups@ == deferred_fin.map_values(|i: int| dseq[i]),
                dups@.len() == deferred_fin.len(),
                out@.len() == picked_fin.len() + j,
                out@.len() <= top_n,
                out@ =~= (picked_fin + deferred_fin.take(j as int)).map_values(|i: int| dseq[i]),
            decreases dups@.len() - j,
        {
            let d = dups[j];
            out.push(d);
            proof {
                assert((picked_fin + deferred_fin.take(j + 1)) =~= (picked_fin
                    + deferred_fin.take(j as int)).push(deferred_fin[j as int]));
                assert(out@ =~= (picked_fin + deferred_fin.take(j + 1)).map_values(
                    |i: int| dseq[i],
                ));
            }
            j = j + 1;
        }
        proof {
            let o = model_collect(dseq, config, de_rank_similar, top_n as int);
            let want = top_n - o.picked.len();
            if want <= 0 {
                assert(j == 0);
                assert(out@ =~= (picked_fin + deferred_fin.take(0)).map_values(|i: int| dseq[i]));
                assert(picked_fin + deferred_fin.take(0) =~= picked_fin);
                assert(out@ =~= model_output(dseq, config, de_rank_similar, top_n as int)
                    .map_values(|i: int| dseq[i]));
            } else if j == dups@.len() {
                assert(deferred_fin.take(j as int) =~= deferred_fin);
                if want >= o.deferred.len() {
                    assert(out@ =~= model_output(dseq, config, de_rank_similar, top_n as int)
                        .map_values(|i: int| dseq[i]));
                } else {
                    assert(deferred_fin =~= deferred_fin.take(want));
                }
            } else {
                assert(out@.len() == top_n);
                assert(j as int == want);
                assert(out@ =~= model_output(dseq, config, de_rank_similar, top_n as int)
                    .map_values(|i: int| dseq[i]));
            }
        }
        out
    }
}

} // verus!
