//! Configuration of the engine's components, and the parser for the
//! human-readable durations ("30s", "5m", "2h", "1d") accepted wherever an
//! interval is configurable. Intervals are held as whole milliseconds.

use vstd::prelude::*;

use crate::Error;

verus! {

/// Scale in which the collector's penalties are expressed: a penalty of
/// `PENALTY_SCALE` counts as 1.0 in the score adjustment formula.
pub const PENALTY_SCALE: u64 = 1_000_000;

pub const DEFAULT_SITE_PENALTY: u64 = 100_000;

pub const DEFAULT_TITLE_PENALTY: u64 = 100_000;

pub const DEFAULT_URL_PENALTY: u64 = 100_000;

pub const DEFAULT_URL_WITHOUT_TLD_PENALTY: u64 = 100_000;

pub const DEFAULT_MAX_DOCS_CONSIDERED: usize = 250_000;

/// Tuning of the de-duplicating collector. The penalties are fixed-point
/// fractions of [`PENALTY_SCALE`]; each counts how strongly an already-taken
/// document sharing the same bucket demotes later candidates.
#[derive(Debug, Clone, Copy, PartialEq, Eq, Structural)]
pub struct CollectorConfig {
    pub site_penalty: u64,
    pub title_penalty: u64,
    pub url_penalty: u64,
    pub url_without_tld_penalty: u64,
    pub max_docs_considered: usize,
}

impl Default for CollectorConfig {
    fn default() -> (d: Self)
        ensures
            d.site_penalty == DEFAULT_SITE_PENALTY,
            d.title_penalty == DEFAULT_TITLE_PENALTY,
            d.url_penalty == DEFAULT_URL_PENALTY,
            d.url_without_tld_penalty == DEFAULT_URL_WITHOUT_TLD_PENALTY,
            d.max_docs_considered == DEFAULT_MAX_DOCS_CONSIDERED,
    {
        CollectorConfig {
            site_penalty: DEFAULT_SITE_PENALTY,
            title_penalty: DEFAULT_TITLE_PENALTY,
            url_penalty: DEFAULT_URL_PENALTY,
            url_without_tld_penalty: DEFAULT_URL_WITHOUT_TLD_PENALTY,
            max_docs_considered: DEFAULT_MAX_DOCS_CONSIDERED,
        }
    }
}

pub const DEFAULT_DESIRED_NUM_CHARS: usize = 275;

pub const DEFAULT_DELTA_NUM_CHARS: usize = 50;

pub const DEFAULT_MIN_PASSAGE_WIDTH: usize = 20;

pub const DEFAULT_EMPTY_QUERY_SNIPPET_WORDS: usize = 50;

pub const DEFAULT_MIN_DESCRIPTION_WORDS: usize = 10;

pub const DEFAULT_MIN_BODY_LENGTH: usize = 256;

pub const DEFAULT_MIN_BODY_LENGTH_HOMEPAGE: usize = 1024;

/// Bounds on the snippet generator: how long the chosen passage should be,
/// how much it may deviate, and when the body is preferred over descriptions.
#[derive(Debug, Clone, PartialEq, Eq, Structural)]
pub struct SnippetConfig {
    pub desired_num_chars: usize,
    pub delta_num_chars: usize,
    pub min_passage_width: usize,
    pub max_considered_words: Option<usize>,
    pub num_words_for_lang_detection: Option<usize>,
    pub empty_query_snippet_words: usize,
    pub min_description_words: usize,
    pub min_body_length: usize,
    pub min_body_length_homepage: usize,
}

impl Default for SnippetConfig {
    fn default() -> (d: Self)
        ensures
            d.desired_num_chars == DEFAULT_DESIRED_NUM_CHARS,
            d.delta_num_chars == DEFAULT_DELTA_NUM_CHARS,
            d.min_passage_width == DEFAULT_MIN_PASSAGE_WIDTH,
            d.max_considered_words.is_none(),
            d.num_words_for_lang_detection.is_none(),
            d.empty_query_snippet_words == DEFAULT_EMPTY_QUERY_SNIPPET_WORDS,
            d.min_description_words == DEFAULT_MIN_DESCRIPTION_WORDS,
            d.min_body_length == DEFAULT_MIN_BODY_LENGTH,
            d.min_body_length_homepage == DEFAULT_MIN_BODY_LENGTH_HOMEPAGE,
    {
        SnippetConfig {
            desired_num_chars: DEFAULT_DESIRED_NUM_CHARS,
            delta_num_chars: DEFAULT_DELTA_NUM_CHARS,
            min_passage_width: DEFAULT_MIN_PASSAGE_WIDTH,
            max_considered_words: None,
            num_words_for_lang_detection: None,
            empty_query_snippet_words: DEFAULT_EMPTY_QUERY_SNIPPET_WORDS,
            min_description_words: DEFAULT_MIN_DESCRIPTION_WORDS,
            min_body_length: DEFAULT_MIN_BODY_LENGTH,
            min_body_length_homepage: DEFAULT_MIN_BODY_LENGTH_HOMEPAGE,
        }
    }
}

/// Where WARC archives are read from: a plain HTTP mirror, the local disk, or
/// an S3-compatible object store. Listing and downloading the archives is
/// I/O and lives with the callers; the core only routes on the variant.
#[derive(Debug, Clone)]
pub enum WarcSource {
    HTTP(HttpConfig),
    Local(LocalConfig),
    S3(S3Config),
}

#[derive(Debug, Clone)]
pub struct LocalConfig {
    pub folder: String,
    pub names: Vec<String>,
}

#[derive(Debug, Clone)]
pub struct HttpConfig {
    pub base_url: String,
    pub warc_paths_file: String,
}

#[derive(Debug, Clone)]
pub struct S3Config {
    pub bucket: String,
    pub folder: String,
    pub access_key: String,
    pub secret_key: String,
    pub endpoint: String,
}

#[derive(Debug, Clone)]
pub struct UserAgent {
    pub full: String,
    pub token: String,
}

#[derive(Debug, Clone)]
pub struct CrawlerConfig {
    pub num_worker_threads: usize,
    pub user_agent: UserAgent,
    pub robots_txt_cache_sec: u64,
    pub min_politeness_factor: u32,
    pub start_politeness_factor: u32,
    pub min_crawl_delay_ms: u64,
    pub max_crawl_delay_ms: u64,
    pub max_politeness_factor: u32,
    pub max_url_slowdown_retry: u8,
    pub timeout_seconds: u64,
    pub s3: S3Config,
    pub router_hosts: Vec<String>,
}

pub const DEFAULT_BLOGS_BUDGET: u64 = 1_000;

pub const DEFAULT_NEWS_BUDGET: u64 = 10_000;

pub const DEFAULT_REMAINING_BUDGET: u64 = 100_000;

/// How many pages of each kind the live-index crawler may fetch per day.
#[derive(Debug, Clone, PartialEq, Eq, Structural)]
pub struct DailyLiveIndexCrawlerBudget {
    pub blogs: u64,
    pub news: u64,
    pub remaining: u64,
}

impl Default for DailyLiveIndexCrawlerBudget {
    fn default() -> (d: Self)
        ensures
            d.blogs == DEFAULT_BLOGS_BUDGET,
            d.news == DEFAULT_NEWS_BUDGET,
            d.remaining == DEFAULT_REMAINING_BUDGET,
    {
        DailyLiveIndexCrawlerBudget {
            blogs: DEFAULT_BLOGS_BUDGET,
            news: DEFAULT_NEWS_BUDGET,
            remaining: DEFAULT_REMAINING_BUDGET,
        }
    }
}

pub const DEFAULT_FEEDS_INTERVAL_MS: u64 = 600_000;

pub const DEFAULT_SITEMAP_INTERVAL_MS: u64 = 21_600_000;

pub const DEFAULT_FRONTPAGE_INTERVAL_MS: u64 = 3_600_000;

/// How often the live-index crawler re-checks each source, in milliseconds.
#[derive(Debug, Clone, PartialEq, Eq, Structural)]
pub struct CheckIntervals {
    pub feeds: u64,
    pub sitemap: u64,
    pub frontpage: u64,
}

impl Default for CheckIntervals {
    fn default() -> (d: Self)
        ensures
            d.feeds == DEFAULT_FEEDS_INTERVAL_MS,
            d.sitemap == DEFAULT_SITEMAP_INTERVAL_MS,
            d.frontpage == DEFAULT_FRONTPAGE_INTERVAL_MS,
    {
        CheckIntervals {
            feeds: DEFAULT_FEEDS_INTERVAL_MS,
            sitemap: DEFAULT_SITEMAP_INTERVAL_MS,
            frontpage: DEFAULT_FRONTPAGE_INTERVAL_MS,
        }
    }
}

/// Which device a model runs on.
#[derive(Debug, Clone, PartialEq, Eq, Structural)]
pub enum AcceleratorDevice {
    Cpu,
    Cuda(usize),
    Mps,
}

/// Whether a webgraph is built over whole hosts or over single pages.
#[derive(Debug, Clone, Copy, PartialEq, Eq, Structural, Hash)]
pub enum WebgraphGranularity {
    Host,
    Page,
}

impl WebgraphGranularity {
    /// The short name the granularity is displayed under.
    pub fn as_str(&self) -> (s: &'static str)
        ensures
            *self == WebgraphGranularity::Host ==> s@ == "host"@,
            *self == WebgraphGranularity::Page ==> s@ == "page"@,
    {
        match self {
            WebgraphGranularity::Host => "host",
            WebgraphGranularity::Page => "page",
        }
    }
}

#[derive(Debug, Clone)]
pub struct WidgetsConfig {
    pub thesaurus_paths: Vec<String>,
    pub calculator_fetch_currencies_exchange: bool,
}

impl Default for WidgetsConfig {
    fn default() -> (d: Self)
        ensures
            d.thesaurus_paths@.len() == 0,
            d.calculator_fetch_currencies_exchange == false,
    {
        WidgetsConfig { thesaurus_paths: Vec::new(), calculator_fetch_currencies_exchange: false }
    }
}

#[derive(Debug, Clone)]
pub struct IndexerDualEncoderConfig {
    pub model_path: String,
    /// Only compute embeddings for pages whose centrality rank is below this.
    pub page_centrality_rank_threshold: Option<u64>,
}

#[derive(Debug, Clone)]
pub struct WebgraphConstructConfig {
    pub host_graph_base_path: Option<String>,
    pub page_graph_base_path: Option<String>,
    pub warc_source: WarcSource,
    pub limit_warc_files: Option<usize>,
    pub skip_warc_files: Option<usize>,
    pub batch_size: Option<usize>,
    pub canonical_index_path: Option<String>,
    pub host_centrality_rank_store_path: Option<String>,
    pub merge_all_segments: bool,
}

#[derive(Debug, Clone)]
pub struct SiteStatsConfig {
    pub output_path: String,
    pub host_centrality_path: String,
    pub top_sites: usize,
    pub warc_source: WarcSource,
    pub limit_warc_files: Option<usize>,
    pub skip_warc_files: Option<usize>,
}

#[derive(Debug, Clone)]
pub struct CanonicalIndexConfig {
    pub output_path: String,
    pub warc_source: WarcSource,
    pub limit_warc_files: Option<usize>,
    pub skip_warc_files: Option<usize>,
}

/// Whether `c` is an ASCII decimal digit.
pub open spec fn is_digit_char(c: char) -> bool {
    48 <= (c as u32) && (c as u32) <= 57
}

/// Whether `c` is ASCII whitespace, as trimmed around a duration suffix.
pub open spec fn is_space_char(c: char) -> bool {
    c == ' ' || c == '\t' || c == '\r' || c == '\n'
}

/// Length of `s` with every trailing non-digit removed: the numeric part of a
/// duration string ends here and its suffix begins.
pub open spec fn num_end(s: Seq<char>) -> int
    decreases s.len(),
{
    if s.len() == 0 {
        0
    } else if is_digit_char(s.last()) {
        s.len() as int
    } else {
        num_end(s.drop_last())
    }
}

/// Whether every character of `s` is an ASCII digit.
pub open spec fn all_digits(s: Seq<char>) -> bool {
    forall|i: int| 0 <= i < s.len() ==> is_digit_char(#[trigger] s[i])
}

/// The numeric value one character contributes as a decimal digit.
pub open spec fn digit_val(c: char) -> int {
    if is_digit_char(c) {
        (c as u32) - 48
    } else {
        0
    }
}

/// The value of a sequence of decimal digits, most significant first.
pub open spec fn digits_val(s: Seq<char>) -> int
    decreases s.len(),
{
    if s.len() == 0 {
        0
    } else {
        digits_val(s.drop_last()) * 10 + digit_val(s.last())
    }
}

/// `s` with leading and trailing ASCII whitespace removed.
pub open spec fn trim_spaces(s: Seq<char>) -> Seq<char>
    decreases s.len(),
{
    if s.len() == 0 {
        s
    } else if is_space_char(s.first()) {
        trim_spaces(s.drop_first())
    } else if is_space_char(s.last()) {
        trim_spaces(s.drop_last())
    } else {
        s
    }
}

/// The number of milliseconds one unit of the given duration suffix stands
/// for, or `None` for an unrecognized suffix.
pub open spec fn suffix_millis(t: Seq<char>) -> Option<int> {
    if t == "s"@ || t == "sec"@ || t == "secs"@ {
        Some(1000)
    } else if t == "ms"@ || t == "millis"@ || t == "milliseconds"@ {
        Some(1)
    } else if t == "m"@ || t == "mins"@ || t == "minutes"@ {
        Some(60_000)
    } else if t == "h"@ || t == "hours"@ {
        Some(3_600_000)
    } else if t == "d"@ || t == "day"@ || t == "days"@ {
        Some(86_400_000)
    } else {
        None
    }
}

/// What `parse_duration` returns: the duration in milliseconds, or `None`
/// where the text is not a number followed by a known suffix, or where the
/// number does not fit in 64 bits.
pub open spec fn parse_duration_spec(s: Seq<char>) -> Option<int> {
    let n = num_end(s);
    let num = s.take(n);
    let suffix = trim_spaces(s.skip(n));
    if n == 0 || !all_digits(num) || digits_val(num) > u64::MAX {
        None
    } else {
        match suffix_millis(suffix) {
            Some(m) => if digits_val(num) * m <= u64::MAX {
                Some(digits_val(num) * m)
            } else {
                None
            },
            None => None,
        }
    }
}

/// Extending a digit string on the right never shrinks its value.
proof fn lemma_digits_val_nonneg(s: Seq<char>)
    ensures
        digits_val(s) >= 0,
    decreases s.len(),
{
    if s.len() > 0 {
        lemma_digits_val_nonneg(s.drop_last());
    }
}

proof fn lemma_digits_val_prefix_le(s: Seq<char>, n: int)
    requires
        0 <= n <= s.len(),
    ensures
        digits_val(s.take(n)) <= digits_val(s),
    decreases s.len() - n,
{
    if n < s.len() {
        lemma_digits_val_prefix_le(s.drop_last(), n);
        assert(s.drop_last().take(n) =~= s.take(n));
        lemma_digits_val_nonneg(s.drop_last());
    } else {
        assert(s.take(n) =~= s);
    }
}

/// Whether the characters of `s` from `lo` (inclusive) to `hi` (exclusive)
/// are exactly the characters of `pat`.
fn range_matches(s: &str, lo: usize, hi: usize, pat: &str) -> (r: bool)
    requires
        0 <= lo <= hi <= s@.len(),
    ensures
        r == (s@.subrange(lo as int, hi as int) == pat@),
{
    let pat_len = pat.unicode_len();
    if hi - lo != pat_len {
        proof {
            assert(s@.subrange(lo as int, hi as int).len() == hi - lo);
        }
        return false;
    }
    let mut i: usize = 0;
    while i < pat_len
        invariant
            0 <= lo <= hi <= s@.len(),
            hi - lo == pat_len,
            pat_len == pat@.len(),
            i <= pat_len,
            forall|k: int| 0 <= k < i ==> s@[lo + k] == pat@[k],
        decreases pat_len - i,
    {
        if s.get_char(lo + i) != pat.get_char(i) {
            proof {
                assert(s@.subrange(lo as int, hi as int)[i as int] != pat@[i as int]);
            }
            return false;
        }
        i = i + 1;
    }
    proof {
        assert(s@.subrange(lo as int, hi as int) =~= pat@);
    }
    true
}

/// Parses a human-readable duration such as `"30s"`, `"5m"`, `"2h"` or
/// `"1d"` into whole milliseconds. The text is a decimal number followed by
/// a unit suffix; whitespace around the suffix is ignored. Returns
/// `Error::Parse` for malformed text, an unknown suffix, or a duration that
/// does not fit in 64 bits of milliseconds.
pub fn parse_duration(s: &str) -> (r: Result<u64, Error>)
    ensures
        r.is_ok() <==> parse_duration_spec(s@).is_some(),
        r.is_ok() ==> r.unwrap() == parse_duration_spec(s@).unwrap(),
        r.is_err() ==> r.unwrap_err() == Error::Parse,
{
    let len = s.unicode_len();

    // Strip the non-digit suffix: the numeric part ends at `p`.
    let mut p: usize = len;
    proof {
        assert(s@.take(len as int) =~= s@);
    }
    while p > 0
        invariant
            0 <= p <= len,
            len == s@.len(),
            num_end(s@) == num_end(s@.take(p as int)),
        ensures
            0 <= p <= len,
            num_end(s@) == num_end(s@.take(p as int)),
            p > 0 ==> is_digit_char(s@[p - 1]),
        decreases p,
    {
        let c = s.get_char(p - 1);
        if ('0' as u32) <= (c as u32) && (c as u32) <= ('9' as u32) {
            break ;
        }
        proof {
            assert(s@.take(p as int).last() == s@[p - 1]);
            assert(s@.take(p as int).drop_last() =~= s@.take(p - 1));
        }
        p = p - 1;
    }
    proof {
        if p > 0 {
            assert(s@.take(p as int).last() == s@[p - 1]);
        }
        assert(num_end(s@) == p as int);
    }

    if p == 0 {
        return Err(Error::Parse);
    }

    // Parse the numeric part.
    let ghost num = s@.take(p as int);
    let mut val: u64 = 0;
    let mut i: usize = 0;
    while i < p
        invariant
            0 < p <= len,
            len == s@.len(),
            num == s@.take(p as int),
            num_end(s@) == p as int,
            i <= p,
            all_digits(num.take(i as int)),
            val == digits_val(num.take(i as int)),
        decreases p - i,
    {
        let c = s.get_char(i);
        let cu = c as u32;
        if !(('0' as u32) <= cu && cu <= ('9' as u32)) {
            proof {
                assert(num[i as int] == s@[i as int]);
            }
            return Err(Error::Parse);
        }
        let d = (cu - 48) as u64;
        proof {
            assert(num.take(i + 1).drop_last() =~= num.take(i as int));
            assert(num.take(i + 1).last() == num[i as int]);
            assert(num[i as int] == s@[i as int]);
        }
        match val.checked_mul(10) {
            Some(v10) => {
                match v10.checked_add(d) {
                    Some(v) => {
                        val = v;
                    },
                    None => {
                        proof {
                            lemma_digits_val_prefix_le(num, i + 1);
                        }
                        return Err(Error::Parse);
                    },
                }
            },
            None => {
                proof {
                    lemma_digits_val_nonneg(num.take(i as int));
                    lemma_digits_val_prefix_le(num, i + 1);
                }
                return Err(Error::Parse);
            },
        }
        i = i + 1;
    }
    proof {
        assert(num.take(p as int) =~= num);
    }

    // Trim whitespace around the suffix.
    let mut lo: usize = p;
    let mut hi: usize = len;
    while lo < hi
        invariant
            p <= lo <= hi <= len,
            len == s@.len(),
            trim_spaces(s@.skip(p as int)) == trim_spaces(s@.subrange(lo as int, hi as int)),
        ensures
            p <= lo <= hi <= len,
            trim_spaces(s@.skip(p as int)) == trim_spaces(s@.subrange(lo as int, hi as int)),
            lo < hi ==> !is_space_char(s@[lo as int]),
        decreases hi - lo,
    {
        let c = s.get_char(lo);
        if !(c == ' ' || c == '\t' || c == '\r' || c == '\n') {
            break ;
        }
        proof {
            assert(s@.subrange(lo as int, hi as int).first() == s@[lo as int]);
            assert(s@.subrange(lo as int, hi as int).drop_first() =~= s@.subrange(
                lo + 1,
                hi as int,
            ));
        }
        lo = lo + 1;
    }
    while lo < hi
        invariant
            p <= lo <= hi <= len,
            len == s@.len(),
            trim_spaces(s@.skip(p as int)) == trim_spaces(s@.subrange(lo as int, hi as int)),
            lo < hi ==> !is_space_char(s@[lo as int]),
        ensures
            p <= lo <= hi <= len,
            trim_spaces(s@.skip(p as int)) == trim_spaces(s@.subrange(lo as int, hi as int)),
            lo < hi ==> !is_space_char(s@[lo as int]),
            lo < hi ==> !is_space_char(s@[hi - 1]),
        decreases hi - lo,
    {
        let c = s.get_char(hi - 1);
        if !(c == ' ' || c == '\t' || c == '\r' || c == '\n') {
            break ;
        }
        proof {
            assert(s@.subrange(lo as int, hi as int).last() == s@[hi - 1]);
            assert(s@.subrange(lo as int, hi as int).first() == s@[lo as int]);
            assert(s@.subrange(lo as int, hi as int).drop_last() =~= s@.subrange(
                lo as int,
                hi - 1,
            ));
        }
        hi = hi - 1;
    }
    proof {
        assert(trim_spaces(s@.subrange(lo as int, hi as int)) =~= s@.subrange(
            lo as int,
            hi as int,
        ));
    }

    // Recognize the suffix and scale into milliseconds.
    let mult: u64 = if range_matches(s, lo, hi, "s") || range_matches(s, lo, hi, "sec")
        || range_matches(s, lo, hi, "secs") {
        1000
    } else if range_matches(s, lo, hi, "ms") || range_matches(s, lo, hi, "millis")
        || range_matches(s, lo, hi, "milliseconds") {
        1
    } else if range_matches(s, lo, hi, "m") || range_matches(s, lo, hi, "mins")
        || range_matches(s, lo, hi, "minutes") {
        60_000
    } else if range_matches(s, lo, hi, "h") || range_matches(s, lo, hi, "hours") {
        3_600_000
    } else if range_matches(s, lo, hi, "d") || range_matches(s, lo, hi, "day")
        || range_matches(s, lo, hi, "days") {
        86_400_000
    } else {
        return Err(Error::Parse);
    };

    match val.checked_mul(mult) {
        Some(total) => Ok(total),
        None => Err(Error::Parse),
    }
}

} // verus!
