//! Duration parsing and configuration defaults.

use stract::config::{
    parse_duration, CheckIntervals, CollectorConfig, DailyLiveIndexCrawlerBudget, SnippetConfig,
    WidgetsConfig,
};
use stract::ranking::{linear_total, SignalScore};
use stract::Error;

#[test]
fn durations_parse_to_milliseconds() {
    assert_eq!(parse_duration("30s"), Ok(30_000));
    assert_eq!(parse_duration("5m"), Ok(300_000));
    assert_eq!(parse_duration("2h"), Ok(7_200_000));
    assert_eq!(parse_duration("1d"), Ok(86_400_000));
    assert_eq!(parse_duration("250ms"), Ok(250));
    assert_eq!(parse_duration("10 secs"), Ok(10_000));
    assert_eq!(parse_duration("3 minutes"), Ok(180_000));
    assert_eq!(parse_duration("4 hours"), Ok(14_400_000));
    assert_eq!(parse_duration("2 days"), Ok(172_800_000));
}

#[test]
fn malformed_durations_are_rejected() {
    assert_eq!(parse_duration(""), Err(Error::Parse));
    assert_eq!(parse_duration("s"), Err(Error::Parse));
    assert_eq!(parse_duration("10"), Err(Error::Parse));
    assert_eq!(parse_duration("10x"), Err(Error::Parse));
    assert_eq!(parse_duration("ten s"), Err(Error::Parse));
    assert_eq!(parse_duration("99999999999999999999999999s"), Err(Error::Parse));
}

#[test]
fn collector_defaults_are_small_positive() {
    let c = CollectorConfig::default();
    assert!(c.site_penalty > 0);
    assert!(c.title_penalty > 0);
    assert!(c.url_penalty > 0);
    assert!(c.url_without_tld_penalty > 0);
    assert!(c.max_docs_considered > 0);
}

#[test]
fn snippet_defaults() {
    let s = SnippetConfig::default();
    assert!(s.desired_num_chars > 0);
    assert!(s.delta_num_chars < s.desired_num_chars);
    assert!(s.min_passage_width > 0);
    assert_eq!(s.max_considered_words, None);
}

#[test]
fn other_defaults() {
    let b = DailyLiveIndexCrawlerBudget::default();
    assert!(b.blogs > 0 && b.news > 0 && b.remaining > 0);
    let i = CheckIntervals::default();
    assert!(i.feeds > 0 && i.sitemap > 0 && i.frontpage > 0);
    let w = WidgetsConfig::default();
    assert!(w.thesaurus_paths.is_empty());
    assert!(!w.calculator_fetch_currencies_exchange);
}

#[test]
fn linear_total_weighs_signals() {
    let total = linear_total(&vec![
        SignalScore { value: 3, coefficient: 2 },
        SignalScore { value: 5, coefficient: 0 },
        SignalScore { value: 7, coefficient: 10 },
    ]);
    assert_eq!(total, 76);
    let clipped = linear_total(&vec![
        SignalScore { value: u64::MAX, coefficient: u64::MAX },
    ]);
    assert_eq!(clipped, u64::MAX);
}
