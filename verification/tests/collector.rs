//! The de-duplicating collector on concrete candidate sets. Scores are
//! fixed-point with nine fractional digits, so `3.1` is stored as
//! `3_100_000_000`.

use stract::collector::{BucketCollector, Hashes, Prehashed, SegmentDoc};
use stract::config::CollectorConfig;
use stract::ranking::Score;

const SCORE_SCALE: f64 = 1_000_000_000.0;

fn fixed(score: f64) -> u64 {
    (score * SCORE_SCALE) as u64
}

fn unfixed(total: u64) -> f64 {
    total as f64 / SCORE_SCALE
}

fn test(top_n: usize, docs: &[(Hashes, u32, f64)], expected: &[(f64, u32)]) {
    let mut collector = BucketCollector::new(top_n, CollectorConfig::default());

    for doc in docs {
        collector.insert(SegmentDoc {
            hashes: doc.0,
            id: doc.1,
            score: Score { total: fixed(doc.2) },
            segment: 0,
        });
    }

    let res: Vec<(f64, u32)> = collector
        .into_sorted_vec(true)
        .into_iter()
        .map(|doc| (unfixed(doc.score.total), doc.id))
        .collect();

    assert_eq!(&res, expected);
}

fn hashes(site: u128, title: u128, url: u128, url_without_tld: u128, simhash: u64) -> Hashes {
    Hashes {
        site: Prehashed(site),
        title: Prehashed(title),
        url: Prehashed(url),
        url_without_tld: Prehashed(url_without_tld),
        simhash,
    }
}

#[test]
fn all_different() {
    test(
        3,
        &[
            (hashes(1, 1, 1, 1, 12), 123, 1.0),
            (hashes(2, 2, 2, 2, 123), 124, 2.0),
            (hashes(3, 3, 3, 3, 1234), 125, 3.0),
            (hashes(4, 4, 4, 4, 12345), 126, 4.0),
            (hashes(5, 5, 5, 5, 123456), 127, 5.0),
        ],
        &[(5.0, 127), (4.0, 126), (3.0, 125)],
    );
}

#[test]
fn less_than_topn() {
    test(
        10,
        &[
            (hashes(3, 3, 3, 3, 12), 125, 3.0),
            (hashes(4, 4, 4, 4, 123), 126, 4.0),
            (hashes(5, 5, 5, 5, 1234), 127, 5.0),
        ],
        &[(5.0, 127), (4.0, 126), (3.0, 125)],
    );
}

#[test]
fn same_key_de_prioritised() {
    test(
        10,
        &[
            (hashes(1, 1, 1, 1, 12), 125, 3.0),
            (hashes(2, 2, 2, 2, 123), 126, 3.1),
            (hashes(2, 2, 2, 2, 1234), 127, 5.0),
        ],
        &[(5.0, 127), (3.0, 125), (3.1, 126)],
    );

    test(
        2,
        &[
            (hashes(1, 1, 1, 1, 12), 125, 3.0),
            (hashes(2, 2, 2, 2, 123), 126, 3.1),
            (hashes(2, 2, 2, 2, 1234), 127, 5.0),
        ],
        &[(5.0, 127), (3.0, 125)],
    );
}

#[test]
fn simhash_dedup() {
    test(
        10,
        &[
            (hashes(1, 1, 1, 1, 1234), 125, 3.0),
            (hashes(2, 2, 2, 2, 1234), 126, 3.1),
            (hashes(3, 3, 3, 3, 1), 127, 5.0),
        ],
        &[(5.0, 127), (3.1, 126), (3.0, 125)],
    );
}

#[test]
fn zero_bucket_keys_never_dedupe() {
    // Keys of zero stand for "missing" and never demote anything.
    test(
        10,
        &[
            (hashes(0, 0, 0, 0, 1), 125, 3.0),
            (hashes(0, 0, 0, 0, 2), 126, 3.1),
            (hashes(0, 0, 0, 0, 3), 127, 5.0),
        ],
        &[(5.0, 127), (3.1, 126), (3.0, 125)],
    );
}

#[test]
fn combine_hash_halves() {
    let k = stract::collector::combine_u64s(1, 2);
    assert_eq!(k, (1u128 << 64) + 2);
}
