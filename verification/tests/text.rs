//! Tokenization, stemming, URL canonicalization, schema fields, WARC
//! records, the live-index tick and the spell trainer.

use stract::live::{select_expired, tick};
use stract::member::{LiveIndexState, ShardId};
use stract::schema::{Field, FastFieldEnum, TextFieldEnum};
use stract::tokenizer::{stem, tokenize, tokenize_stemmed};
use stract::warc::{parse_header_line, rtrim, RawWarcRecord, Request, Response};
use stract::webpage::{canonicalize_url, host_of_url, Region};
use stract::webspell::{LeftToRight, NextWordsStrategy, RightToLeft, StupidBackoffTrainer};

#[test]
fn tokenize_splits_and_lowercases() {
    let toks = tokenize(b"Hello, World! 42");
    assert_eq!(toks, vec![b"hello".to_vec(), b"world".to_vec(), b"42".to_vec()]);
    let toks = tokenize(b"https://www.dr.dk");
    assert_eq!(
        toks,
        vec![b"https".to_vec(), b"www".to_vec(), b"dr".to_vec(), b"dk".to_vec()]
    );
    assert_eq!(tokenize(b""), Vec::<Vec<u8>>::new());
}

#[test]
fn stemming_joins_singular_and_plural() {
    assert_eq!(stem(b"runners"), b"runner".to_vec());
    assert_eq!(stem(b"runner"), b"runner".to_vec());
    assert_eq!(stem(b"glass"), b"glass".to_vec());
    assert_eq!(stem(b"as"), b"as".to_vec());
    let toks = tokenize_stemmed(b"Website for runners");
    assert_eq!(
        toks,
        vec![b"website".to_vec(), b"for".to_vec(), b"runner".to_vec()]
    );
}

#[test]
fn url_fragment_is_stripped() {
    assert_eq!(
        canonicalize_url(b"https://www.example.com#tag"),
        b"https://www.example.com".to_vec()
    );
    assert_eq!(
        canonicalize_url(b"https://www.example.com"),
        b"https://www.example.com".to_vec()
    );
}

#[test]
fn url_host_is_lowercased() {
    assert_eq!(
        canonicalize_url(b"https://WWW.Example.COM/Path?Q=1"),
        b"https://www.example.com/Path?Q=1".to_vec()
    );
    assert_eq!(host_of_url(b"https://WWW.Example.COM/Path"), b"www.example.com".to_vec());
    assert_eq!(host_of_url(b"https://www.dr.dk"), b"www.dr.dk".to_vec());
}

#[test]
fn schema_fields_roundtrip() {
    assert_eq!(Field::all().len(), stract::schema::NUM_FIELDS);
    for (i, f) in Field::all().iter().enumerate() {
        let got = Field::get(i).unwrap();
        assert_eq!(got.name(), f.name());
    }
    assert!(Field::get(stract::schema::NUM_FIELDS).is_none());
    assert_eq!(TextFieldEnum::get(0), Some(TextFieldEnum::Title));
    assert_eq!(FastFieldEnum::get(0), Some(FastFieldEnum::PreComputedScore));
    assert!(Field::Text(TextFieldEnum::Title).is_searchable());
    assert!(!Field::Text(TextFieldEnum::PrimaryImage).is_searchable());
    assert!(!Field::Fast(FastFieldEnum::SimHash).is_searchable());
    assert!(Field::Text(TextFieldEnum::Url).has_pos());
    assert_eq!(Field::Text(TextFieldEnum::Title).as_text(), Some(TextFieldEnum::Title));
    assert_eq!(Field::Text(TextFieldEnum::Title).as_fast(), None);
}

#[test]
fn region_ids_roundtrip() {
    for id in 0..6u64 {
        assert_eq!(Region::from_id(id).id(), id);
    }
    assert_eq!(Region::from_id(999), Region::All);
}

#[test]
fn member_identities() {
    let s = ShardId::new(7);
    assert_eq!(s.as_u64(), 7);
    assert_eq!(LiveIndexState::InSetup.as_str(), "setup");
    assert_eq!(LiveIndexState::Ready.as_str(), "ready");
}

#[test]
fn warc_header_lines_parse() {
    let mut line = b"warc-tYPE: request \r\n".to_vec();
    rtrim(&mut line);
    assert_eq!(line, b"warc-tYPE: request".to_vec());
    let (key, value) = parse_header_line(&line).unwrap();
    assert_eq!(key, b"WARC-TYPE".to_vec());
    assert_eq!(value, b"request".to_vec());
    assert!(parse_header_line(&b"no colon here".to_vec()).is_err());
}

#[test]
fn warc_records_assemble() {
    let record = RawWarcRecord {
        header: vec![(
            b"WARC-TARGET-URI".to_vec(),
            b"http://0575ls.cn/news-52300.htm".to_vec(),
        )],
        content: Vec::new(),
    };
    let request = Request::from_raw(&record).unwrap();
    assert_eq!(request.url, b"http://0575ls.cn/news-52300.htm".to_vec());

    let record = RawWarcRecord {
        header: Vec::new(),
        content: b"http-headers\r\n\r\nbody of response".to_vec(),
    };
    let response = Response::from_raw(&record).unwrap();
    assert_eq!(response.body, b"body of response".to_vec());

    let no_uri = RawWarcRecord { header: Vec::new(), content: Vec::new() };
    assert!(Request::from_raw(&no_uri).is_err());
    assert!(Response::from_raw(&no_uri).is_err());
}

#[test]
fn live_index_tick_decisions() {
    let t = tick(10_000_000, 0, 0, 0, true);
    assert!(t.prune && t.commit && t.compact);
    let t = tick(10_000_000, 0, 0, 0, false);
    assert!(!t.commit);
    let t = tick(1_000, 0, 0, 0, true);
    assert!(!t.prune && !t.compact);

    let expired = select_expired(&vec![0, 500, 2_000], 1_600, 1_000);
    assert_eq!(expired, vec![0, 1]);
}

#[test]
fn backoff_strategies_shrink_the_window() {
    let words: Vec<String> = vec!["a".into(), "b".into(), "c".into()];
    let mut ltr = LeftToRight;
    assert_eq!(ltr.next_words(&words), &words[1..]);
    let mut rtl = RightToLeft;
    assert_eq!(rtl.next_words(&words), &words[..2]);
    let mut mid = stract::webspell::IntoMiddle::default();
    assert_eq!(mid.next_words(&words), &words[..2]);
    assert_eq!(mid.next_words(&words), &words[1..]);
}

#[test]
fn trainer_counts_ngrams() {
    let tokens: Vec<String> = vec!["a".into(), "b".into(), "c".into(), "d".into()];
    let mut trainer = StupidBackoffTrainer::new(3);
    trainer.train(&tokens);
    // Two windows: [a b c] and [b c d].
    assert_eq!(trainer.n_counts(), &vec![2, 2, 2]);
    assert_eq!(trainer.ngram_count(&vec!["a".into()]), 1);
    assert_eq!(trainer.ngram_count(&vec!["b".into()]), 1);
    assert_eq!(trainer.ngram_count(&vec!["a".into(), "b".into()]), 1);
    assert_eq!(trainer.ngram_count(&vec!["a".into(), "b".into(), "c".into()]), 1);
    assert_eq!(trainer.ngram_count(&vec!["b".into(), "c".into(), "d".into()]), 1);
    assert_eq!(trainer.ngram_count(&vec!["z".into()]), 0);

    let ngram = stract::webspell::Ngram { terms: vec!["a".into(), "b".into()] };
    let stored = stract::webspell::StoredNgram::from_ngram(&ngram);
    assert_eq!(stored.combined, "a b");
}

#[test]
fn crawler_identities() {
    let d = stract::crawler::Domain::from_text("example.com");
    assert_eq!(d.as_str(), "example.com");
    let u = stract::crawler::UrlString::from_text("https://example.com/a");
    assert_eq!(u.as_str(), "https://example.com/a");
}
