//! End-to-end search over an in-memory snapshot: parsing, matching,
//! ranking and retrieval-side filtering.

use stract::collector::{Hashes, Prehashed, SegmentDoc, TopDocs};
use stract::inverted_index::{
    retrieve_websites, validate_document, Document, FieldValue, RetrievedWebpage, StoredField,
};
use stract::query::{DocTokens, Query};
use stract::ranking::Score;
use stract::searcher::search_snapshot;
use stract::webpage::StoredPrimaryImage;

const CONTENT: &str = "this is the best example website ever this is the best example website ever";

fn doc(id: u32, score: u64, site_hash: u128) -> SegmentDoc {
    SegmentDoc {
        hashes: Hashes {
            site: Prehashed(site_hash),
            title: Prehashed(site_hash + 1000),
            url: Prehashed(site_hash + 2000),
            url_without_tld: Prehashed(site_hash + 3000),
            simhash: site_hash as u64 + 1,
        },
        id,
        segment: 0,
        score: Score { total: score },
    }
}

fn collector() -> TopDocs {
    TopDocs::with_limit(20).and_de_rank_similar()
}

#[test]
fn simple_search() {
    let query = Query::parse("website").unwrap();

    let empty: Vec<(DocTokens, SegmentDoc)> = Vec::new();
    let result = search_snapshot(&query, &empty, &collector());
    assert_eq!(result.num_websites, 0);
    assert_eq!(result.top_websites.len(), 0);

    let docs = vec![(
        DocTokens::from_page("Test website", CONTENT, "https://www.example.com", ""),
        doc(0, 1_000_000_000, 1),
    )];
    let result = search_snapshot(&query, &docs, &collector());
    assert_eq!(result.num_websites, 1);
    assert_eq!(result.top_websites.len(), 1);
    assert_eq!(result.top_websites[0].address.doc_id, 0);
}

#[test]
fn document_not_matching() {
    let query = Query::parse("this query should not match").unwrap();
    let docs = vec![(
        DocTokens::from_page("Test website", CONTENT, "https://www.example.com", ""),
        doc(0, 1_000_000_000, 1),
    )];
    let result = search_snapshot(&query, &docs, &collector());
    assert_eq!(result.num_websites, 0);
    assert_eq!(result.top_websites.len(), 0);
}

#[test]
fn english_stemming() {
    let query = Query::parse("runner").unwrap();
    let docs = vec![(
        DocTokens::from_page("Website for runners", CONTENT, "https://www.example.com", ""),
        doc(0, 1_000_000_000, 1),
    )];
    let result = search_snapshot(&query, &docs, &collector());
    assert_eq!(result.num_websites, 1);
    assert_eq!(result.top_websites.len(), 1);
}

#[test]
fn stemmed_query_english() {
    let query = Query::parse("runners").unwrap();
    let docs = vec![(
        DocTokens::from_page("Fast runner", CONTENT, "https://www.example.com", ""),
        doc(0, 1_000_000_000, 1),
    )];
    let result = search_snapshot(&query, &docs, &collector());
    assert_eq!(result.num_websites, 1);
    assert_eq!(result.top_websites.len(), 1);
}

#[test]
fn host_search() {
    let query = Query::parse("dr").unwrap();
    let docs = vec![(
        DocTokens::from_page("News website", CONTENT, "https://www.dr.dk", ""),
        doc(7, 1_000_000_000, 1),
    )];
    let result = search_snapshot(&query, &docs, &collector());
    assert_eq!(result.num_websites, 1);
    assert_eq!(result.top_websites.len(), 1);
    assert_eq!(result.top_websites[0].address.doc_id, 7);
}

#[test]
fn match_across_fields() {
    let query = Query::parse("example test").unwrap();
    let docs = vec![(
        DocTokens::from_page("Test website", CONTENT, "https://www.example.com", ""),
        doc(0, 1_000_000_000, 1),
    )];
    let result = search_snapshot(&query, &docs, &collector());
    assert_eq!(result.num_websites, 1);
}

#[test]
fn excluded_term_rejects() {
    let query = Query::parse("website -runners").unwrap();
    let with_term = vec![(
        DocTokens::from_page("Website for runners", CONTENT, "https://www.example.com", ""),
        doc(0, 1_000_000_000, 1),
    )];
    let result = search_snapshot(&query, &with_term, &collector());
    assert_eq!(result.num_websites, 0);

    let without_term = vec![(
        DocTokens::from_page("Test website", CONTENT, "https://www.example.com", ""),
        doc(0, 1_000_000_000, 1),
    )];
    let result = search_snapshot(&query, &without_term, &collector());
    assert_eq!(result.num_websites, 1);
}

#[test]
fn phrase_query_requires_order() {
    let query = Query::parse("\"best example\"").unwrap();
    let docs = vec![(
        DocTokens::from_page("Test website", CONTENT, "https://www.example.com", ""),
        doc(0, 1_000_000_000, 1),
    )];
    let result = search_snapshot(&query, &docs, &collector());
    assert_eq!(result.num_websites, 1);

    let reversed = Query::parse("\"example best\"").unwrap();
    let result = search_snapshot(&reversed, &docs, &collector());
    assert_eq!(result.num_websites, 0);
}

#[test]
fn site_operator_restricts_host() {
    let query = Query::parse("website site:www.example.com").unwrap();
    let docs = vec![(
        DocTokens::from_page("Test website", CONTENT, "https://www.example.com/page", ""),
        doc(0, 1_000_000_000, 1),
    )];
    let result = search_snapshot(&query, &docs, &collector());
    assert_eq!(result.num_websites, 1);

    let other = Query::parse("website site:www.other.com").unwrap();
    let result = search_snapshot(&other, &docs, &collector());
    assert_eq!(result.num_websites, 0);
}

#[test]
fn empty_query_matches_nothing() {
    let query = Query::parse("").unwrap();
    let docs = vec![(
        DocTokens::from_page("Test website", CONTENT, "https://www.example.com", ""),
        doc(0, 1_000_000_000, 1),
    )];
    let result = search_snapshot(&query, &docs, &collector());
    assert_eq!(result.num_websites, 0);
}

fn image_document() -> Document {
    let image = StoredPrimaryImage {
        uuid: 0xffff_0000_0000u128,
        title_terms: vec![b"title".to_vec()],
        description_terms: vec![
            b"this".to_vec(),
            b"is".to_vec(),
            b"an".to_vec(),
            b"image".to_vec(),
            b"for".to_vec(),
            b"the".to_vec(),
            b"test".to_vec(),
            b"website".to_vec(),
        ],
    };
    Document {
        fields: vec![
            StoredField { field_id: 0, value: FieldValue::Text("Test website".to_string()) },
            StoredField {
                field_id: 4,
                value: FieldValue::Text("https://www.example.com".to_string()),
            },
            StoredField { field_id: 3, value: FieldValue::Text(CONTENT.to_string()) },
            StoredField { field_id: 8, value: FieldValue::Image(Some(image)) },
        ],
    }
}

#[test]
fn only_show_primary_images_when_relevant() {
    let docs = vec![image_document()];

    let query = Query::parse("website").unwrap();
    let pages = retrieve_websites(&docs, &query.simple_terms());
    assert_eq!(pages.len(), 1);
    assert_eq!(pages[0].url, "https://www.example.com");
    assert!(pages[0].primary_image.is_some());
    let image = pages[0].primary_image.as_ref().unwrap();
    assert_eq!(image.title_terms, vec![b"title".to_vec()]);

    let query = Query::parse("best website").unwrap();
    let pages = retrieve_websites(&docs, &query.simple_terms());
    assert_eq!(pages.len(), 1);
    assert_eq!(pages[0].url, "https://www.example.com");
    assert!(pages[0].primary_image.is_none());
}

#[test]
fn stored_fields_materialize() {
    let docs = vec![Document {
        fields: vec![
            StoredField { field_id: 0, value: FieldValue::Text("News website".to_string()) },
            StoredField {
                field_id: 4,
                value: FieldValue::Text("https://www.example.com".to_string()),
            },
            StoredField { field_id: 5, value: FieldValue::Text(String::new()) },
            StoredField { field_id: 11, value: FieldValue::U64(0) },
            StoredField { field_id: 12, value: FieldValue::U64(1) },
        ],
    }];
    let page = RetrievedWebpage::from_document(&docs[0]);
    assert_eq!(page.title, "News website");
    assert_eq!(page.url, "https://www.example.com");
    assert_eq!(page.description, None);
    assert_eq!(page.updated_time, None);
    assert_eq!(page.region, stract::webpage::Region::Denmark);
}

#[test]
fn index_merge_keeps_both_documents() {
    // Two indexes, one document each; after the merge both are searchable.
    let query = Query::parse("website").unwrap();
    let shard_a = vec![(
        DocTokens::from_page("Test website", CONTENT, "https://www.example.com", ""),
        doc(0, 1_000_000_000, 1),
    )];
    let shard_b = vec![(
        DocTokens::from_page("Test website", CONTENT, "https://www.example.com", ""),
        doc(1, 1_000_000_001, 2),
    )];
    let merged: Vec<(DocTokens, SegmentDoc)> =
        shard_a.into_iter().chain(shard_b.into_iter()).collect();
    let result = search_snapshot(&query, &merged, &collector());
    assert_eq!(result.num_websites, 2);
    assert_eq!(result.top_websites.len(), 2);
    let mut ids: Vec<u32> = result.top_websites.iter().map(|p| p.address.doc_id).collect();
    ids.sort();
    assert_eq!(ids, vec![0, 1]);
}

#[test]
fn get_webpage_by_exact_url() {
    let docs = vec![
        (
            DocTokens::from_page("News website", CONTENT, "https://www.example.com", ""),
            doc(0, 1_000_000_000, 1),
        ),
        (
            DocTokens::from_page("Other website", CONTENT, "https://www.other.com", ""),
            doc(1, 2_000_000_000, 2),
        ),
    ];
    let hit = stract::searcher::get_webpage(&docs, "https://www.example.com").unwrap();
    assert_eq!(hit, 0);
    let hit = stract::searcher::get_webpage(&docs, "https://www.other.com").unwrap();
    assert_eq!(hit, 1);
    assert!(stract::searcher::get_webpage(&docs, "https://www.missing.com/x?q").is_none());
}

#[test]
fn incomplete_documents_are_rejected() {
    let complete = Document {
        fields: vec![
            StoredField { field_id: 0, value: FieldValue::Text("Test website".to_string()) },
            StoredField { field_id: 1, value: FieldValue::Text(CONTENT.to_string()) },
            StoredField { field_id: 3, value: FieldValue::Text(CONTENT.to_string()) },
            StoredField {
                field_id: 4,
                value: FieldValue::Text("https://www.example.com".to_string()),
            },
        ],
    };
    assert!(validate_document(&complete).is_ok());

    let missing_url = Document {
        fields: vec![
            StoredField { field_id: 0, value: FieldValue::Text("Test website".to_string()) },
            StoredField { field_id: 1, value: FieldValue::Text(CONTENT.to_string()) },
            StoredField { field_id: 3, value: FieldValue::Text(CONTENT.to_string()) },
        ],
    };
    assert_eq!(validate_document(&missing_url).unwrap_err(), stract::Error::Schema);

    // A non-text value under a required field does not satisfy it.
    let wrong_type = Document {
        fields: vec![
            StoredField { field_id: 0, value: FieldValue::U64(1) },
            StoredField { field_id: 1, value: FieldValue::Text(CONTENT.to_string()) },
            StoredField { field_id: 3, value: FieldValue::Text(CONTENT.to_string()) },
            StoredField {
                field_id: 4,
                value: FieldValue::Text("https://www.example.com".to_string()),
            },
        ],
    };
    assert_eq!(validate_document(&wrong_type).unwrap_err(), stract::Error::Schema);
}

#[test]
fn limited_top_docs() {
    // Far more matches than the page size: exactly the page size returns.
    let query = Query::parse("website").unwrap();
    let mut docs: Vec<(DocTokens, SegmentDoc)> = Vec::new();
    for i in 0..100u32 {
        docs.push((
            DocTokens::from_page("Website for runners", CONTENT, "https://www.example.com", ""),
            doc(i, 1_000_000_000 + i as u64, i as u128 + 1),
        ));
    }
    let result = search_snapshot(&query, &docs, &collector());
    assert_eq!(result.num_websites, 100);
    assert_eq!(result.top_websites.len(), 20);
}
