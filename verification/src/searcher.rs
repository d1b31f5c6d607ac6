//! The search pipeline over one index snapshot: match every document
//! against the parsed query, rank the hits through the de-duplicating
//! collector, and report whether more results exist beyond the returned
//! page.

use vstd::prelude::*;

use crate::collector::{concat_fruits, merge_fruits_spec, SegmentDoc, TopDocs};
use crate::inverted_index::{InitialSearchResult, WebsitePointer};
use crate::query::{query_matches_spec, DocTokens, Query};

verus! {

/// The documents of `docs` that match the query, in order.
pub open spec fn matching_docs(q: Seq<crate::query::QueryPartView>, docs: Seq<(DocTokens, SegmentDoc)>) -> Seq<
    SegmentDoc,
>
    decreases docs.len(),
{
    if docs.len() == 0 {
        Seq::empty()
    } else {
        matching_docs(q, docs.drop_last()) + (if query_matches_spec(q, docs.last().0@) {
            seq![docs.last().1]
        } else {
            Seq::empty()
        })
    }
}

/// Answers a query over one snapshot of indexed documents: every document
/// is matched against the query, the matches are ranked and de-duplicated
/// by the collector, and the approximate hit count is the exact number of
/// matches.
pub fn search_snapshot(query: &Query, docs: &Vec<(DocTokens, SegmentDoc)>, top_docs: &TopDocs) -> (
    r: InitialSearchResult)
    requires
        docs@.len() < usize::MAX,
        top_docs.spec_top_n() > 0,
        top_docs.spec_top_n() + top_docs.spec_offset() <= usize::MAX,
        top_docs.spec_collector_config().valid(),
    ensures
        r.num_websites == matching_docs(query.spec_parts(), docs@).len(),
        r.top_websites@ == merge_fruits_spec(
            seq![matching_docs(query.spec_parts(), docs@)],
            top_docs.spec_collector_config(),
            top_docs.spec_de_rank_similar(),
            top_docs.spec_top_n() as int,
            top_docs.spec_offset() as int,
        ).map_values(
            |d: SegmentDoc| WebsitePointer {
                score: d.score,
                hashes: d.hashes,
                address: crate::inverted_index::DocAddress { segment: d.segment, doc_id: d.id },
            },
        ),
        r.top_websites@.len() <= top_docs.spec_top_n(),
{
    let mut matches: Vec<SegmentDoc> = Vec::new();
    let mut i: usize = 0;
    while i < docs.len()
        invariant
            i <= docs@.len(),
            matches@ =~= matching_docs(query.spec_parts(), docs@.take(i as int)),
        decreases docs@.len() - i,
    {
        proof {
            assert(docs@.take(i + 1).drop_last() =~= docs@.take(i as int));
            assert(docs@.take(i + 1).last() == docs@[i as int]);
        }
        if query.matches(&docs[i].0) {
            matches.push(docs[i].1);
        }
        i = i + 1;
    }
    proof {
        assert(docs@.take(docs@.len() as int) =~= docs@);
        lemma_matching_len(query.spec_parts(), docs@);
    }
    let num = matches.len();
    let mut fruits: Vec<Vec<SegmentDoc>> = Vec::new();
    let ghost mseq = matches@;
    fruits.push(matches);
    proof {
        assert(fruits.deep_view() =~~= seq![mseq]);
        assert(seq![mseq].drop_last() =~= Seq::<Seq<SegmentDoc>>::empty());
        assert(concat_fruits(Seq::<Seq<SegmentDoc>>::empty()) =~= Seq::<SegmentDoc>::empty());
        assert(seq![mseq].last() == mseq);
        assert(Seq::<SegmentDoc>::empty() + mseq =~= mseq);
        assert(concat_fruits(seq![mseq]) =~= mseq);
    }
    let top = top_docs.merge_fruits(fruits);
    InitialSearchResult { num_websites: num, top_websites: top }
}

/// No more documents match than exist.
proof fn lemma_matching_len(q: Seq<crate::query::QueryPartView>, docs: Seq<(DocTokens, SegmentDoc)>)
    ensures
        matching_docs(q, docs).len() <= docs.len(),
    decreases docs.len(),
{
    if docs.len() > 0 {
        lemma_matching_len(q, docs.drop_last());
    }
}

/// Whether the phrase built from the canonical URL's tokens matches the
/// document's URL field.
pub open spec fn url_phrase_matches(d: DocTokens, url_tokens: Seq<Seq<u8>>) -> bool {
    crate::query::phrase_in(d@.url, url_tokens)
}

/// Looks one page up by its exact URL: the URL is canonicalized and
/// tokenized like an indexed URL, and the phrase of its tokens is matched
/// against every document's URL field. The hit with the highest score
/// wins; among equals, the earliest.
pub fn get_webpage(docs: &Vec<(DocTokens, SegmentDoc)>, url: &str) -> (r: Option<usize>)
    ensures
        r.is_some() <==> exists|i: int|
            0 <= i < docs@.len() && url_phrase_matches(
                (#[trigger] docs@[i]).0,
                tokenize_url_spec(url),
            ),
        r.is_some() ==> {
            let i = r.unwrap() as int;
            &&& 0 <= i < docs@.len()
            &&& url_phrase_matches(docs@[i].0, tokenize_url_spec(url))
            &&& forall|j: int|
                0 <= j < docs@.len() && url_phrase_matches(
                    (#[trigger] docs@[j]).0,
                    tokenize_url_spec(url),
                ) ==> docs@[j].1.score.total <= docs@[i].1.score.total
            &&& forall|j: int|
                0 <= j < i && url_phrase_matches(
                    (#[trigger] docs@[j]).0,
                    tokenize_url_spec(url),
                ) ==> docs@[j].1.score.total < docs@[i].1.score.total
        },
{
    let url_b = url.as_bytes_vec();
    let canon = crate::webpage::canonicalize_url(url_b.as_slice());
    let phrase = crate::tokenizer::tokenize(canon.as_slice());
    let mut best: usize = 0;
    let mut found = false;
    let mut i: usize = 0;
    while i < docs.len()
        invariant
            i <= docs@.len(),
            phrase.deep_view() == tokenize_url_spec(url),
            found ==> best < i && url_phrase_matches(docs@[best as int].0, tokenize_url_spec(url)),
            !found ==> forall|j: int|
                0 <= j < i ==> !url_phrase_matches((#[trigger] docs@[j]).0, tokenize_url_spec(url)),
            found ==> forall|j: int|
                0 <= j < i && url_phrase_matches(
                    (#[trigger] docs@[j]).0,
                    tokenize_url_spec(url),
                ) ==> docs@[j].1.score.total <= docs@[best as int].1.score.total,
            found ==> forall|j: int|
                0 <= j < best && url_phrase_matches(
                    (#[trigger] docs@[j]).0,
                    tokenize_url_spec(url),
                ) ==> docs@[j].1.score.total < docs@[best as int].1.score.total,
        decreases docs@.len() - i,
    {
        if crate::query::phrase_in_field(&docs[i].0.url, &phrase) {
            if !found {
                best = i;
                found = true;
            } else {
                if docs[i].1.score.total > docs[best].1.score.total {
                    best = i;
                }
            }
        }
        i = i + 1;
    }
    if found {
        Some(best)
    } else {
        None
    }
}

/// The tokens of a URL as the index stores them: canonicalized first.
pub open spec fn tokenize_url_spec(url: &str) -> Seq<Seq<u8>> {
    crate::tokenizer::tokenize_spec(
        crate::webpage::canonical_url_spec(vstd::string::StringSliceAdditionalSpecFns::spec_bytes(url)),
    )
}

/// Whether more hits exist beyond the returned page: the search found more
/// matches than the page's offset and size cover.
pub fn has_more_results(num_hits: usize, offset: usize, num_results: usize) -> (r: bool)
    ensures
        r == (num_hits > offset + num_results),
{
    if num_results <= usize::MAX - offset {
        num_hits > offset + num_results
    } else {
        false
    }
}

} // verus!
