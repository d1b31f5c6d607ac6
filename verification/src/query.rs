//! The query layer: parses a user string into per-field subqueries and
//! gives them their matching semantics over tokenized document fields.
//!
//! Whitespace-separated words become terms, quoted spans become phrases,
//! `-term` excludes a term, and `site:` restricts the host. A query never
//! fails to parse: an empty query simply matches nothing, and a query with
//! too many parts is truncated, not rejected.

use vstd::prelude::*;
use vstd::string::StringSliceAdditionalSpecFns;

use crate::tokenizer::{lower_byte_x, lower_bytes, stem, stem_spec, tokenize, tokenize_spec};
use crate::Error;

verus! {

/// The most query parts kept after parsing; what follows is truncated.
pub const MAX_QUERY_TERMS: usize = 32;

/// One subquery of a parsed query.
#[derive(Debug, Clone)]
pub enum QueryPart {
    /// A single term, matched in any searchable text field.
    Term(Vec<u8>),
    /// A quoted phrase, matched against consecutive positions.
    Phrase(Vec<Vec<u8>>),
    /// An excluded term: documents holding it do not match.
    Not(Vec<u8>),
    /// A host restriction.
    Site(Vec<u8>),
}

/// What one subquery holds, as mathematical sequences.
pub enum QueryPartView {
    Term(Seq<u8>),
    Phrase(Seq<Seq<u8>>),
    Not(Seq<u8>),
    Site(Seq<u8>),
}

impl View for QueryPart {
    type V = QueryPartView;

    open spec fn view(&self) -> QueryPartView {
        match self {
            QueryPart::Term(t) => QueryPartView::Term(t@),
            QueryPart::Phrase(p) => QueryPartView::Phrase(p.deep_view()),
            QueryPart::Not(t) => QueryPartView::Not(t@),
            QueryPart::Site(t) => QueryPartView::Site(t@),
        }
    }
}

impl DeepView for QueryPart {
    type V = QueryPartView;

    open spec fn deep_view(&self) -> QueryPartView {
        self.view()
    }
}

/// Whether `b` separates words of a query.
pub open spec fn is_ws_byte(b: u8) -> bool {
    b == 32 || b == 9 || b == 13 || b == 10
}

/// The end of the word starting at `i`: the first whitespace or quote at
/// or after `i`, or the end of the text.
pub open spec fn word_end(s: Seq<u8>, i: int) -> int
    decreases s.len() - i,
{
    if !(0 <= i < s.len()) {
        s.len() as int
    } else if is_ws_byte(s[i]) || s[i] == 34 {
        i
    } else {
        word_end(s, i + 1)
    }
}

/// The bytes of the `site:` operator that restricts a query to one host.
pub open spec fn site_marker() -> Seq<u8> {
    seq![115u8, 105u8, 116u8, 101u8, 58u8]
}

/// The subqueries one word stands for: an exclusion, a host restriction,
/// or one term per token of the word.
pub open spec fn parts_of_word(w: Seq<u8>) -> Seq<QueryPartView> {
    if w.len() > 1 && w[0] == 45 {
        tokenize_spec(w.skip(1)).map_values(|t: Seq<u8>| QueryPartView::Not(t))
    } else if w.len() > 5 && w.subrange(0, 5) == site_marker() {
        seq![QueryPartView::Site(lower_bytes(w.skip(5)))]
    } else {
        tokenize_spec(w).map_values(|t: Seq<u8>| QueryPartView::Term(t))
    }
}

/// The subqueries of the text from position `i` on.
pub open spec fn parse_from(s: Seq<u8>, i: int) -> Seq<QueryPartView>
    decreases s.len() - i,
{
    if !(0 <= i < s.len()) {
        Seq::empty()
    } else if is_ws_byte(s[i]) {
        parse_from(s, i + 1)
    } else if s[i] == 34 {
        let j = crate::webpage::find_from(s, i + 1, 34);
        let jc = if j < i + 1 {
            i + 1
        } else if j > s.len() {
            s.len() as int
        } else {
            j
        };
        let ph = tokenize_spec(s.subrange(i + 1, jc));
        let rest = parse_from(
            s,
            if jc < s.len() {
                jc + 1
            } else {
                s.len() as int
            },
        );
        if ph.len() > 0 {
            seq![QueryPartView::Phrase(ph)] + rest
        } else {
            rest
        }
    } else {
        let j = word_end(s, i);
        let jc = if j < i + 1 {
            i + 1
        } else if j > s.len() {
            s.len() as int
        } else {
            j
        };
        parts_of_word(s.subrange(i, jc)) + parse_from(s, jc)
    }
}

/// What parsing a query text produces: its subqueries, truncated to
/// [`MAX_QUERY_TERMS`].
pub open spec fn parse_spec(s: Seq<u8>) -> Seq<QueryPartView> {
    let all = parse_from(s, 0);
    if all.len() > MAX_QUERY_TERMS {
        all.take(MAX_QUERY_TERMS as int)
    } else {
        all
    }
}

/// A parsed query.
#[derive(Debug, Clone)]
pub struct Query {
    parts: Vec<QueryPart>,
}

impl Query {
    /// The subqueries of this query, in order.
    pub closed spec fn spec_parts(&self) -> Seq<QueryPartView> {
        self.parts.deep_view()
    }

    pub fn parts(&self) -> (r: &Vec<QueryPart>)
        ensures
            r.deep_view() == self.spec_parts(),
    {
        &self.parts
    }
}

proof fn lemma_word_end_bounds(s: Seq<u8>, i: int)
    requires
        0 <= i <= s.len(),
    ensures
        i <= word_end(s, i) <= s.len(),
        forall|k: int|
            i <= k < word_end(s, i) ==> !is_ws_byte(#[trigger] s[k]) && s[k] != 34,
        word_end(s, i) < s.len() ==> is_ws_byte(s[word_end(s, i)]) || s[word_end(s, i)] == 34,
    decreases s.len() - i,
{
    if i < s.len() && !(is_ws_byte(s[i]) || s[i] == 34) {
        lemma_word_end_bounds(s, i + 1);
    }
}

proof fn lemma_find_from_bounds(s: Seq<u8>, i: int, b: u8)
    requires
        0 <= i <= s.len(),
    ensures
        i <= crate::webpage::find_from(s, i, b) <= s.len(),
        crate::webpage::find_from(s, i, b) < s.len() ==> s[crate::webpage::find_from(s, i, b)]
            == b,
        forall|k: int| i <= k < crate::webpage::find_from(s, i, b) ==> (#[trigger] s[k]) != b,
    decreases s.len() - i,
{
    if i < s.len() && s[i] != b {
        lemma_find_from_bounds(s, i + 1, b);
    }
}

fn lower_vec(w: &[u8]) -> (r: Vec<u8>)
    ensures
        r@ == lower_bytes(w@),
{
    let mut r: Vec<u8> = Vec::new();
    let mut i: usize = 0;
    while i < w.len()
        invariant
            i <= w@.len(),
            r@.len() == i,
            forall|k: int| 0 <= k < i ==> r@[k] == lower_bytes(w@)[k],
        decreases w@.len() - i,
    {
        r.push(lower_byte_x(w[i]));
        i = i + 1;
    }
    proof {
        assert(r@ =~= lower_bytes(w@));
    }
    r
}

/// The subqueries one word stands for.
fn word_parts(w: &[u8]) -> (r: Vec<QueryPart>)
    ensures
        r.deep_view() == parts_of_word(w@),
{
    if w.len() > 1 && w[0] == 45 {
        let toks = tokenize(vstd::slice::slice_subrange(w, 1, w.len()));
        proof {
            assert(w@.subrange(1, w@.len() as int) =~= w@.skip(1));
        }
        let mut r: Vec<QueryPart> = Vec::new();
        let mut i: usize = 0;
        while i < toks.len()
            invariant
                i <= toks@.len(),
                r@.len() == i,
                toks.deep_view() == tokenize_spec(w@.skip(1)),
                forall|k: int|
                    0 <= k < i ==> (#[trigger] r.deep_view()[k]) == QueryPartView::Not(
                        toks.deep_view()[k],
                    ),
            decreases toks@.len() - i,
        {
            let t = crate::inverted_index::copy_bytes(&toks[i]);
            let ghost prev = r.deep_view();
            r.push(QueryPart::Not(t));
            proof {
                assert(toks.deep_view()[i as int] == toks@[i as int]@);
                assert(r.deep_view() =~~= prev.push(QueryPartView::Not(toks.deep_view()[i as int])));
            }
            i = i + 1;
        }
        proof {
            assert(r.deep_view() =~= parts_of_word(w@));
        }
        r
    } else {
        let site_prefix: bool = w.len() > 5 && w[0] == 115 && w[1] == 105 && w[2] == 116 && w[3]
            == 101 && w[4] == 58;
        proof {
            if w@.len() > 5 {
                assert(site_prefix <==> w@.subrange(0, 5) =~= site_marker());
            }
        }
        if site_prefix {
            let rest = lower_vec(vstd::slice::slice_subrange(w, 5, w.len()));
            proof {
                assert(w@.subrange(5, w@.len() as int) =~= w@.skip(5));
            }
            let mut r: Vec<QueryPart> = Vec::new();
            r.push(QueryPart::Site(rest));
            proof {
                assert(r.deep_view() =~= parts_of_word(w@));
            }
            r
        } else {
            let toks = tokenize(w);
            let mut r: Vec<QueryPart> = Vec::new();
            let mut i: usize = 0;
            while i < toks.len()
                invariant
                    i <= toks@.len(),
                    r@.len() == i,
                    toks.deep_view() == tokenize_spec(w@),
                    forall|k: int|
                        0 <= k < i ==> (#[trigger] r.deep_view()[k]) == QueryPartView::Term(
                            toks.deep_view()[k],
                        ),
                decreases toks@.len() - i,
            {
                let t = crate::inverted_index::copy_bytes(&toks[i]);
                let ghost prev = r.deep_view();
                r.push(QueryPart::Term(t));
                proof {
                    assert(toks.deep_view()[i as int] == toks@[i as int]@);
                    assert(r.deep_view() =~~= prev.push(
                        QueryPartView::Term(toks.deep_view()[i as int]),
                    ));
                }
                i = i + 1;
            }
            proof {
                assert(r.deep_view() =~= parts_of_word(w@));
            }
            r
        }
    }
}

impl Query {
    /// Parses a user query. Parsing never fails: an empty text yields a
    /// query with no parts, and over-long queries are truncated to
    /// [`MAX_QUERY_TERMS`] parts.
    pub fn parse(raw: &str) -> (r: Result<Query, Error>)
        ensures
            r.is_ok(),
            r.unwrap().spec_parts() == parse_spec(raw.spec_bytes()),
    {
        let bytes = raw.as_bytes_vec();
        let s = bytes.as_slice();
        let n = s.len();
        let mut parts: Vec<QueryPart> = Vec::new();
        let mut i: usize = 0;
        while i < n
            invariant
                i <= n,
                n == s@.len(),
                parse_from(s@, 0) == parts.deep_view() + parse_from(s@, i as int),
            decreases n - i,
        {
            let b = s[i];
            if b == 32 || b == 9 || b == 13 || b == 10 {
                i = i + 1;
            } else if b == 34 {
                // Quoted phrase: runs to the closing quote or the end.
                let mut j: usize = i + 1;
                while j < n
                    invariant
                        i + 1 <= j <= n,
                        n == s@.len(),
                        crate::webpage::find_from(s@, i + 1, 34) == crate::webpage::find_from(
                            s@,
                            j as int,
                            34,
                        ),
                    ensures
                        i + 1 <= j <= n,
                        crate::webpage::find_from(s@, i + 1, 34) == j as int || (j == n
                            && crate::webpage::find_from(s@, i + 1, 34) == n as int),
                    decreases n - j,
                {
                    if s[j] == 34 {
                        break ;
                    }
                    j = j + 1;
                }
                let toks = tokenize(vstd::slice::slice_subrange(s, i + 1, j));
                let ghost prev = parts.deep_view();
                if toks.len() > 0 {
                    parts.push(QueryPart::Phrase(toks));
                }
                proof {
                    lemma_find_from_bounds(s@, i + 1, 34);
                    if toks.deep_view().len() > 0 {
                        assert(parts.deep_view() =~~= prev.push(
                            QueryPartView::Phrase(tokenize_spec(s@.subrange(i + 1, j as int))),
                        ));
                        assert(prev.push(
                            QueryPartView::Phrase(tokenize_spec(s@.subrange(i + 1, j as int))),
                        ) + parse_from(
                            s@,
                            if (j as int) < n as int {
                                j + 1
                            } else {
                                n as int
                            },
                        ) =~= prev + (seq![
                            QueryPartView::Phrase(tokenize_spec(s@.subrange(i + 1, j as int))),
                        ] + parse_from(
                            s@,
                            if (j as int) < n as int {
                                j + 1
                            } else {
                                n as int
                            },
                        )));
                    }
                }
                if j < n {
                    i = j + 1;
                } else {
                    i = j;
                }
            } else {
                // A word: runs to whitespace or a quote.
                let mut j: usize = i;
                while j < n
                    invariant
                        i <= j <= n,
                        n == s@.len(),
                        word_end(s@, i as int) == word_end(s@, j as int),
                    ensures
                        i <= j <= n,
                        word_end(s@, i as int) == j as int,
                    decreases n - j,
                {
                    let c = s[j];
                    if c == 32 || c == 9 || c == 13 || c == 10 || c == 34 {
                        break ;
                    }
                    j = j + 1;
                }
                proof {
                    lemma_word_end_bounds(s@, i as int);
                }
                let wp = word_parts(vstd::slice::slice_subrange(s, i, j));
                let ghost prev = parts.deep_view();
                let mut k: usize = 0;
                while k < wp.len()
                    invariant
                        k <= wp@.len(),
                        parts.deep_view() =~= prev + wp.deep_view().take(k as int),
                    decreases wp@.len() - k,
                {
                    let ghost mid = parts.deep_view();
                    proof {
                        assert(wp@[k as int]@ == wp.deep_view()[k as int]);
                    }
                    parts.push(clone_part(&wp, k));
                    proof {
                        assert(parts.deep_view() =~~= mid.push(wp.deep_view()[k as int]));
                        assert(mid.push(wp.deep_view()[k as int]) =~= prev + wp.deep_view().take(
                            k + 1,
                        ));
                    }
                    k = k + 1;
                }
                proof {
                    assert(wp.deep_view().take(wp.deep_view().len() as int) =~= wp.deep_view());
                    assert(prev + wp.deep_view() + parse_from(s@, j as int) =~= prev
                        + (wp.deep_view() + parse_from(s@, j as int)));
                }
                i = j;
            }
        }
        proof {
            assert(parts.deep_view() + parse_from(s@, i as int) =~= parts.deep_view());
        }

        // Truncate over-long queries instead of rejecting them.
        if parts.len() > MAX_QUERY_TERMS {
            let mut kept: Vec<QueryPart> = Vec::new();
            let mut k: usize = 0;
            while k < MAX_QUERY_TERMS
                invariant
                    k <= MAX_QUERY_TERMS,
                    MAX_QUERY_TERMS <= parts.deep_view().len(),
                    kept.deep_view() =~= parts.deep_view().take(k as int),
                decreases MAX_QUERY_TERMS - k,
            {
                let ghost mid = kept.deep_view();
                kept.push(clone_part(&parts, k));
                proof {
                    assert(parts@[k as int]@ == parts.deep_view()[k as int]);
                    assert(kept.deep_view() =~~= mid.push(parts.deep_view()[k as int]));
                    assert(mid.push(parts.deep_view()[k as int]) =~= parts.deep_view().take(k + 1));
                }
                k = k + 1;
            }
            Ok(Query { parts: kept })
        } else {
            Ok(Query { parts })
        }
    }
}

/// The token view of one indexed document: each searchable text field as
/// its token sequence, and the lowercased host the document lives on.
#[derive(Debug, Clone)]
pub struct DocTokens {
    pub title: Vec<Vec<u8>>,
    pub stemmed_title: Vec<Vec<u8>>,
    pub all_body: Vec<Vec<u8>>,
    pub clean_body: Vec<Vec<u8>>,
    pub stemmed_body: Vec<Vec<u8>>,
    pub url: Vec<Vec<u8>>,
    pub description: Vec<Vec<u8>>,
    pub site: Vec<u8>,
}

/// What a document's token view holds.
pub struct DocTokensView {
    pub title: Seq<Seq<u8>>,
    pub stemmed_title: Seq<Seq<u8>>,
    pub all_body: Seq<Seq<u8>>,
    pub clean_body: Seq<Seq<u8>>,
    pub stemmed_body: Seq<Seq<u8>>,
    pub url: Seq<Seq<u8>>,
    pub description: Seq<Seq<u8>>,
    pub site: Seq<u8>,
}

impl View for DocTokens {
    type V = DocTokensView;

    open spec fn view(&self) -> DocTokensView {
        DocTokensView {
            title: self.title.deep_view(),
            stemmed_title: self.stemmed_title.deep_view(),
            all_body: self.all_body.deep_view(),
            clean_body: self.clean_body.deep_view(),
            stemmed_body: self.stemmed_body.deep_view(),
            url: self.url.deep_view(),
            description: self.description.deep_view(),
            site: self.site@,
        }
    }
}

impl DocTokens {
    /// Tokenizes a page the way the index does: every searchable field
    /// through the default tokenizer, the body once more through the
    /// stemmed tokenizer, and the URL canonicalized first.
    pub fn from_page(title: &str, body: &str, url: &str, description: &str) -> (r: DocTokens)
        ensures
            r@.title == tokenize_spec(title.spec_bytes()),
            r@.stemmed_title == crate::tokenizer::tokenize_stemmed_spec(title.spec_bytes()),
            r@.all_body == tokenize_spec(body.spec_bytes()),
            r@.clean_body == tokenize_spec(body.spec_bytes()),
            r@.stemmed_body == crate::tokenizer::tokenize_stemmed_spec(body.spec_bytes()),
            r@.url == tokenize_spec(crate::webpage::canonical_url_spec(url.spec_bytes())),
            r@.description == tokenize_spec(description.spec_bytes()),
            r@.site == crate::webpage::host_of_url_spec(url.spec_bytes()),
    {
        let title_b = title.as_bytes_vec();
        let body_b = body.as_bytes_vec();
        let url_b = url.as_bytes_vec();
        let desc_b = description.as_bytes_vec();
        let canon = crate::webpage::canonicalize_url(url_b.as_slice());
        DocTokens {
            title: tokenize(title_b.as_slice()),
            stemmed_title: crate::tokenizer::tokenize_stemmed(title_b.as_slice()),
            all_body: tokenize(body_b.as_slice()),
            clean_body: tokenize(body_b.as_slice()),
            stemmed_body: crate::tokenizer::tokenize_stemmed(body_b.as_slice()),
            url: tokenize(canon.as_slice()),
            description: tokenize(desc_b.as_slice()),
            site: crate::webpage::host_of_url(url_b.as_slice()),
        }
    }
}

/// Whether the tokens of `ph` occur consecutively in `hay`. An empty
/// phrase matches everywhere.
pub open spec fn phrase_in(hay: Seq<Seq<u8>>, ph: Seq<Seq<u8>>) -> bool {
    ph.len() == 0 || exists|i: int|
        0 <= i && i + ph.len() <= hay.len() && #[trigger] hay.subrange(i, i + ph.len()) == ph
}

/// Whether a single term matches the document: it occurs in a searchable
/// field, or its stem occurs in the stemmed body, so that a plural matches
/// its singular and the other way round.
pub open spec fn term_matches_doc(t: Seq<u8>, d: DocTokensView) -> bool {
    d.title.contains(t) || d.all_body.contains(t) || d.clean_body.contains(t) || d.url.contains(t)
        || d.description.contains(t) || d.stemmed_body.contains(stem_spec(t))
        || d.stemmed_title.contains(stem_spec(t))
}

/// Whether a phrase matches the document in some positions-indexed field.
pub open spec fn phrase_matches_doc(ph: Seq<Seq<u8>>, d: DocTokensView) -> bool {
    phrase_in(d.title, ph) || phrase_in(d.all_body, ph) || phrase_in(d.clean_body, ph)
        || phrase_in(d.url, ph) || phrase_in(d.description, ph)
}

/// The matching semantics of one subquery.
pub open spec fn part_matches(p: QueryPartView, d: DocTokensView) -> bool {
    match p {
        QueryPartView::Term(t) => term_matches_doc(t, d),
        QueryPartView::Phrase(ph) => phrase_matches_doc(ph, d),
        QueryPartView::Not(t) => !term_matches_doc(t, d),
        QueryPartView::Site(s) => d.site == s,
    }
}

/// Whether a query matches a document: it has at least one part and every
/// part matches. The empty query matches nothing.
pub open spec fn query_matches_spec(parts: Seq<QueryPartView>, d: DocTokensView) -> bool {
    parts.len() > 0 && forall|k: int| 0 <= k < parts.len() ==> part_matches(#[trigger] parts[k], d)
}

fn field_contains(field: &Vec<Vec<u8>>, t: &Vec<u8>) -> (r: bool)
    ensures
        r == field.deep_view().contains(t@),
{
    crate::inverted_index::contains_term(field, t)
}

/// Whether the tokens of `ph` occur consecutively in `hay`.
pub fn phrase_in_field(hay: &Vec<Vec<u8>>, ph: &Vec<Vec<u8>>) -> (r: bool)
    ensures
        r == phrase_in(hay.deep_view(), ph.deep_view()),
{
    let m = ph.len();
    if m == 0 {
        return true;
    }
    let n = hay.len();
    if m > n {
        return false;
    }
    let last = n - m;
    let mut i: usize = 0;
    while i <= last
        invariant
            0 < m <= n,
            last == n - m,
            m == ph.deep_view().len(),
            n == hay.deep_view().len(),
            i <= last + 1,
            forall|q: int|
                0 <= q < i ==> (#[trigger] hay.deep_view().subrange(q, q + ph.deep_view().len()))
                    != ph.deep_view(),
        decreases last + 1 - i,
    {
        let mut j: usize = 0;
        let mut all_eq = true;
        while j < m
            invariant
                0 < m <= n,
                i + m <= n,
                m == ph.deep_view().len(),
                n == hay.deep_view().len(),
                j <= m,
                all_eq <==> (forall|q: int|
                    0 <= q < j ==> hay.deep_view()[i + q] == ph.deep_view()[q]),
            decreases m - j,
        {
            let same = crate::inverted_index::bytes_eq(&hay[i + j], &ph[j]);
            proof {
                assert(hay.deep_view()[i + j] == hay@[i + j as int]@);
                assert(ph.deep_view()[j as int] == ph@[j as int]@);
            }
            if !same {
                all_eq = false;
                j = m;
            } else {
                if all_eq {
                    j = j + 1;
                } else {
                    j = j + 1;
                }
            }
        }
        if all_eq {
            proof {
                assert(hay.deep_view().subrange(i as int, i + ph.deep_view().len())
                    =~= ph.deep_view());
            }
            return true;
        }
        proof {
            let sub = hay.deep_view().subrange(i as int, i + ph.deep_view().len());
            if sub == ph.deep_view() {
                assert(forall|q: int| 0 <= q < m ==> (#[trigger] sub[q]) == hay.deep_view()[i + q]);
            }
        }
        i = i + 1;
    }
    proof {
        assert forall|q: int|
            0 <= q && q + ph.deep_view().len() <= hay.deep_view().len() implies (
        #[trigger] hay.deep_view().subrange(q, q + ph.deep_view().len())) != ph.deep_view() by {
            assert(q < i);
        }
    }
    false
}

fn term_matches(t: &Vec<u8>, d: &DocTokens) -> (r: bool)
    ensures
        r == term_matches_doc(t@, d@),
{
    if field_contains(&d.title, t) {
        return true;
    }
    if field_contains(&d.all_body, t) {
        return true;
    }
    if field_contains(&d.clean_body, t) {
        return true;
    }
    if field_contains(&d.url, t) {
        return true;
    }
    if field_contains(&d.description, t) {
        return true;
    }
    let stemmed = stem(t.as_slice());
    if field_contains(&d.stemmed_body, &stemmed) {
        return true;
    }
    field_contains(&d.stemmed_title, &stemmed)
}

impl Query {
    /// Whether this query matches the document's token view.
    pub fn matches(&self, d: &DocTokens) -> (r: bool)
        ensures
            r == query_matches_spec(self.spec_parts(), d@),
    {
        if self.parts.len() == 0 {
            return false;
        }
        let mut k: usize = 0;
        while k < self.parts.len()
            invariant
                k <= self.parts@.len(),
                forall|q: int| 0 <= q < k ==> part_matches(#[trigger] self.parts.deep_view()[q], d@),
            decreases self.parts@.len() - k,
        {
            let ok: bool = match &self.parts[k] {
                QueryPart::Term(t) => term_matches(t, d),
                QueryPart::Phrase(ph) => {
                    let a = phrase_in_field(&d.title, ph);
                    let b = if a {
                        true
                    } else {
                        phrase_in_field(&d.all_body, ph)
                    };
                    let c = if b {
                        true
                    } else {
                        phrase_in_field(&d.clean_body, ph)
                    };
                    let e = if c {
                        true
                    } else {
                        phrase_in_field(&d.url, ph)
                    };
                    if e {
                        true
                    } else {
                        phrase_in_field(&d.description, ph)
                    }
                },
                QueryPart::Not(t) => !term_matches(t, d),
                QueryPart::Site(s) => crate::inverted_index::bytes_eq(s, &d.site),
            };
            proof {
                assert(self.parts.deep_view()[k as int] == self.parts@[k as int]@);
            }
            if !ok {
                return false;
            }
            k = k + 1;
        }
        true
    }

    /// The plain terms of the query, for the image relevance filter.
    pub fn simple_terms(&self) -> (r: Vec<Vec<u8>>)
        ensures
            r.deep_view() == simple_terms_spec(self.spec_parts()),
    {
        let mut r: Vec<Vec<u8>> = Vec::new();
        let mut k: usize = 0;
        while k < self.parts.len()
            invariant
                k <= self.parts@.len(),
                r.deep_view() =~= simple_terms_spec(self.parts.deep_view().take(k as int)),
            decreases self.parts@.len() - k,
        {
            let ghost prev = r.deep_view();
            match &self.parts[k] {
                QueryPart::Term(t) => {
                    r.push(crate::inverted_index::copy_bytes(t));
                },
                _ => {},
            }
            proof {
                assert(self.parts.deep_view().take(k + 1).drop_last() =~= self.parts.deep_view()
                    .take(k as int));
                assert(self.parts.deep_view().take(k + 1).last() == self.parts.deep_view()[k as int]);
                assert(self.parts.deep_view()[k as int] == self.parts@[k as int]@);
                match self.parts@[k as int] {
                    QueryPart::Term(ref t) => {
                        assert(r.deep_view() =~~= prev.push(t@));
                    },
                    _ => {},
                }
            }
            k = k + 1;
        }
        proof {
            assert(self.parts.deep_view().take(self.parts.deep_view().len() as int)
                =~= self.parts.deep_view());
        }
        r
    }
}

/// The plain terms among the query's parts, in order.
pub open spec fn simple_terms_spec(parts: Seq<QueryPartView>) -> Seq<Seq<u8>>
    decreases parts.len(),
{
    if parts.len() == 0 {
        Seq::empty()
    } else {
        simple_terms_spec(parts.drop_last()) + (match parts.last() {
            QueryPartView::Term(t) => seq![t],
            _ => Seq::empty(),
        })
    }
}

/// Phrase retrievability of a URL: the phrase built from a URL's tokens
/// always matches a URL field holding the same tokens, so a document is
/// retrievable by phrase-search on its canonical URL once its postings are
/// searchable.
pub proof fn lemma_url_phrase_self_match(url: Seq<u8>)
    ensures
        phrase_in(
            tokenize_spec(crate::webpage::canonical_url_spec(url)),
            tokenize_spec(crate::webpage::canonical_url_spec(url)),
        ),
{
    let toks = tokenize_spec(crate::webpage::canonical_url_spec(url));
    if toks.len() > 0 {
        assert(toks.subrange(0, 0 + toks.len() as int) =~= toks);
        assert(0 <= 0 && 0 + toks.len() <= toks.len());
    }
}

/// A copy of the part at `k`.
fn clone_part(parts: &Vec<QueryPart>, k: usize) -> (r: QueryPart)
    requires
        k < parts@.len(),
    ensures
        r@ == parts@[k as int]@,
{
    match &parts[k] {
        QueryPart::Term(t) => QueryPart::Term(crate::inverted_index::copy_bytes(t)),
        QueryPart::Not(t) => QueryPart::Not(crate::inverted_index::copy_bytes(t)),
        QueryPart::Site(t) => QueryPart::Site(crate::inverted_index::copy_bytes(t)),
        QueryPart::Phrase(p) => {
            let r = QueryPart::Phrase(crate::inverted_index::copy_terms(p));
            r
        },
    }
}

} // verus!
