//! The retrieval side of the index: addresses of hits, the pointer a
//! collector hands back for each hit, and the materialization of a stored
//! document into a retrieved webpage, including the relevance filter that
//! suppresses a page's primary image when the query shares no term with it.

use vstd::prelude::*;

use crate::collector::Hashes;
use crate::ranking::Score;
use crate::schema::{FastFieldEnum, TextFieldEnum};
use crate::webpage::{Region, StoredPrimaryImage, StoredPrimaryImageView};

verus! {

/// The address of one document: which segment it sits in and its id there.
/// Not stable across merges.
#[derive(Debug, Clone, Copy, PartialEq, Eq, Structural, Hash)]
pub struct DocAddress {
    pub segment: u32,
    pub doc_id: u32,
}

/// The minimal ranked hit carried across retrieval stages.
#[derive(Debug, Clone, Copy, PartialEq, Eq, Structural)]
pub struct WebsitePointer {
    pub score: Score,
    pub hashes: Hashes,
    pub address: DocAddress,
}

/// What the first search phase returns: the approximate number of matching
/// documents and the best hits.
#[derive(Debug, Clone)]
pub struct InitialSearchResult {
    pub num_websites: usize,
    pub top_websites: Vec<WebsitePointer>,
}

/// One stored value of a document.
#[derive(Debug, Clone)]
pub enum FieldValue {
    Text(String),
    U64(u64),
    Bytes(Vec<u8>),
    Facet(String),
    Image(Option<StoredPrimaryImage>),
}

/// One stored field of a document: the schema field identifier and the
/// value stored under it.
#[derive(Debug, Clone)]
pub struct StoredField {
    pub field_id: usize,
    pub value: FieldValue,
}

/// The stored fields of one document, as the store hands them back.
#[derive(Debug, Clone)]
pub struct Document {
    pub fields: Vec<StoredField>,
}

/// The materialized view of one hit.
#[derive(Debug, Clone, PartialEq)]
pub struct RetrievedWebpage {
    pub title: String,
    pub url: String,
    pub body: String,
    pub snippet: String,
    pub dirty_body: String,
    pub description: Option<String>,
    pub dmoz_description: Option<String>,
    pub primary_image: Option<StoredPrimaryImage>,
    pub updated_time: Option<u64>,
    pub host_topic: Option<String>,
    pub schema_org_json: String,
    pub region: Region,
}

/// What a retrieved webpage holds, as mathematical sequences.
pub struct RetrievedWebpageView {
    pub title: Seq<char>,
    pub url: Seq<char>,
    pub body: Seq<char>,
    pub snippet: Seq<char>,
    pub dirty_body: Seq<char>,
    pub description: Option<Seq<char>>,
    pub dmoz_description: Option<Seq<char>>,
    pub primary_image: Option<StoredPrimaryImageView>,
    pub updated_time: Option<u64>,
    pub host_topic: Option<Seq<char>>,
    pub schema_org_json: Seq<char>,
    pub region: Region,
}

impl View for RetrievedWebpage {
    type V = RetrievedWebpageView;

    open spec fn view(&self) -> RetrievedWebpageView {
        RetrievedWebpageView {
            title: self.title@,
            url: self.url@,
            body: self.body@,
            snippet: self.snippet@,
            dirty_body: self.dirty_body@,
            description: match self.description {
                Some(ref s) => Some(s@),
                None => None,
            },
            dmoz_description: match self.dmoz_description {
                Some(ref s) => Some(s@),
                None => None,
            },
            primary_image: match self.primary_image {
                Some(ref img) => Some(img@),
                None => None,
            },
            updated_time: self.updated_time,
            host_topic: match self.host_topic {
                Some(ref s) => Some(s@),
                None => None,
            },
            schema_org_json: self.schema_org_json@,
            region: self.region,
        }
    }
}

/// A webpage with nothing stored yet.
pub open spec fn empty_webpage_view() -> RetrievedWebpageView {
    RetrievedWebpageView {
        title: Seq::empty(),
        url: Seq::empty(),
        body: Seq::empty(),
        snippet: Seq::empty(),
        dirty_body: Seq::empty(),
        description: None,
        dmoz_description: None,
        primary_image: None,
        updated_time: None,
        host_topic: None,
        schema_org_json: Seq::empty(),
        region: Region::All,
    }
}

impl Default for RetrievedWebpage {
    fn default() -> (d: Self)
        ensures
            d@ == empty_webpage_view(),
    {
        let d = RetrievedWebpage {
            title: String::new(),
            url: String::new(),
            body: String::new(),
            snippet: String::new(),
            dirty_body: String::new(),
            description: None,
            dmoz_description: None,
            primary_image: None,
            updated_time: None,
            host_topic: None,
            schema_org_json: String::new(),
            region: Region::All,
        };
        proof {
            assert(d@.title =~= empty_webpage_view().title);
            assert(d@.url =~= empty_webpage_view().url);
            assert(d@.body =~= empty_webpage_view().body);
            assert(d@.snippet =~= empty_webpage_view().snippet);
            assert(d@.dirty_body =~= empty_webpage_view().dirty_body);
            assert(d@.schema_org_json =~= empty_webpage_view().schema_org_json);
        }
        d
    }
}

/// One stored field folded into the webpage being materialized. The body
/// shown to callers is the stemmed clean body; the dirty body keeps the
/// unfiltered text. Empty descriptions, a zero update time and a root
/// topic facet all stand for "absent". A value whose type does not match
/// its field is ignored, as retrieval skips malformed documents' parts.
pub open spec fn apply_stored_field(w: RetrievedWebpageView, f: StoredField) -> RetrievedWebpageView {
    match f.value {
        FieldValue::Text(t) => {
            if f.field_id == TextFieldEnum::Title.spec_id() {
                RetrievedWebpageView { title: t@, ..w }
            } else if f.field_id == TextFieldEnum::StemmedCleanBody.spec_id() {
                RetrievedWebpageView { body: t@, ..w }
            } else if f.field_id == TextFieldEnum::Description.spec_id() {
                RetrievedWebpageView {
                    description: if t@.len() == 0 {
                        None
                    } else {
                        Some(t@)
                    },
                    ..w
                }
            } else if f.field_id == TextFieldEnum::Url.spec_id() {
                RetrievedWebpageView { url: t@, ..w }
            } else if f.field_id == TextFieldEnum::AllBody.spec_id() {
                RetrievedWebpageView { dirty_body: t@, ..w }
            } else if f.field_id == TextFieldEnum::DmozDescription.spec_id() {
                RetrievedWebpageView {
                    dmoz_description: if t@.len() == 0 {
                        None
                    } else {
                        Some(t@)
                    },
                    ..w
                }
            } else if f.field_id == TextFieldEnum::SchemaOrgJson.spec_id() {
                RetrievedWebpageView { schema_org_json: t@, ..w }
            } else {
                w
            }
        },
        FieldValue::Facet(t) => {
            if f.field_id == TextFieldEnum::HostTopic.spec_id() {
                if t@.len() == 0 {
                    w
                } else {
                    RetrievedWebpageView { host_topic: Some(t@), ..w }
                }
            } else {
                w
            }
        },
        FieldValue::Image(img) => {
            if f.field_id == TextFieldEnum::PrimaryImage.spec_id() {
                RetrievedWebpageView {
                    primary_image: match img {
                        Some(i) => Some(i@),
                        None => None,
                    },
                    ..w
                }
            } else {
                w
            }
        },
        FieldValue::U64(n) => {
            if f.field_id == FastFieldEnum::LastUpdated.spec_id() + crate::schema::NUM_TEXT_FIELDS {
                RetrievedWebpageView {
                    updated_time: if n == 0 {
                        None
                    } else {
                        Some(n)
                    },
                    ..w
                }
            } else if f.field_id == FastFieldEnum::Region.spec_id()
                + crate::schema::NUM_TEXT_FIELDS {
                RetrievedWebpageView { region: Region::spec_from_id(n), ..w }
            } else {
                w
            }
        },
        FieldValue::Bytes(_) => w,
    }
}

pub open spec fn from_doc_rec(fields: Seq<StoredField>, n: int) -> RetrievedWebpageView
    decreases n,
{
    if n <= 0 {
        empty_webpage_view()
    } else {
        apply_stored_field(from_doc_rec(fields, n - 1), fields[n - 1])
    }
}

/// The webpage a stored document materializes to: its fields folded in
/// order over an empty page.
pub open spec fn webpage_from_doc(fields: Seq<StoredField>) -> RetrievedWebpageView {
    from_doc_rec(fields, fields.len() as int)
}

impl RetrievedWebpage {
    /// Materializes the stored fields of one document.
    pub fn from_document(doc: &Document) -> (r: RetrievedWebpage)
        ensures
            r@ == webpage_from_doc(doc.fields@),
    {
        let mut w = RetrievedWebpage::default();
        let mut i: usize = 0;
        while i < doc.fields.len()
            invariant
                i <= doc.fields@.len(),
                w@ == from_doc_rec(doc.fields@, i as int),
            decreases doc.fields@.len() - i,
        {
            let f = &doc.fields[i];
            match &f.value {
                FieldValue::Text(t) => {
                    if f.field_id == 0 {
                        w.title = t.clone();
                    } else if f.field_id == 3 {
                        w.body = t.clone();
                    } else if f.field_id == 5 {
                        if t.unicode_len() == 0 {
                            w.description = None;
                        } else {
                            w.description = Some(t.clone());
                        }
                    } else if f.field_id == 4 {
                        w.url = t.clone();
                    } else if f.field_id == 1 {
                        w.dirty_body = t.clone();
                    } else if f.field_id == 6 {
                        if t.unicode_len() == 0 {
                            w.dmoz_description = None;
                        } else {
                            w.dmoz_description = Some(t.clone());
                        }
                    } else if f.field_id == 9 {
                        w.schema_org_json = t.clone();
                    }
                },
                FieldValue::Facet(t) => {
                    if f.field_id == 7 {
                        if t.unicode_len() > 0 {
                            w.host_topic = Some(t.clone());
                        }
                    }
                },
                FieldValue::Image(img) => {
                    if f.field_id == 8 {
                        match img {
                            Some(im) => {
                                w.primary_image = Some(copy_image(im));
                            },
                            None => {
                                w.primary_image = None;
                            },
                        }
                    }
                },
                FieldValue::U64(n) => {
                    if f.field_id == 11 {
                        if *n == 0 {
                            w.updated_time = None;
                        } else {
                            w.updated_time = Some(*n);
                        }
                    } else if f.field_id == 12 {
                        w.region = Region::from_id(*n);
                    }
                },
                FieldValue::Bytes(_) => {},
            }
            i = i + 1;
        }
        w
    }
}

pub fn copy_bytes(v: &Vec<u8>) -> (r: Vec<u8>)
    ensures
        r@ == v@,
{
    vstd::slice::slice_to_vec(v.as_slice())
}

pub fn copy_terms(v: &Vec<Vec<u8>>) -> (r: Vec<Vec<u8>>)
    ensures
        r.deep_view() == v.deep_view(),
{
    let mut r: Vec<Vec<u8>> = Vec::new();
    let mut i: usize = 0;
    while i < v.len()
        invariant
            i <= v@.len(),
            r@.len() == i,
            forall|k: int| 0 <= k < i ==> (#[trigger] r@[k])@ == v@[k]@,
        decreases v@.len() - i,
    {
        r.push(copy_bytes(&v[i]));
        i = i + 1;
    }
    proof {
        assert(r.deep_view() =~~= v.deep_view());
    }
    r
}

fn copy_image(img: &StoredPrimaryImage) -> (r: StoredPrimaryImage)
    ensures
        r@ == img@,
{
    let r = StoredPrimaryImage {
        uuid: img.uuid,
        title_terms: copy_terms(&img.title_terms),
        description_terms: copy_terms(&img.description_terms),
    };
    r
}

/// Whether the document stores a text value under the field with the
/// given identifier.
pub open spec fn has_text_field(fields: Seq<StoredField>, id: int) -> bool {
    exists|i: int|
        0 <= i < fields.len() && (#[trigger] fields[i]).field_id == id && fields[i].value is Text
}

/// Whether a document carries every required text field: its title, its
/// URL, its raw body and its stemmed body.
pub open spec fn document_complete(fields: Seq<StoredField>) -> bool {
    &&& has_text_field(fields, TextFieldEnum::Title.spec_id())
    &&& has_text_field(fields, TextFieldEnum::Url.spec_id())
    &&& has_text_field(fields, TextFieldEnum::AllBody.spec_id())
    &&& has_text_field(fields, TextFieldEnum::StemmedCleanBody.spec_id())
}

/// Checks a document before it enters the writer: one missing required
/// text field rejects it with a schema error, exactly as the store must.
pub fn validate_document(doc: &Document) -> (r: Result<(), crate::Error>)
    ensures
        r.is_ok() <==> document_complete(doc.fields@),
        r.is_err() ==> r.unwrap_err() == crate::Error::Schema,
{
    let mut has_title = false;
    let mut has_url = false;
    let mut has_all_body = false;
    let mut has_stemmed = false;
    let mut i: usize = 0;
    while i < doc.fields.len()
        invariant
            i <= doc.fields@.len(),
            has_title <==> exists|q: int|
                0 <= q < i && (#[trigger] doc.fields@[q]).field_id == 0 && doc.fields@[q].value
                    is Text,
            has_url <==> exists|q: int|
                0 <= q < i && (#[trigger] doc.fields@[q]).field_id == 4 && doc.fields@[q].value
                    is Text,
            has_all_body <==> exists|q: int|
                0 <= q < i && (#[trigger] doc.fields@[q]).field_id == 1 && doc.fields@[q].value
                    is Text,
            has_stemmed <==> exists|q: int|
                0 <= q < i && (#[trigger] doc.fields@[q]).field_id == 3 && doc.fields@[q].value
                    is Text,
        decreases doc.fields@.len() - i,
    {
        let f = &doc.fields[i];
        let is_text = match &f.value {
            FieldValue::Text(_) => true,
            _ => false,
        };
        if is_text {
            if f.field_id == 0 {
                has_title = true;
            } else if f.field_id == 4 {
                has_url = true;
            } else if f.field_id == 1 {
                has_all_body = true;
            } else if f.field_id == 3 {
                has_stemmed = true;
            }
        }
        i = i + 1;
    }
    if has_title && has_url && has_all_body && has_stemmed {
        Ok(())
    } else {
        Err(crate::Error::Schema)
    }
}

/// Whether every query term occurs among the image's title or description
/// terms: only then is the image relevant to the query.
pub open spec fn image_relevant(terms: Seq<Seq<u8>>, img: StoredPrimaryImageView) -> bool {
    forall|k: int|
        0 <= k < terms.len() ==> img.title_terms.contains(#[trigger] terms[k])
            || img.description_terms.contains(terms[k])
}

pub fn bytes_eq(a: &Vec<u8>, b: &Vec<u8>) -> (r: bool)
    ensures
        r == (a@ == b@),
{
    if a.len() != b.len() {
        return false;
    }
    let mut i: usize = 0;
    while i < a.len()
        invariant
            i <= a@.len(),
            a@.len() == b@.len(),
            forall|k: int| 0 <= k < i ==> a@[k] == b@[k],
        decreases a@.len() - i,
    {
        if a[i] != b[i] {
            return false;
        }
        i = i + 1;
    }
    proof {
        assert(a@ =~= b@);
    }
    true
}

pub fn contains_term(terms: &Vec<Vec<u8>>, t: &Vec<u8>) -> (r: bool)
    ensures
        r == terms.deep_view().contains(t@),
{
    let mut i: usize = 0;
    while i < terms.len()
        invariant
            i <= terms@.len(),
            forall|k: int| 0 <= k < i ==> terms.deep_view()[k] != t@,
        decreases terms@.len() - i,
    {
        if bytes_eq(&terms[i], t) {
            proof {
                assert(terms.deep_view()[i as int] == t@);
            }
            return true;
        }
        proof {
            assert(terms.deep_view()[i as int] == terms@[i as int]@);
        }
        i = i + 1;
    }
    proof {
        assert(forall|k: int| 0 <= k < terms.deep_view().len() ==> terms.deep_view()[k] != t@);
    }
    false
}

/// Whether the image is relevant to the query's terms.
pub fn image_matches_query(terms: &Vec<Vec<u8>>, img: &StoredPrimaryImage) -> (r: bool)
    ensures
        r == image_relevant(terms.deep_view(), img@),
{
    let mut k: usize = 0;
    while k < terms.len()
        invariant
            k <= terms@.len(),
            forall|j: int|
                0 <= j < k ==> img@.title_terms.contains(#[trigger] terms.deep_view()[j])
                    || img@.description_terms.contains(terms.deep_view()[j]),
        decreases terms@.len() - k,
    {
        let in_title = contains_term(&img.title_terms, &terms[k]);
        let in_desc = if in_title {
            true
        } else {
            contains_term(&img.description_terms, &terms[k])
        };
        if !in_desc {
            proof {
                assert(terms.deep_view()[k as int] == terms@[k as int]@);
            }
            return false;
        }
        proof {
            assert(terms.deep_view()[k as int] == terms@[k as int]@);
        }
        k = k + 1;
    }
    true
}

/// What a page looks like after the image relevance filter: its primary
/// image is suppressed when the query shares no term with the image's
/// title and description terms.
pub open spec fn strip_image_spec(w: RetrievedWebpageView, terms: Seq<Seq<u8>>) -> RetrievedWebpageView {
    match w.primary_image {
        Some(img) => if image_relevant(terms, img) {
            w
        } else {
            RetrievedWebpageView { primary_image: None, ..w }
        },
        None => w,
    }
}

/// Suppresses the page's primary image when no query term occurs in the
/// image's title or description terms.
pub fn strip_irrelevant_image(page: &mut RetrievedWebpage, query_terms: &Vec<Vec<u8>>)
    ensures
        final(page)@ == strip_image_spec(old(page)@, query_terms.deep_view()),
{
    let keep: bool = match &page.primary_image {
        Some(img) => image_matches_query(query_terms, img),
        None => true,
    };
    if !keep {
        page.primary_image = None;
    }
}

/// Materializes a batch of stored documents and applies the image
/// relevance filter to each, as retrieval does before snippets are
/// generated.
pub fn retrieve_websites(docs: &Vec<Document>, query_terms: &Vec<Vec<u8>>) -> (r: Vec<
    RetrievedWebpage,
>)
    ensures
        r@.len() == docs@.len(),
        forall|k: int|
            0 <= k < r@.len() ==> (#[trigger] r@[k])@ == strip_image_spec(
                webpage_from_doc(docs@[k].fields@),
                query_terms.deep_view(),
            ),
{
    let mut r: Vec<RetrievedWebpage> = Vec::new();
    let mut i: usize = 0;
    while i < docs.len()
        invariant
            i <= docs@.len(),
            r@.len() == i,
            forall|k: int|
                0 <= k < i ==> (#[trigger] r@[k])@ == strip_image_spec(
                    webpage_from_doc(docs@[k].fields@),
                    query_terms.deep_view(),
                ),
        decreases docs@.len() - i,
    {
        let mut page = RetrievedWebpage::from_document(&docs[i]);
        strip_irrelevant_image(&mut page, query_terms);
        r.push(page);
        i = i + 1;
    }
    r
}

} // verus!
