//! The fixed, enumerated schema of the index: text fields (tokenized and
//! inverted) and fast fields (per-document numeric columns used for sorting
//! and scoring). Field identifiers are dense: text fields come first, fast
//! fields follow.

use vstd::prelude::*;

verus! {

/// How many text fields the schema has.
pub const NUM_TEXT_FIELDS: usize = 10;

/// How many fast (column) fields the schema has.
pub const NUM_FAST_FIELDS: usize = 13;

/// How many fields the schema has in all.
pub const NUM_FIELDS: usize = 23;

/// A tokenized field of the inverted index.
#[derive(Debug, Clone, Copy, PartialEq, Eq, Structural, Hash)]
pub enum TextFieldEnum {
    Title,
    AllBody,
    CleanBody,
    StemmedCleanBody,
    Url,
    Description,
    DmozDescription,
    HostTopic,
    PrimaryImage,
    SchemaOrgJson,
}

/// A per-document numeric column materialized for sorting and scoring.
#[derive(Debug, Clone, Copy, PartialEq, Eq, Structural, Hash)]
pub enum FastFieldEnum {
    PreComputedScore,
    LastUpdated,
    Region,
    HostNodeID,
    SimHash,
    SiteHash1,
    SiteHash2,
    UrlHash1,
    UrlHash2,
    UrlWithoutTldHash1,
    UrlWithoutTldHash2,
    TitleHash1,
    TitleHash2,
}

/// One field of the schema, either text or fast.
#[derive(Debug, Clone, Copy, PartialEq, Eq, Structural, Hash)]
pub enum Field {
    Fast(FastFieldEnum),
    Text(TextFieldEnum),
}

impl TextFieldEnum {
    /// The dense identifier of this text field.
    pub open spec fn spec_id(self) -> int {
        match self {
            TextFieldEnum::Title => 0,
            TextFieldEnum::AllBody => 1,
            TextFieldEnum::CleanBody => 2,
            TextFieldEnum::StemmedCleanBody => 3,
            TextFieldEnum::Url => 4,
            TextFieldEnum::Description => 5,
            TextFieldEnum::DmozDescription => 6,
            TextFieldEnum::HostTopic => 7,
            TextFieldEnum::PrimaryImage => 8,
            TextFieldEnum::SchemaOrgJson => 9,
        }
    }

    pub fn num_variants() -> (n: usize)
        ensures
            n == NUM_TEXT_FIELDS,
    {
        NUM_TEXT_FIELDS
    }

    pub fn get(id: usize) -> (r: Option<TextFieldEnum>)
        ensures
            r.is_some() <==> id < NUM_TEXT_FIELDS,
            r.is_some() ==> r.unwrap().spec_id() == id,
    {
        match id {
            0 => Some(TextFieldEnum::Title),
            1 => Some(TextFieldEnum::AllBody),
            2 => Some(TextFieldEnum::CleanBody),
            3 => Some(TextFieldEnum::StemmedCleanBody),
            4 => Some(TextFieldEnum::Url),
            5 => Some(TextFieldEnum::Description),
            6 => Some(TextFieldEnum::DmozDescription),
            7 => Some(TextFieldEnum::HostTopic),
            8 => Some(TextFieldEnum::PrimaryImage),
            9 => Some(TextFieldEnum::SchemaOrgJson),
            _ => None,
        }
    }

    /// Every text field, ordered by identifier.
    pub fn all() -> (v: Vec<TextFieldEnum>)
        ensures
            v@.len() == NUM_TEXT_FIELDS,
            forall|k: int| 0 <= k < v@.len() ==> (#[trigger] v@[k].spec_id()) == k,
    {
        let v: Vec<TextFieldEnum> = vec![
            TextFieldEnum::Title,
            TextFieldEnum::AllBody,
            TextFieldEnum::CleanBody,
            TextFieldEnum::StemmedCleanBody,
            TextFieldEnum::Url,
            TextFieldEnum::Description,
            TextFieldEnum::DmozDescription,
            TextFieldEnum::HostTopic,
            TextFieldEnum::PrimaryImage,
            TextFieldEnum::SchemaOrgJson,
        ];
        v
    }

    /// The name the field is registered under in segment metadata.
    pub open spec fn spec_name(self) -> Seq<char> {
        match self {
            TextFieldEnum::Title => "title"@,
            TextFieldEnum::AllBody => "all_body"@,
            TextFieldEnum::CleanBody => "body"@,
            TextFieldEnum::StemmedCleanBody => "stemmed_body"@,
            TextFieldEnum::Url => "url"@,
            TextFieldEnum::Description => "description"@,
            TextFieldEnum::DmozDescription => "dmoz_description"@,
            TextFieldEnum::HostTopic => "host_topic"@,
            TextFieldEnum::PrimaryImage => "primary_image"@,
            TextFieldEnum::SchemaOrgJson => "schema_org_json"@,
        }
    }

    pub fn name(&self) -> (r: &'static str)
        ensures
            r@ == self.spec_name(),
    {
        match self {
            TextFieldEnum::Title => "title",
            TextFieldEnum::AllBody => "all_body",
            TextFieldEnum::CleanBody => "body",
            TextFieldEnum::StemmedCleanBody => "stemmed_body",
            TextFieldEnum::Url => "url",
            TextFieldEnum::Description => "description",
            TextFieldEnum::DmozDescription => "dmoz_description",
            TextFieldEnum::HostTopic => "host_topic",
            TextFieldEnum::PrimaryImage => "primary_image",
            TextFieldEnum::SchemaOrgJson => "schema_org_json",
        }
    }

    /// Whether the field is indexed with token positions, so that phrase
    /// queries can run against it. Stored-only payload fields are not.
    pub open spec fn spec_has_pos(self) -> bool {
        match self {
            TextFieldEnum::PrimaryImage => false,
            TextFieldEnum::SchemaOrgJson => false,
            _ => true,
        }
    }

    pub fn has_pos(&self) -> (r: bool)
        ensures
            r == self.spec_has_pos(),
    {
        match self {
            TextFieldEnum::PrimaryImage => false,
            TextFieldEnum::SchemaOrgJson => false,
            _ => true,
        }
    }

    /// Whether user queries run against the field. Payload fields that only
    /// carry stored data are not searchable.
    pub open spec fn spec_is_searchable(self) -> bool {
        match self {
            TextFieldEnum::PrimaryImage => false,
            TextFieldEnum::SchemaOrgJson => false,
            _ => true,
        }
    }

    pub fn is_searchable(&self) -> (r: bool)
        ensures
            r == self.spec_is_searchable(),
    {
        match self {
            TextFieldEnum::PrimaryImage => false,
            TextFieldEnum::SchemaOrgJson => false,
            _ => true,
        }
    }
}

impl FastFieldEnum {
    /// The dense identifier of this fast field, counted after the text fields.
    pub open spec fn spec_id(self) -> int {
        match self {
            FastFieldEnum::PreComputedScore => 0,
            FastFieldEnum::LastUpdated => 1,
            FastFieldEnum::Region => 2,
            FastFieldEnum::HostNodeID => 3,
            FastFieldEnum::SimHash => 4,
            FastFieldEnum::SiteHash1 => 5,
            FastFieldEnum::SiteHash2 => 6,
            FastFieldEnum::UrlHash1 => 7,
            FastFieldEnum::UrlHash2 => 8,
            FastFieldEnum::UrlWithoutTldHash1 => 9,
            FastFieldEnum::UrlWithoutTldHash2 => 10,
            FastFieldEnum::TitleHash1 => 11,
            FastFieldEnum::TitleHash2 => 12,
        }
    }

    pub fn num_variants() -> (n: usize)
        ensures
            n == NUM_FAST_FIELDS,
    {
        NUM_FAST_FIELDS
    }

    pub fn get(id: usize) -> (r: Option<FastFieldEnum>)
        ensures
            r.is_some() <==> id < NUM_FAST_FIELDS,
            r.is_some() ==> r.unwrap().spec_id() == id,
    {
        match id {
            0 => Some(FastFieldEnum::PreComputedScore),
            1 => Some(FastFieldEnum::LastUpdated),
            2 => Some(FastFieldEnum::Region),
            3 => Some(FastFieldEnum::HostNodeID),
            4 => Some(FastFieldEnum::SimHash),
            5 => Some(FastFieldEnum::SiteHash1),
            6 => Some(FastFieldEnum::SiteHash2),
            7 => Some(FastFieldEnum::UrlHash1),
            8 => Some(FastFieldEnum::UrlHash2),
            9 => Some(FastFieldEnum::UrlWithoutTldHash1),
            10 => Some(FastFieldEnum::UrlWithoutTldHash2),
            11 => Some(FastFieldEnum::TitleHash1),
            12 => Some(FastFieldEnum::TitleHash2),
            _ => None,
        }
    }

    /// Every fast field, ordered by identifier.
    pub fn all() -> (v: Vec<FastFieldEnum>)
        ensures
            v@.len() == NUM_FAST_FIELDS,
            forall|k: int| 0 <= k < v@.len() ==> (#[trigger] v@[k].spec_id()) == k,
    {
        let v: Vec<FastFieldEnum> = vec![
            FastFieldEnum::PreComputedScore,
            FastFieldEnum::LastUpdated,
            FastFieldEnum::Region,
            FastFieldEnum::HostNodeID,
            FastFieldEnum::SimHash,
            FastFieldEnum::SiteHash1,
            FastFieldEnum::SiteHash2,
            FastFieldEnum::UrlHash1,
            FastFieldEnum::UrlHash2,
            FastFieldEnum::UrlWithoutTldHash1,
            FastFieldEnum::UrlWithoutTldHash2,
            FastFieldEnum::TitleHash1,
            FastFieldEnum::TitleHash2,
        ];
        v
    }

    /// The name the field is registered under in segment metadata.
    pub open spec fn spec_name(self) -> Seq<char> {
        match self {
            FastFieldEnum::PreComputedScore => "pre_computed_score"@,
            FastFieldEnum::LastUpdated => "last_updated"@,
            FastFieldEnum::Region => "region"@,
            FastFieldEnum::HostNodeID => "host_node_id"@,
            FastFieldEnum::SimHash => "simhash"@,
            FastFieldEnum::SiteHash1 => "site_hash1"@,
            FastFieldEnum::SiteHash2 => "site_hash2"@,
            FastFieldEnum::UrlHash1 => "url_hash1"@,
            FastFieldEnum::UrlHash2 => "url_hash2"@,
            FastFieldEnum::UrlWithoutTldHash1 => "url_without_tld_hash1"@,
            FastFieldEnum::UrlWithoutTldHash2 => "url_without_tld_hash2"@,
            FastFieldEnum::TitleHash1 => "title_hash1"@,
            FastFieldEnum::TitleHash2 => "title_hash2"@,
        }
    }

    pub fn name(&self) -> (r: &'static str)
        ensures
            r@ == self.spec_name(),
    {
        match self {
            FastFieldEnum::PreComputedScore => "pre_computed_score",
            FastFieldEnum::LastUpdated => "last_updated",
            FastFieldEnum::Region => "region",
            FastFieldEnum::HostNodeID => "host_node_id",
            FastFieldEnum::SimHash => "simhash",
            FastFieldEnum::SiteHash1 => "site_hash1",
            FastFieldEnum::SiteHash2 => "site_hash2",
            FastFieldEnum::UrlHash1 => "url_hash1",
            FastFieldEnum::UrlHash2 => "url_hash2",
            FastFieldEnum::UrlWithoutTldHash1 => "url_without_tld_hash1",
            FastFieldEnum::UrlWithoutTldHash2 => "url_without_tld_hash2",
            FastFieldEnum::TitleHash1 => "title_hash1",
            FastFieldEnum::TitleHash2 => "title_hash2",
        }
    }
}

impl Field {
    /// The dense identifier of this field: text fields first, fast fields
    /// after them.
    pub open spec fn spec_id(self) -> int {
        match self {
            Field::Text(t) => t.spec_id(),
            Field::Fast(f) => f.spec_id() + NUM_TEXT_FIELDS,
        }
    }

    pub fn get(field_id: usize) -> (r: Option<Field>)
        ensures
            r.is_some() <==> field_id < NUM_FIELDS,
            r.is_some() ==> r.unwrap().spec_id() == field_id,
    {
        if field_id < NUM_TEXT_FIELDS {
            match TextFieldEnum::get(field_id) {
                Some(t) => Some(Field::Text(t)),
                None => None,
            }
        } else if field_id < NUM_FIELDS {
            match FastFieldEnum::get(field_id - NUM_TEXT_FIELDS) {
                Some(f) => Some(Field::Fast(f)),
                None => None,
            }
        } else {
            None
        }
    }

    /// Every field of the schema, ordered by identifier.
    pub fn all() -> (v: Vec<Field>)
        ensures
            v@.len() == NUM_FIELDS,
            forall|k: int| 0 <= k < v@.len() ==> (#[trigger] v@[k].spec_id()) == k,
    {
        let mut v: Vec<Field> = Vec::new();
        let texts = TextFieldEnum::all();
        let mut i: usize = 0;
        while i < texts.len()
            invariant
                i <= texts@.len(),
                texts@.len() == NUM_TEXT_FIELDS,
                forall|k: int| 0 <= k < texts@.len() ==> (#[trigger] texts@[k].spec_id()) == k,
                v@.len() == i,
                forall|k: int| 0 <= k < v@.len() ==> (#[trigger] v@[k].spec_id()) == k,
            decreases texts@.len() - i,
        {
            v.push(Field::Text(texts[i]));
            i = i + 1;
        }
        let fasts = FastFieldEnum::all();
        let mut j: usize = 0;
        while j < fasts.len()
            invariant
                j <= fasts@.len(),
                fasts@.len() == NUM_FAST_FIELDS,
                forall|k: int| 0 <= k < fasts@.len() ==> (#[trigger] fasts@[k].spec_id()) == k,
                v@.len() == NUM_TEXT_FIELDS + j,
                forall|k: int| 0 <= k < v@.len() ==> (#[trigger] v@[k].spec_id()) == k,
            decreases fasts@.len() - j,
        {
            v.push(Field::Fast(fasts[j]));
            j = j + 1;
        }
        v
    }

    pub open spec fn spec_has_pos(self) -> bool {
        match self {
            Field::Fast(_) => false,
            Field::Text(t) => t.spec_has_pos(),
        }
    }

    pub fn has_pos(&self) -> (r: bool)
        ensures
            r == self.spec_has_pos(),
    {
        match self {
            Field::Fast(_) => false,
            Field::Text(t) => t.has_pos(),
        }
    }

    pub open spec fn spec_name(self) -> Seq<char> {
        match self {
            Field::Text(t) => t.spec_name(),
            Field::Fast(f) => f.spec_name(),
        }
    }

    pub fn name(&self) -> (r: &'static str)
        ensures
            r@ == self.spec_name(),
    {
        match self {
            Field::Text(t) => t.name(),
            Field::Fast(f) => f.name(),
        }
    }

    pub open spec fn spec_is_searchable(self) -> bool {
        match self {
            Field::Fast(_) => false,
            Field::Text(t) => t.spec_is_searchable(),
        }
    }

    pub fn is_searchable(&self) -> (r: bool)
        ensures
            r == self.spec_is_searchable(),
    {
        match self {
            Field::Fast(_) => false,
            Field::Text(t) => t.is_searchable(),
        }
    }

    pub fn as_text(&self) -> (r: Option<TextFieldEnum>)
        ensures
            r == (match *self {
                Field::Text(t) => Some(t),
                Field::Fast(_) => None::<TextFieldEnum>,
            }),
    {
        match self {
            Field::Fast(_) => None,
            Field::Text(t) => Some(*t),
        }
    }

    pub fn as_fast(&self) -> (r: Option<FastFieldEnum>)
        ensures
            r == (match *self {
                Field::Fast(f) => Some(f),
                Field::Text(_) => None::<FastFieldEnum>,
            }),
    {
        match self {
            Field::Fast(f) => Some(*f),
            Field::Text(_) => None,
        }
    }
}

} // verus!
