//! Crawler-side identities: the domain a job crawls and the textual form a
//! URL travels under between crawler components.

use vstd::prelude::*;

verus! {

/// A registrable domain. All URLs of one crawl job share it, so one job
/// per domain keeps the crawler polite.
#[derive(Debug, Clone, PartialEq, Eq, PartialOrd, Ord, Hash)]
pub struct Domain(String);

impl Domain {
    /// The domain's text.
    pub closed spec fn spec_str(&self) -> Seq<char> {
        self.0@
    }

    pub fn from_text(s: &str) -> (r: Domain)
        ensures
            r.spec_str() == s@,
    {
        Domain(s.to_owned())
    }

    pub fn as_str(&self) -> (r: &str)
        ensures
            r@ == self.spec_str(),
    {
        self.0.as_str()
    }
}

/// The textual form of a URL, as it is carried between crawler components.
#[derive(Debug, Clone, PartialEq, Eq, PartialOrd, Ord, Hash)]
pub struct UrlString(String);

impl UrlString {
    /// The URL's text.
    pub closed spec fn spec_str(&self) -> Seq<char> {
        self.0@
    }

    pub fn from_text(s: &str) -> (r: UrlString)
        ensures
            r.spec_str() == s@,
    {
        UrlString(s.to_owned())
    }

    pub fn as_str(&self) -> (r: &str)
        ensures
            r@ == self.spec_str(),
    {
        self.0.as_str()
    }
}

} // verus!
