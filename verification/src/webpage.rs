//! Webpage-level data: URL canonicalization (strip the fragment, lowercase
//! the host), the region a page belongs to, and the primary image stored
//! with a page.

use vstd::prelude::*;

use crate::tokenizer::{lower_byte, lower_bytes};

verus! {

/// First position at or after `i` where `s` holds the byte `b`, or the
/// length of `s` if there is none.
pub open spec fn find_from(s: Seq<u8>, i: int, b: u8) -> int
    decreases s.len() - i,
{
    if !(0 <= i < s.len()) {
        s.len() as int
    } else if s[i] == b {
        i
    } else {
        find_from(s, i + 1, b)
    }
}

/// First position at or after `i` where `s` holds the scheme separator
/// `"://"`, or the length of `s` if there is none.
pub open spec fn sep_from(s: Seq<u8>, i: int) -> int
    decreases s.len() - i,
{
    if !(0 <= i && i + 2 < s.len()) {
        s.len() as int
    } else if s[i] == 58 && s[i + 1] == 47 && s[i + 2] == 47 {
        i
    } else {
        sep_from(s, i + 1)
    }
}

/// Where the host of a fragment-free URL begins: after the `"://"` scheme
/// separator, or at the start if there is no scheme.
pub open spec fn host_start(s: Seq<u8>) -> int {
    if sep_from(s, 0) == s.len() {
        0
    } else {
        sep_from(s, 0) + 3
    }
}

/// Where the host of a fragment-free URL ends: at the first `/` or `?`
/// after the host begins, or at the end.
pub open spec fn host_end(s: Seq<u8>) -> int {
    let slash = find_from(s, host_start(s), 47);
    let query = find_from(s, host_start(s), 63);
    if slash <= query {
        slash
    } else {
        query
    }
}

/// `s` with the bytes of its host region lowercased.
pub open spec fn lower_host(s: Seq<u8>) -> Seq<u8> {
    Seq::new(
        s.len(),
        |i: int|
            if host_start(s) <= i < host_end(s) {
                lower_byte(s[i])
            } else {
                s[i]
            },
    )
}

/// The canonical form of a URL: everything from the first `#` on is
/// dropped, and the host is lowercased.
pub open spec fn canonical_url_spec(s: Seq<u8>) -> Seq<u8> {
    lower_host(s.take(find_from(s, 0, 35)))
}

/// Canonicalizes a URL before indexing: strips the fragment and lowercases
/// the host.
pub fn canonicalize_url(url: &[u8]) -> (r: Vec<u8>)
    ensures
        r@ == canonical_url_spec(url@),
{
    let n = url.len();

    // Find the fragment.
    let mut h: usize = 0;
    while h < n
        invariant
            0 <= h <= n,
            n == url@.len(),
            find_from(url@, 0, 35) == find_from(url@, h as int, 35),
        ensures
            0 <= h <= n,
            find_from(url@, 0, 35) == h as int,
        decreases n - h,
    {
        if url[h] == 35 {
            break ;
        }
        h = h + 1;
    }

    // Copy everything before the fragment.
    let mut t: Vec<u8> = Vec::new();
    let mut i: usize = 0;
    while i < h
        invariant
            0 <= i <= h <= n,
            n == url@.len(),
            t@ =~= url@.take(h as int).take(i as int),
        decreases h - i,
    {
        t.push(url[i]);
        proof {
            assert(t@ =~= url@.take(h as int).take(i + 1));
        }
        i = i + 1;
    }
    proof {
        assert(t@ =~= url@.take(h as int));
    }

    // Find the scheme separator.
    let m = t.len();
    let m2: usize = if m >= 3 {
        m - 2
    } else {
        0
    };
    let mut j: usize = 0;
    let mut found_sep: bool = false;
    while j < m2
        invariant_except_break
            !found_sep,
        invariant
            0 <= j <= m2,
            m2 as int == (if m >= 3 {
                m - 2
            } else {
                0
            }),
            m == t@.len(),
            sep_from(t@, 0) == sep_from(t@, j as int),
        ensures
            0 <= j,
            m == t@.len(),
            found_sep ==> j < m2 && sep_from(t@, 0) == j as int,
            !found_sep ==> sep_from(t@, 0) == m as int,
        decreases m2 - j,
    {
        if t[j] == 58 && t[j + 1] == 47 && t[j + 2] == 47 {
            found_sep = true;
            break ;
        }
        j = j + 1;
    }
    let hs: usize = if found_sep {
        j + 3
    } else {
        0
    };
    proof {
        assert(hs as int == host_start(t@));
    }

    // Find where the host ends.
    let mut k: usize = hs;
    while k < m
        invariant
            hs <= k <= m,
            m == t@.len(),
            hs as int == host_start(t@),
            find_from(t@, hs as int, 47) == find_from(t@, k as int, 47),
            find_from(t@, hs as int, 63) == find_from(t@, k as int, 63),
        ensures
            hs <= k <= m,
            k as int == host_end(t@),
        decreases m - k,
    {
        if t[k] == 47 || t[k] == 63 {
            proof {
                if t@[k as int] == 47 {
                    assert(find_from(t@, k as int, 47) == k as int);
                    assert(find_from(t@, k as int, 63) >= k as int) by {
                        lemma_find_from_ge(t@, k as int, 63);
                    }
                } else {
                    assert(find_from(t@, k as int, 63) == k as int);
                    assert(find_from(t@, k as int, 47) >= k as int) by {
                        lemma_find_from_ge(t@, k as int, 47);
                    }
                }
            }
            break ;
        }
        k = k + 1;
    }

    // Lowercase the host region.
    let mut r: Vec<u8> = Vec::new();
    let mut p: usize = 0;
    while p < m
        invariant
            0 <= p <= m,
            m == t@.len(),
            hs as int == host_start(t@),
            k as int == host_end(t@),
            hs <= k <= m,
            r@.len() == p,
            forall|q: int| 0 <= q < p ==> r@[q] == lower_host(t@)[q],
        decreases m - p,
    {
        if hs <= p && p < k {
            r.push(crate::tokenizer::lower_byte_x(t[p]));
        } else {
            r.push(t[p]);
        }
        p = p + 1;
    }
    proof {
        assert(r@ =~= lower_host(t@));
    }
    r
}

/// The lowercased host of a URL: the bytes between the scheme separator
/// and the first `/` or `?`, fragment stripped first.
pub open spec fn host_of_url_spec(s: Seq<u8>) -> Seq<u8> {
    let t = s.take(find_from(s, 0, 35));
    lower_bytes(t.subrange(host_start(t), host_end(t)))
}

/// Extracts the lowercased host of a URL.
pub fn host_of_url(url: &[u8]) -> (r: Vec<u8>)
    ensures
        r@ == host_of_url_spec(url@),
{
    let canon = canonicalize_url(url);
    let ghost t = url@.take(find_from(url@, 0, 35));
    proof {
        lemma_find_from_ge(url@, 0, 35);
        lemma_host_bounds(t);
        lemma_lower_host_same_shape(t);
    }
    let s = canon.as_slice();
    let m = s.len();

    // Find the scheme separator in the canonical bytes.
    let m2: usize = if m >= 3 {
        m - 2
    } else {
        0
    };
    let mut j: usize = 0;
    let mut found_sep: bool = false;
    while j < m2
        invariant_except_break
            !found_sep,
        invariant
            0 <= j <= m2,
            m2 as int == (if m >= 3 {
                m - 2
            } else {
                0
            }),
            m == s@.len(),
            sep_from(s@, 0) == sep_from(s@, j as int),
        ensures
            0 <= j,
            m == s@.len(),
            found_sep ==> j < m2 && sep_from(s@, 0) == j as int,
            !found_sep ==> sep_from(s@, 0) == m as int,
        decreases m2 - j,
    {
        if s[j] == 58 && s[j + 1] == 47 && s[j + 2] == 47 {
            found_sep = true;
            break ;
        }
        j = j + 1;
    }
    let hs: usize = if found_sep {
        j + 3
    } else {
        0
    };
    proof {
        assert(hs as int == host_start(s@));
    }

    let mut k: usize = hs;
    while k < m
        invariant
            hs <= k <= m,
            m == s@.len(),
            hs as int == host_start(s@),
            find_from(s@, hs as int, 47) == find_from(s@, k as int, 47),
            find_from(s@, hs as int, 63) == find_from(s@, k as int, 63),
        ensures
            hs <= k <= m,
            k as int == host_end(s@),
        decreases m - k,
    {
        if s[k] == 47 || s[k] == 63 {
            proof {
                if s@[k as int] == 47 {
                    assert(find_from(s@, k as int, 47) == k as int);
                    assert(find_from(s@, k as int, 63) >= k as int) by {
                        lemma_find_from_ge(s@, k as int, 63);
                    }
                } else {
                    assert(find_from(s@, k as int, 63) == k as int);
                    assert(find_from(s@, k as int, 47) >= k as int) by {
                        lemma_find_from_ge(s@, k as int, 47);
                    }
                }
            }
            break ;
        }
        k = k + 1;
    }

    let mut r: Vec<u8> = Vec::new();
    let mut p: usize = hs;
    while p < k
        invariant
            hs <= p <= k <= m,
            m == s@.len(),
            hs as int == host_start(s@),
            k as int == host_end(s@),
            r@.len() == p - hs,
            forall|q: int| 0 <= q < p - hs ==> r@[q] == s@[hs + q],
        decreases k - p,
    {
        r.push(s[p]);
        p = p + 1;
    }
    proof {
        assert(canon@ == lower_host(t));
        assert(host_start(canon@) == host_start(t) && host_end(canon@) == host_end(t));
        assert(r@ =~= lower_bytes(t.subrange(host_start(t), host_end(t))));
    }
    r
}

proof fn lemma_host_bounds(t: Seq<u8>)
    ensures
        0 <= host_start(t) <= host_end(t) <= t.len(),
{
    lemma_sep_from_ge(t, 0);
    if sep_from(t, 0) == t.len() {
        lemma_find_from_ge(t, 0, 47);
        lemma_find_from_ge(t, 0, 63);
    } else {
        lemma_find_from_ge(t, sep_from(t, 0) + 3, 47);
        lemma_find_from_ge(t, sep_from(t, 0) + 3, 63);
    }
}

proof fn lemma_sep_from_ge(s: Seq<u8>, i: int)
    requires
        0 <= i <= s.len(),
    ensures
        i <= sep_from(s, i) <= s.len(),
        sep_from(s, i) < s.len() ==> sep_from(s, i) + 2 < s.len() && s[sep_from(s, i)] == 58
            && s[sep_from(s, i) + 1] == 47 && s[sep_from(s, i) + 2] == 47,
        forall|k: int|
            i <= k < sep_from(s, i) && k + 2 < s.len() ==> !((#[trigger] s[k]) == 58 && s[k + 1]
                == 47 && s[k + 2] == 47),
    decreases s.len() - i,
{
    if 0 <= i && i + 2 < s.len() && !(s[i] == 58 && s[i + 1] == 47 && s[i + 2] == 47) {
        lemma_sep_from_ge(s, i + 1);
    }
}

/// Lowercasing the host does not move the scheme separator or the host
/// delimiters, so the host region of a canonical URL is the host region of
/// its source.
proof fn lemma_lower_host_same_shape(t: Seq<u8>)
    ensures
        host_start(lower_host(t)) == host_start(t),
        host_end(lower_host(t)) == host_end(t),
{
    let c = lower_host(t);
    lemma_lower_sep_agree(t, 0);
    assert(host_start(c) == host_start(t));
    lemma_host_bounds(t);
    lemma_lower_find_agree(t, host_start(t), 47);
    lemma_lower_find_agree(t, host_start(t), 63);
}

proof fn lemma_lower_sep_agree(t: Seq<u8>, i: int)
    requires
        0 <= i <= t.len(),
    ensures
        sep_from(lower_host(t), i) == sep_from(t, i),
    decreases t.len() - i,
{
    let c = lower_host(t);
    assert(c.len() == t.len());
    if 0 <= i && i + 2 < t.len() {
        assert(c[i] == 58 <==> t[i] == 58);
        assert(c[i + 1] == 47 <==> t[i + 1] == 47);
        assert(c[i + 2] == 47 <==> t[i + 2] == 47);
        if !(t[i] == 58 && t[i + 1] == 47 && t[i + 2] == 47) {
            lemma_lower_sep_agree(t, i + 1);
        }
    }
}

proof fn lemma_lower_find_agree(t: Seq<u8>, i: int, b: u8)
    requires
        0 <= i <= t.len(),
        b == 47 || b == 63,
    ensures
        find_from(lower_host(t), i, b) == find_from(t, i, b),
    decreases t.len() - i,
{
    let c = lower_host(t);
    assert(c.len() == t.len());
    if 0 <= i && i < t.len() {
        assert(c[i] == b <==> t[i] == b);
        if t[i] != b {
            lemma_lower_find_agree(t, i + 1, b);
        }
    }
}

proof fn lemma_find_from_ge(s: Seq<u8>, i: int, b: u8)
    requires
        0 <= i <= s.len(),
    ensures
        i <= find_from(s, i, b) <= s.len(),
    decreases s.len() - i,
{
    if i < s.len() && s[i] != b {
        lemma_find_from_ge(s, i + 1, b);
    }
}

proof fn lemma_find_first(s: Seq<u8>, i: int, p: int, b: u8)
    requires
        0 <= i <= p <= s.len(),
        forall|k: int| i <= k < p ==> s[k] != b,
        p < s.len() ==> s[p] == b,
    ensures
        find_from(s, i, b) == (if p < s.len() {
            p
        } else {
            s.len() as int
        }),
    decreases p - i,
{
    if i < p {
        lemma_find_first(s, i + 1, p, b);
    }
}

/// URL-fragment stripping: a URL with a fragment appended canonicalizes to
/// the same bytes as the URL alone, so both are indexed as the same URL.
pub proof fn lemma_fragment_stripping(s: Seq<u8>, frag: Seq<u8>)
    requires
        forall|k: int| 0 <= k < s.len() ==> s[k] != 35,
    ensures
        canonical_url_spec(s + seq![35u8] + frag) == canonical_url_spec(s),
{
    let u = s + seq![35u8] + frag;
    assert(u[s.len() as int] == 35);
    lemma_find_first(u, 0, s.len() as int, 35);
    lemma_find_first(s, 0, s.len() as int, 35);
    assert(u.take(s.len() as int) =~= s);
    assert(s.take(s.len() as int) =~= s);
}

/// The region a page belongs to, stored per document as a numeric column.
#[derive(Debug, Clone, Copy, PartialEq, Eq, Structural, Hash)]
pub enum Region {
    All,
    Denmark,
    France,
    Germany,
    Spain,
    US,
}

impl Region {
    /// The numeric identifier the region is stored under.
    pub open spec fn spec_id(self) -> u64 {
        match self {
            Region::All => 0,
            Region::Denmark => 1,
            Region::France => 2,
            Region::Germany => 3,
            Region::Spain => 4,
            Region::US => 5,
        }
    }

    pub fn id(&self) -> (r: u64)
        ensures
            r == self.spec_id(),
    {
        match self {
            Region::All => 0,
            Region::Denmark => 1,
            Region::France => 2,
            Region::Germany => 3,
            Region::Spain => 4,
            Region::US => 5,
        }
    }

    /// The region stored under `id`; unknown identifiers fall back to
    /// `Region::All`.
    pub open spec fn spec_from_id(id: u64) -> Region {
        if id == 1 {
            Region::Denmark
        } else if id == 2 {
            Region::France
        } else if id == 3 {
            Region::Germany
        } else if id == 4 {
            Region::Spain
        } else if id == 5 {
            Region::US
        } else {
            Region::All
        }
    }

    pub fn from_id(id: u64) -> (r: Region)
        ensures
            r == Region::spec_from_id(id),
            r.spec_id() <= 5,
    {
        match id {
            1 => Region::Denmark,
            2 => Region::France,
            3 => Region::Germany,
            4 => Region::Spain,
            5 => Region::US,
            _ => Region::All,
        }
    }
}

impl Default for Region {
    fn default() -> (r: Self)
        ensures
            r == Region::All,
    {
        Region::All
    }
}

/// The primary image stored with a page: its identifier and the lowercased
/// terms of the image's title and description. Retrieval suppresses the
/// image when the query shares no term with them.
#[derive(Debug, Clone, PartialEq, Eq)]
pub struct StoredPrimaryImage {
    pub uuid: u128,
    pub title_terms: Vec<Vec<u8>>,
    pub description_terms: Vec<Vec<u8>>,
}

/// What a stored primary image holds, as mathematical sequences.
pub struct StoredPrimaryImageView {
    pub uuid: u128,
    pub title_terms: Seq<Seq<u8>>,
    pub description_terms: Seq<Seq<u8>>,
}

impl View for StoredPrimaryImage {
    type V = StoredPrimaryImageView;

    open spec fn view(&self) -> StoredPrimaryImageView {
        StoredPrimaryImageView {
            uuid: self.uuid,
            title_terms: self.title_terms.deep_view(),
            description_terms: self.description_terms.deep_view(),
        }
    }
}

} // verus!
