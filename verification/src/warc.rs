//! WARC record parsing: the header of each raw record is a list of
//! colon-separated lines, and one crawled page is assembled from a request
//! record (the target URL), a response record (the HTTP payload) and a
//! metadata record. Reading and gzip-decoding the archive bytes is I/O
//! and stays with the caller; the record logic is verified here.

use vstd::prelude::*;

use crate::Error;

verus! {

/// Whether `b` is ASCII whitespace, as trimmed from header lines.
pub open spec fn is_space_byte(b: u8) -> bool {
    b == 32 || b == 9 || b == 13 || b == 10
}

/// `s` with trailing ASCII whitespace removed.
pub open spec fn rtrim_spec(s: Seq<u8>) -> Seq<u8>
    decreases s.len(),
{
    if s.len() == 0 {
        s
    } else if is_space_byte(s.last()) {
        rtrim_spec(s.drop_last())
    } else {
        s
    }
}

/// Removes trailing ASCII whitespace from a header line.
pub fn rtrim(s: &mut Vec<u8>)
    ensures
        final(s)@ == rtrim_spec(old(s)@),
{
    let mut n = s.len();
    proof {
        assert(s@.take(n as int) =~= s@);
    }
    while n > 0
        invariant
            n <= s@.len(),
            rtrim_spec(s@) == rtrim_spec(s@.take(n as int)),
        ensures
            n <= s@.len(),
            rtrim_spec(s@) == rtrim_spec(s@.take(n as int)),
            n > 0 ==> !is_space_byte(s@[n - 1]),
        decreases n,
    {
        let b = s[n - 1];
        if !(b == 32 || b == 9 || b == 13 || b == 10) {
            break ;
        }
        proof {
            assert(s@.take(n as int).last() == s@[n - 1]);
            assert(s@.take(n as int).drop_last() =~= s@.take(n - 1));
        }
        n = n - 1;
    }
    proof {
        assert(rtrim_spec(s@.take(n as int)) =~= s@.take(n as int));
    }
    s.truncate(n);
}

/// The uppercase form of a byte: header keys compare case-insensitively.
pub open spec fn upper_byte(b: u8) -> u8 {
    if 97 <= b <= 122 {
        (b - 32) as u8
    } else {
        b
    }
}

/// `s` uppercased bytewise.
pub open spec fn upper_bytes(s: Seq<u8>) -> Seq<u8> {
    Seq::new(s.len(), |i: int| upper_byte(s[i]))
}

/// One raw record of a WARC archive: its header fields, keys uppercased,
/// and its content bytes.
#[derive(Debug, Clone)]
pub struct RawWarcRecord {
    pub header: Vec<(Vec<u8>, Vec<u8>)>,
    pub content: Vec<u8>,
}

/// The value stored under the uppercased header key `name`, if any.
pub open spec fn header_value(header: Seq<(Seq<u8>, Seq<u8>)>, name: Seq<u8>) -> Option<Seq<u8>>
    decreases header.len(),
{
    if header.len() == 0 {
        None
    } else if header.last().0 == name {
        Some(header.last().1)
    } else {
        header_value(header.drop_last(), name)
    }
}

/// Looks a header field up by its uppercased key.
pub fn lookup_header(record: &RawWarcRecord, name: &Vec<u8>) -> (r: Option<Vec<u8>>)
    ensures
        r.is_some() <==> header_value(crate::dht::pairs_view(record.header@), name@).is_some(),
        r.is_some() ==> r.unwrap()@ == header_value(
            crate::dht::pairs_view(record.header@),
            name@,
        ).unwrap(),
{
    let ghost hv = crate::dht::pairs_view(record.header@);
    let n = record.header.len();
    proof {
        assert(hv.take(n as int) =~= hv);
    }
    let mut i: usize = n;
    while i > 0
        invariant
            i <= n,
            n == record.header@.len(),
            hv == crate::dht::pairs_view(record.header@),
            hv.len() == n,
            header_value(hv, name@) == header_value(hv.take(i as int), name@),
        decreases i,
    {
        proof {
            assert(hv[i - 1] == (record.header@[i - 1].0@, record.header@[i - 1].1@));
            assert(hv.take(i as int).last() == hv[i - 1]);
            assert(hv.take(i as int).drop_last() =~= hv.take(i - 1));
        }
        if crate::inverted_index::bytes_eq(&record.header[i - 1].0, name) {
            return Some(crate::inverted_index::copy_bytes(&record.header[i - 1].1));
        }
        i = i - 1;
    }
    proof {
        assert(hv.take(0) =~= Seq::<(Seq<u8>, Seq<u8>)>::empty());
    }
    None
}

/// Parses one header line: the key runs to the first colon and is
/// uppercased, the value follows and is trimmed. A line without a colon
/// is malformed.
pub fn parse_header_line(line: &Vec<u8>) -> (r: Result<(Vec<u8>, Vec<u8>), Error>)
    ensures
        r.is_ok() <==> crate::webpage::find_from(line@, 0, 58) < line@.len(),
        r.is_ok() ==> r.unwrap().0@ == upper_bytes(
            line@.take(crate::webpage::find_from(line@, 0, 58)),
        ),
        r.is_ok() ==> r.unwrap().1@ == rtrim_spec(
            ltrim_spec(line@.skip(crate::webpage::find_from(line@, 0, 58) + 1)),
        ),
        r.is_err() ==> r.unwrap_err() == Error::Parse,
{
    let n = line.len();
    let mut c: usize = 0;
    while c < n
        invariant
            c <= n,
            n == line@.len(),
            crate::webpage::find_from(line@, 0, 58) == crate::webpage::find_from(line@, c as int, 58),
        ensures
            c <= n,
            crate::webpage::find_from(line@, 0, 58) == c as int,
        decreases n - c,
    {
        if line[c] == 58 {
            break ;
        }
        c = c + 1;
    }
    if c == n {
        return Err(Error::Parse);
    }
    let mut key: Vec<u8> = Vec::new();
    let mut i: usize = 0;
    while i < c
        invariant
            i <= c <= n,
            n == line@.len(),
            key@.len() == i,
            forall|q: int| 0 <= q < i ==> key@[q] == upper_bytes(line@.take(c as int))[q],
        decreases c - i,
    {
        let b = line[i];
        if 97 <= b && b <= 122 {
            key.push(b - 32);
        } else {
            key.push(b);
        }
        i = i + 1;
    }
    proof {
        assert(key@ =~= upper_bytes(line@.take(c as int)));
    }

    let mut value: Vec<u8> = Vec::new();
    let mut j: usize = c + 1;
    while j < n
        invariant
            c + 1 <= j <= n,
            n == line@.len(),
            ltrim_spec(line@.skip(c + 1)) == ltrim_spec(line@.subrange(j as int, n as int)),
        ensures
            c + 1 <= j <= n,
            ltrim_spec(line@.skip(c + 1)) == ltrim_spec(line@.subrange(j as int, n as int)),
            j < n ==> !is_space_byte(line@[j as int]),
        decreases n - j,
    {
        let b = line[j];
        if !(b == 32 || b == 9 || b == 13 || b == 10) {
            break ;
        }
        proof {
            assert(line@.subrange(j as int, n as int).first() == line@[j as int]);
            assert(line@.subrange(j as int, n as int).drop_first() =~= line@.subrange(
                j + 1,
                n as int,
            ));
        }
        j = j + 1;
    }
    let mut k: usize = j;
    while k < n
        invariant
            j <= k <= n,
            n == line@.len(),
            value@ =~= line@.subrange(j as int, k as int),
        decreases n - k,
    {
        value.push(line[k]);
        proof {
            assert(value@ =~= line@.subrange(j as int, k + 1));
        }
        k = k + 1;
    }
    proof {
        assert(value@ =~= ltrim_spec(line@.skip(c + 1)));
    }
    rtrim(&mut value);
    Ok((key, value))
}

/// `s` with leading ASCII whitespace removed.
pub open spec fn ltrim_spec(s: Seq<u8>) -> Seq<u8>
    decreases s.len(),
{
    if s.len() == 0 {
        s
    } else if is_space_byte(s.first()) {
        ltrim_spec(s.drop_first())
    } else {
        s
    }
}

/// The request half of one crawled page: the target URL.
#[derive(Debug, Clone)]
pub struct Request {
    pub url: Vec<u8>,
}

impl Request {
    /// Reads the target URL out of a request record; a record without one
    /// is malformed.
    pub fn from_raw(record: &RawWarcRecord) -> (r: Result<Request, Error>)
        ensures
            r.is_ok() <==> header_value(
                crate::dht::pairs_view(record.header@),
                target_uri_key(),
            ).is_some(),
            r.is_ok() ==> r.unwrap().url@ == header_value(
                crate::dht::pairs_view(record.header@),
                target_uri_key(),
            ).unwrap(),
            r.is_err() ==> r.unwrap_err() == Error::Parse,
    {
        let mut name: Vec<u8> = Vec::new();
        push_target_uri_key(&mut name);
        match lookup_header(record, &name) {
            Some(url) => Ok(Request { url }),
            None => Err(Error::Parse),
        }
    }
}

/// The uppercased key the target URL is stored under.
pub open spec fn target_uri_key() -> Seq<u8> {
    seq![
        87u8,
        65u8,
        82u8,
        67u8,
        45u8,
        84u8,
        65u8,
        82u8,
        71u8,
        69u8,
        84u8,
        45u8,
        85u8,
        82u8,
        73u8,
    ]
}

fn push_target_uri_key(name: &mut Vec<u8>)
    requires
        old(name)@.len() == 0,
    ensures
        final(name)@ == target_uri_key(),
{
    name.push(87);
    name.push(65);
    name.push(82);
    name.push(67);
    name.push(45);
    name.push(84);
    name.push(65);
    name.push(82);
    name.push(71);
    name.push(69);
    name.push(84);
    name.push(45);
    name.push(85);
    name.push(82);
    name.push(73);
    proof {
        assert(name@ =~= target_uri_key());
    }
}

/// The response half of one crawled page: the HTTP payload after the
/// blank line that ends the HTTP header.
#[derive(Debug, Clone)]
pub struct Response {
    pub body: Vec<u8>,
}

/// The first position where the blank line `\r\n\r\n` begins, or the
/// content length if there is none.
pub open spec fn blank_from(s: Seq<u8>, i: int) -> int
    decreases s.len() - i,
{
    if !(0 <= i && i + 3 < s.len()) {
        s.len() as int
    } else if s[i] == 13 && s[i + 1] == 10 && s[i + 2] == 13 && s[i + 3] == 10 {
        i
    } else {
        blank_from(s, i + 1)
    }
}

impl Response {
    /// Splits the HTTP body off a response record: everything after the
    /// first blank line. A record without one is malformed.
    pub fn from_raw(record: &RawWarcRecord) -> (r: Result<Response, Error>)
        ensures
            r.is_ok() <==> blank_from(record.content@, 0) < record.content@.len(),
            r.is_ok() ==> r.unwrap().body@ == record.content@.skip(
                blank_from(record.content@, 0) + 4,
            ),
            r.is_err() ==> r.unwrap_err() == Error::Parse,
    {
        let s = &record.content;
        let n = s.len();
        let n3: usize = if n >= 4 {
            n - 3
        } else {
            0
        };
        let mut i: usize = 0;
        let mut found: bool = false;
        while i < n3
            invariant_except_break
                !found,
            invariant
                0 <= i <= n3,
                n3 as int == (if n >= 4 {
                    n - 3
                } else {
                    0
                }),
                n == s@.len(),
                blank_from(s@, 0) == blank_from(s@, i as int),
            ensures
                n == s@.len(),
                found ==> i < n3 && blank_from(s@, 0) == i as int,
                !found ==> blank_from(s@, 0) == n as int,
            decreases n3 - i,
        {
            if s[i] == 13 && s[i + 1] == 10 && s[i + 2] == 13 && s[i + 3] == 10 {
                found = true;
                break ;
            }
            i = i + 1;
        }
        if !found {
            return Err(Error::Parse);
        }
        let mut body: Vec<u8> = Vec::new();
        let mut k: usize = i + 4;
        let ghost start = i + 4;
        while k < n
            invariant
                start <= k <= n || (start > n && k == start),
                start == i + 4,
                n == s@.len(),
                body@ =~= s@.subrange(
                    if start <= n {
                        start as int
                    } else {
                        n as int
                    },
                    if k <= n {
                        k as int
                    } else {
                        n as int
                    },
                ),
            decreases n - k,
        {
            body.push(s[k]);
            proof {
                assert(body@ =~= s@.subrange(start as int, k + 1));
            }
            k = k + 1;
        }
        proof {
            assert(body@ =~= s@.skip(blank_from(s@, 0) + 4));
        }
        Ok(Response { body })
    }
}

} // verus!
