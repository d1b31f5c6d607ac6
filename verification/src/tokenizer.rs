//! The registered tokenizers: the default tokenizer splits text into maximal
//! runs of word bytes and lowercases ASCII letters; the stemmed tokenizer
//! applies a plural-stripping English stem on top; the identity tokenizer
//! keeps a value as a single token. Tokens are byte strings, so multi-byte
//! characters pass through unchanged.

use vstd::prelude::*;

verus! {

/// Whether `b` belongs to a token: ASCII letters and digits do, and so does
/// every non-ASCII byte (it is part of a multi-byte character).
pub open spec fn is_token_byte(b: u8) -> bool {
    b >= 128 || (48 <= b <= 57) || (65 <= b <= 90) || (97 <= b <= 122)
}

/// `b` with an ASCII upper-case letter folded to lower case.
pub open spec fn lower_byte(b: u8) -> u8 {
    if 65 <= b <= 90 {
        (b + 32) as u8
    } else {
        b
    }
}

/// `s` with every ASCII upper-case letter folded to lower case.
pub open spec fn lower_bytes(s: Seq<u8>) -> Seq<u8> {
    Seq::new(s.len(), |i: int| lower_byte(s[i]))
}

/// The end of the token run beginning at `i`: the first position at or after
/// `i` holding a non-token byte, or the end of `s`.
pub open spec fn run_end(s: Seq<u8>, i: int) -> int
    decreases s.len() - i,
{
    if !(0 <= i < s.len()) {
        i
    } else if !is_token_byte(s[i]) {
        i
    } else {
        run_end(s, i + 1)
    }
}

proof fn lemma_run_end_bounds(s: Seq<u8>, i: int)
    requires
        0 <= i <= s.len(),
    ensures
        i <= run_end(s, i) <= s.len(),
        forall|k: int| i <= k < run_end(s, i) ==> is_token_byte(#[trigger] s[k]),
        run_end(s, i) < s.len() ==> !is_token_byte(s[run_end(s, i)]),
    decreases s.len() - i,
{
    if i < s.len() && is_token_byte(s[i]) {
        lemma_run_end_bounds(s, i + 1);
    }
}

/// The tokens of `s` from position `i` on: maximal runs of token bytes,
/// each lowercased.
pub open spec fn tokens_from(s: Seq<u8>, i: int) -> Seq<Seq<u8>>
    decreases s.len() - i,
{
    if !(0 <= i < s.len()) {
        Seq::empty()
    } else if !is_token_byte(s[i]) {
        tokens_from(s, i + 1)
    } else {
        let j = if run_end(s, i) < i + 1 {
            i + 1
        } else if run_end(s, i) > s.len() {
            s.len() as int
        } else {
            run_end(s, i)
        };
        seq![lower_bytes(s.subrange(i, j))] + tokens_from(s, j)
    }
}

/// What the default tokenizer produces on `s`.
pub open spec fn tokenize_spec(s: Seq<u8>) -> Seq<Seq<u8>> {
    tokens_from(s, 0)
}

pub fn is_token_byte_x(b: u8) -> (r: bool)
    ensures
        r == is_token_byte(b),
{
    b >= 128 || (48 <= b && b <= 57) || (65 <= b && b <= 90) || (97 <= b && b <= 122)
}

pub fn lower_byte_x(b: u8) -> (r: u8)
    ensures
        r == lower_byte(b),
{
    if 65 <= b && b <= 90 {
        b + 32
    } else {
        b
    }
}

/// Splits `text` into tokens with the default tokenizer: maximal runs of
/// token bytes, ASCII letters lowercased.
pub fn tokenize(text: &[u8]) -> (r: Vec<Vec<u8>>)
    ensures
        r.deep_view() == tokenize_spec(text@),
{
    let n = text.len();
    let mut res: Vec<Vec<u8>> = Vec::new();
    let mut i: usize = 0;
    while i < n
        invariant
            i <= n,
            n == text@.len(),
            tokens_from(text@, 0) == res.deep_view() + tokens_from(text@, i as int),
        decreases n - i,
    {
        if !is_token_byte_x(text[i]) {
            i = i + 1;
        } else {
            let ghost start = i as int;
            let mut tok: Vec<u8> = Vec::new();
            loop
                invariant
                    0 <= start <= i as int <= n,
                    n == text@.len(),
                    forall|k: int| start <= k < i as int ==> is_token_byte(#[trigger] text@[k]),
                    tok@ == lower_bytes(text@.subrange(start, i as int)),
                ensures
                    start <= i as int <= n,
                    forall|k: int| start <= k < i as int ==> is_token_byte(#[trigger] text@[k]),
                    tok@ == lower_bytes(text@.subrange(start, i as int)),
                    i as int == n || !is_token_byte(text@[i as int]),
                decreases n - i,
            {
                if i >= n {
                    break ;
                }
                if !is_token_byte_x(text[i]) {
                    break ;
                }
                tok.push(lower_byte_x(text[i]));
                proof {
                    assert(text@.subrange(start, i + 1).drop_last() =~= text@.subrange(
                        start,
                        i as int,
                    ));
                    assert(tok@ =~= lower_bytes(text@.subrange(start, i + 1)));
                }
                i = i + 1;
            }
            let ghost prev = res.deep_view();
            proof {
                lemma_run_end_agrees(text@, start, i as int);
                lemma_run_end_bounds(text@, start);
                assert(tokens_from(text@, start) == seq![lower_bytes(
                    text@.subrange(start, i as int),
                )] + tokens_from(text@, i as int));
            }
            res.push(tok);
            proof {
                assert(res.deep_view() =~~= prev.push(tok@));
                assert(prev.push(tok@) + tokens_from(text@, i as int) =~= prev + (seq![tok@]
                    + tokens_from(text@, i as int)));
            }
        }
    }
    proof {
        assert(res.deep_view() + tokens_from(text@, i as int) =~= res.deep_view());
    }
    res
}

/// If every byte of `[i, j)` is a token byte and `j` sits at the end of the
/// run, then `j` is exactly `run_end(s, i)`.
proof fn lemma_run_end_agrees(s: Seq<u8>, i: int, j: int)
    requires
        0 <= i <= j <= s.len(),
        i < s.len() && is_token_byte(s[i]),
        forall|k: int| i <= k < j ==> is_token_byte(#[trigger] s[k]),
        j == s.len() || !is_token_byte(s[j]),
        i < j,
    ensures
        run_end(s, i) == j,
    decreases j - i,
{
    if i + 1 < j {
        lemma_run_end_agrees(s, i + 1, j);
    } else {
        assert(run_end(s, i) == run_end(s, i + 1));
    }
}

/// The stem of a token: a final `s` is stripped from words of four bytes or
/// more unless they end in a double `s`, so a plural and its singular share
/// one stem.
pub open spec fn stem_spec(t: Seq<u8>) -> Seq<u8> {
    if t.len() >= 4 && t.last() == 115 && t[t.len() - 2] != 115 {
        t.drop_last()
    } else {
        t
    }
}

/// Stems one token.
pub fn stem(t: &[u8]) -> (r: Vec<u8>)
    ensures
        r@ == stem_spec(t@),
{
    let mut v = vstd::slice::slice_to_vec(t);
    let n = v.len();
    if n >= 4 && v[n - 1] == 115 && v[n - 2] != 115 {
        v.pop();
    }
    v
}

/// What the stemmed tokenizer produces on `s`: the default tokens, each
/// stemmed.
pub open spec fn tokenize_stemmed_spec(s: Seq<u8>) -> Seq<Seq<u8>> {
    tokenize_spec(s).map_values(|t: Seq<u8>| stem_spec(t))
}

/// Splits `text` with the default tokenizer and stems every token.
pub fn tokenize_stemmed(text: &[u8]) -> (r: Vec<Vec<u8>>)
    ensures
        r.deep_view() == tokenize_stemmed_spec(text@),
{
    let toks = tokenize(text);
    let mut res: Vec<Vec<u8>> = Vec::new();
    let mut i: usize = 0;
    while i < toks.len()
        invariant
            i <= toks@.len(),
            toks.deep_view() == tokenize_spec(text@),
            res.deep_view() =~= toks.deep_view().subrange(0, i as int).map_values(
                |t: Seq<u8>| stem_spec(t),
            ),
        decreases toks@.len() - i,
    {
        let s = stem(toks[i].as_slice());
        let ghost prev = res.deep_view();
        res.push(s);
        proof {
            assert(toks@[i as int].deep_view() =~= toks@[i as int]@);
            assert(res.deep_view() =~~= prev.push(s@));
            assert(res.deep_view() =~= toks.deep_view().subrange(0, i + 1).map_values(
                |t: Seq<u8>| stem_spec(t),
            ));
        }
        i = i + 1;
    }
    proof {
        assert(toks.deep_view().subrange(0, toks.deep_view().len() as int) =~= toks.deep_view());
    }
    res
}

/// Stemming equivalence: a word that does not already end in `s` stems to
/// itself, and its plural with a final `s` stems to the same word, so a
/// query for either form matches a document holding the other.
pub proof fn lemma_stemming_equivalence(t: Seq<u8>)
    requires
        t.len() >= 3,
        t.last() != 115,
    ensures
        stem_spec(t.push(115)) == t,
        stem_spec(t) == t,
{
    assert(t.push(115).last() == 115);
    assert(t.push(115)[t.push(115).len() - 2] == t.last());
    assert(t.push(115).drop_last() =~= t);
}

} // verus!
