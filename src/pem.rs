//! Splitting PEM text into the certificates' DER bytes.

use base64::Engine;
use vstd::prelude::*;
use crate::error::PemFault;

verus! {

/// What the standard base64 alphabet with padding decodes `s` to, if it is valid.
pub uninterp spec fn base64_decoded(s: Seq<u8>) -> Option<Seq<u8>>;

/// The bytes of an optional vector.
pub open spec fn opt_bytes(o: Option<Vec<u8>>) -> Option<Seq<u8>> {
    match o {
        Some(v) => Some(v@),
        None => None,
    }
}

/// Relies on `base64::engine::general_purpose::STANDARD.decode`: the decoded bytes,
/// or the error's description when the input is not valid base64; the outcome
/// depends on the input alone.
#[verifier::external_body]
pub(crate) fn decode_base64(s: &[u8]) -> (r: Result<Vec<u8>, String>)
    ensures
        opt_bytes(r.ok()) == base64_decoded(s@),
{
    base64::engine::general_purpose::STANDARD.decode(s).map_err(|e| format!("{e:?}"))
}

/// The line that opens a certificate block.
pub open spec fn begin_marker() -> Seq<u8> {
    "-----BEGIN CERTIFICATE-----"@.map_values(|c: char| c as u8)
}

/// The line that closes a certificate block.
pub open spec fn end_marker() -> Seq<u8> {
    "-----END CERTIFICATE-----"@.map_values(|c: char| c as u8)
}

/// The first position at or after `i` where `pat` occurs in `s`.
pub open spec fn find(s: Seq<u8>, pat: Seq<u8>, i: int) -> Option<int>
    decreases s.len() + 1 - i,
{
    if i < 0 || i + pat.len() > s.len() {
        None
    } else if s.subrange(i, i + pat.len()) == pat {
        Some(i)
    } else {
        find(s, pat, i + 1)
    }
}

pub open spec fn is_space(b: u8) -> bool {
    b == 32 || b == 9 || b == 10 || b == 13
}

/// `s` without spaces, tabs and line breaks.
pub open spec fn strip_space(s: Seq<u8>) -> Seq<u8> {
    s.filter(|b: u8| !is_space(b))
}

/// The next block at or after `p`: `None` when no `BEGIN` marker follows;
/// otherwise the decoded body and the position after the `END` marker,
/// or why the block is malformed.
pub open spec fn pem_next(s: Seq<u8>, p: int) -> Option<Result<(Seq<u8>, int), PemFault>> {
    match find(s, begin_marker(), p) {
        None => None,
        Some(b) => {
            let body = b + begin_marker().len();
            match find(s, end_marker(), body) {
                None => Some(Err(PemFault::Unterminated)),
                Some(e) => match base64_decoded(strip_space(s.subrange(body, e))) {
                    None => Some(Err(PemFault::BadBase64)),
                    Some(d) => Some(Ok((d, e + end_marker().len()))),
                },
            }
        },
    }
}

fn marker_bytes(begin: bool) -> (r: &'static [u8])
    ensures
        r@ == if begin { begin_marker() } else { end_marker() },
        r@.len() > 0,
{
    let s = if begin { "-----BEGIN CERTIFICATE-----" } else { "-----END CERTIFICATE-----" };
    proof {
        reveal_strlit("-----BEGIN CERTIFICATE-----");
        reveal_strlit("-----END CERTIFICATE-----");
        vstd::string::is_ascii_spec_bytes(s);
    }
    let r = s.as_bytes();
    assert(r@ =~= if begin { begin_marker() } else { end_marker() });
    r
}

/// Whether `pat` occurs in `s` at `i`.
fn matches_at(s: &[u8], pat: &[u8], i: usize) -> (r: bool)
    requires
        i + pat@.len() <= s@.len(),
    ensures
        r == (s@.subrange(i as int, i + pat@.len()) == pat@),
{
    let n = s.len();
    let mut j: usize = 0;
    while j < pat.len()
        invariant
            n == s@.len(),
            i + pat@.len() <= s@.len(),
            j <= pat@.len(),
            s@.subrange(i as int, i + j) == pat@.subrange(0, j as int),
        decreases pat@.len() - j,
    {
        if s[i + j] != pat[j] {
            assert(s@.subrange(i as int, i + pat@.len())[j as int] != pat@[j as int]);
            return false;
        }
        j = j + 1;
        assert(s@.subrange(i as int, i + j) =~= pat@.subrange(0, j as int));
    }
    assert(pat@.subrange(0, j as int) =~= pat@);
    true
}

/// The first position at or after `from` where `pat` occurs in `s`.
fn find_exec(s: &[u8], pat: &[u8], from: usize) -> (r: Option<usize>)
    requires
        pat@.len() > 0,
    ensures
        match r {
            Some(i) => find(s@, pat@, from as int) == Some(i as int),
            None => find(s@, pat@, from as int) is None,
        },
{
    let mut i = from;
    if pat.len() > s.len() {
        assert(find(s@, pat@, from as int) is None);
        return None;
    }
    let n = s.len();
    while i <= n - pat.len()
        invariant
            n == s@.len(),
            0 < pat@.len() <= s@.len(),
            from <= i,
            i <= n - pat@.len() + 1 || i == from,
            find(s@, pat@, from as int) == find(s@, pat@, i as int),
        decreases s@.len() + 1 - i,
    {
        if matches_at(s, pat, i) {
            return Some(i);
        }
        i = i + 1;
    }
    None
}

/// `s[lo..hi]` without spaces, tabs and line breaks.
fn strip_space_exec(s: &[u8], lo: usize, hi: usize) -> (r: Vec<u8>)
    requires
        lo <= hi <= s@.len(),
    ensures
        r@ == strip_space(s@.subrange(lo as int, hi as int)),
{
    let mut r: Vec<u8> = Vec::new();
    let mut i = lo;
    while i < hi
        invariant
            lo <= i <= hi <= s@.len(),
            r@ == strip_space(s@.subrange(lo as int, i as int)),
        decreases hi - i,
    {
        let b = s[i];
        proof {
            let a = s@.subrange(lo as int, i as int);
            assert(s@.subrange(lo as int, i + 1) =~= a.push(b));
            a.lemma_filter_push(b, |x: u8| !is_space(x));
        }
        if !(b == 32 || b == 9 || b == 10 || b == 13) {
            r.push(b);
        }
        i = i + 1;
    }
    r
}

/// The next certificate block at or after `p`, decoded.
pub fn next_block(s: &[u8], p: usize) -> (r: Option<Result<(Vec<u8>, usize), PemFault>>)
    ensures
        match r {
            None => pem_next(s@, p as int) is None,
            Some(Err(f)) => pem_next(s@, p as int) == Some(Err::<(Seq<u8>, int), PemFault>(f)),
            Some(Ok((d, q))) => pem_next(s@, p as int) == Some(Ok::<(Seq<u8>, int), PemFault>((d@, q as int)))
                && p < q <= s@.len(),
        },
{
    let n = s.len();
    let begin = marker_bytes(true);
    let end = marker_bytes(false);
    match find_exec(s, begin, p) {
        None => {
            assert(begin@ == begin_marker());
            None
        },
        Some(b) => {
            proof { lemma_find_in_bounds(s@, begin@, p as int); }
            let body = b + begin.len();
            match find_exec(s, end, body) {
                None => Some(Err(PemFault::Unterminated)),
                Some(e) => {
                    proof { lemma_find_in_bounds(s@, end@, body as int); }
                    let text = strip_space_exec(s, body, e);
                    match decode_base64(text.as_slice()) {
                        Err(_) => Some(Err(PemFault::BadBase64)),
                        Ok(d) => Some(Ok((d, e + end.len()))),
                    }
                }
            }
        },
    }
}

proof fn lemma_find_in_bounds(s: Seq<u8>, pat: Seq<u8>, i: int)
    ensures
        find(s, pat, i) matches Some(j) ==> i <= j && j + pat.len() <= s.len(),
    decreases s.len() + 1 - i,
{
    if !(i < 0 || i + pat.len() > s.len()) && s.subrange(i, i + pat.len()) != pat {
        lemma_find_in_bounds(s, pat, i + 1);
    }
}

} // verus!
