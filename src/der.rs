//! Reading DER tag-length-value elements, never past the enclosing element.

use vstd::prelude::*;
use crate::error::{DecodeError, Found};

verus! {

pub const TAG_BOOLEAN: u8 = 0x01;
pub const TAG_INTEGER: u8 = 0x02;
pub const TAG_BIT_STRING: u8 = 0x03;
pub const TAG_OCTET_STRING: u8 = 0x04;
pub const TAG_NULL: u8 = 0x05;
pub const TAG_OID: u8 = 0x06;
pub const TAG_UTC_TIME: u8 = 0x17;
pub const TAG_GENERALIZED_TIME: u8 = 0x18;
pub const TAG_SEQUENCE: u8 = 0x30;
pub const TAG_SET: u8 = 0x31;

/// Big-endian unsigned value of a byte string.
pub open spec fn be_value(s: Seq<u8>) -> nat
    decreases s.len(),
{
    if s.len() == 0 {
        0
    } else {
        be_value(s.drop_last()) * 256 + s.last() as nat
    }
}

/// One element as located in the input: its tag byte, where its content starts,
/// and how many bytes the content has.
#[derive(Debug, Clone, Copy, PartialEq, Eq, Structural)]
pub struct Tlv {
    pub tag: u8,
    pub start: usize,
    pub len: usize,
}

impl Tlv {
    /// The position just after the element.
    pub open spec fn end(self) -> int {
        self.start + self.len
    }
}

/// The length field that starts at `p` (after the tag byte), read within `s[..end]`:
/// `Some((content start, content length))`, or `None` when it is malformed.
/// A long form takes one to four length bytes; the indefinite form is refused.
pub open spec fn length_field(s: Seq<u8>, p: int, end: int) -> Option<(int, int)> {
    if p >= end {
        None
    } else if s[p] < 0x80 {
        Some((p + 1, s[p] as int))
    } else {
        let k = s[p] - 0x80;
        if k < 1 || k > 4 || p + 1 + k > end {
            None
        } else {
            Some((p + 1 + k, be_value(s.subrange(p + 1, p + 1 + k)) as int))
        }
    }
}

/// The element that starts at `pos` within `s[..end]`, if it is well formed
/// and its content ends no later than `end`. Tags of the high-number form are refused.
pub open spec fn tlv_at(s: Seq<u8>, pos: int, end: int) -> Result<Tlv, Found> {
    if pos >= end {
        Err(Found::End)
    } else if s[pos] & 0x1f == 0x1f {
        Err(Found::Tag(s[pos]))
    } else {
        match length_field(s, pos + 1, end) {
            None => Err(Found::BadLength),
            Some((start, len)) => if start + len > end {
                Err(Found::BadLength)
            } else {
                Ok(Tlv { tag: s[pos], start: start as usize, len: len as usize })
            },
        }
    }
}

/// The element at `pos` with the wanted tag, or the error that names the offset,
/// the wanted tag and what stood there.
pub open spec fn expect_at(s: Seq<u8>, pos: int, end: int, tag: u8) -> Result<Tlv, DecodeError> {
    match tlv_at(s, pos, end) {
        Err(f) => Err(DecodeError::DerStructureError { offset: pos as usize, expected: tag, found: f }),
        Ok(t) => if t.tag == tag {
            Ok(t)
        } else {
            Err(DecodeError::DerStructureError { offset: pos as usize, expected: tag, found: Found::Tag(t.tag) })
        },
    }
}

pub proof fn lemma_be_value_bound(s: Seq<u8>)
    ensures
        be_value(s) < pow256(s.len()),
    decreases s.len(),
{
    if s.len() > 0 {
        lemma_be_value_bound(s.drop_last());
        let a = be_value(s.drop_last());
        let b = pow256((s.len() - 1) as nat);
        assert(a * 256 + (s.last() as nat) < b * 256) by (nonlinear_arith)
            requires a < b, s.last() < 256;
    }
}

/// `256` to the power `k`.
pub open spec fn pow256(k: nat) -> nat
    decreases k,
{
    if k == 0 { 1 } else { 256 * pow256((k - 1) as nat) }
}

/// Reads the element at `pos` within `b[..end]`.
pub fn read_tlv(b: &[u8], pos: usize, end: usize) -> (r: Result<Tlv, Found>)
    requires
        end <= b@.len(),
    ensures
        r == tlv_at(b@, pos as int, end as int),
        r is Ok ==> r->Ok_0.end() <= end,
{
    if pos >= end {
        return Err(Found::End);
    }
    let tag = b[pos];
    if tag & 0x1f == 0x1f {
        return Err(Found::Tag(tag));
    }
    let p = pos + 1;
    if p >= end {
        return Err(Found::BadLength);
    }
    let l0 = b[p];
    let start: usize;
    let len: usize;
    if l0 < 0x80 {
        start = p + 1;
        len = l0 as usize;
    } else {
        let k = (l0 - 0x80) as usize;
        if k < 1 || k > 4 || k > end - (p + 1) {
            return Err(Found::BadLength);
        }
        let mut v: u64 = 0;
        let mut j: usize = p + 1;
        while j < p + 1 + k
            invariant
                p + 1 <= j <= p + 1 + k <= end <= b@.len(),
                1 <= k <= 4,
                v == be_value(b@.subrange(p + 1, j as int)),
            decreases p + 1 + k - j,
        {
            proof {
                lemma_be_value_bound(b@.subrange(p + 1, j as int));
                assert(pow256((j - (p + 1)) as nat) <= pow256(3)) by {
                    lemma_pow256_mono((j - (p + 1)) as nat, 3);
                }
                assert(pow256(0) == 1);
                assert(pow256(1) == 256);
                assert(pow256(2) == 65536);
                assert(pow256(3) == 16777216);
            }
            v = v * 256 + b[j] as u64;
            j = j + 1;
            assert(b@.subrange(p + 1, j as int).drop_last() =~= b@.subrange(p + 1, j - 1));
        }
        start = p + 1 + k;
        if v > (end - start) as u64 {
            return Err(Found::BadLength);
        }
        len = v as usize;
    }
    if len > end - start {
        return Err(Found::BadLength);
    }
    Ok(Tlv { tag, start, len })
}

pub proof fn lemma_pow256_mono(a: nat, b: nat)
    requires
        a <= b,
    ensures
        pow256(a) <= pow256(b),
    decreases b,
{
    if a < b {
        lemma_pow256_mono(a, (b - 1) as nat);
    }
}

/// Reads the element at `pos` within `b[..end]` and checks its tag.
pub fn expect(b: &[u8], pos: usize, end: usize, tag: u8) -> (r: Result<Tlv, DecodeError>)
    requires
        end <= b@.len(),
    ensures
        r == expect_at(b@, pos as int, end as int, tag),
        r is Ok ==> r->Ok_0.end() <= end,
{
    match read_tlv(b, pos, end) {
        Err(f) => Err(DecodeError::DerStructureError { offset: pos, expected: tag, found: f }),
        Ok(t) => if t.tag == tag {
            Ok(t)
        } else {
            Err(DecodeError::DerStructureError { offset: pos, expected: tag, found: Found::Tag(t.tag) })
        },
    }
}

/// Whether a byte slice holds exactly the bytes of `p`.
pub fn same_bytes(s: &[u8], p: &Vec<u8>) -> (r: bool)
    ensures
        r == (s@ == p@),
{
    if s.len() != p.len() {
        return false;
    }
    let mut i: usize = 0;
    while i < p.len()
        invariant
            s@.len() == p@.len(),
            i <= p@.len(),
            s@.take(i as int) == p@.take(i as int),
        decreases p@.len() - i,
    {
        if s[i] != p[i] {
            return false;
        }
        i = i + 1;
        assert(s@.take(i as int) =~= p@.take(i as int));
    }
    assert(s@ =~= s@.take(i as int));
    assert(p@ =~= p@.take(i as int));
    true
}

/// A copy of `b[lo..hi]`.
pub fn copy_range(b: &[u8], lo: usize, hi: usize) -> (r: Vec<u8>)
    requires
        lo <= hi <= b@.len(),
    ensures
        r@ == b@.subrange(lo as int, hi as int),
{
    let mut r: Vec<u8> = Vec::new();
    let mut i = lo;
    while i < hi
        invariant
            lo <= i <= hi <= b@.len(),
            r@ == b@.subrange(lo as int, i as int),
        decreases hi - i,
    {
        r.push(b[i]);
        i = i + 1;
        assert(r@ =~= b@.subrange(lo as int, i as int));
    }
    r
}

} // verus!

verus! {

/// `256^7` is `2^56`.
pub proof fn lemma_pow256_seven()
    ensures
        pow256(7) == 0x100_0000_0000_0000,
{
    assert(pow256(0) == 1);
    assert(pow256(1) == 256);
    assert(pow256(2) == 65536);
    assert(pow256(3) == 16777216);
    assert(pow256(4) == 4294967296);
    assert(pow256(5) == 1099511627776);
    assert(pow256(6) == 281474976710656);
}

} // verus!
