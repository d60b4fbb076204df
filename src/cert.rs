//! The certificate data model and its DER grammar (RFC 5280, section 4.1).

use vstd::prelude::*;
use crate::error::{DecodeError, Found};
use crate::der::{Tlv, tlv_at, expect_at, read_tlv, expect, copy_range, be_value,
    TAG_BOOLEAN, TAG_INTEGER, TAG_BIT_STRING, TAG_OCTET_STRING, TAG_OID, TAG_SEQUENCE, TAG_SET};
use crate::time::{Time, parse_time, time_of};

verus! {

/// The content bytes of a located element.
pub open spec fn content(s: Seq<u8>, t: Tlv) -> Seq<u8> {
    s.subrange(t.start as int, t.end())
}

/// A raw element: its tag byte and content.
#[derive(Debug)]
pub struct Element {
    pub tag: u8,
    pub content: Vec<u8>,
}

/// An algorithm identifier: the algorithm's OID content and its optional parameter.
#[derive(Debug)]
pub struct AlgorithmIdentifier {
    pub algorithm: Vec<u8>,
    pub parameters: Option<Element>,
}

/// One attribute of a relative distinguished name: its type's OID content and its value.
#[derive(Debug)]
pub struct Attribute {
    pub attr_type: Vec<u8>,
    pub value: Element,
}

/// A distinguished name: relative distinguished names in encoded order.
#[derive(Debug)]
pub struct Name {
    pub rdns: Vec<Vec<Attribute>>,
}

/// The validity window.
#[derive(Debug, Clone, Copy)]
pub struct Validity {
    pub not_before: Time,
    pub not_after: Time,
}

/// The subject public key: its algorithm and the key bits.
#[derive(Debug)]
pub struct SubjectPublicKeyInfo {
    pub algorithm: AlgorithmIdentifier,
    pub key: Vec<u8>,
}

/// One extension as encoded: OID content, critical flag, and the value's bytes.
#[derive(Debug)]
pub struct Extension {
    pub oid: Vec<u8>,
    pub critical: bool,
    pub value: Vec<u8>,
}

/// The signed part of a certificate.
#[derive(Debug)]
pub struct TbsCertificate {
    /// The encoded version number: 0 for v1, 1 for v2, 2 for v3.
    pub version: u64,
    /// The serial number's content bytes, big-endian, as encoded.
    pub serial: Vec<u8>,
    pub signature: AlgorithmIdentifier,
    pub issuer: Name,
    pub validity: Validity,
    pub subject: Name,
    pub spki: SubjectPublicKeyInfo,
    /// Extensions in encoded order, duplicates kept.
    pub extensions: Vec<Extension>,
}

/// A decoded certificate.
#[derive(Debug)]
pub struct Certificate {
    pub tbs: TbsCertificate,
    pub signature_algorithm: AlgorithmIdentifier,
    /// The signature bits.
    pub signature_value: Vec<u8>,
}

impl TbsCertificate {
    pub open spec fn wf(self) -> bool {
        self.validity.not_before.wf() && self.validity.not_after.wf()
    }
}

impl Certificate {
    pub open spec fn wf(self) -> bool {
        self.tbs.wf()
    }
}

/// The value of a non-negative INTEGER content of at most eight bytes.
pub open spec fn small_uint(s: Seq<u8>) -> Option<nat> {
    if 1 <= s.len() <= 8 && s[0] < 128 {
        Some(be_value(s))
    } else {
        None
    }
}

/// The error for an element that stands where any element may stand.
pub open spec fn any_error(pos: int, f: Found) -> DecodeError {
    DecodeError::DerStructureError { offset: pos as usize, expected: 0, found: f }
}

/// Reads the element at `pos` within `b[..end]`, whatever its tag.
pub fn read_any(b: &[u8], pos: usize, end: usize) -> (r: Result<Tlv, DecodeError>)
    requires
        end <= b@.len(),
    ensures
        match r {
            Ok(t) => tlv_at(b@, pos as int, end as int) == Ok::<Tlv, Found>(t) && t.end() <= end,
            Err(e) => tlv_at(b@, pos as int, end as int) is Err
                && e == any_error(pos as int, tlv_at(b@, pos as int, end as int)->Err_0),
        },
{
    match read_tlv(b, pos, end) {
        Ok(t) => Ok(t),
        Err(f) => Err(DecodeError::DerStructureError { offset: pos, expected: 0, found: f }),
    }
}

proof fn lemma_be_value_small(s: Seq<u8>, k: nat)
    requires
        s.len() == k,
        k <= 7,
    ensures
        be_value(s) < 0x100_0000_0000_0000,
{
    crate::der::lemma_be_value_bound(s);
    crate::der::lemma_pow256_mono(k, 7);
    crate::der::lemma_pow256_seven();
}

/// Reads a non-negative INTEGER content of at most eight bytes.
pub fn parse_small_uint(b: &[u8], lo: usize, hi: usize) -> (r: Option<u64>)
    requires
        lo <= hi <= b@.len(),
    ensures
        match r {
            Some(v) => small_uint(b@.subrange(lo as int, hi as int)) == Some(v as nat),
            None => small_uint(b@.subrange(lo as int, hi as int)) is None,
        },
{
    if hi - lo < 1 || hi - lo > 8 || b[lo] >= 128 {
        return None;
    }
    let mut v: u64 = 0;
    let mut i = lo;
    while i < hi
        invariant
            lo <= i <= hi <= b@.len(),
            hi - lo <= 8,
            v == be_value(b@.subrange(lo as int, i as int)),
        decreases hi - i,
    {
        proof {
            lemma_be_value_small(b@.subrange(lo as int, i as int), (i - lo) as nat);
        }
        v = v * 256 + b[i] as u64;
        i = i + 1;
        assert(b@.subrange(lo as int, i as int).drop_last() =~= b@.subrange(lo as int, i - 1));
    }
    Some(v)
}

/// The end of the well-formed element at `pos` within `s[..end]`.
pub open spec fn next_of(s: Seq<u8>, pos: int, end: int) -> int {
    tlv_at(s, pos, end)->Ok_0.end()
}

/// Whether `tlv_at` finds an element with tag `tag` at `pos`.
pub open spec fn has_tag(s: Seq<u8>, pos: int, end: int, tag: u8) -> bool {
    expect_at(s, pos, end, tag) is Ok
}

/// An AlgorithmIdentifier at `pos`: a SEQUENCE holding an OID and at most
/// one more well-formed element read as the parameter.
pub open spec fn alg_ok(s: Seq<u8>, pos: int, end: int) -> bool {
    has_tag(s, pos, end, TAG_SEQUENCE) && {
        let t = tlv_at(s, pos, end)->Ok_0;
        has_tag(s, t.start as int, t.end(), TAG_OID) && {
            let o = tlv_at(s, t.start as int, t.end())->Ok_0;
            o.end() < t.end() ==> tlv_at(s, o.end(), t.end()) is Ok
        }
    }
}

/// An AttributeTypeAndValue at `q`: a SEQUENCE holding an OID and a value element.
pub open spec fn attr_ok(s: Seq<u8>, q: int, end: int) -> bool {
    has_tag(s, q, end, TAG_SEQUENCE) && {
        let a = tlv_at(s, q, end)->Ok_0;
        has_tag(s, a.start as int, a.end(), TAG_OID)
            && tlv_at(s, tlv_at(s, a.start as int, a.end())->Ok_0.end(), a.end()) is Ok
    }
}

/// Attributes one after another filling `s[q..end]`.
pub open spec fn attrs_ok(s: Seq<u8>, q: int, end: int) -> bool
    decreases end - q,
{
    if q >= end {
        true
    } else {
        attr_ok(s, q, end) && q < next_of(s, q, end) <= end && attrs_ok(s, next_of(s, q, end), end)
    }
}

/// SETs of attributes one after another filling `s[p..end]`.
pub open spec fn rdns_ok(s: Seq<u8>, p: int, end: int) -> bool
    decreases end - p,
{
    if p >= end {
        true
    } else {
        has_tag(s, p, end, TAG_SET) && {
            let t = tlv_at(s, p, end)->Ok_0;
            attrs_ok(s, t.start as int, t.end()) && p < t.end() <= end && rdns_ok(s, t.end(), end)
        }
    }
}

/// A Name at `pos`: a SEQUENCE of SETs of attributes.
pub open spec fn name_ok(s: Seq<u8>, pos: int, end: int) -> bool {
    has_tag(s, pos, end, TAG_SEQUENCE) && {
        let t = tlv_at(s, pos, end)->Ok_0;
        rdns_ok(s, t.start as int, t.end())
    }
}

/// A Validity at `pos`: a SEQUENCE of two well-formed times.
pub open spec fn validity_ok(s: Seq<u8>, pos: int, end: int) -> bool {
    has_tag(s, pos, end, TAG_SEQUENCE) && {
        let t = tlv_at(s, pos, end)->Ok_0;
        tlv_at(s, t.start as int, t.end()) is Ok && {
            let a = tlv_at(s, t.start as int, t.end())->Ok_0;
            time_of(a.tag, content(s, a)) is Some && tlv_at(s, a.end(), t.end()) is Ok && {
                let c = tlv_at(s, a.end(), t.end())->Ok_0;
                time_of(c.tag, content(s, c)) is Some
            }
        }
    }
}

/// A non-empty BIT STRING at `pos`.
pub open spec fn bits_ok(s: Seq<u8>, pos: int, end: int) -> bool {
    has_tag(s, pos, end, TAG_BIT_STRING) && tlv_at(s, pos, end)->Ok_0.len >= 1
}

/// A SubjectPublicKeyInfo at `pos`: a SEQUENCE of an AlgorithmIdentifier and a BIT STRING.
pub open spec fn spki_ok(s: Seq<u8>, pos: int, end: int) -> bool {
    has_tag(s, pos, end, TAG_SEQUENCE) && {
        let t = tlv_at(s, pos, end)->Ok_0;
        alg_ok(s, t.start as int, t.end()) && bits_ok(s, next_of(s, t.start as int, t.end()), t.end())
    }
}

/// An Extension at `pos`: a SEQUENCE of an OID, an optional one-byte BOOLEAN and an OCTET STRING.
pub open spec fn ext_ok(s: Seq<u8>, pos: int, end: int) -> bool {
    has_tag(s, pos, end, TAG_SEQUENCE) && {
        let t = tlv_at(s, pos, end)->Ok_0;
        has_tag(s, t.start as int, t.end(), TAG_OID) && {
            let p = next_of(s, t.start as int, t.end());
            tlv_at(s, p, t.end()) is Ok && {
                let c = tlv_at(s, p, t.end())->Ok_0;
                if c.tag == TAG_BOOLEAN {
                    c.len == 1 && has_tag(s, c.end(), t.end(), TAG_OCTET_STRING)
                } else {
                    has_tag(s, p, t.end(), TAG_OCTET_STRING)
                }
            }
        }
    }
}

/// Extensions one after another filling `s[p..end]`.
pub open spec fn ext_list_ok(s: Seq<u8>, p: int, end: int) -> bool
    decreases end - p,
{
    if p >= end {
        true
    } else {
        ext_ok(s, p, end) && p < next_of(s, p, end) <= end && ext_list_ok(s, next_of(s, p, end), end)
    }
}

/// The extension list at `pos`: `[3]` holding a SEQUENCE of extensions.
pub open spec fn exts_ok(s: Seq<u8>, pos: int, end: int) -> bool {
    has_tag(s, pos, end, 0xa3) && {
        let w = tlv_at(s, pos, end)->Ok_0;
        has_tag(s, w.start as int, w.end(), TAG_SEQUENCE) && {
            let t = tlv_at(s, w.start as int, w.end())->Ok_0;
            ext_list_ok(s, t.start as int, t.end())
        }
    }
}

/// Whether `s[p]` exists below `end` and equals `b`.
pub open spec fn at(s: Seq<u8>, p: int, end: int, b: u8) -> bool {
    p < end && s[p] == b
}

/// What may follow the public key in a TBSCertificate, from `p` on: the two
/// optional unique identifiers, then the optional extension list.
pub open spec fn tbs_tail_ok(s: Seq<u8>, p: int, te: int) -> bool {
    let q = if at(s, p, te, 0x81) { next_of(s, p, te) } else { p };
    let r = if at(s, q, te, 0x82) { next_of(s, q, te) } else { q };
    (at(s, p, te, 0x81) ==> tlv_at(s, p, te) is Ok)
        && (at(s, q, te, 0x82) ==> tlv_at(s, q, te) is Ok)
        && (at(s, r, te, 0xa3) ==> exts_ok(s, r, te))
}

/// The optional `[0]` version at `p`: absent, or an INTEGER of at most eight bytes.
pub open spec fn version_ok(s: Seq<u8>, p: int, te: int) -> bool {
    at(s, p, te, 0xa0) ==> has_tag(s, p, te, 0xa0) && {
        let w = tlv_at(s, p, te)->Ok_0;
        has_tag(s, w.start as int, w.end(), TAG_INTEGER)
            && small_uint(content(s, tlv_at(s, w.start as int, w.end())->Ok_0)) is Some
    }
}

/// Where the public key of a TBSCertificate ends, its serial being at `serial_at`.
pub open spec fn tbs_core_end(s: Seq<u8>, serial_at: int, te: int) -> int {
    let alg_at = next_of(s, serial_at, te);
    let issuer_at = next_of(s, alg_at, te);
    let validity_at = next_of(s, issuer_at, te);
    let subject_at = next_of(s, validity_at, te);
    let key_at = next_of(s, subject_at, te);
    next_of(s, key_at, te)
}

/// Serial, signature algorithm, issuer, validity, subject and public key, from `serial_at` on.
pub open spec fn tbs_core_ok(s: Seq<u8>, serial_at: int, te: int) -> bool {
    let alg_at = next_of(s, serial_at, te);
    let issuer_at = next_of(s, alg_at, te);
    let validity_at = next_of(s, issuer_at, te);
    let subject_at = next_of(s, validity_at, te);
    let key_at = next_of(s, subject_at, te);
    has_tag(s, serial_at, te, TAG_INTEGER) && alg_ok(s, alg_at, te) && name_ok(s, issuer_at, te) && validity_ok(s, validity_at, te)
        && name_ok(s, subject_at, te) && spki_ok(s, key_at, te)
}

/// The fields of a TBSCertificate after the version, from the serial at `serial_at` on.
pub open spec fn tbs_fields_ok(s: Seq<u8>, serial_at: int, te: int) -> bool {
    tbs_core_ok(s, serial_at, te) && tbs_tail_ok(s, tbs_core_end(s, serial_at, te), te)
}

/// A TBSCertificate at `pos`.
#[verifier::opaque]
pub open spec fn tbs_ok(s: Seq<u8>, pos: int, end: int) -> bool {
    has_tag(s, pos, end, TAG_SEQUENCE) && {
        let t = tlv_at(s, pos, end)->Ok_0;
        let version_at = t.start as int;
        let serial_at = if at(s, version_at, t.end(), 0xa0) { next_of(s, version_at, t.end()) } else { version_at };
        version_ok(s, version_at, t.end()) && tbs_fields_ok(s, serial_at, t.end())
    }
}

/// A certificate at the start of `s`: a SEQUENCE of a TBSCertificate, an
/// AlgorithmIdentifier and a non-empty BIT STRING.
pub open spec fn cert_ok(s: Seq<u8>) -> bool {
    has_tag(s, 0, s.len() as int, TAG_SEQUENCE) && {
        let c = tlv_at(s, 0, s.len() as int)->Ok_0;
        tbs_ok(s, c.start as int, c.end()) && {
            let p = next_of(s, c.start as int, c.end());
            alg_ok(s, p, c.end()) && bits_ok(s, next_of(s, p, c.end()), c.end())
        }
    }
}

/// The version a TBSCertificate whose content starts at `p` encodes: the `[0]`
/// INTEGER's value when present, else 0 (v1).
pub open spec fn version_value(s: Seq<u8>, p: int, te: int) -> nat {
    if at(s, p, te, 0xa0) {
        let w = tlv_at(s, p, te)->Ok_0;
        small_uint(content(s, tlv_at(s, w.start as int, w.end())->Ok_0))->Some_0
    } else {
        0
    }
}

/// Where the serial number of a TBSCertificate whose content starts at `p` stands.
pub open spec fn serial_pos(s: Seq<u8>, p: int, te: int) -> int {
    if at(s, p, te, 0xa0) { next_of(s, p, te) } else { p }
}

/// The content of the element at `pos`.
pub open spec fn content_at(s: Seq<u8>, pos: int, end: int) -> Seq<u8> {
    content(s, tlv_at(s, pos, end)->Ok_0)
}

/// The bits of the BIT STRING at `pos` (its content without the unused-bits byte).
pub open spec fn bits_at(s: Seq<u8>, pos: int, end: int) -> Seq<u8> {
    content_at(s, pos, end).drop_first()
}

/// The OID content, critical flag and value content of the extension at `pos`.
pub open spec fn ext_item(s: Seq<u8>, pos: int, end: int) -> (Seq<u8>, bool, Seq<u8>) {
    let t = tlv_at(s, pos, end)->Ok_0;
    let o = tlv_at(s, t.start as int, t.end())->Ok_0;
    let c = tlv_at(s, o.end(), t.end())->Ok_0;
    if c.tag == TAG_BOOLEAN {
        (content(s, o), s[c.start as int] != 0, content_at(s, c.end(), t.end()))
    } else {
        (content(s, o), false, content(s, c))
    }
}

/// The extensions encoded one after another in `s[p..end]`, in that order.
pub open spec fn ext_items(s: Seq<u8>, p: int, end: int) -> Seq<(Seq<u8>, bool, Seq<u8>)>
    decreases end - p,
{
    if p >= end || !(p < next_of(s, p, end) <= end) {
        seq![]
    } else {
        seq![ext_item(s, p, end)] + ext_items(s, next_of(s, p, end), end)
    }
}

/// An extension as the triple `ext_item` describes.
pub open spec fn ext_view(x: Extension) -> (Seq<u8>, bool, Seq<u8>) {
    (x.oid@, x.critical, x.value@)
}

/// The extensions that follow the public key at `p`, after the optional unique identifiers.
pub open spec fn tail_exts(s: Seq<u8>, p: int, te: int) -> Seq<(Seq<u8>, bool, Seq<u8>)> {
    let q = if at(s, p, te, 0x81) { next_of(s, p, te) } else { p };
    let r = if at(s, q, te, 0x82) { next_of(s, q, te) } else { q };
    if at(s, r, te, 0xa3) {
        let w = tlv_at(s, r, te)->Ok_0;
        let t = tlv_at(s, w.start as int, w.end())->Ok_0;
        ext_items(s, t.start as int, t.end())
    } else {
        seq![]
    }
}

/// The extensions of the TBSCertificate whose content is `s[p..te]`, in encoded order.
#[verifier::opaque]
pub open spec fn tbs_exts(s: Seq<u8>, p: int, te: int) -> Seq<(Seq<u8>, bool, Seq<u8>)> {
    tail_exts(s, tbs_core_end(s, serial_pos(s, p, te), te), te)
}

/// What a certificate decoded from `b` holds of it: version, serial, issuer,
/// validity, subject, public key, signature algorithm, signature bits and
/// extensions, each as the bytes encode it.
#[verifier::opaque]
pub open spec fn decoded_from(c: Certificate, b: Seq<u8>) -> bool {
    let o = tlv_at(b, 0, b.len() as int)->Ok_0;
    let t = tlv_at(b, o.start as int, o.end())->Ok_0;
    let a = next_of(b, o.start as int, o.end());
    let sa = tlv_at(b, a, o.end())->Ok_0;
    &&& c.wf()
    &&& c.tbs.version == version_value(b, t.start as int, t.end())
    &&& c.tbs.serial@ == content_at(b, serial_pos(b, t.start as int, t.end()), t.end())
    &&& c.signature_algorithm.algorithm@ == content_at(b, sa.start as int, sa.end())
    &&& c.signature_value@ == bits_at(b, next_of(b, a, o.end()), o.end())
    &&& c.tbs.extensions@.map_values(|e: Extension| ext_view(e)) == tbs_exts(b, t.start as int, t.end())
    &&& tbs_decoded(c.tbs, b, t.start as int, t.end())
}

/// An attribute as its type's OID content, its value's tag and its value's content.
pub type AttrView = (Seq<u8>, u8, Seq<u8>);

pub open spec fn attr_view(a: Attribute) -> AttrView {
    (a.attr_type@, a.value.tag, a.value.content@)
}

pub open spec fn rdn_view(r: Vec<Attribute>) -> Seq<AttrView> {
    r@.map_values(|a: Attribute| attr_view(a))
}

/// A name as its relative distinguished names, each a sequence of attributes.
pub open spec fn name_view(n: Name) -> Seq<Seq<AttrView>> {
    n.rdns@.map_values(|r: Vec<Attribute>| rdn_view(r))
}

/// The attribute at `q`.
pub open spec fn attr_item(s: Seq<u8>, q: int, end: int) -> AttrView {
    let a = tlv_at(s, q, end)->Ok_0;
    let o = tlv_at(s, a.start as int, a.end())->Ok_0;
    let v = tlv_at(s, o.end(), a.end())->Ok_0;
    (content(s, o), v.tag, content(s, v))
}

/// The attributes encoded one after another in `s[q..end]`.
pub open spec fn attr_items(s: Seq<u8>, q: int, end: int) -> Seq<AttrView>
    decreases end - q,
{
    if q >= end || !(q < next_of(s, q, end) <= end) {
        seq![]
    } else {
        seq![attr_item(s, q, end)] + attr_items(s, next_of(s, q, end), end)
    }
}

/// The SETs of attributes encoded one after another in `s[p..end]`.
pub open spec fn rdn_items(s: Seq<u8>, p: int, end: int) -> Seq<Seq<AttrView>>
    decreases end - p,
{
    if p >= end || !(p < next_of(s, p, end) <= end) {
        seq![]
    } else {
        let t = tlv_at(s, p, end)->Ok_0;
        seq![attr_items(s, t.start as int, t.end())] + rdn_items(s, next_of(s, p, end), end)
    }
}

/// The name encoded at `pos`.
pub open spec fn name_items(s: Seq<u8>, pos: int, end: int) -> Seq<Seq<AttrView>> {
    let t = tlv_at(s, pos, end)->Ok_0;
    rdn_items(s, t.start as int, t.end())
}

/// The two times of the Validity at `pos`.
pub open spec fn validity_times(s: Seq<u8>, pos: int, end: int) -> (Time, Time) {
    let t = tlv_at(s, pos, end)->Ok_0;
    let a = tlv_at(s, t.start as int, t.end())->Ok_0;
    let c = tlv_at(s, a.end(), t.end())->Ok_0;
    (time_of(a.tag, content(s, a))->Some_0, time_of(c.tag, content(s, c))->Some_0)
}

/// The key bits of the SubjectPublicKeyInfo at `pos`.
pub open spec fn spki_key(s: Seq<u8>, pos: int, end: int) -> Seq<u8> {
    let t = tlv_at(s, pos, end)->Ok_0;
    bits_at(s, next_of(s, t.start as int, t.end()), t.end())
}

/// The algorithm OID content of the SubjectPublicKeyInfo at `pos`.
pub open spec fn spki_alg(s: Seq<u8>, pos: int, end: int) -> Seq<u8> {
    let t = tlv_at(s, pos, end)->Ok_0;
    let a = tlv_at(s, t.start as int, t.end())->Ok_0;
    content_at(s, a.start as int, a.end())
}

/// The error for the element at `pos` that tlv_at refuses.
pub open spec fn elem_err(s: Seq<u8>, pos: int, end: int) -> DecodeError {
    any_error(pos, tlv_at(s, pos, end)->Err_0)
}

/// The error for the element at `pos` that lacks tag `tag`.
pub open spec fn exp_err(s: Seq<u8>, pos: int, end: int, tag: u8) -> DecodeError {
    expect_at(s, pos, end, tag)->Err_0
}

/// The error for content that does not have the form its tag requires.
pub open spec fn content_err(pos: int, tag: u8) -> DecodeError {
    DecodeError::DerStructureError { offset: pos as usize, expected: tag, found: Found::BadContent }
}

/// The error the AlgorithmIdentifier at `pos` gives when `alg_ok` fails.
pub open spec fn alg_err(s: Seq<u8>, pos: int, end: int) -> DecodeError {
    if !has_tag(s, pos, end, TAG_SEQUENCE) {
        exp_err(s, pos, end, TAG_SEQUENCE)
    } else {
        let t = tlv_at(s, pos, end)->Ok_0;
        if !has_tag(s, t.start as int, t.end(), TAG_OID) {
            exp_err(s, t.start as int, t.end(), TAG_OID)
        } else {
            elem_err(s, next_of(s, t.start as int, t.end()), t.end())
        }
    }
}

/// The error the attribute at `q` gives when `attr_ok` fails.
pub open spec fn attr_err(s: Seq<u8>, q: int, end: int) -> DecodeError {
    if !has_tag(s, q, end, TAG_SEQUENCE) {
        exp_err(s, q, end, TAG_SEQUENCE)
    } else {
        let a = tlv_at(s, q, end)->Ok_0;
        if !has_tag(s, a.start as int, a.end(), TAG_OID) {
            exp_err(s, a.start as int, a.end(), TAG_OID)
        } else {
            elem_err(s, next_of(s, a.start as int, a.end()), a.end())
        }
    }
}

/// The first error among the attributes in `s[q..end]` when `attrs_ok` fails.
pub open spec fn attrs_err(s: Seq<u8>, q: int, end: int) -> DecodeError
    decreases end - q,
{
    if q >= end || !attr_ok(s, q, end) || !(q < next_of(s, q, end) <= end) {
        attr_err(s, q, end)
    } else {
        attrs_err(s, next_of(s, q, end), end)
    }
}

/// The first error among the SETs in `s[p..end]` when `rdns_ok` fails.
pub open spec fn rdns_err(s: Seq<u8>, p: int, end: int) -> DecodeError
    decreases end - p,
{
    if p >= end || !has_tag(s, p, end, TAG_SET) {
        exp_err(s, p, end, TAG_SET)
    } else {
        let t = tlv_at(s, p, end)->Ok_0;
        if !attrs_ok(s, t.start as int, t.end()) || !(p < t.end() <= end) {
            attrs_err(s, t.start as int, t.end())
        } else {
            rdns_err(s, t.end(), end)
        }
    }
}

/// The error the Name at `pos` gives when `name_ok` fails.
pub open spec fn name_err(s: Seq<u8>, pos: int, end: int) -> DecodeError {
    if !has_tag(s, pos, end, TAG_SEQUENCE) {
        exp_err(s, pos, end, TAG_SEQUENCE)
    } else {
        let t = tlv_at(s, pos, end)->Ok_0;
        rdns_err(s, t.start as int, t.end())
    }
}

/// The error the Validity at `pos` gives when `validity_ok` fails.
pub open spec fn validity_err(s: Seq<u8>, pos: int, end: int) -> DecodeError {
    if !has_tag(s, pos, end, TAG_SEQUENCE) {
        exp_err(s, pos, end, TAG_SEQUENCE)
    } else {
        let t = tlv_at(s, pos, end)->Ok_0;
        if tlv_at(s, t.start as int, t.end()) is Err {
            elem_err(s, t.start as int, t.end())
        } else {
            let a = tlv_at(s, t.start as int, t.end())->Ok_0;
            if time_of(a.tag, content(s, a)) is None {
                content_err(a.start as int, a.tag)
            } else if tlv_at(s, a.end(), t.end()) is Err {
                elem_err(s, a.end(), t.end())
            } else {
                let c = tlv_at(s, a.end(), t.end())->Ok_0;
                content_err(c.start as int, c.tag)
            }
        }
    }
}

/// The error the BIT STRING at `pos` gives when `bits_ok` fails.
pub open spec fn bits_err(s: Seq<u8>, pos: int, end: int) -> DecodeError {
    if !has_tag(s, pos, end, TAG_BIT_STRING) {
        exp_err(s, pos, end, TAG_BIT_STRING)
    } else {
        content_err(tlv_at(s, pos, end)->Ok_0.start as int, TAG_BIT_STRING)
    }
}

/// The error the SubjectPublicKeyInfo at `pos` gives when `spki_ok` fails.
pub open spec fn spki_err(s: Seq<u8>, pos: int, end: int) -> DecodeError {
    if !has_tag(s, pos, end, TAG_SEQUENCE) {
        exp_err(s, pos, end, TAG_SEQUENCE)
    } else {
        let t = tlv_at(s, pos, end)->Ok_0;
        if !alg_ok(s, t.start as int, t.end()) {
            alg_err(s, t.start as int, t.end())
        } else {
            bits_err(s, next_of(s, t.start as int, t.end()), t.end())
        }
    }
}

/// The error the Extension at `pos` gives when `ext_ok` fails.
pub open spec fn ext_err(s: Seq<u8>, pos: int, end: int) -> DecodeError {
    if !has_tag(s, pos, end, TAG_SEQUENCE) {
        exp_err(s, pos, end, TAG_SEQUENCE)
    } else {
        let t = tlv_at(s, pos, end)->Ok_0;
        if !has_tag(s, t.start as int, t.end(), TAG_OID) {
            exp_err(s, t.start as int, t.end(), TAG_OID)
        } else {
            let p = next_of(s, t.start as int, t.end());
            if tlv_at(s, p, t.end()) is Err {
                elem_err(s, p, t.end())
            } else {
                let c = tlv_at(s, p, t.end())->Ok_0;
                if c.tag == TAG_BOOLEAN {
                    if c.len != 1 {
                        content_err(p, TAG_BOOLEAN)
                    } else {
                        exp_err(s, c.end(), t.end(), TAG_OCTET_STRING)
                    }
                } else {
                    exp_err(s, p, t.end(), TAG_OCTET_STRING)
                }
            }
        }
    }
}

/// The first error among the extensions in `s[p..end]` when `ext_list_ok` fails.
pub open spec fn ext_list_err(s: Seq<u8>, p: int, end: int) -> DecodeError
    decreases end - p,
{
    if p >= end || !ext_ok(s, p, end) || !(p < next_of(s, p, end) <= end) {
        ext_err(s, p, end)
    } else {
        ext_list_err(s, next_of(s, p, end), end)
    }
}

/// The error the extension list at `pos` gives when `exts_ok` fails.
pub open spec fn exts_err(s: Seq<u8>, pos: int, end: int) -> DecodeError {
    if !has_tag(s, pos, end, 0xa3) {
        exp_err(s, pos, end, 0xa3)
    } else {
        let w = tlv_at(s, pos, end)->Ok_0;
        if !has_tag(s, w.start as int, w.end(), TAG_SEQUENCE) {
            exp_err(s, w.start as int, w.end(), TAG_SEQUENCE)
        } else {
            let t = tlv_at(s, w.start as int, w.end())->Ok_0;
            ext_list_err(s, t.start as int, t.end())
        }
    }
}

/// The error the version at `p` gives when `version_ok` fails.
pub open spec fn version_err(s: Seq<u8>, p: int, te: int) -> DecodeError {
    if !has_tag(s, p, te, 0xa0) {
        exp_err(s, p, te, 0xa0)
    } else {
        let w = tlv_at(s, p, te)->Ok_0;
        if !has_tag(s, w.start as int, w.end(), TAG_INTEGER) {
            exp_err(s, w.start as int, w.end(), TAG_INTEGER)
        } else {
            content_err(w.start as int, TAG_INTEGER)
        }
    }
}

/// The first error among the fields from the serial at `serial_at` to the public key.
pub open spec fn core_err(s: Seq<u8>, serial_at: int, te: int) -> DecodeError {
    let alg_at = next_of(s, serial_at, te);
    let issuer_at = next_of(s, alg_at, te);
    let validity_at = next_of(s, issuer_at, te);
    let subject_at = next_of(s, validity_at, te);
    let key_at = next_of(s, subject_at, te);
    if !has_tag(s, serial_at, te, TAG_INTEGER) { exp_err(s, serial_at, te, TAG_INTEGER) }
    else if !alg_ok(s, alg_at, te) { alg_err(s, alg_at, te) }
    else if !name_ok(s, issuer_at, te) { name_err(s, issuer_at, te) }
    else if !validity_ok(s, validity_at, te) { validity_err(s, validity_at, te) }
    else if !name_ok(s, subject_at, te) { name_err(s, subject_at, te) }
    else { spki_err(s, key_at, te) }
}

/// The first error among the optional fields after the public key at `p`.
pub open spec fn tail_err(s: Seq<u8>, p: int, te: int) -> DecodeError {
    let q = if at(s, p, te, 0x81) { next_of(s, p, te) } else { p };
    let r = if at(s, q, te, 0x82) { next_of(s, q, te) } else { q };
    if at(s, p, te, 0x81) && tlv_at(s, p, te) is Err { elem_err(s, p, te) }
    else if at(s, q, te, 0x82) && tlv_at(s, q, te) is Err { elem_err(s, q, te) }
    else { exts_err(s, r, te) }
}

/// The error the TBSCertificate at `pos` gives when `tbs_ok` fails.
#[verifier::opaque]
pub open spec fn tbs_err(s: Seq<u8>, pos: int, end: int) -> DecodeError {
    if !has_tag(s, pos, end, TAG_SEQUENCE) {
        exp_err(s, pos, end, TAG_SEQUENCE)
    } else {
        let t = tlv_at(s, pos, end)->Ok_0;
        let version_at = t.start as int;
        let serial_at = if at(s, version_at, t.end(), 0xa0) { next_of(s, version_at, t.end()) } else { version_at };
        if !version_ok(s, version_at, t.end()) { version_err(s, version_at, t.end()) }
        else if !tbs_core_ok(s, serial_at, t.end()) { core_err(s, serial_at, t.end()) }
        else { tail_err(s, tbs_core_end(s, serial_at, t.end()), t.end()) }
    }
}

/// The error decoding `s` as a certificate gives when `cert_ok` fails.
pub open spec fn cert_err(s: Seq<u8>) -> DecodeError {
    if !has_tag(s, 0, s.len() as int, TAG_SEQUENCE) {
        exp_err(s, 0, s.len() as int, TAG_SEQUENCE)
    } else {
        let c = tlv_at(s, 0, s.len() as int)->Ok_0;
        let p = next_of(s, c.start as int, c.end());
        if !tbs_ok(s, c.start as int, c.end()) { tbs_err(s, c.start as int, c.end()) }
        else if !alg_ok(s, p, c.end()) { alg_err(s, p, c.end()) }
        else { bits_err(s, next_of(s, p, c.end()), c.end()) }
    }
}

/// Reads an element whose content is copied out.
fn read_element(b: &[u8], pos: usize, end: usize) -> (r: Result<(Element, usize), DecodeError>)
    requires
        end <= b@.len(),
    ensures
        match r {
            Ok((e, next)) => tlv_at(b@, pos as int, end as int) is Ok && {
                let t = tlv_at(b@, pos as int, end as int)->Ok_0;
                &&& e.tag == t.tag
                &&& e.content@ == content(b@, t)
                &&& next == t.end()
                &&& pos < next <= end
            },
            Err(e) => e is DerStructureError,
        },
        r is Ok <==> tlv_at(b@, pos as int, end as int) is Ok,
        r matches Err(e) ==> e == elem_err(b@, pos as int, end as int),
{
    let t = read_any(b, pos, end)?;
    let content = copy_range(b, t.start, t.start + t.len);
    Ok((Element { tag: t.tag, content }, t.start + t.len))
}

/// Reads an AlgorithmIdentifier: `SEQUENCE { OID, parameter OPTIONAL }`.
pub fn parse_algorithm_identifier(b: &[u8], pos: usize, end: usize)
    -> (r: Result<(AlgorithmIdentifier, usize), DecodeError>)
    requires
        end <= b@.len(),
    ensures
        match r {
            Ok((a, next)) => expect_at(b@, pos as int, end as int, TAG_SEQUENCE) is Ok && {
                let t = expect_at(b@, pos as int, end as int, TAG_SEQUENCE)->Ok_0;
                let o = expect_at(b@, t.start as int, t.end(), TAG_OID)->Ok_0;
                &&& expect_at(b@, t.start as int, t.end(), TAG_OID) is Ok
                &&& a.algorithm@ == content(b@, o)
                &&& (a.parameters is Some <==> o.end() < t.end())
                &&& (a.parameters matches Some(p) ==> p.tag == tlv_at(b@, o.end(), t.end())->Ok_0.tag
                    && p.content@ == content(b@, tlv_at(b@, o.end(), t.end())->Ok_0))
                &&& next == t.end()
                &&& pos < next <= end
            },
            Err(e) => e is DerStructureError,
        },
        r is Ok <==> alg_ok(b@, pos as int, end as int),
        r matches Err(e) ==> e == alg_err(b@, pos as int, end as int),
{
    let t = expect(b, pos, end, TAG_SEQUENCE)?;
    let t_end = t.start + t.len;
    let o = expect(b, t.start, t_end, TAG_OID)?;
    let o_end = o.start + o.len;
    let algorithm = copy_range(b, o.start, o_end);
    let parameters = if o_end < t_end {
        let (e, _) = read_element(b, o_end, t_end)?;
        Some(e)
    } else {
        None
    };
    Ok((AlgorithmIdentifier { algorithm, parameters }, t_end))
}

/// Reads a Name: `SEQUENCE OF SET OF SEQUENCE { OID, value }`.
#[verifier::rlimit(60)]
pub fn parse_name(b: &[u8], pos: usize, end: usize) -> (r: Result<(Name, usize), DecodeError>)
    requires
        end <= b@.len(),
    ensures
        match r {
            Ok((n, next)) => expect_at(b@, pos as int, end as int, TAG_SEQUENCE) is Ok
                && next == expect_at(b@, pos as int, end as int, TAG_SEQUENCE)->Ok_0.end()
                && pos < next <= end,
            Err(e) => e is DerStructureError,
        },
        r is Ok <==> name_ok(b@, pos as int, end as int),
        r matches Ok((n, next)) ==> name_view(n) == name_items(b@, pos as int, end as int),
        r matches Err(e) ==> e == name_err(b@, pos as int, end as int),
{
    let t = expect(b, pos, end, TAG_SEQUENCE)?;
    let t_end = t.start + t.len;
    let mut rdns: Vec<Vec<Attribute>> = Vec::new();
    let mut p = t.start;
    while p < t_end
        invariant
            t.start <= p <= t_end <= end <= b@.len(),
            t == tlv_at(b@, pos as int, end as int)->Ok_0,
            t_end == t.end(),
            name_ok(b@, pos as int, end as int) == rdns_ok(b@, p as int, t_end as int),
            name_err(b@, pos as int, end as int) == rdns_err(b@, p as int, t_end as int),
            rdn_items(b@, t.start as int, t_end as int)
                == rdns@.map_values(|r: Vec<Attribute>| rdn_view(r)) + rdn_items(b@, p as int, t_end as int),
        decreases t_end - p,
    {
        let set = expect(b, p, t_end, TAG_SET)?;
        let set_end = set.start + set.len;
        let mut attrs: Vec<Attribute> = Vec::new();
        let mut q = set.start;
        while q < set_end
            invariant
                set.start <= q <= set_end <= t_end <= end <= b@.len(),
                set == tlv_at(b@, p as int, t_end as int)->Ok_0,
                t_end == tlv_at(b@, pos as int, end as int)->Ok_0.end(),
                p < set_end,
                name_ok(b@, pos as int, end as int) == rdns_ok(b@, p as int, t_end as int),
                rdns_ok(b@, p as int, t_end as int) == (attrs_ok(b@, q as int, set_end as int) && rdns_ok(b@, set_end as int, t_end as int)),
                attr_items(b@, set.start as int, set_end as int)
                    == rdn_view(attrs) + attr_items(b@, q as int, set_end as int),
                name_err(b@, pos as int, end as int) == rdns_err(b@, p as int, t_end as int),
                rdns_err(b@, p as int, t_end as int) == if !attrs_ok(b@, q as int, set_end as int) {
                    attrs_err(b@, q as int, set_end as int) } else { rdns_err(b@, set_end as int, t_end as int) },
                rdn_items(b@, t.start as int, t_end as int)
                    == rdns@.map_values(|r: Vec<Attribute>| rdn_view(r)) + rdn_items(b@, p as int, t_end as int),
                t.start <= p,
            decreases set_end - q,
        {
            let a = expect(b, q, set_end, TAG_SEQUENCE)?;
            let a_end = a.start + a.len;
            let o = expect(b, a.start, a_end, TAG_OID)?;
            let o_end = o.start + o.len;
            let (value, _) = read_element(b, o_end, a_end)?;
            let ghost old_attrs = attrs@;
            let item = Attribute { attr_type: copy_range(b, o.start, o_end), value };
            assert(attr_view(item) == attr_item(b@, q as int, set_end as int));
            attrs.push(item);
            proof {
                assert(rdn_view(attrs) =~= old_attrs.map_values(|a: Attribute| attr_view(a)).push(attr_view(item)));
                assert(attr_items(b@, q as int, set_end as int)
                    == seq![attr_item(b@, q as int, set_end as int)] + attr_items(b@, a_end as int, set_end as int));
                assert(rdn_view(attrs) + attr_items(b@, a_end as int, set_end as int)
                    =~= old_attrs.map_values(|a: Attribute| attr_view(a)) + attr_items(b@, q as int, set_end as int));
            }
            q = a_end;
        }
        assert(rdn_view(attrs) + attr_items(b@, q as int, set_end as int) =~= rdn_view(attrs));
        let ghost old_rdns = rdns@;
        rdns.push(attrs);
        proof {
            assert(rdns@.map_values(|r: Vec<Attribute>| rdn_view(r))
                =~= old_rdns.map_values(|r: Vec<Attribute>| rdn_view(r)).push(rdn_view(attrs)));
            assert(rdn_items(b@, p as int, t_end as int)
                == seq![attr_items(b@, set.start as int, set_end as int)] + rdn_items(b@, set_end as int, t_end as int));
            assert(rdns@.map_values(|r: Vec<Attribute>| rdn_view(r)) + rdn_items(b@, set_end as int, t_end as int)
                =~= old_rdns.map_values(|r: Vec<Attribute>| rdn_view(r)) + rdn_items(b@, p as int, t_end as int));
        }
        p = set_end;
    }
    assert(rdns@.map_values(|r: Vec<Attribute>| rdn_view(r)) + rdn_items(b@, p as int, t_end as int)
        =~= rdns@.map_values(|r: Vec<Attribute>| rdn_view(r)));
    Ok((Name { rdns }, t_end))
}

/// Reads a Validity: `SEQUENCE { Time, Time }`.
pub fn parse_validity(b: &[u8], pos: usize, end: usize) -> (r: Result<(Validity, usize), DecodeError>)
    requires
        end <= b@.len(),
    ensures
        match r {
            Ok((v, next)) => v.not_before.wf() && v.not_after.wf() && pos < next <= end
                && next == next_of(b@, pos as int, end as int),
            Err(e) => e is DerStructureError,
        },
        r is Ok <==> validity_ok(b@, pos as int, end as int),
        r matches Err(e) ==> e == validity_err(b@, pos as int, end as int),
        r matches Ok((v, next)) ==> (v.not_before, v.not_after) == validity_times(b@, pos as int, end as int),
{
    let t = expect(b, pos, end, TAG_SEQUENCE)?;
    let t_end = t.start + t.len;
    let a = read_any(b, t.start, t_end)?;
    let not_before = parse_time(b, a.start, a.start + a.len, a.tag)?;
    let c = read_any(b, a.start + a.len, t_end)?;
    let not_after = parse_time(b, c.start, c.start + c.len, c.tag)?;
    Ok((Validity { not_before, not_after }, t_end))
}

/// Reads the bits of a BIT STRING whose content is `b[lo..hi]` (the first
/// content byte counts the unused bits and is left out).
fn bit_string_data(b: &[u8], lo: usize, hi: usize) -> (r: Result<Vec<u8>, DecodeError>)
    requires
        lo <= hi <= b@.len(),
    ensures
        match r {
            Ok(v) => lo < hi && v@ == b@.subrange(lo + 1, hi as int),
            Err(e) => lo == hi && e == content_err(lo as int, TAG_BIT_STRING),
        },
{
    if lo == hi {
        return Err(DecodeError::DerStructureError { offset: lo, expected: TAG_BIT_STRING, found: Found::BadContent });
    }
    Ok(copy_range(b, lo + 1, hi))
}

/// Reads a SubjectPublicKeyInfo: `SEQUENCE { AlgorithmIdentifier, BIT STRING }`.
pub fn parse_spki(b: &[u8], pos: usize, end: usize) -> (r: Result<(SubjectPublicKeyInfo, usize), DecodeError>)
    requires
        end <= b@.len(),
    ensures
        match r {
            Ok((k, next)) => pos < next <= end && next == next_of(b@, pos as int, end as int),
            Err(e) => e is DerStructureError,
        },
        r is Ok <==> spki_ok(b@, pos as int, end as int),
        r matches Err(e) ==> e == spki_err(b@, pos as int, end as int),
        r matches Ok((k, next)) ==> k.key@ == spki_key(b@, pos as int, end as int)
            && k.algorithm.algorithm@ == spki_alg(b@, pos as int, end as int),
{
    let t = expect(b, pos, end, TAG_SEQUENCE)?;
    let t_end = t.start + t.len;
    let (algorithm, p) = parse_algorithm_identifier(b, t.start, t_end)?;
    let k = expect(b, p, t_end, TAG_BIT_STRING)?;
    let key = bit_string_data(b, k.start, k.start + k.len)?;
    Ok((SubjectPublicKeyInfo { algorithm, key }, t_end))
}

/// Reads one Extension: `SEQUENCE { OID, BOOLEAN DEFAULT FALSE, OCTET STRING }`.
fn parse_extension(b: &[u8], pos: usize, end: usize) -> (r: Result<(Extension, usize), DecodeError>)
    requires
        end <= b@.len(),
    ensures
        match r {
            Ok((x, next)) => pos < next <= end,
            Err(e) => e is DerStructureError,
        },
        r is Ok <==> ext_ok(b@, pos as int, end as int),
        r matches Err(e) ==> e == ext_err(b@, pos as int, end as int),
        r matches Ok((x, next)) ==> next == next_of(b@, pos as int, end as int),
        r matches Ok((x, next)) ==> ext_view(x) == ext_item(b@, pos as int, end as int),
{
    let t = expect(b, pos, end, TAG_SEQUENCE)?;
    let t_end = t.start + t.len;
    let o = expect(b, t.start, t_end, TAG_OID)?;
    let mut p = o.start + o.len;
    let mut critical = false;
    let c = read_any(b, p, t_end)?;
    if c.tag == TAG_BOOLEAN {
        if c.len != 1 {
            return Err(DecodeError::DerStructureError { offset: p, expected: TAG_BOOLEAN, found: Found::BadContent });
        }
        critical = b[c.start] != 0;
        p = c.start + c.len;
    }
    let v = expect(b, p, t_end, TAG_OCTET_STRING)?;
    let value = copy_range(b, v.start, v.start + v.len);
    Ok((Extension { oid: copy_range(b, o.start, o.start + o.len), critical, value }, t_end))
}

/// Reads the extension list `[3] EXPLICIT SEQUENCE OF Extension`, keeping encoded order.
fn parse_extensions(b: &[u8], pos: usize, end: usize) -> (r: Result<(Vec<Extension>, usize), DecodeError>)
    requires
        end <= b@.len(),
    ensures
        match r {
            Ok((x, next)) => pos < next <= end && next == next_of(b@, pos as int, end as int),
            Err(e) => e is DerStructureError,
        },
        r is Ok <==> exts_ok(b@, pos as int, end as int),
        r matches Err(e) ==> e == exts_err(b@, pos as int, end as int),
        r matches Ok((x, next)) ==> {
            let w = tlv_at(b@, pos as int, end as int)->Ok_0;
            let t = tlv_at(b@, w.start as int, w.end())->Ok_0;
            x@.map_values(|e: Extension| ext_view(e)) == ext_items(b@, t.start as int, t.end())
        },
{
    let w = expect(b, pos, end, 0xa3)?;
    let w_end = w.start + w.len;
    let t = expect(b, w.start, w_end, TAG_SEQUENCE)?;
    let t_end = t.start + t.len;
    let mut v: Vec<Extension> = Vec::new();
    let mut p = t.start;
    while p < t_end
        invariant
            t.start <= p <= t_end <= w_end <= end <= b@.len(),
            w == tlv_at(b@, pos as int, end as int)->Ok_0,
            w_end == w.end(),
            t == tlv_at(b@, w.start as int, w_end as int)->Ok_0,
            t_end == t.end(),
            exts_ok(b@, pos as int, end as int) == ext_list_ok(b@, p as int, t_end as int),
            exts_err(b@, pos as int, end as int) == ext_list_err(b@, p as int, t_end as int),
            ext_items(b@, t.start as int, t_end as int)
                == v@.map_values(|e: Extension| ext_view(e)) + ext_items(b@, p as int, t_end as int),
        decreases t_end - p,
    {
        let (x, next) = parse_extension(b, p, t_end)?;
        let ghost old_v = v@;
        v.push(x);
        proof {
            assert(v@.map_values(|e: Extension| ext_view(e))
                =~= old_v.map_values(|e: Extension| ext_view(e)).push(ext_item(b@, p as int, t_end as int)));
            assert(ext_items(b@, p as int, t_end as int)
                == seq![ext_item(b@, p as int, t_end as int)] + ext_items(b@, next as int, t_end as int));
            assert(v@.map_values(|e: Extension| ext_view(e)) + ext_items(b@, next as int, t_end as int)
                =~= old_v.map_values(|e: Extension| ext_view(e)) + ext_items(b@, p as int, t_end as int));
        }
        p = next;
    }
    assert(v@.map_values(|e: Extension| ext_view(e)) + ext_items(b@, p as int, t_end as int)
        =~= v@.map_values(|e: Extension| ext_view(e)));
    Ok((v, w_end))
}

/// Reads the optional `[0] EXPLICIT INTEGER` version at `p` (0 when absent).
fn parse_version(b: &[u8], p: usize, te: usize) -> (r: Result<(u64, usize), DecodeError>)
    requires
        te <= b@.len(),
    ensures
        r is Ok <==> version_ok(b@, p as int, te as int),
        r matches Err(e) ==> e == version_err(b@, p as int, te as int),
        r matches Ok((v, next)) ==> next == if at(b@, p as int, te as int, 0xa0) {
            next_of(b@, p as int, te as int)
        } else {
            p as int
        },
        r matches Err(e) ==> e is DerStructureError,
        r matches Ok((v, next)) ==> v == version_value(b@, p as int, te as int),
{
    if p < te && b[p] == 0xa0 {
        let w = expect(b, p, te, 0xa0)?;
        let i = expect(b, w.start, w.start + w.len, TAG_INTEGER)?;
        match parse_small_uint(b, i.start, i.start + i.len) {
            Some(v) => Ok((v, w.start + w.len)),
            None => Err(DecodeError::DerStructureError { offset: w.start, expected: TAG_INTEGER, found: Found::BadContent }),
        }
    } else {
        Ok((0, p))
    }
}

/// The fields from the serial number to the public key.
pub struct TbsCore {
    pub serial: Vec<u8>,
    pub signature: AlgorithmIdentifier,
    pub issuer: Name,
    pub validity: Validity,
    pub subject: Name,
    pub spki: SubjectPublicKeyInfo,
}

/// What the TBSCertificate fields from the serial at `serial_at` on decode to, as far as
/// the report reads them: issuer, validity, subject, public key algorithm and bits.
pub open spec fn core_decoded(c: TbsCore, s: Seq<u8>, serial_at: int, te: int) -> bool {
    let alg_at = next_of(s, serial_at, te);
    let issuer_at = next_of(s, alg_at, te);
    let validity_at = next_of(s, issuer_at, te);
    let subject_at = next_of(s, validity_at, te);
    let key_at = next_of(s, subject_at, te);
    &&& name_view(c.issuer) == name_items(s, issuer_at, te)
    &&& (c.validity.not_before, c.validity.not_after) == validity_times(s, validity_at, te)
    &&& name_view(c.subject) == name_items(s, subject_at, te)
    &&& c.spki.key@ == spki_key(s, key_at, te)
    &&& c.spki.algorithm.algorithm@ == spki_alg(s, key_at, te)
}

/// What the TBSCertificate whose content is `s[p..te]` decodes to for issuer,
/// validity, subject and public key.
pub open spec fn tbs_decoded(t: TbsCertificate, s: Seq<u8>, p: int, te: int) -> bool {
    let serial_at = serial_pos(s, p, te);
    let alg_at = next_of(s, serial_at, te);
    let issuer_at = next_of(s, alg_at, te);
    let validity_at = next_of(s, issuer_at, te);
    let subject_at = next_of(s, validity_at, te);
    let key_at = next_of(s, subject_at, te);
    &&& name_view(t.issuer) == name_items(s, issuer_at, te)
    &&& (t.validity.not_before, t.validity.not_after) == validity_times(s, validity_at, te)
    &&& name_view(t.subject) == name_items(s, subject_at, te)
    &&& t.spki.key@ == spki_key(s, key_at, te)
    &&& t.spki.algorithm.algorithm@ == spki_alg(s, key_at, te)
}

/// Reads the serial, signature algorithm, issuer, validity, subject and public key from `serial_at` on.
fn parse_tbs_core(b: &[u8], serial_at: usize, te: usize) -> (r: Result<(TbsCore, usize), DecodeError>)
    requires
        te <= b@.len(),
    ensures
        r is Ok <==> tbs_core_ok(b@, serial_at as int, te as int),
        r matches Err(e) ==> e == core_err(b@, serial_at as int, te as int),
        r matches Ok((c, next)) ==> c.serial@ == content_at(b@, serial_at as int, te as int),
        r matches Ok((c, next)) ==> core_decoded(c, b@, serial_at as int, te as int),
        r matches Ok((c, next)) ==> next == tbs_core_end(b@, serial_at as int, te as int)
            && c.validity.not_before.wf() && c.validity.not_after.wf() && next <= te,
        r matches Err(e) ==> e is DerStructureError,
{
    let s = expect(b, serial_at, te, TAG_INTEGER)?;
    let serial = copy_range(b, s.start, s.start + s.len);
    let (signature, p) = parse_algorithm_identifier(b, s.start + s.len, te)?;
    let (issuer, p) = parse_name(b, p, te)?;
    let (validity, p) = parse_validity(b, p, te)?;
    let (subject, p) = parse_name(b, p, te)?;
    let (spki, p) = parse_spki(b, p, te)?;
    Ok((TbsCore { serial, signature, issuer, validity, subject, spki }, p))
}

/// Reads what may follow the public key: unique identifiers, then extensions.
fn parse_tbs_tail(b: &[u8], p: usize, te: usize) -> (r: Result<Vec<Extension>, DecodeError>)
    requires
        p <= te <= b@.len(),
    ensures
        r is Ok <==> tbs_tail_ok(b@, p as int, te as int),
        r matches Err(e) ==> e == tail_err(b@, p as int, te as int),
        r matches Err(e) ==> e is DerStructureError,
        r matches Ok(x) ==> x@.map_values(|e: Extension| ext_view(e)) == tail_exts(b@, p as int, te as int),
{
    let mut q = p;
    if q < te && b[q] == 0x81 {
        let u = read_any(b, q, te)?;
        q = u.start + u.len;
    }
    let mut r = q;
    if r < te && b[r] == 0x82 {
        let u = read_any(b, r, te)?;
        r = u.start + u.len;
    }
    if r < te && b[r] == 0xa3 {
        let (x, _) = parse_extensions(b, r, te)?;
        Ok(x)
    } else {
        let v: Vec<Extension> = Vec::new();
        assert(v@.map_values(|e: Extension| ext_view(e)) =~= Seq::<(Seq<u8>, bool, Seq<u8>)>::empty());
        Ok(v)
    }
}

/// Reads a TBSCertificate: `SEQUENCE { [0] version DEFAULT v1, serial, signature,
/// issuer, validity, subject, subjectPublicKeyInfo, [1] issuerUID OPTIONAL,
/// [2] subjectUID OPTIONAL, [3] extensions OPTIONAL }`.
#[verifier::rlimit(100)]
pub fn parse_tbs(b: &[u8], pos: usize, end: usize) -> (r: Result<(TbsCertificate, usize), DecodeError>)
    requires
        end <= b@.len(),
    ensures
        match r {
            Ok((t, next)) => t.wf() && pos < next <= end && next == next_of(b@, pos as int, end as int),
            Err(e) => e is DerStructureError,
        },
        r is Ok <==> tbs_ok(b@, pos as int, end as int),
        r matches Err(e) ==> e == tbs_err(b@, pos as int, end as int),
        r matches Ok((t, next)) ==> {
            let o = tlv_at(b@, pos as int, end as int)->Ok_0;
            &&& t.version == version_value(b@, o.start as int, o.end())
            &&& t.serial@ == content_at(b@, serial_pos(b@, o.start as int, o.end()), o.end())
            &&& t.extensions@.map_values(|e: Extension| ext_view(e)) == tbs_exts(b@, o.start as int, o.end())
            &&& tbs_decoded(t, b@, o.start as int, o.end())
        },
{
    proof {
        reveal(tbs_ok);
        reveal(tbs_exts);
        reveal(tbs_err);
    }
    let t = expect(b, pos, end, TAG_SEQUENCE)?;
    let t_end = t.start + t.len;
    let (version, serial_at) = parse_version(b, t.start, t_end)?;
    let (core, p) = parse_tbs_core(b, serial_at, t_end)?;
    let extensions = parse_tbs_tail(b, p, t_end)?;
    let TbsCore { serial, signature, issuer, validity, subject, spki } = core;

    Ok((TbsCertificate { version, serial, signature, issuer, validity, subject, spki, extensions }, t_end))
}

/// Reads the signature algorithm at `p` and the signature bits after it.
fn parse_signature(b: &[u8], p: usize, end: usize) -> (r: Result<(AlgorithmIdentifier, Vec<u8>), DecodeError>)
    requires
        end <= b@.len(),
    ensures
        r is Ok <==> alg_ok(b@, p as int, end as int) && bits_ok(b@, next_of(b@, p as int, end as int), end as int),
        r matches Err(e) ==> e == if !alg_ok(b@, p as int, end as int) { alg_err(b@, p as int, end as int) } else {
            bits_err(b@, next_of(b@, p as int, end as int), end as int) },
        r matches Err(e) ==> e is DerStructureError,
        r matches Ok((a, v)) ==> {
            let sa = tlv_at(b@, p as int, end as int)->Ok_0;
            &&& a.algorithm@ == content_at(b@, sa.start as int, sa.end())
            &&& v@ == bits_at(b@, next_of(b@, p as int, end as int), end as int)
        },
{
    let (signature_algorithm, q) = parse_algorithm_identifier(b, p, end)?;
    let sv = expect(b, q, end, TAG_BIT_STRING)?;
    let signature_value = bit_string_data(b, sv.start, sv.start + sv.len)?;
    assert(signature_value@ =~= bits_at(b@, q as int, end as int));
    Ok((signature_algorithm, signature_value))
}

/// Decodes a certificate: `SEQUENCE { TBSCertificate, AlgorithmIdentifier, BIT STRING }`.
/// Bytes after the certificate's element are ignored.
#[verifier::rlimit(100)]
pub fn parse_certificate(b: &[u8]) -> (r: Result<Certificate, DecodeError>)
    ensures
        match r {
            Ok(c) => c.wf() && expect_at(b@, 0, b@.len() as int, TAG_SEQUENCE) is Ok,
            Err(e) => e is DerStructureError,
        },
        expect_at(b@, 0, b@.len() as int, TAG_SEQUENCE) is Err
            ==> r == Err::<Certificate, DecodeError>(expect_at(b@, 0, b@.len() as int, TAG_SEQUENCE)->Err_0),
        r is Ok <==> cert_ok(b@),
        r matches Ok(c) ==> decoded_from(c, b@),
        r matches Err(e) ==> e == cert_err(b@),
{
    let c = expect(b, 0, b.len(), TAG_SEQUENCE)?;
    let c_end = c.start + c.len;
    let (tbs, p) = parse_tbs(b, c.start, c_end)?;
    let (signature_algorithm, signature_value) = parse_signature(b, p, c_end)?;
    let cert = Certificate { tbs, signature_algorithm, signature_value };
    proof {
        reveal(decoded_from);
    }
    Ok(cert)
}

} // verus!
