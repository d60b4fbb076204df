//! Signature algorithms: classification of an AlgorithmIdentifier into a known
//! family, and the text of an algorithm with its parameter.

use vstd::prelude::*;
use crate::cert::{AlgorithmIdentifier, Element, content, alg_ok, small_uint};
use crate::der::tlv_at;
use crate::der::{Tlv, read_tlv, same_bytes, TAG_OID, TAG_SEQUENCE, TAG_INTEGER};
use crate::hex::{hex_dump, print_hex_dump};
use crate::oid::{oid_display, format_oid};
use crate::text::{decimal, push_decimal, push_str, push_char};
use crate::cert::parse_small_uint;

verus! {

/// The families a signature algorithm is classified into.
#[derive(Debug, Clone, Copy, PartialEq, Eq, Structural)]
pub enum SigFamily {
    Dsa,
    Ecdsa,
    Ed25519,
    Rsa,
    RsaPss,
    RsaOaep,
    Unknown,
}

/// DER content of 1.2.840.113549.1.1 (PKCS #1).
pub open spec fn pkcs1_arc() -> Seq<u8> {
    seq![0x2au8, 0x86, 0x48, 0x86, 0xf7, 0x0d, 0x01, 0x01]
}

/// DER content of 1.2.840.10045.4 (ECDSA signatures).
pub open spec fn ecdsa_arc() -> Seq<u8> {
    seq![0x2au8, 0x86, 0x48, 0xce, 0x3d, 0x04]
}

/// DER content of 1.2.840.10040.4 (DSA).
pub open spec fn dsa_arc() -> Seq<u8> {
    seq![0x2au8, 0x86, 0x48, 0xce, 0x38, 0x04]
}

/// DER content of 1.3.101.112 (Ed25519).
pub open spec fn ed25519_oid() -> Seq<u8> {
    seq![0x2bu8, 0x65, 0x70]
}

pub open spec fn has_prefix(s: Seq<u8>, p: Seq<u8>) -> bool {
    s.len() >= p.len() && s.take(p.len() as int) == p
}

/// The family of a signature algorithm OID: the PKCS #1 arc is RSA, except
/// `.10` (RSASSA-PSS) and `.7` (RSAES-OAEP).
pub open spec fn sig_family(oid: Seq<u8>) -> SigFamily {
    if has_prefix(oid, pkcs1_arc()) {
        if oid == pkcs1_arc().push(0x0a) {
            SigFamily::RsaPss
        } else if oid == pkcs1_arc().push(0x07) {
            SigFamily::RsaOaep
        } else {
            SigFamily::Rsa
        }
    } else if has_prefix(oid, ecdsa_arc()) {
        SigFamily::Ecdsa
    } else if has_prefix(oid, dsa_arc()) {
        SigFamily::Dsa
    } else if oid == ed25519_oid() {
        SigFamily::Ed25519
    } else {
        SigFamily::Unknown
    }
}

fn starts_with(s: &[u8], p: &Vec<u8>) -> (r: bool)
    ensures
        r == has_prefix(s@, p@),
{
    if s.len() < p.len() {
        return false;
    }
    let mut i: usize = 0;
    while i < p.len()
        invariant
            p@.len() <= s@.len(),
            i <= p@.len(),
            s@.take(i as int) == p@.take(i as int),
        decreases p@.len() - i,
    {
        if s[i] != p[i] {
            assert(s@.take(p@.len() as int)[i as int] != p@[i as int]);
            return false;
        }
        i = i + 1;
        assert(s@.take(i as int) =~= p@.take(i as int));
    }
    assert(p@.take(i as int) =~= p@);
    true
}

/// Classifies a signature algorithm OID.
pub fn classify_signature(oid: &[u8]) -> (f: SigFamily)
    ensures
        f == sig_family(oid@),
{
    let pkcs1 = vec![0x2au8, 0x86, 0x48, 0x86, 0xf7, 0x0d, 0x01, 0x01];
    let ecdsa = vec![0x2au8, 0x86, 0x48, 0xce, 0x3d, 0x04];
    let dsa = vec![0x2au8, 0x86, 0x48, 0xce, 0x38, 0x04];
    let ed = vec![0x2bu8, 0x65, 0x70];
    assert(pkcs1@ =~= pkcs1_arc());
    assert(ecdsa@ =~= ecdsa_arc());
    assert(dsa@ =~= dsa_arc());
    assert(ed@ =~= ed25519_oid());
    if starts_with(oid, &pkcs1) {
        let mut pss = pkcs1.clone();
        pss.push(0x0a);
        let mut oaep = pkcs1.clone();
        oaep.push(0x07);
        if same_bytes(oid, &pss) {
            SigFamily::RsaPss
        } else if same_bytes(oid, &oaep) {
            SigFamily::RsaOaep
        } else {
            SigFamily::Rsa
        }
    } else if starts_with(oid, &ecdsa) {
        SigFamily::Ecdsa
    } else if starts_with(oid, &dsa) {
        SigFamily::Dsa
    } else if same_bytes(oid, &ed) {
        SigFamily::Ed25519
    } else {
        SigFamily::Unknown
    }
}

/// The name of an element's tag as a parameter line shows it.
pub open spec fn tag_name(t: u8) -> Seq<char> {
    if t == 0x01 { "Boolean"@ } else if t == 0x02 { "Integer"@ } else if t == 0x03 { "BitString"@ }
    else if t == 0x04 { "OctetString"@ } else if t == 0x05 { "Null"@ } else if t == 0x06 { "Oid"@ }
    else if t == 0x30 { "Sequence"@ } else if t == 0x31 { "Set"@ }
    else { "Tag("@ + decimal(t as nat) + ")"@ }
}

fn push_tag_name(out: &mut String, t: u8)
    ensures
        final(out)@ == old(out)@ + tag_name(t),
{
    if t == 0x01 { push_str(out, "Boolean"); } else if t == 0x02 { push_str(out, "Integer"); }
    else if t == 0x03 { push_str(out, "BitString"); } else if t == 0x04 { push_str(out, "OctetString"); }
    else if t == 0x05 { push_str(out, "Null"); } else if t == 0x06 { push_str(out, "Oid"); }
    else if t == 0x30 { push_str(out, "Sequence"); } else if t == 0x31 { push_str(out, "Set"); }
    else {
        push_str(out, "Tag(");
        push_decimal(out, t as u64);
        push_str(out, ")");
    }
    assert(final(out)@ =~= old(out)@ + tag_name(t));
}

/// `n` spaces.
pub open spec fn indent(n: nat) -> Seq<char> {
    Seq::new(n, |i: int| ' ')
}

pub fn push_indent(out: &mut String, n: usize)
    ensures
        final(out)@ == old(out)@ + indent(n as nat),
{
    let ghost a = out@;
    let mut i: usize = 0;
    while i < n
        invariant
            i <= n,
            out@ == a + indent(i as nat),
        decreases n - i,
    {
        push_char(out, ' ');
        i = i + 1;
        assert(out@ =~= a + indent(i as nat));
    }
}

/// An algorithm with its parameter: the OID line, then the parameter line
/// (an OID parameter by name, another by its tag) and a dump of at most 32
/// bytes of its content, or a line saying it is absent.
pub open spec fn algorithm_text(a: AlgorithmIdentifier, level: nat) -> Seq<char> {
    indent(level) + "Oid: "@ + oid_display(a.algorithm@) + seq!['\n'] + match a.parameters {
        Some(p) => indent(level) + "Parameter: <PRESENT> "@ + (if p.tag == 0x06 {
            oid_display(p.content@)
        } else {
            tag_name(p.tag)
        }) + seq!['\n'] + hex_dump(p.content@, 32),
        None => indent(level) + "Parameter: <ABSENT>\n"@,
    }
}

/// Appends an algorithm and its parameter.
pub fn print_x509_digest_algorithm(out: &mut String, a: &AlgorithmIdentifier, level: usize)
    ensures
        final(out)@ == old(out)@ + algorithm_text(*a, level as nat),
{
    push_indent(out, level);
    push_str(out, "Oid: ");
    let o = format_oid(a.algorithm.as_slice());
    push_str(out, o.as_str());
    push_char(out, '\n');
    let ghost mid = out@;
    match &a.parameters {
        Some(p) => {
            push_indent(out, level);
            push_str(out, "Parameter: <PRESENT> ");
            if p.tag == 0x06 {
                let s = format_oid(p.content.as_slice());
                push_str(out, s.as_str());
            } else {
                push_tag_name(out, p.tag);
            }
            push_char(out, '\n');
            print_hex_dump(out, p.content.as_slice(), 32);
        }
        None => {
            push_indent(out, level);
            push_str(out, "Parameter: <ABSENT>\n");
        }
    }
    assert(final(out)@ =~= old(out)@ + algorithm_text(*a, level as nat));
}

/// Decoded RSASSA-PSS / RSAES-OAEP parameters: hash OID, mask generation
/// function OID and its hash OID (or `None` when malformed), salt length,
/// source function OID.
pub type ParamsView = (Seq<u8>, Option<(Seq<u8>, Seq<u8>)>, nat, Seq<u8>);

/// The parameters' defaults: SHA-1, MGF1 with SHA-1, salt length 20, pSpecified.
pub open spec fn default_params() -> ParamsView {
    (sha1_oid_spec(), Some((mgf1_oid_spec(), sha1_oid_spec())), 20, p_specified_oid_spec())
}

pub open spec fn sha1_oid_spec() -> Seq<u8> {
    seq![0x2bu8, 0x0e, 0x03, 0x02, 0x1a]
}

pub open spec fn mgf1_oid_spec() -> Seq<u8> {
    seq![0x2au8, 0x86, 0x48, 0x86, 0xf7, 0x0d, 0x01, 0x01, 0x08]
}

pub open spec fn p_specified_oid_spec() -> Seq<u8> {
    seq![0x2au8, 0x86, 0x48, 0x86, 0xf7, 0x0d, 0x01, 0x01, 0x09]
}

/// The OID content of the AlgorithmIdentifier at `pos`.
pub open spec fn alg_oid(s: Seq<u8>, pos: int, end: int) -> Seq<u8> {
    let t = tlv_at(s, pos, end)->Ok_0;
    content(s, tlv_at(s, t.start as int, t.end())->Ok_0)
}

/// The parameter content of the AlgorithmIdentifier at `pos`, if it has one.
pub open spec fn alg_param(s: Seq<u8>, pos: int, end: int) -> Option<Seq<u8>> {
    let t = tlv_at(s, pos, end)->Ok_0;
    let o = tlv_at(s, t.start as int, t.end())->Ok_0;
    if o.end() < t.end() { Some(content(s, tlv_at(s, o.end(), t.end())->Ok_0)) } else { None }
}

/// The mask generation function at `pos` and the hash its parameter names first.
pub open spec fn mask_gen_spec(s: Seq<u8>, pos: int, end: int) -> Option<(Seq<u8>, Seq<u8>)> {
    match alg_param(s, pos, end) {
        None => None,
        Some(c) => match tlv_at(c, 0, c.len() as int) {
            Ok(o) => if o.tag == TAG_OID { Some((alg_oid(s, pos, end), content(c, o))) } else { None },
            Err(_) => None,
        },
    }
}

/// The parameters read from the fields in `c[pos..end]` over `acc`; `None` when
/// a field is malformed. `[0]` hash, `[1]` mask generation, `[2]` salt length
/// (PSS) or source function (OAEP); other fields are skipped.
pub open spec fn rsa_params_from(c: Seq<u8>, pos: int, end: int, pss: bool, acc: ParamsView) -> Option<ParamsView>
    decreases end - pos,
{
    if pos >= end {
        Some(acc)
    } else {
        match tlv_at(c, pos, end) {
            Err(_) => None,
            Ok(t) => if !(pos < t.end() <= end) {
                None
            } else {
                let te = t.end();
                let st = t.start as int;
                if t.tag == 0xa0 {
                    if alg_ok(c, st, te) { rsa_params_from(c, te, end, pss, (alg_oid(c, st, te), acc.1, acc.2, acc.3)) } else { None }
                } else if t.tag == 0xa1 {
                    if alg_ok(c, st, te) { rsa_params_from(c, te, end, pss, (acc.0, mask_gen_spec(c, st, te), acc.2, acc.3)) } else { None }
                } else if t.tag == 0xa2 && pss {
                    match tlv_at(c, st, te) {
                        Ok(i) => if i.tag == TAG_INTEGER {
                            match small_uint(content(c, i)) {
                                Some(v) => rsa_params_from(c, te, end, pss, (acc.0, acc.1, v, acc.3)),
                                None => None,
                            }
                        } else {
                            None
                        },
                        Err(_) => None,
                    }
                } else if t.tag == 0xa2 {
                    if alg_ok(c, st, te) { rsa_params_from(c, te, end, pss, (acc.0, acc.1, acc.2, alg_oid(c, st, te))) } else { None }
                } else {
                    rsa_params_from(c, te, end, pss, acc)
                }
            },
        }
    }
}

/// The parameters a parameter element holds: it must be a SEQUENCE of readable fields.
pub open spec fn rsa_params_spec(p: Option<Element>, pss: bool) -> Option<ParamsView> {
    match p {
        None => None,
        Some(e) => if e.tag != TAG_SEQUENCE {
            None
        } else {
            rsa_params_from(e.content@, 0, e.content@.len() as int, pss, default_params())
        },
    }
}

/// The view of decoded parameters.
pub open spec fn params_view(r: RsaParams) -> ParamsView {
    (r.hash@, match r.mask_gen { Some((f, h)) => Some((f@, h@)), None => None }, r.salt_length as nat, r.p_source@)
}

/// The mask generation function line's end.
pub open spec fn mask_gen_text(m: Option<(Seq<u8>, Seq<u8>)>) -> Seq<char> {
    match m {
        Some((f, h)) => oid_display(f) + seq!['/'] + oid_display(h) + seq!['\n'],
        None => "INVALID\n"@,
    }
}

/// The parameter lines under RSASSA-PSS or RSAES-OAEP, indented by `level + 2`.
pub open spec fn params_text(v: ParamsView, pss: bool, level: nat) -> Seq<char> {
    indent(level + 2) + "Hash Algorithm: "@ + oid_display(v.0) + seq!['\n']
        + indent(level + 2) + "Mask Generation Function: "@ + mask_gen_text(v.1)
        + indent(level + 2) + (if pss { "Salt Length: "@ + decimal(v.2) } else { "pSourceFunc: "@ + oid_display(v.3) })
        + seq!['\n']
}

/// The parameters of RSASSA-PSS or RSAES-OAEP, defaults filled in.
pub struct RsaParams {
    /// The hash algorithm's OID content.
    pub hash: Vec<u8>,
    /// The mask generation function's OID content and its hash's OID content,
    /// or `None` when the mask generation function is malformed.
    pub mask_gen: Option<(Vec<u8>, Vec<u8>)>,
    /// PSS only: the salt length.
    pub salt_length: u64,
    /// OAEP only: the source function's OID content.
    pub p_source: Vec<u8>,
}

fn sha1_oid() -> (r: Vec<u8>)
    ensures
        r@ == sha1_oid_spec(),
{
    vec![0x2bu8, 0x0e, 0x03, 0x02, 0x1a]
}

fn mgf1_oid() -> (r: Vec<u8>)
    ensures
        r@ == mgf1_oid_spec(),
{
    vec![0x2au8, 0x86, 0x48, 0x86, 0xf7, 0x0d, 0x01, 0x01, 0x08]
}

fn p_specified_oid() -> (r: Vec<u8>)
    ensures
        r@ == p_specified_oid_spec(),
{
    vec![0x2au8, 0x86, 0x48, 0x86, 0xf7, 0x0d, 0x01, 0x01, 0x09]
}

/// The algorithm identifier that fills the content of the element `t`.
fn explicit_algorithm(b: &[u8], t: Tlv) -> (r: Option<AlgorithmIdentifier>)
    requires
        t.end() <= b@.len(),
    ensures
        r is Some <==> alg_ok(b@, t.start as int, t.end()),
        r matches Some(a) ==> a.algorithm@ == alg_oid(b@, t.start as int, t.end())
            && (match a.parameters { Some(p) => alg_param(b@, t.start as int, t.end()) == Some(p.content@),
                None => alg_param(b@, t.start as int, t.end()) is None }),
{
    let _n = b.len();
    match crate::cert::parse_algorithm_identifier(b, t.start, t.start + t.len) {
        Ok((a, _)) => Some(a),
        Err(_) => None,
    }
}

/// The mask generation function and its hash: the algorithm's parameter must
/// hold an algorithm identifier whose first element is an OID.
fn mask_gen_of(a: &AlgorithmIdentifier) -> (r: Option<(Vec<u8>, Vec<u8>)>)
    ensures
        (match r { Some((f, h)) => Some((f@, h@)), None => None::<(Seq<u8>, Seq<u8>)> }) == match a.parameters {
            None => None,
            Some(p) => match tlv_at(p.content@, 0, p.content@.len() as int) {
                Ok(o) => if o.tag == TAG_OID { Some((a.algorithm@, content(p.content@, o))) } else { None },
                Err(_) => None,
            },
        },
{
    match &a.parameters {
        None => None,
        Some(p) => {
            let c = p.content.as_slice();
            match read_tlv(c, 0, c.len()) {
                Ok(o) => if o.tag == TAG_OID {
                    let f = crate::der::copy_range(a.algorithm.as_slice(), 0, a.algorithm.len());
                    assert(a.algorithm@.subrange(0, a.algorithm@.len() as int) =~= a.algorithm@);
                    Some((f, crate::der::copy_range(c, o.start, o.start + o.len)))
                } else {
                    None
                },
                Err(_) => None,
            }
        }
    }
}

/// Reads PSS (`pss`) or OAEP parameters from a parameter element:
/// `SEQUENCE { [0] hash, [1] mask generation, [2] salt length or source function, ... }`.
/// `None` when they are absent or malformed.
pub fn parse_rsa_params(p: &Option<Element>, pss: bool) -> (r: Option<RsaParams>)
    ensures
        (match r { Some(x) => Some(params_view(x)), None => None::<ParamsView> }) == rsa_params_spec(*p, pss),
{
    let e = match p {
        Some(e) => e,
        None => { return None; }
    };
    if e.tag != TAG_SEQUENCE {
        return None;
    }
    let b = e.content.as_slice();
    let n = b.len();
    let mut r = RsaParams {
        hash: sha1_oid(),
        mask_gen: Some((mgf1_oid(), sha1_oid())),
        salt_length: 20,
        p_source: p_specified_oid(),
    };
    let mut pos: usize = 0;
    assert(params_view(r) == default_params());
    while pos < n
        invariant
            n == b@.len(),
            pos <= n,
            b@ == e.content@,
            rsa_params_spec(*p, pss) == rsa_params_from(b@, pos as int, n as int, pss, params_view(r)),
        decreases n - pos,
    {
        let t = match read_tlv(b, pos, n) {
            Ok(t) => t,
            Err(_) => { return None; }
        };
        if t.tag == 0xa0 {
            match explicit_algorithm(b, t) {
                Some(a) => { r.hash = a.algorithm; }
                None => { return None; }
            }
        } else if t.tag == 0xa1 {
            match explicit_algorithm(b, t) {
                Some(a) => { r.mask_gen = mask_gen_of(&a); }
                None => { return None; }
            }
        } else if t.tag == 0xa2 && pss {
            match read_tlv(b, t.start, t.start + t.len) {
                Ok(i) => if i.tag == TAG_INTEGER {
                    match parse_small_uint(b, i.start, i.start + i.len) {
                        Some(v) => { r.salt_length = v; }
                        None => { return None; }
                    }
                } else {
                    return None;
                },
                Err(_) => { return None; }
            }
        } else if t.tag == 0xa2 {
            match explicit_algorithm(b, t) {
                Some(a) => { r.p_source = a.algorithm; }
                None => { return None; }
            }
        }
        pos = t.start + t.len;
    }
    Some(r)
}

/// The family line of a classified signature algorithm.
pub open spec fn family_line(f: SigFamily) -> Seq<char> {
    match f {
        SigFamily::Dsa => "  Signature Algorithm: DSA\n"@,
        SigFamily::Ecdsa => "  Signature Algorithm: ECDSA\n"@,
        SigFamily::Ed25519 => "  Signature Algorithm: ED25519\n"@,
        SigFamily::Rsa => "  Signature Algorithm: RSA\n"@,
        SigFamily::RsaPss => "  Signature Algorithm: RSASSA-PSS\n"@,
        SigFamily::RsaOaep => "  Signature Algorithm: RSAAES-OAEP\n"@,
        SigFamily::Unknown => "  Signature Algorithm:\n"@,
    }
}

/// The block shown for an algorithm that fits no family, or whose
/// parameters cannot be read.
pub open spec fn unclassified_text(a: AlgorithmIdentifier, level: nat) -> Seq<char> {
    "  Signature Algorithm:\n"@ + algorithm_text(a, level)
}

fn push_mask_gen(out: &mut String, m: &Option<(Vec<u8>, Vec<u8>)>)
    ensures
        final(out)@ == old(out)@ + mask_gen_text(match *m { Some((f, h)) => Some((f@, h@)), None => None }),
{
    match m {
        Some((f, h)) => {
            let a = format_oid(f.as_slice());
            push_str(out, a.as_str());
            push_char(out, '/');
            let b = format_oid(h.as_slice());
            push_str(out, b.as_str());
            push_char(out, '\n');
        }
        None => {
            push_str(out, "INVALID\n");
        }
    }
    assert(final(out)@ =~= old(out)@ + mask_gen_text(match *m { Some((f, h)) => Some((f@, h@)), None => None }));
}

/// The parameter lines under RSASSA-PSS or RSAES-OAEP.
fn params_block(params: &RsaParams, pss: bool, level: usize) -> (body: String)
    requires
        level <= usize::MAX - 2,
    ensures
        body@ == params_text(params_view(*params), pss, level as nat),
{
    let mut body = String::new();
    push_indent(&mut body, level + 2);
    push_str(&mut body, "Hash Algorithm: ");
    let h = format_oid(params.hash.as_slice());
    push_str(&mut body, h.as_str());
    push_char(&mut body, '\n');
    push_indent(&mut body, level + 2);
    push_str(&mut body, "Mask Generation Function: ");
    push_mask_gen(&mut body, &params.mask_gen);
    push_indent(&mut body, level + 2);
    if pss {
        push_str(&mut body, "Salt Length: ");
        push_decimal(&mut body, params.salt_length);
    } else {
        push_str(&mut body, "pSourceFunc: ");
        let s = format_oid(params.p_source.as_slice());
        push_str(&mut body, s.as_str());
    }
    push_char(&mut body, '\n');
    assert(body@ =~= params_text(params_view(*params), pss, level as nat));
    body
}

/// Appends the signature algorithm block. A known family shows its name, and
/// RSASSA-PSS / RSAES-OAEP their parameters indented by `level + 2`; an
/// algorithm of no family, or whose parameters cannot be read, shows its OID
/// and parameter.
pub fn print_x509_signature_algorithm(out: &mut String, a: &AlgorithmIdentifier, level: usize)
    requires
        level <= usize::MAX - 2,
    ensures
        ({
            let f = sig_family(a.algorithm@);
            if f == SigFamily::Unknown {
                final(out)@ == old(out)@ + unclassified_text(*a, level as nat)
            } else if f == SigFamily::RsaPss || f == SigFamily::RsaOaep {
                match rsa_params_spec(a.parameters, f == SigFamily::RsaPss) {
                    Some(v) => final(out)@ == old(out)@ + family_line(f) + params_text(v, f == SigFamily::RsaPss, level as nat),
                    None => final(out)@ == old(out)@ + unclassified_text(*a, level as nat),
                }
            } else {
                final(out)@ == old(out)@ + family_line(f)
            }
        }),
{
    let f = classify_signature(a.algorithm.as_slice());
    let ghost a0 = out@;
    match f {
        SigFamily::Dsa => push_str(out, "  Signature Algorithm: DSA\n"),
        SigFamily::Ecdsa => push_str(out, "  Signature Algorithm: ECDSA\n"),
        SigFamily::Ed25519 => push_str(out, "  Signature Algorithm: ED25519\n"),
        SigFamily::Rsa => push_str(out, "  Signature Algorithm: RSA\n"),
        SigFamily::RsaPss | SigFamily::RsaOaep => {
            let pss = f == SigFamily::RsaPss;
            match parse_rsa_params(&a.parameters, pss) {
                Some(params) => {
                    if pss {
                        push_str(out, "  Signature Algorithm: RSASSA-PSS\n");
                    } else {
                        push_str(out, "  Signature Algorithm: RSAAES-OAEP\n");
                    }
                    let body = params_block(&params, pss, level);
                    push_str(out, body.as_str());
                }
                None => {
                    push_str(out, "  Signature Algorithm:\n");
                    print_x509_digest_algorithm(out, a, level);
                }
            }
        }
        SigFamily::Unknown => {
            push_str(out, "  Signature Algorithm:\n");
            print_x509_digest_algorithm(out, a, level);
        }
    }
}

} // verus!
