//! Subject public keys: which kind the algorithm names, how the key bits are
//! read for that kind, and the text the report shows.

use vstd::prelude::*;
use crate::cert::{SubjectPublicKeyInfo, small_uint, parse_small_uint, content};
use crate::der::{Tlv, tlv_at, read_tlv, same_bytes, TAG_SEQUENCE, TAG_INTEGER, TAG_OCTET_STRING};
use crate::hex::{colon_hex, chunk, row_count, hex_dump, print_hex_dump, format_number_to_hex_with_colon};
use crate::sigalg::{algorithm_text, print_x509_digest_algorithm, pkcs1_arc};
use crate::text::{decimal, hex_number, push_decimal, push_decimal_wide, push_hex_number, push_str, push_char};

verus! {

/// The key kinds that the report tells apart.
#[derive(Debug, Clone, Copy, PartialEq, Eq, Structural)]
pub enum KeyKind {
    Rsa,
    Ec,
    Dsa,
    Gost94,
    Gost2012,
    Unknown,
}

/// The kind of key an SPKI algorithm OID names.
pub open spec fn key_kind(oid: Seq<u8>) -> KeyKind {
    if oid == pkcs1_arc().push(0x01) {
        KeyKind::Rsa
    } else if oid == seq![0x2au8, 0x86, 0x48, 0xce, 0x3d, 0x02, 0x01] {
        KeyKind::Ec
    } else if oid == seq![0x2au8, 0x86, 0x48, 0xce, 0x38, 0x04, 0x01] {
        KeyKind::Dsa
    } else if oid == seq![0x2au8, 0x85, 0x03, 0x02, 0x02, 0x13] {
        KeyKind::Gost94
    } else if oid == seq![0x2au8, 0x85, 0x03, 0x07, 0x01, 0x01, 0x01, 0x01]
        || oid == seq![0x2au8, 0x85, 0x03, 0x07, 0x01, 0x01, 0x01, 0x02] {
        KeyKind::Gost2012
    } else {
        KeyKind::Unknown
    }
}

/// The element at `pos` within `s[..end]` if it has tag `tag` and some content.
pub open spec fn element(s: Seq<u8>, pos: int, end: int, tag: u8) -> Option<Tlv> {
    match tlv_at(s, pos, end) {
        Ok(t) => if t.tag == tag && t.len > 0 { Some(t) } else { None },
        Err(_) => None,
    }
}

/// Modulus and exponent of `RSAPublicKey ::= SEQUENCE { INTEGER, INTEGER }`.
pub open spec fn rsa_parts(k: Seq<u8>) -> Option<(Seq<u8>, Seq<u8>)> {
    match tlv_at(k, 0, k.len() as int) {
        Ok(q) => if q.tag != TAG_SEQUENCE {
            None
        } else {
            match element(k, q.start as int, q.end(), TAG_INTEGER) {
                None => None,
                Some(m) => match element(k, m.end(), q.end(), TAG_INTEGER) {
                    None => None,
                    Some(e) => Some((content(k, m), content(k, e))),
                },
            }
        },
        Err(_) => None,
    }
}

/// The content of a DER element of tag `tag` that the key bits hold.
pub open spec fn single(k: Seq<u8>, tag: u8) -> Option<Seq<u8>> {
    match element(k, 0, k.len() as int, tag) {
        Some(t) => Some(content(k, t)),
        None => None,
    }
}

/// `m` without its leading zero bytes.
pub open spec fn strip_zeros(m: Seq<u8>) -> Seq<u8>
    decreases m.len(),
{
    if m.len() > 0 && m[0] == 0 { strip_zeros(m.drop_first()) } else { m }
}

/// How many bits a value needs.
pub open spec fn bit_len(b: nat) -> nat
    decreases b,
{
    if b == 0 { 0 } else { 1 + bit_len(b / 2) }
}

/// The bit length of an RSA modulus, its bytes read as a big-endian unsigned number.
pub open spec fn rsa_bits(m: Seq<u8>) -> nat {
    let t = strip_zeros(m);
    if t.len() == 0 { 0 } else { (8 * (t.len() - 1) + bit_len(t[0] as nat)) as nat }
}

/// The bit length of a big-endian unsigned number.
fn modulus_bits(m: &[u8]) -> (r: u128)
    ensures
        r == rsa_bits(m@),
{
    let n = m.len();
    let mut i: usize = 0;
    assert(m@.subrange(0, n as int) =~= m@);
    while i < n && m[i] == 0
        invariant
            n == m@.len(),
            i <= n,
            strip_zeros(m@) == strip_zeros(m@.subrange(i as int, n as int)),
        decreases n - i,
    {
        assert(m@.subrange(i as int, n as int).drop_first() =~= m@.subrange(i + 1, n as int));
        i = i + 1;
    }
    let ghost t = m@.subrange(i as int, n as int);
    if i == n {
        assert(t.len() == 0);
        return 0;
    }
    assert(strip_zeros(t) == t);
    let mut x: u8 = m[i];
    let mut k: u128 = 0;
    assert(pow2(0) == 1);
    while x > 0
        invariant
            i < n,
            n == m@.len(),
            k <= 8,
            x as nat * pow2(k as nat) < 256,
            bit_len(m@[i as int] as nat) == k + bit_len(x as nat),
        decreases x,
    {
        proof {
            assert(pow2((k + 1) as nat) == 2 * pow2(k as nat));
            assert((x / 2) as nat * pow2((k + 1) as nat) < 256) by (nonlinear_arith)
                requires x as nat * pow2(k as nat) < 256, pow2((k + 1) as nat) == 2 * pow2(k as nat);
            assert(pow2(k as nat) <= x as nat * pow2(k as nat)) by (nonlinear_arith)
                requires x > 0;
            lemma_pow2_k(k as nat);
        }
        x = x / 2;
        k = k + 1;
    }
    8 * ((n - i) as u128 - 1) + k
}

/// `2` to the power `k`.
pub open spec fn pow2(k: nat) -> nat
    decreases k,
{
    if k == 0 { 1 } else { 2 * pow2((k - 1) as nat) }
}

proof fn lemma_pow2_k(k: nat)
    ensures
        k >= 8 ==> pow2(k) >= 256,
    decreases k,
{
    if k > 8 {
        lemma_pow2_k((k - 1) as nat);
    }
    if k == 8 {
        assert(pow2(0) == 1);
        assert(pow2(1) == 2);
        assert(pow2(2) == 4);
        assert(pow2(3) == 8);
        assert(pow2(4) == 16);
        assert(pow2(5) == 32);
        assert(pow2(6) == 64);
        assert(pow2(7) == 128);
    }
}

/// Bits of an EC point: half of the coordinates' bits when uncompressed (`04`),
/// all of them when compressed (`02`, `03`), else zero.
pub open spec fn ec_bits(p: Seq<u8>) -> nat {
    if p.len() == 0 {
        0
    } else if p[0] == 4 {
        ((p.len() - 1) * 8 / 2) as nat
    } else if p[0] == 2 || p[0] == 3 {
        ((p.len() - 1) * 8) as nat
    } else {
        0
    }
}

/// The first `k` rows of 16 bytes, each as `xx:` per byte after `indent`.
pub open spec fn colon_rows(b: Seq<u8>, k: nat, indent: Seq<char>) -> Seq<char>
    decreases k,
{
    if k == 0 {
        seq![]
    } else {
        colon_rows(b, (k - 1) as nat, indent) + indent + colon_hex(chunk(b, 16, (k - 1) as nat)) + seq!['\n']
    }
}

/// All rows of `b`, each after `indent`.
pub open spec fn rows_text(b: Seq<u8>, indent: Seq<char>) -> Seq<char> {
    colon_rows(b, row_count(b.len(), 16), indent)
}

/// All rows of key material, indented by eight spaces.
pub open spec fn key_rows(b: Seq<u8>) -> Seq<char> {
    rows_text(b, "        "@)
}

/// The exponent line(s): `0x<hex> (<decimal>)`, or a marker and a dump of at most 32 bytes.
pub open spec fn exponent_text(e: Seq<u8>) -> Seq<char> {
    match small_uint(e) {
        Some(v) => "    exponent: 0x"@ + hex_number(v) + " ("@ + decimal(v) + ")\n"@,
        None => "    exponent: <INVALID>:\n"@ + hex_dump(e, 32),
    }
}

/// What the report says of the key bits `k` of an algorithm of kind `kind`.
pub open spec fn key_text(kind: KeyKind, k: Seq<u8>) -> Seq<char> {
    match kind {
        KeyKind::Rsa => match rsa_parts(k) {
            Some((m, e)) => "    RSA Public Key: ("@ + decimal(rsa_bits(m)) + " bit)\n"@ + key_rows(m) + exponent_text(e),
            None => "    INVALID PUBLIC KEY\n"@,
        },
        KeyKind::Ec => "    EC Public Key: ("@ + decimal(ec_bits(k)) + " bit)\n"@ + key_rows(k),
        KeyKind::Dsa => match single(k, TAG_INTEGER) {
            Some(y) => "    DSA Public Key: ("@ + decimal(8 * y.len()) + " bit)\n"@ + key_rows(y),
            None => "    INVALID PUBLIC KEY\n"@,
        },
        KeyKind::Gost94 => match single(k, TAG_OCTET_STRING) {
            Some(y) => "    GOST R 34.10-94 Public Key: ("@ + decimal(8 * y.len()) + " bit)\n"@ + key_rows(y),
            None => "    INVALID PUBLIC KEY\n"@,
        },
        KeyKind::Gost2012 => match single(k, TAG_OCTET_STRING) {
            Some(y) => "    GOST R 34.10-2012 Public Key: ("@ + decimal(8 * y.len()) + " bit)\n"@ + key_rows(y),
            None => "    INVALID PUBLIC KEY\n"@,
        },
        KeyKind::Unknown => "    Unknown key type\n"@ + hex_dump(k, 256) + match tlv_at(k, 0, k.len() as int) {
            Ok(t) => "rem: "@ + decimal((k.len() - t.end()) as nat) + " bytes\n      element tag "@
                + decimal(t.tag as nat) + ", "@ + decimal(t.len as nat) + " content bytes\n"@,
            Err(_) => "      <Could not parse key as DER>\n"@,
        },
    }
}

/// The whole public key block.
pub open spec fn spki_text(p: SubjectPublicKeyInfo) -> Seq<char> {
    "    Public Key Algorithm:\n"@ + algorithm_text(p.algorithm, 6)
        + key_text(key_kind(p.algorithm.algorithm@), p.key@)
}

/// Which kind of key an SPKI algorithm OID names.
pub fn classify_key(oid: &[u8]) -> (k: KeyKind)
    ensures
        k == key_kind(oid@),
{
    let rsa = vec![0x2au8, 0x86, 0x48, 0x86, 0xf7, 0x0d, 0x01, 0x01, 0x01];
    let ec = vec![0x2au8, 0x86, 0x48, 0xce, 0x3d, 0x02, 0x01];
    let dsa = vec![0x2au8, 0x86, 0x48, 0xce, 0x38, 0x04, 0x01];
    let g94 = vec![0x2au8, 0x85, 0x03, 0x02, 0x02, 0x13];
    let g256 = vec![0x2au8, 0x85, 0x03, 0x07, 0x01, 0x01, 0x01, 0x01];
    let g512 = vec![0x2au8, 0x85, 0x03, 0x07, 0x01, 0x01, 0x01, 0x02];
    assert(rsa@ =~= pkcs1_arc().push(0x01));
    assert(ec@ =~= seq![0x2au8, 0x86, 0x48, 0xce, 0x3d, 0x02, 0x01]);
    assert(dsa@ =~= seq![0x2au8, 0x86, 0x48, 0xce, 0x38, 0x04, 0x01]);
    assert(g94@ =~= seq![0x2au8, 0x85, 0x03, 0x02, 0x02, 0x13]);
    assert(g256@ =~= seq![0x2au8, 0x85, 0x03, 0x07, 0x01, 0x01, 0x01, 0x01]);
    assert(g512@ =~= seq![0x2au8, 0x85, 0x03, 0x07, 0x01, 0x01, 0x01, 0x02]);
    if same_bytes(oid, &rsa) {
        KeyKind::Rsa
    } else if same_bytes(oid, &ec) {
        KeyKind::Ec
    } else if same_bytes(oid, &dsa) {
        KeyKind::Dsa
    } else if same_bytes(oid, &g94) {
        KeyKind::Gost94
    } else if same_bytes(oid, &g256) || same_bytes(oid, &g512) {
        KeyKind::Gost2012
    } else {
        KeyKind::Unknown
    }
}

/// Appends the rows of key material, sixteen bytes each, indented by eight spaces.
pub fn push_key_rows(out: &mut String, b: &[u8])
    ensures
        final(out)@ == old(out)@ + key_rows(b@),
{
    push_rows(out, b, "        ");
}

/// Appends the rows of `b`, sixteen bytes each, each after `indent`.
pub fn push_rows(out: &mut String, b: &[u8], indent: &str)
    ensures
        final(out)@ == old(out)@ + rows_text(b@, indent@),
{
    let rows = format_number_to_hex_with_colon(b, 16);
    let ghost a = out@;
    let mut i: usize = 0;
    while i < rows.len()
        invariant
            i <= rows@.len(),
            rows@.len() == row_count(b@.len(), 16),
            forall|j: int| 0 <= j < rows@.len() ==> #[trigger] rows@[j]@ == colon_hex(chunk(b@, 16, j as nat)),
            out@ == a + colon_rows(b@, i as nat, indent@),
        decreases rows@.len() - i,
    {
        push_str(out, indent);
        push_str(out, rows[i].as_str());
        push_char(out, '\n');
        i = i + 1;
        assert(out@ =~= a + colon_rows(b@, i as nat, indent@));
    }
}

/// The element of tag `tag`, with content, at `pos` within `b[..end]`.
fn element_exec(b: &[u8], pos: usize, end: usize, tag: u8) -> (r: Option<Tlv>)
    requires
        end <= b@.len(),
    ensures
        r == element(b@, pos as int, end as int, tag),
        r matches Some(t) ==> t.end() <= end,
{
    match read_tlv(b, pos, end) {
        Ok(t) => if t.tag == tag && t.len > 0 { Some(t) } else { None },
        Err(_) => None,
    }
}

fn push_exponent(out: &mut String, b: &[u8], lo: usize, hi: usize)
    requires
        lo <= hi <= b@.len(),
    ensures
        final(out)@ == old(out)@ + exponent_text(b@.subrange(lo as int, hi as int)),
{
    match parse_small_uint(b, lo, hi) {
        Some(v) => {
            push_str(out, "    exponent: 0x");
            push_hex_number(out, v);
            push_str(out, " (");
            push_decimal(out, v);
            push_str(out, ")\n");
        }
        None => {
            push_str(out, "    exponent: <INVALID>:\n");
            let e = crate::der::copy_range(b, lo, hi);
            print_hex_dump(out, e.as_slice(), 32);
        }
    }
    assert(final(out)@ =~= old(out)@ + exponent_text(b@.subrange(lo as int, hi as int)));
}

fn push_rsa_key(out: &mut String, k: &[u8])
    ensures
        final(out)@ == old(out)@ + key_text(KeyKind::Rsa, k@),
{
    let n = k.len();
    let q = read_tlv(k, 0, n);
    let parts = match q {
        Ok(q) => if q.tag != TAG_SEQUENCE {
            None
        } else {
            match element_exec(k, q.start, q.start + q.len, TAG_INTEGER) {
                None => None,
                Some(m) => match element_exec(k, m.start + m.len, q.start + q.len, TAG_INTEGER) {
                    None => None,
                    Some(e) => Some((m, e)),
                },
            }
        },
        Err(_) => None,
    };
    match parts {
        Some((m, e)) => {
            let modulus = crate::der::copy_range(k, m.start, m.start + m.len);
            let bits = modulus_bits(modulus.as_slice());
            push_str(out, "    RSA Public Key: (");
            push_decimal_wide(out, bits);
            push_str(out, " bit)\n");
            push_key_rows(out, modulus.as_slice());
            push_exponent(out, k, e.start, e.start + e.len);
        }
        None => push_str(out, "    INVALID PUBLIC KEY\n"),
    }
    assert(final(out)@ =~= old(out)@ + key_text(KeyKind::Rsa, k@));
}

fn push_ec_key(out: &mut String, k: &[u8])
    ensures
        final(out)@ == old(out)@ + key_text(KeyKind::Ec, k@),
{
    let n = k.len();
    let bits: u128 = if n == 0 {
        0
    } else if k[0] == 4 {
        (n as u128 - 1) * 8 / 2
    } else if k[0] == 2 || k[0] == 3 {
        (n as u128 - 1) * 8
    } else {
        0
    };
    push_str(out, "    EC Public Key: (");
    push_decimal_wide(out, bits);
    push_str(out, " bit)\n");
    push_key_rows(out, k);
    assert(final(out)@ =~= old(out)@ + key_text(KeyKind::Ec, k@));
}

fn push_single_key(out: &mut String, kind: KeyKind, k: &[u8])
    requires
        kind == KeyKind::Dsa || kind == KeyKind::Gost94 || kind == KeyKind::Gost2012,
    ensures
        final(out)@ == old(out)@ + key_text(kind, k@),
{
    let n = k.len();
    let tag = if kind == KeyKind::Dsa { TAG_INTEGER } else { TAG_OCTET_STRING };
    match element_exec(k, 0, n, tag) {
        Some(t) => {
            let y = crate::der::copy_range(k, t.start, t.start + t.len);
            if kind == KeyKind::Dsa {
                push_str(out, "    DSA Public Key: (");
            } else if kind == KeyKind::Gost94 {
                push_str(out, "    GOST R 34.10-94 Public Key: (");
            } else {
                push_str(out, "    GOST R 34.10-2012 Public Key: (");
            }
            push_decimal_wide(out, 8 * t.len as u128);
            push_str(out, " bit)\n");
            push_key_rows(out, y.as_slice());
        }
        None => push_str(out, "    INVALID PUBLIC KEY\n"),
    }
    assert(final(out)@ =~= old(out)@ + key_text(kind, k@));
}

fn push_unknown_key(out: &mut String, k: &[u8])
    ensures
        final(out)@ == old(out)@ + key_text(KeyKind::Unknown, k@),
{
    let n = k.len();
    push_str(out, "    Unknown key type\n");
    print_hex_dump(out, k, 256);
    match read_tlv(k, 0, n) {
        Ok(t) => {
            push_str(out, "rem: ");
            push_decimal(out, (n - (t.start + t.len)) as u64);
            push_str(out, " bytes\n      element tag ");
            push_decimal(out, t.tag as u64);
            push_str(out, ", ");
            push_decimal(out, t.len as u64);
            push_str(out, " content bytes\n");
        }
        Err(_) => push_str(out, "      <Could not parse key as DER>\n"),
    }
    assert(final(out)@ =~= old(out)@ + key_text(KeyKind::Unknown, k@));
}

/// Appends what the report says of key bits `k` of kind `kind`.
fn push_key(out: &mut String, kind: KeyKind, k: &[u8])
    ensures
        final(out)@ == old(out)@ + key_text(kind, k@),
{
    match kind {
        KeyKind::Rsa => push_rsa_key(out, k),
        KeyKind::Ec => push_ec_key(out, k),
        KeyKind::Unknown => push_unknown_key(out, k),
        _ => push_single_key(out, kind, k),
    }
}

/// Appends the public key block: the algorithm with its parameter, then the
/// key as its kind is shown, or `INVALID PUBLIC KEY` when the bits do not have
/// the form the kind requires.
pub fn print_x509_ski(out: &mut String, p: &SubjectPublicKeyInfo)
    ensures
        final(out)@ == old(out)@ + spki_text(*p),
{
    push_str(out, "    Public Key Algorithm:\n");
    print_x509_digest_algorithm(out, &p.algorithm, 6);
    let kind = classify_key(p.algorithm.algorithm.as_slice());
    push_key(out, kind, p.key.as_slice());
    assert(final(out)@ =~= old(out)@ + spki_text(*p));
}

} // verus!
