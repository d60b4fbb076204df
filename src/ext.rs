//! Extensions: the interpreters of the known kinds, and the text of each.

use vstd::prelude::*;
use vstd::utf8::{valid_utf8, decode_utf8};
use crate::cert::{Extension, Element, Name, content, parse_name, name_ok, name_items};
use crate::der::{Tlv, tlv_at, read_tlv, copy_range, same_bytes, TAG_SEQUENCE, TAG_BOOLEAN, TAG_BIT_STRING, TAG_OCTET_STRING};
use crate::name::{colon_joined, push_colon_joined, push_name, utf8_text, rdns_text};
use crate::oid::{oid_display, format_oid, dotted, format_dotted};
use crate::text::{decimal, push_decimal, push_str, push_char, hex_number, push_hex_number};

verus! {

/// The extension kinds that have an interpreter.
#[derive(Debug, Clone, Copy, PartialEq, Eq, Structural)]
pub enum ExtKind {
    AuthorityKeyIdentifier,
    BasicConstraints,
    CrlDistributionPoints,
    KeyUsage,
    NsCertType,
    SubjectAlternativeName,
    SubjectKeyIdentifier,
    Other,
}

/// The interpreter an extension OID selects.
pub open spec fn ext_kind(oid: Seq<u8>) -> ExtKind {
    if oid == seq![0x55u8, 0x1d, 0x23] {
        ExtKind::AuthorityKeyIdentifier
    } else if oid == seq![0x55u8, 0x1d, 0x13] {
        ExtKind::BasicConstraints
    } else if oid == seq![0x55u8, 0x1d, 0x1f] {
        ExtKind::CrlDistributionPoints
    } else if oid == seq![0x55u8, 0x1d, 0x0f] {
        ExtKind::KeyUsage
    } else if oid == seq![0x60u8, 0x86, 0x48, 0x01, 0x86, 0xf8, 0x42, 0x01, 0x01] {
        ExtKind::NsCertType
    } else if oid == seq![0x55u8, 0x1d, 0x11] {
        ExtKind::SubjectAlternativeName
    } else if oid == seq![0x55u8, 0x1d, 0x0e] {
        ExtKind::SubjectKeyIdentifier
    } else {
        ExtKind::Other
    }
}

/// Selects the interpreter for an extension OID.
pub fn classify_extension(oid: &[u8]) -> (k: ExtKind)
    ensures
        k == ext_kind(oid@),
{
    let aki = vec![0x55u8, 0x1d, 0x23];
    let bc = vec![0x55u8, 0x1d, 0x13];
    let crl = vec![0x55u8, 0x1d, 0x1f];
    let ku = vec![0x55u8, 0x1d, 0x0f];
    let ns = vec![0x60u8, 0x86, 0x48, 0x01, 0x86, 0xf8, 0x42, 0x01, 0x01];
    let san = vec![0x55u8, 0x1d, 0x11];
    let ski = vec![0x55u8, 0x1d, 0x0e];
    assert(aki@ =~= seq![0x55u8, 0x1d, 0x23]);
    assert(bc@ =~= seq![0x55u8, 0x1d, 0x13]);
    assert(crl@ =~= seq![0x55u8, 0x1d, 0x1f]);
    assert(ku@ =~= seq![0x55u8, 0x1d, 0x0f]);
    assert(ns@ =~= seq![0x60u8, 0x86, 0x48, 0x01, 0x86, 0xf8, 0x42, 0x01, 0x01]);
    assert(san@ =~= seq![0x55u8, 0x1d, 0x11]);
    assert(ski@ =~= seq![0x55u8, 0x1d, 0x0e]);
    if same_bytes(oid, &aki) {
        ExtKind::AuthorityKeyIdentifier
    } else if same_bytes(oid, &bc) {
        ExtKind::BasicConstraints
    } else if same_bytes(oid, &crl) {
        ExtKind::CrlDistributionPoints
    } else if same_bytes(oid, &ku) {
        ExtKind::KeyUsage
    } else if same_bytes(oid, &ns) {
        ExtKind::NsCertType
    } else if same_bytes(oid, &san) {
        ExtKind::SubjectAlternativeName
    } else if same_bytes(oid, &ski) {
        ExtKind::SubjectKeyIdentifier
    } else {
        ExtKind::Other
    }
}

/// Content shown as text: its characters when valid UTF-8, else its bytes in hex.
pub open spec fn text_or_hex(b: Seq<u8>) -> Seq<char> {
    if valid_utf8(b) { decode_utf8(b) } else { colon_joined(b) }
}

fn push_text_or_hex(out: &mut String, b: &[u8])
    ensures
        final(out)@ == old(out)@ + text_or_hex(b@),
{
    match utf8_text(b) {
        Some(s) => push_str(out, s.as_str()),
        None => push_colon_joined(out, b),
    }
}

/// A 4-byte address in dotted form.
pub open spec fn ipv4_text(b: Seq<u8>) -> Seq<char> {
    decimal(b[0] as nat) + seq!['.'] + decimal(b[1] as nat) + seq!['.'] + decimal(b[2] as nat)
        + seq!['.'] + decimal(b[3] as nat)
}

/// The `i`-th 16-bit group of a 16-byte address.
pub open spec fn group(b: Seq<u8>, i: int) -> nat {
    b[2 * i] as nat * 256 + b[2 * i + 1] as nat
}

/// The longest run of zero groups at or after `i` (the first of equal ones),
/// given the run in progress `(cs, cl)` and the longest so far `(bs, bl)`.
pub open spec fn zero_run(b: Seq<u8>, i: nat, cs: nat, cl: nat, bs: nat, bl: nat) -> (nat, nat)
    decreases 8 - i,
{
    if i >= 8 {
        (bs, bl)
    } else if group(b, i as int) == 0 {
        let (ns, nl) = if cl == 0 { (i, 1nat) } else { (cs, cl + 1) };
        if nl > bl { zero_run(b, i + 1, ns, nl, ns, nl) } else { zero_run(b, i + 1, ns, nl, bs, bl) }
    } else {
        zero_run(b, i + 1, 0, 0, bs, bl)
    }
}

/// Groups `lo..hi` in lower-case hex, joined by `:`.
pub open spec fn groups_text(b: Seq<u8>, lo: nat, hi: nat) -> Seq<char>
    decreases hi - lo,
{
    if hi <= lo {
        seq![]
    } else if hi == lo + 1 {
        hex_number(group(b, lo as int))
    } else {
        groups_text(b, lo, (hi - 1) as nat) + seq![':'] + hex_number(group(b, hi - 1))
    }
}

/// A 16-byte address as text: `::ffff:a.b.c.d` when it maps an IPv4 address,
/// else its groups with the longest run of two or more zero groups written `::`.
pub open spec fn ipv6_text(b: Seq<u8>) -> Seq<char> {
    if (forall|i: int| 0 <= i < 10 ==> b[i] == 0) && b[10] == 0xff && b[11] == 0xff {
        "::ffff:"@ + ipv4_text(b.subrange(12, 16))
    } else {
        let (s, l) = zero_run(b, 0, 0, 0, 0, 0);
        if l >= 2 {
            groups_text(b, 0, s) + "::"@ + groups_text(b, s + l, 8)
        } else {
            groups_text(b, 0, 8)
        }
    }
}

/// An address by its length: dotted for 4 bytes, colon form for 16, else a note of the length.
pub open spec fn ip_text(b: Seq<u8>) -> Seq<char> {
    if b.len() == 4 {
        ipv4_text(b)
    } else if b.len() == 16 {
        ipv6_text(b)
    } else {
        "invalid (len="@ + decimal(b.len()) + ")"@
    }
}

fn push_ipv4(out: &mut String, b: &[u8], lo: usize)
    requires
        lo + 4 <= b@.len(),
    ensures
        final(out)@ == old(out)@ + ipv4_text(b@.subrange(lo as int, lo + 4)),
{
    push_decimal(out, b[lo] as u64);
    push_char(out, '.');
    push_decimal(out, b[lo + 1] as u64);
    push_char(out, '.');
    push_decimal(out, b[lo + 2] as u64);
    push_char(out, '.');
    push_decimal(out, b[lo + 3] as u64);
    assert(final(out)@ =~= old(out)@ + ipv4_text(b@.subrange(lo as int, lo + 4)));
}

fn group_exec(b: &[u8], i: usize) -> (r: u64)
    requires
        b@.len() == 16,
        i < 8,
    ensures
        r == group(b@, i as int),
{
    b[2 * i] as u64 * 256 + b[2 * i + 1] as u64
}

fn push_groups(out: &mut String, b: &[u8], lo: usize, hi: usize)
    requires
        b@.len() == 16,
        lo <= hi <= 8,
    ensures
        final(out)@ == old(out)@ + groups_text(b@, lo as nat, hi as nat),
{
    let ghost a = out@;
    let mut i = lo;
    while i < hi
        invariant
            b@.len() == 16,
            lo <= i <= hi <= 8,
            out@ == a + groups_text(b@, lo as nat, i as nat),
        decreases hi - i,
    {
        if i > lo {
            push_char(out, ':');
        }
        push_hex_number(out, group_exec(b, i));
        i = i + 1;
        assert(out@ =~= a + groups_text(b@, lo as nat, i as nat));
    }
}

fn push_ipv6(out: &mut String, b: &[u8])
    requires
        b@.len() == 16,
    ensures
        final(out)@ == old(out)@ + ipv6_text(b@),
{
    let mut mapped = b[10] == 0xff && b[11] == 0xff;
    let mut j: usize = 0;
    while j < 10
        invariant
            b@.len() == 16,
            j <= 10,
            mapped == (b@[10] == 0xff && b@[11] == 0xff && forall|i: int| 0 <= i < j ==> b@[i] == 0),
        decreases 10 - j,
    {
        if b[j] != 0 {
            mapped = false;
        }
        j = j + 1;
    }
    if mapped {
        push_str(out, "::ffff:");
        push_ipv4(out, b, 12);
        assert(final(out)@ =~= old(out)@ + ipv6_text(b@));
        return;
    }
    let mut cs: usize = 0;
    let mut cl: usize = 0;
    let mut bs: usize = 0;
    let mut bl: usize = 0;
    let mut i: usize = 0;
    while i < 8
        invariant
            b@.len() == 16,
            i <= 8,
            cl <= i,
            bl <= i,
            cs + cl <= i,
            bs + bl <= 8,
            zero_run(b@, 0, 0, 0, 0, 0) == zero_run(b@, i as nat, cs as nat, cl as nat, bs as nat, bl as nat),
        decreases 8 - i,
    {
        if group_exec(b, i) == 0 {
            if cl == 0 {
                cs = i;
                cl = 1;
            } else {
                cl = cl + 1;
            }
            if cl > bl {
                bs = cs;
                bl = cl;
            }
        } else {
            cs = 0;
            cl = 0;
        }
        i = i + 1;
    }
    if bl >= 2 {
        push_groups(out, b, 0, bs);
        push_str(out, "::");
        push_groups(out, b, bs + bl, 8);
    } else {
        push_groups(out, b, 0, 8);
    }
    assert(final(out)@ =~= old(out)@ + ipv6_text(b@));
}

/// Appends the text of an address.
pub fn push_ip(out: &mut String, b: &[u8])
    ensures
        final(out)@ == old(out)@ + ip_text(b@),
{
    if b.len() == 4 {
        push_ipv4(out, b, 0);
        assert(b@.subrange(0, 4) =~= b@);
    } else if b.len() == 16 {
        push_ipv6(out, b);
    } else {
        push_str(out, "invalid (len=");
        push_decimal(out, b.len() as u64);
        push_str(out, ")");
    }
    assert(final(out)@ =~= old(out)@ + ip_text(b@));
}

} // verus!

verus! {
/// The elements found one after another in `s[pos..end]`, as tag and content,
/// or `None` when one of them is malformed.
pub open spec fn elements(s: Seq<u8>, pos: int, end: int) -> Option<Seq<(u8, Seq<u8>)>>
    decreases end - pos,
{
    if pos >= end {
        Some(seq![])
    } else {
        match tlv_at(s, pos, end) {
            Ok(t) => if t.end() <= pos || t.end() > end {
                None
            } else {
                match elements(s, t.end(), end) {
                    Some(r) => Some(seq![(t.tag, content(s, t))] + r),
                    None => None,
                }
            },
            Err(_) => None,
        }
    }
}

/// The elements that `b[lo..hi]` holds.
pub fn read_elements(b: &[u8], lo: usize, hi: usize) -> (r: Option<Vec<Element>>)
    requires
        lo <= hi <= b@.len(),
    ensures
        match r {
            Some(v) => elements(b@, lo as int, hi as int) matches Some(es) && es.len() == v@.len()
                && forall|i: int| 0 <= i < v@.len() ==> (#[trigger] v@[i]).tag == es[i].0 && v@[i].content@ == es[i].1,
            None => elements(b@, lo as int, hi as int) is None,
        },
    decreases hi - lo,
{
    if lo >= hi {
        return Some(Vec::new());
    }
    match read_tlv(b, lo, hi) {
        Ok(t) => {
            let e = t.start + t.len;
            if e <= lo {
                return None;
            }
            match read_elements(b, e, hi) {
                Some(rest) => {
                    let mut v: Vec<Element> = Vec::new();
                    v.push(Element { tag: t.tag, content: copy_range(b, t.start, e) });
                    let ghost es = elements(b@, e as int, hi as int)->Some_0;
                    let mut rest = rest;
                    let ghost rv = rest@;
                    v.append(&mut rest);
                    proof {
                        let all = seq![(t.tag, content(b@, t))] + es;
                        assert forall|i: int| 0 <= i < v@.len() implies (#[trigger] v@[i]).tag == all[i].0
                            && v@[i].content@ == all[i].1 by {
                            if i > 0 {
                                assert(v@[i] == rv[i - 1]);
                            }
                        }
                    }
                    Some(v)
                }
                None => None,
            }
        }
        Err(_) => None,
    }
}


/// A directory name's text: the name's text when it decodes, else its bytes in hex.
pub open spec fn dir_text(c: Seq<u8>) -> Seq<char> {
    if name_ok(c, 0, c.len() as int) { rdns_text(name_items(c, 0, c.len() as int)) } else { colon_joined(c) }
}

/// Bytes as decimal numbers joined by `, `.
pub open spec fn byte_items(b: Seq<u8>) -> Seq<char>
    decreases b.len(),
{
    if b.len() == 0 {
        seq![]
    } else if b.len() == 1 {
        decimal(b[0] as nat)
    } else {
        byte_items(b.drop_last()) + ", "@ + decimal(b.last() as nat)
    }
}

/// Bytes as a list: `[1, 2, 3]`.
pub open spec fn byte_list(b: Seq<u8>) -> Seq<char> {
    seq!['['] + byte_items(b) + seq![']']
}

/// An other-name's content: its type OID dotted, then the rest as a byte list.
pub open spec fn other_name_text(c: Seq<u8>) -> Seq<char> {
    match tlv_at(c, 0, c.len() as int) {
        Ok(o) => if o.tag == 0x06 {
            dotted(content(c, o)) + ", "@ + byte_list(c.subrange(o.end(), c.len() as int))
        } else {
            byte_list(c)
        },
        Err(_) => byte_list(c),
    }
}

/// A general name in the generic form.
pub open spec fn gn_text(tag: u8, c: Seq<u8>) -> Seq<char> {
    if tag == 0x82 { "DNSName:"@ + text_or_hex(c) }
    else if tag == 0xa4 { "DirName:"@ + dir_text(c) }
    else if tag == 0x81 { "RFC822Name:"@ + text_or_hex(c) }
    else if tag == 0x86 { "URI:"@ + text_or_hex(c) }
    else if tag == 0x87 { "IPAddress:"@ + byte_list(c) }
    else if tag == 0x88 { "RegisteredID:"@ + dotted(c) }
    else if tag == 0xa0 { "OtherName:"@ + other_name_text(c) }
    else if tag == 0xa3 { "X400Address:"@ + byte_list(c) }
    else if tag == 0xa5 { "EDIPartyName:"@ + byte_list(c) }
    else { "Unknown:"@ + byte_list(c) }
}

/// Appends bytes as a list: `[1, 2, 3]`.
pub fn push_byte_list(out: &mut String, b: &[u8])
    ensures
        final(out)@ == old(out)@ + byte_list(b@),
{
    push_char(out, '[');
    let ghost a = out@;
    let mut i: usize = 0;
    while i < b.len()
        invariant
            i <= b@.len(),
            out@ == a + byte_items(b@.take(i as int)),
        decreases b@.len() - i,
    {
        if i > 0 {
            push_str(out, ", ");
        }
        push_decimal(out, b[i] as u64);
        i = i + 1;
        assert(b@.take(i as int).drop_last() =~= b@.take(i - 1));
        assert(out@ =~= a + byte_items(b@.take(i as int)));
    }
    assert(b@.take(i as int) =~= b@);
    push_char(out, ']');
    assert(final(out)@ =~= old(out)@ + byte_list(b@));
}

fn push_other_name(out: &mut String, c: &[u8])
    ensures
        final(out)@ == old(out)@ + other_name_text(c@),
{
    let n = c.len();
    match read_tlv(c, 0, n) {
        Ok(o) => if o.tag == 0x06 {
            let id = copy_range(c, o.start, o.start + o.len);
            let d = format_dotted(id.as_slice());
            push_str(out, d.as_str());
            push_str(out, ", ");
            let rest = copy_range(c, o.start + o.len, n);
            push_byte_list(out, rest.as_slice());
        } else {
            push_byte_list(out, c);
        },
        Err(_) => push_byte_list(out, c),
    }
    assert(final(out)@ =~= old(out)@ + other_name_text(c@));
}

/// Appends a general name in the generic form; a directory name (`[4]`) as
/// `DirName:` and the name's text.
pub fn push_general_name(out: &mut String, e: &Element)
    ensures
        final(out)@ == old(out)@ + gn_text(e.tag, e.content@),
{
    let c = e.content.as_slice();
    let t = e.tag;
    if t == 0xa4 {
        push_str(out, "DirName:");
        match parse_name(c, 0, c.len()) {
            Ok((n, _)) => push_name(out, &n),
            Err(_) => push_colon_joined(out, c),
        }
        assert(final(out)@ =~= old(out)@ + gn_text(e.tag, e.content@));
        return;
    }
    if t == 0x82 { push_str(out, "DNSName:"); push_text_or_hex(out, c); }
    else if t == 0x81 { push_str(out, "RFC822Name:"); push_text_or_hex(out, c); }
    else if t == 0x86 { push_str(out, "URI:"); push_text_or_hex(out, c); }
    else if t == 0x87 { push_str(out, "IPAddress:"); push_byte_list(out, c); }
    else if t == 0x88 {
        push_str(out, "RegisteredID:");
        let o = format_dotted(c);
        push_str(out, o.as_str());
    }
    else if t == 0xa0 { push_str(out, "OtherName:"); push_other_name(out, c); }
    else if t == 0xa3 { push_str(out, "X400Address:"); push_byte_list(out, c); }
    else if t == 0xa5 { push_str(out, "EDIPartyName:"); push_byte_list(out, c); }
    else { push_str(out, "Unknown:"); push_byte_list(out, c); }
    assert(final(out)@ =~= old(out)@ + gn_text(e.tag, e.content@));
}

/// One subject alternative name: `DNS:` and the name, `IP Address:` and the
/// address, any other kind in the generic form.
pub open spec fn san_text(tag: u8, c: Seq<u8>) -> Seq<char> {
    if tag == 0x82 {
        "DNS:"@ + text_or_hex(c)
    } else if tag == 0x87 {
        "IP Address:"@ + ip_text(c)
    } else {
        gn_text(tag, c)
    }
}

/// The first `k` names as report lines.
pub open spec fn san_lines(es: Seq<(u8, Seq<u8>)>, k: nat) -> Seq<char>
    decreases k,
{
    if k == 0 {
        seq![]
    } else {
        san_lines(es, (k - 1) as nat) + "      X509v3 SAN: "@ + san_text(es[k - 1].0, es[k - 1].1) + seq!['\n']
    }
}

/// What an extension value that cannot be interpreted shows.
pub open spec fn invalid_text(v: Seq<u8>) -> Seq<char> {
    "      Invalid extension value: "@ + colon_joined(v) + seq!['\n']
}

/// The general names of a `SEQUENCE OF GeneralName` value.
pub open spec fn general_names(v: Seq<u8>) -> Option<Seq<(u8, Seq<u8>)>> {
    match tlv_at(v, 0, v.len() as int) {
        Ok(t) => if t.tag == TAG_SEQUENCE { elements(v, t.start as int, t.end()) } else { None },
        Err(_) => None,
    }
}

/// The lines of a SubjectAlternativeName value, one per name in encoded order.
pub open spec fn san_body(v: Seq<u8>) -> Seq<char> {
    match general_names(v) {
        Some(es) => san_lines(es, es.len()),
        None => invalid_text(v),
    }
}

fn read_general_names(v: &[u8]) -> (r: Option<Vec<Element>>)
    ensures
        match r {
            Some(x) => general_names(v@) matches Some(es) && es.len() == x@.len()
                && forall|i: int| 0 <= i < x@.len() ==> (#[trigger] x@[i]).tag == es[i].0 && x@[i].content@ == es[i].1,
            None => general_names(v@) is None,
        },
{
    match read_tlv(v, 0, v.len()) {
        Ok(t) => if t.tag == TAG_SEQUENCE { read_elements(v, t.start, t.start + t.len) } else { None },
        Err(_) => None,
    }
}

fn push_invalid(out: &mut String, v: &[u8])
    ensures
        final(out)@ == old(out)@ + invalid_text(v@),
{
    push_str(out, "      Invalid extension value: ");
    push_colon_joined(out, v);
    push_char(out, '\n');
    assert(final(out)@ =~= old(out)@ + invalid_text(v@));
}

/// Appends the lines of a SubjectAlternativeName value.
pub fn push_san(out: &mut String, v: &[u8])
    ensures
        final(out)@ == old(out)@ + san_body(v@),
{
    match read_general_names(v) {
        None => push_invalid(out, v),
        Some(names) => {
            let ghost es = general_names(v@)->Some_0;
            let ghost a = out@;
            let mut i: usize = 0;
            while i < names.len()
                invariant
                    es.len() == names@.len(),
                    forall|j: int| 0 <= j < names@.len() ==> (#[trigger] names@[j]).tag == es[j].0 && names@[j].content@ == es[j].1,
                    i <= names@.len(),
                    out@ == a + san_lines(es, i as nat),
                decreases names@.len() - i,
            {
                push_str(out, "      X509v3 SAN: ");
                let e = &names[i];
                if e.tag == 0x82 {
                    push_str(out, "DNS:");
                    push_text_or_hex(out, e.content.as_slice());
                } else if e.tag == 0x87 {
                    push_str(out, "IP Address:");
                    push_ip(out, e.content.as_slice());
                } else {
                    push_general_name(out, e);
                }
                push_char(out, '\n');
                i = i + 1;
                assert(out@ =~= a + san_lines(es, i as nat));
            }
        }
    }
}

/// Whether named bit `i` (counted from the first byte's high bit) is set.
pub open spec fn bit_set(d: Seq<u8>, i: nat) -> bool {
    i / 8 < d.len() && (d[(i / 8) as int] >> ((7 - i % 8) as u8)) & 1u8 == 1u8
}

/// Key usage flag names, by bit.
pub open spec fn key_usage_names() -> Seq<Seq<char>> {
    seq!["Digital Signature"@, "Non Repudiation"@, "Key Encipherment"@, "Data Encipherment"@,
        "Key Agreement"@, "Key Cert Sign"@, "CRL Sign"@, "Encipher Only"@, "Decipher Only"@]
}

/// Netscape certificate type flag names, by bit.
pub open spec fn ns_cert_type_names() -> Seq<Seq<char>> {
    seq!["SSL Client"@, "SSL Server"@, "S/MIME"@, "Object Signing"@, "Reserved"@, "SSL CA"@,
        "S/MIME CA"@, "Object Signing CA"@]
}

/// CRL reason flag names, by bit.
pub open spec fn reason_names() -> Seq<Seq<char>> {
    seq!["Unused"@, "Key Compromise"@, "CA Compromise"@, "Affiliation Changed"@, "Superseded"@,
        "Cessation Of Operation"@, "Certificate Hold"@, "Privilege Withdrawn"@, "AA Compromise"@]
}

/// The names of the set bits among the first `k`, joined by `, `.
pub open spec fn flags_text(d: Seq<u8>, names: Seq<Seq<char>>, k: nat) -> Seq<char>
    decreases k,
{
    if k == 0 {
        seq![]
    } else {
        let before = flags_text(d, names, (k - 1) as nat);
        if !bit_set(d, (k - 1) as nat) {
            before
        } else if before.len() == 0 {
            names[k - 1]
        } else {
            before + ", "@ + names[k - 1]
        }
    }
}

fn flag_name(set: u8, i: usize) -> (r: &'static str)
    requires
        set == 0 ==> i < 9,
        set == 1 ==> i < 8,
        set == 2 ==> i < 9,
    ensures
        set == 0 ==> r@ == key_usage_names()[i as int],
        set == 1 ==> r@ == ns_cert_type_names()[i as int],
        set == 2 ==> r@ == reason_names()[i as int],
{
    if set == 0 {
        if i == 0 { "Digital Signature" } else if i == 1 { "Non Repudiation" } else if i == 2 { "Key Encipherment" }
        else if i == 3 { "Data Encipherment" } else if i == 4 { "Key Agreement" } else if i == 5 { "Key Cert Sign" }
        else if i == 6 { "CRL Sign" } else if i == 7 { "Encipher Only" } else { "Decipher Only" }
    } else if set == 1 {
        if i == 0 { "SSL Client" } else if i == 1 { "SSL Server" } else if i == 2 { "S/MIME" }
        else if i == 3 { "Object Signing" } else if i == 4 { "Reserved" } else if i == 5 { "SSL CA" }
        else if i == 6 { "S/MIME CA" } else { "Object Signing CA" }
    } else {
        if i == 0 { "Unused" } else if i == 1 { "Key Compromise" } else if i == 2 { "CA Compromise" }
        else if i == 3 { "Affiliation Changed" } else if i == 4 { "Superseded" } else if i == 5 { "Cessation Of Operation" }
        else if i == 6 { "Certificate Hold" } else if i == 7 { "Privilege Withdrawn" } else { "AA Compromise" }
    }
}

/// The name table of flag set `set`: 0 key usage, 1 Netscape certificate type, 2 CRL reasons.
pub open spec fn flag_table(set: u8) -> Seq<Seq<char>> {
    if set == 0 { key_usage_names() } else if set == 1 { ns_cert_type_names() } else { reason_names() }
}

proof fn lemma_names_nonempty(set: u8, i: int)
    requires
        set <= 2,
        0 <= i < flag_table(set).len(),
    ensures
        flag_table(set)[i].len() > 0,
{
    reveal_strlit("Digital Signature"); reveal_strlit("Non Repudiation"); reveal_strlit("Key Encipherment");
    reveal_strlit("Data Encipherment"); reveal_strlit("Key Agreement"); reveal_strlit("Key Cert Sign");
    reveal_strlit("CRL Sign"); reveal_strlit("Encipher Only"); reveal_strlit("Decipher Only");
    reveal_strlit("SSL Client"); reveal_strlit("SSL Server"); reveal_strlit("S/MIME");
    reveal_strlit("Object Signing"); reveal_strlit("Reserved"); reveal_strlit("SSL CA");
    reveal_strlit("S/MIME CA"); reveal_strlit("Object Signing CA");
    reveal_strlit("Unused"); reveal_strlit("Key Compromise"); reveal_strlit("CA Compromise");
    reveal_strlit("Affiliation Changed"); reveal_strlit("Superseded"); reveal_strlit("Cessation Of Operation");
    reveal_strlit("Certificate Hold"); reveal_strlit("Privilege Withdrawn"); reveal_strlit("AA Compromise");
}

/// Appends the names of the set flags of `d[lo..hi]`.
fn push_flags(out: &mut String, d: &[u8], lo: usize, hi: usize, set: u8)
    requires
        lo <= hi <= d@.len(),
        set <= 2,
    ensures
        final(out)@ == old(out)@ + flags_text(d@.subrange(lo as int, hi as int), flag_table(set), flag_table(set).len()),
{
    let ghost b = d@.subrange(lo as int, hi as int);
    let ghost names = flag_table(set);
    let n: usize = if set == 1 { 8 } else { 9 };
    let mut t = String::new();
    let mut any = false;
    let mut i: usize = 0;
    while i < n
        invariant
            any == (t@.len() > 0),
            lo <= hi <= d@.len(),
            b == d@.subrange(lo as int, hi as int),
            set <= 2,
            names == flag_table(set),
            n == names.len(),
            i <= n,
            t@ == flags_text(b, names, i as nat),
        decreases n - i,
    {
        let k = i / 8;
        let is_set = k < hi - lo && (d[lo + k] >> ((7 - i % 8) as u8)) & 1u8 == 1u8;
        assert(is_set == bit_set(b, i as nat));
        if is_set {
            if any {
                push_str(&mut t, ", ");
            }
            let name = flag_name(set, i);
            push_str(&mut t, name);
            assert(name@.len() > 0) by {
                assert(names[i as int].len() > 0) by { lemma_names_nonempty(set, i as int); }
            }
            any = true;
        }
        proof {
            assert(t@.len() == 0 ==> flags_text(b, names, i as nat).len() == 0);
        }
        i = i + 1;
        assert(t@ =~= flags_text(b, names, i as nat));
    }
    push_str(out, t.as_str());
}

pub open spec fn bool_text(b: bool) -> Seq<char> {
    if b { "true"@ } else { "false"@ }
}

fn push_bool(out: &mut String, b: bool)
    ensures
        final(out)@ == old(out)@ + bool_text(b),
{
    if b { push_str(out, "true"); } else { push_str(out, "false"); }
}

/// The first line of every extension: critical flag, value length, OID.
pub open spec fn ext_header(x: Extension) -> Seq<char> {
    "    [crit:"@ + bool_text(x.critical) + " l:"@ + decimal(x.value@.len()) + "] "@
        + oid_display(x.oid@) + ": \n"@
}

/// The CA flag of a BasicConstraints value whose outer element is `t`.
pub open spec fn ca_flag(v: Seq<u8>, t: Tlv) -> bool {
    match tlv_at(v, t.start as int, t.end()) {
        Ok(b) => b.tag == TAG_BOOLEAN && b.len == 1 && v[b.start as int] != 0,
        Err(_) => false,
    }
}

/// The body of each interpreted kind but the two that may hold directory names.
pub open spec fn ext_body(kind: ExtKind, v: Seq<u8>) -> Seq<char> {
    let outer = tlv_at(v, 0, v.len() as int);
    match kind {
        ExtKind::BasicConstraints => match outer {
            Ok(t) => if t.tag == TAG_SEQUENCE {
                "      X509v3 CA: "@ + bool_text(ca_flag(v, t)) + seq!['\n']
            } else {
                invalid_text(v)
            },
            Err(_) => invalid_text(v),
        },
        ExtKind::KeyUsage => match outer {
            Ok(t) => if t.tag == TAG_BIT_STRING && t.len >= 1 {
                "      X509v3 Key Usage: "@ + flags_text(v.subrange(t.start + 1, t.end()),
                    key_usage_names(), 9) + seq!['\n']
            } else {
                invalid_text(v)
            },
            Err(_) => invalid_text(v),
        },
        ExtKind::NsCertType => match outer {
            Ok(t) => if t.tag == TAG_BIT_STRING && t.len == 2 {
                "      Netscape Cert Type: "@ + flags_text(v.subrange(t.start + 1, t.end()),
                    ns_cert_type_names(), 8) + seq!['\n']
            } else {
                invalid_text(v)
            },
            Err(_) => invalid_text(v),
        },
        ExtKind::SubjectKeyIdentifier => match outer {
            Ok(t) => if t.tag == TAG_OCTET_STRING {
                "      X509v3 Subject Key Identifier: "@ + colon_joined(content(v, t)) + seq!['\n']
            } else {
                invalid_text(v)
            },
            Err(_) => invalid_text(v),
        },
        ExtKind::SubjectAlternativeName => san_body(v),
        _ => "      Raw: "@ + colon_joined(v) + seq!['\n'],
    }
}

fn push_simple_body(out: &mut String, kind: ExtKind, v: &[u8])
    requires
        kind != ExtKind::AuthorityKeyIdentifier,
        kind != ExtKind::CrlDistributionPoints,
        kind != ExtKind::SubjectAlternativeName,
    ensures
        final(out)@ == old(out)@ + ext_body(kind, v@),
{
    let n = v.len();
    let outer = read_tlv(v, 0, n);
    match kind {
        ExtKind::BasicConstraints => match outer {
            Ok(t) => if t.tag == TAG_SEQUENCE {
                let ca = match read_tlv(v, t.start, t.start + t.len) {
                    Ok(b) => b.tag == TAG_BOOLEAN && b.len == 1 && v[b.start] != 0,
                    Err(_) => false,
                };
                push_str(out, "      X509v3 CA: ");
                push_bool(out, ca);
                push_char(out, '\n');
            } else {
                push_invalid(out, v);
            },
            Err(_) => push_invalid(out, v),
        },
        ExtKind::KeyUsage | ExtKind::NsCertType => match outer {
            Ok(t) => if t.tag == TAG_BIT_STRING && ((kind == ExtKind::KeyUsage && t.len >= 1) || t.len == 2) {
                if kind == ExtKind::KeyUsage {
                    push_str(out, "      X509v3 Key Usage: ");
                    push_flags(out, v, t.start + 1, t.start + t.len, 0);
                } else {
                    push_str(out, "      Netscape Cert Type: ");
                    push_flags(out, v, t.start + 1, t.start + t.len, 1);
                }
                push_char(out, '\n');
            } else {
                push_invalid(out, v);
            },
            Err(_) => push_invalid(out, v),
        },
        ExtKind::SubjectKeyIdentifier => match outer {
            Ok(t) => if t.tag == TAG_OCTET_STRING {
                push_str(out, "      X509v3 Subject Key Identifier: ");
                let c = copy_range(v, t.start, t.start + t.len);
                push_colon_joined(out, c.as_slice());
                push_char(out, '\n');
            } else {
                push_invalid(out, v);
            },
            Err(_) => push_invalid(out, v),
        },
        _ => {
            push_str(out, "      Raw: ");
            push_colon_joined(out, v);
            push_char(out, '\n');
        }
    }
    assert(final(out)@ =~= old(out)@ + ext_body(kind, v@));
}

/// `Cert Issuer:` lines, one per general name.
pub open spec fn issuer_lines(ns: Seq<(u8, Seq<u8>)>, k: nat) -> Seq<char>
    decreases k,
{
    if k == 0 {
        seq![]
    } else {
        issuer_lines(ns, (k - 1) as nat) + "        Cert Issuer: "@ + gn_text(ns[k - 1].0, ns[k - 1].1) + seq!['\n']
    }
}

/// The lines of one AuthorityKeyIdentifier field; fields of other tags show nothing.
pub open spec fn aki_field(tag: u8, c: Seq<u8>) -> Seq<char> {
    if tag == 0x80 {
        "        Key Identifier: "@ + colon_joined(c) + seq!['\n']
    } else if tag == 0xa1 {
        match elements(c, 0, c.len() as int) {
            Some(ns) => issuer_lines(ns, ns.len()),
            None => invalid_text(c),
        }
    } else if tag == 0x82 {
        "        Cert Serial: "@ + colon_joined(c) + seq!['\n']
    } else {
        seq![]
    }
}

/// The first `k` fields' lines.
pub open spec fn aki_fields(fs: Seq<(u8, Seq<u8>)>, k: nat) -> Seq<char>
    decreases k,
{
    if k == 0 { seq![] } else { aki_fields(fs, (k - 1) as nat) + aki_field(fs[k - 1].0, fs[k - 1].1) }
}

/// The lines of an AuthorityKeyIdentifier value: key identifier, issuer names,
/// serial, in encoded order.
pub open spec fn aki_body(v: Seq<u8>) -> Seq<char> {
    match tlv_at(v, 0, v.len() as int) {
        Err(_) => invalid_text(v),
        Ok(t) => match elements(v, t.start as int, t.end()) {
            None => invalid_text(v),
            Some(fs) => "      X509v3 Authority Key Identifier\n"@ + aki_fields(fs, fs.len()),
        },
    }
}

fn push_issuers(out: &mut String, c: &[u8])
    ensures
        final(out)@ == old(out)@ + aki_field(0xa1, c@),
{
    match read_elements(c, 0, c.len()) {
        Some(names) => {
            let ghost ns = elements(c@, 0, c@.len() as int)->Some_0;
            let ghost a = out@;
            let mut j: usize = 0;
            while j < names.len()
                invariant
                    ns.len() == names@.len(),
                    forall|i: int| 0 <= i < names@.len() ==> (#[trigger] names@[i]).tag == ns[i].0 && names@[i].content@ == ns[i].1,
                    j <= names@.len(),
                    out@ == a + issuer_lines(ns, j as nat),
                decreases names@.len() - j,
            {
                push_str(out, "        Cert Issuer: ");
                push_general_name(out, &names[j]);
                push_char(out, '\n');
                j = j + 1;
                assert(out@ =~= a + issuer_lines(ns, j as nat));
            }
            assert(c@.subrange(0, c@.len() as int) =~= c@);
        }
        None => push_invalid(out, c),
    }
}

fn push_aki_field(out: &mut String, f: &Element)
    ensures
        final(out)@ == old(out)@ + aki_field(f.tag, f.content@),
{
    if f.tag == 0x80 {
        push_str(out, "        Key Identifier: ");
        push_colon_joined(out, f.content.as_slice());
        push_char(out, '\n');
    } else if f.tag == 0xa1 {
        push_issuers(out, f.content.as_slice());
    } else if f.tag == 0x82 {
        push_str(out, "        Cert Serial: ");
        push_colon_joined(out, f.content.as_slice());
        push_char(out, '\n');
    }
    assert(final(out)@ =~= old(out)@ + aki_field(f.tag, f.content@));
}

/// The lines of an AuthorityKeyIdentifier value: key identifier, issuer names, serial.
fn aki_text(v: &[u8]) -> (out: String)
    ensures
        out@ == aki_body(v@),
{
    let mut out = String::new();
    let n = v.len();
    let t = match read_tlv(v, 0, n) {
        Ok(t) => t,
        Err(_) => {
            push_invalid(&mut out, v);
            return out;
        }
    };
    let fields = match read_elements(v, t.start, t.start + t.len) {
        Some(f) => f,
        None => {
            push_invalid(&mut out, v);
            return out;
        }
    };
    let ghost fs = elements(v@, t.start as int, t.end())->Some_0;
    push_str(&mut out, "      X509v3 Authority Key Identifier\n");
    let ghost a = out@;
    let mut i: usize = 0;
    while i < fields.len()
        invariant
            fs.len() == fields@.len(),
            forall|j: int| 0 <= j < fields@.len() ==> (#[trigger] fields@[j]).tag == fs[j].0 && fields@[j].content@ == fs[j].1,
            i <= fields@.len(),
            out@ == a + aki_fields(fs, i as nat),
        decreases fields@.len() - i,
    {
        push_aki_field(&mut out, &fields[i]);
        i = i + 1;
        assert(out@ =~= a + aki_fields(fs, i as nat));
    }
    out
}

/// General names each followed by a space.
pub open spec fn spaced_names(ns: Seq<(u8, Seq<u8>)>, k: nat) -> Seq<char>
    decreases k,
{
    if k == 0 { seq![] } else { spaced_names(ns, (k - 1) as nat) + gn_text(ns[k - 1].0, ns[k - 1].1) + seq![' '] }
}

/// The general names in `c`, each followed by a space; the bytes in hex when malformed.
pub open spec fn names_spaced(c: Seq<u8>) -> Seq<char> {
    match elements(c, 0, c.len() as int) {
        Some(ns) => spaced_names(ns, ns.len()),
        None => colon_joined(c),
    }
}

/// A distribution point's name: a full name's general names, or a relative name in hex.
pub open spec fn full_name_text(c: Seq<u8>) -> Seq<char> {
    match tlv_at(c, 0, c.len() as int) {
        Ok(d) => if d.tag == 0xa0 { names_spaced(content(c, d)) } else { "RelativeName:"@ + colon_joined(c) },
        Err(_) => colon_joined(c),
    }
}

/// The line of one distribution point field; fields of other tags show nothing.
pub open spec fn point_field(tag: u8, c: Seq<u8>) -> Seq<char> {
    if tag == 0xa0 {
        "        Full Name: "@ + full_name_text(c) + seq!['\n']
    } else if tag == 0x81 {
        "        Reasons: "@ + (if c.len() >= 1 { flags_text(c.subrange(1, c.len() as int), reason_names(), 9) } else { seq![] })
            + seq!['\n']
    } else if tag == 0xa2 {
        "        CRL Issuer: "@ + names_spaced(c) + seq!['\n']
    } else {
        seq![]
    }
}

pub open spec fn point_fields(fs: Seq<(u8, Seq<u8>)>, k: nat) -> Seq<char>
    decreases k,
{
    if k == 0 { seq![] } else { point_fields(fs, (k - 1) as nat) + point_field(fs[k - 1].0, fs[k - 1].1) }
}

/// One distribution point: its fields' lines, then an empty line.
pub open spec fn point_text(p: Seq<u8>) -> Seq<char> {
    (match elements(p, 0, p.len() as int) {
        Some(fs) => point_fields(fs, fs.len()),
        None => invalid_text(p),
    }) + seq!['\n']
}

pub open spec fn points_text(ps: Seq<(u8, Seq<u8>)>, k: nat) -> Seq<char>
    decreases k,
{
    if k == 0 { seq![] } else { points_text(ps, (k - 1) as nat) + point_text(ps[k - 1].1) }
}

/// The lines of a CRLDistributionPoints value.
pub open spec fn crl_body(v: Seq<u8>) -> Seq<char> {
    match general_names(v) {
        Some(ps) => "      X509v3 CRL Distribution Points:\n"@ + points_text(ps, ps.len()),
        None => invalid_text(v),
    }
}

/// Appends general names each followed by a space.
fn push_names_spaced(out: &mut String, c: &[u8])
    ensures
        final(out)@ == old(out)@ + names_spaced(c@),
{
    match read_elements(c, 0, c.len()) {
        Some(names) => {
            let ghost ns = elements(c@, 0, c@.len() as int)->Some_0;
            let ghost a = out@;
            let mut j: usize = 0;
            while j < names.len()
                invariant
                    ns.len() == names@.len(),
                    forall|i: int| 0 <= i < names@.len() ==> (#[trigger] names@[i]).tag == ns[i].0 && names@[i].content@ == ns[i].1,
                    j <= names@.len(),
                    out@ == a + spaced_names(ns, j as nat),
                decreases names@.len() - j,
            {
                push_general_name(out, &names[j]);
                push_char(out, ' ');
                j = j + 1;
                assert(out@ =~= a + spaced_names(ns, j as nat));
            }
        }
        None => push_colon_joined(out, c),
    }
}

fn push_point_field(out: &mut String, f: &Element)
    ensures
        final(out)@ == old(out)@ + point_field(f.tag, f.content@),
{
    let c = f.content.as_slice();
    if f.tag == 0xa0 {
        push_str(out, "        Full Name: ");
        match read_tlv(c, 0, c.len()) {
            Ok(d) => if d.tag == 0xa0 {
                let names = copy_range(c, d.start, d.start + d.len);
                push_names_spaced(out, names.as_slice());
            } else {
                push_str(out, "RelativeName:");
                push_colon_joined(out, c);
            },
            Err(_) => push_colon_joined(out, c),
        }
        push_char(out, '\n');
    } else if f.tag == 0x81 {
        push_str(out, "        Reasons: ");
        if c.len() >= 1 {
            push_flags(out, c, 1, c.len(), 2);
        }
        push_char(out, '\n');
    } else if f.tag == 0xa2 {
        push_str(out, "        CRL Issuer: ");
        push_names_spaced(out, c);
        push_char(out, '\n');
    }
    assert(final(out)@ =~= old(out)@ + point_field(f.tag, f.content@));
}

fn push_point(out: &mut String, p: &[u8])
    ensures
        final(out)@ == old(out)@ + point_text(p@),
{
    match read_elements(p, 0, p.len()) {
        Some(fields) => {
            let ghost fs = elements(p@, 0, p@.len() as int)->Some_0;
            let ghost a = out@;
            let mut j: usize = 0;
            while j < fields.len()
                invariant
                    fs.len() == fields@.len(),
                    forall|i: int| 0 <= i < fields@.len() ==> (#[trigger] fields@[i]).tag == fs[i].0 && fields@[i].content@ == fs[i].1,
                    j <= fields@.len(),
                    out@ == a + point_fields(fs, j as nat),
                decreases fields@.len() - j,
            {
                push_point_field(out, &fields[j]);
                j = j + 1;
                assert(out@ =~= a + point_fields(fs, j as nat));
            }
        }
        None => push_invalid(out, p),
    }
    push_char(out, '\n');
    assert(final(out)@ =~= old(out)@ + point_text(p@));
}

/// The lines of a CRLDistributionPoints value: for each point its full name,
/// reasons and CRL issuer when present, then an empty line.
fn crl_text(v: &[u8]) -> (out: String)
    ensures
        out@ == crl_body(v@),
{
    let mut out = String::new();
    let points = match read_general_names(v) {
        Some(p) => p,
        None => {
            push_invalid(&mut out, v);
            return out;
        }
    };
    let ghost ps = general_names(v@)->Some_0;
    push_str(&mut out, "      X509v3 CRL Distribution Points:\n");
    let ghost a = out@;
    let mut i: usize = 0;
    while i < points.len()
        invariant
            ps.len() == points@.len(),
            forall|j: int| 0 <= j < points@.len() ==> (#[trigger] points@[j]).tag == ps[j].0 && points@[j].content@ == ps[j].1,
            i <= points@.len(),
            out@ == a + points_text(ps, i as nat),
        decreases points@.len() - i,
    {
        push_point(&mut out, points[i].content.as_slice());
        i = i + 1;
        assert(out@ =~= a + points_text(ps, i as nat));
    }
    out
}

/// The whole text of one extension: its header line, then its interpreter's lines.
pub open spec fn ext_text(x: Extension) -> Seq<char> {
    let kind = ext_kind(x.oid@);
    ext_header(x) + if kind == ExtKind::AuthorityKeyIdentifier {
        aki_body(x.value@)
    } else if kind == ExtKind::CrlDistributionPoints {
        crl_body(x.value@)
    } else {
        ext_body(kind, x.value@)
    }
}

/// Appends one extension: the line with its critical flag, length and OID,
/// then what its interpreter makes of the value (a raw dump for kinds without one).
pub fn print_x509_extension(out: &mut String, x: &Extension)
    ensures
        final(out)@ == old(out)@ + ext_text(*x),
{
    push_str(out, "    [crit:");
    push_bool(out, x.critical);
    push_str(out, " l:");
    push_decimal(out, x.value.len() as u64);
    push_str(out, "] ");
    let o = format_oid(x.oid.as_slice());
    push_str(out, o.as_str());
    push_str(out, ": \n");
    let ghost head = out@;
    assert(head =~= old(out)@ + ext_header(*x));
    let v = x.value.as_slice();
    let kind = classify_extension(x.oid.as_slice());
    let mut body = String::new();
    match kind {
        ExtKind::AuthorityKeyIdentifier => { body = aki_text(v); }
        ExtKind::CrlDistributionPoints => { body = crl_text(v); }
        ExtKind::SubjectAlternativeName => push_san(&mut body, v),
        _ => push_simple_body(&mut body, kind, v),
    }
    push_str(out, body.as_str());
    assert(out@ =~= old(out)@ + ext_text(*x));
}

} // verus!
