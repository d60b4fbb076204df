//! Object identifiers: dotted-decimal text of their DER content, and their
//! short names in x509-parser's registry of known identifiers.

use std::borrow::Cow;
use vstd::prelude::*;
use crate::text::{decimal, push_decimal, push_str, push_char};
use crate::bignum::{be128, digits_ok, push_decimal_big, sub_small};
use crate::hex::{colon_hex, push_colon_hex};

verus! {

/// The first two arcs, which DER packs into one value.
pub open spec fn first_arcs(v: nat) -> Seq<char> {
    if v < 40 {
        seq!['0', '.'] + decimal(v)
    } else if v < 80 {
        seq!['1', '.'] + decimal((v - 40) as nat)
    } else {
        seq!['2', '.'] + decimal((v - 80) as nat)
    }
}

/// Dotted text of the arcs encoded in `s[i..]`, where `acc` holds the value
/// read so far of an unfinished arc (`pending`), and `first` says no arc is done yet.
/// `None` when the content is empty or ends inside an arc; arcs of any size are shown.
pub open spec fn oid_text_from(s: Seq<u8>, i: nat, acc: nat, first: bool, pending: bool) -> Option<Seq<char>>
    decreases s.len() - i,
{
    if i >= s.len() {
        if !pending && !first { Some(seq![]) } else { None }
    } else {
        let v = acc * 128 + (s[i as int] % 128) as nat;
        if s[i as int] >= 128 {
            oid_text_from(s, i + 1, v, first, true)
        } else {
            let head = if first { first_arcs(v) } else { seq!['.'] + decimal(v) };
            match oid_text_from(s, i + 1, 0, false, false) {
                Some(t) => Some(head + t),
                None => None,
            }
        }
    }
}

/// Dotted-decimal text of an identifier given by its DER content bytes.
pub open spec fn oid_text(s: Seq<u8>) -> Option<Seq<char>> {
    oid_text_from(s, 0, 0, true, false)
}

/// The short name that x509-parser's registry holds for the identifier with
/// this DER content, if any.
pub uninterp spec fn registry_short_name(oid: Seq<u8>) -> Option<Seq<char>>;

/// The abbreviation x509-parser gives the attribute type with this DER content
/// in names (`CN`, `O`, ...), else its registry short name, if any.
pub uninterp spec fn registry_abbrev(oid: Seq<u8>) -> Option<Seq<char>>;

/// The characters of an optional string.
pub open spec fn opt_chars(o: Option<String>) -> Option<Seq<char>> {
    match o {
        Some(s) => Some(s@),
        None => None,
    }
}

/// How an identifier is shown: its registered short name, else its dotted
/// form, else (when malformed) its content bytes in hex.
pub open spec fn oid_display(s: Seq<u8>) -> Seq<char> {
    match registry_short_name(s) {
        Some(n) => n,
        None => match oid_text(s) {
            Some(t) => t,
            None => colon_hex(s),
        },
    }
}

/// An identifier's dotted form, or its content bytes in hex when malformed.
pub open spec fn dotted(s: Seq<u8>) -> Seq<char> {
    match oid_text(s) {
        Some(t) => t,
        None => colon_hex(s),
    }
}

/// How an attribute type is shown in a name: its abbreviation, else `OID(` and
/// its dotted form `)`.
pub open spec fn attr_type_display(s: Seq<u8>) -> Seq<char> {
    match registry_abbrev(s) {
        Some(n) => n,
        None => "OID("@ + dotted(s) + ")"@,
    }
}

/// Relies on `x509_parser::objects::oid2sn` over `x509_parser::objects::oid_registry()`:
/// a lookup that depends on the identifier alone.
#[verifier::external_body]
fn lookup_short_name(oid: &[u8]) -> (r: Option<String>)
    ensures
        opt_chars(r) == registry_short_name(oid@),
{
    let oid = der_parser::oid::Oid::new(Cow::Borrowed(oid));
    x509_parser::objects::oid2sn(&oid, x509_parser::objects::oid_registry()).ok().map(|s| s.to_string())
}

/// Relies on `x509_parser::objects::oid2abbrev` over `x509_parser::objects::oid_registry()`:
/// a lookup that depends on the identifier alone.
#[verifier::external_body]
fn lookup_abbrev(oid: &[u8]) -> (r: Option<String>)
    ensures
        opt_chars(r) == registry_abbrev(oid@),
{
    let oid = der_parser::oid::Oid::new(Cow::Borrowed(oid));
    x509_parser::objects::oid2abbrev(&oid, x509_parser::objects::oid_registry()).ok().map(|s| s.to_string())
}

/// `min(value, 128)`.
fn capped(d: &Vec<u8>) -> (r: u64)
    requires
        digits_ok(d@),
    ensures
        r == if be128(d@) < 128 { be128(d@) } else { 128 },
{
    let mut c: u64 = 0;
    let mut i: usize = 0;
    while i < d.len()
        invariant
            digits_ok(d@),
            i <= d@.len(),
            c == if be128(d@.take(i as int)) < 128 { be128(d@.take(i as int)) } else { 128 },
        decreases d@.len() - i,
    {
        assert(d@.take(i + 1).drop_last() =~= d@.take(i as int));
        assert(be128(d@.take(i + 1)) == be128(d@.take(i as int)) * 128 + d@[i as int] as nat);
        if c == 0 {
            c = d[i] as u64;
        } else {
            c = 128;
        }
        i = i + 1;
    }
    assert(d@.take(i as int) =~= d@);
    c
}

fn push_first_arcs(out: &mut String, v: &Vec<u8>)
    requires
        digits_ok(v@),
    ensures
        final(out)@ == old(out)@ + first_arcs(be128(v@)),
{
    let c = capped(v);
    if c < 40 {
        push_str(out, "0.");
        proof { reveal_strlit("0."); }
        push_decimal(out, c);
    } else if c < 80 {
        push_str(out, "1.");
        proof { reveal_strlit("1."); }
        push_decimal(out, c - 40);
    } else {
        push_str(out, "2.");
        proof { reveal_strlit("2."); }
        assert(v@.take(v@.len() as int) =~= v@);
        let w = sub_small(v.as_slice(), v.len(), 80);
        push_decimal_big(out, &w);
    }
    assert(final(out)@ =~= old(out)@ + first_arcs(be128(v@)));
}

fn oid_text_rec(s: &[u8], i: usize, acc: &Vec<u8>, first: bool, pending: bool) -> (r: Option<String>)
    requires
        i <= s@.len(),
        digits_ok(acc@),
    ensures
        opt_chars(r) == oid_text_from(s@, i as nat, be128(acc@), first, pending),
    decreases s@.len() - i,
{
    if i >= s.len() {
        if !pending && !first { Some(String::new()) } else { None }
    } else {
        let mut v = crate::der::copy_range(acc.as_slice(), 0, acc.len());
        assert(v@ =~= acc@);
        v.push(s[i] % 128);
        assert(v@.drop_last() =~= acc@);
        assert(digits_ok(v@));
        if s[i] >= 128 {
            oid_text_rec(s, i + 1, &v, first, true)
        } else {
            let zero: Vec<u8> = Vec::new();
            match oid_text_rec(s, i + 1, &zero, false, false) {
                Some(t) => {
                    let mut head = String::new();
                    if first {
                        push_first_arcs(&mut head, &v);
                    } else {
                        push_char(&mut head, '.');
                        push_decimal_big(&mut head, &v);
                    }
                    push_str(&mut head, t.as_str());
                    proof {
                        let vv = be128(v@);
                        let h = if first { first_arcs(vv) } else { seq!['.'] + decimal(vv) };
                        assert(head@ =~= h + t@);
                    }
                    Some(head)
                }
                None => None,
            }
        }
    }
}

/// Dotted-decimal text of an identifier given by its DER content bytes.
pub fn oid_to_text(s: &[u8]) -> (r: Option<String>)
    ensures
        opt_chars(r) == oid_text(s@),
{
    let zero: Vec<u8> = Vec::new();
    oid_text_rec(s, 0, &zero, true, false)
}

/// An identifier as the report shows it: its registered short name when the
/// registry knows it, else its dotted-decimal form.
pub fn format_oid(oid: &[u8]) -> (r: String)
    ensures
        r@ == oid_display(oid@),
{
    match lookup_short_name(oid) {
        Some(n) => n,
        None => match oid_to_text(oid) {
            Some(t) => t,
            None => {
                let mut h = String::new();
                push_colon_hex(&mut h, oid, 0, oid.len());
                assert(oid@.subrange(0, oid@.len() as int) =~= oid@);
                h
            }
        },
    }
}

/// An identifier's dotted form (its content bytes in hex when malformed).
pub fn format_dotted(oid: &[u8]) -> (r: String)
    ensures
        r@ == dotted(oid@),
{
    match oid_to_text(oid) {
        Some(t) => t,
        None => {
            let mut h = String::new();
            push_colon_hex(&mut h, oid, 0, oid.len());
            assert(oid@.subrange(0, oid@.len() as int) =~= oid@);
            h
        }
    }
}

/// An attribute type as a name shows it (`CN`, `O`, ..., else `OID(1.2.3)`).
pub fn format_attr_type(oid: &[u8]) -> (r: String)
    ensures
        r@ == attr_type_display(oid@),
{
    match lookup_abbrev(oid) {
        Some(n) => n,
        None => {
            let mut r = String::new();
            push_str(&mut r, "OID(");
            let d = format_dotted(oid);
            push_str(&mut r, d.as_str());
            push_str(&mut r, ")");
            r
        }
    }
}

} // verus!
