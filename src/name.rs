//! Text of distinguished names and of their attribute values.

use vstd::prelude::*;
use vstd::utf8::{valid_utf8, decode_utf8};
use crate::cert::{Attribute, Element, Name, AttrView, attr_view, rdn_view, name_view};
use crate::hex::{colon_hex, push_colon_hex};
use crate::oid::{attr_type_display, format_attr_type};
use crate::text::{hex_pair, push_hex_pair, push_str, push_char};

verus! {

/// Relies on `std::str::from_utf8`: the characters exactly when the bytes are valid UTF-8.
#[verifier::external_body]
pub(crate) fn utf8_text(b: &[u8]) -> (r: Option<String>)
    ensures
        match r {
            Some(s) => valid_utf8(b@) && s@ == decode_utf8(b@),
            None => !valid_utf8(b@),
        },
{
    std::str::from_utf8(b).ok().map(|s| s.to_string())
}

/// Bytes as hex pairs joined by `:` (no trailing colon).
pub open spec fn colon_joined(b: Seq<u8>) -> Seq<char> {
    if b.len() == 0 {
        seq![]
    } else {
        colon_hex(b.drop_last()) + hex_pair(b.last())
    }
}

/// Appends the bytes as hex pairs joined by `:`.
pub fn push_colon_joined(out: &mut String, b: &[u8])
    ensures
        final(out)@ == old(out)@ + colon_joined(b@),
{
    if b.len() > 0 {
        let n = b.len();
        push_colon_hex(out, b, 0, n - 1);
        push_hex_pair(out, b[n - 1]);
        assert(b@.subrange(0, n - 1) =~= b@.drop_last());
    }
    assert(final(out)@ =~= old(out)@ + colon_joined(b@));
}

/// Tags of the string types whose content is shown as text.
pub open spec fn is_string_tag(t: u8) -> bool {
    t == 0x0c || t == 0x12 || t == 0x13 || t == 0x14 || t == 0x15 || t == 0x16
        || t == 0x19 || t == 0x1a || t == 0x1b || t == 0x07
}

/// An attribute value: string types valid as UTF-8 as their text, anything else
/// as its content bytes in hex.
pub open spec fn value_text(tag: u8, c: Seq<u8>) -> Seq<char> {
    if is_string_tag(tag) && valid_utf8(c) {
        decode_utf8(c)
    } else {
        colon_joined(c)
    }
}

/// `TYPE=value`.
pub open spec fn attr_text(a: AttrView) -> Seq<char> {
    attr_type_display(a.0) + seq!['='] + value_text(a.1, a.2)
}

/// The attributes of one relative distinguished name, joined by ` + `.
pub open spec fn rdn_text(s: Seq<AttrView>) -> Seq<char>
    decreases s.len(),
{
    if s.len() == 0 {
        seq![]
    } else if s.len() == 1 {
        attr_text(s[0])
    } else {
        rdn_text(s.drop_last()) + " + "@ + attr_text(s.last())
    }
}

/// Relative distinguished names in order, joined by `, `.
pub open spec fn rdns_text(s: Seq<Seq<AttrView>>) -> Seq<char>
    decreases s.len(),
{
    if s.len() == 0 {
        seq![]
    } else if s.len() == 1 {
        rdn_text(s[0])
    } else {
        rdns_text(s.drop_last()) + ", "@ + rdn_text(s.last())
    }
}

/// The text of a name.
pub open spec fn name_text(n: Name) -> Seq<char> {
    rdns_text(name_view(n))
}

fn push_value(out: &mut String, e: &Element)
    ensures
        final(out)@ == old(out)@ + value_text(e.tag, e.content@),
{
    let t = e.tag;
    let s = t == 0x0c || t == 0x12 || t == 0x13 || t == 0x14 || t == 0x15 || t == 0x16
        || t == 0x19 || t == 0x1a || t == 0x1b || t == 0x07;
    if s {
        match utf8_text(e.content.as_slice()) {
            Some(text) => {
                push_str(out, text.as_str());
                return;
            }
            None => {}
        }
    }
    push_colon_joined(out, e.content.as_slice());
}

fn push_attr(out: &mut String, a: &Attribute)
    ensures
        final(out)@ == old(out)@ + attr_text(attr_view(*a)),
{
    let t = format_attr_type(a.attr_type.as_slice());
    push_str(out, t.as_str());
    push_char(out, '=');
    push_value(out, &a.value);
    assert(final(out)@ =~= old(out)@ + attr_text(attr_view(*a)));
}

fn push_rdn(out: &mut String, s: &Vec<Attribute>)
    ensures
        final(out)@ == old(out)@ + rdn_text(rdn_view(*s)),
{
    let ghost a = out@;
    let ghost v = rdn_view(*s);
    let mut i: usize = 0;
    while i < s.len()
        invariant
            i <= s@.len(),
            v == rdn_view(*s),
            out@ == a + rdn_text(v.take(i as int)),
        decreases s@.len() - i,
    {
        if i > 0 {
            push_str(out, " + ");
        }
        push_attr(out, &s[i]);
        i = i + 1;
        assert(v.take(i as int).drop_last() =~= v.take(i - 1));
        assert(v.take(i as int).last() == attr_view(s@[i - 1]));
        assert(out@ =~= a + rdn_text(v.take(i as int)));
    }
    assert(v.take(i as int) =~= v);
}

/// Appends the text of a name.
pub fn push_name(out: &mut String, n: &Name)
    ensures
        final(out)@ == old(out)@ + name_text(*n),
{
    let ghost a = out@;
    let ghost v = name_view(*n);
    let mut i: usize = 0;
    while i < n.rdns.len()
        invariant
            i <= n.rdns@.len(),
            v == name_view(*n),
            out@ == a + rdns_text(v.take(i as int)),
        decreases n.rdns@.len() - i,
    {
        if i > 0 {
            push_str(out, ", ");
        }
        push_rdn(out, &n.rdns[i]);
        i = i + 1;
        assert(v.take(i as int).drop_last() =~= v.take(i - 1));
        assert(v.take(i as int).last() == rdn_view(n.rdns@[i - 1]));
        assert(out@ =~= a + rdns_text(v.take(i as int)));
    }
    assert(v.take(i as int) =~= v);
}

} // verus!
