//! The lines a name lookup reports: CNAME, A and AAAA records, in answer order.

use vstd::prelude::*;
use crate::text::push_str;

verus! {

/// The kinds of DNS records a lookup answer holds, as far as the report tells them apart.
#[derive(Debug, Clone, Copy, PartialEq, Eq, Structural)]
pub enum RecordKind {
    Cname,
    A,
    Aaaa,
    Other,
}

/// A record as the lookup gave it: kind, owner name, and its data as text when it
/// has data of its kind.
pub struct Record {
    pub kind: RecordKind,
    pub name: String,
    pub data: Option<String>,
}

/// The line for one record: `KIND\tname\t--> data`; none for other kinds or without data.
pub open spec fn record_line(r: Record) -> Option<Seq<char>> {
    match r.data {
        None => None,
        Some(d) => match r.kind {
            RecordKind::Cname => Some("CNAME\t"@ + r.name@ + "\t--> "@ + d@),
            RecordKind::A => Some("A\t"@ + r.name@ + "\t--> "@ + d@),
            RecordKind::Aaaa => Some("AAAA\t"@ + r.name@ + "\t--> "@ + d@),
            RecordKind::Other => None,
        },
    }
}

/// The lines of the first `k` records, in order.
pub open spec fn record_lines(rs: Seq<Record>, k: nat) -> Seq<Seq<char>>
    decreases k,
{
    if k == 0 {
        seq![]
    } else {
        record_lines(rs, (k - 1) as nat) + match record_line(rs[k - 1]) {
            Some(l) => seq![l],
            None => seq![],
        }
    }
}

/// The line for one record, if it is reported.
pub fn dns_record_line(r: &Record) -> (l: Option<String>)
    ensures
        match l {
            Some(s) => record_line(*r) == Some(s@),
            None => record_line(*r) is None,
        },
{
    match &r.data {
        None => None,
        Some(d) => {
            let mut s = String::new();
            match r.kind {
                RecordKind::Cname => push_str(&mut s, "CNAME\t"),
                RecordKind::A => push_str(&mut s, "A\t"),
                RecordKind::Aaaa => push_str(&mut s, "AAAA\t"),
                RecordKind::Other => { return None; }
            }
            push_str(&mut s, r.name.as_str());
            push_str(&mut s, "\t--> ");
            push_str(&mut s, d.as_str());
            Some(s)
        }
    }
}

/// The lines of the reported records, in answer order.
pub fn dns_lines(rs: &Vec<Record>) -> (v: Vec<String>)
    ensures
        v@.map_values(|s: String| s@) == record_lines(rs@, rs@.len()),
{
    let mut v: Vec<String> = Vec::new();
    let mut i: usize = 0;
    while i < rs.len()
        invariant
            i <= rs@.len(),
            v@.map_values(|s: String| s@) == record_lines(rs@, i as nat),
        decreases rs@.len() - i,
    {
        let ghost old_v = v@;
        match dns_record_line(&rs[i]) {
            Some(l) => {
                v.push(l);
                assert(v@.map_values(|s: String| s@) =~= old_v.map_values(|s: String| s@).push(l@));
            }
            None => {}
        }
        i = i + 1;
        assert(v@.map_values(|s: String| s@) =~= record_lines(rs@, i as nat));
    }
    v
}

} // verus!
