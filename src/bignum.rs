//! Unsigned numbers of any size held as base-128 digits, most significant
//! first, as OID arcs are encoded; their decimal text.

use vstd::prelude::*;
use crate::text::{decimal, hex_char, push_char};

verus! {

/// The value of base-128 digits, most significant first.
pub open spec fn be128(s: Seq<u8>) -> nat
    decreases s.len(),
{
    if s.len() == 0 { 0 } else { be128(s.drop_last()) * 128 + s.last() as nat }
}

/// Whether all digits are below 128.
pub open spec fn digits_ok(s: Seq<u8>) -> bool {
    forall|i: int| 0 <= i < s.len() ==> s[i] < 128
}

/// `d` divided by ten: the quotient's digits and the remainder.
fn div10(d: &Vec<u8>) -> (r: (Vec<u8>, u8))
    requires
        digits_ok(d@),
    ensures
        digits_ok(r.0@),
        r.1 < 10,
        be128(d@) == be128(r.0@) * 10 + r.1 as nat,
{
    let mut q: Vec<u8> = Vec::new();
    let mut rem: u32 = 0;
    let mut i: usize = 0;
    while i < d.len()
        invariant
            digits_ok(d@),
            i <= d@.len(),
            q@.len() == i,
            digits_ok(q@),
            rem < 10,
            be128(d@.take(i as int)) == be128(q@) * 10 + rem as nat,
        decreases d@.len() - i,
    {
        let x = rem * 128 + d[i] as u32;
        let qd = x / 10;
        let ghost oldq = q@;
        proof {
            assert(d@.take(i + 1).drop_last() =~= d@.take(i as int));
        }
        q.push(qd as u8);
        proof {
            assert(q@.drop_last() =~= oldq);
            let a = be128(oldq);
            assert(be128(d@.take(i + 1)) == be128(d@.take(i as int)) * 128 + d@[i as int] as nat);
            assert(be128(q@) == a * 128 + qd as nat);
            assert((a * 10 + rem as nat) * 128 + d@[i as int] as nat == (a * 128 + qd as nat) * 10 + (x % 10) as nat)
                by (nonlinear_arith)
                requires x == rem * 128 + d@[i as int] as nat, qd == x / 10;
        }
        rem = x % 10;
        i = i + 1;
    }
    assert(d@.take(i as int) =~= d@);
    (q, rem as u8)
}

proof fn lemma_zero_digits(s: Seq<u8>)
    ensures
        be128(s) == 0 <==> forall|i: int| 0 <= i < s.len() ==> s[i] == 0,
    decreases s.len(),
{
    if s.len() > 0 {
        lemma_zero_digits(s.drop_last());
        if be128(s) == 0 {
            assert forall|i: int| 0 <= i < s.len() implies s[i] == 0 by {
                if i < s.len() - 1 { assert(s[i] == s.drop_last()[i]); }
            }
        } else {
            if forall|i: int| 0 <= i < s.len() ==> s[i] == 0 {
                assert forall|i: int| 0 <= i < s.drop_last().len() implies s.drop_last()[i] == 0 by {
                    assert(s.drop_last()[i] == s[i]);
                }
            }
        }
    }
}

/// Whether the number is zero.
fn is_zero(d: &Vec<u8>) -> (r: bool)
    ensures
        r == (be128(d@) == 0),
{
    proof { lemma_zero_digits(d@); }
    let mut i: usize = 0;
    while i < d.len()
        invariant
            i <= d@.len(),
            forall|j: int| 0 <= j < i ==> d@[j] == 0,
        decreases d@.len() - i,
    {
        if d[i] != 0 {
            proof { lemma_zero_digits(d@); }
            return false;
        }
        i = i + 1;
    }
    proof { lemma_zero_digits(d@); }
    true
}

/// Appends the number in decimal.
pub fn push_decimal_big(out: &mut String, d: &Vec<u8>)
    requires
        digits_ok(d@),
    ensures
        final(out)@ == old(out)@ + decimal(be128(d@)),
    decreases be128(d@),
{
    let (q, r) = div10(d);
    if !is_zero(&q) {
        push_decimal_big(out, &q);
    }
    push_char(out, hex_char(r));
    proof {
        let n = be128(d@);
        assert(n / 10 == be128(q@) && n % 10 == r as nat) by (nonlinear_arith)
            requires n == be128(q@) * 10 + r as nat, r < 10;
    }
    assert(final(out)@ =~= old(out)@ + decimal(be128(d@)));
}

/// The number minus `k`, which it must not be below.
pub fn sub_small(d: &[u8], n: usize, k: u8) -> (r: Vec<u8>)
    requires
        n <= d@.len(),
        digits_ok(d@),
        1 <= k <= 128,
        be128(d@.take(n as int)) >= k,
    ensures
        digits_ok(r@),
        be128(r@) == be128(d@.take(n as int)) - k,
    decreases n,
{
    let ghost p = d@.take(n as int);
    assert(n > 0) by {
        if n == 0 { assert(p.len() == 0); }
    }
    assert(p.drop_last() =~= d@.take(n - 1));
    let last = d[n - 1];
    let ghost a = be128(d@.take(n - 1));
    assert(be128(p) == a * 128 + last as nat);
    if last >= k {
        let mut r = crate::der::copy_range(d, 0, n - 1);
        assert(r@ =~= d@.take(n - 1));
        let ghost old_r = r@;
        r.push(last - k);
        assert(r@.drop_last() =~= old_r);
        r
    } else {
        assert(a >= 1) by (nonlinear_arith)
            requires a * 128 + last as nat >= k as nat, last < k;
        let mut r = sub_small(d, n - 1, 1);
        let ghost old_r = r@;
        r.push(last + 128 - k);
        assert(r@.drop_last() =~= old_r);
        assert(be128(r@) == (a - 1) * 128 + (last + 128 - k) as nat);
        assert((a - 1) * 128 + (last + 128 - k) as nat == a * 128 + last as nat - k as nat) by (nonlinear_arith)
            requires a >= 1, last < k, k <= 128;
        r
    }
}

} // verus!
