//! Hexadecimal renderings of byte strings: colon-separated rows and a
//! fixed-width dump with an offset column and a printable-character column.

use vstd::prelude::*;
use crate::text::{hex_digit, hex_digits, hex_pair, push_char, push_str, push_hex_pair, hex_char};

verus! {

/// Bytes rendered as `xx:` each, in order.
pub open spec fn colon_hex(b: Seq<u8>) -> Seq<char>
    decreases b.len(),
{
    if b.len() == 0 {
        seq![]
    } else {
        colon_hex(b.drop_last()) + hex_pair(b.last()) + seq![':']
    }
}

/// The `i`-th group of `size` consecutive bytes (the last group may be shorter).
pub open spec fn chunk(b: Seq<u8>, size: nat, i: nat) -> Seq<u8> {
    let lo = i * size;
    let hi = if lo + size <= b.len() { lo + size } else { b.len() as nat };
    b.subrange(lo as int, hi as int)
}

/// How many groups of `size` bytes `n` bytes make: `ceil(n / size)`.
pub open spec fn row_count(n: nat, size: nat) -> nat
    recommends
        size > 0,
{
    ((n + size - 1) as nat) / size
}

/// Appends the bytes as `xx:` each.
pub fn push_colon_hex(out: &mut String, b: &[u8], lo: usize, hi: usize)
    requires
        lo <= hi <= b@.len(),
    ensures
        final(out)@ == old(out)@ + colon_hex(b@.subrange(lo as int, hi as int)),
{
    let mut i = lo;
    while i < hi
        invariant
            lo <= i <= hi <= b@.len(),
            out@ == old(out)@ + colon_hex(b@.subrange(lo as int, i as int)),
        decreases hi - i,
    {
        let ghost before = out@;
        push_hex_pair(out, b[i]);
        push_char(out, ':');
        i = i + 1;
        assert(b@.subrange(lo as int, i as int).drop_last() =~= b@.subrange(lo as int, i - 1));
        assert(out@ =~= old(out)@ + colon_hex(b@.subrange(lo as int, i as int)));
    }
}

/// Splits `b` into rows of `row_size` bytes and renders each row as `xx:` per byte.
pub fn format_number_to_hex_with_colon(b: &[u8], row_size: usize) -> (v: Vec<String>)
    requires
        row_size > 0,
    ensures
        v@.len() == row_count(b@.len(), row_size as nat),
        forall|i: int|
            0 <= i < v@.len() ==> #[trigger] v@[i]@ == colon_hex(chunk(b@, row_size as nat, i as nat)),
{
    let mut v: Vec<String> = Vec::new();
    let mut lo: usize = 0;
    let n = b.len();
    proof {
        assert(row_count(0, row_size as nat) == 0) by (nonlinear_arith)
            requires row_size > 0;
    }
    while lo < n
        invariant
            row_size > 0,
            n == b@.len(),
            lo <= n,
            lo as int % row_size as int == 0 || lo == n,
            v@.len() == row_count(lo as nat, row_size as nat),
            lo < n ==> v@.len() * row_size == lo,
            forall|i: int|
                0 <= i < v@.len() ==> #[trigger] v@[i]@ == colon_hex(chunk(b@, row_size as nat, i as nat)),
        decreases n - lo,
    {
        let hi: usize = if n - lo <= row_size { n } else { lo + row_size };
        let mut s = String::new();
        push_colon_hex(&mut s, b, lo, hi);
        let ghost k = v@.len();
        proof {
            assert(lo == k * row_size);
            assert(s@ =~= colon_hex(chunk(b@, row_size as nat, k as nat)));
        }
        v.push(s);
        proof {
            if hi == n {
                assert(row_count(hi as nat, row_size as nat) == k + 1) by (nonlinear_arith)
                    requires
                        row_size > 0,
                        lo == k * row_size,
                        lo < hi,
                        hi <= lo + row_size;
            } else {
                assert(row_count(hi as nat, row_size as nat) == k + 1) by (nonlinear_arith)
                    requires
                        row_size > 0,
                        lo == k * row_size,
                        hi == lo + row_size;
                assert((k + 1) * row_size == hi) by (nonlinear_arith)
                    requires
                        lo == k * row_size,
                        hi == lo + row_size;
                assert(hi as int % row_size as int == 0) by (nonlinear_arith)
                    requires
                        row_size > 0,
                        hi == (k + 1) * row_size;
            }
        }
        lo = hi;
    }
    v
}

/// `n` as exactly `width` hex digits, the lowest `width` digits of `n`.
pub open spec fn hex_fixed(n: nat, width: nat) -> Seq<char>
    decreases width,
{
    if width == 0 {
        seq![]
    } else {
        hex_fixed(n / 16, (width - 1) as nat) + seq![hex_digit((n % 16) as int)]
    }
}

/// Bytes rendered as `xx ` each, in order.
pub open spec fn spaced_hex(b: Seq<u8>) -> Seq<char>
    decreases b.len(),
{
    if b.len() == 0 {
        seq![]
    } else {
        spaced_hex(b.drop_last()) + hex_pair(b.last()) + seq![' ']
    }
}

/// `n` spaces.
pub open spec fn blanks(n: nat) -> Seq<char> {
    Seq::new(n, |i: int| ' ')
}

/// A byte as shown in the character column: printable ASCII as itself, anything else as `.`.
pub open spec fn shown_char(b: u8) -> char {
    if 32 <= b <= 126 {
        b as char
    } else {
        '.'
    }
}

/// The character column of a dump row.
pub open spec fn shown(b: Seq<u8>) -> Seq<char> {
    Seq::new(b.len(), |i: int| shown_char(b[i]))
}

/// Row `i` of a dump: offset, hex column padded to sixteen bytes, character column.
pub open spec fn dump_row(b: Seq<u8>, i: nat) -> Seq<char> {
    let c = chunk(b, 16, i);
    hex_fixed(16 * i, 8) + seq!['\t'] + spaced_hex(c) + blanks((3 * (16 - c.len())) as nat)
        + seq!['\t'] + shown(c) + seq!['\n']
}

/// The first `k` rows of a dump, one after another.
pub open spec fn dump_rows(b: Seq<u8>, k: nat) -> Seq<char>
    decreases k,
{
    if k == 0 {
        seq![]
    } else {
        dump_rows(b, (k - 1) as nat) + dump_row(b, (k - 1) as nat)
    }
}

/// The line that ends a dump whose input was cut.
pub open spec fn truncation_marker() -> Seq<char> {
    "... <continued>\n"@
}

/// The dump of at most `max` leading bytes of `b`, marked when bytes were left out.
pub open spec fn hex_dump(b: Seq<u8>, max: nat) -> Seq<char> {
    let t = if b.len() <= max { b } else { b.take(max as int) };
    dump_rows(t, row_count(t.len(), 16)) + if b.len() > max {
        truncation_marker()
    } else {
        seq![]
    }
}

/// Appends `n` as exactly `width` hex digits.
fn push_hex_fixed(out: &mut String, n: u64, width: u64)
    ensures
        final(out)@ == old(out)@ + hex_fixed(n as nat, width as nat),
    decreases width,
{
    if width > 0 {
        push_hex_fixed(out, n / 16, width - 1);
        push_char(out, hex_char((n % 16) as u8));
    }
    assert(final(out)@ =~= old(out)@ + hex_fixed(n as nat, width as nat));
}

/// Appends row `i` of the dump of `b`.
fn push_dump_row(out: &mut String, b: &[u8], i: usize)
    requires
        16 * i < b@.len(),
    ensures
        final(out)@ == old(out)@ + dump_row(b@, i as nat),
{
    let ghost c = chunk(b@, 16, i as nat);
    let len = b.len();
    let lo = 16 * i;
    let hi = if len - lo <= 16 { b.len() } else { lo + 16 };
    assert(c =~= b@.subrange(lo as int, hi as int));
    push_hex_fixed(out, lo as u64, 8);
    push_char(out, '\t');
    let ghost a = out@;
    let mut j = lo;
    while j < hi
        invariant
            lo <= j <= hi <= b@.len(),
            out@ == a + spaced_hex(b@.subrange(lo as int, j as int)),
        decreases hi - j,
    {
        push_hex_pair(out, b[j]);
        push_char(out, ' ');
        j = j + 1;
        assert(b@.subrange(lo as int, j as int).drop_last() =~= b@.subrange(lo as int, j - 1));
        assert(out@ =~= a + spaced_hex(b@.subrange(lo as int, j as int)));
    }
    let ghost p = out@;
    let mut k = hi - lo;
    while k < 16
        invariant
            hi - lo <= k <= 16,
            out@ == p + blanks((3 * (k - (hi - lo))) as nat),
        decreases 16 - k,
    {
        push_str(out, "   ");
        proof { reveal_strlit("   "); }
        k = k + 1;
        assert(out@ =~= p + blanks((3 * (k - (hi - lo))) as nat));
    }
    push_char(out, '\t');
    let ghost q = out@;
    let mut j = lo;
    while j < hi
        invariant
            lo <= j <= hi <= b@.len(),
            out@ == q + shown(b@.subrange(lo as int, j as int)),
        decreases hi - j,
    {
        let x = b[j];
        if 32 <= x && x <= 126 {
            push_char(out, x as char);
        } else {
            push_char(out, '.');
        }
        j = j + 1;
        assert(out@ =~= q + shown(b@.subrange(lo as int, j as int)));
    }
    push_char(out, '\n');
    assert(final(out)@ =~= old(out)@ + dump_row(b@, i as nat));
}

/// Appends a dump of at most `max_len` leading bytes of `bytes`, sixteen bytes per row,
/// followed by a marker line when bytes were left out.
pub fn print_hex_dump(out: &mut String, bytes: &[u8], max_len: usize)
    ensures
        final(out)@ == old(out)@ + hex_dump(bytes@, max_len as nat),
{
    let m = if bytes.len() <= max_len { bytes.len() } else { max_len };
    let t = slice_prefix(bytes, m);
    assert(t@ =~= if bytes@.len() <= max_len { bytes@ } else { bytes@.take(max_len as int) });
    let n = row_count_exec(m);
    let ghost a = out@;
    let mut i: usize = 0;
    while i < n
        invariant
            t@.len() == m,
            n == row_count(m as nat, 16),
            i <= n,
            out@ == a + dump_rows(t@, i as nat),
        decreases n - i,
    {
        proof {
            assert(16 * i < m) by (nonlinear_arith)
                requires i < n, n == ((m + 15) as nat) / 16;
        }
        push_dump_row(out, t, i);
        i = i + 1;
        assert(out@ =~= a + dump_rows(t@, i as nat));
    }
    if bytes.len() > max_len {
        push_str(out, "... <continued>\n");
    }
    assert(final(out)@ =~= old(out)@ + hex_dump(bytes@, max_len as nat));
}

/// `ceil(m / 16)`.
fn row_count_exec(m: usize) -> (n: usize)
    ensures
        n == row_count(m as nat, 16),
{
    m / 16 + if m % 16 == 0 { 0 } else { 1 }
}

/// The first `m` elements of a slice.
pub fn slice_prefix(b: &[u8], m: usize) -> (r: &[u8])
    requires
        m <= b@.len(),
    ensures
        r@ == b@.take(m as int),
{
    let (x, _) = b.split_at(m);
    x
}

/// How many times `c` occurs in `s`.
pub open spec fn count_char(s: Seq<char>, c: char) -> nat
    decreases s.len(),
{
    if s.len() == 0 {
        0
    } else {
        count_char(s.drop_last(), c) + if s.last() == c { 1nat } else { 0 }
    }
}

proof fn lemma_count_concat(a: Seq<char>, b: Seq<char>, c: char)
    ensures
        count_char(a + b, c) == count_char(a, c) + count_char(b, c),
    decreases b.len(),
{
    if b.len() > 0 {
        lemma_count_concat(a, b.drop_last(), c);
        assert((a + b).drop_last() =~= a + b.drop_last());
    } else {
        assert(a + b =~= a);
    }
}

proof fn lemma_count_none(s: Seq<char>, c: char)
    requires
        forall|i: int| 0 <= i < s.len() ==> s[i] != c,
    ensures
        count_char(s, c) == 0,
    decreases s.len(),
{
    if s.len() > 0 {
        lemma_count_none(s.drop_last(), c);
    }
}

proof fn lemma_hex_digit_not_newline(n: int)
    requires
        0 <= n < 16,
    ensures
        hex_digit(n) != '\n',
{
    let d = hex_digits();
    assert(d[0] == '0' && d[1] == '1' && d[2] == '2' && d[3] == '3' && d[4] == '4' && d[5] == '5'
        && d[6] == '6' && d[7] == '7' && d[8] == '8' && d[9] == '9' && d[10] == 'a' && d[11] == 'b'
        && d[12] == 'c' && d[13] == 'd' && d[14] == 'e' && d[15] == 'f');
}

proof fn lemma_hex_fixed_no_newline(n: nat, w: nat)
    ensures
        forall|i: int| 0 <= i < hex_fixed(n, w).len() ==> hex_fixed(n, w)[i] != '\n',
    decreases w,
{
    if w > 0 {
        lemma_hex_fixed_no_newline(n / 16, (w - 1) as nat);
        lemma_hex_digit_not_newline((n % 16) as int);
        let p = hex_fixed(n / 16, (w - 1) as nat);
        let s = hex_fixed(n, w);
        assert forall|i: int| 0 <= i < s.len() implies s[i] != '\n' by {
            if i < p.len() {
                assert(s[i] == p[i]);
            } else {
                assert(s[i] == hex_digit((n % 16) as int));
            }
        }
    }
}

proof fn lemma_spaced_hex_no_newline(b: Seq<u8>)
    ensures
        forall|i: int| 0 <= i < spaced_hex(b).len() ==> spaced_hex(b)[i] != '\n',
    decreases b.len(),
{
    if b.len() > 0 {
        lemma_spaced_hex_no_newline(b.drop_last());
        lemma_hex_digit_not_newline(b.last() as int / 16);
        lemma_hex_digit_not_newline(b.last() as int % 16);
        let p = spaced_hex(b.drop_last());
        let s = spaced_hex(b);
        assert forall|i: int| 0 <= i < s.len() implies s[i] != '\n' by {
            if i < p.len() {
                assert(s[i] == p[i]);
            } else if i == p.len() {
                assert(s[i] == hex_digit(b.last() as int / 16));
            } else if i == p.len() + 1 {
                assert(s[i] == hex_digit(b.last() as int % 16));
            } else {
                assert(s[i] == ' ');
            }
        }
    }
}

/// Each dump row holds exactly one line break.
proof fn lemma_dump_row_one_newline(b: Seq<u8>, i: nat)
    ensures
        count_char(dump_row(b, i), '\n') == 1,
{
    let c = chunk(b, 16, i);
    let offset_col = hex_fixed(16 * i, 8);
    let hex_col = spaced_hex(c);
    let pad_col = blanks((3 * (16 - c.len())) as nat);
    let char_col = shown(c);
    lemma_hex_fixed_no_newline(16 * i, 8);
    lemma_spaced_hex_no_newline(c);
    lemma_count_none(offset_col, '\n');
    lemma_count_none(seq!['\t'], '\n');
    lemma_count_none(hex_col, '\n');
    lemma_count_none(pad_col, '\n');
    assert forall|j: int| 0 <= j < char_col.len() implies char_col[j] != '\n' by {
        let x = c[j];
        if 32 <= x <= 126 {
            assert(x as char != '\n');
        }
    }
    lemma_count_none(char_col, '\n');
    assert(count_char(seq!['\n'], '\n') == 1) by {
        assert(seq!['\n'].drop_last() =~= Seq::<char>::empty());
        assert(seq!['\n'].last() == '\n');
        assert(count_char(Seq::<char>::empty(), '\n') == 0);
    }
    lemma_count_concat(offset_col, seq!['\t'], '\n');
    lemma_count_concat(offset_col + seq!['\t'], hex_col, '\n');
    lemma_count_concat(offset_col + seq!['\t'] + hex_col, pad_col, '\n');
    lemma_count_concat(offset_col + seq!['\t'] + hex_col + pad_col, seq!['\t'], '\n');
    lemma_count_concat(offset_col + seq!['\t'] + hex_col + pad_col + seq!['\t'], char_col, '\n');
    lemma_count_concat(offset_col + seq!['\t'] + hex_col + pad_col + seq!['\t'] + char_col, seq!['\n'], '\n');
}

proof fn lemma_dump_rows_count(b: Seq<u8>, k: nat)
    ensures
        count_char(dump_rows(b, k), '\n') == k,
    decreases k,
{
    if k > 0 {
        lemma_dump_rows_count(b, (k - 1) as nat);
        lemma_dump_row_one_newline(b, (k - 1) as nat);
        lemma_count_concat(dump_rows(b, (k - 1) as nat), dump_row(b, (k - 1) as nat), '\n');
    }
}

/// The dump of `b` limited to `m` bytes has one row, each ending in a line break,
/// per sixteen shown bytes (the last row may hold fewer): `ceil(len(b) / 16)` rows
/// and no marker when `len(b) <= m`; otherwise `ceil(m / 16)` rows followed by
/// the truncation marker.
pub proof fn lemma_hex_dump_rows(b: Seq<u8>, m: nat)
    ensures
        b.len() <= m ==> hex_dump(b, m) == dump_rows(b, row_count(b.len(), 16))
            && count_char(hex_dump(b, m), '\n') == row_count(b.len(), 16),
        b.len() > m ==> hex_dump(b, m) == dump_rows(b.take(m as int), row_count(m, 16)) + truncation_marker()
            && count_char(dump_rows(b.take(m as int), row_count(m, 16)), '\n') == row_count(m, 16),
{
    if b.len() <= m {
        assert(hex_dump(b, m) =~= dump_rows(b, row_count(b.len(), 16)));
        lemma_dump_rows_count(b, row_count(b.len(), 16));
    } else {
        lemma_dump_rows_count(b.take(m as int), row_count(m, 16));
    }
}

} // verus!
