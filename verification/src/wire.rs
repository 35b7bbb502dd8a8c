//! Little/big-endian integer encoding and decimal parsing shared by the wire
//! codecs.

use vstd::prelude::*;

verus! {

/// The two little-endian bytes of a 16-bit value.
pub open spec fn le16(v: int) -> Seq<u8> {
    seq![(v % 256) as u8, ((v / 256) % 256) as u8]
}

/// The four little-endian bytes of a 32-bit value.
pub open spec fn le32(v: int) -> Seq<u8> {
    seq![
        (v % 256) as u8,
        ((v / 256) % 256) as u8,
        ((v / 65536) % 256) as u8,
        ((v / 16777216) % 256) as u8,
    ]
}

/// The little-endian `u16` at `off` in `d`, if the two bytes are there.
pub open spec fn le16_at(d: Seq<u8>, off: int) -> Option<u16> {
    if 0 <= off && off + 2 <= d.len() {
        Some((d[off] + d[off + 1] * 256) as u16)
    } else {
        None
    }
}

/// The little-endian `u32` at `off` in `d`, if the four bytes are there.
pub open spec fn le32_at(d: Seq<u8>, off: int) -> Option<u32> {
    if 0 <= off && off + 4 <= d.len() {
        Some((d[off] + d[off + 1] * 256 + d[off + 2] * 65536 + d[off + 3] * 16777216) as u32)
    } else {
        None
    }
}

/// The big-endian `u16` at `off` in `d`, if the two bytes are there.
pub open spec fn be16_at(d: Seq<u8>, off: int) -> Option<u16> {
    if 0 <= off && off + 2 <= d.len() {
        Some((d[off] * 256 + d[off + 1]) as u16)
    } else {
        None
    }
}

/// Append the little-endian bytes of `x`.
pub fn push_le16(buf: &mut Vec<u8>, x: u16)
    ensures
        final(buf)@ == old(buf)@ + le16(x as int),
{
    buf.push((x % 256) as u8);
    buf.push((x / 256) as u8);
    assert(final(buf)@ =~= old(buf)@ + le16(x as int));
}

/// Append the little-endian bytes of `x`.
pub fn push_le32(buf: &mut Vec<u8>, x: u32)
    ensures
        final(buf)@ == old(buf)@ + le32(x as int),
{
    buf.push((x % 256) as u8);
    buf.push(((x / 256) % 256) as u8);
    buf.push(((x / 65536) % 256) as u8);
    buf.push((x / 16777216) as u8);
    assert(final(buf)@ =~= old(buf)@ + le32(x as int));
}

/// Append all of `bytes`.
pub fn push_all(buf: &mut Vec<u8>, bytes: &[u8])
    ensures
        final(buf)@ == old(buf)@ + bytes@,
{
    let mut i: usize = 0;
    while i < bytes.len()
        invariant
            i <= bytes@.len(),
            buf@ == old(buf)@ + bytes@.subrange(0, i as int),
        decreases bytes@.len() - i,
    {
        buf.push(bytes[i]);
        i = i + 1;
        assert(buf@ =~= old(buf)@ + bytes@.subrange(0, i as int));
    }
    assert(bytes@.subrange(0, i as int) =~= bytes@);
}

/// The little-endian `u16` at `off`, if in bounds.
pub fn rd_u16(b: &[u8], off: usize) -> (r: Option<u16>)
    ensures
        r == le16_at(b@, off as int),
{
    if off < b.len() && b.len() - off >= 2 {
        Some(b[off] as u16 + (b[off + 1] as u16) * 256)
    } else {
        None
    }
}

/// The little-endian `u32` at `off`, if in bounds.
pub fn rd_u32(b: &[u8], off: usize) -> (r: Option<u32>)
    ensures
        r == le32_at(b@, off as int),
{
    if off < b.len() && b.len() - off >= 4 {
        Some(
            b[off] as u32 + (b[off + 1] as u32) * 256 + (b[off + 2] as u32) * 65536 + (b[off
                + 3] as u32) * 16777216,
        )
    } else {
        None
    }
}

/// The big-endian `u16` at `off`, if in bounds.
pub fn rd_be16(b: &[u8], off: usize) -> (r: Option<u16>)
    ensures
        r == be16_at(b@, off as int),
{
    if off < b.len() && b.len() - off >= 2 {
        Some((b[off] as u16) * 256 + b[off + 1] as u16)
    } else {
        None
    }
}

/// `true` when every byte of `d` is an ASCII decimal digit.
pub open spec fn all_digits(d: Seq<u8>) -> bool {
    forall|i: int| 0 <= i < d.len() ==> 48 <= #[trigger] d[i] <= 57
}

/// The value of a run of decimal digits.
pub open spec fn digits_value(d: Seq<u8>) -> nat
    decreases d.len(),
{
    if d.len() == 0 {
        0
    } else {
        digits_value(d.drop_last()) * 10 + (d.last() - 48) as nat
    }
}

/// What `str::parse::<u32>` gives for the bytes `d`: an optional `+` sign,
/// then one or more decimal digits whose value fits in a `u32`.
pub open spec fn decimal_u32(d: Seq<u8>) -> Option<u32> {
    let digits = if d.len() > 1 && d[0] == 43 { d.drop_first() } else { d };
    if d.len() == 0 || !all_digits(digits) || digits_value(digits) > u32::MAX {
        None
    } else {
        Some(digits_value(digits) as u32)
    }
}

proof fn lemma_digits_value_monotone(d: Seq<u8>, i: int)
    requires
        all_digits(d),
        0 <= i <= d.len(),
    ensures
        digits_value(d.subrange(0, i)) <= digits_value(d),
    decreases d.len() - i,
{
    if i < d.len() {
        lemma_digits_value_monotone(d, i + 1);
        let p = d.subrange(0, i + 1);
        assert(p.drop_last() =~= d.subrange(0, i));
    } else {
        assert(d.subrange(0, i) =~= d);
    }
}

/// Parse a decimal `u32` the way `str::parse::<u32>` does.
pub fn parse_u32(d: &[u8]) -> (r: Option<u32>)
    ensures
        r == decimal_u32(d@),
{
    let n = d.len();
    if n == 0 {
        return None;
    }
    let start: usize = if n > 1 && d[0] == 43 { 1 } else { 0 };
    let ghost digits = if n > 1 && d@[0] == 43 { d@.drop_first() } else { d@ };
    assert(digits =~= d@.subrange(start as int, n as int));
    let mut acc: u32 = 0;
    let mut i: usize = start;
    while i < n
        invariant
            start <= i <= n,
            n == d@.len(),
            digits == d@.subrange(start as int, n as int),
            digits == (if d@.len() > 1 && d@[0] == 43 { d@.drop_first() } else { d@ }),
            n > 0,
            all_digits(d@.subrange(start as int, i as int)),
            acc == digits_value(d@.subrange(start as int, i as int)),
        decreases n - i,
    {
        let c = d[i];
        let ghost p = d@.subrange(start as int, i + 1);
        assert(p.drop_last() =~= d@.subrange(start as int, i as int));
        if c < 48 || c > 57 {
            assert(!all_digits(digits)) by {
                assert(digits[i - start] == c);
            }
            assert(decimal_u32(d@) is None);
            return None;
        }
        assert(all_digits(p));
        if acc > 429496729 || (acc == 429496729 && c > 53) {
            proof {
                if all_digits(digits) {
                    lemma_digits_value_monotone(digits, i + 1 - start);
                    assert(digits.subrange(0, i + 1 - start) =~= p);
                }
            }
            assert(decimal_u32(d@) is None);
            return None;
        }
        acc = acc * 10 + (c - 48) as u32;
        i = i + 1;
    }
    assert(d@.subrange(start as int, i as int) =~= digits);
    Some(acc)
}

/// Reading a little-endian `u16` back where one was appended gives it back.
pub proof fn law_le16_round_trip(buf: Seq<u8>, v: u16)
    ensures
        le16_at(buf + le16(v as int), buf.len() as int) == Some(v),
{
    let d = buf + le16(v as int);
    let n = buf.len() as int;
    assert(d[n] == (v % 256) as u8);
    assert(d[n + 1] == ((v / 256) % 256) as u8);
    assert((v % 256) + ((v / 256) % 256) * 256 == v) by (nonlinear_arith)
        requires
            0 <= v < 65536,
    ;
}

/// Reading a little-endian `u32` back where one was appended gives it back.
pub proof fn law_le32_round_trip(buf: Seq<u8>, v: u32)
    ensures
        le32_at(buf + le32(v as int), buf.len() as int) == Some(v),
{
    let d = buf + le32(v as int);
    let n = buf.len() as int;
    let x = v as int;
    assert(d[n] == (x % 256) as u8);
    assert(d[n + 1] == ((x / 256) % 256) as u8);
    assert(d[n + 2] == ((x / 65536) % 256) as u8);
    assert(d[n + 3] == ((x / 16777216) % 256) as u8);
    assert((x % 256) + ((x / 256) % 256) * 256 + ((x / 65536) % 256) * 65536 + ((x / 16777216) % 256)
        * 16777216 == x) by (nonlinear_arith)
        requires
            0 <= x < 0x1_0000_0000,
    ;
}

} // verus!
