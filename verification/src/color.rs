//! Straight 8-bit RGBA colors and `#RRGGBB`-style hex parsing.

use vstd::prelude::*;
use vstd::string::StringSliceAdditionalSpecFns;

verus! {

/// A straight (non-premultiplied) 8-bit-per-channel sRGB color.
#[derive(Clone, Copy, Debug, Default, PartialEq, Eq, Hash, Structural)]
pub struct Color {
    pub r: u8,
    pub g: u8,
    pub b: u8,
    pub a: u8,
}

impl Color {
    /// Fully transparent black.
    pub fn transparent() -> (c: Self)
        ensures
            c == (Color { r: 0, g: 0, b: 0, a: 0 }),
    {
        Color { r: 0, g: 0, b: 0, a: 0 }
    }

    /// Opaque black.
    pub fn black() -> (c: Self)
        ensures
            c == (Color { r: 0, g: 0, b: 0, a: 255 }),
    {
        Color { r: 0, g: 0, b: 0, a: 255 }
    }

    /// Opaque white.
    pub fn white() -> (c: Self)
        ensures
            c == (Color { r: 255, g: 255, b: 255, a: 255 }),
    {
        Color { r: 255, g: 255, b: 255, a: 255 }
    }

    /// An opaque color.
    pub fn rgb(r: u8, g: u8, b: u8) -> (c: Self)
        ensures
            c == (Color { r, g, b, a: 255 }),
    {
        Color { r, g, b, a: 255 }
    }

    pub fn rgba(r: u8, g: u8, b: u8, a: u8) -> (c: Self)
        ensures
            c == (Color { r, g, b, a }),
    {
        Color { r, g, b, a }
    }

    /// A copy with the alpha channel replaced.
    pub fn with_alpha(self, a: u8) -> (c: Self)
        ensures
            c == (Color { a, ..self }),
    {
        Color { a, ..self }
    }

    /// Parse `#RGB`, `#RGBA`, `#RRGGBB`, or `#RRGGBBAA` (leading `#`
    /// optional). Returns `None` on any malformed input: every digit must be
    /// an ASCII hex digit.
    pub fn from_hex(s: &str) -> (r: Option<Self>)
        ensures
            r == hex_color(hex_body(s.spec_bytes())),
            r is Some <==> all_hex_digits(hex_body(s.spec_bytes())),
    {
        let all = s.as_bytes();
        let t = if all.len() > 0 && all[0] == 35 {
            vstd::slice::slice_subrange(all, 1, all.len())
        } else {
            all
        };
        proof {
            assert(t@ == hex_body(s.spec_bytes()));
            lemma_hex_color_some(t@);
        }
        let n = t.len();
        if n == 3 {
            Some(Color::rgb(short_group(t, 0)?, short_group(t, 1)?, short_group(t, 2)?))
        } else if n == 4 {
            Some(
                Color::rgba(
                    short_group(t, 0)?,
                    short_group(t, 1)?,
                    short_group(t, 2)?,
                    short_group(t, 3)?,
                ),
            )
        } else if n == 6 {
            Some(Color::rgb(long_group(t, 0)?, long_group(t, 2)?, long_group(t, 4)?))
        } else if n == 8 {
            Some(
                Color::rgba(
                    long_group(t, 0)?,
                    long_group(t, 2)?,
                    long_group(t, 4)?,
                    long_group(t, 6)?,
                ),
            )
        } else {
            None
        }
    }
}

/// The digits of a hex color: the bytes after one optional leading `#`.
pub open spec fn hex_body(b: Seq<u8>) -> Seq<u8> {
    if b.len() > 0 && b[0] == 35 {
        b.drop_first()
    } else {
        b
    }
}

/// The value of one hexadecimal digit byte.
pub open spec fn hex_digit(c: u8) -> Option<u8> {
    if 48 <= c <= 57 {
        Some((c - 48) as u8)
    } else if 97 <= c <= 102 {
        Some((c - 87) as u8)
    } else if 65 <= c <= 70 {
        Some((c - 55) as u8)
    } else {
        None
    }
}

/// `t` is a well-formed color body: 3, 4, 6 or 8 ASCII hex digits.
pub open spec fn all_hex_digits(t: Seq<u8>) -> bool {
    &&& (t.len() == 3 || t.len() == 4 || t.len() == 6 || t.len() == 8)
    &&& forall|i: int| 0 <= i < t.len() ==> #[trigger] hex_digit(t[i]) is Some
}

/// The value of a group of one or two hex digits (high digit first).
pub open spec fn hex_group(d: Seq<u8>) -> Option<u8> {
    if d.len() == 1 {
        hex_digit(d[0])
    } else if d.len() == 2 {
        match (hex_digit(d[0]), hex_digit(d[1])) {
            (Some(hi), Some(lo)) => Some((hi * 16 + lo) as u8),
            _ => None,
        }
    } else {
        None
    }
}

/// The channel read from the one-digit group at `i` (`x` stands for `xx`).
pub open spec fn short_channel(t: Seq<u8>, i: int) -> Option<u8> {
    match hex_group(t.subrange(i, i + 1)) {
        Some(v) => Some((v * 17) as u8),
        None => None,
    }
}

/// The channel read from the two-digit group at `i`.
pub open spec fn long_channel(t: Seq<u8>, i: int) -> Option<u8> {
    hex_group(t.subrange(i, i + 2))
}

/// The color spelled by the hex digits `t` (no leading `#`).
pub open spec fn hex_color(t: Seq<u8>) -> Option<Color> {
    if t.len() == 3 {
        match (short_channel(t, 0), short_channel(t, 1), short_channel(t, 2)) {
            (Some(r), Some(g), Some(b)) => Some(Color { r, g, b, a: 255 }),
            _ => None,
        }
    } else if t.len() == 4 {
        match (short_channel(t, 0), short_channel(t, 1), short_channel(t, 2), short_channel(t, 3)) {
            (Some(r), Some(g), Some(b), Some(a)) => Some(Color { r, g, b, a }),
            _ => None,
        }
    } else if t.len() == 6 {
        match (long_channel(t, 0), long_channel(t, 2), long_channel(t, 4)) {
            (Some(r), Some(g), Some(b)) => Some(Color { r, g, b, a: 255 }),
            _ => None,
        }
    } else if t.len() == 8 {
        match (long_channel(t, 0), long_channel(t, 2), long_channel(t, 4), long_channel(t, 6)) {
            (Some(r), Some(g), Some(b), Some(a)) => Some(Color { r, g, b, a }),
            _ => None,
        }
    } else {
        None
    }
}

fn hex_digit_value(c: u8) -> (r: Option<u8>)
    ensures
        r == hex_digit(c),
{
    if 48 <= c && c <= 57 {
        Some(c - 48)
    } else if 97 <= c && c <= 102 {
        Some(c - 87)
    } else if 65 <= c && c <= 70 {
        Some(c - 55)
    } else {
        None
    }
}

/// The one-digit group at `i`, scaled to a full channel.
fn short_group(t: &[u8], i: usize) -> (r: Option<u8>)
    requires
        i < t@.len(),
    ensures
        r == short_channel(t@, i as int),
{
    assert(t@.subrange(i as int, i + 1)[0] == t@[i as int]);
    match hex_digit_value(t[i]) {
        Some(v) => Some(v * 17),
        None => None,
    }
}

/// The two-digit group at `i`.
fn long_group(t: &[u8], i: usize) -> (r: Option<u8>)
    requires
        i + 1 < t@.len(),
    ensures
        r == long_channel(t@, i as int),
{
    let ghost d = t@.subrange(i as int, i + 2);
    assert(d[0] == t@[i as int] && d[1] == t@[i + 1]);
    match (hex_digit_value(t[i]), hex_digit_value(t[i + 1])) {
        (Some(hi), Some(lo)) => Some(hi * 16 + lo),
        _ => None,
    }
}

/// A color body parses exactly when it is 3, 4, 6 or 8 hex digits.
proof fn lemma_hex_color_some(t: Seq<u8>)
    ensures
        hex_color(t) is Some <==> all_hex_digits(t),
{
    assert forall|i: int| 0 <= i < t.len() implies #[trigger] t.subrange(i, i + 1) == seq![t[i]] by {
        assert(t.subrange(i, i + 1) =~= seq![t[i]]);
    }
    assert forall|i: int| 0 <= i && i + 1 < t.len() implies #[trigger] t.subrange(i, i + 2) == seq![
        t[i],
        t[i + 1],
    ] by {
        assert(t.subrange(i, i + 2) =~= seq![t[i], t[i + 1]]);
    }
    if t.len() == 3 || t.len() == 4 || t.len() == 6 || t.len() == 8 {
        if hex_color(t) is Some {
            assert forall|i: int| 0 <= i < t.len() implies #[trigger] hex_digit(t[i]) is Some by {
                if t.len() == 3 || t.len() == 4 {
                    assert(t.subrange(i, i + 1) == seq![t[i]]);
                } else {
                    let k = i / 2 * 2;
                    assert(t.subrange(k, k + 2) == seq![t[k], t[k + 1]]);
                }
            }
        }
        if all_hex_digits(t) {
            if t.len() == 3 || t.len() == 4 {
                assert(t.subrange(0, 1) == seq![t[0]]);
                assert(t.subrange(1, 2) == seq![t[1]]);
                assert(t.subrange(2, 3) == seq![t[2]]);
                assert(hex_digit(t[0]) is Some && hex_digit(t[1]) is Some && hex_digit(t[2]) is Some);
                if t.len() == 4 {
                    assert(t.subrange(3, 4) == seq![t[3]]);
                    assert(hex_digit(t[3]) is Some);
                }
            } else {
                assert(t.subrange(0, 2) == seq![t[0], t[1]]);
                assert(t.subrange(2, 4) == seq![t[2], t[3]]);
                assert(t.subrange(4, 6) == seq![t[4], t[5]]);
                assert(hex_digit(t[0]) is Some && hex_digit(t[1]) is Some && hex_digit(t[2]) is Some);
                assert(hex_digit(t[3]) is Some && hex_digit(t[4]) is Some && hex_digit(t[5]) is Some);
                if t.len() == 8 {
                    assert(t.subrange(6, 8) == seq![t[6], t[7]]);
                    assert(hex_digit(t[6]) is Some && hex_digit(t[7]) is Some);
                }
            }
        }
    }
}

/// One digit read as a short group is the digit read twice as a long group.
proof fn lemma_doubled_digit(x: u8)
    ensures
        (match hex_group(seq![x]) {
            Some(v) => Some((v * 17) as u8),
            None => None,
        }) == hex_group(seq![x, x]),
{
    let one = seq![x];
    let two = seq![x, x];
    assert(one.len() == 1 && one[0] == x);
    assert(two.len() == 2 && two[0] == x && two[1] == x);
}

/// The channel of the short group at `i` of `t` is the channel of the long
/// group at `2 * i` of `u` when `u` doubles that digit.
proof fn lemma_doubled_channel(t: Seq<u8>, u: Seq<u8>, i: int)
    requires
        0 <= i < t.len(),
        2 * i + 2 <= u.len(),
        u[2 * i] == t[i],
        u[2 * i + 1] == t[i],
    ensures
        short_channel(t, i) == long_channel(u, 2 * i),
{
    assert(t.subrange(i, i + 1) =~= seq![t[i]]);
    assert(u.subrange(2 * i, 2 * i + 2) =~= seq![t[i], t[i]]);
    lemma_doubled_digit(t[i]);
}

/// The short forms spell each channel with one digit standing for two:
/// `#RGB` is `#RRGGBB` and `#RGBA` is `#RRGGBBAA`, for every byte string.
pub proof fn law_short_hex_doubles_digits(a: u8, b: u8, c: u8, d: u8)
    ensures
        hex_color(seq![a, b, c]) == hex_color(seq![a, a, b, b, c, c]),
        hex_color(seq![a, b, c, d]) == hex_color(seq![a, a, b, b, c, c, d, d]),
{
    let s3 = seq![a, b, c];
    let l3 = seq![a, a, b, b, c, c];
    lemma_doubled_channel(s3, l3, 0);
    lemma_doubled_channel(s3, l3, 1);
    lemma_doubled_channel(s3, l3, 2);
    let s4 = seq![a, b, c, d];
    let l4 = seq![a, a, b, b, c, c, d, d];
    lemma_doubled_channel(s4, l4, 0);
    lemma_doubled_channel(s4, l4, 1);
    lemma_doubled_channel(s4, l4, 2);
    lemma_doubled_channel(s4, l4, 3);
}

/// The value of an ASCII hex digit byte, by byte range.
pub open spec fn ascii_hex_value(c: u8) -> int {
    if 48 <= c <= 57 {
        c - 48
    } else if 97 <= c <= 102 {
        c - 87
    } else {
        c - 55
    }
}

/// An ASCII hex digit byte: `0`–`9`, `a`–`f` or `A`–`F`.
pub open spec fn is_ascii_hex(c: u8) -> bool {
    (48 <= c <= 57) || (97 <= c <= 102) || (65 <= c <= 70)
}

/// The digits `0`–`9` are worth 0–9, `a`–`f` and `A`–`F` 10–15, and no
/// other byte is a hex digit.
pub proof fn law_hex_digit_values(c: u8)
    ensures
        48 <= c <= 57 ==> hex_digit(c) == Some((c - 48) as u8),
        97 <= c <= 102 ==> hex_digit(c) == Some((c - 87) as u8),
        65 <= c <= 70 ==> hex_digit(c) == Some((c - 55) as u8),
        !((48 <= c <= 57) || (97 <= c <= 102) || (65 <= c <= 70)) ==> hex_digit(c) is None,
{
}

/// Six ASCII hex digits spell an opaque color whose channels are the three
/// digit pairs, high digit first; any other byte among them spoils it.
pub proof fn law_six_hex_digits(t: Seq<u8>)
    requires
        t.len() == 6,
    ensures
        (forall|i: int| 0 <= i < 6 ==> #[trigger] is_ascii_hex(t[i])) ==> hex_color(t) == Some(
            Color {
                r: (ascii_hex_value(t[0]) * 16 + ascii_hex_value(t[1])) as u8,
                g: (ascii_hex_value(t[2]) * 16 + ascii_hex_value(t[3])) as u8,
                b: (ascii_hex_value(t[4]) * 16 + ascii_hex_value(t[5])) as u8,
                a: 255,
            },
        ),
        (exists|i: int| 0 <= i < 6 && !#[trigger] is_ascii_hex(t[i])) ==> hex_color(t) is None,
{
    assert(t.subrange(0, 2) =~= seq![t[0], t[1]]);
    assert(t.subrange(2, 4) =~= seq![t[2], t[3]]);
    assert(t.subrange(4, 6) =~= seq![t[4], t[5]]);
    if forall|i: int| 0 <= i < 6 ==> #[trigger] is_ascii_hex(t[i]) {
        assert(is_ascii_hex(t[0]) && is_ascii_hex(t[1]) && is_ascii_hex(t[2]));
        assert(is_ascii_hex(t[3]) && is_ascii_hex(t[4]) && is_ascii_hex(t[5]));
    }
    if exists|i: int| 0 <= i < 6 && !#[trigger] is_ascii_hex(t[i]) {
        let i = choose|i: int| 0 <= i < 6 && !#[trigger] is_ascii_hex(t[i]);
        assert(hex_digit(t[i]) is None);
    }
}

} // verus!
