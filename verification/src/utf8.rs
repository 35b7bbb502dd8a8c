//! Char boundaries of UTF-8 byte sequences and the facts about them that
//! caret motion and string splitting rely on.

use vstd::prelude::*;
use vstd::utf8::*;

verus! {

broadcast use vstd::utf8::group_utf8_lib;

/// `i` is a char boundary of the UTF-8 byte sequence `b`: it lies within the
/// sequence and either ends it or starts a character (is not a continuation
/// byte).
pub open spec fn is_boundary(b: Seq<u8>, i: int) -> bool {
    0 <= i <= b.len() && (i == b.len() || !is_continuation_byte(b[i]))
}

/// On valid UTF-8, `is_boundary` agrees with vstd's `is_char_boundary`.
pub proof fn lemma_boundary_iff(b: Seq<u8>, i: int)
    requires
        valid_utf8(b),
    ensures
        is_char_boundary(b, i) <==> is_boundary(b, i),
{
    is_char_boundary_start_end_of_seq(b);
    if 0 <= i < b.len() {
        is_char_boundary_iff_not_is_continuation_byte(b, i);
    } else if i < 0 || i > b.len() {
        if i != 0 {
            reveal_with_fuel(is_char_boundary, 1);
        }
    }
}

/// Encoding distributes over concatenation.
pub proof fn lemma_encode_concat(x: Seq<char>, y: Seq<char>)
    ensures
        encode_utf8(x + y) == encode_utf8(x) + encode_utf8(y),
    decreases x.len(),
{
    if x.len() == 0 {
        assert(x + y =~= y);
    } else {
        assert((x + y).drop_first() =~= x.drop_first() + y);
        assert((x + y)[0] == x[0]);
        lemma_encode_concat(x.drop_first(), y);
    }
}

/// In valid UTF-8, the byte after an ASCII byte is never a continuation byte.
pub proof fn lemma_after_ascii(b: Seq<u8>, j: int)
    requires
        valid_utf8(b),
        0 <= j,
        j + 1 < b.len(),
        b[j] <= 0x7f,
    ensures
        !is_continuation_byte(b[j + 1]),
    decreases b.len(),
{
    let l = length_of_first_scalar(b);
    let rest = pop_first_scalar(b);
    assert(valid_first_scalar(b));
    assert(rest.len() == b.len() - l);
    if j < l {
        if l == 1 {
            assert(valid_utf8(rest));
            assert(rest.len() > 0);
            assert(valid_first_scalar(rest));
            assert(rest[0] == b[1]);
        } else {
            assert(false);
        }
    } else {
        assert(rest[j - l] == b[j]);
        assert(rest[j - l + 1] == b[j + 1]);
        lemma_after_ascii(rest, j - l);
    }
}

/// Whether `i` is a char boundary of the bytes `b` (which must be valid UTF-8
/// for this to agree with the string's own notion).
pub fn boundary_at(b: &[u8], i: usize) -> (r: bool)
    requires
        i <= b@.len(),
    ensures
        r == is_boundary(b@, i as int),
{
    i == b.len() || !(0x80 <= b[i] && b[i] <= 0xbf)
}

} // verus!
