//! Caret-aware text editing: an [`EditBuffer`] holding UTF-8 text, a caret
//! and an optional selection anchor, all as byte indices kept on char
//! boundaries; plus the process clipboard mirror that copy/cut/paste use.

use vstd::prelude::*;
use vstd::string::StringSliceAdditionalSpecFns;
use vstd::utf8::*;
use crate::utf8::{boundary_at, is_boundary, lemma_after_ascii, lemma_boundary_iff, lemma_encode_concat};

verus! {

broadcast use vstd::utf8::group_utf8_lib;

// ---- the mathematical model -------------------------------------------------

/// The greatest char boundary strictly before `i` (0 when there is none).
pub open spec fn boundary_before(b: Seq<u8>, i: int) -> int
    decreases i,
{
    if i <= 1 {
        0
    } else if is_boundary(b, i - 1) {
        i - 1
    } else {
        boundary_before(b, i - 1)
    }
}

/// The least char boundary strictly after `i` (the end when there is none).
pub open spec fn boundary_after(b: Seq<u8>, i: int) -> int
    decreases b.len() - i,
{
    if i + 1 >= b.len() {
        b.len() as int
    } else if is_boundary(b, i + 1) {
        i + 1
    } else {
        boundary_after(b, i + 1)
    }
}

/// The greatest char boundary at or below `i`.
pub open spec fn boundary_at_or_below(b: Seq<u8>, i: int) -> int
    decreases i,
{
    if i <= 0 {
        0
    } else if is_boundary(b, i) {
        i
    } else {
        boundary_at_or_below(b, i - 1)
    }
}

/// `i` clamped to the text length, then snapped down to a char boundary.
pub open spec fn snapped(b: Seq<u8>, i: int) -> int {
    boundary_at_or_below(b, if i < b.len() { i } else { b.len() as int })
}

/// Start of the line containing byte `i`: just after the last `\n` before
/// `i`, or 0.
pub open spec fn line_start_of(b: Seq<u8>, i: int) -> int
    decreases i,
{
    if i <= 0 {
        0
    } else if b[i - 1] == 10 {
        i
    } else {
        line_start_of(b, i - 1)
    }
}

/// End of the line containing byte `i`: the first `\n` at or after `i`, or
/// the text end.
pub open spec fn line_end_of(b: Seq<u8>, i: int) -> int
    decreases b.len() - i,
{
    if i >= b.len() {
        b.len() as int
    } else if b[i] == 10 {
        i
    } else {
        line_end_of(b, i + 1)
    }
}

/// The caret one line above `c`, keeping the byte column (clamped to the
/// line's end and snapped to a boundary); 0 on the first line.
pub open spec fn line_up(b: Seq<u8>, c: int) -> int {
    let start = line_start_of(b, c);
    if start == 0 {
        0
    } else {
        let col = c - start;
        let prev_start = line_start_of(b, start - 1);
        let prev_end = start - 1;
        snapped(b, if prev_start + col < prev_end { prev_start + col } else { prev_end })
    }
}

/// The caret one line below `c`, keeping the byte column (clamped to the
/// line's end and snapped to a boundary); the text end on the last line.
pub open spec fn line_down(b: Seq<u8>, c: int) -> int {
    let end = line_end_of(b, c);
    if end == b.len() {
        b.len() as int
    } else {
        let col = c - line_start_of(b, c);
        let next_start = end + 1;
        let next_end = line_end_of(b, next_start);
        snapped(b, if next_start + col < next_end { next_start + col } else { next_end })
    }
}

/// The abstract state of an [`EditBuffer`]: the UTF-8 bytes of its text, the
/// caret and the optional selection anchor (byte indices).
pub struct EditState {
    pub bytes: Seq<u8>,
    pub caret: int,
    pub anchor: Option<int>,
}

impl EditState {
    /// The well-formedness every buffer keeps: valid UTF-8 of a length a
    /// `String` can hold, caret and anchor on char boundaries.
    pub open spec fn wf(self) -> bool {
        &&& valid_utf8(self.bytes)
        &&& self.bytes.len() <= usize::MAX
        &&& is_boundary(self.bytes, self.caret)
        &&& (self.anchor matches Some(a) ==> is_boundary(self.bytes, a))
    }

    /// The characters of the text.
    pub open spec fn chars(self) -> Seq<char> {
        decode_utf8(self.bytes)
    }

    pub open spec fn len(self) -> int {
        self.bytes.len() as int
    }

    /// The selected byte range `[start, end)`, if the anchor is set and apart
    /// from the caret.
    pub open spec fn selection(self) -> Option<(int, int)> {
        match self.anchor {
            Some(a) => if a != self.caret {
                Some(
                    (
                        if a < self.caret { a } else { self.caret },
                        if a < self.caret { self.caret } else { a },
                    ),
                )
            } else {
                None
            },
            None => None,
        }
    }

    pub open spec fn with_caret(self, c: int) -> EditState {
        EditState { bytes: self.bytes, caret: c, anchor: None }
    }

    /// The active selection removed, caret at its start; the anchor cleared
    /// either way.
    pub open spec fn without_selection(self) -> EditState {
        match self.selection() {
            Some((s, e)) => EditState {
                bytes: self.bytes.subrange(0, s) + self.bytes.subrange(e, self.len()),
                caret: s,
                anchor: None,
            },
            None => self.with_caret(self.caret),
        }
    }

    /// `t` inserted at the caret (replacing the selection), caret after it.
    pub open spec fn inserted(self, t: Seq<u8>) -> EditState {
        let d = self.without_selection();
        EditState {
            bytes: d.bytes.subrange(0, d.caret) + t + d.bytes.subrange(d.caret, d.len()),
            caret: d.caret + t.len(),
            anchor: None,
        }
    }

    /// Inserting `t` leaves a text a `String` can hold.
    pub open spec fn insert_fits(self, t: Seq<u8>) -> bool {
        self.without_selection().len() + t.len() <= usize::MAX
    }

    /// Backspace: the selection, or the character before the caret, removed.
    pub open spec fn backspaced(self) -> EditState {
        if self.selection() is Some {
            self.without_selection()
        } else if self.caret == 0 {
            self.with_caret(0)
        } else {
            let p = boundary_before(self.bytes, self.caret);
            EditState {
                bytes: self.bytes.subrange(0, p) + self.bytes.subrange(self.caret, self.len()),
                caret: p,
                anchor: None,
            }
        }
    }

    /// Delete: the selection, or the character at the caret, removed.
    pub open spec fn deleted(self) -> EditState {
        if self.selection() is Some {
            self.without_selection()
        } else if self.caret >= self.len() {
            self.with_caret(self.caret)
        } else {
            let n = boundary_after(self.bytes, self.caret);
            EditState {
                bytes: self.bytes.subrange(0, self.caret) + self.bytes.subrange(n, self.len()),
                caret: self.caret,
                anchor: None,
            }
        }
    }

    /// The caret one character left (0 stays 0).
    pub open spec fn left_of_caret(self) -> int {
        if self.caret > 0 {
            boundary_before(self.bytes, self.caret)
        } else {
            self.caret
        }
    }

    /// The caret one character right (the end stays the end).
    pub open spec fn right_of_caret(self) -> int {
        if self.caret < self.len() {
            boundary_after(self.bytes, self.caret)
        } else {
            self.caret
        }
    }

    pub open spec fn moved_left(self) -> EditState {
        match self.selection() {
            Some((s, _)) => self.with_caret(s),
            None => self.with_caret(self.left_of_caret()),
        }
    }

    pub open spec fn moved_right(self) -> EditState {
        match self.selection() {
            Some((_, e)) => self.with_caret(e),
            None => self.with_caret(self.right_of_caret()),
        }
    }

    /// The caret moved to `c`, anchoring a selection at the old caret unless
    /// one is already anchored.
    pub open spec fn extended(self, c: int) -> EditState {
        EditState {
            bytes: self.bytes,
            caret: c,
            anchor: match self.anchor {
                Some(a) => Some(a),
                None => Some(self.caret),
            },
        }
    }

    /// The selected bytes, if any.
    pub open spec fn selected(self) -> Option<Seq<u8>> {
        match self.selection() {
            Some((s, e)) => Some(self.bytes.subrange(s, e)),
            None => None,
        }
    }
}

// ---- keyboard commands --------------------------------------------------------

/// A keyboard editing command delivered to a focused text element.
#[derive(Clone, Debug, PartialEq, Eq)]
pub enum KeyInput {
    /// Committed text (one or more characters), e.g. from a key press or IME.
    Text(String),
    Backspace,
    Delete,
    Left,
    Right,
    Up,
    Down,
    Home,
    End,
    /// Caret motions that extend the selection (Shift held).
    SelectLeft,
    SelectRight,
    SelectUp,
    SelectDown,
    SelectHome,
    SelectEnd,
    /// Select everything (Ctrl/Cmd+A).
    SelectAll,
    /// Copy the selection to the clipboard (Ctrl/Cmd+C).
    Copy,
    /// Cut the selection to the clipboard (Ctrl/Cmd+X).
    Cut,
    /// Paste the clipboard at the caret, replacing the selection (Ctrl/Cmd+V).
    Paste,
    Enter,
    Escape,
}

/// The state after applying `input` with clipboard text `clip`.
pub open spec fn applied(s: EditState, input: KeyInput, clip: Seq<char>) -> EditState {
    match input {
        KeyInput::Text(t) => s.inserted(encode_utf8(t@)),
        KeyInput::Backspace => s.backspaced(),
        KeyInput::Delete => s.deleted(),
        KeyInput::Left => s.moved_left(),
        KeyInput::Right => s.moved_right(),
        KeyInput::Up => s.with_caret(line_up(s.bytes, s.caret)),
        KeyInput::Down => s.with_caret(line_down(s.bytes, s.caret)),
        KeyInput::Home => s.with_caret(line_start_of(s.bytes, s.caret)),
        KeyInput::End => s.with_caret(line_end_of(s.bytes, s.caret)),
        KeyInput::SelectLeft => s.extended(s.left_of_caret()),
        KeyInput::SelectRight => s.extended(s.right_of_caret()),
        KeyInput::SelectUp => s.extended(line_up(s.bytes, s.caret)),
        KeyInput::SelectDown => s.extended(line_down(s.bytes, s.caret)),
        KeyInput::SelectHome => s.extended(line_start_of(s.bytes, s.caret)),
        KeyInput::SelectEnd => s.extended(line_end_of(s.bytes, s.caret)),
        KeyInput::SelectAll => EditState { bytes: s.bytes, caret: s.len(), anchor: Some(0) },
        KeyInput::Copy => s,
        KeyInput::Cut => if s.selection() is Some { s.without_selection() } else { s },
        KeyInput::Paste => if clip.len() > 0 { s.inserted(encode_utf8(clip)) } else { s },
        KeyInput::Enter => s.inserted(seq![10u8]),
        KeyInput::Escape => s,
    }
}

/// The clipboard text after applying `input` to state `s` with clipboard
/// text `clip`: copy and cut put the selection there.
pub open spec fn clipboard_after(s: EditState, input: KeyInput, clip: Seq<char>) -> Seq<char> {
    match input {
        KeyInput::Copy | KeyInput::Cut => match s.selected() {
            Some(t) => decode_utf8(t),
            None => clip,
        },
        _ => clip,
    }
}

/// Applying `input` leaves a text a `String` can hold.
pub open spec fn apply_fits(s: EditState, input: KeyInput, clip: Seq<char>) -> bool {
    match input {
        KeyInput::Text(t) => s.insert_fits(encode_utf8(t@)),
        KeyInput::Paste => clip.len() > 0 ==> s.insert_fits(encode_utf8(clip)),
        KeyInput::Enter => s.insert_fits(seq![10u8]),
        _ => true,
    }
}

/// The process-local clipboard mirror that copy, cut and paste go through.
pub struct Clipboard {
    text: String,
}

impl View for Clipboard {
    type V = Seq<char>;

    closed spec fn view(&self) -> Seq<char> {
        self.text@
    }
}

impl Clipboard {
    /// An empty clipboard.
    pub fn new() -> (c: Self)
        ensures
            c@ == Seq::<char>::empty(),
    {
        Clipboard { text: String::new() }
    }
}

/// The current clipboard text.
pub fn clipboard_text(clipboard: &Clipboard) -> (r: String)
    ensures
        r@ == clipboard@,
{
    clipboard.text.clone()
}

/// Replace the clipboard text.
pub fn set_clipboard_text(clipboard: &mut Clipboard, text: &str)
    ensures
        final(clipboard)@ == text@,
{
    clipboard.text = text.to_owned();
}

/// Apply a [`KeyInput`] to a plain editable string: append committed text, or
/// remove the last character on backspace; everything else is ignored.
pub fn edit_string(value: &mut String, input: &KeyInput)
    ensures
        final(value)@ == match input {
            KeyInput::Text(t) => old(value)@ + t@,
            KeyInput::Backspace => if old(value)@.len() > 0 {
                old(value)@.drop_last()
            } else {
                old(value)@
            },
            _ => old(value)@,
        },
{
    match input {
        KeyInput::Text(t) => value.append(t.as_str()),
        KeyInput::Backspace => {
            pop_last_char(value);
        },
        _ => {},
    }
}

/// Calls `String::pop`. Believed, not proved: an empty string is left as it
/// is and `None` comes back; otherwise the last char is removed and
/// returned.
#[verifier::external_body]
fn pop_last_char(s: &mut String) -> (r: Option<char>)
    ensures
        old(s)@.len() == 0 ==> r is None && final(s)@ == old(s)@,
        old(s)@.len() > 0 ==> r == Some(old(s)@.last()) && final(s)@ == old(s)@.drop_last(),
{
    s.pop()
}

// ---- byte-level helpers -----------------------------------------------------

proof fn lemma_encode_newline()
    ensures
        encode_utf8(seq!['\n']) == seq![10u8],
{
    let s = seq!['\n'];
    assert(s[0] as u32 == 10);
    assert((10u32 & 0x7F) as u8 == 10u8) by (bit_vector);
    assert(s.drop_first() =~= Seq::<char>::empty());
    assert(encode_utf8(s.drop_first()) =~= Seq::<u8>::empty());
    assert(has_width_1_encoding(10u32));
    assert(encode_scalar(10u32) =~= seq![10u8]);
    assert(encode_utf8(s) == encode_scalar(s[0] as u32) + encode_utf8(s.drop_first()));
    assert(encode_utf8(s) =~= seq![10u8]);
}

proof fn lemma_zero_boundary(b: Seq<u8>)
    requires
        valid_utf8(b),
    ensures
        is_boundary(b, 0),
        is_boundary(b, b.len() as int),
{
    lemma_boundary_iff(b, 0);
    lemma_boundary_iff(b, b.len() as int);
}

proof fn lemma_boundary_before(b: Seq<u8>, i: int)
    requires
        valid_utf8(b),
        0 < i <= b.len(),
    ensures
        0 <= boundary_before(b, i) < i,
        is_boundary(b, boundary_before(b, i)),
        forall|q: int| boundary_before(b, i) < q < i ==> !is_boundary(b, q),
    decreases i,
{
    lemma_zero_boundary(b);
    if i > 1 && !is_boundary(b, i - 1) {
        lemma_boundary_before(b, i - 1);
    }
}

proof fn lemma_boundary_after(b: Seq<u8>, i: int)
    requires
        valid_utf8(b),
        0 <= i < b.len(),
    ensures
        i < boundary_after(b, i) <= b.len(),
        is_boundary(b, boundary_after(b, i)),
        forall|q: int| i < q < boundary_after(b, i) ==> !is_boundary(b, q),
    decreases b.len() - i,
{
    lemma_zero_boundary(b);
    if i + 1 < b.len() && !is_boundary(b, i + 1) {
        lemma_boundary_after(b, i + 1);
    }
}

proof fn lemma_boundary_at_or_below(b: Seq<u8>, i: int)
    requires
        valid_utf8(b),
        0 <= i <= b.len(),
    ensures
        0 <= boundary_at_or_below(b, i) <= i,
        is_boundary(b, boundary_at_or_below(b, i)),
        forall|q: int| boundary_at_or_below(b, i) < q <= i ==> !is_boundary(b, q),
    decreases i,
{
    lemma_zero_boundary(b);
    if i > 0 && !is_boundary(b, i) {
        lemma_boundary_at_or_below(b, i - 1);
    }
}

proof fn lemma_line_start(b: Seq<u8>, i: int)
    requires
        valid_utf8(b),
        0 <= i <= b.len(),
    ensures
        0 <= line_start_of(b, i) <= i,
        is_boundary(b, line_start_of(b, i)),
        line_start_of(b, i) > 0 ==> b[line_start_of(b, i) - 1] == 10,
        forall|q: int| line_start_of(b, i) <= q < i ==> b[q] != 10,
    decreases i,
{
    lemma_zero_boundary(b);
    if i > 0 {
        if b[i - 1] == 10 {
            if i < b.len() {
                lemma_after_ascii(b, i - 1);
            }
        } else {
            lemma_line_start(b, i - 1);
        }
    }
}

proof fn lemma_line_end(b: Seq<u8>, i: int)
    requires
        valid_utf8(b),
        0 <= i <= b.len(),
    ensures
        i <= line_end_of(b, i) <= b.len(),
        is_boundary(b, line_end_of(b, i)),
        line_end_of(b, i) < b.len() ==> b[line_end_of(b, i)] == 10,
        forall|q: int| i <= q < line_end_of(b, i) ==> b[q] != 10,
    decreases b.len() - i,
{
    lemma_zero_boundary(b);
    if i < b.len() && b[i] != 10 {
        lemma_line_end(b, i + 1);
    }
}

/// Splitting valid UTF-8 at a boundary and splicing keeps a valid text whose
/// boundaries carry over.
proof fn lemma_splice_valid(b: Seq<u8>, s: int, e: int, t: Seq<char>)
    requires
        valid_utf8(b),
        is_boundary(b, s),
        is_boundary(b, e),
        s <= e,
    ensures
        valid_utf8(b.subrange(0, s) + encode_utf8(t) + b.subrange(e, b.len() as int)),
        is_boundary(b.subrange(0, s) + encode_utf8(t) + b.subrange(e, b.len() as int), s),
        is_boundary(
            b.subrange(0, s) + encode_utf8(t) + b.subrange(e, b.len() as int),
            s + encode_utf8(t).len(),
        ),
{
    lemma_boundary_iff(b, s);
    lemma_boundary_iff(b, e);
    valid_utf8_split(b, s);
    valid_utf8_split(b, e);
    let x = b.subrange(0, s);
    let y = encode_utf8(t);
    let z = b.subrange(e, b.len() as int);
    valid_utf8_concat(x, y);
    valid_utf8_concat(x + y, z);
    let r = x + y + z;
    // s and s + |y| are boundaries: either the end, or the first byte of a
    // valid UTF-8 suffix, which is never a continuation byte.
    assert(r.subrange(s, r.len() as int) =~= y + z);
    valid_utf8_concat(y, z);
    assert(r.subrange(s + y.len(), r.len() as int) =~= z);
    if s < r.len() {
        assert(valid_first_scalar(y + z));
        assert(r[s] == (y + z)[0]);
    }
    if s + y.len() < r.len() {
        assert(valid_first_scalar(z));
        assert(r[s + y.len()] == z[0]);
    }
}

/// The bytes of a string.
pub(crate) fn str_bytes(s: &str) -> (r: &[u8])
    ensures
        r@ == encode_utf8(s@),
        r@.len() <= usize::MAX,
{
    let r = s.as_bytes();
    let _n = r.len();
    r
}

/// A new string: `text` with bytes `[start, end)` replaced by `ins`.
fn splice(text: &str, start: usize, end: usize, ins: &str) -> (r: String)
    requires
        valid_utf8(encode_utf8(text@)),
        is_boundary(encode_utf8(text@), start as int),
        is_boundary(encode_utf8(text@), end as int),
        start <= end,
    ensures
        encode_utf8(r@) == encode_utf8(text@).subrange(0, start as int) + encode_utf8(ins@)
            + encode_utf8(text@).subrange(end as int, encode_utf8(text@).len() as int),
{
    let ghost b = encode_utf8(text@);
    proof {
        lemma_boundary_iff(b, start as int);
    }
    let (a, rest) = text.split_at(start);
    proof {
        let rb = rest.spec_bytes();
        assert(rb =~= b.subrange(start as int, b.len() as int));
        if end < b.len() {
            assert(rb[end - start] == b[end as int]);
        }
        assert(is_boundary(rb, end - start));
        lemma_boundary_iff(rb, end - start);
    }
    let (_, c) = rest.split_at(end - start);
    let mut r = a.to_owned();
    r.append(ins);
    r.append(c);
    proof {
        lemma_encode_concat(a@, ins@);
        lemma_encode_concat(a@ + ins@, c@);
        assert(c.spec_bytes() =~= b.subrange(end as int, b.len() as int));
    }
    r
}

/// A new string holding bytes `[start, end)` of `text`.
pub(crate) fn substring(text: &str, start: usize, end: usize) -> (r: String)
    requires
        valid_utf8(encode_utf8(text@)),
        is_boundary(encode_utf8(text@), start as int),
        is_boundary(encode_utf8(text@), end as int),
        start <= end,
    ensures
        encode_utf8(r@) == encode_utf8(text@).subrange(start as int, end as int),
{
    let ghost b = encode_utf8(text@);
    proof {
        lemma_boundary_iff(b, start as int);
    }
    let (_, rest) = text.split_at(start);
    proof {
        let rb = rest.spec_bytes();
        assert(rb =~= b.subrange(start as int, b.len() as int));
        if end < b.len() {
            assert(rb[end - start] == b[end as int]);
        }
        assert(is_boundary(rb, end - start));
        lemma_boundary_iff(rb, end - start);
    }
    let (mid, _) = rest.split_at(end - start);
    proof {
        assert(mid.spec_bytes() =~= b.subrange(start as int, end as int));
    }
    mid.to_owned()
}

// ---- the buffer -------------------------------------------------------------

/// A text buffer with a caret, for in-place editing.
///
/// The caret is a byte index into the text, always kept on a UTF-8 char
/// boundary. Text is inserted and deleted at the caret; the arrow / Home /
/// End keys move it. An optional anchor marks the fixed end of a selection
/// whose moving end is the caret.
#[derive(Debug)]
pub struct EditBuffer {
    text: String,
    caret: usize,
    anchor: Option<usize>,
}

impl Default for EditBuffer {
    /// An empty buffer with the caret at the start.
    fn default() -> (r: Self)
        ensures
            r@ == (EditState { bytes: Seq::<u8>::empty(), caret: 0, anchor: None }),
    {
        EditBuffer::new()
    }
}

impl Clone for EditBuffer {
    fn clone(&self) -> (r: Self)
        ensures
            r@ == self@,
    {
        proof {
            use_type_invariant(self);
        }
        EditBuffer { text: self.text.clone(), caret: self.caret, anchor: self.anchor }
    }
}

impl PartialEq for EditBuffer {
    fn eq(&self, other: &Self) -> (r: bool) {
        let same_anchor = match (self.anchor, other.anchor) {
            (Some(a), Some(b)) => a == b,
            (None, None) => true,
            _ => false,
        };
        let same_text = self.text == other.text;
        proof {
            if self@.bytes == other@.bytes {
                assert(decode_utf8(encode_utf8(self.text@)) == self.text@);
                assert(decode_utf8(encode_utf8(other.text@)) == other.text@);
            }
        }
        same_text && self.caret == other.caret && same_anchor
    }
}

impl vstd::std_specs::cmp::PartialEqSpecImpl for EditBuffer {
    open spec fn obeys_eq_spec() -> bool {
        true
    }

    open spec fn eq_spec(&self, other: &Self) -> bool {
        self@ == other@
    }
}

impl Eq for EditBuffer {

}

impl View for EditBuffer {
    type V = EditState;

    closed spec fn view(&self) -> EditState {
        EditState {
            bytes: encode_utf8(self.text@),
            caret: self.caret as int,
            anchor: match self.anchor {
                Some(a) => Some(a as int),
                None => None,
            },
        }
    }
}

impl EditBuffer {
    #[verifier::type_invariant]
    spec fn inv(self) -> bool {
        self@.wf()
    }

    /// An empty buffer with the caret at the start.
    pub fn new() -> (r: Self)
        ensures
            r@.bytes == Seq::<u8>::empty(),
            r@.caret == 0,
            r@.anchor is None,
    {
        let r = EditBuffer { text: String::new(), caret: 0, anchor: None };
        assert(r@.bytes =~= Seq::<u8>::empty());
        r
    }

    /// A buffer holding `text`, caret placed at the end.
    pub fn from_text(text: &str) -> (r: Self)
        ensures
            r@.bytes == encode_utf8(text@),
            r@.caret == r@.len(),
            r@.anchor is None,
    {
        let n = str_bytes(text).len();
        proof {
            lemma_zero_boundary(encode_utf8(text@));
        }
        EditBuffer { text: text.to_owned(), caret: n, anchor: None }
    }


    /// The bytes of the text.
    fn bytes(&self) -> (r: &[u8])
        ensures
            r@ == self@.bytes,
    {
        str_bytes(self.text.as_str())
    }

    /// The current text.
    pub fn text(&self) -> (r: &str)
        ensures
            self@.wf(),
            r.spec_bytes() == self@.bytes,
            r@ == self@.chars(),
    {
        proof {
            use_type_invariant(self);
        }
        self.text.as_str()
    }

    /// The caret position as a byte index into the text; always a char
    /// boundary.
    pub fn caret(&self) -> (r: usize)
        ensures
            self@.wf(),
            r == self@.caret,
            is_char_boundary(self@.bytes, r as int),
    {
        proof {
            use_type_invariant(self);
            lemma_boundary_iff(self@.bytes, self.caret as int);
        }
        self.caret
    }

    /// `true` if there is no text.
    pub fn is_empty(&self) -> (r: bool)
        ensures
            r == (self@.len() == 0),
    {
        self.bytes().len() == 0
    }

    /// The selected byte range `[start, end)`, or `None` when nothing is
    /// selected (the anchor is unset or collapsed onto the caret).
    ///
    /// Every buffer is well formed (valid UTF-8, caret and anchor on char
    /// boundaries inside the text), and a selection's ends are boundaries
    /// with the caret at one of them.
    pub fn selection(&self) -> (r: Option<(usize, usize)>)
        ensures
            self@.wf(),
            match r {
                Some((s, e)) => {
                    &&& self@.selection() == Some((s as int, e as int))
                    &&& s < e <= self@.len()
                    &&& is_char_boundary(self@.bytes, s as int)
                    &&& is_char_boundary(self@.bytes, e as int)
                    &&& (s == self@.caret || e == self@.caret)
                },
                None => self@.selection() is None,
            },
    {
        proof {
            use_type_invariant(self);
            law_selection_within_text(self@);
            if let Some((a, e)) = self@.selection() {
                lemma_boundary_iff(self@.bytes, a);
                lemma_boundary_iff(self@.bytes, e);
            }
        }
        match self.anchor {
            Some(a) => if a != self.caret {
                if a < self.caret {
                    Some((a, self.caret))
                } else {
                    Some((self.caret, a))
                }
            } else {
                None
            },
            None => None,
        }
    }

    /// Delete the active selection (if any), leaving the caret at its start.
    /// Returns `true` if something was removed.
    fn delete_selection(&mut self) -> (r: bool)
        ensures
            final(self)@ == old(self)@.without_selection(),
            r == old(self)@.selection() is Some,
    {
        proof {
            use_type_invariant(&*self);
        }
        match self.selection() {
            Some((s, e)) => {
                let ghost b = self@.bytes;
                let t = splice(self.text.as_str(), s, e, "");
                proof {
                    reveal_strlit("");
                    assert(encode_utf8(""@) =~= Seq::<u8>::empty());
                    lemma_splice_valid(b, s as int, e as int, ""@);
                    assert(encode_utf8(t@) =~= b.subrange(0, s as int) + b.subrange(e as int, b.len() as int));
                }
                *self = EditBuffer { text: t, caret: s, anchor: None };
                true
            },
            None => {
                self.anchor = None;
                false
            },
        }
    }

    /// Insert `s`, replacing the selection first, and advance the caret past it.
    pub fn insert(&mut self, s: &str)
        requires
            old(self)@.insert_fits(s.spec_bytes()),
        ensures
            final(self)@ == old(self)@.inserted(s.spec_bytes()),
    {
        self.delete_selection();
        proof {
            use_type_invariant(&*self);
        }
        let ghost b = self@.bytes;
        let c = self.caret;
        let t = splice(self.text.as_str(), c, c, s);
        let n = str_bytes(s).len();
        proof {
            lemma_splice_valid(b, c as int, c as int, s@);
        }
        *self = EditBuffer { text: t, caret: c + n, anchor: None };
    }

    /// Delete the selection, or the character before the caret (Backspace).
    pub fn backspace(&mut self)
        ensures
            final(self)@ == old(self)@.backspaced(),
    {
        if self.delete_selection() {
            return;
        }
        proof {
            use_type_invariant(&*self);
        }
        let ghost b = self@.bytes;
        if let Some(prev) = self.prev_boundary(self.caret) {
            let c = self.caret;
            let t = splice(self.text.as_str(), prev, c, "");
            proof {
                reveal_strlit("");
                assert(encode_utf8(""@) =~= Seq::<u8>::empty());
                lemma_splice_valid(b, prev as int, c as int, ""@);
                assert(encode_utf8(t@) =~= b.subrange(0, prev as int) + b.subrange(c as int, b.len() as int));
            }
            *self = EditBuffer { text: t, caret: prev, anchor: None };
        }
    }

    /// Delete the selection, or the character at the caret (Delete).
    pub fn delete(&mut self)
        ensures
            final(self)@ == old(self)@.deleted(),
    {
        if self.delete_selection() {
            return;
        }
        proof {
            use_type_invariant(&*self);
        }
        let ghost b = self@.bytes;
        if let Some(next) = self.next_boundary(self.caret) {
            let c = self.caret;
            let t = splice(self.text.as_str(), c, next, "");
            proof {
                reveal_strlit("");
                assert(encode_utf8(""@) =~= Seq::<u8>::empty());
                lemma_splice_valid(b, c as int, next as int, ""@);
                assert(encode_utf8(t@) =~= b.subrange(0, c as int) + b.subrange(next as int, b.len() as int));
            }
            *self = EditBuffer { text: t, caret: c, anchor: None };
        }
    }

    /// Move the caret one character left, collapsing any selection to its start.
    pub fn move_left(&mut self)
        ensures
            final(self)@ == old(self)@.moved_left(),
    {
        proof {
            use_type_invariant(&*self);
        }
        if let Some((s, _)) = self.selection() {
            self.caret = s;
        } else if let Some(prev) = self.prev_boundary(self.caret) {
            self.caret = prev;
        }
        self.anchor = None;
    }

    /// Move the caret one character right, collapsing any selection to its end.
    pub fn move_right(&mut self)
        ensures
            final(self)@ == old(self)@.moved_right(),
    {
        proof {
            use_type_invariant(&*self);
        }
        if let Some((_, e)) = self.selection() {
            self.caret = e;
        } else if let Some(next) = self.next_boundary(self.caret) {
            self.caret = next;
        }
        self.anchor = None;
    }

    /// Move the caret to the start of the current line, clearing the selection.
    pub fn home(&mut self)
        ensures
            final(self)@ == old(self)@.with_caret(line_start_of(old(self)@.bytes, old(self)@.caret)),
    {
        proof {
            use_type_invariant(&*self);
        }
        self.caret = self.line_start(self.caret);
        self.anchor = None;
    }

    /// Move the caret to the end of the current line, clearing the selection.
    pub fn end(&mut self)
        ensures
            final(self)@ == old(self)@.with_caret(line_end_of(old(self)@.bytes, old(self)@.caret)),
    {
        proof {
            use_type_invariant(&*self);
        }
        self.caret = self.line_end(self.caret);
        self.anchor = None;
    }

    /// Move the caret up one line (same byte column), clearing the selection.
    pub fn up(&mut self)
        ensures
            final(self)@ == old(self)@.with_caret(line_up(old(self)@.bytes, old(self)@.caret)),
    {
        proof {
            use_type_invariant(&*self);
        }
        self.caret = self.caret_up(self.caret);
        self.anchor = None;
    }

    /// Move the caret down one line (same byte column), clearing the selection.
    pub fn down(&mut self)
        ensures
            final(self)@ == old(self)@.with_caret(line_down(old(self)@.bytes, old(self)@.caret)),
    {
        proof {
            use_type_invariant(&*self);
        }
        self.caret = self.caret_down(self.caret);
        self.anchor = None;
    }

    /// Byte index of the start of the line containing `byte`.
    fn line_start(&self, byte: usize) -> (r: usize)
        requires
            byte <= self@.len(),
        ensures
            r == line_start_of(self@.bytes, byte as int),
            is_boundary(self@.bytes, r as int),
    {
        proof {
            use_type_invariant(self);
            lemma_line_start(self@.bytes, byte as int);
        }
        let b = self.bytes();
        let mut i = byte;
        while i > 0 && b[i - 1] != 10
            invariant
                i <= byte,
                byte <= b@.len(),
                line_start_of(b@, byte as int) == line_start_of(b@, i as int),
            decreases i,
        {
            i = i - 1;
        }
        i
    }

    /// Byte index of the end of the line containing `byte`.
    fn line_end(&self, byte: usize) -> (r: usize)
        requires
            byte <= self@.len(),
        ensures
            r == line_end_of(self@.bytes, byte as int),
            is_boundary(self@.bytes, r as int),
    {
        proof {
            use_type_invariant(self);
            lemma_line_end(self@.bytes, byte as int);
        }
        let b = self.bytes();
        let mut i = byte;
        while i < b.len() && b[i] != 10
            invariant
                byte <= i <= b@.len(),
                line_end_of(b@, byte as int) == line_end_of(b@, i as int),
            decreases b@.len() - i,
        {
            i = i + 1;
        }
        i
    }

    /// The caret position one line above `byte`, keeping the byte column.
    fn caret_up(&self, byte: usize) -> (r: usize)
        requires
            byte <= self@.len(),
        ensures
            r == line_up(self@.bytes, byte as int),
            is_boundary(self@.bytes, r as int),
    {
        proof {
            use_type_invariant(self);
            lemma_zero_boundary(self@.bytes);
        }
        let start = self.line_start(byte);
        if start == 0 {
            return 0;
        }
        proof {
            lemma_line_start(self@.bytes, byte as int);
        }
        let col = byte - start;
        let prev_start = self.line_start(start - 1);
        proof {
            lemma_line_start(self@.bytes, start - 1);
        }
        let prev_end = start - 1;
        let target = if prev_start + col < prev_end { prev_start + col } else { prev_end };
        self.snap(target)
    }

    /// The caret position one line below `byte`, keeping the byte column.
    fn caret_down(&self, byte: usize) -> (r: usize)
        requires
            byte <= self@.len(),
        ensures
            r == line_down(self@.bytes, byte as int),
            is_boundary(self@.bytes, r as int),
    {
        proof {
            use_type_invariant(self);
            lemma_zero_boundary(self@.bytes);
        }
        let end = self.line_end(byte);
        if end == self.bytes().len() {
            return end;
        }
        let start = self.line_start(byte);
        proof {
            lemma_line_start(self@.bytes, byte as int);
            lemma_line_end(self@.bytes, byte as int);
        }
        let col = byte - start;
        let next_start = end + 1;
        let next_end = self.line_end(next_start);
        proof {
            lemma_line_end(self@.bytes, next_start as int);
        }
        let target = if col < next_end - next_start { next_start + col } else { next_end };
        self.snap(target)
    }

    /// Snap a byte index to the nearest char boundary at or below it, clamped
    /// to the text length.
    fn snap(&self, i: usize) -> (r: usize)
        ensures
            r == snapped(self@.bytes, i as int),
            is_boundary(self@.bytes, r as int),
    {
        proof {
            use_type_invariant(self);
            lemma_zero_boundary(self@.bytes);
        }
        let b = self.bytes();
        let mut i = if i < b.len() { i } else { b.len() };
        proof {
            lemma_boundary_at_or_below(b@, i as int);
        }
        let ghost i0 = i;
        while !boundary_at(b, i)
            invariant
                i <= i0 <= b@.len(),
                valid_utf8(b@),
                boundary_at_or_below(b@, i0 as int) == boundary_at_or_below(b@, i as int),
            decreases i,
        {
            proof {
                lemma_zero_boundary(b@);
            }
            i = i - 1;
        }
        i
    }

    /// The char boundary strictly before `i`, or `None` at the start.
    fn prev_boundary(&self, i: usize) -> (r: Option<usize>)
        requires
            i <= self@.len(),
        ensures
            i == 0 ==> r is None,
            i > 0 ==> (r matches Some(p) && p as int == boundary_before(self@.bytes, i as int)),
            r matches Some(p) ==> is_boundary(self@.bytes, p as int) && p < i,
    {
        if i == 0 {
            return None;
        }
        proof {
            use_type_invariant(self);
            lemma_boundary_before(self@.bytes, i as int);
            lemma_zero_boundary(self@.bytes);
        }
        let b = self.bytes();
        let mut p = i - 1;
        while !boundary_at(b, p)
            invariant
                p < i <= b@.len(),
                valid_utf8(b@),
                boundary_before(b@, i as int) == boundary_before(b@, p + 1),
            decreases p,
        {
            proof {
                lemma_zero_boundary(b@);
            }
            p = p - 1;
        }
        Some(p)
    }

    /// The char boundary strictly after `i`, or `None` at the end.
    fn next_boundary(&self, i: usize) -> (r: Option<usize>)
        ensures
            i >= self@.len() ==> r is None,
            i < self@.len() ==> (r matches Some(n) && n as int == boundary_after(self@.bytes, i as int)),
            r matches Some(n) ==> is_boundary(self@.bytes, n as int) && i < n,
    {
        proof {
            use_type_invariant(self);
        }
        let b = self.bytes();
        if i >= b.len() {
            return None;
        }
        proof {
            lemma_boundary_after(b@, i as int);
        }
        let mut n = i + 1;
        while n < b.len() && !boundary_at(b, n)
            invariant
                i < n <= b@.len(),
                boundary_after(b@, i as int) == boundary_after(b@, n - 1),
            decreases b@.len() - n,
        {
            n = n + 1;
        }
        Some(n)
    }

    /// Move the caret (the selection's moving end) to `c`, anchoring the
    /// selection at the prior caret if not already selecting.
    fn extend(&mut self, c: usize)
        requires
            is_boundary(old(self)@.bytes, c as int),
        ensures
            final(self)@ == old(self)@.extended(c as int),
    {
        proof {
            use_type_invariant(&*self);
        }
        if self.anchor.is_none() {
            self.anchor = Some(self.caret);
        }
        self.caret = c;
    }

    /// Extend the selection one character left.
    pub fn select_left(&mut self)
        ensures
            final(self)@ == old(self)@.extended(old(self)@.left_of_caret()),
    {
        proof {
            use_type_invariant(&*self);
        }
        let mut c = self.caret;
        if let Some(prev) = self.prev_boundary(c) {
            c = prev;
        }
        self.extend(c);
    }

    /// Extend the selection one character right.
    pub fn select_right(&mut self)
        ensures
            final(self)@ == old(self)@.extended(old(self)@.right_of_caret()),
    {
        proof {
            use_type_invariant(&*self);
        }
        let mut c = self.caret;
        if let Some(next) = self.next_boundary(c) {
            c = next;
        }
        self.extend(c);
    }

    /// Extend the selection to the start of the current line.
    pub fn select_home(&mut self)
        ensures
            final(self)@ == old(self)@.extended(line_start_of(old(self)@.bytes, old(self)@.caret)),
    {
        proof {
            use_type_invariant(&*self);
        }
        let c = self.line_start(self.caret);
        self.extend(c);
    }

    /// Extend the selection to the end of the current line.
    pub fn select_end(&mut self)
        ensures
            final(self)@ == old(self)@.extended(line_end_of(old(self)@.bytes, old(self)@.caret)),
    {
        proof {
            use_type_invariant(&*self);
        }
        let c = self.line_end(self.caret);
        self.extend(c);
    }

    /// Extend the selection one line up.
    fn select_up(&mut self)
        ensures
            final(self)@ == old(self)@.extended(line_up(old(self)@.bytes, old(self)@.caret)),
    {
        proof {
            use_type_invariant(&*self);
        }
        let c = self.caret_up(self.caret);
        self.extend(c);
    }

    /// Extend the selection one line down.
    fn select_down(&mut self)
        ensures
            final(self)@ == old(self)@.extended(line_down(old(self)@.bytes, old(self)@.caret)),
    {
        proof {
            use_type_invariant(&*self);
        }
        let c = self.caret_down(self.caret);
        self.extend(c);
    }

    /// Select the entire text.
    pub fn select_all(&mut self)
        ensures
            final(self)@ == (EditState { bytes: old(self)@.bytes, caret: old(self)@.len(), anchor: Some(0) }),
    {
        proof {
            use_type_invariant(&*self);
            lemma_zero_boundary(self@.bytes);
        }
        let n = self.bytes().len();
        self.anchor = Some(0);
        self.caret = n;
    }

    /// Place the caret at byte index `i` (snapped down to a char boundary and
    /// clamped to the text) and clear any selection.
    pub fn place_caret(&mut self, i: usize)
        ensures
            final(self)@ == old(self)@.with_caret(snapped(old(self)@.bytes, i as int)),
    {
        proof {
            use_type_invariant(&*self);
        }
        self.caret = self.snap(i);
        self.anchor = None;
    }

    /// Move the caret to byte index `i` (snapped), anchoring the selection at
    /// the prior caret if not already selecting.
    pub fn extend_to(&mut self, i: usize)
        ensures
            final(self)@ == old(self)@.extended(snapped(old(self)@.bytes, i as int)),
    {
        let c = self.snap(i);
        self.extend(c);
    }

    /// The currently selected text, or `None` if there is no selection.
    pub fn selected_text(&self) -> (r: Option<String>)
        ensures
            match r {
                Some(t) => self@.selected() == Some(encode_utf8(t@)),
                None => self@.selected() is None,
            },
    {
        proof {
            use_type_invariant(self);
        }
        match self.selection() {
            Some((s, e)) => Some(substring(self.text.as_str(), s, e)),
            None => None,
        }
    }

    /// Apply a [`KeyInput`]: insert/replace text, delete, move or extend the
    /// caret, or copy/cut/paste through `clipboard`. Enter inserts a newline;
    /// Escape does nothing.
    pub fn apply(&mut self, input: &KeyInput, clipboard: &mut Clipboard)
        requires
            apply_fits(old(self)@, *input, old(clipboard)@),
        ensures
            final(self)@ == applied(old(self)@, *input, old(clipboard)@),
            final(clipboard)@ == clipboard_after(old(self)@, *input, old(clipboard)@),
    {
        match input {
            KeyInput::Text(t) => self.insert(t.as_str()),
            KeyInput::Backspace => self.backspace(),
            KeyInput::Delete => self.delete(),
            KeyInput::Left => self.move_left(),
            KeyInput::Right => self.move_right(),
            KeyInput::Up => self.up(),
            KeyInput::Down => self.down(),
            KeyInput::Home => self.home(),
            KeyInput::End => self.end(),
            KeyInput::SelectLeft => self.select_left(),
            KeyInput::SelectRight => self.select_right(),
            KeyInput::SelectUp => self.select_up(),
            KeyInput::SelectDown => self.select_down(),
            KeyInput::SelectHome => self.select_home(),
            KeyInput::SelectEnd => self.select_end(),
            KeyInput::SelectAll => self.select_all(),
            KeyInput::Copy => {
                if let Some(sel) = self.selected_text() {
                    set_clipboard_text(clipboard, sel.as_str());
                }
            },
            KeyInput::Cut => {
                if let Some(sel) = self.selected_text() {
                    set_clipboard_text(clipboard, sel.as_str());
                    self.delete_selection();
                }
            },
            KeyInput::Paste => {
                let text = clipboard_text(clipboard);
                if !text.as_str().is_empty() {
                    self.insert(text.as_str());
                }
            },
            KeyInput::Enter => {
                proof {
                    reveal_strlit("\n");
                    assert("\n"@ =~= seq!['\n']);
                    lemma_encode_newline();
                }
                self.insert("\n");
            },
            KeyInput::Escape => {},
        }
    }
}

// ---- laws -------------------------------------------------------------------

/// Every byte after the first of one character's UTF-8 encoding is a
/// continuation byte.
proof fn lemma_scalar_tail_continuation(v: u32, k: int)
    requires
        is_scalar(v),
        0 < k < encode_scalar(v).len(),
    ensures
        is_continuation_byte(encode_scalar(v)[k]),
{
    let a = (0x80u8 | (v & 0x3F) as u8);
    let b = (0x80u8 | ((v >> 6) & 0x3F) as u8);
    let c = (0x80u8 | ((v >> 12) & 0x3F) as u8);
    assert(0x80 <= a <= 0xbf) by (bit_vector)
        requires
            a == (0x80u8 | (v & 0x3F) as u8),
    ;
    assert(0x80 <= b <= 0xbf) by (bit_vector)
        requires
            b == (0x80u8 | ((v >> 6) & 0x3F) as u8),
    ;
    assert(0x80 <= c <= 0xbf) by (bit_vector)
        requires
            c == (0x80u8 | ((v >> 12) & 0x3F) as u8),
    ;
}

/// In valid UTF-8, the greatest boundary before the least boundary after a
/// boundary `c` is `c` again.
proof fn lemma_before_after(b: Seq<u8>, c: int)
    requires
        valid_utf8(b),
        is_boundary(b, c),
        c < b.len(),
    ensures
        boundary_before(b, boundary_after(b, c)) == c,
{
    lemma_boundary_after(b, c);
    let n = boundary_after(b, c);
    lemma_boundary_before(b, n);
}

/// In valid UTF-8, the least boundary after the greatest boundary before a
/// boundary `c > 0` is `c` again.
proof fn lemma_after_before(b: Seq<u8>, c: int)
    requires
        valid_utf8(b),
        is_boundary(b, c),
        0 < c,
    ensures
        boundary_after(b, boundary_before(b, c)) == c,
{
    lemma_boundary_before(b, c);
    let p = boundary_before(b, c);
    lemma_boundary_after(b, p);
}

/// A plain caret motion (left, right, home, end, up, down, placing the
/// caret) leaves no selection; left and right from a selection collapse it to
/// its start and its end.
pub proof fn law_plain_motion_collapses_selection(s: EditState, c: int)
    requires
        s.wf(),
    ensures
        s.moved_left().selection() is None,
        s.moved_right().selection() is None,
        s.with_caret(c).selection() is None,
        s.selection() matches Some((a, e)) ==> s.moved_left().caret == a && s.moved_right().caret == e,
        s.moved_left().bytes == s.bytes,
        s.moved_right().bytes == s.bytes,
{
}

/// With nothing selected, Right then Left (away from the end), and Left then
/// Right (away from the start), bring the caret back where it was.
pub proof fn law_left_right_inverse(s: EditState)
    requires
        s.wf(),
        s.selection() is None,
    ensures
        s.caret < s.len() ==> s.moved_right().moved_left() == s.with_caret(s.caret),
        0 < s.caret ==> s.moved_left().moved_right() == s.with_caret(s.caret),
{
    if s.caret < s.len() {
        lemma_before_after(s.bytes, s.caret);
        lemma_boundary_after(s.bytes, s.caret);
    }
    if 0 < s.caret {
        lemma_after_before(s.bytes, s.caret);
        lemma_boundary_before(s.bytes, s.caret);
    }
}

/// Backspace at the start and Delete at the end change nothing in the text.
pub proof fn law_edit_at_edges_is_noop(s: EditState)
    requires
        s.wf(),
        s.selection() is None,
    ensures
        s.caret == 0 ==> s.backspaced() == s.with_caret(0),
        s.caret == s.len() ==> s.deleted() == s.with_caret(s.caret),
{
}

/// Typing over a selection replaces exactly the selected bytes and leaves
/// the caret after the typed text.
pub proof fn law_typing_replaces_selection(s: EditState, t: Seq<u8>)
    requires
        s.wf(),
        s.selection() is Some,
    ensures
        ({
            let (a, e) = s.selection()->0;
            s.inserted(t) == EditState {
                bytes: s.bytes.subrange(0, a) + t + s.bytes.subrange(e, s.len()),
                caret: a + t.len(),
                anchor: None,
            }
        }),
{
    let (a, e) = s.selection()->0;
    let d = s.without_selection();
    assert(d.bytes.subrange(0, a) =~= s.bytes.subrange(0, a));
    assert(d.bytes.subrange(a, d.len()) =~= s.bytes.subrange(e, s.len()));
}

/// Typing one character and then pressing Backspace restores the text and
/// the caret.
pub proof fn law_backspace_undoes_typed_char(s: EditState, ch: char)
    requires
        s.wf(),
        s.selection() is None,
    ensures
        s.inserted(encode_utf8(seq![ch])).backspaced() == s.with_caret(s.caret),
{
    let t = encode_utf8(seq![ch]);
    let b = s.bytes;
    let c = s.caret;
    assert(seq![ch].drop_first() =~= Seq::<char>::empty());
    assert(t == encode_scalar(ch as u32) + encode_utf8(Seq::<char>::empty()));
    assert(t =~= encode_scalar(ch as u32));
    let i = s.inserted(t);
    assert(s.without_selection() == s.with_caret(c));
    let b2 = i.bytes;
    assert(b2 == b.subrange(0, c) + t + b.subrange(c, b.len() as int));
    lemma_splice_valid(b, c, c, seq![ch]);
    assert(i.selection() is None);
    lemma_boundary_before(b2, c + t.len());
    let p = boundary_before(b2, c + t.len());
    assert forall|q: int| c < q < c + t.len() implies !is_boundary(b2, q) by {
        assert(b2[q] == t[q - c]);
        lemma_scalar_tail_continuation(ch as u32, q - c);
    }
    assert(p == c);
    assert(b2.subrange(0, c) + b2.subrange(c + t.len(), b2.len() as int) =~= b);
}

/// Select All followed by Backspace empties the text and leaves no
/// selection.
pub proof fn law_select_all_then_backspace_clears(s: EditState, clip: Seq<char>)
    requires
        s.wf(),
    ensures
        applied(applied(s, KeyInput::SelectAll, clip), KeyInput::Backspace, clip).bytes == Seq::<u8>::empty(),
        applied(applied(s, KeyInput::SelectAll, clip), KeyInput::Backspace, clip).selection() is None,
        applied(applied(s, KeyInput::SelectAll, clip), KeyInput::Backspace, clip).caret == 0,
{
    let s1 = applied(s, KeyInput::SelectAll, clip);
    if s.len() > 0 {
        assert(s1.selection() == Some((0int, s.len())));
        assert(s1.without_selection().bytes =~= Seq::<u8>::empty());
    } else {
        assert(s.bytes =~= Seq::<u8>::empty());
    }
}

/// Select All then Copy puts the whole text on the clipboard; End then Paste
/// appends it again. Select All then Cut empties the text and leaves it on
/// the clipboard.
pub proof fn law_copy_paste_round_trip(s: EditState, clip: Seq<char>)
    requires
        s.wf(),
        s.len() > 0,
    ensures
        ({
            let all = applied(s, KeyInput::SelectAll, clip);
            let copied = clipboard_after(all, KeyInput::Copy, clip);
            let at_end = applied(applied(all, KeyInput::Copy, clip), KeyInput::End, copied);
            let pasted = applied(at_end, KeyInput::Paste, copied);
            &&& copied == s.chars()
            &&& applied(all, KeyInput::Copy, clip) == all
            &&& pasted.bytes == s.bytes + s.bytes
            &&& pasted.caret == 2 * s.len()
            &&& clipboard_after(at_end, KeyInput::Paste, copied) == s.chars()
            &&& applied(all, KeyInput::Cut, clip).bytes == Seq::<u8>::empty()
            &&& clipboard_after(all, KeyInput::Cut, clip) == s.chars()
        }),
{
    let b = s.bytes;
    let all = applied(s, KeyInput::SelectAll, clip);
    assert(all.selection() == Some((0int, s.len())));
    assert(b.subrange(0, s.len()) =~= b);
    let copied = clipboard_after(all, KeyInput::Copy, clip);
    assert(copied == decode_utf8(b));
    assert(encode_utf8(copied) == b);
    assert(copied.len() > 0) by {
        if copied.len() == 0 {
            assert(copied =~= Seq::<char>::empty());
            assert(encode_utf8(copied) =~= Seq::<u8>::empty());
        }
    }
    let at_end = applied(all, KeyInput::End, copied);
    assert(line_end_of(b, s.len()) == s.len());
    assert(at_end == s.with_caret(s.len()));
    let pasted = applied(at_end, KeyInput::Paste, copied);
    assert(pasted.bytes =~= b + b);
    assert(all.without_selection().bytes =~= Seq::<u8>::empty());
}

/// A selection is a non-empty byte range of the text whose ends are char
/// boundaries, one of them the caret.
pub proof fn law_selection_within_text(s: EditState)
    requires
        s.wf(),
    ensures
        s.selection() matches Some((a, e)) ==> {
            &&& 0 <= a < e <= s.len()
            &&& is_boundary(s.bytes, a)
            &&& is_boundary(s.bytes, e)
            &&& (a == s.caret || e == s.caret)
        },
{
}

/// The text reads back as what it was made from, and typing `t` with
/// nothing selected puts exactly the chars of `t` between the chars before
/// and after the caret.
pub proof fn law_typing_inserts_chars(s: EditState, t: Seq<char>)
    requires
        s.wf(),
        s.selection() is None,
    ensures
        (EditState { bytes: encode_utf8(t), caret: 0, anchor: None }).chars() == t,
        s.chars() == decode_utf8(s.bytes.subrange(0, s.caret)) + decode_utf8(s.bytes.subrange(s.caret, s.len())),
        s.inserted(encode_utf8(t)).chars() == decode_utf8(s.bytes.subrange(0, s.caret)) + t + decode_utf8(
            s.bytes.subrange(s.caret, s.len()),
        ),
{
    let b = s.bytes;
    let c = s.caret;
    lemma_boundary_iff(b, c);
    decode_utf8_split(b, c);
    valid_utf8_split(b, c);
    let x = b.subrange(0, c);
    let z = b.subrange(c, b.len() as int);
    let p = decode_utf8(x);
    let q = decode_utf8(z);
    assert(encode_utf8(p) == x);
    assert(encode_utf8(q) == z);
    lemma_encode_concat(p, t);
    lemma_encode_concat(p + t, q);
    assert(s.without_selection() == s.with_caret(c));
    assert(s.inserted(encode_utf8(t)).bytes == x + encode_utf8(t) + z);
    assert(encode_utf8(p + t + q) == x + encode_utf8(t) + z);
}

/// The line containing `i` starts at `s` when `s` starts a line (the text
/// start, or just after a `\n`) and no `\n` lies in `[s, i)`.
proof fn lemma_line_start_unique(b: Seq<u8>, i: int, st: int)
    requires
        valid_utf8(b),
        0 <= st <= i <= b.len(),
        st == 0 || b[st - 1] == 10,
        forall|q: int| st <= q < i ==> b[q] != 10,
    ensures
        line_start_of(b, i) == st,
{
    lemma_line_start(b, i);
    let ls = line_start_of(b, i);
    if ls < st {
        assert(b[st - 1] == 10);
    } else if st < ls {
        assert(b[ls - 1] == 10);
    }
}

/// Down, then Up, brings the caret back when the line below reaches at
/// least as far as the caret's byte column and that column is a char
/// boundary there: both motions keep the byte column.
pub proof fn law_down_then_up_returns(s: EditState)
    requires
        s.wf(),
        line_end_of(s.bytes, s.caret) < s.len(),
        line_end_of(s.bytes, s.caret) + 1 + (s.caret - line_start_of(s.bytes, s.caret)) < line_end_of(
            s.bytes,
            line_end_of(s.bytes, s.caret) + 1,
        ),
        is_boundary(
            s.bytes,
            line_end_of(s.bytes, s.caret) + 1 + (s.caret - line_start_of(s.bytes, s.caret)),
        ),
    ensures
        line_down(s.bytes, s.caret) == line_end_of(s.bytes, s.caret) + 1 + (s.caret - line_start_of(
            s.bytes,
            s.caret,
        )),
        line_up(s.bytes, line_down(s.bytes, s.caret)) == s.caret,
{
    let b = s.bytes;
    let c = s.caret;
    lemma_line_start(b, c);
    lemma_line_end(b, c);
    let st = line_start_of(b, c);
    let end = line_end_of(b, c);
    let col = c - st;
    let ns = end + 1;
    lemma_line_end(b, ns);
    let ne = line_end_of(b, ns);
    let d = ns + col;
    lemma_boundary_at_or_below(b, d);
    assert(snapped(b, d) == d);
    assert(line_down(b, c) == d);
    // From `d`, the line starts at `ns` (just after the `\n` at `end`).
    lemma_line_start_unique(b, d, ns);
    // The line above `d` is the caret's own line.
    assert forall|q: int| st <= q < end implies b[q] != 10 by {
        if q >= c {
            assert(c <= q < end);
        }
    }
    lemma_line_start_unique(b, end, st);
    assert(line_start_of(b, ns - 1) == st);
    lemma_boundary_at_or_below(b, c);
    assert(snapped(b, c) == c);
}

} // verus!
