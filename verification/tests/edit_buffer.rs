use stipple::edit::{clipboard_text, edit_string, set_clipboard_text, Clipboard, EditBuffer, KeyInput};

#[test]
fn edit_buffer_inserts_and_moves_caret() {
    let mut b = EditBuffer::new();
    b.insert("ab");
    assert_eq!((b.text(), b.caret()), ("ab", 2));
    b.move_left();
    assert_eq!(b.caret(), 1);
    b.insert("X"); // insert mid-string at the caret
    assert_eq!((b.text(), b.caret()), ("aXb", 2));
    b.home();
    assert_eq!(b.caret(), 0);
    b.end();
    assert_eq!(b.caret(), 3);
}

#[test]
fn edit_buffer_backspace_and_delete_at_caret() {
    let mut b = EditBuffer::from_text("abc");
    assert_eq!(b.caret(), 3); // from_text places caret at end
    b.backspace();
    assert_eq!((b.text(), b.caret()), ("ab", 2));
    b.home();
    b.delete();
    assert_eq!((b.text(), b.caret()), ("b", 0));
    // Deletes/backspaces at the edges are no-ops.
    b.backspace();
    assert_eq!(b.text(), "b");
    b.end();
    b.delete();
    assert_eq!(b.text(), "b");
}

#[test]
fn edit_buffer_respects_utf8_boundaries() {
    // "é" and "🦀" are multi-byte; caret motion must land on boundaries.
    let mut b = EditBuffer::from_text("é🦀");
    assert_eq!(b.caret(), "é🦀".len());
    b.move_left(); // skip the whole crab
    assert_eq!(b.caret(), "é".len());
    b.move_left();
    assert_eq!(b.caret(), 0);
    b.delete(); // removes "é", not a partial byte
    assert_eq!(b.text(), "🦀");
}

#[test]
fn edit_buffer_apply_dispatches_keys() {
    let mut clip = Clipboard::new();
    let mut b = EditBuffer::new();
    for k in [
        KeyInput::Text("hi".into()),
        KeyInput::Left,
        KeyInput::Text("X".into()),
    ] {
        b.apply(&k, &mut clip);
    }
    assert_eq!((b.text(), b.caret()), ("hXi", 2));
}

#[test]
fn edit_buffer_shift_select_and_replace() {
    let mut b = EditBuffer::from_text("hello");
    b.home(); // caret at 0, no selection
    assert_eq!(b.selection(), None);
    b.select_right();
    b.select_right();
    b.select_right(); // select "hel"
    assert_eq!(b.selection(), Some((0, 3)));
    // Typing replaces the selection.
    b.insert("X");
    assert_eq!((b.text(), b.caret(), b.selection()), ("Xlo", 1, None));
}

#[test]
fn edit_buffer_select_all_then_backspace_clears() {
    let mut b = EditBuffer::from_text("abc");
    b.select_all();
    assert_eq!(b.selection(), Some((0, 3)));
    b.backspace(); // deletes the whole selection
    assert!(b.is_empty());
    assert_eq!(b.selection(), None);
}

#[test]
fn edit_buffer_plain_motion_collapses_selection() {
    let mut b = EditBuffer::from_text("abcd");
    b.home();
    b.select_right();
    b.select_right(); // select "ab", caret at 2
    assert_eq!(b.selection(), Some((0, 2)));
    b.move_left(); // collapse to selection start
    assert_eq!((b.caret(), b.selection()), (0, None));
}

#[test]
fn edit_buffer_select_respects_utf8() {
    let mut b = EditBuffer::from_text("é🦀");
    b.home();
    b.select_right(); // selects "é" (2 bytes), not a partial byte
    assert_eq!(b.selection(), Some((0, "é".len())));
    b.select_right(); // extends over "🦀"
    assert_eq!(b.selection(), Some((0, "é🦀".len())));
}

#[test]
fn edit_buffer_place_caret_and_extend() {
    let mut b = EditBuffer::from_text("hello");
    b.place_caret(2); // click between "he" and "llo"
    assert_eq!((b.caret(), b.selection()), (2, None));
    b.extend_to(4); // drag right to select "ll"
    assert_eq!(b.selection(), Some((2, 4)));
    b.extend_to(0); // drag left past the anchor
    assert_eq!(b.selection(), Some((0, 2)));
    // Out-of-range / mid-codepoint indices snap safely.
    let mut u = EditBuffer::from_text("é🦀");
    u.place_caret(999);
    assert_eq!(u.caret(), "é🦀".len());
    u.place_caret(1); // inside "é" -> snaps down to 0
    assert_eq!(u.caret(), 0);
}

#[test]
fn edit_buffer_copy_paste_round_trips_through_the_clipboard() {
    let mut clip = Clipboard::new();
    let mut b = EditBuffer::from_text("Clip");
    b.apply(&KeyInput::SelectAll, &mut clip);
    b.apply(&KeyInput::Copy, &mut clip); // clipboard = "Clip"
    b.apply(&KeyInput::End, &mut clip); // collapse selection, caret at end
    b.apply(&KeyInput::Paste, &mut clip); // insert "Clip" → "ClipClip"
    assert_eq!(b.text(), "ClipClip");
    assert_eq!(clipboard_text(&clip), "Clip");

    // Cut removes the selection and leaves it on the clipboard.
    b.apply(&KeyInput::SelectAll, &mut clip);
    b.apply(&KeyInput::Cut, &mut clip);
    assert_eq!(b.text(), "");
    assert_eq!(clipboard_text(&clip), "ClipClip");
}

#[test]
fn edit_buffer_enter_and_line_navigation() {
    let mut clip = Clipboard::new();
    let mut b = EditBuffer::new();
    b.apply(&KeyInput::Text("ab".into()), &mut clip);
    b.apply(&KeyInput::Enter, &mut clip); // newline → "ab\n", caret at 3
    b.apply(&KeyInput::Text("cde".into()), &mut clip); // "ab\ncde", caret at end (6)
    assert_eq!((b.text(), b.caret()), ("ab\ncde", 6));
    // Up keeps the byte column (3 → clamped to line 0 length 2).
    b.up();
    assert_eq!(b.caret(), 2);
    // Home/End are line-aware.
    b.home();
    assert_eq!(b.caret(), 0);
    b.end();
    assert_eq!(b.caret(), 2); // end of line 0, before '\n'
    // Down returns to line 1 at the same column.
    b.down();
    assert_eq!(b.caret(), 5); // "ab\ncd|e"
}

#[test]
fn edit_buffer_shift_down_selects_across_lines() {
    let mut clip = Clipboard::new();
    let mut b = EditBuffer::from_text("ab\ncd");
    b.home(); // caret to start of line 1 ("cd")
    b.up(); // line 0
    b.home(); // caret 0
    b.apply(&KeyInput::SelectDown, &mut clip); // extend down one line
    let (s, e) = b.selection().expect("selection");
    assert_eq!(s, 0);
    assert!(e >= 3, "selection should reach into line 1, got {e}");
}

// ---- further cases ----------------------------------------------------------

#[test]
fn right_then_left_returns_over_multibyte_chars() {
    let mut b = EditBuffer::from_text("aé🦀z");
    b.home();
    let mut stops = Vec::new();
    for _ in 0..5 {
        b.move_right();
        stops.push(b.caret());
    }
    assert_eq!(stops, vec![1, 3, 7, 8, 8]);
    b.place_caret(3);
    b.move_right();
    b.move_left();
    assert_eq!(b.caret(), 3);
    b.move_left();
    b.move_right();
    assert_eq!(b.caret(), 3);
}

#[test]
fn backspace_undoes_a_typed_char() {
    let mut b = EditBuffer::from_text("héllo");
    b.place_caret(3);
    b.insert("🦀");
    assert_eq!((b.text(), b.caret()), ("hé🦀llo", 7));
    b.backspace();
    assert_eq!((b.text(), b.caret()), ("héllo", 3));
}

#[test]
fn delete_removes_selection_and_extend_keeps_anchor() {
    let mut b = EditBuffer::from_text("abcdef");
    b.place_caret(1);
    b.select_end();
    assert_eq!(b.selection(), Some((1, 6)));
    b.select_left();
    assert_eq!(b.selection(), Some((1, 5)));
    assert_eq!(b.selected_text(), Some("bcde".to_string()));
    b.delete();
    assert_eq!((b.text(), b.caret(), b.selection()), ("af", 1, None));
    assert_eq!(b.selected_text(), None);
}

#[test]
fn select_home_and_up_extend_from_the_caret() {
    let mut b = EditBuffer::from_text("one\ntwo");
    b.select_home();
    assert_eq!(b.selection(), Some((4, 7)));
    let mut clip = Clipboard::new();
    b.apply(&KeyInput::SelectUp, &mut clip);
    assert_eq!(b.selection(), Some((0, 7)));
    b.apply(&KeyInput::Escape, &mut clip);
    assert_eq!(b.selection(), Some((0, 7)));
    b.apply(&KeyInput::Right, &mut clip);
    assert_eq!((b.caret(), b.selection()), (7, None));
}

#[test]
fn paste_of_empty_clipboard_and_copy_without_selection_change_nothing() {
    let mut clip = Clipboard::new();
    let mut b = EditBuffer::from_text("x");
    b.apply(&KeyInput::Paste, &mut clip);
    assert_eq!(b.text(), "x");
    set_clipboard_text(&mut clip, "kept");
    b.apply(&KeyInput::Copy, &mut clip);
    b.apply(&KeyInput::Cut, &mut clip);
    assert_eq!(clipboard_text(&clip), "kept");
    assert_eq!(b.text(), "x");
    b.apply(&KeyInput::Paste, &mut clip);
    assert_eq!((b.text(), b.caret()), ("xkept", 5));
    b.apply(&KeyInput::Backspace, &mut clip);
    b.apply(&KeyInput::Home, &mut clip);
    b.apply(&KeyInput::Delete, &mut clip);
    assert_eq!(b.text(), "kep");
}

#[test]
fn down_on_last_line_goes_to_end_and_up_on_first_to_start() {
    let mut b = EditBuffer::from_text("abc\nde");
    b.place_caret(2);
    b.up();
    assert_eq!(b.caret(), 0);
    b.place_caret(2);
    b.down();
    assert_eq!(b.caret(), 6);
    b.down();
    assert_eq!(b.caret(), 6);
}

#[test]
fn edit_string_appends_and_pops_chars() {
    let mut s = String::from("aé");
    edit_string(&mut s, &KeyInput::Text("🦀".into()));
    assert_eq!(s, "aé🦀");
    edit_string(&mut s, &KeyInput::Backspace);
    assert_eq!(s, "aé");
    edit_string(&mut s, &KeyInput::Backspace);
    assert_eq!(s, "a");
    edit_string(&mut s, &KeyInput::Left);
    assert_eq!(s, "a");
    edit_string(&mut s, &KeyInput::Backspace);
    edit_string(&mut s, &KeyInput::Backspace);
    assert_eq!(s, "");
}

#[test]
fn down_then_up_keeps_the_column() {
    let mut b = EditBuffer::from_text("héllo\nwörld!\nx");
    for c in [0usize, 1, 3, 4, 6] {
        b.place_caret(c);
        b.down();
        let below = b.caret();
        assert_eq!(below, 7 + c);
        b.up();
        assert_eq!(b.caret(), c, "from column {c}");
    }
}
