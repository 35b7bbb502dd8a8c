use stipple::color::Color;
use stipple::style::{with_alpha, Easing, Palette};

#[test]
fn hex_parsing() {
    assert_eq!(Color::from_hex("#ff0000"), Some(Color::rgb(255, 0, 0)));
    assert_eq!(Color::from_hex("0f0"), Some(Color::rgb(0, 255, 0)));
    assert_eq!(
        Color::from_hex("#11223344"),
        Some(Color::rgba(0x11, 0x22, 0x33, 0x44))
    );
    assert_eq!(Color::from_hex("#abc"), Some(Color::rgb(0xaa, 0xbb, 0xcc)));
    assert_eq!(Color::from_hex("zzz"), None);
    assert_eq!(Color::from_hex("#12345"), None);
}

// ---- further cases ----------------------------------------------------------

#[test]
fn hex_four_digit_form_and_case() {
    assert_eq!(Color::from_hex("#F0A8"), Some(Color::rgba(0xff, 0x00, 0xaa, 0x88)));
    assert_eq!(Color::from_hex("AbCdEf"), Some(Color::rgb(0xab, 0xcd, 0xef)));
    assert_eq!(Color::from_hex(""), None);
    assert_eq!(Color::from_hex("#"), None);
    assert_eq!(Color::from_hex("##abc"), None);
    assert_eq!(Color::from_hex("#abg"), None);
    // Every digit must be an ASCII hex digit: no signs, no other text.
    assert_eq!(Color::from_hex("+f0000"), None);
    assert_eq!(Color::from_hex("+f+f+f"), None);
    assert_eq!(Color::from_hex("+00"), None);
    assert_eq!(Color::from_hex("a\u{e9}bcd"), None);
    assert_eq!(Color::from_hex("#\u{e9}\u{e9}"), None);
    assert_eq!(Color::from_hex("ab\u{1f980}"), None);
}

#[test]
fn named_colors_and_alpha() {
    assert_eq!(Color::black(), Color::rgb(0, 0, 0));
    assert_eq!(Color::white(), Color::rgba(255, 255, 255, 255));
    assert_eq!(Color::transparent(), Color::rgba(0, 0, 0, 0));
    assert_eq!(Color::rgb(1, 2, 3).with_alpha(9), Color::rgba(1, 2, 3, 9));
    assert_eq!(with_alpha(Color::rgba(4, 5, 6, 7), 80), Color::rgba(4, 5, 6, 80));
    assert_eq!(Color::default(), Color::transparent());
}

#[test]
fn palette_and_easing_compare_by_value() {
    let c = Color::rgb(10, 20, 30);
    let p = Palette {
        background: c,
        surface: c,
        primary: c,
        primary_hover: c,
        primary_active: c,
        on_primary: c,
        text: c,
        text_muted: c,
        border: c,
        success: c,
        warning: c,
        danger: c,
        focus_ring: c,
        hover_overlay: c,
        selection: c,
    };
    let mut q = p;
    assert_eq!(p, q);
    q.selection = with_alpha(c, 60);
    assert_ne!(p, q);
    assert_eq!(Easing::default(), Easing::Linear);
    assert_ne!(Easing::EaseIn, Easing::EaseOut);
}

#[test]
fn short_forms_double_each_digit() {
    for (short, long) in [("#abc", "#aabbcc"), ("1234", "11223344"), ("f0e", "ff00ee"), ("a+c", "aa++cc")] {
        assert_eq!(Color::from_hex(short), Color::from_hex(long), "{short} vs {long}");
    }
}
