use stipple::geometry::PhysicalSize;
use stipple::input::{ButtonState, DeviceEvent, KeyCode, Modifiers, PointerButton};
use stipple::wire::rd_u32;
use stipple::x11::{
    damage_regions, put_image_band, swizzle_region, translate_x_event,
    change_property_atoms_request, decode_event, finish, intern_atom_reply, intern_atom_request,
    keyboard_mapping_request, keysym_to_event, map_window_request, pad4, parse_display, parse_setup,
    parse_xauth_cookie, query_extension_reply, rgba_to_bgrx, rows_per_band, setup_reply_length,
    setup_request, shm_put_image, swizzle_row, DisplayAddr, Keymap, XInput, XidAllocator,
    SHM_PUT_IMAGE,
};

#[test]
fn parses_display_forms() {
    assert_eq!(
        parse_display(":0"),
        Some(DisplayAddr {
            number: 0,
            screen: 0
        })
    );
    assert_eq!(
        parse_display(":1.2"),
        Some(DisplayAddr {
            number: 1,
            screen: 2
        })
    );
    assert_eq!(
        parse_display("host:3"),
        Some(DisplayAddr {
            number: 3,
            screen: 0
        })
    );
    assert_eq!(parse_display("garbage"), None);
}

#[test]
fn rgba_to_bgrx_swizzles() {
    let mut out = Vec::new();
    rgba_to_bgrx(&[10, 20, 30, 255, 1, 2, 3, 128], &mut out);
    assert_eq!(out, vec![30, 20, 10, 0, 3, 2, 1, 0]);
}

#[test]
fn parse_setup_reads_screen_fields() {
    let mut d = vec![0u8; 32];
    d[4..8].copy_from_slice(&0x0040_0000u32.to_le_bytes()); // resource-id-base
    d[8..12].copy_from_slice(&0x001f_ffffu32.to_le_bytes()); // resource-id-mask
    d[16..18].copy_from_slice(&0u16.to_le_bytes()); // vendor-length
    d[18..20].copy_from_slice(&65535u16.to_le_bytes()); // max-request-length
    d[21] = 1; // number-of-formats
    d.extend_from_slice(&[0u8; 8]); // one pixmap format
    let mut screen = vec![0u8; 40];
    screen[0..4].copy_from_slice(&0x0000_0123u32.to_le_bytes()); // root
    screen[32..36].copy_from_slice(&0x0000_0021u32.to_le_bytes()); // root-visual
    screen[38] = 24; // root-depth
    d.extend_from_slice(&screen);

    let s = parse_setup(&d).expect("parse");
    assert_eq!(s.resource_id_base, 0x0040_0000);
    assert_eq!(s.resource_id_mask, 0x001f_ffff);
    assert_eq!(s.root, 0x0000_0123);
    assert_eq!(s.root_visual, 0x0000_0021);
    assert_eq!(s.root_depth, 24);
    assert_eq!(s.max_request_len, 65535);
}

#[test]
fn parse_xauth_finds_cookie() {
    let mut e = Vec::new();
    e.extend_from_slice(&0u16.to_be_bytes());
    e.extend_from_slice(&1u16.to_be_bytes());
    e.push(b'a');
    e.extend_from_slice(&1u16.to_be_bytes());
    e.push(b'0');
    e.extend_from_slice(&18u16.to_be_bytes());
    e.extend_from_slice(b"MIT-MAGIC-COOKIE-1");
    e.extend_from_slice(&4u16.to_be_bytes());
    e.extend_from_slice(&[0xDE, 0xAD, 0xBE, 0xEF]);
    assert_eq!(parse_xauth_cookie(&e), Some(vec![0xDE, 0xAD, 0xBE, 0xEF]));
    assert_eq!(parse_xauth_cookie(&[]), None);
}

#[test]
fn finish_sets_length_in_words() {
    let req = finish(vec![1, 0, 0, 0, 0, 0, 0, 0]); // 8 bytes = 2 words
    assert_eq!(u16::from_le_bytes([req[2], req[3]]), 2);
}

#[test]
fn swizzle_row_reorders_to_bgrx() {
    let mut dst = [0u8; 8];
    swizzle_row(&[10, 20, 30, 255, 1, 2, 3, 128], &mut dst);
    assert_eq!(dst, [30, 20, 10, 0, 3, 2, 1, 0]);
}

#[test]
fn shm_put_image_encodes_fields() {
    let req = finish(shm_put_image(130, 0xaa, 0xbb, 0xcc, 200, 100, 8, 16, 4, 2));
    assert_eq!(req[0], 130); // major opcode
    assert_eq!(req[1], SHM_PUT_IMAGE); // minor opcode
    assert_eq!(u16::from_le_bytes([req[2], req[3]]), 10); // length in words
    assert_eq!(rd_u32(&req, 4), Some(0xaa)); // drawable
    assert_eq!(rd_u32(&req, 8), Some(0xbb)); // gc
    assert_eq!(u16::from_le_bytes([req[12], req[13]]), 200); // total-width
    assert_eq!(u16::from_le_bytes([req[14], req[15]]), 100); // total-height
    assert_eq!(u16::from_le_bytes([req[16], req[17]]), 8); // src-x
    assert_eq!(u16::from_le_bytes([req[18], req[19]]), 16); // src-y
    assert_eq!(u16::from_le_bytes([req[20], req[21]]), 4); // src-width
    assert_eq!(u16::from_le_bytes([req[22], req[23]]), 2); // src-height
    assert_eq!(i16::from_le_bytes([req[24], req[25]]), 8); // dst-x
    assert_eq!(i16::from_le_bytes([req[26], req[27]]), 16); // dst-y
    assert_eq!(req[28], 24); // depth
    assert_eq!(req[29], 2); // ZPixmap
    assert_eq!(req[30], 0); // send-event
    assert_eq!(rd_u32(&req, 32), Some(0xcc)); // shmseg
    assert_eq!(rd_u32(&req, 36), Some(0)); // offset
}

// ---- further cases ----------------------------------------------------------

#[test]
fn display_without_digits_or_with_bad_screen_is_rejected() {
    assert_eq!(parse_display(""), None);
    assert_eq!(parse_display(":"), None);
    assert_eq!(parse_display(":x"), None);
    assert_eq!(parse_display(":0.y"), Some(DisplayAddr { number: 0, screen: 0 }));
    assert_eq!(parse_display("a:b:7"), Some(DisplayAddr { number: 7, screen: 0 }));
}

#[test]
fn finish_keeps_other_bytes_and_counts_words() {
    let req = finish(vec![9, 8, 7, 6, 5, 4, 3, 2, 1, 0, 0, 0]);
    assert_eq!(req, vec![9, 8, 3, 0, 5, 4, 3, 2, 1, 0, 0, 0]);
}

#[test]
fn pad4_pads_to_whole_words() {
    let mut v = vec![1u8, 2, 3, 4, 5];
    pad4(&mut v);
    assert_eq!(v, vec![1, 2, 3, 4, 5, 0, 0, 0]);
    pad4(&mut v);
    assert_eq!(v.len(), 8);
}

#[test]
fn swizzle_row_stops_at_the_shorter_row() {
    let mut dst = [7u8; 6];
    swizzle_row(&[10, 20, 30, 255, 1, 2, 3, 128], &mut dst);
    assert_eq!(dst, [30, 20, 10, 0, 7, 7]);
}

#[test]
fn setup_without_screen_is_rejected() {
    assert!(parse_setup(&[0u8; 31]).is_none());
    let mut d = vec![0u8; 32];
    d[21] = 1;
    assert!(parse_setup(&d).is_none());
}

#[test]
fn xauth_skips_entries_with_other_protocols() {
    let mut e = Vec::new();
    for (name, data) in [(&b"XDM-AUTHORIZATION-1"[..], &[1u8, 2][..]), (&b"MIT-MAGIC-COOKIE-1"[..], &[7u8][..])] {
        e.extend_from_slice(&0u16.to_be_bytes());
        e.extend_from_slice(&0u16.to_be_bytes());
        e.extend_from_slice(&0u16.to_be_bytes());
        e.extend_from_slice(&(name.len() as u16).to_be_bytes());
        e.extend_from_slice(name);
        e.extend_from_slice(&(data.len() as u16).to_be_bytes());
        e.extend_from_slice(data);
    }
    assert_eq!(parse_xauth_cookie(&e), Some(vec![7]));
    assert_eq!(parse_xauth_cookie(&e[..10]), None);
}

#[test]
fn keysyms_become_keys_or_text() {
    let m = Modifiers { shift: true, ..Modifiers::default() };
    assert_eq!(
        keysym_to_event(0xff51, ButtonState::Released, m),
        Some(DeviceEvent::Key { code: KeyCode::ArrowLeft, state: ButtonState::Released, modifiers: m })
    );
    assert_eq!(
        keysym_to_event(0xffff, ButtonState::Pressed, m),
        Some(DeviceEvent::Key { code: KeyCode::Delete, state: ButtonState::Pressed, modifiers: m })
    );
    assert_eq!(keysym_to_event(0x41, ButtonState::Pressed, m), Some(DeviceEvent::Text("A".into())));
    assert_eq!(keysym_to_event(0xe9, ButtonState::Pressed, m), Some(DeviceEvent::Text("é".into())));
    assert_eq!(
        keysym_to_event(0x0100_20ac, ButtonState::Pressed, m),
        Some(DeviceEvent::Text("€".into()))
    );
    assert_eq!(keysym_to_event(0x41, ButtonState::Released, m), None);
    assert_eq!(keysym_to_event(0x0100_d800, ButtonState::Pressed, m), None);
    assert_eq!(keysym_to_event(0xffe1, ButtonState::Pressed, m), None);
}

#[test]
fn keymap_picks_shifted_column() {
    let mut body = Vec::new();
    for ks in [0x61u32, 0x41, 0x62, 0x42] {
        body.extend_from_slice(&ks.to_le_bytes());
    }
    let k = Keymap::from_reply(2, 8, &body);
    assert_eq!(k.symbol_count(), 4);
    assert_eq!(k.per(), 2);
    assert_eq!(k.keysym(8, false), 0x61);
    assert_eq!(k.keysym(8, true), 0x41);
    assert_eq!(k.keysym(9, true), 0x42);
    assert_eq!(k.keysym(7, false), 0);
    assert_eq!(k.keysym(10, false), 0);
}

#[test]
fn keyboard_mapping_request_covers_the_range() {
    assert_eq!(keyboard_mapping_request(8, 255), vec![101, 0, 2, 0, 8, 248, 0, 0]);
}

#[test]
fn events_decode_by_kind() {
    let mut p = [0u8; 32];
    p[0] = 0;
    p[1] = 3;
    assert_eq!(decode_event(&p), XInput::Error { code: 3 });
    p[0] = 12;
    assert_eq!(decode_event(&p), XInput::Expose);
    p = [0u8; 32];
    p[0] = 22 | 0x80;
    p[20..22].copy_from_slice(&640u16.to_le_bytes());
    p[22..24].copy_from_slice(&480u16.to_le_bytes());
    assert_eq!(decode_event(&p), XInput::Configure { width: 640, height: 480 });
    p = [0u8; 32];
    p[0] = 4;
    p[1] = 3;
    p[24..26].copy_from_slice(&(-5i16).to_le_bytes());
    p[26..28].copy_from_slice(&7i16.to_le_bytes());
    assert_eq!(
        decode_event(&p),
        XInput::Button { button: PointerButton::Right, state: ButtonState::Pressed, x: -5, y: 7 }
    );
    p[1] = 5;
    assert_eq!(decode_event(&p), XInput::Wheel { down: true });
    p[0] = 5;
    assert_eq!(decode_event(&p), XInput::Ignored);
    p = [0u8; 32];
    p[0] = 2;
    p[1] = 38;
    p[28] = 0b101;
    assert_eq!(
        decode_event(&p),
        XInput::Key {
            keycode: 38,
            state: ButtonState::Pressed,
            modifiers: Modifiers { shift: true, ctrl: true, alt: false, meta: false }
        }
    );
    p = [0u8; 32];
    p[0] = 33;
    p[12..16].copy_from_slice(&0x1234_5678u32.to_le_bytes());
    assert_eq!(decode_event(&p), XInput::Client { atom: 0x1234_5678 });
    p[0] = 6;
    p[24..26].copy_from_slice(&10i16.to_le_bytes());
    p[26..28].copy_from_slice(&20i16.to_le_bytes());
    assert_eq!(decode_event(&p), XInput::Motion { x: 10, y: 20 });
}

#[test]
fn setup_request_carries_the_cookie() {
    let r = setup_request(&[1, 2, 3, 4, 5]);
    assert_eq!(&r[0..2], &[b'l', 0]);
    assert_eq!(u16::from_le_bytes([r[2], r[3]]), 11);
    assert_eq!(u16::from_le_bytes([r[6], r[7]]), 18);
    assert_eq!(u16::from_le_bytes([r[8], r[9]]), 5);
    assert_eq!(&r[12..30], b"MIT-MAGIC-COOKIE-1");
    assert_eq!(r.len() % 4, 0);
    assert_eq!(&r[32..37], &[1, 2, 3, 4, 5]);
    let bare = setup_request(&[]);
    assert_eq!(bare.len(), 12);
}

#[test]
fn setup_reply_status_is_checked() {
    assert_eq!(setup_reply_length(&[1, 0, 11, 0, 0, 0, 3, 0]), Ok(12));
    assert_eq!(setup_reply_length(&[0, 0, 11, 0, 0, 0, 3, 0]), Err(0));
    assert_eq!(setup_reply_length(&[2, 0, 11, 0, 0, 0, 3, 0]), Err(2));
}

#[test]
fn xids_step_through_the_mask() {
    let mut d = vec![0u8; 32];
    d[4..8].copy_from_slice(&0x0040_0000u32.to_le_bytes());
    d[8..12].copy_from_slice(&0x001f_fff0u32.to_le_bytes());
    d.extend_from_slice(&[0u8; 40]);
    let s = parse_setup(&d).expect("parse");
    let mut a = XidAllocator::from_setup(&s);
    assert_eq!(a.new_id(), 0x0040_0000);
    assert_eq!(a.new_id(), 0x0040_0010);
    assert_eq!(a.new_id(), 0x0040_0020);
}

#[test]
fn atom_and_extension_requests() {
    let r = intern_atom_request(b"WM_PROTOCOLS");
    assert_eq!(r[0], 16);
    assert_eq!(u16::from_le_bytes([r[2], r[3]]) as usize * 4, r.len());
    assert_eq!(u16::from_le_bytes([r[4], r[5]]), 12);
    assert_eq!(&r[8..20], b"WM_PROTOCOLS");
    let mut reply = [0u8; 32];
    reply[8..12].copy_from_slice(&0x155u32.to_le_bytes());
    assert_eq!(intern_atom_reply(&reply), 0x155);
    assert_eq!(intern_atom_reply(&reply[..10]), 0);
    let mut q = [0u8; 32];
    q[0] = 1;
    q[8] = 1;
    q[9] = 130;
    assert_eq!(query_extension_reply(&q), Some(130));
    q[8] = 0;
    assert_eq!(query_extension_reply(&q), None);
    assert_eq!(map_window_request(0x0040_0001), vec![8, 0, 2, 0, 1, 0, 0x40, 0]);
    let p = change_property_atoms_request(5, 6, &[7, 8]);
    assert_eq!(p.len(), 32);
    assert_eq!(rd_u32(&p, 24), Some(7));
    assert_eq!(rd_u32(&p, 28), Some(8));
}

#[test]
fn bands_fit_the_request_limit() {
    assert_eq!(rows_per_band(65535, 100), 655);
    assert_eq!(rows_per_band(0, 100), 655);
    assert_eq!(rows_per_band(65535, 0), 262_120);
    assert_eq!(rows_per_band(1_000_000, 1000), 999);
    assert_eq!(rows_per_band(0, 100_000), 1);
}

#[test]
fn loop_events_follow_the_packet() {
    let mut body = Vec::new();
    for ks in [0x61u32, 0x41, 0xff08, 0] {
        body.extend_from_slice(&ks.to_le_bytes());
    }
    let k = Keymap::from_reply(2, 8, &body);
    let none = Modifiers::default();
    let shift = Modifiers { shift: true, ..none };
    assert_eq!(translate_x_event(XInput::Expose, &k, 300), Some(DeviceEvent::RedrawRequested));
    assert_eq!(
        translate_x_event(XInput::Configure { width: 640, height: 480 }, &k, 300),
        Some(DeviceEvent::Resized(PhysicalSize::new(640, 480)))
    );
    assert_eq!(
        translate_x_event(XInput::Motion { x: -3, y: 9 }, &k, 300),
        Some(DeviceEvent::PointerMoved { x: -3, y: 9 })
    );
    assert_eq!(translate_x_event(XInput::Wheel { down: false }, &k, 300), Some(DeviceEvent::Scroll { down: false }));
    assert_eq!(
        translate_x_event(XInput::Key { keycode: 8, state: ButtonState::Pressed, modifiers: shift }, &k, 300),
        Some(DeviceEvent::Text("A".into()))
    );
    assert_eq!(
        translate_x_event(XInput::Key { keycode: 8, state: ButtonState::Pressed, modifiers: none }, &k, 300),
        Some(DeviceEvent::Text("a".into()))
    );
    // The shifted slot is empty: the unshifted keysym (BackSpace) is used.
    assert_eq!(
        translate_x_event(XInput::Key { keycode: 9, state: ButtonState::Released, modifiers: shift }, &k, 300),
        Some(DeviceEvent::Key { code: KeyCode::Backspace, state: ButtonState::Released, modifiers: shift })
    );
    assert_eq!(
        translate_x_event(XInput::Key { keycode: 8, state: ButtonState::Released, modifiers: none }, &k, 300),
        None
    );
    assert_eq!(translate_x_event(XInput::Client { atom: 300 }, &k, 300), Some(DeviceEvent::CloseRequested));
    assert_eq!(translate_x_event(XInput::Client { atom: 301 }, &k, 300), None);
    assert_eq!(translate_x_event(XInput::Error { code: 8 }, &k, 300), None);
    assert_eq!(translate_x_event(XInput::Ignored, &k, 300), None);
}

#[test]
fn damage_is_clipped_to_the_frame() {
    assert_eq!(damage_regions(&[], 100, 50), vec![(0, 0, 100, 50)]);
    assert_eq!(
        damage_regions(&[(10, 5, 30, 20), (90, 40, 150, 80), (120, 0, 130, 10), (5, 5, 5, 9)], 100, 50),
        vec![(10, 5, 20, 15), (90, 40, 10, 10)]
    );
}

#[test]
fn region_swizzle_touches_only_the_rectangle() {
    // 3x3 frame, stride 12; swizzle the 2x2 block at (1, 1).
    let src: Vec<u8> = (0..36u8).collect();
    let mut dst = vec![0xeeu8; 40];
    swizzle_region(&src, &mut dst, 12, 1, 1, 2, 2);
    for row in 0..3usize {
        for col in 0..3usize {
            let o = row * 12 + col * 4;
            let inside = row >= 1 && col >= 1;
            let want = if inside { [src[o + 2], src[o + 1], src[o], 0] } else { [0xee; 4] };
            assert_eq!(&dst[o..o + 4], &want, "pixel ({col}, {row})");
        }
    }
    assert_eq!(&dst[36..], &[0xee; 4]);
}

#[test]
fn put_image_bands_cover_the_frame() {
    // 2x3 frame, bands of 2 rows.
    let src: Vec<u8> = (0..24u8).collect();
    let (first, next) = put_image_band(&src, 2, 3, 0, 2, 7, 8);
    assert_eq!(next, 2);
    assert_eq!(first[0], 72);
    assert_eq!(u16::from_le_bytes([first[2], first[3]]) as usize * 4, first.len());
    assert_eq!(u16::from_le_bytes([first[14], first[15]]), 2); // rows
    assert_eq!(u16::from_le_bytes([first[18], first[19]]), 0); // dst-y
    assert_eq!(&first[24..28], &[2, 1, 0, 0]);
    assert_eq!(first.len(), 24 + 16);
    let (last, end) = put_image_band(&src, 2, 3, next, 2, 7, 8);
    assert_eq!(end, 3);
    assert_eq!(u16::from_le_bytes([last[14], last[15]]), 1);
    assert_eq!(u16::from_le_bytes([last[18], last[19]]), 2);
    assert_eq!(&last[24..], &[18, 17, 16, 0, 22, 21, 20, 0]);
}
