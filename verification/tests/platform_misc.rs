use stipple::dialog::{file_chooser_request, open_file_request, pick_folder_request, save_file_request, title_or, FileDialog, Op};
use stipple::edit::KeyInput;
use stipple::errors::{FontError, PlatformError};
use stipple::gpu::{d3d11_device, dmabuf_self_test_on_device, metal_render_clear, present_offscreen, vulkan_devices};
use stipple::geometry::PhysicalSize;
use stipple::input::{
    is_control_char, mac_key_down, map_key, map_keycode, map_vk, mouse_xy, next_focus, win32_message, ButtonState,
    DeviceEvent, FocusId, KeyCode, Modifiers, PointerButton, Role, Win32Action, VK_LEFT, VK_RETURN,
};
use stipple::pixmap::Pixmap;

#[test]
fn chords_map_to_editing_commands() {
    let none = Modifiers::default();
    let shift = Modifiers { shift: true, ..none };
    let ctrl = Modifiers { ctrl: true, ..none };
    let cmd = Modifiers { meta: true, ..none };
    assert_eq!(map_key(KeyCode::ArrowLeft, none), Some(KeyInput::Left));
    assert_eq!(map_key(KeyCode::ArrowLeft, shift), Some(KeyInput::SelectLeft));
    assert_eq!(map_key(KeyCode::End, shift), Some(KeyInput::SelectEnd));
    assert_eq!(map_key(KeyCode::Char('a'), ctrl), Some(KeyInput::SelectAll));
    assert_eq!(map_key(KeyCode::Char('C'), cmd), Some(KeyInput::Copy));
    assert_eq!(map_key(KeyCode::Char('x'), ctrl), Some(KeyInput::Cut));
    assert_eq!(map_key(KeyCode::Char('v'), ctrl), Some(KeyInput::Paste));
    assert_eq!(map_key(KeyCode::Char('v'), none), None);
    assert_eq!(map_key(KeyCode::Tab, none), None);
    assert_eq!(map_key(KeyCode::Enter, ctrl), Some(KeyInput::Enter));
    assert_eq!(map_key(KeyCode::Delete, none), Some(KeyInput::Delete));
}

#[test]
fn native_key_codes_map() {
    assert_eq!(map_keycode(36), Some(KeyCode::Enter));
    assert_eq!(map_keycode(126), Some(KeyCode::ArrowUp));
    assert_eq!(map_keycode(0), None);
    assert_eq!(map_vk(VK_RETURN), Some(KeyCode::Enter));
    assert_eq!(map_vk(VK_LEFT), Some(KeyCode::ArrowLeft));
    assert_eq!(map_vk(0x41), None);
}

#[test]
fn mouse_lparam_is_signed_words() {
    assert_eq!(mouse_xy(0x0014_000a), (10, 20));
    assert_eq!(mouse_xy(0xfffe_ffff), (-1, -2));
    assert_eq!(mouse_xy(-1), (-1, -1));
}

#[test]
fn tab_cycles_through_focusables() {
    let order = [FocusId(4), FocusId(9), FocusId(2)];
    assert_eq!(next_focus(&order, None), Some(FocusId(4)));
    assert_eq!(next_focus(&order, Some(FocusId(4))), Some(FocusId(9)));
    assert_eq!(next_focus(&order, Some(FocusId(2))), Some(FocusId(4)));
    assert_eq!(next_focus(&order, Some(FocusId(7))), Some(FocusId(4)));
    assert_eq!(next_focus(&[], Some(FocusId(7))), None);
}

#[test]
fn dialogs_request_the_right_portal_call() {
    let d = FileDialog::new();
    let r = open_file_request(&d);
    assert_eq!((r.member.as_str(), r.title.as_str(), r.directory), ("OpenFile", "Open File", false));
    let r = save_file_request(&d);
    assert_eq!((r.member.as_str(), r.title.as_str(), r.directory), ("SaveFile", "Save File", false));
    let r = pick_folder_request(&d);
    assert_eq!((r.member.as_str(), r.title.as_str(), r.directory), ("OpenFile", "Select Folder", true));
    let d = FileDialog::new().with_title("Pick a photo");
    let r = file_chooser_request(Op::Open, &d);
    assert_eq!(r.title, "Pick a photo");
    assert_eq!(title_or(&d, "x"), "Pick a photo");
    assert_eq!(title_or(&FileDialog::new(), "x"), "x");
}

#[test]
fn errors_describe_themselves() {
    assert_eq!(
        PlatformError::NoBackend("wayland").message(),
        "no windowing backend available: wayland"
    );
    assert_eq!(PlatformError::Os("denied".into()).message(), "platform error: denied");
    assert_eq!(FontError("missing".into()).message(), "font load error: missing");
}

#[test]
fn gpu_entry_points_report_the_missing_backend() {
    assert_eq!(
        vulkan_devices().unwrap_err(),
        "forma-gpu: built without the `vk` feature (Linux-only Vulkan FFI)"
    );
    assert!(d3d11_device().unwrap_err().contains("`d3d`"));
    assert!(metal_render_clear(4, 4).unwrap_err().contains("`mtl`"));
    assert!(dmabuf_self_test_on_device(3).unwrap_err().contains("`gl`"));
    assert!(present_offscreen(&Pixmap::new(PhysicalSize::new(1, 1))).is_err());
}

#[test]
fn win32_messages_become_actions() {
    assert_eq!(win32_message(0x000F, 0, 0), Win32Action::Paint);
    assert_eq!(
        win32_message(0x0005, 0, 0x0258_0320),
        Win32Action::Deliver(DeviceEvent::Resized(PhysicalSize::new(800, 600)))
    );
    assert_eq!(win32_message(0x0005, 0, 0x0258_0000), Win32Action::Handled);
    assert_eq!(
        win32_message(0x0200, 0, 0xfffe_0005),
        Win32Action::Deliver(DeviceEvent::PointerMoved { x: 5, y: -2 })
    );
    assert_eq!(
        win32_message(0x0205, 0, 0x0001_0002),
        Win32Action::Deliver(DeviceEvent::PointerButton {
            button: PointerButton::Right,
            state: ButtonState::Released,
            x: 2,
            y: 1
        })
    );
    assert_eq!(
        win32_message(0x0207, 0, 0),
        Win32Action::Deliver(DeviceEvent::PointerButton {
            button: PointerButton::Middle,
            state: ButtonState::Pressed,
            x: 0,
            y: 0
        })
    );
    assert_eq!(
        win32_message(0x0100, VK_LEFT, 0),
        Win32Action::Deliver(DeviceEvent::Key {
            code: KeyCode::ArrowLeft,
            state: ButtonState::Pressed,
            modifiers: Modifiers::default()
        })
    );
    assert_eq!(win32_message(0x0100, 0x41, 0), Win32Action::Handled);
    assert_eq!(win32_message(0x0102, 0xe9, 0), Win32Action::Deliver(DeviceEvent::Text("é".into())));
    assert_eq!(win32_message(0x0102, 0x08, 0), Win32Action::Handled);
    assert_eq!(win32_message(0x0102, 0xd800, 0), Win32Action::Handled);
    assert_eq!(win32_message(0x0010, 0, 0), Win32Action::Deliver(DeviceEvent::CloseRequested));
    assert_eq!(win32_message(0x0002, 0, 0), Win32Action::Destroy);
    assert_eq!(win32_message(0x0084, 0, 0), Win32Action::Default);
}

#[test]
fn mac_key_down_maps_keys_then_text() {
    assert_eq!(
        mac_key_down(51, "\u{7f}"),
        Some(DeviceEvent::Key { code: KeyCode::Backspace, state: ButtonState::Pressed, modifiers: Modifiers::default() })
    );
    assert_eq!(mac_key_down(0, "a"), Some(DeviceEvent::Text("a".into())));
    assert_eq!(mac_key_down(1, "\u{1b}\u{85}"), None);
    assert_eq!(mac_key_down(1, ""), None);
    assert_eq!(mac_key_down(1, "\u{1}é"), Some(DeviceEvent::Text("\u{1}é".into())));
    assert!(is_control_char('\u{9f}'));
    assert!(!is_control_char('\u{a0}'));
}

#[test]
fn wide_strings_are_nul_terminated_utf16() {
    use_wide();
}

fn use_wide() {
    assert_eq!(stipple::input::wide(""), vec![0]);
    assert_eq!(stipple::input::wide("Hé"), vec![0x48, 0xe9, 0]);
    let expected: Vec<u16> = "a🦀€".encode_utf16().chain(std::iter::once(0)).collect();
    assert_eq!(stipple::input::wide("a🦀€"), expected);
    assert_eq!(stipple::input::wide("🦀"), vec![0xd83e, 0xdd80, 0]);
}

#[test]
fn accessibility_roles_follow_handles() {
    use_roles();
}

fn use_roles() {
    assert_eq!(stipple::input::role_of(true, true, true, true), Role::Window);
    assert_eq!(stipple::input::role_of(false, true, true, false), Role::Button);
    assert_eq!(stipple::input::role_of(false, false, true, true), Role::TextField);
    assert_eq!(stipple::input::role_of(false, false, false, true), Role::Text);
    assert_eq!(stipple::input::role_of(false, false, false, false), Role::Group);
    assert!(stipple::input::absorbs_text(Role::TextField));
    assert!(!stipple::input::absorbs_text(Role::Window));
    assert!(stipple::input::is_prunable(Role::Group, "", 0));
    assert!(!stipple::input::is_prunable(Role::Group, "x", 0));
    assert!(!stipple::input::is_prunable(Role::Group, "", 1));
    assert!(!stipple::input::is_prunable(Role::Text, "", 0));
}
