//! Platform-neutral input vocabulary (keys, buttons, modifiers, handles,
//! device events), the tables that map native key codes and key chords onto
//! it, the decisions the Win32 and AppKit event handlers make, accessibility
//! roles, and Tab focus order.

use vstd::prelude::*;
use vstd::utf8::is_scalar;
use crate::edit::KeyInput;
use crate::geometry::PhysicalSize;

verus! {

/// Opaque, process-unique identifier for a window.
#[derive(Clone, Copy, Debug, PartialEq, Eq, Hash, Structural)]
pub struct WindowId(pub u64);

/// Whether a button or key is being pressed or released.
#[derive(Clone, Copy, Debug, PartialEq, Eq, Structural)]
pub enum ButtonState {
    Pressed,
    Released,
}

/// A pointer (mouse / pen / single touch) button.
#[derive(Clone, Copy, Debug, PartialEq, Eq, Structural)]
pub enum PointerButton {
    Left,
    Right,
    Middle,
    Other(u16),
}

/// Active keyboard modifier keys.
#[derive(Clone, Copy, Debug, Default, PartialEq, Eq, Structural)]
pub struct Modifiers {
    pub shift: bool,
    pub ctrl: bool,
    pub alt: bool,
    /// The "logo"/Command/Super/Windows key.
    pub meta: bool,
}

/// A small, platform-neutral key identity.
#[derive(Clone, Copy, Debug, PartialEq, Eq, Structural)]
pub enum KeyCode {
    Enter,
    Escape,
    Backspace,
    Tab,
    Space,
    ArrowLeft,
    ArrowRight,
    ArrowUp,
    ArrowDown,
    Home,
    End,
    Delete,
    /// A printable character key, identified by its base character.
    Char(char),
    /// Anything not yet mapped, carrying the backend's raw scancode.
    Unidentified(u32),
}

/// A window event as a backend decodes it, in integer device pixels; the
/// event loop turns positions into logical points before the application
/// sees them.
#[derive(Clone, Debug, PartialEq, Eq)]
pub enum DeviceEvent {
    /// The window should repaint.
    RedrawRequested,
    /// The drawable was resized to the given physical-pixel size.
    Resized(PhysicalSize),
    /// The user asked for the window to close.
    CloseRequested,
    /// The pointer moved to `(x, y)`, window-relative.
    PointerMoved { x: i16, y: i16 },
    /// A pointer button changed state at `(x, y)`.
    PointerButton { button: PointerButton, state: ButtonState, x: i16, y: i16 },
    /// One wheel notch, towards the user (`down`) or away.
    Scroll { down: bool },
    /// A key changed state.
    Key { code: KeyCode, state: ButtonState, modifiers: Modifiers },
    /// Committed text.
    Text(String),
}

/// Calls `char::from_u32`. Believed, not proved: it gives the char with
/// value `v` exactly when `v` is a Unicode scalar value (not a surrogate,
/// at most U+10FFFF), else `None`.
#[verifier::external_body]
pub(crate) fn char_from_u32(v: u32) -> (r: Option<char>)
    ensures
        r == (if is_scalar(v) { Some(v as char) } else { None }),
{
    char::from_u32(v)
}

/// Calls `char::to_string`. Believed, not proved: the string holds exactly
/// the one char `c`.
#[verifier::external_body]
pub(crate) fn char_to_string(c: char) -> (s: String)
    ensures
        s@ == seq![c],
{
    c.to_string()
}

/// What a window should do after the application handles an event.
#[derive(Clone, Copy, Debug, PartialEq, Eq, Structural)]
pub enum ControlFlow {
    /// Continue running; wake again as soon as more events arrive.
    Poll,
    /// Continue running; sleep until the next event.
    Wait,
    /// Tear down the window / event loop.
    Exit,
}

/// Handle to a registered event handler, stamped onto the element that owns
/// it.
#[derive(Clone, Copy, Debug, PartialEq, Eq, Hash, Structural)]
pub struct ActionId(pub u32);

/// Handle to a focusable element with a registered key handler.
#[derive(Clone, Copy, Debug, PartialEq, Eq, Hash, Structural)]
pub struct FocusId(pub u32);

/// Handle to an element with a registered drag handler.
#[derive(Clone, Copy, Debug, PartialEq, Eq, Hash, Structural)]
pub struct DragId(pub u32);

/// Handle to an editable text element with a registered text-pointer handler.
#[derive(Clone, Copy, Debug, PartialEq, Eq, Hash, Structural)]
pub struct TextPosId(pub u32);

/// Handle to an element with a registered secondary-click handler.
#[derive(Clone, Copy, Debug, PartialEq, Eq, Hash, Structural)]
pub struct ContextId(pub u32);

/// Handle to a scroll container.
#[derive(Clone, Copy, Debug, PartialEq, Eq, Hash, Structural)]
pub struct ScrollId(pub u32);

/// A caller-chosen handle to an embedded-content viewport.
#[derive(Clone, Copy, Debug, PartialEq, Eq, Hash, PartialOrd, Ord, Structural)]
pub struct ViewportId(pub u32);

/// Alignment of children along an axis.
#[derive(Clone, Copy, Debug, PartialEq, Eq, Default, Structural)]
pub enum Align {
    #[default]
    Start,
    Center,
    End,
    /// Cross-axis only: stretch children to fill the cross extent.
    Stretch,
}

/// Visual emphasis level for a button.
#[derive(Clone, Copy, Debug, PartialEq, Eq, Structural)]
pub enum Variant {
    Primary,
    Secondary,
    /// Text-only, no fill: a low-emphasis action.
    Plain,
    Danger,
}

/// The semantic kind of an accessibility node.
#[derive(Clone, Copy, Debug, PartialEq, Eq, Structural)]
pub enum Role {
    Window,
    Group,
    Button,
    TextField,
    Text,
}

// ---- editing chords --------------------------------------------------------

/// The editing command of a physical key chord, if any. Character input
/// arrives as text, so only editing and navigation keys map here: Shift
/// turns caret motions into selection-extending motions, and Ctrl/Cmd with
/// A, C, X, V selects all, copies, cuts and pastes.
pub open spec fn key_command(code: KeyCode, m: Modifiers) -> Option<KeyInput> {
    let cmd = m.ctrl || m.meta;
    match code {
        KeyCode::Backspace => Some(KeyInput::Backspace),
        KeyCode::Delete => Some(KeyInput::Delete),
        KeyCode::ArrowLeft => Some(if m.shift { KeyInput::SelectLeft } else { KeyInput::Left }),
        KeyCode::ArrowRight => Some(if m.shift { KeyInput::SelectRight } else { KeyInput::Right }),
        KeyCode::ArrowUp => Some(if m.shift { KeyInput::SelectUp } else { KeyInput::Up }),
        KeyCode::ArrowDown => Some(if m.shift { KeyInput::SelectDown } else { KeyInput::Down }),
        KeyCode::Home => Some(if m.shift { KeyInput::SelectHome } else { KeyInput::Home }),
        KeyCode::End => Some(if m.shift { KeyInput::SelectEnd } else { KeyInput::End }),
        KeyCode::Char(c) => if cmd && (c == 'a' || c == 'A') {
            Some(KeyInput::SelectAll)
        } else if cmd && (c == 'c' || c == 'C') {
            Some(KeyInput::Copy)
        } else if cmd && (c == 'x' || c == 'X') {
            Some(KeyInput::Cut)
        } else if cmd && (c == 'v' || c == 'V') {
            Some(KeyInput::Paste)
        } else {
            None
        },
        KeyCode::Enter => Some(KeyInput::Enter),
        KeyCode::Escape => Some(KeyInput::Escape),
        _ => None,
    }
}

/// Map a physical key press (with modifiers) to a [`KeyInput`] editing
/// command.
pub fn map_key(code: KeyCode, modifiers: Modifiers) -> (r: Option<KeyInput>)
    ensures
        r == key_command(code, modifiers),
{
    let shift = modifiers.shift;
    let cmd = modifiers.ctrl || modifiers.meta;
    match code {
        KeyCode::Backspace => Some(KeyInput::Backspace),
        KeyCode::Delete => Some(KeyInput::Delete),
        KeyCode::ArrowLeft => Some(if shift { KeyInput::SelectLeft } else { KeyInput::Left }),
        KeyCode::ArrowRight => Some(if shift { KeyInput::SelectRight } else { KeyInput::Right }),
        KeyCode::ArrowUp => Some(if shift { KeyInput::SelectUp } else { KeyInput::Up }),
        KeyCode::ArrowDown => Some(if shift { KeyInput::SelectDown } else { KeyInput::Down }),
        KeyCode::Home => Some(if shift { KeyInput::SelectHome } else { KeyInput::Home }),
        KeyCode::End => Some(if shift { KeyInput::SelectEnd } else { KeyInput::End }),
        KeyCode::Char(c) => if cmd && (c == 'a' || c == 'A') {
            Some(KeyInput::SelectAll)
        } else if cmd && (c == 'c' || c == 'C') {
            Some(KeyInput::Copy)
        } else if cmd && (c == 'x' || c == 'X') {
            Some(KeyInput::Cut)
        } else if cmd && (c == 'v' || c == 'V') {
            Some(KeyInput::Paste)
        } else {
            None
        },
        KeyCode::Enter => Some(KeyInput::Enter),
        KeyCode::Escape => Some(KeyInput::Escape),
        _ => None,
    }
}

// ---- native key codes ------------------------------------------------------

/// The key of a macOS virtual key code (`NSEvent.keyCode`), for the keys
/// the AppKit backend maps.
pub open spec fn mac_key(kc: u16) -> Option<KeyCode> {
    if kc == 36 {
        Some(KeyCode::Enter)
    } else if kc == 48 {
        Some(KeyCode::Tab)
    } else if kc == 51 {
        Some(KeyCode::Backspace)
    } else if kc == 53 {
        Some(KeyCode::Escape)
    } else if kc == 123 {
        Some(KeyCode::ArrowLeft)
    } else if kc == 124 {
        Some(KeyCode::ArrowRight)
    } else if kc == 125 {
        Some(KeyCode::ArrowDown)
    } else if kc == 126 {
        Some(KeyCode::ArrowUp)
    } else {
        None
    }
}

/// Map a macOS virtual key code to a [`KeyCode`].
pub fn map_keycode(kc: u16) -> (r: Option<KeyCode>)
    ensures
        r == mac_key(kc),
{
    match kc {
        36 => Some(KeyCode::Enter),
        48 => Some(KeyCode::Tab),
        51 => Some(KeyCode::Backspace),
        53 => Some(KeyCode::Escape),
        123 => Some(KeyCode::ArrowLeft),
        124 => Some(KeyCode::ArrowRight),
        125 => Some(KeyCode::ArrowDown),
        126 => Some(KeyCode::ArrowUp),
        _ => None,
    }
}

/// Win32 virtual-key codes.
pub const VK_BACK: usize = 0x08;

pub const VK_TAB: usize = 0x09;

pub const VK_RETURN: usize = 0x0D;

pub const VK_ESCAPE: usize = 0x1B;

pub const VK_LEFT: usize = 0x25;

pub const VK_UP: usize = 0x26;

pub const VK_RIGHT: usize = 0x27;

pub const VK_DOWN: usize = 0x28;

/// The key of a Win32 virtual-key code, for the keys the Win32 backend maps.
pub open spec fn win_key(vk: usize) -> Option<KeyCode> {
    if vk == VK_BACK {
        Some(KeyCode::Backspace)
    } else if vk == VK_TAB {
        Some(KeyCode::Tab)
    } else if vk == VK_RETURN {
        Some(KeyCode::Enter)
    } else if vk == VK_ESCAPE {
        Some(KeyCode::Escape)
    } else if vk == VK_LEFT {
        Some(KeyCode::ArrowLeft)
    } else if vk == VK_RIGHT {
        Some(KeyCode::ArrowRight)
    } else if vk == VK_UP {
        Some(KeyCode::ArrowUp)
    } else if vk == VK_DOWN {
        Some(KeyCode::ArrowDown)
    } else {
        None
    }
}

/// Map a Win32 virtual-key code to a [`KeyCode`].
pub fn map_vk(vk: usize) -> (r: Option<KeyCode>)
    ensures
        r == win_key(vk),
{
    if vk == VK_BACK {
        Some(KeyCode::Backspace)
    } else if vk == VK_TAB {
        Some(KeyCode::Tab)
    } else if vk == VK_RETURN {
        Some(KeyCode::Enter)
    } else if vk == VK_ESCAPE {
        Some(KeyCode::Escape)
    } else if vk == VK_LEFT {
        Some(KeyCode::ArrowLeft)
    } else if vk == VK_RIGHT {
        Some(KeyCode::ArrowRight)
    } else if vk == VK_UP {
        Some(KeyCode::ArrowUp)
    } else if vk == VK_DOWN {
        Some(KeyCode::ArrowDown)
    } else {
        None
    }
}

// ---- the Win32 window procedure ---------------------------------------------

/// The signed 16-bit value of a 16-bit word `u` (two's complement).
pub open spec fn signed16(u: int) -> int {
    if u >= 32768 {
        u - 65536
    } else {
        u
    }
}

/// The low 16-bit word of the bits of `lp`.
pub open spec fn low_word(lp: isize) -> int {
    (lp as u64) as int % 65536
}

/// The second 16-bit word of the bits of `lp`.
pub open spec fn high_word(lp: isize) -> int {
    ((lp as u64) as int / 65536) % 65536
}

/// The pointer position packed in a Win32 mouse message's `LPARAM`: signed
/// 16-bit x in the low word, signed 16-bit y in the next.
pub fn mouse_xy(lp: isize) -> (r: (i16, i16))
    ensures
        r.0 == signed16(low_word(lp)),
        r.1 == signed16(high_word(lp)),
{
    let u = lp as u64;
    let x = u % 65536;
    let y = (u / 65536) % 65536;
    let xs: i32 = if x >= 32768 { x as i32 - 65536 } else { x as i32 };
    let ys: i32 = if y >= 32768 { y as i32 - 65536 } else { y as i32 };
    (xs as i16, ys as i16)
}

pub const WM_DESTROY: u32 = 0x0002;

pub const WM_SIZE: u32 = 0x0005;

pub const WM_PAINT: u32 = 0x000F;

pub const WM_CLOSE: u32 = 0x0010;

pub const WM_KEYDOWN: u32 = 0x0100;

pub const WM_CHAR: u32 = 0x0102;

pub const WM_MOUSEMOVE: u32 = 0x0200;

pub const WM_LBUTTONDOWN: u32 = 0x0201;

pub const WM_LBUTTONUP: u32 = 0x0202;

pub const WM_RBUTTONDOWN: u32 = 0x0204;

pub const WM_RBUTTONUP: u32 = 0x0205;

pub const WM_MBUTTONDOWN: u32 = 0x0207;

pub const WM_MBUTTONUP: u32 = 0x0208;

/// What the Win32 window procedure does with a message.
#[derive(Clone, Debug, PartialEq, Eq)]
pub enum Win32Action {
    /// Repaint the client area from the framebuffer.
    Paint,
    /// Queue this event for the application.
    Deliver(DeviceEvent),
    /// Post the quit message.
    Destroy,
    /// The message is handled and needs nothing more.
    Handled,
    /// Pass the message to `DefWindowProcW`.
    Default,
}

/// The pointer button and state of a Win32 mouse-button message.
pub open spec fn win32_button(msg: u32) -> Option<(PointerButton, ButtonState)> {
    if msg == WM_LBUTTONDOWN {
        Some((PointerButton::Left, ButtonState::Pressed))
    } else if msg == WM_LBUTTONUP {
        Some((PointerButton::Left, ButtonState::Released))
    } else if msg == WM_RBUTTONDOWN {
        Some((PointerButton::Right, ButtonState::Pressed))
    } else if msg == WM_RBUTTONUP {
        Some((PointerButton::Right, ButtonState::Released))
    } else if msg == WM_MBUTTONDOWN {
        Some((PointerButton::Middle, ButtonState::Pressed))
    } else if msg == WM_MBUTTONUP {
        Some((PointerButton::Middle, ButtonState::Released))
    } else {
        None
    }
}

/// What the window procedure answers to message `msg` with parameters `wp`
/// and `lp`: a resize of a non-empty client area, pointer motion and button
/// changes at the packed position, the mapped virtual key pressed, printable
/// characters (UTF-16 units from U+0020 that are scalar values) as text, and
/// a close request; painting and destruction are done in place, and anything
/// else goes to the default procedure.
pub open spec fn win32_result(msg: u32, wp: usize, lp: isize, r: Win32Action) -> bool {
    let x = signed16(low_word(lp)) as i16;
    let y = signed16(high_word(lp)) as i16;
    if msg == WM_PAINT {
        r == Win32Action::Paint
    } else if msg == WM_SIZE {
        r == if low_word(lp) > 0 && high_word(lp) > 0 {
            Win32Action::Deliver(
                DeviceEvent::Resized(PhysicalSize { width: low_word(lp) as u32, height: high_word(lp) as u32 }),
            )
        } else {
            Win32Action::Handled
        }
    } else if msg == WM_MOUSEMOVE {
        r == Win32Action::Deliver(DeviceEvent::PointerMoved { x, y })
    } else if win32_button(msg) is Some {
        let bs = win32_button(msg)->0;
        r == Win32Action::Deliver(
            DeviceEvent::PointerButton {
                button: bs.0,
                state: bs.1,
                x,
                y,
            },
        )
    } else if msg == WM_KEYDOWN {
        r == match win_key(wp) {
            Some(code) => Win32Action::Deliver(
                DeviceEvent::Key {
                    code,
                    state: ButtonState::Pressed,
                    modifiers: Modifiers { shift: false, ctrl: false, alt: false, meta: false },
                },
            ),
            None => Win32Action::Handled,
        }
    } else if msg == WM_CHAR {
        if wp >= 0x20 && is_scalar(wp as u32) {
            r matches Win32Action::Deliver(DeviceEvent::Text(t)) && t@ == seq![(wp as u32) as char]
        } else {
            r == Win32Action::Handled
        }
    } else if msg == WM_CLOSE {
        r == Win32Action::Deliver(DeviceEvent::CloseRequested)
    } else if msg == WM_DESTROY {
        r == Win32Action::Destroy
    } else {
        r == Win32Action::Default
    }
}

/// The Win32 window procedure's decision for one message.
pub fn win32_message(msg: u32, wp: usize, lp: isize) -> (r: Win32Action)
    ensures
        win32_result(msg, wp, lp, r),
{
    let (x, y) = mouse_xy(lp);
    if msg == WM_PAINT {
        Win32Action::Paint
    } else if msg == WM_SIZE {
        let u = lp as u64;
        let w = (u % 65536) as u32;
        let h = ((u / 65536) % 65536) as u32;
        if w > 0 && h > 0 {
            Win32Action::Deliver(DeviceEvent::Resized(PhysicalSize { width: w, height: h }))
        } else {
            Win32Action::Handled
        }
    } else if msg == WM_MOUSEMOVE {
        Win32Action::Deliver(DeviceEvent::PointerMoved { x, y })
    } else if msg == WM_LBUTTONDOWN || msg == WM_LBUTTONUP || msg == WM_RBUTTONDOWN || msg == WM_RBUTTONUP
        || msg == WM_MBUTTONDOWN || msg == WM_MBUTTONUP {
        let button = if msg == WM_LBUTTONDOWN || msg == WM_LBUTTONUP {
            PointerButton::Left
        } else if msg == WM_RBUTTONDOWN || msg == WM_RBUTTONUP {
            PointerButton::Right
        } else {
            PointerButton::Middle
        };
        let state = if msg == WM_LBUTTONDOWN || msg == WM_RBUTTONDOWN || msg == WM_MBUTTONDOWN {
            ButtonState::Pressed
        } else {
            ButtonState::Released
        };
        Win32Action::Deliver(DeviceEvent::PointerButton { button, state, x, y })
    } else if msg == WM_KEYDOWN {
        match map_vk(wp) {
            Some(code) => Win32Action::Deliver(
                DeviceEvent::Key {
                    code,
                    state: ButtonState::Pressed,
                    modifiers: Modifiers { shift: false, ctrl: false, alt: false, meta: false },
                },
            ),
            None => Win32Action::Handled,
        }
    } else if msg == WM_CHAR {
        if wp >= 0x20 {
            match char_from_u32(wp as u32) {
                Some(c) => Win32Action::Deliver(DeviceEvent::Text(char_to_string(c))),
                None => Win32Action::Handled,
            }
        } else {
            Win32Action::Handled
        }
    } else if msg == WM_CLOSE {
        Win32Action::Deliver(DeviceEvent::CloseRequested)
    } else if msg == WM_DESTROY {
        Win32Action::Destroy
    } else {
        Win32Action::Default
    }
}

/// The UTF-16 code units of one char: itself below U+10000, else its
/// surrogate pair.
pub open spec fn utf16_units(c: char) -> Seq<u16> {
    let v = c as u32;
    if v < 0x10000 {
        seq![v as u16]
    } else {
        seq![(0xD800 + (v - 0x10000) / 0x400) as u16, (0xDC00 + (v - 0x10000) % 0x400) as u16]
    }
}

/// The UTF-16 encoding of a char sequence.
pub open spec fn utf16(s: Seq<char>) -> Seq<u16>
    decreases s.len(),
{
    if s.len() == 0 {
        Seq::empty()
    } else {
        utf16(s.drop_last()) + utf16_units(s.last())
    }
}

/// A string as the NUL-terminated UTF-16 the Win32 API takes.
pub fn wide(s: &str) -> (r: Vec<u16>)
    ensures
        r@ == utf16(s@) + seq![0u16],
{
    broadcast use vstd::string::axiom_spec_iter;

    let mut out: Vec<u16> = Vec::new();
    for c in it: s.chars()
        invariant
            it.seq() == s@,
            out@ == utf16(s@.take(it.index())),
    {
        let v = c as u32;
        proof {
            let t = s@.take(it.index() + 1);
            assert(t.drop_last() =~= s@.take(it.index()));
            assert(t.last() == c);
        }
        if v < 0x10000 {
            out.push(v as u16);
        } else {
            let u = v - 0x10000;
            out.push((0xD800 + u / 0x400) as u16);
            out.push((0xDC00 + u % 0x400) as u16);
        }
    }
    assert(s@.take(s@.len() as int) =~= s@);
    out.push(0);
    out
}

// ---- the AppKit key-down ----------------------------------------------------

/// `char::is_control`: the char is in the Unicode control category `Cc`
/// (U+0000–U+001F and U+007F–U+009F).
pub open spec fn is_control(c: char) -> bool {
    (c as u32) <= 0x1f || (0x7f <= (c as u32) && (c as u32) <= 0x9f)
}

/// Whether `c` is a control character.
pub fn is_control_char(c: char) -> (r: bool)
    ensures
        r == is_control(c),
{
    let v = c as u32;
    v <= 0x1f || (0x7f <= v && v <= 0x9f)
}

/// What a macOS key-down with virtual key code `kc` and typed `chars`
/// delivers: the mapped editing key, else the typed text unless every typed
/// char is a control character.
pub open spec fn mac_key_result(kc: u16, chars: Seq<char>, r: Option<DeviceEvent>) -> bool {
    match mac_key(kc) {
        Some(code) => r == Some(
            DeviceEvent::Key {
                code,
                state: ButtonState::Pressed,
                modifiers: Modifiers { shift: false, ctrl: false, alt: false, meta: false },
            },
        ),
        None => if forall|i: int| 0 <= i < chars.len() ==> is_control(#[trigger] chars[i]) {
            r is None
        } else {
            r matches Some(DeviceEvent::Text(t)) && t@ == chars
        },
    }
}

/// The AppKit backend's decision for a key-down event.
pub fn mac_key_down(kc: u16, chars: &str) -> (r: Option<DeviceEvent>)
    ensures
        mac_key_result(kc, chars@, r),
{
    if let Some(code) = map_keycode(kc) {
        return Some(
            DeviceEvent::Key {
                code,
                state: ButtonState::Pressed,
                modifiers: Modifiers { shift: false, ctrl: false, alt: false, meta: false },
            },
        );
    }
    broadcast use vstd::string::axiom_spec_iter;

    let mut all_control = true;
    for c in it: chars.chars()
        invariant
            it.seq() == chars@,
            mac_key(kc) is None,
            all_control == (forall|k: int| 0 <= k < it.index() ==> is_control(#[trigger] chars@[k])),
    {
        if !is_control_char(c) {
            all_control = false;
        }
    }
    if all_control {
        None
    } else {
        Some(DeviceEvent::Text(chars.to_owned()))
    }
}

// ---- accessibility ---------------------------------------------------------

/// The accessibility role of a laid-out node: the tree root is the window;
/// otherwise a tap handler makes a button, a focus handle a text field, bare
/// text a text run, and anything else a group.
pub open spec fn role_spec(is_root: bool, has_action: bool, has_focus: bool, is_text: bool) -> Role {
    if is_root {
        Role::Window
    } else if has_action {
        Role::Button
    } else if has_focus {
        Role::TextField
    } else if is_text {
        Role::Text
    } else {
        Role::Group
    }
}

/// Infer a node's accessibility role from its interaction handles and
/// content.
pub fn role_of(is_root: bool, has_action: bool, has_focus: bool, is_text: bool) -> (r: Role)
    ensures
        r == role_spec(is_root, has_action, has_focus, is_text),
{
    if is_root {
        Role::Window
    } else if has_action {
        Role::Button
    } else if has_focus {
        Role::TextField
    } else if is_text {
        Role::Text
    } else {
        Role::Group
    }
}

/// Whether a node of `role` names itself from its text and absorbs its
/// descendants (buttons, text fields, text runs) rather than exposing its
/// children (the window and groups).
pub fn absorbs_text(role: Role) -> (r: bool)
    ensures
        r == (role == Role::Button || role == Role::TextField || role == Role::Text),
{
    match role {
        Role::Button | Role::TextField | Role::Text => true,
        Role::Window | Role::Group => false,
    }
}

/// A group with no name and no children carries no semantics and is
/// dropped from the accessibility tree.
pub fn is_prunable(role: Role, name: &str, child_count: usize) -> (r: bool)
    ensures
        r == (role == Role::Group && name@.len() == 0 && child_count == 0),
{
    role == Role::Group && name.is_empty() && child_count == 0
}

// ---- keyboard focus --------------------------------------------------------

/// The focus after a Tab press: the focusable after `current` in tree
/// order, wrapping around; the first one when nothing (or something no
/// longer present) is focused; `None` when nothing is focusable.
pub open spec fn next_focus_of(order: Seq<FocusId>, current: Option<FocusId>) -> Option<FocusId> {
    if order.len() == 0 {
        None
    } else {
        match current {
            Some(cur) => match order.index_of_first(cur) {
                Some(i) => Some(order[(i + 1) % (order.len() as int)]),
                None => Some(order[0]),
            },
            None => Some(order[0]),
        }
    }
}

/// Advance keyboard focus through `order` (the focusables in tree order).
pub fn next_focus(order: &[FocusId], current: Option<FocusId>) -> (r: Option<FocusId>)
    ensures
        r == next_focus_of(order@, current),
{
    let n = order.len();
    if n == 0 {
        return None;
    }
    match current {
        Some(cur) => {
            let mut i: usize = 0;
            while i < n
                invariant
                    n == order@.len(),
                    current == Some(cur),
                    i <= n,
                    forall|j: int| 0 <= j < i ==> order@[j] != cur,
                decreases n - i,
            {
                if order[i] == cur {
                    proof {
                        order@.index_of_first_ensures(cur);
                        assert(order@[i as int] == cur);
                        assert(order@.contains(cur));
                        let k = order@.index_of_first(cur)->0;
                        assert(k == i) by {
                            if k < i {
                                assert(order@[k] != cur);
                            } else if k > i {
                                assert(order@[i as int] != cur);
                            }
                        }
                    }
                    let next = (i + 1) % n;
                    assert(next as int == (i as int + 1) % (order@.len() as int));
                    return Some(order[next]);
                }
                i = i + 1;
            }
            proof {
                order@.index_of_first_ensures(cur);
            }
            Some(order[0])
        },
        None => Some(order[0]),
    }
}

/// Tab always lands on a focusable when there is one, and walks the
/// focusables in tree order, wrapping from the last back to the first.
pub proof fn law_focus_cycles(order: Seq<FocusId>, current: Option<FocusId>, i: int)
    requires
        order.no_duplicates(),
        0 <= i < order.len(),
    ensures
        next_focus_of(order, current) matches Some(f) && order.contains(f),
        next_focus_of(order, Some(order[i])) == Some(order[(i + 1) % (order.len() as int)]),
        next_focus_of(order, Some(order[order.len() - 1])) == Some(order[0]),
{
    let n = order.len() as int;
    order.index_of_first_ensures(order[i]);
    assert(order.contains(order[i]));
    let k = order.index_of_first(order[i])->0;
    assert(k == i);
    order.index_of_first_ensures(order[n - 1]);
    assert(order.contains(order[n - 1]));
    assert(order.index_of_first(order[n - 1])->0 == n - 1);
    assert(n % n == 0) by {
        vstd::arithmetic::div_mod::lemma_mod_self_0(n);
    }
    assert(((n - 1) + 1) % n == 0);
    match current {
        Some(cur) => {
            order.index_of_first_ensures(cur);
            match order.index_of_first(cur) {
                Some(j) => {
                    assert(0 <= (j + 1) % n < n) by {
                        vstd::arithmetic::div_mod::lemma_mod_bound(j + 1, n);
                    }
                    assert(order.contains(order[(j + 1) % n]));
                },
                None => {
                    assert(order.contains(order[0]));
                },
            }
        },
        None => {
            assert(order.contains(order[0]));
        },
    }
    assert(0 <= (i + 1) % n < n) by {
        vstd::arithmetic::div_mod::lemma_mod_bound(i + 1, n);
    }
}

/// Every mouse-button message delivers a pointer-button event at the
/// position packed in `lp` (signed 16-bit x in the low word, y in the next):
/// `0x0201`/`0x0202` are the left button, `0x0204`/`0x0205` the right and
/// `0x0207`/`0x0208` the middle; the `…DOWN` messages (`0x0201`, `0x0204`,
/// `0x0207`) are presses and the `…UP` messages releases.
pub proof fn law_win32_button_messages(msg: u32, wp: usize, lp: isize, r: Win32Action)
    requires
        msg == 0x0201 || msg == 0x0202 || msg == 0x0204 || msg == 0x0205 || msg == 0x0207 || msg == 0x0208,
        win32_result(msg, wp, lp, r),
    ensures
        ({
            let lo = (lp as u64) as int % 65536;
            let hi = ((lp as u64) as int / 65536) % 65536;
            r == Win32Action::Deliver(
                DeviceEvent::PointerButton {
                    button: if msg == 0x0201 || msg == 0x0202 {
                        PointerButton::Left
                    } else if msg == 0x0204 || msg == 0x0205 {
                        PointerButton::Right
                    } else {
                        PointerButton::Middle
                    },
                    state: if msg == 0x0201 || msg == 0x0204 || msg == 0x0207 {
                        ButtonState::Pressed
                    } else {
                        ButtonState::Released
                    },
                    x: (if lo >= 32768 { lo - 65536 } else { lo }) as i16,
                    y: (if hi >= 32768 { hi - 65536 } else { hi }) as i16,
                },
            )
        }),
{
}

} // verus!
