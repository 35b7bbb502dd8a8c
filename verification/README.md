# stipple

The verified core of a self-drawing UI toolkit, written in Verus.

`src/` is the library. Every function in it carries a `requires` / `ensures`
contract that Verus proves, and the `law_*` proof functions state properties
that span several operations (what a read gives back of a write, what one key
undoes of another, what the sandbox allows).

- `edit` — the caret-aware text buffer (UTF-8, selection, line navigation,
  copy/cut/paste through a clipboard value), modelled by `EditState`.
- `pixmap`, `geometry`, `color`, `style` — RGBA8 pixel buffers and blits,
  sizes, colors and `#RRGGBB` parsing, palette and easing names.
- `x11`, `wire` — the X11 wire protocol: `$DISPLAY`, `.Xauthority`, the setup
  reply, every request the backend sends, event decoding, the keyboard map,
  and the pixel conversion and damage clipping used to present frames.
- `dbus` — the D-Bus wire protocol and the client's decisions (SASL lines,
  message headers, reply matching).
- `input` — platform-neutral keys and events, and the Win32 / AppKit / X11
  decisions that turn native messages into them.
- `sandbox` — the seccomp-BPF program of the content process and a model of
  how the kernel runs it.
- `dialog`, `gpu`, `errors` — portal requests for file dialogs, the GPU entry
  points of a build without a GPU backend, and error messages.

`app/` is plain Rust around the library: sockets, `prctl`, shared memory,
the process-wide clipboard, the X11 event loop and presenter, the D-Bus
client, and the small floating-point pieces the event loop needs (animation
curves, logical coordinates). Layout, painting, the scene renderer, themes,
the Windows/macOS window backends and the GPU backends are in neither `src/`
nor `app/`.

`tests/` runs the library on concrete values.
