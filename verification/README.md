# viewkit

A small UI toolkit for a Wayland host: HTML/CSS-templated components, a software
pixel pipeline, a runtime theme preview and a window protocol, written in Verus
with its behaviour stated in contracts and proved.

Layout:

- `src/` — the verified library.
  - `components.rs`, `components/` — `VComponent` templates (attributes, content,
    children, handlers, rendered HTML and CSS), the `Canvas` and `Card` components.
  - `keyed.rs`, `text.rs` — keyed lists and character-level text operations.
  - `render.rs`, `view.rs`, `font.rs` — BGRA buffer drawing, the animated view
    frame, glyph coverage blending.
  - `pipeline/` — DOM, styles, layout tree reading, display list, rasterizer,
    framebuffer.
  - `theme/` — the runtime theme: CSS declarations and variables, colours,
    markup (through html5ever), the component index (through toml), what each
    declaration's value is read as, the check that a frame stays within `i32`,
    and the preview frame's painting.
  - `ipc.rs` — window requests, replies and chunked pixel upload messages.
  - `libkagami.rs`, `app.rs` — shared-memory buffer layout, double buffering,
    the application builder and framebuffer copy.
- `tests/` — tests of the library on concrete values.
- `app/` — the unverified shell: Wayland and file I/O, font rasterisation and
  layout through their crates, and the floating-point readings of CSS values.
