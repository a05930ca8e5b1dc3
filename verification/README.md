# wham_ui

Verified core of a GPU-rendered forms toolkit.

`src/` is the library, checked by Verus:

- `pixel_diff` — RGBA screenshot decoding and pixel-by-pixel comparison with a
  per-channel tolerance, producing the count of differing pixels and a diff image.
- `glyph_atlas` — the R8 glyph-atlas surface: shelf allocation with padding,
  wipe-and-restart when full, glyph blitting, and dirty-rectangle tracking for
  partial texture uploads.
- `icon_atlas` — the RGBA icon sprite sheet and its dirty flag, kept equal to
  what the calls since the last upload imply.
- `bidi` — right-to-left detection and visual reordering, one run per paragraph.
- `text_lines` — caret index ↔ (line, column) arithmetic over grapheme
  clusters, and selection spans per line.
- `text_edit` — editing commands for keyboard, IME, clipboard and paste
  events; click counting and drag selection; the displayed (masked) content.
- `widgets` — accessibility roles, Tab focus cycling, clicks, the cycling
  select, radio groups and the dropdown state machine.
- `widget_info` — the accessibility records the widgets leave each frame
  (id, kind, label, value, state flags), made by each widget's frame step.
- `input`, `form_path` — input vocabulary, form field paths and the
  registration form's password confirmation check.

`app/` is the host layer in plain Rust: floating-point geometry, themes and
layout, glyph metrics, `fontdue` rasterization into the verified atlas,
screenshot files and thresholds for visual regression runs, `fetch`-based
HTTP submission, and a per-frame `Ui` host that hit-tests widget rectangles
hands each decision to the library, and builds the accessibility tree.

`tests/` exercises the library on concrete values.
