//! Core logic of a GPU-rendered forms toolkit: screenshot pixel comparison,
//! glyph-atlas packing, icon sprite sheets, bidirectional-text helpers,
//! caret/line arithmetic, and the decision logic of the immediate-mode widgets.
pub mod pixel_diff;
pub mod icon_atlas;
pub mod bidi;
pub mod glyph_atlas;
pub mod input;
pub mod widgets;
pub mod widget_info;
pub mod text_lines;
pub mod text_edit;
pub mod form_path;
