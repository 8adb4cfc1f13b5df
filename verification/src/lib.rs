//! Verified core of a small x86_64 kernel console: pixel encoding for a
//! linear frame buffer, drawing into that frame buffer, text layout for a
//! frame-buffer console, line-ending conversion for serial output, and the
//! logger's level and colour decisions.

pub mod console;
pub mod frame_buffer;
pub mod frame_buffer_info;
pub mod geometry;
pub mod graphemes;
pub mod logger;
pub mod rgb_pixel_info;
pub mod writer_with_cr;

pub use console::{DisplayData, GlyphAction};
pub use frame_buffer::{FrameBufferEmbeddedGraphics, Pixel};
pub use frame_buffer_info::FrameBufferInfo;
pub use geometry::{Point, Rectangle, Size};
pub use graphemes::{is_carriage_return, is_cr_lf, is_line_feed, split_graphemes};
pub use logger::{
    color_for_level, enabled, fallback_line, level_label, log_line, serial_pieces, serial_text, Color, Level,
    LevelFilter, LogPart,
};
pub use rgb_pixel_info::{Rgb, RgbPixelInfo};
pub use writer_with_cr::{cr_lf_pieces, WriterWithCr};
