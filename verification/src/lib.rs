//! A software text renderer: glyphs are rasterized once into grayscale bitmaps,
//! cached by character, and composited into a pixel grid on every redraw.

pub mod compositor;
pub mod font_loader;
pub mod framebuffer;
pub mod input;
pub mod name_table;
