//! A terminal emulator's core: a TrueType font parser, the terminal's
//! character grid and the glyph atlas allocator, with their contracts.

pub mod terminal;
pub mod ttf;
pub mod window;
