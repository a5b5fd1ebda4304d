//! What the window layer keeps besides the GPU: the glyph atlas, the text
//! engine's glyph caches, the render mode and what window events do.

pub mod glyph_cache;
pub mod input;
pub mod renderer;
pub mod text_engine;
