use vstd::prelude::*;

verus! {

/// Why a table of a font file could not be read.
#[derive(Debug, Clone, Copy, PartialEq, Eq, Structural)]
pub enum TableParsingError {
    MalformedTable,
    UnsupportedFormat(u16),
    OffsetOutOfBounds { offset: u32, table_len: usize },
    GlyphIdOutOfRange { glyph_id: u32, num_glyphs: u16 },
    CompositeDepthExceeded { count: u32, max: u32 },
}

} // verus!
