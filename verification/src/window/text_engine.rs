//! The text engine: the font parser, with the glyph bitmaps made so far.

use std::collections::HashMap;

use vstd::prelude::*;

use crate::ttf::font::{Glyph, GlyphBounds};
use crate::ttf::parser::{fetched, TTFParser};
use crate::ttf::parser_errors::TableParsingError;

verus! {

/// A glyph drawn as a bitmap of `width` by `height` coverage bytes, row
/// after row, with the outline's declared bounds.
#[derive(Default, Debug, Clone)]
pub struct RasterizedGlyph {
    pub data: Vec<u8>,
    pub width: u32,
    pub height: u32,
    pub bounds: GlyphBounds,
}

/// A rasterized glyph as mathematical values.
pub struct RasterizedGlyphView {
    pub data: Seq<u8>,
    pub width: u32,
    pub height: u32,
    pub bounds: GlyphBounds,
}

impl View for RasterizedGlyph {
    type V = RasterizedGlyphView;

    open spec fn view(&self) -> RasterizedGlyphView {
        RasterizedGlyphView { data: self.data@, width: self.width, height: self.height, bounds: self.bounds }
    }
}

impl RasterizedGlyph {
    /// A copy of this bitmap, equal to it in every byte.
    pub fn duplicate(&self) -> (r: RasterizedGlyph)
        ensures
            r@ == self@,
    {
        let mut data: Vec<u8> = Vec::new();
        for i in 0..self.data.len()
            invariant
                data@ == self.data@.take(i as int),
        {
            data.push(self.data[i]);
            assert(data@ =~= self.data@.take(i + 1));
        }
        assert(data@ =~= self.data@);
        RasterizedGlyph { data, width: self.width, height: self.height, bounds: self.bounds }
    }
}

/// The font parser, and the bitmaps of the glyphs drawn so far by code point.
pub struct TextEngine {
    parser: TTFParser,
    rasterized_glyph_cache: HashMap<u32, RasterizedGlyph>,
}

impl TextEngine {
    pub closed spec fn parser_state(&self) -> TTFParser {
        self.parser
    }

    /// The bitmaps drawn so far, by code point.
    pub closed spec fn bitmaps(&self) -> Map<u32, RasterizedGlyph> {
        self.rasterized_glyph_cache@
    }

    /// An engine over `parser`, with no bitmaps yet.
    pub fn new(parser: TTFParser) -> (e: Self)
        ensures
            e.parser_state() == parser,
            e.bitmaps() == Map::<u32, RasterizedGlyph>::empty(),
    {
        Self { parser, rasterized_glyph_cache: HashMap::new() }
    }

    /// The bitmap drawn before for `codepoint`, if any.
    pub fn cached_rasterized(&self, codepoint: u32) -> (r: Option<RasterizedGlyph>)
        ensures
            match r {
                Some(g) => self.bitmaps().contains_key(codepoint) && g@ == self.bitmaps()[codepoint]@,
                None => !self.bitmaps().contains_key(codepoint),
            },
    {
        match self.rasterized_glyph_cache.get(&codepoint) {
            Some(g) => Some(g.duplicate()),
            None => None,
        }
    }

    /// Keeps `glyph` as the bitmap of `codepoint`.
    pub fn store_rasterized(&mut self, codepoint: u32, glyph: RasterizedGlyph)
        ensures
            final(self).parser_state() == old(self).parser_state(),
            final(self).bitmaps() == old(self).bitmaps().insert(codepoint, glyph),
    {
        self.rasterized_glyph_cache.insert(codepoint, glyph);
    }

    /// The outline of `codepoint`, through the parser's glyph cache.
    pub fn fetch_glyph(&mut self, codepoint: u32) -> (r: Result<Glyph, TableParsingError>)
        requires
            old(self).parser_state().bytes_view().len() <= isize::MAX,
        ensures
            fetched(old(self).parser_state(), final(self).parser_state(), codepoint, r),
            final(self).bitmaps() == old(self).bitmaps(),
    {
        self.parser.fetch_char_from_cache(codepoint)
    }

    /// The advance width of `codepoint`: the one recorded, or else the one
    /// recorded by fetching its glyph (none where that fails first).
    pub fn get_advaned_widths(&mut self, codepoint: u32) -> (r: Option<u16>)
        requires
            old(self).parser_state().bytes_view().len() <= isize::MAX,
        ensures
            final(self).bitmaps() == old(self).bitmaps(),
            old(self).parser_state().widths().contains_key(codepoint) ==> final(self).parser_state() == old(self).parser_state(),
            !old(self).parser_state().widths().contains_key(codepoint) ==> exists|g: Result<Glyph, TableParsingError>|
                fetched(old(self).parser_state(), final(self).parser_state(), codepoint, g),
            r == (if final(self).parser_state().widths().contains_key(codepoint) {
                Some(final(self).parser_state().widths()[codepoint])
            } else {
                None::<u16>
            }),
    {
        if let Some(aw) = self.parser.recorded_advance_width(codepoint) {
            Some(aw)
        } else {
            let g = self.parser.fetch_char_from_cache(codepoint);
            assert(fetched(old(self).parser_state(), self.parser_state(), codepoint, g));
            self.parser.recorded_advance_width(codepoint)
        }
    }

    /// The left side bearing of `codepoint`: the one recorded, or else the
    /// one recorded by fetching its glyph (none where that fails first).
    pub fn get_lsb(&mut self, codepoint: u32) -> (r: Option<i16>)
        requires
            old(self).parser_state().bytes_view().len() <= isize::MAX,
        ensures
            final(self).bitmaps() == old(self).bitmaps(),
            old(self).parser_state().bearings().contains_key(codepoint) ==> final(self).parser_state() == old(self).parser_state(),
            !old(self).parser_state().bearings().contains_key(codepoint) ==> exists|g: Result<Glyph, TableParsingError>|
                fetched(old(self).parser_state(), final(self).parser_state(), codepoint, g),
            r == (if final(self).parser_state().bearings().contains_key(codepoint) {
                Some(final(self).parser_state().bearings()[codepoint])
            } else {
                None::<i16>
            }),
    {
        if let Some(lsb) = self.parser.recorded_left_side_bearing(codepoint) {
            Some(lsb)
        } else {
            let g = self.parser.fetch_char_from_cache(codepoint);
            assert(fetched(old(self).parser_state(), self.parser_state(), codepoint, g));
            self.parser.recorded_left_side_bearing(codepoint)
        }
    }
}

} // verus!
