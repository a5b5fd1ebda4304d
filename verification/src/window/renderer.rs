//! How glyphs are drawn, and which cells of the grid get a glyph drawn.

use vstd::prelude::*;

use crate::terminal::cell::{Cell, CellState};
use crate::window::glyph_cache::{AtlasRect, GlyphCache, GlyphCacheView};

verus! {

/// How glyphs are drawn.
#[derive(Debug, Clone, Copy, PartialEq, Eq, Structural)]
pub enum RenderMode {
    Bitmap,
    SDF,
    MSDF,
}

/// A cell to draw: its index in the grid, the place of its glyph in the
/// atlas, and whether the glyph's bitmap is new there and must be copied in.
#[derive(Debug, Clone, Copy, PartialEq, Eq, Structural)]
pub struct GlyphPlacement {
    pub index: usize,
    pub rect: AtlasRect,
    pub upload: bool,
}

/// Placing the glyphs of cells `i..` of `cells`, whose bitmaps measure
/// `sizes`, after `acc`: unwritten cells are skipped; each written cell
/// gets a place in the atlas, and is drawn where that place has an area.
/// Gives the cache after it, and the cells to draw, or nothing where a
/// glyph finds no place: the atlas is full, or the pen has run past its
/// right edge.
pub open spec fn placements_from(
    c: GlyphCacheView,
    cells: Seq<Cell>,
    sizes: Seq<(u32, u32)>,
    i: int,
    acc: Seq<GlyphPlacement>,
) -> (GlyphCacheView, Option<Seq<GlyphPlacement>>)
    decreases cells.len() - i,
{
    if i < 0 || i >= cells.len() {
        (c, Some(acc))
    } else if cells[i].state == CellState::NotWritten {
        placements_from(c, cells, sizes, i + 1, acc)
    } else {
        let cp = cells[i].codepoint;
        let (w, h) = sizes[i];
        if !c.can_allocate(cp, w) {
            (c, None)
        } else {
            let upload = !c.rects.contains_key(cp);
            let (c2, r) = c.allocate(cp, w, h);
            match r {
                None => (c2, None),
                Some(rect) => if rect.width == 0 || rect.height == 0 {
                    placements_from(c2, cells, sizes, i + 1, acc)
                } else {
                    placements_from(c2, cells, sizes, i + 1, acc.push(GlyphPlacement { index: i as usize, rect, upload }))
                },
            }
        }
    }
}

/// Gives each written cell of `cells` a place in the atlas for its glyph,
/// whose bitmap measures `sizes[i]`, in grid order: the cells to draw,
/// with their places, and whether each glyph is new in the atlas; `None`
/// where a glyph finds no place.
pub fn place_glyphs(cache: &mut GlyphCache, cells: &Vec<Cell>, sizes: &Vec<(u32, u32)>) -> (r: Option<Vec<GlyphPlacement>>)
    requires
        cells@.len() == sizes@.len(),
    ensures
        ({
            let (c, p) = placements_from(old(cache)@, cells@, sizes@, 0, Seq::empty());
            &&& final(cache)@ == c
            &&& match r {
                Some(v) => p == Some(v@),
                None => p is None,
            }
        }),
{
    let ghost target = placements_from(cache@, cells@, sizes@, 0, Seq::empty());
    let mut out: Vec<GlyphPlacement> = Vec::new();
    let mut i: usize = 0;
    while i < cells.len()
        invariant
            cells@.len() == sizes@.len(),
            i <= cells@.len(),
            placements_from(cache@, cells@, sizes@, i as int, out@) == target,
            target == placements_from(old(cache)@, cells@, sizes@, 0, Seq::empty()),
        decreases cells@.len() - i,
    {
        let cell = cells[i];
        if cell.state == CellState::Written {
            let (w, h) = sizes[i];
            assert(sizes@[i as int] == (w, h));
            if !cache.can_allocate(cell.codepoint, w) {
                assert(target == (cache@, None::<Seq<GlyphPlacement>>));
                return None;
            }
            let ghost before = cache@;
            let upload = cache.get(cell.codepoint).is_none();
            match cache.get_or_allocate(cell.codepoint, w, h) {
                None => {
                    assert(target == (before.allocate(cell.codepoint, w, h).0, None::<Seq<GlyphPlacement>>));
                    return None;
                },
                Some(rect) => {
                    if rect.width != 0 && rect.height != 0 {
                        out.push(GlyphPlacement { index: i, rect, upload });
                    }
                },
            }
        }
        i = i + 1;
    }
    Some(out)
}

} // verus!
