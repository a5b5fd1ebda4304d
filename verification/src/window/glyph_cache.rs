//! The glyph atlas: glyph bitmaps packed into one texture, row by row.

use std::collections::HashMap;

use vstd::prelude::*;

verus! {

/// A rectangle of the atlas.
#[derive(Debug, Clone, Copy, PartialEq, Eq, Structural)]
pub struct AtlasRect {
    pub x: u32,
    pub y: u32,
    pub width: u32,
    pub height: u32,
}

/// Where each cached glyph lies in the atlas, and where the next one goes:
/// glyphs are placed left to right along a row, and a new row starts
/// below the tallest glyph of the row before.
pub struct GlyphCache {
    glyph_cache: HashMap<u32, AtlasRect>,
    cursor_x: u32,
    cursor_y: u32,
    row_height: u32,
    pub atlas_width: u32,
    pub atlas_height: u32,
}

/// A glyph cache as mathematical values.
#[verifier::ext_equal]
pub struct GlyphCacheView {
    pub rects: Map<u32, AtlasRect>,
    pub cursor_x: u32,
    pub cursor_y: u32,
    pub row_height: u32,
    pub atlas_width: u32,
    pub atlas_height: u32,
}

impl View for GlyphCache {
    type V = GlyphCacheView;

    closed spec fn view(&self) -> GlyphCacheView {
        GlyphCacheView {
            rects: self.glyph_cache@,
            cursor_x: self.cursor_x,
            cursor_y: self.cursor_y,
            row_height: self.row_height,
            atlas_width: self.atlas_width,
            atlas_height: self.atlas_height,
        }
    }
}

impl GlyphCacheView {
    /// The next glyph can be placed without the placement arithmetic
    /// leaving `u32`: the pen is inside the atlas's width, and the next
    /// row's top is a `u32`.
    pub open spec fn wf(self) -> bool {
        &&& self.cursor_x <= self.atlas_width
        &&& self.cursor_y + self.row_height <= u32::MAX
    }

    /// `get_or_allocate(codepoint, w, _)` can run without its arithmetic
    /// leaving `u32`: the glyph is cached, or the pen is inside the atlas's
    /// width and, where the glyph needs a new row, the new row's top is a
    /// `u32`.
    pub open spec fn can_allocate(self, codepoint: u32, w: u32) -> bool {
        ||| self.rects.contains_key(codepoint)
        ||| {
            &&& self.cursor_x <= self.atlas_width
            &&& w > self.atlas_width - self.cursor_x ==> self.cursor_y + self.row_height <= u32::MAX
        }
    }

    /// The cache after `get_or_allocate(codepoint, w, h)`, and what it
    /// returns: a cached glyph's rectangle, unchanged; otherwise a `w` by
    /// `h` rectangle at the pen, on a new row where the current one has
    /// no room left for `w`; nothing where it would reach below the atlas.
    pub open spec fn allocate(self, codepoint: u32, w: u32, h: u32) -> (GlyphCacheView, Option<AtlasRect>) {
        if self.rects.contains_key(codepoint) {
            (self, Some(self.rects[codepoint]))
        } else {
            let new_row = w > self.atlas_width - self.cursor_x;
            let x0: u32 = if new_row { 0 } else { self.cursor_x };
            let y0: u32 = if new_row { (self.cursor_y + self.row_height) as u32 } else { self.cursor_y };
            let row0: u32 = if new_row { 0 } else { self.row_height };
            if y0 + h > self.atlas_height {
                (GlyphCacheView { cursor_x: x0, cursor_y: y0, row_height: row0, ..self }, None)
            } else {
                let rect = AtlasRect { x: x0, y: y0, width: w, height: h };
                (
                    GlyphCacheView {
                        rects: self.rects.insert(codepoint, rect),
                        cursor_x: (x0 + w) as u32,
                        cursor_y: y0,
                        row_height: if row0 >= h { row0 } else { h },
                        ..self
                    },
                    Some(rect),
                )
            }
        }
    }
}

impl GlyphCache {
    /// An empty atlas of the given size.
    pub fn new(atlas_width: u32, atlas_height: u32) -> (c: Self)
        ensures
            c@ == (GlyphCacheView {
                rects: Map::empty(),
                cursor_x: 0,
                cursor_y: 0,
                row_height: 0,
                atlas_width,
                atlas_height,
            }),
            c@.sound(),
    {
        let glyph_cache: HashMap<u32, AtlasRect> = HashMap::new();
        Self { glyph_cache, cursor_x: 0, cursor_y: 0, row_height: 0, atlas_width, atlas_height }
    }

    /// Records `rect` as the place of `codepoint`.
    pub fn add_to_cache(&mut self, codepoint: u32, rect: AtlasRect)
        ensures
            final(self)@ == (GlyphCacheView { rects: old(self)@.rects.insert(codepoint, rect), ..old(self)@ }),
    {
        self.glyph_cache.insert(codepoint, rect);
    }

    /// The place of `codepoint`, where it has one.
    pub fn get(&self, codepoint: u32) -> (r: Option<&AtlasRect>)
        ensures
            match r {
                Some(rect) => self@.rects.contains_key(codepoint) && *rect == self@.rects[codepoint],
                None => !self@.rects.contains_key(codepoint),
            },
    {
        self.glyph_cache.get(&codepoint)
    }

    /// The atlas's area in texels.
    pub fn get_size(&self) -> (r: u32)
        requires
            self@.atlas_width * self@.atlas_height <= u32::MAX,
        ensures
            r == self@.atlas_width * self@.atlas_height,
    {
        self.atlas_width * self.atlas_height
    }

    /// Whether `get_or_allocate(codepoint, glyph_width, _)` can run now:
    /// see `GlyphCacheView::can_allocate`.
    pub fn can_allocate(&self, codepoint: u32, glyph_width: u32) -> (r: bool)
        ensures
            r == self@.can_allocate(codepoint, glyph_width),
    {
        if self.glyph_cache.contains_key(&codepoint) {
            return true;
        }
        self.cursor_x <= self.atlas_width
            && (glyph_width <= self.atlas_width - self.cursor_x
                || self.cursor_y as u64 + self.row_height as u64 <= 0xFFFF_FFFF)
    }

    /// The place of `codepoint`: where it was put before, or a new place
    /// for a `glyph_width` by `glyph_height` bitmap; `None` where the atlas
    /// is full.
    pub fn get_or_allocate(&mut self, codepoint: u32, glyph_width: u32, glyph_height: u32) -> (r: Option<AtlasRect>)
        requires
            old(self)@.can_allocate(codepoint, glyph_width),
        ensures
            (final(self)@, r) == old(self)@.allocate(codepoint, glyph_width, glyph_height),
            old(self)@.sound() ==> final(self)@.sound(),
            old(self)@.sound() ==> (r matches Some(rect) ==> old(self)@.within_atlas(rect)),
    {
        proof {
            if old(self)@.sound() {
                lemma_allocate_keeps_sound(old(self)@, codepoint, glyph_width, glyph_height);
            }
        }
        if let Some(r) = self.get(codepoint) {
            return Some(*r);
        }
        if glyph_width > self.atlas_width - self.cursor_x {
            self.cursor_x = 0;
            self.cursor_y = self.cursor_y + self.row_height;
            self.row_height = 0;
        }
        if self.cursor_y as u64 + glyph_height as u64 > self.atlas_height as u64 {
            return None;
        }
        let allocated = AtlasRect { x: self.cursor_x, y: self.cursor_y, width: glyph_width, height: glyph_height };
        self.cursor_x = self.cursor_x + glyph_width;
        self.row_height = if self.row_height >= glyph_height { self.row_height } else { glyph_height };
        self.add_to_cache(codepoint, allocated);
        Some(allocated)
    }
}

/// Two rectangles share no texel: one lies wholly left of, right of,
/// above or below the other.
pub open spec fn disjoint(a: AtlasRect, b: AtlasRect) -> bool {
    ||| a.x + a.width <= b.x
    ||| b.x + b.width <= a.x
    ||| a.y + a.height <= b.y
    ||| b.y + b.height <= a.y
}

impl GlyphCacheView {
    /// `r` lies behind the pen: in a finished row above it, or in the
    /// current row, left of the pen and no taller than the row.
    pub open spec fn placed(self, r: AtlasRect) -> bool {
        ||| r.y + r.height <= self.cursor_y
        ||| (r.y == self.cursor_y && r.x + r.width <= self.cursor_x && r.height <= self.row_height)
    }

    /// `r` lies inside the atlas, or, where it is wider than the atlas,
    /// starts at its left edge and fits its height.
    pub open spec fn within_atlas(self, r: AtlasRect) -> bool {
        &&& r.y + r.height <= self.atlas_height
        &&& r.x + r.width <= self.atlas_width || r.x == 0
    }

    /// What holds of every cache that `new` and `get_or_allocate` build:
    /// it is packed, every place lies within the atlas, and the current row
    /// ends inside the atlas.
    pub open spec fn sound(self) -> bool {
        &&& self.packed()
        &&& forall|c: u32| self.rects.contains_key(c) ==> self.within_atlas(#[trigger] self.rects[c])
        &&& self.cursor_y + self.row_height <= self.atlas_height
    }

    /// Every cached rectangle lies behind the pen, and no two of them overlap.
    pub open spec fn packed(self) -> bool {
        &&& forall|c: u32| self.rects.contains_key(c) ==> self.placed(#[trigger] self.rects[c])
        &&& forall|a: u32, b: u32|
            self.rects.contains_key(a) && self.rects.contains_key(b) && a != b ==> disjoint(
                #[trigger] self.rects[a],
                #[trigger] self.rects[b],
            )
    }
}

/// Once a code point has a place, asking again gives the same place and
/// changes nothing, whatever size is asked for.
pub proof fn lemma_allocate_is_stable(v: GlyphCacheView, codepoint: u32, w: u32, h: u32, w2: u32, h2: u32)
    ensures
        v.allocate(codepoint, w, h).1 matches Some(rect) ==> {
            let v1 = v.allocate(codepoint, w, h).0;
            &&& v1.rects.contains_key(codepoint)
            &&& v1.rects[codepoint] == rect
            &&& v1.allocate(codepoint, w2, h2) == (v1, Some(rect))
        },
{
}

/// A new place lies inside the atlas when the glyph is no wider than it.
pub proof fn lemma_allocation_in_atlas(v: GlyphCacheView, codepoint: u32, w: u32, h: u32)
    requires
        v.wf(),
        !v.rects.contains_key(codepoint),
        w <= v.atlas_width,
    ensures
        v.allocate(codepoint, w, h).1 matches Some(rect) ==> {
            &&& rect.width == w && rect.height == h
            &&& rect.x + rect.width <= v.atlas_width
            &&& rect.y + rect.height <= v.atlas_height
        },
{
}

/// Allocating keeps the atlas packed: the new place overlaps no cached
/// one, and every place stays behind the pen.
pub proof fn lemma_allocate_keeps_packing(v: GlyphCacheView, codepoint: u32, w: u32, h: u32)
    requires
        v.wf(),
        v.packed(),
    ensures
        v.allocate(codepoint, w, h).0.packed(),
{
    let v1 = v.allocate(codepoint, w, h).0;
    if !v.rects.contains_key(codepoint) {
        let new_row = w > v.atlas_width - v.cursor_x;
        let x0: u32 = if new_row { 0 } else { v.cursor_x };
        let y0: u32 = if new_row { (v.cursor_y + v.row_height) as u32 } else { v.cursor_y };
        let row0: u32 = if new_row { 0 } else { v.row_height };
        assert forall|c: u32| v.rects.contains_key(c) implies ({
            let r = #[trigger] v.rects[c];
            r.y + r.height <= y0 || (r.y == y0 && r.x + r.width <= x0 && r.height <= row0)
        }) by {
            assert(v.placed(v.rects[c]));
        }
        if y0 + h <= v.atlas_height {
            let rect = AtlasRect { x: x0, y: y0, width: w, height: h };
            assert forall|a: u32, b: u32|
                v1.rects.contains_key(a) && v1.rects.contains_key(b) && a != b implies disjoint(
                #[trigger] v1.rects[a],
                #[trigger] v1.rects[b],
            ) by {
                if a != codepoint && b != codepoint {
                    assert(disjoint(v.rects[a], v.rects[b]));
                } else if a == codepoint {
                    assert(v.rects.contains_key(b));
                } else {
                    assert(v.rects.contains_key(a));
                }
            }
            assert forall|c: u32| v1.rects.contains_key(c) implies v1.placed(#[trigger] v1.rects[c]) by {
                if c != codepoint {
                    assert(v.rects.contains_key(c));
                }
            }
        }
    }
}

/// Every allocation keeps a cache sound: from `new` on, through any run of
/// `get_or_allocate`, no two places overlap, each place lies within the
/// atlas, and so does each place handed out.
pub proof fn lemma_allocate_keeps_sound(v: GlyphCacheView, codepoint: u32, w: u32, h: u32)
    requires
        v.sound(),
        v.can_allocate(codepoint, w),
    ensures
        v.allocate(codepoint, w, h).0.sound(),
        v.allocate(codepoint, w, h).1 matches Some(rect) ==> v.within_atlas(rect),
{
    if !v.rects.contains_key(codepoint) {
        lemma_allocate_keeps_packing(v, codepoint, w, h);
        let v1 = v.allocate(codepoint, w, h).0;
        assert forall|c: u32| v1.rects.contains_key(c) implies v1.within_atlas(#[trigger] v1.rects[c]) by {
            if c != codepoint {
                assert(v.rects.contains_key(c));
                assert(v.within_atlas(v.rects[c]));
            }
        }
    }
}

} // verus!
