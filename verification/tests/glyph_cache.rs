use rime::window::glyph_cache::{AtlasRect, GlyphCache};
use rime::window::renderer::RenderMode;
use rime::window::text_engine::RasterizedGlyph;
use rime::ttf::font::GlyphBounds;

fn overlap(a: &AtlasRect, b: &AtlasRect) -> bool {
    a.x < b.x + b.width && b.x < a.x + a.width && a.y < b.y + b.height && b.y < a.y + a.height
}

#[test]
fn allocates_left_to_right() {
    let mut c = GlyphCache::new(100, 100);
    let a = c.get_or_allocate(1, 30, 10).unwrap();
    let b = c.get_or_allocate(2, 30, 20).unwrap();
    assert_eq!(a, AtlasRect { x: 0, y: 0, width: 30, height: 10 });
    assert_eq!(b, AtlasRect { x: 30, y: 0, width: 30, height: 20 });
}

#[test]
fn starts_a_new_row_below_the_tallest() {
    let mut c = GlyphCache::new(100, 100);
    c.get_or_allocate(1, 60, 10).unwrap();
    c.get_or_allocate(2, 30, 25).unwrap();
    let r = c.get_or_allocate(3, 20, 5).unwrap();
    assert_eq!(r, AtlasRect { x: 0, y: 25, width: 20, height: 5 });
}

#[test]
fn asking_again_gives_the_same_place() {
    let mut c = GlyphCache::new(100, 100);
    let a = c.get_or_allocate(7, 30, 10).unwrap();
    let again = c.get_or_allocate(7, 99, 99).unwrap();
    assert_eq!(a, again);
    assert_eq!(c.get(7), Some(&a));
    // nothing moved: the next glyph goes right after the first
    let b = c.get_or_allocate(8, 10, 10).unwrap();
    assert_eq!(b.x, 30);
}

#[test]
fn full_atlas_gives_none() {
    let mut c = GlyphCache::new(100, 20);
    c.get_or_allocate(1, 80, 15).unwrap();
    assert_eq!(c.get_or_allocate(2, 80, 10), None);
    assert_eq!(c.get(2), None);
    assert!(c.can_allocate(3, 10));
}

#[test]
fn allocations_never_overlap() {
    let mut c = GlyphCache::new(64, 64);
    let mut placed: Vec<AtlasRect> = Vec::new();
    for cp in 0..40u32 {
        let w = 3 + (cp * 7) % 13;
        let h = 2 + (cp * 5) % 11;
        if let Some(r) = c.get_or_allocate(cp, w, h) {
            assert!(r.x + r.width <= 64 && r.y + r.height <= 64);
            for p in &placed {
                assert!(!overlap(p, &r));
            }
            placed.push(r);
        }
    }
    assert!(placed.len() > 10);
}

#[test]
fn add_to_cache_and_get() {
    let mut c = GlyphCache::new(10, 10);
    let r = AtlasRect { x: 1, y: 2, width: 3, height: 4 };
    c.add_to_cache(5, r);
    assert_eq!(c.get(5), Some(&r));
    assert_eq!(c.get_or_allocate(5, 1, 1), Some(r));
}

#[test]
fn size_is_area() {
    let c = GlyphCache::new(1024, 512);
    assert_eq!(c.get_size(), 524288);
}

#[test]
fn too_wide_glyph_breaks_placeability() {
    let mut c = GlyphCache::new(10, 100);
    assert!(c.can_allocate(1, 12));
    let r = c.get_or_allocate(1, 12, 3).unwrap();
    assert_eq!(r, AtlasRect { x: 0, y: 0, width: 12, height: 3 });
    // the glyph itself is still found, but nothing new can be placed
    assert!(c.can_allocate(1, 12));
    assert!(!c.can_allocate(2, 1));
}

#[test]
fn rasterized_glyph_duplicates() {
    let g = RasterizedGlyph {
        data: vec![0, 255, 255, 0],
        width: 2,
        height: 2,
        bounds: GlyphBounds { x_min: 0, y_min: 0, x_max: 10, y_max: 10 },
    };
    let d = g.duplicate();
    assert_eq!(d.data, g.data);
    assert_eq!((d.width, d.height, d.bounds), (g.width, g.height, g.bounds));
}

#[test]
fn render_modes_compare() {
    assert_eq!(RenderMode::Bitmap, RenderMode::Bitmap);
    assert_ne!(RenderMode::SDF, RenderMode::MSDF);
}

use rime::terminal::cell::{Cell, CellState};
use rime::window::renderer::{place_glyphs, GlyphPlacement};

fn cell(c: u32, written: bool) -> Cell {
    Cell { codepoint: c, state: if written { CellState::Written } else { CellState::NotWritten } }
}

#[test]
fn written_cells_get_places() {
    let mut c = GlyphCache::new(100, 100);
    let cells = vec![cell(65, true), cell(32, false), cell(66, true), cell(65, true), cell(67, true)];
    let sizes = vec![(10, 20), (0, 0), (5, 5), (10, 20), (0, 7)];
    let p = place_glyphs(&mut c, &cells, &sizes).unwrap();
    let a = AtlasRect { x: 0, y: 0, width: 10, height: 20 };
    assert_eq!(
        p,
        vec![
            GlyphPlacement { index: 0, rect: a, upload: true },
            GlyphPlacement { index: 2, rect: AtlasRect { x: 10, y: 0, width: 5, height: 5 }, upload: true },
            GlyphPlacement { index: 3, rect: a, upload: false },
        ]
    );
    // the empty glyph was given an empty place, and is not drawn
    assert_eq!(c.get(67), Some(&AtlasRect { x: 15, y: 0, width: 0, height: 7 }));
}

#[test]
fn full_atlas_places_nothing() {
    let mut c = GlyphCache::new(10, 10);
    let cells = vec![cell(1, true), cell(2, true)];
    let sizes = vec![(10, 8), (10, 8)];
    assert_eq!(place_glyphs(&mut c, &cells, &sizes), None);
    assert!(c.get(1).is_some());
    assert_eq!(c.get(2), None);
}

#[test]
fn pen_past_the_edge_places_nothing() {
    let mut c = GlyphCache::new(10, 100);
    let cells = vec![cell(1, true), cell(2, true)];
    let sizes = vec![(12, 3), (1, 1)];
    assert_eq!(place_glyphs(&mut c, &cells, &sizes), None);
}
