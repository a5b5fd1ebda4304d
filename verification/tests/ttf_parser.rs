use rime::ttf::font::{GlyphBounds, GlyphPoint};
use rime::ttf::parser::TTFParser;
use rime::ttf::parser_errors::TableParsingError;
use rime::window::text_engine::TextEngine;

fn put_u16(b: &mut Vec<u8>, v: u16) {
    b.extend_from_slice(&v.to_be_bytes());
}

fn put_i16(b: &mut Vec<u8>, v: i16) {
    b.extend_from_slice(&v.to_be_bytes());
}

fn put_u32(b: &mut Vec<u8>, v: u32) {
    b.extend_from_slice(&v.to_be_bytes());
}

fn zeros(n: usize) -> Vec<u8> {
    vec![0u8; n]
}

fn set_u16(b: &mut Vec<u8>, at: usize, v: u16) {
    b[at..at + 2].copy_from_slice(&v.to_be_bytes());
}

fn set_i16(b: &mut Vec<u8>, at: usize, v: i16) {
    b[at..at + 2].copy_from_slice(&v.to_be_bytes());
}

struct FontSpec {
    num_glyphs: u16,
    max_elements: u16,
    max_depth: u16,
    num_metrics: u16,
    long_loca: bool,
    cmap: Vec<u8>,
    glyphs: Vec<Vec<u8>>,
    hmtx: Vec<u8>,
    skip_cmap: bool,
}

fn head_table(long_loca: bool) -> Vec<u8> {
    let mut t = zeros(54);
    set_u16(&mut t, 18, 1000);
    set_i16(&mut t, 50, if long_loca { 1 } else { 0 });
    t
}

fn hhea_table(num_metrics: u16) -> Vec<u8> {
    let mut t = zeros(36);
    set_i16(&mut t, 4, 800);
    set_i16(&mut t, 6, -200);
    set_i16(&mut t, 10, 90);
    set_u16(&mut t, 34, num_metrics);
    t
}

fn maxp_table(num_glyphs: u16, max_elements: u16, max_depth: u16) -> Vec<u8> {
    let mut t = zeros(32);
    set_u16(&mut t, 4, num_glyphs);
    set_u16(&mut t, 28, max_elements);
    set_u16(&mut t, 30, max_depth);
    t
}

/// cmap with one format-4 subtable: 'A' -> 1, 'B' -> 2, and the final 0xFFFF segment.
fn cmap_format4() -> Vec<u8> {
    let mut t = Vec::new();
    put_u16(&mut t, 0);
    put_u16(&mut t, 1);
    put_u16(&mut t, 3);
    put_u16(&mut t, 1);
    put_u32(&mut t, 12);
    // subtable at 12
    put_u16(&mut t, 4); // format
    put_u16(&mut t, 32); // length
    put_u16(&mut t, 0); // language
    put_u16(&mut t, 4); // segCountX2
    put_u16(&mut t, 4);
    put_u16(&mut t, 1);
    put_u16(&mut t, 0);
    put_u16(&mut t, 66); // endCode[0]
    put_u16(&mut t, 0xFFFF); // endCode[1]
    put_u16(&mut t, 0); // reservedPad
    put_u16(&mut t, 65); // startCode[0]
    put_u16(&mut t, 0xFFFF); // startCode[1]
    put_i16(&mut t, -64); // idDelta[0]
    put_i16(&mut t, 1); // idDelta[1]
    put_u16(&mut t, 0); // idRangeOffset[0]
    put_u16(&mut t, 0); // idRangeOffset[1]
    t
}

/// cmap with one format-12 subtable: U+1F600..U+1F601 -> 1, 2.
fn cmap_format12() -> Vec<u8> {
    let mut t = Vec::new();
    put_u16(&mut t, 0);
    put_u16(&mut t, 1);
    put_u16(&mut t, 3);
    put_u16(&mut t, 10);
    put_u32(&mut t, 12);
    put_u16(&mut t, 12); // format
    put_u16(&mut t, 0);
    put_u32(&mut t, 28); // length
    put_u32(&mut t, 0); // language
    put_u32(&mut t, 1); // numGroups
    put_u32(&mut t, 0x1F600);
    put_u32(&mut t, 0x1F601);
    put_u32(&mut t, 1);
    t
}

/// A square whose four flags are one flag repeated: (0,0) (200,0) (200,200) (0,200).
fn square_glyph() -> Vec<u8> {
    let mut g = Vec::new();
    put_i16(&mut g, 1);
    put_i16(&mut g, 0);
    put_i16(&mut g, 0);
    put_i16(&mut g, 200);
    put_i16(&mut g, 200);
    put_u16(&mut g, 3); // endPts
    put_u16(&mut g, 0); // no instructions
    g.push(0x01 | 0x08);
    g.push(3);
    for x in [0i16, 200, 0, -200] {
        put_i16(&mut g, x);
    }
    for y in [0i16, 0, 200, 0] {
        put_i16(&mut g, y);
    }
    g
}

/// A triangle with short and repeated coordinates: (0,0) (100,0) (50,100).
fn triangle_glyph() -> Vec<u8> {
    let mut g = Vec::new();
    put_i16(&mut g, 1);
    put_i16(&mut g, 0);
    put_i16(&mut g, 0);
    put_i16(&mut g, 100);
    put_i16(&mut g, 100);
    put_u16(&mut g, 2);
    put_u16(&mut g, 2); // two instruction bytes
    g.push(0xB0);
    g.push(0x01);
    g.push(0x31);
    g.push(0x33);
    g.push(0x27);
    g.push(100);
    g.push(50);
    g.push(100);
    g.push(0);
    g
}

/// A compound glyph: glyph `index` moved by (dx, dy); `more` more components follow, all the same.
fn compound_glyph(index: u16, dx: i16, dy: i16, components: usize) -> Vec<u8> {
    let mut g = Vec::new();
    put_i16(&mut g, -1);
    put_i16(&mut g, 0);
    put_i16(&mut g, 0);
    put_i16(&mut g, 200);
    put_i16(&mut g, 150);
    for k in 0..components {
        let more: u16 = if k + 1 < components { 0x20 } else { 0 };
        put_u16(&mut g, 0x0003 | more);
        put_u16(&mut g, index);
        put_i16(&mut g, dx);
        put_i16(&mut g, dy);
    }
    g
}

fn default_spec() -> FontSpec {
    let mut hmtx = Vec::new();
    for (aw, lsb) in [(500u16, 0i16), (600, 10), (650, 20)] {
        put_u16(&mut hmtx, aw);
        put_i16(&mut hmtx, lsb);
    }
    FontSpec {
        num_glyphs: 3,
        max_elements: 2,
        max_depth: 1,
        num_metrics: 3,
        long_loca: false,
        cmap: cmap_format4(),
        glyphs: vec![square_glyph(), triangle_glyph(), compound_glyph(1, 100, 50, 1)],
        hmtx,
        skip_cmap: false,
    }
}

fn build_font(spec: &FontSpec) -> Vec<u8> {
    let mut glyf = Vec::new();
    let mut loca = Vec::new();
    for g in &spec.glyphs {
        if spec.long_loca {
            put_u32(&mut loca, glyf.len() as u32);
        } else {
            put_u16(&mut loca, (glyf.len() / 2) as u16);
        }
        glyf.extend_from_slice(g);
        if glyf.len() % 2 == 1 {
            glyf.push(0);
        }
    }
    if spec.long_loca {
        put_u32(&mut loca, glyf.len() as u32);
    } else {
        put_u16(&mut loca, (glyf.len() / 2) as u16);
    }
    let mut tables: Vec<([u8; 4], Vec<u8>)> = vec![
        (*b"head", head_table(spec.long_loca)),
        (*b"hhea", hhea_table(spec.num_metrics)),
        (*b"maxp", maxp_table(spec.num_glyphs, spec.max_elements, spec.max_depth)),
        (*b"hmtx", spec.hmtx.clone()),
    ];
    if !spec.skip_cmap {
        tables.push((*b"cmap", spec.cmap.clone()));
    }
    tables.push((*b"loca", loca));
    tables.push((*b"glyf", glyf));
    let n = tables.len();
    let mut out = Vec::new();
    put_u32(&mut out, 0x0001_0000);
    put_u16(&mut out, n as u16);
    put_u16(&mut out, 0);
    put_u16(&mut out, 0);
    put_u16(&mut out, 0);
    let mut offset = 12 + 16 * n;
    let mut body = Vec::new();
    for (tag, data) in &tables {
        out.extend_from_slice(tag);
        put_u32(&mut out, 0);
        put_u32(&mut out, offset as u32);
        put_u32(&mut out, data.len() as u32);
        body.extend_from_slice(data);
        offset += data.len();
    }
    out.extend_from_slice(&body);
    out
}

fn pt(x: i16, y: i16) -> GlyphPoint {
    GlyphPoint { x, y, on_curve: true }
}

#[test]
fn parses_font_metrics() {
    let parser = TTFParser::new(build_font(&default_spec())).unwrap();
    let m = parser.font_metric;
    assert_eq!(m.units_per_em, 1000);
    assert!(!m.long_loca);
    assert_eq!(m.layout_info.num_of_metrics, 3);
    assert_eq!(m.layout_info.ascent, 800);
    assert_eq!(m.layout_info.descent, -200);
    assert_eq!(m.layout_info.line_gap, 90);
    assert_eq!(parser.create_font_metrics().unwrap(), m);
}

#[test]
fn reads_memory_requirements() {
    let parser = TTFParser::new(build_font(&default_spec())).unwrap();
    assert!(parser.get_memory_requirements().is_ok());
}

#[test]
fn finds_tables_by_tag() {
    let spec = default_spec();
    let bytes = build_font(&spec);
    let parser = TTFParser::new(bytes).unwrap();
    // head is the first table, right after the seven directory entries
    assert_eq!(parser.get_offset_from_tag(b"head"), Some(12 + 16 * 7));
    assert_eq!(parser.get_offset_from_tag(b"head").unwrap() + 54, parser.get_offset_from_tag(b"hhea").unwrap());
    assert_eq!(parser.get_offset_from_tag(b"post"), None);
}

#[test]
fn fetches_simple_glyph() {
    let mut parser = TTFParser::new(build_font(&default_spec())).unwrap();
    let g = parser.fetch_char_from_cache('A' as u32).unwrap();
    assert_eq!(g.contours, vec![vec![pt(0, 0), pt(100, 0), pt(50, 100)]]);
    assert_eq!(g.bounds, GlyphBounds { x_min: 0, y_min: 0, x_max: 100, y_max: 100 });
    assert!(parser.glyph_cache.contains_key(&('A' as u32)));
}

#[test]
fn fetches_repeated_flags() {
    let mut parser = TTFParser::new(build_font(&default_spec())).unwrap();
    // 'Z' is not mapped: the fallback glyph 0, the square
    let g = parser.fetch_char_from_cache('Z' as u32).unwrap();
    assert_eq!(g.contours, vec![vec![pt(0, 0), pt(200, 0), pt(200, 200), pt(0, 200)]]);
}

#[test]
fn fetches_compound_glyph() {
    let mut parser = TTFParser::new(build_font(&default_spec())).unwrap();
    let g = parser.fetch_char_from_cache('B' as u32).unwrap();
    assert_eq!(g.contours, vec![vec![pt(100, 50), pt(200, 50), pt(150, 150)]]);
    assert_eq!(g.bounds, GlyphBounds { x_min: 0, y_min: 0, x_max: 200, y_max: 150 });
}

#[test]
fn compound_components_are_clamped() {
    let mut spec = default_spec();
    spec.glyphs[2] = compound_glyph(1, 32767, -32768, 1);
    let mut parser = TTFParser::new(build_font(&spec)).unwrap();
    let g = parser.fetch_char_from_cache('B' as u32).unwrap();
    assert_eq!(g.contours, vec![vec![pt(32767, -32768), pt(32767, -32768), pt(32767, -32668)]]);
}

#[test]
fn compound_glyph_with_two_components() {
    let mut spec = default_spec();
    spec.glyphs[2] = compound_glyph(1, 10, 20, 2);
    let mut parser = TTFParser::new(build_font(&spec)).unwrap();
    let g = parser.fetch_char_from_cache('B' as u32).unwrap();
    let moved = vec![pt(10, 20), pt(110, 20), pt(60, 120)];
    assert_eq!(g.contours, vec![moved.clone(), moved]);
}

#[test]
fn too_many_components_are_refused() {
    let mut spec = default_spec();
    spec.max_elements = 0;
    spec.glyphs[2] = compound_glyph(1, 10, 20, 2);
    let mut parser = TTFParser::new(build_font(&spec)).unwrap();
    assert_eq!(
        parser.fetch_char_from_cache('B' as u32).unwrap_err(),
        TableParsingError::CompositeDepthExceeded { count: 1, max: 0 }
    );
}

#[test]
fn too_deep_compound_is_refused() {
    let mut spec = default_spec();
    spec.max_depth = 0;
    let mut parser = TTFParser::new(build_font(&spec)).unwrap();
    assert_eq!(
        parser.fetch_char_from_cache('B' as u32).unwrap_err(),
        TableParsingError::CompositeDepthExceeded { count: 1, max: 0 }
    );
    assert!(!parser.glyph_cache.contains_key(&('B' as u32)));
}

#[test]
fn fetching_twice_gives_the_same_glyph() {
    let mut parser = TTFParser::new(build_font(&default_spec())).unwrap();
    let first = parser.fetch_char_from_cache('B' as u32).unwrap();
    let second = parser.fetch_char_from_cache('B' as u32).unwrap();
    assert_eq!(first.contours, second.contours);
    assert_eq!(first.bounds, second.bounds);
    assert_eq!(parser.glyph_cache.len(), 1);
}

#[test]
fn long_loca_is_read() {
    let mut spec = default_spec();
    spec.long_loca = true;
    let mut parser = TTFParser::new(build_font(&spec)).unwrap();
    assert!(parser.font_metric.long_loca);
    let g = parser.fetch_char_from_cache('A' as u32).unwrap();
    assert_eq!(g.contours, vec![vec![pt(0, 0), pt(100, 0), pt(50, 100)]]);
}

#[test]
fn format12_cmap_is_read() {
    let mut spec = default_spec();
    spec.cmap = cmap_format12();
    let mut parser = TTFParser::new(build_font(&spec)).unwrap();
    let g = parser.fetch_char_from_cache(0x1F601).unwrap();
    assert_eq!(g.contours, vec![vec![pt(100, 50), pt(200, 50), pt(150, 150)]]);
    let g = parser.fetch_char_from_cache(0x1F600).unwrap();
    assert_eq!(g.contours, vec![vec![pt(0, 0), pt(100, 0), pt(50, 100)]]);
}

#[test]
fn short_file_is_refused() {
    let r = TTFParser::new(vec![0u8; 11]);
    assert_eq!(r.err(), Some(TableParsingError::OffsetOutOfBounds { offset: 20, table_len: 11 }));
}

#[test]
fn short_directory_is_refused() {
    let mut bytes = vec![0u8; 12];
    bytes[5] = 2; // two tables, but no room for their entries
    bytes.extend_from_slice(&[0u8; 20]);
    let r = TTFParser::new(bytes);
    assert_eq!(r.err(), Some(TableParsingError::OffsetOutOfBounds { offset: 44, table_len: 32 }));
}

#[test]
fn empty_directory_is_accepted() {
    let parser = TTFParser::new(vec![0u8; 12]).unwrap();
    assert_eq!(parser.font_metric.units_per_em, 0);
    assert_eq!(parser.create_font_metrics().err(), Some(TableParsingError::MalformedTable));
}

#[test]
fn missing_cmap_is_malformed() {
    let mut spec = default_spec();
    spec.skip_cmap = true;
    let mut parser = TTFParser::new(build_font(&spec)).unwrap();
    assert_eq!(parser.fetch_char_from_cache('A' as u32).err(), Some(TableParsingError::MalformedTable));
}

#[test]
fn glyph_id_out_of_range_is_refused() {
    let mut spec = default_spec();
    spec.num_glyphs = 1;
    let mut parser = TTFParser::new(build_font(&spec)).unwrap();
    assert_eq!(
        parser.fetch_char_from_cache('A' as u32).err(),
        Some(TableParsingError::GlyphIdOutOfRange { glyph_id: 1, num_glyphs: 1 })
    );
}

#[test]
fn truncated_glyph_is_out_of_bounds() {
    let mut spec = default_spec();
    // the triangle loses its last coordinate byte, and nothing follows glyf
    spec.glyphs = vec![square_glyph(), triangle_glyph()[..21].to_vec()];
    let mut bytes = build_font(&spec);
    // glyf is the last table; drop its padding byte so the y read runs off the end
    bytes.pop();
    let len = bytes.len();
    let mut parser = TTFParser::new(bytes).unwrap();
    assert_eq!(
        parser.fetch_char_from_cache('A' as u32).err(),
        Some(TableParsingError::OffsetOutOfBounds { offset: len as u32, table_len: len })
    );
}

#[test]
fn points_past_the_last_contour_are_malformed() {
    let mut spec = default_spec();
    let mut g = Vec::new();
    put_i16(&mut g, 0); // no contours, yet one flag is read
    for _ in 0..4 {
        put_i16(&mut g, 0);
    }
    put_u16(&mut g, 0);
    g.push(0x31);
    g.push(0);
    spec.glyphs[1] = g;
    let mut parser = TTFParser::new(build_font(&spec)).unwrap();
    assert_eq!(parser.fetch_char_from_cache('A' as u32).err(), Some(TableParsingError::MalformedTable));
}

#[test]
fn metrics_without_long_metrics_fail() {
    let mut spec = default_spec();
    spec.num_metrics = 0;
    let parser = TTFParser::new(build_font(&spec)).unwrap();
    let mut engine = TextEngine::new(parser);
    assert_eq!(engine.get_advaned_widths('A' as u32), None);
    assert_eq!(
        engine.fetch_glyph('A' as u32).err(),
        Some(TableParsingError::OffsetOutOfBounds { offset: 0, table_len: 0 })
    );
}

#[test]
fn advance_widths_and_bearings() {
    let parser = TTFParser::new(build_font(&default_spec())).unwrap();
    let mut engine = TextEngine::new(parser);
    assert_eq!(engine.get_advaned_widths('A' as u32), Some(600));
    assert_eq!(engine.get_lsb('A' as u32), Some(10));
    assert_eq!(engine.get_lsb('B' as u32), Some(20));
    assert_eq!(engine.get_advaned_widths('B' as u32), Some(650));
    assert_eq!(engine.get_advaned_widths('M' as u32), Some(500));
}

#[test]
fn glyph_past_long_metrics_uses_last_width() {
    let mut spec = default_spec();
    spec.num_metrics = 1;
    let parser = TTFParser::new(build_font(&spec)).unwrap();
    let mut engine = TextEngine::new(parser);
    // glyph 1 is past the one long metric: the last width, 500
    assert_eq!(engine.get_advaned_widths('A' as u32), Some(500));
}

#[test]
fn edges_close_each_contour() {
    let mut parser = TTFParser::new(build_font(&default_spec())).unwrap();
    let g = parser.fetch_char_from_cache('A' as u32).unwrap();
    let edges = g.get_edges();
    assert_eq!(edges, vec![(pt(0, 0), pt(100, 0)), (pt(100, 0), pt(50, 100)), (pt(50, 100), pt(0, 0))]);
}

#[test]
fn duplicate_is_equal() {
    let mut parser = TTFParser::new(build_font(&default_spec())).unwrap();
    let g = parser.fetch_char_from_cache('Z' as u32).unwrap();
    let d = g.duplicate();
    assert_eq!(d.contours, g.contours);
    assert_eq!(d.bounds, g.bounds);
}

/// cmap with one format-4 subtable whose first segment goes through the
/// glyph index array: 'A' -> 2, 'B' -> 1.
fn cmap_format4_with_index_array() -> Vec<u8> {
    let mut t = Vec::new();
    put_u16(&mut t, 0);
    put_u16(&mut t, 1);
    put_u16(&mut t, 0);
    put_u16(&mut t, 3);
    put_u32(&mut t, 12);
    put_u16(&mut t, 4);
    put_u16(&mut t, 36);
    put_u16(&mut t, 0);
    put_u16(&mut t, 4);
    put_u16(&mut t, 4);
    put_u16(&mut t, 1);
    put_u16(&mut t, 0);
    put_u16(&mut t, 66);
    put_u16(&mut t, 0xFFFF);
    put_u16(&mut t, 0);
    put_u16(&mut t, 65);
    put_u16(&mut t, 0xFFFF);
    put_i16(&mut t, 0);
    put_i16(&mut t, 1);
    put_u16(&mut t, 4); // idRangeOffset[0]: to glyphIdArray[0]
    put_u16(&mut t, 0);
    put_u16(&mut t, 2); // glyphIdArray
    put_u16(&mut t, 1);
    t
}

#[test]
fn format4_glyph_index_array_is_read() {
    let mut spec = default_spec();
    spec.cmap = cmap_format4_with_index_array();
    let mut parser = TTFParser::new(build_font(&spec)).unwrap();
    let a = parser.fetch_char_from_cache('A' as u32).unwrap();
    assert_eq!(a.contours, vec![vec![pt(100, 50), pt(200, 50), pt(150, 150)]]);
    let b = parser.fetch_char_from_cache('B' as u32).unwrap();
    assert_eq!(b.contours, vec![vec![pt(0, 0), pt(100, 0), pt(50, 100)]]);
}

#[test]
fn off_sub_and_directory_read_directly() {
    let bytes = build_font(&default_spec());
    let mut parser = TTFParser::new(bytes).unwrap();
    assert!(parser.get_off_sub().is_ok());
    assert!(parser.get_tab_dir().is_ok());
    assert_eq!(parser.get_offset_from_tag(b"glyf").is_some(), true);
}

#[test]
fn format4_odd_range_offset_rounds_down() {
    let mut cmap = cmap_format4_with_index_array();
    // idRangeOffset[0] sits at 12 + 14 + 2 + 6 * 2 = 40 in the table.
    cmap[40] = 0;
    cmap[41] = 5;
    let mut spec = default_spec();
    spec.cmap = cmap;
    let mut parser = TTFParser::new(build_font(&spec)).unwrap();
    let a = parser.fetch_char_from_cache('A' as u32).unwrap();
    assert_eq!(a.contours, vec![vec![pt(100, 50), pt(200, 50), pt(150, 150)]]);
    let b = parser.fetch_char_from_cache('B' as u32).unwrap();
    assert_eq!(b.contours, vec![vec![pt(0, 0), pt(100, 0), pt(50, 100)]]);
}
