//! The TrueType parser: reads the table directory and font-wide data when
//! it is made, and glyph outlines on request.

use std::collections::HashMap;

use vstd::prelude::*;

use crate::ttf::be::{be_u16, be_u32, be_u32_from, i16_at, i8_at, read_i16, read_u8, u16_at, u32_at, u8_at};
use crate::ttf::font::{contours_view, FontMetric, Glyph, GlyphBounds, GlyphPoint, GlyphView, LayoutFontInfo};
use crate::ttf::parser_errors::TableParsingError;
use crate::ttf::tables::{
    absolute, bearings_after, bytes_readable, clamp_i16, cmap_records_from, component_args, component_flag_set, compound_from, contours_from, default_metric, delta_sum, deltas_from, depth_error, dir_entry_matches, directory_error, directory_fits, field_i16, field_u16, field_u32, first_short_entry, first_table_from, flag_set, flags_from, font_limits_of, font_metric_of, format12_from, format12_glyph, format4_from, format4_glyph, format4_hit, glyph_at, glyph_data, glyph_index_of, glyph_location, GlyphSource, header_error, hmtx_result, simple_glyph, table_offset, transform_size, translated, u16s_from, widths_after, wrap_i16,
};

verus! {

/// The glyph index used for code points the font does not map.
const FALLBACK_GLYPH_ID: u32 = 0;

/// The start of a font file: its scaler type and number of tables.
#[derive(Debug, Default)]
pub struct OffsetSubtable {
    scaler_type: u32,
    num_tables: u16,
    search_range: u16,
    entry_selector: u16,
    range_shift: u16,
}

impl OffsetSubtable {
    pub closed spec fn scaler(&self) -> u32 {
        self.scaler_type
    }

    pub closed spec fn table_count(&self) -> u16 {
        self.num_tables
    }

    pub closed spec fn search_range(&self) -> u16 {
        self.search_range
    }

    pub closed spec fn entry_selector(&self) -> u16 {
        self.entry_selector
    }

    pub closed spec fn range_shift(&self) -> u16 {
        self.range_shift
    }
}

/// One entry of the table directory: a table's tag, checksum, offset and length.
#[allow(non_snake_case)]
#[derive(Debug, Default, Clone, Copy)]
pub struct TableDirectory {
    pub tag: [u8; 4],
    pub checkSum: u32,
    pub offset: u32,
    pub length: u32,
}

/// The offset subtable and the table directory.
#[derive(Debug, Default)]
pub struct FontDirectory {
    off_sub: OffsetSubtable,
    table_dir: Vec<TableDirectory>,
}

/// Limits from `maxp`, and the horizontal metrics read so far.
pub struct FontLimits {
    num_glyphs: u16,
    recursion_limits: RecursionLimits,
    pub h_metrics: HorizontalMetrics,
}

/// Advance widths and left side bearings, by code point, as read from `hmtx`.
pub struct HorizontalMetrics {
    advanced_widths: HashMap<u32, u16>,
    left_side_bearings: HashMap<u32, i16>,
}

/// How many components a compound glyph may have, and how deep compound
/// glyphs may nest.
pub struct RecursionLimits {
    max_component_element: u16,
    max_component_depth: u16,
}

/// A parsed font: its bytes, its table directory, its metrics and limits,
/// and the glyphs and horizontal metrics fetched so far.
pub struct TTFParser {
    font_dir: FontDirectory,
    bytes: Vec<u8>,
    pub font_metric: FontMetric,
    pub glyph_cache: HashMap<u32, Glyph>,
    pub font_limits: FontLimits,
}

impl HorizontalMetrics {
    pub closed spec fn widths(&self) -> Map<u32, u16> {
        self.advanced_widths@
    }

    pub closed spec fn bearings(&self) -> Map<u32, i16> {
        self.left_side_bearings@
    }

    fn empty() -> (r: HorizontalMetrics)
        ensures
            r.widths() == Map::<u32, u16>::empty(),
            r.bearings() == Map::<u32, i16>::empty(),
    {
        HorizontalMetrics { advanced_widths: HashMap::new(), left_side_bearings: HashMap::new() }
    }

    /// The advance width recorded for `codepoint`.
    fn advance_width(&self, codepoint: u32) -> (r: Option<u16>)
        ensures
            r == (if self.widths().contains_key(codepoint) { Some(self.widths()[codepoint]) } else { None::<u16> }),
    {
        match self.advanced_widths.get(&codepoint) {
            Some(v) => Some(*v),
            None => None,
        }
    }

    /// The left side bearing recorded for `codepoint`.
    fn left_side_bearing(&self, codepoint: u32) -> (r: Option<i16>)
        ensures
            r == (if self.bearings().contains_key(codepoint) { Some(self.bearings()[codepoint]) } else { None::<i16> }),
    {
        match self.left_side_bearings.get(&codepoint) {
            Some(v) => Some(*v),
            None => None,
        }
    }
}

impl FontLimits {
    pub closed spec fn glyph_count(&self) -> u16 {
        self.num_glyphs
    }

    pub closed spec fn max_elements(&self) -> u16 {
        self.recursion_limits.max_component_element
    }

    pub closed spec fn max_depth(&self) -> u16 {
        self.recursion_limits.max_component_depth
    }

    pub closed spec fn widths(&self) -> Map<u32, u16> {
        self.h_metrics.widths()
    }

    pub closed spec fn bearings(&self) -> Map<u32, i16> {
        self.h_metrics.bearings()
    }
}

/// A table tag made of four bytes.
fn tag(a: u8, b: u8, c: u8, d: u8) -> (t: [u8; 4])
    ensures
        t@ == seq![a, b, c, d],
{
    let t = [a, b, c, d];
    assert(t@ =~= seq![a, b, c, d]);
    t
}

impl TTFParser {
    pub closed spec fn bytes_view(&self) -> Seq<u8> {
        self.bytes@
    }

    pub closed spec fn directory(&self) -> Seq<TableDirectory> {
        self.font_dir.table_dir@
    }

    pub closed spec fn offset_subtable(&self) -> OffsetSubtable {
        self.font_dir.off_sub
    }

    pub closed spec fn metric(&self) -> FontMetric {
        self.font_metric
    }

    /// The glyphs fetched so far, by code point.
    pub closed spec fn cache(&self) -> Map<u32, Glyph> {
        self.glyph_cache@
    }

    /// The advance widths read so far, by code point.
    pub closed spec fn widths(&self) -> Map<u32, u16> {
        self.font_limits.h_metrics.widths()
    }

    /// The left side bearings read so far, by code point.
    pub closed spec fn bearings(&self) -> Map<u32, i16> {
        self.font_limits.h_metrics.bearings()
    }

    pub closed spec fn glyph_count(&self) -> u16 {
        self.font_limits.glyph_count()
    }

    pub closed spec fn max_elements(&self) -> u16 {
        self.font_limits.max_elements()
    }

    pub closed spec fn max_depth(&self) -> u16 {
        self.font_limits.max_depth()
    }

    /// What this parser reads glyph outlines from.
    pub open spec fn source(&self) -> GlyphSource {
        GlyphSource {
            bytes: self.bytes_view(),
            dir: self.directory(),
            long_loca: self.metric().long_loca,
            max_depth: self.max_depth(),
            max_elements: self.max_elements(),
        }
    }

    /// `self` and `other` hold the same font: bytes, directory, metrics and limits.
    pub open spec fn same_font(&self, other: &TTFParser) -> bool {
        &&& self.bytes_view() == other.bytes_view()
        &&& self.directory() == other.directory()
        &&& self.offset_subtable() == other.offset_subtable()
        &&& self.metric() == other.metric()
        &&& self.glyph_count() == other.glyph_count()
        &&& self.max_elements() == other.max_elements()
        &&& self.max_depth() == other.max_depth()
    }

    /// `self` and `other` also hold the same fetched glyphs and metrics.
    pub open spec fn same_state(&self, other: &TTFParser) -> bool {
        &&& self.same_font(other)
        &&& self.cache() == other.cache()
        &&& self.widths() == other.widths()
        &&& self.bearings() == other.bearings()
    }

    /// The offset of the first table tagged `tag`.
    pub fn get_offset_from_tag(&self, tag: &[u8; 4]) -> (r: Option<u32>)
        ensures
            r == table_offset(self.directory(), tag@),
    {
        let n = self.font_dir.table_dir.len();
        let mut i: usize = 0;
        while i < n
            invariant
                n == self.directory().len(),
                i <= n,
                table_offset(self.directory(), tag@) == first_table_from(self.directory(), tag@, i as int),
            decreases n - i,
        {
            let t = &self.font_dir.table_dir[i];
            if t.tag[0] == tag[0] && t.tag[1] == tag[1] && t.tag[2] == tag[2] && t.tag[3] == tag[3] {
                assert(t.tag@ =~= tag@);
                return Some(t.offset);
            }
            assert(t.tag@ != tag@) by {
                if t.tag@ == tag@ {
                    assert(t.tag@[0] == tag@[0]);
                    assert(t.tag@[1] == tag@[1]);
                    assert(t.tag@[2] == tag@[2]);
                    assert(t.tag@[3] == tag@[3]);
                }
            }
            i = i + 1;
        }
        None
    }

    fn field_u16_at(&self, tag: &[u8; 4], field: u64) -> (r: Result<u16, TableParsingError>)
        requires
            field <= u32::MAX as u64 * 2,
        ensures
            r == field_u16(self.bytes_view(), self.directory(), tag@, field as int),
    {
        match self.get_offset_from_tag(tag) {
            None => Err(TableParsingError::MalformedTable),
            Some(o) => u16_at(&self.bytes, o as u64 + field),
        }
    }

    fn field_i16_at(&self, tag: &[u8; 4], field: u64) -> (r: Result<i16, TableParsingError>)
        requires
            field <= u32::MAX as u64 * 2,
        ensures
            r == field_i16(self.bytes_view(), self.directory(), tag@, field as int),
    {
        match self.get_offset_from_tag(tag) {
            None => Err(TableParsingError::MalformedTable),
            Some(o) => i16_at(&self.bytes, o as u64 + field),
        }
    }

    fn field_u32_at(&self, tag: &[u8; 4], field: u64) -> (r: Result<u32, TableParsingError>)
        requires
            field <= u32::MAX as u64 * 2,
        ensures
            r == field_u32(self.bytes_view(), self.directory(), tag@, field as int),
    {
        match self.get_offset_from_tag(tag) {
            None => Err(TableParsingError::MalformedTable),
            Some(o) => u32_at(&self.bytes, o as u64 + field),
        }
    }

    /// Reads the scaler type and the number of tables from the first bytes.
    pub fn get_off_sub(&mut self) -> (r: Result<(), TableParsingError>)
        ensures
            final(self).bytes_view() == old(self).bytes_view(),
            final(self).directory() == old(self).directory(),
            final(self).metric() == old(self).metric(),
            final(self).glyph_count() == old(self).glyph_count(),
            final(self).max_elements() == old(self).max_elements(),
            final(self).max_depth() == old(self).max_depth(),
            final(self).cache() == old(self).cache(),
            final(self).widths() == old(self).widths(),
            final(self).bearings() == old(self).bearings(),
            old(self).bytes_view().len() < 12 ==> r == Err::<(), TableParsingError>(header_error(old(self).bytes_view().len()))
                && final(self).offset_subtable() == old(self).offset_subtable(),
            old(self).bytes_view().len() >= 12 ==> r is Ok
                && final(self).offset_subtable().scaler() == be_u32(old(self).bytes_view(), 0)
                && final(self).offset_subtable().table_count() == be_u16(old(self).bytes_view(), 4),
            final(self).offset_subtable().search_range() == old(self).offset_subtable().search_range(),
            final(self).offset_subtable().entry_selector() == old(self).offset_subtable().entry_selector(),
            final(self).offset_subtable().range_shift() == old(self).offset_subtable().range_shift(),
    {
        if self.bytes.len() < 12 {
            return Err(TableParsingError::OffsetOutOfBounds { offset: 20, table_len: self.bytes.len() });
        }
        let b0 = self.bytes[0] as u32;
        let b1 = self.bytes[1] as u32;
        let b2 = self.bytes[2] as u32;
        let b3 = self.bytes[3] as u32;
        self.font_dir.off_sub.scaler_type = b0 * 16777216 + b1 * 65536 + b2 * 256 + b3;
        let c0 = self.bytes[4] as u16;
        let c1 = self.bytes[5] as u16;
        self.font_dir.off_sub.num_tables = c0 * 256 + c1;
        Ok(())
    }

    /// Reads the table directory that follows the offset subtable.
    pub fn get_tab_dir(&mut self) -> (r: Result<(), TableParsingError>)
        ensures
            final(self).bytes_view() == old(self).bytes_view(),
            final(self).offset_subtable() == old(self).offset_subtable(),
            final(self).metric() == old(self).metric(),
            final(self).glyph_count() == old(self).glyph_count(),
            final(self).max_elements() == old(self).max_elements(),
            final(self).max_depth() == old(self).max_depth(),
            final(self).cache() == old(self).cache(),
            final(self).widths() == old(self).widths(),
            final(self).bearings() == old(self).bearings(),
            ({
                let b = old(self).bytes_view();
                let n = old(self).offset_subtable().table_count();
                if directory_fits(b.len(), n as nat) {
                    &&& r is Ok
                    &&& final(self).directory().len() == n
                    &&& forall|i: int| 0 <= i < n ==> dir_entry_matches(b, i, #[trigger] final(self).directory()[i])
                } else {
                    &&& r == Err::<(), TableParsingError>(directory_error(b.len()))
                    &&& final(self).directory() == old(self).directory()
                }
            }),
    {
        let ghost b = self.bytes@;
        let n: usize = self.font_dir.off_sub.num_tables as usize;
        let len: usize = self.bytes.len();
        let mut dir: Vec<TableDirectory> = Vec::new();
        for i in 0..n
            invariant
                b == self.bytes@,
                len == b.len(),
                n == self.font_dir.off_sub.num_tables,
                dir@.len() == i,
                i > 0 ==> 12 + 16 * i <= len,
                forall|k: int| 0 <= k < i ==> dir_entry_matches(b, k, #[trigger] dir@[k]),
                first_short_entry(b.len()) >= i,
        {
            let e: usize = 12 + i * 16;
            if len < e + 16 {
                assert(first_short_entry(b.len()) == i);
                return Err(TableParsingError::OffsetOutOfBounds { offset: (e + 16) as u32, table_len: len });
            }
            let t = TableDirectory {
                tag: tag(self.bytes[e], self.bytes[e + 1], self.bytes[e + 2], self.bytes[e + 3]),
                checkSum: be_u32_from(&self.bytes, e + 4),
                offset: be_u32_from(&self.bytes, e + 8),
                length: be_u32_from(&self.bytes, e + 12),
            };
            assert(t.tag@ =~= b.subrange(e as int, e + 4));
            dir.push(t);
        }
        self.font_dir.table_dir = dir;
        Ok(())
    }
}

impl TTFParser {
    /// Reads the font metrics from the `head` and `hhea` tables.
    pub fn create_font_metrics(&self) -> (r: Result<FontMetric, TableParsingError>)
        ensures
            r == font_metric_of(self.bytes_view(), self.directory()),
    {
        let head = tag(104, 101, 97, 100);
        let hhea = tag(104, 104, 101, 97);
        let units_per_em = self.field_u16_at(&head, 18)?;
        let index_to_loc_format = self.field_i16_at(&head, 50)?;
        let long_loca = index_to_loc_format != 0;
        let num_of_metrics = self.field_u16_at(&hhea, 34)?;
        let ascent = self.field_i16_at(&hhea, 4)?;
        let descent = self.field_i16_at(&hhea, 6)?;
        let line_gap = self.field_i16_at(&hhea, 10)?;
        Ok(FontMetric {
            units_per_em,
            long_loca,
            layout_info: LayoutFontInfo { num_of_metrics, ascent, descent, line_gap },
        })
    }

    /// Reads the number of glyphs and the compound glyph limits from `maxp`.
    pub fn get_memory_requirements(&self) -> (r: Result<FontLimits, TableParsingError>)
        ensures
            match font_limits_of(self.bytes_view(), self.directory()) {
                Err(e) => r == Err::<FontLimits, TableParsingError>(e),
                Ok((g, e, d)) => r matches Ok(l) && l.glyph_count() == g && l.max_elements() == e
                    && l.max_depth() == d && l.widths() == Map::<u32, u16>::empty()
                    && l.bearings() == Map::<u32, i16>::empty(),
            },
    {
        let maxp = tag(109, 97, 120, 112);
        let num_glyphs = self.field_u16_at(&maxp, 4)?;
        let max_component_element = self.field_u16_at(&maxp, 28)?;
        let max_component_depth = self.field_u16_at(&maxp, 30)?;
        Ok(FontLimits {
            num_glyphs,
            recursion_limits: RecursionLimits { max_component_element, max_component_depth },
            h_metrics: HorizontalMetrics::empty(),
        })
    }

    /// Reads the font metrics, or takes all-zero metrics where they cannot be read.
    fn parse_ttf_content(&mut self)
        ensures
            final(self).bytes_view() == old(self).bytes_view(),
            final(self).directory() == old(self).directory(),
            final(self).offset_subtable() == old(self).offset_subtable(),
            final(self).glyph_count() == old(self).glyph_count(),
            final(self).max_elements() == old(self).max_elements(),
            final(self).max_depth() == old(self).max_depth(),
            final(self).cache() == old(self).cache(),
            final(self).widths() == old(self).widths(),
            final(self).bearings() == old(self).bearings(),
            final(self).metric() == (match font_metric_of(old(self).bytes_view(), old(self).directory()) {
                Ok(m) => m,
                Err(_) => default_metric(),
            }),
    {
        self.font_metric = match self.create_font_metrics() {
            Ok(val) => val,
            Err(_) => FontMetric {
                units_per_em: 0,
                long_loca: false,
                layout_info: LayoutFontInfo { num_of_metrics: 0, ascent: 0, descent: 0, line_gap: 0 },
            },
        };
    }

    /// Parses a font file's bytes: the offset subtable and the table
    /// directory must be there; the metrics and the limits are read where
    /// they can be, and are all zero where they cannot.
    pub fn new(bytes: Vec<u8>) -> (r: Result<Self, TableParsingError>)
        ensures
            ({
                let b = bytes@;
                let n = be_u16(b, 4);
                if b.len() < 12 {
                    r == Err::<Self, TableParsingError>(header_error(b.len()))
                } else if !directory_fits(b.len(), n as nat) {
                    r == Err::<Self, TableParsingError>(directory_error(b.len()))
                } else {
                    r matches Ok(p) && p.is_parsed_from(b)
                }
            }),
    {
        let mut ret = TTFParser {
            font_dir: FontDirectory {
                off_sub: OffsetSubtable {
                    scaler_type: 0,
                    num_tables: 0,
                    search_range: 0,
                    entry_selector: 0,
                    range_shift: 0,
                },
                table_dir: Vec::new(),
            },
            bytes,
            font_metric: FontMetric {
                units_per_em: 0,
                long_loca: false,
                layout_info: LayoutFontInfo { num_of_metrics: 0, ascent: 0, descent: 0, line_gap: 0 },
            },
            glyph_cache: HashMap::new(),
            font_limits: FontLimits {
                num_glyphs: 0,
                recursion_limits: RecursionLimits { max_component_element: 0, max_component_depth: 0 },
                h_metrics: HorizontalMetrics::empty(),
            },
        };
        ret.get_off_sub()?;
        ret.get_tab_dir()?;
        ret.parse_ttf_content();
        let font_limits = match ret.get_memory_requirements() {
            Ok(val) => val,
            Err(_) => FontLimits {
                num_glyphs: 0,
                recursion_limits: RecursionLimits { max_component_element: 0, max_component_depth: 0 },
                h_metrics: HorizontalMetrics::empty(),
            },
        };
        ret.font_limits = font_limits;
        Ok(ret)
    }

    /// What parsing `b` gives: the offset subtable's scaler type and table
    /// count, the directory entries, the metrics and limits (all zero where
    /// unreadable), and nothing fetched yet.
    pub open spec fn is_parsed_from(&self, b: Seq<u8>) -> bool {
        let n = be_u16(b, 4);
        let dir = self.directory();
        &&& self.bytes_view() == b
        &&& self.offset_subtable().scaler() == be_u32(b, 0)
        &&& self.offset_subtable().table_count() == n
        &&& dir.len() == n
        &&& forall|i: int| 0 <= i < n ==> dir_entry_matches(b, i, #[trigger] dir[i])
        &&& self.metric() == (match font_metric_of(b, dir) {
            Ok(m) => m,
            Err(_) => default_metric(),
        })
        &&& match font_limits_of(b, dir) {
            Ok((g, e, d)) => self.glyph_count() == g && self.max_elements() == e && self.max_depth() == d,
            Err(_) => self.glyph_count() == 0 && self.max_elements() == 0 && self.max_depth() == 0,
        }
        &&& self.cache() == Map::<u32, Glyph>::empty()
        &&& self.widths() == Map::<u32, u16>::empty()
        &&& self.bearings() == Map::<u32, i16>::empty()
    }
}

/// `r` is what the spec result `s` describes: the same deltas and end, or the same error.
pub open spec fn same_deltas(r: Result<(Vec<i16>, u64), TableParsingError>, s: Result<(Seq<i16>, int), TableParsingError>) -> bool {
    match s {
        Ok((d, end)) => r matches Ok((v, c)) && v@ == d && c == end,
        Err(e) => r == Err::<(Vec<i16>, u64), TableParsingError>(e),
    }
}

/// `r` is the glyph the spec result `s` describes, or the same error.
pub open spec fn same_glyph(r: Result<Glyph, TableParsingError>, s: Result<GlyphView, TableParsingError>) -> bool {
    match s {
        Ok(g) => r matches Ok(x) && x@ == g,
        Err(e) => r == Err::<Glyph, TableParsingError>(e),
    }
}

/// Absolute coordinates from deltas: each the running sum, wrapping as `i16`.
fn running_sums(d: &Vec<i16>) -> (r: Vec<i16>)
    ensures
        r@ == absolute(d@),
{
    let mut out: Vec<i16> = Vec::new();
    let mut acc: i16 = 0;
    for k in 0..d.len()
        invariant
            out@.len() == k,
            acc == delta_sum(d@, k as int),
            forall|j: int| 0 <= j < k ==> #[trigger] out@[j] == delta_sum(d@, j + 1),
    {
        let s: i32 = acc as i32 + d[k] as i32;
        let w: i32 = if s > 32767 {
            s - 65536
        } else if s < -32768 {
            s + 65536
        } else {
            s
        };
        assert(w == wrap_i16(acc + d@[k as int])) by {
            assert(-65536 <= s <= 65534);
        }
        acc = w as i16;
        out.push(acc);
    }
    assert(out@ =~= absolute(d@));
    out
}

impl TTFParser {
    /// Reads one coordinate delta per flag, from `start_address` on; bit
    /// `short_vector` and bit `is_same` of each flag say how it is stored.
    fn parse_glyf_coordinates(&self, flags: &Vec<u8>, start_address: u64, short_vector: u8, is_same: u8) -> (r: Result<(Vec<i16>, u64), TableParsingError>)
        requires
            short_vector < 8,
            is_same < 8,
        ensures
            same_deltas(r, deltas_from(self.bytes_view(), flags@, 0, start_address as int, short_vector, is_same, Seq::empty())),
    {
        let ghost b = self.bytes_view();
        let len: usize = self.bytes.len();
        let mut coordinate_vec: Vec<i16> = Vec::new();
        let mut cursor: u64 = start_address;
        for i in 0..flags.len()
            invariant
                b == self.bytes_view(),
                len == b.len(),
                short_vector < 8,
                is_same < 8,
                deltas_from(b, flags@, 0, start_address as int, short_vector, is_same, Seq::empty())
                    == deltas_from(b, flags@, i as int, cursor as int, short_vector, is_same, coordinate_vec@),
        {
            let flag: u8 = flags[i];
            let is_short = (flag >> short_vector) & 1 == 1;
            let is_same_or_positive = (flag >> is_same) & 1 == 1;
            if is_short {
                let val: u8 = u8_at(&self.bytes, cursor)?;
                let delta: i16 = if is_same_or_positive { val as i16 } else { -(val as i16) };
                coordinate_vec.push(delta);
                cursor = cursor + 1;
            } else if is_same_or_positive {
                coordinate_vec.push(0);
            } else {
                let val: i16 = i16_at(&self.bytes, cursor)?;
                coordinate_vec.push(val);
                cursor = cursor + 2;
            }
        }
        Ok((coordinate_vec, cursor))
    }

    /// Groups the points into contours, each closed at the index its
    /// contour end gives.
    fn construct_glyph(
        flags: &Vec<u8>,
        x_deltas: &Vec<i16>,
        y_deltas: &Vec<i16>,
        end_pts_of_contours: &Vec<u16>,
        glyph_bounds: GlyphBounds,
    ) -> (r: Result<Glyph, TableParsingError>)
        requires
            x_deltas@.len() >= flags@.len(),
            y_deltas@.len() >= flags@.len(),
        ensures
            same_glyph(r, match contours_from(flags@, x_deltas@, y_deltas@, end_pts_of_contours@, 0, 0, Seq::empty(), Seq::empty()) {
                Ok(cs) => Ok(GlyphView { contours: cs, bounds: glyph_bounds }),
                Err(e) => Err(e),
            }),
    {
        let mut contours: Vec<Vec<GlyphPoint>> = Vec::new();
        let mut current_contour: Vec<GlyphPoint> = Vec::new();
        let mut contour_index: usize = 0;
        let ghost spec_result = contours_from(flags@, x_deltas@, y_deltas@, end_pts_of_contours@, 0, 0, Seq::empty(), Seq::empty());
        assert(contours_view(contours@) =~= Seq::<Seq<GlyphPoint>>::empty());
        for i in 0..flags.len()
            invariant
                x_deltas@.len() >= flags@.len(),
                y_deltas@.len() >= flags@.len(),
                spec_result == contours_from(flags@, x_deltas@, y_deltas@, end_pts_of_contours@, 0, 0, Seq::empty(), Seq::empty()),
                spec_result == contours_from(flags@, x_deltas@, y_deltas@, end_pts_of_contours@, i as int, contour_index as int, current_contour@, contours_view(contours@)),
                contour_index <= end_pts_of_contours@.len(),
        {
            let flag: u8 = flags[i];
            let on_curve = (flag >> 0u8) & 1 == 1;
            let point = GlyphPoint { x: x_deltas[i], y: y_deltas[i], on_curve };
            current_contour.push(point);
            if contour_index >= end_pts_of_contours.len() {
                assert(spec_result == Err::<Seq<Seq<GlyphPoint>>, TableParsingError>(TableParsingError::MalformedTable));
                return Err(TableParsingError::MalformedTable);
            }
            let current_contour_point: usize = end_pts_of_contours[contour_index] as usize;
            if i == current_contour_point {
                let ghost before = contours@;
                let c = current_contour;
                current_contour = Vec::new();
                contours.push(c);
                assert(contours_view(contours@) =~= contours_view(before).push(c@));
                contour_index = contour_index + 1;
            }
        }
        assert(spec_result == Ok::<Seq<Seq<GlyphPoint>>, TableParsingError>(contours_view(contours@)));
        let glyph = Glyph { contours, bounds: glyph_bounds };
        assert(glyph@.contours == contours_view(contours@));
        Ok(glyph)
    }
}

impl TTFParser {
    /// Where glyph `glyph_id`'s data starts and ends inside `glyf`, from
    /// `loca` in its long or short form.
    fn get_offset_glyph_bytes(&self, glyph_id: u32, long: bool) -> (r: Result<(u32, u32), TableParsingError>)
        ensures
            r == glyph_location(self.bytes_view(), self.directory(), glyph_id as int, long),
    {
        let loca = tag(108, 111, 99, 97);
        let loca_base: u32 = match self.get_offset_from_tag(&loca) {
            Some(o) => o,
            None => return Err(TableParsingError::MalformedTable),
        };
        if long {
            let offset: u64 = loca_base as u64 + glyph_id as u64 * 4;
            let start_offset: u32 = u32_at(&self.bytes, offset)?;
            let end_offset: u32 = u32_at(&self.bytes, offset + 4)?;
            Ok((start_offset, end_offset))
        } else {
            let offset: u64 = loca_base as u64 + glyph_id as u64 * 2;
            let b1: u16 = u16_at(&self.bytes, offset)?;
            let b2: u16 = u16_at(&self.bytes, offset + 2)?;
            Ok((b1 as u32 * 2, b2 as u32 * 2))
        }
    }

    /// Reads a simple glyph whose header starts at `glyph_start` and declares
    /// `num_of_contours` contours: contour ends, instructions, point flags,
    /// x and y coordinates.
    #[verifier::loop_isolation(false)]
    fn parse_simple_glyph(&self, glyph_start: u64, num_of_contours: u16, glyph_bounds: GlyphBounds) -> (r: Result<Glyph, TableParsingError>)
        requires
            glyph_start <= u32::MAX as u64 * 2,
            num_of_contours < 32768,
        ensures
            same_glyph(r, simple_glyph(self.bytes_view(), glyph_start as int, num_of_contours as int, glyph_bounds)),
    {
        let ghost b = self.bytes_view();
        let len: usize = self.bytes.len();
        let ends_at: u64 = glyph_start + 10;
        let mut end_pts_of_contours: Vec<u16> = Vec::new();
        for i in 0..num_of_contours
            invariant
                b == self.bytes_view(),
                ends_at == glyph_start + 10,
                glyph_start <= u32::MAX as u64 * 2,
                u16s_from(b, ends_at as int, 0, num_of_contours as int, Seq::empty())
                    == u16s_from(b, ends_at as int, i as int, num_of_contours as int, end_pts_of_contours@),
        {
            let end_point: u16 = u16_at(&self.bytes, ends_at + i as u64 * 2)?;
            end_pts_of_contours.push(end_point);
        }
        let ghost ends = end_pts_of_contours@;
        assert(u16s_from(b, ends_at as int, 0, num_of_contours as int, Seq::empty()) == Ok::<Seq<u16>, TableParsingError>(ends));

        let instruction_len_addr: u64 = ends_at + num_of_contours as u64 * 2;
        let instruction_len: u16 = u16_at(&self.bytes, instruction_len_addr)?;
        let instructions_at: u64 = instruction_len_addr + 2;
        for i in 0..instruction_len
            invariant
                b == self.bytes_view(),
                len == b.len(),
                instructions_at <= u32::MAX as u64 * 3,
                i == 0 || instructions_at + i <= len,
        {
            let r = u8_at(&self.bytes, instructions_at + i as u64);
            if let Err(e) = r {
                assert(bytes_readable(b, instructions_at as int, instruction_len as int) == Err::<(), TableParsingError>(e));
                return Err(e);
            }
        }
        assert(bytes_readable(b, instructions_at as int, instruction_len as int) == Ok::<(), TableParsingError>(()));

        let flag_length: u32 = if end_pts_of_contours.len() == 0 {
            1
        } else {
            end_pts_of_contours[end_pts_of_contours.len() - 1] as u32 + 1
        };
        let flag_base_addr: u64 = instructions_at + instruction_len as u64;
        let mut flags: Vec<u8> = Vec::new();
        let mut flag_mark: u64 = flag_base_addr;
        while (flags.len() as u64) < flag_length as u64
            invariant
                b == self.bytes_view(),
                len == b.len(),
                flag_length <= 65536,
                flags@.len() <= flag_length + 256,
                flags_from(b, flag_base_addr as int, flag_length as int, Seq::empty())
                    == flags_from(b, flag_mark as int, flag_length as int, flags@),
            decreases (if flag_length > flags@.len() { flag_length - flags@.len() } else { 0 }),
        {
            let flag: u8 = u8_at(&self.bytes, flag_mark)?;
            if (flag >> 3u8) & 1 == 1 {
                let repeat_count: u8 = u8_at(&self.bytes, flag_mark + 1)?;
                let ghost before = flags@;
                let times: u16 = repeat_count as u16 + 1;
                let mut k: u16 = 0;
                while k < times
                    invariant
                        k <= times,
                        times == repeat_count + 1,
                        flags@ == before + Seq::new(k as nat, |_j: int| flag),
                    decreases times - k,
                {
                    flags.push(flag);
                    k = k + 1;
                    assert(flags@ =~= before + Seq::new(k as nat, |_j: int| flag));
                }
                flag_mark = flag_mark + 2;
            } else {
                flags.push(flag);
                flag_mark = flag_mark + 1;
            }
        }
        assert(flags_from(b, flag_base_addr as int, flag_length as int, Seq::empty())
            == Ok::<(Seq<u8>, int), TableParsingError>((flags@, flag_mark as int)));

        let (x_deltas, x_end_addr) = self.parse_glyf_coordinates(&flags, flag_mark, 1, 4)?;
        let (y_deltas, _y_end_addr) = self.parse_glyf_coordinates(&flags, x_end_addr, 2, 5)?;
        proof {
            lemma_deltas_len(b, flags@, 0, flag_mark as int, 1, 4, Seq::empty());
            lemma_deltas_len(b, flags@, 0, x_end_addr as int, 2, 5, Seq::empty());
        }
        let final_x = running_sums(&x_deltas);
        let final_y = running_sums(&y_deltas);
        Self::construct_glyph(&flags, &final_x, &final_y, &end_pts_of_contours, glyph_bounds)
    }
}

/// The deltas read for flags `k..` add one entry per flag to `acc`.
proof fn lemma_deltas_len(b: Seq<u8>, flags: Seq<u8>, k: int, cursor: int, short: u8, same: u8, acc: Seq<i16>)
    requires
        0 <= k <= flags.len(),
    ensures
        deltas_from(b, flags, k, cursor, short, same, acc) matches Ok((d, _c)) ==> d.len() == acc.len() + flags.len() - k,
    decreases flags.len() - k,
{
    if k < flags.len() {
        let f = flags[k];
        if flag_set(f, short) {
            if let Ok(v) = read_u8(b, cursor) {
                lemma_deltas_len(b, flags, k + 1, cursor + 1, short, same,
                    acc.push(if flag_set(f, same) { v as i16 } else { (-v) as i16 }));
            }
        } else if flag_set(f, same) {
            lemma_deltas_len(b, flags, k + 1, cursor, short, same, acc.push(0i16));
        } else {
            if let Ok(v) = read_i16(b, cursor) {
                lemma_deltas_len(b, flags, k + 1, cursor + 2, short, same, acc.push(v));
            }
        }
    }
}

/// `v` moved by `d`, clamped into the range of `i16`.
fn clamp_coord(v: i16, d: i32) -> (r: i16)
    requires
        -32768 <= d <= 32767,
    ensures
        r == clamp_i16(v + d),
{
    let s: i32 = v as i32 + d;
    if s < -32768 {
        -32768
    } else if s > 32767 {
        32767
    } else {
        s as i16
    }
}

/// Every point of `cs` moved by `(dx, dy)`, clamped into the range of `i16`.
fn translate_contours(cs: &Vec<Vec<GlyphPoint>>, dx: i32, dy: i32) -> (r: Vec<Vec<GlyphPoint>>)
    requires
        -32768 <= dx <= 32767,
        -32768 <= dy <= 32767,
    ensures
        contours_view(r@) == translated(contours_view(cs@), dx as int, dy as int),
{
    let ghost target = translated(contours_view(cs@), dx as int, dy as int);
    let mut out: Vec<Vec<GlyphPoint>> = Vec::new();
    for j in 0..cs.len()
        invariant
            -32768 <= dx <= 32767,
            -32768 <= dy <= 32767,
            target == translated(contours_view(cs@), dx as int, dy as int),
            out@.len() == j,
            forall|k: int| 0 <= k < j ==> #[trigger] out@[k]@ == target[k],
    {
        let src = &cs[j];
        let mut moved: Vec<GlyphPoint> = Vec::new();
        for i in 0..src.len()
            invariant
                -32768 <= dx <= 32767,
                -32768 <= dy <= 32767,
                moved@.len() == i,
                forall|k: int| 0 <= k < i ==> #[trigger] moved@[k] == (GlyphPoint {
                    x: clamp_i16(src@[k].x + dx),
                    y: clamp_i16(src@[k].y + dy),
                    on_curve: src@[k].on_curve,
                }),
        {
            let p = src[i];
            moved.push(GlyphPoint { x: clamp_coord(p.x, dx), y: clamp_coord(p.y, dy), on_curve: p.on_curve });
        }
        assert(moved@ =~= target[j as int]);
        out.push(moved);
    }
    assert(contours_view(out@) =~= target);
    out
}

/// Whether bit `bit` of `value` is set.
fn get_bit(value: u16, bit: u8) -> (r: bool)
    requires
        bit < 16,
    ensures
        r == component_flag_set(value, bit),
{
    (value >> bit) & 1 == 1
}

impl TTFParser {
    /// The outline of glyph `glyph_id`, read as a component nested `depth` deep.
    fn glyph_outline(&self, glyph_id: u32, depth: u32) -> (r: Result<Glyph, TableParsingError>)
        requires
            self.bytes_view().len() <= isize::MAX,
        ensures
            same_glyph(r, glyph_data(self.source(), glyph_id as int, depth as int)),
        decreases self.max_depth() + 1 - depth, 2int,
    {
        let max_depth: u16 = self.font_limits.recursion_limits.max_component_depth;
        if depth > max_depth as u32 {
            return Err(TableParsingError::CompositeDepthExceeded { count: depth, max: max_depth as u32 });
        }
        let (start, _end) = self.get_offset_glyph_bytes(glyph_id, self.font_metric.long_loca)?;
        self.get_rasterising_data(start, depth)
    }

    /// The glyph whose data starts `glyph_offset` bytes into `glyf`: its
    /// header, then a simple outline or the components of a compound one.
    fn get_rasterising_data(&self, glyph_offset: u32, depth: u32) -> (r: Result<Glyph, TableParsingError>)
        requires
            depth <= self.max_depth(),
            self.bytes_view().len() <= isize::MAX,
        ensures
            same_glyph(r, glyph_at(self.source(), glyph_offset as int, depth as int)),
        decreases self.max_depth() + 1 - depth, 1int,
    {
        let glyf = tag(103, 108, 121, 102);
        let glyf_tab_base_addr: u32 = match self.get_offset_from_tag(&glyf) {
            Some(o) => o,
            None => return Err(TableParsingError::MalformedTable),
        };
        let glyph_start: u64 = glyf_tab_base_addr as u64 + glyph_offset as u64;
        let num_of_contours: i16 = i16_at(&self.bytes, glyph_start)?;
        let x_min: i16 = i16_at(&self.bytes, glyph_start + 2)?;
        let y_min: i16 = i16_at(&self.bytes, glyph_start + 4)?;
        let x_max: i16 = i16_at(&self.bytes, glyph_start + 6)?;
        let y_max: i16 = i16_at(&self.bytes, glyph_start + 8)?;
        let glyph_bounds = GlyphBounds { x_min, y_min, x_max, y_max };
        if num_of_contours >= 0 {
            self.parse_simple_glyph(glyph_start, num_of_contours as u16, glyph_bounds)
        } else {
            self.parse_compound_glyph(glyph_start + 10, depth, glyph_bounds)
        }
    }

    /// The components of a compound glyph from `glyph_start` on: each one
    /// read one level deeper and moved by its arguments.
    #[verifier::rlimit(40)]
    fn parse_compound_glyph(&self, glyph_start: u64, depth: u32, glyph_bounds: GlyphBounds) -> (r: Result<Glyph, TableParsingError>)
        requires
            depth <= self.max_depth(),
            glyph_start <= u32::MAX as u64 * 2 + 10,
            self.bytes_view().len() <= isize::MAX,
        ensures
            same_glyph(r, match compound_from(self.source(), glyph_start as int, depth as int, 0, Seq::empty()) {
                Ok(cs) => Ok(GlyphView { contours: cs, bounds: glyph_bounds }),
                Err(e) => Err(e),
            }),
        decreases self.max_depth() + 1 - depth, 0int,
    {
        let ghost src = self.source();
        let ghost spec_result = compound_from(src, glyph_start as int, depth as int, 0, Seq::empty());
        let len: usize = self.bytes.len();
        let max_elements: u16 = self.font_limits.recursion_limits.max_component_element;
        let mut contours: Vec<Vec<GlyphPoint>> = Vec::new();
        let mut cursor: u64 = glyph_start;
        let mut i: u32 = 0;
        assert(contours_view(contours@) =~= Seq::<Seq<GlyphPoint>>::empty());
        loop
            invariant
                src == self.source(),
                len == src.bytes.len(),
                len <= isize::MAX,
                max_elements == src.max_elements,
                depth <= self.max_depth(),
                cursor <= len + 16 || cursor == glyph_start,
                glyph_start <= u32::MAX as u64 * 2 + 10,
                i <= 65536,
                spec_result == compound_from(src, glyph_start as int, depth as int, 0, Seq::empty()),
                spec_result == compound_from(src, cursor as int, depth as int, i as int, contours_view(contours@)),
            decreases len + 16 - cursor,
        {
            let ghost at = cursor;
            let flags: u16 = u16_at(&self.bytes, cursor)?;
            let mut glyph_index: u16 = u16_at(&self.bytes, cursor + 2)?;
            cursor = cursor + 4;
            let arg_1_and_2_are_words = get_bit(flags, 0);
            let args_are_xy_values = get_bit(flags, 1);
            let we_have_a_scale = get_bit(flags, 3);
            let more_components = get_bit(flags, 5);
            let we_have_an_x_and_y_scale = get_bit(flags, 6);
            let we_have_a_two_by_two = get_bit(flags, 7);
            let (argument_1, argument_2): (i32, i32) = if arg_1_and_2_are_words {
                let a1: i16 = i16_at(&self.bytes, cursor)?;
                let a2: i16 = i16_at(&self.bytes, cursor + 2)?;
                cursor = cursor + 4;
                (a1 as i32, a2 as i32)
            } else {
                let a1: i8 = i8_at(&self.bytes, cursor)?;
                let a2: i8 = i8_at(&self.bytes, cursor + 1)?;
                cursor = cursor + 2;
                (a1 as i32, a2 as i32)
            };
            assert(component_args(src.bytes, at + 4, component_flag_set(flags, 0))
                == Ok::<(int, int, int), TableParsingError>((cursor as int, argument_1 as int, argument_2 as int)));
            if we_have_a_scale {
                cursor = cursor + 2;
            }
            if we_have_an_x_and_y_scale {
                cursor = cursor + 4;
            }
            if we_have_a_two_by_two {
                cursor = cursor + 8;
            }
            assert(cursor == at + 4 + (if arg_1_and_2_are_words { 4int } else { 2int }) + transform_size(flags));
            if !args_are_xy_values {
                glyph_index = 0;
            }
            let sub_glyph = self.glyph_outline(glyph_index as u32, depth + 1)?;
            let mut moved = translate_contours(&sub_glyph.contours, argument_1, argument_2);
            let ghost before = contours@;
            contours.append(&mut moved);
            assert(contours_view(contours@) =~= contours_view(before) + translated(sub_glyph@.contours, argument_1 as int, argument_2 as int));
            if (max_elements as u32) < i {
                return Err(TableParsingError::CompositeDepthExceeded { count: i, max: max_elements as u32 });
            }
            i = i + 1;
            if !more_components {
                let glyph = Glyph { contours, bounds: glyph_bounds };
                return Ok(glyph);
            }
        }
    }
}

impl TTFParser {
    /// The glyph of `codepoint` in the format-4 segment that starts at
    /// `start_code`: the code point plus the segment's delta, or, where the
    /// segment has a range offset, the glyph index array's entry plus the
    /// delta (0 stays 0), modulo 2^16.
    fn format4_segment_glyph(&self, range_offset_at: u64, delta_at: u64, codepoint: u32, start_code: u16) -> (r: Result<u32, TableParsingError>)
        requires
            range_offset_at <= u32::MAX as u64 * 3,
            delta_at <= u32::MAX as u64 * 3,
            start_code <= codepoint <= 65535,
        ensures
            r == format4_hit(self.bytes_view(), range_offset_at as int, delta_at as int, codepoint, start_code),
    {
        let id_range_offset: u16 = u16_at(&self.bytes, range_offset_at)?;
        let id_delta: i16 = i16_at(&self.bytes, delta_at)?;
        if id_range_offset == 0 {
            let glyph_id: u32 = ((codepoint as i64 + id_delta as i64 + 65536) % 65536) as u32;
            Ok(glyph_id)
        } else {
            let raw: u16 = u16_at(&self.bytes, range_offset_at + 2 * (id_range_offset / 2) as u64 + 2 * (codepoint - start_code as u32) as u64)?;
            if raw == 0 {
                return Ok(0);
            }
            let glyph_id: u32 = ((raw as i64 + id_delta as i64 + 65536) % 65536) as u32;
            Ok(glyph_id)
        }
    }

    /// The glyph a format-4 `cmap` subtable at `absolute_offset` maps
    /// `codepoint` to: by its segment's delta, or through the glyph index
    /// array; 0 where no segment holds it.
    #[verifier::rlimit(40)]
    fn parse_format4(&self, absolute_offset: u64, codepoint: u32) -> (r: Result<u32, TableParsingError>)
        requires
            absolute_offset <= u32::MAX as u64 * 2,
        ensures
            r == format4_glyph(self.bytes_view(), absolute_offset as int, codepoint),
    {
        let ghost b = self.bytes_view();
        let format_table: u16 = u16_at(&self.bytes, absolute_offset)?;
        if format_table != 4 {
            return Err(TableParsingError::MalformedTable);
        }
        let seg_count_raw: u16 = u16_at(&self.bytes, absolute_offset + 6)?;
        let seg_count: u64 = seg_count_raw as u64 / 2;
        let total_table_offsets: u64 = 14;
        let mut i: u64 = 0;
        while i < seg_count
            invariant
                b == self.bytes_view(),
                absolute_offset <= u32::MAX as u64 * 2,
                seg_count <= 32767,
                total_table_offsets == 14,
                i <= seg_count,
                format4_glyph(b, absolute_offset as int, codepoint)
                    == format4_from(b, absolute_offset as int, seg_count as int, codepoint, 0),
                format4_from(b, absolute_offset as int, seg_count as int, codepoint, 0)
                    == format4_from(b, absolute_offset as int, seg_count as int, codepoint, i as int),
            decreases seg_count - i,
        {
            let end_code: u16 = u16_at(&self.bytes, absolute_offset + total_table_offsets + i * 2)?;
            let start_code: u16 = u16_at(&self.bytes, absolute_offset + total_table_offsets + 2 + seg_count * 2 + i * 2)?;
            if start_code as u32 <= codepoint && codepoint <= end_code as u32 {
                let range_offset_at: u64 = absolute_offset + total_table_offsets + 2 + seg_count * 6 + i * 2;
                let delta_at: u64 = absolute_offset + total_table_offsets + 2 + seg_count * 4 + i * 2;
                return self.format4_segment_glyph(range_offset_at, delta_at, codepoint, start_code);
            }
            i = i + 1;
        }
        Ok(FALLBACK_GLYPH_ID)
    }

    /// The glyph a format-12 `cmap` subtable at `absolute_offset` maps
    /// `codepoint` to: by the first group holding it, or 0.
    fn parse_format12(&self, absolute_offset: u64, codepoint: u32) -> (r: Result<u32, TableParsingError>)
        requires
            absolute_offset <= u32::MAX as u64 * 2,
        ensures
            r == format12_glyph(self.bytes_view(), absolute_offset as int, codepoint),
    {
        let ghost b = self.bytes_view();
        let _format_table: u16 = u16_at(&self.bytes, absolute_offset)?;
        let num_groups: u32 = u32_at(&self.bytes, absolute_offset + 12)?;
        let start_group_offset: u64 = 16;
        let size_group_table: u64 = 12;
        let mut i: u32 = 0;
        while i < num_groups
            invariant
                b == self.bytes_view(),
                absolute_offset <= u32::MAX as u64 * 2,
                start_group_offset == 16,
                size_group_table == 12,
                i <= num_groups,
                format12_glyph(b, absolute_offset as int, codepoint)
                    == format12_from(b, absolute_offset as int, num_groups as int, codepoint, 0),
                format12_from(b, absolute_offset as int, num_groups as int, codepoint, 0)
                    == format12_from(b, absolute_offset as int, num_groups as int, codepoint, i as int),
            decreases num_groups - i,
        {
            let current_group_offset: u64 = start_group_offset + i as u64 * size_group_table;
            let start_char_code: u32 = u32_at(&self.bytes, absolute_offset + current_group_offset)?;
            let end_char_code: u32 = u32_at(&self.bytes, absolute_offset + current_group_offset + 4)?;
            if start_char_code <= codepoint && codepoint <= end_char_code {
                let start_glyph_id: u32 = u32_at(&self.bytes, absolute_offset + current_group_offset + 8)?;
                let glyph_id: u32 = ((start_glyph_id as u64 + (codepoint - start_char_code) as u64) % 0x1_0000_0000) as u32;
                return Ok(glyph_id);
            }
            i = i + 1;
        }
        Ok(FALLBACK_GLYPH_ID)
    }

    /// The glyph index of `codepoint`, through the `cmap` table's format-12
    /// or format-4 subtable.
    #[verifier::loop_isolation(false)]
    fn map_glyph_id_codepoint(&self, codepoint: u32) -> (r: Result<u32, TableParsingError>)
        ensures
            r == glyph_index_of(self.bytes_view(), self.directory(), self.glyph_count(), codepoint),
    {
        let ghost b = self.bytes_view();
        let ghost dir = self.directory();
        let cmap = tag(99, 109, 97, 112);
        let cmap_top_addr: u32 = match self.get_offset_from_tag(&cmap) {
            Some(o) => o,
            None => return Err(TableParsingError::MalformedTable),
        };
        let num_tables: u16 = self.field_u16_at(&cmap, 2)?;
        let mut format_4_record: Option<u32> = None;
        let mut format_12_record: Option<u32> = None;
        for i in 0..num_tables
            invariant
                b == self.bytes_view(),
                dir == self.directory(),
                cmap@ == seq![99u8, 109u8, 97u8, 112u8],
                cmap_records_from(b, dir, 0, num_tables as int, None, None)
                    == cmap_records_from(b, dir, i as int, num_tables as int, format_4_record, format_12_record),
        {
            let record_offset: u64 = 4 + (i as u64) * 8;
            let platform_id: u16 = self.field_u16_at(&cmap, record_offset)?;
            let encoding_id: u16 = self.field_u16_at(&cmap, record_offset + 2)?;
            let subtable_offset: u32 = self.field_u32_at(&cmap, record_offset + 4)?;
            if (platform_id == 3 && encoding_id == 10) || (platform_id == 0 && encoding_id == 4) {
                format_12_record = Some(subtable_offset);
            } else if (platform_id == 3 && encoding_id == 1) || (platform_id == 0 && encoding_id == 3) {
                format_4_record = Some(subtable_offset);
            }
        }
        let (subtable_offset, expected_format): (u32, u16) = if let Some(offset) = format_12_record {
            (offset, 12)
        } else if let Some(offset) = format_4_record {
            (offset, 4)
        } else {
            return Ok(FALLBACK_GLYPH_ID);
        };
        let format: u16 = self.field_u16_at(&cmap, subtable_offset as u64)?;
        let actual_offset: u64 = cmap_top_addr as u64 + subtable_offset as u64;
        if format != expected_format {
            return Err(TableParsingError::MalformedTable);
        }
        let glyph_id: u32 = if format == 4 {
            self.parse_format4(actual_offset, codepoint)?
        } else {
            self.parse_format12(actual_offset, codepoint)?
        };
        let num_glyphs: u16 = self.font_limits.num_glyphs;
        if (glyph_id % 65536) as u16 >= num_glyphs {
            return Err(TableParsingError::GlyphIdOutOfRange { glyph_id, num_glyphs });
        }
        Ok(glyph_id)
    }

    /// Records glyph `glyph_id`'s left side bearing and advance width from
    /// `hmtx` under `codepoint`.
    fn parse_hmtx_table(&mut self, glyph_id: u32, codepoint: u32) -> (r: Result<(), TableParsingError>)
        ensures
            final(self).same_font(&*old(self)),
            final(self).cache() == old(self).cache(),
            ({
                let (b, dir, nm) = (old(self).bytes_view(), old(self).directory(), old(self).metric().layout_info.num_of_metrics);
                &&& r == hmtx_result(b, dir, nm, glyph_id)
                &&& final(self).bearings() == bearings_after(old(self).bearings(), b, dir, nm, glyph_id, codepoint)
                &&& final(self).widths() == widths_after(old(self).widths(), b, dir, nm, glyph_id, codepoint)
            }),
    {
        let hmtx = tag(104, 109, 116, 120);
        let num_metrics: u16 = self.font_metric.layout_info.num_of_metrics;
        let aw_offset: u64;
        if (glyph_id as u64) < num_metrics as u64 {
            aw_offset = glyph_id as u64 * 4;
            let lsb: i16 = self.field_i16_at(&hmtx, aw_offset + 2)?;
            self.font_limits.h_metrics.left_side_bearings.insert(codepoint, lsb);
        } else {
            if num_metrics == 0 {
                return Err(TableParsingError::OffsetOutOfBounds { offset: 0, table_len: 0 });
            }
            aw_offset = (num_metrics as u64 - 1) * 4;
            let lsb_offset: u64 = (num_metrics as u64) * 4 + (glyph_id as u64 - num_metrics as u64);
            let lsb: i16 = self.field_i16_at(&hmtx, lsb_offset)?;
            self.font_limits.h_metrics.left_side_bearings.insert(codepoint, lsb);
        }
        let aw: u16 = self.field_u16_at(&hmtx, aw_offset)?;
        self.font_limits.h_metrics.advanced_widths.insert(codepoint, aw);
        Ok(())
    }
}

impl TTFParser {
    /// The glyph fetching `codepoint` reads from this state: the glyph
    /// `cmap` gives it, read after its horizontal metrics where those are
    /// not recorded yet.
    pub open spec fn glyph_for(&self, cp: u32) -> Result<GlyphView, TableParsingError> {
        let (b, dir, nm) = (self.bytes_view(), self.directory(), self.metric().layout_info.num_of_metrics);
        match glyph_index_of(b, dir, self.glyph_count(), cp) {
            Err(e) => Err(e),
            Ok(gid) => if !self.widths().contains_key(cp) && hmtx_result(b, dir, nm, gid) is Err {
                Err(hmtx_result(b, dir, nm, gid)->Err_0)
            } else {
                glyph_data(self.source(), gid as int, 0)
            },
        }
    }

    /// The advance widths once `codepoint` has been fetched from this state.
    pub open spec fn widths_for(&self, cp: u32) -> Map<u32, u16> {
        let (b, dir, nm) = (self.bytes_view(), self.directory(), self.metric().layout_info.num_of_metrics);
        match glyph_index_of(b, dir, self.glyph_count(), cp) {
            Err(_) => self.widths(),
            Ok(gid) => if self.widths().contains_key(cp) {
                self.widths()
            } else {
                widths_after(self.widths(), b, dir, nm, gid, cp)
            },
        }
    }

    /// The left side bearings once `codepoint` has been fetched from this state.
    pub open spec fn bearings_for(&self, cp: u32) -> Map<u32, i16> {
        let (b, dir, nm) = (self.bytes_view(), self.directory(), self.metric().layout_info.num_of_metrics);
        match glyph_index_of(b, dir, self.glyph_count(), cp) {
            Err(_) => self.bearings(),
            Ok(gid) => if self.widths().contains_key(cp) {
                self.bearings()
            } else {
                bearings_after(self.bearings(), b, dir, nm, gid, cp)
            },
        }
    }

    /// The glyph for `glyph_id`, nested `depth_val` deep (0 where `None`);
    /// its horizontal metrics are recorded under `codepoint` first where
    /// none are recorded for it yet.
    fn map_id_to_glyph_data(&mut self, glyph_id: u32, codepoint: u32, depth_val: Option<u32>) -> (r: Result<Glyph, TableParsingError>)
        requires
            old(self).bytes_view().len() <= isize::MAX,
        ensures
            final(self).same_font(&*old(self)),
            final(self).cache() == old(self).cache(),
            ({
                let d: u32 = match depth_val { Some(v) => v, None => 0 };
                let (b, dir, nm) = (old(self).bytes_view(), old(self).directory(), old(self).metric().layout_info.num_of_metrics);
                let max = old(self).max_depth();
                if d > max {
                    &&& r == Err::<Glyph, TableParsingError>(depth_error(d as int, max))
                    &&& final(self).widths() == old(self).widths()
                    &&& final(self).bearings() == old(self).bearings()
                } else if old(self).widths().contains_key(codepoint) {
                    &&& final(self).widths() == old(self).widths()
                    &&& final(self).bearings() == old(self).bearings()
                    &&& same_glyph(r, glyph_data(old(self).source(), glyph_id as int, d as int))
                } else {
                    &&& final(self).widths() == widths_after(old(self).widths(), b, dir, nm, glyph_id, codepoint)
                    &&& final(self).bearings() == bearings_after(old(self).bearings(), b, dir, nm, glyph_id, codepoint)
                    &&& match hmtx_result(b, dir, nm, glyph_id) {
                        Err(e) => r == Err::<Glyph, TableParsingError>(e),
                        Ok(_) => same_glyph(r, glyph_data(old(self).source(), glyph_id as int, d as int)),
                    }
                }
            }),
    {
        let depth: u32 = match depth_val {
            Some(v) => v,
            None => 0,
        };
        let max_depth: u16 = self.font_limits.recursion_limits.max_component_depth;
        if depth > max_depth as u32 {
            return Err(TableParsingError::CompositeDepthExceeded { count: depth, max: max_depth as u32 });
        }
        if !self.font_limits.h_metrics.advanced_widths.contains_key(&codepoint) {
            self.parse_hmtx_table(glyph_id, codepoint)?;
        }
        self.glyph_outline(glyph_id, depth)
    }

    /// The glyph `cmap` gives `codepoint`, with its horizontal metrics recorded.
    fn read_ttf_tables(&mut self, codepoint: u32) -> (r: Result<Glyph, TableParsingError>)
        requires
            old(self).bytes_view().len() <= isize::MAX,
        ensures
            final(self).same_font(&*old(self)),
            final(self).cache() == old(self).cache(),
            final(self).widths() == old(self).widths_for(codepoint),
            final(self).bearings() == old(self).bearings_for(codepoint),
            same_glyph(r, old(self).glyph_for(codepoint)),
    {
        let glyph_id = self.map_glyph_id_codepoint(codepoint)?;
        self.map_id_to_glyph_data(glyph_id, codepoint, None)
    }

    /// The advance width recorded for `codepoint`.
    pub fn recorded_advance_width(&self, codepoint: u32) -> (r: Option<u16>)
        ensures
            r == (if self.widths().contains_key(codepoint) { Some(self.widths()[codepoint]) } else { None::<u16> }),
    {
        self.font_limits.h_metrics.advance_width(codepoint)
    }

    /// The left side bearing recorded for `codepoint`.
    pub fn recorded_left_side_bearing(&self, codepoint: u32) -> (r: Option<i16>)
        ensures
            r == (if self.bearings().contains_key(codepoint) { Some(self.bearings()[codepoint]) } else { None::<i16> }),
    {
        self.font_limits.h_metrics.left_side_bearing(codepoint)
    }

    /// The glyph for `codepoint`: the one fetched before, or else read from
    /// the font and kept.
    pub fn fetch_char_from_cache(&mut self, codepoint: u32) -> (r: Result<Glyph, TableParsingError>)
        requires
            old(self).bytes_view().len() <= isize::MAX,
        ensures
            fetched(*old(self), *final(self), codepoint, r),
    {
        reveal(fetched);
        match self.glyph_cache.get(&codepoint) {
            Some(g) => Ok(g.duplicate()),
            None => {
                let glyph_data = self.read_ttf_tables(codepoint)?;
                let copy = glyph_data.duplicate();
                self.glyph_cache.insert(codepoint, glyph_data);
                Ok(copy)
            },
        }
    }
}

/// Fetching `cp` took the parser from `old` to `new` and gave `r`: a glyph
/// fetched before is given again and nothing changes; otherwise the glyph
/// is read, kept where it could be read, and its metrics are recorded.
#[verifier::opaque]
pub open spec fn fetched(old: TTFParser, new: TTFParser, cp: u32, r: Result<Glyph, TableParsingError>) -> bool {
    &&& new.same_font(&old)
    &&& if old.cache().contains_key(cp) {
        &&& r matches Ok(g) && g@ == old.cache()[cp]@
        &&& new.same_state(&old)
    } else {
        &&& new.widths() == old.widths_for(cp)
        &&& new.bearings() == old.bearings_for(cp)
        &&& match old.glyph_for(cp) {
            Ok(gv) => {
                &&& r matches Ok(g) && g@ == gv
                &&& new.cache().contains_key(cp)
                &&& new.cache()[cp]@ == gv
                &&& new.cache() == old.cache().insert(cp, new.cache()[cp])
            },
            Err(e) => r == Err::<Glyph, TableParsingError>(e) && new.cache() == old.cache(),
        }
    }
}

/// Fetching a code point a second time gives the glyph that the first
/// fetch gave, and changes nothing.
pub proof fn lemma_fetch_twice(
    p0: TTFParser,
    p1: TTFParser,
    p2: TTFParser,
    cp: u32,
    r1: Result<Glyph, TableParsingError>,
    r2: Result<Glyph, TableParsingError>,
)
    requires
        fetched(p0, p1, cp, r1),
        fetched(p1, p2, cp, r2),
        r1 is Ok,
    ensures
        r2 matches Ok(g2) && g2@ == r1->Ok_0@,
        p2.same_state(&p1),
{
    reveal(fetched);
}

} // verus!
