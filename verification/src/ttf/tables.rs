//! What each part of a TrueType file means: the table directory, the
//! `head`, `hhea`, `maxp`, `hmtx`, `cmap`, `loca` and `glyf` tables, as
//! functions of the file's bytes.

use vstd::prelude::*;

use crate::ttf::be::{be_u32, out_of_bounds, read_i16, read_i8, read_u16, read_u32, read_u8};
use crate::ttf::font::{FontMetric, GlyphBounds, GlyphPoint, GlyphView, LayoutFontInfo};
use crate::ttf::parser::TableDirectory;
use crate::ttf::parser_errors::TableParsingError;

verus! {

pub open spec fn head_tag() -> Seq<u8> { seq![104u8, 101u8, 97u8, 100u8] }
pub open spec fn hhea_tag() -> Seq<u8> { seq![104u8, 104u8, 101u8, 97u8] }
pub open spec fn maxp_tag() -> Seq<u8> { seq![109u8, 97u8, 120u8, 112u8] }
pub open spec fn hmtx_tag() -> Seq<u8> { seq![104u8, 109u8, 116u8, 120u8] }
pub open spec fn cmap_tag() -> Seq<u8> { seq![99u8, 109u8, 97u8, 112u8] }
pub open spec fn loca_tag() -> Seq<u8> { seq![108u8, 111u8, 99u8, 97u8] }
pub open spec fn glyf_tag() -> Seq<u8> { seq![103u8, 108u8, 121u8, 102u8] }

// ---------------------------------------------------------------------------
// Offset subtable and table directory

/// The error for a file too short to hold the offset subtable.
pub open spec fn header_error(len: nat) -> TableParsingError {
    TableParsingError::OffsetOutOfBounds { offset: 20, table_len: len as usize }
}

/// Entry `i` of the table directory describes table `t`.
pub open spec fn dir_entry_matches(b: Seq<u8>, i: int, t: TableDirectory) -> bool {
    let e = 12 + 16 * i;
    &&& t.tag@ == b.subrange(e, e + 4)
    &&& t.checkSum == be_u32(b, e + 4)
    &&& t.offset == be_u32(b, e + 8)
    &&& t.length == be_u32(b, e + 12)
}

/// The directory of `n` entries fits in a file of `len` bytes.
pub open spec fn directory_fits(len: nat, n: nat) -> bool {
    n == 0 || 12 + 16 * n <= len
}

/// The first directory entry that does not fit in `len` bytes.
pub open spec fn first_short_entry(len: nat) -> int {
    if len < 28 {
        0
    } else {
        (len - 28) / 16 + 1
    }
}

/// The error reported for a directory that does not fit: where the
/// first entry that does not fit would end.
pub open spec fn directory_error(len: nat) -> TableParsingError {
    TableParsingError::OffsetOutOfBounds {
        offset: (28 + 16 * first_short_entry(len)) as u32,
        table_len: len as usize,
    }
}

/// The offset of the first table whose tag is `tag`, looking from entry `i` on.
pub open spec fn first_table_from(dir: Seq<TableDirectory>, tag: Seq<u8>, i: int) -> Option<u32>
    decreases dir.len() - i,
{
    if i < 0 || i >= dir.len() {
        None
    } else if dir[i].tag@ == tag {
        Some(dir[i].offset)
    } else {
        first_table_from(dir, tag, i + 1)
    }
}

/// The offset of the first table of the directory tagged `tag`.
pub open spec fn table_offset(dir: Seq<TableDirectory>, tag: Seq<u8>) -> Option<u32> {
    first_table_from(dir, tag, 0)
}

pub open spec fn field_u16(b: Seq<u8>, dir: Seq<TableDirectory>, tag: Seq<u8>, field: int) -> Result<u16, TableParsingError> {
    match table_offset(dir, tag) {
        None => Err(TableParsingError::MalformedTable),
        Some(o) => read_u16(b, o + field),
    }
}

pub open spec fn field_i16(b: Seq<u8>, dir: Seq<TableDirectory>, tag: Seq<u8>, field: int) -> Result<i16, TableParsingError> {
    match table_offset(dir, tag) {
        None => Err(TableParsingError::MalformedTable),
        Some(o) => read_i16(b, o + field),
    }
}

pub open spec fn field_u32(b: Seq<u8>, dir: Seq<TableDirectory>, tag: Seq<u8>, field: int) -> Result<u32, TableParsingError> {
    match table_offset(dir, tag) {
        None => Err(TableParsingError::MalformedTable),
        Some(o) => read_u32(b, o + field),
    }
}

// ---------------------------------------------------------------------------
// head, hhea, maxp

/// The metrics a font without readable `head` and `hhea` tables gets.
pub open spec fn default_metric() -> FontMetric {
    FontMetric {
        units_per_em: 0,
        long_loca: false,
        layout_info: LayoutFontInfo { num_of_metrics: 0, ascent: 0, descent: 0, line_gap: 0 },
    }
}

/// The font metrics: units per em and the `loca` format from `head`,
/// the number of long metrics, ascent, descent and line gap from `hhea`.
pub open spec fn font_metric_of(b: Seq<u8>, dir: Seq<TableDirectory>) -> Result<FontMetric, TableParsingError> {
    match field_u16(b, dir, head_tag(), 18) {
        Err(e) => Err(e),
        Ok(units_per_em) => match field_i16(b, dir, head_tag(), 50) {
            Err(e) => Err(e),
            Ok(index_to_loc_format) => match field_u16(b, dir, hhea_tag(), 34) {
                Err(e) => Err(e),
                Ok(num_of_metrics) => match field_i16(b, dir, hhea_tag(), 4) {
                    Err(e) => Err(e),
                    Ok(ascent) => match field_i16(b, dir, hhea_tag(), 6) {
                        Err(e) => Err(e),
                        Ok(descent) => match field_i16(b, dir, hhea_tag(), 10) {
                            Err(e) => Err(e),
                            Ok(line_gap) => Ok(FontMetric {
                                units_per_em,
                                long_loca: index_to_loc_format != 0,
                                layout_info: LayoutFontInfo { num_of_metrics, ascent, descent, line_gap },
                            }),
                        },
                    },
                },
            },
        },
    }
}

/// From `maxp`: the number of glyphs, the most components of a compound
/// glyph and the deepest nesting of compound glyphs.
pub open spec fn font_limits_of(b: Seq<u8>, dir: Seq<TableDirectory>) -> Result<(u16, u16, u16), TableParsingError> {
    match field_u16(b, dir, maxp_tag(), 4) {
        Err(e) => Err(e),
        Ok(num_glyphs) => match field_u16(b, dir, maxp_tag(), 28) {
            Err(e) => Err(e),
            Ok(max_elements) => match field_u16(b, dir, maxp_tag(), 30) {
                Err(e) => Err(e),
                Ok(max_depth) => Ok((num_glyphs, max_elements, max_depth)),
            },
        },
    }
}

// ---------------------------------------------------------------------------
// hmtx

/// The error for a glyph past the long metrics when there are none.
pub open spec fn no_metrics_error() -> TableParsingError {
    TableParsingError::OffsetOutOfBounds { offset: 0, table_len: 0 }
}

/// The left side bearing of glyph `gid`, where `nm` long metrics precede
/// the bare bearings. (The bearing of a glyph past the long metrics is
/// read `gid - nm` bytes after them.)
pub open spec fn hmtx_lsb(b: Seq<u8>, dir: Seq<TableDirectory>, nm: u16, gid: u32) -> Result<i16, TableParsingError> {
    if gid < nm {
        field_i16(b, dir, hmtx_tag(), gid * 4 + 2)
    } else if nm == 0 {
        Err(no_metrics_error())
    } else {
        field_i16(b, dir, hmtx_tag(), nm * 4 + (gid - nm))
    }
}

/// The advance width of glyph `gid`: its own long metric, or the last one.
pub open spec fn hmtx_aw(b: Seq<u8>, dir: Seq<TableDirectory>, nm: u16, gid: u32) -> Result<u16, TableParsingError> {
    if gid < nm {
        field_u16(b, dir, hmtx_tag(), gid * 4)
    } else {
        field_u16(b, dir, hmtx_tag(), (nm - 1) * 4)
    }
}

/// Reading the metrics of glyph `gid` succeeds, or its first error.
pub open spec fn hmtx_result(b: Seq<u8>, dir: Seq<TableDirectory>, nm: u16, gid: u32) -> Result<(), TableParsingError> {
    match hmtx_lsb(b, dir, nm, gid) {
        Err(e) => Err(e),
        Ok(_) => match hmtx_aw(b, dir, nm, gid) {
            Err(e) => Err(e),
            Ok(_) => Ok(()),
        },
    }
}

/// The bearings once glyph `gid`'s bearing is recorded for `cp`, where it can be read.
pub open spec fn bearings_after(bearings: Map<u32, i16>, b: Seq<u8>, dir: Seq<TableDirectory>, nm: u16, gid: u32, cp: u32) -> Map<u32, i16> {
    match hmtx_lsb(b, dir, nm, gid) {
        Ok(l) => bearings.insert(cp, l),
        Err(_) => bearings,
    }
}

/// The widths once glyph `gid`'s advance width is recorded for `cp`,
/// where its bearing and its width can both be read.
pub open spec fn widths_after(widths: Map<u32, u16>, b: Seq<u8>, dir: Seq<TableDirectory>, nm: u16, gid: u32, cp: u32) -> Map<u32, u16> {
    match hmtx_lsb(b, dir, nm, gid) {
        Ok(_) => match hmtx_aw(b, dir, nm, gid) {
            Ok(a) => widths.insert(cp, a),
            Err(_) => widths,
        },
        Err(_) => widths,
    }
}

// ---------------------------------------------------------------------------
// cmap

/// The subtable offsets of the last format-4 and the last format-12
/// encoding records among records `i..n`, starting from `f4` and `f12`.
pub open spec fn cmap_records_from(
    b: Seq<u8>,
    dir: Seq<TableDirectory>,
    i: int,
    n: int,
    f4: Option<u32>,
    f12: Option<u32>,
) -> Result<(Option<u32>, Option<u32>), TableParsingError>
    decreases n - i,
{
    if i >= n {
        Ok((f4, f12))
    } else {
        let rec = 4 + 8 * i;
        match field_u16(b, dir, cmap_tag(), rec) {
            Err(e) => Err(e),
            Ok(platform) => match field_u16(b, dir, cmap_tag(), rec + 2) {
                Err(e) => Err(e),
                Ok(encoding) => match field_u32(b, dir, cmap_tag(), rec + 4) {
                    Err(e) => Err(e),
                    Ok(sub) => {
                        if (platform == 3 && encoding == 10) || (platform == 0 && encoding == 4) {
                            cmap_records_from(b, dir, i + 1, n, f4, Some(sub))
                        } else if (platform == 3 && encoding == 1) || (platform == 0 && encoding == 3) {
                            cmap_records_from(b, dir, i + 1, n, Some(sub), f12)
                        } else {
                            cmap_records_from(b, dir, i + 1, n, f4, f12)
                        }
                    },
                },
            },
        }
    }
}

/// The glyph of `cp` in a format-4 segment that starts at `start_code`,
/// whose range offset is at `ro_at` and whose delta is at `delta_at`. The
/// range offset counts whole 16-bit entries: an odd offset rounds down.
pub open spec fn format4_hit(b: Seq<u8>, ro_at: int, delta_at: int, cp: u32, start_code: u16) -> Result<u32, TableParsingError> {
    match read_u16(b, ro_at) {
        Err(e) => Err(e),
        Ok(id_range_offset) => match read_i16(b, delta_at) {
            Err(e) => Err(e),
            Ok(id_delta) => {
                if id_range_offset == 0 {
                    Ok(((cp + id_delta) % 65536) as u32)
                } else {
                    match read_u16(b, ro_at + 2 * (id_range_offset / 2) + 2 * (cp - start_code)) {
                        Err(e) => Err(e),
                        Ok(raw) => if raw == 0 {
                            Ok(0)
                        } else {
                            Ok(((raw + id_delta) % 65536) as u32)
                        },
                    }
                }
            },
        },
    }
}

/// Segments `i..seg` of a format-4 subtable at `abs`: the glyph of the
/// first segment whose range holds `cp`, or 0.
pub open spec fn format4_from(b: Seq<u8>, abs: int, seg: int, cp: u32, i: int) -> Result<u32, TableParsingError>
    decreases seg - i,
{
    if i >= seg {
        Ok(0)
    } else {
        match read_u16(b, abs + 14 + 2 * i) {
            Err(e) => Err(e),
            Ok(end_code) => match read_u16(b, abs + 16 + 2 * seg + 2 * i) {
                Err(e) => Err(e),
                Ok(start_code) => {
                    if start_code <= cp && cp <= end_code {
                        format4_hit(b, abs + 16 + 6 * seg + 2 * i, abs + 16 + 4 * seg + 2 * i, cp, start_code)
                    } else {
                        format4_from(b, abs, seg, cp, i + 1)
                    }
                },
            },
        }
    }
}

/// The glyph a format-4 subtable at `abs` maps `cp` to.
pub open spec fn format4_glyph(b: Seq<u8>, abs: int, cp: u32) -> Result<u32, TableParsingError> {
    match read_u16(b, abs) {
        Err(e) => Err(e),
        Ok(format) => if format != 4 {
            Err(TableParsingError::MalformedTable)
        } else {
            match read_u16(b, abs + 6) {
                Err(e) => Err(e),
                Ok(seg_count_x2) => format4_from(b, abs, (seg_count_x2 / 2) as int, cp, 0),
            }
        },
    }
}

/// Groups `i..n` of a format-12 subtable at `abs`: the glyph of the first
/// group whose range holds `cp` (wrapping at 2^32), or 0.
pub open spec fn format12_from(b: Seq<u8>, abs: int, n: int, cp: u32, i: int) -> Result<u32, TableParsingError>
    decreases n - i,
{
    if i >= n {
        Ok(0)
    } else {
        let g = abs + 16 + 12 * i;
        match read_u32(b, g) {
            Err(e) => Err(e),
            Ok(start_char) => match read_u32(b, g + 4) {
                Err(e) => Err(e),
                Ok(end_char) => if start_char <= cp && cp <= end_char {
                    match read_u32(b, g + 8) {
                        Err(e) => Err(e),
                        Ok(start_glyph) => Ok(((start_glyph + (cp - start_char)) % 0x1_0000_0000) as u32),
                    }
                } else {
                    format12_from(b, abs, n, cp, i + 1)
                },
            },
        }
    }
}

/// The glyph a format-12 subtable at `abs` maps `cp` to.
pub open spec fn format12_glyph(b: Seq<u8>, abs: int, cp: u32) -> Result<u32, TableParsingError> {
    match read_u16(b, abs) {
        Err(e) => Err(e),
        Ok(_format) => match read_u32(b, abs + 12) {
            Err(e) => Err(e),
            Ok(num_groups) => format12_from(b, abs, num_groups as int, cp, 0),
        },
    }
}

/// The glyph index `cmap` gives code point `cp`: by the last format-12
/// record if there is one, else by the last format-4 record, else 0; an
/// index whose low 16 bits reach `num_glyphs` is refused.
pub open spec fn glyph_index_of(b: Seq<u8>, dir: Seq<TableDirectory>, num_glyphs: u16, cp: u32) -> Result<u32, TableParsingError> {
    match table_offset(dir, cmap_tag()) {
        None => Err(TableParsingError::MalformedTable),
        Some(cmap_top) => match field_u16(b, dir, cmap_tag(), 2) {
            Err(e) => Err(e),
            Ok(num_tables) => match cmap_records_from(b, dir, 0, num_tables as int, None, None) {
                Err(e) => Err(e),
                Ok((f4, f12)) => {
                    if f12 is None && f4 is None {
                        Ok(0)
                    } else {
                        let (sub, expected) = if f12 is Some { (f12->0, 12u16) } else { (f4->0, 4u16) };
                        match field_u16(b, dir, cmap_tag(), sub as int) {
                            Err(e) => Err(e),
                            Ok(format) => if format != expected {
                                Err(TableParsingError::MalformedTable)
                            } else {
                                let found = if format == 4 {
                                    format4_glyph(b, cmap_top + sub, cp)
                                } else {
                                    format12_glyph(b, cmap_top + sub, cp)
                                };
                                match found {
                                    Err(e) => Err(e),
                                    Ok(gid) => if gid % 65536 >= num_glyphs {
                                        Err(TableParsingError::GlyphIdOutOfRange { glyph_id: gid, num_glyphs })
                                    } else {
                                        Ok(gid)
                                    },
                                }
                            },
                        }
                    }
                },
            },
        },
    }
}

// ---------------------------------------------------------------------------
// loca and glyf

/// Where glyph `gid`'s data starts and ends inside `glyf`.
pub open spec fn glyph_location(b: Seq<u8>, dir: Seq<TableDirectory>, gid: int, long: bool) -> Result<(u32, u32), TableParsingError> {
    match table_offset(dir, loca_tag()) {
        None => Err(TableParsingError::MalformedTable),
        Some(loca) => if long {
            match read_u32(b, loca + 4 * gid) {
                Err(e) => Err(e),
                Ok(s) => match read_u32(b, loca + 4 * gid + 4) {
                    Err(e) => Err(e),
                    Ok(t) => Ok((s, t)),
                },
            }
        } else {
            match read_u16(b, loca + 2 * gid) {
                Err(e) => Err(e),
                Ok(s) => match read_u16(b, loca + 2 * gid + 2) {
                    Err(e) => Err(e),
                    Ok(t) => Ok(((s * 2) as u32, (t * 2) as u32)),
                },
            }
        },
    }
}

/// `bit` of a simple glyph's point flag is set.
pub open spec fn flag_set(f: u8, bit: u8) -> bool {
    (f >> bit) & 1u8 == 1u8
}

/// `bit` of a compound glyph's component flags is set.
pub open spec fn component_flag_set(f: u16, bit: u8) -> bool {
    (f >> bit) & 1u16 == 1u16
}

/// `n` big-endian `u16`s from `start`, appended to `acc`, the first `k` read.
pub open spec fn u16s_from(b: Seq<u8>, start: int, k: int, n: int, acc: Seq<u16>) -> Result<Seq<u16>, TableParsingError>
    decreases n - k,
{
    if k >= n {
        Ok(acc)
    } else {
        match read_u16(b, start + 2 * k) {
            Err(e) => Err(e),
            Ok(v) => u16s_from(b, start, k + 1, n, acc.push(v)),
        }
    }
}

/// Reading `n` single bytes from `start`, one after the other, succeeds,
/// or fails at the first byte past the end.
pub open spec fn bytes_readable(b: Seq<u8>, start: int, n: int) -> Result<(), TableParsingError> {
    if n <= 0 || start + n <= b.len() {
        Ok(())
    } else {
        Err(out_of_bounds(if start >= b.len() { start } else { b.len() as int }, b.len()))
    }
}

/// The point flags from `mark` on, until at least `target` flags are
/// known, appended to `acc`; a flag with bit 3 set is followed by a count
/// of repeats. Also where the flags end.
pub open spec fn flags_from(b: Seq<u8>, mark: int, target: int, acc: Seq<u8>) -> Result<(Seq<u8>, int), TableParsingError>
    decreases (if target > acc.len() { target - acc.len() } else { 0 }),
{
    if acc.len() >= target {
        Ok((acc, mark))
    } else {
        match read_u8(b, mark) {
            Err(e) => Err(e),
            Ok(f) => if flag_set(f, 3) {
                match read_u8(b, mark + 1) {
                    Err(e) => Err(e),
                    Ok(count) => {
                        let run = Seq::new((count + 1) as nat, |_j: int| f);
                        proof {
                            assert((acc + run).len() == acc.len() + run.len());
                        }
                        flags_from(b, mark + 2, target, acc + run)
                    },
                }
            } else {
                flags_from(b, mark + 1, target, acc.push(f))
            },
        }
    }
}

/// The coordinate deltas of points `k..` from `cursor` on, appended to
/// `acc`: bit `short` set means one unsigned byte, with bit `same` giving
/// its sign (set: positive); bit `short` clear means a signed `i16`, or
/// no change at all when bit `same` is set. Also where they end.
pub open spec fn deltas_from(
    b: Seq<u8>,
    flags: Seq<u8>,
    k: int,
    cursor: int,
    short: u8,
    same: u8,
    acc: Seq<i16>,
) -> Result<(Seq<i16>, int), TableParsingError>
    decreases flags.len() - k,
{
    if k < 0 || k >= flags.len() {
        Ok((acc, cursor))
    } else {
        let f = flags[k];
        if flag_set(f, short) {
            match read_u8(b, cursor) {
                Err(e) => Err(e),
                Ok(v) => deltas_from(
                    b,
                    flags,
                    k + 1,
                    cursor + 1,
                    short,
                    same,
                    acc.push(if flag_set(f, same) { v as i16 } else { (-v) as i16 }),
                ),
            }
        } else if flag_set(f, same) {
            deltas_from(b, flags, k + 1, cursor, short, same, acc.push(0i16))
        } else {
            match read_i16(b, cursor) {
                Err(e) => Err(e),
                Ok(v) => deltas_from(b, flags, k + 1, cursor + 2, short, same, acc.push(v)),
            }
        }
    }
}

/// `x` taken modulo 2^16 into the range of `i16`.
pub open spec fn wrap_i16(x: int) -> i16 {
    ((x + 32768) % 65536 - 32768) as i16
}

/// The sum of the first `k` deltas, wrapping as `i16`.
pub open spec fn delta_sum(d: Seq<i16>, k: int) -> i16
    decreases k,
{
    if k <= 0 {
        0
    } else {
        wrap_i16(delta_sum(d, k - 1) + d[k - 1])
    }
}

/// Absolute coordinates from deltas: each the running sum up to it.
pub open spec fn absolute(d: Seq<i16>) -> Seq<i16> {
    Seq::new(d.len(), |k: int| delta_sum(d, k + 1))
}

/// Points `i..` grouped into contours: a contour closes at the point whose
/// index is the next contour end. A point past the last contour end is
/// refused; points after the last closed contour are left out.
pub open spec fn contours_from(
    flags: Seq<u8>,
    xs: Seq<i16>,
    ys: Seq<i16>,
    ends: Seq<u16>,
    i: int,
    ci: int,
    current: Seq<GlyphPoint>,
    acc: Seq<Seq<GlyphPoint>>,
) -> Result<Seq<Seq<GlyphPoint>>, TableParsingError>
    decreases flags.len() - i,
{
    if i < 0 || i >= flags.len() {
        Ok(acc)
    } else {
        let p = GlyphPoint { x: xs[i], y: ys[i], on_curve: flag_set(flags[i], 0) };
        let cur = current.push(p);
        if ci < 0 || ci >= ends.len() {
            Err(TableParsingError::MalformedTable)
        } else if i == ends[ci] {
            contours_from(flags, xs, ys, ends, i + 1, ci + 1, Seq::empty(), acc.push(cur))
        } else {
            contours_from(flags, xs, ys, ends, i + 1, ci, cur, acc)
        }
    }
}

/// The outline of a simple glyph whose header starts at `gs` and declares
/// `nc` contours.
pub open spec fn simple_glyph(b: Seq<u8>, gs: int, nc: int, bounds: GlyphBounds) -> Result<GlyphView, TableParsingError> {
    match u16s_from(b, gs + 10, 0, nc, Seq::empty()) {
        Err(e) => Err(e),
        Ok(ends) => {
            let il_at = gs + 10 + 2 * nc;
            match read_u16(b, il_at) {
                Err(e) => Err(e),
                Ok(il) => match bytes_readable(b, il_at + 2, il as int) {
                    Err(e) => Err(e),
                    Ok(_) => {
                        let target = (if ends.len() == 0 { 0 } else { ends.last() as int }) + 1;
                        match flags_from(b, il_at + 2 + il, target, Seq::empty()) {
                            Err(e) => Err(e),
                            Ok((flags, x_at)) => match deltas_from(b, flags, 0, x_at, 1, 4, Seq::empty()) {
                                Err(e) => Err(e),
                                Ok((dx, y_at)) => match deltas_from(b, flags, 0, y_at, 2, 5, Seq::empty()) {
                                    Err(e) => Err(e),
                                    Ok((dy, _end)) => match contours_from(
                                        flags,
                                        absolute(dx),
                                        absolute(dy),
                                        ends,
                                        0,
                                        0,
                                        Seq::empty(),
                                        Seq::empty(),
                                    ) {
                                        Err(e) => Err(e),
                                        Ok(contours) => Ok(GlyphView { contours, bounds }),
                                    },
                                },
                            },
                        }
                    },
                },
            }
        },
    }
}

/// `x` clamped into the range of `i16`.
pub open spec fn clamp_i16(x: int) -> i16 {
    if x < -32768 {
        -32768i16
    } else if x > 32767 {
        32767i16
    } else {
        x as i16
    }
}

/// Every point moved by `(dx, dy)`, clamped into the range of `i16`.
pub open spec fn translated(cs: Seq<Seq<GlyphPoint>>, dx: int, dy: int) -> Seq<Seq<GlyphPoint>> {
    cs.map_values(
        |c: Seq<GlyphPoint>|
            c.map_values(
                |p: GlyphPoint| GlyphPoint { x: clamp_i16(p.x + dx), y: clamp_i16(p.y + dy), on_curve: p.on_curve },
            ),
    )
}

/// What glyph outlines are read from: the file, its table directory,
/// the `loca` format and the limits of compound glyphs.
pub struct GlyphSource {
    pub bytes: Seq<u8>,
    pub dir: Seq<TableDirectory>,
    pub long_loca: bool,
    pub max_depth: u16,
    pub max_elements: u16,
}

pub open spec fn depth_error(depth: int, max: u16) -> TableParsingError {
    TableParsingError::CompositeDepthExceeded { count: depth as u32, max: max as u32 }
}

/// The outline of glyph `gid`, as a component nested `depth` deep.
pub open spec fn glyph_data(s: GlyphSource, gid: int, depth: int) -> Result<GlyphView, TableParsingError>
    decreases s.max_depth + 1 - depth, 2int, 0int,
{
    if depth > s.max_depth {
        Err(depth_error(depth, s.max_depth))
    } else {
        match glyph_location(s.bytes, s.dir, gid, s.long_loca) {
            Err(e) => Err(e),
            Ok((start, _end)) => glyph_at(s, start as int, depth),
        }
    }
}

/// The outline of the glyph whose data starts `start` bytes into `glyf`.
pub open spec fn glyph_at(s: GlyphSource, start: int, depth: int) -> Result<GlyphView, TableParsingError>
    decreases s.max_depth + 1 - depth, 1int, 0int,
{
    match table_offset(s.dir, glyf_tag()) {
        None => Err(TableParsingError::MalformedTable),
        Some(glyf) => {
            let gs = glyf + start;
            let b = s.bytes;
            match read_i16(b, gs) {
                Err(e) => Err(e),
                Ok(nc) => match read_i16(b, gs + 2) {
                    Err(e) => Err(e),
                    Ok(x_min) => match read_i16(b, gs + 4) {
                        Err(e) => Err(e),
                        Ok(y_min) => match read_i16(b, gs + 6) {
                            Err(e) => Err(e),
                            Ok(x_max) => match read_i16(b, gs + 8) {
                                Err(e) => Err(e),
                                Ok(y_max) => {
                                    let bounds = GlyphBounds { x_min, y_min, x_max, y_max };
                                    if nc >= 0 {
                                        simple_glyph(b, gs, nc as int, bounds)
                                    } else {
                                        match compound_from(s, gs + 10, depth, 0, Seq::empty()) {
                                            Err(e) => Err(e),
                                            Ok(contours) => Ok(GlyphView { contours, bounds }),
                                        }
                                    }
                                },
                            },
                        },
                    },
                },
            }
        },
    }
}

/// Where a component's arguments end, and the two arguments.
pub open spec fn component_args(b: Seq<u8>, at: int, words: bool) -> Result<(int, int, int), TableParsingError> {
    if words {
        match read_i16(b, at) {
            Err(e) => Err(e),
            Ok(a1) => match read_i16(b, at + 2) {
                Err(e) => Err(e),
                Ok(a2) => Ok((at + 4, a1 as int, a2 as int)),
            },
        }
    } else {
        match read_i8(b, at) {
            Err(e) => Err(e),
            Ok(a1) => match read_i8(b, at + 1) {
                Err(e) => Err(e),
                Ok(a2) => Ok((at + 2, a1 as int, a2 as int)),
            },
        }
    }
}

/// The bytes of transform data a component's flags announce.
pub open spec fn transform_size(flags: u16) -> int {
    (if component_flag_set(flags, 3) { 2int } else { 0int })
        + (if component_flag_set(flags, 6) { 4int } else { 0int })
        + (if component_flag_set(flags, 7) { 8int } else { 0int })
}

/// The contours of the components of a compound glyph from `cursor` on,
/// component `i` first, appended to `acc`. Each component's glyph is read
/// one level deeper and moved by its two arguments (a component whose
/// arguments are not offsets is read as glyph 0); more than
/// `max_elements + 1` components are refused.
pub open spec fn compound_from(
    s: GlyphSource,
    cursor: int,
    depth: int,
    i: int,
    acc: Seq<Seq<GlyphPoint>>,
) -> Result<Seq<Seq<GlyphPoint>>, TableParsingError>
    decreases s.max_depth + 1 - depth, 0int, s.bytes.len() + 16 - cursor,
{
    let b = s.bytes;
    if depth > s.max_depth {
        Err(depth_error(depth, s.max_depth))
    } else {
        match read_u16(b, cursor) {
            Err(e) => Err(e),
            Ok(flags) => match read_u16(b, cursor + 2) {
                Err(e) => Err(e),
                Ok(index) => match component_args(b, cursor + 4, component_flag_set(flags, 0)) {
                    Err(e) => Err(e),
                    Ok((after_args, dx, dy)) => {
                        let next = after_args + transform_size(flags);
                        let gid = if component_flag_set(flags, 1) { index as int } else { 0int };
                        match glyph_data(s, gid, depth + 1) {
                            Err(e) => Err(e),
                            Ok(sub) => {
                                let acc2 = acc + translated(sub.contours, dx, dy);
                                if s.max_elements < i {
                                    Err(TableParsingError::CompositeDepthExceeded {
                                        count: i as u32,
                                        max: s.max_elements as u32,
                                    })
                                } else if !component_flag_set(flags, 5) {
                                    Ok(acc2)
                                } else {
                                    compound_from(s, next, depth, i + 1, acc2)
                                }
                            },
                        }
                    },
                },
            },
        }
    }
}

} // verus!
