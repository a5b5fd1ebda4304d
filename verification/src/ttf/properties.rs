//! What reading a glyph means, stated straight from the bytes of the font:
//! the header bounds, the contours of a simple glyph, the placement of a
//! compound glyph's components, the format-12 `cmap` groups and the
//! advance widths of `hmtx`.

use vstd::prelude::*;

use crate::ttf::font::{GlyphBounds, GlyphPoint, GlyphView};
use crate::ttf::tables::{
    bearings_after, format4_hit, component_flag_set, deltas_from, flags_from, simple_glyph, u16s_from, compound_from, format4_from, format4_glyph, contours_from, flag_set, format12_from, format12_glyph, glyf_tag, glyph_at, glyph_data, glyph_index_of, glyph_location, hmtx_lsb, hmtx_tag, loca_tag, table_offset, widths_after, GlyphSource,
};
use crate::ttf::parser::TableDirectory;
use crate::ttf::parser_errors::TableParsingError;

verus! {

/// The two bytes at `at` as an unsigned number, most significant first.
pub open spec fn word(b: Seq<u8>, at: int) -> int {
    b[at] as int * 256 + b[at + 1] as int
}

/// The two bytes at `at` as a two's-complement number.
pub open spec fn signed_word(b: Seq<u8>, at: int) -> int {
    if word(b, at) < 32768 { word(b, at) } else { word(b, at) - 65536 }
}

/// The four bytes at `at` as an unsigned number, most significant first.
pub open spec fn long_word(b: Seq<u8>, at: int) -> int {
    word(b, at) * 65536 + word(b, at + 2)
}

/// A glyph read from the font has as bounds the four signed words of its
/// `glyf` header, in order: `x_min` two bytes after the glyph's start,
/// then `y_min`, `x_max` and `y_max`.
pub proof fn lemma_glyph_bounds_from_header(s: GlyphSource, gid: int, depth: int)
    requires
        glyph_data(s, gid, depth) is Ok,
    ensures
        glyph_location(s.bytes, s.dir, gid, s.long_loca) is Ok,
        table_offset(s.dir, glyf_tag()) is Some,
        ({
            let gs = table_offset(s.dir, glyf_tag())->0 + glyph_location(s.bytes, s.dir, gid, s.long_loca)->Ok_0.0;
            let g = glyph_data(s, gid, depth)->Ok_0;
            &&& gs + 10 <= s.bytes.len()
            &&& g.bounds.x_min == signed_word(s.bytes, gs + 2)
            &&& g.bounds.y_min == signed_word(s.bytes, gs + 4)
            &&& g.bounds.x_max == signed_word(s.bytes, gs + 6)
            &&& g.bounds.y_max == signed_word(s.bytes, gs + 8)
        }),
{
    let (start, _end) = glyph_location(s.bytes, s.dir, gid, s.long_loca)->Ok_0;
    assert(glyph_data(s, gid, depth) == glyph_at(s, start as int, depth));
    assert(glyph_at(s, start as int, depth) is Ok);
}

/// Recording a glyph's metrics records, where the `hmtx` table can be read
/// there, as its advance width the word at the start of its own long
/// metric, four bytes per metric; a glyph past the long metrics takes the
/// last long metric's width. Where that word lies past the file, no width
/// is recorded.
pub proof fn lemma_advance_width_from_hmtx(
    w: Map<u32, u16>,
    b: Seq<u8>,
    dir: Seq<TableDirectory>,
    nm: u16,
    gid: u32,
    cp: u32,
)
    requires
        table_offset(dir, hmtx_tag()) is Some,
        hmtx_lsb(b, dir, nm, gid) is Ok,
    ensures
        nm > 0,
        ({
            let at = table_offset(dir, hmtx_tag())->0 + 4 * (if gid < nm { gid as int } else { nm - 1 });
            if at + 2 <= b.len() {
                widths_after(w, b, dir, nm, gid, cp) == w.insert(cp, word(b, at) as u16)
            } else {
                widths_after(w, b, dir, nm, gid, cp) == w
            }
        }),
{
}

/// The first code point of group `j` of a format-12 subtable at `abs`:
/// groups are three long words each, twelve bytes apart, after a sixteen
/// byte header.
pub open spec fn group_start(b: Seq<u8>, abs: int, j: int) -> int {
    long_word(b, abs + 16 + 12 * j)
}

/// The last code point of group `j`.
pub open spec fn group_end(b: Seq<u8>, abs: int, j: int) -> int {
    long_word(b, abs + 16 + 12 * j + 4)
}

/// The glyph of group `j`'s first code point.
pub open spec fn group_glyph(b: Seq<u8>, abs: int, j: int) -> int {
    long_word(b, abs + 16 + 12 * j + 8)
}

/// Group `j` holds `cp`.
pub open spec fn group_holds(b: Seq<u8>, abs: int, j: int, cp: u32) -> bool {
    group_start(b, abs, j) <= cp <= group_end(b, abs, j)
}

/// The number of groups, the long word twelve bytes into the subtable,
/// and all of them lie inside the file.
pub open spec fn groups_readable(b: Seq<u8>, abs: int) -> bool {
    &&& 0 <= abs
    &&& abs + 16 <= b.len()
    &&& abs + 16 + 12 * long_word(b, abs + 12) <= b.len()
}

proof fn lemma_long_word_read(b: Seq<u8>, at: int)
    requires
        0 <= at,
        at + 4 <= b.len(),
    ensures
        crate::ttf::be::read_u32(b, at) == Ok::<u32, TableParsingError>(long_word(b, at) as u32),
        0 <= long_word(b, at) <= u32::MAX,
{
}

proof fn lemma_format12_from(b: Seq<u8>, abs: int, n: int, cp: u32, i: int, k: int)
    requires
        0 <= abs,
        abs + 16 + 12 * n <= b.len(),
        0 <= i <= k <= n,
        k < n ==> group_holds(b, abs, k, cp),
        forall|j: int| i <= j < k ==> !#[trigger] group_holds(b, abs, j, cp),
    ensures
        format12_from(b, abs, n, cp, i) == if k < n {
            Ok::<u32, TableParsingError>(((group_glyph(b, abs, k) + cp - group_start(b, abs, k)) % 0x1_0000_0000) as u32)
        } else {
            Ok::<u32, TableParsingError>(0)
        },
    decreases k - i,
{
    if i < n {
        let g = abs + 16 + 12 * i;
        lemma_long_word_read(b, g);
        lemma_long_word_read(b, g + 4);
        lemma_long_word_read(b, g + 8);
        if i < k {
            assert(!group_holds(b, abs, i, cp));
            lemma_format12_from(b, abs, n, cp, i + 1, k);
        }
    }
}

/// A format-12 subtable maps a code point to the glyph of the first group
/// that holds it, plus its distance from the group's first code point
/// (modulo 2^32); a code point no group holds maps to glyph 0.
pub proof fn lemma_format12_lookup(b: Seq<u8>, abs: int, cp: u32, k: int)
    requires
        groups_readable(b, abs),
        0 <= k <= long_word(b, abs + 12),
        k < long_word(b, abs + 12) ==> group_holds(b, abs, k, cp),
        forall|j: int| 0 <= j < k ==> !#[trigger] group_holds(b, abs, j, cp),
    ensures
        format12_glyph(b, abs, cp) == if k < long_word(b, abs + 12) {
            Ok::<u32, TableParsingError>(((group_glyph(b, abs, k) + cp - group_start(b, abs, k)) % 0x1_0000_0000) as u32)
        } else {
            Ok::<u32, TableParsingError>(0)
        },
{
    lemma_long_word_read(b, abs + 12);
    lemma_format12_from(b, abs, long_word(b, abs + 12), cp, 0, k);
}

/// Point `i` of a simple glyph: its coordinates, on the curve where bit 0
/// of its flag is set.
pub open spec fn point_at(flags: Seq<u8>, xs: Seq<i16>, ys: Seq<i16>, i: int) -> GlyphPoint {
    GlyphPoint { x: xs[i], y: ys[i], on_curve: flags[i] & 1u8 == 1u8 }
}

/// The index of the first point of contour `k`: 0, or one past the end of
/// the contour before.
pub open spec fn contour_first(ends: Seq<u16>, k: int) -> int {
    if k == 0 { 0 } else { ends[k - 1] + 1 }
}

/// Each contour ends after the one before.
pub open spec fn ends_increasing(ends: Seq<u16>) -> bool {
    forall|a: int, c: int| 0 <= a < c < ends.len() ==> ends[a] < ends[c]
}

/// `cs` are the first `n` contours that the contour ends `ends` cut out
/// of the points: contour `k` holds points `contour_first(k)` up to and
/// including `ends[k]`, in order.
pub open spec fn contours_cut(cs: Seq<Seq<GlyphPoint>>, flags: Seq<u8>, xs: Seq<i16>, ys: Seq<i16>, ends: Seq<u16>, n: int) -> bool {
    &&& cs.len() == n
    &&& forall|k: int| 0 <= k < n ==> (#[trigger] cs[k]).len() == ends[k] + 1 - contour_first(ends, k)
    &&& forall|k: int, j: int| 0 <= k < n && 0 <= j < cs[k].len() ==> #[trigger] cs[k][j] == point_at(flags, xs, ys, contour_first(ends, k) + j)
}

proof fn lemma_contours_step(
    flags: Seq<u8>,
    xs: Seq<i16>,
    ys: Seq<i16>,
    ends: Seq<u16>,
    i: int,
    ci: int,
    cur: Seq<GlyphPoint>,
    acc: Seq<Seq<GlyphPoint>>,
)
    requires
        ends_increasing(ends),
        flags.len() >= (if ends.len() == 0 { 0 } else { ends.last() + 1 }),
        xs.len() >= flags.len(),
        ys.len() >= flags.len(),
        0 <= ci <= ends.len(),
        ci == ends.len() ==> cur.len() == 0,
        contours_cut(acc, flags, xs, ys, ends, ci),
        0 <= i <= flags.len(),
        i == contour_first(ends, ci) + cur.len(),
        forall|j: int| 0 <= j < cur.len() ==> #[trigger] cur[j] == point_at(flags, xs, ys, contour_first(ends, ci) + j),
        ci < ends.len() ==> i <= ends[ci],
    ensures
        flags.len() == (if ends.len() == 0 { 0 } else { ends.last() + 1 }) ==> (
            contours_from(flags, xs, ys, ends, i, ci, cur, acc) matches Ok(cs) && contours_cut(cs, flags, xs, ys, ends, ends.len() as int)),
        flags.len() > (if ends.len() == 0 { 0 } else { ends.last() + 1 }) ==>
            contours_from(flags, xs, ys, ends, i, ci, cur, acc) is Err,
    decreases flags.len() - i,
{
    let n = ends.len() as int;
    if i >= flags.len() {
        if ci < n {
            assert(ends[ci] <= ends[n - 1]);
        }
    } else if ci == n {
    } else {
        let f = flags[i];
        assert(flag_set(f, 0) == (f & 1u8 == 1u8)) by (bit_vector);
        let p = GlyphPoint { x: xs[i], y: ys[i], on_curve: flag_set(f, 0) };
        assert(p == point_at(flags, xs, ys, i));
        let cur2 = cur.push(p);
        if i == ends[ci] {
            let acc2 = acc.push(cur2);
            assert forall|k: int, j: int| 0 <= k < ci + 1 && 0 <= j < acc2[k].len() implies #[trigger] acc2[k][j] == point_at(flags, xs, ys, contour_first(ends, k) + j) by {
                if k < ci {
                    assert(acc2[k] == acc[k]);
                }
            }
            if ci + 1 < n {
                assert(ends[ci] < ends[ci + 1]);
            }
            lemma_contours_step(flags, xs, ys, ends, i + 1, ci + 1, Seq::empty(), acc2);
        } else {
            lemma_contours_step(flags, xs, ys, ends, i + 1, ci, cur2, acc);
        }
    }
}

/// The points of a simple glyph, cut by contour ends that increase and
/// end at its last point, give one contour per end, in order: contour `k`
/// holds exactly the points after the end before it, up to and including
/// its own end, so that together they hold every point once.
pub proof fn lemma_contours_cut_at_ends(flags: Seq<u8>, xs: Seq<i16>, ys: Seq<i16>, ends: Seq<u16>)
    requires
        ends_increasing(ends),
        flags.len() == (if ends.len() == 0 { 0 } else { ends.last() + 1 }),
        xs.len() >= flags.len(),
        ys.len() >= flags.len(),
    ensures
        contours_from(flags, xs, ys, ends, 0, 0, Seq::empty(), Seq::empty()) matches Ok(cs)
            && contours_cut(cs, flags, xs, ys, ends, ends.len() as int),
{
    lemma_contours_step(flags, xs, ys, ends, 0, 0, Seq::empty(), Seq::empty());
}

/// A byte as a two's-complement number.
pub open spec fn signed_byte(v: u8) -> int {
    if v < 128 { v as int } else { v - 256 }
}

/// `v` clamped into the range of a signed 16-bit number.
pub open spec fn bounded(v: int) -> int {
    if v < -32768 { -32768 } else if v > 32767 { 32767 } else { v }
}

/// The offsets a component starting at `at` is moved by: two signed words
/// after its flags and glyph index where bit 0 of its flags is set, else
/// two signed bytes.
pub open spec fn component_offsets(b: Seq<u8>, at: int) -> (int, int) {
    if word(b, at) % 2 == 1 {
        (signed_word(b, at + 4), signed_word(b, at + 6))
    } else {
        (signed_byte(b[at + 4]), signed_byte(b[at + 5]))
    }
}

/// The glyph a component starting at `at` draws: its glyph index where
/// bit 1 of its flags is set, else glyph 0.
pub open spec fn component_glyph(b: Seq<u8>, at: int) -> int {
    if (word(b, at) / 2) % 2 == 1 { word(b, at + 2) } else { 0 }
}

proof fn lemma_components_extend(s: GlyphSource, cursor: int, depth: int, i: int, acc: Seq<Seq<GlyphPoint>>)
    requires
        compound_from(s, cursor, depth, i, acc) is Ok,
    ensures
        compound_from(s, cursor, depth, i, acc)->Ok_0.len() >= acc.len(),
        compound_from(s, cursor, depth, i, acc)->Ok_0.subrange(0, acc.len() as int) == acc,
    decreases s.bytes.len() + 16 - cursor,
{
    let b = s.bytes;
    let flags = crate::ttf::be::read_u16(b, cursor)->Ok_0;
    let (after_args, dx, dy) = crate::ttf::tables::component_args(b, cursor + 4, component_flag_set(flags, 0))->Ok_0;
    let next = after_args + crate::ttf::tables::transform_size(flags);
    let gid = if component_flag_set(flags, 1) { crate::ttf::be::read_u16(b, cursor + 2)->Ok_0 as int } else { 0int };
    let sub = glyph_data(s, gid, depth + 1)->Ok_0;
    let acc2 = acc + crate::ttf::tables::translated(sub.contours, dx, dy);
    if s.max_elements >= i && component_flag_set(flags, 5) {
        assert(compound_from(s, cursor, depth, i, acc) == compound_from(s, next, depth, i + 1, acc2));
        lemma_components_extend(s, next, depth, i + 1, acc2);
        let cs = compound_from(s, next, depth, i + 1, acc2)->Ok_0;
        assert(cs.subrange(0, acc.len() as int) =~= cs.subrange(0, acc2.len() as int).subrange(0, acc.len() as int));
        assert(acc2.subrange(0, acc.len() as int) =~= acc);
    } else {
        assert(acc2.subrange(0, acc.len() as int) =~= acc);
    }
}

proof fn lemma_component_args(b: Seq<u8>, cursor: int, flags: u16)
    requires
        0 <= cursor,
        cursor + 2 <= b.len(),
        flags == word(b, cursor),
        crate::ttf::tables::component_args(b, cursor + 4, component_flag_set(flags, 0)) is Ok,
    ensures
        ({
            let (_after, dx, dy) = crate::ttf::tables::component_args(b, cursor + 4, component_flag_set(flags, 0))->Ok_0;
            (dx, dy) == component_offsets(b, cursor)
        }),
{
    assert(component_flag_set(flags, 0) == (flags % 2 == 1)) by (bit_vector);
}

/// Reading the components of a compound glyph from `cursor` after the
/// contours `acc`: the first component's glyph is read one level deeper,
/// and its contours follow `acc`, each point moved by exactly the
/// component's offsets, clamped into 16 bits; where the component says no
/// more follow, that is the whole result.
pub proof fn lemma_component_moved_by_offsets(s: GlyphSource, cursor: int, depth: int, i: int, acc: Seq<Seq<GlyphPoint>>)
    requires
        compound_from(s, cursor, depth, i, acc) is Ok,
    ensures
        0 <= cursor,
        cursor + 6 <= s.bytes.len(),
        glyph_data(s, component_glyph(s.bytes, cursor), depth + 1) is Ok,
        ({
            let b = s.bytes;
            let (dx, dy) = component_offsets(b, cursor);
            let sub = glyph_data(s, component_glyph(b, cursor), depth + 1)->Ok_0.contours;
            let cs = compound_from(s, cursor, depth, i, acc)->Ok_0;
            &&& cs.len() >= acc.len() + sub.len()
            &&& (word(b, cursor) / 32) % 2 == 0 ==> cs.len() == acc.len() + sub.len()
            &&& forall|k: int| 0 <= k < acc.len() ==> #[trigger] cs[k] == acc[k]
            &&& forall|k: int| 0 <= k < sub.len() ==> #[trigger] cs[acc.len() + k].len() == sub[k].len()
            &&& forall|k: int, j: int| 0 <= k < sub.len() && 0 <= j < sub[k].len() ==> {
                let p = #[trigger] cs[acc.len() + k][j];
                let q = sub[k][j];
                &&& p.x == bounded(q.x + dx)
                &&& p.y == bounded(q.y + dy)
                &&& p.on_curve == q.on_curve
            }
        }),
{
    let b = s.bytes;
    let flags = crate::ttf::be::read_u16(b, cursor)->Ok_0;
    assert(component_flag_set(flags, 1) == ((flags / 2) % 2 == 1)) by (bit_vector);
    assert(component_flag_set(flags, 5) == ((flags / 32) % 2 == 1)) by (bit_vector);
    lemma_component_args(b, cursor, flags);
    let (after_args, dx, dy) = crate::ttf::tables::component_args(b, cursor + 4, component_flag_set(flags, 0))->Ok_0;
    let next = after_args + crate::ttf::tables::transform_size(flags);
    let gid = component_glyph(b, cursor);
    let sub = glyph_data(s, gid, depth + 1)->Ok_0;
    let moved = crate::ttf::tables::translated(sub.contours, dx, dy);
    let acc2 = acc + moved;
    let cs = compound_from(s, cursor, depth, i, acc)->Ok_0;
    if s.max_elements >= i && component_flag_set(flags, 5) {
        assert(cs == compound_from(s, next, depth, i + 1, acc2)->Ok_0);
        lemma_components_extend(s, next, depth, i + 1, acc2);
        assert(cs.subrange(0, acc2.len() as int) == acc2);
        assert forall|k: int| 0 <= k < acc2.len() implies #[trigger] cs[k] == acc2[k] by {
            assert(cs.subrange(0, acc2.len() as int)[k] == cs[k]);
        }
    } else {
        assert(cs == acc2);
    }
    assert forall|k: int| 0 <= k < acc.len() implies #[trigger] cs[k] == acc[k] by {
        assert(cs[k] == acc2[k]);
    }
    assert forall|k: int| 0 <= k < sub.contours.len() implies #[trigger] cs[acc.len() + k].len() == sub.contours[k].len() by {
        assert(cs[acc.len() + k] == acc2[acc.len() + k]);
        assert(acc2[acc.len() + k] == moved[k]);
    }
    assert forall|k: int, j: int| 0 <= k < sub.contours.len() && 0 <= j < sub.contours[k].len() implies {
        let p = #[trigger] cs[acc.len() + k][j];
        let q = sub.contours[k][j];
        &&& p.x == bounded(q.x + dx)
        &&& p.y == bounded(q.y + dy)
        &&& p.on_curve == q.on_curve
    } by {
        assert(cs[acc.len() + k] == acc2[acc.len() + k]);
        assert(acc2[acc.len() + k] == moved[k]);
    }
}

/// Recording a glyph's metrics records, where it can be read, as its left
/// side bearing the signed word two bytes into its own long metric; a
/// glyph past the long metrics takes the signed word `gid - nm` bytes
/// after them. Where that word lies past the file, no bearing is recorded.
pub proof fn lemma_bearing_from_hmtx(
    l: Map<u32, i16>,
    b: Seq<u8>,
    dir: Seq<TableDirectory>,
    nm: u16,
    gid: u32,
    cp: u32,
)
    requires
        table_offset(dir, hmtx_tag()) is Some,
        gid < nm || nm > 0,
    ensures
        ({
            let o = table_offset(dir, hmtx_tag())->0;
            let at = if gid < nm { o + 4 * gid + 2 } else { o + 4 * nm + (gid - nm) };
            if at + 2 <= b.len() {
                bearings_after(l, b, dir, nm, gid, cp) == l.insert(cp, signed_word(b, at) as i16)
            } else {
                bearings_after(l, b, dir, nm, gid, cp) == l
            }
        }),
{
}

/// `loca` gives where glyph `gid`'s data starts and ends in `glyf`: in the
/// long form two long words, four bytes per glyph; in the short form two
/// words, two bytes per glyph, each doubled.
pub proof fn lemma_glyph_location_from_loca(b: Seq<u8>, dir: Seq<TableDirectory>, gid: int, long: bool)
    requires
        table_offset(dir, loca_tag()) is Some,
        gid >= 0,
    ensures
        ({
            let o = table_offset(dir, loca_tag())->0;
            if long {
                o + 4 * gid + 8 <= b.len() ==> glyph_location(b, dir, gid, long) == Ok::<(u32, u32), TableParsingError>(
                    (long_word(b, o + 4 * gid) as u32, long_word(b, o + 4 * gid + 4) as u32))
            } else {
                o + 2 * gid + 4 <= b.len() ==> glyph_location(b, dir, gid, long) == Ok::<(u32, u32), TableParsingError>(
                    ((2 * word(b, o + 2 * gid)) as u32, (2 * word(b, o + 2 * gid + 2)) as u32))
            }
        }),
{
    let o = table_offset(dir, loca_tag())->0;
    if long && o + 4 * gid + 8 <= b.len() {
        lemma_long_word_read(b, o + 4 * gid);
        lemma_long_word_read(b, o + 4 * gid + 4);
    }
}

/// The number of segments of a format-4 subtable at `abs`: half the word
/// six bytes in.
pub open spec fn seg_count(b: Seq<u8>, abs: int) -> int {
    word(b, abs + 6) / 2
}

/// The last code point of segment `j`: the end codes follow the fourteen
/// byte header.
pub open spec fn seg_end(b: Seq<u8>, abs: int, j: int) -> int {
    word(b, abs + 14 + 2 * j)
}

/// The first code point of segment `j`: the start codes follow the end
/// codes and a reserved word.
pub open spec fn seg_start(b: Seq<u8>, abs: int, j: int) -> int {
    word(b, abs + 16 + 2 * seg_count(b, abs) + 2 * j)
}

/// The delta of segment `j`, a signed word after the start codes.
pub open spec fn seg_delta(b: Seq<u8>, abs: int, j: int) -> int {
    signed_word(b, abs + 16 + 4 * seg_count(b, abs) + 2 * j)
}

/// Where the range offset of segment `j` lies, after the deltas.
pub open spec fn seg_range_offset_at(b: Seq<u8>, abs: int, j: int) -> int {
    abs + 16 + 6 * seg_count(b, abs) + 2 * j
}

/// Segment `j` holds `cp`.
pub open spec fn seg_holds(b: Seq<u8>, abs: int, j: int, cp: u32) -> bool {
    seg_start(b, abs, j) <= cp <= seg_end(b, abs, j)
}

/// The glyph segment `k` gives `cp`: the code point plus the delta where
/// the range offset is 0; otherwise the glyph index array entry that the
/// range offset (in whole words) and the distance from the segment's start
/// point to, plus the delta, with 0 staying 0; all modulo 2^16. `None`
/// where that entry lies past the file.
pub open spec fn seg_glyph(b: Seq<u8>, abs: int, k: int, cp: u32) -> Option<int> {
    let ro_at = seg_range_offset_at(b, abs, k);
    let ro = word(b, ro_at);
    if ro == 0 {
        Some((cp + seg_delta(b, abs, k)) % 65536)
    } else {
        let at = ro_at + 2 * (ro / 2) + 2 * (cp - seg_start(b, abs, k));
        if at + 2 <= b.len() {
            let raw = word(b, at);
            Some(if raw == 0 { 0 } else { (raw + seg_delta(b, abs, k)) % 65536 })
        } else {
            None
        }
    }
}

proof fn lemma_format4_hit(b: Seq<u8>, abs: int, n: int, cp: u32, k: int)
    requires
        0 <= abs,
        n == seg_count(b, abs),
        abs + 16 + 8 * n <= b.len(),
        0 <= k < n,
        seg_holds(b, abs, k, cp),
        seg_glyph(b, abs, k, cp) is Some,
    ensures
        format4_hit(b, abs + 16 + 6 * n + 2 * k, abs + 16 + 4 * n + 2 * k, cp, seg_start(b, abs, k) as u16)
            == Ok::<u32, TableParsingError>(seg_glyph(b, abs, k, cp)->0 as u32),
{
}

proof fn lemma_format4_from(b: Seq<u8>, abs: int, n: int, cp: u32, i: int, k: int)
    requires
        0 <= abs,
        n == seg_count(b, abs),
        abs + 16 + 8 * n <= b.len(),
        0 <= i <= k <= n,
        k < n ==> seg_holds(b, abs, k, cp) && seg_glyph(b, abs, k, cp) is Some,
        forall|j: int| i <= j < k ==> !#[trigger] seg_holds(b, abs, j, cp),
    ensures
        format4_from(b, abs, n, cp, i) == if k < n {
            Ok::<u32, TableParsingError>(seg_glyph(b, abs, k, cp)->0 as u32)
        } else {
            Ok::<u32, TableParsingError>(0)
        },
    decreases k - i,
{
    if i < n {
        if i < k {
            assert(!seg_holds(b, abs, i, cp));
            lemma_format4_from(b, abs, n, cp, i + 1, k);
        } else if k < n {
            lemma_format4_hit(b, abs, n, cp, k);
        }
    }
}

/// A format-4 subtable maps a code point to the glyph of the first
/// segment that holds it (see `seg_glyph`), and one no segment holds to
/// glyph 0.
pub proof fn lemma_format4_lookup(b: Seq<u8>, abs: int, cp: u32, k: int)
    requires
        0 <= abs,
        abs + 16 <= b.len(),
        word(b, abs) == 4,
        abs + 16 + 8 * seg_count(b, abs) <= b.len(),
        0 <= k <= seg_count(b, abs),
        k < seg_count(b, abs) ==> seg_holds(b, abs, k, cp) && seg_glyph(b, abs, k, cp) is Some,
        forall|j: int| 0 <= j < k ==> !#[trigger] seg_holds(b, abs, j, cp),
    ensures
        format4_glyph(b, abs, cp) == if k < seg_count(b, abs) {
            Ok::<u32, TableParsingError>(seg_glyph(b, abs, k, cp)->0 as u32)
        } else {
            Ok::<u32, TableParsingError>(0)
        },
{
    lemma_format4_from(b, abs, seg_count(b, abs), cp, 0, k);
}

/// Bit `n` of a flag byte is set.
pub open spec fn bit(f: u8, n: u8) -> bool {
    (f >> n) & 1u8 == 1u8
}

/// The bytes a coordinate with flag `f` takes: one where bit `short` is
/// set, none where instead bit `same` is set, else two.
pub open spec fn coord_size(f: u8, short: u8, same: u8) -> int {
    if bit(f, short) { 1 } else if bit(f, same) { 0 } else { 2 }
}

/// Where the coordinate of point `k` starts, counted from the first: the
/// sizes of the coordinates before it.
pub open spec fn coord_offset(flags: Seq<u8>, k: int, short: u8, same: u8) -> int
    decreases k,
{
    if k <= 0 { 0 } else { coord_offset(flags, k - 1, short, same) + coord_size(flags[k - 1], short, same) }
}

/// The coordinate change with flag `f` whose bytes start at `at`: one
/// byte, positive where bit `same` is set and negative otherwise; none;
/// or a signed word.
pub open spec fn coord_delta(b: Seq<u8>, at: int, f: u8, short: u8, same: u8) -> int {
    if bit(f, short) {
        if bit(f, same) { b[at] as int } else { -(b[at] as int) }
    } else if bit(f, same) {
        0
    } else {
        signed_word(b, at)
    }
}

proof fn lemma_deltas_step(
    b: Seq<u8>,
    flags: Seq<u8>,
    k: int,
    cursor: int,
    start: int,
    short: u8,
    same: u8,
    acc: Seq<i16>,
)
    requires
        0 <= k <= flags.len(),
        acc.len() == k,
        cursor == start + coord_offset(flags, k, short, same),
        forall|j: int| 0 <= j < k ==> #[trigger] acc[j] == coord_delta(b, start + coord_offset(flags, j, short, same), flags[j], short, same),
        deltas_from(b, flags, k, cursor, short, same, acc) is Ok,
    ensures
        ({
            let (d, end) = deltas_from(b, flags, k, cursor, short, same, acc)->Ok_0;
            &&& d.len() == flags.len()
            &&& end == start + coord_offset(flags, flags.len() as int, short, same)
            &&& forall|j: int| 0 <= j < flags.len() ==> #[trigger] d[j] == coord_delta(b, start + coord_offset(flags, j, short, same), flags[j], short, same)
        }),
    decreases flags.len() - k,
{
    if k < flags.len() {
        let f = flags[k];
        let v: i16 = if flag_set(f, short) {
            let u = b[cursor];
            if flag_set(f, same) { u as i16 } else { (-u) as i16 }
        } else if flag_set(f, same) {
            0i16
        } else {
            crate::ttf::be::read_i16(b, cursor)->Ok_0
        };
        assert(v == coord_delta(b, cursor, f, short, same));
        let acc2 = acc.push(v);
        let c2 = cursor + coord_size(f, short, same);
        assert(deltas_from(b, flags, k, cursor, short, same, acc) == deltas_from(b, flags, k + 1, c2, short, same, acc2));
        lemma_deltas_step(b, flags, k + 1, c2, start, short, same, acc2);
    }
}

/// Decoding the coordinates of the points with flags `flags` from `start`
/// gives one change per point, in order: point `k`'s change is read where
/// the coordinates before it end (see `coord_delta`), and the coordinates
/// end after all of them.
pub proof fn lemma_deltas_decoded(b: Seq<u8>, flags: Seq<u8>, start: int, short: u8, same: u8)
    requires
        deltas_from(b, flags, 0, start, short, same, Seq::empty()) is Ok,
    ensures
        ({
            let (d, end) = deltas_from(b, flags, 0, start, short, same, Seq::empty())->Ok_0;
            &&& d.len() == flags.len()
            &&& end == start + coord_offset(flags, flags.len() as int, short, same)
            &&& forall|j: int| 0 <= j < flags.len() ==> #[trigger] d[j] == coord_delta(b, start + coord_offset(flags, j, short, same), flags[j], short, same)
        }),
{
    lemma_deltas_step(b, flags, 0, start, start, short, same, Seq::empty());
}

proof fn lemma_flags_extend(b: Seq<u8>, mark: int, target: int, acc: Seq<u8>)
    requires
        flags_from(b, mark, target, acc) is Ok,
    ensures
        flags_from(b, mark, target, acc)->Ok_0.0.len() >= target,
        flags_from(b, mark, target, acc)->Ok_0.0.len() >= acc.len(),
        flags_from(b, mark, target, acc)->Ok_0.0.subrange(0, acc.len() as int) == acc,
    decreases (if target > acc.len() { target - acc.len() } else { 0 }),
{
    if acc.len() < target {
        let f = b[mark];
        if flag_set(f, 3) {
            let count = b[mark + 1];
            let run = Seq::new((count + 1) as nat, |_j: int| f);
            lemma_flags_extend(b, mark + 2, target, acc + run);
            let fl = flags_from(b, mark, target, acc)->Ok_0.0;
            assert(fl.subrange(0, acc.len() as int) =~= fl.subrange(0, (acc + run).len() as int).subrange(0, acc.len() as int));
            assert((acc + run).subrange(0, acc.len() as int) =~= acc);
        } else {
            lemma_flags_extend(b, mark + 1, target, acc.push(f));
            let fl = flags_from(b, mark, target, acc)->Ok_0.0;
            assert(fl.subrange(0, acc.len() as int) =~= fl.subrange(0, acc.len() + 1int).subrange(0, acc.len() as int));
            assert(acc.push(f).subrange(0, acc.len() as int) =~= acc);
        }
    } else {
        assert(acc.subrange(0, acc.len() as int) =~= acc);
    }
}

/// Reading at least `target` point flags from `mark`: at least that many
/// come out; and a flag with bit 3 set stands for itself and as many more
/// copies as the byte after it says.
pub proof fn lemma_flags_repeat(b: Seq<u8>, mark: int, target: int)
    requires
        flags_from(b, mark, target, Seq::empty()) is Ok,
        target > 0,
    ensures
        ({
            let fl = flags_from(b, mark, target, Seq::empty())->Ok_0.0;
            &&& fl.len() >= target
            &&& 0 <= mark < b.len()
            &&& fl[0] == b[mark]
            &&& bit(b[mark], 3) ==> mark + 1 < b.len() && fl.len() >= b[mark + 1] + 1
                && forall|j: int| 0 <= j <= b[mark + 1] ==> #[trigger] fl[j] == b[mark]
        }),
{
    lemma_flags_extend(b, mark, target, Seq::empty());
    let f = b[mark];
    let fl = flags_from(b, mark, target, Seq::empty())->Ok_0.0;
    if flag_set(f, 3) {
        let count = b[mark + 1];
        let run = Seq::new((count + 1) as nat, |_j: int| f);
        lemma_flags_extend(b, mark + 2, target, Seq::empty() + run);
        assert(Seq::<u8>::empty() + run =~= run);
        assert forall|j: int| 0 <= j <= count implies #[trigger] fl[j] == f by {
            assert(fl.subrange(0, run.len() as int)[j] == run[j]);
        }
    } else {
        lemma_flags_extend(b, mark + 1, target, Seq::empty().push(f));
        assert(fl.subrange(0, 1)[0] == f);
    }
}

/// Where no flag byte read carries bit 3, the flags are the next `target`
/// bytes, one per point.
pub proof fn lemma_flags_plain(b: Seq<u8>, mark: int, target: int)
    requires
        0 <= mark,
        0 <= target,
        mark + target <= b.len(),
        forall|j: int| 0 <= j < target ==> !bit(#[trigger] b[mark + j], 3),
    ensures
        flags_from(b, mark, target, Seq::empty()) == Ok::<(Seq<u8>, int), TableParsingError>((b.subrange(mark, mark + target), mark + target)),
{
    assert(b.subrange(mark, mark) =~= Seq::<u8>::empty());
    lemma_flags_plain_from(b, mark, target, 0);
}

proof fn lemma_flags_plain_from(b: Seq<u8>, mark: int, target: int, k: int)
    requires
        0 <= mark,
        0 <= k <= target,
        mark + target <= b.len(),
        forall|j: int| 0 <= j < target ==> !bit(#[trigger] b[mark + j], 3),
    ensures
        flags_from(b, mark + k, target, b.subrange(mark, mark + k)) == Ok::<(Seq<u8>, int), TableParsingError>((b.subrange(mark, mark + target), mark + target)),
    decreases target - k,
{
    if k < target {
        assert(!bit(b[mark + k], 3));
        assert(b.subrange(mark, mark + k).push(b[mark + k]) =~= b.subrange(mark, mark + k + 1));
        lemma_flags_plain_from(b, mark, target, k + 1);
    }
}

/// The contour ends of a simple glyph whose header starts at `gs`: `nc`
/// words after the ten-byte header.
pub open spec fn glyph_ends(b: Seq<u8>, gs: int, nc: int) -> Seq<u16> {
    Seq::new(nc as nat, |k: int| word(b, gs + 10 + 2 * k) as u16)
}

proof fn lemma_u16s(b: Seq<u8>, start: int, k: int, n: int, acc: Seq<u16>)
    requires
        0 <= k <= n,
        acc.len() == k,
        forall|j: int| 0 <= j < k ==> #[trigger] acc[j] == word(b, start + 2 * j) as u16,
        u16s_from(b, start, k, n, acc) is Ok,
    ensures
        u16s_from(b, start, k, n, acc)->Ok_0 == Seq::new(n as nat, |j: int| word(b, start + 2 * j) as u16),
    decreases n - k,
{
    if k < n {
        lemma_u16s(b, start, k + 1, n, acc.push(word(b, start + 2 * k) as u16));
    } else {
        assert(acc =~= Seq::new(n as nat, |j: int| word(b, start + 2 * j) as u16));
    }
}

/// A simple glyph read with `nc` contours whose ends increase has exactly
/// `nc` contours, with the bounds of its header; contour `k` holds one
/// point for each index after the end before it up to its own end. A
/// glyph that declares no contours is not read.
pub proof fn lemma_simple_glyph_contours(b: Seq<u8>, gs: int, nc: int, bounds: GlyphBounds)
    requires
        nc >= 0,
        simple_glyph(b, gs, nc, bounds) is Ok,
        ends_increasing(glyph_ends(b, gs, nc)),
    ensures
        ({
            let g = simple_glyph(b, gs, nc, bounds)->Ok_0;
            let ends = glyph_ends(b, gs, nc);
            &&& nc >= 1
            &&& g.bounds == bounds
            &&& g.contours.len() == nc
            &&& forall|k: int| 0 <= k < nc ==> #[trigger] g.contours[k].len() == ends[k] + 1 - contour_first(ends, k)
        }),
{
    lemma_u16s(b, gs + 10, 0, nc, Seq::empty());
    let ends = glyph_ends(b, gs, nc);
    assert(u16s_from(b, gs + 10, 0, nc, Seq::empty())->Ok_0 == ends);
    let il_at = gs + 10 + 2 * nc;
    let il = crate::ttf::be::read_u16(b, il_at)->Ok_0;
    let target = (if ends.len() == 0 { 0 } else { ends.last() as int }) + 1;
    let (flags, x_at) = flags_from(b, il_at + 2 + il, target, Seq::empty())->Ok_0;
    lemma_flags_extend(b, il_at + 2 + il, target, Seq::empty());
    let (dx, y_at) = deltas_from(b, flags, 0, x_at, 1, 4, Seq::empty())->Ok_0;
    lemma_deltas_decoded(b, flags, x_at, 1, 4);
    let (dy, _end) = deltas_from(b, flags, 0, y_at, 2, 5, Seq::empty())->Ok_0;
    lemma_deltas_decoded(b, flags, y_at, 2, 5);
    let xs = crate::ttf::tables::absolute(dx);
    let ys = crate::ttf::tables::absolute(dy);
    lemma_contours_step(flags, xs, ys, ends, 0, 0, Seq::empty(), Seq::empty());
    let cs = contours_from(flags, xs, ys, ends, 0, 0, Seq::empty(), Seq::empty())->Ok_0;
    assert(simple_glyph(b, gs, nc, bounds)->Ok_0.contours == cs);
    assert forall|k: int| 0 <= k < nc implies #[trigger] cs[k].len() == ends[k] + 1 - contour_first(ends, k) by {
        assert(contours_cut(cs, flags, xs, ys, ends, nc));
    }
}

/// A glyph whose header declares a negative number of contours is a
/// compound glyph, whose components start right after the ten-byte
/// header; any other is a simple glyph with that many contours.
pub proof fn lemma_glyph_kind_from_header(s: GlyphSource, gid: int, depth: int)
    requires
        glyph_data(s, gid, depth) is Ok,
    ensures
        ({
            let gs = table_offset(s.dir, glyf_tag())->0 + glyph_location(s.bytes, s.dir, gid, s.long_loca)->Ok_0.0;
            let g = glyph_data(s, gid, depth)->Ok_0;
            let nc = signed_word(s.bytes, gs);
            &&& nc < 0 ==> compound_from(s, gs + 10, depth, 0, Seq::empty()) == Ok::<Seq<Seq<GlyphPoint>>, TableParsingError>(g.contours)
            &&& nc >= 0 ==> simple_glyph(s.bytes, gs, nc, g.bounds) == Ok::<GlyphView, TableParsingError>(g)
        }),
{
    let (start, _end) = glyph_location(s.bytes, s.dir, gid, s.long_loca)->Ok_0;
    assert(glyph_data(s, gid, depth) == glyph_at(s, start as int, depth));
    lemma_glyph_bounds_from_header(s, gid, depth);
}

/// The glyph index `cmap` gives a code point names a glyph of the font:
/// its low sixteen bits are below the number of glyphs; or it is glyph 0,
/// given where `cmap` has no subtable to look in.
pub proof fn lemma_glyph_index_in_range(b: Seq<u8>, dir: Seq<TableDirectory>, num_glyphs: u16, cp: u32)
    requires
        glyph_index_of(b, dir, num_glyphs, cp) is Ok,
    ensures
        glyph_index_of(b, dir, num_glyphs, cp)->Ok_0 % 65536 < num_glyphs
            || glyph_index_of(b, dir, num_glyphs, cp)->Ok_0 == 0,
{
}

/// The coordinate of point `m`: the changes of points `0..=m` added up,
/// wrapping as a signed 16-bit number.
pub open spec fn coord_sum(b: Seq<u8>, flags: Seq<u8>, start: int, short: u8, same: u8, m: int) -> int
    decreases m + 1,
{
    if m < 0 {
        0
    } else {
        (coord_sum(b, flags, start, short, same, m - 1)
            + coord_delta(b, start + coord_offset(flags, m, short, same), flags[m], short, same) + 32768) % 65536 - 32768
    }
}

proof fn lemma_running_sum(b: Seq<u8>, flags: Seq<u8>, start: int, short: u8, same: u8, d: Seq<i16>, m: int)
    requires
        -1 <= m < d.len(),
        d.len() == flags.len(),
        forall|j: int| 0 <= j < flags.len() ==> #[trigger] d[j] == coord_delta(b, start + coord_offset(flags, j, short, same), flags[j], short, same),
    ensures
        crate::ttf::tables::delta_sum(d, m + 1) as int == coord_sum(b, flags, start, short, same, m),
    decreases m + 1,
{
    if m >= 0 {
        lemma_running_sum(b, flags, start, short, same, d, m - 1);
        let prev = crate::ttf::tables::delta_sum(d, m);
        let x = prev + d[m];
        assert(-65536 <= x < 65536);
        assert(crate::ttf::tables::wrap_i16(x) as int == (x + 32768) % 65536 - 32768);
    }
}

/// The points of a simple glyph: where the flags read after its
/// instructions are `flags`, ending at `x_at`, point `m`'s x is the sum of
/// the x changes up to it (one byte where flag bit 1 is set, signed by
/// bit 4; none where only bit 4 is set; else a signed word), and its y
/// likewise from where the x changes end (bits 2 and 5); it is on the
/// curve where bit 0 is set. Contour `k`, point `j` is point
/// `contour_first(k) + j`.
pub proof fn lemma_simple_glyph_points(b: Seq<u8>, gs: int, nc: int, bounds: GlyphBounds)
    requires
        nc >= 0,
        simple_glyph(b, gs, nc, bounds) is Ok,
        ends_increasing(glyph_ends(b, gs, nc)),
    ensures
        ({
            let g = simple_glyph(b, gs, nc, bounds)->Ok_0;
            let ends = glyph_ends(b, gs, nc);
            let il_at = gs + 10 + 2 * nc;
            let target = ends.last() + 1;
            let (flags, x_at) = flags_from(b, il_at + 2 + word(b, il_at), target, Seq::empty())->Ok_0;
            let y_at = x_at + coord_offset(flags, flags.len() as int, 1, 4);
            &&& flags.len() == target
            &&& forall|k: int, j: int| 0 <= k < nc && 0 <= j < g.contours[k].len() ==> {
                let m = contour_first(ends, k) + j;
                let p = #[trigger] g.contours[k][j];
                &&& p.x == coord_sum(b, flags, x_at, 1, 4, m)
                &&& p.y == coord_sum(b, flags, y_at, 2, 5, m)
                &&& p.on_curve == bit(flags[m], 0)
            }
        }),
{
    lemma_simple_glyph_contours(b, gs, nc, bounds);
    lemma_u16s(b, gs + 10, 0, nc, Seq::empty());
    let ends = glyph_ends(b, gs, nc);
    let il_at = gs + 10 + 2 * nc;
    let il = crate::ttf::be::read_u16(b, il_at)->Ok_0;
    let target = (if ends.len() == 0 { 0 } else { ends.last() as int }) + 1;
    let (flags, x_at) = flags_from(b, il_at + 2 + il, target, Seq::empty())->Ok_0;
    lemma_flags_extend(b, il_at + 2 + il, target, Seq::empty());
    let (dx, y_at) = deltas_from(b, flags, 0, x_at, 1, 4, Seq::empty())->Ok_0;
    lemma_deltas_decoded(b, flags, x_at, 1, 4);
    let (dy, _end) = deltas_from(b, flags, 0, y_at, 2, 5, Seq::empty())->Ok_0;
    lemma_deltas_decoded(b, flags, y_at, 2, 5);
    let xs = crate::ttf::tables::absolute(dx);
    let ys = crate::ttf::tables::absolute(dy);
    lemma_contours_step(flags, xs, ys, ends, 0, 0, Seq::empty(), Seq::empty());
    let cs = contours_from(flags, xs, ys, ends, 0, 0, Seq::empty(), Seq::empty())->Ok_0;
    assert(simple_glyph(b, gs, nc, bounds)->Ok_0.contours == cs);
    assert(flags.len() == target);
    assert forall|k: int, j: int| 0 <= k < nc && 0 <= j < cs[k].len() implies {
        let m = contour_first(ends, k) + j;
        let p = #[trigger] cs[k][j];
        &&& p.x == coord_sum(b, flags, x_at, 1, 4, m)
        &&& p.y == coord_sum(b, flags, y_at, 2, 5, m)
        &&& p.on_curve == bit(flags[m], 0)
    } by {
        assert(contours_cut(cs, flags, xs, ys, ends, nc));
        let m = contour_first(ends, k) + j;
        assert(cs[k][j] == point_at(flags, xs, ys, m));
        assert(0 <= m < flags.len()) by {
            if k > 0 {
                assert(ends[k - 1] < ends[k]);
            }
            assert(ends[k] <= ends[nc - 1]);
        }
        lemma_running_sum(b, flags, x_at, 1, 4, dx, m);
        lemma_running_sum(b, flags, y_at, 2, 5, dy, m);
        let fm = flags[m];
        assert(fm & 1u8 == 1u8 <==> bit(fm, 0)) by (bit_vector);
    }
}

} // verus!
