//! The terminal's character grid and its cursor.

use vstd::prelude::*;

pub mod cell;
pub mod cursor;

use crate::terminal::cell::{blank, blank_cell, Cell, CellState};

verus! {

/// A grid of `cols` by `rows` character cells, row after row, with a cursor.
pub struct Terminal {
    pub grid: Vec<Cell>,
    pub cols: u32,
    pub rows: u32,
    pub px_width: u32,
    pub px_height: u32,
    pub cursor_x: u32,
    pub cursor_y: u32,
    pub cell_height_px: u16,
    pub cell_width_px: u16,
}

/// A terminal as mathematical values.
#[verifier::ext_equal]
pub struct TerminalView {
    pub grid: Seq<Cell>,
    pub cols: u32,
    pub rows: u32,
    pub px_width: u32,
    pub px_height: u32,
    pub cursor_x: u32,
    pub cursor_y: u32,
    pub cell_height_px: u16,
    pub cell_width_px: u16,
}

impl View for Terminal {
    type V = TerminalView;

    open spec fn view(&self) -> TerminalView {
        TerminalView {
            grid: self.grid@,
            cols: self.cols,
            rows: self.rows,
            px_width: self.px_width,
            px_height: self.px_height,
            cursor_x: self.cursor_x,
            cursor_y: self.cursor_y,
            cell_height_px: self.cell_height_px,
            cell_width_px: self.cell_width_px,
        }
    }
}

impl TerminalView {
    /// The grid index of the cursor.
    pub open spec fn cursor_index(self) -> int {
        self.cursor_y * self.cols + self.cursor_x
    }

    /// A character can be written at the cursor: it lies inside the grid,
    /// and the cursor arithmetic stays within `u32`.
    pub open spec fn can_write(self) -> bool {
        &&& self.cursor_index() < self.grid.len()
        &&& self.cursor_index() <= u32::MAX
        &&& self.cursor_x < u32::MAX
        &&& self.cursor_x + 1 > self.cols ==> self.cursor_y + 2 <= u32::MAX
    }

    /// `codepoint` written at the cursor, which then moves one cell right;
    /// past the end of a row it moves down a row, to its start, unless
    /// that row is past the last one, where it stays put in its column.
    pub open spec fn after_write(self, codepoint: u32) -> TerminalView {
        let grid = self.grid.update(self.cursor_index(), Cell { codepoint, state: CellState::Written });
        if self.cursor_x + 1 > self.cols {
            let y = (self.cursor_y + 1) as u32;
            TerminalView {
                grid,
                cursor_y: y,
                cursor_x: if y + 1 > self.rows { self.cursor_x } else { 0 },
                ..self
            }
        } else {
            TerminalView { grid, cursor_x: (self.cursor_x + 1) as u32, ..self }
        }
    }

    /// Where the cursor goes when a character is deleted: one cell left,
    /// or, where the column steps below zero, to the end of the row above.
    pub open spec fn deleted_position(self) -> (u32, u32) {
        if steps_below_zero(self.cursor_x) {
            ((self.cols - 1) as u32, (self.cursor_y - 1) as u32)
        } else {
            ((self.cursor_x - 1) as u32, self.cursor_y)
        }
    }

    /// Deleting leaves the terminal as it is: both the column and the row
    /// step below zero, as at the top left corner.
    pub open spec fn delete_stays(self) -> bool {
        steps_below_zero(self.cursor_x) && steps_below_zero(self.cursor_y)
    }

    /// A character can be deleted: neither coordinate that is stepped down
    /// is `i32::MAX + 1`, where the signed step overflows; and unless
    /// nothing happens, the cell before the cursor lies inside the grid
    /// and its index is a `u32`.
    pub open spec fn can_delete(self) -> bool {
        &&& self.cursor_x != 0x8000_0000
        &&& steps_below_zero(self.cursor_x) ==> self.cursor_y != 0x8000_0000
        &&& self.delete_stays() || {
            let (x, y) = self.deleted_position();
            &&& (steps_below_zero(self.cursor_x) ==> self.cols >= 1)
            &&& y * self.cols + x < self.grid.len()
            &&& y * self.cols + x <= u32::MAX
        }
    }

    /// The grid can be resized to fit `new_px_width` by `new_px_height`
    /// pixels: cells have a size, every grid index is a `u32`, a non-empty
    /// grid has columns, and the new cell count is a `u32`.
    pub open spec fn can_resize(self, new_px_width: u32, new_px_height: u32) -> bool {
        &&& self.cell_width_px > 0
        &&& self.cell_height_px > 0
        &&& self.grid.len() <= u32::MAX
        &&& self.grid.len() > 0 ==> self.cols > 0
        &&& (new_px_width / self.cell_width_px as u32) * (new_px_height / self.cell_height_px as u32) <= u32::MAX
    }

    /// `n` is this terminal resized to `new_px_width` by `new_px_height`
    /// pixels: as many whole cells as fit, each cell that still has a place
    /// kept at its row and column and the others blank, and the cursor
    /// pulled back inside the new grid.
    pub open spec fn resized_to(self, n: TerminalView, new_px_width: u32, new_px_height: u32) -> bool {
        let new_cols = new_px_width / self.cell_width_px as u32;
        let new_rows = new_px_height / self.cell_height_px as u32;
        &&& n.cols == new_cols
        &&& n.rows == new_rows
        &&& n.grid.len() == new_cols * new_rows
        &&& forall|k: int| 0 <= k < n.grid.len() ==> #[trigger] n.grid[k] == resized_cell(self.grid, self.cols as int, new_cols as int, k)
        &&& n.px_width == new_px_width
        &&& n.px_height == new_px_height
        &&& n.cursor_x == (if self.cursor_x < new_cols { self.cursor_x as int } else if new_cols == 0 { 0 } else { new_cols - 1 })
        &&& n.cursor_y == (if self.cursor_y < new_rows { self.cursor_y as int } else if new_rows == 0 { 0 } else { new_rows - 1 })
        &&& n.cell_width_px == self.cell_width_px
        &&& n.cell_height_px == self.cell_height_px
    }

    /// The cursor moved back one cell and that cell cleared; nothing
    /// changes at the top left corner.
    pub open spec fn after_delete(self) -> TerminalView {
        if self.delete_stays() {
            self
        } else {
            let (x, y) = self.deleted_position();
            TerminalView { grid: self.grid.update(y * self.cols + x, blank_cell()), cursor_x: x, cursor_y: y, ..self }
        }
    }
}

/// `v - 1` is negative in signed 32-bit arithmetic: `v` is 0, or so large
/// that it reads as a negative `i32`.
pub open spec fn steps_below_zero(v: u32) -> bool {
    v == 0 || v > 0x8000_0000
}

/// The cell that lands at index `k` of a grid `new_cols` wide, when a grid
/// `old_cols` wide is cut down or padded to the new size: the cell at the
/// same row and column, or a blank one where there is none.
pub open spec fn resized_cell(old_grid: Seq<Cell>, old_cols: int, new_cols: int, k: int) -> Cell {
    let r = k / new_cols;
    let c = k % new_cols;
    if c < old_cols && r * old_cols + c < old_grid.len() {
        old_grid[r * old_cols + c]
    } else {
        blank_cell()
    }
}

impl Terminal {
    /// A blank terminal of `px_width / cell_width_px` columns and
    /// `px_height / cell_height_px` rows, with the cursor at the top left.
    pub fn new(px_width: u32, px_height: u32, cell_width_px: u16, cell_height_px: u16) -> (t: Self)
        requires
            cell_width_px > 0,
            cell_height_px > 0,
            (px_width / cell_width_px as u32) * (px_height / cell_height_px as u32) <= usize::MAX,
        ensures
            t.cols == px_width / cell_width_px as u32,
            t.rows == px_height / cell_height_px as u32,
            t.grid@ == Seq::new((t.cols * t.rows) as nat, |_k: int| blank_cell()),
            t.px_width == px_width,
            t.px_height == px_height,
            t.cursor_x == 0,
            t.cursor_y == 0,
            t.cell_width_px == cell_width_px,
            t.cell_height_px == cell_height_px,
    {
        let width: u32 = px_width / cell_width_px as u32;
        let height: u32 = px_height / cell_height_px as u32;
        let count: usize = width as usize * height as usize;
        let mut grid: Vec<Cell> = Vec::new();
        for i in 0..count
            invariant
                grid@ == Seq::new(i as nat, |_k: int| blank_cell()),
        {
            grid.push(blank());
            assert(grid@ =~= Seq::new((i + 1) as nat, |_k: int| blank_cell()));
        }
        Self {
            grid,
            px_width,
            px_height,
            cursor_x: 0,
            cursor_y: 0,
            rows: height,
            cols: width,
            cell_height_px,
            cell_width_px,
        }
    }
}

/// Cell `k` of the new grid (`nc` by `nr`) takes its content from index
/// `idx` of the old grid (`oc` wide) exactly when `idx`'s row and column
/// fit the new grid and `k` is that row and column.
proof fn lemma_resize_index(k: int, nc: int, oc: int, nr: int, idx: int)
    requires
        0 <= k < nc * nr,
        nc > 0,
        oc > 0,
        idx >= 0,
    ensures
        (k % nc < oc && (k / nc) * oc + k % nc == idx) <==> (idx / oc < nr && idx % oc < nc && k == (idx / oc) * nc + idx % oc),
{
    let (r, c) = (k / nc, k % nc);
    vstd::arithmetic::div_mod::lemma_fundamental_div_mod(k, nc);
    vstd::arithmetic::div_mod::lemma_fundamental_div_mod(idx, oc);
    assert(k == r * nc + c) by {
        vstd::arithmetic::mul::lemma_mul_is_commutative(nc, r);
    }
    assert(idx == (idx / oc) * oc + idx % oc) by {
        vstd::arithmetic::mul::lemma_mul_is_commutative(oc, idx / oc);
    }
    assert(r >= 0) by {
        vstd::arithmetic::div_mod::lemma_div_pos_is_pos(k, nc);
    }
    if c < oc && r * oc + c == idx {
        vstd::arithmetic::div_mod::lemma_fundamental_div_mod_converse(idx, oc, r, c);
        assert(r < nr) by {
            if r >= nr {
                vstd::arithmetic::mul::lemma_mul_inequality(nr, r, nc);
                vstd::arithmetic::mul::lemma_mul_is_commutative(nc, nr);
            }
        }
    }
    if idx / oc < nr && idx % oc < nc && k == (idx / oc) * nc + idx % oc {
        vstd::arithmetic::div_mod::lemma_fundamental_div_mod_converse(k, nc, idx / oc, idx % oc);
    }
}

impl Terminal {
    /// Writes `codepoint` at the cursor and moves the cursor on.
    pub fn write_char(&mut self, codepoint: u32)
        requires
            old(self)@.can_write(),
        ensures
            final(self)@ == old(self)@.after_write(codepoint),
    {
        let index: u32 = self.cursor_y * self.cols + self.cursor_x;
        self.grid.set(index as usize, Cell { codepoint, state: CellState::Written });
        if self.cursor_x + 1 > self.cols {
            self.cursor_y = self.cursor_y + 1;
            if self.cursor_y + 1 > self.rows {
                return;
            }
            self.cursor_x = 0;
        } else {
            self.cursor_x = self.cursor_x + 1;
        }
    }

    /// Moves the cursor back one cell and clears that cell.
    pub fn delete_char(&mut self)
        requires
            old(self)@.can_delete(),
        ensures
            final(self)@ == old(self)@.after_delete(),
    {
        if self.cursor_x == 0 || self.cursor_x > 0x8000_0000 {
            if self.cursor_y == 0 || self.cursor_y > 0x8000_0000 {
                return;
            }
            self.cursor_y = self.cursor_y - 1;
            self.cursor_x = self.cols - 1;
        } else {
            self.cursor_x = self.cursor_x - 1;
        }
        let index: u32 = self.cursor_y * self.cols + self.cursor_x;
        self.grid.set(index as usize, blank());
    }

    /// Resizes the grid to `new_px_width / cell_width_px` columns and
    /// `new_px_height / cell_height_px` rows, keeping each cell that still
    /// has a place at its row and column, and keeping the cursor inside.
    pub fn resize(&mut self, new_px_width: u32, new_px_height: u32)
        requires
            old(self)@.can_resize(new_px_width, new_px_height),
        ensures
            old(self)@.resized_to(final(self)@, new_px_width, new_px_height),
    {
        let new_cols: u32 = new_px_width / self.cell_width_px as u32;
        let new_rows: u32 = new_px_height / self.cell_height_px as u32;
        let count: u32 = new_cols * new_rows;
        let mut new_grid: Vec<Cell> = Vec::new();
        for i in 0..count
            invariant
                new_grid@ == Seq::new(i as nat, |_k: int| blank_cell()),
        {
            new_grid.push(blank());
            assert(new_grid@ =~= Seq::new((i + 1) as nat, |_k: int| blank_cell()));
        }
        let ghost old_grid = self.grid@;
        let old_cols: u32 = self.cols;
        let old_len: usize = self.grid.len();
        for old_index in 0..old_len
            invariant
                old_grid == self.grid@,
                old_len == old_grid.len(),
                old_len <= u32::MAX,
                old_len > 0 ==> old_cols > 0,
                old_cols == self.cols,
                new_cols * new_rows == count,
                new_grid@.len() == count,
                forall|k: int| 0 <= k < count ==> #[trigger] new_grid@[k] == (
                    if k % (new_cols as int) < old_cols && (k / (new_cols as int)) * old_cols + k % (new_cols as int) < old_index {
                        resized_cell(old_grid, old_cols as int, new_cols as int, k)
                    } else {
                        blank_cell()
                    }),
        {
            let old_row: u32 = old_index as u32 / old_cols;
            let old_col: u32 = old_index as u32 % old_cols;
            if old_row < new_rows && old_col < new_cols {
                assert(old_row * new_cols + old_col < count) by (nonlinear_arith)
                    requires
                        old_row < new_rows,
                        old_col < new_cols,
                        new_cols * new_rows == count,
                ;
                let new_index: u32 = old_row * new_cols + old_col;
                new_grid.set(new_index as usize, self.grid[old_index]);
            }
            proof {
                assert forall|k: int| 0 <= k < count implies #[trigger] new_grid@[k] == (
                    if k % (new_cols as int) < old_cols && (k / (new_cols as int)) * old_cols + k % (new_cols as int) < old_index + 1 {
                        resized_cell(old_grid, old_cols as int, new_cols as int, k)
                    } else {
                        blank_cell()
                    }) by {
                    if new_cols == 0 {
                        assert(count == 0);
                    }
                    lemma_resize_index(k, new_cols as int, old_cols as int, new_rows as int, old_index as int);
                }
            }
        }
        self.grid = new_grid;
        self.cols = new_cols;
        self.rows = new_rows;
        self.px_width = new_px_width;
        self.px_height = new_px_height;
        let max_x: u32 = if new_cols == 0 { 0 } else { new_cols - 1 };
        let max_y: u32 = if new_rows == 0 { 0 } else { new_rows - 1 };
        self.cursor_x = if self.cursor_x < max_x { self.cursor_x } else { max_x };
        self.cursor_y = if self.cursor_y < max_y { self.cursor_y } else { max_y };
    }
}

impl Terminal {
    /// Whether a character can be written at the cursor now.
    pub fn can_write_char(&self) -> (r: bool)
        ensures
            r == self@.can_write(),
    {
        let (y, c): (u64, u64) = (self.cursor_y as u64, self.cols as u64);
        assert(y * c <= 0xFFFF_FFFF * 0xFFFF_FFFF) by (nonlinear_arith)
            requires
                y <= 0xFFFF_FFFF,
                c <= 0xFFFF_FFFF,
        ;
        let index: u64 = y * c + self.cursor_x as u64;
        index < self.grid.len() as u64
            && index <= 0xFFFF_FFFF
            && self.cursor_x < 0xFFFF_FFFF
            && (self.cursor_x as u64 + 1 <= self.cols as u64 || self.cursor_y as u64 + 2 <= 0xFFFF_FFFF)
    }

    /// Whether a character can be deleted now.
    pub fn can_delete_char(&self) -> (r: bool)
        ensures
            r == self@.can_delete(),
    {
        let x_wraps = self.cursor_x == 0 || self.cursor_x > 0x8000_0000;
        let y_wraps = self.cursor_y == 0 || self.cursor_y > 0x8000_0000;
        if self.cursor_x == 0x8000_0000 || (x_wraps && self.cursor_y == 0x8000_0000) {
            return false;
        }
        if x_wraps && y_wraps {
            return true;
        }
        let (x, y): (u64, u64) = if x_wraps {
            if self.cols == 0 {
                return false;
            }
            ((self.cols - 1) as u64, (self.cursor_y - 1) as u64)
        } else {
            ((self.cursor_x - 1) as u64, self.cursor_y as u64)
        };
        let c: u64 = self.cols as u64;
        assert(y * c <= 0xFFFF_FFFF * 0xFFFF_FFFF) by (nonlinear_arith)
            requires
                y <= 0xFFFF_FFFF,
                c <= 0xFFFF_FFFF,
        ;
        let index: u64 = y * c + x;
        index < self.grid.len() as u64 && index <= 0xFFFF_FFFF
    }

    /// Whether the grid can be resized to `new_px_width` by `new_px_height` pixels now.
    pub fn can_resize_to(&self, new_px_width: u32, new_px_height: u32) -> (r: bool)
        ensures
            r == self@.can_resize(new_px_width, new_px_height),
    {
        if self.cell_width_px == 0 || self.cell_height_px == 0 {
            return false;
        }
        let cols: u64 = (new_px_width / self.cell_width_px as u32) as u64;
        let rows: u64 = (new_px_height / self.cell_height_px as u32) as u64;
        assert(cols * rows <= 0xFFFF_FFFF * 0xFFFF_FFFF) by (nonlinear_arith)
            requires
                cols <= 0xFFFF_FFFF,
                rows <= 0xFFFF_FFFF,
        ;
        self.grid.len() as u64 <= 0xFFFF_FFFF
            && (self.grid.len() == 0 || self.cols > 0)
            && cols * rows <= 0xFFFF_FFFF
    }
}

/// Deleting right after writing a character inside a row takes the cursor
/// back to where it was and leaves that cell blank: the rest of the grid
/// and of the terminal is as before, so where that cell was blank, the
/// delete undoes the write.
pub proof fn lemma_write_then_delete(t: TerminalView, codepoint: u32)
    requires
        t.can_write(),
        t.cursor_x < t.cols,
        t.cursor_x < i32::MAX,
    ensures
        t.after_write(codepoint).can_delete(),
        t.after_write(codepoint).after_delete() == (TerminalView {
            grid: t.grid.update(t.cursor_index(), blank_cell()),
            ..t
        }),
        t.grid[t.cursor_index()] == blank_cell() ==> t.after_write(codepoint).after_delete() == t,
{
    let w = t.after_write(codepoint);
    assert(w.cursor_x == t.cursor_x + 1);
    assert(w.deleted_position() == (t.cursor_x, t.cursor_y));
    assert(w.after_delete().grid =~= t.grid.update(t.cursor_index(), blank_cell()));
    if t.grid[t.cursor_index()] == blank_cell() {
        assert(t.grid.update(t.cursor_index(), blank_cell()) =~= t.grid);
    }
}

/// After a resize to a grid with cells, the cursor lies inside the grid.
pub proof fn lemma_resize_keeps_cursor_inside(t: TerminalView, n: TerminalView, w: u32, h: u32)
    requires
        t.resized_to(n, w, h),
        n.cols > 0,
        n.rows > 0,
    ensures
        n.cursor_x < n.cols,
        n.cursor_y < n.rows,
        n.cursor_index() < n.grid.len(),
{
    let (x, y, c, r) = (n.cursor_x as int, n.cursor_y as int, n.cols as int, n.rows as int);
    assert(y * c + x < r * c) by (nonlinear_arith)
        requires
            0 <= x < c,
            0 <= y < r,
    ;
    assert(r * c == n.cols * n.rows) by (nonlinear_arith)
        requires
            r == n.rows,
            c == n.cols,
    ;
}

/// Resizing a full grid to the size it already has changes nothing, when
/// the cursor is inside it.
pub proof fn lemma_resize_to_same_size(t: TerminalView, n: TerminalView)
    requires
        t.cell_width_px > 0,
        t.cell_height_px > 0,
        t.cols == t.px_width / t.cell_width_px as u32,
        t.rows == t.px_height / t.cell_height_px as u32,
        t.grid.len() == t.cols * t.rows,
        t.cursor_x < t.cols,
        t.cursor_y < t.rows,
        t.resized_to(n, t.px_width, t.px_height),
    ensures
        n == t,
{
    assert forall|k: int| 0 <= k < n.grid.len() implies #[trigger] n.grid[k] == t.grid[k] by {
        let c = t.cols as int;
        vstd::arithmetic::div_mod::lemma_fundamental_div_mod(k, c);
        vstd::arithmetic::mul::lemma_mul_is_commutative(c, k / c);
        vstd::arithmetic::div_mod::lemma_mod_bound(k, c);
    }
    assert(n.grid =~= t.grid);
}

/// Resizing a full grid to `w` by `h` pixels and then back to its own size
/// gives back its size, and each cell whose row and column fit the
/// intermediate grid; the cells that did not fit come back blank. A
/// resize to a size at least as large and back changes no cell.
pub proof fn lemma_resize_there_and_back(s: TerminalView, m: TerminalView, n: TerminalView, w: u32, h: u32)
    requires
        s.cell_width_px > 0,
        s.cell_height_px > 0,
        s.cols == s.px_width / s.cell_width_px as u32,
        s.rows == s.px_height / s.cell_height_px as u32,
        s.grid.len() == s.cols * s.rows,
        s.resized_to(m, w, h),
        m.resized_to(n, s.px_width, s.px_height),
    ensures
        n.cols == s.cols,
        n.rows == s.rows,
        n.grid.len() == s.grid.len(),
        forall|k: int| 0 <= k < s.grid.len() ==> #[trigger] n.grid[k] == (
            if k / (s.cols as int) < h / s.cell_height_px as u32 && k % (s.cols as int) < w / s.cell_width_px as u32 {
                s.grid[k]
            } else {
                blank_cell()
            }),
        w >= s.px_width && h >= s.px_height ==> n.grid == s.grid,
{
    let c = s.cols as int;
    let (mc, mr) = (m.cols as int, m.rows as int);
    assert forall|k: int| 0 <= k < s.grid.len() implies #[trigger] n.grid[k] == (
        if k / c < mr && k % c < mc { s.grid[k] } else { blank_cell() }) by {
        assert(c > 0) by {
            if c == 0 {
                assert(s.grid.len() == 0) by (nonlinear_arith)
                    requires s.grid.len() == c * s.rows, c == 0;
            }
        }
        let r = k / c;
        let cc = k % c;
        vstd::arithmetic::div_mod::lemma_fundamental_div_mod(k, c);
        vstd::arithmetic::mul::lemma_mul_is_commutative(c, r);
        vstd::arithmetic::div_mod::lemma_mod_bound(k, c);
        vstd::arithmetic::div_mod::lemma_div_pos_is_pos(k, c);
        assert(n.grid[k] == resized_cell(m.grid, mc, c, k));
        if cc < mc {
            assert(r * mc + cc < m.grid.len() <==> r < mr) by (nonlinear_arith)
                requires
                    m.grid.len() == mc * mr,
                    0 <= cc < mc,
                    r >= 0,
            ;
            if r < mr {
                let j = r * mc + cc;
                vstd::arithmetic::div_mod::lemma_fundamental_div_mod_converse(j, mc, r, cc);
                assert(m.grid[j] == resized_cell(s.grid, c, mc, j));
            }
        }
    }
    if w >= s.px_width && h >= s.px_height {
        vstd::arithmetic::div_mod::lemma_div_is_ordered(s.px_width as int, w as int, s.cell_width_px as int);
        vstd::arithmetic::div_mod::lemma_div_is_ordered(s.px_height as int, h as int, s.cell_height_px as int);
        assert forall|k: int| 0 <= k < s.grid.len() implies #[trigger] n.grid[k] == s.grid[k] by {
            assert(c > 0) by {
                if c == 0 {
                    assert(s.grid.len() == 0) by (nonlinear_arith)
                        requires s.grid.len() == c * s.rows, c == 0;
                }
            }
            vstd::arithmetic::div_mod::lemma_mod_bound(k, c);
            vstd::arithmetic::div_mod::lemma_fundamental_div_mod(k, c);
            let (q, rem, rows) = (k / c, k % c, s.rows as int);
            assert(q < rows) by (nonlinear_arith)
                requires
                    k == c * q + rem,
                    0 <= rem,
                    k < c * rows,
                    c > 0,
            ;
        }
        assert(n.grid =~= s.grid);
    }
}

} // verus!
