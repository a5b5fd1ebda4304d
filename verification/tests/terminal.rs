use rime::terminal::cell::{Cell, CellState};
use rime::terminal::cursor::Cursor;
use rime::terminal::Terminal;

fn blank() -> Cell {
    Cell { codepoint: ' ' as u32, state: CellState::NotWritten }
}

fn written(c: char) -> Cell {
    Cell { codepoint: c as u32, state: CellState::Written }
}

#[test]
fn new_terminal_is_blank() {
    let t = Terminal::new(800, 600, 16, 32);
    assert_eq!(t.cols, 50);
    assert_eq!(t.rows, 18);
    assert_eq!(t.grid.len(), 900);
    assert!(t.grid.iter().all(|c| *c == blank()));
    assert_eq!((t.cursor_x, t.cursor_y), (0, 0));
    assert_eq!((t.px_width, t.px_height), (800, 600));
    assert_eq!((t.cell_width_px, t.cell_height_px), (16, 32));
}

#[test]
fn cursor_starts_at_origin() {
    let c = Cursor::new();
    assert_eq!((c.x, c.y), (0, 0));
}

#[test]
fn write_moves_right() {
    let mut t = Terminal::new(64, 64, 16, 32);
    t.write_char('h' as u32);
    t.write_char('i' as u32);
    assert_eq!(t.grid[0], written('h'));
    assert_eq!(t.grid[1], written('i'));
    assert_eq!((t.cursor_x, t.cursor_y), (2, 0));
}

#[test]
fn write_past_row_end_moves_down() {
    // 4 columns, 2 rows
    let mut t = Terminal::new(64, 64, 16, 32);
    for c in ['a', 'b', 'c', 'd'] {
        t.write_char(c as u32);
    }
    assert_eq!((t.cursor_x, t.cursor_y), (4, 0));
    // the cursor index is now the start of the next row
    t.write_char('e' as u32);
    assert_eq!(t.grid[4], written('e'));
    assert_eq!((t.cursor_x, t.cursor_y), (0, 1));
}

#[test]
fn write_on_last_row_end_stays() {
    // 2 columns, 1 row
    let mut t = Terminal::new(32, 32, 16, 32);
    t.write_char('a' as u32);
    t.write_char('b' as u32);
    assert_eq!((t.cursor_x, t.cursor_y), (2, 0));
    t.cursor_x = 1;
    t.cursor_y = 0;
    t.write_char('z' as u32);
    assert_eq!((t.cursor_x, t.cursor_y), (2, 0));
    assert_eq!(t.grid[1], written('z'));
}

#[test]
fn delete_at_origin_does_nothing() {
    let mut t = Terminal::new(64, 64, 16, 32);
    t.delete_char();
    assert_eq!((t.cursor_x, t.cursor_y), (0, 0));
    assert!(t.grid.iter().all(|c| *c == blank()));
}

#[test]
fn write_then_delete_restores() {
    let mut t = Terminal::new(64, 64, 16, 32);
    t.write_char('x' as u32);
    t.write_char('y' as u32);
    let before_grid = t.grid.clone();
    let before = (t.cursor_x, t.cursor_y);
    t.write_char('z' as u32);
    t.delete_char();
    assert_eq!((t.cursor_x, t.cursor_y), before);
    assert_eq!(t.grid, before_grid);
}

#[test]
fn delete_at_row_start_goes_up() {
    let mut t = Terminal::new(64, 64, 16, 32);
    t.cursor_x = 0;
    t.cursor_y = 1;
    t.grid[3] = written('q');
    t.delete_char();
    assert_eq!((t.cursor_x, t.cursor_y), (3, 0));
    assert_eq!(t.grid[3], blank());
}

#[test]
fn resize_keeps_cells_in_place() {
    // 4 x 2 grid
    let mut t = Terminal::new(64, 64, 16, 32);
    for c in ['a', 'b', 'c', 'd', 'e', 'f'] {
        t.write_char(c as u32);
    }
    // 'a'..'d' fill row 0; 'e' lands at (0,1) and the cursor stays there,
    // so 'f' overwrites it and the cursor moves to (1,1)
    assert_eq!(t.grid[4], written('f'));
    assert_eq!((t.cursor_x, t.cursor_y), (1, 1));
    t.resize(48, 96); // 3 x 3
    assert_eq!((t.cols, t.rows), (3, 3));
    assert_eq!(t.grid.len(), 9);
    assert_eq!(t.grid[0], written('a'));
    assert_eq!(t.grid[1], written('b'));
    assert_eq!(t.grid[2], written('c'));
    assert_eq!(t.grid[3], written('f'));
    assert_eq!(t.grid[4], blank());
    assert_eq!(t.grid[6], blank());
    assert_eq!((t.px_width, t.px_height), (48, 96));
    assert_eq!((t.cursor_x, t.cursor_y), (1, 1));
}

#[test]
fn resize_to_nothing_keeps_cursor_at_origin() {
    let mut t = Terminal::new(64, 64, 16, 32);
    t.write_char('a' as u32);
    t.resize(8, 8);
    assert_eq!((t.cols, t.rows), (0, 0));
    assert!(t.grid.is_empty());
    assert_eq!((t.cursor_x, t.cursor_y), (0, 0));
}

use rime::window::input::{accepts_input, handle_window_input, KeyInput, WindowAction, WindowInput};

#[test]
fn key_presses_type_and_redraw() {
    let mut t = Terminal::new(64, 64, 16, 32);
    let a = handle_window_input(&mut t, WindowInput::Keyboard { pressed: true, key: KeyInput::Character(Some('a' as u32)) });
    assert_eq!(a, WindowAction::Redraw);
    assert_eq!(t.grid[0], written('a'));
    let a = handle_window_input(&mut t, WindowInput::Keyboard { pressed: true, key: KeyInput::Space });
    assert_eq!(a, WindowAction::Redraw);
    assert_eq!(t.grid[1], written(' '));
    assert_eq!(t.cursor_x, 2);
    let a = handle_window_input(&mut t, WindowInput::Keyboard { pressed: true, key: KeyInput::Backspace });
    assert_eq!(a, WindowAction::Redraw);
    assert_eq!(t.grid[1], blank());
    assert_eq!(t.cursor_x, 1);
}

#[test]
fn key_releases_and_other_keys_do_nothing_to_the_grid() {
    let mut t = Terminal::new(64, 64, 16, 32);
    let a = handle_window_input(&mut t, WindowInput::Keyboard { pressed: false, key: KeyInput::Character(Some('a' as u32)) });
    assert_eq!(a, WindowAction::Nothing);
    let a = handle_window_input(&mut t, WindowInput::Keyboard { pressed: true, key: KeyInput::Other });
    assert_eq!(a, WindowAction::Redraw);
    let a = handle_window_input(&mut t, WindowInput::Keyboard { pressed: true, key: KeyInput::Character(None) });
    assert_eq!(a, WindowAction::Redraw);
    assert!(t.grid.iter().all(|c| *c == blank()));
    assert_eq!((t.cursor_x, t.cursor_y), (0, 0));
}

#[test]
fn window_events_map_to_actions() {
    let mut t = Terminal::new(64, 64, 16, 32);
    assert_eq!(handle_window_input(&mut t, WindowInput::CloseRequested), WindowAction::Exit);
    assert_eq!(handle_window_input(&mut t, WindowInput::RedrawRequested), WindowAction::Redraw);
    assert_eq!(handle_window_input(&mut t, WindowInput::Other), WindowAction::Nothing);
    assert_eq!(
        handle_window_input(&mut t, WindowInput::Resized { width: 160, height: 320 }),
        WindowAction::ResizeAndRedraw { width: 160, height: 320 }
    );
    assert_eq!((t.cols, t.rows), (10, 10));
}

#[test]
fn resize_to_same_size_keeps_everything() {
    let mut t = Terminal::new(64, 64, 16, 32);
    t.write_char('k' as u32);
    let grid = t.grid.clone();
    t.resize(64, 64);
    assert_eq!(t.grid, grid);
    assert_eq!((t.cursor_x, t.cursor_y, t.cols, t.rows), (1, 0, 4, 2));
}

#[test]
fn resize_there_and_back_keeps_what_fit() {
    // 4 x 2 grid
    let mut t = Terminal::new(64, 64, 16, 32);
    for c in ['a', 'b', 'c', 'd', 'e'] {
        t.write_char(c as u32);
    }
    t.resize(48, 32); // 3 x 1
    t.resize(64, 64); // back to 4 x 2
    assert_eq!((t.cols, t.rows), (4, 2));
    assert_eq!(t.grid, vec![written('a'), written('b'), written('c'), blank(), blank(), blank(), blank(), blank()]);
}

#[test]
fn resize_larger_and_back_keeps_the_grid() {
    let mut t = Terminal::new(64, 64, 16, 32);
    for c in ['a', 'b', 'c', 'd', 'e'] {
        t.write_char(c as u32);
    }
    let grid = t.grid.clone();
    t.resize(160, 96);
    t.resize(64, 64);
    assert_eq!(t.grid, grid);
}

fn odd_terminal(cursor_x: u32, cursor_y: u32) -> Terminal {
    Terminal {
        grid: vec![written('a'), written('b')],
        cols: 0,
        rows: 1,
        px_width: 0,
        px_height: 32,
        cursor_x,
        cursor_y,
        cell_height_px: 32,
        cell_width_px: 16,
    }
}

#[test]
fn delete_moves_left_whatever_the_row() {
    let mut t = odd_terminal(2, 0x9000_0000);
    assert!(t.can_delete_char());
    t.delete_char();
    assert_eq!((t.cursor_x, t.cursor_y), (1, 0x9000_0000));
    assert_eq!(t.grid[1], blank());
    assert_eq!(t.grid[0], written('a'));
}

#[test]
fn delete_with_a_column_read_as_negative_stays() {
    let mut t = odd_terminal(0x9000_0000, 0x9000_0000);
    assert!(t.can_delete_char());
    t.delete_char();
    assert_eq!((t.cursor_x, t.cursor_y), (0x9000_0000, 0x9000_0000));
    assert_eq!(t.grid, vec![written('a'), written('b')]);
}

#[test]
fn delete_where_the_signed_step_overflows_is_refused() {
    assert!(!odd_terminal(0x8000_0000, 0).can_delete_char());
    assert!(!odd_terminal(0, 0x8000_0000).can_delete_char());
}

#[test]
fn input_checks() {
    let mut t = Terminal::new(32, 32, 16, 32); // 2 x 1
    let key = WindowInput::Keyboard { pressed: true, key: KeyInput::Character(Some('a' as u32)) };
    assert!(accepts_input(&t, key));
    assert!(t.can_write_char());
    t.write_char('a' as u32);
    t.write_char('b' as u32);
    // the cursor sits past the last cell of the only row
    assert!(!accepts_input(&t, key));
    assert!(accepts_input(&t, WindowInput::Keyboard { pressed: true, key: KeyInput::Backspace }));
    assert!(accepts_input(&t, WindowInput::Resized { width: 64, height: 64 }));
    assert!(t.can_resize_to(64, 64));
    t.cell_width_px = 0;
    assert!(!t.can_resize_to(64, 64));
}
