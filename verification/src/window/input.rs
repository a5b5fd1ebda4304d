//! What the window's events do to the terminal, and what the window does next.

use vstd::prelude::*;

use crate::terminal::{Terminal, TerminalView};

verus! {

/// A key, as far as the terminal cares: the first character of the text it
/// types (none for text without characters), space, backspace, or another key.
#[derive(Debug, Clone, Copy, PartialEq, Eq, Structural)]
pub enum KeyInput {
    Character(Option<u32>),
    Space,
    Backspace,
    Other,
}

/// An event of the window.
#[derive(Debug, Clone, Copy, PartialEq, Eq, Structural)]
pub enum WindowInput {
    CloseRequested,
    RedrawRequested,
    Keyboard { pressed: bool, key: KeyInput },
    Resized { width: u32, height: u32 },
    Other,
}

/// What the window does after an event.
#[derive(Debug, Clone, Copy, PartialEq, Eq, Structural)]
pub enum WindowAction {
    Exit,
    Redraw,
    ResizeAndRedraw { width: u32, height: u32 },
    Nothing,
}

/// The terminal can take `input`: a typed character fits at the cursor, a
/// backspace can be applied, a new size can be taken.
pub open spec fn input_allowed(t: TerminalView, input: WindowInput) -> bool {
    match input {
        WindowInput::Keyboard { pressed: true, key: KeyInput::Character(Some(_)) } => t.can_write(),
        WindowInput::Keyboard { pressed: true, key: KeyInput::Space } => t.can_write(),
        WindowInput::Keyboard { pressed: true, key: KeyInput::Backspace } => t.can_delete(),
        WindowInput::Resized { width, height } => t.can_resize(width, height),
        _ => true,
    }
}

/// Whether the terminal can take `input` now.
pub fn accepts_input(terminal: &Terminal, input: WindowInput) -> (r: bool)
    ensures
        r == input_allowed(terminal@, input),
{
    match input {
        WindowInput::Keyboard { pressed: true, key: KeyInput::Character(Some(_)) } => terminal.can_write_char(),
        WindowInput::Keyboard { pressed: true, key: KeyInput::Space } => terminal.can_write_char(),
        WindowInput::Keyboard { pressed: true, key: KeyInput::Backspace } => terminal.can_delete_char(),
        WindowInput::Resized { width, height } => terminal.can_resize_to(width, height),
        _ => true,
    }
}

/// The terminal after a key press.
pub open spec fn after_key(t: TerminalView, key: KeyInput) -> TerminalView {
    match key {
        KeyInput::Character(Some(c)) => t.after_write(c),
        KeyInput::Space => t.after_write(32),
        KeyInput::Backspace => t.after_delete(),
        _ => t,
    }
}

/// Applies a window event to the terminal: a pressed key types, spaces or
/// deletes a character, a resize resizes the grid. Says what the window
/// does next: close, redraw, resize its surface and redraw, or nothing.
pub fn handle_window_input(terminal: &mut Terminal, input: WindowInput) -> (action: WindowAction)
    requires
        input_allowed(old(terminal)@, input),
    ensures
        match input {
            WindowInput::CloseRequested => action == WindowAction::Exit && final(terminal)@ == old(terminal)@,
            WindowInput::RedrawRequested => action == WindowAction::Redraw && final(terminal)@ == old(terminal)@,
            WindowInput::Keyboard { pressed, key } => if pressed {
                action == WindowAction::Redraw && final(terminal)@ == after_key(old(terminal)@, key)
            } else {
                action == WindowAction::Nothing && final(terminal)@ == old(terminal)@
            },
            WindowInput::Resized { width, height } => {
                &&& action == (WindowAction::ResizeAndRedraw { width, height })
                &&& old(terminal)@.resized_to(final(terminal)@, width, height)
            },
            WindowInput::Other => action == WindowAction::Nothing && final(terminal)@ == old(terminal)@,
        },
{
    match input {
        WindowInput::CloseRequested => WindowAction::Exit,
        WindowInput::RedrawRequested => WindowAction::Redraw,
        WindowInput::Keyboard { pressed, key } => {
            if !pressed {
                return WindowAction::Nothing;
            }
            match key {
                KeyInput::Character(Some(codepoint)) => terminal.write_char(codepoint),
                KeyInput::Space => terminal.write_char(32),
                KeyInput::Backspace => terminal.delete_char(),
                _ => {},
            }
            WindowAction::Redraw
        },
        WindowInput::Resized { width, height } => {
            terminal.resize(width, height);
            WindowAction::ResizeAndRedraw { width, height }
        },
        WindowInput::Other => WindowAction::Nothing,
    }
}

} // verus!
