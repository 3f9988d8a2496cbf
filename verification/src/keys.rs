use vstd::prelude::*;

use crate::app::{
    last_index,
    ActionView, App, AppView, CommandAction, Mode, action_view, command_outcome,
    level_error_for_cursor,
};
use crate::text::{append_str, string_from, trim};

verus! {

/// A key press, as the editor distinguishes them.
#[derive(Clone, Copy, Debug, PartialEq, Eq, Structural)]
pub enum Key {
    Char(char),
    Left,
    Right,
    Up,
    Down,
    Esc,
    Enter,
    Backspace,
    Other,
}

/// The state with status `Error: <e>`.
pub open spec fn with_error(a: AppView, e: Seq<char>) -> AppView {
    AppView { status: "Error: "@ + e, ..a }
}

/// The cursor step that a movement key makes: `h`/left, `j`/down, `k`/up, `l`/right.
pub open spec fn movement(key: Key) -> Option<(i16, i16)> {
    match key {
        Key::Left => Some((-1i16, 0i16)),
        Key::Down => Some((0i16, 1i16)),
        Key::Up => Some((0i16, -1i16)),
        Key::Right => Some((1i16, 0i16)),
        Key::Char(c) => if c == 'h' {
            Some((-1i16, 0i16))
        } else if c == 'j' {
            Some((0i16, 1i16))
        } else if c == 'k' {
            Some((0i16, -1i16))
        } else if c == 'l' {
            Some((1i16, 0i16))
        } else {
            None
        },
        _ => None,
    }
}

pub open spec fn step_x(key: Key) -> i16 {
    match movement(key) {
        Some((dx, _)) => dx,
        None => 0,
    }
}

pub open spec fn step_y(key: Key) -> i16 {
    match movement(key) {
        Some((_, dy)) => dy,
        None => 0,
    }
}

pub open spec fn digit_of(key: Key) -> Option<u16> {
    match key {
        Key::Char(c) => if '0' <= c && c <= '9' {
            Some((c as u32 - '0' as u32) as u16)
        } else {
            None
        },
        _ => None,
    }
}

/// The state after painting `digit` under the cursor, or after the refused attempt.
pub open spec fn paint_step(a: AppView, digit: u16) -> AppView {
    if a.level.in_bounds(a.cursor.0 as int, a.cursor.1 as int) {
        a.after_paint(digit)
    } else {
        with_error(a.recorded(), level_error_for_cursor(a))
    }
}

/// What a key does in command mode.
pub open spec fn command_key_step(a: AppView, key: Key, ctrl: bool, n: AppView, act: ActionView) -> bool {
    match key {
        Key::Esc => n == (AppView {
            mode: Mode::Normal,
            command_buffer: Seq::empty(),
            status: "Normal mode"@,
            ..a
        }) && act == ActionView::Noop,
        Key::Enter => {
            let base = AppView { command_buffer: Seq::empty(), mode: Mode::Normal, ..a };
            let input = trim(a.command_buffer);
            if input.len() == 0 {
                n == (AppView { status: "Normal mode"@, ..base }) && act == ActionView::Noop
            } else {
                let (s, r) = command_outcome(base, input);
                match r {
                    Ok(v) => n == s && act == v,
                    Err(e) => n == with_error(s, e) && act == ActionView::Noop,
                }
            }
        },
        Key::Backspace => n == (AppView {
            command_buffer: if a.command_buffer.len() == 0 {
                a.command_buffer
            } else {
                a.command_buffer.drop_last()
            },
            ..a
        }) && act == ActionView::Noop,
        Key::Char(ch) => (if ctrl {
            n == a
        } else {
            n == (AppView { command_buffer: a.command_buffer.push(ch), ..a })
        }) && act == ActionView::Noop,
        _ => n == a && act == ActionView::Noop,
    }
}

/// What a key does in insert mode: Esc leaves, movement keys move, digits paint.
pub open spec fn insert_key_step(a: AppView, key: Key, vp: (u16, u16), n: AppView) -> bool {
    if key == Key::Esc {
        n == a.in_mode(Mode::Normal, "Normal mode"@)
    } else if movement(key) is Some {
        n == a.after_move(step_x(key), step_y(key), vp)
    } else if digit_of(key) is Some {
        n == paint_step(a, digit_of(key)->0)
    } else {
        n == a
    }
}

/// What a key does in visual mode: Esc or `v` leaves, movement keys stretch the selection,
/// digits paint it, `y` yanks it and `p` pastes at its corner.
pub open spec fn visual_key_step(a: AppView, key: Key, vp: (u16, u16), n: AppView) -> bool {
    if key == Key::Esc || key == Key::Char('v') {
        n == a.in_mode(Mode::Normal, "Normal mode"@)
    } else if movement(key) is Some {
        n == a.after_move(step_x(key), step_y(key), vp)
    } else if digit_of(key) is Some {
        a.paint_selection_done(n, digit_of(key)->0)
    } else if key == Key::Char('y') {
        a.yank_done(n)
    } else if key == Key::Char('p') {
        if a.clipboard is Some {
            a.paste_done(n)
        } else {
            n == with_error(a, "nothing to paste"@)
        }
    } else {
        n == a
    }
}

/// What a key does in normal mode.
pub open spec fn normal_key_step(a: AppView, key: Key, ctrl: bool, vp: (u16, u16), n: AppView) -> bool {
    if key == Key::Char(':') {
        n == (AppView {
            mode: Mode::Command,
            command_buffer: Seq::empty(),
            status: "Command mode"@,
            ..a
        })
    } else if key == Key::Char('i') {
        n == a.in_mode(Mode::Insert, "Insert mode: press 0-9 to paint, Esc to stop"@)
    } else if key == Key::Char('v') {
        n == (AppView { mode: Mode::Visual, anchor: a.cursor, status: "Visual mode"@, ..a })
    } else if key == Key::Char('p') {
        if a.clipboard is Some {
            a.paste_done(n)
        } else {
            n == with_error(a, "nothing to paste"@)
        }
    } else if key == Key::Char('u') && !ctrl {
        if a.undo.len() > 0 {
            n == a.after_undo()
        } else {
            n == with_error(a, "nothing to undo"@)
        }
    } else if key == Key::Char('r') && ctrl {
        if a.redo.len() > 0 {
            n == a.after_redo()
        } else {
            n == with_error(a, "nothing to redo"@)
        }
    } else if movement(key) is Some {
        n == a.after_move(step_x(key), step_y(key), vp)
    } else if key == Key::Char('J') {
        n == a.after_cycle(1i8)
    } else if key == Key::Char('K') {
        n == a.after_cycle(-1i8)
    } else if key == Key::Char('+') || key == Key::Char('=') {
        n == a.after_zoom(1i8, vp)
    } else if key == Key::Char('-') {
        n == a.after_zoom(-1i8, vp)
    } else if key == Key::Esc {
        n == a.in_mode(Mode::Normal, "Normal mode"@)
    } else {
        n == a
    }
}

/// What a key press does in each mode: the next state `n`, and the action `act` for the
/// caller.
pub open spec fn key_step(a: AppView, key: Key, ctrl: bool, vp: (u16, u16), n: AppView, act: ActionView) -> bool {
    match a.mode {
        Mode::Command => command_key_step(a, key, ctrl, n, act),
        Mode::Insert => insert_key_step(a, key, vp, n) && act == ActionView::Noop,
        Mode::Visual => visual_key_step(a, key, vp, n) && act == ActionView::Noop,
        Mode::Normal => normal_key_step(a, key, ctrl, vp, n) && act == ActionView::Noop,
    }
}

fn report(app: &mut App, e: String)
    requires
        old(app).wf(),
    ensures
        final(app).wf(),
        final(app)@ == with_error(old(app)@, e@),
{
    let mut s = string_from("Error: ");
    append_str(&mut s, e.as_str());
    app.set_status(s);
}

fn key_movement(key: Key) -> (r: Option<(i16, i16)>)
    ensures
        r == movement(key),
{
    match key {
        Key::Left => Some((-1, 0)),
        Key::Down => Some((0, 1)),
        Key::Up => Some((0, -1)),
        Key::Right => Some((1, 0)),
        Key::Char(c) => if c == 'h' {
            Some((-1, 0))
        } else if c == 'j' {
            Some((0, 1))
        } else if c == 'k' {
            Some((0, -1))
        } else if c == 'l' {
            Some((1, 0))
        } else {
            None
        },
        _ => None,
    }
}

fn key_digit(key: Key) -> (r: Option<u16>)
    ensures
        r == digit_of(key),
{
    match key {
        Key::Char(c) => if '0' <= c && c <= '9' {
            Some((c as u32 - '0' as u32) as u16)
        } else {
            None
        },
        _ => None,
    }
}

/// Handles one key press (see [`key_step`]): errors become an `Error: ...` status, and the
/// returned action names any work for the caller.
pub fn handle_key(app: &mut App, key: Key, ctrl: bool, viewport_tiles: (u16, u16)) -> (r: CommandAction)
    requires
        old(app).wf(),
    ensures
        final(app).wf(),
        key_step(old(app)@, key, ctrl, viewport_tiles, final(app)@, action_view(r)),
{
    match app.mode() {
        Mode::Command => {
            match key {
                Key::Esc => app.cancel_command(),
                Key::Enter => {
                    match app.submit_command() {
                        Ok(action) => {
                            return action;
                        },
                        Err(e) => report(app, e),
                    }
                },
                Key::Backspace => app.command_backspace(),
                Key::Char(ch) => {
                    if !ctrl {
                        app.command_push(ch);
                    }
                },
                _ => {},
            }
            CommandAction::Noop
        },
        Mode::Insert => {
            if key == Key::Esc {
                app.enter_normal_mode();
            } else if let Some((dx, dy)) = key_movement(key) {
                app.move_cursor(dx, dy, viewport_tiles);
            } else if let Some(d) = key_digit(key) {
                match app.paint_digit(d) {
                    Ok(()) => {},
                    Err(e) => report(app, e),
                }
            }
            CommandAction::Noop
        },
        Mode::Visual => {
            if key == Key::Esc || key == Key::Char('v') {
                app.enter_normal_mode();
            } else if let Some((dx, dy)) = key_movement(key) {
                app.move_cursor(dx, dy, viewport_tiles);
            } else if let Some(d) = key_digit(key) {
                let r = app.paint_selection(d);
                proof {
                    assert(r is Ok);
                }
            } else if key == Key::Char('y') {
                let r = app.yank_selection();
                proof {
                    assert(r is Ok);
                }
            } else if key == Key::Char('p') {
                match app.paste_clipboard() {
                    Ok(()) => {},
                    Err(e) => report(app, e),
                }
            }
            CommandAction::Noop
        },
        Mode::Normal => {
            if key == Key::Char(':') {
                app.begin_command();
            } else if key == Key::Char('i') {
                app.enter_insert_mode();
            } else if key == Key::Char('v') {
                app.begin_visual();
            } else if key == Key::Char('p') {
                match app.paste_clipboard() {
                    Ok(()) => {},
                    Err(e) => report(app, e),
                }
            } else if key == Key::Char('u') && !ctrl {
                match app.undo() {
                    Ok(()) => {},
                    Err(e) => report(app, e),
                }
            } else if key == Key::Char('r') && ctrl {
                match app.redo() {
                    Ok(()) => {},
                    Err(e) => report(app, e),
                }
            } else if let Some((dx, dy)) = key_movement(key) {
                app.move_cursor(dx, dy, viewport_tiles);
            } else if key == Key::Char('J') {
                app.cycle_layer(1);
            } else if key == Key::Char('K') {
                app.cycle_layer(-1);
            } else if key == Key::Char('+') || key == Key::Char('=') {
                app.adjust_zoom(1, viewport_tiles);
            } else if key == Key::Char('-') {
                app.adjust_zoom(-1, viewport_tiles);
            } else if key == Key::Esc {
                app.enter_normal_mode();
            }
            CommandAction::Noop
        },
    }
}


/// The row below `y` on an axis of `size` tiles, or `y` at the last row.
pub open spec fn step_forward(y: u16, size: u16) -> u16 {
    if y < last_index(size) {
        (y + 1) as u16
    } else {
        y
    }
}

/// The row above `y`, or `y` at row 0.
pub open spec fn step_back(y: u16) -> u16 {
    if y > 0 {
        (y - 1) as u16
    } else {
        y
    }
}

/// Outside command mode, the arrow keys move the cursor as `h j k l` do: Down and `j` one
/// row down, Up and `k` one row up, Left and `h` one column left, Right and `l` one column
/// right, stopping at the level's edges; the level, the mode and the layer stay as they were.
pub proof fn law_arrow_keys_move_like_hjkl(
    a: AppView,
    key: Key,
    ctrl: bool,
    vp: (u16, u16),
    n: AppView,
    act: ActionView,
)
    requires
        a.inv(),
        a.mode != Mode::Command,
        key_step(a, key, ctrl, vp, n, act),
    ensures
        (key == Key::Down || key == Key::Char('j')) ==> n.cursor == (
            a.cursor.0,
            step_forward(a.cursor.1, a.level.height),
        ),
        (key == Key::Up || key == Key::Char('k')) ==> n.cursor == (a.cursor.0, step_back(a.cursor.1)),
        (key == Key::Right || key == Key::Char('l')) ==> n.cursor == (
            step_forward(a.cursor.0, a.level.width),
            a.cursor.1,
        ),
        (key == Key::Left || key == Key::Char('h')) ==> n.cursor == (step_back(a.cursor.0), a.cursor.1),
        movement(key) is Some ==> n.level == a.level && n.mode == a.mode && n.active_layer
            == a.active_layer && act == ActionView::Noop,
{
}

} // verus!
