use tellus_42::app::{App, CommandAction, Mode};
use tellus_42::keys::{handle_key, Key};
use tellus_42::level::LayerKind;

const VIEW: (u16, u16) = (8, 8);

fn press(app: &mut App, key: Key) -> CommandAction {
    handle_key(app, key, false, VIEW)
}

#[test]
fn normal_mode_moves_and_switches_layers() {
    let mut app = App::blank(8, 8, None).unwrap();
    press(&mut app, Key::Char('l'));
    press(&mut app, Key::Right);
    press(&mut app, Key::Char('j'));
    assert_eq!(app.cursor(), (2, 1));
    press(&mut app, Key::Char('k'));
    press(&mut app, Key::Left);
    assert_eq!(app.cursor(), (1, 0));
    press(&mut app, Key::Char('J'));
    assert_eq!(app.active_layer(), LayerKind::Detail);
    press(&mut app, Key::Char('K'));
    press(&mut app, Key::Char('K'));
    assert_eq!(app.active_layer(), LayerKind::Logic);
    press(&mut app, Key::Char('+'));
    assert_eq!(app.zoom(), 3);
    press(&mut app, Key::Char('-'));
    press(&mut app, Key::Char('-'));
    assert_eq!(app.zoom(), 1);
}

#[test]
fn insert_mode_paints_digits() {
    let mut app = App::blank(4, 4, None).unwrap();
    press(&mut app, Key::Char('i'));
    assert_eq!(app.mode(), Mode::Insert);
    press(&mut app, Key::Char('3'));
    press(&mut app, Key::Char('l'));
    press(&mut app, Key::Char('0'));
    assert_eq!(app.visible_tile_id(0, 0), Some(3));
    assert_eq!(app.visible_tile_id(1, 0), Some(0));
    assert_eq!(app.undo_len(), 2);
    press(&mut app, Key::Esc);
    assert_eq!(app.mode(), Mode::Normal);
    press(&mut app, Key::Char('u'));
    press(&mut app, Key::Char('u'));
    assert_eq!(app.visible_tile_id(0, 0), Some(0));
    assert_eq!(handle_key(&mut app, Key::Char('r'), true, VIEW), CommandAction::Noop);
    assert_eq!(app.visible_tile_id(0, 0), Some(3));
}

#[test]
fn undo_with_nothing_reports_error() {
    let mut app = App::blank(4, 4, None).unwrap();
    press(&mut app, Key::Char('u'));
    assert_eq!(app.status(), "Error: nothing to undo");
}

#[test]
fn command_bar_runs_commands() {
    let mut app = App::blank(4, 4, None).unwrap();
    press(&mut app, Key::Char(':'));
    assert_eq!(app.mode(), Mode::Command);
    for ch in "qx".chars() {
        press(&mut app, Key::Char(ch));
    }
    press(&mut app, Key::Backspace);
    assert_eq!(app.command_buffer(), "q");
    assert_eq!(press(&mut app, Key::Enter), CommandAction::Quit);
    assert_eq!(app.mode(), Mode::Normal);

    press(&mut app, Key::Char(':'));
    for ch in "bogus".chars() {
        press(&mut app, Key::Char(ch));
    }
    assert_eq!(press(&mut app, Key::Enter), CommandAction::Noop);
    assert_eq!(app.status(), "Error: unknown command: bogus");
}

#[test]
fn visual_mode_yanks_and_pastes() {
    let mut app = App::blank(4, 4, None).unwrap();
    press(&mut app, Key::Char('i'));
    press(&mut app, Key::Char('1'));
    press(&mut app, Key::Char('l'));
    press(&mut app, Key::Char('2'));
    press(&mut app, Key::Esc);
    press(&mut app, Key::Char('h'));
    press(&mut app, Key::Char('v'));
    assert_eq!(app.mode(), Mode::Visual);
    press(&mut app, Key::Char('l'));
    assert!(app.is_selected(0, 0));
    assert!(app.is_selected(1, 0));
    assert!(!app.is_selected(0, 1));
    press(&mut app, Key::Char('y'));
    press(&mut app, Key::Esc);
    assert_eq!(app.mode(), Mode::Normal);
    press(&mut app, Key::Char('j'));
    press(&mut app, Key::Char('j'));
    press(&mut app, Key::Char('p'));
    assert_eq!(app.visible_tile_id(1, 2), Some(1));
    assert_eq!(app.visible_tile_id(2, 2), Some(2));
    assert_eq!(app.visible_tile_id(0, 2), Some(0));
}

#[test]
fn visual_mode_paints_selection() {
    let mut app = App::blank(4, 4, None).unwrap();
    press(&mut app, Key::Char('v'));
    press(&mut app, Key::Char('l'));
    press(&mut app, Key::Char('j'));
    press(&mut app, Key::Char('7'));
    for y in 0..4 {
        for x in 0..4 {
            let expected = if x <= 1 && y <= 1 { 7 } else { 0 };
            assert_eq!(app.visible_tile_id(x, y), Some(expected));
        }
    }
    assert_eq!(app.undo_len(), 1);
}
