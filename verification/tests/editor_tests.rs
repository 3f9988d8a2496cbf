use tellus_42::commands::Command;
use tellus_42::editor::{help_text, CommandOutcome, Editor};
use tellus_42::level::{LayerKind, Level};

#[test]
fn set_marks_editor_dirty() {
    let level = Level::new(2, 2).unwrap();
    let mut editor = Editor::new(level, None);

    let message = match editor
        .apply(Command::SetTile {
            layer: LayerKind::Ground,
            x: 1,
            y: 1,
            value: 9,
        })
        .unwrap()
    {
        CommandOutcome::Message(message) => message,
        _ => panic!("expected message"),
    };

    assert!(message.contains("updated ground"));
    assert!(editor.render().contains("dirty: true"));
}

#[test]
fn render_shows_every_layer() {
    let mut editor = Editor::blank(2, 1, Some("lvl.tlvl".to_string())).unwrap();
    editor
        .apply(Command::SetTile { layer: LayerKind::Logic, x: 1, y: 0, value: 12 })
        .unwrap();
    let expected = "path: lvl.tlvl\nsize: 2x1 | entities: 0 | dirty: true\n\n[ground]\n  0    0   0\n\n[detail]\n  0    0   0\n\n[logic]\n  0    0  12\n";
    assert_eq!(editor.render(), expected);
}

#[test]
fn set_outside_the_level_is_refused() {
    let mut editor = Editor::blank(2, 2, None).unwrap();
    let err = editor
        .apply(Command::SetTile { layer: LayerKind::Ground, x: 2, y: 0, value: 1 })
        .err()
        .unwrap();
    assert_eq!(err, "tile (2, 0) is outside the 2x2 level");
    assert!(editor.render().contains("dirty: false"));
}

#[test]
fn save_needs_a_path_and_finish_save_clears_dirty() {
    let mut editor = Editor::blank(2, 2, None).unwrap();
    assert_eq!(
        editor.apply(Command::Save(None)).err().unwrap(),
        "no active output path; use `save <path>`"
    );
    editor
        .apply(Command::SetTile { layer: LayerKind::Ground, x: 0, y: 0, value: 1 })
        .unwrap();
    match editor.apply(Command::Save(Some("out.tlvl".to_string()))).unwrap() {
        CommandOutcome::Save(p) => assert_eq!(p, "out.tlvl"),
        _ => panic!("expected save"),
    }
    assert_eq!(editor.finish_save(), "saved out.tlvl");
    assert!(editor.render().contains("dirty: false"));
}

#[test]
fn other_commands() {
    let mut editor = Editor::blank(1, 1, None).unwrap();
    assert!(matches!(editor.apply(Command::Quit).unwrap(), CommandOutcome::Quit));
    match editor.apply(Command::Help).unwrap() {
        CommandOutcome::Message(m) => assert_eq!(m, help_text()),
        _ => panic!("expected message"),
    }
    match editor.apply(Command::Open("a.tlvl".to_string())).unwrap() {
        CommandOutcome::Open(p) => assert_eq!(p, "a.tlvl"),
        _ => panic!("expected open"),
    }
    match editor.apply(Command::New { width: 3, height: 1, path: None }).unwrap() {
        CommandOutcome::Message(m) => assert!(m.starts_with("path: <unsaved>\nsize: 3x1")),
        _ => panic!("expected message"),
    }
    assert_eq!(
        editor.apply(Command::New { width: 0, height: 1, path: None }).err().unwrap(),
        "level must be at least 1x1, got 0x1"
    );
    match editor.apply(Command::Show).unwrap() {
        CommandOutcome::Message(m) => assert!(m.contains("size: 3x1")),
        _ => panic!("expected message"),
    }
}

#[test]
fn help_lists_commands() {
    let help = help_text();
    assert!(help.starts_with("commands:\n  help\n  show"));
    assert!(help.ends_with("  quit"));
}
