use tellus_42::commands::Command;
use tellus_42::level::LayerKind;

#[test]
fn parses_set_command() {
    let command = Command::parse("set logic 3 4 7").unwrap();
    assert_eq!(
        command,
        Command::SetTile {
            layer: LayerKind::Logic,
            x: 3,
            y: 4,
            value: 7,
        }
    );
}

#[test]
fn rejects_unknown_layer() {
    let err = Command::parse("set sky 0 0 1").unwrap_err();
    assert!(err.to_string().contains("invalid layer"));
}

#[test]
fn parses_simple_commands() {
    assert_eq!(Command::parse("help").unwrap(), Command::Help);
    assert_eq!(Command::parse("  show  ").unwrap(), Command::Show);
    assert_eq!(Command::parse("quit").unwrap(), Command::Quit);
    assert_eq!(Command::parse("exit").unwrap(), Command::Quit);
    assert_eq!(Command::parse("help me").unwrap(), Command::Help);
}

#[test]
fn parses_save_open_and_new() {
    assert_eq!(Command::parse("save").unwrap(), Command::Save(None));
    assert_eq!(
        Command::parse("save out.tlvl").unwrap(),
        Command::Save(Some("out.tlvl".to_string()))
    );
    assert_eq!(
        Command::parse("open a.tlvl").unwrap(),
        Command::Open("a.tlvl".to_string())
    );
    assert_eq!(
        Command::parse("new 4 5").unwrap(),
        Command::New { width: 4, height: 5, path: None }
    );
    assert_eq!(
        Command::parse("new 4 5 b.tlvl").unwrap(),
        Command::New { width: 4, height: 5, path: Some("b.tlvl".to_string()) }
    );
}

#[test]
fn command_errors_carry_their_messages() {
    let cases = [
        ("", "empty command"),
        ("   ", "empty command"),
        ("save a b", "usage: save [path]"),
        ("open", "usage: open <path>"),
        ("open a b", "usage: open <path>"),
        ("new 4", "usage: new <width> <height> [path]"),
        ("new 4 5 a b", "usage: new <width> <height> [path]"),
        ("new x 5", "invalid width: x"),
        ("new 4 70000", "invalid height: 70000"),
        ("set ground 1 2", "usage: set <ground|detail|logic> <x> <y> <value>"),
        ("set ground a 2 3", "invalid x: a"),
        ("set ground 1 -2 3", "invalid y: -2"),
        ("set ground 1 2 +", "invalid value: +"),
        ("set sky 0 0 1", "invalid layer: sky (expected ground, detail, or logic)"),
        ("fly", "unknown command: fly"),
    ];
    for (input, message) in cases {
        assert_eq!(Command::parse(input).unwrap_err().to_string(), message, "{input}");
    }
}

#[test]
fn numbers_accept_a_plus_sign() {
    assert_eq!(
        Command::parse("set detail +1 2 3").unwrap(),
        Command::SetTile { layer: LayerKind::Detail, x: 1, y: 2, value: 3 }
    );
}

#[test]
fn printed_commands_parse_back() {
    for (layer, name) in [
        (LayerKind::Ground, "ground"),
        (LayerKind::Detail, "detail"),
        (LayerKind::Logic, "logic"),
    ] {
        for (x, y, v) in [(0u16, 0u16, 0u16), (65535, 12, 9), (7, 65535, 300)] {
            assert_eq!(
                Command::parse(&format!("set {name} {x} {y} {v}")).unwrap(),
                Command::SetTile { layer, x, y, value: v }
            );
        }
    }
    assert_eq!(
        Command::parse(&format!("new {} {}", 65535u16, 1u16)).unwrap(),
        Command::New { width: 65535, height: 1, path: None }
    );
    assert_eq!(
        Command::parse("new 3 4 levels/a.tlvl").unwrap(),
        Command::New { width: 3, height: 4, path: Some("levels/a.tlvl".to_string()) }
    );
    assert_eq!(
        Command::parse("save out.tlvl").unwrap(),
        Command::Save(Some("out.tlvl".to_string()))
    );
}
