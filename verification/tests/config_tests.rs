use tellus_42::config::{
    default_config_path, parse_color_value, parse_config, AppConfig, Color, ColorOutcome,
    UiTheme,
};

#[test]
fn parses_basic_config() {
    let config = parse_config(
        "sidebar_width=44\nground_images=~/tiles/ground\naccent_text=#112233\n",
        Some("/home/tester"),
    )
    .unwrap();
    assert_eq!(config.sidebar_width, 44);
    assert!(config.layer_mappings[0].as_ref().unwrap().contains("tiles/ground"));
    assert_eq!(config.theme.accent_text, Color::Rgb(0x11, 0x22, 0x33));
}

#[test]
fn default_config_values() {
    let config = AppConfig::default();
    assert_eq!(config.sidebar_width, 38);
    assert_eq!((config.tile_gap_x, config.tile_gap_y), (1, 1));
    assert_eq!(config.theme, UiTheme::default());
    assert_eq!(config.theme.tile_bg, Color::Black);
    assert_eq!(config.theme.sidebar_bg, Color::Rgb(22, 24, 28));
    assert!(config.layer_mappings.iter().all(|m| m.is_none()));
}

#[test]
fn comments_and_blank_lines_are_skipped() {
    let config = parse_config(
        "# a comment\n; another\n\n   tile_gap_x = 3  \r\ntile_gap_y=0\nlogic_images = /abs/logic\n",
        None,
    )
    .unwrap();
    assert_eq!((config.tile_gap_x, config.tile_gap_y), (3, 0));
    assert_eq!(config.layer_mappings[2].as_deref(), Some("/abs/logic"));
    assert_eq!(config.layer_mappings[1], None);
}

#[test]
fn all_theme_keys_are_read() {
    let keys = [
        "sidebar_bg",
        "panel_border",
        "panel_text",
        "muted_text",
        "accent_text",
        "success_text",
        "warning_text",
        "error_text",
        "grid_bg",
        "tile_bg",
        "cursor_normal",
        "cursor_insert",
        "cursor_command",
    ];
    let mut text = String::new();
    for (i, key) in keys.iter().enumerate() {
        text.push_str(&format!("{key}=#0000{:02x}\n", i));
    }
    let theme = parse_config(&text, None).unwrap().theme;
    let got = [
        theme.sidebar_bg,
        theme.panel_border,
        theme.panel_text,
        theme.muted_text,
        theme.accent_text,
        theme.success_text,
        theme.warning_text,
        theme.error_text,
        theme.grid_bg,
        theme.tile_bg,
        theme.cursor_normal,
        theme.cursor_insert,
        theme.cursor_command,
    ];
    for (i, color) in got.iter().enumerate() {
        assert_eq!(*color, Color::Rgb(0, 0, i as u8));
    }
}

#[test]
fn config_errors_name_the_line() {
    assert_eq!(
        parse_config("sidebar_width=40\njust text\n", None).unwrap_err(),
        "invalid config line 2: expected key=value"
    );
    assert_eq!(
        parse_config("colour=#ffffff", None).unwrap_err(),
        "unknown config key on line 1: colour"
    );
    assert_eq!(
        parse_config("\n\ntile_gap_x=-1", None).unwrap_err(),
        "invalid integer for tile_gap_x on line 3: -1"
    );
    assert_eq!(
        parse_config("grid_bg=#12345", None).unwrap_err(),
        "invalid color for grid_bg on line 1: expected #RRGGBB"
    );
    assert_eq!(
        parse_config("grid_bg=#12345g", None).unwrap_err(),
        "invalid color for grid_bg on line 1: #12345g"
    );
}

#[test]
fn reading_stops_at_first_error() {
    assert_eq!(
        parse_config("nope\nsidebar_width=x", None).unwrap_err(),
        "invalid config line 1: expected key=value"
    );
}

#[test]
fn colour_values() {
    assert!(matches!(parse_color_value("#a0B1c2"), ColorOutcome::Parsed(Color::Rgb(0xa0, 0xb1, 0xc2))));
    assert!(matches!(parse_color_value("ffffff"), ColorOutcome::Parsed(Color::Rgb(255, 255, 255))));
    assert!(matches!(parse_color_value("#fff"), ColorOutcome::WrongLength));
    assert!(matches!(parse_color_value("#gg0000"), ColorOutcome::BadDigits));
    assert!(matches!(parse_color_value("+f0000"), ColorOutcome::BadDigits));
    assert!(matches!(parse_color_value("#+1+2+3"), ColorOutcome::BadDigits));
    assert!(matches!(parse_color_value("f+0000"), ColorOutcome::BadDigits));
    assert!(matches!(parse_color_value("aé000"), ColorOutcome::BadDigits));
    assert!(matches!(parse_color_value("#aé00"), ColorOutcome::WrongLength));
}

#[test]
fn non_ascii_colour_values_are_invalid() {
    assert_eq!(
        parse_config("grid_bg=aé000", None).unwrap_err(),
        "invalid color for grid_bg on line 1: aé000"
    );
    assert_eq!(
        parse_config("grid_bg=#aé00", None).unwrap_err(),
        "invalid color for grid_bg on line 1: expected #RRGGBB"
    );
    assert_eq!(
        parse_config("tile_bg=#+1+2+3", None).unwrap_err(),
        "invalid color for tile_bg on line 1: #+1+2+3"
    );
}

#[test]
fn config_path_is_in_home() {
    assert_eq!(default_config_path(Some("/home/tester")), "/home/tester/.tellus-42.conf");
    assert_eq!(default_config_path(None), "~/.tellus-42.conf");
}

#[test]
fn comments_blank_lines_and_spaces_change_nothing() {
    let plain = parse_config("sidebar_width=40\ntile_gap_x=3\ngrid_bg=#010203\n", None).unwrap();
    let padded = parse_config(
        "# settings\nsidebar_width=40\n\n; gaps\n \t tile_gap_x \t=  3 \ngrid_bg = #010203\n",
        None,
    )
    .unwrap();
    assert_eq!(padded.sidebar_width, plain.sidebar_width);
    assert_eq!((padded.tile_gap_x, padded.tile_gap_y), (plain.tile_gap_x, plain.tile_gap_y));
    assert_eq!(padded.theme, plain.theme);
    assert_eq!(padded.layer_mappings, plain.layer_mappings);
}
