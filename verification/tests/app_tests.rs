use tellus_42::app::{
    expand_user_path, is_supported_image, load_tile_image, parse_fill_command,
    parse_map_command, parse_new_command, App, CommandAction, Mode, TextureCollector, TileImage,
};
use tellus_42::config::{parse_config, Color};
use tellus_42::level::LayerKind;

fn png_bytes(rgba: [u8; 4]) -> Vec<u8> {
    let img = image::RgbaImage::from_pixel(2, 2, image::Rgba(rgba));
    let mut out = std::io::Cursor::new(Vec::new());
    img.write_to(&mut out, image::ImageFormat::Png).unwrap();
    out.into_inner()
}

fn type_command(app: &mut App, line: &str) -> Result<CommandAction, String> {
    app.begin_command();
    for ch in line.chars() {
        app.command_push(ch);
    }
    app.submit_command()
}

#[test]
fn zoom_is_clamped() {
    let mut app = App::blank(8, 8, None).unwrap();
    app.adjust_zoom(20, (8, 8));
    assert_eq!(app.zoom(), 4);
    app.adjust_zoom(-20, (8, 8));
    assert_eq!(app.zoom(), 1);
}

#[test]
fn layer_cycles() {
    let mut app = App::blank(4, 4, None).unwrap();
    app.cycle_layer(1);
    assert_eq!(app.active_layer(), LayerKind::Detail);
    app.cycle_layer(1);
    assert_eq!(app.active_layer(), LayerKind::Logic);
    app.cycle_layer(1);
    assert_eq!(app.active_layer(), LayerKind::Ground);
}

#[test]
fn unmapped_digit_can_still_be_painted() {
    let mut app = App::blank(4, 4, None).unwrap();
    app.paint_digit(7).unwrap();
    assert_eq!(app.visible_tile_id(0, 0), Some(7));
    assert!(app.status().contains("numeric fallback"));
}

#[test]
fn expands_tilde_paths() {
    let home = "/home/tester";
    assert_eq!(expand_user_path("~/tmp", Some(home)), format!("{home}/tmp"));
}

#[test]
fn map_command_keeps_path_with_spaces() {
    let (layer, path) =
        parse_map_command("map ground ~/Pictures/My Tiles", Some("/home/tester")).unwrap();
    assert_eq!(layer, LayerKind::Ground);
    assert!(path.contains("Pictures/My Tiles"));
}

#[test]
fn mapping_skips_bad_images_and_keeps_valid_ones() {
    let files: Vec<(&str, Vec<u8>)> = vec![
        ("01_valid.png", png_bytes([255, 0, 0, 255])),
        ("02_invalid.png", b"not a real png".to_vec()),
        ("03_valid.png", png_bytes([0, 255, 0, 255])),
    ];

    let mut collector = TextureCollector::new();
    for (name, bytes) in &files {
        assert!(is_supported_image(name));
        let image = load_tile_image(name, bytes);
        collector.offer(Some(name.to_string()), image);
    }

    let mut app = App::blank(4, 4, None).unwrap();
    app.install_layer_assets(LayerKind::Ground, "/tmp/tellus_42_map_test".to_string(), collector)
        .unwrap();

    assert_eq!(app.layer_assets(LayerKind::Ground).tiles.len(), 2);
    assert!(app.status().contains("skipped"));
}

#[test]
fn fill_active_layer_writes_all_tiles() {
    let mut app = App::blank(3, 2, None).unwrap();
    app.fill_active_layer(4).unwrap();

    for y in 0..app.level().height {
        for x in 0..app.level().width {
            assert_eq!(app.visible_tile_id(x, y), Some(4));
        }
    }
}

#[test]
fn fill_command_parses_digit() {
    assert_eq!(parse_fill_command("fill 9").unwrap(), 9);
    assert!(parse_fill_command("fill 12").is_err());
}

#[test]
fn new_command_keeps_path_with_spaces() {
    let (width, height, path) =
        parse_new_command("new 10 12 ~/My Levels/test level.tlvl", Some("/home/tester")).unwrap();
    assert_eq!((width, height), (10, 12));
    assert!(path.unwrap().contains("My Levels/test level.tlvl"));
}

#[test]
fn undo_reverts_last_edit_and_redo_restores_it() {
    let mut app = App::blank(3, 3, None).unwrap();
    app.paint_digit(5).unwrap();
    assert_eq!(app.visible_tile_id(0, 0), Some(5));
    assert_eq!(app.undo_len(), 1);
    assert_eq!(app.redo_len(), 0);

    app.undo().unwrap();
    assert_eq!(app.visible_tile_id(0, 0), Some(0));
    assert_eq!(app.undo_len(), 0);
    assert_eq!(app.redo_len(), 1);

    app.redo().unwrap();
    assert_eq!(app.visible_tile_id(0, 0), Some(5));
    assert_eq!(app.undo_len(), 1);
    assert_eq!(app.redo_len(), 0);
}

#[test]
fn new_edit_clears_redo_history() {
    let mut app = App::blank(3, 3, None).unwrap();
    app.paint_digit(1).unwrap();
    app.undo().unwrap();
    assert_eq!(app.redo_len(), 1);

    app.paint_digit(2).unwrap();
    assert_eq!(app.redo_len(), 0);
    assert_eq!(app.visible_tile_id(0, 0), Some(2));
}

#[test]
fn blank_app_starts_in_normal_mode() {
    let app = App::blank(32, 18, None).unwrap();
    assert_eq!(app.mode(), Mode::Normal);
    assert_eq!(app.status(), "Normal mode");
    assert_eq!(app.zoom(), 2);
    assert_eq!(app.tile_size(), (12, 6));
    assert_eq!(app.cursor(), (0, 0));
    assert_eq!(app.view_origin(), (0, 0));
    assert_eq!(app.active_layer(), LayerKind::Ground);
    assert!(!app.dirty());
    assert_eq!(app.path(), None);
    assert_eq!(app.level().width, 32);
    assert_eq!(app.level().height, 18);
}

#[test]
fn blank_app_refuses_empty_level() {
    assert!(App::blank(0, 4, None).is_err());
    assert!(App::blank(4, 0, None).is_err());
}

#[test]
fn painting_out_of_range_id_is_refused() {
    let mut app = App::blank(3, 3, None).unwrap();
    let err = app.paint_digit(10).unwrap_err();
    assert_eq!(err, "paint only supports tile IDs 0-9");
    assert_eq!(app.undo_len(), 0);
    assert_eq!(app.visible_tile_id(0, 0), Some(0));
    let err = app.fill_active_layer(12).unwrap_err();
    assert_eq!(err, "fill only supports tile IDs 0-9");
}

#[test]
fn paint_status_names_cell_and_layer() {
    let mut app = App::blank(4, 4, None).unwrap();
    app.move_cursor(2, 1, (4, 4));
    app.cycle_layer(1);
    app.paint_digit(3).unwrap();
    assert_eq!(
        app.status(),
        "Painted 3 at (2, 1) on detail (unmapped, showing numeric fallback)"
    );
    assert!(app.dirty());
}

#[test]
fn paint_touches_only_the_cursor_tile() {
    let mut app = App::blank(3, 3, None).unwrap();
    app.move_cursor(1, 1, (3, 3));
    app.paint_digit(8).unwrap();
    for y in 0..3 {
        for x in 0..3 {
            let expected = if (x, y) == (1, 1) { 8 } else { 0 };
            assert_eq!(app.visible_tile_id(x, y), Some(expected));
        }
    }
    app.cycle_layer(1);
    assert_eq!(app.visible_tile_id(1, 1), Some(0));
}

#[test]
fn undo_and_redo_with_empty_history_fail() {
    let mut app = App::blank(2, 2, None).unwrap();
    assert_eq!(app.undo().unwrap_err(), "nothing to undo");
    assert_eq!(app.redo().unwrap_err(), "nothing to redo");
}

#[test]
fn undo_reverts_fill_and_redo_restores_it() {
    let mut app = App::blank(2, 2, None).unwrap();
    app.paint_digit(3).unwrap();
    app.fill_active_layer(6).unwrap();
    assert_eq!(app.status(), "Filled ground with 6 (unmapped, showing numeric fallback)");
    app.undo().unwrap();
    assert_eq!(app.status(), "Undo");
    assert_eq!(app.visible_tile_id(0, 0), Some(3));
    assert_eq!(app.visible_tile_id(1, 1), Some(0));
    app.redo().unwrap();
    assert_eq!(app.status(), "Redo");
    assert_eq!(app.visible_tile_id(1, 1), Some(6));
}

#[test]
fn layer_cycles_backwards() {
    let mut app = App::blank(4, 4, None).unwrap();
    app.cycle_layer(-1);
    assert_eq!(app.active_layer(), LayerKind::Logic);
    assert_eq!(app.status(), "Active layer: logic");
    app.cycle_layer(4);
    assert_eq!(app.active_layer(), LayerKind::Ground);
}

#[test]
fn zoom_scales_tile_size() {
    let mut app = App::blank(8, 8, None).unwrap();
    app.adjust_zoom(1, (8, 8));
    assert_eq!(app.zoom(), 3);
    assert_eq!(app.tile_size(), (18, 9));
    assert_eq!(app.status(), "Zoom 3");
}

#[test]
fn cursor_is_clamped_to_level() {
    let mut app = App::blank(5, 4, None).unwrap();
    app.move_cursor(100, 100, (2, 2));
    assert_eq!(app.cursor(), (4, 3));
    assert_eq!(app.view_origin(), (3, 2));
    app.move_cursor(-100, -1, (2, 2));
    assert_eq!(app.cursor(), (0, 2));
    assert_eq!(app.view_origin(), (0, 2));
}

#[test]
fn viewport_follows_cursor() {
    let mut app = App::blank(20, 20, None).unwrap();
    app.move_cursor(10, 0, (4, 4));
    assert_eq!(app.view_origin(), (7, 0));
    app.move_cursor(-5, 0, (4, 4));
    assert_eq!(app.view_origin(), (5, 0));
}

#[test]
fn mode_switches_set_status() {
    let mut app = App::blank(4, 4, None).unwrap();
    app.enter_insert_mode();
    assert_eq!(app.mode(), Mode::Insert);
    assert_eq!(app.status(), "Insert mode: press 0-9 to paint, Esc to stop");
    app.enter_normal_mode();
    assert_eq!(app.mode(), Mode::Normal);
    assert_eq!(app.status(), "Normal mode");
    app.begin_command();
    assert_eq!(app.mode(), Mode::Command);
    assert_eq!(app.status(), "Command mode");
    app.command_push('w');
    app.command_push('x');
    app.command_backspace();
    assert_eq!(app.command_buffer(), "w");
    app.cancel_command();
    assert_eq!(app.mode(), Mode::Normal);
    assert_eq!(app.command_buffer(), "");
}

#[test]
fn empty_command_line_does_nothing() {
    let mut app = App::blank(4, 4, None).unwrap();
    assert_eq!(type_command(&mut app, "   "), Ok(CommandAction::Noop));
    assert_eq!(app.mode(), Mode::Normal);
    assert_eq!(app.status(), "Normal mode");
}

#[test]
fn quit_command_asks_to_quit() {
    let mut app = App::blank(4, 4, None).unwrap();
    assert_eq!(type_command(&mut app, "q"), Ok(CommandAction::Quit));
    assert_eq!(type_command(&mut app, "quit"), Ok(CommandAction::Quit));
}

#[test]
fn write_command_needs_a_path() {
    let mut app = App::blank(4, 4, None).unwrap();
    assert_eq!(
        type_command(&mut app, "w"),
        Err("no active output path; use :w <path>".to_string())
    );
    app.set_home_dir(Some("/home/tester".to_string()));
    assert_eq!(
        type_command(&mut app, "w ~/out.tlvl"),
        Ok(CommandAction::Save("/home/tester/out.tlvl".to_string()))
    );
    assert_eq!(app.path(), Some("/home/tester/out.tlvl"));
    assert_eq!(
        type_command(&mut app, "write"),
        Ok(CommandAction::Save("/home/tester/out.tlvl".to_string()))
    );
}

#[test]
fn mark_saved_clears_dirty_flag() {
    let mut app = App::blank(4, 4, Some("/tmp/level.tlvl".to_string())).unwrap();
    app.paint_digit(1).unwrap();
    assert!(app.dirty());
    app.mark_saved();
    assert!(!app.dirty());
    assert_eq!(app.status(), "Saved /tmp/level.tlvl");
}

#[test]
fn open_command_expands_path() {
    let mut app = App::blank(4, 4, None).unwrap();
    app.set_home_dir(Some("/home/tester".to_string()));
    assert_eq!(
        type_command(&mut app, "open ~/levels/a.tlvl"),
        Ok(CommandAction::Open("/home/tester/levels/a.tlvl".to_string()))
    );
    assert_eq!(type_command(&mut app, "open"), Err("usage: :open <path>".to_string()));
}

#[test]
fn open_level_replaces_the_level() {
    let mut app = App::blank(4, 4, None).unwrap();
    app.paint_digit(2).unwrap();
    let level = tellus_42::level::Level::new(6, 5).unwrap();
    app.open_level(level, "/tmp/other.tlvl".to_string());
    assert_eq!(app.level().width, 6);
    assert_eq!(app.path(), Some("/tmp/other.tlvl"));
    assert_eq!(app.status(), "Opened level");
    assert!(!app.dirty());
    assert_eq!(app.undo_len(), 0);
}

#[test]
fn new_command_creates_blank_level() {
    let mut app = App::blank(4, 4, None).unwrap();
    app.paint_digit(2).unwrap();
    assert_eq!(type_command(&mut app, "new 7 3"), Ok(CommandAction::Noop));
    assert_eq!(app.level().width, 7);
    assert_eq!(app.level().height, 3);
    assert_eq!(app.status(), "Created new level");
    assert_eq!(app.visible_tile_id(0, 0), Some(0));
    assert_eq!(app.undo_len(), 0);
    assert!(type_command(&mut app, "new 0 3").is_err());
    assert_eq!(type_command(&mut app, "new x 3"), Err("invalid width: x".to_string()));
    assert_eq!(
        type_command(&mut app, "new 5"),
        Err("usage: :new <width> <height> [path]".to_string())
    );
}

#[test]
fn map_command_hands_folder_to_caller() {
    let mut app = App::blank(4, 4, None).unwrap();
    app.set_home_dir(Some("/home/tester".to_string()));
    assert_eq!(
        type_command(&mut app, "map detail ~/tiles"),
        Ok(CommandAction::MapFolder {
            layer: LayerKind::Detail,
            folder: "/home/tester/tiles".to_string()
        })
    );
    assert_eq!(
        type_command(&mut app, "map sky ~/tiles"),
        Err("invalid layer: sky".to_string())
    );
    assert_eq!(
        type_command(&mut app, "map ground"),
        Err("usage: :map <ground|detail|logic> <folder>".to_string())
    );
}

#[test]
fn fill_and_help_commands() {
    let mut app = App::blank(2, 2, None).unwrap();
    assert_eq!(type_command(&mut app, "fill 3"), Ok(CommandAction::Noop));
    assert_eq!(app.visible_tile_id(1, 1), Some(3));
    assert_eq!(type_command(&mut app, "help"), Ok(CommandAction::Noop));
    assert_eq!(
        app.status(),
        ":w [path], :q, :open <path>, :new <w> <h> [path], :map <layer> <folder>, :fill <0-9>"
    );
    assert_eq!(
        type_command(&mut app, "fly away"),
        Err("unknown command: fly".to_string())
    );
}

#[test]
fn fill_command_errors() {
    assert_eq!(parse_fill_command("fill"), Err("usage: :fill <0-9>".to_string()));
    assert_eq!(parse_fill_command("fill x"), Err("invalid tile id: x".to_string()));
    assert_eq!(
        parse_fill_command("fill 12"),
        Err("fill only supports tile IDs 0-9".to_string())
    );
}

#[test]
fn new_command_without_path() {
    assert_eq!(parse_new_command("new 3 4", None), Ok((3, 4, None)));
    assert_eq!(
        parse_new_command("new 3 70000", None),
        Err("invalid height: 70000".to_string())
    );
}

#[test]
fn tilde_expansion_edge_cases() {
    assert_eq!(expand_user_path("~", Some("/home/u")), "/home/u");
    assert_eq!(expand_user_path("~", None), "~");
    assert_eq!(expand_user_path("~/a", None), "~/a");
    assert_eq!(expand_user_path("~x/a", Some("/home/u")), "~x/a");
    assert_eq!(expand_user_path("rel/a", Some("/home/u")), "rel/a");
    assert_eq!(expand_user_path("~//abs", Some("/home/u")), "/abs");
    assert_eq!(expand_user_path("~/a", Some("/home/u/")), "/home/u/a");
}

#[test]
fn supported_image_extensions() {
    for name in ["a.png", "b.jpg", "c.jpeg", "d.bmp", "e.gif", "f.webp", "x.y.png"] {
        assert!(is_supported_image(name), "{name}");
    }
    for name in ["a.PNG", "png", ".png", "a.txt", "a.", "..", "a.png.bak"] {
        assert!(!is_supported_image(name), "{name}");
    }
}

#[test]
fn tile_image_checks_its_size() {
    assert!(TileImage::new(2, 1, vec![0; 8]).is_some());
    assert!(TileImage::new(2, 1, vec![0; 7]).is_none());
}

#[test]
fn load_tile_image_decodes_by_extension() {
    let bytes = png_bytes([1, 2, 3, 255]);
    let img = load_tile_image("tile.png", &bytes).unwrap();
    assert_eq!((img.width, img.height), (2, 2));
    assert_eq!(&img.rgba[0..4], &[1, 2, 3, 255]);
    assert!(load_tile_image("tile", &bytes).is_none());
    assert!(load_tile_image("tile.png", b"garbage").is_none());
    assert!(load_tile_image("tile.bmp", &bytes).is_none());
}

#[test]
fn collector_takes_at_most_nine_textures() {
    let bytes = png_bytes([9, 9, 9, 255]);
    let mut collector = TextureCollector::new();
    let mut full = false;
    let mut n = 0;
    while !full {
        n += 1;
        full = collector.offer(None, load_tile_image("t.png", &bytes));
    }
    assert_eq!(n, 9);
    assert!(collector.is_full());
    let mut app = App::blank(2, 2, None).unwrap();
    app.install_layer_assets(LayerKind::Logic, "/x".to_string(), collector).unwrap();
    let assets = app.layer_assets(LayerKind::Logic);
    assert_eq!(assets.tiles.len(), 9);
    assert_eq!(assets.tiles[0].id, 1);
    assert_eq!(assets.tiles[0].name, "tile_1");
    assert_eq!(assets.tiles[8].id, 9);
    assert_eq!(app.status(), "Mapped 9 textures for logic from /x");
    assert_eq!(app.tile_texture(LayerKind::Logic, 4).unwrap().id, 4);
    assert!(app.tile_texture(LayerKind::Logic, 0).is_none());
    assert!(app.tile_texture(LayerKind::Ground, 4).is_none());
}

#[test]
fn mapping_with_no_readable_image_is_refused() {
    let mut collector = TextureCollector::new();
    collector.offer(Some("a.png".to_string()), None);
    let mut app = App::blank(2, 2, None).unwrap();
    assert_eq!(
        app.install_layer_assets(LayerKind::Ground, "/empty".to_string(), collector),
        Err("no readable images found in /empty".to_string())
    );
    assert!(app.layer_assets(LayerKind::Ground).tiles.is_empty());
}

#[test]
fn mapped_digit_status_has_no_fallback_note() {
    let bytes = png_bytes([9, 9, 9, 255]);
    let mut collector = TextureCollector::new();
    collector.offer(Some("a.png".to_string()), load_tile_image("a.png", &bytes));
    let mut app = App::blank(2, 2, None).unwrap();
    app.install_layer_assets(LayerKind::Ground, "/t".to_string(), collector).unwrap();
    assert_eq!(app.status(), "Mapped 1 textures for ground from /t");
    app.paint_digit(1).unwrap();
    assert_eq!(app.status(), "Painted 1 at (0, 0) on ground");
    app.fill_active_layer(1).unwrap();
    assert_eq!(app.status(), "Filled ground with 1");
}

#[test]
fn texture_colors_sample_the_image() {
    // 2x2 image: red, green / blue, transparent.
    let rgba = vec![255, 0, 0, 255, 0, 255, 0, 255, 0, 0, 255, 255, 9, 9, 9, 0];
    let mut collector = TextureCollector::new();
    collector.offer(Some("a.png".to_string()), TileImage::new(2, 2, rgba));
    let mut app = App::blank(2, 2, None).unwrap();
    app.install_layer_assets(LayerKind::Ground, "/t".to_string(), collector).unwrap();
    let texture = app.tile_texture(LayerKind::Ground, 1);
    let cells = app.texture_colors(texture, 2, 1);
    assert_eq!(
        cells,
        vec![vec![
            (Color::Rgb(255, 0, 0), Color::Rgb(0, 0, 255)),
            (Color::Rgb(0, 255, 0), Color::Reset)
        ]]
    );
    let blank = app.texture_colors(None, 3, 2);
    assert_eq!(blank, vec![vec![(Color::Reset, Color::Reset); 3]; 2]);
}

#[test]
fn config_sets_layout_and_requests_mappings() {
    let config = parse_config(
        "sidebar_width=40\ntile_gap_x=2\ndetail_images=/art/detail\n",
        Some("/home/tester"),
    )
    .unwrap();
    let mut app = App::blank(4, 4, None).unwrap();
    let requests = app.apply_config(config);
    assert_eq!(requests, vec![(LayerKind::Detail, "/art/detail".to_string())]);
    assert_eq!(app.sidebar_width(), 40);
    assert_eq!(app.tile_gap(), (2, 1));
    let config = parse_config("", None).unwrap();
    let mut app = App::blank(4, 4, None).unwrap();
    assert!(app.apply_config(config).is_empty());
    assert_eq!(app.status(), "Loaded configuration");
}
