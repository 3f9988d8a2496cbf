use tellus_42::app::{cells_from_colors, colors_from_rgba, command_arg, App, Mode};
use tellus_42::config::{Color, UiTheme};
use tellus_42::folder::{image_files, str_le};
use tellus_42::ui::{
    cell_background, column_label, command_bar, grid_tiles, half_block_colors, mapping_folder,
    overview_values, row_label, status_is_error, tile_background, tile_cell, tile_layout,
    GutterLabel, Rect, TileLayout,
};

#[test]
fn grid_holds_whole_tiles() {
    let grid = Rect { x: 2, y: 3, width: 36, height: 18 };
    assert_eq!(grid_tiles(grid, (12, 6)), (3, 3));
    assert_eq!(grid_tiles(grid, (40, 40)), (1, 1));
    assert_eq!(grid_tiles(grid, (0, 0)), (36, 18));
}

#[test]
fn tile_cells_follow_the_view_origin() {
    let grid = Rect { x: 2, y: 3, width: 30, height: 12 };
    assert_eq!(
        tile_cell(grid, (12, 6), (5, 7), (20, 20), 1, 1),
        Some((6, 8, Rect { x: 14, y: 9, width: 12, height: 6 }))
    );
    assert_eq!(tile_cell(grid, (12, 6), (19, 0), (20, 20), 1, 0), None);
    assert_eq!(
        tile_cell(grid, (12, 6), (0, 0), (20, 20), 0, 0),
        Some((0, 0, Rect { x: 2, y: 3, width: 12, height: 6 }))
    );
}

#[test]
fn gutter_labels() {
    let grid = Rect { x: 0, y: 0, width: 36, height: 18 };
    let rows = Rect { x: 36, y: 0, width: 4, height: 20 };
    match row_label(rows, grid, 6, 10, 12, 1) {
        GutterLabel::Draw { text, x, y, width } => {
            assert_eq!(text, "11  ");
            assert_eq!((x, y, width), (36, 8, 4));
        }
        _ => panic!("expected a label"),
    }
    assert!(matches!(row_label(rows, grid, 6, 10, 12, 2), GutterLabel::Stop));
    let cols = Rect { x: 0, y: 18, width: 36, height: 2 };
    match column_label(cols, grid, 12, 3, 12, 2) {
        GutterLabel::Draw { text, x, y, width } => {
            assert_eq!(text, "     5      ");
            assert_eq!((x, y, width), (24, 18, 12));
        }
        _ => panic!("expected a label"),
    }
    assert!(matches!(column_label(cols, grid, 12, 3, 4, 1), GutterLabel::Stop));
    let short = Rect { x: 0, y: 18, width: 10, height: 2 };
    assert!(matches!(column_label(short, grid, 12, 0, 12, 1), GutterLabel::Skip));
}

#[test]
fn tile_layouts() {
    let cell = Rect { x: 4, y: 2, width: 12, height: 6 };
    assert_eq!(
        tile_layout(cell, (1, 1), true),
        Some(TileLayout {
            tile_area: Rect { x: 4, y: 2, width: 11, height: 5 },
            outlined: true,
            content: Rect { x: 5, y: 3, width: 9, height: 3 },
            label_y: 4,
        })
    );
    assert_eq!(
        tile_layout(cell, (1, 1), false),
        Some(TileLayout {
            tile_area: Rect { x: 4, y: 2, width: 11, height: 5 },
            outlined: false,
            content: Rect { x: 4, y: 2, width: 11, height: 5 },
            label_y: 4,
        })
    );
    let small = Rect { x: 0, y: 0, width: 3, height: 3 };
    assert!(!tile_layout(small, (1, 1), true).unwrap().outlined);
    assert_eq!(tile_layout(small, (3, 0), false), None);
}

#[test]
fn tile_colours() {
    let theme = UiTheme::default();
    let sel = Color::Rgb(30, 46, 72);
    assert_eq!(cell_background(Mode::Visual, &theme, true), sel);
    assert_eq!(cell_background(Mode::Visual, &theme, false), theme.grid_bg);
    assert_eq!(cell_background(Mode::Normal, &theme, true), theme.tile_bg);
    assert_eq!(tile_background(Mode::Visual, &theme, true), sel);
    assert_eq!(tile_background(Mode::Visual, &theme, false), theme.tile_bg);
    let red = Color::Rgb(255, 0, 0);
    assert_eq!(half_block_colors(red, Color::Reset, sel), (red, sel));
    assert_eq!(half_block_colors(Color::Reset, red, sel), (Color::Reset, red));
}

#[test]
fn command_bar_per_mode() {
    let theme = UiTheme::default();
    let (title, line, colour) = command_bar(Mode::Command, "w a", &theme);
    assert_eq!((title.as_str(), line.as_str(), colour), ("Command", ":w a", theme.accent_text));
    let (title, _, colour) = command_bar(Mode::Normal, "", &theme);
    assert_eq!((title.as_str(), colour), ("Status", theme.muted_text));
    let (title, line, _) = command_bar(Mode::Insert, "", &theme);
    assert_eq!(title, "Insert");
    assert!(line.contains("press 0-9 to paint"));
}

#[test]
fn status_errors() {
    assert!(status_is_error("Error: nothing to undo"));
    assert!(!status_is_error("Error"));
    assert!(!status_is_error("Normal mode"));
}

#[test]
fn sidebar_overview() {
    let mut app = App::blank(5, 4, Some("/tmp/a.tlvl".to_string())).unwrap();
    app.move_cursor(2, 1, (3, 3));
    app.begin_visual();
    app.move_cursor(1, 1, (3, 3));
    assert_eq!(
        overview_values(&app),
        vec!["/tmp/a.tlvl", "5x4", "no", "Visual", "2", "3, 2", "2x2", "1, 0"]
    );
    assert_eq!(mapping_folder(&app), "<none>");
    let fresh = App::blank(2, 2, None).unwrap();
    assert_eq!(overview_values(&fresh)[0], "<unsaved>");
    assert_eq!(overview_values(&fresh)[6], "-");
}

#[test]
fn image_files_are_filtered_and_sorted() {
    let names = vec![
        "b.png".to_string(),
        "notes.txt".to_string(),
        "A.jpg".to_string(),
        "a.gif".to_string(),
        "10.bmp".to_string(),
        "9.webp".to_string(),
        "b.png".to_string(),
    ];
    assert_eq!(
        image_files(names),
        vec!["10.bmp", "9.webp", "A.jpg", "a.gif", "b.png", "b.png"]
    );
    assert!(image_files(vec![]).is_empty());
}

#[test]
fn text_order() {
    assert!(str_le("a", "b"));
    assert!(str_le("ab", "abc"));
    assert!(!str_le("abc", "ab"));
    assert!(str_le("", ""));
    assert!(str_le("Z", "a"));
    assert!(str_le("z", "é"));
}

#[test]
fn command_argument() {
    assert_eq!(command_arg("w  my file.tlvl  "), Some("my file.tlvl".to_string()));
    assert_eq!(command_arg("w"), None);
    assert_eq!(command_arg("w   "), None);
}

#[test]
fn colours_from_pixels_and_cells() {
    let px = vec![1, 2, 3, 255, 9, 9, 9, 0, 4, 5, 6, 1];
    let colors = colors_from_rgba(&px, 3, 1);
    assert_eq!(colors, vec![Color::Rgb(1, 2, 3), Color::Reset, Color::Rgb(4, 5, 6)]);
    let a = Color::Rgb(1, 1, 1);
    let b = Color::Rgb(2, 2, 2);
    let c = Color::Rgb(3, 3, 3);
    let d = Color::Rgb(4, 4, 4);
    // two pixel rows of two colours: one cell row
    assert_eq!(cells_from_colors(&vec![a, b, c, d], 2, 1), vec![vec![(a, c), (b, d)]]);
    // no cell rows still samples one pixel row, which pairs with itself
    assert_eq!(cells_from_colors(&vec![a, b], 2, 0), vec![vec![(a, a), (b, b)]]);
}
