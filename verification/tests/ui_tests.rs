use tellus_42::app::{App, Mode};
use tellus_42::config::{Color, UiTheme};
use tellus_42::level::LayerKind;
use tellus_42::ui::{
    center_text, clip_rect, cursor_color, inset_rect_end, inset_rect_uniform, next_layer,
    pad_right, prev_layer, selected_tile_bg, split_canvas, viewport_tiles, Rect,
    COLUMN_NUMBER_GUTTER_HEIGHT, COMMAND_HEIGHT, ROW_NUMBER_GUTTER_WIDTH,
};

#[test]
fn clip_rect_trims_to_bounds() {
    let clipped = clip_rect(
        Rect {
            x: 10,
            y: 5,
            width: 8,
            height: 6,
        },
        Rect {
            x: 12,
            y: 7,
            width: 4,
            height: 3,
        },
    )
    .unwrap();

    assert_eq!(
        clipped,
        Rect {
            x: 12,
            y: 7,
            width: 4,
            height: 3,
        }
    );
}

#[test]
fn clip_rect_returns_none_when_outside_bounds() {
    let clipped = clip_rect(
        Rect {
            x: 0,
            y: 0,
            width: 2,
            height: 2,
        },
        Rect {
            x: 5,
            y: 5,
            width: 3,
            height: 3,
        },
    );

    assert!(clipped.is_none());
}

#[test]
fn split_canvas_reserves_constant_gutters() {
    let layout = split_canvas(Rect {
        x: 2,
        y: 3,
        width: 40,
        height: 20,
    });

    assert_eq!(layout.row_gutter.width, ROW_NUMBER_GUTTER_WIDTH);
    assert_eq!(layout.column_gutter.height, COLUMN_NUMBER_GUTTER_HEIGHT);
    assert_eq!(layout.grid.width, 36);
    assert_eq!(layout.grid.height, 18);
}

#[test]
fn split_canvas_places_gutters() {
    let layout = split_canvas(Rect { x: 2, y: 3, width: 40, height: 20 });
    assert_eq!(layout.grid, Rect { x: 2, y: 3, width: 36, height: 18 });
    assert_eq!(layout.row_gutter, Rect { x: 38, y: 3, width: 4, height: 20 });
    assert_eq!(layout.column_gutter, Rect { x: 2, y: 21, width: 36, height: 2 });
    assert_eq!(layout.corner, Rect { x: 38, y: 21, width: 4, height: 2 });
}

#[test]
fn clip_rect_is_symmetric_and_partial() {
    let a = Rect { x: 0, y: 0, width: 10, height: 10 };
    let b = Rect { x: 5, y: 8, width: 10, height: 10 };
    let expected = Some(Rect { x: 5, y: 8, width: 5, height: 2 });
    assert_eq!(clip_rect(a, b), expected);
    assert_eq!(clip_rect(b, a), expected);
    let edge = Rect { x: 10, y: 0, width: 3, height: 3 };
    assert_eq!(clip_rect(a, edge), None);
    let far = Rect { x: 65530, y: 0, width: 100, height: 1 };
    let wide = Rect { x: 0, y: 0, width: 65535, height: 1 };
    assert_eq!(clip_rect(far, wide), Some(Rect { x: 65530, y: 0, width: 5, height: 1 }));
}

#[test]
fn insets() {
    let r = Rect { x: 1, y: 2, width: 10, height: 3 };
    assert_eq!(inset_rect_end(r, 2, 5), Rect { x: 1, y: 2, width: 8, height: 0 });
    assert_eq!(inset_rect_uniform(r, 1), Rect { x: 2, y: 3, width: 8, height: 1 });
    assert_eq!(inset_rect_uniform(r, 40000), Rect { x: 40001, y: 40002, width: 0, height: 0 });
}

#[test]
fn padding_and_centering() {
    assert_eq!(pad_right("ab", 5), "ab   ");
    assert_eq!(pad_right("abcdef", 3), "abc");
    assert_eq!(center_text("ab", 7), "  ab   ");
    assert_eq!(center_text("abcd", 2), "ab");
    assert_eq!(pad_right("é", 3), "é ");
    assert_eq!(center_text("é", 1), "é");
}

#[test]
fn layer_order() {
    assert_eq!(next_layer(LayerKind::Ground), LayerKind::Detail);
    assert_eq!(next_layer(LayerKind::Logic), LayerKind::Ground);
    assert_eq!(prev_layer(LayerKind::Ground), LayerKind::Logic);
    assert_eq!(prev_layer(LayerKind::Detail), LayerKind::Ground);
}

#[test]
fn mode_colours() {
    let theme = UiTheme::default();
    assert_eq!(cursor_color(Mode::Normal, &theme), theme.cursor_normal);
    assert_eq!(cursor_color(Mode::Insert, &theme), theme.cursor_insert);
    assert_eq!(cursor_color(Mode::Command, &theme), theme.cursor_command);
    assert_eq!(cursor_color(Mode::Visual, &theme), theme.accent_text);
    assert_eq!(selected_tile_bg(Mode::Visual, &theme), Color::Rgb(30, 46, 72));
    assert_eq!(selected_tile_bg(Mode::Normal, &theme), Color::Black);
}

#[test]
fn viewport_counts_whole_tiles() {
    let app = App::blank(32, 18, None).unwrap();
    // 38 + 2 columns of sidebar, 3 + 2 rows of command bar; tiles are 12x6 at zoom 2.
    assert_eq!(COMMAND_HEIGHT, 3);
    assert_eq!(viewport_tiles(&app, (100, 40)), (5, 5));
    assert_eq!(viewport_tiles(&app, (10, 4)), (1, 1));
}

#[test]
fn split_canvas_matches_the_stated_layout() {
    for (x, y) in [(0u16, 0u16), (2, 3), (100, 7), (60000, 60000)] {
        for width in 0u16..=50 {
            for height in [0u16, 1, 2, 3, 20, 41] {
                let area = Rect { x, y, width, height };
                let layout = split_canvas(area);
                let gutter_w = width.min(4);
                let rest_w = width - gutter_w;
                let gutter_h = height.min(2);
                let rest_h = height - gutter_h;
                assert_eq!(layout.row_gutter, Rect { x: x + rest_w, y, width: gutter_w, height });
                assert_eq!(layout.grid, Rect { x, y, width: rest_w, height: rest_h });
                assert_eq!(
                    layout.column_gutter,
                    Rect { x, y: y + rest_h, width: rest_w, height: gutter_h }
                );
                assert_eq!(
                    layout.corner,
                    Rect { x: x + rest_w, y: y + rest_h, width: gutter_w, height: gutter_h }
                );
            }
        }
    }
    let wide = split_canvas(Rect { x: 0, y: 0, width: 65535, height: 65535 });
    assert_eq!(wide.grid, Rect { x: 0, y: 0, width: 65531, height: 65533 });
    assert_eq!(wide.row_gutter, Rect { x: 65531, y: 0, width: 4, height: 65535 });
}
