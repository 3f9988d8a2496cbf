use vstd::prelude::*;

use crate::app::{App, AppView, Mode, size_text};
use crate::config::{Color, UiTheme};
use crate::level::LayerKind;
use crate::text::{
    append_str, chars_eq, chars_of, decimal, decimal_string, lemma_ascii_decimal, push_decimal, push_spaces, slice_chars, spaces,
    string_from, string_of,
};
use ratatui::layout::{Constraint, Direction, Layout};

verus! {

/// Rows taken by the command bar at the bottom of the screen.
pub const COMMAND_HEIGHT: u16 = 3;

/// Columns of the gutter that shows row numbers.
pub const ROW_NUMBER_GUTTER_WIDTH: u16 = 4;

/// Rows of the gutter that shows column numbers.
pub const COLUMN_NUMBER_GUTTER_HEIGHT: u16 = 2;

/// A rectangle of terminal cells.
#[derive(Clone, Copy, Debug, PartialEq, Eq, Structural)]
pub struct Rect {
    pub x: u16,
    pub y: u16,
    pub width: u16,
    pub height: u16,
}

/// Where the canvas draws the tile grid, the row and column number gutters, and the corner
/// between them.
#[derive(Clone, Copy, Debug, PartialEq, Eq, Structural)]
pub struct CanvasLayout {
    pub grid: Rect,
    pub row_gutter: Rect,
    pub column_gutter: Rect,
    pub corner: Rect,
}

pub open spec fn sat_add(a: u16, b: u16) -> int {
    if a + b > u16::MAX {
        u16::MAX as int
    } else {
        a + b
    }
}

pub open spec fn max_int(a: int, b: int) -> int {
    if a >= b {
        a
    } else {
        b
    }
}

pub open spec fn min_int(a: int, b: int) -> int {
    if a <= b {
        a
    } else {
        b
    }
}

/// The overlap of `area` and `bounds`, where each rectangle's far edge is capped at
/// `u16::MAX`; `None` when they do not overlap.
pub open spec fn clip_rect_spec(area: Rect, bounds: Rect) -> Option<Rect> {
    let left = max_int(area.x as int, bounds.x as int);
    let top = max_int(area.y as int, bounds.y as int);
    let right = min_int(sat_add(area.x, area.width), sat_add(bounds.x, bounds.width));
    let bottom = min_int(sat_add(area.y, area.height), sat_add(bounds.y, bounds.height));
    if left >= right || top >= bottom {
        None
    } else {
        Some(
            Rect {
                x: left as u16,
                y: top as u16,
                width: (right - left) as u16,
                height: (bottom - top) as u16,
            },
        )
    }
}

/// The part of `area` inside `bounds` (see [`clip_rect_spec`]).
pub fn clip_rect(area: Rect, bounds: Rect) -> (r: Option<Rect>)
    ensures
        r == clip_rect_spec(area, bounds),
{
    let left = if area.x >= bounds.x {
        area.x
    } else {
        bounds.x
    };
    let top = if area.y >= bounds.y {
        area.y
    } else {
        bounds.y
    };
    let ar = area.x.saturating_add(area.width);
    let br = bounds.x.saturating_add(bounds.width);
    let right = if ar <= br {
        ar
    } else {
        br
    };
    let ab = area.y.saturating_add(area.height);
    let bb = bounds.y.saturating_add(bounds.height);
    let bottom = if ab <= bb {
        ab
    } else {
        bb
    };
    if left >= right || top >= bottom {
        return None;
    }
    Some(Rect { x: left, y: top, width: right - left, height: bottom - top })
}

/// `area` with `gap_x` columns and `gap_y` rows taken off its right and bottom edges.
pub fn inset_rect_end(area: Rect, gap_x: u16, gap_y: u16) -> (r: Rect)
    ensures
        r == (Rect {
            x: area.x,
            y: area.y,
            width: if area.width >= gap_x {
                (area.width - gap_x) as u16
            } else {
                0
            },
            height: if area.height >= gap_y {
                (area.height - gap_y) as u16
            } else {
                0
            },
        }),
{
    Rect {
        x: area.x,
        y: area.y,
        width: area.width.saturating_sub(gap_x),
        height: area.height.saturating_sub(gap_y),
    }
}

/// `area` shrunk by `margin` on every side (saturating).
pub fn inset_rect_uniform(area: Rect, margin: u16) -> (r: Rect)
    ensures
        ({
            let twice: int = if 2 * margin > u16::MAX {
                u16::MAX as int
            } else {
                2 * margin
            };
            r == (Rect {
                x: sat_add(area.x, margin) as u16,
                y: sat_add(area.y, margin) as u16,
                width: if area.width >= twice {
                    (area.width - twice) as u16
                } else {
                    0
                },
                height: if area.height >= twice {
                    (area.height - twice) as u16
                } else {
                    0
                },
            })
        }),
{
    let twice: u16 = if margin > 32767 {
        65535
    } else {
        margin * 2
    };
    Rect {
        x: area.x.saturating_add(margin),
        y: area.y.saturating_add(margin),
        width: area.width.saturating_sub(twice),
        height: area.height.saturating_sub(twice),
    }
}

/// How `ratatui`'s `Layout::split` divides `area` between `Constraint::Min(0)` and
/// `Constraint::Length(length)`, side by side (`vertical == false`) or stacked.
pub uninterp spec fn min_then_length_split(area: Rect, vertical: bool, length: u16) -> (Rect, Rect);

/// Whether the far edges of `area` lie within the `u16` range.
pub open spec fn edges_fit(area: Rect) -> bool {
    area.x + area.width <= u16::MAX && area.y + area.height <= u16::MAX
}

/// `area` split into a flexible part and a part of `length` cells at its end, side by side
/// or stacked: the second part takes `length` cells and the first the rest; when the area is
/// shorter than `length`, the first part is empty and the second is the whole area.
pub open spec fn min_then_length_parts(area: Rect, vertical: bool, length: u16) -> (Rect, Rect) {
    if !vertical {
        if area.width >= length {
            (
                Rect { width: (area.width - length) as u16, ..area },
                Rect { x: (area.x + area.width - length) as u16, width: length, ..area },
            )
        } else {
            (Rect { width: 0, ..area }, area)
        }
    } else {
        if area.height >= length {
            (
                Rect { height: (area.height - length) as u16, ..area },
                Rect { y: (area.y + area.height - length) as u16, height: length, ..area },
            )
        } else {
            (Rect { height: 0, ..area }, area)
        }
    }
}

/// Splits `area` with `ratatui::layout::Layout::split` (default flex, no margin or spacing)
/// into `Constraint::Min(0)` and `Constraint::Length(length)`, side by side or stacked. The
/// result is named by `min_then_length_split`; where the area's far edges lie within the `u16`
/// range it is [`min_then_length_parts`]: the length constraint outweighs the minimum's fill,
/// which outweighs the trailing spacer's growth. Where an edge saturates, nothing more is
/// stated.
#[verifier::external_body]
fn split_min_then_length(area: Rect, vertical: bool, length: u16) -> (r: (Rect, Rect))
    ensures
        r == min_then_length_split(area, vertical, length),
        edges_fit(area) ==> r == min_then_length_parts(area, vertical, length),
{
    let direction = if vertical { Direction::Vertical } else { Direction::Horizontal };
    let a = ratatui::layout::Rect { x: area.x, y: area.y, width: area.width, height: area.height };
    let parts = Layout::default().direction(direction).constraints([Constraint::Min(0), Constraint::Length(length)]).split(a);
    let (p, q) = (parts[0], parts[1]);
    (Rect { x: p.x, y: p.y, width: p.width, height: p.height }, Rect { x: q.x, y: q.y, width: q.width, height: q.height })
}

/// The canvas layout of `area`: a row-number gutter of constant width on the right, then a
/// column-number gutter of constant height under the grid.
pub open spec fn split_canvas_spec(area: Rect) -> CanvasLayout {
    let (h0, h1) = min_then_length_split(area, false, ROW_NUMBER_GUTTER_WIDTH);
    let (v0, v1) = min_then_length_split(h0, true, COLUMN_NUMBER_GUTTER_HEIGHT);
    CanvasLayout {
        grid: v0,
        row_gutter: h1,
        column_gutter: v1,
        corner: Rect { x: h1.x, y: v1.y, width: h1.width, height: v1.height },
    }
}

/// The canvas layout in cells, for an area whose far edges lie within the `u16` range: the
/// row gutter takes the last `ROW_NUMBER_GUTTER_WIDTH` columns (or all of them when the area
/// is narrower), the column gutter the last `COLUMN_NUMBER_GUTTER_HEIGHT` rows of what is left
/// of it, and the grid the rest.
pub open spec fn canvas_layout(area: Rect) -> CanvasLayout {
    let (h0, h1) = min_then_length_parts(area, false, ROW_NUMBER_GUTTER_WIDTH);
    let (v0, v1) = min_then_length_parts(h0, true, COLUMN_NUMBER_GUTTER_HEIGHT);
    CanvasLayout {
        grid: v0,
        row_gutter: h1,
        column_gutter: v1,
        corner: Rect { x: h1.x, y: v1.y, width: h1.width, height: v1.height },
    }
}

/// Divides the canvas into the grid, the two gutters and their corner.
pub fn split_canvas(area: Rect) -> (r: CanvasLayout)
    ensures
        r == split_canvas_spec(area),
        edges_fit(area) ==> r == canvas_layout(area),
{
    let (h0, h1) = split_min_then_length(area, false, ROW_NUMBER_GUTTER_WIDTH);
    let (v0, v1) = split_min_then_length(h0, true, COLUMN_NUMBER_GUTTER_HEIGHT);
    CanvasLayout {
        grid: v0,
        row_gutter: h1,
        column_gutter: v1,
        corner: Rect { x: h1.x, y: v1.y, width: h1.width, height: v1.height },
    }
}

/// `text` padded with spaces on the right to `width` bytes, or its first `width` characters
/// when it is at least that long.
pub open spec fn pad_right_spec(text: Seq<char>, bytes: nat, width: nat) -> Seq<char> {
    if width <= bytes {
        text.take(min_int(width as int, text.len() as int))
    } else {
        text + spaces((width - bytes) as nat)
    }
}

/// `text` centred in `width` bytes (the extra space on the right when it is odd), or its
/// first `width` characters when it is at least that long.
pub open spec fn center_text_spec(text: Seq<char>, bytes: nat, width: nat) -> Seq<char> {
    if width <= bytes {
        text.take(min_int(width as int, text.len() as int))
    } else {
        let padding = (width - bytes) as nat;
        let left = padding / 2;
        spaces(left) + text + spaces((padding - left) as nat)
    }
}

fn first_chars(text: &str, width: usize) -> (r: String)
    ensures
        r@ == text@.take(min_int(width as int, text@.len() as int)),
{
    let cs = chars_of(text);
    let n = if width <= cs.len() {
        width
    } else {
        cs.len()
    };
    string_of(&cs, 0, n)
}

/// Pads `text` on the right (see [`pad_right_spec`]).
pub fn pad_right(text: &str, width: usize) -> (r: String)
    ensures
        r@ == pad_right_spec(text@, text.len() as nat, width as nat),
{
    let bytes = text.len();
    if width <= bytes {
        return first_chars(text, width);
    }
    let mut s = String::new();
    append_str(&mut s, text);
    push_spaces(&mut s, width - bytes);
    proof {
        assert(s@ =~= text@ + spaces((width - bytes) as nat));
    }
    s
}

/// Centres `text` (see [`center_text_spec`]).
pub fn center_text(text: &str, width: usize) -> (r: String)
    ensures
        r@ == center_text_spec(text@, text.len() as nat, width as nat),
{
    let bytes = text.len();
    if width <= bytes {
        return first_chars(text, width);
    }
    let padding = width - bytes;
    let left = padding / 2;
    let right = padding - left;
    let mut s = String::new();
    push_spaces(&mut s, left);
    append_str(&mut s, text);
    push_spaces(&mut s, right);
    proof {
        assert(s@ =~= spaces(left as nat) + text@ + spaces(right as nat));
    }
    s
}

/// The layer after `layer` (ground, detail, logic, then ground again).
pub fn next_layer(layer: LayerKind) -> (r: LayerKind)
    ensures
        r == (match layer {
            LayerKind::Ground => LayerKind::Detail,
            LayerKind::Detail => LayerKind::Logic,
            LayerKind::Logic => LayerKind::Ground,
        }),
{
    match layer {
        LayerKind::Ground => LayerKind::Detail,
        LayerKind::Detail => LayerKind::Logic,
        LayerKind::Logic => LayerKind::Ground,
    }
}

/// The layer before `layer`.
pub fn prev_layer(layer: LayerKind) -> (r: LayerKind)
    ensures
        r == (match layer {
            LayerKind::Ground => LayerKind::Logic,
            LayerKind::Detail => LayerKind::Ground,
            LayerKind::Logic => LayerKind::Detail,
        }),
{
    match layer {
        LayerKind::Ground => LayerKind::Logic,
        LayerKind::Detail => LayerKind::Ground,
        LayerKind::Logic => LayerKind::Detail,
    }
}

/// The colour of the cursor's outline in each mode.
pub fn cursor_color(mode: Mode, theme: &UiTheme) -> (c: Color)
    ensures
        c == (match mode {
            Mode::Insert => theme.cursor_insert,
            Mode::Command => theme.cursor_command,
            Mode::Visual => theme.accent_text,
            Mode::Normal => theme.cursor_normal,
        }),
{
    match mode {
        Mode::Insert => theme.cursor_insert,
        Mode::Command => theme.cursor_command,
        Mode::Visual => theme.accent_text,
        Mode::Normal => theme.cursor_normal,
    }
}

/// The background of a selected tile: a dark blue in visual mode, the tile background
/// otherwise.
pub fn selected_tile_bg(mode: Mode, theme: &UiTheme) -> (c: Color)
    ensures
        c == (if mode == Mode::Visual {
            Color::Rgb(30, 46, 72)
        } else {
            theme.tile_bg
        }),
{
    match mode {
        Mode::Visual => Color::Rgb(30, 46, 72),
        _ => theme.tile_bg,
    }
}

/// How many tiles fit across and down a terminal of `term_size` cells, beside the sidebar
/// and above the command bar (at least one each way).
pub open spec fn viewport_tiles_spec(
    term_size: (u16, u16),
    sidebar_width: u16,
    tile_size: (u16, u16),
) -> (u16, u16) {
    let width: int = if term_size.0 >= sidebar_width + 2 {
        term_size.0 - sidebar_width - 2
    } else {
        0
    };
    let height: int = if term_size.1 >= COMMAND_HEIGHT + 2 {
        term_size.1 - COMMAND_HEIGHT - 2
    } else {
        0
    };
    let tw: int = if tile_size.0 == 0 {
        1
    } else {
        tile_size.0 as int
    };
    let th: int = if tile_size.1 == 0 {
        1
    } else {
        tile_size.1 as int
    };
    (
        (if width / tw == 0 {
            1
        } else {
            width / tw
        }) as u16,
        (if height / th == 0 {
            1
        } else {
            height / th
        }) as u16,
    )
}

/// The tiles that fit in a terminal of `term_size` cells (see [`viewport_tiles_spec`]).
pub fn viewport_tiles(app: &App, term_size: (u16, u16)) -> (r: (u16, u16))
    requires
        app.wf(),
        app@.config.sidebar_width + 2 <= u16::MAX,
    ensures
        r == viewport_tiles_spec(
            term_size,
            app@.config.sidebar_width,
            ((6 * app@.zoom) as u16, (3 * app@.zoom) as u16),
        ),
{
    let (term_w, term_h) = term_size;
    let width = term_w.saturating_sub(app.sidebar_width() + 2);
    let height = term_h.saturating_sub(COMMAND_HEIGHT + 2);
    let (tile_w, tile_h) = app.tile_size();
    let tw = if tile_w == 0 {
        1
    } else {
        tile_w
    };
    let th = if tile_h == 0 {
        1
    } else {
        tile_h
    };
    let across = width / tw;
    let down = height / th;
    (if across == 0 {
        1
    } else {
        across
    }, if down == 0 {
        1
    } else {
        down
    })
}

// ---------------------------------------------------------------------------
// Canvas layout: which level tile goes where, and where the gutter numbers go.
// ---------------------------------------------------------------------------

/// How many whole tiles of `tile_size` fit in `grid`, across and down (at least one each way).
pub open spec fn grid_tiles_spec(grid: Rect, tile_size: (u16, u16)) -> (u16, u16) {
    let tw: int = if tile_size.0 == 0 {
        1
    } else {
        tile_size.0 as int
    };
    let th: int = if tile_size.1 == 0 {
        1
    } else {
        tile_size.1 as int
    };
    (
        (if (grid.width as int) / tw == 0 {
            1
        } else {
            (grid.width as int) / tw
        }) as u16,
        (if (grid.height as int) / th == 0 {
            1
        } else {
            (grid.height as int) / th
        }) as u16,
    )
}

/// The tiles that fit in the grid (see [`grid_tiles_spec`]).
pub fn grid_tiles(grid: Rect, tile_size: (u16, u16)) -> (r: (u16, u16))
    ensures
        r == grid_tiles_spec(grid, tile_size),
{
    let tw = if tile_size.0 == 0 {
        1
    } else {
        tile_size.0
    };
    let th = if tile_size.1 == 0 {
        1
    } else {
        tile_size.1
    };
    let across = grid.width / tw;
    let down = grid.height / th;
    (if across == 0 {
        1
    } else {
        across
    }, if down == 0 {
        1
    } else {
        down
    })
}

/// The offset of the `k`-th of the tiles that fit in `len` cells, `size` cells each, stays
/// within those cells.
proof fn lemma_tile_offset(k: u16, size: u16, len: u16)
    requires
        size > 0,
        k < (if len / size == 0 {
            1
        } else {
            len / size
        }),
    ensures
        k * size <= len,
{
    if len / size == 0 {
        assert(k == 0);
    } else {
        assert(k * size <= len) by (nonlinear_arith)
            requires
                size > 0,
                k < len / size,
        {
            assert(k + 1 <= len / size);
            assert((k + 1) * size <= (len / size) * size);
            assert((len / size) * size <= len);
        }
    }
}

/// The level tile at grid position `(dx, dy)`, counted from the view origin `origin`, and the
/// cells it covers within `grid`: `None` beyond the level's `level_size`, or where the tile
/// falls outside the grid.
pub open spec fn tile_cell_spec(
    grid: Rect,
    tile_size: (u16, u16),
    origin: (u16, u16),
    level_size: (u16, u16),
    dx: u16,
    dy: u16,
) -> Option<(u16, u16, Rect)> {
    let x = sat_add(origin.0, dx);
    let y = sat_add(origin.1, dy);
    if x >= level_size.0 || y >= level_size.1 {
        None
    } else {
        match clip_rect_spec(
            Rect {
                x: (grid.x + dx * tile_size.0) as u16,
                y: (grid.y + dy * tile_size.1) as u16,
                width: tile_size.0,
                height: tile_size.1,
            },
            grid,
        ) {
            Some(c) => Some((x as u16, y as u16, c)),
            None => None,
        }
    }
}

/// The tile to draw at grid position `(dx, dy)` (see [`tile_cell_spec`]).
pub fn tile_cell(
    grid: Rect,
    tile_size: (u16, u16),
    origin: (u16, u16),
    level_size: (u16, u16),
    dx: u16,
    dy: u16,
) -> (r: Option<(u16, u16, Rect)>)
    requires
        tile_size.0 > 0 && tile_size.1 > 0,
        dx < grid_tiles_spec(grid, tile_size).0,
        dy < grid_tiles_spec(grid, tile_size).1,
        grid.x + grid.width <= u16::MAX,
        grid.y + grid.height <= u16::MAX,
    ensures
        r == tile_cell_spec(grid, tile_size, origin, level_size, dx, dy),
{
    let x = origin.0.saturating_add(dx);
    let y = origin.1.saturating_add(dy);
    if x >= level_size.0 || y >= level_size.1 {
        return None;
    }
    proof {
        lemma_tile_offset(dx, tile_size.0, grid.width);
        lemma_tile_offset(dy, tile_size.1, grid.height);
    }
    let cell = Rect {
        x: grid.x + dx * tile_size.0,
        y: grid.y + dy * tile_size.1,
        width: tile_size.0,
        height: tile_size.1,
    };
    match clip_rect(cell, grid) {
        Some(c) => Some((x, y, c)),
        None => None,
    }
}

/// What the gutter shows for one row or column of tiles.
pub enum GutterLabel {
    /// The tiles have run past the level's edge: no later row or column has a number either.
    Stop,
    /// Nothing to show here.
    Skip,
    /// `text` goes on the line at `(x, y)`, `width` cells wide.
    Draw { text: String, x: u16, y: u16, width: u16 },
}

pub enum LabelView {
    Stop,
    Skip,
    Draw { text: Seq<char>, x: u16, y: u16, width: u16 },
}

pub open spec fn label_view(l: GutterLabel) -> LabelView {
    match l {
        GutterLabel::Stop => LabelView::Stop,
        GutterLabel::Skip => LabelView::Skip,
        GutterLabel::Draw { text, x, y, width } => LabelView::Draw { text: text@, x, y, width },
    }
}

/// The line in the middle of a rectangle (the upper one of two middle lines).
pub open spec fn middle_line(r: Rect) -> u16 {
    (r.y + (if r.height == 0 {
        0
    } else {
        r.height - 1
    }) / 2) as u16
}

/// The number shown beside the `row`-th row of tiles: the level row it shows, left-aligned
/// in the gutter `area` on the middle line of that row of tiles.
pub open spec fn row_label_spec(
    area: Rect,
    grid: Rect,
    tile_h: u16,
    origin_y: u16,
    level_height: u16,
    row: u16,
) -> LabelView {
    let y = sat_add(origin_y, row);
    if y >= level_height {
        LabelView::Stop
    } else {
        match clip_rect_spec(
            Rect { x: area.x, y: (grid.y + row * tile_h) as u16, width: area.width, height: tile_h },
            area,
        ) {
            Some(c) => LabelView::Draw {
                text: pad_right_spec(decimal(y as nat), decimal(y as nat).len(), c.width as nat),
                x: c.x,
                y: middle_line(c),
                width: c.width,
            },
            None => LabelView::Skip,
        }
    }
}

/// The row number for the `row`-th row of tiles (see [`row_label_spec`]).
pub fn row_label(
    area: Rect,
    grid: Rect,
    tile_h: u16,
    origin_y: u16,
    level_height: u16,
    row: u16,
) -> (r: GutterLabel)
    requires
        tile_h > 0,
        row < grid_tiles_spec(grid, (1, tile_h)).1,
        grid.y + grid.height <= u16::MAX,
    ensures
        label_view(r) == row_label_spec(area, grid, tile_h, origin_y, level_height, row),
{
    let y = origin_y.saturating_add(row);
    if y >= level_height {
        return GutterLabel::Stop;
    }
    proof {
        lemma_tile_offset(row, tile_h, grid.height);
    }
    let cell = Rect { x: area.x, y: grid.y + row * tile_h, width: area.width, height: tile_h };
    match clip_rect(cell, area) {
        Some(c) => {
            let number = decimal_string(y as u64);
            proof {
                lemma_ascii_decimal(y as nat);
            }
            let text = pad_right(number.as_str(), c.width as usize);
            GutterLabel::Draw {
                text,
                x: c.x,
                y: c.y + c.height.saturating_sub(1) / 2,
                width: c.width,
            }
        },
        None => GutterLabel::Skip,
    }
}

/// The number shown under the `col`-th column of tiles: the level column it shows, centred
/// under that column of tiles, on the middle line of the gutter `area`.
pub open spec fn column_label_spec(
    area: Rect,
    grid: Rect,
    tile_w: u16,
    origin_x: u16,
    level_width: u16,
    col: u16,
) -> LabelView {
    let x = sat_add(origin_x, col);
    if x >= level_width {
        LabelView::Stop
    } else {
        match clip_rect_spec(
            Rect {
                x: (grid.x + col * tile_w) as u16,
                y: area.y,
                width: tile_w,
                height: area.height,
            },
            area,
        ) {
            Some(c) => LabelView::Draw {
                text: center_text_spec(decimal(x as nat), decimal(x as nat).len(), c.width as nat),
                x: c.x,
                y: middle_line(c),
                width: c.width,
            },
            None => LabelView::Skip,
        }
    }
}

/// The column number for the `col`-th column of tiles (see [`column_label_spec`]).
pub fn column_label(
    area: Rect,
    grid: Rect,
    tile_w: u16,
    origin_x: u16,
    level_width: u16,
    col: u16,
) -> (r: GutterLabel)
    requires
        tile_w > 0,
        col < grid_tiles_spec(grid, (tile_w, 1)).0,
        grid.x + grid.width <= u16::MAX,
    ensures
        label_view(r) == column_label_spec(area, grid, tile_w, origin_x, level_width, col),
{
    let x = origin_x.saturating_add(col);
    if x >= level_width {
        return GutterLabel::Stop;
    }
    proof {
        lemma_tile_offset(col, tile_w, grid.width);
    }
    let cell = Rect { x: grid.x + col * tile_w, y: area.y, width: tile_w, height: area.height };
    match clip_rect(cell, area) {
        Some(c) => {
            let number = decimal_string(x as u64);
            proof {
                lemma_ascii_decimal(x as nat);
            }
            let text = center_text(number.as_str(), c.width as usize);
            GutterLabel::Draw {
                text,
                x: c.x,
                y: c.y + c.height.saturating_sub(1) / 2,
                width: c.width,
            }
        },
        None => GutterLabel::Skip,
    }
}

/// Where a tile is drawn within its cells: the cells less the gaps between tiles, whether
/// the cursor's outline goes round it, and the area inside the outline that shows the
/// texture or the tile's number (on its middle line `label_y`).
#[derive(Clone, Copy, Debug, PartialEq, Eq, Structural)]
pub struct TileLayout {
    pub tile_area: Rect,
    pub outlined: bool,
    pub content: Rect,
    pub label_y: u16,
}

/// The layout of a tile drawn in `area` with `gap` columns and rows left free to its right
/// and bottom: `None` when nothing is left. The cursor's tile is outlined when it is more
/// than two cells each way.
pub open spec fn tile_layout_spec(area: Rect, gap: (u16, u16), is_cursor: bool) -> Option<
    TileLayout,
> {
    let tile_area = Rect {
        x: area.x,
        y: area.y,
        width: if area.width >= gap.0 {
            (area.width - gap.0) as u16
        } else {
            0
        },
        height: if area.height >= gap.1 {
            (area.height - gap.1) as u16
        } else {
            0
        },
    };
    if tile_area.width == 0 || tile_area.height == 0 {
        None
    } else {
        let outlined = is_cursor && tile_area.width > 2 && tile_area.height > 2;
        let content = if outlined {
            Rect {
                x: sat_add(tile_area.x, 1) as u16,
                y: sat_add(tile_area.y, 1) as u16,
                width: (tile_area.width - 2) as u16,
                height: (tile_area.height - 2) as u16,
            }
        } else {
            tile_area
        };
        Some(TileLayout { tile_area, outlined, content, label_y: middle_line(content) })
    }
}

/// Lays out a tile (see [`tile_layout_spec`]).
pub fn tile_layout(area: Rect, gap: (u16, u16), is_cursor: bool) -> (r: Option<TileLayout>)
    requires
        area.y + area.height <= u16::MAX,
    ensures
        r == tile_layout_spec(area, gap, is_cursor),
{
    let tile_area = inset_rect_end(area, gap.0, gap.1);
    if tile_area.width == 0 || tile_area.height == 0 {
        return None;
    }
    let outlined = is_cursor && tile_area.width > 2 && tile_area.height > 2;
    let content = if outlined {
        inset_rect_uniform(tile_area, 1)
    } else {
        tile_area
    };
    Some(
        TileLayout {
            tile_area,
            outlined,
            content,
            label_y: content.y + content.height.saturating_sub(1) / 2,
        },
    )
}

/// The background of a tile's cells (around the tile, in the gaps): the selection colour
/// when the tile is selected, else the grid's.
pub fn cell_background(mode: Mode, theme: &UiTheme, selected: bool) -> (c: Color)
    ensures
        c == (if selected {
            if mode == Mode::Visual {
                Color::Rgb(30, 46, 72)
            } else {
                theme.tile_bg
            }
        } else {
            theme.grid_bg
        }),
{
    if selected {
        selected_tile_bg(mode, theme)
    } else {
        theme.grid_bg
    }
}

/// The background of the tile itself: the selection colour when it is selected, else the
/// tile background.
pub fn tile_background(mode: Mode, theme: &UiTheme, selected: bool) -> (c: Color)
    ensures
        c == (if selected && mode == Mode::Visual {
            Color::Rgb(30, 46, 72)
        } else {
            theme.tile_bg
        }),
{
    if selected {
        selected_tile_bg(mode, theme)
    } else {
        theme.tile_bg
    }
}

/// The colours of an upper half block that shows two texture pixels, one above the other:
/// the upper pixel in front, the lower one behind, and `background` behind where the lower
/// pixel is transparent.
pub fn half_block_colors(top: Color, bottom: Color, background: Color) -> (r: (Color, Color))
    ensures
        r == (top, if bottom == Color::Reset {
            background
        } else {
            bottom
        }),
{
    (top, if bottom == Color::Reset {
        background
    } else {
        bottom
    })
}

/// The command bar's title and line, and the line's colour, in each mode.
pub open spec fn command_bar_spec(mode: Mode, buffer: Seq<char>, theme: UiTheme) -> (
    Seq<char>,
    Seq<char>,
    Color,
) {
    match mode {
        Mode::Command => ("Command"@, ":"@ + buffer, theme.accent_text),
        Mode::Insert => (
            "Insert"@,
            "Insert mode: move with h j k l / arrows, press 0-9 to paint, Esc to leave"@,
            theme.warning_text,
        ),
        Mode::Visual => (
            "Visual"@,
            "Visual mode: move to select, 0-9 paint, y yank, p paste, Esc or v to leave"@,
            theme.accent_text,
        ),
        Mode::Normal => (
            "Status"@,
            "Normal mode: v visual, i insert, p paste, J/K layer, +/- zoom, : commands"@,
            theme.muted_text,
        ),
    }
}

/// What the command bar shows (see [`command_bar_spec`]).
pub fn command_bar(mode: Mode, buffer: &str, theme: &UiTheme) -> (r: (String, String, Color))
    ensures
        (r.0@, r.1@, r.2) == command_bar_spec(mode, buffer@, *theme),
{
    match mode {
        Mode::Command => {
            let mut line = string_from(":");
            append_str(&mut line, buffer);
            (string_from("Command"), line, theme.accent_text)
        },
        Mode::Insert => (
            string_from("Insert"),
            string_from(
                "Insert mode: move with h j k l / arrows, press 0-9 to paint, Esc to leave",
            ),
            theme.warning_text,
        ),
        Mode::Visual => (
            string_from("Visual"),
            string_from(
                "Visual mode: move to select, 0-9 paint, y yank, p paste, Esc or v to leave",
            ),
            theme.accent_text,
        ),
        Mode::Normal => (
            string_from("Status"),
            string_from(
                "Normal mode: v visual, i insert, p paste, J/K layer, +/- zoom, : commands",
            ),
            theme.muted_text,
        ),
    }
}

/// Whether a status line reports an error.
pub fn status_is_error(status: &str) -> (b: bool)
    ensures
        b == (status@.len() >= 6 && status@.take(6) == "Error:"@),
{
    let cs = chars_of(status);
    proof {
        reveal_strlit("Error:");
    }
    if cs.len() < 6 {
        return false;
    }
    let head = slice_chars(&cs, 0, 6);
    proof {
        assert(head@ =~= status@.take(6));
    }
    chars_eq(&head, "Error:")
}

// ---------------------------------------------------------------------------
// Sidebar text.
// ---------------------------------------------------------------------------

/// The name of a mode, as `Debug` writes it.
pub open spec fn mode_name(m: Mode) -> Seq<char> {
    match m {
        Mode::Normal => "Normal"@,
        Mode::Insert => "Insert"@,
        Mode::Command => "Command"@,
        Mode::Visual => "Visual"@,
    }
}

pub open spec fn pair_text(a: u16, b: u16) -> Seq<char> {
    decimal(a as nat) + ", "@ + decimal(b as nat)
}

/// The values of the sidebar's state panel, in order: file, size, dirty, mode, zoom, cursor,
/// selection and view.
pub open spec fn overview_spec(a: AppView) -> Seq<Seq<char>> {
    seq![
        match a.path {
            Some(p) => p,
            None => "<unsaved>"@,
        },
        size_text(a.level.width, a.level.height),
        if a.dirty {
            "yes"@
        } else {
            "no"@
        },
        mode_name(a.mode),
        decimal(a.zoom as nat),
        pair_text(a.cursor.0, a.cursor.1),
        match a.selection() {
            Some(sel) => size_text(sel.width, sel.height),
            None => "-"@,
        },
        pair_text(a.view_origin.0, a.view_origin.1),
    ]
}

fn pair_string(a: u16, b: u16) -> (s: String)
    ensures
        s@ == pair_text(a, b),
{
    let mut s = decimal_string(a as u64);
    append_str(&mut s, ", ");
    push_decimal(&mut s, b as u64);
    s
}

fn size_string(w: u16, h: u16) -> (s: String)
    ensures
        s@ == size_text(w, h),
{
    let mut s = decimal_string(w as u64);
    append_str(&mut s, "x");
    push_decimal(&mut s, h as u64);
    s
}

/// The values of the sidebar's state panel (see [`overview_spec`]).
pub fn overview_values(app: &App) -> (r: Vec<String>)
    requires
        app.wf(),
    ensures
        r@.map_values(|v: String| v@) == overview_spec(app@),
{
    let mut r: Vec<String> = Vec::new();
    r.push(
        match app.path() {
            Some(p) => string_from(p),
            None => string_from("<unsaved>"),
        },
    );
    r.push(size_string(app.level().width, app.level().height));
    r.push(
        if app.dirty() {
            string_from("yes")
        } else {
            string_from("no")
        },
    );
    r.push(
        match app.mode() {
            Mode::Normal => string_from("Normal"),
            Mode::Insert => string_from("Insert"),
            Mode::Command => string_from("Command"),
            Mode::Visual => string_from("Visual"),
        },
    );
    r.push(decimal_string(app.zoom() as u64));
    let (cx, cy) = app.cursor();
    r.push(pair_string(cx, cy));
    r.push(
        match app.visual_selection() {
            Some(sel) => size_string(sel.width, sel.height),
            None => string_from("-"),
        },
    );
    let (vx, vy) = app.view_origin();
    r.push(pair_string(vx, vy));
    proof {
        assert(r@.map_values(|v: String| v@) =~= overview_spec(app@));
    }
    r
}

/// The folder mapped to the active layer, or `<none>`.
pub fn mapping_folder(app: &App) -> (s: String)
    requires
        app.wf(),
    ensures
        s@ == (match app@.assets(app@.active_layer).folder {
            Some(f) => f,
            None => "<none>"@,
        }),
{
    match &app.layer_assets(app.active_layer()).folder {
        Some(f) => string_from(f.as_str()),
        None => string_from("<none>"),
    }
}

/// A clipped rectangle lies within both rectangles it was clipped from, and clipping misses
/// only rectangles that do not overlap.
pub proof fn law_clip_rect_within_bounds(area: Rect, bounds: Rect)
    ensures
        clip_rect_spec(area, bounds) matches Some(r) ==> {
            &&& r.width > 0 && r.height > 0
            &&& area.x <= r.x && r.x + r.width <= sat_add(area.x, area.width)
            &&& bounds.x <= r.x && r.x + r.width <= sat_add(bounds.x, bounds.width)
            &&& area.y <= r.y && r.y + r.height <= sat_add(area.y, area.height)
            &&& bounds.y <= r.y && r.y + r.height <= sat_add(bounds.y, bounds.height)
        },
        clip_rect_spec(area, bounds) is None <==> (max_int(area.x as int, bounds.x as int)
            >= min_int(sat_add(area.x, area.width), sat_add(bounds.x, bounds.width)) || max_int(
            area.y as int,
            bounds.y as int,
        ) >= min_int(sat_add(area.y, area.height), sat_add(bounds.y, bounds.height))),
        clip_rect_spec(area, bounds) == clip_rect_spec(bounds, area),
{
}

} // verus!
