use vstd::prelude::*;

use crate::config::{AppConfig, AppConfigView, Color, UiTheme, default_config};
use crate::level::{LayerKind, Level, LevelView, law_read_after_write, level_error_text};
use crate::text::{
    append_str, chars_eq, chars_of, decimal, find_ws, join_spaced, parse_u16_chars,
    parse_u16_spec, push_char, push_decimal, slice_chars, split_ws, string_from, string_of,
    string_of_all, tokens, trim, trim_chars, view_tokens, word_len,
};

verus! {

/// `PathBuf::join` on Unix paths: an absolute `p` replaces `base`; otherwise `p` is appended,
/// with a `/` between them when `base` is not empty and does not already end in one.
pub open spec fn join_path(base: Seq<char>, p: Seq<char>) -> Seq<char> {
    if p.len() > 0 && p[0] == '/' {
        p
    } else if base.len() > 0 && base.last() != '/' {
        base + seq!['/'] + p
    } else {
        base + p
    }
}

pub open spec fn opt_str_view(s: Option<&str>) -> Option<Seq<char>> {
    match s {
        Some(t) => Some(t@),
        None => None,
    }
}

/// `~` expansion: `~` alone becomes the home directory, and `~/rest` becomes `rest` joined
/// onto it; without a home directory, or for any other path, the path stays as it is.
pub open spec fn expand_user_path_spec(raw: Seq<char>, home: Option<Seq<char>>) -> Seq<char> {
    if raw == seq!['~'] {
        match home {
            Some(h) => h,
            None => raw,
        }
    } else if raw.len() >= 2 && raw[0] == '~' && raw[1] == '/' && home is Some {
        join_path(home->0, raw.skip(2))
    } else {
        raw
    }
}

/// Expands a leading `~` in `raw` against the home directory `home` (the value of `HOME`).
pub fn expand_user_path(raw: &str, home: Option<&str>) -> (r: String)
    ensures
        r@ == expand_user_path_spec(raw@, opt_str_view(home)),
{
    let cs = chars_of(raw);
    if cs.len() == 1 && cs[0] == '~' {
        proof {
            assert(raw@ =~= seq!['~']);
        }
        return match home {
            Some(h) => string_from(h),
            None => string_from(raw),
        };
    }
    proof {
        if raw@ == seq!['~'] {
            assert(cs@.len() == 1);
        }
    }
    if cs.len() >= 2 && cs[0] == '~' && cs[1] == '/' {
        if let Some(h) = home {
            let rest = string_of(&cs, 2, cs.len());
            let hc = chars_of(h);
            proof {
                assert(rest@ =~= raw@.skip(2));
            }
            let rc = chars_of(rest.as_str());
            if rc.len() > 0 && rc[0] == '/' {
                return rest;
            }
            let mut r = string_from(h);
            if hc.len() > 0 && hc[hc.len() - 1] != '/' {
                push_char(&mut r, '/');
            }
            append_str(&mut r, rest.as_str());
            return r;
        }
    }
    string_from(raw)
}


/// The editor's input modes.
#[derive(Clone, Copy, Debug, PartialEq, Eq, Structural)]
pub enum Mode {
    Normal,
    Insert,
    Command,
    Visual,
}

/// What a submitted command asks of the caller. `Save`, `Open` and `Map` name work on files
/// that the caller performs before it reports back (see [`App::mark_saved`],
/// [`App::open_level`] and [`App::install_layer_assets`]).
#[derive(Debug, PartialEq, Eq)]
pub enum CommandAction {
    Noop,
    Quit,
    /// Write the level to this path.
    Save(String),
    /// Load the level at this path.
    Open(String),
    /// Map the images of this folder to the layer.
    MapFolder { layer: LayerKind, folder: String },
}

pub enum ActionView {
    Noop,
    Quit,
    Save(Seq<char>),
    Open(Seq<char>),
    MapFolder { layer: LayerKind, folder: Seq<char> },
}

pub open spec fn action_view(a: CommandAction) -> ActionView {
    match a {
        CommandAction::Noop => ActionView::Noop,
        CommandAction::Quit => ActionView::Quit,
        CommandAction::Save(p) => ActionView::Save(p@),
        CommandAction::Open(p) => ActionView::Open(p@),
        CommandAction::MapFolder { layer, folder } => ActionView::MapFolder { layer, folder: folder@ },
    }
}

/// A tile image as RGBA bytes, row by row: `rgba.len() == width * height * 4`.
pub struct TileImage {
    pub width: u32,
    pub height: u32,
    pub rgba: Vec<u8>,
}

/// A texture mapped to a tile ID.
pub struct TileTexture {
    pub id: u16,
    pub name: String,
    pub image: TileImage,
}

pub struct TextureView {
    pub id: u16,
    pub name: Seq<char>,
    pub width: u32,
    pub height: u32,
    pub rgba: Seq<u8>,
}

impl TextureView {
    pub open spec fn wf(self) -> bool {
        self.rgba.len() == self.width * self.height * 4
    }
}

impl View for TileTexture {
    type V = TextureView;

    open spec fn view(&self) -> TextureView {
        TextureView {
            id: self.id,
            name: self.name@,
            width: self.image.width,
            height: self.image.height,
            rgba: self.image.rgba@,
        }
    }
}

/// The textures mapped to one layer, and the folder they came from.
pub struct LayerAssets {
    pub folder: Option<String>,
    pub tiles: Vec<TileTexture>,
}

pub struct AssetsView {
    pub folder: Option<Seq<char>>,
    pub tiles: Seq<TextureView>,
}

impl View for LayerAssets {
    type V = AssetsView;

    open spec fn view(&self) -> AssetsView {
        AssetsView {
            folder: match self.folder {
                Some(f) => Some(f@),
                None => None,
            },
            tiles: self.tiles@.map_values(|t: TileTexture| t@),
        }
    }
}

impl AssetsView {
    /// At most nine textures, well formed, with tile IDs 1, 2, ... in order.
    pub open spec fn wf(self) -> bool {
        &&& self.tiles.len() <= 9
        &&& forall|i: int|
            0 <= i < self.tiles.len() ==> (#[trigger] self.tiles[i]).wf() && self.tiles[i].id == i
                + 1
    }

    /// Some texture of the layer has this ID.
    pub open spec fn maps(self, id: u16) -> bool {
        exists|i: int| 0 <= i < self.tiles.len() && (#[trigger] self.tiles[i]).id == id
    }
}

impl LayerAssets {
    /// No folder and no textures.
    pub fn empty() -> (r: LayerAssets)
        ensures
            r@.folder is None,
            r@.tiles.len() == 0,
    {
        LayerAssets { folder: None, tiles: Vec::new() }
    }
}

impl Default for LayerAssets {
    fn default() -> (r: LayerAssets)
        ensures
            r@.folder is None,
            r@.tiles.len() == 0,
    {
        LayerAssets::empty()
    }
}

/// A rectangle of tiles taken from one layer, row by row.
pub struct Clipboard {
    pub width: u16,
    pub height: u16,
    pub tiles: Vec<u16>,
}

pub struct ClipboardView {
    pub width: u16,
    pub height: u16,
    pub tiles: Seq<u16>,
}

impl View for Clipboard {
    type V = ClipboardView;

    open spec fn view(&self) -> ClipboardView {
        ClipboardView { width: self.width, height: self.height, tiles: self.tiles@ }
    }
}

/// A level as it was before an edit, with whether it had unsaved changes.
pub struct EditSnapshot {
    pub level: Level,
    pub dirty: bool,
}

pub struct SnapshotView {
    pub level: LevelView,
    pub dirty: bool,
}

pub open spec fn snapshot_views(s: Seq<EditSnapshot>) -> Seq<SnapshotView> {
    s.map_values(|e: EditSnapshot| SnapshotView { level: e.level@, dirty: e.dirty })
}

/// The editor: a level, where it is saved, the cursor and view, the input mode, the status
/// line, the settings, the undo and redo history, and the textures mapped to each layer.
pub struct App {
    level: Level,
    path: Option<String>,
    dirty: bool,
    active_layer: LayerKind,
    cursor_x: u16,
    cursor_y: u16,
    view_x: u16,
    view_y: u16,
    zoom: u8,
    mode: Mode,
    status: String,
    command_buffer: String,
    config: AppConfig,
    undo_stack: Vec<EditSnapshot>,
    redo_stack: Vec<EditSnapshot>,
    layers: [LayerAssets; 3],
    home: Option<String>,
    anchor_x: u16,
    anchor_y: u16,
    clipboard: Option<Clipboard>,
}

pub struct AppView {
    pub level: LevelView,
    pub path: Option<Seq<char>>,
    pub dirty: bool,
    pub active_layer: LayerKind,
    pub cursor: (u16, u16),
    pub view_origin: (u16, u16),
    pub zoom: u8,
    pub mode: Mode,
    pub status: Seq<char>,
    pub command_buffer: Seq<char>,
    pub config: AppConfigView,
    pub undo: Seq<SnapshotView>,
    pub redo: Seq<SnapshotView>,
    pub layers: Seq<AssetsView>,
    pub home: Option<Seq<char>>,
    pub anchor: (u16, u16),
    pub clipboard: Option<ClipboardView>,
}

pub open spec fn opt_string(s: Option<String>) -> Option<Seq<char>> {
    match s {
        Some(t) => Some(t@),
        None => None,
    }
}

impl View for App {
    type V = AppView;

    closed spec fn view(&self) -> AppView {
        AppView {
            level: self.level@,
            path: opt_string(self.path),
            dirty: self.dirty,
            active_layer: self.active_layer,
            cursor: (self.cursor_x, self.cursor_y),
            view_origin: (self.view_x, self.view_y),
            zoom: self.zoom,
            mode: self.mode,
            status: self.status@,
            command_buffer: self.command_buffer@,
            config: self.config@,
            undo: snapshot_views(self.undo_stack@),
            redo: snapshot_views(self.redo_stack@),
            layers: seq![self.layers[0]@, self.layers[1]@, self.layers[2]@],
            home: opt_string(self.home),
            anchor: (self.anchor_x, self.anchor_y),
            clipboard: match self.clipboard {
                Some(c) => Some(c@),
                None => None,
            },
        }
    }
}

pub open spec fn no_assets() -> AssetsView {
    AssetsView { folder: None, tiles: Seq::empty() }
}

/// The state of an editor freshly started on `level`: ground layer, cursor and view at the
/// origin, zoom 2, normal mode, default settings, no history, no textures, nothing yanked.
pub open spec fn fresh_view(
    level: LevelView,
    path: Option<Seq<char>>,
    home: Option<Seq<char>>,
    status: Seq<char>,
) -> AppView {
    AppView {
        level,
        path,
        dirty: false,
        active_layer: LayerKind::Ground,
        cursor: (0u16, 0u16),
        view_origin: (0u16, 0u16),
        zoom: 2,
        mode: Mode::Normal,
        status,
        command_buffer: Seq::empty(),
        config: default_config(),
        undo: Seq::empty(),
        redo: Seq::empty(),
        layers: seq![no_assets(), no_assets(), no_assets()],
        home,
        anchor: (0u16, 0u16),
        clipboard: None,
    }
}

/// The largest coordinate on an axis of `size` tiles (0 for an empty axis).
pub open spec fn last_index(size: u16) -> u16 {
    if size == 0 {
        0
    } else {
        (size - 1) as u16
    }
}

pub open spec fn layer_index_spec(layer: LayerKind) -> int {
    match layer {
        LayerKind::Ground => 0,
        LayerKind::Detail => 1,
        LayerKind::Logic => 2,
    }
}

pub open spec fn layer_at(i: int) -> LayerKind {
    if i == 0 {
        LayerKind::Ground
    } else if i == 1 {
        LayerKind::Detail
    } else {
        LayerKind::Logic
    }
}

pub open spec fn layer_name_spec(layer: LayerKind) -> Seq<char> {
    match layer {
        LayerKind::Ground => "ground"@,
        LayerKind::Detail => "detail"@,
        LayerKind::Logic => "logic"@,
    }
}

impl SnapshotView {
    pub open spec fn fits(self, level: LevelView) -> bool {
        &&& self.level.wf()
        &&& self.level.width == level.width
        &&& self.level.height == level.height
    }
}

impl ClipboardView {
    pub open spec fn wf(self) -> bool {
        self.tiles.len() == self.width * self.height
    }
}

impl AppView {
    /// What every editor state satisfies.
    pub open spec fn inv(self) -> bool {
        &&& self.level.wf()
        &&& self.cursor.0 <= last_index(self.level.width)
        &&& self.cursor.1 <= last_index(self.level.height)
        &&& self.anchor.0 <= last_index(self.level.width)
        &&& self.anchor.1 <= last_index(self.level.height)
        &&& 1 <= self.zoom <= 4
        &&& self.layers.len() == 3
        &&& forall|i: int| 0 <= i < 3 ==> (#[trigger] self.layers[i]).wf()
        &&& forall|i: int| 0 <= i < self.undo.len() ==> (#[trigger] self.undo[i]).fits(self.level)
        &&& forall|i: int| 0 <= i < self.redo.len() ==> (#[trigger] self.redo[i]).fits(self.level)
        &&& self.config.layer_mappings.len() == 3
        &&& self.clipboard matches Some(c) ==> c.wf()
    }

    pub open spec fn assets(self, layer: LayerKind) -> AssetsView {
        self.layers[layer_index_spec(layer)]
    }


    /// The snapshot that an edit records.
    pub open spec fn snapshot(self) -> SnapshotView {
        SnapshotView { level: self.level, dirty: self.dirty }
    }
}

impl AppView {
    /// The state with the view origin moved as little as needed to show the cursor, given
    /// how many tiles fit across and down.
    pub open spec fn after_ensure_visible(self, viewport_tiles: (u16, u16)) -> AppView {
        AppView {
            view_origin: (
                visible_origin(self.cursor.0, self.view_origin.0, viewport_tiles.0, self.level.width),
                visible_origin(self.cursor.1, self.view_origin.1, viewport_tiles.1, self.level.height),
            ),
            ..self
        }
    }

    /// The state after moving the cursor by `(dx, dy)` within the level.
    pub open spec fn after_move(self, dx: i16, dy: i16, viewport_tiles: (u16, u16)) -> AppView {
        AppView {
            cursor: (
                clamp_spec(self.cursor.0, dx, last_index(self.level.width)),
                clamp_spec(self.cursor.1, dy, last_index(self.level.height)),
            ),
            ..self
        }.after_ensure_visible(viewport_tiles)
    }

    /// The state after changing the zoom by `delta`, kept within 1..=4.
    pub open spec fn after_zoom(self, delta: i8, viewport_tiles: (u16, u16)) -> AppView {
        let z: u8 = if self.zoom + delta < 1 {
            1
        } else if self.zoom + delta > 4 {
            4
        } else {
            (self.zoom + delta) as u8
        };
        AppView {
            zoom: z,
            status: "Zoom "@ + decimal(z as nat),
            ..self.after_ensure_visible(viewport_tiles)
        }
    }

    /// The state after stepping the active layer `delta` steps (cyclically).
    pub open spec fn after_cycle(self, delta: i8) -> AppView {
        let next = layer_at((layer_index_spec(self.active_layer) + delta) % 3);
        AppView { active_layer: next, status: "Active layer: "@ + layer_name_spec(next), ..self }
    }

    /// The state in `mode` with status `status`.
    pub open spec fn in_mode(self, mode: Mode, status: Seq<char>) -> AppView {
        AppView { mode, status, ..self }
    }

    /// The state after an edit records the current level for undo: the snapshot is pushed
    /// and the redo history is dropped.
    pub open spec fn recorded(self) -> AppView {
        AppView { undo: self.undo.push(self.snapshot()), redo: Seq::empty(), ..self }
    }

    /// The state after painting `digit` under the cursor on the active layer.
    pub open spec fn after_paint(self, digit: u16) -> AppView {
        AppView {
            level: self.level.with_tile(
                self.active_layer,
                self.cursor.0 as int,
                self.cursor.1 as int,
                digit,
            ),
            dirty: true,
            status: painted_status(
                digit,
                self.cursor.0,
                self.cursor.1,
                self.active_layer,
                self.assets(self.active_layer).maps(digit),
            ),
            ..self.recorded()
        }
    }

    /// The state after filling the whole active layer with `digit`.
    pub open spec fn after_fill(self, digit: u16) -> AppView {
        AppView {
            level: self.level.filled(self.active_layer, digit),
            dirty: true,
            status: filled_status(
                digit,
                self.active_layer,
                self.assets(self.active_layer).maps(digit),
            ),
            ..self.recorded()
        }
    }

    /// The state after `undo`: the last recorded snapshot comes back, and the current state
    /// goes onto the redo history.
    pub open spec fn after_undo(self) -> AppView {
        AppView {
            level: self.undo.last().level,
            dirty: self.undo.last().dirty,
            undo: self.undo.drop_last(),
            redo: self.redo.push(self.snapshot()),
            status: "Undo"@,
            ..self
        }
    }

    /// The state after `redo`: the last undone snapshot comes back, and the current state
    /// goes onto the undo history.
    pub open spec fn after_redo(self) -> AppView {
        AppView {
            level: self.redo.last().level,
            dirty: self.redo.last().dirty,
            redo: self.redo.drop_last(),
            undo: self.undo.push(self.snapshot()),
            status: "Redo"@,
            ..self
        }
    }
}

/// The position of the first tile of a view that keeps coordinate `c` visible: the view
/// origin `v` moved as little as needed so that `c` lies among the `tiles` visible tiles (at
/// least one), then kept from running past the end of an axis of `size` tiles.
pub open spec fn visible_origin(c: u16, v: u16, tiles: u16, size: u16) -> u16 {
    let t: int = if tiles == 0 {
        1
    } else {
        tiles as int
    };
    let lo: int = if c + 1 >= t {
        c + 1 - t
    } else {
        0
    };
    let moved: int = if v > c {
        c as int
    } else if v < lo {
        lo
    } else {
        v as int
    };
    let max_v: int = if size >= t {
        size - t
    } else {
        0
    };
    (if moved > max_v {
        max_v
    } else {
        moved
    }) as u16
}

/// Moving coordinate `value` by `delta`, saturating at 0 and `u16::MAX`, then capped at `max`.
pub open spec fn clamp_spec(value: u16, delta: i16, max: u16) -> u16 {
    let moved: int = if value + delta < 0 {
        0
    } else if value + delta > u16::MAX {
        u16::MAX as int
    } else {
        value + delta
    };
    (if moved > max {
        max as int
    } else {
        moved
    }) as u16
}

fn clamp_u16(value: u16, delta: i16, max_value: u16) -> (r: u16)
    ensures
        r == clamp_spec(value, delta, max_value),
{
    let moved = if delta >= 0 {
        value.saturating_add(delta as u16)
    } else {
        let d: u16 = if delta == -32768 {
            32768
        } else {
            (-delta) as u16
        };
        value.saturating_sub(d)
    };
    if moved < max_value {
        moved
    } else {
        max_value
    }
}

fn sat_sub(a: u16, b: u16) -> (r: u16)
    ensures
        r == (if a >= b {
            a - b
        } else {
            0
        }),
{
    if a >= b {
        a - b
    } else {
        0
    }
}

fn visible_origin_exec(c: u16, v: u16, tiles: u16, size: u16) -> (r: u16)
    requires
        c < u16::MAX,
    ensures
        r == visible_origin(c, v, tiles, size),
{
    let t = if tiles == 0 {
        1
    } else {
        tiles
    };
    let max_v = sat_sub(size, t);
    let mut v2 = v;
    if c < v2 {
        v2 = c;
    }
    if c >= v2.saturating_add(t) {
        v2 = sat_sub(c + 1, t);
    }
    if v2 < max_v {
        v2
    } else {
        max_v
    }
}

/// The index (0, 1, 2) of a layer.
pub fn layer_index(layer: LayerKind) -> (r: usize)
    ensures
        r == layer_index_spec(layer),
{
    match layer {
        LayerKind::Ground => 0,
        LayerKind::Detail => 1,
        LayerKind::Logic => 2,
    }
}

/// The lower-case name of a layer.
pub fn layer_name(layer: LayerKind) -> (r: &'static str)
    ensures
        r@ == layer_name_spec(layer),
{
    match layer {
        LayerKind::Ground => "ground",
        LayerKind::Detail => "detail",
        LayerKind::Logic => "logic",
    }
}

/// The message for a digit that is not a tile ID the editor paints.
pub open spec fn tile_id_error(action: Seq<char>) -> Seq<char> {
    action + " only supports tile IDs 0-9"@
}

/// Paintable tile IDs are 0 through 9.
fn validate_tile_id(digit: u16, action: &str) -> (r: Result<(), String>)
    ensures
        r is Ok <==> digit <= 9,
        r matches Err(e) ==> e@ == tile_id_error(action@),
{
    if digit <= 9 {
        Ok(())
    } else {
        let mut m = string_from(action);
        append_str(&mut m, " only supports tile IDs 0-9");
        Err(m)
    }
}

/// The error that painting under the cursor meets outside the level.
pub open spec fn level_error_for_cursor(a: AppView) -> Seq<char> {
    level_error_text(
        crate::level::LevelError::OutOfBounds {
            x: a.cursor.0,
            y: a.cursor.1,
            width: a.level.width,
            height: a.level.height,
        },
    )
}

/// The status after painting `digit` at `(x, y)` on `layer`.
pub open spec fn painted_status(digit: u16, x: u16, y: u16, layer: LayerKind, mapped: bool) -> Seq<char> {
    "Painted "@ + decimal(digit as nat) + " at ("@ + decimal(x as nat) + ", "@ + decimal(y as nat)
        + ") on "@ + layer_name_spec(layer) + (if mapped {
        ""@
    } else {
        " (unmapped, showing numeric fallback)"@
    })
}

/// The status after filling `layer` with `digit`.
pub open spec fn filled_status(digit: u16, layer: LayerKind, mapped: bool) -> Seq<char> {
    "Filled "@ + layer_name_spec(layer) + " with "@ + decimal(digit as nat) + (if mapped {
        ""@
    } else {
        " (unmapped, showing numeric fallback)"@
    })
}

fn unmapped_suffix(s: &mut String, mapped: bool)
    ensures
        final(s)@ == old(s)@ + (if mapped {
            ""@
        } else {
            " (unmapped, showing numeric fallback)"@
        }),
{
    if mapped {
        proof {
            assert(old(s)@ + ""@ =~= old(s)@) by {
                reveal_strlit("");
            }
        }
    } else {
        append_str(s, " (unmapped, showing numeric fallback)");
    }
}


impl App {
    /// Every editor state satisfies `wf`.
    pub open spec fn wf(&self) -> bool {
        self@.inv()
    }

    /// An editor on `level`, saved at `path`: ground layer, cursor and view at the origin,
    /// zoom 2, normal mode, default settings, no history and no textures.
    pub fn new(level: Level, path: Option<String>) -> (app: App)
        requires
            level.wf(),
        ensures
            app.wf(),
            app@ == fresh_view(level@, opt_string(path), None, "Normal mode"@),
    {
        let app = App {
            level,
            path,
            dirty: false,
            active_layer: LayerKind::Ground,
            cursor_x: 0,
            cursor_y: 0,
            view_x: 0,
            view_y: 0,
            zoom: 2,
            mode: Mode::Normal,
            status: string_from("Normal mode"),
            command_buffer: String::new(),
            config: AppConfig::default(),
            undo_stack: Vec::new(),
            redo_stack: Vec::new(),
            layers: [LayerAssets::empty(), LayerAssets::empty(), LayerAssets::empty()],
            home: None,
            anchor_x: 0,
            anchor_y: 0,
            clipboard: None,
        };
        proof {
            assert(app@.undo =~= Seq::<SnapshotView>::empty());
            assert(app@.redo =~= Seq::<SnapshotView>::empty());
            assert(app@.layers[0].tiles =~= Seq::<TextureView>::empty());
            assert(app@.layers[1].tiles =~= Seq::<TextureView>::empty());
            assert(app@.layers[2].tiles =~= Seq::<TextureView>::empty());
            assert(app@.layers =~= seq![no_assets(), no_assets(), no_assets()]);
        }
        app
    }

    /// An editor on a blank `width` by `height` level; refused as [`Level::new`] refuses.
    pub fn blank(width: u16, height: u16, path: Option<String>) -> (r: Result<App, String>)
        ensures
            (width == 0 || height == 0) <==> r is Err,
            r matches Err(e) ==> e@ == level_error_text(
                crate::level::LevelError::EmptyLevel { width, height },
            ),
            r matches Ok(app) ==> {
                &&& app.wf()
                &&& app@ == fresh_view(
                    crate::level::blank_view(width, height),
                    opt_string(path),
                    None,
                    "Normal mode"@,
                )
                &&& forall|layer: LayerKind, x: int, y: int|
                    app@.level.in_bounds(x, y) ==> #[trigger] app@.level.tile(layer, x, y) == 0
            },
    {
        match Level::new(width, height) {
            Ok(level) => Ok(App::new(level, path)),
            Err(e) => Err(e.to_string()),
        }
    }

    /// Sets the home directory that `~` in command paths expands to.
    pub fn set_home_dir(&mut self, home: Option<String>)
        requires
            old(self).wf(),
        ensures
            final(self).wf(),
            final(self)@ == (AppView { home: opt_string(home), ..old(self)@ }),
    {
        self.home = home;
    }

    pub fn mode(&self) -> (m: Mode)
        ensures
            m == self@.mode,
    {
        self.mode
    }

    pub fn status(&self) -> (s: &str)
        ensures
            s@ == self@.status,
    {
        self.status.as_str()
    }

    pub fn command_buffer(&self) -> (s: &str)
        ensures
            s@ == self@.command_buffer,
    {
        self.command_buffer.as_str()
    }

    pub fn path(&self) -> (p: Option<&str>)
        ensures
            opt_str_view(p) == self@.path,
    {
        match &self.path {
            Some(p) => Some(p.as_str()),
            None => None,
        }
    }

    pub fn dirty(&self) -> (d: bool)
        ensures
            d == self@.dirty,
    {
        self.dirty
    }

    pub fn level(&self) -> (l: &Level)
        ensures
            l@ == self@.level,
    {
        &self.level
    }

    pub fn active_layer(&self) -> (l: LayerKind)
        ensures
            l == self@.active_layer,
    {
        self.active_layer
    }

    pub fn zoom(&self) -> (z: u8)
        ensures
            z == self@.zoom,
    {
        self.zoom
    }

    pub fn cursor(&self) -> (c: (u16, u16))
        ensures
            c == self@.cursor,
    {
        (self.cursor_x, self.cursor_y)
    }

    pub fn view_origin(&self) -> (v: (u16, u16))
        ensures
            v == self@.view_origin,
    {
        (self.view_x, self.view_y)
    }

    /// The size of one tile on screen: 6 by 3 cells per zoom step.
    pub fn tile_size(&self) -> (s: (u16, u16))
        requires
            self.wf(),
        ensures
            s == ((6 * self@.zoom) as u16, (3 * self@.zoom) as u16),
    {
        let zoom = self.zoom as u16;
        (6 * zoom, 3 * zoom)
    }

    pub fn sidebar_width(&self) -> (w: u16)
        ensures
            w == self@.config.sidebar_width,
    {
        self.config.sidebar_width
    }

    pub fn tile_gap(&self) -> (g: (u16, u16))
        ensures
            g == (self@.config.tile_gap_x, self@.config.tile_gap_y),
    {
        (self.config.tile_gap_x, self.config.tile_gap_y)
    }

    pub fn theme(&self) -> (t: &UiTheme)
        ensures
            *t == self@.config.theme,
    {
        &self.config.theme
    }

    pub fn layer_assets(&self, layer: LayerKind) -> (a: &LayerAssets)
        ensures
            a@ == self@.assets(layer),
    {
        &self.layers[layer_index(layer)]
    }

    /// The number of edits that `undo` can revert.
    pub fn undo_len(&self) -> (n: usize)
        ensures
            n == self@.undo.len(),
    {
        self.undo_stack.len()
    }

    /// The number of reverted edits that `redo` can restore.
    pub fn redo_len(&self) -> (n: usize)
        ensures
            n == self@.redo.len(),
    {
        self.redo_stack.len()
    }

    /// Enters command mode with an empty command line.
    pub fn begin_command(&mut self)
        requires
            old(self).wf(),
        ensures
            final(self).wf(),
            final(self)@ == (AppView {
                mode: Mode::Command,
                command_buffer: Seq::empty(),
                status: "Command mode"@,
                ..old(self)@
            }),
    {
        self.mode = Mode::Command;
        self.command_buffer = String::new();
        self.status = string_from("Command mode");
    }

    /// Leaves command mode, discarding the command line.
    pub fn cancel_command(&mut self)
        requires
            old(self).wf(),
        ensures
            final(self).wf(),
            final(self)@ == (AppView {
                mode: Mode::Normal,
                command_buffer: Seq::empty(),
                status: "Normal mode"@,
                ..old(self)@
            }),
    {
        self.mode = Mode::Normal;
        self.command_buffer = String::new();
        self.status = string_from("Normal mode");
    }

    /// Enters insert mode.
    pub fn enter_insert_mode(&mut self)
        requires
            old(self).wf(),
        ensures
            final(self).wf(),
            final(self)@ == (AppView {
                mode: Mode::Insert,
                status: "Insert mode: press 0-9 to paint, Esc to stop"@,
                ..old(self)@
            }),
    {
        self.mode = Mode::Insert;
        self.status = string_from("Insert mode: press 0-9 to paint, Esc to stop");
    }

    /// Returns to normal mode.
    pub fn enter_normal_mode(&mut self)
        requires
            old(self).wf(),
        ensures
            final(self).wf(),
            final(self)@ == (AppView { mode: Mode::Normal, status: "Normal mode"@, ..old(self)@ }),
    {
        self.mode = Mode::Normal;
        self.status = string_from("Normal mode");
    }

    pub fn set_status(&mut self, status: String)
        requires
            old(self).wf(),
        ensures
            final(self).wf(),
            final(self)@ == (AppView { status: status@, ..old(self)@ }),
    {
        self.status = status;
    }

    /// Appends a character to the command line.
    pub fn command_push(&mut self, ch: char)
        requires
            old(self).wf(),
        ensures
            final(self).wf(),
            final(self)@ == (AppView {
                command_buffer: old(self)@.command_buffer.push(ch),
                ..old(self)@
            }),
    {
        push_char(&mut self.command_buffer, ch);
    }

    /// Removes the last character of the command line, if any.
    pub fn command_backspace(&mut self)
        requires
            old(self).wf(),
        ensures
            final(self).wf(),
            final(self)@ == (AppView {
                command_buffer: if old(self)@.command_buffer.len() == 0 {
                    old(self)@.command_buffer
                } else {
                    old(self)@.command_buffer.drop_last()
                },
                ..old(self)@
            }),
    {
        crate::text::pop_char(&mut self.command_buffer);
    }

    /// Moves the view as little as needed to show the cursor, given how many tiles fit across
    /// and down (at least one each), without running past the level's edges.
    pub fn ensure_cursor_visible(&mut self, viewport_tiles: (u16, u16))
        requires
            old(self).wf(),
        ensures
            final(self).wf(),
            final(self)@ == old(self)@.after_ensure_visible(viewport_tiles),
    {
        let (tiles_w, tiles_h) = viewport_tiles;
        self.view_x = visible_origin_exec(self.cursor_x, self.view_x, tiles_w, self.level.width);
        self.view_y = visible_origin_exec(self.cursor_y, self.view_y, tiles_h, self.level.height);
    }

    /// Moves the cursor by `(dx, dy)`, kept inside the level, then keeps it visible.
    pub fn move_cursor(&mut self, dx: i16, dy: i16, viewport_tiles: (u16, u16))
        requires
            old(self).wf(),
        ensures
            final(self).wf(),
            final(self)@ == old(self)@.after_move(dx, dy, viewport_tiles),
    {
        let max_x = sat_sub(self.level.width, 1);
        let max_y = sat_sub(self.level.height, 1);
        self.cursor_x = clamp_u16(self.cursor_x, dx, max_x);
        self.cursor_y = clamp_u16(self.cursor_y, dy, max_y);
        self.ensure_cursor_visible(viewport_tiles);
    }

    /// Makes the layer `delta` steps further along ground, detail, logic (cyclically) active.
    pub fn cycle_layer(&mut self, delta: i8)
        requires
            old(self).wf(),
            layer_index_spec(old(self)@.active_layer) + delta <= i8::MAX,
        ensures
            final(self).wf(),
            final(self)@ == old(self)@.after_cycle(delta),
    {
        let current = layer_index(self.active_layer) as i8;
        let sum = current + delta;
        let r = sum % 3;
        let next: usize = if r < 0 {
            (r + 3) as usize
        } else {
            r as usize
        };
        proof {
            assert(next as int == (layer_index_spec(old(self)@.active_layer) + delta) % 3);
        }
        self.active_layer = if next == 0 {
            LayerKind::Ground
        } else if next == 1 {
            LayerKind::Detail
        } else {
            LayerKind::Logic
        };
        let mut s = string_from("Active layer: ");
        append_str(&mut s, layer_name(self.active_layer));
        self.status = s;
    }

    /// Changes the zoom by `delta`, kept within 1..=4, then keeps the cursor visible.
    pub fn adjust_zoom(&mut self, delta: i8, viewport_tiles: (u16, u16))
        requires
            old(self).wf(),
            old(self)@.zoom + delta <= i8::MAX,
        ensures
            final(self).wf(),
            final(self)@ == old(self)@.after_zoom(delta, viewport_tiles),
    {
        let sum = self.zoom as i8 + delta;
        let next: u8 = if sum < 1 {
            1
        } else if sum > 4 {
            4
        } else {
            sum as u8
        };
        self.zoom = next;
        self.ensure_cursor_visible(viewport_tiles);
        let mut s = string_from("Zoom ");
        push_decimal(&mut s, next as u64);
        self.status = s;
    }
}


/// The cells `s` with the first `k` of them set to `d`.
pub open spec fn prefix_filled(s: Seq<u16>, k: int, d: u16) -> Seq<u16> {
    Seq::new(s.len(), |i: int| if i < k { d } else { s[i] })
}

impl App {
    fn snapshot(&self) -> (s: EditSnapshot)
        ensures
            s.level@ == self@.level,
            s.dirty == self@.dirty,
    {
        EditSnapshot { level: self.level.duplicate(), dirty: self.dirty }
    }

    fn record_undo_state(&mut self)
        requires
            old(self).wf(),
        ensures
            final(self).wf(),
            final(self)@ == old(self)@.recorded(),
    {
        let snap = self.snapshot();
        let ghost before = self.undo_stack@;
        self.undo_stack.push(snap);
        self.redo_stack.clear();
        proof {
            assert(snapshot_views(self.undo_stack@) =~= snapshot_views(before).push(
                old(self)@.snapshot(),
            ));
            assert(snapshot_views(self.redo_stack@) =~= Seq::<SnapshotView>::empty());
        }
    }

    /// Whether the active layer maps a texture to `id`.
    fn active_maps(&self, id: u16) -> (b: bool)
        requires
            self.wf(),
        ensures
            b == self@.assets(self@.active_layer).maps(id),
    {
        let assets = &self.layers[layer_index(self.active_layer)];
        let mut i: usize = 0;
        while i < assets.tiles.len()
            invariant
                0 <= i <= assets.tiles.len(),
                assets@ == self@.assets(self@.active_layer),
                forall|k: int| 0 <= k < i ==> (#[trigger] assets@.tiles[k]).id != id,
            decreases assets.tiles.len() - i,
        {
            if assets.tiles[i].id == id {
                proof {
                    assert(assets@.tiles[i as int].id == id);
                }
                return true;
            }
            i = i + 1;
        }
        false
    }

    /// Paints tile `digit` (0 to 9) under the cursor on the active layer, recording the
    /// previous level for undo.
    pub fn paint_digit(&mut self, digit: u16) -> (r: Result<(), String>)
        requires
            old(self).wf(),
        ensures
            final(self).wf(),
            digit > 9 ==> (r matches Err(e) && e@ == tile_id_error("paint"@)),
            digit > 9 ==> final(self)@ == old(self)@,
            digit <= 9 && old(self)@.level.in_bounds(
                old(self)@.cursor.0 as int,
                old(self)@.cursor.1 as int,
            ) ==> r is Ok && final(self)@ == old(self)@.after_paint(digit),
            digit <= 9 && !old(self)@.level.in_bounds(
                old(self)@.cursor.0 as int,
                old(self)@.cursor.1 as int,
            ) ==> (r matches Err(e) && e@ == level_error_text(
                crate::level::LevelError::OutOfBounds {
                    x: old(self)@.cursor.0,
                    y: old(self)@.cursor.1,
                    width: old(self)@.level.width,
                    height: old(self)@.level.height,
                },
            )) && final(self)@ == old(self)@.recorded(),
    {
        validate_tile_id(digit, "paint")?;
        self.record_undo_state();
        match self.level.set_tile(self.active_layer, self.cursor_x, self.cursor_y, digit) {
            Ok(()) => {},
            Err(e) => {
                return Err(e.to_string());
            },
        }
        self.dirty = true;
        let mapped = self.active_maps(digit);
        let mut s = string_from("Painted ");
        push_decimal(&mut s, digit as u64);
        append_str(&mut s, " at (");
        push_decimal(&mut s, self.cursor_x as u64);
        append_str(&mut s, ", ");
        push_decimal(&mut s, self.cursor_y as u64);
        append_str(&mut s, ") on ");
        append_str(&mut s, layer_name(self.active_layer));
        unmapped_suffix(&mut s, mapped);
        self.status = s;
        proof {
            law_read_after_write(
                old(self)@.level,
                old(self)@.active_layer,
                old(self)@.cursor.0 as int,
                old(self)@.cursor.1 as int,
                digit,
                LayerKind::Ground,
                0,
                0,
            );
        }
        Ok(())
    }

    /// Fills every tile of the active layer with `digit` (0 to 9), recording the previous
    /// level for undo.
    pub fn fill_active_layer(&mut self, digit: u16) -> (r: Result<(), String>)
        requires
            old(self).wf(),
        ensures
            final(self).wf(),
            digit > 9 ==> (r matches Err(e) && e@ == tile_id_error("fill"@)),
            digit > 9 ==> final(self)@ == old(self)@,
            digit <= 9 ==> r is Ok && final(self)@ == old(self)@.after_fill(digit),
    {
        validate_tile_id(digit, "fill")?;
        self.record_undo_state();
        let ghost start = self@;
        let layer = self.active_layer;
        let width = self.level.width;
        let height = self.level.height;
        let ghost orig = start.level.cells(layer);
        let mut y: u16 = 0;
        proof {
            assert(start.level.with_cells(layer, prefix_filled(orig, 0, digit)) =~= start.level) by {
                assert(prefix_filled(orig, 0, digit) =~= orig);
            }
        }
        while y < height
            invariant
                0 <= y <= height,
                width == start.level.width,
                height == start.level.height,
                layer == start.active_layer,
                orig == start.level.cells(layer),
                self.level.wf(),
                self@ == (AppView {
                    level: start.level.with_cells(
                        layer,
                        prefix_filled(orig, y * width, digit),
                    ),
                    ..start
                }),
            decreases height - y,
        {
            let mut x: u16 = 0;
            while x < width
                invariant
                    0 <= x <= width,
                    0 <= y < height,
                    width == start.level.width,
                    height == start.level.height,
                    layer == start.active_layer,
                    orig == start.level.cells(layer),
                    self.level.wf(),
                    self@ == (AppView {
                        level: start.level.with_cells(
                            layer,
                            prefix_filled(orig, y * width + x, digit),
                        ),
                        ..start
                    }),
                decreases width - x,
            {
                let ghost before = self.level@;
                proof {
                    crate::level::lemma_cell_index(width as int, height as int, x as int, y as int);
                }
                let r = self.level.set_tile(layer, x, y, digit);
                proof {
                    assert(r is Ok);
                    assert(prefix_filled(orig, y * width + x, digit).update(
                        y * width + x,
                        digit,
                    ) =~= prefix_filled(orig, y * width + x + 1, digit));
                    assert(self.level@ == start.level.with_cells(
                        layer,
                        prefix_filled(orig, y * width + x + 1, digit),
                    ));
                }
                x = x + 1;
            }
            proof {
                assert(y * width + width == (y + 1) * width) by (nonlinear_arith);
            }
            y = y + 1;
        }
        proof {
            assert(height * width == width * height) by (nonlinear_arith);
            assert(prefix_filled(orig, height * width, digit) =~= Seq::new(
                orig.len(),
                |i: int| digit,
            ));
        }
        self.dirty = true;
        let mapped = self.active_maps(digit);
        let mut s = string_from("Filled ");
        append_str(&mut s, layer_name(self.active_layer));
        append_str(&mut s, " with ");
        push_decimal(&mut s, digit as u64);
        unmapped_suffix(&mut s, mapped);
        self.status = s;
        Ok(())
    }

    /// Reverts the last recorded edit; refused when there is none.
    pub fn undo(&mut self) -> (r: Result<(), String>)
        requires
            old(self).wf(),
        ensures
            final(self).wf(),
            old(self)@.undo.len() == 0 ==> (r matches Err(e) && e@ == "nothing to undo"@),
            old(self)@.undo.len() == 0 ==> final(self)@ == old(self)@,
            old(self)@.undo.len() > 0 ==> r is Ok && final(self)@ == old(self)@.after_undo(),
    {
        let ghost before_undo = self.undo_stack@;
        let snapshot = match self.undo_stack.pop() {
            Some(s) => s,
            None => {
                return Err(string_from("nothing to undo"));
            },
        };
        let current = self.snapshot();
        let ghost before_redo = self.redo_stack@;
        self.redo_stack.push(current);
        self.level = snapshot.level;
        self.dirty = snapshot.dirty;
        self.status = string_from("Undo");
        proof {
            assert(snapshot_views(self.undo_stack@) =~= snapshot_views(before_undo).drop_last());
            assert(snapshot_views(self.redo_stack@) =~= snapshot_views(before_redo).push(
                old(self)@.snapshot(),
            ));
            let o = old(self)@;
            assert(o.undo[o.undo.len() - 1].fits(o.level));
        }
        Ok(())
    }

    /// Restores the last undone edit; refused when there is none.
    pub fn redo(&mut self) -> (r: Result<(), String>)
        requires
            old(self).wf(),
        ensures
            final(self).wf(),
            old(self)@.redo.len() == 0 ==> (r matches Err(e) && e@ == "nothing to redo"@),
            old(self)@.redo.len() == 0 ==> final(self)@ == old(self)@,
            old(self)@.redo.len() > 0 ==> r is Ok && final(self)@ == old(self)@.after_redo(),
    {
        let ghost before_redo = self.redo_stack@;
        let snapshot = match self.redo_stack.pop() {
            Some(s) => s,
            None => {
                return Err(string_from("nothing to redo"));
            },
        };
        let current = self.snapshot();
        let ghost before_undo = self.undo_stack@;
        self.undo_stack.push(current);
        self.level = snapshot.level;
        self.dirty = snapshot.dirty;
        self.status = string_from("Redo");
        proof {
            assert(snapshot_views(self.redo_stack@) =~= snapshot_views(before_redo).drop_last());
            assert(snapshot_views(self.undo_stack@) =~= snapshot_views(before_undo).push(
                old(self)@.snapshot(),
            ));
            let o = old(self)@;
            assert(o.redo[o.redo.len() - 1].fits(o.level));
        }
        Ok(())
    }

    /// The tile ID at `(x, y)` on the active layer, if that is inside the level.
    pub fn visible_tile_id(&self, x: u16, y: u16) -> (r: Option<u16>)
        requires
            self.wf(),
        ensures
            self@.level.in_bounds(x as int, y as int) <==> r is Some,
            r matches Some(v) ==> v == self@.level.tile(self@.active_layer, x as int, y as int),
    {
        match self.level.tile(self.active_layer, x, y) {
            Ok(v) => Some(v),
            Err(_) => None,
        }
    }

    /// The first texture mapped to `id` on `layer`, if any.
    pub fn tile_texture(&self, layer: LayerKind, id: u16) -> (r: Option<&TileTexture>)
        requires
            self.wf(),
        ensures
            r is Some <==> self@.assets(layer).maps(id),
            r matches Some(t) ==> exists|i: int|
                0 <= i < self@.assets(layer).tiles.len() && self@.assets(layer).tiles[i] == t@
                    && t@.id == id && forall|k: int|
                    0 <= k < i ==> (#[trigger] self@.assets(layer).tiles[k]).id != id,
    {
        let assets = &self.layers[layer_index(layer)];
        let mut i: usize = 0;
        while i < assets.tiles.len()
            invariant
                0 <= i <= assets.tiles.len(),
                assets@ == self@.assets(layer),
                forall|k: int| 0 <= k < i ==> (#[trigger] assets@.tiles[k]).id != id,
            decreases assets.tiles.len() - i,
        {
            if assets.tiles[i].id == id {
                proof {
                    assert(assets@.tiles[i as int] == assets.tiles@[i as int]@);
                }
                return Some(&assets.tiles[i]);
            }
            i = i + 1;
        }
        None
    }
}


/// A layer maps at most nine textures, to the tile IDs 1 up to their number: an ID is
/// mapped exactly when it lies in that range, so the empty tile 0 is never mapped.
pub proof fn law_mapped_ids(a: AppView, layer: LayerKind, id: u16)
    requires
        a.inv(),
    ensures
        a.assets(layer).tiles.len() <= 9,
        a.assets(layer).maps(id) <==> 1 <= id <= a.assets(layer).tiles.len(),
        !a.assets(layer).maps(0),
{
    let k = layer_index_spec(layer);
    assert(a.layers[k].wf());
    let t = a.assets(layer).tiles;
    if 1 <= id <= t.len() {
        assert(t[id - 1].id == id);
    }
}

/// After painting a tile, `undo` brings back the level and the unsaved-changes flag as they
/// were before, leaves the undo history as it was, and offers the painted level for redo;
/// `redo` then brings the painted level back.
pub proof fn law_undo_reverts_paint_and_redo_restores_it(a: AppView, digit: u16)
    requires
        a.inv(),
        digit <= 9,
        a.level.in_bounds(a.cursor.0 as int, a.cursor.1 as int),
    ensures
        ({
            let painted = a.after_paint(digit);
            let undone = painted.after_undo();
            let redone = undone.after_redo();
            &&& undone.level == a.level
            &&& undone.dirty == a.dirty
            &&& undone.undo == a.undo
            &&& undone.redo == seq![painted.snapshot()]
            &&& redone.level == painted.level
            &&& redone.dirty == painted.dirty
            &&& redone.undo == painted.undo
            &&& redone.redo.len() == 0
        }),
{
    let painted = a.after_paint(digit);
    assert(painted.undo.drop_last() =~= a.undo);
    assert(painted.redo.push(painted.snapshot()) =~= seq![painted.snapshot()]);
    let undone = painted.after_undo();
    assert(undone.undo.push(undone.snapshot()) =~= a.undo.push(a.snapshot()));
    assert(undone.redo.drop_last() =~= Seq::<SnapshotView>::empty());
}

/// After filling the active layer, `undo` brings back the level and the unsaved-changes flag
/// as they were before, and `redo` then brings the filled level back.
pub proof fn law_undo_reverts_fill_and_redo_restores_it(a: AppView, digit: u16)
    requires
        a.inv(),
        digit <= 9,
    ensures
        ({
            let filled = a.after_fill(digit);
            let undone = filled.after_undo();
            let redone = undone.after_redo();
            &&& undone.level == a.level
            &&& undone.dirty == a.dirty
            &&& undone.undo == a.undo
            &&& redone.level == filled.level
            &&& redone.dirty == filled.dirty
            &&& redone.undo == filled.undo
            &&& redone.redo.len() == 0
        }),
{
    let filled = a.after_fill(digit);
    assert(filled.undo.drop_last() =~= a.undo);
    let undone = filled.after_undo();
    assert(undone.undo.push(undone.snapshot()) =~= a.undo.push(a.snapshot()));
    assert(undone.redo.drop_last() =~= Seq::<SnapshotView>::empty());
}

/// Any new edit drops the redo history, and it can itself be undone.
pub proof fn law_new_edit_clears_redo(a: AppView, digit: u16)
    requires
        a.inv(),
    ensures
        a.after_paint(digit).redo.len() == 0,
        a.after_fill(digit).redo.len() == 0,
        a.after_paint(digit).undo.len() == a.undo.len() + 1,
        a.after_fill(digit).undo.len() == a.undo.len() + 1,
{
}

/// Painting sets exactly the tile under the cursor on the active layer: every other tile, on
/// every layer, keeps its ID.
pub proof fn law_paint_touches_one_tile(
    a: AppView,
    digit: u16,
    layer: LayerKind,
    x: int,
    y: int,
)
    requires
        a.inv(),
        a.level.in_bounds(a.cursor.0 as int, a.cursor.1 as int),
        a.level.in_bounds(x, y),
    ensures
        a.after_paint(digit).level.tile(a.active_layer, a.cursor.0 as int, a.cursor.1 as int)
            == digit,
        (layer != a.active_layer || x != a.cursor.0 || y != a.cursor.1) ==> a.after_paint(
            digit,
        ).level.tile(layer, x, y) == a.level.tile(layer, x, y),
{
    law_read_after_write(
        a.level,
        a.active_layer,
        a.cursor.0 as int,
        a.cursor.1 as int,
        digit,
        layer,
        x,
        y,
    );
}

/// Filling sets every tile of the active layer and leaves the other layers as they were.
pub proof fn law_fill_writes_every_tile(a: AppView, digit: u16, layer: LayerKind, x: int, y: int)
    requires
        a.inv(),
        a.level.in_bounds(x, y),
    ensures
        a.after_fill(digit).level.tile(a.active_layer, x, y) == digit,
        layer != a.active_layer ==> a.after_fill(digit).level.tile(layer, x, y) == a.level.tile(
            layer,
            x,
            y,
        ),
{
    crate::level::lemma_cell_index(a.level.width as int, a.level.height as int, x, y);
}

/// Stepping forward through the layers three times, or one step forward and one back, ends
/// on the layer it started from.
pub proof fn law_layer_cycle(layer: LayerKind)
    ensures
        layer_at((layer_index_spec(layer_at((layer_index_spec(layer_at((layer_index_spec(layer)
            + 1) % 3)) + 1) % 3)) + 1) % 3) == layer,
        layer_at((layer_index_spec(layer_at((layer_index_spec(layer) + 1) % 3)) - 1) % 3)
            == layer,
{
}

/// After the view origin is recomputed for a coordinate inside an axis, that coordinate lies
/// among the visible tiles.
pub proof fn law_cursor_stays_visible(c: u16, v: u16, tiles: u16, size: u16)
    requires
        c <= last_index(size),
    ensures
        visible_origin(c, v, tiles, size) <= c,
        c < visible_origin(c, v, tiles, size) + (if tiles == 0 {
            1
        } else {
            tiles as int
        }),
{
}


// ---------------------------------------------------------------------------
// The command line.
// ---------------------------------------------------------------------------

/// The argument of a command: what follows the first whitespace character, trimmed, when
/// that is not empty.
pub open spec fn command_arg_spec(input: Seq<char>) -> Option<Seq<char>> {
    let p = word_len(input) as int;
    if p >= input.len() {
        None
    } else if trim(input.skip(p + 1)).len() == 0 {
        None
    } else {
        Some(trim(input.skip(p + 1)))
    }
}

/// The layer that a name denotes.
pub open spec fn parse_layer_spec(name: Seq<char>) -> Option<LayerKind> {
    if name == "ground"@ {
        Some(LayerKind::Ground)
    } else if name == "detail"@ {
        Some(LayerKind::Detail)
    } else if name == "logic"@ {
        Some(LayerKind::Logic)
    } else {
        None
    }
}

/// The arguments of `:fill <0-9>`.
pub open spec fn parse_fill_spec(input: Seq<char>) -> Result<u16, Seq<char>> {
    match command_arg_spec(input) {
        None => Err("usage: :fill <0-9>"@),
        Some(v) => match parse_u16_spec(v) {
            None => Err("invalid "@ + "tile id"@ + ": "@ + v),
            Some(d) => if d <= 9 {
                Ok(d)
            } else {
                Err(tile_id_error("fill"@))
            },
        },
    }
}

/// The arguments of `:new <width> <height> [path]`; the path is every word after the height,
/// joined by single spaces, with `~` expanded.
pub open spec fn parse_new_spec(input: Seq<char>, home: Option<Seq<char>>) -> Result<
    (u16, u16, Option<Seq<char>>),
    Seq<char>,
> {
    let t = tokens(input);
    let usage = "usage: :new <width> <height> [path]"@;
    if t.len() == 0 || t[0] != "new"@ || t.len() < 2 {
        Err(usage)
    } else {
        match parse_u16_spec(t[1]) {
            None => Err("invalid "@ + "width"@ + ": "@ + t[1]),
            Some(w) => if t.len() < 3 {
                Err(usage)
            } else {
                match parse_u16_spec(t[2]) {
                    None => Err("invalid "@ + "height"@ + ": "@ + t[2]),
                    Some(h) => Ok(
                        (
                            w,
                            h,
                            if t.len() > 3 {
                                Some(expand_user_path_spec(join_spaced(t.skip(3)), home))
                            } else {
                                None
                            },
                        ),
                    ),
                }
            },
        }
    }
}

/// The arguments of `:map <layer> <folder>`; the folder is the rest of the line, trimmed,
/// with `~` expanded.
pub open spec fn parse_map_spec(input: Seq<char>, home: Option<Seq<char>>) -> Result<
    (LayerKind, Seq<char>),
    Seq<char>,
> {
    let usage = "usage: :map <ground|detail|logic> <folder>"@;
    match command_arg_spec(input) {
        None => Err(usage),
        Some(rest) => {
            let p = word_len(rest) as int;
            if p >= rest.len() || trim(rest.skip(p + 1)).len() == 0 {
                Err(usage)
            } else {
                match parse_layer_spec(rest.take(p)) {
                    None => Err("invalid layer: "@ + rest.take(p)),
                    Some(l) => Ok((l, expand_user_path_spec(trim(rest.skip(p + 1)), home))),
                }
            }
        },
    }
}

pub open spec fn help_status() -> Seq<char> {
    ":w [path], :q, :open <path>, :new <w> <h> [path], :map <layer> <folder>, :fill <0-9>"@
}

/// What running the (trimmed) command line `input` does to state `a`: the next state, and
/// the action for the caller or the error.
pub open spec fn command_outcome(a: AppView, input: Seq<char>) -> (AppView, Result<
    ActionView,
    Seq<char>,
>) {
    let t = tokens(input);
    if t.len() == 0 {
        (AppView { status: "Normal mode"@, ..a }, Ok(ActionView::Noop))
    } else {
        let cmd = t[0];
        if cmd == "q"@ || cmd == "quit"@ {
            (a, Ok(ActionView::Quit))
        } else if cmd == "w"@ || cmd == "write"@ {
            let path = match command_arg_spec(input) {
                Some(p) => Some(expand_user_path_spec(p, a.home)),
                None => a.path,
            };
            match path {
                Some(p) => (AppView { path: Some(p), ..a }, Ok(ActionView::Save(p))),
                None => (a, Err("no active output path; use :w <path>"@)),
            }
        } else if cmd == "open"@ {
            match command_arg_spec(input) {
                Some(p) => (a, Ok(ActionView::Open(expand_user_path_spec(p, a.home)))),
                None => (a, Err("usage: :open <path>"@)),
            }
        } else if cmd == "new"@ {
            match parse_new_spec(input, a.home) {
                Err(e) => (a, Err(e)),
                Ok((w, h, path)) => if w == 0 || h == 0 {
                    (
                        a,
                        Err(
                            level_error_text(
                                crate::level::LevelError::EmptyLevel { width: w, height: h },
                            ),
                        ),
                    )
                } else {
                    (
                        fresh_view(
                            crate::level::blank_view(w, h),
                            path,
                            a.home,
                            "Created new level"@,
                        ),
                        Ok(ActionView::Noop),
                    )
                },
            }
        } else if cmd == "map"@ {
            match parse_map_spec(input, a.home) {
                Err(e) => (a, Err(e)),
                Ok((l, f)) => (a, Ok(ActionView::MapFolder { layer: l, folder: f })),
            }
        } else if cmd == "fill"@ {
            match parse_fill_spec(input) {
                Err(e) => (a, Err(e)),
                Ok(d) => (a.after_fill(d), Ok(ActionView::Noop)),
            }
        } else if cmd == "help"@ {
            (AppView { status: help_status(), ..a }, Ok(ActionView::Noop))
        } else {
            (a, Err("unknown command: "@ + cmd))
        }
    }
}

/// A `:new <width> <height> [path]` line whose size is not empty starts a fresh editor on a
/// blank level of that size, saved at the path the line names (its words after the size,
/// joined by single spaces, with `~` expanded) or at none; a `:w` right after it saves the
/// level there.
pub proof fn law_new_command_sets_level_and_path(a: AppView, input: Seq<char>, w: u16, h: u16)
    requires
        tokens(input).len() >= 3,
        tokens(input)[0] == "new"@,
        parse_u16_spec(tokens(input)[1]) == Some(w),
        parse_u16_spec(tokens(input)[2]) == Some(h),
        w > 0 && h > 0,
    ensures
        ({
            let t = tokens(input);
            let (n, r) = command_outcome(a, input);
            let p = if t.len() > 3 {
                Some(expand_user_path_spec(join_spaced(t.skip(3)), a.home))
            } else {
                None
            };
            &&& r == Ok::<ActionView, Seq<char>>(ActionView::Noop)
            &&& n.level == crate::level::blank_view(w, h)
            &&& n.path == p
            &&& !n.dirty
            &&& n.undo.len() == 0 && n.redo.len() == 0
            &&& n.home == a.home
            &&& command_outcome(n, "w"@).1 == match p {
                Some(q) => Ok::<ActionView, Seq<char>>(ActionView::Save(q)),
                None => Err::<ActionView, Seq<char>>("no active output path; use :w <path>"@),
            }
        }),
{
    reveal_strlit("new");
    reveal_strlit("q");
    reveal_strlit("quit");
    reveal_strlit("w");
    reveal_strlit("write");
    reveal_strlit("open");
    assert("new"@ != "q"@ && "new"@ != "quit"@ && "new"@ != "w"@ && "new"@ != "write"@
        && "new"@ != "open"@) by {
        assert("new"@.len() != "q"@.len());
        assert("new"@.len() != "quit"@.len());
        assert("new"@.len() != "w"@.len());
        assert("new"@.len() != "write"@.len());
        assert("new"@.len() != "open"@.len());
    }
    let (n, r) = command_outcome(a, input);
    assert(crate::text::is_word("w"@)) by {
        assert(!crate::text::is_ws("w"@[0]));
    }
    crate::text::lemma_tokens_word("w"@);
    assert(tokens("w"@)[0] == "w"@);
    assert(word_len("w"@) == 1) by {
        assert("w"@.len() == 1);
        assert(!crate::text::is_ws("w"@[0]));
        assert(word_len("w"@.drop_first()) == 0);
    }
    assert(command_arg_spec("w"@) is None);
}

pub open spec fn result_view(r: Result<CommandAction, String>) -> Result<ActionView, Seq<char>> {
    match r {
        Ok(a) => Ok(action_view(a)),
        Err(e) => Err(e@),
    }
}

/// The argument of a command line (see [`command_arg_spec`]).
fn command_arg_chars(input: &Vec<char>) -> (r: Option<Vec<char>>)
    ensures
        match command_arg_spec(input@) {
            Some(a) => r matches Some(v) && v@ == a,
            None => r is None,
        },
{
    let p = find_ws(input, 0);
    proof {
        assert(input@.skip(0) =~= input@);
    }
    if p >= input.len() {
        return None;
    }
    let rest = slice_chars(input, p + 1, input.len());
    proof {
        assert(rest@ =~= input@.skip(p + 1));
    }
    let t = trim_chars(&rest);
    if t.len() == 0 {
        None
    } else {
        Some(t)
    }
}

/// The layer that a name denotes.
fn parse_layer(name: &Vec<char>) -> (r: Option<LayerKind>)
    ensures
        r == parse_layer_spec(name@),
{
    if chars_eq(name, "ground") {
        Some(LayerKind::Ground)
    } else if chars_eq(name, "detail") {
        Some(LayerKind::Detail)
    } else if chars_eq(name, "logic") {
        Some(LayerKind::Logic)
    } else {
        None
    }
}

/// `u16::from_str`, with the message `invalid <name>: <input>` on failure.
fn parse_u16(input: &Vec<char>, name: &str) -> (r: Result<u16, String>)
    ensures
        match parse_u16_spec(input@) {
            Some(v) => r == Ok::<u16, String>(v),
            None => r matches Err(e) && e@ == "invalid "@ + name@ + ": "@ + input@,
        },
{
    match parse_u16_chars(input) {
        Some(v) => Ok(v),
        None => {
            let mut m = string_from("invalid ");
            append_str(&mut m, name);
            append_str(&mut m, ": ");
            let i = string_of_all(input);
            append_str(&mut m, i.as_str());
            Err(m)
        },
    }
}

/// The digit of `:fill <0-9>`.
fn parse_fill_chars(input: &Vec<char>) -> (r: Result<u16, String>)
    ensures
        match parse_fill_spec(input@) {
            Ok(d) => r == Ok::<u16, String>(d),
            Err(e) => r matches Err(m) && m@ == e,
        },
{
    let value = match command_arg_chars(input) {
        Some(v) => v,
        None => {
            return Err(string_from("usage: :fill <0-9>"));
        },
    };
    let digit = parse_u16(&value, "tile id")?;
    validate_tile_id(digit, "fill")?;
    Ok(digit)
}

/// `tokens[from..]` joined by single spaces.
fn join_tokens(t: &Vec<Vec<char>>, from: usize) -> (r: String)
    requires
        from < t.len(),
    ensures
        r@ == join_spaced(view_tokens(t@).skip(from as int)),
{
    let mut r = string_of_all(&t[from]);
    let mut i = from + 1;
    proof {
        assert(view_tokens(t@).subrange(from as int, i as int) =~= seq![t@[from as int]@]);
    }
    while i < t.len()
        invariant
            from < i <= t.len(),
            r@ == join_spaced(view_tokens(t@).subrange(from as int, i as int)),
        decreases t.len() - i,
    {
        push_char(&mut r, ' ');
        let w = string_of_all(&t[i]);
        append_str(&mut r, w.as_str());
        proof {
            let next = view_tokens(t@).subrange(from as int, i + 1);
            assert(next.drop_last() =~= view_tokens(t@).subrange(from as int, i as int));
            assert(next.last() == t@[i as int]@);
        }
        i = i + 1;
    }
    proof {
        assert(view_tokens(t@).subrange(from as int, t.len() as int) =~= view_tokens(t@).skip(
            from as int,
        ));
    }
    r
}

/// The width, height and optional path of `:new <width> <height> [path]`.
fn parse_new_chars(input: &Vec<char>, home: Option<&str>) -> (r: Result<
    (u16, u16, Option<String>),
    String,
>)
    ensures
        match parse_new_spec(input@, opt_str_view(home)) {
            Ok((w, h, p)) => r matches Ok((w2, h2, p2)) && w2 == w && h2 == h && opt_string(p2)
                == p,
            Err(e) => r matches Err(m) && m@ == e,
        },
{
    let t = split_ws(input);
    proof {
        assert(view_tokens(t@).len() == t@.len());
        if t@.len() > 0 {
            assert(view_tokens(t@)[0] == t@[0]@);
        }
        if t@.len() > 1 {
            assert(view_tokens(t@)[1] == t@[1]@);
        }
        if t@.len() > 2 {
            assert(view_tokens(t@)[2] == t@[2]@);
        }
    }
    if t.len() == 0 || !chars_eq(&t[0], "new") || t.len() < 2 {
        return Err(string_from("usage: :new <width> <height> [path]"));
    }
    let width = parse_u16(&t[1], "width")?;
    if t.len() < 3 {
        return Err(string_from("usage: :new <width> <height> [path]"));
    }
    let height = parse_u16(&t[2], "height")?;
    let path = if t.len() > 3 {
        let joined = join_tokens(&t, 3);
        Some(expand_user_path(joined.as_str(), home))
    } else {
        None
    };
    Ok((width, height, path))
}

/// The layer and folder of `:map <layer> <folder>`.
fn parse_map_chars(input: &Vec<char>, home: Option<&str>) -> (r: Result<(LayerKind, String), String>)
    ensures
        match parse_map_spec(input@, opt_str_view(home)) {
            Ok((l, f)) => r matches Ok((l2, f2)) && l2 == l && f2@ == f,
            Err(e) => r matches Err(m) && m@ == e,
        },
{
    let rest = match command_arg_chars(input) {
        Some(r) => r,
        None => {
            return Err(string_from("usage: :map <ground|detail|logic> <folder>"));
        },
    };
    let p = find_ws(&rest, 0);
    proof {
        assert(rest@.skip(0) =~= rest@);
    }
    if p >= rest.len() {
        return Err(string_from("usage: :map <ground|detail|logic> <folder>"));
    }
    let after = slice_chars(&rest, p + 1, rest.len());
    let folder = trim_chars(&after);
    proof {
        assert(after@ =~= rest@.skip(p + 1));
    }
    if folder.len() == 0 {
        return Err(string_from("usage: :map <ground|detail|logic> <folder>"));
    }
    let name = slice_chars(&rest, 0, p);
    proof {
        assert(name@ =~= rest@.take(p as int));
    }
    match parse_layer(&name) {
        Some(l) => {
            let f = string_of_all(&folder);
            Ok((l, expand_user_path(f.as_str(), home)))
        },
        None => {
            let mut m = string_from("invalid layer: ");
            let n = string_of_all(&name);
            append_str(&mut m, n.as_str());
            Err(m)
        },
    }
}


/// The index of the last `c` in `s`, or -1 when there is none.
pub open spec fn last_index_of(s: Seq<char>, c: char) -> int
    decreases s.len(),
{
    if s.len() == 0 {
        -1
    } else if s.last() == c {
        s.len() - 1
    } else {
        last_index_of(s.drop_last(), c)
    }
}

/// `Path::extension` of a file name: the text after its last `.`, when that dot is not the
/// first character (a name like `.hidden` has none), and not for `..`.
pub open spec fn extension_of(name: Seq<char>) -> Option<Seq<char>> {
    let d = last_index_of(name, '.');
    if d <= 0 || name == ".."@ {
        None
    } else {
        Some(name.skip(d + 1))
    }
}

/// The image formats that the editor maps: `png`, `jpg`, `jpeg`, `bmp`, `gif`, `webp`.
pub open spec fn is_supported_image_spec(name: Seq<char>) -> bool {
    match extension_of(name) {
        Some(e) => e == "png"@ || e == "jpg"@ || e == "jpeg"@ || e == "bmp"@ || e == "gif"@ || e
            == "webp"@,
        None => false,
    }
}

proof fn lemma_last_index_of(s: Seq<char>, c: char, d: int)
    requires
        -1 <= d < s.len(),
        d >= 0 ==> s[d] == c,
        forall|k: int| d < k < s.len() ==> #[trigger] s[k] != c,
    ensures
        last_index_of(s, c) == d,
    decreases s.len(),
{
    if s.len() > 0 && d < s.len() - 1 {
        let t = s.drop_last();
        assert forall|k: int| d < k < t.len() implies #[trigger] t[k] != c by {
            assert(t[k] == s[k]);
        }
        assert(s[s.len() - 1] != c);
        lemma_last_index_of(t, c, d);
    }
}

/// The extension of a file name (see [`extension_of`]).
fn file_extension(cs: &Vec<char>) -> (r: Option<Vec<char>>)
    ensures
        match extension_of(cs@) {
            Some(e) => r matches Some(v) && v@ == e,
            None => r is None,
        },
{
    let mut d: usize = cs.len();
    while d > 0 && cs[d - 1] != '.'
        invariant
            0 <= d <= cs.len(),
            forall|k: int| d <= k < cs.len() ==> #[trigger] cs@[k] != '.',
        decreases d,
    {
        d = d - 1;
    }
    proof {
        lemma_last_index_of(cs@, '.', d - 1);
    }
    if d <= 1 || chars_eq(cs, "..") {
        return None;
    }
    let ext = slice_chars(cs, d, cs.len());
    proof {
        assert(ext@ =~= cs@.skip(d as int));
    }
    Some(ext)
}

/// Whether a file, by its name, is an image the editor maps (see [`is_supported_image_spec`]).
pub fn is_supported_image(file_name: &str) -> (b: bool)
    ensures
        b == is_supported_image_spec(file_name@),
{
    let cs = chars_of(file_name);
    match file_extension(&cs) {
        None => false,
        Some(ext) => chars_eq(&ext, "png") || chars_eq(&ext, "jpg") || chars_eq(&ext, "jpeg")
            || chars_eq(&ext, "bmp") || chars_eq(&ext, "gif") || chars_eq(&ext, "webp"),
    }
}

/// The argument of a command line: what follows its first whitespace character, trimmed,
/// when that is not empty.
pub fn command_arg(input: &str) -> (r: Option<String>)
    ensures
        match command_arg_spec(input@) {
            Some(a) => r matches Some(v) && v@ == a,
            None => r is None,
        },
{
    let cs = chars_of(input);
    match command_arg_chars(&cs) {
        Some(v) => Some(string_of_all(&v)),
        None => None,
    }
}

/// The tile ID of `:fill <0-9>` (see [`parse_fill_spec`]).
pub fn parse_fill_command(input: &str) -> (r: Result<u16, String>)
    ensures
        match parse_fill_spec(input@) {
            Ok(d) => r == Ok::<u16, String>(d),
            Err(e) => r matches Err(m) && m@ == e,
        },
{
    let cs = chars_of(input);
    parse_fill_chars(&cs)
}

/// The width, height and optional path of `:new <width> <height> [path]`, with `~` in the
/// path expanded against `home` (see [`parse_new_spec`]).
pub fn parse_new_command(input: &str, home: Option<&str>) -> (r: Result<
    (u16, u16, Option<String>),
    String,
>)
    ensures
        match parse_new_spec(input@, opt_str_view(home)) {
            Ok((w, h, p)) => r matches Ok((w2, h2, p2)) && w2 == w && h2 == h && opt_string(p2)
                == p,
            Err(e) => r matches Err(m) && m@ == e,
        },
{
    let cs = chars_of(input);
    parse_new_chars(&cs, home)
}

/// The layer and folder of `:map <layer> <folder>`, with `~` in the folder expanded against
/// `home` (see [`parse_map_spec`]).
pub fn parse_map_command(input: &str, home: Option<&str>) -> (r: Result<(LayerKind, String), String>)
    ensures
        match parse_map_spec(input@, opt_str_view(home)) {
            Ok((l, f)) => r matches Ok((l2, f2)) && l2 == l && f2@ == f,
            Err(e) => r matches Err(m) && m@ == e,
        },
{
    let cs = chars_of(input);
    parse_map_chars(&cs, home)
}

impl App {
    fn home_ref(&self) -> (r: Option<&str>)
        ensures
            opt_str_view(r) == self@.home,
    {
        match &self.home {
            Some(h) => Some(h.as_str()),
            None => None,
        }
    }

    fn copy_home(&self) -> (r: Option<String>)
        ensures
            opt_string(r) == self@.home,
    {
        match &self.home {
            Some(h) => Some(string_from(h.as_str())),
            None => None,
        }
    }

    /// Runs a command line (already trimmed); see [`command_outcome`].
    fn run_command(&mut self, input: &Vec<char>) -> (r: Result<CommandAction, String>)
        requires
            old(self).wf(),
        ensures
            final(self).wf(),
            (final(self)@, result_view(r)) == command_outcome(old(self)@, input@),
    {
        let t = split_ws(input);
        proof {
            if t@.len() > 0 {
                assert(view_tokens(t@)[0] == t@[0]@);
            }
        }
        if t.len() == 0 {
            self.status = string_from("Normal mode");
            assert(self@ == (AppView { status: "Normal mode"@, ..old(self)@ }));
            assert(self@.inv());
            return Ok(CommandAction::Noop);
        }
        let cmd = &t[0];
        if chars_eq(cmd, "q") || chars_eq(cmd, "quit") {
            return Ok(CommandAction::Quit);
        }
        if chars_eq(cmd, "w") || chars_eq(cmd, "write") {
            match command_arg_chars(input) {
                Some(p) => {
                    let ps = string_of_all(&p);
                    let expanded = expand_user_path(ps.as_str(), self.home_ref());
                    self.path = Some(expanded);
                },
                None => {},
            }
            return match &self.path {
                Some(p) => Ok(CommandAction::Save(string_from(p.as_str()))),
                None => Err(string_from("no active output path; use :w <path>")),
            };
        }
        if chars_eq(cmd, "open") {
            return match command_arg_chars(input) {
                Some(p) => {
                    let ps = string_of_all(&p);
                    Ok(CommandAction::Open(expand_user_path(ps.as_str(), self.home_ref())))
                },
                None => Err(string_from("usage: :open <path>")),
            };
        }
        if chars_eq(cmd, "new") {
            let (width, height, path) = parse_new_chars(input, self.home_ref())?;
            let mut fresh = App::blank(width, height, path)?;
            fresh.home = self.copy_home();
            fresh.status = string_from("Created new level");
            *self = fresh;
            return Ok(CommandAction::Noop);
        }
        if chars_eq(cmd, "map") {
            let (layer, folder) = parse_map_chars(input, self.home_ref())?;
            return Ok(CommandAction::MapFolder { layer, folder });
        }
        if chars_eq(cmd, "fill") {
            let digit = parse_fill_chars(input)?;
            let r = self.fill_active_layer(digit);
            proof {
                assert(r is Ok);
            }
            return Ok(CommandAction::Noop);
        }
        if chars_eq(cmd, "help") {
            self.status = string_from(
                ":w [path], :q, :open <path>, :new <w> <h> [path], :map <layer> <folder>, :fill <0-9>",
            );
            return Ok(CommandAction::Noop);
        }
        let mut m = string_from("unknown command: ");
        let c = string_of_all(cmd);
        append_str(&mut m, c.as_str());
        Err(m)
    }

    /// Runs the command line and returns to normal mode with an empty command line; an empty
    /// command line does nothing.
    pub fn submit_command(&mut self) -> (r: Result<CommandAction, String>)
        requires
            old(self).wf(),
        ensures
            final(self).wf(),
            ({
                let base = AppView {
                    command_buffer: Seq::empty(),
                    mode: Mode::Normal,
                    ..old(self)@
                };
                let input = trim(old(self)@.command_buffer);
                if input.len() == 0 {
                    final(self)@ == (AppView { status: "Normal mode"@, ..base }) && r
                        == Ok::<CommandAction, String>(CommandAction::Noop)
                } else {
                    (final(self)@, result_view(r)) == command_outcome(base, input)
                }
            }),
    {
        let buffer = chars_of(self.command_buffer.as_str());
        let input = trim_chars(&buffer);
        self.command_buffer = String::new();
        self.mode = Mode::Normal;
        if input.len() == 0 {
            self.status = string_from("Normal mode");
            return Ok(CommandAction::Noop);
        }
        self.run_command(&input)
    }

    /// Records that the level was written to its path: no unsaved changes remain.
    pub fn mark_saved(&mut self)
        requires
            old(self).wf(),
        ensures
            final(self).wf(),
            old(self)@.path matches Some(p) ==> final(self)@ == (AppView {
                dirty: false,
                status: "Saved "@ + p,
                ..old(self)@
            }),
            old(self)@.path is None ==> final(self)@ == old(self)@,
    {
        match &self.path {
            Some(p) => {
                let mut s = string_from("Saved ");
                append_str(&mut s, p.as_str());
                self.dirty = false;
                self.status = s;
            },
            None => {},
        }
    }

    /// Replaces the editor with a fresh one on a level loaded from `path`.
    pub fn open_level(&mut self, level: Level, path: String)
        requires
            old(self).wf(),
            level.wf(),
        ensures
            final(self).wf(),
            final(self)@ == fresh_view(level@, Some(path@), old(self)@.home, "Opened level"@),
    {
        let mut fresh = App::new(level, Some(path));
        fresh.home = self.copy_home();
        fresh.status = string_from("Opened level");
        *self = fresh;
    }

    /// Takes new settings. Returns the image folders that the settings map to layers, in
    /// layer order, for the caller to load (see [`App::install_layer_assets`]); when there
    /// are none, a status of "Normal mode" becomes "Loaded configuration".
    pub fn apply_config(&mut self, config: AppConfig) -> (r: Vec<(LayerKind, String)>)
        requires
            old(self).wf(),
            config@.layer_mappings.len() == 3,
        ensures
            final(self).wf(),
            ({
                let wanted = mapping_requests(config@.layer_mappings);
                &&& r@.len() == wanted.len()
                &&& forall|i: int|
                    0 <= i < wanted.len() ==> (#[trigger] r@[i]).0 == wanted[i].0 && r@[i].1@
                        == wanted[i].1
                &&& final(self)@ == (AppView {
                    config: config@,
                    status: if wanted.len() == 0 && old(self)@.status == "Normal mode"@ {
                        "Loaded configuration"@
                    } else {
                        old(self)@.status
                    },
                    ..old(self)@
                })
            }),
    {
        let mut requests: Vec<(LayerKind, String)> = Vec::new();
        let mut i: usize = 0;
        while i < 3
            invariant
                0 <= i <= 3,
                config@.layer_mappings.len() == 3,
                requests@.len() == mapping_requests(config@.layer_mappings.take(i as int)).len(),
                forall|k: int|
                    0 <= k < requests@.len() ==> (#[trigger] requests@[k]).0 == mapping_requests(
                        config@.layer_mappings.take(i as int),
                    )[k].0 && requests@[k].1@ == mapping_requests(
                        config@.layer_mappings.take(i as int),
                    )[k].1,
            decreases 3 - i,
        {
            proof {
                let m = config@.layer_mappings;
                assert(m.take(i + 1).drop_last() =~= m.take(i as int));
                assert(m.take(i + 1).last() == m[i as int]);
            }
            match &config.layer_mappings[i] {
                Some(folder) => {
                    let layer = if i == 0 {
                        LayerKind::Ground
                    } else if i == 1 {
                        LayerKind::Detail
                    } else {
                        LayerKind::Logic
                    };
                    requests.push((layer, string_from(folder.as_str())));
                },
                None => {},
            }
            i = i + 1;
        }
        proof {
            assert(config@.layer_mappings.take(3) =~= config@.layer_mappings);
        }
        let ghost wanted = mapping_requests(config@.layer_mappings);
        self.config = config;
        if requests.len() == 0 && crate::text::str_eq(self.status.as_str(), "Normal mode") {
            self.status = string_from("Loaded configuration");
        }
        requests
    }
}

/// The `(layer, folder)` pairs of the mapped entries of `m` (ground, detail, logic order).
pub open spec fn mapping_requests(m: Seq<Option<Seq<char>>>) -> Seq<(LayerKind, Seq<char>)>
    decreases m.len(),
{
    if m.len() == 0 {
        seq![]
    } else {
        let prior = mapping_requests(m.drop_last());
        match m.last() {
            Some(f) => prior.push((layer_at(m.len() - 1), f)),
            None => prior,
        }
    }
}

/// Each folder request names the layer whose settings slot holds that folder (ground,
/// detail, logic), the requests come in that layer order, and every slot that holds a folder
/// gives one.
pub proof fn law_mapping_requests_name_their_layers(m: Seq<Option<Seq<char>>>)
    requires
        m.len() <= 3,
    ensures
        ({
            let req = mapping_requests(m);
            &&& forall|j: int|
                0 <= j < req.len() ==> layer_index_spec((#[trigger] req[j]).0) < m.len()
                    && m[layer_index_spec(req[j].0)] == Some(req[j].1)
            &&& forall|j1: int, j2: int|
                0 <= j1 < j2 < req.len() ==> layer_index_spec((#[trigger] req[j1]).0)
                    < layer_index_spec((#[trigger] req[j2]).0)
            &&& forall|i: int|
                0 <= i < m.len() && (#[trigger] m[i]) is Some ==> exists|j: int|
                    0 <= j < req.len() && layer_index_spec((#[trigger] req[j]).0) == i
        }),
    decreases m.len(),
{
    if m.len() > 0 {
        let prior_m = m.drop_last();
        law_mapping_requests_name_their_layers(prior_m);
        let prior = mapping_requests(prior_m);
        let req = mapping_requests(m);
        let last = m.len() - 1;
        assert(layer_index_spec(layer_at(last)) == last);
        assert forall|j: int| 0 <= j < prior.len() implies layer_index_spec((#[trigger] prior[j]).0)
            < last by {
            assert(layer_index_spec(prior[j].0) < prior_m.len());
        }
        match m.last() {
            Some(f) => {
                assert(req == prior.push((layer_at(last), f)));
                assert forall|j: int| 0 <= j < req.len() implies layer_index_spec(
                    (#[trigger] req[j]).0,
                ) < m.len() && m[layer_index_spec(req[j].0)] == Some(req[j].1) by {
                    if j < prior.len() {
                        assert(req[j] == prior[j]);
                        assert(m[layer_index_spec(prior[j].0)] == prior_m[layer_index_spec(
                            prior[j].0,
                        )]);
                    }
                }
                assert forall|j1: int, j2: int|
                    0 <= j1 < j2 < req.len() implies layer_index_spec((#[trigger] req[j1]).0)
                    < layer_index_spec((#[trigger] req[j2]).0) by {
                    assert(req[j1] == prior[j1]);
                    if j2 < prior.len() {
                        assert(req[j2] == prior[j2]);
                    }
                }
                assert forall|i: int| 0 <= i < m.len() && (#[trigger] m[i]) is Some implies exists|
                    j: int,
                | 0 <= j < req.len() && layer_index_spec((#[trigger] req[j]).0) == i by {
                    if i < last {
                        assert(prior_m[i] == m[i]);
                        let j = choose|j: int|
                            0 <= j < prior.len() && layer_index_spec((#[trigger] prior[j]).0) == i;
                        assert(req[j] == prior[j]);
                    } else {
                        assert(req[prior.len() as int] == (layer_at(last), f));
                    }
                }
            },
            None => {
                assert(req == prior);
                assert forall|j: int| 0 <= j < req.len() implies layer_index_spec(
                    (#[trigger] req[j]).0,
                ) < m.len() && m[layer_index_spec(req[j].0)] == Some(req[j].1) by {
                    assert(m[layer_index_spec(prior[j].0)] == prior_m[layer_index_spec(
                        prior[j].0,
                    )]);
                }
                assert forall|i: int| 0 <= i < m.len() && (#[trigger] m[i]) is Some implies exists|
                    j: int,
                | 0 <= j < req.len() && layer_index_spec((#[trigger] req[j]).0) == i by {
                    assert(i < last);
                    assert(prior_m[i] == m[i]);
                }
            },
        }
    }
}


// ---------------------------------------------------------------------------
// Textures.
// ---------------------------------------------------------------------------

impl TileImage {
    pub open spec fn wf(&self) -> bool {
        self.rgba@.len() == self.width * self.height * 4
    }

    /// An image of `width` by `height` RGBA pixels; refused when `rgba` does not hold exactly
    /// four bytes per pixel.
    pub fn new(width: u32, height: u32, rgba: Vec<u8>) -> (r: Option<TileImage>)
        ensures
            r is Some <==> rgba@.len() == width * height * 4,
            r matches Some(img) ==> img.width == width && img.height == height && img.rgba@
                == rgba@,
    {
        proof {
            assert((width as int) * (height as int) <= 0xffff_ffff * 0xffff_ffff) by (nonlinear_arith)
                requires
                    width <= 0xffff_ffff,
                    height <= 0xffff_ffff,
            ;
        }
        let expected: u128 = (width as u128) * (height as u128) * 4;
        if (rgba.len() as u128) == expected {
            Some(TileImage { width, height, rgba })
        } else {
            None
        }
    }
}

/// The image that `image::load_from_memory_with_format` decodes from `bytes`, in the format
/// that `image::ImageFormat::from_extension` names for `extension`, as 8-bit RGBA: its width,
/// height and pixel bytes; `None` where the extension names no format or decoding fails.
pub uninterp spec fn decoded_rgba(extension: Seq<char>, bytes: Seq<u8>) -> Option<(u32, u32, Seq<u8>)>;

/// Decodes `bytes` as an image in the format that `extension` names.
///
/// Calls `image::ImageFormat::from_extension`, `image::load_from_memory_with_format` and
/// `DynamicImage::to_rgba8`, as `image::open` does for a file with that extension. The contract
/// claims only that the result is the value that `decoded_rgba` names for these arguments.
#[verifier::external_body]
fn decode_rgba(extension: &str, bytes: &[u8]) -> (r: Option<(u32, u32, Vec<u8>)>)
    ensures
        match r {
            Some((w, h, px)) => decoded_rgba(extension@, bytes@) == Some((w, h, px@)),
            None => decoded_rgba(extension@, bytes@) is None,
        },
{
    let format = image::ImageFormat::from_extension(extension)?;
    let rgba = image::load_from_memory_with_format(bytes, format).ok()?.to_rgba8();
    Some((rgba.width(), rgba.height(), rgba.into_raw()))
}

/// The image in a file named `file_name` that holds `bytes`: decoded in the format that the
/// file's extension names, as width, height and RGBA bytes; `None` when the name has no
/// extension, or the bytes cannot be decoded as such an image.
pub open spec fn file_image(file_name: Seq<char>, bytes: Seq<u8>) -> Option<(u32, u32, Seq<u8>)> {
    match extension_of(file_name) {
        Some(e) => match decoded_rgba(e, bytes) {
            Some((w, h, px)) => if px.len() == w * h * 4 {
                Some((w, h, px))
            } else {
                None
            },
            None => None,
        },
        None => None,
    }
}

/// Reads the tile image that an image file named `file_name` holds in `bytes`
/// (see [`file_image`]).
pub fn load_tile_image(file_name: &str, bytes: &[u8]) -> (r: Option<TileImage>)
    ensures
        match file_image(file_name@, bytes@) {
            Some((w, h, px)) => r matches Some(img) && img.width == w && img.height == h
                && img.rgba@ == px,
            None => r is None,
        },
        r matches Some(img) ==> img.wf(),
{
    let cs = chars_of(file_name);
    let ext = match file_extension(&cs) {
        Some(e) => string_of_all(&e),
        None => return None,
    };
    match decode_rgba(ext.as_str(), bytes) {
        Some((w, h, px)) => TileImage::new(w, h, px),
        None => None,
    }
}

/// The textures collected from the sorted images of a folder: each readable image becomes
/// the next tile ID (starting at 1), unreadable ones are counted, and at most nine are taken.
pub struct TextureCollector {
    tiles: Vec<TileTexture>,
    skipped: usize,
}

pub struct CollectorView {
    pub tiles: Seq<TextureView>,
    pub skipped: nat,
}

impl View for TextureCollector {
    type V = CollectorView;

    closed spec fn view(&self) -> CollectorView {
        CollectorView {
            tiles: self.tiles@.map_values(|t: TileTexture| t@),
            skipped: self.skipped as nat,
        }
    }
}

impl CollectorView {
    pub open spec fn wf(self) -> bool {
        &&& self.tiles.len() <= 9
        &&& forall|i: int|
            0 <= i < self.tiles.len() ==> (#[trigger] self.tiles[i]).wf() && self.tiles[i].id == i
                + 1
    }
}

/// The name given to an image file whose path has no file name.
pub open spec fn fallback_tile_name(id: u16) -> Seq<char> {
    "tile_"@ + decimal(id as nat)
}

impl TextureCollector {
    pub fn new() -> (c: TextureCollector)
        ensures
            c@.wf(),
            c@.tiles.len() == 0,
            c@.skipped == 0,
    {
        let c = TextureCollector { tiles: Vec::new(), skipped: 0 };
        proof {
            assert(c@.tiles =~= Seq::<TextureView>::empty());
        }
        c
    }

    /// Whether nine textures have been collected, after which no more are taken.
    pub fn is_full(&self) -> (b: bool)
        ensures
            b == (self@.tiles.len() >= 9),
    {
        self.tiles.len() >= 9
    }

    /// Takes the next image file: `image` is `None` when it could not be read, `name` is its
    /// file name. Returns whether nine textures have now been collected.
    pub fn offer(&mut self, name: Option<String>, image: Option<TileImage>) -> (full: bool)
        requires
            old(self)@.wf(),
            old(self)@.tiles.len() < 9,
            old(self)@.skipped < usize::MAX,
            image matches Some(img) ==> img.wf(),
        ensures
            final(self)@.wf(),
            full == (final(self)@.tiles.len() == 9),
            match image {
                None => final(self)@ == CollectorView {
                    skipped: old(self)@.skipped + 1,
                    ..old(self)@
                },
                Some(img) => {
                    let id = (old(self)@.tiles.len() + 1) as u16;
                    final(self)@ == CollectorView {
                        tiles: old(self)@.tiles.push(
                            TextureView {
                                id,
                                name: match name {
                                    Some(n) => n@,
                                    None => fallback_tile_name(id),
                                },
                                width: img.width,
                                height: img.height,
                                rgba: img.rgba@,
                            },
                        ),
                        ..old(self)@
                    }
                },
            },
    {
        match image {
            None => {
                self.skipped = self.skipped + 1;
                false
            },
            Some(img) => {
                let id = (self.tiles.len() + 1) as u16;
                let name = match name {
                    Some(n) => n,
                    None => {
                        let mut s = string_from("tile_");
                        push_decimal(&mut s, id as u64);
                        s
                    },
                };
                let ghost before = self.tiles@;
                self.tiles.push(TileTexture { id, name, image: img });
                proof {
                    assert(self.tiles@.map_values(|t: TileTexture| t@) =~= before.map_values(
                        |t: TileTexture| t@,
                    ).push(self.tiles@[before.len() as int]@));
                }
                self.tiles.len() == 9
            },
        }
    }
}

pub open spec fn mapped_status(n: nat, layer: LayerKind, folder: Seq<char>, skipped: nat) -> Seq<
    char,
> {
    "Mapped "@ + decimal(n) + " textures for "@ + layer_name_spec(layer) + " from "@ + folder + (
    if skipped > 0 {
        " ("@ + decimal(skipped) + " unreadable files skipped)"@
    } else {
        ""@
    })
}

impl App {
    /// Maps the textures collected from `folder` to `layer`; refused when none could be read.
    pub fn install_layer_assets(
        &mut self,
        layer: LayerKind,
        folder: String,
        collected: TextureCollector,
    ) -> (r: Result<(), String>)
        requires
            old(self).wf(),
            collected@.wf(),
        ensures
            final(self).wf(),
            collected@.tiles.len() == 0 ==> (r matches Err(e) && e@
                == "no readable images found in "@ + folder@),
            collected@.tiles.len() == 0 ==> final(self)@ == old(self)@,
            collected@.tiles.len() > 0 ==> r is Ok && final(self)@ == (AppView {
                layers: old(self)@.layers.update(
                    layer_index_spec(layer),
                    AssetsView { folder: Some(folder@), tiles: collected@.tiles },
                ),
                status: mapped_status(
                    collected@.tiles.len(),
                    layer,
                    folder@,
                    collected@.skipped,
                ),
                ..old(self)@
            }),
    {
        let n = collected.tiles.len();
        if n == 0 {
            let mut m = string_from("no readable images found in ");
            append_str(&mut m, folder.as_str());
            return Err(m);
        }
        let mut s = string_from("Mapped ");
        push_decimal(&mut s, n as u64);
        append_str(&mut s, " textures for ");
        append_str(&mut s, layer_name(layer));
        append_str(&mut s, " from ");
        append_str(&mut s, folder.as_str());
        if collected.skipped > 0 {
            append_str(&mut s, " (");
            push_decimal(&mut s, collected.skipped as u64);
            append_str(&mut s, " unreadable files skipped)");
        } else {
            proof {
                assert(s@ + ""@ =~= s@) by {
                    reveal_strlit("");
                }
            }
        }
        let i = layer_index(layer);
        let ghost tiles = collected@.tiles;
        let ghost fv = folder@;
        let assets = LayerAssets { folder: Some(folder), tiles: collected.tiles };
        proof {
            assert(assets@.tiles == tiles);
            assert(assets@ == AssetsView { folder: Some(fv), tiles });
        }
        self.layers[i] = assets;
        self.status = s;
        proof {
            assert(self@.status == mapped_status(tiles.len(), layer, fv, collected@.skipped));
            assert(self@.layers =~= old(self)@.layers.update(
                i as int,
                AssetsView { folder: Some(folder@), tiles },
            ));
            assert forall|k: int| 0 <= k < 3 implies (#[trigger] self@.layers[k]).wf() by {
                if k == i {
                    assert forall|j: int| 0 <= j < tiles.len() implies (
                    #[trigger] self@.layers[k].tiles[j]).wf() by {
                        assert(tiles[j].wf());
                    }
                }
            }
        }
        Ok(())
    }
}

/// What an RGBA image resized with nearest-neighbour sampling holds: `image`'s
/// `imageops::resize` with `FilterType::Nearest`, from `width` by `height` to `new_width` by
/// `new_height` pixels, as RGBA bytes row by row.
pub uninterp spec fn resized_rgba(
    width: u32,
    height: u32,
    rgba: Seq<u8>,
    new_width: u32,
    new_height: u32,
) -> Seq<u8>;

/// Resizes RGBA pixels with `image::imageops::resize` and `FilterType::Nearest`. The result
/// is named by `resized_rgba`; per the crate's source it holds `new_width * new_height` pixels
/// of four bytes. Which source pixel each target pixel takes is not stated here.
#[verifier::external_body]
fn resize_nearest(width: u32, height: u32, rgba: &Vec<u8>, new_width: u32, new_height: u32) -> (r:
    Vec<u8>)
    requires
        rgba@.len() == width * height * 4,
        new_width * new_height * 4 <= usize::MAX,
    ensures
        r@ == resized_rgba(width, height, rgba@, new_width, new_height),
        r@.len() == new_width * new_height * 4,
{
    match image::RgbaImage::from_raw(width, height, rgba.clone()) {
        Some(img) => image::imageops::resize(
            &img,
            new_width,
            new_height,
            image::imageops::FilterType::Nearest,
        ).into_raw(),
        None => Vec::new(),
    }
}

/// The colour of pixel `i` of RGBA bytes: transparent pixels show the background.
pub open spec fn pixel_color(rgba: Seq<u8>, i: int) -> Color {
    if rgba[4 * i + 3] == 0 {
        Color::Reset
    } else {
        Color::Rgb(rgba[4 * i], rgba[4 * i + 1], rgba[4 * i + 2])
    }
}

/// The number of pixel rows sampled for `cell_rows` terminal rows: two per row (saturating),
/// and at least one.
pub open spec fn sample_rows(cell_rows: u16) -> nat {
    let h: int = if 2 * cell_rows > u16::MAX {
        u16::MAX as int
    } else {
        2 * cell_rows
    };
    if h == 0 {
        1
    } else {
        h as nat
    }
}

/// The colours of a texture scaled to `width` columns and `sample_rows(cell_rows)` pixel rows.
pub open spec fn sampled_colors(t: TextureView, width: u16, cell_rows: u16) -> Seq<Color> {
    let rows = sample_rows(cell_rows);
    let px = resized_rgba(t.width, t.height, t.rgba, width as u32, rows as u32);
    Seq::new((width * rows) as nat, |i: int| pixel_color(px, i))
}

/// The cell in row `k`, column `c`: the colours of pixel rows `2k` and `2k + 1` (or `2k`
/// again when that is the last row).
pub open spec fn cell_pair(colors: Seq<Color>, rows: int, width: int, k: int, c: int) -> (
    Color,
    Color,
) {
    (
        colors[2 * k * width + c],
        colors[(if 2 * k + 1 < rows {
            2 * k + 1
        } else {
            2 * k
        }) * width + c],
    )
}

/// Colours in rows of `width`, `sample_rows(cell_rows)` rows, drawn in terminal cells: each
/// cell shows two rows, the upper one as foreground and the lower as background (the last
/// cell row repeats its upper row when the count is odd).
pub open spec fn color_cells(colors: Seq<Color>, width: u16, cell_rows: u16) -> Seq<
    Seq<(Color, Color)>,
> {
    let rows = sample_rows(cell_rows) as int;
    Seq::new(
        ((rows + 1) / 2) as nat,
        |k: int| Seq::new(width as nat, |c: int| cell_pair(colors, rows, width as int, k, c)),
    )
}

/// The terminal cells that draw a texture in `width` columns and `cell_rows` rows: its
/// colours scaled to `width` by `sample_rows(cell_rows)` pixels, drawn as [`color_cells`].
/// Without a texture, every cell shows the background.
pub open spec fn texture_cells(t: Option<TextureView>, width: u16, cell_rows: u16) -> Seq<
    Seq<(Color, Color)>,
> {
    match t {
        None => Seq::new(
            cell_rows as nat,
            |k: int| Seq::new(width as nat, |c: int| (Color::Reset, Color::Reset)),
        ),
        Some(tex) => color_cells(sampled_colors(tex, width, cell_rows), width, cell_rows),
    }
}

/// Every sampled pixel row is drawn once, in order: pixel row `j` is the foreground of cell
/// row `j / 2` when `j` is even and its background when `j` is odd, so reading the cells back
/// row by row gives the sampled colours; an odd last row also shows as its own background.
pub proof fn law_cells_show_every_pixel_row(colors: Seq<Color>, width: u16, cell_rows: u16)
    requires
        width > 0,
        colors.len() == width * sample_rows(cell_rows),
    ensures
        ({
            let cells = color_cells(colors, width, cell_rows);
            let rows = sample_rows(cell_rows) as int;
            &&& cells.len() == (rows + 1) / 2
            &&& forall|k: int| 0 <= k < cells.len() ==> #[trigger] cells[k].len() == width
            &&& forall|j: int, c: int|
                0 <= j < rows && 0 <= c < width ==> #[trigger] colors[j * width + c] == (if j % 2
                    == 0 {
                    cells[j / 2][c].0
                } else {
                    cells[j / 2][c].1
                })
            &&& rows % 2 == 1 ==> forall|c: int|
                0 <= c < width ==> #[trigger] cells[(rows - 1) / 2][c].1 == colors[(rows - 1)
                    * width + c]
        }),
{
    let cells = color_cells(colors, width, cell_rows);
    let rows = sample_rows(cell_rows) as int;
    let w = width as int;
    assert forall|j: int, c: int|
        0 <= j < rows && 0 <= c < width implies #[trigger] colors[j * width + c] == (if j % 2 == 0 {
        cells[j / 2][c].0
    } else {
        cells[j / 2][c].1
    }) by {
        let k = j / 2;
        assert(0 <= k < (rows + 1) / 2);
        if j % 2 == 0 {
            assert(2 * k == j);
            assert(2 * k * w + c == j * w + c) by (nonlinear_arith)
                requires
                    2 * k == j,
            ;
        } else {
            assert(2 * k + 1 == j);
            assert((2 * k + 1) * w + c == j * w + c) by (nonlinear_arith)
                requires
                    2 * k + 1 == j,
            ;
        }
    }
}

/// The colours of the first `width * height` pixels of RGBA bytes (see [`pixel_color`]).
pub fn colors_from_rgba(px: &Vec<u8>, width: u32, height: u32) -> (r: Vec<Color>)
    requires
        px@.len() == width * height * 4,
        width * height * 4 <= usize::MAX,
    ensures
        r@ == Seq::new((width * height) as nat, |i: int| pixel_color(px@, i)),
{
    let n: usize = (width as usize) * (height as usize);
    let plen = px.len();
    let mut out: Vec<Color> = Vec::new();
    let mut i: usize = 0;
    while i < n
        invariant
            0 <= i <= n,
            plen == px@.len(),
            n == width * height,
            px@.len() == n * 4,
            out@ == Seq::new(i as nat, |k: int| pixel_color(px@, k)),
        decreases n - i,
    {
        let a = px[4 * i + 3];
        let c = if a == 0 {
            Color::Reset
        } else {
            Color::Rgb(px[4 * i], px[4 * i + 1], px[4 * i + 2])
        };
        out.push(c);
        i = i + 1;
        proof {
            assert(out@ =~= Seq::new(i as nat, |k: int| pixel_color(px@, k)));
        }
    }
    out
}

/// The texture scaled to `width` by `height` pixels (each at least one), as colours row by
/// row.
fn sample_texture(texture: &TileTexture, width: u16, height: u16) -> (r: Vec<Color>)
    requires
        texture@.wf(),
        (if width == 0 { 1 } else { width as int }) * (if height == 0 { 1 } else { height as int })
            * 4 <= usize::MAX,
    ensures
        ({
            let w: u32 = if width == 0 { 1 } else { width as u32 };
            let h: u32 = if height == 0 { 1 } else { height as u32 };
            let px = resized_rgba(
                texture@.width,
                texture@.height,
                texture@.rgba,
                w,
                h,
            );
            r@ == Seq::new((w * h) as nat, |i: int| pixel_color(px, i))
        }),
{
    let w: u32 = if width == 0 {
        1
    } else {
        width as u32
    };
    let h: u32 = if height == 0 {
        1
    } else {
        height as u32
    };
    let px = resize_nearest(texture.image.width, texture.image.height, &texture.image.rgba, w, h);
    colors_from_rgba(&px, w, h)
}

pub open spec fn cells_view(v: Seq<Vec<(Color, Color)>>) -> Seq<Seq<(Color, Color)>> {
    v.map_values(|row: Vec<(Color, Color)>| row@)
}

/// Colours in rows of `width` drawn in terminal cells (see [`color_cells`]).
pub fn cells_from_colors(colors: &Vec<Color>, width: u16, cell_rows: u16) -> (r: Vec<
    Vec<(Color, Color)>,
>)
    requires
        width > 0,
        colors@.len() == width * sample_rows(cell_rows),
    ensures
        cells_view(r@) == color_cells(colors@, width, cell_rows),
{
    let sample_h: u16 = if cell_rows > 32767 {
        65535
    } else {
        cell_rows * 2
    };
    let rows_n: usize = if sample_h == 0 {
        1
    } else {
        sample_h as usize
    };
    proof {
        assert(rows_n == sample_rows(cell_rows));
    }
        let ghost spec_colors = colors@;
        let w = width as usize;
        let out_n: usize = (rows_n + 1) / 2;
        let ghost target = color_cells(colors@, width, cell_rows);
        let mut out: Vec<Vec<(Color, Color)>> = Vec::new();
        let mut k: usize = 0;
        let clen = colors.len();
        while k < out_n
            invariant
                0 <= k <= out_n,
                clen == colors@.len(),
                out_n == (rows_n + 1) / 2,
                rows_n == sample_rows(cell_rows),
                w == width,
                w > 0,
                colors@.len() == w * rows_n,
                colors@ == spec_colors,
                target == color_cells(spec_colors, width, cell_rows),
                target.len() == out_n,
                cells_view(out@) == target.take(k as int),
            decreases out_n - k,
        {
            let top = 2 * k;
            let bottom = if 2 * k + 1 < rows_n {
                2 * k + 1
            } else {
                2 * k
            };
            proof {
                assert(top < rows_n);
                assert(bottom < rows_n);
                assert((top + 1) * w <= rows_n * w) by (nonlinear_arith)
                    requires
                        top < rows_n,
                ;
                assert((bottom + 1) * w <= rows_n * w) by (nonlinear_arith)
                    requires
                        bottom < rows_n,
                ;
                assert(rows_n * w == w * rows_n) by (nonlinear_arith);
            }
            let mut row: Vec<(Color, Color)> = Vec::new();
            let mut c: usize = 0;
            while c < w
                invariant
                    0 <= c <= w,
                    clen == colors@.len(),
                    top < rows_n,
                    bottom < rows_n,
                    (top + 1) * w <= colors@.len(),
                    (bottom + 1) * w <= colors@.len(),
                    row@ == Seq::new(
                        c as nat,
                        |j: int| (colors@[top * w + j], colors@[bottom * w + j]),
                    ),
                decreases w - c,
            {
                proof {
                    assert(top * w + c < (top + 1) * w) by (nonlinear_arith)
                        requires
                            c < w,
                    ;
                    assert(bottom * w + c < (bottom + 1) * w) by (nonlinear_arith)
                        requires
                            c < w,
                    ;
                }
                row.push((colors[top * w + c], colors[bottom * w + c]));
                c = c + 1;
                proof {
                    assert(row@ =~= Seq::new(
                        c as nat,
                        |j: int| (colors@[top * w + j], colors@[bottom * w + j]),
                    ));
                }
            }
            proof {
                assert(top == 2 * k);
                let inner = Seq::new(
                    width as nat,
                    |c: int| cell_pair(spec_colors, rows_n as int, width as int, k as int, c),
                );
                let rows_i = sample_rows(cell_rows) as int;
                assert(rows_i == rows_n);
                let full = Seq::new(
                    ((rows_i + 1) / 2) as nat,
                    |kk: int| Seq::new(
                        width as nat,
                        |c: int| cell_pair(spec_colors, rows_i, width as int, kk, c),
                    ),
                );
                assert(target == full);
                assert(k < full.len());
                assert(full[k as int] == inner);
                assert(target[k as int] == inner);
                assert(target[k as int].len() == w);
                assert forall|j: int| 0 <= j < w implies row@[j] == #[trigger] target[k as int][j] by {
                    assert(inner[j] == cell_pair(
                        spec_colors,
                        rows_n as int,
                        width as int,
                        k as int,
                        j,
                    ));
                }
                assert(row@ =~= target[k as int]);
            }
            let ghost before = out@;
            out.push(row);
            proof {
                assert(cells_view(out@) =~= cells_view(before).push(row@));
                assert(cells_view(out@) =~= target.take(k + 1));
            }
            k = k + 1;
        }
        proof {
            assert(target.take(out_n as int) =~= target);
        }
        out
}

impl App {
    /// The terminal cells that draw `texture` in `width` columns and `cell_rows` rows (see
    /// [`texture_cells`]).
    pub fn texture_colors(&self, texture: Option<&TileTexture>, width: u16, cell_rows: u16) -> (r:
        Vec<Vec<(Color, Color)>>)
        requires
            texture matches Some(t) ==> t@.wf() && width > 0 && width * sample_rows(cell_rows) * 4
                <= usize::MAX,
        ensures
            cells_view(r@) == texture_cells(
                match texture {
                    Some(t) => Some(t@),
                    None => None,
                },
                width,
                cell_rows,
            ),
    {
        match texture {
            None => {
                let mut rows: Vec<Vec<(Color, Color)>> = Vec::new();
                let mut k: u16 = 0;
                while k < cell_rows
                    invariant
                        0 <= k <= cell_rows,
                        cells_view(rows@) == Seq::new(
                            k as nat,
                            |j: int| Seq::new(width as nat, |c: int| (Color::Reset, Color::Reset)),
                        ),
                    decreases cell_rows - k,
                {
                    let mut row: Vec<(Color, Color)> = Vec::new();
                    let mut c: u16 = 0;
                    while c < width
                        invariant
                            0 <= c <= width,
                            row@ == Seq::new(c as nat, |j: int| (Color::Reset, Color::Reset)),
                        decreases width - c,
                    {
                        row.push((Color::Reset, Color::Reset));
                        c = c + 1;
                        proof {
                            assert(row@ =~= Seq::new(c as nat, |j: int| (Color::Reset, Color::Reset)));
                        }
                    }
                    let ghost before = rows@;
                    rows.push(row);
                    proof {
                        assert(cells_view(rows@) =~= cells_view(before).push(row@));
                    }
                    k = k + 1;
                    proof {
                        assert(cells_view(rows@) =~= Seq::new(
                            k as nat,
                            |j: int| Seq::new(width as nat, |c: int| (Color::Reset, Color::Reset)),
                        ));
                    }
                }
                rows
            },
            Some(t) => {
                let sample_h: u16 = if cell_rows > 32767 {
                    65535
                } else {
                    cell_rows * 2
                };
                let colors = sample_texture(t, width, sample_h);
                proof {
                    assert(colors@ =~= sampled_colors(t@, width, cell_rows));
                }
                cells_from_colors(&colors, width, cell_rows)
            },
        }
    }
}


// ---------------------------------------------------------------------------
// Visual mode: a rectangular selection, yank and paste.
// ---------------------------------------------------------------------------

/// A rectangle of tiles, inclusive of both corners it was spanned from.
#[derive(Clone, Copy, Debug, PartialEq, Eq, Structural)]
pub struct Selection {
    pub x: u16,
    pub y: u16,
    pub width: u16,
    pub height: u16,
}

impl Selection {
    pub open spec fn contains(self, x: int, y: int) -> bool {
        self.x <= x < self.x + self.width && self.y <= y < self.y + self.height
    }
}

/// The rectangle spanned by the anchor (where visual mode began) and the cursor.
pub open spec fn span(anchor: (u16, u16), cursor: (u16, u16)) -> Selection {
    Selection {
        x: if anchor.0 <= cursor.0 {
            anchor.0
        } else {
            cursor.0
        },
        y: if anchor.1 <= cursor.1 {
            anchor.1
        } else {
            cursor.1
        },
        width: (if anchor.0 <= cursor.0 {
            cursor.0 - anchor.0 + 1
        } else {
            anchor.0 - cursor.0 + 1
        }) as u16,
        height: (if anchor.1 <= cursor.1 {
            cursor.1 - anchor.1 + 1
        } else {
            anchor.1 - cursor.1 + 1
        }) as u16,
    }
}

/// The selection is the inclusive rectangle between the anchor and the cursor, whichever way
/// the cursor went: it holds exactly the tiles whose column lies between theirs and whose row
/// lies between theirs (both ends included), so it holds both corners, is the same with the
/// two swapped, and is one tile wider and taller than their distance.
pub proof fn law_selection_is_inclusive_rectangle(anchor: (u16, u16), cursor: (u16, u16))
    requires
        anchor.0 < u16::MAX && anchor.1 < u16::MAX,
        cursor.0 < u16::MAX && cursor.1 < u16::MAX,
    ensures
        forall|x: int, y: int|
            #[trigger] span(anchor, cursor).contains(x, y) <==> ((anchor.0 <= x <= cursor.0
                || cursor.0 <= x <= anchor.0) && (anchor.1 <= y <= cursor.1 || cursor.1 <= y
                <= anchor.1)),
        span(anchor, cursor).contains(anchor.0 as int, anchor.1 as int),
        span(anchor, cursor).contains(cursor.0 as int, cursor.1 as int),
        span(anchor, cursor) == span(cursor, anchor),
        span(anchor, cursor).width == (if anchor.0 <= cursor.0 {
            cursor.0 - anchor.0
        } else {
            anchor.0 - cursor.0
        }) + 1,
        span(anchor, cursor).height == (if anchor.1 <= cursor.1 {
            cursor.1 - anchor.1
        } else {
            anchor.1 - cursor.1
        }) + 1,
{
}

/// The tile that pasting `clip` with its top-left corner at `(ox, oy)` leaves at `(x, y)`.
pub open spec fn pasted_tile(
    old: LevelView,
    layer: LayerKind,
    clip: ClipboardView,
    ox: int,
    oy: int,
    x: int,
    y: int,
) -> u16 {
    if ox <= x < ox + clip.width && oy <= y < oy + clip.height {
        clip.tiles[(y - oy) * clip.width + (x - ox)]
    } else {
        old.tile(layer, x, y)
    }
}

/// `new` is `old` with layer `layer` changed so that each tile `(x, y)` holds `f(x, y)`.
pub open spec fn layer_rewritten(
    new: LevelView,
    old: LevelView,
    layer: LayerKind,
    f: spec_fn(int, int) -> u16,
) -> bool {
    &&& new.wf()
    &&& new.width == old.width
    &&& new.height == old.height
    &&& new.entity_count == old.entity_count
    &&& forall|l: LayerKind| l != layer ==> #[trigger] new.cells(l) == old.cells(l)
    &&& forall|x: int, y: int| old.in_bounds(x, y) ==> #[trigger] new.tile(layer, x, y) == f(x, y)
}

/// The tile at `(x, y)` on `layer`, or 0 outside the level.
pub open spec fn tile_or_zero(level: LevelView, layer: LayerKind, x: int, y: int) -> u16 {
    if level.in_bounds(x, y) {
        level.tile(layer, x, y)
    } else {
        0
    }
}

/// `c` holds the tiles of `sel` on `layer`, row by row.
pub open spec fn yanked(level: LevelView, layer: LayerKind, sel: Selection, c: ClipboardView) -> bool {
    &&& c.width == sel.width
    &&& c.height == sel.height
    &&& c.wf()
    &&& forall|dx: int, dy: int|
        0 <= dx < sel.width && 0 <= dy < sel.height ==> #[trigger] c.tiles[dy * sel.width + dx]
            == tile_or_zero(level, layer, sel.x + dx, sel.y + dy)
}

impl AppView {
    /// The current selection: the rectangle between anchor and cursor, in visual mode only.
    pub open spec fn selection(self) -> Option<Selection> {
        if self.mode == Mode::Visual {
            Some(span(self.anchor, self.cursor))
        } else {
            None
        }
    }

    /// Where `p` pastes: the selection's top-left corner in visual mode, else the cursor.
    pub open spec fn paste_origin(self) -> (u16, u16) {
        if self.mode == Mode::Visual {
            (span(self.anchor, self.cursor).x, span(self.anchor, self.cursor).y)
        } else {
            self.cursor
        }
    }
}

pub open spec fn size_text(w: u16, h: u16) -> Seq<char> {
    decimal(w as nat) + "x"@ + decimal(h as nat)
}

impl AppView {
    /// `n` is this state after yanking the selection: the clipboard holds its tiles, and the
    /// mode is normal again.
    pub open spec fn yank_done(self, n: AppView) -> bool {
        let sel = span(self.anchor, self.cursor);
        &&& n.clipboard matches Some(c) && yanked(self.level, self.active_layer, sel, c)
        &&& n == (AppView {
            clipboard: n.clipboard,
            mode: Mode::Normal,
            status: "Yanked "@ + size_text(sel.width, sel.height) + " tiles"@,
            ..self
        })
    }

    /// `n` is this state after pasting the clipboard at the paste origin: the edit is
    /// recorded for undo, the pasted rectangle is written within the level, the mode is
    /// normal again.
    pub open spec fn paste_done(self, n: AppView) -> bool {
        let (ox, oy) = self.paste_origin();
        let c = self.clipboard->0;
        &&& self.clipboard is Some
        &&& layer_rewritten(
            n.level,
            self.level,
            self.active_layer,
            |x: int, y: int| pasted_tile(self.level, self.active_layer, c, ox as int, oy as int, x, y),
        )
        &&& n == (AppView {
            level: n.level,
            dirty: true,
            mode: Mode::Normal,
            status: "Pasted "@ + size_text(c.width, c.height) + " tiles at ("@ + decimal(ox as nat)
                + ", "@ + decimal(oy as nat) + ")"@,
            ..self.recorded()
        })
    }

    /// `n` is this state after painting every selected tile with `digit`; the edit is
    /// recorded for undo.
    pub open spec fn paint_selection_done(self, n: AppView, digit: u16) -> bool {
        let sel = span(self.anchor, self.cursor);
        &&& rect_filled(n.level, self.level, self.active_layer, sel, digit)
        &&& n == (AppView {
            level: n.level,
            dirty: true,
            status: "Painted "@ + size_text(sel.width, sel.height) + " tiles with "@ + decimal(
                digit as nat,
            ),
            ..self.recorded()
        })
    }
}

proof fn lemma_span_in_level(a: AppView)
    requires
        a.inv(),
    ensures
        ({
            let s = span(a.anchor, a.cursor);
            &&& s.width >= 1
            &&& s.height >= 1
            &&& (a.level.width > 0 ==> s.x + s.width <= a.level.width)
            &&& (a.level.height > 0 ==> s.y + s.height <= a.level.height)
            &&& s.x + s.width <= u16::MAX
            &&& s.y + s.height <= u16::MAX
        }),
{
}

proof fn lemma_row_major_order(w: int, a: int, b: int, dx: int, dy: int)
    requires
        0 <= a < w,
        0 <= b,
        0 <= dx <= w,
        0 <= dy,
    ensures
        (b < dy || (b == dy && a < dx)) ==> b * w + a < dy * w + dx,
        !(b < dy || (b == dy && a < dx)) ==> b * w + a >= dy * w + dx,
{
    if b < dy {
        assert(b * w + a < dy * w + dx) by (nonlinear_arith)
            requires
                0 <= a < w,
                b < dy,
                0 <= dx,
        ;
    } else if b > dy {
        assert((b - dy) * w >= w) by (nonlinear_arith)
            requires
                b - dy >= 1,
                w >= 0,
        ;
        assert(b * w == dy * w + (b - dy) * w) by (nonlinear_arith);
    }
}

impl App {
    /// Enters visual mode with the selection anchored at the cursor.
    pub fn begin_visual(&mut self)
        requires
            old(self).wf(),
        ensures
            final(self).wf(),
            final(self)@ == (AppView {
                mode: Mode::Visual,
                anchor: old(self)@.cursor,
                status: "Visual mode"@,
                ..old(self)@
            }),
    {
        self.mode = Mode::Visual;
        self.anchor_x = self.cursor_x;
        self.anchor_y = self.cursor_y;
        self.status = string_from("Visual mode");
    }

    /// The selection, in visual mode.
    pub fn visual_selection(&self) -> (r: Option<Selection>)
        requires
            self.wf(),
        ensures
            r == self@.selection(),
    {
        if self.mode != Mode::Visual {
            return None;
        }
        let (x, width) = if self.anchor_x <= self.cursor_x {
            (self.anchor_x, self.cursor_x - self.anchor_x + 1)
        } else {
            (self.cursor_x, self.anchor_x - self.cursor_x + 1)
        };
        let (y, height) = if self.anchor_y <= self.cursor_y {
            (self.anchor_y, self.cursor_y - self.anchor_y + 1)
        } else {
            (self.cursor_y, self.anchor_y - self.cursor_y + 1)
        };
        Some(Selection { x, y, width, height })
    }

    /// Whether `(x, y)` lies in the selection.
    pub fn is_selected(&self, x: u16, y: u16) -> (b: bool)
        requires
            self.wf(),
        ensures
            b == (self@.selection() matches Some(s) && s.contains(x as int, y as int)),
    {
        match self.visual_selection() {
            Some(s) => (s.x <= x && (x as u32) < (s.x as u32) + (s.width as u32)) && (s.y <= y
                && (y as u32) < (s.y as u32) + (s.height as u32)),
            None => false,
        }
    }

    /// Copies the selected tiles of the active layer and returns to normal mode; refused
    /// outside visual mode.
    pub fn yank_selection(&mut self) -> (r: Result<(), String>)
        requires
            old(self).wf(),
        ensures
            final(self).wf(),
            old(self)@.mode != Mode::Visual ==> (r matches Err(e) && e@ == "nothing selected"@),
            old(self)@.mode != Mode::Visual ==> final(self)@ == old(self)@,
            old(self)@.mode == Mode::Visual ==> r is Ok && old(self)@.yank_done(final(self)@),
    {
        let sel = match self.visual_selection() {
            Some(s) => s,
            None => {
                return Err(string_from("nothing selected"));
            },
        };
        proof {
            lemma_span_in_level(self@);
        }
        let layer = self.active_layer;
        let w = sel.width;
        let h = sel.height;
        let mut tiles: Vec<u16> = Vec::new();
        let mut dy: u16 = 0;
        while dy < h
            invariant
                0 <= dy <= h,
                self.wf(),
                self@ == old(self)@,
                sel == span(old(self)@.anchor, old(self)@.cursor),
                w == sel.width,
                h == sel.height,
                w >= 1,
                layer == self@.active_layer,
                sel.x + w <= u16::MAX,
                sel.y + h <= u16::MAX,
                tiles@.len() == dy * w,
                forall|a: int, b: int|
                    0 <= a < w && 0 <= b < dy ==> #[trigger] tiles@[b * w + a]
                        == tile_or_zero(self@.level, layer, sel.x + a, sel.y + b),
            decreases h - dy,
        {
            let mut dx: u16 = 0;
            while dx < w
                invariant
                    0 <= dx <= w,
                    0 <= dy < h,
                    self.wf(),
                    self@ == old(self)@,
                    w == sel.width,
                    h == sel.height,
                    w >= 1,
                    layer == self@.active_layer,
                    sel.x + w <= u16::MAX,
                    sel.y + h <= u16::MAX,
                    tiles@.len() == dy * w + dx,
                    forall|a: int, b: int|
                        0 <= a < w && 0 <= b && (b < dy || (b == dy && a < dx))
                            ==> #[trigger] tiles@[b * w + a]
                            == tile_or_zero(self@.level, layer, sel.x + a, sel.y + b),
                decreases w - dx,
            {
                let v = match self.level.tile(layer, sel.x + dx, sel.y + dy) {
                    Ok(v) => v,
                    Err(_) => 0,
                };
                let ghost before = tiles@;
                tiles.push(v);
                proof {
                    assert forall|a: int, b: int|
                        0 <= a < w && 0 <= b && (b < dy || (b == dy && a < dx + 1))
                            implies #[trigger] tiles@[b * w + a]
                            == tile_or_zero(self@.level, layer, sel.x + a, sel.y + b) by {
                        lemma_row_major_order(w as int, a, b, dx as int, dy as int);
                        if b == dy && a == dx {
                        } else {
                            assert(tiles@[b * w + a] == before[b * w + a]);
                        }
                    }
                }
                dx = dx + 1;
            }
            proof {
                assert(dy * w + w == (dy + 1) * w) by (nonlinear_arith);
                assert forall|a: int, b: int| 0 <= a < w && 0 <= b < dy + 1 implies #[trigger] tiles@[b
                    * w + a] == tile_or_zero(self@.level, layer, sel.x + a, sel.y + b) by {
                    if b < dy {
                    } else {
                        assert(b == dy && a < w);
                    }
                }
            }
            dy = dy + 1;
        }
        proof {
            assert(h * w == w * h) by (nonlinear_arith);
        }
        self.clipboard = Some(Clipboard { width: w, height: h, tiles });
        self.mode = Mode::Normal;
        let mut s = string_from("Yanked ");
        push_decimal(&mut s, w as u64);
        append_str(&mut s, "x");
        push_decimal(&mut s, h as u64);
        append_str(&mut s, " tiles");
        proof {
            assert(s@ =~= "Yanked "@ + size_text(w, h) + " tiles"@);
        }
        self.status = s;
        proof {
            let o = old(self)@;
            assert(o.inv());
            assert(self@ == (AppView {
                clipboard: self@.clipboard,
                mode: Mode::Normal,
                status: self@.status,
                ..o
            }));
            assert(self@.clipboard->0.wf());
            assert(self@.inv());
        }
        Ok(())
    }
}


/// The tile at `(x, y)` once the rows of `clip` before row `dy`, and the first `dx` cells of
/// row `dy`, have been pasted at `(ox, oy)`.
pub open spec fn partly_pasted(
    old: LevelView,
    layer: LayerKind,
    clip: ClipboardView,
    ox: int,
    oy: int,
    dx: int,
    dy: int,
    x: int,
    y: int,
) -> u16 {
    let a = x - ox;
    let b = y - oy;
    if 0 <= a < clip.width && 0 <= b < clip.height && (b < dy || (b == dy && a < dx)) {
        clip.tiles[b * clip.width + a]
    } else {
        old.tile(layer, x, y)
    }
}

/// Writes `clip` onto `layer` with its top-left corner at `(ox, oy)`; the parts that fall
/// outside the level are dropped.
fn paste_rect(level: &mut Level, layer: LayerKind, ox: u16, oy: u16, clip: &Clipboard)
    requires
        old(level).wf(),
        clip@.wf(),
    ensures
        layer_rewritten(
            final(level)@,
            old(level)@,
            layer,
            |x: int, y: int| pasted_tile(old(level)@, layer, clip@, ox as int, oy as int, x, y),
        ),
{
    let ghost start = level@;
    let w = clip.width;
    let h = clip.height;
    let n = clip.tiles.len();
    let mut dy: u16 = 0;
    while dy < h
        invariant
            0 <= dy <= h,
            w == clip@.width,
            h == clip@.height,
            n == clip@.tiles.len(),
            clip@.wf(),
            start.wf(),
            layer_rewritten(
                level@,
                start,
                layer,
                |x: int, y: int| partly_pasted(start, layer, clip@, ox as int, oy as int, 0, dy as int, x, y),
            ),
        decreases h - dy,
    {
        let mut dx: u16 = 0;
        proof {
            assert forall|x: int, y: int| start.in_bounds(x, y) implies partly_pasted(
                start,
                layer,
                clip@,
                ox as int,
                oy as int,
                0,
                dy as int,
                x,
                y,
            ) == partly_pasted(start, layer, clip@, ox as int, oy as int, w as int, dy as int - 1, x, y) by {}
        }
        while dx < w
            invariant
                0 <= dx <= w,
                0 <= dy < h,
                w == clip@.width,
                h == clip@.height,
                n == clip@.tiles.len(),
                clip@.wf(),
                start.wf(),
                layer_rewritten(
                    level@,
                    start,
                    layer,
                    |x: int, y: int| partly_pasted(start, layer, clip@, ox as int, oy as int, dx as int, dy as int, x, y),
                ),
            decreases w - dx,
        {
            let x: u32 = ox as u32 + dx as u32;
            let y: u32 = oy as u32 + dy as u32;
            proof {
                assert(dy * w + dx < h * w) by (nonlinear_arith)
                    requires
                        dx < w,
                        dy < h,
                ;
                assert(h * w == w * h) by (nonlinear_arith);
            }
            if x < level.width as u32 && y < level.height as u32 {
                let v = clip.tiles[(dy as usize) * (w as usize) + (dx as usize)];
                let ghost before = level@;
                let r = level.set_tile(layer, x as u16, y as u16, v);
                proof {
                    crate::level::lemma_with_tile_everywhere(before, layer, x as int, y as int, v);
                    assert forall|px: int, py: int| start.in_bounds(px, py) implies #[trigger] level@.tile(
                        layer,
                        px,
                        py,
                    ) == partly_pasted(start, layer, clip@, ox as int, oy as int, dx + 1, dy as int, px, py) by {
                        assert(before.in_bounds(px, py));
                    }
                }
            } else {
                proof {
                    assert forall|px: int, py: int| start.in_bounds(px, py) implies #[trigger] level@.tile(
                        layer,
                        px,
                        py,
                    ) == partly_pasted(start, layer, clip@, ox as int, oy as int, dx + 1, dy as int, px, py) by {
                        assert(level@.tile(layer, px, py) == partly_pasted(start, layer, clip@, ox as int, oy as int, dx as int, dy as int, px, py));
                    }
                }
            }
            dx = dx + 1;
        }
        proof {
            assert forall|px: int, py: int| start.in_bounds(px, py) implies #[trigger] level@.tile(
                layer,
                px,
                py,
            ) == partly_pasted(start, layer, clip@, ox as int, oy as int, 0, dy + 1, px, py) by {
                assert(level@.tile(layer, px, py) == partly_pasted(start, layer, clip@, ox as int, oy as int, w as int, dy as int, px, py));
            }
        }
        dy = dy + 1;
    }
    proof {
        assert forall|px: int, py: int| start.in_bounds(px, py) implies #[trigger] level@.tile(
            layer,
            px,
            py,
        ) == pasted_tile(start, layer, clip@, ox as int, oy as int, px, py) by {
            assert(level@.tile(layer, px, py) == partly_pasted(start, layer, clip@, ox as int, oy as int, 0, h as int, px, py));
        }
    }
}

/// `new` is `old` with the tiles of `sel` on `layer` set to `digit`.
pub open spec fn rect_filled(new: LevelView, old: LevelView, layer: LayerKind, sel: Selection, digit: u16) -> bool {
    layer_rewritten(
        new,
        old,
        layer,
        |x: int, y: int| if sel.contains(x, y) {
            digit
        } else {
            old.tile(layer, x, y)
        },
    )
}

impl App {
    /// Pastes the yanked tiles onto the active layer at the selection's top-left corner in
    /// visual mode, or at the cursor otherwise, dropping what falls outside the level, and
    /// returns to normal mode; refused when nothing was yanked.
    pub fn paste_clipboard(&mut self) -> (r: Result<(), String>)
        requires
            old(self).wf(),
        ensures
            final(self).wf(),
            old(self)@.clipboard is None ==> (r matches Err(e) && e@ == "nothing to paste"@),
            old(self)@.clipboard is None ==> final(self)@ == old(self)@,
            old(self)@.clipboard is Some ==> r is Ok && old(self)@.paste_done(final(self)@),
    {
        if self.clipboard.is_none() {
            return Err(string_from("nothing to paste"));
        }
        let (ox, oy) = match self.visual_selection() {
            Some(s) => (s.x, s.y),
            None => (self.cursor_x, self.cursor_y),
        };
        self.record_undo_state();
        let ghost mid = self@;
        let layer = self.active_layer;
        let (w, h) = match &self.clipboard {
            Some(c) => {
                paste_rect(&mut self.level, layer, ox, oy, c);
                (c.width, c.height)
            },
            None => (0, 0),
        };
        proof {
            assert(self.level@.width == mid.level.width);
            assert(self.level@.height == mid.level.height);
            assert forall|i: int| 0 <= i < self@.undo.len() implies (#[trigger] self@.undo[i]).fits(self@.level) by {
                assert(mid.undo[i].fits(mid.level));
            }
        }
        self.dirty = true;
        self.mode = Mode::Normal;
        let mut s = string_from("Pasted ");
        push_decimal(&mut s, w as u64);
        append_str(&mut s, "x");
        push_decimal(&mut s, h as u64);
        append_str(&mut s, " tiles at (");
        push_decimal(&mut s, ox as u64);
        append_str(&mut s, ", ");
        push_decimal(&mut s, oy as u64);
        append_str(&mut s, ")");
        proof {
            assert(s@ =~= "Pasted "@ + size_text(w, h) + " tiles at ("@ + decimal(ox as nat) + ", "@
                + decimal(oy as nat) + ")"@);
        }
        self.status = s;
        Ok(())
    }

    /// Paints every selected tile of the active layer with `digit` (0 to 9), recording the
    /// previous level for undo; refused outside visual mode.
    pub fn paint_selection(&mut self, digit: u16) -> (r: Result<(), String>)
        requires
            old(self).wf(),
        ensures
            final(self).wf(),
            digit > 9 ==> (r matches Err(e) && e@ == tile_id_error("paint"@)),
            digit <= 9 && old(self)@.mode != Mode::Visual ==> (r matches Err(e) && e@
                == "nothing selected"@),
            (digit > 9 || old(self)@.mode != Mode::Visual) ==> final(self)@ == old(self)@,
            digit <= 9 && old(self)@.mode == Mode::Visual ==> r is Ok && old(self)@.paint_selection_done(
                final(self)@,
                digit,
            ),
    {
        validate_tile_id(digit, "paint")?;
        let sel = match self.visual_selection() {
            Some(s) => s,
            None => {
                return Err(string_from("nothing selected"));
            },
        };
        proof {
            lemma_span_in_level(self@);
        }
        proof {
            assert(sel.width * sel.height <= 65535 * 65535) by (nonlinear_arith)
                requires
                    sel.width <= 65535,
                    sel.height <= 65535,
            ;
        }
        let count = (sel.width as usize) * (sel.height as usize);
        let mut tiles: Vec<u16> = Vec::new();
        let mut i: usize = 0;
        while i < count
            invariant
                0 <= i <= count,
                tiles@ == Seq::new(i as nat, |k: int| digit),
            decreases count - i,
        {
            tiles.push(digit);
            i = i + 1;
            proof {
                assert(tiles@ =~= Seq::new(i as nat, |k: int| digit));
            }
        }
        let block = Clipboard { width: sel.width, height: sel.height, tiles };
        self.record_undo_state();
        let ghost mid = self@;
        let layer = self.active_layer;
        paste_rect(&mut self.level, layer, sel.x, sel.y, &block);
        proof {
            let o = old(self)@;
            assert forall|x: int, y: int| o.level.in_bounds(x, y) implies pasted_tile(
                o.level,
                layer,
                block@,
                sel.x as int,
                sel.y as int,
                x,
                y,
            ) == (if sel.contains(x, y) {
                digit
            } else {
                o.level.tile(layer, x, y)
            }) by {
                if sel.contains(x, y) {
                    let idx = (y - sel.y) * sel.width + (x - sel.x);
                    assert(0 <= idx < count) by {
                        assert((y - sel.y) * sel.width + (x - sel.x) < sel.height * sel.width) by (nonlinear_arith)
                            requires
                                0 <= x - sel.x < sel.width,
                                0 <= y - sel.y < sel.height,
                        ;
                        assert(0 <= (y - sel.y) * sel.width) by (nonlinear_arith)
                            requires
                                0 <= y - sel.y,
                                0 <= sel.width,
                        ;
                        assert(sel.height * sel.width == sel.width * sel.height) by (nonlinear_arith);
                    }
                }
            }
            assert forall|i: int| 0 <= i < self@.undo.len() implies (#[trigger] self@.undo[i]).fits(self@.level) by {
                assert(mid.undo[i].fits(mid.level));
            }
        }
        self.dirty = true;
        let mut s = string_from("Painted ");
        push_decimal(&mut s, sel.width as u64);
        append_str(&mut s, "x");
        push_decimal(&mut s, sel.height as u64);
        append_str(&mut s, " tiles with ");
        push_decimal(&mut s, digit as u64);
        proof {
            assert(s@ =~= "Painted "@ + size_text(sel.width, sel.height) + " tiles with "@ + decimal(
                digit as nat,
            ));
        }
        self.status = s;
        Ok(())
    }
}

/// Pasting what was yanked from a selection back at the selection's top-left corner leaves
/// every tile as it was.
pub proof fn law_paste_of_yank_restores(
    level: LevelView,
    new: LevelView,
    layer: LayerKind,
    sel: Selection,
    c: ClipboardView,
)
    requires
        level.wf(),
        yanked(level, layer, sel, c),
        layer_rewritten(
            new,
            level,
            layer,
            |x: int, y: int| pasted_tile(level, layer, c, sel.x as int, sel.y as int, x, y),
        ),
    ensures
        forall|l: LayerKind, x: int, y: int|
            level.in_bounds(x, y) ==> #[trigger] new.tile(l, x, y) == level.tile(l, x, y),
{
    assert forall|l: LayerKind, x: int, y: int| level.in_bounds(x, y) implies #[trigger] new.tile(
        l,
        x,
        y,
    ) == level.tile(l, x, y) by {
        if l == layer {
            if sel.contains(x, y) {
                let dx = x - sel.x;
                let dy = y - sel.y;
                assert(c.tiles[dy * sel.width + dx] == tile_or_zero(level, layer, sel.x + dx, sel.y + dy));
            }
        } else {
            assert(new.cells(l) == level.cells(l));
        }
    }
}

} // verus!
