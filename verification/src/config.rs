use vstd::prelude::*;

use crate::app::{
    expand_user_path, expand_user_path_spec, layer_index_spec, layer_name_spec, opt_str_view,
};
use crate::level::LayerKind;
use crate::text::{
    all_ws, is_ws, lemma_index_of, lemma_trim_end_after, lemma_trim_of_trimmed, lemma_trim_pad,
    lemma_trim_start_before, lemma_trim_start_cut, trim_end, trim_start,
    all_ascii, append_str, chars_eq, chars_of, decimal, find_char, index_of,
    lemma_index_of_bound, lemma_utf8_len_ascii, parse_u16_chars, parse_u16_spec, push_decimal,
    slice_chars, string_from, string_of_all, trim, trim_chars, utf8_len, utf8_scan,
};

verus! {

/// A terminal colour: the terminal's own default, black, or an RGB triple.
#[derive(Clone, Copy, Debug, PartialEq, Eq, Structural)]
pub enum Color {
    Reset,
    Black,
    Rgb(u8, u8, u8),
}

/// The colours of the editor's panels, text, grid and cursor.
#[derive(Clone, Copy, Debug, PartialEq, Eq, Structural)]
pub struct UiTheme {
    pub sidebar_bg: Color,
    pub panel_border: Color,
    pub panel_text: Color,
    pub muted_text: Color,
    pub accent_text: Color,
    pub success_text: Color,
    pub warning_text: Color,
    pub error_text: Color,
    pub grid_bg: Color,
    pub tile_bg: Color,
    pub cursor_normal: Color,
    pub cursor_insert: Color,
    pub cursor_command: Color,
}

pub open spec fn default_theme() -> UiTheme {
    UiTheme {
        sidebar_bg: Color::Rgb(22, 24, 28),
        panel_border: Color::Rgb(96, 102, 112),
        panel_text: Color::Rgb(214, 217, 224),
        muted_text: Color::Rgb(142, 149, 160),
        accent_text: Color::Rgb(156, 196, 255),
        success_text: Color::Rgb(150, 204, 167),
        warning_text: Color::Rgb(230, 201, 123),
        error_text: Color::Rgb(232, 111, 111),
        grid_bg: Color::Rgb(220, 220, 220),
        tile_bg: Color::Black,
        cursor_normal: Color::Rgb(61, 110, 173),
        cursor_insert: Color::Rgb(72, 140, 87),
        cursor_command: Color::Rgb(166, 132, 58),
    }
}

impl Default for UiTheme {
    fn default() -> (t: UiTheme)
        ensures
            t == default_theme(),
    {
        UiTheme {
            sidebar_bg: Color::Rgb(22, 24, 28),
            panel_border: Color::Rgb(96, 102, 112),
            panel_text: Color::Rgb(214, 217, 224),
            muted_text: Color::Rgb(142, 149, 160),
            accent_text: Color::Rgb(156, 196, 255),
            success_text: Color::Rgb(150, 204, 167),
            warning_text: Color::Rgb(230, 201, 123),
            error_text: Color::Rgb(232, 111, 111),
            grid_bg: Color::Rgb(220, 220, 220),
            tile_bg: Color::Black,
            cursor_normal: Color::Rgb(61, 110, 173),
            cursor_insert: Color::Rgb(72, 140, 87),
            cursor_command: Color::Rgb(166, 132, 58),
        }
    }
}

/// The editor's settings: sidebar width, gaps between tiles, colours, and the image folder
/// mapped to each layer (ground, detail, logic).
#[derive(Debug)]
pub struct AppConfig {
    pub sidebar_width: u16,
    pub tile_gap_x: u16,
    pub tile_gap_y: u16,
    pub theme: UiTheme,
    pub layer_mappings: [Option<String>; 3],
}

pub struct AppConfigView {
    pub sidebar_width: u16,
    pub tile_gap_x: u16,
    pub tile_gap_y: u16,
    pub theme: UiTheme,
    pub layer_mappings: Seq<Option<Seq<char>>>,
}

pub open spec fn opt_string_view(s: Option<String>) -> Option<Seq<char>> {
    match s {
        Some(t) => Some(t@),
        None => None,
    }
}

impl View for AppConfig {
    type V = AppConfigView;

    open spec fn view(&self) -> AppConfigView {
        AppConfigView {
            sidebar_width: self.sidebar_width,
            tile_gap_x: self.tile_gap_x,
            tile_gap_y: self.tile_gap_y,
            theme: self.theme,
            layer_mappings: seq![
                opt_string_view(self.layer_mappings[0]),
                opt_string_view(self.layer_mappings[1]),
                opt_string_view(self.layer_mappings[2]),
            ],
        }
    }
}

pub open spec fn default_config() -> AppConfigView {
    AppConfigView {
        sidebar_width: 38,
        tile_gap_x: 1,
        tile_gap_y: 1,
        theme: default_theme(),
        layer_mappings: seq![None, None, None],
    }
}

impl Default for AppConfig {
    fn default() -> (c: AppConfig)
        ensures
            c@ == default_config(),
    {
        AppConfig {
            sidebar_width: 38,
            tile_gap_x: 1,
            tile_gap_y: 1,
            theme: UiTheme::default(),
            layer_mappings: [None, None, None],
        }
    }
}

fn copy_opt_string(s: &Option<String>) -> (r: Option<String>)
    ensures
        opt_string_view(r) == opt_string_view(*s),
{
    match s {
        Some(t) => Some(string_from(t.as_str())),
        None => None,
    }
}

impl AppConfig {
    /// An independent copy of the settings.
    pub fn duplicate(&self) -> (r: AppConfig)
        ensures
            r@ == self@,
    {
        AppConfig {
            sidebar_width: self.sidebar_width,
            tile_gap_x: self.tile_gap_x,
            tile_gap_y: self.tile_gap_y,
            theme: self.theme,
            layer_mappings: [
                copy_opt_string(&self.layer_mappings[0]),
                copy_opt_string(&self.layer_mappings[1]),
                copy_opt_string(&self.layer_mappings[2]),
            ],
        }
    }
}

/// Where the configuration file lives: `~/.tellus-42.conf`, expanded against `home`.
pub fn default_config_path(home: Option<&str>) -> (p: String)
    ensures
        p@ == expand_user_path_spec("~/.tellus-42.conf"@, opt_str_view(home)),
{
    expand_user_path("~/.tellus-42.conf", home)
}

// ---------------------------------------------------------------------------
// Colours: `#RRGGBB`.
// ---------------------------------------------------------------------------

/// The value of a hexadecimal digit.
pub open spec fn hex_digit(c: char) -> Option<u8> {
    if '0' <= c && c <= '9' {
        Some((c as u32 - '0' as u32) as u8)
    } else if 'a' <= c && c <= 'f' {
        Some((c as u32 - 'a' as u32 + 10) as u8)
    } else if 'A' <= c && c <= 'F' {
        Some((c as u32 - 'A' as u32 + 10) as u8)
    } else {
        None
    }
}

/// A pair of hexadecimal digits, read as one byte.
pub open spec fn hex_pair(a: char, b: char) -> Option<u8> {
    match (hex_digit(a), hex_digit(b)) {
        (Some(x), Some(y)) => Some((x * 16 + y) as u8),
        _ => None,
    }
}

/// How parsing a colour value ends.
pub enum ColorOutcome {
    Parsed(Color),
    /// Not six bytes long after an optional `#`.
    WrongLength,
    /// Six bytes long, but not six hexadecimal digits.
    BadDigits,
}

pub open spec fn strip_hash(s: Seq<char>) -> Seq<char> {
    if s.len() > 0 && s[0] == '#' {
        s.drop_first()
    } else {
        s
    }
}

/// Parsing `#RRGGBB`: after trimming and an optional `#`, exactly six hexadecimal digits,
/// read two by two. A value of another length in bytes is of the wrong length; one of six
/// bytes that are not six hexadecimal digits has bad digits.
pub open spec fn color_outcome(value: Seq<char>) -> ColorOutcome {
    let h = strip_hash(trim(value));
    if utf8_len(h) != 6 {
        ColorOutcome::WrongLength
    } else if all_ascii(h) {
        match (hex_pair(h[0], h[1]), hex_pair(h[2], h[3]), hex_pair(h[4], h[5])) {
            (Some(r), Some(g), Some(b)) => ColorOutcome::Parsed(Color::Rgb(r, g, b)),
            _ => ColorOutcome::BadDigits,
        }
    } else {
        ColorOutcome::BadDigits
    }
}

fn exec_hex_digit(c: char) -> (r: Option<u8>)
    ensures
        r == hex_digit(c),
{
    if '0' <= c && c <= '9' {
        Some((c as u32 - '0' as u32) as u8)
    } else if 'a' <= c && c <= 'f' {
        Some((c as u32 - 'a' as u32 + 10) as u8)
    } else if 'A' <= c && c <= 'F' {
        Some((c as u32 - 'A' as u32 + 10) as u8)
    } else {
        None
    }
}

fn exec_hex_pair(a: char, b: char) -> (r: Option<u8>)
    ensures
        r == hex_pair(a, b),
{
    match (exec_hex_digit(a), exec_hex_digit(b)) {
        (Some(x), Some(y)) => Some(x * 16 + y),
        _ => None,
    }
}

/// Parses a `#RRGGBB` colour value.
pub fn parse_color_value(value: &str) -> (r: ColorOutcome)
    ensures
        r == color_outcome(value@),
{
    let vc = chars_of(value);
    let t = trim_chars(&vc);
    let h = if t.len() > 0 && t[0] == '#' {
        slice_chars(&t, 1, t.len())
    } else {
        t
    };
    proof {
        if t@.len() > 0 && t@[0] == '#' {
            assert(h@ =~= t@.drop_first());
        }
        assert(h@ == strip_hash(trim(value@)));
    }
    match utf8_scan(&h, 6) {
        None => ColorOutcome::WrongLength,
        Some((len, ascii)) => {
            if len != 6 {
                return ColorOutcome::WrongLength;
            }
            if !ascii {
                return ColorOutcome::BadDigits;
            }
            proof {
                lemma_utf8_len_ascii(h@);
            }
            let r = exec_hex_pair(h[0], h[1]);
            let g = exec_hex_pair(h[2], h[3]);
            let b = exec_hex_pair(h[4], h[5]);
            match (r, g, b) {
                (Some(r), Some(g), Some(b)) => ColorOutcome::Parsed(Color::Rgb(r, g, b)),
                _ => ColorOutcome::BadDigits,
            }
        },
    }
}

// ---------------------------------------------------------------------------
// Configuration text: `key=value` lines, with `#` and `;` comments.
// ---------------------------------------------------------------------------

/// How reading a configuration ends.
pub enum ConfigOutcome {
    Parsed(AppConfigView),
    Rejected(Seq<char>),
}

pub open spec fn line_text(n: nat) -> Seq<char> {
    " on line "@ + decimal(n)
}

/// The colour slot that a key names: 0 for `sidebar_bg` through 12 for `cursor_command`.
pub open spec fn color_slot(key: Seq<char>) -> Option<nat> {
    if key == "sidebar_bg"@ {
        Some(0)
    } else if key == "panel_border"@ {
        Some(1)
    } else if key == "panel_text"@ {
        Some(2)
    } else if key == "muted_text"@ {
        Some(3)
    } else if key == "accent_text"@ {
        Some(4)
    } else if key == "success_text"@ {
        Some(5)
    } else if key == "warning_text"@ {
        Some(6)
    } else if key == "error_text"@ {
        Some(7)
    } else if key == "grid_bg"@ {
        Some(8)
    } else if key == "tile_bg"@ {
        Some(9)
    } else if key == "cursor_normal"@ {
        Some(10)
    } else if key == "cursor_insert"@ {
        Some(11)
    } else if key == "cursor_command"@ {
        Some(12)
    } else {
        None
    }
}

/// The theme with colour slot `slot` set to `c`.
pub open spec fn theme_with(t: UiTheme, slot: nat, c: Color) -> UiTheme {
    if slot == 0 {
        UiTheme { sidebar_bg: c, ..t }
    } else if slot == 1 {
        UiTheme { panel_border: c, ..t }
    } else if slot == 2 {
        UiTheme { panel_text: c, ..t }
    } else if slot == 3 {
        UiTheme { muted_text: c, ..t }
    } else if slot == 4 {
        UiTheme { accent_text: c, ..t }
    } else if slot == 5 {
        UiTheme { success_text: c, ..t }
    } else if slot == 6 {
        UiTheme { warning_text: c, ..t }
    } else if slot == 7 {
        UiTheme { error_text: c, ..t }
    } else if slot == 8 {
        UiTheme { grid_bg: c, ..t }
    } else if slot == 9 {
        UiTheme { tile_bg: c, ..t }
    } else if slot == 10 {
        UiTheme { cursor_normal: c, ..t }
    } else if slot == 11 {
        UiTheme { cursor_insert: c, ..t }
    } else {
        UiTheme { cursor_command: c, ..t }
    }
}

/// The mapping slot that a key names: 0 for `ground_images`, 1 for `detail_images`,
/// 2 for `logic_images`.
pub open spec fn mapping_slot(key: Seq<char>) -> Option<nat> {
    if key == "ground_images"@ {
        Some(0)
    } else if key == "detail_images"@ {
        Some(1)
    } else if key == "logic_images"@ {
        Some(2)
    } else {
        None
    }
}

/// Applies one `key=value` entry from line `n`.
pub open spec fn apply_entry_spec(
    c: AppConfigView,
    key: Seq<char>,
    value: Seq<char>,
    n: nat,
    home: Option<Seq<char>>,
) -> ConfigOutcome {
    if key == "sidebar_width"@ || key == "tile_gap_x"@ || key == "tile_gap_y"@ {
        match parse_u16_spec(value) {
            Some(v) => ConfigOutcome::Parsed(
                if key == "sidebar_width"@ {
                    AppConfigView { sidebar_width: v, ..c }
                } else if key == "tile_gap_x"@ {
                    AppConfigView { tile_gap_x: v, ..c }
                } else {
                    AppConfigView { tile_gap_y: v, ..c }
                },
            ),
            None => ConfigOutcome::Rejected(
                "invalid integer for "@ + key + line_text(n) + ": "@ + value,
            ),
        }
    } else if mapping_slot(key) is Some {
        ConfigOutcome::Parsed(
            AppConfigView {
                layer_mappings: c.layer_mappings.update(
                    mapping_slot(key)->0 as int,
                    Some(expand_user_path_spec(value, home)),
                ),
                ..c
            },
        )
    } else if color_slot(key) is Some {
        match color_outcome(value) {
            ColorOutcome::Parsed(col) => ConfigOutcome::Parsed(
                AppConfigView { theme: theme_with(c.theme, color_slot(key)->0, col), ..c },
            ),
            ColorOutcome::WrongLength => ConfigOutcome::Rejected(
                "invalid color for "@ + key + line_text(n) + ": expected #RRGGBB"@,
            ),
            ColorOutcome::BadDigits => ConfigOutcome::Rejected(
                "invalid color for "@ + key + line_text(n) + ": "@ + value,
            ),
        }
    } else {
        ConfigOutcome::Rejected("unknown config key"@ + line_text(n) + ": "@ + key)
    }
}

/// One line of configuration (line number `n`): blank lines and lines starting with `#` or
/// `;` are skipped; otherwise the text before the first `=` is the key and the rest the value,
/// both trimmed.
pub open spec fn line_outcome(
    c: AppConfigView,
    raw: Seq<char>,
    n: nat,
    home: Option<Seq<char>>,
) -> ConfigOutcome {
    let line = trim(raw);
    if line.len() == 0 || line[0] == '#' || line[0] == ';' {
        ConfigOutcome::Parsed(c)
    } else {
        let e = index_of(line, '=') as int;
        if e == line.len() {
            ConfigOutcome::Rejected(
                "invalid config line "@ + decimal(n) + ": expected key=value"@,
            )
        } else {
            apply_entry_spec(c, trim(line.take(e)), trim(line.skip(e + 1)), n, home)
        }
    }
}

/// Reading the lines of `rest`, the first of them numbered `n`, onto `c`.
pub open spec fn config_outcome_from(
    rest: Seq<char>,
    n: nat,
    c: AppConfigView,
    home: Option<Seq<char>>,
) -> ConfigOutcome
    decreases rest.len(),
{
    let p = index_of(rest, '\n') as int;
    proof {
        lemma_index_of_bound(rest, '\n');
    }
    match line_outcome(c, rest.take(p), n, home) {
        ConfigOutcome::Parsed(c2) => if p < rest.len() {
            config_outcome_from(rest.skip(p + 1), n + 1, c2, home)
        } else {
            ConfigOutcome::Parsed(c2)
        },
        other => other,
    }
}

/// Reading a whole configuration text onto the default settings.
pub open spec fn config_outcome(content: Seq<char>, home: Option<Seq<char>>) -> ConfigOutcome {
    config_outcome_from(content, 1, default_config(), home)
}

fn message_for_key(prefix: &str, key: &Vec<char>, n: usize, middle: &str) -> (s: String)
    ensures
        s@ == prefix@ + key@ + line_text(n as nat) + middle@,
{
    let mut s = string_from(prefix);
    let k = string_of_all(key);
    append_str(&mut s, k.as_str());
    append_str(&mut s, " on line ");
    push_decimal(&mut s, n as u64);
    append_str(&mut s, middle);
    proof {
        assert(s@ =~= prefix@ + key@ + line_text(n as nat) + middle@);
    }
    s
}

/// Applies one `key=value` entry from line `n` to `config`.
fn apply_entry(
    config: &mut AppConfig,
    key: &Vec<char>,
    value: &Vec<char>,
    n: usize,
    home: Option<&str>,
) -> (r: Option<String>)
    ensures
        r is None ==> apply_entry_spec(old(config)@, key@, value@, n as nat, opt_str_view(home))
            == ConfigOutcome::Parsed(final(config)@),
        r matches Some(e) ==> apply_entry_spec(old(config)@, key@, value@, n as nat, opt_str_view(home))
            == ConfigOutcome::Rejected(e@),
        r is Some ==> final(config)@ == old(config)@,
{
    let is_w = chars_eq(key, "sidebar_width");
    let is_x = chars_eq(key, "tile_gap_x");
    let is_y = chars_eq(key, "tile_gap_y");
    if is_w || is_x || is_y {
        match parse_u16_chars(value) {
            Some(v) => {
                if is_w {
                    config.sidebar_width = v;
                } else if is_x {
                    config.tile_gap_x = v;
                } else {
                    config.tile_gap_y = v;
                }
                return None;
            },
            None => {
                let mut m = message_for_key("invalid integer for ", key, n, ": ");
                let vs = string_of_all(value);
                append_str(&mut m, vs.as_str());
                return Some(m);
            },
        }
    }
    let slot: usize = if chars_eq(key, "ground_images") {
        0
    } else if chars_eq(key, "detail_images") {
        1
    } else if chars_eq(key, "logic_images") {
        2
    } else {
        3
    };
    if slot < 3 {
        let vs = string_of_all(value);
        let path = expand_user_path(vs.as_str(), home);
        config.layer_mappings[slot] = Some(path);
        proof {
            assert(final(config)@.layer_mappings =~= old(config)@.layer_mappings.update(
                slot as int,
                Some(path@),
            ));
        }
        return None;
    }
    let cslot: usize = color_slot_of(key);
    if cslot < 13 {
        let vs = string_of_all(value);
        match parse_color_value(vs.as_str()) {
            ColorOutcome::Parsed(col) => {
                set_theme_slot(&mut config.theme, cslot, col);
                None
            },
            ColorOutcome::WrongLength => {
                let m = message_for_key("invalid color for ", key, n, ": expected #RRGGBB");
                Some(m)
            },
            ColorOutcome::BadDigits => {
                let mut m = message_for_key("invalid color for ", key, n, ": ");
                append_str(&mut m, vs.as_str());
                Some(m)
            },
        }
    } else {
        let mut m2 = string_from("unknown config key");
        append_str(&mut m2, " on line ");
        push_decimal(&mut m2, n as u64);
        append_str(&mut m2, ": ");
        let ks = string_of_all(key);
        append_str(&mut m2, ks.as_str());
        proof {
            assert(m2@ =~= "unknown config key"@ + line_text(n as nat) + ": "@ + key@);
        }
        Some(m2)
    }
}

fn color_slot_of(key: &Vec<char>) -> (r: usize)
    ensures
        r <= 13,
        r < 13 <==> color_slot(key@) is Some,
        r < 13 ==> color_slot(key@) == Some(r as nat),
{
    if chars_eq(key, "sidebar_bg") {
        0
    } else if chars_eq(key, "panel_border") {
        1
    } else if chars_eq(key, "panel_text") {
        2
    } else if chars_eq(key, "muted_text") {
        3
    } else if chars_eq(key, "accent_text") {
        4
    } else if chars_eq(key, "success_text") {
        5
    } else if chars_eq(key, "warning_text") {
        6
    } else if chars_eq(key, "error_text") {
        7
    } else if chars_eq(key, "grid_bg") {
        8
    } else if chars_eq(key, "tile_bg") {
        9
    } else if chars_eq(key, "cursor_normal") {
        10
    } else if chars_eq(key, "cursor_insert") {
        11
    } else if chars_eq(key, "cursor_command") {
        12
    } else {
        13
    }
}

fn set_theme_slot(t: &mut UiTheme, slot: usize, c: Color)
    requires
        slot < 13,
    ensures
        *final(t) == theme_with(*old(t), slot as nat, c),
{
    if slot == 0 {
        t.sidebar_bg = c;
    } else if slot == 1 {
        t.panel_border = c;
    } else if slot == 2 {
        t.panel_text = c;
    } else if slot == 3 {
        t.muted_text = c;
    } else if slot == 4 {
        t.accent_text = c;
    } else if slot == 5 {
        t.success_text = c;
    } else if slot == 6 {
        t.warning_text = c;
    } else if slot == 7 {
        t.error_text = c;
    } else if slot == 8 {
        t.grid_bg = c;
    } else if slot == 9 {
        t.tile_bg = c;
    } else if slot == 10 {
        t.cursor_normal = c;
    } else if slot == 11 {
        t.cursor_insert = c;
    } else {
        t.cursor_command = c;
    }
}


/// Applies one line of configuration (line number `n`) to `config`.
fn apply_line(config: &mut AppConfig, raw: &Vec<char>, n: usize, home: Option<&str>) -> (r: Option<
    String,
>)
    ensures
        r is None ==> line_outcome(old(config)@, raw@, n as nat, opt_str_view(home))
            == ConfigOutcome::Parsed(final(config)@),
        r matches Some(e) ==> line_outcome(old(config)@, raw@, n as nat, opt_str_view(home))
            == ConfigOutcome::Rejected(e@),
        r is Some ==> final(config)@ == old(config)@,
{
    let line = trim_chars(raw);
    if line.len() == 0 || line[0] == '#' || line[0] == ';' {
        return None;
    }
    let e = find_char(&line, 0, '=');
    proof {
        assert(line@.skip(0) =~= line@);
    }
    if e == line.len() {
        let mut m = string_from("invalid config line ");
        push_decimal(&mut m, n as u64);
        append_str(&mut m, ": expected key=value");
        return Some(m);
    }
    let key_raw = slice_chars(&line, 0, e);
    let value_raw = slice_chars(&line, e + 1, line.len());
    let key = trim_chars(&key_raw);
    let value = trim_chars(&value_raw);
    proof {
        assert(key_raw@ =~= line@.take(e as int));
        assert(value_raw@ =~= line@.skip(e + 1));
    }
    apply_entry(config, &key, &value, n, home)
}

/// Reads a configuration text onto the default settings: `key=value` lines; blank lines and
/// lines starting with `#` or `;` are skipped; `~` in image folders is expanded against
/// `home`. Reading stops at the first line in error, whose message is returned.
pub fn parse_config(content: &str, home: Option<&str>) -> (r: Result<AppConfig, String>)
    requires
        content@.len() < usize::MAX,
    ensures
        match config_outcome(content@, opt_str_view(home)) {
            ConfigOutcome::Parsed(c) => r matches Ok(cfg) && cfg@ == c,
            ConfigOutcome::Rejected(e) => r matches Err(m) && m@ == e,
        },
{
    let s = chars_of(content);
    let mut config = AppConfig::default();
    let mut i: usize = 0;
    let mut n: usize = 1;
    proof {
        assert(s@.skip(0) =~= s@);
    }
    loop
        invariant
            0 <= i <= s.len(),
            s@ == content@,
            s.len() < usize::MAX,
            1 <= n <= i + 1,
            config_outcome(content@, opt_str_view(home)) == config_outcome_from(
                s@.skip(i as int),
                n as nat,
                config@,
                opt_str_view(home),
            ),
        decreases s.len() - i,
    {
        let ghost rest = s@.skip(i as int);
        let p = find_char(&s, i, '\n');
        let raw = slice_chars(&s, i, p);
        proof {
            assert(raw@ =~= rest.take(p - i));
            lemma_index_of_bound(rest, '\n');
        }
        match apply_line(&mut config, &raw, n, home) {
            Some(e) => {
                return Err(e);
            },
            None => {},
        }
        if p == s.len() {
            return Ok(config);
        }
        proof {
            assert(rest.skip(p - i + 1) =~= s@.skip(p + 1));
        }
        i = p + 1;
        n = n + 1;
    }
}


// ---------------------------------------------------------------------------
// Laws of the configuration format.
// ---------------------------------------------------------------------------

/// Whether two readings agree on whether the text is accepted, and on the settings when it
/// is (error messages may differ).
pub open spec fn same_parse(x: ConfigOutcome, y: ConfigOutcome) -> bool {
    match (x, y) {
        (ConfigOutcome::Parsed(a), ConfigOutcome::Parsed(b)) => a == b,
        (ConfigOutcome::Rejected(_), ConfigOutcome::Rejected(_)) => true,
        _ => false,
    }
}

/// Whether `a` is a run of whole lines: empty, or ending in a line break.
pub open spec fn whole_lines(a: Seq<char>) -> bool {
    a.len() == 0 || a.last() == '\n'
}

pub open spec fn no_newline(s: Seq<char>) -> bool {
    forall|i: int| 0 <= i < s.len() ==> #[trigger] s[i] != '\n'
}

/// A line that reading skips: blank, or a comment starting with `#` or `;`.
pub open spec fn skipped_line(line: Seq<char>) -> bool {
    let t = trim(line);
    t.len() == 0 || t[0] == '#' || t[0] == ';'
}

/// What line `n` gives does not depend on its number, but for the number in an error.
proof fn lemma_line_number_free(c: AppConfigView, raw: Seq<char>, n1: nat, n2: nat, home: Option<
    Seq<char>,
>)
    ensures
        same_parse(line_outcome(c, raw, n1, home), line_outcome(c, raw, n2, home)),
{
}

proof fn lemma_numbers_free(rest: Seq<char>, n1: nat, n2: nat, c: AppConfigView, home: Option<
    Seq<char>,
>)
    ensures
        same_parse(config_outcome_from(rest, n1, c, home), config_outcome_from(rest, n2, c, home)),
    decreases rest.len(),
{
    let p = index_of(rest, '\n') as int;
    lemma_index_of_bound(rest, '\n');
    lemma_line_number_free(c, rest.take(p), n1, n2, home);
    match line_outcome(c, rest.take(p), n1, home) {
        ConfigOutcome::Parsed(c2) => {
            if p < rest.len() {
                lemma_numbers_free(rest.skip(p + 1), n1 + 1, n2 + 1, c2, home);
            }
        },
        _ => {},
    }
}

/// The first line of `a + t`, when `a` is a run of whole lines that is not empty, is the
/// first line of `a`, and what follows it is the rest of `a`, then `t`.
proof fn lemma_first_line(a: Seq<char>, t: Seq<char>) -> (p: int)
    requires
        a.len() > 0,
        whole_lines(a),
    ensures
        0 <= p < a.len(),
        p == index_of(a, '\n'),
        index_of(a + t, '\n') == p,
        (a + t).take(p) == a.take(p),
        (a + t).skip(p + 1) == a.skip(p + 1) + t,
        whole_lines(a.skip(p + 1)),
        p < (a + t).len(),
{
    lemma_index_of_bound(a, '\n');
    let p = index_of(a, '\n') as int;
    if p == a.len() {
        // no line break before the end, yet `a` ends in one
        let q = a.len() - 1;
        assert(a[q] == '\n');
        lemma_index_first(a, '\n', q);
    }
    let s = a + t;
    lemma_index_first(a, '\n', p);
    assert forall|k: int| 0 <= k < p implies #[trigger] s[k] != '\n' by {
        assert(s[k] == a[k]);
        assert(a[k] != '\n');
    }
    assert(s[p] == a[p]);
    lemma_index_of(s, '\n', p);
    assert(s.take(p) =~= a.take(p));
    assert(s.skip(p + 1) =~= a.skip(p + 1) + t);
    if a.skip(p + 1).len() > 0 {
        assert(a.skip(p + 1).last() == a.last());
    }
    p
}

/// Nothing before the first `c` is `c`, and the first `c` comes no later than any `c`.
proof fn lemma_index_first(s: Seq<char>, c: char, q: int)
    requires
        0 <= q < s.len(),
        s[q] == c,
    ensures
        index_of(s, c) <= q,
        forall|k: int| 0 <= k < index_of(s, c) ==> #[trigger] s[k] != c,
    decreases s.len(),
{
    if s[0] != c {
        let t = s.drop_first();
        assert(t[q - 1] == s[q]);
        lemma_index_first(t, c, q - 1);
        assert forall|k: int| 0 <= k < index_of(s, c) implies #[trigger] s[k] != c by {
            if k > 0 {
                assert(s[k] == t[k - 1]);
            }
        }
    }
}

proof fn lemma_skipped_line_first(line: Seq<char>, b: Seq<char>, m: nat, d: AppConfigView, home: Option<
    Seq<char>,
>)
    requires
        no_newline(line),
        skipped_line(line),
    ensures
        same_parse(
            config_outcome_from(line + seq!['\n'] + b, m, d, home),
            config_outcome_from(b, m, d, home),
        ),
{
    let s = line + seq!['\n'] + b;
    let p = line.len() as int;
    assert forall|k: int| 0 <= k < p implies #[trigger] s[k] != '\n' by {
        assert(s[k] == line[k]);
    }
    assert(s[p] == '\n');
    lemma_index_of(s, '\n', p);
    assert(s.take(p) =~= line);
    assert(s.skip(p + 1) =~= b);
    lemma_numbers_free(b, m + 1, m, d, home);
}

proof fn lemma_skipped_line_after(
    a: Seq<char>,
    line: Seq<char>,
    b: Seq<char>,
    n: nat,
    c: AppConfigView,
    home: Option<Seq<char>>,
)
    requires
        whole_lines(a),
        no_newline(line),
        skipped_line(line),
    ensures
        same_parse(
            config_outcome_from(a + (line + seq!['\n'] + b), n, c, home),
            config_outcome_from(a + b, n, c, home),
        ),
    decreases a.len(),
{
    if a.len() == 0 {
        assert(a + (line + seq!['\n'] + b) =~= line + seq!['\n'] + b);
        assert(a + b =~= b);
        lemma_skipped_line_first(line, b, n, c, home);
    } else {
        let t1 = line + seq!['\n'] + b;
        let p = lemma_first_line(a, t1);
        let q = lemma_first_line(a, b);
        match line_outcome(c, a.take(p), n, home) {
            ConfigOutcome::Parsed(c2) => {
                lemma_skipped_line_after(a.skip(p + 1), line, b, n + 1, c2, home);
            },
            _ => {},
        }
    }
}

/// Inserting a blank line or a comment line (one whose trimmed text is empty or starts with
/// `#` or `;`) between the lines of a configuration text changes neither whether it is
/// accepted nor the settings it reads to; only the line numbers in an error can move.
pub proof fn law_config_skips_blank_and_comment_lines(
    a: Seq<char>,
    line: Seq<char>,
    b: Seq<char>,
    home: Option<Seq<char>>,
)
    requires
        whole_lines(a),
        no_newline(line),
        skipped_line(line),
    ensures
        same_parse(
            config_outcome(a + line + seq!['\n'] + b, home),
            config_outcome(a + b, home),
        ),
{
    lemma_skipped_line_after(a, line, b, 1, default_config(), home);
    assert(a + line + seq!['\n'] + b =~= a + (line + seq!['\n'] + b));
}

/// An entry written with spaces around its key, its `=` and its value reads as the entry
/// written without them.
proof fn lemma_padded_entry(
    c: AppConfigView,
    s1: Seq<char>,
    key: Seq<char>,
    s2: Seq<char>,
    s3: Seq<char>,
    value: Seq<char>,
    s4: Seq<char>,
    n: nat,
    home: Option<Seq<char>>,
)
    requires
        all_ws(s1),
        all_ws(s2),
        all_ws(s3),
        all_ws(s4),
        forall|i: int| 0 <= i < key.len() ==> #[trigger] key[i] != '=',
    ensures
        line_outcome(c, s1 + key + s2 + seq!['='] + s3 + value + s4, n, home) == line_outcome(
            c,
            key + seq!['='] + value,
            n,
            home,
        ),
{
    let x = key + s2;
    let y = s3 + value;
    let eq = seq!['='];
    let m = x + eq + y;
    let padded = s1 + key + s2 + eq + s3 + value + s4;
    assert(padded =~= s1 + m + s4);
    lemma_trim_pad(s1, m, s4);
    // trim(m) == trim_start(x) + "=" + trim_end(y)
    assert(!is_ws(('=' as char)));
    lemma_trim_start_before(x, eq + y);
    assert(x + (eq + y) =~= m);
    let tx = trim_start(x);
    lemma_trim_end_after(tx + eq, y);
    assert(tx + (eq + y) =~= (tx + eq) + y);
    let line_p = tx + eq + trim_end(y);
    assert(trim(m) == line_p);
    // the same for the entry without spaces
    let q = key + eq + value;
    lemma_trim_start_before(key, eq + value);
    assert(key + (eq + value) =~= q);
    let tk = trim_start(key);
    lemma_trim_end_after(tk + eq, value);
    assert(tk + (eq + value) =~= (tk + eq) + value);
    let line_q = tk + eq + trim_end(value);
    assert(trim(q) == line_q);
    // neither part before the `=` holds one
    let i = lemma_trim_start_cut(x);
    assert forall|k: int| 0 <= k < tx.len() implies #[trigger] tx[k] != '=' by {
        assert(tx[k] == x[k + i]);
        if k + i < key.len() {
            assert(x[k + i] == key[k + i]);
        } else {
            assert(x[k + i] == s2[k + i - key.len()]);
            assert(is_ws(s2[k + i - key.len()]));
        }
    }
    let i2 = lemma_trim_start_cut(key);
    assert forall|k: int| 0 <= k < tk.len() implies #[trigger] tk[k] != '=' by {
        assert(tk[k] == key[k + i2]);
    }
    assert(line_p[tx.len() as int] == '=');
    assert forall|k: int| 0 <= k < tx.len() implies #[trigger] line_p[k] != '=' by {
        assert(line_p[k] == tx[k]);
    }
    lemma_index_of(line_p, '=', tx.len() as int);
    assert(line_q[tk.len() as int] == '=');
    assert forall|k: int| 0 <= k < tk.len() implies #[trigger] line_q[k] != '=' by {
        assert(line_q[k] == tk[k]);
    }
    lemma_index_of(line_q, '=', tk.len() as int);
    assert(line_p.take(tx.len() as int) =~= tx);
    assert(line_p.skip(tx.len() as int + 1) =~= trim_end(y));
    assert(line_q.take(tk.len() as int) =~= tk);
    assert(line_q.skip(tk.len() as int + 1) =~= trim_end(value));
    // the key and the value trim to the same text
    lemma_trim_of_trimmed(x);
    lemma_trim_pad(Seq::<char>::empty(), key, s2);
    assert(Seq::<char>::empty() + key + s2 =~= x);
    lemma_trim_of_trimmed(key);
    lemma_trim_of_trimmed(y);
    lemma_trim_pad(s3, value, Seq::<char>::empty());
    assert(s3 + value + Seq::<char>::empty() =~= y);
    lemma_trim_of_trimmed(value);
    // both lines start alike: with the key's first character, or with the `=`
    if all_ws(key) {
        assert forall|k: int| 0 <= k < x.len() implies is_ws(#[trigger] x[k]) by {
            if k < key.len() {
                assert(x[k] == key[k]);
            } else {
                assert(x[k] == s2[k - key.len()]);
            }
        }
        crate::text::lemma_trim_start_all_ws(x);
        crate::text::lemma_trim_start_all_ws(key);
        assert(line_p[0] == '=');
        assert(line_q[0] == '=');
    } else {
        crate::text::lemma_trim_start_append(key, s2);
        assert(tk.len() > 0) by {
            if tk.len() == 0 {
                assert(i2 == key.len());
                assert forall|k: int| 0 <= k < key.len() implies is_ws(#[trigger] key[k]) by {
                    assert(key.take(i2)[k] == key[k]);
                }
            }
        }
        assert(tx == tk + s2);
        assert(line_p[0] == tk[0]);
        assert(line_q[0] == tk[0]);
    }
}

proof fn lemma_padded_line_first(
    s1: Seq<char>,
    key: Seq<char>,
    s2: Seq<char>,
    s3: Seq<char>,
    value: Seq<char>,
    s4: Seq<char>,
    b: Seq<char>,
    m: nat,
    d: AppConfigView,
    home: Option<Seq<char>>,
)
    requires
        all_ws(s1) && no_newline(s1),
        all_ws(s2) && no_newline(s2),
        all_ws(s3) && no_newline(s3),
        all_ws(s4) && no_newline(s4),
        forall|i: int| 0 <= i < key.len() ==> #[trigger] key[i] != '=',
        no_newline(key),
        no_newline(value),
        b.len() == 0 || b[0] == '\n',
    ensures
        config_outcome_from(s1 + key + s2 + seq!['='] + s3 + value + s4 + b, m, d, home)
            == config_outcome_from(key + seq!['='] + value + b, m, d, home),
{
    let pl = s1 + key + s2 + seq!['='] + s3 + value + s4;
    let ql = key + seq!['='] + value;
    assert(no_newline(pl)) by {
        assert forall|i: int| 0 <= i < pl.len() implies #[trigger] pl[i] != '\n' by {
            let o1 = s1.len() as int;
            let o2 = o1 + key.len();
            let o3 = o2 + s2.len();
            let o4 = o3 + 1;
            let o5 = o4 + s3.len();
            let o6 = o5 + value.len();
            if i < o1 {
                assert(pl[i] == s1[i]);
            } else if i < o2 {
                assert(pl[i] == key[i - o1]);
            } else if i < o3 {
                assert(pl[i] == s2[i - o2]);
            } else if i < o4 {
                assert(pl[i] == '=');
            } else if i < o5 {
                assert(pl[i] == s3[i - o4]);
            } else if i < o6 {
                assert(pl[i] == value[i - o5]);
            } else {
                assert(pl[i] == s4[i - o6]);
            }
        }
    }
    assert(no_newline(ql)) by {
        assert forall|i: int| 0 <= i < ql.len() implies #[trigger] ql[i] != '\n' by {
            if i < key.len() {
                assert(ql[i] == key[i]);
            } else if i == key.len() {
                assert(ql[i] == '=');
            } else {
                assert(ql[i] == value[i - key.len() - 1]);
            }
        }
    }
    lemma_line_then(pl, b);
    lemma_line_then(ql, b);
    lemma_padded_entry(d, s1, key, s2, s3, value, s4, m, home);
}

/// A line without a break, then text that is empty or starts with a break: the first line is
/// the line, and what follows the break is the rest of the text.
proof fn lemma_line_then(line: Seq<char>, b: Seq<char>)
    requires
        no_newline(line),
        b.len() == 0 || b[0] == '\n',
    ensures
        index_of(line + b, '\n') == line.len(),
        (line + b).take(line.len() as int) == line,
        b.len() > 0 ==> (line + b).skip(line.len() as int + 1) == b.skip(1),
{
    let s = line + b;
    assert forall|k: int| 0 <= k < line.len() implies #[trigger] s[k] != '\n' by {
        assert(s[k] == line[k]);
    }
    if b.len() > 0 {
        assert(s[line.len() as int] == b[0]);
    }
    lemma_index_of(s, '\n', line.len() as int);
    assert(s.take(line.len() as int) =~= line);
    if b.len() > 0 {
        assert(s.skip(line.len() as int + 1) =~= b.skip(1));
    }
}

proof fn lemma_padded_line_after(
    a: Seq<char>,
    s1: Seq<char>,
    key: Seq<char>,
    s2: Seq<char>,
    s3: Seq<char>,
    value: Seq<char>,
    s4: Seq<char>,
    b: Seq<char>,
    n: nat,
    c: AppConfigView,
    home: Option<Seq<char>>,
)
    requires
        whole_lines(a),
        all_ws(s1) && no_newline(s1),
        all_ws(s2) && no_newline(s2),
        all_ws(s3) && no_newline(s3),
        all_ws(s4) && no_newline(s4),
        forall|i: int| 0 <= i < key.len() ==> #[trigger] key[i] != '=',
        no_newline(key),
        no_newline(value),
        b.len() == 0 || b[0] == '\n',
    ensures
        config_outcome_from(a + (s1 + key + s2 + seq!['='] + s3 + value + s4 + b), n, c, home)
            == config_outcome_from(a + (key + seq!['='] + value + b), n, c, home),
    decreases a.len(),
{
    let t1 = s1 + key + s2 + seq!['='] + s3 + value + s4 + b;
    let t2 = key + seq!['='] + value + b;
    if a.len() == 0 {
        assert(a + t1 =~= t1);
        assert(a + t2 =~= t2);
        lemma_padded_line_first(s1, key, s2, s3, value, s4, b, n, c, home);
    } else {
        let p = lemma_first_line(a, t1);
        let q = lemma_first_line(a, t2);
        match line_outcome(c, a.take(p), n, home) {
            ConfigOutcome::Parsed(c2) => {
                lemma_padded_line_after(a.skip(p + 1), s1, key, s2, s3, value, s4, b, n + 1, c2, home);
            },
            _ => {},
        }
    }
}

/// Spaces (any whitespace but a line break) around the key of an entry, around its `=` and
/// around its value change nothing of what a configuration text reads to: not the settings,
/// not which line is in error, not the message.
pub proof fn law_config_ignores_spaces_around_entries(
    a: Seq<char>,
    s1: Seq<char>,
    key: Seq<char>,
    s2: Seq<char>,
    s3: Seq<char>,
    value: Seq<char>,
    s4: Seq<char>,
    b: Seq<char>,
    home: Option<Seq<char>>,
)
    requires
        whole_lines(a),
        all_ws(s1) && no_newline(s1),
        all_ws(s2) && no_newline(s2),
        all_ws(s3) && no_newline(s3),
        all_ws(s4) && no_newline(s4),
        forall|i: int| 0 <= i < key.len() ==> #[trigger] key[i] != '=',
        no_newline(key),
        no_newline(value),
        b.len() == 0 || b[0] == '\n',
    ensures
        config_outcome(a + s1 + key + s2 + seq!['='] + s3 + value + s4 + b, home)
            == config_outcome(a + key + seq!['='] + value + b, home),
{
    lemma_padded_line_after(a, s1, key, s2, s3, value, s4, b, 1, default_config(), home);
    assert(a + s1 + key + s2 + seq!['='] + s3 + value + s4 + b =~= a + (s1 + key + s2 + seq![
        '=',
    ] + s3 + value + s4 + b));
    assert(a + key + seq!['='] + value + b =~= a + (key + seq!['='] + value + b));
}


/// The text with `line` and a line break inserted between `a` and `b`.
pub open spec fn with_line_inserted(a: Seq<char>, line: Seq<char>, b: Seq<char>) -> Seq<char> {
    a + line + seq!['\n'] + b
}

/// The entry `key=value` between `a` and `b`, with `s1` to `s4` around its key, its `=` and
/// its value.
pub open spec fn with_entry_padded(
    a: Seq<char>,
    s1: Seq<char>,
    key: Seq<char>,
    s2: Seq<char>,
    s3: Seq<char>,
    value: Seq<char>,
    s4: Seq<char>,
    b: Seq<char>,
) -> Seq<char> {
    a + s1 + key + s2 + seq!['='] + s3 + value + s4 + b
}

/// `t` is `s` with one blank or comment line inserted between two of its lines.
pub open spec fn skipped_line_inserted(s: Seq<char>, t: Seq<char>) -> bool {
    exists|a: Seq<char>, line: Seq<char>, b: Seq<char>|
        #![trigger with_line_inserted(a, line, b)]
        whole_lines(a) && no_newline(line) && skipped_line(line) && s == a + b && t
            == with_line_inserted(a, line, b)
}

/// `t` is `s` with spaces (whitespace but line breaks) added around the key, the first `=`
/// and the value of one of its entries.
pub open spec fn entry_padded(s: Seq<char>, t: Seq<char>) -> bool {
    exists|
        a: Seq<char>,
        s1: Seq<char>,
        key: Seq<char>,
        s2: Seq<char>,
        s3: Seq<char>,
        value: Seq<char>,
        s4: Seq<char>,
        b: Seq<char>,
    |
        #![trigger with_entry_padded(a, s1, key, s2, s3, value, s4, b)]
        whole_lines(a) && all_ws(s1) && no_newline(s1) && all_ws(s2) && no_newline(s2) && all_ws(
            s3,
        ) && no_newline(s3) && all_ws(s4) && no_newline(s4) && (forall|i: int|
            0 <= i < key.len() ==> #[trigger] key[i] != '=') && no_newline(key) && no_newline(value)
            && (b.len() == 0 || b[0] == '\n') && s == a + key + seq!['='] + value + b && t
            == with_entry_padded(a, s1, key, s2, s3, value, s4, b)
}

/// One edit that reading a configuration ignores.
pub open spec fn ignored_edit(s: Seq<char>, t: Seq<char>) -> bool {
    skipped_line_inserted(s, t) || entry_padded(s, t)
}

/// Any number of blank or comment lines inserted anywhere between lines, and any spaces
/// added around keys, their first `=` and values, one edit after another, change neither
/// whether a configuration text is accepted nor the settings it reads to.
pub proof fn law_config_ignores_blank_lines_comments_and_spaces(
    texts: Seq<Seq<char>>,
    home: Option<Seq<char>>,
)
    requires
        texts.len() > 0,
        forall|i: int| 0 <= i < texts.len() - 1 ==> ignored_edit(#[trigger] texts[i], texts[i + 1]),
    ensures
        same_parse(config_outcome(texts.last(), home), config_outcome(texts[0], home)),
    decreases texts.len(),
{
    if texts.len() > 1 {
        let prior = texts.drop_last();
        assert forall|i: int| 0 <= i < prior.len() - 1 implies ignored_edit(
            #[trigger] prior[i],
            prior[i + 1],
        ) by {
            assert(prior[i] == texts[i]);
            assert(prior[i + 1] == texts[i + 1]);
            assert(ignored_edit(texts[i], texts[i + 1]));
        }
        law_config_ignores_blank_lines_comments_and_spaces(prior, home);
        let s = texts[texts.len() - 2];
        let t = texts.last();
        assert(ignored_edit(texts[texts.len() - 2], texts[texts.len() - 1]));
        if skipped_line_inserted(s, t) {
            let (a, line, b) = choose|a: Seq<char>, line: Seq<char>, b: Seq<char>|
                #![trigger with_line_inserted(a, line, b)]
                whole_lines(a) && no_newline(line) && skipped_line(line) && s == a + b && t
                    == with_line_inserted(a, line, b);
            law_config_skips_blank_and_comment_lines(a, line, b, home);
        } else {
            let (a, s1, key, s2, s3, value, s4, b) = choose|
                a: Seq<char>,
                s1: Seq<char>,
                key: Seq<char>,
                s2: Seq<char>,
                s3: Seq<char>,
                value: Seq<char>,
                s4: Seq<char>,
                b: Seq<char>,
            |
                #![trigger with_entry_padded(a, s1, key, s2, s3, value, s4, b)]
                whole_lines(a) && all_ws(s1) && no_newline(s1) && all_ws(s2) && no_newline(s2)
                    && all_ws(s3) && no_newline(s3) && all_ws(s4) && no_newline(s4) && (forall|
                    i: int,
                | 0 <= i < key.len() ==> #[trigger] key[i] != '=') && no_newline(key)
                    && no_newline(value) && (b.len() == 0 || b[0] == '\n') && s == a + key
                    + seq!['='] + value + b && t == with_entry_padded(a, s1, key, s2, s3, value, s4, b);
            law_config_ignores_spaces_around_entries(a, s1, key, s2, s3, value, s4, b, home);
        }
        assert(prior.last() == s);
    }
}


/// `<layer>_images` (`ground_images`, `detail_images`, `logic_images`) sets the image folder
/// of that layer, in the slot the layer's mapping request is read from, and nothing else.
pub proof fn law_image_keys_set_their_layer(
    c: AppConfigView,
    layer: LayerKind,
    value: Seq<char>,
    n: nat,
    home: Option<Seq<char>>,
)
    ensures
        apply_entry_spec(c, layer_name_spec(layer) + "_images"@, value, n, home)
            == ConfigOutcome::Parsed(
            AppConfigView {
                layer_mappings: c.layer_mappings.update(
                    layer_index_spec(layer),
                    Some(expand_user_path_spec(value, home)),
                ),
                ..c
            },
        ),
{
    reveal_strlit("ground");
    reveal_strlit("detail");
    reveal_strlit("logic");
    reveal_strlit("_images");
    reveal_strlit("ground_images");
    reveal_strlit("detail_images");
    reveal_strlit("logic_images");
    reveal_strlit("sidebar_width");
    reveal_strlit("tile_gap_x");
    reveal_strlit("tile_gap_y");
    let key = layer_name_spec(layer) + "_images"@;
    match layer {
        LayerKind::Ground => {
            assert(key =~= "ground_images"@);
        },
        LayerKind::Detail => {
            assert(key =~= "detail_images"@);
            assert("detail_images"@[0] != "ground_images"@[0]);
        },
        LayerKind::Logic => {
            assert(key =~= "logic_images"@);
            assert("logic_images"@.len() != "ground_images"@.len());
            assert("logic_images"@.len() != "detail_images"@.len());
        },
    }
    assert(key[0] != "sidebar_width"@[0]);
    assert(key.len() != "tile_gap_x"@.len());
    assert(key.len() != "tile_gap_y"@.len());
}

} // verus!
