use vstd::prelude::*;

use crate::app::{layer_name, layer_name_spec};
use crate::commands::{Command, CommandView};
use crate::level::{LayerKind, Level, LevelView, blank_view, level_error_text, LevelError};
use crate::text::{
    append_str, decimal, push_decimal, push_right_aligned, right_aligned, string_from,
};

verus! {

/// A line-oriented level editor: a level, where it is saved, and whether it has unsaved
/// changes.
pub struct Editor {
    level: Level,
    path: Option<String>,
    dirty: bool,
}

pub struct EditorView {
    pub level: LevelView,
    pub path: Option<Seq<char>>,
    pub dirty: bool,
}

impl View for Editor {
    type V = EditorView;

    closed spec fn view(&self) -> EditorView {
        EditorView {
            level: self.level@,
            path: match self.path {
                Some(p) => Some(p@),
                None => None,
            },
            dirty: self.dirty,
        }
    }
}

/// What applying a command produced. `Save` and `Open` name file work for the caller, which
/// reports back through [`Editor::finish_save`] and [`Editor::new`].
pub enum CommandOutcome {
    Message(String),
    Quit,
    /// Write the level to this path.
    Save(String),
    /// Load the level at this path.
    Open(String),
}

pub enum OutcomeView {
    Message(Seq<char>),
    Quit,
    Save(Seq<char>),
    Open(Seq<char>),
}

pub open spec fn outcome_view(o: CommandOutcome) -> OutcomeView {
    match o {
        CommandOutcome::Message(m) => OutcomeView::Message(m@),
        CommandOutcome::Quit => OutcomeView::Quit,
        CommandOutcome::Save(p) => OutcomeView::Save(p@),
        CommandOutcome::Open(p) => OutcomeView::Open(p@),
    }
}

/// The cells of row `y` of `layer`, for the first `n` columns, each right-aligned in four
/// characters.
pub open spec fn cells_text(level: LevelView, layer: LayerKind, y: int, n: nat) -> Seq<char>
    decreases n,
{
    if n == 0 {
        Seq::empty()
    } else {
        cells_text(level, layer, y, (n - 1) as nat) + right_aligned(
            level.tile(layer, n - 1, y) as nat,
            4,
        )
    }
}

/// Row `y` of `layer`: its number right-aligned in three characters and a space, then its
/// cells.
pub open spec fn row_text(level: LevelView, layer: LayerKind, y: nat) -> Seq<char> {
    right_aligned(y, 3) + " "@ + cells_text(level, layer, y as int, level.width as nat)
}

/// The first `n` rows of `layer`, each followed by a line break.
pub open spec fn rows_text(level: LevelView, layer: LayerKind, n: nat) -> Seq<char>
    decreases n,
{
    if n == 0 {
        Seq::empty()
    } else {
        rows_text(level, layer, (n - 1) as nat) + row_text(level, layer, (n - 1) as nat) + "\n"@
    }
}

/// One layer: `[name]`, then its rows.
pub open spec fn layer_text(level: LevelView, layer: LayerKind) -> Seq<char> {
    "["@ + layer_name_spec(layer) + "]\n"@ + rows_text(level, layer, level.height as nat)
}

pub open spec fn bool_text(b: bool) -> Seq<char> {
    if b {
        "true"@
    } else {
        "false"@
    }
}

/// The text that `render` shows: the path, the size, the entity count and whether there are
/// unsaved changes, then each layer, separated by blank lines.
pub open spec fn render_spec(e: EditorView) -> Seq<char> {
    "path: "@ + (match e.path {
        Some(p) => p,
        None => "<unsaved>"@,
    }) + "\n"@ + "size: "@ + decimal(e.level.width as nat) + "x"@ + decimal(e.level.height as nat)
        + " | entities: "@ + decimal(e.level.entity_count as nat) + " | dirty: "@ + bool_text(
        e.dirty,
    ) + "\n"@ + "\n"@ + layer_text(e.level, LayerKind::Ground) + "\n"@ + layer_text(
        e.level,
        LayerKind::Detail,
    ) + "\n"@ + layer_text(e.level, LayerKind::Logic)
}

pub open spec fn help_text_spec() -> Seq<char> {
    "commands:"@ + "\n"@ + "  help"@ + "\n"@ + "  show"@ + "\n"@ + "  new <width> <height> [path]"@
        + "\n"@ + "  open <path>"@ + "\n"@ + "  set <ground|detail|logic> <x> <y> <value>"@ + "\n"@
        + "  save [path]"@ + "\n"@ + "  quit"@
}

/// The list of commands, one per line.
pub fn help_text() -> (s: String)
    ensures
        s@ == help_text_spec(),
{
    let mut s = string_from("commands:");
    append_str(&mut s, "\n");
    append_str(&mut s, "  help");
    append_str(&mut s, "\n");
    append_str(&mut s, "  show");
    append_str(&mut s, "\n");
    append_str(&mut s, "  new <width> <height> [path]");
    append_str(&mut s, "\n");
    append_str(&mut s, "  open <path>");
    append_str(&mut s, "\n");
    append_str(&mut s, "  set <ground|detail|logic> <x> <y> <value>");
    append_str(&mut s, "\n");
    append_str(&mut s, "  save [path]");
    append_str(&mut s, "\n");
    append_str(&mut s, "  quit");
    s
}

/// Appends the rows of `layer` (see [`rows_text`]).
fn render_layer(s: &mut String, level: &Level, layer: LayerKind)
    requires
        level.wf(),
    ensures
        final(s)@ == old(s)@ + rows_text(level@, layer, level.height as nat),
{
    let mut y: u16 = 0;
    while y < level.height
        invariant
            0 <= y <= level.height,
            level.wf(),
            s@ == old(s)@ + rows_text(level@, layer, y as nat),
        decreases level.height - y,
    {
        let ghost before = s@;
        push_right_aligned(s, y, 3);
        append_str(s, " ");
        let ghost row_start = s@;
        let mut x: u16 = 0;
        while x < level.width
            invariant
                0 <= x <= level.width,
                0 <= y < level.height,
                level.wf(),
                s@ == row_start + cells_text(level@, layer, y as int, x as nat),
            decreases level.width - x,
        {
            let tile = match level.tile(layer, x, y) {
                Ok(v) => v,
                Err(_) => 0,
            };
            push_right_aligned(s, tile, 4);
            x = x + 1;
            proof {
                assert(s@ =~= row_start + cells_text(level@, layer, y as int, x as nat));
            }
        }
        append_str(s, "\n");
        proof {
            assert(s@ =~= old(s)@ + rows_text(level@, layer, (y + 1) as nat));
        }
        y = y + 1;
    }
}

/// The message after setting a tile.
pub open spec fn updated_text(layer: LayerKind, x: u16, y: u16, value: u16) -> Seq<char> {
    "updated "@ + layer_name_spec(layer) + "("@ + decimal(x as nat) + ", "@ + decimal(y as nat)
        + ") = "@ + decimal(value as nat)
}

/// What applying a command does to an editor: the next state and the outcome, or the error.
pub open spec fn apply_spec(e: EditorView, c: CommandView) -> (EditorView, Result<
    OutcomeView,
    Seq<char>,
>) {
    match c {
        CommandView::Help => (e, Ok(OutcomeView::Message(help_text_spec()))),
        CommandView::Show => (e, Ok(OutcomeView::Message(render_spec(e)))),
        CommandView::SetTile { layer, x, y, value } => if e.level.in_bounds(x as int, y as int) {
            (
                EditorView {
                    level: e.level.with_tile(layer, x as int, y as int, value),
                    dirty: true,
                    ..e
                },
                Ok(OutcomeView::Message(updated_text(layer, x, y, value))),
            )
        } else {
            (
                e,
                Err(
                    level_error_text(
                        LevelError::OutOfBounds {
                            x,
                            y,
                            width: e.level.width,
                            height: e.level.height,
                        },
                    ),
                ),
            )
        },
        CommandView::Save(p) => {
            let path = match p {
                Some(q) => Some(q),
                None => e.path,
            };
            match path {
                Some(q) => (EditorView { path: Some(q), ..e }, Ok(OutcomeView::Save(q))),
                None => (e, Err("no active output path; use `save <path>`"@)),
            }
        },
        CommandView::Open(p) => (e, Ok(OutcomeView::Open(p))),
        CommandView::New { width, height, path } => if width == 0 || height == 0 {
            (e, Err(level_error_text(LevelError::EmptyLevel { width, height })))
        } else {
            let fresh = EditorView { level: blank_view(width, height), path, dirty: false };
            (fresh, Ok(OutcomeView::Message(render_spec(fresh))))
        },
        CommandView::Quit => (e, Ok(OutcomeView::Quit)),
    }
}

pub open spec fn apply_result_view(r: Result<CommandOutcome, String>) -> Result<
    OutcomeView,
    Seq<char>,
> {
    match r {
        Ok(o) => Ok(outcome_view(o)),
        Err(e) => Err(e@),
    }
}

impl Editor {
    pub open spec fn wf(&self) -> bool {
        self@.level.wf()
    }

    /// An editor on `level`, saved at `path`, with no unsaved changes.
    pub fn new(level: Level, path: Option<String>) -> (e: Editor)
        requires
            level.wf(),
        ensures
            e.wf(),
            e@ == (EditorView {
                level: level@,
                path: match path {
                    Some(p) => Some(p@),
                    None => None,
                },
                dirty: false,
            }),
    {
        Editor { level, path, dirty: false }
    }

    /// An editor on a blank level; refused as [`Level::new`] refuses.
    pub fn blank(width: u16, height: u16, path: Option<String>) -> (r: Result<Editor, String>)
        ensures
            (width == 0 || height == 0) <==> r is Err,
            r matches Err(e) ==> e@ == level_error_text(LevelError::EmptyLevel { width, height }),
            r matches Ok(ed) ==> ed.wf() && ed@ == (EditorView {
                level: blank_view(width, height),
                path: match path {
                    Some(p) => Some(p@),
                    None => None,
                },
                dirty: false,
            }),
    {
        match Level::new(width, height) {
            Ok(level) => Ok(Editor::new(level, path)),
            Err(e) => Err(e.to_string()),
        }
    }

    /// The level, its path, its size and entity count, whether it has unsaved changes, and
    /// each layer's tiles (see [`render_spec`]).
    pub fn render(&self) -> (s: String)
        requires
            self.wf(),
        ensures
            s@ == render_spec(self@),
    {
        let mut s = string_from("path: ");
        match &self.path {
            Some(p) => append_str(&mut s, p.as_str()),
            None => append_str(&mut s, "<unsaved>"),
        }
        append_str(&mut s, "\n");
        append_str(&mut s, "size: ");
        push_decimal(&mut s, self.level.width as u64);
        append_str(&mut s, "x");
        push_decimal(&mut s, self.level.height as u64);
        append_str(&mut s, " | entities: ");
        push_decimal(&mut s, self.level.entity_count as u64);
        append_str(&mut s, " | dirty: ");
        if self.dirty {
            append_str(&mut s, "true");
        } else {
            append_str(&mut s, "false");
        }
        append_str(&mut s, "\n");
        append_str(&mut s, "\n");
        append_str(&mut s, "[");
        append_str(&mut s, layer_name(LayerKind::Ground));
        append_str(&mut s, "]\n");
        render_layer(&mut s, &self.level, LayerKind::Ground);
        append_str(&mut s, "\n");
        append_str(&mut s, "[");
        append_str(&mut s, layer_name(LayerKind::Detail));
        append_str(&mut s, "]\n");
        render_layer(&mut s, &self.level, LayerKind::Detail);
        append_str(&mut s, "\n");
        append_str(&mut s, "[");
        append_str(&mut s, layer_name(LayerKind::Logic));
        append_str(&mut s, "]\n");
        render_layer(&mut s, &self.level, LayerKind::Logic);
        proof {
            assert(s@ =~= render_spec(self@));
        }
        s
    }

    /// Applies a command (see [`apply_spec`]).
    pub fn apply(&mut self, command: Command) -> (r: Result<CommandOutcome, String>)
        requires
            old(self).wf(),
        ensures
            final(self).wf(),
            (final(self)@, apply_result_view(r)) == apply_spec(old(self)@, command@),
    {
        match command {
            Command::Help => Ok(CommandOutcome::Message(help_text())),
            Command::Show => Ok(CommandOutcome::Message(self.render())),
            Command::SetTile { layer, x, y, value } => {
                match self.level.set_tile(layer, x, y, value) {
                    Ok(()) => {},
                    Err(e) => {
                        return Err(e.to_string());
                    },
                }
                self.dirty = true;
                let mut m = string_from("updated ");
                append_str(&mut m, layer_name(layer));
                append_str(&mut m, "(");
                push_decimal(&mut m, x as u64);
                append_str(&mut m, ", ");
                push_decimal(&mut m, y as u64);
                append_str(&mut m, ") = ");
                push_decimal(&mut m, value as u64);
                Ok(CommandOutcome::Message(m))
            },
            Command::Save(path) => {
                match path {
                    Some(p) => {
                        self.path = Some(p);
                    },
                    None => {},
                }
                match &self.path {
                    Some(p) => Ok(CommandOutcome::Save(string_from(p.as_str()))),
                    None => Err(string_from("no active output path; use `save <path>`")),
                }
            },
            Command::Open(path) => Ok(CommandOutcome::Open(path)),
            Command::New { width, height, path } => {
                let fresh = Editor::blank(width, height, path)?;
                *self = fresh;
                Ok(CommandOutcome::Message(self.render()))
            },
            Command::Quit => Ok(CommandOutcome::Quit),
        }
    }

    /// Records that the level was written to its path, and returns the message `saved <path>`.
    pub fn finish_save(&mut self) -> (m: String)
        requires
            old(self).wf(),
        ensures
            final(self).wf(),
            old(self)@.path matches Some(p) ==> m@ == "saved "@ + p && final(self)@ == (
            EditorView { dirty: false, ..old(self)@ }),
            old(self)@.path is None ==> m@ == Seq::<char>::empty() && final(self)@ == old(self)@,
    {
        match &self.path {
            Some(p) => {
                let mut m = string_from("saved ");
                append_str(&mut m, p.as_str());
                self.dirty = false;
                m
            },
            None => String::new(),
        }
    }
}

} // verus!
