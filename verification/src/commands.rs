use vstd::prelude::*;

use crate::app::{layer_name_spec, parse_layer_spec};
use crate::level::LayerKind;
use crate::text::{
    append_str, chars_eq, chars_of, decimal, is_word, lemma_decimal_digits, lemma_parse_decimal,
    lemma_tokens_word, lemma_tokens_word_then, parse_u16_chars, parse_u16_spec, split_ws,
    string_from, string_of_all, tokens, view_tokens,
};

verus! {

/// A command of the line-oriented editor.
#[derive(Debug, PartialEq, Eq)]
pub enum Command {
    Help,
    Show,
    SetTile { layer: LayerKind, x: u16, y: u16, value: u16 },
    Save(Option<String>),
    Open(String),
    New { width: u16, height: u16, path: Option<String> },
    Quit,
}

pub enum CommandView {
    Help,
    Show,
    SetTile { layer: LayerKind, x: u16, y: u16, value: u16 },
    Save(Option<Seq<char>>),
    Open(Seq<char>),
    New { width: u16, height: u16, path: Option<Seq<char>> },
    Quit,
}

impl View for Command {
    type V = CommandView;

    open spec fn view(&self) -> CommandView {
        match self {
            Command::Help => CommandView::Help,
            Command::Show => CommandView::Show,
            Command::SetTile { layer, x, y, value } => CommandView::SetTile {
                layer: *layer,
                x: *x,
                y: *y,
                value: *value,
            },
            Command::Save(p) => CommandView::Save(
                match p {
                    Some(s) => Some(s@),
                    None => None,
                },
            ),
            Command::Open(p) => CommandView::Open(p@),
            Command::New { width, height, path } => CommandView::New {
                width: *width,
                height: *height,
                path: match path {
                    Some(s) => Some(s@),
                    None => None,
                },
            },
            Command::Quit => CommandView::Quit,
        }
    }
}

/// Why a command line was refused.
#[derive(Debug, PartialEq, Eq)]
pub struct CommandParseError {
    message: String,
}

impl View for CommandParseError {
    type V = Seq<char>;

    closed spec fn view(&self) -> Seq<char> {
        self.message@
    }
}

impl CommandParseError {
    fn new(message: String) -> (e: CommandParseError)
        ensures
            e@ == message@,
    {
        CommandParseError { message }
    }

    /// The error as text.
    pub fn to_string(&self) -> (s: String)
        ensures
            s@ == self@,
    {
        string_from(self.message.as_str())
    }
}

/// `u16::from_str`, refused with `invalid <name>: <input>`.
pub open spec fn parse_number_spec(input: Seq<char>, name: Seq<char>) -> Result<u16, Seq<char>> {
    match parse_u16_spec(input) {
        Some(v) => Ok(v),
        None => Err("invalid "@ + name + ": "@ + input),
    }
}

pub open spec fn parse_set_spec(t: Seq<Seq<char>>) -> Result<CommandView, Seq<char>> {
    match parse_layer_spec(t[1]) {
        None => Err("invalid layer: "@ + t[1] + " (expected ground, detail, or logic)"@),
        Some(layer) => match parse_number_spec(t[2], "x"@) {
            Err(e) => Err(e),
            Ok(x) => match parse_number_spec(t[3], "y"@) {
                Err(e) => Err(e),
                Ok(y) => match parse_number_spec(t[4], "value"@) {
                    Err(e) => Err(e),
                    Ok(value) => Ok(CommandView::SetTile { layer, x, y, value }),
                },
            },
        },
    }
}

pub open spec fn parse_new_size_spec(t: Seq<Seq<char>>, path: Option<Seq<char>>) -> Result<
    CommandView,
    Seq<char>,
> {
    match parse_number_spec(t[1], "width"@) {
        Err(e) => Err(e),
        Ok(width) => match parse_number_spec(t[2], "height"@) {
            Err(e) => Err(e),
            Ok(height) => Ok(CommandView::New { width, height, path }),
        },
    }
}

/// What a command line means: the first word names the command, the rest are its arguments,
/// all separated by whitespace.
pub open spec fn parse_command_spec(input: Seq<char>) -> Result<CommandView, Seq<char>> {
    let t = tokens(input);
    if t.len() == 0 {
        Err("empty command"@)
    } else {
        let name = t[0];
        if name == "help"@ {
            Ok(CommandView::Help)
        } else if name == "show"@ {
            Ok(CommandView::Show)
        } else if name == "quit"@ || name == "exit"@ {
            Ok(CommandView::Quit)
        } else if name == "save"@ {
            if t.len() == 1 {
                Ok(CommandView::Save(None))
            } else if t.len() == 2 {
                Ok(CommandView::Save(Some(t[1])))
            } else {
                Err("usage: save [path]"@)
            }
        } else if name == "open"@ {
            if t.len() == 2 {
                Ok(CommandView::Open(t[1]))
            } else {
                Err("usage: open <path>"@)
            }
        } else if name == "new"@ {
            if t.len() == 3 {
                parse_new_size_spec(t, None)
            } else if t.len() == 4 {
                parse_new_size_spec(t, Some(t[3]))
            } else {
                Err("usage: new <width> <height> [path]"@)
            }
        } else if name == "set"@ {
            if t.len() == 5 {
                parse_set_spec(t)
            } else {
                Err("usage: set <ground|detail|logic> <x> <y> <value>"@)
            }
        } else {
            Err("unknown command: "@ + name)
        }
    }
}

fn parse_number(input: &Vec<char>, name: &str) -> (r: Result<u16, CommandParseError>)
    ensures
        match parse_number_spec(input@, name@) {
            Ok(v) => r matches Ok(v2) && v2 == v,
            Err(e) => r matches Err(m) && m@ == e,
        },
{
    match parse_u16_chars(input) {
        Some(v) => Ok(v),
        None => {
            let mut m = string_from("invalid ");
            append_str(&mut m, name);
            append_str(&mut m, ": ");
            let i = string_of_all(input);
            append_str(&mut m, i.as_str());
            Err(CommandParseError::new(m))
        },
    }
}

fn parse_layer_name(input: &Vec<char>) -> (r: Result<LayerKind, CommandParseError>)
    ensures
        match parse_layer_spec(input@) {
            Some(l) => r matches Ok(l2) && l2 == l,
            None => r matches Err(m) && m@ == "invalid layer: "@ + input@
                + " (expected ground, detail, or logic)"@,
        },
{
    if chars_eq(input, "ground") {
        Ok(LayerKind::Ground)
    } else if chars_eq(input, "detail") {
        Ok(LayerKind::Detail)
    } else if chars_eq(input, "logic") {
        Ok(LayerKind::Logic)
    } else {
        let mut m = string_from("invalid layer: ");
        let i = string_of_all(input);
        append_str(&mut m, i.as_str());
        append_str(&mut m, " (expected ground, detail, or logic)");
        Err(CommandParseError::new(m))
    }
}

fn usage(text: &str) -> (r: Result<Command, CommandParseError>)
    ensures
        r matches Err(e) && e@ == text@,
{
    Err(CommandParseError::new(string_from(text)))
}

impl Command {
    /// Parses a command line (see [`parse_command_spec`]).
    pub fn parse(input: &str) -> (r: Result<Command, CommandParseError>)
        ensures
            match parse_command_spec(input@) {
                Ok(c) => r matches Ok(cmd) && cmd@ == c,
                Err(e) => r matches Err(err) && err@ == e,
            },
    {
        let chars = chars_of(input);
        let t = split_ws(&chars);
        let ghost tv = view_tokens(t@);
        proof {
            assert(tv.len() == t@.len());
            assert forall|i: int| 0 <= i < t@.len() implies #[trigger] tv[i] == t@[i]@ by {}
        }
        if t.len() == 0 {
            return usage("empty command");
        }
        let name = &t[0];
        if chars_eq(name, "help") {
            return Ok(Command::Help);
        }
        if chars_eq(name, "show") {
            return Ok(Command::Show);
        }
        if chars_eq(name, "quit") || chars_eq(name, "exit") {
            return Ok(Command::Quit);
        }
        if chars_eq(name, "save") {
            if t.len() == 1 {
                return Ok(Command::Save(None));
            } else if t.len() == 2 {
                return Ok(Command::Save(Some(string_of_all(&t[1]))));
            } else {
                return usage("usage: save [path]");
            }
        }
        if chars_eq(name, "open") {
            if t.len() == 2 {
                return Ok(Command::Open(string_of_all(&t[1])));
            } else {
                return usage("usage: open <path>");
            }
        }
        if chars_eq(name, "new") {
            if t.len() == 3 || t.len() == 4 {
                let width = parse_number(&t[1], "width")?;
                let height = parse_number(&t[2], "height")?;
                let path = if t.len() == 4 {
                    Some(string_of_all(&t[3]))
                } else {
                    None
                };
                return Ok(Command::New { width, height, path });
            } else {
                return usage("usage: new <width> <height> [path]");
            }
        }
        if chars_eq(name, "set") {
            if t.len() == 5 {
                let layer = parse_layer_name(&t[1])?;
                let x = parse_number(&t[2], "x")?;
                let y = parse_number(&t[3], "y")?;
                let value = parse_number(&t[4], "value")?;
                return Ok(Command::SetTile { layer, x, y, value });
            } else {
                return usage("usage: set <ground|detail|logic> <x> <y> <value>");
            }
        }
        let mut m = string_from("unknown command: ");
        let n = string_of_all(name);
        append_str(&mut m, n.as_str());
        Err(CommandParseError::new(m))
    }
}


/// The command names are words, distinct from each other.
proof fn lemma_command_words()
    ensures
        is_word("set"@),
        is_word("new"@),
        is_word("save"@),
        "set"@ != "help"@ && "set"@ != "show"@ && "set"@ != "quit"@ && "set"@ != "exit"@
            && "set"@ != "save"@ && "set"@ != "open"@ && "set"@ != "new"@,
        "new"@ != "help"@ && "new"@ != "show"@ && "new"@ != "quit"@ && "new"@ != "exit"@
            && "new"@ != "save"@ && "new"@ != "open"@,
        "save"@ != "help"@ && "save"@ != "show"@ && "save"@ != "quit"@ && "save"@ != "exit"@,
        "set "@ == "set"@ + seq![' '],
        "new "@ == "new"@ + seq![' '],
        "save "@ == "save"@ + seq![' '],
        " "@ == seq![' '],
{
    reveal_strlit("set");
    reveal_strlit("new");
    reveal_strlit("save");
    reveal_strlit("help");
    reveal_strlit("show");
    reveal_strlit("quit");
    reveal_strlit("exit");
    reveal_strlit("open");
    reveal_strlit("set ");
    reveal_strlit("new ");
    reveal_strlit("save ");
    reveal_strlit(" ");
    assert("set "@ =~= "set"@ + seq![' ']);
    assert("new "@ =~= "new"@ + seq![' ']);
    assert("save "@ =~= "save"@ + seq![' ']);
    assert(" "@ =~= seq![' ']);
    assert("set"@[0] != "help"@[0]);
    assert("set"@[1] != "show"@[1]);
    assert("set"@.len() != "quit"@.len());
    assert("set"@.len() != "exit"@.len());
    assert("set"@.len() != "save"@.len());
    assert("set"@.len() != "open"@.len());
    assert("set"@[0] != "new"@[0]);
    assert("new"@.len() != "help"@.len());
    assert("new"@.len() != "show"@.len());
    assert("new"@.len() != "quit"@.len());
    assert("new"@.len() != "exit"@.len());
    assert("new"@.len() != "save"@.len());
    assert("new"@.len() != "open"@.len());
    assert("save"@[0] != "help"@[0]);
    assert("save"@[1] != "show"@[1]);
    assert("save"@[0] != "quit"@[0]);
    assert("save"@[0] != "exit"@[0]);
    assert(forall|i: int| 0 <= i < 3 ==> !crate::text::is_ws(#[trigger] "set"@[i]));
    assert(forall|i: int| 0 <= i < 3 ==> !crate::text::is_ws(#[trigger] "new"@[i]));
    assert(forall|i: int| 0 <= i < 4 ==> !crate::text::is_ws(#[trigger] "save"@[i]));
}

/// A layer's name is a word, and reads back as that layer.
proof fn lemma_layer_word(layer: LayerKind)
    ensures
        is_word(layer_name_spec(layer)),
        parse_layer_spec(layer_name_spec(layer)) == Some(layer),
{
    reveal_strlit("ground");
    reveal_strlit("detail");
    reveal_strlit("logic");
    assert("detail"@ != "ground"@) by {
        assert("detail"@[0] != "ground"@[0]);
    }
    assert("logic"@ != "ground"@) by {
        assert("logic"@.len() != "ground"@.len());
    }
    assert("logic"@ != "detail"@) by {
        assert("logic"@.len() != "detail"@.len());
    }
}

/// The commands the editor prints read back as themselves: `set <layer> <x> <y> <value>`,
/// `new <width> <height>` with or without a path, and `save <path>`, each part separated by
/// one space, numbers in decimal, a path being one word.
pub proof fn law_printed_commands_parse_back(
    layer: LayerKind,
    x: u16,
    y: u16,
    value: u16,
    width: u16,
    height: u16,
    path: Seq<char>,
)
    requires
        is_word(path),
    ensures
        parse_command_spec(
            "set "@ + layer_name_spec(layer) + " "@ + decimal(x as nat) + " "@ + decimal(y as nat)
                + " "@ + decimal(value as nat),
        ) == Ok::<CommandView, Seq<char>>(CommandView::SetTile { layer, x, y, value }),
        parse_command_spec("new "@ + decimal(width as nat) + " "@ + decimal(height as nat))
            == Ok::<CommandView, Seq<char>>(CommandView::New { width, height, path: None }),
        parse_command_spec(
            "new "@ + decimal(width as nat) + " "@ + decimal(height as nat) + " "@ + path,
        ) == Ok::<CommandView, Seq<char>>(CommandView::New { width, height, path: Some(path) }),
        parse_command_spec("save "@ + path) == Ok::<CommandView, Seq<char>>(
            CommandView::Save(Some(path)),
        ),
{
    lemma_command_words();
    lemma_layer_word(layer);
    let sp = seq![' '];
    let l = layer_name_spec(layer);
    let dx = decimal(x as nat);
    let dy = decimal(y as nat);
    let dv = decimal(value as nat);
    let dw = decimal(width as nat);
    let dh = decimal(height as nat);
    lemma_decimal_digits(x as nat);
    lemma_decimal_digits(y as nat);
    lemma_decimal_digits(value as nat);
    lemma_decimal_digits(width as nat);
    lemma_decimal_digits(height as nat);
    lemma_parse_decimal(x);
    lemma_parse_decimal(y);
    lemma_parse_decimal(value);
    lemma_parse_decimal(width);
    lemma_parse_decimal(height);
    // set
    let r4 = dv;
    let r3 = dy + sp + r4;
    let r2 = dx + sp + r3;
    let r1 = l + sp + r2;
    let set_line = "set"@ + sp + r1;
    assert("set "@ + l + " "@ + dx + " "@ + dy + " "@ + dv =~= set_line);
    lemma_tokens_word(r4);
    lemma_tokens_word_then(dy, r4);
    lemma_tokens_word_then(dx, r3);
    lemma_tokens_word_then(l, r2);
    lemma_tokens_word_then("set"@, r1);
    let ts = tokens(set_line);
    assert(ts =~= seq!["set"@, l, dx, dy, dv]);
    assert(ts[0] == "set"@);
    // new without a path
    let n1 = dw + sp + dh;
    let new_line = "new"@ + sp + n1;
    assert("new "@ + dw + " "@ + dh =~= new_line);
    lemma_tokens_word(dh);
    lemma_tokens_word_then(dw, dh);
    lemma_tokens_word_then("new"@, n1);
    assert(tokens(new_line) =~= seq!["new"@, dw, dh]);
    // new with a path
    let m2 = dh + sp + path;
    let m1 = dw + sp + m2;
    let new_path_line = "new"@ + sp + m1;
    assert("new "@ + dw + " "@ + dh + " "@ + path =~= new_path_line);
    lemma_tokens_word(path);
    lemma_tokens_word_then(dh, path);
    lemma_tokens_word_then(dw, m2);
    lemma_tokens_word_then("new"@, m1);
    assert(tokens(new_path_line) =~= seq!["new"@, dw, dh, path]);
    // save
    let save_line = "save"@ + sp + path;
    assert("save "@ + path =~= save_line);
    lemma_tokens_word_then("save"@, path);
    assert(tokens(save_line) =~= seq!["save"@, path]);
}

} // verus!
