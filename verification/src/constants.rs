use crate::style::{spans, styled, Span, SpanView, Style};
use vstd::prelude::*;
use vstd::string::*;

verus! {

/// Name under which configuration and data are kept.
pub const PREFIX: &'static str = "which-cmd";

/// Name of the configuration file inside the configuration directory.
pub const CONFIG_FILE_NAME: &'static str = "commands.yml";

/// Name of the file in which a finished command is left for the shell.
pub const OUTPUT_FILE_NAME: &'static str = "out";

/// Key of the node that stands for an entry picked from a list of choices.
pub const CHOICE_KEY: &'static str = "[choice]";

/// Key of the node that stands for text typed into a prompt.
pub const INPUT_KEY: &'static str = "[input]";

/// Marker put in front of a command that is to be run at once.
pub const IMMEDIATE_PREFIX: &'static str = "__IMMEDIATE__";

/// Default height of the menu's content area, borders not counted.
pub const DEFAULT_HEIGHT: usize = 10;

/// How long a notice stays on screen, in milliseconds.
pub const ERROR_DISPLAY_DURATION_MS: u64 = 750;

/// The line at the foot of the menu that names the keys to close it and to
/// go back.
pub open spec fn help_spans() -> Seq<SpanView> {
    seq![
        styled(Style::Plain, seq!['\u{f12b7}', ' ', ' ']),
        styled(Style::DarkGrey, "close"@),
        styled(Style::Plain, seq![' ', ' ', '\u{f006e}', ' ', ' ']),
        styled(Style::DarkGrey, "back"@),
    ]
}

/// Help text shown at the foot of the menu.
pub fn help_text() -> (line: Vec<Span>)
    ensures
        spans(line@) == help_spans(),
{
    let mut line: Vec<Span> = Vec::new();
    proof {
        reveal_strlit("\u{f12b7}  ");
        assert("\u{f12b7}  "@ =~= seq!['\u{f12b7}', ' ', ' ']);
        reveal_strlit("  \u{f006e}  ");
        assert("  \u{f006e}  "@ =~= seq![' ', ' ', '\u{f006e}', ' ', ' ']);
    }
    line.push(Span::new(Style::Plain, "\u{f12b7}  "));
    line.push(Span::new(Style::DarkGrey, "close"));
    line.push(Span::new(Style::Plain, "  \u{f006e}  "));
    line.push(Span::new(Style::DarkGrey, "back"));
    proof {
        assert(spans(line@) =~= help_spans());
    }
    line
}

} // verus!
