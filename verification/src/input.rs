use crate::key::Key;
use crate::node::InputType;
use crate::style::{spans, styled, Span, SpanView, Style};
use crate::terminal::{
    clip16, display_width, draws, minus, repeat_draws, text_width, DrawView, Terminal,
};
use crate::text::{pop_char, push_char};
use vstd::prelude::*;
use vstd::string::*;

verus! {

/// The dialog that asks for a line of text or for a number.
#[derive(Debug)]
pub struct Input<'a> {
    pub input_type: &'a InputType,
    pub prompt: String,
}

/// What the dialog does after a key.
#[derive(Debug, Clone, Copy, PartialEq, Eq)]
pub enum InputAction {
    /// The text changed: show it again.
    Redraw,
    /// The key does nothing here.
    Ignore,
    /// The text is no number that can be used: say so and go on editing.
    Invalid,
    /// The dialog ends with the text typed.
    Submit,
    /// The dialog ends without a text.
    Cancel,
}

/// A decimal digit.
pub open spec fn is_digit(c: char) -> bool {
    '0' <= c <= '9'
}

/// What the dialog lets through for a number: digits, with a minus sign
/// allowed in front.
pub open spec fn number_text(text: Seq<char>) -> bool {
    forall|i: int| 0 <= i < text.len() ==> is_digit(#[trigger] text[i]) || (i == 0 && text[i] == '-')
}

/// The number that a run of digits denotes in base ten, 0 for none.
pub open spec fn digits_value(digits: Seq<char>) -> int
    decreases digits.len(),
{
    if digits.len() == 0 {
        0
    } else {
        digits_value(digits.drop_last()) * 10 + (digits.last() as int - '0' as int)
    }
}

/// The number that `text` denotes: digits, or a minus sign and digits; none
/// where there is no digit.
pub open spec fn number_value(text: Seq<char>) -> Option<int> {
    if text.len() == 0 {
        None
    } else if text[0] == '-' {
        if text.len() == 1 {
            None
        } else {
            Some(-digits_value(text.skip(1)))
        }
    } else {
        Some(digits_value(text))
    }
}

/// `text` denotes a number that a 32-bit signed integer holds.
pub open spec fn fits_i32(text: Seq<char>) -> bool {
    number_value(text) matches Some(value) && i32::MIN <= value <= i32::MAX
}

/// Whether a character may be typed behind `typed` in a dialog of this kind:
/// anything into a text; into a number a digit, or a minus sign in front.
pub open spec fn accepted(kind: InputType, typed: Seq<char>, c: char) -> bool {
    match kind {
        InputType::Text => true,
        InputType::Number => is_digit(c) || (c == '-' && typed.len() == 0),
    }
}

/// What a key does to the text typed so far, and what the dialog does next.
pub open spec fn after_key(
    kind: InputType,
    before: Seq<char>,
    key: Key,
    after: Seq<char>,
    action: InputAction,
) -> bool {
    match key {
        Key::Enter => after == before && action == (if kind == InputType::Number {
            if before.len() == 0 {
                InputAction::Cancel
            } else if number_text(before) && fits_i32(before) {
                InputAction::Submit
            } else {
                InputAction::Invalid
            }
        } else {
            InputAction::Submit
        }),
        Key::Esc => after == before && action == InputAction::Cancel,
        Key::Char(c) => if accepted(kind, before, c) {
            after == before.push(c) && action == InputAction::Redraw
        } else {
            after == before && action == InputAction::Ignore
        },
        Key::Backspace => if before.len() > 0 {
            after == before.drop_last() && action == InputAction::Redraw
        } else {
            after == before && action == InputAction::Ignore
        },
        _ => after == before && action == InputAction::Ignore,
    }
}

/// The line of the dialog: the prompt in cyan and the text typed.
pub open spec fn input_line(prompt: Seq<char>, typed: Seq<char>) -> Seq<SpanView> {
    seq![styled(Style::Cyan, prompt), styled(Style::Plain, typed)]
}

/// The line below a dialog that says how to leave it.
pub open spec fn cancel_hint() -> Seq<SpanView> {
    seq![
        styled(Style::Plain, seq!['\u{f12b7}', ' ', ' ']),
        styled(Style::DarkGrey, "cancel"@),
    ]
}

/// The dialog as it is drawn: the line with the prompt and the text, empty
/// lines down to the hint, the hint centred, the bottom border, and the
/// cursor behind the text.
pub open spec fn input_draws(terminal: Terminal, prompt: Seq<char>, typed: Seq<char>) -> Seq<
    DrawView,
> {
    let rows = minus(terminal.tui_height as int, if terminal.border {
        2
    } else {
        0
    });
    let edge: int = if terminal.border {
        1
    } else {
        0
    };
    terminal.clear_draws() + terminal.line_draws(input_line(prompt, typed)) + repeat_draws(
        terminal.empty_line_draws(),
        minus(rows as int, 3) + 1,
    ) + terminal.centred_draws(cancel_hint()) + terminal.bottom_border_draws() + seq![
        DrawView::MoveTo(
            clip16(edge + display_width(prompt) + 1 + display_width(typed)),
            clip16(terminal.start_row + edge),
        ),
    ]
}

/// `str::parse::<i32>`, asked whether it succeeds, on a text of digits with
/// at most a minus sign in front: it does when there is a digit and the
/// number is one a 32-bit signed integer holds.
#[verifier::external_body]
pub(crate) fn parses_as_i32(text: &str) -> (ok: bool)
    requires
        number_text(text@),
    ensures
        ok == fits_i32(text@),
{
    text.parse::<i32>().is_ok()
}

/// The line that says how to leave a dialog.
pub fn hint_line() -> (line: Vec<Span>)
    ensures
        spans(line@) == cancel_hint(),
{
    let mut line: Vec<Span> = Vec::new();
    proof {
        reveal_strlit("\u{f12b7}  ");
        assert("\u{f12b7}  "@ =~= seq!['\u{f12b7}', ' ', ' ']);
    }
    line.push(Span::new(Style::Plain, "\u{f12b7}  "));
    line.push(Span::new(Style::DarkGrey, "cancel"));
    proof {
        assert(spans(line@) =~= cancel_hint());
    }
    line
}

/// The column of the cursor behind a prompt and a text of the given widths
/// that start `edge` columns in, with one column between what is drawn and
/// the cursor; kept within the columns that a terminal can have.
pub fn column_behind(edge: usize, prompt_width: usize, text_width: usize) -> (column: u16)
    ensures
        column == clip16(edge + prompt_width + 1 + text_width),
{
    let limit: usize = 0xffff;
    if edge > limit || prompt_width > limit || text_width > limit {
        return u16::MAX;
    }
    let sum: usize = edge + prompt_width + 1 + text_width;
    if sum > limit {
        u16::MAX
    } else {
        sum as u16
    }
}

/// The row of the first line of content: the first row of the area, or the
/// one below the top border.
pub fn row_below(start_row: u16, border: bool) -> (row: u16)
    ensures
        row == clip16(start_row + (if border {
            1int
        } else {
            0int
        })),
{
    if border {
        if start_row < u16::MAX {
            start_row + 1
        } else {
            u16::MAX
        }
    } else {
        start_row
    }
}

/// Whether `text` holds digits only, behind at most a minus sign.
pub(crate) fn is_number_text(text: &str) -> (ok: bool)
    ensures
        ok == number_text(text@),
{
    let count = text.unicode_len();
    let mut i: usize = 0;
    while i < count
        invariant
            i <= count,
            count == text@.len(),
            number_text(text@.take(i as int)),
        decreases count - i,
    {
        let c = text.get_char(i);
        if !(('0' <= c && c <= '9') || (i == 0 && c == '-')) {
            return false;
        }
        proof {
            let longer = text@.take(i + 1);
            assert forall|k: int| 0 <= k < longer.len() implies is_digit(#[trigger] longer[k]) || (k
                == 0 && longer[k] == '-') by {
                if k < i {
                    assert(text@.take(i as int)[k] == longer[k]);
                }
            }
        }
        i += 1;
    }
    proof {
        assert(text@.take(i as int) =~= text@);
    }
    true
}

impl<'a> Input<'a> {
    /// A dialog of the given kind that asks for `name`.
    pub fn new(input_type: &'a InputType, name: &str) -> (dialog: Input<'a>)
        ensures
            dialog.input_type == input_type,
            dialog.prompt@ == "Enter "@ + name@ + ": "@,
    {
        Input { input_type, prompt: String::from_str("Enter ").concat(name).concat(": ") }
    }

    /// Draws the dialog with the text typed so far.
    pub fn render(&self, terminal: &mut Terminal, input: &str)
        ensures
            old(terminal).drew(final(terminal), input_draws(*old(terminal), self.prompt@, input@)),
    {
        let ghost start = draws(terminal.out@);
        terminal.clear_screen();
        let mut line: Vec<Span> = Vec::new();
        line.push(Span { style: Style::Cyan, text: self.prompt.clone() });
        line.push(Span::new(Style::Plain, input));
        proof {
            assert(spans(line@) =~= input_line(self.prompt@, input@));
        }
        terminal.write_line(line.as_slice());
        let content_rows = terminal.get_content_rows();
        let filler_lines: usize = if content_rows >= 3 {
            content_rows - 3
        } else {
            0
        };
        terminal.empty_border_lines(filler_lines);
        terminal.empty_border_line();
        let hint = hint_line();
        terminal.write_centered(hint.as_slice());
        terminal.draw_bottom_border();
        let edge: usize = if terminal.has_border() {
            1
        } else {
            0
        };
        let column = column_behind(edge, text_width(self.prompt.as_str()), text_width(input));
        let row = row_below(terminal.get_start_row(), terminal.has_border());
        terminal.move_cursor_to(column, row);
        proof {
            let block = old(terminal).empty_line_draws();
            assert(repeat_draws(block, filler_lines as nat) + block =~= repeat_draws(
                block,
                (filler_lines + 1) as nat,
            ));
            assert(draws(terminal.out@) =~= start + input_draws(
                *old(terminal),
                self.prompt@,
                input@,
            ));
        }
    }

    /// Applies one key to the text typed so far. A number dialog that starts
    /// from an empty text never holds anything but digits behind an optional
    /// minus sign.
    pub fn handle_key(&self, typed: &mut String, key: Key) -> (action: InputAction)
        ensures
            after_key(*self.input_type, old(typed)@, key, final(typed)@, action),
            *self.input_type == InputType::Number && number_text(old(typed)@) ==> number_text(
                final(typed)@,
            ),
    {
        match key {
            Key::Enter => {
                match self.input_type {
                    InputType::Number => {
                        if typed.as_str().is_empty() {
                            InputAction::Cancel
                        } else if is_number_text(typed.as_str()) && parses_as_i32(typed.as_str()) {
                            InputAction::Submit
                        } else {
                            InputAction::Invalid
                        }
                    },
                    InputType::Text => InputAction::Submit,
                }
            },
            Key::Esc => InputAction::Cancel,
            Key::Char(c) => {
                let lets_through = match self.input_type {
                    InputType::Number => ('0' <= c && c <= '9') || (c == '-'
                        && typed.as_str().is_empty()),
                    InputType::Text => true,
                };
                if lets_through {
                    push_char(typed, c);
                    InputAction::Redraw
                } else {
                    InputAction::Ignore
                }
            },
            Key::Backspace => {
                if !typed.as_str().is_empty() {
                    let _ = pop_char(typed);
                    InputAction::Redraw
                } else {
                    InputAction::Ignore
                }
            },
            _ => InputAction::Ignore,
        }
    }
}

} // verus!
