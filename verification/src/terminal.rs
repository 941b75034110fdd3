use crate::error::{ErrorView, WhichCmdError};
use crate::input::{accepted, fits_i32, is_number_text, number_text, parses_as_i32};
use crate::key::Key;
use crate::node::InputType;
use crate::style::{plain_text, spans, styled, Span, SpanView, Style};
use crate::text::{pop_char, push_char, repeated, run_of};
use vstd::prelude::*;
use vstd::string::*;

verus! {

/// One instruction for the screen.
#[derive(Debug)]
pub enum Draw {
    /// Write the text in its style at the cursor.
    Text(Span),
    /// Put the cursor at this column and row.
    MoveTo(u16, u16),
    /// Put the cursor at this column of its row.
    MoveToColumn(u16),
    /// Move the cursor this many columns to the left.
    MoveLeft(u16),
    /// Clear from the cursor to the end of the screen.
    ClearBelow,
    /// Clear the row of the cursor.
    ClearLine,
    ShowCursor,
    HideCursor,
    /// Switch raw mode on or off.
    RawMode(bool),
}

/// A `Draw` with its text as a plain sequence of characters.
pub enum DrawView {
    Text(SpanView),
    MoveTo(u16, u16),
    MoveToColumn(u16),
    MoveLeft(u16),
    ClearBelow,
    ClearLine,
    ShowCursor,
    HideCursor,
    RawMode(bool),
}

impl View for Draw {
    type V = DrawView;

    open spec fn view(&self) -> DrawView {
        match self {
            Draw::Text(span) => DrawView::Text(span@),
            Draw::MoveTo(column, row) => DrawView::MoveTo(*column, *row),
            Draw::MoveToColumn(column) => DrawView::MoveToColumn(*column),
            Draw::MoveLeft(columns) => DrawView::MoveLeft(*columns),
            Draw::ClearBelow => DrawView::ClearBelow,
            Draw::ClearLine => DrawView::ClearLine,
            Draw::ShowCursor => DrawView::ShowCursor,
            Draw::HideCursor => DrawView::HideCursor,
            Draw::RawMode(on) => DrawView::RawMode(*on),
        }
    }
}

/// The area of the screen that the menu is drawn in, and the instructions
/// gathered for it since they were last taken.
#[derive(Debug)]
pub struct Terminal {
    pub out: Vec<Draw>,
    pub start_row: u16,
    pub tui_height: u16,
    pub border: bool,
    pub terminal_width: u16,
}

/// The instructions of a list, each with plain text.
pub open spec fn draws(list: Seq<Draw>) -> Seq<DrawView> {
    list.map_values(|draw: Draw| draw@)
}

/// The width of `text` in columns of the terminal, as the `console` crate
/// measures it.
pub uninterp spec fn display_width(text: Seq<char>) -> usize;

/// `console::measure_text_width`: the number of columns that the text takes
/// on a terminal, which depends on the text alone.
#[verifier::external_body]
pub(crate) fn text_width(text: &str) -> (width: usize)
    ensures
        width == display_width(text@),
{
    console::measure_text_width(text)
}

/// The text written in the given style.
pub open spec fn text_draw(style: Style, text: Seq<char>) -> DrawView {
    DrawView::Text(styled(style, text))
}

/// The end of a line: carriage return and line feed.
pub open spec fn newline() -> DrawView {
    text_draw(Style::Plain, seq!['\r', '\n'])
}

/// The vertical bar of the border.
pub open spec fn bar() -> DrawView {
    text_draw(Style::DarkGrey, seq!['\u{2502}'])
}

/// A plain space.
pub open spec fn space() -> DrawView {
    text_draw(Style::Plain, seq![' '])
}

/// `count` plain spaces in one piece.
pub open spec fn gap(count: nat) -> DrawView {
    text_draw(Style::Plain, repeated(' ', count))
}

/// The spans of a line as instructions.
pub open spec fn text_draws(line: Seq<SpanView>) -> Seq<DrawView> {
    line.map_values(|span: SpanView| DrawView::Text(span))
}

/// A horizontal border of the given width between two corners: the dashes
/// fill what the corners leave, nothing below a width of 2.
pub open spec fn border_text(left: char, right: char, width: u16) -> Seq<char> {
    seq![left] + repeated('\u{2500}', if width >= 2 {
        (width - 2) as nat
    } else {
        0
    }) + seq![right]
}

/// `a - b`, or 0 where `b` is the larger.
pub open spec fn minus(a: int, b: int) -> nat {
    if a >= b {
        (a - b) as nat
    } else {
        0
    }
}

/// The spaces that bring a line of `content_width` columns, written behind
/// the left border and a space, up to the right border of a terminal
/// `width` columns wide.
pub open spec fn line_fill(width: u16, content_width: usize) -> nat {
    minus(minus(width as int, 2) as int, content_width + 2)
}

/// The spaces left and right of a text of `content_width` columns centred
/// in `available` columns: the left side gets the smaller half.
pub open spec fn centre_fill(available: nat, content_width: usize) -> (nat, nat) {
    let total = minus(available as int, content_width as int);
    (total / 2, (total - total / 2) as nat)
}

/// The column at which a text of `content_width` columns starts when it is
/// centred on a terminal `width` columns wide, 0 where it does not fit.
pub open spec fn centre_column(width: u16, content_width: usize) -> u16 {
    if content_width < width {
        ((width - content_width) / 2) as u16
    } else {
        0
    }
}

/// A number kept within what a column or a row of the terminal can be.
pub open spec fn clip16(x: int) -> u16 {
    if x < 0 {
        0
    } else if x > u16::MAX {
        u16::MAX
    } else {
        x as u16
    }
}

/// `block` drawn `count` times over.
pub open spec fn repeat_draws(block: Seq<DrawView>, count: nat) -> Seq<DrawView>
    decreases count,
{
    if count == 0 {
        Seq::<DrawView>::empty()
    } else {
        repeat_draws(block, (count - 1) as nat) + block
    }
}

/// The row of the last line of the area: one above the bottom border if
/// there is a border, the last row of the area otherwise; kept within the
/// rows that a terminal can have.
pub open spec fn last_line_row(start_row: u16, tui_height: u16, border: bool) -> u16 {
    let row = start_row + tui_height - (if border {
        2int
    } else {
        1int
    });
    if row < 0 {
        0
    } else if row > u16::MAX {
        u16::MAX
    } else {
        row as u16
    }
}

/// The spaces between a notice of `notice_width` columns at the start of a
/// line and a help text of `help_width` columns centred in `available`
/// columns: what the notice leaves of the way to where the help text starts.
pub open spec fn notice_gap(available: nat, notice_width: int, help_width: usize) -> nat {
    minus(minus(available as int, help_width as int) as int / 2, notice_width)
}

/// The text typed is taken as the result of the prompt: any text, or a
/// number that a 32-bit signed integer holds.
pub open spec fn input_valid(kind: InputType, typed: Seq<char>) -> bool {
    kind == InputType::Text || (number_text(typed) && fits_i32(typed))
}

/// What a key does to the prompt, to the text typed and to the screen. A
/// character that the prompt lets through is added and echoed; backspace
/// takes the last character off the text and off the screen; the return key
/// ends the prompt with the text, or with an error for a number that cannot
/// be used; escape ends it with an error. The cursor is hidden when the
/// prompt ends.
pub open spec fn input_stepped(
    kind: InputType,
    before: Seq<char>,
    key: Key,
    after: Seq<char>,
    added: Seq<DrawView>,
    result: Option<Result<String, WhichCmdError>>,
) -> bool {
    match key {
        Key::Enter => {
            &&& after == before
            &&& added == seq![DrawView::HideCursor]
            &&& result is Some
            &&& if input_valid(kind, before) {
                result->0 matches Ok(text) && text@ == before
            } else {
                result->0 matches Err(error) && error@ == ErrorView::Terminal("Invalid number"@)
            }
        },
        Key::Esc => {
            &&& after == before
            &&& added == seq![DrawView::HideCursor]
            &&& result matches Some(Err(error))
            &&& error@ == ErrorView::Terminal("Input cancelled"@)
        },
        Key::Char(c) => result is None && if accepted(kind, before, c) {
            after == before.push(c) && added == seq![text_draw(Style::Plain, seq![c])]
        } else {
            after == before && added == Seq::<DrawView>::empty()
        },
        Key::Backspace => result is None && if before.len() > 0 {
            after == before.drop_last() && added == seq![
                DrawView::MoveLeft(1),
                space(),
                DrawView::MoveLeft(1),
            ]
        } else {
            after == before && added == Seq::<DrawView>::empty()
        },
        _ => result is None && after == before && added == Seq::<DrawView>::empty(),
    }
}

impl Terminal {
    /// What replacing the last line draws: the cursor goes to the start of
    /// the last line, the line is cleared, and the notice is written at its
    /// start with the help text where it is when centred.
    pub open spec fn last_line_draws(&self, notice: Seq<SpanView>, help: Seq<SpanView>) -> Seq<
        DrawView,
    > {
        let notice_width = display_width(plain_text(notice));
        let help_width = display_width(plain_text(help));
        let head = seq![
            DrawView::MoveTo(0, last_line_row(self.start_row, self.tui_height, self.border)),
            DrawView::ClearLine,
        ];
        if self.border {
            let available = minus(self.terminal_width as int, 4);
            let before = notice_gap(available, notice_width as int, help_width);
            let after = minus(available as int, notice_width + before + help_width);
            head + seq![bar(), space()] + text_draws(notice) + seq![gap(before)] + text_draws(help)
                + seq![gap(after), space(), bar()]
        } else {
            let before = notice_gap(self.terminal_width as nat, notice_width + 1, help_width);
            head + seq![space()] + text_draws(notice) + seq![gap(before)] + text_draws(help)
        }
    }

    /// What opening the prompt draws: the margin, the request for `name` in
    /// cyan, and the cursor.
    pub open spec fn prompt_draws(&self, name: Seq<char>) -> Seq<DrawView> {
        self.margin_draws() + seq![
            text_draw(Style::Cyan, "Enter "@ + name + ": "@),
            DrawView::ShowCursor,
        ]
    }

    /// The area and the border are the same in both.
    pub open spec fn same_layout(&self, other: &Terminal) -> bool {
        &&& self.start_row == other.start_row
        &&& self.tui_height == other.tui_height
        &&& self.border == other.border
        &&& self.terminal_width == other.terminal_width
    }

    /// `after` is `self` with these instructions added.
    pub open spec fn drew(&self, after: &Terminal, added: Seq<DrawView>) -> bool {
        &&& after.same_layout(self)
        &&& draws(after.out@) == draws(self.out@) + added
    }

    /// What clearing the area draws: the cursor goes to the start of the
    /// area, the screen is cleared from there, and the top border is drawn
    /// if there is a border.
    pub open spec fn clear_draws(&self) -> Seq<DrawView> {
        seq![
            DrawView::MoveTo(0, self.start_row),
            DrawView::ClearBelow,
            DrawView::MoveTo(0, self.start_row),
        ] + self.top_border_draws()
    }

    /// The top border, if there is a border.
    pub open spec fn top_border_draws(&self) -> Seq<DrawView> {
        if self.border {
            seq![
                text_draw(Style::DarkGrey, border_text('\u{256d}', '\u{256e}', self.terminal_width)),
            ]
        } else {
            Seq::<DrawView>::empty()
        }
    }

    /// The bottom border on a line of its own, if there is a border.
    pub open spec fn bottom_border_draws(&self) -> Seq<DrawView> {
        if self.border {
            seq![
                newline(),
                text_draw(Style::DarkGrey, border_text('\u{2570}', '\u{256f}', self.terminal_width)),
            ]
        } else {
            Seq::<DrawView>::empty()
        }
    }

    /// What starts a line: the left border and a space, or just a space.
    pub open spec fn margin_draws(&self) -> Seq<DrawView> {
        if self.border {
            seq![bar(), space()]
        } else {
            seq![space()]
        }
    }

    /// The margin and the content.
    pub open spec fn write_draws(&self, content: Seq<SpanView>) -> Seq<DrawView> {
        self.margin_draws() + text_draws(content)
    }

    /// The margin and the content, filled up to the right border if there
    /// is a border, and the end of the line.
    pub open spec fn line_draws(&self, content: Seq<SpanView>) -> Seq<DrawView> {
        self.write_draws(content) + (if self.border {
            seq![
                gap(line_fill(self.terminal_width, display_width(plain_text(content)))),
                space(),
                bar(),
            ]
        } else {
            Seq::<DrawView>::empty()
        }) + seq![newline()]
    }

    /// A line without content: between the borders if there is a border.
    pub open spec fn empty_line_draws(&self) -> Seq<DrawView> {
        if self.border {
            seq![bar(), gap(minus(self.terminal_width as int, 2)), bar(), newline()]
        } else {
            seq![newline()]
        }
    }

    /// The content centred: between the borders with spaces on both sides,
    /// or, without a border, from the column that centres it.
    pub open spec fn centred_draws(&self, content: Seq<SpanView>) -> Seq<DrawView> {
        let width = display_width(plain_text(content));
        if self.border {
            let fill = centre_fill(minus(self.terminal_width as int, 4), width);
            seq![bar(), space(), gap(fill.0)] + text_draws(content) + seq![
                gap(fill.1),
                space(),
                bar(),
            ]
        } else {
            seq![DrawView::MoveToColumn(centre_column(self.terminal_width, width))] + text_draws(
                content,
            )
        }
    }

    /// A terminal without a border and with nothing to draw.
    pub fn new() -> (terminal: Terminal)
        ensures
            terminal.out@.len() == 0,
            terminal.start_row == 0,
            terminal.tui_height == 0,
            !terminal.border,
            terminal.terminal_width == 0,
    {
        Terminal { out: Vec::new(), start_row: 0, tui_height: 0, border: false, terminal_width: 0 }
    }

    /// Switches the border on or off.
    pub fn set_border(&mut self, enabled: bool)
        ensures
            final(self).border == enabled,
            final(self).out == old(self).out,
            final(self).start_row == old(self).start_row,
            final(self).tui_height == old(self).tui_height,
            final(self).terminal_width == old(self).terminal_width,
    {
        self.border = enabled;
    }

    /// Adds one instruction.
    fn emit(&mut self, draw: Draw)
        ensures
            old(self).drew(final(self), seq![draw@]),
    {
        let ghost before = self.out@;
        self.out.push(draw);
        proof {
            assert(draws(self.out@) =~= draws(before) + seq![draw@]);
        }
    }

    /// Adds text in a style.
    fn emit_text(&mut self, style: Style, text: &str)
        ensures
            old(self).drew(final(self), seq![text_draw(style, text@)]),
    {
        self.emit(Draw::Text(Span::new(style, text)));
    }

    /// Adds `count` plain spaces in one piece.
    fn emit_gap(&mut self, count: usize)
        ensures
            old(self).drew(final(self), seq![gap(count as nat)]),
    {
        self.emit_run(Style::Plain, ' ', count);
    }

    /// Adds `count` times the character `c` in a style.
    fn emit_run(&mut self, style: Style, c: char, count: usize)
        ensures
            old(self).drew(final(self), seq![text_draw(style, repeated(c, count as nat))]),
    {
        let text = run_of(c, count);
        self.emit(Draw::Text(Span { style, text }));
    }

    /// Adds a horizontal border between two corners.
    fn emit_border(&mut self, left: char, right: char)
        ensures
            old(self).drew(
                final(self),
                seq![text_draw(Style::DarkGrey, border_text(left, right, old(self).terminal_width))],
            ),
    {
        let dashes: usize = if self.terminal_width >= 2 {
            (self.terminal_width - 2) as usize
        } else {
            0
        };
        let mut text = String::new();
        push_char(&mut text, left);
        let ghost head = text@;
        let mut i: usize = 0;
        while i < dashes
            invariant
                i <= dashes,
                text@ == head + repeated('\u{2500}', i as nat),
            decreases dashes - i,
        {
            push_char(&mut text, '\u{2500}');
            proof {
                assert(text@ =~= head + repeated('\u{2500}', (i + 1) as nat));
            }
            i += 1;
        }
        push_char(&mut text, right);
        proof {
            assert(text@ =~= border_text(left, right, self.terminal_width));
        }
        self.emit(Draw::Text(Span { style: Style::DarkGrey, text }));
    }

    /// Adds the spans of a line.
    fn emit_spans(&mut self, content: &[Span])
        ensures
            old(self).drew(final(self), text_draws(spans(content@))),
    {
        let ghost start = draws(self.out@);
        let mut i: usize = 0;
        proof {
            assert(draws(self.out@) =~= start + text_draws(spans(content@.take(0))));
        }
        while i < content.len()
            invariant
                i <= content@.len(),
                self.same_layout(old(self)),
                start == draws(old(self).out@),
                draws(self.out@) == start + text_draws(spans(content@.take(i as int))),
            decreases content@.len() - i,
        {
            let span = Span { style: content[i].style, text: content[i].text.clone() };
            let ghost before = draws(self.out@);
            self.emit(Draw::Text(span));
            proof {
                assert(text_draws(spans(content@.take(i + 1))) =~= text_draws(
                    spans(content@.take(i as int)),
                ).push(DrawView::Text(content@[i as int]@)));
                assert(draws(self.out@) =~= start + text_draws(spans(content@.take(i + 1))));
            }
            i += 1;
        }
        proof {
            assert(content@.take(i as int) =~= content@);
        }
    }

    /// Adds the end of a line.
    pub fn blank_line(&mut self)
        ensures
            old(self).drew(final(self), seq![newline()]),
    {
        proof {
            reveal_strlit("\r\n");
            assert("\r\n"@ =~= seq!['\r', '\n']);
        }
        self.emit_text(Style::Plain, "\r\n");
    }

    /// Adds the left border of a line, or nothing.
    fn emit_bar(&mut self)
        ensures
            old(self).drew(final(self), seq![bar()]),
    {
        proof {
            reveal_strlit("\u{2502}");
            assert("\u{2502}"@ =~= seq!['\u{2502}']);
        }
        self.emit_text(Style::DarkGrey, "\u{2502}");
    }

    /// Adds a plain space.
    fn emit_space(&mut self)
        ensures
            old(self).drew(final(self), seq![space()]),
    {
        proof {
            reveal_strlit(" ");
            assert(" "@ =~= seq![' ']);
        }
        self.emit_text(Style::Plain, " ");
    }

    /// Remembers where the menu goes and how large it is, makes room for it
    /// below the cursor, and draws the empty area. `cursor_row` is the row of
    /// the cursor, `columns` and `rows` the size of the terminal, and
    /// `content_rows` the height of the menu without its border.
    pub fn setup(&mut self, cursor_row: u16, columns: u16, rows: u16, content_rows: u16)
        requires
            content_rows <= u16::MAX - 2,
        ensures
            final(self).border == old(self).border,
            final(self).terminal_width == columns,
            final(self).tui_height == content_rows + (if old(self).border {
                2int
            } else {
                0int
            }),
            final(self).start_row == (if cursor_row + final(self).tui_height > rows {
                minus(rows as int, final(self).tui_height as int) as u16
            } else {
                cursor_row
            }),
            draws(final(self).out@) == draws(old(self).out@) + Seq::new(
                minus(cursor_row + final(self).tui_height, rows as int),
                |i: int| newline(),
            ) + seq![DrawView::RawMode(true), DrawView::HideCursor] + final(self).clear_draws(),
    {
        let ghost start = draws(self.out@);
        self.start_row = cursor_row;
        self.tui_height = content_rows + if self.border {
            2
        } else {
            0
        };
        self.terminal_width = columns;
        let bottom: u32 = self.start_row as u32 + self.tui_height as u32;
        let ghost lines = minus(bottom as int, rows as int);
        proof {
            assert(draws(self.out@) =~= start + Seq::new(0, |i: int| newline()));
        }
        if bottom > rows as u32 {
            let lines_needed: u32 = bottom - rows as u32;
            let mut i: u32 = 0;
            while i < lines_needed
                invariant
                    i <= lines_needed,
                    self.border == old(self).border,
                    self.terminal_width == columns,
                    self.tui_height == content_rows + (if old(self).border {
                        2int
                    } else {
                        0int
                    }),
                    draws(self.out@) == start + Seq::new(i as nat, |i: int| newline()),
                decreases lines_needed - i,
            {
                self.blank_line();
                proof {
                    assert(draws(self.out@) =~= start + Seq::new((i + 1) as nat, |i: int| newline()));
                }
                i += 1;
            }
            self.start_row = if rows >= self.tui_height {
                rows - self.tui_height
            } else {
                0
            };
        }
        let ghost scrolled = draws(self.out@);
        self.emit(Draw::RawMode(true));
        self.emit(Draw::HideCursor);
        self.clear_screen();
        proof {
            assert(draws(self.out@) =~= start + Seq::new(lines, |i: int| newline()) + seq![
                DrawView::RawMode(true),
                DrawView::HideCursor,
            ] + self.clear_draws());
        }
    }

    /// Clears the area, puts the cursor where the menu started, shows it
    /// again and leaves raw mode.
    pub fn teardown(&mut self)
        ensures
            old(self).drew(
                final(self),
                old(self).clear_draws() + seq![
                    DrawView::MoveTo(0, old(self).start_row),
                    DrawView::ShowCursor,
                    DrawView::RawMode(false),
                ],
            ),
    {
        let ghost start = draws(self.out@);
        self.clear_screen();
        self.emit(Draw::MoveTo(0, self.start_row));
        self.emit(Draw::ShowCursor);
        self.emit(Draw::RawMode(false));
        proof {
            assert(draws(self.out@) =~= start + (old(self).clear_draws() + seq![
                DrawView::MoveTo(0, old(self).start_row),
                DrawView::ShowCursor,
                DrawView::RawMode(false),
            ]));
        }
    }

    /// Clears the area and draws the top border if there is a border.
    pub fn clear_screen(&mut self)
        ensures
            old(self).drew(final(self), old(self).clear_draws()),
    {
        let ghost start = draws(self.out@);
        self.emit(Draw::MoveTo(0, self.start_row));
        self.emit(Draw::ClearBelow);
        self.emit(Draw::MoveTo(0, self.start_row));
        if self.border {
            self.draw_top_border();
        }
        proof {
            assert(draws(self.out@) =~= start + old(self).clear_draws());
        }
    }

    /// Draws the top border.
    fn draw_top_border(&mut self)
        ensures
            old(self).drew(
                final(self),
                seq![
                    text_draw(
                        Style::DarkGrey,
                        border_text('\u{256d}', '\u{256e}', old(self).terminal_width),
                    ),
                ],
            ),
    {
        self.emit_border('\u{256d}', '\u{256e}');
    }

    /// Draws the bottom border on a line of its own, if there is a border.
    pub fn draw_bottom_border(&mut self)
        ensures
            old(self).drew(final(self), old(self).bottom_border_draws()),
    {
        let ghost start = draws(self.out@);
        if self.border {
            self.blank_line();
            self.emit_border('\u{2570}', '\u{256f}');
        }
        proof {
            assert(draws(self.out@) =~= start + old(self).bottom_border_draws());
        }
    }

    /// Starts a line and writes the content.
    pub fn write(&mut self, content: &[Span])
        ensures
            old(self).drew(final(self), old(self).write_draws(spans(content@))),
    {
        let ghost start = draws(self.out@);
        if self.border {
            self.emit_bar();
        }
        self.emit_space();
        self.emit_spans(content);
        proof {
            assert(draws(self.out@) =~= start + old(self).write_draws(spans(content@)));
        }
    }

    /// Writes the content as a whole line, closed by the right border if
    /// there is a border.
    pub fn write_line(&mut self, content: &[Span])
        ensures
            old(self).drew(final(self), old(self).line_draws(spans(content@))),
    {
        let ghost start = draws(self.out@);
        self.write(content);
        if self.border {
            let width = line_width(content);
            self.emit_gap(fill_of_line(self.terminal_width, width));
            self.emit_space();
            self.emit_bar();
        }
        self.blank_line();
        proof {
            assert(draws(self.out@) =~= start + old(self).line_draws(spans(content@)));
        }
    }

    /// Draws a line without content.
    pub fn empty_border_line(&mut self)
        ensures
            old(self).drew(final(self), old(self).empty_line_draws()),
    {
        let ghost start = draws(self.out@);
        if self.border {
            self.emit_bar();
            let inner_width: usize = if self.terminal_width >= 2 {
                (self.terminal_width - 2) as usize
            } else {
                0
            };
            self.emit_gap(inner_width);
            self.emit_bar();
            self.blank_line();
        } else {
            self.blank_line();
        }
        proof {
            assert(draws(self.out@) =~= start + old(self).empty_line_draws());
        }
    }

    /// Writes the content centred on the current row.
    pub fn write_centered(&mut self, content: &[Span])
        ensures
            old(self).drew(final(self), old(self).centred_draws(spans(content@))),
    {
        let ghost start = draws(self.out@);
        let width = line_width(content);
        if self.border {
            let available: usize = if self.terminal_width >= 4 {
                (self.terminal_width - 4) as usize
            } else {
                0
            };
            let (left_padding, right_padding) = centre_padding(available, width);
            self.emit_bar();
            self.emit_space();
            self.emit_gap(left_padding);
            self.emit_spans(content);
            self.emit_gap(right_padding);
            self.emit_space();
            self.emit_bar();
        } else {
            self.emit(Draw::MoveToColumn(column_of_centre(self.terminal_width, width)));
            self.emit_spans(content);
        }
        proof {
            assert(draws(self.out@) =~= start + old(self).centred_draws(spans(content@)));
        }
    }

    /// Hands out the instructions gathered so far, in order, and starts
    /// anew.
    pub fn flush(&mut self) -> (gathered: Vec<Draw>)
        ensures
            gathered@ == old(self).out@,
            final(self).out@.len() == 0,
            final(self).same_layout(old(self)),
    {
        let mut gathered: Vec<Draw> = Vec::new();
        gathered.append(&mut self.out);
        proof {
            assert(gathered@ =~= old(self).out@);
        }
        gathered
    }

    /// Clears the area and writes the content as the line above a dialog.
    pub fn prepare_for_input(&mut self, content: &[Span])
        ensures
            old(self).drew(
                final(self),
                old(self).clear_draws() + old(self).line_draws(spans(content@)) + seq![newline()],
            ),
    {
        let ghost start = draws(self.out@);
        self.clear_screen();
        self.write_line(content);
        self.blank_line();
        proof {
            assert(draws(self.out@) =~= start + (old(self).clear_draws() + old(self).line_draws(
                spans(content@),
            ) + seq![newline()]));
        }
    }

    /// The cursor is shown.
    pub fn show_cursor(&mut self)
        ensures
            old(self).drew(final(self), seq![DrawView::ShowCursor]),
    {
        self.emit(Draw::ShowCursor);
    }

    /// The cursor is hidden.
    pub fn hide_cursor(&mut self)
        ensures
            old(self).drew(final(self), seq![DrawView::HideCursor]),
    {
        self.emit(Draw::HideCursor);
    }

    /// The cursor goes to this column and row.
    pub fn move_cursor_to(&mut self, column: u16, row: u16)
        ensures
            old(self).drew(final(self), seq![DrawView::MoveTo(column, row)]),
    {
        self.emit(Draw::MoveTo(column, row));
    }

    /// The cursor goes to the start of its row.
    pub fn start_of_row(&mut self)
        ensures
            old(self).drew(final(self), seq![DrawView::MoveToColumn(0)]),
    {
        self.emit(Draw::MoveToColumn(0));
    }

    /// The rows of the area that are left for content: its height without
    /// the two rows of the border, if there is a border.
    pub fn get_content_rows(&self) -> (rows: usize)
        ensures
            rows == minus(self.tui_height as int, if self.border {
                2
            } else {
                0
            }),
    {
        let taken: u16 = if self.border {
            2
        } else {
            0
        };
        if self.tui_height >= taken {
            (self.tui_height - taken) as usize
        } else {
            0
        }
    }

    /// The row at which the area starts.
    pub fn get_start_row(&self) -> (row: u16)
        ensures
            row == self.start_row,
    {
        self.start_row
    }

    /// Whether a border is drawn.
    pub fn has_border(&self) -> (border: bool)
        ensures
            border == self.border,
    {
        self.border
    }

    /// Draws `count` lines without content.
    pub fn empty_border_lines(&mut self, count: usize)
        ensures
            old(self).drew(final(self), repeat_draws(old(self).empty_line_draws(), count as nat)),
    {
        let ghost start = draws(self.out@);
        let ghost block = self.empty_line_draws();
        let mut i: usize = 0;
        proof {
            assert(draws(self.out@) =~= start + repeat_draws(block, 0));
        }
        while i < count
            invariant
                i <= count,
                self.same_layout(old(self)),
                block == old(self).empty_line_draws(),
                draws(self.out@) == start + repeat_draws(block, i as nat),
            decreases count - i,
        {
            self.empty_border_line();
            proof {
                assert(draws(self.out@) =~= start + repeat_draws(block, (i + 1) as nat));
            }
            i += 1;
        }
    }

    /// Puts a notice at the start of the last line of the area and keeps the
    /// help text where it is when centred.
    pub fn replace_last_line(&mut self, error_msg: &[Span], help_text: &[Span])
        ensures
            old(self).drew(
                final(self),
                old(self).last_line_draws(spans(error_msg@), spans(help_text@)),
            ),
    {
        let ghost start = draws(self.out@);
        let bottom: u32 = self.start_row as u32 + self.tui_height as u32;
        let below: u32 = if self.border {
            2
        } else {
            1
        };
        let last_line_row: u16 = if bottom < below {
            0
        } else if bottom - below > u16::MAX as u32 {
            u16::MAX
        } else {
            (bottom - below) as u16
        };
        self.emit(Draw::MoveTo(0, last_line_row));
        self.emit(Draw::ClearLine);
        let error_length = line_width(error_msg);
        let help_length = line_width(help_text);
        if self.border {
            let available_width: usize = if self.terminal_width >= 4 {
                (self.terminal_width - 4) as usize
            } else {
                0
            };
            let (padding_before_help, padding_after_help) = padding_around_help(
                available_width,
                error_length,
                0,
                help_length,
            );
            self.emit_bar();
            self.emit_space();
            self.emit_spans(error_msg);
            self.emit_gap(padding_before_help);
            self.emit_spans(help_text);
            self.emit_gap(padding_after_help);
            self.emit_space();
            self.emit_bar();
        } else {
            let (padding_before_help, _) = padding_around_help(
                self.terminal_width as usize,
                error_length,
                1,
                help_length,
            );
            self.emit_space();
            self.emit_spans(error_msg);
            self.emit_gap(padding_before_help);
            self.emit_spans(help_text);
        }
        proof {
            assert(draws(self.out@) =~= start + old(self).last_line_draws(
                spans(error_msg@),
                spans(help_text@),
            ));
        }
    }

    /// Opens a prompt for `name` on the current line.
    pub fn input_prompt(&mut self, name: &str)
        ensures
            old(self).drew(final(self), old(self).prompt_draws(name@)),
    {
        let ghost start = draws(self.out@);
        let prompt = String::from_str("Enter ").concat(name).concat(": ");
        if self.border {
            self.emit_bar();
        }
        self.emit_space();
        self.emit(Draw::Text(Span { style: Style::Cyan, text: prompt }));
        self.emit(Draw::ShowCursor);
        proof {
            assert(draws(self.out@) =~= start + old(self).prompt_draws(name@));
        }
    }

    /// Applies one key to the prompt. Returns nothing while the prompt goes
    /// on, and its result once it has ended.
    pub fn input(&mut self, input_type: &InputType, typed: &mut String, key: Key) -> (result: Option<
        Result<String, WhichCmdError>,
    >)
        ensures
            final(self).same_layout(old(self)),
            exists|added: Seq<DrawView>|
                draws(final(self).out@) == draws(old(self).out@) + added && input_stepped(
                    *input_type,
                    old(typed)@,
                    key,
                    final(typed)@,
                    added,
                    result,
                ),
    {
        let ghost start = draws(self.out@);
        match key {
            Key::Enter => {
                self.emit(Draw::HideCursor);
                let valid = match input_type {
                    InputType::Number => is_number_text(typed.as_str()) && parses_as_i32(
                        typed.as_str(),
                    ),
                    InputType::Text => true,
                };
                let result = if valid {
                    Some(Ok(typed.clone()))
                } else {
                    Some(Err(WhichCmdError::Terminal(String::from_str("Invalid number"))))
                };
                proof {
                    assert(input_stepped(
                        *input_type,
                        old(typed)@,
                        key,
                        typed@,
                        seq![DrawView::HideCursor],
                        result,
                    ));
                }
                result
            },
            Key::Esc => {
                self.emit(Draw::HideCursor);
                let result = Some(Err(WhichCmdError::Terminal(String::from_str("Input cancelled"))));
                proof {
                    assert(input_stepped(
                        *input_type,
                        old(typed)@,
                        key,
                        typed@,
                        seq![DrawView::HideCursor],
                        result,
                    ));
                }
                result
            },
            Key::Char(c) => {
                let lets_through = match input_type {
                    InputType::Number => ('0' <= c && c <= '9') || (c == '-'
                        && typed.as_str().is_empty()),
                    InputType::Text => true,
                };
                if lets_through {
                    push_char(typed, c);
                    let mut echo = String::new();
                    push_char(&mut echo, c);
                    proof {
                        assert(echo@ =~= seq![c]);
                    }
                    self.emit(Draw::Text(Span { style: Style::Plain, text: echo }));
                    proof {
                        assert(input_stepped(
                            *input_type,
                            old(typed)@,
                            key,
                            typed@,
                            seq![text_draw(Style::Plain, seq![c])],
                            None,
                        ));
                    }
                } else {
                    proof {
                        assert(draws(self.out@) =~= start + Seq::<DrawView>::empty());
                        assert(input_stepped(
                            *input_type,
                            old(typed)@,
                            key,
                            typed@,
                            Seq::<DrawView>::empty(),
                            None,
                        ));
                    }
                }
                None
            },
            Key::Backspace => {
                if !typed.as_str().is_empty() {
                    let _ = pop_char(typed);
                    self.emit(Draw::MoveLeft(1));
                    self.emit_space();
                    self.emit(Draw::MoveLeft(1));
                    proof {
                        let added = seq![DrawView::MoveLeft(1), space(), DrawView::MoveLeft(1)];
                        assert(draws(self.out@) =~= start + added);
                        assert(input_stepped(*input_type, old(typed)@, key, typed@, added, None));
                    }
                } else {
                    proof {
                        assert(draws(self.out@) =~= start + Seq::<DrawView>::empty());
                        assert(input_stepped(
                            *input_type,
                            old(typed)@,
                            key,
                            typed@,
                            Seq::<DrawView>::empty(),
                            None,
                        ));
                    }
                }
                None
            },
            _ => {
                proof {
                    assert(draws(self.out@) =~= start + Seq::<DrawView>::empty());
                    assert(input_stepped(
                        *input_type,
                        old(typed)@,
                        key,
                        typed@,
                        Seq::<DrawView>::empty(),
                        None,
                    ));
                }
                None
            },
        }
    }
}

/// The width of a line in columns, measured on its text without the styles.
pub(crate) fn line_width(content: &[Span]) -> (width: usize)
    ensures
        width == display_width(plain_text(spans(content@))),
{
    let mut text = String::new();
    let mut i: usize = 0;
    proof {
        assert(text@ =~= plain_text(spans(content@.take(0))));
    }
    while i < content.len()
        invariant
            i <= content@.len(),
            text@ == plain_text(spans(content@.take(i as int))),
        decreases content@.len() - i,
    {
        proof {
            let longer = spans(content@.take(i + 1));
            assert(longer.drop_last() =~= spans(content@.take(i as int)));
            assert(longer.last() == content@[i as int]@);
        }
        text.append(content[i].text.as_str());
        i += 1;
    }
    proof {
        assert(content@.take(i as int) =~= content@);
    }
    text_width(text.as_str())
}

/// The numbers of spaces before and behind a help text of `help_width`
/// columns that is centred in `available` columns, where a notice of
/// `notice_width` columns stands `margin` columns into the line:
/// before it what the notice leaves of the way to where the help text
/// starts, behind it what is left of the line.
pub fn padding_around_help(
    available: usize,
    notice_width: usize,
    margin: usize,
    help_width: usize,
) -> (fill: (usize, usize))
    ensures
        fill.0 == notice_gap(available as nat, notice_width + margin, help_width),
        fill.1 == minus(available as int, notice_width + margin + fill.0 + help_width),
{
    let help_start = (if available >= help_width {
        available - help_width
    } else {
        0
    }) / 2;
    let before: usize = if help_start >= notice_width && help_start - notice_width >= margin {
        help_start - notice_width - margin
    } else {
        0
    };
    let mut after: usize = available;
    after = if after >= notice_width {
        after - notice_width
    } else {
        0
    };
    after = if after >= margin {
        after - margin
    } else {
        0
    };
    after = if after >= before {
        after - before
    } else {
        0
    };
    after = if after >= help_width {
        after - help_width
    } else {
        0
    };
    (before, after)
}

/// The number of spaces that bring a line of `content_width` columns up to
/// the right border.
pub fn fill_of_line(width: u16, content_width: usize) -> (fill: usize)
    ensures
        fill == line_fill(width, content_width),
{
    let target: usize = if width >= 2 {
        (width - 2) as usize
    } else {
        0
    };
    if target >= 2 && content_width <= target - 2 {
        target - 2 - content_width
    } else {
        0
    }
}

/// The numbers of spaces left and right of a text of `content_width`
/// columns centred in `available` columns.
pub fn centre_padding(available: usize, content_width: usize) -> (fill: (usize, usize))
    ensures
        fill.0 == centre_fill(available as nat, content_width).0,
        fill.1 == centre_fill(available as nat, content_width).1,
{
    let total_padding: usize = if available >= content_width {
        available - content_width
    } else {
        0
    };
    let left_padding = total_padding / 2;
    let right_padding = total_padding - left_padding;
    (left_padding, right_padding)
}

/// The column at which a text of `content_width` columns starts when it is
/// centred on a terminal `width` columns wide.
pub fn column_of_centre(width: u16, content_width: usize) -> (column: u16)
    ensures
        column == centre_column(width, content_width),
{
    if content_width < width as usize {
        (width - content_width as u16) / 2
    } else {
        0
    }
}

} // verus!
