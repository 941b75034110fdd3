use which_cmd::error::WhichCmdError;
use which_cmd::key::Key;
use which_cmd::node::InputType;
use which_cmd::style::{Span, Style};
use which_cmd::terminal::{
    centre_padding, column_of_centre, fill_of_line, padding_around_help, Draw, Terminal,
};

#[derive(Debug, PartialEq)]
enum Seen {
    Text(Style, String),
    MoveTo(u16, u16),
    MoveToColumn(u16),
    MoveLeft(u16),
    ClearBelow,
    ClearLine,
    ShowCursor,
    HideCursor,
    RawMode(bool),
}

fn seen(draws: Vec<Draw>) -> Vec<Seen> {
    draws
        .into_iter()
        .map(|d| match d {
            Draw::Text(span) => Seen::Text(span.style, span.text),
            Draw::MoveTo(c, r) => Seen::MoveTo(c, r),
            Draw::MoveToColumn(c) => Seen::MoveToColumn(c),
            Draw::MoveLeft(n) => Seen::MoveLeft(n),
            Draw::ClearBelow => Seen::ClearBelow,
            Draw::ClearLine => Seen::ClearLine,
            Draw::ShowCursor => Seen::ShowCursor,
            Draw::HideCursor => Seen::HideCursor,
            Draw::RawMode(on) => Seen::RawMode(on),
        })
        .collect()
}

fn plain(text: &str) -> Seen {
    Seen::Text(Style::Plain, text.to_string())
}

fn dim(text: &str) -> Seen {
    Seen::Text(Style::DarkGrey, text.to_string())
}

fn bordered(width: u16) -> Terminal {
    let mut terminal = Terminal::new();
    terminal.set_border(true);
    terminal.setup(2, width, 40, 6);
    terminal.flush();
    terminal
}

fn content() -> Vec<Span> {
    vec![Span::new(Style::Green, "git"), Span::new(Style::Plain, " ok")]
}

#[test]
fn test_new_terminal_is_empty_and_without_border() {
    let mut terminal = Terminal::new();
    assert!(!terminal.has_border());
    assert_eq!(terminal.get_start_row(), 0);
    assert_eq!(terminal.get_content_rows(), 0);
    assert!(terminal.flush().is_empty());
    terminal.set_border(true);
    assert!(terminal.has_border());
}

#[test]
fn test_setup_with_room_below_the_cursor() {
    let mut terminal = Terminal::new();
    terminal.setup(5, 80, 24, 10);
    assert_eq!(terminal.start_row, 5);
    assert_eq!(terminal.tui_height, 10);
    assert_eq!(terminal.terminal_width, 80);
    assert_eq!(terminal.get_content_rows(), 10);
    assert_eq!(
        seen(terminal.flush()),
        vec![
            Seen::RawMode(true),
            Seen::HideCursor,
            Seen::MoveTo(0, 5),
            Seen::ClearBelow,
            Seen::MoveTo(0, 5),
        ]
    );
}

#[test]
fn test_setup_scrolls_when_the_area_does_not_fit() {
    let mut terminal = Terminal::new();
    terminal.set_border(true);
    terminal.setup(20, 10, 24, 10);
    // 20 + 12 rows end 8 rows below the 24 of the terminal
    assert_eq!(terminal.tui_height, 12);
    assert_eq!(terminal.start_row, 12);
    assert_eq!(terminal.get_content_rows(), 10);
    let draws = seen(terminal.flush());
    assert_eq!(draws.len(), 8 + 6);
    for d in draws[..8].iter() {
        assert_eq!(*d, plain("\r\n"));
    }
    assert_eq!(draws[8], Seen::RawMode(true));
    assert_eq!(draws[9], Seen::HideCursor);
    assert_eq!(draws[10], Seen::MoveTo(0, 12));
    assert_eq!(draws[13], dim("╭────────╮"));
}

#[test]
fn test_setup_on_a_terminal_smaller_than_the_area() {
    let mut terminal = Terminal::new();
    terminal.setup(3, 80, 4, 10);
    assert_eq!(terminal.start_row, 0);
    let draws = seen(terminal.flush());
    assert_eq!(draws.iter().filter(|d| **d == plain("\r\n")).count(), 9);
}

#[test]
fn test_teardown_restores_the_cursor() {
    let mut terminal = bordered(6);
    terminal.teardown();
    assert_eq!(
        seen(terminal.flush()),
        vec![
            Seen::MoveTo(0, 2),
            Seen::ClearBelow,
            Seen::MoveTo(0, 2),
            dim("╭────╮"),
            Seen::MoveTo(0, 2),
            Seen::ShowCursor,
            Seen::RawMode(false),
        ]
    );
}

#[test]
fn test_borders_of_a_narrow_terminal_have_no_dashes() {
    let mut terminal = bordered(1);
    terminal.clear_screen();
    terminal.draw_bottom_border();
    let draws = seen(terminal.flush());
    assert_eq!(draws[3], dim("╭╮"));
    assert_eq!(draws[4], plain("\r\n"));
    assert_eq!(draws[5], dim("╰╯"));
}

#[test]
fn test_bottom_border_only_with_border() {
    let mut terminal = Terminal::new();
    terminal.draw_bottom_border();
    assert!(terminal.flush().is_empty());
    let mut terminal = bordered(5);
    terminal.draw_bottom_border();
    assert_eq!(seen(terminal.flush()), vec![plain("\r\n"), dim("╰───╯")]);
}

#[test]
fn test_write_starts_with_the_margin() {
    let mut terminal = Terminal::new();
    terminal.write(&content());
    assert_eq!(
        seen(terminal.flush()),
        vec![
            plain(" "),
            Seen::Text(Style::Green, "git".to_string()),
            plain(" ok"),
        ]
    );
    let mut terminal = bordered(20);
    terminal.write(&content());
    assert_eq!(
        seen(terminal.flush()),
        vec![
            dim("│"),
            plain(" "),
            Seen::Text(Style::Green, "git".to_string()),
            plain(" ok"),
        ]
    );
}

#[test]
fn test_write_line_fills_up_to_the_right_border() {
    let mut terminal = bordered(20);
    terminal.write_line(&content());
    // 18 columns inside, the content ends at column 8: 10 spaces, space, bar
    assert_eq!(
        seen(terminal.flush()),
        vec![
            dim("│"),
            plain(" "),
            Seen::Text(Style::Green, "git".to_string()),
            plain(" ok"),
            plain("          "),
            plain(" "),
            dim("│"),
            plain("\r\n"),
        ]
    );
    let mut terminal = Terminal::new();
    terminal.write_line(&content());
    assert_eq!(
        seen(terminal.flush()),
        vec![
            plain(" "),
            Seen::Text(Style::Green, "git".to_string()),
            plain(" ok"),
            plain("\r\n"),
        ]
    );
}

#[test]
fn test_blank_and_empty_lines() {
    let mut terminal = Terminal::new();
    terminal.blank_line();
    terminal.empty_border_line();
    assert_eq!(seen(terminal.flush()), vec![plain("\r\n"), plain("\r\n")]);
    let mut terminal = bordered(6);
    terminal.empty_border_line();
    assert_eq!(
        seen(terminal.flush()),
        vec![dim("│"), plain("    "), dim("│"), plain("\r\n")]
    );
    terminal.empty_border_lines(2);
    assert_eq!(terminal.flush().len(), 8);
}

#[test]
fn test_write_centered_with_border() {
    let mut terminal = bordered(15);
    terminal.write_centered(&content());
    // 11 columns available, 6 taken: 2 left, 3 right
    assert_eq!(
        seen(terminal.flush()),
        vec![
            dim("│"),
            plain(" "),
            plain("  "),
            Seen::Text(Style::Green, "git".to_string()),
            plain(" ok"),
            plain("   "),
            plain(" "),
            dim("│"),
        ]
    );
}

#[test]
fn test_write_centered_without_border() {
    let mut terminal = Terminal::new();
    terminal.setup(0, 21, 10, 5);
    terminal.flush();
    terminal.write_centered(&content());
    assert_eq!(
        seen(terminal.flush()),
        vec![
            Seen::MoveToColumn(7),
            Seen::Text(Style::Green, "git".to_string()),
            plain(" ok"),
        ]
    );
}

#[test]
fn test_width_counts_columns_not_bytes() {
    // Each of the two characters takes two columns and three bytes.
    let mut terminal = Terminal::new();
    terminal.setup(0, 20, 10, 5);
    terminal.flush();
    terminal.write_centered(&[Span::new(Style::Plain, "日本")]);
    assert_eq!(seen(terminal.flush())[0], Seen::MoveToColumn(8));
}

#[test]
fn test_layout_arithmetic() {
    assert_eq!(fill_of_line(20, 6), 10);
    assert_eq!(fill_of_line(20, 16), 0);
    assert_eq!(fill_of_line(20, 17), 0);
    assert_eq!(fill_of_line(3, 0), 0);
    assert_eq!(fill_of_line(0, 0), 0);
    assert_eq!(centre_padding(11, 6), (2, 3));
    assert_eq!(centre_padding(10, 6), (2, 2));
    assert_eq!(centre_padding(4, 6), (0, 0));
    assert_eq!(column_of_centre(21, 6), 7);
    assert_eq!(column_of_centre(6, 6), 0);
    assert_eq!(column_of_centre(5, 600000), 0);
}

#[test]
fn test_padding_around_help() {
    // help of 4 columns centred in 26 starts at 11
    assert_eq!(padding_around_help(26, 3, 0, 4), (8, 11));
    assert_eq!(padding_around_help(30, 3, 1, 4), (9, 13));
    // the notice reaches beyond where the help text starts
    assert_eq!(padding_around_help(26, 11, 0, 4), (0, 11));
    assert_eq!(padding_around_help(26, 20, 0, 4), (0, 2));
    assert_eq!(padding_around_help(26, 30, 0, 4), (0, 0));
    assert_eq!(padding_around_help(3, 0, 0, 10), (0, 0));
    assert_eq!(padding_around_help(0, usize::MAX, usize::MAX, usize::MAX), (0, 0));
}

#[test]
fn test_flush_hands_out_and_starts_anew() {
    let mut terminal = Terminal::new();
    terminal.show_cursor();
    terminal.hide_cursor();
    terminal.move_cursor_to(3, 4);
    terminal.start_of_row();
    assert_eq!(
        seen(terminal.flush()),
        vec![
            Seen::ShowCursor,
            Seen::HideCursor,
            Seen::MoveTo(3, 4),
            Seen::MoveToColumn(0),
        ]
    );
    assert!(terminal.flush().is_empty());
}

#[test]
fn test_prepare_for_input() {
    let mut terminal = Terminal::new();
    terminal.setup(1, 30, 20, 5);
    terminal.flush();
    terminal.prepare_for_input(&content());
    assert_eq!(
        seen(terminal.flush()),
        vec![
            Seen::MoveTo(0, 1),
            Seen::ClearBelow,
            Seen::MoveTo(0, 1),
            plain(" "),
            Seen::Text(Style::Green, "git".to_string()),
            plain(" ok"),
            plain("\r\n"),
            plain("\r\n"),
        ]
    );
}

#[test]
fn test_replace_last_line_with_border() {
    let mut terminal = bordered(30);
    // area: rows 2..10, the last line above the bottom border is row 8
    terminal.replace_last_line(
        &[Span::new(Style::Red, "bad")],
        &[Span::new(Style::Plain, "help")],
    );
    // 26 columns available, help starts at 11, the notice takes 3
    assert_eq!(
        seen(terminal.flush()),
        vec![
            Seen::MoveTo(0, 8),
            Seen::ClearLine,
            dim("│"),
            plain(" "),
            Seen::Text(Style::Red, "bad".to_string()),
            plain("        "),
            plain("help"),
            plain("           "),
            plain(" "),
            dim("│"),
        ]
    );
}

#[test]
fn test_replace_last_line_without_border() {
    let mut terminal = Terminal::new();
    terminal.setup(2, 30, 40, 6);
    terminal.flush();
    terminal.replace_last_line(
        &[Span::new(Style::Red, "bad")],
        &[Span::new(Style::Plain, "help")],
    );
    // help starts at 13; the space and the notice take 4
    assert_eq!(
        seen(terminal.flush()),
        vec![
            Seen::MoveTo(0, 7),
            Seen::ClearLine,
            plain(" "),
            Seen::Text(Style::Red, "bad".to_string()),
            plain("         "),
            plain("help"),
        ]
    );
}

#[test]
fn test_replace_last_line_notice_longer_than_the_way_to_the_help() {
    let mut terminal = Terminal::new();
    terminal.replace_last_line(
        &[Span::new(Style::Red, "a long notice")],
        &[Span::new(Style::Plain, "help")],
    );
    assert_eq!(
        seen(terminal.flush()),
        vec![
            Seen::MoveTo(0, 0),
            Seen::ClearLine,
            plain(" "),
            Seen::Text(Style::Red, "a long notice".to_string()),
            plain(""),
            plain("help"),
        ]
    );
}

#[test]
fn test_input_prompt() {
    let mut terminal = bordered(30);
    terminal.input_prompt("count");
    assert_eq!(
        seen(terminal.flush()),
        vec![
            dim("│"),
            plain(" "),
            Seen::Text(Style::Cyan, "Enter count: ".to_string()),
            Seen::ShowCursor,
        ]
    );
}

#[test]
fn test_input_echoes_what_it_takes() {
    let mut terminal = Terminal::new();
    let mut typed = String::new();
    assert!(terminal
        .input(&InputType::Number, &mut typed, Key::Char('x'))
        .is_none());
    assert!(terminal.flush().is_empty());
    assert!(terminal
        .input(&InputType::Number, &mut typed, Key::Char('-'))
        .is_none());
    assert!(terminal
        .input(&InputType::Number, &mut typed, Key::Char('7'))
        .is_none());
    assert_eq!(typed, "-7");
    assert_eq!(seen(terminal.flush()), vec![plain("-"), plain("7")]);
    assert!(terminal
        .input(&InputType::Number, &mut typed, Key::Backspace)
        .is_none());
    assert_eq!(typed, "-");
    assert_eq!(
        seen(terminal.flush()),
        vec![Seen::MoveLeft(1), plain(" "), Seen::MoveLeft(1)]
    );
    assert!(terminal
        .input(&InputType::Number, &mut typed, Key::Up)
        .is_none());
    assert!(terminal.flush().is_empty());
}

#[test]
fn test_input_ends_with_the_text_or_an_error() {
    let mut terminal = Terminal::new();
    let mut typed = "12".to_string();
    match terminal.input(&InputType::Number, &mut typed, Key::Enter) {
        Some(Ok(text)) => assert_eq!(text, "12"),
        other => panic!("expected the text, got {:?}", other),
    }
    assert_eq!(seen(terminal.flush()), vec![Seen::HideCursor]);

    let mut typed = String::new();
    match terminal.input(&InputType::Number, &mut typed, Key::Enter) {
        Some(Err(WhichCmdError::Terminal(what))) => assert_eq!(what, "Invalid number"),
        other => panic!("expected an error, got {:?}", other),
    }

    let mut typed = String::new();
    match terminal.input(&InputType::Text, &mut typed, Key::Enter) {
        Some(Ok(text)) => assert_eq!(text, ""),
        other => panic!("expected the text, got {:?}", other),
    }

    let mut typed = "abc".to_string();
    match terminal.input(&InputType::Text, &mut typed, Key::Esc) {
        Some(Err(WhichCmdError::Terminal(what))) => assert_eq!(what, "Input cancelled"),
        other => panic!("expected an error, got {:?}", other),
    }
    assert_eq!(
        seen(terminal.flush()),
        vec![Seen::HideCursor, Seen::HideCursor, Seen::HideCursor]
    );
}
