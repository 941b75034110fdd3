use which_cmd::input::{column_behind, row_below, Input, InputAction};
use which_cmd::key::Key;
use which_cmd::node::InputType;
use which_cmd::style::Style;
use which_cmd::terminal::{Draw, Terminal};

fn type_text(dialog: &Input, typed: &mut String, text: &str) {
    for c in text.chars() {
        dialog.handle_key(typed, Key::Char(c));
    }
}

#[test]
fn test_input_prompt_names_what_is_asked_for() {
    let kind = InputType::Text;
    let dialog = Input::new(&kind, "branch");
    assert_eq!(dialog.prompt, "Enter branch: ");
    assert_eq!(*dialog.input_type, InputType::Text);
}

#[test]
fn test_text_input_takes_any_character() {
    let kind = InputType::Text;
    let dialog = Input::new(&kind, "message");
    let mut typed = String::new();
    assert_eq!(
        dialog.handle_key(&mut typed, Key::Char('f')),
        InputAction::Redraw
    );
    assert_eq!(
        dialog.handle_key(&mut typed, Key::Char('-')),
        InputAction::Redraw
    );
    assert_eq!(
        dialog.handle_key(&mut typed, Key::Char('é')),
        InputAction::Redraw
    );
    assert_eq!(typed, "f-é");
    assert_eq!(dialog.handle_key(&mut typed, Key::Enter), InputAction::Submit);
    assert_eq!(typed, "f-é");
}

#[test]
fn test_text_input_may_be_empty() {
    let kind = InputType::Text;
    let dialog = Input::new(&kind, "message");
    let mut typed = String::new();
    assert_eq!(dialog.handle_key(&mut typed, Key::Enter), InputAction::Submit);
}

#[test]
fn test_number_input_rejects_the_offending_character() {
    let kind = InputType::Number;
    let dialog = Input::new(&kind, "count");
    let mut typed = String::new();
    assert_eq!(
        dialog.handle_key(&mut typed, Key::Char('x')),
        InputAction::Ignore
    );
    assert_eq!(
        dialog.handle_key(&mut typed, Key::Char('-')),
        InputAction::Redraw
    );
    assert_eq!(
        dialog.handle_key(&mut typed, Key::Char('-')),
        InputAction::Ignore
    );
    assert_eq!(
        dialog.handle_key(&mut typed, Key::Char('4')),
        InputAction::Redraw
    );
    assert_eq!(
        dialog.handle_key(&mut typed, Key::Char(' ')),
        InputAction::Ignore
    );
    assert_eq!(
        dialog.handle_key(&mut typed, Key::Char('2')),
        InputAction::Redraw
    );
    assert_eq!(typed, "-42");
    assert_eq!(dialog.handle_key(&mut typed, Key::Enter), InputAction::Submit);
}

#[test]
fn test_number_input_empty_is_a_cancel() {
    let kind = InputType::Number;
    let dialog = Input::new(&kind, "count");
    let mut typed = String::new();
    assert_eq!(dialog.handle_key(&mut typed, Key::Enter), InputAction::Cancel);
}

#[test]
fn test_number_input_without_digits_is_invalid() {
    let kind = InputType::Number;
    let dialog = Input::new(&kind, "count");
    let mut typed = String::new();
    type_text(&dialog, &mut typed, "-");
    assert_eq!(
        dialog.handle_key(&mut typed, Key::Enter),
        InputAction::Invalid
    );
    assert_eq!(typed, "-");
}

#[test]
fn test_number_input_limits_are_those_of_32_bits() {
    let kind = InputType::Number;
    let dialog = Input::new(&kind, "count");

    let mut typed = String::new();
    type_text(&dialog, &mut typed, "2147483647");
    assert_eq!(dialog.handle_key(&mut typed, Key::Enter), InputAction::Submit);

    let mut typed = String::new();
    type_text(&dialog, &mut typed, "2147483648");
    assert_eq!(
        dialog.handle_key(&mut typed, Key::Enter),
        InputAction::Invalid
    );

    let mut typed = String::new();
    type_text(&dialog, &mut typed, "-2147483648");
    assert_eq!(dialog.handle_key(&mut typed, Key::Enter), InputAction::Submit);

    let mut typed = String::new();
    type_text(&dialog, &mut typed, "-2147483649");
    assert_eq!(
        dialog.handle_key(&mut typed, Key::Enter),
        InputAction::Invalid
    );

    let mut typed = String::new();
    type_text(&dialog, &mut typed, "0007");
    assert_eq!(dialog.handle_key(&mut typed, Key::Enter), InputAction::Submit);
}

#[test]
fn test_number_input_refuses_text_that_was_not_typed_here() {
    let kind = InputType::Number;
    let dialog = Input::new(&kind, "count");
    let mut typed = "+5".to_string();
    assert_eq!(
        dialog.handle_key(&mut typed, Key::Enter),
        InputAction::Invalid
    );
    let mut typed = "1a".to_string();
    assert_eq!(
        dialog.handle_key(&mut typed, Key::Enter),
        InputAction::Invalid
    );
}

#[test]
fn test_backspace_takes_the_last_character() {
    let kind = InputType::Text;
    let dialog = Input::new(&kind, "message");
    let mut typed = String::new();
    assert_eq!(
        dialog.handle_key(&mut typed, Key::Backspace),
        InputAction::Ignore
    );
    type_text(&dialog, &mut typed, "abé");
    assert_eq!(
        dialog.handle_key(&mut typed, Key::Backspace),
        InputAction::Redraw
    );
    assert_eq!(typed, "ab");
}

#[test]
fn test_escape_cancels_and_other_keys_do_nothing() {
    let kind = InputType::Text;
    let dialog = Input::new(&kind, "message");
    let mut typed = "abc".to_string();
    assert_eq!(dialog.handle_key(&mut typed, Key::Up), InputAction::Ignore);
    assert_eq!(dialog.handle_key(&mut typed, Key::Other), InputAction::Ignore);
    assert_eq!(dialog.handle_key(&mut typed, Key::Esc), InputAction::Cancel);
    assert_eq!(typed, "abc");
}

#[test]
fn test_cursor_column_and_row() {
    assert_eq!(column_behind(1, 14, 3), 19);
    assert_eq!(column_behind(0, 0, 0), 1);
    assert_eq!(column_behind(2, 65535, 0), 65535);
    assert_eq!(column_behind(2, usize::MAX, usize::MAX), 65535);
    assert_eq!(row_below(7, true), 8);
    assert_eq!(row_below(7, false), 7);
    assert_eq!(row_below(65535, true), 65535);
}

fn texts(draws: &[Draw]) -> Vec<(Style, String)> {
    draws
        .iter()
        .filter_map(|d| match d {
            Draw::Text(span) => Some((span.style, span.text.clone())),
            _ => None,
        })
        .collect()
}

#[test]
fn test_input_render_without_border() {
    let kind = InputType::Text;
    let dialog = Input::new(&kind, "name");
    let mut terminal = Terminal::new();
    terminal.setup(3, 40, 24, 5);
    terminal.flush();
    dialog.render(&mut terminal, "ab");
    let draws = terminal.flush();
    // clear (3), line: space, prompt, text, newline; 2 filler + 1 empty line;
    // centred hint: move + 2 spans; cursor
    assert!(matches!(draws[0], Draw::MoveTo(0, 3)));
    assert!(matches!(draws[1], Draw::ClearBelow));
    assert!(matches!(draws[2], Draw::MoveTo(0, 3)));
    let shown = texts(&draws);
    assert_eq!(shown[0], (Style::Plain, " ".to_string()));
    assert_eq!(shown[1], (Style::Cyan, "Enter name: ".to_string()));
    assert_eq!(shown[2], (Style::Plain, "ab".to_string()));
    assert_eq!(shown[3], (Style::Plain, "\r\n".to_string()));
    assert_eq!(shown[4], (Style::Plain, "\r\n".to_string()));
    assert_eq!(shown[5], (Style::Plain, "\r\n".to_string()));
    assert_eq!(shown[6], (Style::Plain, "\r\n".to_string()));
    assert_eq!(shown[7], (Style::Plain, "\u{f12b7}  ".to_string()));
    assert_eq!(shown[8], (Style::DarkGrey, "cancel".to_string()));
    assert_eq!(shown.len(), 9);
    // prompt is 12 columns, one more, text is 2
    assert!(matches!(draws[draws.len() - 1], Draw::MoveTo(15, 3)));
}
