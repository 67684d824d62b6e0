use work_buddy::history::HistoryEntryType;
use work_buddy::terminal::{
    input_height, ratatui_style, EntryColor, EntryStyle, Key, KeyAction, Mouse, TermUi,
};
use work_buddy::text::{
    same_text, split_at_char, to_chars, trimmed, trimmed_start, unix_newlines, without_trailing,
};
use work_buddy::wrap::WrapMode;

fn chat(count: usize) -> Vec<(String, HistoryEntryType)> {
    (0..count)
        .map(|i| (format!("line {}", i), HistoryEntryType::Content))
        .collect()
}

fn rows(screen: &work_buddy::terminal::Screen) -> Vec<&str> {
    screen.rows.iter().map(|row| row.0.as_str()).collect()
}

#[test]
fn the_tail_is_followed() {
    let mut ui = TermUi::new();
    let lines = chat(10);
    let screen = ui.render(&lines, 3, 20);
    assert_eq!(rows(&screen), vec!["line 7", "line 8", "line 9"]);
    assert_eq!(screen.scroll_len, 7);
    assert_eq!(screen.position, 7);
}

#[test]
fn long_lines_take_several_rows() {
    let mut ui = TermUi::new();
    let lines = vec![
        ("first".to_string(), HistoryEntryType::User),
        ("alpha beta gamma".to_string(), HistoryEntryType::Content),
    ];
    let screen = ui.render(&lines, 2, 6);
    assert_eq!(rows(&screen), vec!["beta", "gamma"]);
    assert_eq!(screen.scroll_len, 1);
    let screen = ui.render(&lines, 4, 6);
    assert_eq!(rows(&screen), vec!["first", "alpha", "beta", "gamma"]);
    assert_eq!(screen.rows[0].1, HistoryEntryType::User);
    assert_eq!(screen.rows[3].1, HistoryEntryType::Content);
    assert_eq!(screen.scroll_len, 0);
}

#[test]
fn scrolling_moves_the_screen() {
    let mut ui = TermUi::new();
    let lines = chat(10);
    ui.render(&lines, 4, 20);
    ui.scroll_up(2, lines.len());
    let screen = ui.render(&lines, 4, 20);
    assert_eq!(rows(&screen), vec!["line 4", "line 5", "line 6", "line 7"]);
    assert_eq!(screen.position, 4);
    ui.scroll_down(1, lines.len());
    assert_eq!(rows(&ui.render(&lines, 4, 20))[0], "line 5");
    ui.scroll_down(1, lines.len());
    let screen = ui.render(&lines, 4, 20);
    assert_eq!(rows(&screen)[0], "line 6");
    assert_eq!(screen.position, screen.scroll_len);
    ui.scroll_up(100, lines.len());
    assert_eq!(rows(&ui.render(&lines, 4, 20))[0], "line 0");
}

#[test]
fn scrolling_back_follows_the_tail_again() {
    let mut ui = TermUi::new();
    let mut lines = chat(10);
    ui.render(&lines, 4, 20);
    ui.scroll_up(3, lines.len());
    ui.scroll_down(3, lines.len());
    lines.push(("new".to_string(), HistoryEntryType::Content));
    assert_eq!(rows(&ui.render(&lines, 4, 20))[3], "new");
}

#[test]
fn nothing_fits_on_no_rows() {
    let mut ui = TermUi::new();
    let lines = chat(2);
    let screen = ui.render(&lines, 0, 20);
    assert!(screen.rows.is_empty());
    assert_eq!(screen.scroll_len, 2);
    assert!(ui.render(&[], 5, 20).rows.is_empty());
}

#[test]
fn keys_do_what_they_say() {
    let mut ui = TermUi::new();
    let lines = chat(20);
    ui.render(&lines, 5, 20);
    let input = vec!["one".to_string(), "two".to_string()];
    assert!(matches!(
        ui.handle_key_event(Key::Enter, true, true, &input, false, 20),
        KeyAction::Submit(text) if text == "one\ntwo"
    ));
    assert!(matches!(
        ui.handle_key_event(Key::Enter, true, false, &input, false, 20),
        KeyAction::Edit
    ));
    assert!(matches!(
        ui.handle_key_event(Key::Enter, true, true, &input, true, 20),
        KeyAction::Edit
    ));
    assert!(matches!(
        ui.handle_key_event(Key::Enter, false, true, &input, false, 20),
        KeyAction::Edit
    ));
    assert!(matches!(
        ui.handle_key_event(Key::Esc, true, true, &input, false, 20),
        KeyAction::Exit
    ));
    assert!(matches!(
        ui.handle_key_event(Key::Other, true, true, &input, false, 20),
        KeyAction::Edit
    ));
    assert!(matches!(
        ui.handle_key_event(Key::PageUp, true, true, &input, false, 20),
        KeyAction::Scrolled
    ));
    assert_eq!(rows(&ui.render(&lines, 5, 20))[0], "line 12");
    assert!(matches!(
        ui.handle_key_event(Key::PageDown, true, true, &input, false, 20),
        KeyAction::Scrolled
    ));
    assert_eq!(rows(&ui.render(&lines, 5, 20))[0], "line 15");
}

#[test]
fn the_wheel_scrolls_by_one() {
    let mut ui = TermUi::new();
    let lines = chat(9);
    ui.render(&lines, 3, 20);
    ui.handle_mouse_event(Mouse::ScrollUp, 9);
    ui.handle_mouse_event(Mouse::Other, 9);
    assert_eq!(rows(&ui.render(&lines, 3, 20))[0], "line 5");
    ui.handle_mouse_event(Mouse::ScrollDown, 9);
    assert_eq!(rows(&ui.render(&lines, 3, 20))[0], "line 6");
}

#[test]
fn the_input_box_grows_to_five_rows() {
    let text = |lines: &[&str]| -> Vec<String> {
        lines.iter().map(|line| line.to_string()).collect()
    };
    assert_eq!(input_height(&text(&[""]), WrapMode::Word, 20), 3);
    assert_eq!(input_height(&text(&["a", "b"]), WrapMode::Word, 20), 4);
    assert_eq!(input_height(&text(&["aaa bbb ccc"]), WrapMode::Word, 6), 5);
    assert_eq!(input_height(&text(&["a"; 9]), WrapMode::Word, 20), 7);
    assert_eq!(input_height(&text(&["abcdef"]), WrapMode::Glyph, 1), 7);
}

#[test]
fn pasted_text_has_plain_newlines() {
    assert_eq!(TermUi::handle_paste_event("a\r\nb\rc\n\r"), "a\nb\nc\n\n");
    assert_eq!(unix_newlines("\r\r\n"), "\n\n");
}

#[test]
fn entries_have_their_styles() {
    let style = |bold, italic, color, right| EntryStyle {
        bold,
        italic,
        color,
        right,
    };
    assert_eq!(
        ratatui_style(HistoryEntryType::User),
        style(true, false, EntryColor::Magenta, true)
    );
    assert_eq!(
        ratatui_style(HistoryEntryType::Content),
        style(true, false, EntryColor::Plain, false)
    );
    assert_eq!(
        ratatui_style(HistoryEntryType::Reasoning),
        style(false, true, EntryColor::Plain, false)
    );
    assert_eq!(
        ratatui_style(HistoryEntryType::ToolCall),
        style(false, false, EntryColor::Blue, false)
    );
    assert_eq!(
        ratatui_style(HistoryEntryType::ToolResultOk),
        style(false, false, EntryColor::Green, false)
    );
    assert_eq!(
        ratatui_style(HistoryEntryType::ToolResultErr),
        style(true, false, EntryColor::Red, false)
    );
    assert_eq!(
        ratatui_style(HistoryEntryType::Empty),
        style(false, false, EntryColor::Plain, false)
    );
}

#[test]
fn white_space_is_trimmed() {
    assert_eq!(trimmed("\t a b\u{3000}\n"), "a b");
    assert_eq!(trimmed_start("\u{a0}x "), "x ");
    assert_eq!(without_trailing("a//", '/'), "a");
    assert_eq!(trimmed(" \u{2003} "), "");
}

#[test]
fn split_text_joins_again() {
    let parts = split_at_char("a\n\nb\n", '\n');
    assert_eq!(parts, vec!["a", "", "b", ""]);
    assert_eq!(parts.join("\n"), "a\n\nb\n");
    assert_eq!(to_chars("aé"), vec!['a', 'é']);
    assert!(same_text("é", "é") && !same_text("a", "ab"));
}
