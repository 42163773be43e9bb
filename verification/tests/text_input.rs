use merces_tui::widgets::text_input::{
    CursorCell, Key, Modifiers, Shown, TextInput, TextInputState,
};

const NONE: Modifiers = Modifiers { shift: false, control: false, alt: false };

fn typed(text: &str) -> TextInputState {
    let mut state = TextInputState::default();
    for c in text.chars() {
        state.handle_events(Key::Char(c), NONE);
    }
    state
}

fn text_of(state: &TextInputState) -> String {
    state.text.iter().collect()
}

#[test]
fn hello_and_two_backspaces() {
    let mut state = typed("hello");
    assert_eq!(text_of(&state), "hello");
    assert_eq!(state.cursor_pos, 5);
    state.handle_events(Key::Backspace, NONE);
    state.handle_events(Key::Backspace, NONE);
    assert_eq!(text_of(&state), "hel");
    assert_eq!(state.cursor_pos, 3);
}

#[test]
fn fifty_characters_in_ten_cells() {
    let mut state = TextInputState::default();
    for i in 0..50u8 {
        state.apply_key(Key::Char((b'a' + i % 26) as char), NONE, 10);
        assert!(state.start <= state.cursor_pos);
        assert!(state.cursor_pos - state.start <= 9);
        assert!(state.start <= state.text.len());
    }
    assert_eq!(state.cursor_pos, 50);
    assert_eq!(state.start, 41);
}

#[test]
fn fifty_characters_scrolled_when_shown() {
    let mut state = TextInputState::default();
    for i in 0..50u8 {
        state.handle_events(Key::Char((b'a' + i % 26) as char), NONE);
        let (_, column) = state.visible_slice(10);
        assert!(column <= 9);
        assert_eq!(column, state.cursor_pos - state.start);
    }
}

#[test]
fn delete_at_the_last_character_retreats() {
    let mut state = typed("abc");
    state.handle_events(Key::Left, NONE);
    assert_eq!(state.cursor_pos, 2);
    state.handle_events(Key::Delete, NONE);
    assert_eq!(text_of(&state), "ab");
    assert_eq!(state.cursor_pos, 1);
}

#[test]
fn delete_of_the_only_character() {
    let mut state = typed("a");
    state.handle_events(Key::Left, NONE);
    state.handle_events(Key::Delete, NONE);
    assert_eq!(text_of(&state), "");
    assert_eq!(state.cursor_pos, 0);
}

#[test]
fn delete_in_the_middle_keeps_the_cursor() {
    let mut state = typed("abcd");
    state.handle_events(Key::Left, NONE);
    state.handle_events(Key::Left, NONE);
    state.handle_events(Key::Left, NONE);
    state.handle_events(Key::Delete, NONE);
    assert_eq!(text_of(&state), "acd");
    assert_eq!(state.cursor_pos, 1);
}

#[test]
fn delete_past_the_end_and_backspace_at_the_start_do_nothing() {
    let mut state = typed("ab");
    state.handle_events(Key::Delete, NONE);
    assert_eq!(text_of(&state), "ab");
    assert_eq!(state.cursor_pos, 2);
    state.handle_events(Key::Left, NONE);
    state.handle_events(Key::Left, NONE);
    state.handle_events(Key::Backspace, NONE);
    assert_eq!(text_of(&state), "ab");
    assert_eq!(state.cursor_pos, 0);
}

#[test]
fn moves_stop_at_the_ends() {
    let mut state = typed("ab");
    state.handle_events(Key::Right, NONE);
    assert_eq!(state.cursor_pos, 2);
    state.handle_events(Key::Left, NONE);
    state.handle_events(Key::Left, NONE);
    state.handle_events(Key::Left, NONE);
    assert_eq!(state.cursor_pos, 0);
    state.handle_events(Key::Right, NONE);
    assert_eq!(state.cursor_pos, 1);
}

#[test]
fn insert_in_the_middle() {
    let mut state = typed("ac");
    state.handle_events(Key::Left, NONE);
    state.handle_events(Key::Char('b'), NONE);
    assert_eq!(text_of(&state), "abc");
    assert_eq!(state.cursor_pos, 2);
}

#[test]
fn other_keys_change_nothing() {
    for key in [Key::Enter, Key::Esc, Key::Tab, Key::BackTab, Key::Other] {
        let mut state = typed("abc");
        state.handle_events(Key::Left, NONE);
        state.handle_events(key, Modifiers { shift: true, control: true, alt: false });
        assert_eq!(text_of(&state), "abc");
        assert_eq!(state.cursor_pos, 2);
        assert_eq!(state.start, 0);
    }
}

#[test]
fn modifiers_do_not_matter() {
    let mut plain = typed("ab");
    let mut held = typed("ab");
    plain.handle_events(Key::Char('c'), NONE);
    held.handle_events(Key::Char('c'), Modifiers { shift: true, control: true, alt: true });
    assert_eq!(plain.text, held.text);
    assert_eq!(plain.cursor_pos, held.cursor_pos);
}

#[test]
fn characters_wider_than_a_byte_count_once() {
    let mut state = typed("h\u{e9}llo");
    assert_eq!(state.cursor_pos, 5);
    state.handle_events(Key::Backspace, NONE);
    state.handle_events(Key::Backspace, NONE);
    state.handle_events(Key::Backspace, NONE);
    state.handle_events(Key::Backspace, NONE);
    assert_eq!(text_of(&state), "h");
    assert_eq!(state.cursor_pos, 1);
}

#[test]
fn the_window_follows_the_cursor_to_the_right() {
    let mut state = typed("abcdefghijklmnop");
    let (shown, column) = state.visible_slice(5);
    assert_eq!(state.start, 12);
    assert_eq!(shown.iter().collect::<String>(), "mnop");
    assert_eq!(column, 4);
}

#[test]
fn the_window_follows_the_cursor_to_the_left() {
    let mut state = typed("abcdefghijklmnop");
    state.scroll_to_cursor(5);
    assert_eq!(state.start, 12);
    for _ in 0..6 {
        state.handle_events(Key::Left, NONE);
    }
    assert_eq!(state.start, 12);
    let (shown, column) = state.visible_slice(5);
    assert_eq!(state.start, 10);
    assert_eq!(shown.iter().collect::<String>(), "klmno");
    assert_eq!(column, 0);
}

#[test]
fn the_window_stays_while_it_holds_the_cursor() {
    let mut state = typed("abcdefghijklmnop");
    state.scroll_to_cursor(5);
    state.handle_events(Key::Left, NONE);
    state.handle_events(Key::Left, NONE);
    state.scroll_to_cursor(5);
    assert_eq!(state.start, 12);
    state.scroll_to_cursor(5);
    assert_eq!(state.start, 12);
}

#[test]
fn a_short_text_is_shown_whole() {
    let mut state = typed("abc");
    let (shown, column) = state.visible_slice(10);
    assert_eq!(shown.iter().collect::<String>(), "abc");
    assert_eq!(column, 3);
    assert_eq!(state.start, 0);
}

#[test]
fn a_window_of_one_or_no_cell() {
    let mut state = typed("abc");
    let (shown, column) = state.visible_slice(1);
    assert_eq!(state.start, 3);
    assert!(shown.is_empty());
    assert_eq!(column, 0);
    let mut state = typed("abc");
    state.handle_events(Key::Left, NONE);
    let (shown, column) = state.visible_slice(0);
    assert_eq!(state.start, 2);
    assert_eq!(shown.iter().collect::<String>(), "c");
    assert_eq!(column, 0);
}

#[test]
fn an_emptied_line_has_its_window_at_the_start() {
    let mut state = typed("abcdef");
    state.scroll_to_cursor(3);
    assert_eq!(state.start, 4);
    for left in [5, 4, 3, 2, 1, 0] {
        state.handle_events(Key::Backspace, NONE);
        assert_eq!(state.text.len(), left);
        assert!(state.start <= state.text.len());
        assert!(state.is_wf());
    }
    assert_eq!(state.cursor_pos, 0);
    assert_eq!(state.start, 0);
    let (shown, column) = state.visible_slice(3);
    assert!(shown.is_empty());
    assert_eq!(column, 0);
    assert_eq!(state.start, 0);
}

#[test]
fn a_window_left_behind_comes_back_when_the_line_is_shown() {
    let mut state = TextInputState::default();
    state.start = 0;
    state.handle_events(Key::Char('a'), NONE);
    state.handle_events(Key::Char('b'), NONE);
    state.scroll_to_cursor(1);
    assert_eq!(state.start, 2);
    state.handle_events(Key::Left, NONE);
    state.handle_events(Key::Left, NONE);
    assert_eq!(state.start, 2);
    state.scroll_to_cursor(1);
    assert_eq!(state.start, 0);
}

#[test]
fn a_new_line_is_empty_with_the_default_hint() {
    let state = TextInputState::default();
    assert!(state.text.is_empty());
    assert_eq!(state.cursor_pos, 0);
    assert_eq!(state.start, 0);
    assert_eq!(state.hint_text.as_deref(), Some("<hint text>"));
    let state = state.hint_text("\u{f002} Search...");
    assert_eq!(state.hint_text.as_deref(), Some("\u{f002} Search..."));
    assert!(state.text.is_empty());
    assert_eq!(state.cursor_pos, 0);
}

#[test]
fn the_hint_is_shown_for_an_empty_line() {
    let mut state = TextInputState::default().hint_text("find");
    let view = TextInput::default().render_cursor(true).render(10, &mut state);
    assert!(matches!(&view.shown, Shown::Hint(h) if h == "find"));
    assert_eq!(view.cursor, None);
    state.hint_text = None;
    let view = TextInput::default().render(10, &mut state);
    assert!(matches!(view.shown, Shown::Blank));
    assert_eq!(view.cursor, None);
}

#[test]
fn the_text_is_shown_with_its_cursor() {
    let mut state = typed("abcdefgh");
    state.handle_events(Key::Left, NONE);
    let view = TextInput::default().render_cursor(true).render(4, &mut state);
    assert_eq!(state.start, 4);
    assert!(matches!(&view.shown, Shown::Text(t) if t.iter().collect::<String>() == "efgh"));
    assert_eq!(view.cursor, Some(CursorCell { column: 3, glyph: 'h' }));
    let view = TextInput::default().render(4, &mut state);
    assert_eq!(view.cursor, None);
}

#[test]
fn the_cursor_past_the_end_borrows_from_the_hint() {
    let mut state = typed("ab").hint_text("wxyz");
    let view = TextInput::default().render_cursor(true).render(10, &mut state);
    assert_eq!(view.cursor, Some(CursorCell { column: 2, glyph: 'y' }));
    assert_eq!(state.char_at_cursor(), 'y');
    let mut state = typed("abcdef").hint_text("wxyz");
    let view = TextInput::default().render_cursor(true).render(10, &mut state);
    assert_eq!(view.cursor, Some(CursorCell { column: 6, glyph: ' ' }));
    state.hint_text = None;
    assert_eq!(state.char_at_cursor(), ' ');
}

#[test]
fn the_widget_keeps_its_settings() {
    let plain = ratatui::style::Style::new();
    let red = ratatui::style::Style::new().fg(ratatui::style::Color::Red);
    let widget = TextInput::default();
    assert!(!widget.render_cursor);
    let widget = widget.style(red).render_cursor(true);
    assert_eq!(widget.style, red);
    assert_eq!(widget.hint_style, plain);
    assert!(widget.render_cursor);
    let widget = widget.hint_style(red).style(plain);
    assert_eq!(widget.style, plain);
    assert_eq!(widget.hint_style, red);
    assert!(widget.render_cursor);
}

#[test]
fn typing_into_a_cleared_line_shows_what_is_typed() {
    let mut state = typed("abcdef");
    state.scroll_to_cursor(3);
    assert_eq!(state.start, 4);
    for _ in 0..6 {
        state.apply_key(Key::Backspace, NONE, 3);
        assert!(state.start <= state.cursor_pos);
        assert!(state.cursor_pos - state.start <= 2);
    }
    assert!(state.text.is_empty());
    assert_eq!(state.start, 0);
    state.apply_key(Key::Char('x'), NONE, 3);
    assert_eq!(state.cursor_pos, 1);
    assert_eq!(state.start, 0);
    let (shown, column) = state.visible_slice(3);
    assert_eq!(shown.iter().collect::<String>(), "x");
    assert_eq!(column, 1);
}

#[test]
fn fifty_typed_fifty_erased_and_one_more() {
    let widget = TextInput::default().render_cursor(true);
    let mut state = TextInputState::default();
    for i in 0..50u8 {
        state.handle_events(Key::Char((b'a' + i % 26) as char), NONE);
        TextInput::default().render(10, &mut state);
        assert!(state.start <= state.cursor_pos && state.cursor_pos - state.start <= 9);
    }
    assert_eq!(state.start, 41);
    for _ in 0..50 {
        state.handle_events(Key::Backspace, NONE);
        TextInput::default().render(10, &mut state);
        assert!(state.start <= state.text.len());
        assert!(state.start <= state.cursor_pos && state.cursor_pos - state.start <= 9);
    }
    assert!(state.text.is_empty());
    assert_eq!(state.cursor_pos, 0);
    assert_eq!(state.start, 0);
    state.handle_events(Key::Char('z'), NONE);
    let view = widget.render(10, &mut state);
    assert_eq!(state.text, vec!['z']);
    assert_eq!(state.cursor_pos, 1);
    assert_eq!(state.start, 0);
    assert!(matches!(&view.shown, Shown::Text(t) if t.iter().collect::<String>() == "z"));
    // past the end of the text the cursor shows the hint's character there
    assert_eq!(view.cursor, Some(CursorCell { column: 1, glyph: 'h' }));
    let (shown, column) = state.visible_slice(10);
    assert_eq!(shown, vec!['z']);
    assert_eq!(column, 1);
}

#[test]
fn a_cursor_past_the_text_is_told() {
    let mut state = typed("ab");
    assert!(state.is_wf());
    state.cursor_pos = 2;
    assert!(state.is_wf());
    state.cursor_pos = 3;
    assert!(!state.is_wf());
    state.cursor_pos = 0;
    state.start = 2;
    assert!(state.is_wf());
    state.start = 3;
    assert!(!state.is_wf());
}
