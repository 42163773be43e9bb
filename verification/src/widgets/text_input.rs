//! An editable line of text with a cursor and a scrolling window.
//!
//! The text is a sequence of characters, each one cell wide. The cursor
//! is an index into it, or the index just past its end. The window shows
//! the characters from `start` on, as many as the widget is wide; before
//! the text is shown the window is moved, as little as possible, so that
//! the cursor lies in it.

use vstd::prelude::*;
use vstd::string::StrSliceExecFns;
use ratatui::style::Style;

verus! {

/// The style of a run of cells, as `ratatui` has it. The library hands
/// styles on to whoever draws and never looks into one.
#[verifier::external_type_specification]
#[verifier::external_body]
pub struct ExStyle(ratatui::style::Style);

/// `Style::new` of `ratatui`: the style that sets nothing. Nothing is
/// claimed of it here.
pub assume_specification[ ratatui::style::Style::new ]() -> (r: ratatui::style::Style)
;

/// A key press, as far as the widgets tell keys apart. A text line acts
/// on the first five and leaves itself unchanged on the others.
#[derive(Clone, Copy, Debug, PartialEq, Eq, Structural)]
pub enum Key {
    Left,
    Right,
    Backspace,
    Delete,
    Char(char),
    Enter,
    Esc,
    Tab,
    BackTab,
    Up,
    Down,
    PageUp,
    PageDown,
    /// Any other key.
    Other,
}

/// The modifier keys held down with a key press. The text line treats a
/// key the same whatever is held with it.
#[derive(Clone, Copy, Debug, PartialEq, Eq, Structural)]
pub struct Modifiers {
    pub shift: bool,
    pub control: bool,
    pub alt: bool,
}

/// The state of a text line.
pub struct TextInputState {
    pub cursor_pos: usize,
    pub text: Vec<char>,
    pub hint_text: Option<String>,
    pub start: usize,
}

/// The mathematical model of a text line.
pub ghost struct TextModel {
    pub text: Seq<char>,
    pub cursor: int,
    pub start: int,
    pub hint: Option<Seq<char>>,
}

/// The number of cells behind the first one of the window: one less than
/// the width, and zero for a window without any cell.
pub open spec fn visible_width(viewport_width: int) -> int {
    if viewport_width > 0 {
        viewport_width - 1
    } else {
        0
    }
}

/// The start of the window once the text has become `text`: where it was,
/// but not past the end of the text.
pub open spec fn start_within(start: int, text: Seq<char>) -> int {
    if start > text.len() {
        text.len() as int
    } else {
        start
    }
}

/// The line after a key press. The cursor moves and the text changes as
/// the key says. The window stays where it is, but that a text that has
/// become shorter takes the start of the window back to its end.
pub open spec fn apply_key(m: TextModel, key: Key) -> TextModel {
    match key {
        Key::Left => TextModel {
            cursor: if m.cursor > 0 {
                m.cursor - 1
            } else {
                0
            },
            ..m
        },
        Key::Right => TextModel {
            cursor: if m.cursor < m.text.len() {
                m.cursor + 1
            } else {
                m.text.len() as int
            },
            ..m
        },
        Key::Backspace => if m.cursor > 0 {
            let text = m.text.remove(m.cursor - 1);
            TextModel { text, cursor: m.cursor - 1, start: start_within(m.start, text), ..m }
        } else {
            m
        },
        Key::Delete => if m.cursor < m.text.len() {
            let text = m.text.remove(m.cursor);
            TextModel {
                text,
                cursor: if m.cursor == text.len() && text.len() > 0 {
                    m.cursor - 1
                } else {
                    m.cursor
                },
                start: start_within(m.start, text),
                ..m
            }
        } else {
            m
        },
        Key::Char(c) => TextModel { text: m.text.insert(m.cursor, c), cursor: m.cursor + 1, ..m },
        _ => m,
    }
}

/// The line after its window has been moved, as little as possible, to
/// hold the cursor: forward if the cursor lies behind it, back if the
/// cursor lies before it.
pub open spec fn scrolled(m: TextModel, viewport_width: int) -> TextModel {
    let w = visible_width(viewport_width);
    if m.cursor > m.start + w {
        TextModel { start: m.cursor - w, ..m }
    } else if m.cursor < m.start {
        TextModel { start: m.cursor, ..m }
    } else {
        m
    }
}

/// Whether the cursor lies in the text or just past its end.
pub open spec fn cursor_in_range(m: TextModel) -> bool {
    0 <= m.cursor <= m.text.len()
}

/// Whether the window starts in the text or just past its end.
pub open spec fn window_in_text(m: TextModel) -> bool {
    0 <= m.start <= m.text.len()
}

/// Whether the window starts in the text and holds the cursor.
pub open spec fn cursor_visible(m: TextModel, viewport_width: int) -> bool {
    &&& window_in_text(m)
    &&& m.start <= m.cursor <= m.start + visible_width(viewport_width)
}

/// The index just past the last character that the window shows.
pub open spec fn visible_end(m: TextModel, viewport_width: int) -> int {
    let end = m.start + visible_width(viewport_width) + 1;
    if end < m.text.len() {
        end
    } else {
        m.text.len() as int
    }
}

/// The characters that the window shows.
pub open spec fn visible_text(m: TextModel, viewport_width: int) -> Seq<char> {
    m.text.subrange(m.start, visible_end(m, viewport_width))
}

/// The character under the cursor: that of the text, or else that of the
/// hint at the same index, or else a blank.
pub open spec fn cursor_char(m: TextModel) -> char {
    if 0 <= m.cursor < m.text.len() {
        m.text[m.cursor]
    } else {
        match m.hint {
            Some(hint) => if 0 <= m.cursor < hint.len() {
                hint[m.cursor]
            } else {
                ' '
            },
            None => ' ',
        }
    }
}

/// The hint of a new text line.
pub open spec fn default_hint() -> Seq<char> {
    "<hint text>"@
}

impl View for TextInputState {
    type V = TextModel;

    open spec fn view(&self) -> TextModel {
        TextModel {
            text: self.text@,
            cursor: self.cursor_pos as int,
            start: self.start as int,
            hint: match self.hint_text {
                Some(hint) => Some(hint@),
                None => None,
            },
        }
    }
}

impl Default for TextInputState {
    /// An empty line with the cursor and the window at its start, and the
    /// default hint.
    fn default() -> (r: TextInputState)
        ensures
            r@ == (TextModel {
                text: Seq::empty(),
                cursor: 0,
                start: 0,
                hint: Some(default_hint()),
            }),
    {
        TextInputState {
            cursor_pos: 0,
            text: Vec::new(),
            hint_text: Some("<hint text>".to_owned()),
            start: 0,
        }
    }
}

impl TextInputState {
    /// The invariant of a text line: the cursor and the start of the
    /// window each lie in the text or just past its end.
    pub open spec fn wf(&self) -> bool {
        cursor_in_range(self@) && window_in_text(self@)
    }

    /// Tests the invariant of a text line.
    pub fn is_wf(&self) -> (r: bool)
        ensures
            r == self.wf(),
    {
        self.cursor_pos <= self.text.len() && self.start <= self.text.len()
    }

    /// The same line with another hint.
    pub fn hint_text(self, hint_text: &str) -> (r: TextInputState)
        ensures
            r@ == (TextModel { hint: Some(hint_text@), ..self@ }),
    {
        TextInputState {
            cursor_pos: self.cursor_pos,
            text: self.text,
            hint_text: Some(hint_text.to_owned()),
            start: self.start,
        }
    }

    /// Applies a key press to the line. The window keeps its start within
    /// the text; it is moved to hold the cursor once the width is known.
    pub fn handle_events(&mut self, key: Key, modifiers: Modifiers)
        requires
            old(self).wf(),
        ensures
            final(self)@ == apply_key(old(self)@, key),
            final(self).wf(),
    {
        match key {
            Key::Left => {
                if self.cursor_pos > 0 {
                    self.cursor_pos = self.cursor_pos - 1;
                }
            },
            Key::Right => {
                if self.cursor_pos < self.text.len() {
                    self.cursor_pos = self.cursor_pos + 1;
                }
            },
            Key::Backspace => {
                if self.cursor_pos > 0 {
                    self.cursor_pos = self.cursor_pos - 1;
                    self.text.remove(self.cursor_pos);
                    if self.start > self.text.len() {
                        self.start = self.text.len();
                    }
                }
            },
            Key::Delete => {
                if self.cursor_pos < self.text.len() {
                    self.text.remove(self.cursor_pos);
                    if self.cursor_pos == self.text.len() && self.text.len() > 0 {
                        self.cursor_pos = self.cursor_pos - 1;
                    }
                    if self.start > self.text.len() {
                        self.start = self.text.len();
                    }
                }
            },
            Key::Char(c) => {
                self.text.insert(self.cursor_pos, c);
                assert(self.cursor_pos < self.text.len());
                self.cursor_pos = self.cursor_pos + 1;
            },
            _ => {},
        }
    }

    /// Moves the window, as little as possible, so that it holds the
    /// cursor.
    pub fn scroll_to_cursor(&mut self, viewport_width: u16)
        requires
            old(self).wf(),
        ensures
            final(self)@ == scrolled(old(self)@, viewport_width as int),
            final(self).wf(),
            cursor_visible(final(self)@, viewport_width as int),
    {
        let w: usize = if viewport_width > 0 {
            (viewport_width - 1) as usize
        } else {
            0
        };
        if self.cursor_pos > self.start && self.cursor_pos - self.start > w {
            self.start = self.cursor_pos - w;
        } else if self.cursor_pos < self.start {
            self.start = self.cursor_pos;
        }
    }

    /// Applies a key press and then moves the window to hold the cursor.
    /// Afterwards the cursor and the start of the window lie in the text
    /// or just past its end, and the cursor lies in the window.
    pub fn apply_key(&mut self, key: Key, modifiers: Modifiers, viewport_width: u16)
        requires
            old(self).wf(),
        ensures
            final(self)@ == scrolled(apply_key(old(self)@, key), viewport_width as int),
            final(self).wf(),
            0 <= final(self)@.start <= final(self)@.text.len(),
            cursor_visible(final(self)@, viewport_width as int),
    {
        self.handle_events(key, modifiers);
        self.scroll_to_cursor(viewport_width);
    }

    /// Moves the window to hold the cursor and gives the characters that
    /// it then shows, with the cursor's column in the window.
    pub fn visible_slice(&mut self, viewport_width: u16) -> (r: (Vec<char>, usize))
        requires
            old(self).wf(),
        ensures
            final(self)@ == scrolled(old(self)@, viewport_width as int),
            final(self).wf(),
            cursor_visible(final(self)@, viewport_width as int),
            r.0@ == visible_text(final(self)@, viewport_width as int),
            r.1 == final(self)@.cursor - final(self)@.start,
    {
        let mut shown: Vec<char> = Vec::new();
        self.scroll_to_cursor(viewport_width);
        let w: usize = if viewport_width > 0 {
            (viewport_width - 1) as usize
        } else {
            0
        };
        let len = self.text.len();
        let end: usize = if len - self.start > w + 1 {
            self.start + w + 1
        } else {
            len
        };
        let mut i: usize = self.start;
        while i < end
            invariant
                self.start <= i <= end <= self.text@.len(),
                shown@ == self.text@.subrange(self.start as int, i as int),
            decreases end - i,
        {
            shown.push(self.text[i]);
            assert(self.text@.subrange(self.start as int, i + 1) =~= self.text@.subrange(
                self.start as int,
                i as int,
            ).push(self.text@[i as int]));
            i = i + 1;
        }
        (shown, self.cursor_pos - self.start)
    }

    /// The character under the cursor: that of the text, or else that of
    /// the hint at the same index, or else a blank.
    pub fn char_at_cursor(&self) -> (r: char)
        ensures
            r == cursor_char(self@),
    {
        if self.cursor_pos < self.text.len() {
            self.text[self.cursor_pos]
        } else {
            match &self.hint_text {
                Some(hint) => {
                    let s = hint.as_str();
                    if self.cursor_pos < s.unicode_len() {
                        s.get_char(self.cursor_pos)
                    } else {
                        ' '
                    }
                },
                None => ' ',
            }
        }
    }
}

/// What a text line shows in its cells.
pub enum Shown {
    /// The characters of the text that lie in the window.
    Text(Vec<char>),
    /// The hint, for a line without text.
    Hint(String),
    /// Nothing, for a line without text and without a hint.
    Blank,
}

/// The cell of the cursor: its column in the window and the character
/// drawn in it.
#[derive(Clone, Copy, Debug, PartialEq, Eq, Structural)]
pub struct CursorCell {
    pub column: u16,
    pub glyph: char,
}

/// What is to be drawn of a text line.
pub struct TextInputView {
    pub shown: Shown,
    pub cursor: Option<CursorCell>,
}

/// A text line as a widget: how it is styled and whether its cursor is
/// drawn.
pub struct TextInput {
    pub style: Style,
    pub hint_style: Style,
    pub render_cursor: bool,
}

impl Default for TextInput {
    /// A widget that does not draw the cursor.
    fn default() -> (r: TextInput)
        ensures
            !r.render_cursor,
    {
        TextInput { style: Style::new(), hint_style: Style::new(), render_cursor: false }
    }
}

impl TextInput {
    /// The same widget with another style for the text.
    pub fn style(self, style: Style) -> (r: TextInput)
        ensures
            r == (TextInput { style, ..self }),
    {
        TextInput { style, hint_style: self.hint_style, render_cursor: self.render_cursor }
    }

    /// The same widget with another style for the hint.
    pub fn hint_style(self, hint_style: Style) -> (r: TextInput)
        ensures
            r == (TextInput { hint_style, ..self }),
    {
        TextInput { style: self.style, hint_style, render_cursor: self.render_cursor }
    }

    /// The same widget, drawing the cursor or not.
    pub fn render_cursor(self, render: bool) -> (r: TextInput)
        ensures
            r == (TextInput { render_cursor: render, ..self }),
    {
        TextInput { style: self.style, hint_style: self.hint_style, render_cursor: render }
    }

    /// Whether `view` is what this widget draws of the line `m`, whose
    /// window has been moved to hold the cursor, in `viewport_width`
    /// cells.
    pub open spec fn draws(self, m: TextModel, viewport_width: int, view: TextInputView) -> bool {
        &&& match view.shown {
            Shown::Text(chars) => m.text.len() > 0 && chars@ == visible_text(m, viewport_width),
            Shown::Hint(hint) => m.text.len() == 0 && m.hint == Some(hint@),
            Shown::Blank => m.text.len() == 0 && m.hint is None,
        }
        &&& match view.cursor {
            Some(cell) => {
                &&& self.render_cursor
                &&& m.text.len() > 0
                &&& cell.column == m.cursor - m.start
                &&& cell.glyph == cursor_char(m)
            },
            None => !self.render_cursor || m.text.len() == 0,
        }
    }

    /// Moves the window of the line to hold the cursor and gives what is
    /// to be drawn in `viewport_width` cells: the visible part of the
    /// text, or the hint if there is no text; and the cell of the cursor,
    /// if the cursor is drawn and there is text.
    pub fn render(self, viewport_width: u16, state: &mut TextInputState) -> (r: TextInputView)
        requires
            old(state).wf(),
        ensures
            final(state)@ == scrolled(old(state)@, viewport_width as int),
            final(state).wf(),
            cursor_visible(final(state)@, viewport_width as int),
            self.draws(final(state)@, viewport_width as int, r),
    {
        let (chars, column) = state.visible_slice(viewport_width);
        if state.text.len() == 0 {
            let shown = match &state.hint_text {
                Some(hint) => Shown::Hint(hint.clone()),
                None => Shown::Blank,
            };
            return TextInputView { shown, cursor: None };
        }
        let cursor = if self.render_cursor {
            Some(CursorCell { column: column as u16, glyph: state.char_at_cursor() })
        } else {
            None
        };
        TextInputView { shown: Shown::Text(chars), cursor }
    }
}

/// A key press leaves the cursor and the start of the window in the text
/// or just past its end, and leaves the hint as it is.
pub proof fn lemma_key_keeps_the_invariant(m: TextModel, key: Key)
    requires
        cursor_in_range(m),
        window_in_text(m),
    ensures
        cursor_in_range(apply_key(m, key)),
        window_in_text(apply_key(m, key)),
        apply_key(m, key).hint == m.hint,
{
}

/// Once the window has been moved, it starts in the text and holds the
/// cursor, whether the line has text or not: the cursor's column is at
/// least zero and less than the width. The text and the cursor are as
/// they were.
pub proof fn lemma_scrolled_holds_cursor(m: TextModel, viewport_width: int)
    requires
        cursor_in_range(m),
        0 <= m.start,
    ensures
        cursor_visible(scrolled(m, viewport_width), viewport_width),
        0 <= scrolled(m, viewport_width).cursor - scrolled(m, viewport_width).start
            <= visible_width(viewport_width),
        scrolled(m, viewport_width).text == m.text,
        scrolled(m, viewport_width).cursor == m.cursor,
{
}

/// After any key press and the move of the window that follows it, the
/// start of the window lies in the text and the window holds the cursor:
/// the cursor's column is at least zero and less than the width.
pub proof fn lemma_cursor_stays_visible(m: TextModel, key: Key, viewport_width: int)
    requires
        cursor_in_range(m),
        window_in_text(m),
    ensures
        cursor_visible(scrolled(apply_key(m, key), viewport_width), viewport_width),
        0 <= scrolled(apply_key(m, key), viewport_width).cursor - scrolled(
            apply_key(m, key),
            viewport_width,
        ).start <= visible_width(viewport_width),
{
    lemma_key_keeps_the_invariant(m, key);
    lemma_scrolled_holds_cursor(apply_key(m, key), viewport_width);
}

/// A line without text has its window at the start, once the window has
/// been moved; and what is typed next is shown from its first character
/// on, with the cursor behind it, in a window of two cells or more.
pub proof fn lemma_emptied_line_starts_again(m: TextModel, c: char, viewport_width: int)
    requires
        m.text.len() == 0,
        cursor_in_range(m),
        0 <= m.start,
        viewport_width >= 2,
    ensures
        scrolled(m, viewport_width).start == 0,
        ({
            let shown = scrolled(
                apply_key(scrolled(m, viewport_width), Key::Char(c)),
                viewport_width,
            );
            &&& shown.text == seq![c]
            &&& shown.cursor == 1
            &&& shown.start == 0
            &&& visible_text(shown, viewport_width) == seq![c]
        }),
{
    let shown = scrolled(apply_key(scrolled(m, viewport_width), Key::Char(c)), viewport_width);
    assert(shown.text =~= seq![c]);
    assert(visible_text(shown, viewport_width) =~= seq![c]);
}

/// A window that holds the cursor is not moved.
pub proof fn lemma_scrolled_is_stable(m: TextModel, viewport_width: int)
    ensures
        scrolled(scrolled(m, viewport_width), viewport_width) == scrolled(m, viewport_width),
{
}

/// Typing a character and taking it back again gives the text and the
/// cursor that there were.
pub proof fn lemma_backspace_undoes_insert(m: TextModel, c: char)
    requires
        cursor_in_range(m),
        window_in_text(m),
    ensures
        apply_key(apply_key(m, Key::Char(c)), Key::Backspace) == m,
{
    assert(m.text.insert(m.cursor, c).remove(m.cursor) =~= m.text);
}

/// Deleting the last character of a text of two or more characters, with
/// the cursor on it, removes that character and moves the cursor back by
/// one, onto the character that is now the last.
pub proof fn lemma_delete_at_last_retreats(m: TextModel)
    requires
        m.text.len() >= 2,
        m.cursor == m.text.len() - 1,
    ensures
        apply_key(m, Key::Delete).text == m.text.drop_last(),
        apply_key(m, Key::Delete).cursor == m.cursor - 1,
        apply_key(m, Key::Delete).cursor == apply_key(m, Key::Delete).text.len() - 1,
{
    assert(m.text.remove(m.cursor) =~= m.text.drop_last());
}

/// Deleting the only character of a text leaves the text empty and the
/// cursor at its start.
pub proof fn lemma_delete_only_character(m: TextModel)
    requires
        m.text.len() == 1,
        m.cursor == 0,
    ensures
        apply_key(m, Key::Delete).text == Seq::<char>::empty(),
        apply_key(m, Key::Delete).cursor == 0,
{
    assert(m.text.remove(0) =~= Seq::<char>::empty());
}

} // verus!
