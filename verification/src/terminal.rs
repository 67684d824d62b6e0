//! The terminal: which part of the chat is on screen, and what keys and the mouse do.

use crate::history::{lines_view, HistoryEntryType};
use crate::text::{join, push_joined, texts, unix_newlines, with_unix_newlines};
use crate::wrap::{line_rows, wrapped_line_count, WrapMode};
use vstd::prelude::*;

verus! {

/// The rows that `textwrap::wrap` breaks a line into at a width.
pub uninterp spec fn wrapped_rows(line: Seq<char>, width: nat) -> Seq<Seq<char>>;

/// `textwrap::wrap` with a width and no other options: the rows that it breaks a line into.
#[verifier::external_body]
fn wrap_line(line: &str, width: usize) -> (r: Vec<String>)
    ensures
        texts(r@) == wrapped_rows(line@, width as nat),
{
    textwrap::wrap(line, width).into_iter().map(|row| row.into_owned()).collect()
}

/// Keys that mean something outside the input box
#[derive(Clone, Copy, Debug, PartialEq, Eq, Structural)]
pub enum Key {
    /// The enter key
    Enter,
    /// The escape key
    Esc,
    /// The page-up key
    PageUp,
    /// The page-down key
    PageDown,
    /// Any other key
    Other,
}

/// What a key does
#[derive(Debug)]
pub enum KeyAction {
    /// This message is submitted, and the input box is cleared
    Submit(String),
    /// The application is to exit
    Exit,
    /// The chat is scrolled
    Scrolled,
    /// The key goes to the input box
    Edit,
}

/// What the mouse does
#[derive(Clone, Copy, Debug, PartialEq, Eq, Structural)]
pub enum Mouse {
    /// The wheel is turned down
    ScrollDown,
    /// The wheel is turned up
    ScrollUp,
    /// Something else
    Other,
}

/// The colors of the chat
#[derive(Clone, Copy, Debug, PartialEq, Eq, Structural)]
pub enum EntryColor {
    /// As the terminal has it
    Plain,
    Magenta,
    Blue,
    Green,
    Red,
}

/// How an entry of the chat looks
#[derive(Clone, Copy, Debug, PartialEq, Eq, Structural)]
pub struct EntryStyle {
    /// In bold
    pub bold: bool,
    /// In italics
    pub italic: bool,
    /// In which color
    pub color: EntryColor,
    /// At the right, not at the left
    pub right: bool,
}

/// What is on screen
#[derive(Debug)]
pub struct Screen {
    /// The rows of the chat
    pub rows: Vec<(String, HistoryEntryType)>,
    /// How far the chat can be scrolled
    pub scroll_len: usize,
    /// How far it is
    pub position: usize,
}

/// UI state
#[derive(Debug)]
pub struct TermUi {
    /// First line of the chat history to show (`usize::MAX` to follow the tail)
    history_scroll: usize,
    /// How many lines (elements of the chat history) are visible on screen right now
    history_lines_on_screen: usize,
}

/// How an entry of the chat looks.
pub open spec fn style_of(kind: HistoryEntryType) -> EntryStyle {
    let plain = EntryStyle {
        bold: false,
        italic: false,
        color: EntryColor::Plain,
        right: false,
    };
    match kind {
        HistoryEntryType::Empty => plain,
        HistoryEntryType::User => EntryStyle {
            bold: true,
            color: EntryColor::Magenta,
            right: true,
            ..plain
        },
        HistoryEntryType::Content => EntryStyle { bold: true, ..plain },
        HistoryEntryType::Reasoning => EntryStyle { italic: true, ..plain },
        HistoryEntryType::ToolCall => EntryStyle { color: EntryColor::Blue, ..plain },
        HistoryEntryType::ToolResultOk => EntryStyle { color: EntryColor::Green, ..plain },
        HistoryEntryType::ToolResultErr => EntryStyle {
            bold: true,
            color: EntryColor::Red,
            ..plain
        },
    }
}

/// The difference, where there is one.
pub open spec fn less(a: nat, b: nat) -> nat {
    if a >= b {
        (a - b) as nat
    } else {
        0
    }
}

/// Where the chat is scrolled to after scrolling up. Leaving the tail starts from the first line
/// of the last screen.
pub open spec fn scrolled_up(scroll: nat, lines: nat, history_len: nat, on_screen: nat) -> nat {
    less(
        if scroll == usize::MAX {
            less(history_len, on_screen)
        } else {
            scroll
        },
        lines,
    )
}

/// Where the chat is scrolled to after scrolling down. The tail is followed from the last screen
/// on.
pub open spec fn scrolled_down(scroll: nat, lines: nat, history_len: nat, on_screen: nat) -> nat {
    if scroll + lines >= less(history_len, on_screen) || scroll + lines >= usize::MAX {
        usize::MAX as nat
    } else {
        scroll + lines
    }
}

/// The rows of one line of the chat.
pub open spec fn rows_of(line: (Seq<char>, HistoryEntryType), width: nat) -> Seq<
    (Seq<char>, HistoryEntryType),
> {
    wrapped_rows(line.0, width).map_values(|row: Seq<char>| (row, line.1))
}

/// The rows of lines of the chat.
pub open spec fn all_rows(lines: Seq<(Seq<char>, HistoryEntryType)>, width: nat) -> Seq<
    (Seq<char>, HistoryEntryType),
>
    decreases lines.len(),
{
    if lines.len() == 0 {
        seq![]
    } else {
        all_rows(lines.drop_last(), width) + rows_of(lines.last(), width)
    }
}

/// How many lines, from the first on, are needed for `need` rows.
pub open spec fn lines_from_start(
    lines: Seq<(Seq<char>, HistoryEntryType)>,
    width: nat,
    need: nat,
) -> nat
    decreases lines.len(),
{
    if lines.len() == 0 || need == 0 {
        0
    } else {
        1 + lines_from_start(
            lines.skip(1),
            width,
            less(need, wrapped_rows(lines[0].0, width).len()),
        )
    }
}

/// How many lines, from the last on, are needed for `need` rows.
pub open spec fn lines_from_end(
    lines: Seq<(Seq<char>, HistoryEntryType)>,
    width: nat,
    need: nat,
) -> nat
    decreases lines.len(),
{
    if lines.len() == 0 || need == 0 {
        0
    } else {
        1 + lines_from_end(
            lines.drop_last(),
            width,
            less(need, wrapped_rows(lines.last().0, width).len()),
        )
    }
}

/// At most the first `n`.
pub open spec fn at_most<A>(s: Seq<A>, n: nat) -> Seq<A> {
    if s.len() <= n {
        s
    } else {
        s.take(n as int)
    }
}

/// At most the last `n`.
pub open spec fn at_most_last<A>(s: Seq<A>, n: nat) -> Seq<A> {
    if s.len() <= n {
        s
    } else {
        s.skip(s.len() - n)
    }
}

/// The lines from `scroll` on.
pub open spec fn lines_after(
    lines: Seq<(Seq<char>, HistoryEntryType)>,
    scroll: nat,
) -> Seq<(Seq<char>, HistoryEntryType)> {
    if scroll >= lines.len() {
        seq![]
    } else {
        lines.skip(scroll as int)
    }
}

/// The rows on screen: the last that fit where the tail is followed, else the first that fit from
/// the line that the chat is scrolled to.
pub open spec fn visible_rows(
    lines: Seq<(Seq<char>, HistoryEntryType)>,
    scroll: nat,
    height: nat,
    width: nat,
) -> Seq<(Seq<char>, HistoryEntryType)> {
    if scroll == usize::MAX {
        at_most_last(all_rows(lines, width), height)
    } else {
        at_most(all_rows(lines_after(lines, scroll), width), height)
    }
}

/// How many lines the rows on screen are from.
pub open spec fn visible_lines(
    lines: Seq<(Seq<char>, HistoryEntryType)>,
    scroll: nat,
    height: nat,
    width: nat,
) -> nat {
    if scroll == usize::MAX {
        lines_from_end(lines, width, height)
    } else {
        lines_from_start(lines_after(lines, scroll), width, height)
    }
}

/// The rows of the lines in the input box.
pub open spec fn input_rows(lines: Seq<Seq<char>>, mode: WrapMode, width: nat) -> nat
    decreases lines.len(),
{
    if lines.len() == 0 {
        0
    } else {
        input_rows(lines.drop_last(), mode, width) + line_rows(lines.last(), mode, width).len()
    }
}

/// The height of the input box with its border: up to five rows of text.
pub open spec fn input_box_height(lines: Seq<Seq<char>>, mode: WrapMode, width: nat) -> nat {
    let rows = input_rows(at_most(lines, 5), mode, less(width, 2));
    (if rows < 5 {
        rows
    } else {
        5
    }) + 2
}

/// Rows of a longer list of lines.
proof fn lemma_rows_add(
    a: Seq<(Seq<char>, HistoryEntryType)>,
    b: Seq<(Seq<char>, HistoryEntryType)>,
    width: nat,
)
    ensures
        all_rows(a + b, width) == all_rows(a, width) + all_rows(b, width),
    decreases b.len(),
{
    if b.len() == 0 {
        assert(a + b =~= a);
        assert(all_rows(a + b, width) =~= all_rows(a, width) + all_rows(b, width));
    } else {
        lemma_rows_add(a, b.drop_last(), width);
        assert((a + b).drop_last() =~= a + b.drop_last());
        assert(all_rows(a + b, width) =~= all_rows(a, width) + all_rows(b, width));
    }
}

/// Rows of one line.
proof fn lemma_rows_one(line: (Seq<char>, HistoryEntryType), width: nat)
    ensures
        all_rows(seq![line], width) == rows_of(line, width),
{
    assert(seq![line].drop_last() =~= seq![]);
    assert(all_rows(seq![line].drop_last(), width) =~= seq![]);
    assert(all_rows(seq![line], width) =~= rows_of(line, width));
}

/// No more lines are needed than there are.
proof fn lemma_needed_lines(
    lines: Seq<(Seq<char>, HistoryEntryType)>,
    width: nat,
    need: nat,
)
    ensures
        lines_from_start(lines, width, need) <= lines.len(),
        lines_from_end(lines, width, need) <= lines.len(),
    decreases lines.len(),
{
    if lines.len() > 0 && need > 0 {
        lemma_needed_lines(
            lines.skip(1),
            width,
            less(need, wrapped_rows(lines[0].0, width).len()),
        );
        lemma_needed_lines(
            lines.drop_last(),
            width,
            less(need, wrapped_rows(lines.last().0, width).len()),
        );
    }
}

/// The rows of one line of the chat.
fn line_to_rows(line: &(String, HistoryEntryType), width: usize) -> (r: Vec<
    (String, HistoryEntryType),
>)
    ensures
        lines_view(r@) == rows_of((line.0@, line.1), width as nat),
        r@.len() == wrapped_rows(line.0@, width as nat).len(),
{
    let rows = wrap_line(line.0.as_str(), width);
    let ghost given = texts(rows@);
    let ghost strings = rows@;
    let mut out: Vec<(String, HistoryEntryType)> = Vec::new();
    for row in it: rows.into_iter()
        invariant
            it.seq() == strings,
            given == texts(strings),
            out@.len() == it.index(),
            forall|i: int| 0 <= i < out@.len() ==> (#[trigger] out@[i]).0@ == given[i] && out@[i].1 == line.1,
    {
        out.push((row, line.1));
    }
    assert(lines_view(out@) =~= rows_of((line.0@, line.1), width as nat));
    out
}

/// One more line at the top: what is kept of its rows, and how many lines are needed then.
proof fn lemma_line_above(
    all: Seq<(Seq<char>, HistoryEntryType)>,
    i: int,
    width: nat,
    height: nat,
    shown: Seq<(Seq<char>, HistoryEntryType)>,
)
    requires
        0 < i <= all.len(),
        shown == all_rows(all.skip(i), width),
        shown.len() < height,
    ensures
        ({
            let need = (height - shown.len()) as nat;
            let added = rows_of(all[i - 1], width);
            &&& all_rows(all.skip(i - 1), width) == added + shown
            &&& at_most_last(added + shown, height) == at_most_last(added, need) + shown
            &&& lines_from_end(all.take(i), width, need) == 1 + lines_from_end(
                all.take(i - 1),
                width,
                less(need, added.len()),
            )
        }),
{
    let need = (height - shown.len()) as nat;
    let added = rows_of(all[i - 1], width);
    assert(all.skip(i - 1) =~= seq![all[i - 1]] + all.skip(i));
    lemma_rows_add(seq![all[i - 1]], all.skip(i), width);
    lemma_rows_one(all[i - 1], width);
    assert(at_most_last(added + shown, height) =~= at_most_last(added, need) + shown);
    assert(all.take(i).drop_last() =~= all.take(i - 1));
    assert(all.take(i).last() == all[i - 1]);
}

/// Rows that fill the height are the last ones of all lines.
proof fn lemma_tail_filled(
    all: Seq<(Seq<char>, HistoryEntryType)>,
    i: int,
    width: nat,
    height: nat,
)
    requires
        0 <= i <= all.len(),
        i > 0 ==> all_rows(all.skip(i), width).len() >= height,
    ensures
        at_most_last(all_rows(all, width), height) == at_most_last(
            all_rows(all.skip(i), width),
            height,
        ),
{
    assert(all.take(i) + all.skip(i) =~= all);
    lemma_rows_add(all.take(i), all.skip(i), width);
    if i == 0 {
        assert(all.skip(0) =~= all);
    } else {
        assert(at_most_last(all_rows(all, width), height) =~= at_most_last(
            all_rows(all.skip(i), width),
            height,
        ));
    }
}

/// The last of the given rows, no more than `need`.
fn last_rows(rows: Vec<(String, HistoryEntryType)>, need: usize) -> (r: Vec<
    (String, HistoryEntryType),
>)
    ensures
        lines_view(r@) == at_most_last(lines_view(rows@), need as nat),
{
    let mut rows = rows;
    let ghost given = lines_view(rows@);
    if rows.len() > need {
        let cut: usize = rows.len() - need;
        let kept = rows.split_off(cut);
        assert(lines_view(kept@) =~= given.skip(cut as int));
        kept
    } else {
        rows
    }
}

/// The last rows of the chat, and how many lines they are from.
#[verifier::spinoff_prover]
fn tail_rows(lines: &[(String, HistoryEntryType)], height: usize, width: usize) -> (r: (
    Vec<(String, HistoryEntryType)>,
    usize,
))
    ensures
        lines_view(r.0@) == at_most_last(
            all_rows(lines_view(lines@), width as nat),
            height as nat,
        ),
        r.1 == lines_from_end(lines_view(lines@), width as nat, height as nat),
{
    let ghost all = lines_view(lines@);
    let ghost w = width as nat;
    let mut rows: Vec<(String, HistoryEntryType)> = Vec::new();
    let mut i: usize = lines.len();
    proof {
        assert(all.skip(i as int) =~= seq![]);
        assert(all.take(i as int) =~= all);
        assert(lines_view(rows@) =~= seq![]);
    }
    while i > 0 && rows.len() < height
        invariant
            all == lines_view(lines@),
            w == width,
            i <= lines@.len(),
            rows@.len() == lines_view(rows@).len(),
            lines_view(rows@) == at_most_last(all_rows(all.skip(i as int), w), height as nat),
            lines_from_end(all, w, height as nat) == lines@.len() - i + lines_from_end(
                all.take(i as int),
                w,
                less(height as nat, all_rows(all.skip(i as int), w).len()),
            ),
        decreases i,
    {
        let ghost shown = lines_view(rows@);
        proof {
            lemma_line_above(all, i as int, w, height as nat, shown);
        }
        i = i - 1;
        let mut more = last_rows(line_to_rows(&lines[i], width), height - rows.len());
        let ghost kept = lines_view(more@);
        more.append(&mut rows);
        rows = more;
        assert(lines_view(rows@) =~= kept + shown);
    }
    proof {
        lemma_tail_filled(all, i as int, w, height as nat);
    }
    (rows, lines.len() - i)
}

/// One more line at the bottom: what is kept of its rows, and how many lines are needed then.
proof fn lemma_line_below(
    lines: Seq<(Seq<char>, HistoryEntryType)>,
    k: int,
    width: nat,
    height: nat,
    shown: Seq<(Seq<char>, HistoryEntryType)>,
)
    requires
        0 <= k < lines.len(),
        shown == all_rows(lines.take(k), width),
        shown.len() < height,
    ensures
        ({
            let need = (height - shown.len()) as nat;
            let added = rows_of(lines[k], width);
            &&& all_rows(lines.take(k + 1), width) == shown + added
            &&& at_most(shown + added, height) == shown + at_most(added, need)
            &&& lines_from_start(lines.skip(k), width, need) == 1 + lines_from_start(
                lines.skip(k + 1),
                width,
                less(need, added.len()),
            )
        }),
{
    let need = (height - shown.len()) as nat;
    let added = rows_of(lines[k], width);
    assert(lines.take(k + 1).drop_last() =~= lines.take(k));
    assert(lines.take(k + 1).last() == lines[k]);
    assert(at_most(shown + added, height) =~= shown + at_most(added, need));
    assert(lines.skip(k).skip(1) =~= lines.skip(k + 1));
    assert(lines.skip(k)[0] == lines[k]);
}

/// Rows that fill the height are the first ones of all lines.
proof fn lemma_start_filled(
    lines: Seq<(Seq<char>, HistoryEntryType)>,
    k: int,
    width: nat,
    height: nat,
)
    requires
        0 <= k <= lines.len(),
        k < lines.len() ==> all_rows(lines.take(k), width).len() >= height,
    ensures
        at_most(all_rows(lines, width), height) == at_most(
            all_rows(lines.take(k), width),
            height,
        ),
{
    assert(lines.take(k) + lines.skip(k) =~= lines);
    lemma_rows_add(lines.take(k), lines.skip(k), width);
    if k == lines.len() {
        assert(lines.take(k) =~= lines);
    } else {
        assert(at_most(all_rows(lines, width), height) =~= at_most(
            all_rows(lines.take(k), width),
            height,
        ));
    }
}

/// The first of the given rows, no more than `need`.
fn first_rows(rows: Vec<(String, HistoryEntryType)>, need: usize) -> (r: Vec<
    (String, HistoryEntryType),
>)
    ensures
        lines_view(r@) == at_most(lines_view(rows@), need as nat),
{
    let mut rows = rows;
    let ghost given = lines_view(rows@);
    if rows.len() > need {
        rows.truncate(need);
        assert(lines_view(rows@) =~= given.take(need as int));
    }
    rows
}

/// The first rows of the chat from a line on, and how many lines they are from.
#[verifier::spinoff_prover]
fn rows_from(
    lines: &[(String, HistoryEntryType)],
    scroll: usize,
    height: usize,
    width: usize,
) -> (r: (Vec<(String, HistoryEntryType)>, usize))
    ensures
        lines_view(r.0@) == at_most(
            all_rows(lines_after(lines_view(lines@), scroll as nat), width as nat),
            height as nat,
        ),
        r.1 == lines_from_start(
            lines_after(lines_view(lines@), scroll as nat),
            width as nat,
            height as nat,
        ),
{
    let ghost all = lines_view(lines@);
    let ghost w = width as nat;
    let start: usize = if scroll < lines.len() {
        scroll
    } else {
        lines.len()
    };
    let ghost after = lines_after(all, scroll as nat);
    let mut rows: Vec<(String, HistoryEntryType)> = Vec::new();
    let mut i: usize = start;
    proof {
        assert(after =~= all.skip(start as int));
        assert(after.take(0) =~= seq![]);
        assert(after.skip(0) =~= after);
        assert(lines_view(rows@) =~= seq![]);
    }
    while i < lines.len() && rows.len() < height
        invariant
            all == lines_view(lines@),
            w == width,
            after == all.skip(start as int),
            start <= i <= lines@.len(),
            rows@.len() == lines_view(rows@).len(),
            lines_view(rows@) == at_most(all_rows(after.take(i - start), w), height as nat),
            lines_from_start(after, w, height as nat) == i - start + lines_from_start(
                after.skip(i - start),
                w,
                less(height as nat, all_rows(after.take(i - start), w).len()),
            ),
        decreases lines@.len() - i,
    {
        let ghost shown = lines_view(rows@);
        proof {
            lemma_line_below(after, i - start, w, height as nat, shown);
        }
        let mut more = first_rows(line_to_rows(&lines[i], width), height - rows.len());
        let ghost kept = lines_view(more@);
        rows.append(&mut more);
        i = i + 1;
        assert(lines_view(rows@) =~= shown + kept);
    }
    proof {
        lemma_start_filled(after, i - start, w, height as nat);
    }
    (rows, i - start)
}

impl TermUi {
    /// First line of the chat history to show.
    pub closed spec fn scroll(&self) -> nat {
        self.history_scroll as nat
    }

    /// How many lines are visible.
    pub closed spec fn on_screen(&self) -> nat {
        self.history_lines_on_screen as nat
    }

    /// The chat follows its tail.
    pub fn new() -> (r: Self)
        ensures
            r.scroll() == usize::MAX,
            r.on_screen() == 0,
    {
        TermUi { history_scroll: usize::MAX, history_lines_on_screen: 0 }
    }

    /// Scroll the chat history window up by the given number of lines.
    pub fn scroll_up(&mut self, lines: usize, history_len: usize)
        ensures
            final(self).scroll() == scrolled_up(
                old(self).scroll(),
                lines as nat,
                history_len as nat,
                old(self).on_screen(),
            ),
            final(self).on_screen() == old(self).on_screen(),
    {
        if self.history_scroll == usize::MAX {
            self.history_scroll = history_len.saturating_sub(self.history_lines_on_screen);
        }
        self.history_scroll = self.history_scroll.saturating_sub(lines);
    }

    /// Scroll the chat history window down by the given number of lines.
    pub fn scroll_down(&mut self, lines: usize, history_len: usize)
        ensures
            final(self).scroll() == scrolled_down(
                old(self).scroll(),
                lines as nat,
                history_len as nat,
                old(self).on_screen(),
            ),
            final(self).on_screen() == old(self).on_screen(),
    {
        self.history_scroll = self.history_scroll.saturating_add(lines);
        if self.history_scroll >= history_len.saturating_sub(self.history_lines_on_screen) {
            self.history_scroll = usize::MAX;
        }
    }

    /// Handle a key. `pressed` tells a press from other events of the key, `plain` that no modifier
    /// is held, `input` are the lines in the input box.
    pub fn handle_key_event(
        &mut self,
        key: Key,
        pressed: bool,
        plain: bool,
        input: &Vec<String>,
        input_empty: bool,
        history_len: usize,
    ) -> (r: KeyAction)
        ensures
            final(self).on_screen() == old(self).on_screen(),
            if pressed && key == Key::PageUp {
                &&& r is Scrolled
                &&& final(self).scroll() == scrolled_up(
                    old(self).scroll(),
                    (old(self).on_screen() + 1) / 2,
                    history_len as nat,
                    old(self).on_screen(),
                )
            } else if pressed && key == Key::PageDown {
                &&& r is Scrolled
                &&& final(self).scroll() == scrolled_down(
                    old(self).scroll(),
                    (old(self).on_screen() + 1) / 2,
                    history_len as nat,
                    old(self).on_screen(),
                )
            } else {
                &&& final(self).scroll() == old(self).scroll()
                &&& if pressed && key == Key::Enter && plain && !input_empty {
                    r matches KeyAction::Submit(message) && message@ == join(
                        texts(input@),
                        "\n"@,
                    )
                } else if pressed && key == Key::Esc {
                    r is Exit
                } else {
                    r is Edit
                }
            },
    {
        if !pressed {
            return KeyAction::Edit;
        }
        let half: usize = self.history_lines_on_screen / 2 + self.history_lines_on_screen % 2;
        match key {
            Key::Enter => {
                if !plain || input_empty {
                    return KeyAction::Edit;
                }
                let mut message = String::new();
                push_joined(&mut message, input, "\n");
                assert(message@ =~= join(texts(input@), "\n"@));
                KeyAction::Submit(message)
            },
            Key::Esc => KeyAction::Exit,
            Key::PageUp => {
                self.scroll_up(half, history_len);
                KeyAction::Scrolled
            },
            Key::PageDown => {
                self.scroll_down(half, history_len);
                KeyAction::Scrolled
            },
            Key::Other => KeyAction::Edit,
        }
    }

    /// Handle the mouse.
    pub fn handle_mouse_event(&mut self, mouse: Mouse, history_len: usize)
        ensures
            final(self).on_screen() == old(self).on_screen(),
            final(self).scroll() == match mouse {
                Mouse::ScrollDown => scrolled_down(
                    old(self).scroll(),
                    1,
                    history_len as nat,
                    old(self).on_screen(),
                ),
                Mouse::ScrollUp => scrolled_up(
                    old(self).scroll(),
                    1,
                    history_len as nat,
                    old(self).on_screen(),
                ),
                Mouse::Other => old(self).scroll(),
            },
    {
        match mouse {
            Mouse::ScrollDown => self.scroll_down(1, history_len),
            Mouse::ScrollUp => self.scroll_up(1, history_len),
            Mouse::Other => {},
        }
    }

    /// What is pasted, with the line endings that the input box knows.
    pub fn handle_paste_event(text: &str) -> (r: String)
        ensures
            r@ == with_unix_newlines(text@),
    {
        unix_newlines(text)
    }

    /// The rows of the chat that are on screen, which has `height` rows of `width` columns for
    /// them, and the position of the scroll bar.
    pub fn render(
        &mut self,
        lines: &[(String, HistoryEntryType)],
        height: usize,
        width: usize,
    ) -> (r: Screen)
        ensures
            lines_view(r.rows@) == visible_rows(
                lines_view(lines@),
                old(self).scroll(),
                height as nat,
                width as nat,
            ),
            final(self).on_screen() == visible_lines(
                lines_view(lines@),
                old(self).scroll(),
                height as nat,
                width as nat,
            ),
            final(self).on_screen() <= lines@.len(),
            final(self).scroll() == old(self).scroll(),
            r.scroll_len == lines@.len() - final(self).on_screen(),
            r.position == if old(self).scroll() <= r.scroll_len {
                old(self).scroll()
            } else {
                r.scroll_len as nat
            },
    {
        let (rows, on_screen) = if self.history_scroll == usize::MAX {
            tail_rows(lines, height, width)
        } else {
            rows_from(lines, self.history_scroll, height, width)
        };
        proof {
            lemma_needed_lines(lines_view(lines@), width as nat, height as nat);
            lemma_needed_lines(
                lines_after(lines_view(lines@), self.history_scroll as nat),
                width as nat,
                height as nat,
            );
        }
        self.history_lines_on_screen = on_screen;
        let scroll_len: usize = lines.len() - on_screen;
        let position: usize = if self.history_scroll <= scroll_len {
            self.history_scroll
        } else {
            scroll_len
        };
        Screen { rows, scroll_len, position }
    }
}

/// The height of the input box on a screen of `width` columns, with its border.
pub fn input_height(lines: &[String], mode: WrapMode, width: u16) -> (r: u16)
    ensures
        r == input_box_height(texts(lines@), mode, width as nat),
{
    let inner: usize = (if width >= 2 {
        width - 2
    } else {
        0
    }) as usize;
    let ghost all = texts(lines@);
    let count: usize = if lines.len() < 5 {
        lines.len()
    } else {
        5
    };
    let mut rows: usize = 0;
    proof {
        assert(all.take(0) =~= seq![]);
    }
    for i in 0..count
        invariant
            all == texts(lines@),
            count <= lines@.len(),
            rows <= 5,
            rows == if input_rows(all.take(i as int), mode, inner as nat) < 5 {
                input_rows(all.take(i as int), mode, inner as nat)
            } else {
                5
            },
    {
        proof {
            assert(all.take(i + 1).drop_last() =~= all.take(i as int));
            assert(all.take(i + 1).last() == lines@[i as int]@);
        }
        let more: usize = wrapped_line_count(lines[i].as_str(), mode, inner);
        rows = if more >= 5 - rows {
            5
        } else {
            rows + more
        };
    }
    proof {
        assert(at_most(all, 5) =~= all.take(count as int));
    }
    rows as u16 + 2
}

/// How an entry of the chat looks.
pub fn ratatui_style(kind: HistoryEntryType) -> (r: EntryStyle)
    ensures
        r == style_of(kind),
{
    let plain = EntryStyle {
        bold: false,
        italic: false,
        color: EntryColor::Plain,
        right: false,
    };
    match kind {
        HistoryEntryType::Empty => plain,
        HistoryEntryType::User => EntryStyle {
            bold: true,
            italic: false,
            color: EntryColor::Magenta,
            right: true,
        },
        HistoryEntryType::Content => EntryStyle { bold: true, ..plain },
        HistoryEntryType::Reasoning => EntryStyle { italic: true, ..plain },
        HistoryEntryType::ToolCall => EntryStyle { color: EntryColor::Blue, ..plain },
        HistoryEntryType::ToolResultOk => EntryStyle { color: EntryColor::Green, ..plain },
        HistoryEntryType::ToolResultErr => EntryStyle {
            bold: true,
            italic: false,
            color: EntryColor::Red,
            right: false,
        },
    }
}

/// Scrolling up and then down by as many lines leads back: to the same line, or to the tail where
/// that line is on the last screen.
pub proof fn scrolling_up_and_down_leads_back(
    scroll: nat,
    lines: nat,
    history_len: nat,
    on_screen: nat,
)
    requires
        scroll <= usize::MAX,
        history_len <= usize::MAX,
        lines <= (if scroll == usize::MAX {
            less(history_len, on_screen)
        } else {
            scroll
        }),
    ensures
        ({
            let back = scrolled_down(
                scrolled_up(scroll, lines, history_len, on_screen),
                lines,
                history_len,
                on_screen,
            );
            back == if scroll >= less(history_len, on_screen) {
                usize::MAX as nat
            } else {
                scroll
            }
        }),
{
}

/// The chat cannot be scrolled beyond its last screen: below that the tail is followed.
pub proof fn scrolling_down_stops_at_the_tail(
    scroll: nat,
    lines: nat,
    history_len: nat,
    on_screen: nat,
)
    ensures
        scrolled_down(scroll, lines, history_len, on_screen) == usize::MAX || scrolled_down(
            scroll,
            lines,
            history_len,
            on_screen,
        ) < less(history_len, on_screen),
{
}

/// No more rows are shown than there is room for, and while the chat is longer, no fewer where its
/// tail is followed.
pub proof fn the_tail_fills_the_screen(
    lines: Seq<(Seq<char>, HistoryEntryType)>,
    scroll: nat,
    height: nat,
    width: nat,
)
    ensures
        visible_rows(lines, scroll, height, width).len() <= height,
        scroll == usize::MAX && all_rows(lines, width).len() >= height ==> visible_rows(
            lines,
            scroll,
            height,
            width,
        ).len() == height,
{
}

/// The rows on screen follow each other as in the chat: they are its last rows where the tail is
/// followed, and else the first from the line on that it is scrolled to; as many as there is room
/// for, or all.
pub proof fn the_screen_shows_a_stretch_of_the_chat(
    lines: Seq<(Seq<char>, HistoryEntryType)>,
    scroll: nat,
    height: nat,
    width: nat,
)
    requires
        scroll <= usize::MAX,
    ensures
        ({
            let shown = visible_rows(lines, scroll, height, width);
            let all = all_rows(lines, width);
            let below = all_rows(lines.skip(scroll as int), width);
            &&& scroll == usize::MAX ==> shown.is_suffix_of(all) && (shown.len() == height
                || shown.len() == all.len())
            &&& scroll < usize::MAX && scroll <= lines.len() ==> shown.is_prefix_of(below) && (
            shown.len() == height || shown.len() == below.len())
            &&& scroll < usize::MAX && scroll > lines.len() ==> shown.len() == 0
            &&& shown.len() <= height
        }),
{
    let shown = visible_rows(lines, scroll, height, width);
    let all = all_rows(lines, width);
    let below = all_rows(lines.skip(scroll as int), width);
    if scroll == usize::MAX {
        assert(shown =~= all.skip(all.len() - shown.len()));
    } else if scroll <= lines.len() {
        if scroll == lines.len() {
            assert(lines.skip(scroll as int) =~= seq![]);
        }
        assert(shown =~= below.take(shown.len() as int));
    }
}

/// The rows of the chat are those of its lines, one line after the other, and each row is of the type
/// of its line.
pub proof fn rows_are_those_of_the_lines(
    before: Seq<(Seq<char>, HistoryEntryType)>,
    line: (Seq<char>, HistoryEntryType),
    after: Seq<(Seq<char>, HistoryEntryType)>,
    width: nat,
)
    ensures
        ({
            let rows = all_rows(before.push(line) + after, width);
            let broken = wrapped_rows(line.0, width);
            let start = all_rows(before, width).len();
            &&& rows.len() == start + broken.len() + all_rows(after, width).len()
            &&& rows.take(start as int) == all_rows(before, width)
            &&& rows.skip((start + broken.len()) as int) == all_rows(after, width)
            &&& forall|i: int|
                0 <= i < broken.len() ==> rows[start + i] == (#[trigger] broken[i], line.1)
        }),
{
    let rows = all_rows(before.push(line) + after, width);
    let own = rows_of(line, width);
    lemma_rows_add(before.push(line), after, width);
    assert(before.push(line).drop_last() =~= before);
    assert(rows =~= all_rows(before, width) + own + all_rows(after, width));
    assert(rows.take(all_rows(before, width).len() as int) =~= all_rows(before, width));
    assert(rows.skip((all_rows(before, width).len() + own.len()) as int) =~= all_rows(
        after,
        width,
    ));
    assert forall|i: int| 0 <= i < wrapped_rows(line.0, width).len() implies rows[all_rows(
        before,
        width,
    ).len() + i] == (#[trigger] wrapped_rows(line.0, width)[i], line.1) by {
        assert(own[i] == (wrapped_rows(line.0, width)[i], line.1));
    }
}

/// The first lines that are needed for a number of rows have these rows, or all that there are, and
/// fewer lines would not do.
proof fn lemma_enough_from_start(
    lines: Seq<(Seq<char>, HistoryEntryType)>,
    width: nat,
    need: nat,
)
    ensures
        ({
            let k = lines_from_start(lines, width, need);
            &&& k <= lines.len()
            &&& all_rows(lines.take(k as int), width).len() >= need || k == lines.len()
            &&& k > 0 ==> all_rows(lines.take(k - 1), width).len() < need
        }),
    decreases lines.len(),
{
    let k = lines_from_start(lines, width, need);
    assert(lines.take(0) =~= seq![]);
    if lines.len() > 0 && need > 0 {
        let first = lines[0];
        let rest = lines.skip(1);
        let own = wrapped_rows(first.0, width).len();
        let j = lines_from_start(rest, width, less(need, own));
        lemma_enough_from_start(rest, width, less(need, own));
        lemma_rows_one(first, width);
        assert(lines.take(k as int) =~= seq![first] + rest.take(j as int));
        lemma_rows_add(seq![first], rest.take(j as int), width);
        if j > 0 {
            assert(lines.take(k - 1) =~= seq![first] + rest.take(j - 1));
            lemma_rows_add(seq![first], rest.take(j - 1), width);
        }
    }
}

/// The last lines that are needed for a number of rows have these rows, or all that there are, and
/// fewer lines would not do.
proof fn lemma_enough_from_end(
    lines: Seq<(Seq<char>, HistoryEntryType)>,
    width: nat,
    need: nat,
)
    ensures
        ({
            let k = lines_from_end(lines, width, need);
            &&& k <= lines.len()
            &&& all_rows(lines.skip(lines.len() - k), width).len() >= need || k == lines.len()
            &&& k > 0 ==> all_rows(lines.skip(lines.len() - k + 1), width).len() < need
        }),
    decreases lines.len(),
{
    let k = lines_from_end(lines, width, need);
    assert(lines.skip(lines.len() as int) =~= seq![]);
    if lines.len() > 0 && need > 0 {
        let last = lines.last();
        let rest = lines.drop_last();
        let own = wrapped_rows(last.0, width).len();
        let j = lines_from_end(rest, width, less(need, own));
        lemma_enough_from_end(rest, width, less(need, own));
        lemma_rows_one(last, width);
        assert(lines.skip(lines.len() - k) =~= rest.skip(rest.len() - j) + seq![last]);
        lemma_rows_add(rest.skip(rest.len() - j), seq![last], width);
        if j > 0 {
            assert(lines.skip(lines.len() - k + 1) =~= rest.skip(rest.len() - j + 1) + seq![last]);
            lemma_rows_add(rest.skip(rest.len() - j + 1), seq![last], width);
        }
    }
}

/// The lines that count as visible are just those that the rows on screen are from: they have as many
/// rows as are on screen, and with one line fewer there would be room left.
pub proof fn visible_lines_fill_the_screen(
    lines: Seq<(Seq<char>, HistoryEntryType)>,
    scroll: nat,
    height: nat,
    width: nat,
)
    requires
        scroll <= usize::MAX,
        scroll < usize::MAX ==> scroll <= lines.len(),
    ensures
        ({
            let k = visible_lines(lines, scroll, height, width) as int;
            let shown = visible_rows(lines, scroll, height, width).len();
            let from = lines.skip(scroll as int);
            &&& scroll == usize::MAX ==> {
                &&& k <= lines.len()
                &&& shown <= all_rows(lines.skip(lines.len() - k), width).len()
                &&& k > 0 ==> all_rows(lines.skip(lines.len() - k + 1), width).len() < height
            }
            &&& scroll < usize::MAX ==> {
                &&& k <= from.len()
                &&& shown <= all_rows(from.take(k), width).len()
                &&& k > 0 ==> all_rows(from.take(k - 1), width).len() < height
            }
        }),
{
    let k = visible_lines(lines, scroll, height, width) as int;
    let from = lines.skip(scroll as int);
    if scroll == usize::MAX {
        lemma_enough_from_end(lines, width, height);
        if k == lines.len() {
            assert(lines.skip(0) =~= lines);
        }
    } else {
        if scroll == lines.len() {
            assert(from =~= seq![]);
        }
        lemma_enough_from_start(from, width, height);
        if k == from.len() {
            assert(from.take(k) =~= from);
        }
    }
}

/// Scrolling up goes up by as many lines as are asked for, as far as there are so many: from the line
/// that the chat is scrolled to, or from the first of the last screen where the tail is followed.
pub proof fn scrolling_up_goes_up(scroll: nat, lines: nat, history_len: nat, on_screen: nat)
    requires
        scroll <= usize::MAX,
        on_screen <= history_len,
    ensures
        ({
            let after = scrolled_up(scroll, lines, history_len, on_screen) as int;
            let from = if scroll == usize::MAX {
                history_len - on_screen
            } else {
                scroll as int
            };
            &&& lines <= from ==> after + lines == from
            &&& lines > from ==> after == 0
        }),
{
}

/// Scrolling up twice is scrolling up by both at once, and so is scrolling down.
pub proof fn scrolling_adds_up(scroll: nat, a: nat, b: nat, history_len: nat, on_screen: nat)
    requires
        scroll < usize::MAX,
    ensures
        scrolled_up(scrolled_up(scroll, a, history_len, on_screen), b, history_len, on_screen)
            == scrolled_up(scroll, a + b, history_len, on_screen),
        scrolled_down(scrolled_down(scroll, a, history_len, on_screen), b, history_len, on_screen)
            == scrolled_down(scroll, a + b, history_len, on_screen),
{
}

/// Scrolling down goes down by as many lines as are asked for where that leads to a line before the
/// last screen; from there on the tail is followed.
pub proof fn scrolling_down_goes_down(scroll: nat, lines: nat, history_len: nat, on_screen: nat)
    requires
        on_screen <= history_len <= usize::MAX,
    ensures
        ({
            let after = scrolled_down(scroll, lines, history_len, on_screen);
            &&& scroll + lines < history_len - on_screen ==> after == scroll + lines
            &&& scroll + lines >= history_len - on_screen ==> after == usize::MAX
        }),
{
}

/// Each type of entry looks different: the user's messages are at the right, and only they are;
/// reasoning is in italics; calls, results and errors have their colors.
pub proof fn styles_tell_types_apart(a: HistoryEntryType, b: HistoryEntryType)
    ensures
        style_of(a) == style_of(b) <==> a == b,
        style_of(a).right <==> a == HistoryEntryType::User,
        style_of(a).italic <==> a == HistoryEntryType::Reasoning,
        style_of(a).bold <==> a == HistoryEntryType::User || a == HistoryEntryType::Content || a
            == HistoryEntryType::ToolResultErr,
        style_of(a).color == EntryColor::Magenta <==> a == HistoryEntryType::User,
        style_of(a).color == EntryColor::Blue <==> a == HistoryEntryType::ToolCall,
        style_of(a).color == EntryColor::Green <==> a == HistoryEntryType::ToolResultOk,
        style_of(a).color == EntryColor::Red <==> a == HistoryEntryType::ToolResultErr,
{
}

/// Each line of the input takes a row at least.
proof fn lemma_input_rows(lines: Seq<Seq<char>>, mode: WrapMode, width: nat, n: int)
    requires
        0 <= n <= lines.len(),
    ensures
        input_rows(lines.take(n), mode, width) >= n,
        input_rows(lines.take(n), mode, width) <= input_rows(lines, mode, width),
    decreases lines.len(),
{
    if n == lines.len() {
        assert(lines.take(n) =~= lines);
        if n > 0 {
            lemma_input_rows(lines.drop_last(), mode, width, n - 1);
            assert(lines.drop_last().take(n - 1) =~= lines.drop_last());
        }
    } else {
        lemma_input_rows(lines.drop_last(), mode, width, n);
        assert(lines.drop_last().take(n) =~= lines.take(n));
    }
}

/// The input box is as high as its text, all of its lines counted, but no higher than five rows; and
/// its border takes two more. The text has the width of the box without the border.
pub proof fn the_input_box_grows_up_to_five_rows(lines: Seq<Seq<char>>, mode: WrapMode, width: nat)
    requires
        width >= 2,
    ensures
        ({
            let rows = input_rows(lines, mode, (width - 2) as nat);
            let height = input_box_height(lines, mode, width);
            &&& rows <= 5 ==> height == rows + 2
            &&& rows > 5 ==> height == 7
            &&& lines.len() > 0 ==> height >= 3
        }),
{
    let inner = (width - 2) as nat;
    let n: int = if lines.len() < 5 {
        lines.len() as int
    } else {
        5
    };
    lemma_input_rows(lines, mode, inner, n);
    assert(at_most(lines, 5) =~= lines.take(n));
    if n == lines.len() {
        assert(lines.take(n) =~= lines);
    }
}

/// The rows of the input are those of its lines together.
pub proof fn input_rows_add_up(
    a: Seq<Seq<char>>,
    b: Seq<Seq<char>>,
    line: Seq<char>,
    mode: WrapMode,
    width: nat,
)
    ensures
        input_rows(a + b, mode, width) == input_rows(a, mode, width) + input_rows(b, mode, width),
        input_rows(seq![line], mode, width) == line_rows(line, mode, width).len(),
        input_rows(seq![], mode, width) == 0,
    decreases b.len(),
{
    assert(seq![line].drop_last() =~= seq![]);
    assert(input_rows(seq![line].drop_last(), mode, width) == 0);
    assert(seq![line].last() == line);
    if b.len() == 0 {
        assert(a + b =~= a);
    } else {
        input_rows_add_up(a, b.drop_last(), line, mode, width);
        assert((a + b).drop_last() =~= a + b.drop_last());
    }
}

} // verus!
