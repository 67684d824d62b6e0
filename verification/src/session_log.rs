//! The raw session log: a line for each message, for later resuming.

use crate::text::{concat, lemma_concat_push, split_on};
use vstd::prelude::*;

verus! {

/// Whether a session is logged. Once logging fails, it stays off.
#[derive(Clone, Copy, Debug, PartialEq, Eq, Structural)]
pub struct SessionLog {
    enabled: bool,
}

impl SessionLog {
    /// Whether messages are logged.
    pub closed spec fn is_on(&self) -> bool {
        self.enabled
    }

    /// A log that stores messages.
    pub fn new() -> (r: Self)
        ensures
            r.is_on(),
    {
        SessionLog { enabled: true }
    }

    /// Create a null log (i.e. does not store anything).
    pub fn null() -> (r: Self)
        ensures
            !r.is_on(),
    {
        SessionLog { enabled: false }
    }

    /// The line to be stored for a message in JSON form, if messages are logged.
    pub fn do_log(&self, json: &str) -> (r: Option<String>)
        ensures
            match r {
                Some(line) => self.is_on() && line@ == logged_line(json@),
                None => !self.is_on(),
            },
    {
        if !self.enabled {
            return None;
        }
        let mut line = json.to_string();
        line.push('\n');
        Some(line)
    }

    /// Takes note of whether a message could be stored. After an error the log is discontinued.
    pub fn log_message(&mut self, stored: bool)
        ensures
            final(self).is_on() == (old(self).is_on() && stored),
    {
        if !stored {
            self.enabled = false;
        }
    }
}

/// The line for a message in JSON form.
pub open spec fn logged_line(json: Seq<char>) -> Seq<char> {
    json.push('\n')
}

/// The lines for messages in JSON form.
pub open spec fn logged_lines(messages: Seq<Seq<char>>) -> Seq<Seq<char>> {
    messages.map_values(|m: Seq<char>| logged_line(m))
}

/// What is said of a line that cannot be read.
pub fn unreadable(error: &str) -> (r: String)
    ensures
        r@ == "Failed to read data: "@ + error@,
{
    let mut out = String::new();
    out.append("Failed to read data: ");
    out.append(error);
    assert(out@ =~= "Failed to read data: "@ + error@);
    out
}

/// What is said of a line that is no message.
pub fn unparsable(line: &str, error: &str) -> (r: String)
    ensures
        r@ == "Failed to parse data: "@ + line@ + ": "@ + error@,
{
    let mut out = String::new();
    out.append("Failed to parse data: ");
    out.append(line);
    out.append(": ");
    out.append(error);
    assert(out@ =~= "Failed to parse data: "@ + line@ + ": "@ + error@);
    out
}

/// Splitting text with a line at its end.
proof fn lemma_split_line(text: Seq<char>, line: Seq<char>)
    requires
        !line.contains('\n'),
    ensures
        split_on(text + logged_line(line), '\n') == split_on(text, '\n').drop_last().push(
            split_on(text, '\n').last() + line,
        ).push(seq![]),
        split_on(text + line, '\n') == split_on(text, '\n').drop_last().push(
            split_on(text, '\n').last() + line,
        ),
        split_on(text, '\n').len() >= 1,
    decreases line.len(),
{
    let whole = text + line;
    let before = split_on(text, '\n');
    crate::text::split_then_join(text, '\n');
    if line.len() == 0 {
        assert(whole =~= text);
        assert(before.last() + line =~= before.last());
        assert(before.drop_last().push(before.last() + line) =~= before);
    } else {
        let rest = line.drop_last();
        assert(!rest.contains('\n')) by {
            if rest.contains('\n') {
                let i = rest.index_of('\n');
                assert(line[i] == '\n');
            }
        }
        lemma_split_line(text, rest);
        assert(line.last() != '\n') by {
            assert(line[line.len() - 1] == line.last());
        }
        assert(whole.drop_last() =~= text + rest);
        assert((before.last() + rest).push(line.last()) =~= before.last() + line);
        assert(split_on(whole, '\n') =~= before.drop_last().push(before.last() + line));
    }
    let all = text + logged_line(line);
    assert(all.drop_last() =~= whole);
    assert(all.last() == '\n');
}

/// What is logged line by line is read back line by line: the lines of the log are the messages, in
/// their order, as long as no message holds a newline.
pub proof fn logged_messages_are_read_back(messages: Seq<Seq<char>>)
    requires
        forall|i: int| 0 <= i < messages.len() ==> !(#[trigger] messages[i]).contains('\n'),
    ensures
        split_on(concat(logged_lines(messages)), '\n') == messages.push(seq![]),
    decreases messages.len(),
{
    if messages.len() == 0 {
        assert(concat(logged_lines(messages)) =~= seq![]);
        assert(split_on(seq![], '\n') =~= messages.push(seq![]));
    } else {
        let prior = messages.drop_last();
        let last = messages.last();
        assert forall|i: int| 0 <= i < prior.len() implies !(#[trigger] prior[i]).contains('\n') by {
            assert(prior[i] == messages[i]);
        }
        assert(!last.contains('\n')) by {
            assert(messages[messages.len() - 1] == last);
        }
        logged_messages_are_read_back(prior);
        assert(logged_lines(messages) =~= logged_lines(prior).push(logged_line(last)));
        lemma_concat_push(logged_lines(prior), logged_line(last));
        let text = concat(logged_lines(prior));
        lemma_split_line(text, last);
        let none: Seq<char> = seq![];
        assert(none + last =~= last);
        assert(prior.push(none).drop_last() =~= prior);
        assert(split_on(concat(logged_lines(messages)), '\n') =~= messages.push(none));
    }
}

} // verus!
