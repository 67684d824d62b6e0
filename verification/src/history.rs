//! The chat as it is shown: lines of text, each of one type.

use crate::agent::{call_text, heard_all, result_text, Agent, ChatListener, Tool};
use crate::line_format::{
    failed_prefix, rejected_prefix, ChatMessage, ToolCall, ToolCallParams, ToolResult,
};
use crate::string_map::StringMap;
use crate::text::{
    after_prefix, concat, join, lemma_byte_len_bound, lemma_concat_push, split_at_char, split_on,
    split_then_join, strip_prefix, texts,
};
use vstd::prelude::*;

verus! {

/// Type of a chat history entry (for formatting)
#[derive(Clone, Copy, Debug, PartialEq, Eq, Structural)]
pub enum HistoryEntryType {
    /// Nothing at all (separator)
    Empty,
    /// User message
    User,
    /// Assistant reply (actual content)
    Content,
    /// Assistant reasoning
    Reasoning,
    /// Tool call (with parameters)
    ToolCall,
    /// Tool call results (on success)
    ToolResultOk,
    /// Tool call error
    ToolResultErr,
}

/// Chat history data
#[derive(Debug)]
pub struct ChatHistory {
    /// Full chat history (split into lines, but not broken by terminal width)
    lines: Vec<(String, HistoryEntryType)>,
    /// Token usage as last reported by the LLM
    token_usage: (usize, usize),
    /// Not-yet-resolved tool calls (for [`Self::push_raw()`])
    open_tool_calls: StringMap<ToolCallParams>,
}

/// The texts of lines.
pub open spec fn lines_view(lines: Seq<(String, HistoryEntryType)>) -> Seq<
    (Seq<char>, HistoryEntryType),
> {
    Seq::new(lines.len(), |i: int| (lines[i].0@, lines[i].1))
}

/// Lines after a text was added: appended to the last line where that is asked for and the line is
/// of its type, or else as a new line. A line of another type is set apart by an empty one.
pub open spec fn line_pushed(
    lines: Seq<(Seq<char>, HistoryEntryType)>,
    text: Seq<char>,
    kind: HistoryEntryType,
    append: bool,
) -> Seq<(Seq<char>, HistoryEntryType)> {
    if lines.len() == 0 {
        seq![(text, kind)]
    } else if lines.last().1 == kind {
        if append {
            lines.drop_last().push((lines.last().0 + text, kind))
        } else {
            lines.push((text, kind))
        }
    } else if lines.last().0.len() == 0 {
        lines.drop_last().push((seq![], HistoryEntryType::Empty)).push((text, kind))
    } else {
        lines.push((seq![], HistoryEntryType::Empty)).push((text, kind))
    }
}

/// Lines after a text of several lines was added: the first is added as asked, the others as new
/// lines.
pub open spec fn lines_pushed(
    lines: Seq<(Seq<char>, HistoryEntryType)>,
    parts: Seq<Seq<char>>,
    kind: HistoryEntryType,
    append: bool,
) -> Seq<(Seq<char>, HistoryEntryType)>
    decreases parts.len(),
{
    if parts.len() == 0 {
        lines
    } else {
        line_pushed(
            lines_pushed(lines, parts.drop_last(), kind, append),
            parts.last(),
            kind,
            append && parts.len() == 1,
        )
    }
}

/// How a tool call is shown.
pub open spec fn call_line<T: Tool>(tools: Map<Seq<char>, T>, call: ToolCall) -> Seq<char> {
    "["@ + call.id@ + "] "@ + call_text(tools, call.call) + "\n"@
}

/// How the result of a tool call is shown.
pub open spec fn result_line(name: Seq<char>, id: Seq<char>, text: Seq<char>) -> Seq<char> {
    "=["@ + name + "/"@ + id + "]=> "@ + text + "\n"@
}

/// What the chat shows: its lines, and the tool calls that have no result yet.
pub struct Shown {
    /// The lines
    pub lines: Seq<(Seq<char>, HistoryEntryType)>,
    /// The tool calls without a result, by ID
    pub open: Map<Seq<char>, ToolCallParams>,
    /// Their IDs, in the order of the calls
    pub ids: Seq<Seq<char>>,
}

/// After tool calls, the first of them first.
pub open spec fn calls_shown<T: Tool>(
    shown: Shown,
    tools: Map<Seq<char>, T>,
    calls: Seq<ToolCall>,
) -> Shown
    decreases calls.len(),
{
    if calls.len() == 0 {
        shown
    } else {
        let before = calls_shown(shown, tools, calls.drop_last());
        Shown {
            lines: line_pushed(
                before.lines,
                call_line(tools, calls.last()),
                HistoryEntryType::ToolCall,
                false,
            ),
            open: before.open.insert(calls.last().id@, calls.last().call),
            ids: if before.ids.contains(calls.last().id@) {
                before.ids
            } else {
                before.ids.push(calls.last().id@)
            },
        }
    }
}

/// The error that a result tells, if it tells one.
pub open spec fn error_in(content: Seq<char>) -> Option<Seq<char>> {
    match strip_prefix(content, failed_prefix()) {
        Some(error) => Some(error),
        None => strip_prefix(content, rejected_prefix()),
    }
}

/// After the result of a tool call.
pub open spec fn result_shown<T: Tool>(
    shown: Shown,
    tools: Map<Seq<char>, T>,
    id: Seq<char>,
    content: Seq<char>,
) -> Shown {
    let known = shown.open.contains_key(id);
    let name = if known {
        shown.open[id].called()
    } else {
        "(unmatched call)"@
    };
    Shown {
        lines: match error_in(content) {
            Some(error) => line_pushed(
                shown.lines,
                result_line(name, id, error),
                HistoryEntryType::ToolResultErr,
                false,
            ),
            None => line_pushed(
                shown.lines,
                result_line(
                    name,
                    id,
                    if known {
                        result_text(tools, shown.open[id], content)
                    } else {
                        content
                    },
                ),
                HistoryEntryType::ToolResultOk,
                false,
            ),
        },
        open: shown.open.remove(id),
        ids: if shown.ids.contains(id) {
            shown.ids.remove(shown.ids.index_of(id))
        } else {
            shown.ids
        },
    }
}

/// After an optional text.
pub open spec fn text_shown(
    lines: Seq<(Seq<char>, HistoryEntryType)>,
    text: Option<String>,
    kind: HistoryEntryType,
) -> Seq<(Seq<char>, HistoryEntryType)> {
    match text {
        Some(text) => line_pushed(lines, text@, kind, false),
        None => lines,
    }
}

/// After a message. System messages are not shown; of the assistant's, reasoning comes first, then
/// content, then tool calls.
pub open spec fn message_shown<T: Tool>(
    shown: Shown,
    tools: Map<Seq<char>, T>,
    message: ChatMessage,
) -> Shown {
    match message {
        ChatMessage::System(_) => shown,
        ChatMessage::User(message) => Shown {
            lines: line_pushed(shown.lines, message.content@, HistoryEntryType::User, false),
            ..shown
        },
        ChatMessage::Assistant(message) => calls_shown(
            Shown {
                lines: text_shown(
                    text_shown(
                        shown.lines,
                        message.reasoning_content,
                        HistoryEntryType::Reasoning,
                    ),
                    message.content,
                    HistoryEntryType::Content,
                ),
                ..shown
            },
            tools,
            match message.tool_calls {
                Some(calls) => calls@,
                None => seq![],
            },
        ),
        ChatMessage::Tool(result) => result_shown(
            shown,
            tools,
            match result.tool_call_id {
                Some(id) => id@,
                None => seq![],
            },
            result.content@,
        ),
    }
}

/// What is told of a tool call that never got its result.
pub open spec fn aborted_text() -> Seq<char> {
    "Tool call aborted due to incomplete session state, please retry"@
}

/// Lines after an error for each of the tool calls `ids`.
pub open spec fn aborted_lines(
    lines: Seq<(Seq<char>, HistoryEntryType)>,
    open: Map<Seq<char>, ToolCallParams>,
    ids: Seq<Seq<char>>,
) -> Seq<(Seq<char>, HistoryEntryType)>
    decreases ids.len(),
{
    if ids.len() == 0 {
        lines
    } else {
        line_pushed(
            aborted_lines(lines, open, ids.drop_last()),
            result_line(open[ids.last()].called(), ids.last(), aborted_text()),
            HistoryEntryType::ToolResultErr,
            false,
        )
    }
}

/// Whether messages tell of an error for each of the tool calls `ids`.
pub open spec fn aborted_messages(messages: Seq<ChatMessage>, ids: Seq<Seq<char>>) -> bool {
    &&& messages.len() == ids.len()
    &&& forall|i: int|
        0 <= i < messages.len() ==> {
            &&& #[trigger] messages[i] matches ChatMessage::Tool(result)
            &&& result.tool_call_id matches Some(id)
            &&& id@ == ids[i]
            &&& result.content@ == failed_prefix() + aborted_text()
        }
}

impl Default for ChatHistory {
    fn default() -> (r: Self)
        ensures
            r.shown() == (Shown { lines: seq![], open: Map::empty(), ids: seq![] }),
            r.usage() == (0usize, 0usize),
    {
        let r = ChatHistory {
            lines: Vec::new(),
            token_usage: (0, 0),
            open_tool_calls: StringMap::new(),
        };
        assert(lines_view(r.lines@) =~= seq![]);
        r
    }
}

impl ChatHistory {
    /// What the chat shows.
    pub closed spec fn shown(&self) -> Shown {
        Shown {
            lines: lines_view(self.lines@),
            open: self.open_tool_calls@,
            ids: self.open_tool_calls.keys(),
        }
    }

    /// The token usage.
    pub closed spec fn usage(&self) -> (usize, usize) {
        self.token_usage
    }

    /// Return the chat history.
    pub fn lines(&self) -> (r: &[(String, HistoryEntryType)])
        ensures
            lines_view(r@) == self.shown().lines,
    {
        self.lines.as_slice()
    }

    /// Return the last-reported token usage.
    pub fn token_usage(&self) -> (r: &(usize, usize))
        ensures
            *r == self.usage(),
    {
        &self.token_usage
    }

    /// Report the token usage.
    pub fn set_token_usage(&mut self, token_usage: (usize, usize))
        ensures
            final(self).usage() == token_usage,
            final(self).shown() == old(self).shown(),
    {
        self.token_usage = token_usage;
    }

    /// Append the given string of type `kind` to the history.
    ///
    /// If `append` is true, append it to the prior line if the type matches; if it is false, always
    /// create a new line.
    pub fn push(&mut self, string: &str, kind: HistoryEntryType, append: bool)
        ensures
            final(self).shown().lines == line_pushed(
                old(self).shown().lines,
                string@,
                kind,
                append,
            ),
            final(self).shown().open == old(self).shown().open,
            final(self).shown().ids == old(self).shown().ids,
            final(self).usage() == old(self).usage(),
    {
        let ghost before = lines_view(self.lines@);
        match self.lines.pop() {
            Some((mut text, last_kind)) => {
                let ghost last = text@;
                let ghost rest = self.lines@;
                proof {
                    assert(before.drop_last() =~= lines_view(rest));
                    assert(before.last() == (last, last_kind));
                }
                if last_kind == kind && append {
                    text.append(string);
                    self.lines.push((text, last_kind));
                    proof {
                        assert(lines_view(self.lines@) =~= line_pushed(
                            before,
                            string@,
                            kind,
                            append,
                        ));
                    }
                    return;
                }
                if last_kind != kind {
                    if text.as_str().as_bytes().len() == 0 {
                        proof {
                            lemma_byte_len_bound(last);
                        }
                        self.lines.push((text, HistoryEntryType::Empty));
                        proof {
                            assert(last =~= seq![]);
                            assert(lines_view(self.lines@) =~= before.drop_last().push(
                                (seq![], HistoryEntryType::Empty),
                            ));
                        }
                    } else {
                        proof {
                            lemma_byte_len_bound(last);
                        }
                        self.lines.push((text, last_kind));
                        self.lines.push((String::new(), HistoryEntryType::Empty));
                        proof {
                            assert(lines_view(self.lines@) =~= before.push(
                                (seq![], HistoryEntryType::Empty),
                            ));
                        }
                    }
                } else {
                    self.lines.push((text, last_kind));
                    proof {
                        assert(lines_view(self.lines@) =~= before);
                    }
                }
            },
            None => {},
        }
        let ghost middle = lines_view(self.lines@);
        self.lines.push((string.to_string(), kind));
        proof {
            assert(lines_view(self.lines@) =~= middle.push((string@, kind)));
            assert(lines_view(self.lines@) =~= line_pushed(before, string@, kind, append));
        }
    }

    /// Append the given string of type `kind` to the history, a line for each of its lines. If
    /// `append` is true, the first is appended to the prior line if the type matches; all others
    /// are new lines.
    pub fn push_lines(&mut self, string: &str, kind: HistoryEntryType, append: bool)
        ensures
            final(self).shown().lines == lines_pushed(
                old(self).shown().lines,
                split_on(string@, '\n'),
                kind,
                append,
            ),
            final(self).shown().open == old(self).shown().open,
            final(self).shown().ids == old(self).shown().ids,
            final(self).usage() == old(self).usage(),
    {
        let parts = split_at_char(string, '\n');
        let ghost all = texts(parts@);
        assert(all.take(0) =~= seq![]);
        for i in 0..parts.len()
            invariant
                all == texts(parts@),
                self.shown().lines == lines_pushed(
                    old(self).shown().lines,
                    all.take(i as int),
                    kind,
                    append,
                ),
                self.shown().open == old(self).shown().open,
                self.shown().ids == old(self).shown().ids,
                self.usage() == old(self).usage(),
        {
            proof {
                assert(all.take(i + 1).drop_last() =~= all.take(i as int));
                assert(all.take(i + 1).last() == parts@[i as int]@);
            }
            self.push(parts[i].as_str(), kind, append && i == 0);
        }
        assert(all.take(all.len() as int) =~= all);
    }

    /// Push and format a raw [`ChatMessage`] into the history. The result of a tool call names the
    /// call that it is for.
    pub fn push_raw<L: ChatListener, T: Tool>(&mut self, agent: &Agent<L, T>, msg: &ChatMessage)
        requires
            msg matches ChatMessage::Tool(result) ==> result.tool_call_id is Some,
        ensures
            final(self).shown() == message_shown(old(self).shown(), agent.tools(), *msg),
            final(self).usage() == old(self).usage(),
    {
        match msg {
            ChatMessage::System(_) => {},
            ChatMessage::User(message) => {
                self.push(message.content.as_str(), HistoryEntryType::User, false);
            },
            ChatMessage::Assistant(message) => {
                match &message.reasoning_content {
                    Some(text) => {
                        self.push(text.as_str(), HistoryEntryType::Reasoning, false);
                    },
                    None => {},
                }
                match &message.content {
                    Some(text) => {
                        self.push(text.as_str(), HistoryEntryType::Content, false);
                    },
                    None => {},
                }
                match &message.tool_calls {
                    Some(calls) => {
                        self.show_calls(agent, calls);
                    },
                    None => {},
                }
            },
            ChatMessage::Tool(result) => {
                match &result.tool_call_id {
                    Some(id) => {
                        self.show_result(agent, id.as_str(), result.content.as_str());
                    },
                    None => {},
                }
            },
        }
    }

    /// Shows tool calls, which have no results yet.
    fn show_calls<L: ChatListener, T: Tool>(&mut self, agent: &Agent<L, T>, calls: &Vec<ToolCall>)
        ensures
            final(self).shown() == calls_shown(old(self).shown(), agent.tools(), calls@),
            final(self).usage() == old(self).usage(),
    {
        assert(calls@.take(0) =~= seq![]);
        for i in 0..calls.len()
            invariant
                self.shown() == calls_shown(
                    old(self).shown(),
                    agent.tools(),
                    calls@.take(i as int),
                ),
                self.usage() == old(self).usage(),
        {
            proof {
                assert(calls@.take(i + 1).drop_last() =~= calls@.take(i as int));
                assert(calls@.take(i + 1).last() == calls@[i as int]);
            }
            let call = &calls[i];
            self.open_tool_calls.insert(call.id.clone(), call.call.clone());
            let line = shown_call(agent, call);
            self.push(line.as_str(), HistoryEntryType::ToolCall, false);
        }
        assert(calls@.take(calls@.len() as int) =~= calls@);
    }

    /// Shows the result of a tool call.
    fn show_result<L: ChatListener, T: Tool>(
        &mut self,
        agent: &Agent<L, T>,
        id: &str,
        content: &str,
    )
        ensures
            final(self).shown() == result_shown(old(self).shown(), agent.tools(), id@, content@),
            final(self).usage() == old(self).usage(),
    {
        let call = self.open_tool_calls.remove(id);
        let name = match &call {
            Some(call) => call.name(),
            None => "(unmatched call)",
        };
        let error = match after_prefix(content, "TOOL CALL FAILED: ") {
            Some(error) => Some(error),
            None => after_prefix(content, "TOOL CALL REJECTED: "),
        };
        match error {
            Some(error) => {
                let line = shown_result(name, id, error.as_str());
                self.push(line.as_str(), HistoryEntryType::ToolResultErr, false);
            },
            None => {
                let line = match &call {
                    Some(call) => {
                        let text = agent.display_call_result(call, content);
                        shown_result(name, id, text.as_str())
                    },
                    None => shown_result(name, id, content),
                };
                self.push(line.as_str(), HistoryEntryType::ToolResultOk, false);
            },
        }
    }

    /// Force-resolve all open tool calls.
    ///
    /// Push an error for each tool call that is in the history that has not yet received a result.
    /// This is useful after loading history from an existing session state, which may be
    /// incomplete.
    pub fn force_resolve_unresolved_tool_calls<L: ChatListener, T: Tool>(
        &mut self,
        agent: &mut Agent<L, T>,
    )
        ensures
            final(self).shown().open == Map::<Seq<char>, ToolCallParams>::empty(),
            final(self).shown().ids.len() == 0,
            final(self).shown().lines == aborted_lines(
                old(self).shown().lines,
                old(self).shown().open,
                old(self).shown().ids,
            ),
            final(self).usage() == old(self).usage(),
            old(agent).messages().is_prefix_of(final(agent).messages()),
            aborted_messages(
                final(agent).messages().skip(old(agent).messages().len() as int),
                old(self).shown().ids,
            ),
            heard_all(
                old(agent).listener(),
                final(agent).messages().skip(old(agent).messages().len() as int),
                final(agent).listener(),
            ),
            final(agent).same_but_history(old(agent)),
    {
        let ghost ids = self.shown().ids;
        let ghost open = self.shown().open;
        let ghost said = agent.messages();
        let ghost n: int = 0;
        let mut left: usize = self.open_tool_calls.len();
        proof {
            assert(ids.skip(0) =~= ids);
            assert(ids.take(0) =~= seq![]);
            assert(said.skip(said.len() as int) =~= seq![]);
        }
        while left > 0
            invariant
                left == self.shown().ids.len(),
                ids == old(self).shown().ids,
                open == old(self).shown().open,
                said == old(agent).messages(),
                ids.no_duplicates(),
                0 <= n <= ids.len(),
                self.shown().ids == ids.skip(n),
                forall|i: int|
                    n <= i < ids.len() ==> self.shown().open.contains_key(#[trigger] ids[i])
                        && self.shown().open[ids[i]] == open[ids[i]],
                self.shown().lines == aborted_lines(
                    old(self).shown().lines,
                    open,
                    ids.take(n),
                ),
                self.usage() == old(self).usage(),
                said.is_prefix_of(agent.messages()),
                aborted_messages(agent.messages().skip(said.len() as int), ids.take(n)),
                heard_all(
                    old(agent).listener(),
                    agent.messages().skip(said.len() as int),
                    agent.listener(),
                ),
                agent.same_but_history(old(agent)),
            decreases ids.len() - n,
        {
            let id = self.open_tool_calls.key_at(0).clone();
            let ghost key = id@;
            let ghost before = agent.messages();
            let ghost heard = agent.listener();
            let message = ChatMessage::Tool(
                ToolResult::new(
                    id,
                    Err(
                        "Tool call aborted due to incomplete session state, please retry".to_string(),
                    ),
                ),
            );
            proof {
                assert(self.shown().ids[0] == ids[n]);
                assert(key == ids[n]);
                let left = self.shown().ids;
                assert(left.contains(key)) by {
                    assert(left[0] == key);
                }
                let at = left.index_of(key);
                assert(left[at] == ids[n + at]);
                assert(at == 0);
                assert(left.remove(0) =~= ids.skip(n + 1));
                lemma_failed_is_error(aborted_text());
                assert(ids.take(n + 1).drop_last() =~= ids.take(n));
            }
            self.push_raw(agent, &message);
            agent.push(message);
            left = self.open_tool_calls.len();
            proof {
                assert(self.shown().ids == ids.skip(n + 1));
                assert forall|i: int| n + 1 <= i < ids.len() implies self.shown().open.contains_key(
                    #[trigger] ids[i],
                ) && self.shown().open[ids[i]] == open[ids[i]] by {
                    assert(ids[i] != ids[n]);
                }
                let results = before.skip(said.len() as int);
                let now = agent.messages().skip(said.len() as int);
                assert(now =~= results.push(message));
                assert(now.drop_last() =~= results);
                assert(now.last() == message);
                assert(L::heard(heard, now.last(), agent.listener()));
                assert forall|i: int| 0 <= i < now.len() implies {
                    &&& #[trigger] now[i] matches ChatMessage::Tool(result)
                    &&& result.tool_call_id matches Some(id)
                    &&& id@ == ids.take(n + 1)[i]
                    &&& result.content@ == failed_prefix() + aborted_text()
                } by {
                    if i < results.len() {
                        assert(now[i] == results[i]);
                        assert(ids.take(n)[i] == ids.take(n + 1)[i]);
                    }
                }
                n = n + 1;
            }
        }
        proof {
            assert(ids.take(ids.len() as int) =~= ids);
            assert(self.shown().ids.len() == 0);
            assert(self.shown().open =~= Map::empty());
        }
    }
}

/// After messages, the first of them first.
pub open spec fn messages_shown<T: Tool>(
    shown: Shown,
    tools: Map<Seq<char>, T>,
    messages: Seq<ChatMessage>,
) -> Shown
    decreases messages.len(),
{
    if messages.len() == 0 {
        shown
    } else {
        message_shown(
            messages_shown(shown, tools, messages.drop_last()),
            tools,
            messages.last(),
        )
    }
}

/// What a chat shows before there is anything.
pub open spec fn nothing_shown() -> Shown {
    Shown { lines: seq![], open: Map::empty(), ids: seq![] }
}

/// What is shown of a chat that is taken up again with the given messages. Tool calls among them
/// that have no result get an error for one, which goes to the agent too.
pub fn new_with_history<L: ChatListener, T: Tool>(
    agent: &mut Agent<L, T>,
    messages: &[ChatMessage],
) -> (r: ChatHistory)
    requires
        forall|i: int|
            0 <= i < messages@.len() ==> (#[trigger] messages@[i] matches ChatMessage::Tool(result)
                ==> result.tool_call_id is Some),
    ensures
        ({
            let before = messages_shown(nothing_shown(), old(agent).tools(), messages@);
            &&& r.shown().lines == aborted_lines(before.lines, before.open, before.ids)
            &&& r.shown().open == Map::<Seq<char>, ToolCallParams>::empty()
            &&& r.shown().ids.len() == 0
            &&& aborted_messages(
                final(agent).messages().skip(old(agent).messages().len() as int),
                before.ids,
            )
        }),
        r.usage() == (0usize, 0usize),
        old(agent).messages().is_prefix_of(final(agent).messages()),
        heard_all(
            old(agent).listener(),
            final(agent).messages().skip(old(agent).messages().len() as int),
            final(agent).listener(),
        ),
        final(agent).same_but_history(old(agent)),
{
    let mut history = ChatHistory::default();
    assert(messages@.take(0) =~= seq![]);
    for i in 0..messages.len()
        invariant
            *agent == *old(agent),
            forall|j: int|
                0 <= j < messages@.len() ==> (#[trigger] messages@[j] matches ChatMessage::Tool(
                    result,
                ) ==> result.tool_call_id is Some),
            history.shown() == messages_shown(
                nothing_shown(),
                old(agent).tools(),
                messages@.take(i as int),
            ),
            history.usage() == (0usize, 0usize),
    {
        proof {
            assert(messages@.take(i + 1).drop_last() =~= messages@.take(i as int));
            assert(messages@.take(i + 1).last() == messages@[i as int]);
        }
        history.push_raw(agent, &messages[i]);
    }
    assert(messages@.take(messages@.len() as int) =~= messages@);
    history.force_resolve_unresolved_tool_calls(agent);
    history
}

/// A result that tells of a failure is shown as the error that it tells.
proof fn lemma_failed_is_error(error: Seq<char>)
    ensures
        error_in(failed_prefix() + error) == Some(error),
{
    let content = failed_prefix() + error;
    assert(failed_prefix().is_prefix_of(content));
    assert(content.skip(failed_prefix().len() as int) =~= error);
}

/// A call in a form for display, with its ID.
pub fn shown_call<L: ChatListener, T: Tool>(agent: &Agent<L, T>, call: &ToolCall) -> (r: String)
    ensures
        r@ == call_line(agent.tools(), *call),
{
    let mut line = String::new();
    line.append("[");
    line.append(call.id.as_str());
    line.append("] ");
    let shown = agent.display_call(&call.call);
    line.append(shown.as_str());
    line.append("\n");
    assert(line@ =~= call_line(agent.tools(), *call));
    line
}

/// A result in a form for display, with the tool and the ID of the call.
pub fn shown_result(name: &str, id: &str, text: &str) -> (r: String)
    ensures
        r@ == result_line(name@, id@, text@),
{
    let mut line = String::new();
    line.append("=[");
    line.append(name);
    line.append("/");
    line.append(id);
    line.append("]=> ");
    line.append(text);
    line.append("\n");
    assert(line@ =~= result_line(name@, id@, text@));
    line
}

/// Splitting a concatenation: the last piece of the first text and the first of the second grow
/// together.
proof fn lemma_split_concat(a: Seq<char>, b: Seq<char>, c: char)
    ensures
        ({
            let x = split_on(a, c);
            let y = split_on(b, c);
            &&& x.len() >= 1
            &&& y.len() >= 1
            &&& split_on(a + b, c) == x.drop_last().push(x.last() + y[0]) + y.skip(1)
        }),
    decreases b.len(),
{
    let x = split_on(a, c);
    split_then_join(a, c);
    split_then_join(b, c);
    let y = split_on(b, c);
    if b.len() == 0 {
        assert(a + b =~= a);
        assert(y =~= seq![seq![]]);
        assert(x.last() + y[0] =~= x.last());
        assert(x.drop_last().push(x.last() + y[0]) + y.skip(1) =~= x);
    } else {
        let before = split_on(b.drop_last(), c);
        lemma_split_concat(a, b.drop_last(), c);
        assert((a + b).drop_last() =~= a + b.drop_last());
        assert((a + b).last() == b.last());
        let whole = split_on(a + b.drop_last(), c);
        let joined = x.drop_last().push(x.last() + y[0]) + y.skip(1);
        if b.last() == c {
            assert(y =~= before.push(seq![]));
            assert(split_on(a + b, c) =~= joined);
        } else if before.len() == 1 {
            assert(y =~= seq![before[0].push(b.last())]);
            assert(whole.last() == x.last() + before[0]);
            assert((x.last() + before[0]).push(b.last()) =~= x.last() + y[0]);
            assert(split_on(a + b, c) =~= joined);
        } else {
            assert(y =~= before.drop_last().push(before.last().push(b.last())));
            assert(whole.last() == before.last());
            assert(split_on(a + b, c) =~= joined);
        }
    }
}

/// After text was added, the last line is of its type.
proof fn lemma_last_kind(
    lines: Seq<(Seq<char>, HistoryEntryType)>,
    parts: Seq<Seq<char>>,
    kind: HistoryEntryType,
    append: bool,
)
    requires
        parts.len() >= 1,
    ensures
        lines_pushed(lines, parts, kind, append).len() >= 1,
        lines_pushed(lines, parts, kind, append).last().1 == kind,
{
}

/// Streamed text shows the same in whatever pieces it arrives: adding a text and then more of it is
/// adding all of it at once.
pub proof fn shown_text_does_not_depend_on_pieces(
    lines: Seq<(Seq<char>, HistoryEntryType)>,
    a: Seq<char>,
    b: Seq<char>,
    kind: HistoryEntryType,
    append: bool,
)
    ensures
        lines_pushed(
            lines_pushed(lines, split_on(a, '\n'), kind, append),
            split_on(b, '\n'),
            kind,
            true,
        ) == lines_pushed(lines, split_on(a + b, '\n'), kind, append),
    decreases b.len(),
{
    let x = split_on(a, '\n');
    let y = split_on(b, '\n');
    lemma_split_concat(a, b, '\n');
    split_then_join(a, '\n');
    split_then_join(b, '\n');
    let start = lines_pushed(lines, x, kind, append);
    lemma_last_kind(lines, x, kind, append);
    let joined = x.drop_last().push(x.last() + y[0]);
    assert(joined.drop_last() =~= x.drop_last());
    let prior = lines_pushed(lines, x.drop_last(), kind, append);
    let flag = append && x.len() == 1;
    assert(start == line_pushed(prior, x.last(), kind, flag));
    assert(lines_pushed(lines, joined, kind, append) == line_pushed(
        prior,
        x.last() + y[0],
        kind,
        flag,
    ));
    lemma_continue(prior, x.last(), y[0], kind, flag);
    lemma_rest(lines, start, joined, y, kind, append, y.len() as int);
    assert(y.take(y.len() as int) =~= y);
    assert(y.subrange(1, y.len() as int) =~= y.skip(1));
}

/// Adding a text and continuing it is adding the continued text.
proof fn lemma_continue(
    lines: Seq<(Seq<char>, HistoryEntryType)>,
    a: Seq<char>,
    b: Seq<char>,
    kind: HistoryEntryType,
    append: bool,
)
    ensures
        line_pushed(line_pushed(lines, a, kind, append), b, kind, true) == line_pushed(
            lines,
            a + b,
            kind,
            append,
        ),
{
    let after = line_pushed(lines, a, kind, append);
    if lines.len() > 0 && lines.last().1 == kind && append {
        assert(lines.last().0 + a + b =~= lines.last().0 + (a + b));
    }
    assert(line_pushed(after, b, kind, true) =~= line_pushed(lines, a + b, kind, append));
}

/// The lines after the first are new lines, whatever they follow.
proof fn lemma_rest(
    lines: Seq<(Seq<char>, HistoryEntryType)>,
    start: Seq<(Seq<char>, HistoryEntryType)>,
    joined: Seq<Seq<char>>,
    y: Seq<Seq<char>>,
    kind: HistoryEntryType,
    append: bool,
    k: int,
)
    requires
        1 <= k <= y.len(),
        joined.len() >= 1,
        line_pushed(start, y[0], kind, true) == lines_pushed(lines, joined, kind, append),
    ensures
        lines_pushed(start, y.take(k), kind, true) == lines_pushed(
            lines,
            joined + y.subrange(1, k),
            kind,
            append,
        ),
    decreases k,
{
    if k == 1 {
        assert(y.take(1).drop_last() =~= seq![]);
        assert(y.take(1).last() == y[0]);
        assert(lines_pushed(start, y.take(1).drop_last(), kind, true) == start);
        assert(joined + y.subrange(1, 1) =~= joined);
    } else {
        lemma_rest(lines, start, joined, y, kind, append, k - 1);
        assert(y.take(k).drop_last() =~= y.take(k - 1));
        let all = joined + y.subrange(1, k);
        assert(all.drop_last() =~= joined + y.subrange(1, k - 1));
        assert(all.last() == y[k - 1]);
        assert(y.take(k).last() == y[k - 1]);
    }
}

/// A text of one type that is added to an empty history makes up its lines.
pub proof fn shown_lines_make_up_the_text(text: Seq<char>, kind: HistoryEntryType, append: bool)
    ensures
        ({
            let lines = lines_pushed(seq![], split_on(text, '\n'), kind, append);
            &&& join(Seq::new(lines.len(), |i: int| lines[i].0), seq!['\n']) == text
            &&& forall|i: int| 0 <= i < lines.len() ==> (#[trigger] lines[i]).1 == kind
        }),
{
    let parts = split_on(text, '\n');
    split_then_join(text, '\n');
    lemma_fresh_lines(parts, kind, append);
    let lines = lines_pushed(seq![], parts, kind, append);
    assert(Seq::new(lines.len(), |i: int| lines[i].0) =~= parts);
}

/// Lines that are added to an empty history stand as they are.
pub proof fn lemma_fresh_lines(parts: Seq<Seq<char>>, kind: HistoryEntryType, append: bool)
    ensures
        lines_pushed(seq![], parts, kind, append) == parts.map_values(|p: Seq<char>| (p, kind)),
    decreases parts.len(),
{
    let none: Seq<(Seq<char>, HistoryEntryType)> = seq![];
    let lines = lines_pushed(none, parts, kind, append);
    let wanted = parts.map_values(|p: Seq<char>| (p, kind));
    if parts.len() == 0 {
        assert(lines =~= wanted);
    } else {
        lemma_fresh_lines(parts.drop_last(), kind, append);
        assert(lines =~= wanted);
    }
}

/// What the lines of a type say, one after the other.
pub open spec fn text_of_kind(
    lines: Seq<(Seq<char>, HistoryEntryType)>,
    kind: HistoryEntryType,
) -> Seq<char>
    decreases lines.len(),
{
    if lines.len() == 0 {
        seq![]
    } else {
        text_of_kind(lines.drop_last(), kind) + if lines.last().1 == kind {
            lines.last().0
        } else {
            seq![]
        }
    }
}

/// A text without its newlines.
pub open spec fn without_newlines(text: Seq<char>) -> Seq<char> {
    text.filter(|c: char| c != '\n')
}

/// Whether lines of two types never follow each other directly: a separator is between them.
pub open spec fn set_apart(lines: Seq<(Seq<char>, HistoryEntryType)>) -> bool {
    forall|i: int, j: int|
        0 <= i && j == i + 1 && j < lines.len() && (#[trigger] lines[i]).1 != (
        #[trigger] lines[j]).1 ==> lines[i].1 == HistoryEntryType::Empty || lines[j].1
            == HistoryEntryType::Empty
}

/// What lines say that are made of two parts.
proof fn lemma_text_of_both(
    a: Seq<(Seq<char>, HistoryEntryType)>,
    b: Seq<(Seq<char>, HistoryEntryType)>,
    kind: HistoryEntryType,
)
    ensures
        text_of_kind(a + b, kind) == text_of_kind(a, kind) + text_of_kind(b, kind),
    decreases b.len(),
{
    if b.len() == 0 {
        assert(a + b =~= a);
        assert(text_of_kind(a + b, kind) =~= text_of_kind(a, kind) + text_of_kind(b, kind));
    } else {
        lemma_text_of_both(a, b.drop_last(), kind);
        assert((a + b).drop_last() =~= a + b.drop_last());
        assert((a + b).last() == b.last());
        assert(text_of_kind(a + b, kind) =~= text_of_kind(a, kind) + text_of_kind(b, kind));
    }
}

/// What a single line says.
proof fn lemma_text_of_line(
    line: (Seq<char>, HistoryEntryType),
    kind: HistoryEntryType,
)
    ensures
        text_of_kind(seq![line], kind) == if line.1 == kind {
            line.0
        } else {
            seq![]
        },
{
    let one = seq![line];
    assert(one.drop_last() =~= seq![]);
    assert(text_of_kind(one.drop_last(), kind) =~= seq![]);
    assert(one.last() == line);
    assert(text_of_kind(one, kind) =~= if line.1 == kind {
        line.0
    } else {
        seq![]
    });
}

/// What lines of one type say.
proof fn lemma_text_of_own(
    parts: Seq<Seq<char>>,
    own: HistoryEntryType,
    kind: HistoryEntryType,
)
    ensures
        text_of_kind(parts.map_values(|p: Seq<char>| (p, own)), kind) == if own == kind {
            concat(parts)
        } else {
            seq![]
        },
    decreases parts.len(),
{
    let lines = parts.map_values(|p: Seq<char>| (p, own));
    if parts.len() > 0 {
        lemma_text_of_own(parts.drop_last(), own, kind);
        assert(lines.drop_last() =~= parts.drop_last().map_values(|p: Seq<char>| (p, own)));
        assert(lines.last() == (parts.last(), own));
    }
    assert(text_of_kind(lines, kind) =~= if own == kind {
        concat(parts)
    } else {
        seq![]
    });
}

/// The lines of a text hold all of it but its newlines.
proof fn lemma_lines_without_newlines(text: Seq<char>)
    ensures
        split_on(text, '\n').len() >= 1,
        concat(split_on(text, '\n')) == without_newlines(text),
    decreases text.len(),
{
    reveal(Seq::filter);
    if text.len() == 0 {
        let one: Seq<Seq<char>> = seq![seq![]];
        assert(one.drop_last() =~= seq![]);
        assert(concat(one.drop_last()) =~= seq![]);
        assert(concat(one) =~= seq![]);
        assert(without_newlines(text) =~= seq![]);
    } else {
        let before = split_on(text.drop_last(), '\n');
        lemma_lines_without_newlines(text.drop_last());
        if text.last() == '\n' {
            lemma_concat_push(before, seq![]);
            assert(concat(before) + seq![] =~= concat(before));
        } else {
            let grown = before.last().push(text.last());
            lemma_concat_push(before.drop_last(), grown);
            assert(concat(before.drop_last()) + grown =~= concat(before).push(text.last()));
        }
    }
}

/// A text is shown on lines of its own, one for each of its lines, after all that was shown
/// before. Its first line continues the last line where that is asked for and the types are the
/// same. Where they are not, an empty line is between them, which takes the place of a last line
/// that has no text.
pub proof fn new_text_follows_what_was_shown(
    lines: Seq<(Seq<char>, HistoryEntryType)>,
    parts: Seq<Seq<char>>,
    kind: HistoryEntryType,
    append: bool,
)
    requires
        lines.len() > 0,
        parts.len() > 0,
    ensures
        ({
            let after = lines_pushed(lines, parts, kind, append);
            let own = parts.map_values(|p: Seq<char>| (p, kind));
            let separator: (Seq<char>, HistoryEntryType) = (seq![], HistoryEntryType::Empty);
            let (last, last_kind) = lines.last();
            &&& last_kind == kind && append ==> after == lines.drop_last() + own.update(
                0,
                (last + parts[0], kind),
            )
            &&& last_kind == kind && !append ==> after == lines + own
            &&& last_kind != kind && last.len() > 0 ==> after == lines.push(separator) + own
            &&& last_kind != kind && last.len() == 0 ==> after == lines.drop_last().push(separator)
                + own
        }),
    decreases parts.len(),
{
    let after = lines_pushed(lines, parts, kind, append);
    let own = parts.map_values(|p: Seq<char>| (p, kind));
    let separator: (Seq<char>, HistoryEntryType) = (seq![], HistoryEntryType::Empty);
    let (last, last_kind) = lines.last();
    let fewer = parts.drop_last();
    if parts.len() == 1 {
        assert(lines_pushed(lines, fewer, kind, append) == lines);
    } else {
        new_text_follows_what_was_shown(lines, fewer, kind, append);
        lemma_last_kind(lines, fewer, kind, append);
        assert(after == lines_pushed(lines, fewer, kind, append).push((parts.last(), kind)));
    }
    if last_kind == kind && append {
        assert(after =~= lines.drop_last() + own.update(0, (last + parts[0], kind)));
    } else if last_kind == kind {
        assert(after =~= lines + own);
    } else if last.len() > 0 {
        assert(after =~= lines.push(separator) + own);
    } else {
        assert(after =~= lines.drop_last().push(separator) + own);
    }
}

/// Text of one type adds to what the lines of that type say, all of it but its newlines, and to
/// what the lines of no other type say.
pub proof fn shown_text_is_of_its_type(
    lines: Seq<(Seq<char>, HistoryEntryType)>,
    text: Seq<char>,
    kind: HistoryEntryType,
    append: bool,
    other: HistoryEntryType,
)
    ensures
        text_of_kind(lines_pushed(lines, split_on(text, '\n'), kind, append), other)
            == text_of_kind(lines, other) + if other == kind {
            without_newlines(text)
        } else {
            seq![]
        },
{
    let parts = split_on(text, '\n');
    let after = lines_pushed(lines, parts, kind, append);
    let own = parts.map_values(|p: Seq<char>| (p, kind));
    let separator: (Seq<char>, HistoryEntryType) = (seq![], HistoryEntryType::Empty);
    lemma_lines_without_newlines(text);
    lemma_text_of_own(parts, kind, other);
    if lines.len() == 0 {
        assert(lines =~= seq![]);
        lemma_fresh_lines(parts, kind, append);
        assert(text_of_kind(after, other) =~= text_of_kind(lines, other) + text_of_kind(
            own,
            other,
        ));
    } else {
        let (last, last_kind) = lines.last();
        new_text_follows_what_was_shown(lines, parts, kind, append);
        let rest = lines.drop_last();
        assert(lines =~= rest + seq![lines.last()]);
        lemma_text_of_line(separator, other);
        if last_kind == kind && append {
            let grown = parts.update(0, last + parts[0]);
            assert(own.update(0, (last + parts[0], kind)) =~= grown.map_values(
                |p: Seq<char>| (p, kind),
            ));
            lemma_text_of_both(rest, own.update(0, (last + parts[0], kind)), other);
            lemma_text_of_own(grown, kind, other);
            lemma_grown(parts, last);
            assert(text_of_kind(after, other) =~= text_of_kind(lines, other) + text_of_kind(
                own,
                other,
            ));
        } else if last_kind == kind {
            lemma_text_of_both(lines, own, other);
        } else if last.len() > 0 {
            lemma_text_of_both(lines.push(separator), own, other);
            assert(lines.push(separator).drop_last() =~= lines);
            assert(text_of_kind(lines.push(separator), other) =~= text_of_kind(lines, other));
        } else {
            lemma_text_of_both(rest.push(separator), own, other);
            assert(rest.push(separator).drop_last() =~= rest);
            assert(last =~= seq![]);
            assert(text_of_kind(rest.push(separator), other) =~= text_of_kind(lines, other));
        }
    }
}

/// Parts whose first has grown at its front.
proof fn lemma_grown(parts: Seq<Seq<char>>, front: Seq<char>)
    requires
        parts.len() > 0,
    ensures
        concat(parts.update(0, front + parts[0])) == front + concat(parts),
    decreases parts.len(),
{
    let grown = parts.update(0, front + parts[0]);
    if parts.len() == 1 {
        assert(parts.drop_last() =~= seq![]);
        assert(grown.drop_last() =~= seq![]);
        assert(concat(grown.drop_last()) =~= seq![]);
        assert(concat(parts.drop_last()) =~= seq![]);
        assert(concat(grown) =~= front + concat(parts));
    } else {
        lemma_grown(parts.drop_last(), front);
        assert(grown.drop_last() =~= parts.drop_last().update(0, front + parts[0]));
        assert(concat(grown) =~= front + concat(parts));
    }
}

/// After text was shown the last line is of its type and ends with the last line of the text, and
/// all lines but the last that were shown before are still there.
pub proof fn shown_text_ends_the_chat(
    lines: Seq<(Seq<char>, HistoryEntryType)>,
    text: Seq<char>,
    kind: HistoryEntryType,
    append: bool,
)
    ensures
        ({
            let after = lines_pushed(lines, split_on(text, '\n'), kind, append);
            &&& split_on(text, '\n').len() >= 1
            &&& after.len() >= 1
            &&& after.len() >= lines.len()
            &&& after.last().1 == kind
            &&& split_on(text, '\n').last().is_suffix_of(after.last().0)
            &&& lines.len() > 0 ==> lines.drop_last().is_prefix_of(after)
        }),
{
    let parts = split_on(text, '\n');
    let after = lines_pushed(lines, parts, kind, append);
    split_then_join(text, '\n');
    if lines.len() == 0 {
        assert(lines =~= seq![]);
        lemma_fresh_lines(parts, kind, append);
        assert(after.last().0 == parts.last());
    } else {
        new_text_follows_what_was_shown(lines, parts, kind, append);
        assert(lines.drop_last() =~= after.take(lines.len() - 1));
        if lines.last().1 == kind && append && parts.len() == 1 {
            assert(after.last().0 == lines.last().0 + parts[0]);
            assert(after.last().0.skip(lines.last().0.len() as int) =~= parts[0]);
        } else {
            assert(after.last().0 == parts.last());
        }
    }
    assert(parts.last() =~= after.last().0.skip(after.last().0.len() - parts.last().len()));
}

/// What is of different types is never shown without a separator between.
pub proof fn types_are_set_apart(
    lines: Seq<(Seq<char>, HistoryEntryType)>,
    text: Seq<char>,
    kind: HistoryEntryType,
    append: bool,
)
    requires
        set_apart(lines),
    ensures
        set_apart(lines_pushed(lines, split_on(text, '\n'), kind, append)),
{
    let parts = split_on(text, '\n');
    let after = lines_pushed(lines, parts, kind, append);
    split_then_join(text, '\n');
    if lines.len() == 0 {
        assert(lines =~= seq![]);
        lemma_fresh_lines(parts, kind, append);
    } else {
        new_text_follows_what_was_shown(lines, parts, kind, append);
        let kept = lines.len() - 1;
        assert forall|i: int, j: int|
            0 <= i && j == i + 1 && j < after.len() && (#[trigger] after[i]).1 != (
            #[trigger] after[j]).1 implies after[i].1 == HistoryEntryType::Empty || after[j].1
            == HistoryEntryType::Empty by {
            if j < kept {
                assert(after[i] == lines[i]);
                assert(after[j] == lines[j]);
            } else if j == kept {
                assert(after[i] == lines[i]);
                if after[j].1 != HistoryEntryType::Empty {
                    assert(after[j].1 == lines[j].1);
                }
            }
        }
    }
}

/// What a line adds to what lines say.
proof fn lemma_text_of_pushed(
    lines: Seq<(Seq<char>, HistoryEntryType)>,
    text: Seq<char>,
    kind: HistoryEntryType,
    append: bool,
    other: HistoryEntryType,
)
    ensures
        text_of_kind(line_pushed(lines, text, kind, append), other) == text_of_kind(lines, other)
            + if other == kind {
            text
        } else {
            seq![]
        },
{
    let after = line_pushed(lines, text, kind, append);
    let separator: (Seq<char>, HistoryEntryType) = (seq![], HistoryEntryType::Empty);
    let line = (text, kind);
    lemma_text_of_line(line, other);
    lemma_text_of_line(separator, other);
    if lines.len() == 0 {
        assert(text_of_kind(after, other) =~= text_of_kind(lines, other) + text_of_kind(
            seq![line],
            other,
        ));
    } else if lines.last().1 == kind {
        if append {
            assert(after.drop_last() =~= lines.drop_last());
        } else {
            assert(after.drop_last() =~= lines);
        }
        assert(text_of_kind(after, other) =~= text_of_kind(lines, other) + text_of_kind(
            seq![line],
            other,
        ));
    } else {
        let before = after.drop_last();
        assert(before.last() == separator);
        if lines.last().0.len() == 0 {
            assert(before.drop_last() =~= lines.drop_last());
        } else {
            assert(before.drop_last() =~= lines);
        }
        assert(text_of_kind(before, other) =~= text_of_kind(lines, other));
        assert(text_of_kind(after, other) =~= text_of_kind(before, other) + text_of_kind(
            seq![line],
            other,
        ));
    }
}

/// Tool calls are shown in their order on lines of their type, each with its ID, and are without a
/// result from then on.
pub proof fn calls_are_shown_and_open<T: Tool>(
    shown: Shown,
    tools: Map<Seq<char>, T>,
    calls: Seq<ToolCall>,
    kind: HistoryEntryType,
)
    ensures
        ({
            let after = calls_shown(shown, tools, calls);
            &&& text_of_kind(after.lines, kind) == text_of_kind(shown.lines, kind) + if kind
                == HistoryEntryType::ToolCall {
                concat(
                    calls.map_values(
                        |call: ToolCall|
                            "["@ + call.id@ + "] "@ + call_text(tools, call.call) + "\n"@,
                    ),
                )
            } else {
                seq![]
            }
            &&& forall|id: Seq<char>| #[trigger]
                after.open.contains_key(id) <==> shown.open.contains_key(id) || exists|i: int|
                    0 <= i < calls.len() && (#[trigger] calls[i]).id@ == id
        }),
    decreases calls.len(),
{
    let line = |call: ToolCall| "["@ + call.id@ + "] "@ + call_text(tools, call.call) + "\n"@;
    let all = calls.map_values(line);
    if calls.len() == 0 {
        assert(text_of_kind(shown.lines, kind) + seq![] =~= text_of_kind(shown.lines, kind));
    } else {
        let fewer = calls.drop_last();
        calls_are_shown_and_open(shown, tools, fewer, kind);
        let before = calls_shown(shown, tools, fewer);
        let after = calls_shown(shown, tools, calls);
        lemma_text_of_pushed(
            before.lines,
            call_line(tools, calls.last()),
            HistoryEntryType::ToolCall,
            false,
            kind,
        );
        assert(all.drop_last() =~= fewer.map_values(line));
        assert(all.last() == call_line(tools, calls.last()));
        assert(text_of_kind(after.lines, kind) =~= text_of_kind(shown.lines, kind) + if kind
            == HistoryEntryType::ToolCall {
            concat(all)
        } else {
            seq![]
        });
        assert forall|id: Seq<char>| #[trigger] after.open.contains_key(id) implies (
        shown.open.contains_key(id) || exists|i: int|
            0 <= i < calls.len() && (#[trigger] calls[i]).id@ == id) by {
            if id == calls.last().id@ {
                assert(calls[calls.len() - 1].id@ == id);
            } else if before.open.contains_key(id) && !shown.open.contains_key(id) {
                let i = choose|i: int| 0 <= i < fewer.len() && (#[trigger] fewer[i]).id@ == id;
                assert(calls[i].id@ == id);
            }
        }
        assert forall|id: Seq<char>|
            shown.open.contains_key(id) || (exists|i: int|
                0 <= i < calls.len() && (#[trigger] calls[i]).id@
                    == id) implies #[trigger] after.open.contains_key(id) by {
            if !shown.open.contains_key(id) {
                let i = choose|i: int| 0 <= i < calls.len() && (#[trigger] calls[i]).id@ == id;
                if i < fewer.len() {
                    assert(fewer[i].id@ == id);
                    assert(before.open.contains_key(id));
                }
            } else {
                assert(before.open.contains_key(id));
            }
        }
    }
}

/// The user's messages, the assistant's reasoning and content are shown on lines of their types;
/// what the system says is not shown.
pub proof fn messages_are_shown_as_what_they_are<T: Tool>(
    shown: Shown,
    tools: Map<Seq<char>, T>,
    message: ChatMessage,
    kind: HistoryEntryType,
)
    ensures
        ({
            let before = text_of_kind(shown.lines, kind);
            let after = text_of_kind(message_shown(shown, tools, message).lines, kind);
            match message {
                ChatMessage::System(_) => message_shown(shown, tools, message) == shown,
                ChatMessage::User(said) => after == before + if kind == HistoryEntryType::User {
                    said.content@
                } else {
                    seq![]
                },
                ChatMessage::Assistant(said) => {
                    &&& kind == HistoryEntryType::Reasoning ==> after == before + match
                        said.reasoning_content {
                        Some(text) => text@,
                        None => seq![],
                    }
                    &&& kind == HistoryEntryType::Content ==> after == before + match
                        said.content {
                        Some(text) => text@,
                        None => seq![],
                    }
                    &&& kind == HistoryEntryType::User || kind == HistoryEntryType::ToolResultOk
                        || kind == HistoryEntryType::ToolResultErr ==> after == before
                },
                ChatMessage::Tool(_) => kind != HistoryEntryType::ToolResultOk && kind
                    != HistoryEntryType::ToolResultErr ==> after == before,
            }
        }),
{
    let before = text_of_kind(shown.lines, kind);
    match message {
        ChatMessage::System(_) => {},
        ChatMessage::User(said) => {
            lemma_text_of_pushed(
                shown.lines,
                said.content@,
                HistoryEntryType::User,
                false,
                kind,
            );
        },
        ChatMessage::Assistant(said) => {
            let first = text_shown(
                shown.lines,
                said.reasoning_content,
                HistoryEntryType::Reasoning,
            );
            let second = text_shown(first, said.content, HistoryEntryType::Content);
            match said.reasoning_content {
                Some(text) => lemma_text_of_pushed(
                    shown.lines,
                    text@,
                    HistoryEntryType::Reasoning,
                    false,
                    kind,
                ),
                None => {},
            }
            match said.content {
                Some(text) => lemma_text_of_pushed(
                    first,
                    text@,
                    HistoryEntryType::Content,
                    false,
                    kind,
                ),
                None => {},
            }
            let calls = match said.tool_calls {
                Some(calls) => calls@,
                None => seq![],
            };
            calls_are_shown_and_open(Shown { lines: second, ..shown }, tools, calls, kind);
            assert(before + seq![] =~= before);
            assert(text_of_kind(first, kind) + seq![] =~= text_of_kind(first, kind));
            assert(text_of_kind(second, kind) + seq![] =~= text_of_kind(second, kind));
        },
        ChatMessage::Tool(result) => {
            let id = match result.tool_call_id {
                Some(id) => id@,
                None => seq![],
            };
            lemma_result_text(shown, tools, id, result.content@, kind);
            assert(before + seq![] =~= before);
        },
    }
}

/// What a result adds to what the lines of a type say.
proof fn lemma_result_text<T: Tool>(
    shown: Shown,
    tools: Map<Seq<char>, T>,
    id: Seq<char>,
    content: Seq<char>,
    kind: HistoryEntryType,
)
    ensures
        ({
            let known = shown.open.contains_key(id);
            let name = if known {
                shown.open[id].called()
            } else {
                "(unmatched call)"@
            };
            let text = if known {
                result_text(tools, shown.open[id], content)
            } else {
                content
            };
            text_of_kind(result_shown(shown, tools, id, content).lines, kind) == text_of_kind(
                shown.lines,
                kind,
            ) + match error_in(content) {
                Some(error) => if kind == HistoryEntryType::ToolResultErr {
                    result_line(name, id, error)
                } else {
                    seq![]
                },
                None => if kind == HistoryEntryType::ToolResultOk {
                    result_line(name, id, text)
                } else {
                    seq![]
                },
            }
        }),
{
    let known = shown.open.contains_key(id);
    let name = if known {
        shown.open[id].called()
    } else {
        "(unmatched call)"@
    };
    let text = if known {
        result_text(tools, shown.open[id], content)
    } else {
        content
    };
    match error_in(content) {
        Some(error) => lemma_text_of_pushed(
            shown.lines,
            result_line(name, id, error),
            HistoryEntryType::ToolResultErr,
            false,
            kind,
        ),
        None => lemma_text_of_pushed(
            shown.lines,
            result_line(name, id, text),
            HistoryEntryType::ToolResultOk,
            false,
            kind,
        ),
    }
}

/// The result of a call that failed or was rejected is shown as an error, with the name of the tool,
/// the ID of the call and the reason, and the call is resolved.
pub proof fn failures_are_shown_as_errors<T: Tool>(
    shown: Shown,
    tools: Map<Seq<char>, T>,
    id: Seq<char>,
    reason: Seq<char>,
    rejected: bool,
    kind: HistoryEntryType,
)
    requires
        shown.open.contains_key(id),
    ensures
        ({
            let content = if rejected {
                "TOOL CALL REJECTED: "@ + reason
            } else {
                "TOOL CALL FAILED: "@ + reason
            };
            let after = result_shown(shown, tools, id, content);
            &&& text_of_kind(after.lines, kind) == text_of_kind(shown.lines, kind) + if kind
                == HistoryEntryType::ToolResultErr {
                "=["@ + shown.open[id].called() + "/"@ + id + "]=> "@ + reason + "\n"@
            } else {
                seq![]
            }
            &&& after.open == shown.open.remove(id)
        }),
{
    let content = if rejected {
        "TOOL CALL REJECTED: "@ + reason
    } else {
        "TOOL CALL FAILED: "@ + reason
    };
    if rejected {
        reveal_strlit("TOOL CALL REJECTED: ");
        reveal_strlit("TOOL CALL FAILED: ");
        assert(rejected_prefix().is_prefix_of(content));
        assert(content.skip(rejected_prefix().len() as int) =~= reason);
        assert(content[10] == 'R');
        assert(failed_prefix()[10] == 'F');
        assert(!failed_prefix().is_prefix_of(content));
    } else {
        lemma_failed_is_error(reason);
    }
    lemma_result_text(shown, tools, id, content, kind);
}

/// Any other result of a call is shown as a success, as the tool shows it.
pub proof fn successes_are_shown_as_results<T: Tool>(
    shown: Shown,
    tools: Map<Seq<char>, T>,
    id: Seq<char>,
    content: Seq<char>,
    kind: HistoryEntryType,
)
    requires
        shown.open.contains_key(id),
        !"TOOL CALL FAILED: "@.is_prefix_of(content),
        !"TOOL CALL REJECTED: "@.is_prefix_of(content),
    ensures
        ({
            let after = result_shown(shown, tools, id, content);
            &&& text_of_kind(after.lines, kind) == text_of_kind(shown.lines, kind) + if kind
                == HistoryEntryType::ToolResultOk {
                "=["@ + shown.open[id].called() + "/"@ + id + "]=> "@ + result_text(
                    tools,
                    shown.open[id],
                    content,
                ) + "\n"@
            } else {
                seq![]
            }
            &&& after.open == shown.open.remove(id)
        }),
{
    lemma_result_text(shown, tools, id, content, kind);
}

/// The calls that have no result yet are resolved with an error each, in their order.
pub proof fn open_calls_are_shown_as_aborted(
    lines: Seq<(Seq<char>, HistoryEntryType)>,
    open: Map<Seq<char>, ToolCallParams>,
    ids: Seq<Seq<char>>,
    kind: HistoryEntryType,
)
    ensures
        text_of_kind(aborted_lines(lines, open, ids), kind) == text_of_kind(lines, kind) + if kind
            == HistoryEntryType::ToolResultErr {
            concat(
                ids.map_values(
                    |id: Seq<char>|
                        "=["@ + open[id].called() + "/"@ + id + "]=> "@ + aborted_text() + "\n"@,
                ),
            )
        } else {
            seq![]
        },
    decreases ids.len(),
{
    let line = |id: Seq<char>|
        "=["@ + open[id].called() + "/"@ + id + "]=> "@ + aborted_text() + "\n"@;
    let all = ids.map_values(line);
    if ids.len() == 0 {
        assert(text_of_kind(lines, kind) + seq![] =~= text_of_kind(lines, kind));
    } else {
        let fewer = ids.drop_last();
        open_calls_are_shown_as_aborted(lines, open, fewer, kind);
        lemma_text_of_pushed(
            aborted_lines(lines, open, fewer),
            result_line(open[ids.last()].called(), ids.last(), aborted_text()),
            HistoryEntryType::ToolResultErr,
            false,
            kind,
        );
        assert(all.drop_last() =~= fewer.map_values(line));
        assert(all.last() == line(ids.last()));
        assert(text_of_kind(aborted_lines(lines, open, ids), kind) =~= text_of_kind(lines, kind)
            + if kind == HistoryEntryType::ToolResultErr {
            concat(all)
        } else {
            seq![]
        });
    }
}

/// Whether the list of open calls has the ID of each of them once, and no other.
pub open spec fn lists_open_calls(shown: Shown) -> bool {
    &&& shown.ids.no_duplicates()
    &&& forall|id: Seq<char>| shown.ids.contains(id) <==> #[trigger] shown.open.contains_key(id)
}

/// Tool calls are listed in their order after those that are open already.
proof fn lemma_calls_listed<T: Tool>(
    shown: Shown,
    tools: Map<Seq<char>, T>,
    calls: Seq<ToolCall>,
)
    requires
        lists_open_calls(shown),
    ensures
        lists_open_calls(calls_shown(shown, tools, calls)),
        shown.ids.is_prefix_of(calls_shown(shown, tools, calls).ids),
    decreases calls.len(),
{
    if calls.len() == 0 {
        assert(shown.ids =~= shown.ids.take(shown.ids.len() as int));
    } else {
        let before = calls_shown(shown, tools, calls.drop_last());
        let after = calls_shown(shown, tools, calls);
        let id = calls.last().id@;
        lemma_calls_listed(shown, tools, calls.drop_last());
        if !before.ids.contains(id) {
            let more = before.ids.push(id);
            assert forall|i: int, j: int| 0 <= i < more.len() && 0 <= j < more.len() && i
                != j implies more[i] != more[j] by {
                if i == before.ids.len() {
                    assert(before.ids.contains(before.ids[j]));
                } else if j == before.ids.len() {
                    assert(before.ids.contains(before.ids[i]));
                }
            }
        }
        assert forall|k: Seq<char>| after.ids.contains(k) <==> #[trigger] after.open.contains_key(
            k,
        ) by {
            if before.ids.contains(k) {
                let i = before.ids.index_of(k);
                assert(after.ids[i] == k);
            }
            if k == id && !before.ids.contains(id) {
                assert(after.ids[before.ids.len() as int] == k);
            }
            if after.ids.contains(k) && k != id {
                let i = after.ids.index_of(k);
                assert(after.ids[i] == k);
                assert(before.ids[i] == k);
            }
            assert(before.ids.contains(k) <==> before.open.contains_key(k));
        }
        assert(shown.ids =~= after.ids.take(shown.ids.len() as int));
    }
}

/// The calls that are open are listed, each once, whatever messages are shown.
pub proof fn open_calls_stay_listed<T: Tool>(
    shown: Shown,
    tools: Map<Seq<char>, T>,
    message: ChatMessage,
)
    requires
        lists_open_calls(shown),
    ensures
        lists_open_calls(message_shown(shown, tools, message)),
{
    let after = message_shown(shown, tools, message);
    match message {
        ChatMessage::System(_) => {},
        ChatMessage::User(_) => {
            assert(after.ids == shown.ids && after.open == shown.open);
            assert forall|k: Seq<char>| after.ids.contains(k) <==> #[trigger] after.open.contains_key(
                k,
            ) by {
                assert(shown.ids.contains(k) <==> shown.open.contains_key(k));
            }
        },
        ChatMessage::Assistant(said) => {
            let spoken = Shown {
                lines: text_shown(
                    text_shown(
                        shown.lines,
                        said.reasoning_content,
                        HistoryEntryType::Reasoning,
                    ),
                    said.content,
                    HistoryEntryType::Content,
                ),
                ..shown
            };
            assert forall|k: Seq<char>| spoken.ids.contains(k) <==> #[trigger]
                spoken.open.contains_key(k) by {
                assert(shown.ids.contains(k) <==> shown.open.contains_key(k));
            }
            lemma_calls_listed(
                spoken,
                tools,
                match said.tool_calls {
                    Some(calls) => calls@,
                    None => seq![],
                },
            );
        },
        ChatMessage::Tool(result) => {
            let id = match result.tool_call_id {
                Some(id) => id@,
                None => seq![],
            };
            assert(after.open =~= shown.open.remove(id));
            if shown.ids.contains(id) {
                let at = shown.ids.index_of(id);
                assert(shown.ids[at] == id);
                assert(after.ids == shown.ids.remove(at));
                assert forall|i: int, j: int| 0 <= i < after.ids.len() && 0 <= j < after.ids.len()
                    && i != j implies after.ids[i] != after.ids[j] by {
                    let x = if i < at { i } else { i + 1 };
                    let y = if j < at { j } else { j + 1 };
                    assert(after.ids[i] == shown.ids[x] && after.ids[j] == shown.ids[y]);
                }
            }
            assert forall|k: Seq<char>| after.ids.contains(k) <==> #[trigger] after.open.contains_key(
                k,
            ) by {
                assert(shown.ids.contains(k) <==> shown.open.contains_key(k));
                if shown.ids.contains(id) {
                    let at = shown.ids.index_of(id);
                    if after.ids.contains(k) {
                        let i = after.ids.index_of(k);
                        let x = if i < at { i } else { i + 1 };
                        assert(after.ids[i] == shown.ids[x]);
                        assert(shown.ids.contains(k));
                        assert(k != id) by {
                            if k == id {
                                assert(shown.ids[x] == shown.ids[at]);
                            }
                        }
                    }
                    if shown.ids.contains(k) && k != id {
                        let x = shown.ids.index_of(k);
                        assert(shown.ids[x] == k);
                        let i = if x < at { x } else { x - 1 };
                        assert(after.ids[i] == k);
                    }
                } else {
                    assert(shown.ids.contains(id) <==> shown.open.contains_key(id));
                }
            }
        },
    }
}

/// A call that was shown is open, with its parameters, until its result is; then it is not.
pub proof fn calls_are_open_until_their_result<T: Tool>(
    shown: Shown,
    tools: Map<Seq<char>, T>,
    call: ToolCall,
    other: Seq<char>,
    content: Seq<char>,
)
    ensures
        ({
            let called = calls_shown(shown, tools, seq![call]);
            let answered = result_shown(called, tools, call.id@, content);
            &&& called.open.contains_key(call.id@) && called.open[call.id@] == call.call
            &&& !answered.open.contains_key(call.id@)
            &&& other != call.id@ ==> answered.open.contains_key(other)
                == shown.open.contains_key(other)
            &&& other != call.id@ && shown.open.contains_key(other) ==> answered.open[other]
                == shown.open[other]
        }),
{
    let one = seq![call];
    assert(one.drop_last() =~= seq![]);
    assert(calls_shown(shown, tools, one.drop_last()) == shown);
    assert(one.last() == call);
}

/// Each call that was aborted is answered once, by its ID and in the order of the calls, with a note that
/// it failed.
pub proof fn aborted_calls_are_answered(messages: Seq<ChatMessage>, ids: Seq<Seq<char>>, i: int)
    requires
        aborted_messages(messages, ids),
        0 <= i < ids.len(),
    ensures
        messages.len() == ids.len(),
        messages[i] matches ChatMessage::Tool(result) && result.tool_call_id is Some
            && result.tool_call_id->0@ == ids[i] && "TOOL CALL FAILED: "@.is_prefix_of(
            result.content@,
        ),
{
    let message = messages[i];
    match message {
        ChatMessage::Tool(result) => {
            let prefix = "TOOL CALL FAILED: "@;
            assert(prefix =~= result.content@.take(prefix.len() as int));
        },
        _ => {},
    }
}

} // verus!
