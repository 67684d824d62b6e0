//! The agent of the single-user application: user messages go to the model as soon as they are
//! there, and a flag tells when to leave.

use crate::agent::{heard_all, Agent, ChatListener, Tool};
use crate::history::{
    lines_pushed, shown_text_ends_the_chat, shown_text_is_of_its_type, text_of_kind,
    without_newlines, ChatHistory, HistoryEntryType,
};
use crate::line_format::{ChatMessage, UserMessage};
use crate::streaming::StreamingChunk;
use crate::text::split_on;
use vstd::prelude::*;

verus! {

/// What the agent is about
#[derive(Clone, Copy, Debug, PartialEq, Eq, Structural)]
pub enum BuddyPhase {
    /// It waits for a user message
    Waiting,
    /// It takes in the user messages that are there
    Gathering,
    /// It submits a request
    Submitting,
    /// It receives the answer
    Streaming,
    /// It executes tool calls
    Calling,
    /// It takes in the user messages that are there; whether there is something to submit yet
    Collecting { pending: bool },
    /// It is done
    Over,
}

/// What happened outside
#[derive(Debug)]
pub enum BuddyEvent {
    /// A user message came in, or `None` because there is no one to send any; and whether the exit
    /// flag is set
    Received(Option<String>, bool),
    /// There was this user message, or `None` was there
    Available(Option<String>),
    /// The request was submitted
    Submitted,
    /// The request could not be submitted
    SubmitFailed,
    /// A chunk of the answer came in; and whether the exit flag is set
    Chunk(StreamingChunk, bool),
    /// The answer is complete
    StreamEnded,
    /// The answer broke off
    StreamFailed,
    /// All tool calls were executed; whether there were any
    Called(bool),
}

/// What is to be done next
#[derive(Clone, Copy, Debug, PartialEq, Eq, Structural)]
pub enum BuddyAction {
    /// Wait for a user message
    Receive,
    /// See whether there is a user message
    TryReceive,
    /// Submit a request
    Submit,
    /// Wait for a chunk of the answer
    Stream,
    /// Execute the pending tool calls
    Call,
    /// Set the exit flag and leave
    Exit,
    /// Set the exit flag and leave with the error that came in
    Fail,
}

/// State of the agent-running part
#[derive(Debug)]
pub struct WorkBuddyAgent {
    /// What it is about
    phase: BuddyPhase,
}

/// What the agent acts on.
pub struct BuddyState {
    /// What it is about
    pub phase: BuddyPhase,
    /// The lines that the chat shows
    pub lines: Seq<(Seq<char>, HistoryEntryType)>,
    /// The token usage that the chat shows
    pub usage: (usize, usize),
    /// The chat history
    pub messages: Seq<ChatMessage>,
}

impl BuddyState {
    /// Some text is shown.
    pub open spec fn showing(self, text: Seq<char>, kind: HistoryEntryType) -> Self {
        BuddyState { lines: lines_pushed(self.lines, split_on(text, '\n'), kind, true), ..self }
    }

    /// A user message is shown, and in the chat history.
    pub open spec fn said(self, message: String) -> Self {
        BuddyState {
            messages: self.messages.push(ChatMessage::User(UserMessage { content: message })),
            ..self.showing(message@, HistoryEntryType::User)
        }
    }

    /// Another phase begins.
    pub open spec fn now(self, phase: BuddyPhase) -> Self {
        BuddyState { phase, ..self }
    }

    /// Whether an event can come in this phase.
    pub open spec fn expects(self, event: BuddyEvent) -> bool {
        match self.phase {
            BuddyPhase::Waiting => event is Received,
            BuddyPhase::Gathering => event is Available,
            BuddyPhase::Submitting => event is Submitted || event is SubmitFailed,
            BuddyPhase::Streaming => event is Chunk || event is StreamEnded || event is StreamFailed,
            BuddyPhase::Calling => event is Called,
            BuddyPhase::Collecting { .. } => event is Available,
            BuddyPhase::Over => false,
        }
    }

    /// After an event, and what is to be done. The agent counts `used` tokens.
    pub open spec fn stepped(self, event: BuddyEvent, used: (usize, usize)) -> (
        Self,
        BuddyAction,
    ) {
        match event {
            BuddyEvent::Received(message, exit) => match message {
                Some(message) => if exit {
                    (self.now(BuddyPhase::Over), BuddyAction::Exit)
                } else {
                    (self.said(message).now(BuddyPhase::Gathering), BuddyAction::TryReceive)
                },
                None => (self.now(BuddyPhase::Over), BuddyAction::Exit),
            },
            BuddyEvent::Available(Some(message)) => (
                match self.phase {
                    BuddyPhase::Collecting { .. } => self.said(message).now(
                        BuddyPhase::Collecting { pending: true },
                    ),
                    _ => self.said(message),
                },
                BuddyAction::TryReceive,
            ),
            BuddyEvent::Available(None) => if self.phase == (BuddyPhase::Collecting {
                pending: false,
            }) {
                (self.now(BuddyPhase::Waiting), BuddyAction::Receive)
            } else {
                (self.now(BuddyPhase::Submitting), BuddyAction::Submit)
            },
            BuddyEvent::Submitted => (self.now(BuddyPhase::Streaming), BuddyAction::Stream),
            BuddyEvent::SubmitFailed | BuddyEvent::StreamFailed => (
                self.now(BuddyPhase::Over),
                BuddyAction::Fail,
            ),
            BuddyEvent::Chunk(chunk, exit) => {
                let shown = match chunk {
                    StreamingChunk::Content(text) => self.showing(
                        text@,
                        HistoryEntryType::Content,
                    ),
                    StreamingChunk::Reasoning(text) => self.showing(
                        text@,
                        HistoryEntryType::Reasoning,
                    ),
                };
                if exit {
                    (shown.now(BuddyPhase::Over), BuddyAction::Exit)
                } else {
                    (shown, BuddyAction::Stream)
                }
            },
            BuddyEvent::StreamEnded => (
                BuddyState { usage: used, ..self.now(BuddyPhase::Calling) },
                BuddyAction::Call,
            ),
            BuddyEvent::Called(called) => (
                self.now(BuddyPhase::Collecting { pending: called }),
                BuddyAction::TryReceive,
            ),
        }
    }
}

impl WorkBuddyAgent {
    /// What the agent is about.
    pub closed spec fn phase(&self) -> BuddyPhase {
        self.phase
    }

    /// What the agent acts on.
    pub open spec fn state<L: ChatListener, T: Tool>(
        &self,
        history: &ChatHistory,
        agent: &Agent<L, T>,
    ) -> BuddyState {
        BuddyState {
            phase: self.phase(),
            lines: history.shown().lines,
            usage: history.usage(),
            messages: agent.messages(),
        }
    }

    /// Create a new instance, which waits for a user message.
    pub fn new() -> (r: Self)
        ensures
            r.phase() == BuddyPhase::Waiting,
    {
        WorkBuddyAgent { phase: BuddyPhase::Waiting }
    }

    /// What is to be done after an event.
    pub fn do_run<L: ChatListener, T: Tool>(
        &mut self,
        history: &mut ChatHistory,
        agent: &mut Agent<L, T>,
        event: BuddyEvent,
    ) -> (r: BuddyAction)
        requires
            old(self).state(old(history), old(agent)).expects(event),
        ensures
            (final(self).state(final(history), final(agent)), r) == old(self).state(
                old(history),
                old(agent),
            ).stepped(
                event,
                (old(agent).usage().prompt_tokens, old(agent).usage().completion_tokens),
            ),
            final(history).shown().open == old(history).shown().open,
            final(history).shown().ids == old(history).shown().ids,
            final(agent).same_but_history(old(agent)),
            heard_all(
                old(agent).listener(),
                final(agent).messages().skip(old(agent).messages().len() as int),
                final(agent).listener(),
            ),
    {
        let ghost messages = agent.messages();
        let ghost heard = agent.listener();
        proof {
            assert(messages.skip(messages.len() as int) =~= seq![]);
        }
        match event {
            BuddyEvent::Received(message, exit) => match message {
                Some(message) => {
                    // An empty message comes as a reminder to check the exit flag
                    if exit {
                        self.phase = BuddyPhase::Over;
                        return BuddyAction::Exit;
                    }
                    say(history, agent, message);
                    self.phase = BuddyPhase::Gathering;
                    BuddyAction::TryReceive
                },
                None => {
                    self.phase = BuddyPhase::Over;
                    BuddyAction::Exit
                },
            },
            BuddyEvent::Available(Some(message)) => {
                say(history, agent, message);
                match self.phase {
                    BuddyPhase::Collecting { .. } => {
                        self.phase = BuddyPhase::Collecting { pending: true };
                    },
                    _ => {},
                }
                BuddyAction::TryReceive
            },
            BuddyEvent::Available(None) => {
                if self.phase == (BuddyPhase::Collecting { pending: false }) {
                    self.phase = BuddyPhase::Waiting;
                    BuddyAction::Receive
                } else {
                    self.phase = BuddyPhase::Submitting;
                    BuddyAction::Submit
                }
            },
            BuddyEvent::Submitted => {
                self.phase = BuddyPhase::Streaming;
                BuddyAction::Stream
            },
            BuddyEvent::SubmitFailed => {
                self.phase = BuddyPhase::Over;
                BuddyAction::Fail
            },
            BuddyEvent::StreamFailed => {
                self.phase = BuddyPhase::Over;
                BuddyAction::Fail
            },
            BuddyEvent::Chunk(chunk, exit) => {
                match chunk {
                    StreamingChunk::Content(text) => {
                        history.push_lines(text.as_str(), HistoryEntryType::Content, true);
                    },
                    StreamingChunk::Reasoning(text) => {
                        history.push_lines(text.as_str(), HistoryEntryType::Reasoning, true);
                    },
                }
                if exit {
                    self.phase = BuddyPhase::Over;
                    return BuddyAction::Exit;
                }
                BuddyAction::Stream
            },
            BuddyEvent::StreamEnded => {
                history.set_token_usage(agent.token_usage());
                self.phase = BuddyPhase::Calling;
                BuddyAction::Call
            },
            BuddyEvent::Called(called) => {
                self.phase = BuddyPhase::Collecting { pending: called };
                BuddyAction::TryReceive
            },
        }
    }
}

/// Shows a user message, and puts it into the chat history.
fn say<L: ChatListener, T: Tool>(
    history: &mut ChatHistory,
    agent: &mut Agent<L, T>,
    message: String,
)
    ensures
        final(history).shown().lines == lines_pushed(
            old(history).shown().lines,
            split_on(message@, '\n'),
            HistoryEntryType::User,
            true,
        ),
        final(history).shown().open == old(history).shown().open,
        final(history).shown().ids == old(history).shown().ids,
        final(history).usage() == old(history).usage(),
        final(agent).messages() == old(agent).messages().push(
            ChatMessage::User(UserMessage { content: message }),
        ),
        final(agent).same_but_history(old(agent)),
        heard_all(
            old(agent).listener(),
            final(agent).messages().skip(old(agent).messages().len() as int),
            final(agent).listener(),
        ),
{
    let ghost heard = agent.listener();
    let ghost told = ChatMessage::User(UserMessage { content: message });
    history.push_lines(message.as_str(), HistoryEntryType::User, true);
    agent.push_user(message);
    proof {
        let now = agent.messages().skip(old(agent).messages().len() as int);
        assert(now =~= seq![told]);
        assert(now.drop_last() =~= seq![]);
        assert(heard_all(heard, now.drop_last(), heard));
        assert(L::heard(heard, now.last(), agent.listener()));
    }
}

/// A request is submitted only for something new: a user message since the last answer, or the
/// results of tool calls. So a user message that was taken in is submitted before the agent waits
/// again.
pub proof fn user_messages_are_submitted(state: BuddyState, event: BuddyEvent, used: (usize, usize))
    requires
        state.expects(event),
    ensures
        ({
            let (after, action) = state.stepped(event, used);
            &&& after.messages.len() > state.messages.len() ==> after.phase
                == BuddyPhase::Gathering || after.phase == (BuddyPhase::Collecting { pending: true })
            &&& (state.phase == BuddyPhase::Gathering || state.phase == (BuddyPhase::Collecting {
                pending: true,
            })) ==> action == BuddyAction::TryReceive || action == BuddyAction::Submit
            &&& state.phase == BuddyPhase::Waiting ==> action != BuddyAction::Submit
        }),
{
}

/// What a step of the agent changes in the chat: chunks are shown as content or reasoning, whichever
/// they are, and user messages as such; nothing else is.
pub proof fn the_chat_shows_what_was_said(
    state: BuddyState,
    event: BuddyEvent,
    used: (usize, usize),
    kind: HistoryEntryType,
)
    requires
        state.expects(event),
    ensures
        ({
            let after = state.stepped(event, used).0;
            text_of_kind(after.lines, kind) == text_of_kind(state.lines, kind) + match event {
                BuddyEvent::Chunk(StreamingChunk::Content(text), _) => if kind
                    == HistoryEntryType::Content {
                    without_newlines(text@)
                } else {
                    seq![]
                },
                BuddyEvent::Chunk(StreamingChunk::Reasoning(text), _) => if kind
                    == HistoryEntryType::Reasoning {
                    without_newlines(text@)
                } else {
                    seq![]
                },
                BuddyEvent::Received(Some(message), false) | BuddyEvent::Available(
                    Some(message),
                ) => if kind == HistoryEntryType::User {
                    without_newlines(message@)
                } else {
                    seq![]
                },
                _ => seq![],
            }
        }),
{
    let none: Seq<char> = seq![];
    assert(text_of_kind(state.lines, kind) + none =~= text_of_kind(state.lines, kind));
    match event {
        BuddyEvent::Chunk(StreamingChunk::Content(text), _) => shown_text_is_of_its_type(
            state.lines,
            text@,
            HistoryEntryType::Content,
            true,
            kind,
        ),
        BuddyEvent::Chunk(StreamingChunk::Reasoning(text), _) => shown_text_is_of_its_type(
            state.lines,
            text@,
            HistoryEntryType::Reasoning,
            true,
            kind,
        ),
        BuddyEvent::Received(Some(message), _) => shown_text_is_of_its_type(
            state.lines,
            message@,
            HistoryEntryType::User,
            true,
            kind,
        ),
        BuddyEvent::Available(Some(message)) => shown_text_is_of_its_type(
            state.lines,
            message@,
            HistoryEntryType::User,
            true,
            kind,
        ),
        _ => {},
    }
}

/// After a chunk the last line that is shown is of its type and ends with its last line.
pub proof fn chunks_end_the_chat(
    state: BuddyState,
    chunk: StreamingChunk,
    exit: bool,
    used: (usize, usize),
)
    ensures
        ({
            let lines = state.stepped(BuddyEvent::Chunk(chunk, exit), used).0.lines;
            &&& lines.len() > 0
            &&& match chunk {
                StreamingChunk::Content(text) => {
                    &&& lines.last().1 == HistoryEntryType::Content
                    &&& split_on(text@, '\n').last().is_suffix_of(lines.last().0)
                },
                StreamingChunk::Reasoning(text) => {
                    &&& lines.last().1 == HistoryEntryType::Reasoning
                    &&& split_on(text@, '\n').last().is_suffix_of(lines.last().0)
                },
            }
        }),
{
    match chunk {
        StreamingChunk::Content(text) => shown_text_ends_the_chat(
            state.lines,
            text@,
            HistoryEntryType::Content,
            true,
        ),
        StreamingChunk::Reasoning(text) => shown_text_ends_the_chat(
            state.lines,
            text@,
            HistoryEntryType::Reasoning,
            true,
        ),
    }
}

/// The messages of the chat are those that were there and the one that came in, unless it came with
/// the wish to exit.
pub proof fn user_messages_are_taken_in(state: BuddyState, event: BuddyEvent, used: (usize, usize))
    requires
        state.expects(event),
    ensures
        state.stepped(event, used).0.messages == match event {
            BuddyEvent::Received(Some(message), false) | BuddyEvent::Available(
                Some(message),
            ) => state.messages.push(ChatMessage::User(UserMessage { content: message })),
            _ => state.messages,
        },
{
}

/// The agent leaves when it is asked to, when a request or an answer fails, and when there is no one
/// left to send it messages; never otherwise.
pub proof fn the_agent_leaves_when_asked(state: BuddyState, event: BuddyEvent, used: (usize, usize))
    requires
        state.expects(event),
    ensures
        ({
            let (after, action) = state.stepped(event, used);
            &&& action == BuddyAction::Fail <==> event == BuddyEvent::SubmitFailed || event
                == BuddyEvent::StreamFailed
            &&& action == BuddyAction::Exit <==> match event {
                BuddyEvent::Received(message, exit) => exit || message is None,
                BuddyEvent::Chunk(_, exit) => exit,
                _ => false,
            }
            &&& after.phase == BuddyPhase::Over <==> action == BuddyAction::Exit || action
                == BuddyAction::Fail
            &&& after.phase == BuddyPhase::Over ==> forall|next: BuddyEvent| !after.expects(next)
        }),
{
}

/// A message that comes in while the agent waits is submitted once no more are there.
pub proof fn messages_are_answered(state: BuddyState, message: String, used: (usize, usize))
    requires
        state.phase == BuddyPhase::Waiting,
    ensures
        ({
            let come = BuddyEvent::Received(Some(message), false);
            let (one, action) = state.stepped(come, used);
            let (sent, submit) = one.stepped(BuddyEvent::Available(None), used);
            let (stream, next) = sent.stepped(BuddyEvent::Submitted, used);
            &&& state.expects(come) && action == BuddyAction::TryReceive
            &&& one.expects(BuddyEvent::Available(None)) && submit == BuddyAction::Submit
            &&& sent.expects(BuddyEvent::Submitted) && next == BuddyAction::Stream
            &&& sent.messages == state.messages.push(
                ChatMessage::User(UserMessage { content: message }),
            )
            &&& stream.expects(BuddyEvent::StreamEnded)
        }),
{
}

/// Once an answer is complete its tool calls are executed, and the token usage is shown that was
/// counted for it. Another request follows where there were calls, or where a message came in
/// meanwhile; or else the agent waits.
pub proof fn answers_lead_to_calls_and_further_requests(
    state: BuddyState,
    called: bool,
    message: String,
    used: (usize, usize),
)
    requires
        state.phase == BuddyPhase::Streaming,
    ensures
        ({
            let (ended, call) = state.stepped(BuddyEvent::StreamEnded, used);
            let (executed, collect) = ended.stepped(BuddyEvent::Called(called), used);
            let (next, action) = executed.stepped(BuddyEvent::Available(None), used);
            let more = executed.stepped(BuddyEvent::Available(Some(message)), used).0;
            &&& call == BuddyAction::Call
            &&& ended.usage == used
            &&& ended.expects(BuddyEvent::Called(called)) && collect == BuddyAction::TryReceive
            &&& executed.expects(BuddyEvent::Available(None))
            &&& action == if called {
                BuddyAction::Submit
            } else {
                BuddyAction::Receive
            }
            &&& next.phase == if called {
                BuddyPhase::Submitting
            } else {
                BuddyPhase::Waiting
            }
            &&& more.expects(BuddyEvent::Available(None))
            &&& more.stepped(BuddyEvent::Available(None), used).1 == BuddyAction::Submit
        }),
{
}

/// The token usage that is shown changes with the end of an answer only.
pub proof fn usage_is_shown_with_the_end_of_an_answer(
    state: BuddyState,
    event: BuddyEvent,
    used: (usize, usize),
)
    ensures
        state.stepped(event, used).0.usage == if event == BuddyEvent::StreamEnded {
            used
        } else {
            state.usage
        },
{
}

/// Each action leads to the events that it can bring about.
pub proof fn actions_bring_expected_events(
    state: BuddyState,
    event: BuddyEvent,
    used: (usize, usize),
    chunk: StreamingChunk,
    message: Option<String>,
    exit: bool,
)
    requires
        state.expects(event),
    ensures
        ({
            let (after, action) = state.stepped(event, used);
            match action {
                BuddyAction::Receive => after.expects(BuddyEvent::Received(message, exit)),
                BuddyAction::TryReceive => after.expects(BuddyEvent::Available(message)),
                BuddyAction::Submit => after.expects(BuddyEvent::Submitted) && after.expects(
                    BuddyEvent::SubmitFailed,
                ),
                BuddyAction::Stream => after.expects(BuddyEvent::Chunk(chunk, exit))
                    && after.expects(BuddyEvent::StreamEnded) && after.expects(
                    BuddyEvent::StreamFailed,
                ),
                BuddyAction::Call => after.expects(BuddyEvent::Called(exit)),
                BuddyAction::Exit | BuddyAction::Fail => after.phase == BuddyPhase::Over,
            }
        }),
{
}

} // verus!
