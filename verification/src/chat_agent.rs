//! The agent of a chat application: when it takes in the user's messages, when it submits them,
//! and what it shows of the answers.

use crate::agent::{heard_all, result_text, Agent, ChatListener, Tool};
use crate::history::{
    call_line, lemma_fresh_lines, lines_pushed, new_text_follows_what_was_shown, result_line,
    set_apart, shown_call, shown_result, shown_text_does_not_depend_on_pieces,
    shown_text_ends_the_chat, shown_text_is_of_its_type, text_of_kind, types_are_set_apart,
    without_newlines, ChatHistory, HistoryEntryType,
};
use crate::line_format::{ChatMessage, ToolCall, UserMessage};
use crate::streaming::StreamingChunk;
use crate::text::{split_on, split_then_join};
use crate::ui::{AgentNotification, Notification};
use std::collections::VecDeque;
use vstd::prelude::*;

verus! {

/// What the agent is about
#[derive(Clone, Copy, Debug, PartialEq, Eq, Structural)]
pub enum Phase {
    /// It waits for a user message
    Waiting,
    /// It takes in the notifications that are there
    Gathering,
    /// It submits a request
    Submitting,
    /// It receives the answer
    Streaming,
    /// It executes tool calls
    Calling,
    /// It takes in the notifications that are there, having executed tool calls or not
    Collecting { called: bool },
    /// It is done
    Over,
}

/// What happened outside
#[derive(Debug)]
pub enum AgentEvent {
    /// A notification came in, or `None` because there is no one to send any
    Received(Option<AgentNotification>),
    /// There was this notification, or `None` was there
    Available(Option<AgentNotification>),
    /// The request was submitted
    Submitted,
    /// The request could not be submitted
    SubmitFailed,
    /// A chunk of the answer came in
    Chunk(StreamingChunk),
    /// The answer is complete
    StreamEnded,
    /// The answer broke off
    StreamFailed,
    /// All tool calls were executed; whether there were any
    Called(bool),
}

/// What is to be done next
#[derive(Clone, Copy, Debug, PartialEq, Eq, Structural)]
pub enum AgentAction {
    /// Wait for a notification
    Receive,
    /// See whether there is a notification
    TryReceive,
    /// Submit a request
    Submit,
    /// Wait for a chunk of the answer or for a notification
    Stream,
    /// End the answer here, and execute the pending tool calls
    ForceFinalize,
    /// Execute the pending tool calls
    Call,
    /// Leave
    Exit,
    /// Leave with the error that came in
    Fail,
}

/// State of the agent-running part of the chat application
#[derive(Debug)]
pub struct ChatAgent {
    /// What it is about
    phase: Phase,
    /// User messages queued
    queued_messages: VecDeque<String>,
}

/// What the agent acts on.
pub struct ChatState {
    /// What it is about
    pub phase: Phase,
    /// User messages queued
    pub queue: Seq<String>,
    /// The lines that the chat shows
    pub lines: Seq<(Seq<char>, HistoryEntryType)>,
    /// The chat history
    pub messages: Seq<ChatMessage>,
    /// The notifications for the UI
    pub ui: Seq<Notification>,
}

/// The messages that a list of user messages makes.
pub open spec fn user_messages(queue: Seq<String>) -> Seq<ChatMessage> {
    Seq::new(queue.len(), |i: int| ChatMessage::User(UserMessage { content: queue[i] }))
}

/// The lines after text was shown; user messages are always on a new line, as they can never be
/// streamed content.
pub open spec fn text_shown(
    lines: Seq<(Seq<char>, HistoryEntryType)>,
    text: Seq<char>,
    kind: HistoryEntryType,
) -> Seq<(Seq<char>, HistoryEntryType)> {
    lines_pushed(lines, split_on(text, '\n'), kind, kind != HistoryEntryType::User)
}

/// The lines after user messages were shown.
pub open spec fn users_shown(
    lines: Seq<(Seq<char>, HistoryEntryType)>,
    queue: Seq<String>,
) -> Seq<(Seq<char>, HistoryEntryType)>
    decreases queue.len(),
{
    if queue.len() == 0 {
        lines
    } else {
        text_shown(
            users_shown(lines, queue.drop_last()),
            queue.last()@,
            HistoryEntryType::User,
        )
    }
}

/// The UI is told of each user message that is submitted, and of the line that shows it.
pub open spec fn submit_notices(count: nat) -> Seq<Notification>
    decreases count,
{
    if count == 0 {
        seq![]
    } else {
        submit_notices((count - 1) as nat) + seq![
            Notification::PromptSubmitted,
            Notification::Update,
        ]
    }
}

/// The lines after a chunk was shown.
pub open spec fn chunk_shown(
    lines: Seq<(Seq<char>, HistoryEntryType)>,
    chunk: StreamingChunk,
) -> Seq<(Seq<char>, HistoryEntryType)> {
    match chunk {
        StreamingChunk::Content(text) => text_shown(lines, text@, HistoryEntryType::Content),
        StreamingChunk::Reasoning(text) => text_shown(lines, text@, HistoryEntryType::Reasoning),
    }
}

impl ChatState {
    /// All queued messages are in the chat history.
    pub open spec fn flushed(self) -> Self {
        ChatState {
            queue: seq![],
            lines: users_shown(self.lines, self.queue),
            messages: self.messages + user_messages(self.queue),
            ui: self.ui + submit_notices(self.queue.len()),
            ..self
        }
    }

    /// A request is to be submitted.
    pub open spec fn submitting(self) -> (Self, AgentAction) {
        (ChatState { phase: Phase::Submitting, ..self.flushed() }, AgentAction::Submit)
    }

    /// The agent leaves, and the UI is told.
    pub open spec fn left(self, action: AgentAction) -> (Self, AgentAction) {
        (ChatState { phase: Phase::Over, ui: self.ui.push(Notification::Exit), ..self }, action)
    }

    /// A message is queued.
    pub open spec fn queued(self, message: String) -> Self {
        ChatState { queue: self.queue.push(message), ..self }
    }

    /// After a notification that came while the agent waited.
    pub open spec fn received(self, notification: Option<AgentNotification>) -> (
        Self,
        AgentAction,
    ) {
        match notification {
            None => self.left(AgentAction::Exit),
            Some(AgentNotification::Exit) => self.left(AgentAction::Exit),
            Some(AgentNotification::QueuePrompt(message)) => (
                ChatState { phase: Phase::Gathering, ..self.queued(message) },
                AgentAction::TryReceive,
            ),
            Some(AgentNotification::ForceSubmitQueued) => (self, AgentAction::Receive),
        }
    }

    /// After a notification that came during an answer.
    pub open spec fn interrupted(self, notification: Option<AgentNotification>) -> (
        Self,
        AgentAction,
    ) {
        match notification {
            None => (self, AgentAction::Stream),
            Some(AgentNotification::Exit) => self.left(AgentAction::Exit),
            Some(AgentNotification::QueuePrompt(message)) => (
                self.queued(message),
                AgentAction::Stream,
            ),
            Some(AgentNotification::ForceSubmitQueued) => (
                ChatState { phase: Phase::Calling, ..self },
                AgentAction::ForceFinalize,
            ),
        }
    }

    /// After a notification that was there, or all that were.
    pub open spec fn gathered(
        self,
        notification: Option<AgentNotification>,
        submit_anyway: bool,
    ) -> (Self, AgentAction) {
        match notification {
            None => if submit_anyway || self.queue.len() > 0 {
                self.submitting()
            } else {
                (ChatState { phase: Phase::Waiting, ..self }, AgentAction::Receive)
            },
            Some(AgentNotification::Exit) => self.left(AgentAction::Exit),
            Some(AgentNotification::QueuePrompt(message)) => (
                self.queued(message),
                AgentAction::TryReceive,
            ),
            Some(AgentNotification::ForceSubmitQueued) => (self, AgentAction::TryReceive),
        }
    }

    /// Whether an event can come in this phase.
    pub open spec fn expects(self, event: AgentEvent) -> bool {
        match self.phase {
            Phase::Waiting => event is Received,
            Phase::Gathering => event is Available,
            Phase::Submitting => event is Submitted || event is SubmitFailed,
            Phase::Streaming => event is Chunk || event is StreamEnded || event is StreamFailed
                || event is Received,
            Phase::Calling => event is Called,
            Phase::Collecting { .. } => event is Available,
            Phase::Over => false,
        }
    }

    /// After an event, and what is to be done.
    pub open spec fn stepped(self, event: AgentEvent) -> (Self, AgentAction) {
        match event {
            AgentEvent::Received(notification) => if self.phase == Phase::Waiting {
                self.received(notification)
            } else {
                self.interrupted(notification)
            },
            AgentEvent::Available(notification) => self.gathered(
                notification,
                match self.phase {
                    Phase::Collecting { called } => called,
                    _ => true,
                },
            ),
            AgentEvent::Submitted => (
                ChatState { phase: Phase::Streaming, ..self },
                AgentAction::Stream,
            ),
            AgentEvent::SubmitFailed | AgentEvent::StreamFailed => self.left(AgentAction::Fail),
            AgentEvent::Chunk(chunk) => (
                ChatState {
                    lines: chunk_shown(self.lines, chunk),
                    ui: self.ui.push(Notification::Update),
                    ..self
                },
                AgentAction::Stream,
            ),
            AgentEvent::StreamEnded => (
                ChatState { phase: Phase::Calling, ..self },
                AgentAction::Call,
            ),
            AgentEvent::Called(called) => (
                ChatState { phase: Phase::Collecting { called }, ..self },
                AgentAction::TryReceive,
            ),
        }
    }
}

impl ChatAgent {
    /// What the agent is about.
    pub closed spec fn phase(&self) -> Phase {
        self.phase
    }

    /// The user messages queued.
    pub closed spec fn queue(&self) -> Seq<String> {
        self.queued_messages@
    }

    /// What the agent acts on.
    pub open spec fn state<L: ChatListener, T: Tool>(
        &self,
        history: &ChatHistory,
        agent: &Agent<L, T>,
        ui: Seq<Notification>,
    ) -> ChatState {
        ChatState {
            phase: self.phase(),
            queue: self.queue(),
            lines: history.shown().lines,
            messages: agent.messages(),
            ui,
        }
    }

    /// Create a new instance, which waits for a user message.
    pub fn new() -> (r: Self)
        ensures
            r.phase() == Phase::Waiting,
            r.queue().len() == 0,
    {
        ChatAgent { phase: Phase::Waiting, queued_messages: VecDeque::new() }
    }

    /// What is to be done after an event.
    pub fn do_run<L: ChatListener, T: Tool>(
        &mut self,
        history: &mut ChatHistory,
        agent: &mut Agent<L, T>,
        ui: &mut Vec<Notification>,
        event: AgentEvent,
    ) -> (r: AgentAction)
        requires
            old(self).state(old(history), old(agent), old(ui)@).expects(event),
        ensures
            (final(self).state(final(history), final(agent), final(ui)@), r) == old(self).state(
                old(history),
                old(agent),
                old(ui)@,
            ).stepped(event),
            final(history).shown().open == old(history).shown().open,
            final(history).shown().ids == old(history).shown().ids,
            final(history).usage() == old(history).usage(),
            final(agent).same_but_history(old(agent)),
            heard_all(
                old(agent).listener(),
                final(agent).messages().skip(old(agent).messages().len() as int),
                final(agent).listener(),
            ),
    {
        let ghost messages = agent.messages();
        proof {
            assert(messages.skip(messages.len() as int) =~= seq![]);
        }
        match event {
            AgentEvent::Received(notification) => if self.phase == Phase::Waiting {
                self.process_notification(ui, notification)
            } else {
                match notification {
                    None => AgentAction::Stream,
                    Some(AgentNotification::Exit) => self.leave(ui, AgentAction::Exit),
                    Some(AgentNotification::QueuePrompt(message)) => {
                        self.queued_messages.push_back(message);
                        AgentAction::Stream
                    },
                    Some(AgentNotification::ForceSubmitQueued) => {
                        self.phase = Phase::Calling;
                        AgentAction::ForceFinalize
                    },
                }
            },
            AgentEvent::Available(notification) => match notification {
                None => {
                    let submit_anyway = match self.phase {
                        Phase::Collecting { called } => called,
                        _ => true,
                    };
                    if submit_anyway || self.queued_messages.len() > 0 {
                        self.submit_queued_user_messages(history, agent, ui);
                        self.phase = Phase::Submitting;
                        AgentAction::Submit
                    } else {
                        self.phase = Phase::Waiting;
                        AgentAction::Receive
                    }
                },
                Some(AgentNotification::Exit) => self.leave(ui, AgentAction::Exit),
                Some(AgentNotification::QueuePrompt(message)) => {
                    self.queued_messages.push_back(message);
                    AgentAction::TryReceive
                },
                Some(AgentNotification::ForceSubmitQueued) => AgentAction::TryReceive,
            },
            AgentEvent::Submitted => {
                self.phase = Phase::Streaming;
                AgentAction::Stream
            },
            AgentEvent::SubmitFailed => self.leave(ui, AgentAction::Fail),
            AgentEvent::StreamFailed => self.leave(ui, AgentAction::Fail),
            AgentEvent::Chunk(chunk) => {
                process_chunk(history, ui, chunk);
                AgentAction::Stream
            },
            AgentEvent::StreamEnded => {
                self.phase = Phase::Calling;
                AgentAction::Call
            },
            AgentEvent::Called(called) => {
                self.phase = Phase::Collecting { called };
                AgentAction::TryReceive
            },
        }
    }

    /// Leaves, and tells the UI.
    fn leave(&mut self, ui: &mut Vec<Notification>, action: AgentAction) -> (r: AgentAction)
        ensures
            final(self).phase == Phase::Over,
            final(self).queued_messages == old(self).queued_messages,
            final(ui)@ == old(ui)@.push(Notification::Exit),
            r == action,
    {
        self.phase = Phase::Over;
        ui.push(Notification::Exit);
        action
    }

    /// Processes a notification while waiting for a user or exit message.
    fn process_notification(
        &mut self,
        ui: &mut Vec<Notification>,
        notification: Option<AgentNotification>,
    ) -> (r: AgentAction)
        requires
            old(self).phase == Phase::Waiting,
        ensures
            match notification {
                None | Some(AgentNotification::Exit) => {
                    &&& final(self).phase == Phase::Over
                    &&& final(self).queued_messages@ == old(self).queued_messages@
                    &&& final(ui)@ == old(ui)@.push(Notification::Exit)
                    &&& r == AgentAction::Exit
                },
                Some(AgentNotification::QueuePrompt(message)) => {
                    &&& final(self).phase == Phase::Gathering
                    &&& final(self).queued_messages@ == old(self).queued_messages@.push(message)
                    &&& final(ui)@ == old(ui)@
                    &&& r == AgentAction::TryReceive
                },
                Some(AgentNotification::ForceSubmitQueued) => {
                    &&& final(self).phase == Phase::Waiting
                    &&& final(self).queued_messages@ == old(self).queued_messages@
                    &&& final(ui)@ == old(ui)@
                    &&& r == AgentAction::Receive
                },
            },
    {
        match notification {
            None => self.leave(ui, AgentAction::Exit),
            Some(AgentNotification::Exit) => self.leave(ui, AgentAction::Exit),
            Some(AgentNotification::QueuePrompt(message)) => {
                self.queued_messages.push_back(message);
                self.phase = Phase::Gathering;
                AgentAction::TryReceive
            },
            Some(AgentNotification::ForceSubmitQueued) => AgentAction::Receive,
        }
    }

    /// Push all messages currently queued onto the agent/chat history.
    ///
    /// This does not yet submit a request to the agent.
    fn submit_queued_user_messages<L: ChatListener, T: Tool>(
        &mut self,
        history: &mut ChatHistory,
        agent: &mut Agent<L, T>,
        ui: &mut Vec<Notification>,
    )
        ensures
            final(self).state(final(history), final(agent), final(ui)@) == old(self).state(
                old(history),
                old(agent),
                old(ui)@,
            ).flushed(),
            final(history).shown().open == old(history).shown().open,
            final(history).shown().ids == old(history).shown().ids,
            final(history).usage() == old(history).usage(),
            final(agent).same_but_history(old(agent)),
            heard_all(
                old(agent).listener(),
                final(agent).messages().skip(old(agent).messages().len() as int),
                final(agent).listener(),
            ),
    {
        let ghost queue = self.queued_messages@;
        let ghost lines = history.shown().lines;
        let ghost messages = agent.messages();
        let ghost notices = ui@;
        let ghost n: int = 0;
        proof {
            assert(queue.take(0) =~= seq![]);
            assert(queue.skip(0) =~= queue);
            assert(messages + user_messages(queue.take(0)) =~= messages);
            assert(messages.skip(messages.len() as int) =~= seq![]);
            assert(notices + submit_notices(0) =~= notices);
        }
        while self.queued_messages.len() > 0
            invariant
                queue == old(self).queued_messages@,
                lines == old(history).shown().lines,
                messages == old(agent).messages(),
                notices == old(ui)@,
                0 <= n <= queue.len(),
                self.phase == old(self).phase,
                self.queued_messages@ == queue.skip(n),
                history.shown().lines == users_shown(lines, queue.take(n)),
                history.shown().open == old(history).shown().open,
                history.shown().ids == old(history).shown().ids,
                history.usage() == old(history).usage(),
                agent.messages() == messages + user_messages(queue.take(n)),
                agent.same_but_history(old(agent)),
                heard_all(
                    old(agent).listener(),
                    agent.messages().skip(messages.len() as int),
                    agent.listener(),
                ),
                ui@ == notices + submit_notices(n as nat),
            decreases queue.len() - n,
        {
            match self.queued_messages.pop_front() {
                Some(message) => {
                    let ghost heard = agent.listener();
                    proof {
                        assert(message == queue[n]);
                        assert(queue.skip(n).skip(1) =~= queue.skip(n + 1));
                        assert(self.queued_messages@ =~= queue.skip(n + 1));
                        assert(queue.take(n + 1).drop_last() =~= queue.take(n));
                    }
                    ui.push(Notification::PromptSubmitted);
                    push_history(history, ui, message.as_str(), HistoryEntryType::User);
                    agent.push_user(message);
                    proof {
                        assert(agent.messages() =~= messages + user_messages(queue.take(n + 1)));
                        let now = agent.messages().skip(messages.len() as int);
                        assert(now =~= user_messages(queue.take(n + 1)));
                        assert(now.drop_last() =~= user_messages(queue.take(n)));
                        assert((messages + user_messages(queue.take(n))).skip(
                            messages.len() as int,
                        ) =~= user_messages(queue.take(n)));
                        assert(L::heard(heard, now.last(), agent.listener()));
                        assert(ui@ =~= notices + submit_notices(n as nat + 1));
                        n = n + 1;
                    }
                },
                None => {},
            }
        }
        proof {
            assert(queue.take(queue.len() as int) =~= queue);
            assert(self.queued_messages@ =~= seq![]);
        }
    }
}

/// Process the incoming `chunk` from the LLM (i.e. append it to the history).
pub fn process_chunk(
    history: &mut ChatHistory,
    ui: &mut Vec<Notification>,
    chunk: StreamingChunk,
)
    ensures
        final(history).shown().lines == chunk_shown(old(history).shown().lines, chunk),
        final(history).shown().open == old(history).shown().open,
        final(history).shown().ids == old(history).shown().ids,
        final(history).usage() == old(history).usage(),
        final(ui)@ == old(ui)@.push(Notification::Update),
{
    match chunk {
        StreamingChunk::Content(text) => push_history(
            history,
            ui,
            text.as_str(),
            HistoryEntryType::Content,
        ),
        StreamingChunk::Reasoning(text) => push_history(
            history,
            ui,
            text.as_str(),
            HistoryEntryType::Reasoning,
        ),
    }
}

/// Push the given string into the chat history, processing newlines
fn push_history(
    history: &mut ChatHistory,
    ui: &mut Vec<Notification>,
    string: &str,
    kind: HistoryEntryType,
)
    ensures
        final(history).shown().lines == text_shown(old(history).shown().lines, string@, kind),
        final(history).shown().open == old(history).shown().open,
        final(history).shown().ids == old(history).shown().ids,
        final(history).usage() == old(history).usage(),
        final(ui)@ == old(ui)@.push(Notification::Update),
{
    // Put user messages on a new line, always, as they can never be streamed content
    history.push_lines(string, kind, kind != HistoryEntryType::User);
    ui.push(Notification::Update);
}

/// Shows a tool call that is about to be executed.
pub fn call_started<L: ChatListener, T: Tool>(
    history: &mut ChatHistory,
    ui: &mut Vec<Notification>,
    agent: &Agent<L, T>,
    call: &ToolCall,
)
    ensures
        final(history).shown().lines == text_shown(
            old(history).shown().lines,
            call_line(agent.tools(), *call),
            HistoryEntryType::ToolCall,
        ),
        final(history).shown().open == old(history).shown().open,
        final(history).shown().ids == old(history).shown().ids,
        final(history).usage() == old(history).usage(),
        final(ui)@ == old(ui)@.push(Notification::Update),
{
    let line = shown_call(agent, call);
    push_history(history, ui, line.as_str(), HistoryEntryType::ToolCall);
}

/// Shows the result of a tool call.
pub fn call_finished<L: ChatListener, T: Tool>(
    history: &mut ChatHistory,
    ui: &mut Vec<Notification>,
    agent: &Agent<L, T>,
    call: &ToolCall,
    result: &Result<String, String>,
)
    ensures
        final(history).shown().lines == match result {
            Ok(text) => text_shown(
                old(history).shown().lines,
                result_line(
                    call.call.called(),
                    call.id@,
                    result_text(agent.tools(), call.call, text@),
                ),
                HistoryEntryType::ToolResultOk,
            ),
            Err(error) => text_shown(
                old(history).shown().lines,
                result_line(call.call.called(), call.id@, error@),
                HistoryEntryType::ToolResultErr,
            ),
        },
        final(history).shown().open == old(history).shown().open,
        final(history).shown().ids == old(history).shown().ids,
        final(history).usage() == old(history).usage(),
        final(ui)@ == old(ui)@.push(Notification::Update),
{
    match result {
        Ok(text) => {
            let shown = agent.display_call_result(&call.call, text.as_str());
            let line = shown_result(call.call.name(), call.id.as_str(), shown.as_str());
            push_history(history, ui, line.as_str(), HistoryEntryType::ToolResultOk);
        },
        Err(error) => {
            let line = shown_result(call.call.name(), call.id.as_str(), error.as_str());
            push_history(history, ui, line.as_str(), HistoryEntryType::ToolResultErr);
        },
    }
}

/// The message that an event brings.
pub open spec fn brought(event: AgentEvent) -> Seq<String> {
    match event {
        AgentEvent::Received(Some(AgentNotification::QueuePrompt(message))) => seq![message],
        AgentEvent::Available(Some(AgentNotification::QueuePrompt(message))) => seq![message],
        _ => seq![],
    }
}

/// No user message is lost, doubled or overtaken: what is in the chat history and what is queued,
/// in this order, only ever grows by the messages that come in.
pub proof fn user_messages_are_kept_in_order(state: ChatState, event: AgentEvent)
    requires
        state.expects(event),
    ensures
        ({
            let after = state.stepped(event).0;
            after.messages + user_messages(after.queue) == state.messages + user_messages(
                state.queue + brought(event),
            )
        }),
{
    let after = state.stepped(event).0;
    assert(state.queue + seq![] =~= state.queue);
    assert(after.messages + user_messages(after.queue) =~= state.messages + user_messages(
        state.queue + brought(event),
    ));
}

/// Nothing is left in the queue when a request is submitted, and the agent does not go back to
/// waiting while there is.
pub proof fn requests_take_the_whole_queue(state: ChatState, event: AgentEvent)
    requires
        state.expects(event),
    ensures
        state.stepped(event).1 == AgentAction::Submit ==> state.stepped(event).0.queue.len() == 0,
        state.phase is Collecting && state.stepped(event).1 == AgentAction::Receive
            ==> state.stepped(event).0.queue.len() == 0,
{
}

/// Queued messages that the user wants submitted right now are: the answer that is coming in is ended,
/// and once its tool calls are executed a request with all of the messages is submitted.
pub proof fn forced_messages_are_submitted(state: ChatState, called: bool)
    requires
        state.phase == Phase::Streaming,
        state.queue.len() > 0,
    ensures
        ({
            let force = AgentEvent::Received(Some(AgentNotification::ForceSubmitQueued));
            let (ended, first) = state.stepped(force);
            let (executed, second) = ended.stepped(AgentEvent::Called(called));
            let (submitted, third) = executed.stepped(AgentEvent::Available(None));
            &&& state.expects(force) && first == AgentAction::ForceFinalize
            &&& ended.expects(AgentEvent::Called(called)) && second == AgentAction::TryReceive
            &&& executed.expects(AgentEvent::Available(None)) && third == AgentAction::Submit
            &&& submitted.queue.len() == 0
            &&& submitted.messages == state.messages + user_messages(state.queue)
        }),
{
}

/// The agent leaves exactly once: the UI is told when it does, and nothing is expected after that.
pub proof fn the_agent_leaves_once(state: ChatState, event: AgentEvent)
    requires
        state.expects(event),
    ensures
        ({
            let (after, action) = state.stepped(event);
            &&& (after.phase == Phase::Over) == (action == AgentAction::Exit || action
                == AgentAction::Fail)
            &&& after.phase == Phase::Over ==> after.ui == state.ui.push(Notification::Exit)
            &&& after.phase == Phase::Over ==> forall|next: AgentEvent| !after.expects(next)
        }),
{
}

/// A chunk of content is shown as content, a chunk of reasoning as reasoning, and neither as
/// anything else: it adds all of its text but the newlines to what the lines of its type say, and
/// nothing to what other lines say. The last line is of its type and ends with its last line.
pub proof fn chunks_are_shown_as_what_they_are(
    lines: Seq<(Seq<char>, HistoryEntryType)>,
    chunk: StreamingChunk,
    kind: HistoryEntryType,
)
    ensures
        ({
            let after = chunk_shown(lines, chunk);
            let added = match chunk {
                StreamingChunk::Content(text) => if kind == HistoryEntryType::Content {
                    without_newlines(text@)
                } else {
                    seq![]
                },
                StreamingChunk::Reasoning(text) => if kind == HistoryEntryType::Reasoning {
                    without_newlines(text@)
                } else {
                    seq![]
                },
            };
            &&& text_of_kind(after, kind) == text_of_kind(lines, kind) + added
            &&& after.len() > 0
            &&& match chunk {
                StreamingChunk::Content(text) => {
                    &&& after.last().1 == HistoryEntryType::Content
                    &&& split_on(text@, '\n').last().is_suffix_of(after.last().0)
                },
                StreamingChunk::Reasoning(text) => {
                    &&& after.last().1 == HistoryEntryType::Reasoning
                    &&& split_on(text@, '\n').last().is_suffix_of(after.last().0)
                },
            }
            &&& set_apart(lines) ==> set_apart(after)
        }),
{
    let (text, shown_as) = match chunk {
        StreamingChunk::Content(text) => (text@, HistoryEntryType::Content),
        StreamingChunk::Reasoning(text) => (text@, HistoryEntryType::Reasoning),
    };
    shown_text_is_of_its_type(lines, text, shown_as, true, kind);
    shown_text_ends_the_chat(lines, text, shown_as, true);
    if set_apart(lines) {
        types_are_set_apart(lines, text, shown_as, true);
    }
}

/// A chunk that follows one of the same type continues its line: the two show as one chunk with
/// both texts would.
pub proof fn chunks_of_a_type_continue_each_other(
    lines: Seq<(Seq<char>, HistoryEntryType)>,
    first: String,
    second: String,
    both: String,
)
    requires
        both@ == first@ + second@,
    ensures
        chunk_shown(
            chunk_shown(lines, StreamingChunk::Content(first)),
            StreamingChunk::Content(second),
        ) == chunk_shown(lines, StreamingChunk::Content(both)),
        chunk_shown(
            chunk_shown(lines, StreamingChunk::Reasoning(first)),
            StreamingChunk::Reasoning(second),
        ) == chunk_shown(lines, StreamingChunk::Reasoning(both)),
{
    shown_text_does_not_depend_on_pieces(
        lines,
        first@,
        second@,
        HistoryEntryType::Content,
        true,
    );
    shown_text_does_not_depend_on_pieces(
        lines,
        first@,
        second@,
        HistoryEntryType::Reasoning,
        true,
    );
}

/// The lines after chunks were shown, the first of them first.
pub open spec fn chunks_shown(
    lines: Seq<(Seq<char>, HistoryEntryType)>,
    chunks: Seq<StreamingChunk>,
) -> Seq<(Seq<char>, HistoryEntryType)>
    decreases chunks.len(),
{
    if chunks.len() == 0 {
        lines
    } else {
        chunk_shown(chunks_shown(lines, chunks.drop_last()), chunks.last())
    }
}

/// The texts of the content chunks among chunks.
pub open spec fn contents(chunks: Seq<StreamingChunk>) -> Seq<char>
    decreases chunks.len(),
{
    if chunks.len() == 0 {
        seq![]
    } else {
        contents(chunks.drop_last()) + match chunks.last() {
            StreamingChunk::Content(text) => text@,
            StreamingChunk::Reasoning(_) => seq![],
        }
    }
}

/// The texts of the reasoning chunks among chunks.
pub open spec fn reasonings(chunks: Seq<StreamingChunk>) -> Seq<char>
    decreases chunks.len(),
{
    if chunks.len() == 0 {
        seq![]
    } else {
        reasonings(chunks.drop_last()) + match chunks.last() {
            StreamingChunk::Content(_) => seq![],
            StreamingChunk::Reasoning(text) => text@,
        }
    }
}

/// The lines of content make up the content chunks of an answer, and the lines of reasoning its
/// reasoning chunks, however the chunks follow each other.
pub proof fn answers_are_shown_in_full(
    lines: Seq<(Seq<char>, HistoryEntryType)>,
    chunks: Seq<StreamingChunk>,
)
    ensures
        ({
            let after = chunks_shown(lines, chunks);
            &&& text_of_kind(after, HistoryEntryType::Content) == text_of_kind(
                lines,
                HistoryEntryType::Content,
            ) + without_newlines(contents(chunks))
            &&& text_of_kind(after, HistoryEntryType::Reasoning) == text_of_kind(
                lines,
                HistoryEntryType::Reasoning,
            ) + without_newlines(reasonings(chunks))
            &&& text_of_kind(after, HistoryEntryType::User) == text_of_kind(
                lines,
                HistoryEntryType::User,
            )
        }),
    decreases chunks.len(),
{
    let after = chunks_shown(lines, chunks);
    let content = text_of_kind(lines, HistoryEntryType::Content);
    let reasoning = text_of_kind(lines, HistoryEntryType::Reasoning);
    let seen = |c: char| c != '\n';
    let none: Seq<char> = seq![];
    assert(none.filter(seen) =~= none) by {
        reveal(Seq::filter);
    }
    if chunks.len() == 0 {
        assert(content + none =~= content);
        assert(reasoning + none =~= reasoning);
    } else {
        let fewer = chunks.drop_last();
        let before = chunks_shown(lines, fewer);
        answers_are_shown_in_full(lines, fewer);
        chunks_are_shown_as_what_they_are(before, chunks.last(), HistoryEntryType::Content);
        chunks_are_shown_as_what_they_are(before, chunks.last(), HistoryEntryType::Reasoning);
        chunks_are_shown_as_what_they_are(before, chunks.last(), HistoryEntryType::User);
        let (said, thought) = match chunks.last() {
            StreamingChunk::Content(text) => (text@, none),
            StreamingChunk::Reasoning(text) => (none, text@),
        };
        Seq::filter_distributes_over_add(contents(fewer), said, seen);
        Seq::filter_distributes_over_add(reasonings(fewer), thought, seen);
        assert(text_of_kind(after, HistoryEntryType::Content) =~= content + without_newlines(
            contents(chunks),
        ));
        assert(text_of_kind(after, HistoryEntryType::Reasoning) =~= reasoning + without_newlines(
            reasonings(chunks),
        ));
        assert(text_of_kind(after, HistoryEntryType::User) =~= text_of_kind(
            lines,
            HistoryEntryType::User,
        ));
    }
}

/// What user messages say.
pub open spec fn all_said(queue: Seq<String>) -> Seq<char>
    decreases queue.len(),
{
    if queue.len() == 0 {
        seq![]
    } else {
        all_said(queue.drop_last()) + queue.last()@
    }
}

/// User messages are shown on lines of their type, and on no others.
pub proof fn user_messages_are_shown_as_such(
    lines: Seq<(Seq<char>, HistoryEntryType)>,
    queue: Seq<String>,
    kind: HistoryEntryType,
)
    ensures
        text_of_kind(users_shown(lines, queue), kind) == text_of_kind(lines, kind) + if kind
            == HistoryEntryType::User {
            without_newlines(all_said(queue))
        } else {
            seq![]
        },
        queue.len() > 0 ==> users_shown(lines, queue).len() > 0 && users_shown(
            lines,
            queue,
        ).last().1 == HistoryEntryType::User,
    decreases queue.len(),
{
    let seen = |c: char| c != '\n';
    let none: Seq<char> = seq![];
    assert(none.filter(seen) =~= none) by {
        reveal(Seq::filter);
    }
    assert(text_of_kind(lines, kind) + none =~= text_of_kind(lines, kind));
    if queue.len() > 0 {
        let fewer = queue.drop_last();
        user_messages_are_shown_as_such(lines, fewer, kind);
        let before = users_shown(lines, fewer);
        shown_text_is_of_its_type(before, queue.last()@, HistoryEntryType::User, false, kind);
        shown_text_ends_the_chat(before, queue.last()@, HistoryEntryType::User, false);
        Seq::filter_distributes_over_add(all_said(fewer), queue.last()@, seen);
        assert(text_of_kind(users_shown(lines, queue), kind) =~= text_of_kind(lines, kind) + if kind
            == HistoryEntryType::User {
            without_newlines(all_said(queue))
        } else {
            none
        });
    }
}

/// A user message starts a line, also where the line before shows one.
pub proof fn user_messages_start_a_line(
    lines: Seq<(Seq<char>, HistoryEntryType)>,
    message: Seq<char>,
)
    ensures
        ({
            let after = text_shown(lines, message, HistoryEntryType::User);
            let parts = split_on(message, '\n');
            &&& after.len() >= parts.len()
            &&& forall|i: int|
                0 <= i < parts.len() ==> after[after.len() - parts.len() + i] == (
                    #[trigger] parts[i],
                    HistoryEntryType::User,
                )
            &&& lines.len() > 0 && lines.last().1 == HistoryEntryType::User ==> after.len()
                == lines.len() + parts.len()
        }),
{
    let parts = split_on(message, '\n');
    split_then_join(message, '\n');
    if lines.len() > 0 {
        new_text_follows_what_was_shown(lines, parts, HistoryEntryType::User, false);
    } else {
        assert(lines =~= seq![]);
        lemma_fresh_lines(parts, HistoryEntryType::User, false);
    }
}

/// What a step of the agent changes in the chat: the chunk that came in is shown, or the queued
/// messages are when a request is submitted; nothing else is.
pub proof fn the_chat_shows_what_was_said(
    state: ChatState,
    event: AgentEvent,
    kind: HistoryEntryType,
)
    requires
        state.expects(event),
    ensures
        ({
            let (after, action) = state.stepped(event);
            text_of_kind(after.lines, kind) == text_of_kind(state.lines, kind) + match event {
                AgentEvent::Chunk(StreamingChunk::Content(text)) => if kind
                    == HistoryEntryType::Content {
                    without_newlines(text@)
                } else {
                    seq![]
                },
                AgentEvent::Chunk(StreamingChunk::Reasoning(text)) => if kind
                    == HistoryEntryType::Reasoning {
                    without_newlines(text@)
                } else {
                    seq![]
                },
                _ => if kind == HistoryEntryType::User && action == AgentAction::Submit {
                    without_newlines(all_said(state.queue))
                } else {
                    seq![]
                },
            }
        }),
{
    let none: Seq<char> = seq![];
    assert(text_of_kind(state.lines, kind) + none =~= text_of_kind(state.lines, kind));
    match event {
        AgentEvent::Chunk(chunk) => chunks_are_shown_as_what_they_are(state.lines, chunk, kind),
        _ => user_messages_are_shown_as_such(state.lines, state.queue, kind),
    }
}

/// The UI is told of whatever changes: for each message that is submitted that it was, and then that
/// there is a new line; for each chunk that there is more to show; and that the agent leaves.
pub proof fn the_ui_is_told_of_changes(state: ChatState, event: AgentEvent)
    requires
        state.expects(event),
    ensures
        ({
            let (after, action) = state.stepped(event);
            let told = after.ui.skip(state.ui.len() as int);
            &&& state.ui.is_prefix_of(after.ui)
            &&& action == AgentAction::Submit ==> {
                &&& told.len() == 2 * state.queue.len()
                &&& forall|i: int|
                    0 <= i < told.len() ==> #[trigger] told[i] == if i % 2 == 0 {
                        Notification::PromptSubmitted
                    } else {
                        Notification::Update
                    }
            }
            &&& event is Chunk ==> told == seq![Notification::Update]
            &&& action == AgentAction::Exit || action == AgentAction::Fail ==> told == seq![
                Notification::Exit,
            ]
            &&& action != AgentAction::Submit && event !is Chunk && action != AgentAction::Exit
                && action != AgentAction::Fail ==> told.len() == 0
        }),
{
    let (after, action) = state.stepped(event);
    let told = after.ui.skip(state.ui.len() as int);
    lemma_submit_notices(state.queue.len());
    assert(state.ui =~= after.ui.take(state.ui.len() as int));
    if action == AgentAction::Submit {
        assert(told =~= submit_notices(state.queue.len()));
    } else if event is Chunk {
        assert(told =~= seq![Notification::Update]);
    } else if action == AgentAction::Exit || action == AgentAction::Fail {
        assert(told =~= seq![Notification::Exit]);
    }
}

/// The notices for submitted messages.
proof fn lemma_submit_notices(count: nat)
    ensures
        submit_notices(count).len() == 2 * count,
        forall|i: int|
            0 <= i < 2 * count ==> #[trigger] submit_notices(count)[i] == if i % 2 == 0 {
                Notification::PromptSubmitted
            } else {
                Notification::Update
            },
    decreases count,
{
    if count > 0 {
        lemma_submit_notices((count - 1) as nat);
    }
}

/// The agent leaves when it is asked to, when a request or an answer fails, and when there is no one
/// left to send it messages while it waits for one; never otherwise.
pub proof fn the_agent_leaves_when_asked(state: ChatState, event: AgentEvent)
    requires
        state.expects(event),
    ensures
        ({
            let (after, action) = state.stepped(event);
            &&& action == AgentAction::Fail <==> event == AgentEvent::SubmitFailed || event
                == AgentEvent::StreamFailed
            &&& action == AgentAction::Exit <==> event == AgentEvent::Received(
                Some(AgentNotification::Exit),
            ) || event == AgentEvent::Available(Some(AgentNotification::Exit)) || (event
                == AgentEvent::Received(None) && state.phase == Phase::Waiting)
        }),
{
}

/// A message that comes in while the agent waits is submitted once no more are there, together with
/// those that came in meanwhile.
pub proof fn messages_are_answered(state: ChatState, first: String, second: String)
    requires
        state.phase == Phase::Waiting,
        state.queue.len() == 0,
    ensures
        ({
            let come = AgentEvent::Received(Some(AgentNotification::QueuePrompt(first)));
            let more = AgentEvent::Available(Some(AgentNotification::QueuePrompt(second)));
            let (one, action) = state.stepped(come);
            let (two, again) = one.stepped(more);
            let (sent, submit) = two.stepped(AgentEvent::Available(None));
            let (alone, at_once) = one.stepped(AgentEvent::Available(None));
            &&& state.expects(come) && action == AgentAction::TryReceive
            &&& one.expects(more) && again == AgentAction::TryReceive
            &&& two.expects(AgentEvent::Available(None)) && submit == AgentAction::Submit
            &&& sent.messages == state.messages.push(
                ChatMessage::User(UserMessage { content: first }),
            ).push(ChatMessage::User(UserMessage { content: second }))
            &&& sent.expects(AgentEvent::Submitted)
            &&& at_once == AgentAction::Submit
            &&& alone.messages == state.messages.push(
                ChatMessage::User(UserMessage { content: first }),
            )
            &&& alone.expects(AgentEvent::Submitted)
        }),
{
    let come = AgentEvent::Received(Some(AgentNotification::QueuePrompt(first)));
    let more = AgentEvent::Available(Some(AgentNotification::QueuePrompt(second)));
    let one = state.stepped(come).0;
    let two = one.stepped(more).0;
    assert(one.stepped(AgentEvent::Available(None)).0.messages =~= state.messages.push(
        ChatMessage::User(UserMessage { content: first }),
    ));
    assert(two.stepped(AgentEvent::Available(None)).0.messages =~= state.messages.push(
        ChatMessage::User(UserMessage { content: first }),
    ).push(ChatMessage::User(UserMessage { content: second })));
}

/// Once an answer is complete its tool calls are executed. Another request follows where there were
/// any, or where messages were queued meanwhile; or else the agent waits.
pub proof fn answers_lead_to_calls_and_further_requests(state: ChatState, called: bool)
    requires
        state.phase == Phase::Streaming,
    ensures
        ({
            let (ended, call) = state.stepped(AgentEvent::StreamEnded);
            let (executed, collect) = ended.stepped(AgentEvent::Called(called));
            let (next, action) = executed.stepped(AgentEvent::Available(None));
            &&& call == AgentAction::Call
            &&& ended.expects(AgentEvent::Called(called)) && collect == AgentAction::TryReceive
            &&& executed.expects(AgentEvent::Available(None))
            &&& action == if called || state.queue.len() > 0 {
                AgentAction::Submit
            } else {
                AgentAction::Receive
            }
            &&& action == AgentAction::Submit ==> next.expects(AgentEvent::Submitted)
                && next.expects(AgentEvent::SubmitFailed)
            &&& action == AgentAction::Receive ==> next.expects(AgentEvent::Received(None))
        }),
{
}

/// While an answer comes in the agent goes on with it: chunks and messages that come meanwhile leave
/// it streaming, and the messages are queued.
pub proof fn answers_go_on_while_messages_come(state: ChatState, message: String, chunk: StreamingChunk)
    requires
        state.phase == Phase::Streaming,
    ensures
        ({
            let come = AgentEvent::Received(Some(AgentNotification::QueuePrompt(message)));
            let (queued, first) = state.stepped(come);
            let (shown, second) = state.stepped(AgentEvent::Chunk(chunk));
            let (same, third) = state.stepped(AgentEvent::Received(None));
            &&& first == AgentAction::Stream && second == AgentAction::Stream && third
                == AgentAction::Stream
            &&& queued.phase == Phase::Streaming && shown.phase == Phase::Streaming
            &&& queued.queue == state.queue.push(message) && queued.messages == state.messages
            &&& shown.queue == state.queue && shown.messages == state.messages
            &&& same == state
        }),
{
}

/// Each action leads to the events that it can bring about: what is to be done next is what the agent
/// expects.
pub proof fn actions_bring_expected_events(state: ChatState, event: AgentEvent, chunk: StreamingChunk)
    requires
        state.expects(event),
    ensures
        ({
            let (after, action) = state.stepped(event);
            match action {
                AgentAction::Receive => forall|n: Option<AgentNotification>|
                    #[trigger] after.expects(AgentEvent::Received(n)),
                AgentAction::TryReceive => forall|n: Option<AgentNotification>|
                    #[trigger] after.expects(AgentEvent::Available(n)),
                AgentAction::Submit => after.expects(AgentEvent::Submitted) && after.expects(
                    AgentEvent::SubmitFailed,
                ),
                AgentAction::Stream => {
                    &&& after.expects(AgentEvent::Chunk(chunk))
                    &&& after.expects(AgentEvent::StreamEnded)
                    &&& after.expects(AgentEvent::StreamFailed)
                    &&& forall|n: Option<AgentNotification>|
                        #[trigger] after.expects(AgentEvent::Received(n))
                },
                AgentAction::ForceFinalize | AgentAction::Call => forall|called: bool|
                    #[trigger] after.expects(AgentEvent::Called(called)),
                AgentAction::Exit | AgentAction::Fail => after.phase == Phase::Over,
            }
        }),
{
}

} // verus!
