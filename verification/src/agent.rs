//! Agent harness around an LLM client.

use crate::call_round::{every_call_is_answered_once, CallRound};
use crate::client::{Client, TokenUsage};
use crate::failure::Failure;
use crate::line_format::{
    calls_view, text_of, AssistantMessage, AssistantView, ChatCompletion, ChatMessage,
    FunctionDefinition, SystemMessage, ToolCall, ToolCallParams, ToolChoice, ToolChoiceMode,
    ToolDefinition, UserMessage,
};
use crate::streaming::{StepView, StreamEvent, StreamState, StreamStep, StreamingResult};
use crate::string_map::StringMap;
use crate::text::{is_part_of, lemma_part};
use vstd::prelude::*;

verus! {

/// Trait for an object listening to chat updates
pub trait ChatListener: Sized {
    /// Whether the listener may be `after`, having been `before` when it was told of `message`.
    /// A listener that does not say so may be anything.
    open spec fn heard(before: Self, message: ChatMessage, after: Self) -> bool {
        true
    }

    /// The given chat message is added to the chat history; log it.
    fn log_message(&mut self, message: &ChatMessage)
        ensures
            Self::heard(*old(self), *message, *final(self)),
    ;
}

/// Whether the listener may be `after`, having been `before` when it was told of `messages`, the
/// first of them first.
pub open spec fn heard_all<L: ChatListener>(
    before: L,
    messages: Seq<ChatMessage>,
    after: L,
) -> bool
    decreases messages.len(),
{
    if messages.len() == 0 {
        before == after
    } else {
        exists|between: L|
            heard_all(before, messages.drop_last(), between) && #[trigger] L::heard(
                between,
                messages.last(),
                after,
            )
    }
}

/// Log more than a single message at once.
pub fn log_messages<L: ChatListener>(listener: &mut L, messages: &Vec<ChatMessage>)
    ensures
        heard_all(*old(listener), messages@, *final(listener)),
{
    assert(messages@.take(0) =~= seq![]);
    for i in 0..messages.len()
        invariant
            heard_all(*old(listener), messages@.take(i as int), *listener),
    {
        let ghost between = *listener;
        listener.log_message(&messages[i]);
        proof {
            let told = messages@.take(i + 1);
            assert(told.drop_last() =~= messages@.take(i as int));
            assert(told.last() == messages@[i as int]);
            assert(heard_all(*old(listener), told.drop_last(), between) && L::heard(
                between,
                told.last(),
                *listener,
            ));
        }
    }
    assert(messages@.take(messages@.len() as int) =~= messages@);
}

impl ChatListener for () {
    open spec fn heard(before: Self, message: ChatMessage, after: Self) -> bool {
        true
    }

    fn log_message(&mut self, message: &ChatMessage) {
    }
}

/// Whether `value` may come of `given`, of which nothing is known but that it decides.
spec fn may_come_of<A, B>(given: A, value: B) -> bool {
    true
}

/// Tool available to an agent.
///
/// This trait is what is needed by [`Agent`] to describe a tool, and to show its calls. A tool
/// whose texts are not spelled out has some name, description and schema of its own all the same,
/// and shows the same text in the same way each time.
pub trait Tool: Sized {
    /// The type of the tools' parameter schemas
    type Schema;

    /// The tool name.
    closed spec fn named(&self) -> Seq<char> {
        choose|name: Seq<char>| #[trigger] may_come_of(*self, name)
    }

    /// The tool description.
    closed spec fn described(&self) -> Option<Seq<char>> {
        choose|description: Option<Seq<char>>| #[trigger] may_come_of(*self, description)
    }

    /// The schema of the tool's arguments.
    closed spec fn shaped(&self) -> Self::Schema {
        choose|schema: Self::Schema| #[trigger] may_come_of(*self, schema)
    }

    /// How arguments are shown.
    closed spec fn shown_call(&self, arguments: Seq<char>) -> Seq<char> {
        choose|shown: Seq<char>| #[trigger] may_come_of((*self, true, arguments), shown)
    }

    /// How a result is shown.
    closed spec fn shown_result(&self, result: Seq<char>) -> Seq<char> {
        choose|shown: Seq<char>| #[trigger] may_come_of((*self, false, result), shown)
    }

    /// Tool name
    fn name(&self) -> (r: String)
        ensures
            r@ == self.named(),
    ;

    /// Tool description, if any
    fn description(&self) -> (r: Option<String>)
        ensures
            text_of(r) == self.described(),
    ;

    /// Tool arguments JSON schema
    fn schema(&self) -> (r: Self::Schema)
        ensures
            r == self.shaped(),
    ;

    /// Format the tool call arguments for display
    fn fmt_call_display(&self, arguments: &str) -> (r: String)
        ensures
            r@ == self.shown_call(arguments@),
    ;

    /// Format the tool call result for display
    fn fmt_call_result_display(&self, result: &str) -> (r: String)
        ensures
            r@ == self.shown_result(result@),
    ;
}

/// Wrapper for the chat history to ensure that everything that is added goes through the
/// `listener` as well.
#[derive(Debug)]
struct HeardHistory<L> {
    /// The full current chat history
    history: Vec<ChatMessage>,
    /// Push every single new `ChatMessage` through here
    listener: L,
}

/// Agent harness around an LLM client.
#[derive(Debug)]
pub struct Agent<L: ChatListener, T: Tool> {
    /// LLM client
    client: Client,
    /// Current chat history
    history: HeardHistory<L>,
    /// Pending tool calls the LLM is waiting for
    pending_calls: Vec<ToolCall>,
    /// Current token usage
    token_usage: TokenUsage,
    /// Available tools
    tools: StringMap<T>,
    /// Tool definition as passed to the LLM
    tool_definitions: Vec<ToolDefinition<T::Schema>>,
}

impl<L: ChatListener> HeardHistory<L> {
    /// Append the given `message` to the history.
    fn push(&mut self, message: ChatMessage)
        ensures
            final(self).history@ == old(self).history@.push(message),
            L::heard(old(self).listener, message, final(self).listener),
    {
        self.listener.log_message(&message);
        self.history.push(message);
    }

    /// Append the given `messages` to the history.
    fn push_vec(&mut self, messages: Vec<ChatMessage>)
        ensures
            final(self).history@ == old(self).history@ + messages@,
            heard_all(old(self).listener, messages@, final(self).listener),
    {
        let mut messages = messages;
        log_messages(&mut self.listener, &messages);
        self.history.append(&mut messages);
    }
}

/// How a call is shown.
pub open spec fn call_text<T: Tool>(tools: Map<Seq<char>, T>, call: ToolCallParams) -> Seq<char> {
    match call {
        ToolCallParams::Function { function } => if tools.contains_key(function.name@) {
            "[function call] "@ + function.name@ + "("@ + tools[function.name@].shown_call(
                function.arguments@,
            ) + ")"@
        } else {
            "[unknown function "@ + function.name@ + "]"@
        },
        ToolCallParams::Custom { custom } => "[unknown tool "@ + custom.name@ + "]"@,
    }
}

/// How the result of a call is shown.
pub open spec fn result_text<T: Tool>(
    tools: Map<Seq<char>, T>,
    call: ToolCallParams,
    result: Seq<char>,
) -> Seq<char> {
    match call {
        ToolCallParams::Function { function } => if tools.contains_key(function.name@) {
            tools[function.name@].shown_result(result)
        } else {
            "[unknown function "@ + function.name@ + "]"@
        },
        ToolCallParams::Custom { custom } => "[unknown tool "@ + custom.name@ + "]"@,
    }
}

/// The last content since the last message that is not from the assistant.
pub open spec fn last_content(messages: Seq<ChatMessage>) -> Option<String>
    decreases messages.len(),
{
    if messages.len() == 0 {
        None
    } else {
        match messages.last() {
            ChatMessage::Assistant(message) => match message.content {
                Some(content) => Some(content),
                None => last_content(messages.drop_last()),
            },
            _ => None,
        }
    }
}

impl<L: ChatListener, T: Tool> Agent<L, T> {
    /// The chat history.
    pub closed spec fn messages(&self) -> Seq<ChatMessage> {
        self.history.history@
    }

    /// The listener.
    pub closed spec fn listener(&self) -> L {
        self.history.listener
    }

    /// The tool calls that the LLM is waiting for.
    pub closed spec fn pending(&self) -> Seq<ToolCall> {
        self.pending_calls@
    }

    /// The token counts that were last reported with an answer.
    pub closed spec fn usage(&self) -> TokenUsage {
        self.token_usage
    }

    /// The tools by name.
    pub closed spec fn tools(&self) -> Map<Seq<char>, T> {
        self.tools@
    }

    /// The tools as described to the LLM.
    pub closed spec fn definitions(&self) -> Seq<ToolDefinition<T::Schema>> {
        self.tool_definitions@
    }

    /// The client.
    pub closed spec fn client(&self) -> Client {
        self.client
    }

    /// Whether all but the chat history and its listener are as in `other`.
    pub open spec fn same_but_history(&self, other: &Self) -> bool {
        &&& self.pending() == other.pending()
        &&& self.usage() == other.usage()
        &&& self.tools() == other.tools()
        &&& self.definitions() == other.definitions()
        &&& self.client() == other.client()
    }

    /// Whether all is as in `other`, but for the client's token counts, which are the given ones.
    pub open spec fn same_but_counts(&self, usage: TokenUsage, other: &Self) -> bool {
        &&& self.messages() == other.messages()
        &&& self.listener() == other.listener()
        &&& self.pending() == other.pending()
        &&& self.usage() == other.usage()
        &&& self.tools() == other.tools()
        &&& self.definitions() == other.definitions()
        &&& self.client().counts(usage, &other.client())
    }

    /// Create a new agent harness around the given [`Client`] with `listener` receiving new chat
    /// messages.
    pub fn new_with_listener(client: Client, listener: L) -> (r: Self)
        ensures
            r.client() == client,
            r.listener() == listener,
            r.messages().len() == 0,
            r.pending().len() == 0,
            r.usage() == (TokenUsage {
                prompt_tokens: 0,
                completion_tokens: 0,
                streamed_tokens: 0,
            }),
            r.tools() == Map::<Seq<char>, T>::empty(),
            r.definitions().len() == 0,
    {
        Agent {
            client,
            history: HeardHistory { history: Vec::new(), listener },
            pending_calls: Vec::new(),
            token_usage: TokenUsage::default(),
            tools: StringMap::new(),
            tool_definitions: Vec::new(),
        }
    }

    /// Return the entire chat history so far
    pub fn history(&self) -> (r: &[ChatMessage])
        ensures
            r@ == self.messages(),
    {
        self.history.history.as_slice()
    }

    /// Return the last content returned by the LLM after the last input from our side.
    ///
    /// Input from our side are:
    /// - User messages
    /// - System messages
    /// - Tool call results
    pub fn last_result(&self) -> (r: Option<&String>)
        ensures
            match r {
                Some(content) => last_content(self.messages()) == Some(*content),
                None => last_content(self.messages()) is None,
            },
    {
        let messages = &self.history.history;
        let mut i: usize = messages.len();
        assert(messages@.take(i as int) =~= messages@);
        while i > 0
            invariant
                messages@ == self.messages(),
                i <= messages@.len(),
                last_content(messages@.take(i as int)) == last_content(messages@),
            decreases i,
        {
            assert(messages@.take(i as int).drop_last() =~= messages@.take(i - 1));
            i = i - 1;
            match &messages[i] {
                ChatMessage::Assistant(message) => match &message.content {
                    Some(content) => {
                        return Some(content);
                    },
                    None => {},
                },
                _ => {
                    return None;
                },
            }
        }
        None
    }

    /// Push the given message on top of the chat history.
    pub fn push(&mut self, message: ChatMessage)
        ensures
            final(self).messages() == old(self).messages().push(message),
            L::heard(old(self).listener(), message, final(self).listener()),
            final(self).same_but_history(old(self)),
    {
        self.history.push(message);
    }

    /// Push a full history, e.g. when resuming.
    ///
    /// Note that each entry still goes through the [`ChatListener`].
    pub fn push_history(&mut self, messages: Vec<ChatMessage>)
        ensures
            final(self).messages() == old(self).messages() + messages@,
            heard_all(old(self).listener(), messages@, final(self).listener()),
            final(self).same_but_history(old(self)),
    {
        self.history.push_vec(messages);
    }

    /// Push the given system-level message on top of the chat history.
    pub fn push_system(&mut self, message: String)
        ensures
            final(self).messages() == old(self).messages().push(
                ChatMessage::System(SystemMessage { content: message }),
            ),
            L::heard(
                old(self).listener(),
                ChatMessage::System(SystemMessage { content: message }),
                final(self).listener(),
            ),
            final(self).same_but_history(old(self)),
    {
        self.push(ChatMessage::System(SystemMessage { content: message }));
    }

    /// Push the given user message on top of the chat history.
    pub fn push_user(&mut self, message: String)
        ensures
            final(self).messages() == old(self).messages().push(
                ChatMessage::User(UserMessage { content: message }),
            ),
            L::heard(
                old(self).listener(),
                ChatMessage::User(UserMessage { content: message }),
                final(self).listener(),
            ),
            final(self).same_but_history(old(self)),
    {
        self.push(ChatMessage::User(UserMessage { content: message }));
    }

    /// Push the given tool call on top of the chat history, and push it into the pending calls
    /// list (to execute it).
    pub fn push_tool_call(&mut self, call: ToolCall)
        ensures
            final(self).messages().len() == old(self).messages().len() + 1,
            final(self).messages().drop_last() == old(self).messages(),
            final(self).messages().last() matches ChatMessage::Assistant(message)
                && message.content is None && message.reasoning_content is None
                && message.tool_calls is Some && calls_of(message) == seq![call],
            L::heard(old(self).listener(), final(self).messages().last(), final(self).listener()),
            final(self).pending() == old(self).pending().push(call),
            final(self).usage() == old(self).usage(),
            final(self).tools() == old(self).tools(),
            final(self).definitions() == old(self).definitions(),
            final(self).client() == old(self).client(),
    {
        self.pending_calls.push(call.clone());
        let mut calls: Vec<ToolCall> = Vec::new();
        calls.push(call);
        assert(calls@ =~= seq![call]);
        self.push(
            ChatMessage::Assistant(
                AssistantMessage {
                    content: None,
                    reasoning_content: None,
                    tool_calls: Some(calls),
                },
            ),
        );
        assert(self.messages().drop_last() =~= old(self).messages());
    }

    /// Add the given tool to the agent. A tool of the same name is replaced; its description
    /// remains.
    pub fn add_tool(&mut self, tool: T)
        ensures
            final(self).tools() == old(self).tools().insert(tool.named(), tool),
            final(self).definitions().len() == old(self).definitions().len() + 1,
            final(self).definitions().drop_last() == old(self).definitions(),
            final(self).definitions().last() matches ToolDefinition::Function { function }
                && function.name@ == tool.named() && text_of(
                function.description,
            ) == tool.described() && function.parameters == Some(tool.shaped()) && function.strict,
            final(self).messages() == old(self).messages(),
            final(self).listener() == old(self).listener(),
            final(self).pending() == old(self).pending(),
            final(self).usage() == old(self).usage(),
            final(self).client() == old(self).client(),
    {
        let definition = ToolDefinition::Function {
            function: FunctionDefinition {
                name: tool.name(),
                description: tool.description(),
                parameters: Some(tool.schema()),
                strict: true,
            },
        };
        let name = tool.name();
        self.tools.insert(name, tool);
        self.tool_definitions.push(definition);
        assert(self.tool_definitions@.drop_last() =~= old(self).tool_definitions@);
    }

    /// The request that submits the current chat history.
    ///
    /// This includes pending tool call results (from [`Agent::execute_pending_calls()`]) and user
    /// messages.
    pub fn submit(&self) -> (r: ChatCompletion<'_, T::Schema>)
        ensures
            r.model@ == self.client().model(),
            r.messages@ == self.messages(),
            r.tools@ == self.definitions(),
            r.tool_choice == ToolChoice::Mode(ToolChoiceMode::Auto),
            r.stream,
            r.stream_options.include_usage,
            !r.stream_options.include_obfuscation,
    {
        self.client.chat_stream(
            self.history.history.as_slice(),
            self.tool_definitions.as_slice(),
            ToolChoice::Mode(ToolChoiceMode::Auto),
        )
    }

    /// Takes all pending tool calls requested by the LLM, to be executed now.
    pub fn take_pending_calls(&mut self) -> (r: CallRound)
        ensures
            calls_taken(*old(self), *final(self), r),
    {
        let mut calls: Vec<ToolCall> = Vec::new();
        std::mem::swap(&mut calls, &mut self.pending_calls);
        CallRound::new(calls)
    }

    /// Puts the results of a round of tool calls, every one of which has been answered, into the
    /// chat history.
    ///
    /// Return whether any have been executed, in which case the results will need to be submitted
    /// to the LLM.
    pub fn execute_pending_calls(&mut self, round: CallRound) -> (r: bool)
        requires
            round.valid(),
            round.is_over(),
        ensures
            r == (round.calls().len() > 0),
            final(self).messages() == old(self).messages() + round.results(),
            heard_all(old(self).listener(), round.results(), final(self).listener()),
            final(self).same_but_history(old(self)),
    {
        proof {
            every_call_is_answered_once(round);
        }
        let results = round.into_results();
        if results.len() == 0 {
            assert(old(self).messages() + results@ =~= old(self).messages());
            false
        } else {
            self.history.push_vec(results);
            true
        }
    }

    /// The tool that a call is for, and the arguments for it, or the error that the call is
    /// answered with.
    pub fn execute_call<'a>(&'a self, tool_call: &'a ToolCallParams) -> (r: Result<
        (&'a T, &'a str),
        String,
    >)
        ensures
            match tool_call {
                ToolCallParams::Function { function } => if self.tools().contains_key(
                    function.name@,
                ) {
                    r matches Ok((tool, arguments)) && *tool == self.tools()[function.name@]
                        && arguments@ == function.arguments@
                } else {
                    r matches Err(error) && error@ == "No such function: "@ + function.name@
                },
                ToolCallParams::Custom { custom } => r matches Err(error) && error@
                    == "No such tool: "@ + custom.name@,
            },
    {
        match tool_call {
            ToolCallParams::Function { function } => match self.tools.get(function.name.as_str()) {
                Some(tool) => Ok((tool, function.arguments.as_str())),
                None => {
                    let mut error = String::new();
                    error.append("No such function: ");
                    error.append(function.name.as_str());
                    assert(error@ =~= "No such function: "@ + function.name@);
                    Err(error)
                },
            },
            ToolCallParams::Custom { custom } => {
                let mut error = String::new();
                error.append("No such tool: ");
                error.append(custom.name.as_str());
                assert(error@ =~= "No such tool: "@ + custom.name@);
                Err(error)
            },
        }
    }

    /// Returns the call in a form for display.
    pub fn display_call(&self, tool_call: &ToolCallParams) -> (r: String)
        ensures
            r@ == call_text(self.tools(), *tool_call),
    {
        let mut out = String::new();
        match tool_call {
            ToolCallParams::Function { function } => match self.tools.get(function.name.as_str()) {
                Some(tool) => {
                    out.append("[function call] ");
                    out.append(function.name.as_str());
                    out.append("(");
                    let shown = tool.fmt_call_display(function.arguments.as_str());
                    out.append(shown.as_str());
                    out.append(")");
                },
                None => {
                    out.append("[unknown function ");
                    out.append(function.name.as_str());
                    out.append("]");
                },
            },
            ToolCallParams::Custom { custom } => {
                out.append("[unknown tool ");
                out.append(custom.name.as_str());
                out.append("]");
            },
        }
        assert(out@ =~= call_text(self.tools(), *tool_call));
        out
    }

    /// Returns the result of a call in a form for display.
    pub fn display_call_result(&self, tool_call: &ToolCallParams, result: &str) -> (r: String)
        ensures
            r@ == result_text(self.tools(), *tool_call, result@),
    {
        let mut out = String::new();
        match tool_call {
            ToolCallParams::Function { function } => match self.tools.get(function.name.as_str()) {
                Some(tool) => {
                    return tool.fmt_call_result_display(result);
                },
                None => {
                    out.append("[unknown function ");
                    out.append(function.name.as_str());
                    out.append("]");
                },
            },
            ToolCallParams::Custom { custom } => {
                out.append("[unknown tool ");
                out.append(custom.name.as_str());
                out.append("]");
            },
        }
        assert(out@ =~= result_text(self.tools(), *tool_call, result@));
        out
    }

    /// Return the token usage from the last request: Prompt tokens, and completion tokens.
    pub fn token_usage(&self) -> (r: (usize, usize))
        ensures
            r == (self.usage().prompt_tokens, self.usage().completion_tokens),
    {
        (self.token_usage.prompt_tokens, self.token_usage.completion_tokens)
    }

    /// Return the client.
    pub fn llm(&self) -> (r: &Client)
        ensures
            *r == self.client(),
    {
        &self.client
    }

    /// Takes over the token counts of a request while it runs.
    fn take_counts(&mut self, usage: TokenUsage)
        ensures
            final(self).same_but_counts(usage, old(self)),
    {
        self.client.set_token_usage(usage);
    }

    /// Takes over the response to a request once it has run its course: its tool calls become
    /// pending, and the message goes into the chat history. Without a message that is an error.
    fn take_response(
        &mut self,
        message: Option<AssistantMessage>,
        usage: TokenUsage,
        reported: Option<TokenUsage>,
    ) -> (r: Result<(), Failure>)
        ensures
            match message {
                Some(message) => r is Ok && responded(
                    *old(self),
                    *final(self),
                    Some(message@),
                    usage,
                    reported,
                ),
                None => {
                    &&& r matches Err(error)
                    &&& error@ == seq!["Assistant did not generate a complete message"@]
                    &&& *final(self) == *old(self)
                },
            },
    {
        match message {
            Some(message) => {
                match &message.tool_calls {
                    Some(calls) => {
                        let mut copies = calls.clone();
                        assert(copies@ =~= calls@);
                        self.pending_calls.append(&mut copies);
                    },
                    None => {
                        assert(old(self).pending() + calls_of(message) =~= old(self).pending());
                    },
                }
                self.push(ChatMessage::Assistant(message));
                match reported {
                    Some(reported) => {
                        self.token_usage = reported;
                    },
                    None => {},
                }
                self.client.set_token_usage(usage);
                assert(self.messages().drop_last() =~= old(self).messages());
                Ok(())
            },
            None => Err(
                Failure::new("Assistant did not generate a complete message".to_string()),
            ),
        }
    }
}

/// The tool calls of a message.
pub open spec fn calls_of(message: AssistantMessage) -> Seq<ToolCall> {
    match message.tool_calls {
        Some(calls) => calls@,
        None => seq![],
    }
}

impl<T: Tool> Agent<(), T> {
    /// Create a new agent harness around the given [`Client`].
    pub fn new(client: Client) -> (r: Self)
        ensures
            r.client() == client,
            r.messages().len() == 0,
            r.pending().len() == 0,
            r.usage() == (TokenUsage {
                prompt_tokens: 0,
                completion_tokens: 0,
                streamed_tokens: 0,
            }),
            r.tools() == Map::<Seq<char>, T>::empty(),
            r.definitions().len() == 0,
    {
        Self::new_with_listener(client, ())
    }
}

/// Request currently being executed by the LLM
#[derive(Debug)]
pub struct AgentRunning {
    /// The result as it is being generated
    streaming: StreamingResult,
    /// Whether the request is done
    terminated: bool,
}

impl AgentRunning {
    /// The state of the result that is being generated.
    pub closed spec fn state(&self) -> StreamState {
        self.streaming.state()
    }

    /// Whether the request is done.
    pub closed spec fn terminated(&self) -> bool {
        self.terminated
    }

    /// A request whose answer is about to be streamed.
    pub fn new(token_usage: &TokenUsage) -> (r: Self)
        ensures
            r.state() == StreamState::fresh(*token_usage),
            !r.terminated(),
    {
        AgentRunning { streaming: StreamingResult::from_stream(token_usage), terminated: false }
    }

    /// Whether the request is done.
    pub fn is_terminated(&self) -> (r: bool)
        ensures
            r == self.terminated(),
    {
        self.terminated
    }

    /// Return the token counts.
    pub fn token_usage(&self) -> (r: TokenUsage)
        ensures
            r == self.state().usage,
    {
        self.streaming.token_usage()
    }

    /// The next chunk after what happened outside, or what is needed to get it. The client of the
    /// agent has the token counts at all times. Once the answer is complete, the agent takes it
    /// over. That and any error ends the request.
    pub fn poll_next<L: ChatListener, T: Tool>(
        &mut self,
        agent: &mut Agent<L, T>,
        event: StreamEvent,
    ) -> (r: StreamStep)
        ensures
            final(self).terminated() == (old(self).terminated() || r is Failed || r is Finished),
            match old(self).state().told(event) {
                (state, Some(error)) => {
                    &&& r@ == StepView::Failed(error)
                    &&& final(self).state() == state
                    &&& final(agent).same_but_counts(state.usage, old(agent))
                },
                (state, None) => {
                    let (polled, step) = state.polled();
                    &&& r@ == step
                    &&& if step is Finished {
                        &&& final(self).state() == (StreamState { full: None, ..polled })
                        &&& responded(
                            *old(agent),
                            *final(agent),
                            polled.full,
                            polled.usage,
                            polled.reported,
                        )
                    } else {
                        &&& final(self).state() == polled
                        &&& final(agent).same_but_counts(polled.usage, old(agent))
                    }
                },
            },
    {
        match self.streaming.tell(event) {
            Ok(()) => {},
            Err(failure) => {
                self.terminated = true;
                agent.take_counts(self.streaming.token_usage());
                return StreamStep::Failed(failure);
            },
        }
        let step = self.streaming.poll_next();
        let usage = self.streaming.token_usage();
        let reported = self.streaming.reported_usage();
        match &step {
            StreamStep::Failed(_) => {
                self.terminated = true;
                agent.take_counts(usage);
            },
            StreamStep::Finished => {
                self.terminated = true;
                let message = self.streaming.full_message();
                let _ = agent.take_response(message, usage, reported);
            },
            _ => {
                agent.take_counts(usage);
            },
        }
        step
    }

    /// Ends the request here. The agent takes over what has been answered so far, if that is
    /// complete.
    pub fn force_finalize<L: ChatListener, T: Tool>(&mut self, agent: &mut Agent<L, T>)
        ensures
            final(self).terminated(),
            final(self).state() == (StreamState {
                full: None,
                ..old(self).state().concluded().0
            }),
            ({
                let concluded = old(self).state().concluded().0;
                if concluded.full is Some {
                    responded(
                        *old(agent),
                        *final(agent),
                        concluded.full,
                        concluded.usage,
                        concluded.reported,
                    )
                } else {
                    final(agent).same_but_counts(concluded.usage, old(agent))
                }
            }),
    {
        self.streaming.force_finalize();
        self.terminated = true;
        let usage = self.streaming.token_usage();
        let reported = self.streaming.reported_usage();
        match self.streaming.full_message() {
            Some(message) => {
                let _ = agent.take_response(Some(message), usage, reported);
            },
            None => {
                agent.take_counts(usage);
            },
        }
    }

    /// Same as [`Agent::take_pending_calls()`], after which the request is let go of.
    ///
    /// Must only be called after the request has run its course.
    pub fn execute_pending_calls<L: ChatListener, T: Tool>(self, agent: &mut Agent<L, T>) -> (r:
        CallRound)
        requires
            self.terminated(),
        ensures
            calls_taken(*old(agent), *final(agent), r),
    {
        agent.take_pending_calls()
    }

    /// Await the full response instead of a stream of parts.
    pub fn full_response(self) -> (r: AgentResponse)
        ensures
            r.running() == self,
    {
        AgentResponse { stream: self }
    }
}

/// Request currently being executed by the LLM, of which only the full response is awaited
#[derive(Debug)]
pub struct AgentResponse {
    /// The request, which is still streamed
    stream: AgentRunning,
}

/// What comes of asking for the full response
#[derive(Debug)]
pub enum ResponseStep {
    /// This event is to be parsed
    Parse(String),
    /// More bytes are needed
    NeedBytes,
    /// The full response is there
    Finished,
    /// There is none, because of this error
    Failed(Failure),
}

impl View for ResponseStep {
    type V = StepView;

    open spec fn view(&self) -> StepView {
        match self {
            ResponseStep::Parse(data) => StepView::Parse(data@),
            ResponseStep::NeedBytes => StepView::NeedBytes,
            ResponseStep::Finished => StepView::Finished,
            ResponseStep::Failed(error) => StepView::Failed(error@),
        }
    }
}

impl AgentResponse {
    /// The request.
    pub closed spec fn running(&self) -> AgentRunning {
        self.stream
    }

    /// Whether the request is done.
    pub fn is_terminated(&self) -> (r: bool)
        ensures
            r == self.running().terminated(),
    {
        self.stream.is_terminated()
    }

    /// Passes over all chunks, until the answer is complete, there is an error, or something is
    /// needed from outside. A request that is done stays as it is.
    pub fn poll<L: ChatListener, T: Tool>(
        &mut self,
        agent: &mut Agent<L, T>,
        event: StreamEvent,
    ) -> (r: ResponseStep)
        ensures
            if old(self).running().terminated() {
                &&& r is Finished
                &&& *final(self) == *old(self)
                &&& *final(agent) == *old(agent)
            } else {
                &&& final(self).running().terminated() == (r is Failed || r is Finished)
                &&& match old(self).running().state().told(event) {
                    (state, Some(error)) => {
                        &&& r@ == StepView::Failed(error)
                        &&& final(self).running().state() == state
                        &&& final(agent).same_but_counts(state.usage, old(agent))
                    },
                    (state, None) => {
                        let (left, step) = state.passed_over();
                        &&& r@ == step
                        &&& if step is Finished {
                            &&& final(self).running().state() == (StreamState {
                                full: None,
                                ..left
                            })
                            &&& responded(
                                *old(agent),
                                *final(agent),
                                left.full,
                                left.usage,
                                left.reported,
                            )
                        } else {
                            &&& final(self).running().state() == left
                            &&& final(agent).same_but_counts(left.usage, old(agent))
                        }
                    },
                }
            },
    {
        if self.stream.is_terminated() {
            return ResponseStep::Finished;
        }
        let ghost start = self.stream.state().told(event);
        let mut step = self.stream.poll_next(agent, event);
        loop
            invariant
                start == old(self).running().state().told(event),
                !old(self).running().terminated(),
                self.stream.terminated() == (step is Failed || step is Finished),
                match start {
                    (state, Some(error)) => {
                        &&& step@ == StepView::Failed(error)
                        &&& self.stream.state() == state
                        &&& agent.same_but_counts(state.usage, old(agent))
                    },
                    (state, None) => match step@ {
                        StepView::Chunk(_) => {
                            &&& state.passed_over() == self.stream.state().passed_over()
                            &&& agent.same_but_counts(self.stream.state().usage, old(agent))
                        },
                        StepView::Finished => {
                            let (left, last) = state.passed_over();
                            &&& step@ == last
                            &&& self.stream.state() == (StreamState { full: None, ..left })
                            &&& responded(
                                *old(agent),
                                *agent,
                                left.full,
                                left.usage,
                                left.reported,
                            )
                        },
                        _ => {
                            &&& state.passed_over() == (self.stream.state(), step@)
                            &&& agent.same_but_counts(self.stream.state().usage, old(agent))
                        },
                    },
                },
            decreases
                    self.stream.state().chunks.len() + if step is Chunk {
                        1nat
                    } else {
                        0nat
                    },
        {
            match step {
                StreamStep::Parse(data) => {
                    return ResponseStep::Parse(data);
                },
                StreamStep::NeedBytes => {
                    return ResponseStep::NeedBytes;
                },
                StreamStep::Finished => {
                    return ResponseStep::Finished;
                },
                StreamStep::Failed(failure) => {
                    return ResponseStep::Failed(failure);
                },
                StreamStep::Chunk(_) => {},
            }
            step = self.stream.poll_next(agent, StreamEvent::Idle);
        }
    }

    /// Same as [`Agent::take_pending_calls()`], after which the request is let go of.
    ///
    /// Must only be called after the request has run its course.
    pub fn execute_pending_calls<L: ChatListener, T: Tool>(self, agent: &mut Agent<L, T>) -> (r:
        CallRound)
        requires
            self.running().terminated(),
        ensures
            calls_taken(*old(agent), *final(agent), r),
    {
        self.stream.execute_pending_calls(agent)
    }
}

/// Whether the pending calls of an agent were taken for a round, and nothing else was changed.
pub open spec fn calls_taken<L: ChatListener, T: Tool>(
    before: Agent<L, T>,
    after: Agent<L, T>,
    round: CallRound,
) -> bool {
    &&& round.valid()
    &&& round.calls() == before.pending()
    &&& round.asked() == 0
    &&& round.answers().len() == 0
    &&& round.results().len() == 0
    &&& after.pending().len() == 0
    &&& after.messages() == before.messages()
    &&& after.listener() == before.listener()
    &&& after.usage() == before.usage()
    &&& after.tools() == before.tools()
    &&& after.definitions() == before.definitions()
    &&& after.client() == before.client()
}

/// Whether an agent has taken over an answer: the message is in its chat history, its tool calls are
/// pending, its client has the token counts, and the agent has those that were reported with the
/// answer; where none were, it keeps its own.
pub open spec fn responded<L: ChatListener, T: Tool>(
    before: Agent<L, T>,
    after: Agent<L, T>,
    answer: Option<AssistantView>,
    usage: TokenUsage,
    reported: Option<TokenUsage>,
) -> bool {
    &&& after.messages().len() == before.messages().len() + 1
    &&& after.messages().drop_last() == before.messages()
    &&& after.messages().last() matches ChatMessage::Assistant(message) && answer == Some(
        message@,
    ) && after.pending() == before.pending() + calls_of(message)
    &&& L::heard(before.listener(), after.messages().last(), after.listener())
    &&& after.usage() == match reported {
        Some(reported) => reported,
        None => before.usage(),
    }
    &&& after.tools() == before.tools()
    &&& after.definitions() == before.definitions()
    &&& after.client().counts(usage, &before.client())
}

/// A listener that is told of messages in two lots is told of them in their order.
pub proof fn listeners_hear_in_order<L: ChatListener>(
    before: L,
    first: Seq<ChatMessage>,
    second: Seq<ChatMessage>,
    after: L,
)
    ensures
        heard_all(before, first + second, after) <==> exists|between: L| #[trigger]
            heard_all(before, first, between) && heard_all(between, second, after),
    decreases second.len(),
{
    let all = first + second;
    if second.len() == 0 {
        assert(all =~= first);
        if heard_all(before, all, after) {
            assert(heard_all(before, first, after) && heard_all(after, second, after));
        }
    } else {
        let fewer = second.drop_last();
        assert(all.drop_last() =~= first + fewer);
        assert(all.last() == second.last());
        if heard_all(before, all, after) {
            let middle = choose|middle: L|
                heard_all(before, all.drop_last(), middle) && #[trigger] L::heard(
                    middle,
                    all.last(),
                    after,
                );
            listeners_hear_in_order(before, first, fewer, middle);
            let between = choose|between: L| #[trigger]
                heard_all(before, first, between) && heard_all(between, fewer, middle);
            assert(heard_all(between, fewer, middle) && L::heard(middle, second.last(), after));
            assert(heard_all(before, first, between) && heard_all(between, second, after));
        }
        if exists|between: L| #[trigger]
            heard_all(before, first, between) && heard_all(between, second, after) {
            let between = choose|between: L| #[trigger]
                heard_all(before, first, between) && heard_all(between, second, after);
            let middle = choose|middle: L|
                heard_all(between, fewer, middle) && #[trigger] L::heard(
                    middle,
                    second.last(),
                    after,
                );
            assert(heard_all(before, first, between) && heard_all(between, fewer, middle));
            listeners_hear_in_order(before, first, fewer, middle);
            assert(heard_all(before, all.drop_last(), middle) && L::heard(
                middle,
                all.last(),
                after,
            ));
        }
    }
}

/// A listener that is told of one message has heard it.
pub proof fn listeners_hear_each_message<L: ChatListener>(before: L, message: ChatMessage, after: L)
    ensures
        heard_all(before, seq![message], after) <==> L::heard(before, message, after),
        heard_all(before, Seq::empty(), after) <==> before == after,
{
    let one = seq![message];
    assert(one.drop_last() =~= seq![]);
    assert(one.last() == message);
    assert(heard_all(before, one.drop_last(), before));
    if heard_all(before, one, after) {
        let between = choose|between: L|
            heard_all(before, one.drop_last(), between) && #[trigger] L::heard(
                between,
                one.last(),
                after,
            );
        assert(between == before);
    }
}

/// The last result is the content of the latest message that has any, as long as there are only
/// messages of the assistant without content after it.
pub proof fn the_last_result_is_the_latest_content(messages: Seq<ChatMessage>, i: int, content: String)
    requires
        0 <= i < messages.len(),
        messages[i] matches ChatMessage::Assistant(message) && message.content == Some(content),
        forall|j: int|
            i < j < messages.len() ==> (#[trigger] messages[j] matches ChatMessage::Assistant(
                message,
            ) && message.content is None),
    ensures
        last_content(messages) == Some(content),
    decreases messages.len(),
{
    if i < messages.len() - 1 {
        let fewer = messages.drop_last();
        assert(messages.last() == messages[messages.len() - 1]);
        assert forall|j: int| i < j < fewer.len() implies (
        #[trigger] fewer[j] matches ChatMessage::Assistant(message) && message.content is None) by {
            assert(fewer[j] == messages[j]);
        }
        the_last_result_is_the_latest_content(fewer, i, content);
    }
}

/// There is no last result where anything but an answer came last, or where there was no content since
/// then.
pub proof fn there_is_no_result_after_input(messages: Seq<ChatMessage>, i: int)
    requires
        0 <= i < messages.len() ==> messages[i] !is Assistant,
        -1 <= i < messages.len(),
        forall|j: int|
            i < j < messages.len() ==> (#[trigger] messages[j] matches ChatMessage::Assistant(
                message,
            ) && message.content is None),
    ensures
        last_content(messages) is None,
    decreases messages.len(),
{
    if messages.len() > 0 && i < messages.len() - 1 {
        let fewer = messages.drop_last();
        assert(messages.last() == messages[messages.len() - 1]);
        assert forall|j: int| i < j < fewer.len() implies (
        #[trigger] fewer[j] matches ChatMessage::Assistant(message) && message.content is None) by {
            assert(fewer[j] == messages[j]);
        }
        there_is_no_result_after_input(fewer, i);
    }
}

/// A call of a function that there is a tool for is shown with the name of the function and what the
/// tool shows of the arguments, and its result as the tool shows it. Other calls are shown as unknown,
/// with their name.
pub proof fn calls_are_shown_by_their_tool<T: Tool>(
    tools: Map<Seq<char>, T>,
    call: ToolCallParams,
    result: Seq<char>,
)
    ensures
        match call {
            ToolCallParams::Function { function } => if tools.contains_key(function.name@) {
                let tool = tools[function.name@];
                &&& is_part_of(
                    function.name@ + "("@ + tool.shown_call(function.arguments@) + ")"@,
                    call_text(tools, call),
                )
                &&& result_text(tools, call, result) == tool.shown_result(result)
            } else {
                &&& is_part_of("unknown function "@ + function.name@, call_text(tools, call))
                &&& is_part_of(
                    "unknown function "@ + function.name@,
                    result_text(tools, call, result),
                )
            },
            ToolCallParams::Custom { custom } => {
                &&& is_part_of("unknown tool "@ + custom.name@, call_text(tools, call))
                &&& is_part_of("unknown tool "@ + custom.name@, result_text(tools, call, result))
            },
        },
{
    reveal_strlit("[unknown function ");
    reveal_strlit("unknown function ");
    reveal_strlit("[unknown tool ");
    reveal_strlit("unknown tool ");
    let open: Seq<char> = seq!['['];
    let none: Seq<char> = seq![];
    match call {
        ToolCallParams::Function { function } => {
            if tools.contains_key(function.name@) {
                let shown = function.name@ + "("@ + tools[function.name@].shown_call(
                    function.arguments@,
                ) + ")"@;
                assert(call_text(tools, call) =~= "[function call] "@ + shown + none);
                lemma_part("[function call] "@, shown, none);
            } else {
                let said = "unknown function "@ + function.name@;
                assert(call_text(tools, call) =~= open + said + "]"@);
                lemma_part(open, said, "]"@);
            }
        },
        ToolCallParams::Custom { custom } => {
            let said = "unknown tool "@ + custom.name@;
            assert(call_text(tools, call) =~= open + said + "]"@);
            lemma_part(open, said, "]"@);
        },
    }
}

/// An answer that an agent has taken over is the last of its messages. Its tool calls wait to be
/// executed after those that waited before, the counts that were reported with it are the agent's,
/// and without a report the agent keeps its own.
pub proof fn answers_are_taken_over<L: ChatListener, T: Tool>(
    before: Agent<L, T>,
    after: Agent<L, T>,
    answer: Option<AssistantView>,
    usage: TokenUsage,
    reported: Option<TokenUsage>,
)
    requires
        responded(before, after, answer, usage, reported),
    ensures
        answer is Some,
        after.messages().len() == before.messages().len() + 1,
        before.messages().is_prefix_of(after.messages()),
        before.pending().is_prefix_of(after.pending()),
        after.messages().last() is Assistant,
        after.messages().last()->Assistant_0@ == answer->0,
        after.pending().len() - before.pending().len() == match answer->0.tool_calls {
            Some(calls) => calls.len(),
            None => 0,
        },
        calls_view(after.pending().skip(before.pending().len() as int)) == match
            answer->0.tool_calls {
            Some(calls) => calls,
            None => seq![],
        },
        reported is Some ==> after.usage() == reported->0,
        reported is None ==> after.usage() == before.usage(),
        after.client().usage() == usage,
        after.client().url() == before.client().url(),
        after.client().model() == before.client().model(),
{
    let message = after.messages().last()->Assistant_0;
    assert(before.messages() =~= after.messages().take(before.messages().len() as int));
    assert(before.pending() =~= after.pending().take(before.pending().len() as int));
    assert(after.pending().skip(before.pending().len() as int) =~= calls_of(message));
    assert(calls_view(calls_of(message)) =~= match answer->0.tool_calls {
        Some(calls) => calls,
        None => seq![],
    });
}

/// Where only the history changed, the calls that wait, the token counts, the tools and the client are
/// what they were; where only the client's counts changed, so is the history.
pub proof fn nothing_else_changes<L: ChatListener, T: Tool>(
    before: Agent<L, T>,
    after: Agent<L, T>,
    usage: TokenUsage,
)
    ensures
        after.same_but_history(&before) ==> {
            &&& after.pending() == before.pending()
            &&& after.usage() == before.usage()
            &&& after.tools() == before.tools()
            &&& after.definitions() == before.definitions()
            &&& after.client() == before.client()
        },
        after.same_but_counts(usage, &before) ==> {
            &&& after.messages() == before.messages()
            &&& after.listener() == before.listener()
            &&& after.pending() == before.pending()
            &&& after.usage() == before.usage()
            &&& after.tools() == before.tools()
            &&& after.definitions() == before.definitions()
            &&& after.client().usage() == usage
            &&& after.client().url() == before.client().url()
            &&& after.client().model() == before.client().model()
            &&& after.client().context() == before.client().context()
        },
{
}

/// All calls that wait are taken for a round, in their order, and none waits any more; the history, the
/// tools and the counts stay.
pub proof fn all_waiting_calls_are_taken<L: ChatListener, T: Tool>(
    before: Agent<L, T>,
    after: Agent<L, T>,
    round: CallRound,
)
    requires
        calls_taken(before, after, round),
    ensures
        round.calls() + after.pending() == before.pending(),
        after.pending().len() == 0,
        round.asked() == 0,
        round.results().len() == 0,
        round.is_over() <==> before.pending().len() == 0,
        after.messages() == before.messages(),
        after.listener() == before.listener(),
        after.usage() == before.usage(),
        after.tools() == before.tools(),
        after.definitions() == before.definitions(),
        after.client() == before.client(),
{
    assert(round.calls() + after.pending() =~= before.pending());
}

} // verus!
