//! Prefill the chat context by user-defined instructions

use crate::agent::{calls_of, Agent, ChatListener, Tool};
use crate::call_round::CallRound;
use crate::line_format::{ChatMessage, SystemMessage, ToolCall, UserMessage};
use vstd::prelude::*;

verus! {

/// Instructions on how to prefill the chat context e.g. with system information read from files;
/// `P` is the type of paths
#[derive(Debug)]
pub struct PrefillInstructions<P>(pub Vec<Instruction<P>>);

/// An instruction for getting something into the chat context
#[derive(Debug)]
pub enum Instruction<P> {
    /// Push a message into the context
    Message(Message<P>),
    /// Execute a tool call
    ToolCall(ToolCall),
}

/// Simple message
#[derive(Debug)]
pub struct Message<P> {
    /// What role to give to the result
    pub role: MessageTarget,
    /// Where to get the data from
    pub source: MessageSource<P>,
}

/// How to represent message data
#[derive(Clone, Copy, Debug, PartialEq, Eq, Structural)]
pub enum MessageTarget {
    /// System/admin message
    System,
    /// User message
    User,
}

/// Where to get message data from
#[derive(Debug)]
pub enum MessageSource<P> {
    /// Data is defined in-line as a string
    Inline(String),
    /// Data is to be read from the given file
    File(P),
}

/// What is left to do of an instruction
pub enum PrefillStep<P> {
    /// Nothing
    Done,
    /// Read this file, and push what it holds with the given role
    Read(MessageTarget, P),
    /// Execute this round of tool calls, and fail if one does
    Call(CallRound),
}

/// The message that data makes in a role.
pub open spec fn in_role(role: MessageTarget, data: String) -> ChatMessage {
    match role {
        MessageTarget::System => ChatMessage::System(SystemMessage { content: data }),
        MessageTarget::User => ChatMessage::User(UserMessage { content: data }),
    }
}

/// Push data into the chat context.
pub fn push_data<L: ChatListener, T: Tool>(
    agent: &mut Agent<L, T>,
    role: MessageTarget,
    data: String,
)
    ensures
        final(agent).messages() == old(agent).messages().push(in_role(role, data)),
        L::heard(old(agent).listener(), in_role(role, data), final(agent).listener()),
        final(agent).same_but_history(old(agent)),
{
    match role {
        MessageTarget::System => agent.push_system(data),
        MessageTarget::User => agent.push_user(data),
    }
}

impl<P> Instruction<P> {
    /// Consume this object to prefill the chat context from it, as far as that can be done right
    /// away: in-line data is pushed, and so is a tool call, which is then to be executed with all
    /// that are pending.
    pub fn execute<L: ChatListener, T: Tool>(self, agent: &mut Agent<L, T>) -> (r: PrefillStep<P>)
        ensures
            match self {
                Instruction::Message(message) => match message.source {
                    MessageSource::Inline(data) => {
                        &&& r is Done
                        &&& final(agent).messages() == old(agent).messages().push(
                            in_role(message.role, data),
                        )
                        &&& L::heard(
                            old(agent).listener(),
                            in_role(message.role, data),
                            final(agent).listener(),
                        )
                        &&& final(agent).same_but_history(old(agent))
                    },
                    MessageSource::File(path) => {
                        &&& r == PrefillStep::Read(message.role, path)
                        &&& *final(agent) == *old(agent)
                    },
                },
                Instruction::ToolCall(call) => {
                    &&& r matches PrefillStep::Call(round) && round.valid() && round.calls()
                        == old(agent).pending().push(call) && round.results().len() == 0
                        && round.asked() == 0 && round.answers().len() == 0
                    &&& final(agent).pending().len() == 0
                    &&& final(agent).messages().len() == old(agent).messages().len() + 1
                    &&& final(agent).messages().drop_last() == old(agent).messages()
                    &&& final(agent).messages().last() matches ChatMessage::Assistant(message)
                        && message.content is None && message.reasoning_content is None
                        && message.tool_calls is Some && calls_of(message) == seq![call]
                    &&& L::heard(
                        old(agent).listener(),
                        final(agent).messages().last(),
                        final(agent).listener(),
                    )
                    &&& final(agent).usage() == old(agent).usage()
                    &&& final(agent).tools() == old(agent).tools()
                    &&& final(agent).definitions() == old(agent).definitions()
                    &&& final(agent).client() == old(agent).client()
                },
            },
    {
        match self {
            Instruction::Message(message) => match message.source {
                MessageSource::Inline(data) => {
                    push_data(agent, message.role, data);
                    PrefillStep::Done
                },
                MessageSource::File(path) => PrefillStep::Read(message.role, path),
            },
            Instruction::ToolCall(call) => {
                agent.push_tool_call(call);
                PrefillStep::Call(agent.take_pending_calls())
            },
        }
    }
}

/// Data for the system becomes a message of the system, data for the user one of the user, and both
/// hold the data as it is.
pub proof fn data_goes_to_its_role(data: String)
    ensures
        in_role(MessageTarget::System, data) matches ChatMessage::System(message)
            && message.content == data,
        in_role(MessageTarget::User, data) matches ChatMessage::User(message) && message.content
            == data,
{
}

} // verus!
