//! The objects that are exchanged with an OpenAI-compatible llama-server.

use vstd::prelude::*;
use vstd::std_specs::convert::FromSpecImpl;

verus! {

/// A basic chat message
#[derive(Debug)]
pub enum ChatMessage {
    /// System-level instructions
    System(SystemMessage),
    /// User message
    User(UserMessage),
    /// Assistant message
    Assistant(AssistantMessage),
    /// Tool call result
    Tool(ToolResult),
}

/// A system-level instruction to the assistant
#[derive(Debug)]
pub struct SystemMessage {
    /// Message content
    pub content: String,
}

/// Message from the user to the assistant
#[derive(Debug)]
pub struct UserMessage {
    /// Message content
    pub content: String,
}

/// Message from the assistant to the user or system
#[derive(Debug)]
pub struct AssistantMessage {
    /// Message content
    pub content: Option<String>,
    /// Private reasoning, as separated out by llama-server. It is not sent back in later requests.
    pub reasoning_content: Option<String>,
    /// Tool calls to be performed
    pub tool_calls: Option<Vec<ToolCall>>,
}

/// Request a tool call
#[derive(Debug)]
pub struct ToolCall {
    /// ID to reference in the result
    pub id: String,
    /// Which tool to call, and how
    pub call: ToolCallParams,
}

/// Tool call name and parameters
#[derive(Debug)]
pub enum ToolCallParams {
    /// Function tool call
    Function { function: FunctionCall },
    /// Custom tool call
    Custom { custom: CustomCall },
}

/// Request a function tool call
#[derive(Debug)]
pub struct FunctionCall {
    /// Function name
    pub name: String,
    /// Arguments in JSON format
    pub arguments: String,
}

/// Request a custom tool call
#[derive(Debug)]
pub struct CustomCall {
    /// Custom tool name
    pub name: String,
    /// Input to feed into the tool
    pub input: String,
}

/// Tool call result from the system to the assistant
#[derive(Debug)]
pub struct ToolResult {
    /// Reference to the tool call
    pub tool_call_id: Option<String>,
    /// Result
    pub content: String,
}

/// A chat to continue, as sent to the LLM; `S` is the type of the tools' parameter schemas
#[derive(Debug)]
pub struct ChatCompletion<'a, S> {
    /// Which model to use (e.g. "default")
    pub model: &'a str,
    /// Chat history
    pub messages: &'a [ChatMessage],
    /// Whether to use streaming (i.e. send output as it is generated)
    pub stream: bool,
    /// Options for streaming
    pub stream_options: StreamOptions,
    /// Which tools are available
    pub tools: &'a [ToolDefinition<S>],
    /// How to use tools
    pub tool_choice: ToolChoice<'a>,
}

/// Option for streaming responses
#[derive(Clone, Copy, Debug)]
pub struct StreamOptions {
    /// Something about obfuscating against side-channel attacks
    pub include_obfuscation: bool,
    /// Provide token usage information before `[DONE]`
    pub include_usage: bool,
}

/// Tool description
#[derive(Debug)]
pub enum ToolDefinition<S> {
    /// A function tool generating responses
    Function { function: FunctionDefinition<S> },
    /// A custom tool processing input
    Custom { custom: CustomToolDefinition },
}

/// Function definition
#[derive(Debug)]
pub struct FunctionDefinition<S> {
    /// Function name
    pub name: String,
    /// Description of what this does
    pub description: Option<String>,
    /// Function parameters
    pub parameters: Option<S>,
    /// Require strict adherence to the parameter definition
    pub strict: bool,
}

/// Custom tool definition
#[derive(Debug)]
pub struct CustomToolDefinition {
    /// Tool name
    pub name: String,
    /// Description of what this does
    pub description: Option<String>,
    /// Input format for this tool
    pub format: CustomToolFormat,
}

/// Input format for custom tools
#[derive(Debug)]
pub enum CustomToolFormat {
    /// Free-form text
    Text,
    /// Specific grammar
    Grammar(CustomToolGrammar),
}

/// Input format grammar specification for custom tools
#[derive(Debug)]
pub enum CustomToolGrammar {
    /// Lark (EBNF-like) definition
    Lark {
        /// Grammar specification in Lark syntax
        definition: String,
    },
    /// Regex definition
    Regex {
        /// Grammar specification in Regex syntax
        definition: String,
    },
}

/// Prescribe tool use
#[derive(Debug)]
pub enum ToolChoice<'a> {
    /// General choice for all tools
    Mode(ToolChoiceMode),
    /// Prescribe specific tools
    ToolChoice(ToolChoiceSet<'a>),
}

/// Whether to use tools in general
#[derive(Clone, Copy, Debug, PartialEq, Eq, Structural)]
pub enum ToolChoiceMode {
    /// Suppress tool use
    Suppress,
    /// Let the model decide
    Auto,
    /// Require use of at least one or more tools
    Required,
}

/// Prescribe specific tools to use
#[derive(Debug)]
pub enum ToolChoiceSet<'a> {
    /// Constrains the model to use specific tools
    AllowedTools {
        /// Whether the tools are allowed or required; must not be `Suppress`
        mode: ToolChoiceMode,
        /// The list of tools
        tools: &'a [ToolReference<'a>],
    },
    /// Force the model to use this function
    Function(FunctionReference<'a>),
    /// Force the model to use this custom tool
    Custom(CustomReference<'a>),
}

/// References a function
#[derive(Debug)]
pub struct FunctionReference<'a> {
    pub function: &'a str,
}

/// References a custom tool
#[derive(Debug)]
pub struct CustomReference<'a> {
    pub custom: &'a str,
}

/// References any tool (function or custom)
#[derive(Debug)]
pub enum ToolReference<'a> {
    Function(FunctionReference<'a>),
    Custom(CustomReference<'a>),
}

/// A model on offer by the server
#[derive(Debug)]
pub struct ModelInfo {
    /// Name of the model
    pub id: String,
    /// Other names for it
    pub aliases: Vec<String>,
    /// Its context size in tokens, where the server tells
    pub n_ctx: Option<u64>,
}

/// The models on offer by the server
#[derive(Debug)]
pub struct Models {
    /// All models
    pub data: Vec<ModelInfo>,
}

/// The texts of a tool call's parameters.
pub enum ParamsView {
    /// Function tool call
    Function { name: Seq<char>, arguments: Seq<char> },
    /// Custom tool call
    Custom { name: Seq<char>, input: Seq<char> },
}

/// The texts of a tool call.
pub struct CallView {
    /// ID to reference in the result
    pub id: Seq<char>,
    /// Which tool to call, and how
    pub params: ParamsView,
}

/// The texts of a message from the assistant.
pub struct AssistantView {
    /// Message content
    pub content: Option<Seq<char>>,
    /// Private reasoning
    pub reasoning_content: Option<Seq<char>>,
    /// Tool calls to be performed
    pub tool_calls: Option<Seq<CallView>>,
}

impl View for ToolCallParams {
    type V = ParamsView;

    open spec fn view(&self) -> ParamsView {
        match self {
            ToolCallParams::Function { function } => ParamsView::Function {
                name: function.name@,
                arguments: function.arguments@,
            },
            ToolCallParams::Custom { custom } => ParamsView::Custom {
                name: custom.name@,
                input: custom.input@,
            },
        }
    }
}

impl View for ToolCall {
    type V = CallView;

    open spec fn view(&self) -> CallView {
        CallView { id: self.id@, params: self.call@ }
    }
}

/// The texts of a list of tool calls.
pub open spec fn calls_view(calls: Seq<ToolCall>) -> Seq<CallView> {
    Seq::new(calls.len(), |i: int| calls[i]@)
}

/// The text of an optional string.
pub open spec fn text_of(text: Option<String>) -> Option<Seq<char>> {
    match text {
        Some(text) => Some(text@),
        None => None,
    }
}

impl View for AssistantMessage {
    type V = AssistantView;

    open spec fn view(&self) -> AssistantView {
        AssistantView {
            content: text_of(self.content),
            reasoning_content: text_of(self.reasoning_content),
            tool_calls: match self.tool_calls {
                Some(calls) => Some(calls_view(calls@)),
                None => None,
            },
        }
    }
}

/// What stands before the error in the result of a tool call that failed.
pub open spec fn failed_prefix() -> Seq<char> {
    "TOOL CALL FAILED: "@
}

/// What stands before the reason in the result of a tool call that was rejected.
pub open spec fn rejected_prefix() -> Seq<char> {
    "TOOL CALL REJECTED: "@
}

impl Default for StreamOptions {
    fn default() -> (r: Self)
        ensures
            !r.include_obfuscation,
            !r.include_usage,
    {
        StreamOptions { include_obfuscation: false, include_usage: false }
    }
}

impl Default for AssistantMessage {
    fn default() -> (r: Self)
        ensures
            r == (AssistantMessage { content: None, reasoning_content: None, tool_calls: None }),
    {
        AssistantMessage { content: None, reasoning_content: None, tool_calls: None }
    }
}

impl Default for CustomToolFormat {
    fn default() -> (r: Self)
        ensures
            r == CustomToolFormat::Text,
    {
        CustomToolFormat::Text
    }
}

impl From<SystemMessage> for ChatMessage {
    fn from(system: SystemMessage) -> (r: Self) {
        ChatMessage::System(system)
    }
}

impl FromSpecImpl<SystemMessage> for ChatMessage {
    open spec fn obeys_from_spec() -> bool {
        true
    }

    open spec fn from_spec(system: SystemMessage) -> Self {
        ChatMessage::System(system)
    }
}

impl From<UserMessage> for ChatMessage {
    fn from(user: UserMessage) -> (r: Self) {
        ChatMessage::User(user)
    }
}

impl FromSpecImpl<UserMessage> for ChatMessage {
    open spec fn obeys_from_spec() -> bool {
        true
    }

    open spec fn from_spec(user: UserMessage) -> Self {
        ChatMessage::User(user)
    }
}

impl From<AssistantMessage> for ChatMessage {
    fn from(assistant: AssistantMessage) -> (r: Self) {
        ChatMessage::Assistant(assistant)
    }
}

impl FromSpecImpl<AssistantMessage> for ChatMessage {
    open spec fn obeys_from_spec() -> bool {
        true
    }

    open spec fn from_spec(assistant: AssistantMessage) -> Self {
        ChatMessage::Assistant(assistant)
    }
}

impl From<ToolResult> for ChatMessage {
    fn from(result: ToolResult) -> (r: Self) {
        ChatMessage::Tool(result)
    }
}

impl FromSpecImpl<ToolResult> for ChatMessage {
    open spec fn obeys_from_spec() -> bool {
        true
    }

    open spec fn from_spec(result: ToolResult) -> Self {
        ChatMessage::Tool(result)
    }
}

impl From<String> for SystemMessage {
    fn from(message: String) -> (r: Self) {
        SystemMessage { content: message }
    }
}

impl FromSpecImpl<String> for SystemMessage {
    open spec fn obeys_from_spec() -> bool {
        true
    }

    open spec fn from_spec(message: String) -> Self {
        SystemMessage { content: message }
    }
}

impl From<String> for UserMessage {
    fn from(message: String) -> (r: Self) {
        UserMessage { content: message }
    }
}

impl FromSpecImpl<String> for UserMessage {
    open spec fn obeys_from_spec() -> bool {
        true
    }

    open spec fn from_spec(message: String) -> Self {
        UserMessage { content: message }
    }
}

impl From<ToolChoiceMode> for ToolChoice<'static> {
    fn from(mode: ToolChoiceMode) -> (r: Self) {
        ToolChoice::Mode(mode)
    }
}

impl FromSpecImpl<ToolChoiceMode> for ToolChoice<'static> {
    open spec fn obeys_from_spec() -> bool {
        true
    }

    open spec fn from_spec(mode: ToolChoiceMode) -> Self {
        ToolChoice::Mode(mode)
    }
}

impl<'a> From<ToolChoiceSet<'a>> for ToolChoice<'a> {
    fn from(set: ToolChoiceSet<'a>) -> (r: Self) {
        ToolChoice::ToolChoice(set)
    }
}

impl<'a> FromSpecImpl<ToolChoiceSet<'a>> for ToolChoice<'a> {
    open spec fn obeys_from_spec() -> bool {
        true
    }

    open spec fn from_spec(set: ToolChoiceSet<'a>) -> Self {
        ToolChoice::ToolChoice(set)
    }
}

impl Clone for FunctionCall {
    fn clone(&self) -> (r: Self)
        ensures
            r == *self,
    {
        FunctionCall { name: self.name.clone(), arguments: self.arguments.clone() }
    }
}

impl Clone for CustomCall {
    fn clone(&self) -> (r: Self)
        ensures
            r == *self,
    {
        CustomCall { name: self.name.clone(), input: self.input.clone() }
    }
}

impl Clone for ToolCallParams {
    fn clone(&self) -> (r: Self)
        ensures
            r == *self,
    {
        match self {
            ToolCallParams::Function { function } => ToolCallParams::Function {
                function: function.clone(),
            },
            ToolCallParams::Custom { custom } => ToolCallParams::Custom { custom: custom.clone() },
        }
    }
}

impl Clone for ToolCall {
    fn clone(&self) -> (r: Self)
        ensures
            r == *self,
    {
        ToolCall { id: self.id.clone(), call: self.call.clone() }
    }
}

impl Clone for SystemMessage {
    fn clone(&self) -> (r: Self)
        ensures
            r == *self,
    {
        SystemMessage { content: self.content.clone() }
    }
}

impl Clone for UserMessage {
    fn clone(&self) -> (r: Self)
        ensures
            r == *self,
    {
        UserMessage { content: self.content.clone() }
    }
}

impl Clone for AssistantMessage {
    fn clone(&self) -> (r: Self)
        ensures
            r@ == self@,
    {
        let r = AssistantMessage {
            content: self.content.clone(),
            reasoning_content: self.reasoning_content.clone(),
            tool_calls: self.tool_calls.clone(),
        };
        match (&self.tool_calls, &r.tool_calls) {
            (Some(calls), Some(copies)) => {
                assert(calls_view(copies@) =~= calls_view(calls@));
            },
            _ => {},
        }
        r
    }
}

impl Clone for ToolResult {
    fn clone(&self) -> (r: Self)
        ensures
            r == *self,
    {
        ToolResult { tool_call_id: self.tool_call_id.clone(), content: self.content.clone() }
    }
}

impl Clone for ChatMessage {
    fn clone(&self) -> (r: Self)
        ensures
            match self {
                ChatMessage::Assistant(message) => r matches ChatMessage::Assistant(copy) && copy@
                    == message@,
                _ => r == *self,
            },
    {
        match self {
            ChatMessage::System(message) => ChatMessage::System(message.clone()),
            ChatMessage::User(message) => ChatMessage::User(message.clone()),
            ChatMessage::Assistant(message) => ChatMessage::Assistant(message.clone()),
            ChatMessage::Tool(result) => ChatMessage::Tool(result.clone()),
        }
    }
}

impl ToolCallParams {
    /// The name of the tool that is called.
    pub open spec fn called(&self) -> Seq<char> {
        match self {
            ToolCallParams::Function { function } => function.name@,
            ToolCallParams::Custom { custom } => custom.name@,
        }
    }

    /// Return the name of the tool to call.
    pub fn name(&self) -> (r: &str)
        ensures
            r@ == self.called(),
    {
        match self {
            ToolCallParams::Function { function } => function.name.as_str(),
            ToolCallParams::Custom { custom } => custom.name.as_str(),
        }
    }
}

impl ToolResult {
    /// The result of a call: what the tool returned, or a note that it failed and why.
    pub fn new(call_id: String, result: Result<String, String>) -> (r: Self)
        ensures
            r.tool_call_id == Some(call_id),
            match result {
                Ok(text) => r.content == text,
                Err(err) => r.content@ == failed_prefix() + err@,
            },
    {
        let content = match result {
            Ok(text) => text,
            Err(err) => {
                let mut content = String::new();
                content.append("TOOL CALL FAILED: ");
                content.append(err.as_str());
                proof {
                    assert(content@ =~= failed_prefix() + err@);
                }
                content
            },
        };
        ToolResult { tool_call_id: Some(call_id), content }
    }

    /// The result of a call that was not let through, with the reason.
    pub fn rejected(call_id: String, err: &str) -> (r: Self)
        ensures
            r.tool_call_id == Some(call_id),
            r.content@ == rejected_prefix() + err@,
    {
        let mut content = String::new();
        content.append("TOOL CALL REJECTED: ");
        content.append(err);
        proof {
            assert(content@ =~= rejected_prefix() + err@);
        }
        ToolResult { tool_call_id: Some(call_id), content }
    }
}

} // verus!
