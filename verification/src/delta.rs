//! Messages of the assistant as they arrive: in pieces, each of which adds to what is there.

use crate::failure::Failure;
use crate::line_format::{
    calls_view, text_of, AssistantMessage, AssistantView, CallView, CustomCall, FunctionCall,
    ParamsView, ToolCall, ToolCallParams,
};
use crate::text::{concat, debug_quoted, debug_text, decimal, push_decimal};
use vstd::prelude::*;

verus! {

/// Message from the assistant that is being streamed, so that everything in it is optional
#[derive(Debug)]
pub struct StreamingAssistantMessage {
    /// Message content
    pub content: Option<String>,
    /// Private reasoning, as separated out by llama-server
    pub reasoning_content: Option<String>,
    /// Tool calls to be performed
    pub tool_calls: Option<Vec<StreamingToolCall>>,
}

/// Tool call that is being streamed
#[derive(Debug)]
pub struct StreamingToolCall {
    /// Which index in the tool call list this applies to
    pub index: usize,
    /// ID to reference in the result
    pub id: Option<String>,
    /// Which tool to call, and how
    pub call: Option<StreamingToolCallParams>,
}

/// Tool call name and parameters that are being streamed
#[derive(Debug)]
pub enum StreamingToolCallParams {
    /// Function tool call
    Function(StreamingFunctionCall),
    /// Custom tool call
    Custom(StreamingCustomCall),
}

/// Function tool call that is being streamed
#[derive(Debug)]
pub struct StreamingFunctionCall {
    /// Function name
    pub name: Option<String>,
    /// Arguments in JSON format
    pub arguments: Option<String>,
}

/// Custom tool call that is being streamed
#[derive(Debug)]
pub struct StreamingCustomCall {
    /// Custom tool name
    pub name: Option<String>,
    /// Input to feed into the tool
    pub input: Option<String>,
}

/// The texts of a tool call's parameters, as far as they have arrived.
pub enum PartialParams {
    /// Function tool call
    Function { name: Option<Seq<char>>, arguments: Option<Seq<char>> },
    /// Custom tool call
    Custom { name: Option<Seq<char>>, input: Option<Seq<char>> },
}

/// The texts of a tool call, as far as they have arrived.
pub struct PartialCall {
    /// Which index in the tool call list this applies to
    pub index: nat,
    /// ID to reference in the result
    pub id: Option<Seq<char>>,
    /// Which tool to call, and how
    pub params: Option<PartialParams>,
}

/// The texts of a message, as far as they have arrived.
pub struct PartialMessage {
    /// Message content
    pub content: Option<Seq<char>>,
    /// Private reasoning
    pub reasoning_content: Option<Seq<char>>,
    /// Tool calls to be performed
    pub tool_calls: Option<Seq<PartialCall>>,
}

impl View for StreamingToolCallParams {
    type V = PartialParams;

    open spec fn view(&self) -> PartialParams {
        match self {
            StreamingToolCallParams::Function(call) => PartialParams::Function {
                name: text_of(call.name),
                arguments: text_of(call.arguments),
            },
            StreamingToolCallParams::Custom(call) => PartialParams::Custom {
                name: text_of(call.name),
                input: text_of(call.input),
            },
        }
    }
}

/// The texts of optional parameters.
pub open spec fn params_of(call: Option<StreamingToolCallParams>) -> Option<PartialParams> {
    match call {
        Some(call) => Some(call@),
        None => None,
    }
}

impl View for StreamingToolCall {
    type V = PartialCall;

    open spec fn view(&self) -> PartialCall {
        PartialCall {
            index: self.index as nat,
            id: text_of(self.id),
            params: params_of(self.call),
        }
    }
}

/// The texts of a list of calls.
pub open spec fn partial_calls(calls: Seq<StreamingToolCall>) -> Seq<PartialCall> {
    Seq::new(calls.len(), |i: int| calls[i]@)
}

impl View for StreamingAssistantMessage {
    type V = PartialMessage;

    open spec fn view(&self) -> PartialMessage {
        PartialMessage {
            content: text_of(self.content),
            reasoning_content: text_of(self.reasoning_content),
            tool_calls: match self.tool_calls {
                Some(calls) => Some(partial_calls(calls@)),
                None => None,
            },
        }
    }
}

/// A text after a piece of it arrived.
pub open spec fn extended(text: Option<Seq<char>>, piece: Option<Seq<char>>) -> Option<Seq<char>> {
    match piece {
        Some(piece) => match text {
            Some(text) => Some(text + piece),
            None => Some(piece),
        },
        None => text,
    }
}

/// Parameters after a piece of them arrived; unchanged where the piece is of another kind.
pub open spec fn params_pushed(params: PartialParams, piece: PartialParams) -> PartialParams {
    match (params, piece) {
        (
            PartialParams::Function { name, arguments },
            PartialParams::Function { name: more_name, arguments: more_arguments },
        ) => PartialParams::Function {
            name: extended(name, more_name),
            arguments: extended(arguments, more_arguments),
        },
        (
            PartialParams::Custom { name, input },
            PartialParams::Custom { name: more_name, input: more_input },
        ) => PartialParams::Custom {
            name: extended(name, more_name),
            input: extended(input, more_input),
        },
        _ => params,
    }
}

/// The debug form of an optional string.
pub open spec fn debug_option(text: Option<Seq<char>>) -> Seq<char> {
    match text {
        Some(text) => "Some("@ + debug_quoted(text) + ")"@,
        None => "None"@,
    }
}

/// The debug form of parameters.
pub open spec fn debug_params(params: PartialParams) -> Seq<char> {
    match params {
        PartialParams::Function { name, arguments } => "Function(StreamingFunctionCall { name: "@
            + debug_option(name) + ", arguments: "@ + debug_option(arguments) + " })"@,
        PartialParams::Custom { name, input } => "Custom(StreamingCustomCall { name: "@
            + debug_option(name) + ", input: "@ + debug_option(input) + " })"@,
    }
}

/// What is wrong with a piece for parameters of another kind.
pub open spec fn params_error(params: PartialParams, piece: PartialParams) -> Option<Seq<char>> {
    match (params, piece) {
        (PartialParams::Custom { .. }, PartialParams::Function { .. }) => Some(
            "Non-function tool call updated with function data: "@ + debug_params(params) + " -> "@
                + debug_params(piece),
        ),
        (PartialParams::Function { .. }, PartialParams::Custom { .. }) => Some(
            "Non-custom tool call updated with custom tool data: "@ + debug_params(params)
                + " -> "@ + debug_params(piece),
        ),
        _ => None,
    }
}

/// What is wrong with a piece of a call: the call has an ID already, or is of another kind.
pub open spec fn call_error(call: PartialCall, piece: PartialCall) -> Option<Seq<char>> {
    match (call.id, piece.id) {
        (Some(old_id), Some(id)) => Some("ID set twice: "@ + old_id + " -> "@ + id),
        _ => match (call.params, piece.params) {
            (Some(params), Some(piece)) => params_error(params, piece),
            _ => None,
        },
    }
}

/// A call after a piece of it arrived.
pub open spec fn call_pushed(call: PartialCall, piece: PartialCall) -> PartialCall {
    if call.id is Some && piece.id is Some {
        call
    } else {
        PartialCall {
            index: call.index,
            id: match piece.id {
                Some(id) => Some(id),
                None => call.id,
            },
            params: match (call.params, piece.params) {
                (Some(params), Some(piece)) => Some(params_pushed(params, piece)),
                (None, Some(piece)) => Some(piece),
                (params, None) => params,
            },
        }
    }
}

/// A list of calls, filled up with empty ones to a length.
pub open spec fn padded(calls: Seq<PartialCall>, len: nat) -> Seq<PartialCall> {
    if calls.len() >= len {
        calls
    } else {
        calls + Seq::new(
            (len - calls.len()) as nat,
            |i: int| PartialCall { index: (calls.len() + i) as nat, id: None, params: None },
        )
    }
}

/// What a piece is applied to: the call at its index, which is added where it is missing.
pub open spec fn calls_step(
    state: (Seq<PartialCall>, Option<Seq<Seq<char>>>),
    piece: PartialCall,
) -> (Seq<PartialCall>, Option<Seq<Seq<char>>>) {
    let (calls, error) = state;
    if error is Some {
        state
    } else {
        let calls = padded(calls, piece.index + 1);
        let call = calls[piece.index as int];
        (
            calls.update(piece.index as int, call_pushed(call, piece)),
            match call_error(call, piece) {
                Some(error) => Some(
                    seq!["Tool call at index "@ + decimal(piece.index), error],
                ),
                None => None,
            },
        )
    }
}

/// The calls after pieces of them arrived, up to the first that is wrong, and what is wrong.
pub open spec fn calls_pushed(calls: Seq<PartialCall>, pieces: Seq<PartialCall>) -> (
    Seq<PartialCall>,
    Option<Seq<Seq<char>>>,
)
    decreases pieces.len(),
{
    if pieces.len() == 0 {
        (calls, None)
    } else {
        calls_step(calls_pushed(calls, pieces.drop_last()), pieces.last())
    }
}

/// The calls that a message has.
pub open spec fn calls_in(message: PartialMessage) -> Seq<PartialCall> {
    match message.tool_calls {
        Some(calls) => calls,
        None => seq![],
    }
}

/// A message after a piece of it arrived.
pub open spec fn message_pushed(message: PartialMessage, piece: PartialMessage) -> PartialMessage {
    PartialMessage {
        content: extended(message.content, piece.content),
        reasoning_content: extended(message.reasoning_content, piece.reasoning_content),
        tool_calls: if calls_in(piece).len() == 0 {
            message.tool_calls
        } else {
            Some(calls_pushed(calls_in(message), calls_in(piece)).0)
        },
    }
}

/// What is wrong with a piece of a message.
pub open spec fn message_error(message: PartialMessage, piece: PartialMessage) -> Option<
    Seq<Seq<char>>,
> {
    calls_pushed(calls_in(message), calls_in(piece)).1
}

/// The parameters once all has arrived, or what is missing.
pub open spec fn final_params(params: PartialParams) -> Result<ParamsView, Seq<char>> {
    match params {
        PartialParams::Function { name, arguments } => match (name, arguments) {
            (None, _) => Err("Missing function name"@),
            (_, None) => Err("Missing function arguments"@),
            (Some(name), Some(arguments)) => Ok(ParamsView::Function { name, arguments }),
        },
        PartialParams::Custom { name, input } => match (name, input) {
            (None, _) => Err("Missing tool name"@),
            (_, None) => Err("Missing tool input"@),
            (Some(name), Some(input)) => Ok(ParamsView::Custom { name, input }),
        },
    }
}

/// A call once all has arrived, or what is missing.
pub open spec fn final_call(call: PartialCall) -> Result<CallView, Seq<Seq<char>>> {
    let named = "Tool call "@ + decimal(call.index);
    match (call.id, call.params) {
        (None, _) => Err(seq![named + " has no ID"@]),
        (_, None) => Err(seq![named + " is empty"@]),
        (Some(id), Some(params)) => match final_params(params) {
            Ok(params) => Ok(CallView { id, params }),
            Err(error) => Err(seq![named, error]),
        },
    }
}

/// The calls once all has arrived, or what is wrong with the first that is incomplete.
pub open spec fn final_calls(calls: Seq<PartialCall>) -> Result<Seq<CallView>, Seq<Seq<char>>>
    decreases calls.len(),
{
    if calls.len() == 0 {
        Ok(seq![])
    } else {
        match final_calls(calls.drop_last()) {
            Err(error) => Err(error),
            Ok(done) => match final_call(calls.last()) {
                Err(error) => Err(error),
                Ok(call) => Ok(done.push(call)),
            },
        }
    }
}

/// A message once all has arrived, or what is missing.
pub open spec fn final_message(message: PartialMessage) -> Result<AssistantView, Seq<Seq<char>>> {
    match final_calls(calls_in(message)) {
        Err(error) => Err(error),
        Ok(calls) => Ok(
            AssistantView {
                content: message.content,
                reasoning_content: message.reasoning_content,
                tool_calls: if message.tool_calls is Some {
                    Some(calls)
                } else {
                    None
                },
            },
        ),
    }
}

/// The message before anything arrived.
pub open spec fn nothing_yet() -> PartialMessage {
    PartialMessage { content: None, reasoning_content: None, tool_calls: None }
}

/// Appends a piece to a text.
fn extend_text(text: &mut Option<String>, piece: &Option<String>)
    ensures
        text_of(*final(text)) == extended(text_of(*old(text)), text_of(*piece)),
{
    match piece {
        Some(piece) => {
            let mut all = match text.take() {
                Some(all) => all,
                None => String::new(),
            };
            all.append(piece.as_str());
            proof {
                assert(Seq::<char>::empty() + piece@ =~= piece@);
            }
            *text = Some(all);
        },
        None => {},
    }
}

/// Appends the debug form of an optional string.
fn push_debug_option(out: &mut String, text: &Option<String>)
    ensures
        final(out)@ == old(out)@ + debug_option(text_of(*text)),
{
    let ghost start = out@;
    match text {
        Some(text) => {
            out.append("Some(");
            let quoted = debug_text(text.as_str());
            out.append(quoted.as_str());
            out.append(")");
        },
        None => {
            out.append("None");
        },
    }
    assert(out@ =~= start + debug_option(text_of(*text)));
}

impl StreamingFunctionCall {
    /// Apply a delta to this object.
    pub fn push(&mut self, delta: &Self)
        ensures
            text_of(final(self).name) == extended(text_of(old(self).name), text_of(delta.name)),
            text_of(final(self).arguments) == extended(
                text_of(old(self).arguments),
                text_of(delta.arguments),
            ),
    {
        extend_text(&mut self.name, &delta.name);
        extend_text(&mut self.arguments, &delta.arguments);
    }

    /// Turn the object into the non-streaming variant.
    pub fn finalize(self) -> (r: Result<FunctionCall, String>)
        ensures
            match r {
                Ok(call) => self.name == Some(call.name) && self.arguments == Some(call.arguments),
                Err(error) => if self.name is None {
                    error@ == "Missing function name"@
                } else {
                    self.arguments is None && error@ == "Missing function arguments"@
                },
            },
    {
        match self.name {
            None => Err("Missing function name".to_string()),
            Some(name) => match self.arguments {
                None => Err("Missing function arguments".to_string()),
                Some(arguments) => Ok(FunctionCall { name, arguments }),
            },
        }
    }
}

impl StreamingCustomCall {
    /// Apply a delta to this object.
    pub fn push(&mut self, delta: &Self)
        ensures
            text_of(final(self).name) == extended(text_of(old(self).name), text_of(delta.name)),
            text_of(final(self).input) == extended(text_of(old(self).input), text_of(delta.input)),
    {
        extend_text(&mut self.name, &delta.name);
        extend_text(&mut self.input, &delta.input);
    }

    /// Turn the object into the non-streaming variant.
    pub fn finalize(self) -> (r: Result<CustomCall, String>)
        ensures
            match r {
                Ok(call) => self.name == Some(call.name) && self.input == Some(call.input),
                Err(error) => if self.name is None {
                    error@ == "Missing tool name"@
                } else {
                    self.input is None && error@ == "Missing tool input"@
                },
            },
    {
        match self.name {
            None => Err("Missing tool name".to_string()),
            Some(name) => match self.input {
                None => Err("Missing tool input".to_string()),
                Some(input) => Ok(CustomCall { name, input }),
            },
        }
    }
}

impl Clone for StreamingToolCallParams {
    fn clone(&self) -> (r: Self)
        ensures
            r == *self,
    {
        match self {
            StreamingToolCallParams::Function(call) => StreamingToolCallParams::Function(
                StreamingFunctionCall {
                    name: call.name.clone(),
                    arguments: call.arguments.clone(),
                },
            ),
            StreamingToolCallParams::Custom(call) => StreamingToolCallParams::Custom(
                StreamingCustomCall { name: call.name.clone(), input: call.input.clone() },
            ),
        }
    }
}

impl StreamingToolCallParams {
    /// Appends the debug form.
    fn push_debug(&self, out: &mut String)
        ensures
            final(out)@ == old(out)@ + debug_params(self@),
    {
        let ghost start = out@;
        match self {
            StreamingToolCallParams::Function(call) => {
                out.append("Function(StreamingFunctionCall { name: ");
                push_debug_option(out, &call.name);
                out.append(", arguments: ");
                push_debug_option(out, &call.arguments);
                out.append(" })");
            },
            StreamingToolCallParams::Custom(call) => {
                out.append("Custom(StreamingCustomCall { name: ");
                push_debug_option(out, &call.name);
                out.append(", input: ");
                push_debug_option(out, &call.input);
                out.append(" })");
            },
        }
        assert(out@ =~= start + debug_params(self@));
    }

    /// Apply a delta to this object. One of another kind is an error.
    pub fn push(&mut self, delta: &Self) -> (r: Result<(), String>)
        ensures
            final(self)@ == params_pushed(old(self)@, delta@),
            match r {
                Ok(()) => params_error(old(self)@, delta@) is None,
                Err(error) => params_error(old(self)@, delta@) == Some(error@),
            },
    {
        let mut message = String::new();
        let told = match (&*self, delta) {
            (StreamingToolCallParams::Custom(_), StreamingToolCallParams::Function(_)) => {
                "Non-function tool call updated with function data: "
            },
            (StreamingToolCallParams::Function(_), StreamingToolCallParams::Custom(_)) => {
                "Non-custom tool call updated with custom tool data: "
            },
            _ => {
                "" // the kinds agree
            },
        };
        match (&mut *self, delta) {
            (
                StreamingToolCallParams::Function(call),
                StreamingToolCallParams::Function(delta),
            ) => {
                call.push(delta);
                return Ok(());
            },
            (StreamingToolCallParams::Custom(call), StreamingToolCallParams::Custom(delta)) => {
                call.push(delta);
                return Ok(());
            },
            _ => {},
        }
        message.append(told);
        self.push_debug(&mut message);
        message.append(" -> ");
        delta.push_debug(&mut message);
        assert(message@ =~= told@ + debug_params(old(self)@) + " -> "@ + debug_params(delta@));
        Err(message)
    }

    /// Turn the object into the non-streaming variant.
    pub fn finalize(self) -> (r: Result<ToolCallParams, String>)
        ensures
            match r {
                Ok(params) => final_params(self@) == Ok::<ParamsView, Seq<char>>(params@),
                Err(error) => final_params(self@) == Err::<ParamsView, Seq<char>>(error@),
            },
    {
        match self {
            StreamingToolCallParams::Function(call) => match call.finalize() {
                Ok(function) => Ok(ToolCallParams::Function { function }),
                Err(error) => Err(error),
            },
            StreamingToolCallParams::Custom(call) => match call.finalize() {
                Ok(custom) => Ok(ToolCallParams::Custom { custom }),
                Err(error) => Err(error),
            },
        }
    }
}

impl StreamingToolCall {
    /// Apply a delta to this object. A second ID is an error, and so are parameters of another
    /// kind.
    pub fn push(&mut self, delta: &Self) -> (r: Result<(), String>)
        ensures
            final(self)@ == call_pushed(old(self)@, delta@),
            match r {
                Ok(()) => call_error(old(self)@, delta@) is None,
                Err(error) => call_error(old(self)@, delta@) == Some(error@),
            },
    {
        match &delta.id {
            Some(id) => {
                match &self.id {
                    Some(old_id) => {
                        let mut message = String::new();
                        message.append("ID set twice: ");
                        message.append(old_id.as_str());
                        message.append(" -> ");
                        message.append(id.as_str());
                        assert(message@ =~= "ID set twice: "@ + old_id@ + " -> "@ + id@);
                        return Err(message);
                    },
                    None => {},
                }
                self.id = Some(id.clone());
            },
            None => {},
        }
        match &delta.call {
            Some(call_delta) => match self.call.take() {
                Some(mut call) => {
                    let pushed = call.push(call_delta);
                    self.call = Some(call);
                    pushed
                },
                None => {
                    self.call = Some(call_delta.clone());
                    Ok(())
                },
            },
            None => Ok(()),
        }
    }

    /// Turn the object into the non-streaming variant.
    pub fn finalize(self) -> (r: Result<ToolCall, Failure>)
        ensures
            match r {
                Ok(call) => final_call(self@) == Ok::<CallView, Seq<Seq<char>>>(call@),
                Err(error) => final_call(self@) == Err::<CallView, Seq<Seq<char>>>(error@),
            },
    {
        let mut named = String::new();
        named.append("Tool call ");
        push_decimal(&mut named, self.index);
        let ghost shown = named@;
        proof {
            assert(shown =~= "Tool call "@ + decimal(self.index as nat));
        }
        match self.id {
            None => {
                named.append(" has no ID");
                Err(Failure::new(named))
            },
            Some(id) => match self.call {
                None => {
                    named.append(" is empty");
                    Err(Failure::new(named))
                },
                Some(call) => match call.finalize() {
                    Ok(call) => Ok(ToolCall { id, call }),
                    Err(error) => {
                        let failure = Failure::new(error).within(named);
                        assert(failure@ =~= seq![shown, error@]);
                        Err(failure)
                    },
                },
            },
        }
    }
}

impl Default for StreamingAssistantMessage {
    fn default() -> (r: Self)
        ensures
            r@ == nothing_yet(),
    {
        StreamingAssistantMessage { content: None, reasoning_content: None, tool_calls: None }
    }
}

/// Applies the piece of one call to a list of calls.
fn push_call(calls: &mut Vec<StreamingToolCall>, piece: &StreamingToolCall) -> (r: Result<
    (),
    Failure,
>)
    ensures
        partial_calls(final(calls)@) == calls_step((partial_calls(old(calls)@), None), piece@).0,
        match r {
            Ok(()) => calls_step((partial_calls(old(calls)@), None), piece@).1 is None,
            Err(error) => calls_step((partial_calls(old(calls)@), None), piece@).1 == Some(error@),
        },
{
    let ghost start = partial_calls(calls@);
    let index: usize = piece.index;
    while calls.len() <= index
        invariant
            calls@.len() <= index + 1 || partial_calls(calls@) == start,
            calls@.len() >= start.len(),
            partial_calls(calls@) == padded(start, calls@.len() as nat),
        decreases index + 1 - calls@.len(),
    {
        let ghost before = calls@;
        let len: usize = calls.len();
        calls.push(StreamingToolCall { index: len, id: None, call: None });
        proof {
            assert(partial_calls(calls@) =~= partial_calls(before).push(
                PartialCall { index: before.len() as nat, id: None, params: None },
            ));
            assert(partial_calls(calls@) =~= padded(start, calls@.len() as nat));
        }
    }
    proof {
        assert(partial_calls(calls@) =~= padded(start, index as nat + 1));
    }
    let ghost before = calls@;
    let pushed = calls[index].push(piece);
    proof {
        assert(partial_calls(calls@) =~= partial_calls(before).update(
            index as int,
            call_pushed(before[index as int]@, piece@),
        ));
    }
    match pushed {
        Ok(()) => Ok(()),
        Err(error) => {
            let mut context = String::new();
            context.append("Tool call at index ");
            push_decimal(&mut context, index);
            proof {
                assert(context@ =~= "Tool call at index "@ + decimal(index as nat));
            }
            let ghost told = error@;
            let failure = Failure::new(error).within(context);
            assert(failure@ =~= seq!["Tool call at index "@ + decimal(index as nat), told]);
            Err(failure)
        },
    }
}

impl StreamingAssistantMessage {
    /// Apply a delta to this object: texts grow by the delta's, and each piece of a tool call is
    /// applied to the call at its index. The first piece of a call that is wrong is an error.
    pub fn push(&mut self, delta: &Self) -> (r: Result<(), Failure>)
        ensures
            final(self)@ == message_pushed(old(self)@, delta@),
            match r {
                Ok(()) => message_error(old(self)@, delta@) is None,
                Err(error) => message_error(old(self)@, delta@) == Some(error@),
            },
    {
        extend_text(&mut self.content, &delta.content);
        extend_text(&mut self.reasoning_content, &delta.reasoning_content);
        match &delta.tool_calls {
            Some(pieces) => {
                if pieces.len() == 0 {
                    return Ok(());
                }
                let mut calls = match self.tool_calls.take() {
                    Some(calls) => calls,
                    None => Vec::new(),
                };
                let ghost start = calls_in(old(self)@);
                let ghost all = partial_calls(pieces@);
                assert(partial_calls(calls@) =~= start);
                let mut error: Option<Failure> = None;
                for i in 0..pieces.len()
                    invariant
                        all == partial_calls(pieces@),
                        partial_calls(calls@) == calls_pushed(start, all.take(i as int)).0,
                        match error {
                            Some(error) => calls_pushed(start, all.take(i as int)).1 == Some(
                                error@,
                            ),
                            None => calls_pushed(start, all.take(i as int)).1 is None,
                        },
                {
                    proof {
                        assert(all.take(i + 1).drop_last() =~= all.take(i as int));
                        assert(all.take(i + 1).last() == pieces@[i as int]@);
                    }
                    if error.is_none() {
                        match push_call(&mut calls, &pieces[i]) {
                            Ok(()) => {},
                            Err(failure) => {
                                error = Some(failure);
                            },
                        }
                    }
                }
                proof {
                    assert(all.take(all.len() as int) =~= all);
                }
                self.tool_calls = Some(calls);
                match error {
                    Some(failure) => Err(failure),
                    None => Ok(()),
                }
            },
            None => Ok(()),
        }
    }

    /// Turn the object into the non-streaming variant. A tool call that is not complete is an
    /// error.
    pub fn finalize(self) -> (r: Result<AssistantMessage, Failure>)
        ensures
            match r {
                Ok(message) => final_message(self@) == Ok::<AssistantView, Seq<Seq<char>>>(
                    message@,
                ),
                Err(error) => final_message(self@) == Err::<AssistantView, Seq<Seq<char>>>(error@),
            },
    {
        let ghost pieces = calls_in(self@);
        let tool_calls = match self.tool_calls {
            Some(calls) => {
                let ghost given = calls@;
                let mut done: Vec<ToolCall> = Vec::new();
                proof {
                    assert(pieces.take(0) =~= seq![]);
                    assert(calls_view(done@) =~= seq![]);
                }
                for call in it: calls.into_iter()
                    invariant
                        it.seq() == given,
                        pieces == calls_in(self@),
                        pieces == partial_calls(given),
                        done@.len() == it.index(),
                        final_calls(pieces.take(done@.len() as int)) == Ok::<
                            Seq<CallView>,
                            Seq<Seq<char>>,
                        >(calls_view(done@)),
                {
                    let ghost n = done@.len() as int;
                    let ghost before = done@;
                    proof {
                        assert(call == given[n]);
                        assert(pieces.take(n + 1).drop_last() =~= pieces.take(n));
                        assert(pieces.take(n + 1).last() == call@);
                    }
                    match call.finalize() {
                        Ok(call) => {
                            done.push(call);
                            proof {
                                assert(calls_view(done@) =~= calls_view(before).push(call@));
                            }
                        },
                        Err(error) => {
                            proof {
                                lemma_first_incomplete(pieces, n + 1);
                            }
                            return Err(error);
                        },
                    }
                }
                assert(pieces.take(pieces.len() as int) =~= pieces);
                Some(done)
            },
            None => None,
        };
        Ok(
            AssistantMessage {
                content: self.content,
                reasoning_content: self.reasoning_content,
                tool_calls,
            },
        )
    }
}

/// A list of calls fails to be complete as its first part does.
proof fn lemma_first_incomplete(calls: Seq<PartialCall>, k: int)
    requires
        0 <= k <= calls.len(),
        final_calls(calls.take(k)) is Err,
    ensures
        final_calls(calls) == final_calls(calls.take(k)),
    decreases calls.len() - k,
{
    if k < calls.len() {
        assert(calls.take(k + 1).drop_last() =~= calls.take(k));
        lemma_first_incomplete(calls, k + 1);
    } else {
        assert(calls.take(k) =~= calls);
    }
}

/// The texts among a list of optional pieces.
pub open spec fn present(pieces: Seq<Option<Seq<char>>>) -> Seq<Seq<char>>
    decreases pieces.len(),
{
    if pieces.len() == 0 {
        seq![]
    } else {
        match pieces.last() {
            Some(piece) => present(pieces.drop_last()).push(piece),
            None => present(pieces.drop_last()),
        }
    }
}

/// A text after all of a list of pieces arrived, the first of them first.
pub open spec fn streamed(pieces: Seq<Option<Seq<char>>>) -> Option<Seq<char>>
    decreases pieces.len(),
{
    if pieces.len() == 0 {
        None
    } else {
        extended(streamed(pieces.drop_last()), pieces.last())
    }
}

/// A streamed text is made up of its pieces, in the order of their arrival; it is there as soon as
/// one piece, be it empty, has arrived.
pub proof fn streamed_text_is_its_pieces(pieces: Seq<Option<Seq<char>>>)
    ensures
        streamed(pieces) == if present(pieces).len() == 0 {
            None
        } else {
            Some(concat(present(pieces)))
        },
    decreases pieces.len(),
{
    if pieces.len() > 0 {
        streamed_text_is_its_pieces(pieces.drop_last());
        match pieces.last() {
            Some(piece) => {
                let before = present(pieces.drop_last());
                crate::text::lemma_concat_push(before, piece);
                if before.len() == 0 {
                    assert(concat(before) + piece =~= piece);
                }
            },
            None => {},
        }
    }
}

/// A piece of a tool call goes to the call at its index, and to no other. Where there is no such call
/// yet the list is filled up to it with calls of which nothing has arrived.
pub proof fn pieces_go_to_the_call_at_their_index(
    calls: Seq<PartialCall>,
    piece: PartialCall,
    i: int,
)
    ensures
        ({
            let after = calls_step((calls, None), piece).0;
            let nothing = PartialCall { index: i as nat, id: None, params: None };
            &&& after.len() == if calls.len() > piece.index {
                calls.len()
            } else {
                piece.index + 1
            }
            &&& 0 <= i < calls.len() && i != piece.index ==> after[i] == calls[i]
            &&& calls.len() <= i < piece.index ==> after[i] == nothing
            &&& i == piece.index && i < calls.len() ==> after[i] == call_pushed(calls[i], piece)
            &&& i == piece.index && i >= calls.len() ==> after[i] == call_pushed(nothing, piece)
        }),
{
}

/// A piece of a call gives it an ID and adds to its texts: what arrives of a name, of arguments or of
/// an input is put behind what has arrived of it already.
pub proof fn pieces_add_to_their_call(call: PartialCall, piece: PartialCall)
    requires
        call_error(call, piece) is None,
    ensures
        ({
            let after = call_pushed(call, piece);
            &&& after.index == call.index
            &&& piece.id is Some ==> after.id == piece.id
            &&& piece.id is None ==> after.id == call.id
            &&& call.params is None ==> after.params == piece.params
            &&& piece.params is None ==> after.params == call.params
            &&& match (call.params, piece.params) {
                (
                    Some(PartialParams::Function { name: Some(name), arguments: Some(arguments) }),
                    Some(PartialParams::Function { name: None, arguments: Some(more) }),
                ) => after.params == Some(
                    PartialParams::Function { name: Some(name), arguments: Some(arguments + more) },
                ),
                (
                    Some(PartialParams::Function { name: Some(name), arguments: None }),
                    Some(PartialParams::Function { name: Some(rest), arguments }),
                ) => after.params == Some(
                    PartialParams::Function { name: Some(name + rest), arguments },
                ),
                (
                    Some(PartialParams::Custom { name: Some(name), input: Some(input) }),
                    Some(PartialParams::Custom { name: None, input: Some(more) }),
                ) => after.params == Some(
                    PartialParams::Custom { name: Some(name), input: Some(input + more) },
                ),
                _ => true,
            }
        }),
{
}

/// A piece is wrong for a call exactly if both have an ID, or if one is for a function and the other
/// for a custom tool; a call for which a piece is wrong in its ID stays as it is.
pub proof fn pieces_that_do_not_fit_are_errors(call: PartialCall, piece: PartialCall)
    ensures
        call_error(call, piece) is Some <==> {
            ||| call.id is Some && piece.id is Some
            ||| call.params is Some && piece.params is Some && (call.params->0 is Function) != (
            piece.params->0 is Function)
        },
        call.id is Some && piece.id is Some ==> call_pushed(call, piece) == call,
{
}

/// A call is complete exactly if its ID, its name and its arguments or input have arrived; then it has
/// just these.
pub proof fn complete_calls_have_all_their_parts(call: PartialCall)
    ensures
        final_call(call) is Ok <==> {
            &&& call.id is Some
            &&& call.params is Some
            &&& match call.params->0 {
                PartialParams::Function { name, arguments } => name is Some && arguments is Some,
                PartialParams::Custom { name, input } => name is Some && input is Some,
            }
        },
        final_call(call) is Ok ==> {
            &&& final_call(call)->Ok_0.id == call.id->0
            &&& match call.params->0 {
                PartialParams::Function { name, arguments } => final_call(call)->Ok_0.params
                    == ParamsView::Function { name: name->0, arguments: arguments->0 },
                PartialParams::Custom { name, input } => final_call(call)->Ok_0.params
                    == ParamsView::Custom { name: name->0, input: input->0 },
            }
        },
{
}

/// The calls of a message are complete exactly if each is, and keep their order; else the first that
/// is not tells what is wrong.
pub proof fn complete_messages_have_all_their_calls(calls: Seq<PartialCall>, i: int)
    requires
        0 <= i < calls.len(),
    ensures
        final_calls(calls) is Ok ==> {
            &&& final_calls(calls)->Ok_0.len() == calls.len()
            &&& final_call(calls[i]) == Ok::<CallView, Seq<Seq<char>>>(final_calls(calls)->Ok_0[i])
        },
        final_calls(calls) is Err && (forall|j: int|
            0 <= j < i ==> final_call(#[trigger] calls[j]) is Ok) && final_call(calls[i]) is Err
            ==> final_calls(calls)->Err_0 == final_call(calls[i])->Err_0,
        final_call(calls[i]) is Err ==> final_calls(calls) is Err,
    decreases calls.len(),
{
    let fewer = calls.drop_last();
    if i < fewer.len() {
        complete_messages_have_all_their_calls(fewer, i);
        assert(fewer[i] == calls[i]);
        if forall|j: int| 0 <= j < i ==> final_call(#[trigger] calls[j]) is Ok {
            assert forall|j: int| 0 <= j < i implies final_call(#[trigger] fewer[j]) is Ok by {
                assert(fewer[j] == calls[j]);
            }
        }
    } else {
        lemma_all_complete(fewer);
        if forall|j: int| 0 <= j < i ==> final_call(#[trigger] calls[j]) is Ok {
            assert forall|j: int| 0 <= j < fewer.len() implies final_call(
                #[trigger] fewer[j],
            ) is Ok by {
                assert(fewer[j] == calls[j]);
            }
        }
    }
}

/// Calls that are complete make a complete list.
proof fn lemma_all_complete(calls: Seq<PartialCall>)
    ensures
        final_calls(calls) is Ok ==> final_calls(calls)->Ok_0.len() == calls.len(),
        (forall|j: int| 0 <= j < calls.len() ==> final_call(#[trigger] calls[j]) is Ok)
            ==> final_calls(calls) is Ok,
    decreases calls.len(),
{
    if calls.len() > 0 {
        let fewer = calls.drop_last();
        lemma_all_complete(fewer);
        if forall|j: int| 0 <= j < calls.len() ==> final_call(#[trigger] calls[j]) is Ok {
            assert forall|j: int| 0 <= j < fewer.len() implies final_call(
                #[trigger] fewer[j],
            ) is Ok by {
                assert(fewer[j] == calls[j]);
            }
            assert(final_call(calls[calls.len() - 1]) is Ok);
        }
    }
}

/// Calls that are all complete make a complete message, with the texts that have arrived.
pub proof fn complete_messages_keep_their_texts(message: PartialMessage)
    ensures
        final_message(message) is Ok <==> forall|j: int|
            0 <= j < calls_in(message).len() ==> final_call(#[trigger] calls_in(message)[j]) is Ok,
        final_message(message) is Ok ==> {
            &&& final_message(message)->Ok_0.content == message.content
            &&& final_message(message)->Ok_0.reasoning_content == message.reasoning_content
            &&& final_message(message)->Ok_0.tool_calls is Some <==> message.tool_calls is Some
            &&& message.tool_calls is Some ==> final_message(message)->Ok_0.tool_calls->0.len()
                == message.tool_calls->0.len()
        },
{
    let calls = calls_in(message);
    lemma_all_complete(calls);
    if final_calls(calls) is Ok {
        assert forall|j: int| 0 <= j < calls.len() implies final_call(#[trigger] calls[j]) is Ok by {
            complete_messages_have_all_their_calls(calls, j);
        }
    }
}

/// Pieces of several calls are taken in one after the other, up to the first that is wrong.
pub proof fn pieces_are_taken_in_order(
    calls: Seq<PartialCall>,
    first: Seq<PartialCall>,
    second: Seq<PartialCall>,
)
    requires
        calls_pushed(calls, first).1 is None,
    ensures
        calls_pushed(calls, first + second) == calls_pushed(calls_pushed(calls, first).0, second),
    decreases second.len(),
{
    if second.len() == 0 {
        assert(first + second =~= first);
    } else {
        pieces_are_taken_in_order(calls, first, second.drop_last());
        assert((first + second).drop_last() =~= first + second.drop_last());
        assert((first + second).last() == second.last());
    }
}

/// A piece of a message adds to its texts what it has of them, and its calls to the calls; what it does
/// not have stays as it is.
pub proof fn pieces_add_to_the_message(message: PartialMessage, piece: PartialMessage)
    ensures
        ({
            let after = message_pushed(message, piece);
            &&& piece.content is None ==> after.content == message.content
            &&& piece.reasoning_content is None ==> after.reasoning_content
                == message.reasoning_content
            &&& piece.content is Some && message.content is Some ==> after.content == Some(
                message.content->0 + piece.content->0,
            )
            &&& piece.content is Some && message.content is None ==> after.content == piece.content
            &&& piece.reasoning_content is Some && message.reasoning_content is Some
                ==> after.reasoning_content == Some(
                message.reasoning_content->0 + piece.reasoning_content->0,
            )
            &&& piece.reasoning_content is Some && message.reasoning_content is None
                ==> after.reasoning_content == piece.reasoning_content
            &&& (piece.tool_calls is None || piece.tool_calls->0.len() == 0) ==> after.tool_calls
                == message.tool_calls && message_error(message, piece) is None
            &&& piece.tool_calls is Some && piece.tool_calls->0.len() > 0 ==> after.tool_calls is Some
            &&& piece.tool_calls is Some && piece.tool_calls->0.len() == 1 ==> {
                let one = piece.tool_calls->0[0];
                let before = match message.tool_calls {
                    Some(calls) => calls,
                    None => seq![],
                };
                &&& after.tool_calls->0 == calls_step((before, None), one).0
                &&& message_error(message, piece) == calls_step((before, None), one).1
            }
        }),
{
    if piece.tool_calls is Some && piece.tool_calls->0.len() == 1 {
        let pieces = piece.tool_calls->0;
        let before = calls_in(message);
        assert(pieces.drop_last() =~= seq![]);
        assert(calls_pushed(before, pieces.drop_last()) == (before, None::<Seq<Seq<char>>>));
        assert(pieces.last() == pieces[0]);
    }
}

} // verus!
