//! The answer to a chat request as it is streamed: from bytes to pieces of text, and to the message
//! that they make up.

use crate::client::TokenUsage;
use crate::delta::{
    final_message, message_error, message_pushed, nothing_yet, PartialMessage,
    StreamingAssistantMessage,
};
use crate::failure::Failure;
use crate::line_format::{AssistantMessage, AssistantView};
use crate::newline_split::{
    first_line, lemma_newline_at, lemma_newline_found, newline_at, utf8_error, LineStep,
    NewlineSplit,
};
use crate::text::{
    after_prefix, is_blank, is_white_space, same_text, strip_prefix, stripping_undoes_prefixing,
    trim, trim_start, trimmed, trimmed_start, trimming_leaves_what_is_between,
};
use std::collections::VecDeque;
use vstd::prelude::*;
use vstd::utf8::{decode_utf8, valid_utf8};

verus! {

/// Single chunk of a streamed chat completion request
#[derive(Debug)]
pub enum StreamingChunk {
    /// Normal text output
    Content(String),
    /// Internal reasoning text
    Reasoning(String),
}

/// One event of the stream
#[derive(Debug)]
pub struct StreamChunk {
    /// Streamed assistant message
    pub choices: Vec<StreamChoice>,
    /// Token usage (before `[DONE]`)
    pub usage: Option<UsagePayload>,
}

/// Token usage as reported by the LLM
#[derive(Clone, Copy, Debug)]
pub struct UsagePayload {
    /// Tokens in the prompt
    pub prompt_tokens: u32,
    /// New tokens produced
    pub completion_tokens: u32,
}

/// Streamed assistant message
#[derive(Debug)]
pub struct StreamChoice {
    /// Delta to apply to the assistant message
    pub delta: StreamingAssistantMessage,
}

/// What happened outside since the last chunk was asked for
#[derive(Debug)]
pub enum StreamEvent {
    /// Nothing
    Idle,
    /// More bytes came in
    Bytes(Vec<u8>),
    /// No more bytes come in
    Ended,
    /// The source of the bytes failed with this error
    Broken(String),
    /// The event that was to be parsed, parsed
    Parsed(StreamChunk),
    /// The event that was to be parsed is not valid, because of this error
    Invalid(String),
}

/// What comes of asking for the next chunk
#[derive(Debug)]
pub enum StreamStep {
    /// A chunk
    Chunk(StreamingChunk),
    /// This event is to be parsed
    Parse(String),
    /// More bytes are needed
    NeedBytes,
    /// There are no more chunks, and the full message is there
    Finished,
    /// There are no more chunks, because of this error
    Failed(Failure),
}

/// Streamable result for a chat completion request
#[derive(Debug)]
pub struct StreamingResult {
    /// Source stream
    stream: NewlineSplit,
    /// Not-yet returned stream chunks
    chunks: VecDeque<StreamingChunk>,
    /// Set once `[DONE]` has been received
    done: bool,
    /// Set while the last call for a chunk waits for an answer
    waiting: bool,
    /// The full message, as it is being constructed
    constructing: StreamingAssistantMessage,
    /// The actual full message after `[DONE]`
    full_message: Option<AssistantMessage>,
    /// Token usage for the whole request
    token_usage: TokenUsage,
    /// Token usage as last reported in this request
    reported: Option<TokenUsage>,
}

/// The payload of a line, where it is an event: what follows `data:`.
pub open spec fn data_of(line: Seq<char>) -> Option<Seq<char>> {
    match strip_prefix(trim(line), "data:"@) {
        Some(data) => Some(trim_start(data)),
        None => None,
    }
}

/// What is found when the lines that came in are searched for an event.
pub enum Scan {
    /// An event with this payload, before these bytes
    Data { data: Seq<char>, rest: Seq<u8> },
    /// The event that ends the stream
    Done,
    /// No event; these bytes are not yet a line
    NeedBytes { rest: Seq<u8> },
    /// No event, and no more bytes to come
    Ended,
    /// A line that is not UTF-8
    Unreadable { error: Seq<char> },
}

/// The first event in what came in. Lines that are no events are passed over.
pub open spec fn scan(bytes: Seq<u8>, eof: bool) -> Scan
    decreases bytes.len(),
{
    match first_line(bytes, eof) {
        None => if eof {
            Scan::Ended
        } else {
            Scan::NeedBytes { rest: bytes }
        },
        Some((line, rest)) => if !valid_utf8(line) {
            Scan::Unreadable { error: utf8_error(line) }
        } else {
            match data_of(decode_utf8(line)) {
                None => scan(rest, eof),
                Some(data) => if data == "[DONE]"@ {
                    Scan::Done
                } else {
                    Scan::Data { data, rest }
                },
            }
        },
    }
}

/// The chunks that a delta gives: its content, then its reasoning.
pub open spec fn delta_chunks(delta: StreamingAssistantMessage) -> Seq<StreamingChunk> {
    (match delta.content {
        Some(text) => seq![StreamingChunk::Content(text)],
        None => seq![],
    }) + (match delta.reasoning_content {
        Some(text) => seq![StreamingChunk::Reasoning(text)],
        None => seq![],
    })
}

/// What choices change.
pub struct Applied {
    /// The message as far as it is constructed
    pub message: PartialMessage,
    /// The chunks to be returned
    pub chunks: Seq<StreamingChunk>,
    /// The number of streamed tokens
    pub tokens: usize,
    /// What is wrong, if anything is
    pub error: Option<Seq<Seq<char>>>,
}

/// After one more choice; nothing changes once something is wrong.
pub open spec fn choice_applied(state: Applied, choice: StreamChoice) -> Applied {
    if state.error is Some {
        state
    } else {
        let error = message_error(state.message, choice.delta@);
        Applied {
            message: message_pushed(state.message, choice.delta@),
            chunks: if error is Some {
                state.chunks
            } else {
                state.chunks + delta_chunks(choice.delta)
            },
            tokens: state.tokens.wrapping_add(1),
            error,
        }
    }
}

/// After choices, the first of them first.
pub open spec fn choices_applied(state: Applied, choices: Seq<StreamChoice>) -> Applied
    decreases choices.len(),
{
    if choices.len() == 0 {
        state
    } else {
        choice_applied(choices_applied(state, choices.drop_last()), choices.last())
    }
}

/// The state of a streamed answer.
pub struct StreamState {
    /// The bytes that came in and were not yet read
    pub unread: Seq<u8>,
    /// Whether no more bytes come in
    pub ended: bool,
    /// The chunks not yet returned
    pub chunks: Seq<StreamingChunk>,
    /// Whether `[DONE]` has been received
    pub done: bool,
    /// Whether the last call for a chunk waits for an answer
    pub waiting: bool,
    /// The message as far as it is constructed
    pub constructing: PartialMessage,
    /// The full message
    pub full: Option<AssistantView>,
    /// The token counts
    pub usage: TokenUsage,
    /// The token counts that were last reported in this request, if any were
    pub reported: Option<TokenUsage>,
}

/// The token counts that a report gives.
pub open spec fn counts_reported(usage: UsagePayload) -> TokenUsage {
    TokenUsage {
        prompt_tokens: usage.prompt_tokens as usize,
        completion_tokens: usage.completion_tokens as usize,
        streamed_tokens: 0,
    }
}

/// What comes of asking for the next chunk, in texts.
pub enum StepView {
    /// A chunk
    Chunk(StreamingChunk),
    /// An event to be parsed
    Parse(Seq<char>),
    /// More bytes are needed
    NeedBytes,
    /// The full message is there
    Finished,
    /// There was an error
    Failed(Seq<Seq<char>>),
}

impl View for StreamStep {
    type V = StepView;

    open spec fn view(&self) -> StepView {
        match self {
            StreamStep::Chunk(chunk) => StepView::Chunk(*chunk),
            StreamStep::Parse(data) => StepView::Parse(data@),
            StreamStep::NeedBytes => StepView::NeedBytes,
            StreamStep::Finished => StepView::Finished,
            StreamStep::Failed(error) => StepView::Failed(error@),
        }
    }
}

impl StreamState {
    /// Before anything came in.
    pub open spec fn fresh(usage: TokenUsage) -> Self {
        StreamState {
            unread: seq![],
            ended: false,
            chunks: seq![],
            done: false,
            waiting: false,
            constructing: nothing_yet(),
            full: None,
            usage,
            reported: None,
        }
    }

    /// Whether there is nothing left, and nothing to come.
    pub open spec fn terminated(self) -> bool {
        self.chunks.len() == 0 && self.unread.len() == 0 && self.ended
    }

    /// Nothing is left, and nothing to come.
    pub open spec fn closed(self) -> Self {
        StreamState { unread: seq![], ended: true, chunks: seq![], waiting: false, ..self }
    }

    /// All has come in: the message is complete, or it is an error that it is not.
    pub open spec fn concluded(self) -> (Self, StepView) {
        let over = StreamState { done: true, constructing: nothing_yet(), ..self.closed() };
        match final_message(self.constructing) {
            Ok(message) => (StreamState { full: Some(message), ..over }, StepView::Finished),
            Err(error) => (
                over,
                StepView::Failed(seq!["constructing finalized message"@] + error),
            ),
        }
    }

    /// The next chunk, or what is needed to get it.
    pub open spec fn polled(self) -> (Self, StepView) {
        if !self.waiting && self.terminated() {
            (self, StepView::Failed(seq!["Stream is terminated"@]))
        } else if self.chunks.len() > 0 {
            (
                StreamState { chunks: self.chunks.skip(1), waiting: false, ..self },
                StepView::Chunk(self.chunks[0]),
            )
        } else if self.done {
            self.concluded()
        } else {
            match scan(self.unread, self.ended) {
                Scan::Done => self.concluded(),
                Scan::Data { data, rest } => (
                    StreamState { unread: rest, waiting: true, ..self },
                    StepView::Parse(data),
                ),
                Scan::NeedBytes { rest } => (
                    StreamState { unread: rest, waiting: true, ..self },
                    StepView::NeedBytes,
                ),
                Scan::Ended => (
                    self.closed(),
                    StepView::Failed(seq!["completion stream ended before being done"@]),
                ),
                Scan::Unreadable { error } => (
                    self.closed(),
                    StepView::Failed(seq!["reading completion stream"@, error]),
                ),
            }
        }
    }

    /// What is needed, or what the end is, once all chunks have been passed over.
    pub open spec fn passed_over(self) -> (Self, StepView)
        decreases self.chunks.len(),
    {
        let (next, step) = self.polled();
        if step is Chunk {
            next.passed_over()
        } else {
            (next, step)
        }
    }

    /// An event of the stream: its choices add to the message and give chunks, and each counts as
    /// a token until the event that reports the token usage.
    pub open spec fn applied(self, chunk: StreamChunk) -> (Self, Option<Seq<Seq<char>>>) {
        let applied = choices_applied(
            Applied {
                message: self.constructing,
                chunks: self.chunks,
                tokens: self.usage.streamed_tokens,
                error: None,
            },
            chunk.choices@,
        );
        let counted = TokenUsage {
            prompt_tokens: self.usage.prompt_tokens,
            completion_tokens: self.usage.completion_tokens,
            streamed_tokens: applied.tokens,
        };
        if applied.error is Some {
            (
                StreamState { constructing: applied.message, usage: counted, ..self.closed() },
                applied.error,
            )
        } else {
            (
                StreamState {
                    constructing: applied.message,
                    chunks: applied.chunks,
                    usage: match chunk.usage {
                        Some(usage) => counts_reported(usage),
                        None => counted,
                    },
                    reported: match chunk.usage {
                        Some(usage) => Some(counts_reported(usage)),
                        None => self.reported,
                    },
                    ..self
                },
                None,
            )
        }
    }

    /// After what happened outside, and the error that it is, if it is one.
    pub open spec fn told(self, event: StreamEvent) -> (Self, Option<Seq<Seq<char>>>) {
        match event {
            StreamEvent::Idle => (self, None),
            StreamEvent::Bytes(bytes) => (
                StreamState { unread: self.unread + bytes@, ..self },
                None,
            ),
            StreamEvent::Ended => (StreamState { ended: true, ..self }, None),
            StreamEvent::Broken(error) => (
                self.closed(),
                Some(seq!["reading completion stream"@, error@]),
            ),
            StreamEvent::Parsed(chunk) => self.applied(chunk),
            StreamEvent::Invalid(error) => (
                self.closed(),
                Some(seq!["completion stream invalid"@, error@]),
            ),
        }
    }
}

impl StreamingResult {
    /// The state.
    pub closed spec fn state(&self) -> StreamState {
        StreamState {
            unread: self.stream.unread(),
            ended: self.stream.ended(),
            chunks: self.chunks@,
            done: self.done,
            waiting: self.waiting,
            constructing: self.constructing@,
            full: match self.full_message {
                Some(message) => Some(message@),
                None => None,
            },
            usage: self.token_usage,
            reported: self.reported,
        }
    }

    /// Read and parse a stream, of which nothing has come in yet.
    pub fn from_stream(token_usage: &TokenUsage) -> (r: Self)
        ensures
            r.state() == StreamState::fresh(*token_usage),
    {
        let r = StreamingResult {
            stream: NewlineSplit::new(),
            chunks: VecDeque::new(),
            done: false,
            waiting: false,
            constructing: StreamingAssistantMessage::default(),
            full_message: None,
            token_usage: *token_usage,
            reported: None,
        };
        assert(r.chunks@ =~= seq![]);
        r
    }

    /// Return the full message after streaming is done.
    ///
    /// Will only return `Some(_)` once streaming is done and only if there was no error. Takes the
    /// full message, so will return it only once.
    pub fn full_message(&mut self) -> (r: Option<AssistantMessage>)
        ensures
            match r {
                Some(message) => old(self).state().full == Some(message@),
                None => old(self).state().full is None,
            },
            final(self).state() == (StreamState { full: None, ..old(self).state() }),
    {
        self.full_message.take()
    }

    /// Return the token counts.
    pub fn token_usage(&self) -> (r: TokenUsage)
        ensures
            r == self.state().usage,
    {
        self.token_usage
    }

    /// Return the token counts that were last reported in this request, if any were.
    pub fn reported_usage(&self) -> (r: Option<TokenUsage>)
        ensures
            r == self.state().reported,
    {
        self.reported
    }

    /// Whether there is nothing left, and nothing to come.
    pub fn is_terminated(&self) -> (r: bool)
        ensures
            r == self.state().terminated(),
    {
        self.chunks.len() == 0 && self.stream.is_terminated()
    }

    /// Mark as terminated (in case of error).
    fn terminate(&mut self)
        ensures
            final(self).state() == old(self).state().closed(),
    {
        self.stream.terminate();
        self.chunks.clear();
        self.waiting = false;
        assert(self.chunks@ =~= seq![]);
    }

    /// Takes in what happened outside.
    pub fn tell(&mut self, event: StreamEvent) -> (r: Result<(), Failure>)
        ensures
            final(self).state() == old(self).state().told(event).0,
            match r {
                Ok(()) => old(self).state().told(event).1 is None,
                Err(error) => old(self).state().told(event).1 == Some(error@),
            },
    {
        match event {
            StreamEvent::Idle => Ok(()),
            StreamEvent::Bytes(bytes) => {
                self.stream.feed(bytes.as_slice());
                Ok(())
            },
            StreamEvent::Ended => {
                self.stream.finish();
                Ok(())
            },
            StreamEvent::Broken(error) => {
                self.terminate();
                Err(due_to("reading completion stream", error))
            },
            StreamEvent::Parsed(chunk) => self.apply_chunk(chunk),
            StreamEvent::Invalid(error) => {
                self.terminate();
                Err(due_to("completion stream invalid", error))
            },
        }
    }

    /// The next chunk, or what is needed to get it.
    pub fn poll_next(&mut self) -> (r: StreamStep)
        ensures
            final(self).state() == old(self).state().polled().0,
            r@ == old(self).state().polled().1,
    {
        if !self.waiting && self.is_terminated() {
            return StreamStep::Failed(Failure::new("Stream is terminated".to_string()));
        }
        match self.chunks.pop_front() {
            Some(chunk) => {
                self.waiting = false;
                assert(self.chunks@ =~= old(self).chunks@.skip(1));
                return StreamStep::Chunk(chunk);
            },
            None => {},
        }
        while !self.done
            invariant
                self.chunks@ == old(self).chunks@,
                self.waiting == old(self).waiting,
                self.full_message == old(self).full_message,
                self.constructing == old(self).constructing,
                self.token_usage == old(self).token_usage,
                self.reported == old(self).reported,
                old(self).chunks@.len() == 0,
                old(self).waiting || !old(self).state().terminated(),
                if old(self).done {
                    self.done && self.stream == old(self).stream
                } else if self.done {
                    scan(old(self).stream.unread(), old(self).stream.ended()) is Done
                } else {
                    &&& self.stream.ended() == old(self).stream.ended()
                    &&& scan(self.stream.unread(), self.stream.ended()) == scan(
                        old(self).stream.unread(),
                        old(self).stream.ended(),
                    )
                },
            decreases self.stream.unread().len(),
        {
            let line = match self.stream.next_line() {
                LineStep::Line(line) => line,
                LineStep::Unreadable(error) => {
                    self.terminate();
                    return StreamStep::Failed(due_to("reading completion stream", error));
                },
                LineStep::Ended => {
                    self.terminate();
                    return StreamStep::Failed(
                        Failure::new("completion stream ended before being done".to_string()),
                    );
                },
                LineStep::NeedBytes => {
                    self.waiting = true;
                    return StreamStep::NeedBytes;
                },
            };
            let whole = trimmed(line.as_str());
            match after_prefix(whole.as_str(), "data:") {
                None => {},
                Some(data) => {
                    let data = trimmed_start(data.as_str());
                    if same_text(data.as_str(), "[DONE]") {
                        self.stream.terminate();
                        self.done = true;
                    } else {
                        self.waiting = true;
                        return StreamStep::Parse(data);
                    }
                },
            }
        }
        self.conclude()
    }

    /// All has come in: construct the full message.
    fn conclude(&mut self) -> (r: StreamStep)
        ensures
            final(self).state() == old(self).state().concluded().0,
            r@ == old(self).state().concluded().1,
    {
        self.done = true;
        let mut constructing = StreamingAssistantMessage::default();
        std::mem::swap(&mut constructing, &mut self.constructing);
        let step = match constructing.finalize() {
            Ok(message) => {
                self.full_message = Some(message);
                StreamStep::Finished
            },
            Err(error) => StreamStep::Failed(
                error.within("constructing finalized message".to_string()),
            ),
        };
        self.terminate();
        step
    }

    /// Apply an event of the stream.
    fn apply_chunk(&mut self, chunk: StreamChunk) -> (r: Result<(), Failure>)
        ensures
            final(self).state() == old(self).state().applied(chunk).0,
            match r {
                Ok(()) => old(self).state().applied(chunk).1 is None,
                Err(error) => old(self).state().applied(chunk).1 == Some(error@),
            },
    {
        let ghost start = Applied {
            message: self.constructing@,
            chunks: self.chunks@,
            tokens: self.token_usage.streamed_tokens,
            error: None,
        };
        let ghost choices = chunk.choices@;
        let mut error: Option<Failure> = None;
        for choice in it: chunk.choices.into_iter()
            invariant
                it.seq() == choices,
                self.full_message == old(self).full_message,
                self.done == old(self).done,
                self.waiting == old(self).waiting,
                self.stream == old(self).stream,
                self.reported == old(self).reported,
                self.token_usage.prompt_tokens == old(self).token_usage.prompt_tokens,
                self.token_usage.completion_tokens == old(self).token_usage.completion_tokens,
                ({
                    let applied = choices_applied(start, choices.take(it.index() as int));
                    &&& self.constructing@ == applied.message
                    &&& self.chunks@ == applied.chunks
                    &&& self.token_usage.streamed_tokens == applied.tokens
                    &&& match error {
                        Some(error) => applied.error == Some(error@),
                        None => applied.error is None,
                    }
                }),
        {
            proof {
                let i = it.index() as int;
                assert(choices.take(i + 1).drop_last() =~= choices.take(i));
                assert(choices.take(i + 1).last() == choice);
            }
            if error.is_none() {
                self.token_usage.streamed_tokens = self.token_usage.streamed_tokens.wrapping_add(1);
                match self.choice_received(choice) {
                    Ok(()) => {},
                    Err(failure) => {
                        error = Some(failure);
                    },
                }
            }
        }
        assert(choices.take(choices.len() as int) =~= choices);
        match error {
            Some(failure) => {
                self.terminate();
                return Err(failure);
            },
            None => {},
        }
        match chunk.usage {
            Some(usage) => {
                self.token_usage.prompt_tokens = usage.prompt_tokens as usize;
                self.token_usage.completion_tokens = usage.completion_tokens as usize;
                self.token_usage.streamed_tokens = 0;
                self.reported = Some(self.token_usage);
            },
            None => {},
        }
        Ok(())
    }

    /// Apply `choice` to the message that is being constructed.
    fn choice_received(&mut self, choice: StreamChoice) -> (r: Result<(), Failure>)
        ensures
            final(self).stream == old(self).stream,
            final(self).done == old(self).done,
            final(self).waiting == old(self).waiting,
            final(self).full_message == old(self).full_message,
            final(self).token_usage == old(self).token_usage,
            final(self).reported == old(self).reported,
            final(self).constructing@ == message_pushed(old(self).constructing@, choice.delta@),
            match r {
                Ok(()) => message_error(old(self).constructing@, choice.delta@) is None
                    && final(self).chunks@ == old(self).chunks@ + delta_chunks(choice.delta),
                Err(error) => message_error(old(self).constructing@, choice.delta@) == Some(error@)
                    && final(self).chunks@ == old(self).chunks@,
            },
    {
        match self.constructing.push(&choice.delta) {
            Ok(()) => {},
            Err(failure) => {
                return Err(failure);
            },
        }
        match choice.delta.content {
            Some(text) => {
                self.chunks.push_back(StreamingChunk::Content(text));
            },
            None => {},
        }
        match choice.delta.reasoning_content {
            Some(text) => {
                self.chunks.push_back(StreamingChunk::Reasoning(text));
            },
            None => {},
        }
        assert(self.chunks@ =~= old(self).chunks@ + delta_chunks(choice.delta));
        Ok(())
    }

    /// End the stream here, and construct the full message from what has arrived, if that is
    /// complete.
    pub fn force_finalize(&mut self)
        ensures
            final(self).state() == old(self).state().concluded().0,
    {
        let _ = self.conclude();
    }
}

/// An error that is due to another.
fn due_to(message: &str, cause: String) -> (r: Failure)
    ensures
        r@ == seq![message@, cause@],
{
    let ghost told = cause@;
    let failure = Failure::new(cause).within(message.to_string());
    assert(failure@ =~= seq![message@, told]);
    failure
}

/// The events do not depend on the pieces in which the bytes arrive: an event that was found among
/// the bytes `a` is found among all bytes too, with `b` still to be read, and where none was found
/// the search goes on as if all bytes had been there from the start.
pub proof fn events_do_not_depend_on_pieces(a: Seq<u8>, b: Seq<u8>, eof: bool)
    ensures
        match scan(a, false) {
            Scan::Data { data, rest } => scan(a + b, eof) == (Scan::Data { data, rest: rest + b }),
            Scan::NeedBytes { rest } => scan(a + b, eof) == scan(rest + b, eof),
            found => scan(a + b, eof) == found,
        },
    decreases a.len(),
{
    lemma_newline_found(a);
    let end = newline_at(a);
    if end < a.len() {
        let n = end as int + 1;
        let line = a.take(n);
        lemma_newline_at(a + b, end as int);
        assert((a + b).take(n) =~= line);
        assert((a + b).skip(n) =~= a.skip(n) + b);
        if valid_utf8(line) && data_of(decode_utf8(line)) is None {
            events_do_not_depend_on_pieces(a.skip(n), b, eof);
        }
    }
}

/// The full message is there once the stream is finished and there was no error, and not before:
/// neither what happens outside nor any other step brings it.
pub proof fn full_messages_come_with_the_end(state: StreamState, event: StreamEvent)
    requires
        state.full is None,
    ensures
        state.told(event).0.full is None,
        state.polled().0.full is Some <==> state.polled().1 is Finished,
        state.polled().1 is Finished ==> state.polled().0.terminated(),
{
}

/// A stream that has finished or failed stays ended: asking for more chunks is an error.
pub proof fn ended_streams_stay_ended(state: StreamState, event: StreamEvent)
    ensures
        state.told(event).1 is Some ==> state.told(event).0.polled() == (
            state.told(event).0,
            StepView::Failed(seq!["Stream is terminated"@]),
        ),
        state.polled().1 is Finished || state.polled().1 is Failed ==> state.polled().0.polled() == (
            state.polled().0,
            StepView::Failed(seq!["Stream is terminated"@]),
        ),
{
}

/// A line is an event exactly if it starts with `data:`, white space aside; its payload is what
/// follows, without the white space around it.
pub proof fn events_are_told_by_their_prefix(
    before: Seq<char>,
    gap: Seq<char>,
    payload: Seq<char>,
    after: Seq<char>,
)
    requires
        is_blank(before),
        is_blank(gap),
        is_blank(after),
        payload.len() > 0,
        !is_white_space(payload[0]),
        !is_white_space(payload.last()),
    ensures
        data_of(before + "data:"@ + gap + payload + after) == Some(payload),
        data_of(before + "data:"@ + after) == Some(Seq::<char>::empty()),
        data_of(before) is None,
        !"data:"@.is_prefix_of(payload) ==> data_of(before + payload + after) is None,
{
    reveal_strlit("data:");
    let mark = "data:"@;
    let none: Seq<char> = seq![];
    let core = mark + gap + payload;
    assert(core[0] == 'd');
    assert(core.last() == payload.last());
    trimming_leaves_what_is_between(before, core, after);
    assert(before + mark + gap + payload + after =~= before + core + after);
    stripping_undoes_prefixing(core, mark, gap + payload);
    assert(core =~= mark + (gap + payload));
    trimming_leaves_what_is_between(gap, payload, none);
    assert(mark.last() == ':');
    trimming_leaves_what_is_between(before, mark, after);
    stripping_undoes_prefixing(mark, mark, none);
    assert(mark =~= mark + none);
    trimming_leaves_what_is_between(none, none, none);
    assert(none + none =~= none);
    trimming_leaves_what_is_between(before, none, none);
    assert(before + none + none =~= before);
    if mark.is_prefix_of(none) {
        assert(mark.len() <= none.len());
    }
    trimming_leaves_what_is_between(before, payload, after);
}

/// Events are found line by line: a line that is no event is passed over, the payload of one that is
/// is handed out with what follows the line still to be read, and `[DONE]` ends the search.
pub proof fn lines_are_searched_one_by_one(line: Seq<u8>, rest: Seq<u8>, eof: bool)
    requires
        !line.contains(10),
        valid_utf8(line.push(10)),
    ensures
        ({
            let whole = line.push(10);
            let found = scan(whole + rest, eof);
            match data_of(decode_utf8(whole)) {
                None => found == scan(rest, eof),
                Some(data) => if data == "[DONE]"@ {
                    found is Done
                } else {
                    found == Scan::Data { data, rest }
                },
            }
        }),
{
    let whole = line.push(10);
    let all = whole + rest;
    let n = line.len() as int;
    assert forall|j: int| 0 <= j < n implies all[j] != 10 by {
        assert(all[j] == line[j]);
        if all[j] == 10 {
            assert(line.contains(10));
        }
    }
    assert(all[n] == 10);
    lemma_newline_at(all, n);
    assert(all.take(n + 1) =~= whole);
    assert(all.skip(n + 1) =~= rest);
}

/// Without a line there is no event: more bytes are needed as long as they can come, and the search
/// has ended once they cannot.
pub proof fn searches_end_with_the_lines(bytes: Seq<u8>)
    requires
        !bytes.contains(10),
    ensures
        scan(bytes, false) == (Scan::NeedBytes { rest: bytes }),
        scan(Seq::empty(), true) is Ended,
{
    assert(newline_at(bytes) == bytes.len()) by {
        lemma_newline_found(bytes);
        if newline_at(bytes) < bytes.len() {
            assert(bytes.contains(10));
        }
    }
}

/// Chunks are handed out in the order in which they came in, and before anything else is done.
pub proof fn chunks_are_handed_out_in_order(state: StreamState)
    requires
        state.chunks.len() > 0,
    ensures
        state.polled().1 == StepView::Chunk(state.chunks[0]),
        seq![state.chunks[0]] + state.polled().0.chunks == state.chunks,
        state.polled().0.unread == state.unread,
        state.polled().0.constructing == state.constructing,
        state.polled().0.usage == state.usage,
{
    assert(seq![state.chunks[0]] + state.chunks.skip(1) =~= state.chunks);
}

/// The number of tokens that choices count for.
proof fn lemma_choices_count(state: Applied, choices: Seq<StreamChoice>)
    requires
        state.error is None,
        state.tokens + choices.len() <= usize::MAX,
    ensures
        choices_applied(state, choices).tokens <= state.tokens + choices.len(),
        choices_applied(state, choices).error is None ==> choices_applied(state, choices).tokens
            == state.tokens + choices.len(),
    decreases choices.len(),
{
    if choices.len() > 0 {
        lemma_choices_count(state, choices.drop_last());
    }
}

/// Each choice counts as one streamed token until the usage is reported. A report replaces the counts:
/// there are as many tokens in the prompt and in the completion as it says, and none is streamed
/// beyond that.
pub proof fn tokens_are_counted_until_they_are_reported(state: StreamState, chunk: StreamChunk)
    requires
        state.usage.streamed_tokens + chunk.choices@.len() <= usize::MAX,
    ensures
        ({
            let (after, error) = state.applied(chunk);
            &&& error is None && chunk.usage is None ==> {
                &&& after.usage.streamed_tokens == state.usage.streamed_tokens
                    + chunk.choices@.len()
                &&& after.usage.prompt_tokens == state.usage.prompt_tokens
                &&& after.usage.completion_tokens == state.usage.completion_tokens
                &&& after.reported == state.reported
            }
            &&& error is None && chunk.usage is Some ==> {
                &&& after.usage.prompt_tokens == chunk.usage->0.prompt_tokens
                &&& after.usage.completion_tokens == chunk.usage->0.completion_tokens
                &&& after.usage.streamed_tokens == 0
                &&& after.reported == Some(after.usage)
            }
        }),
{
    let start = Applied {
        message: state.constructing,
        chunks: state.chunks,
        tokens: state.usage.streamed_tokens,
        error: None,
    };
    lemma_choices_count(start, chunk.choices@);
}

/// An event with one choice gives its content as a chunk, and then its reasoning, each where it is
/// there; and adds the same texts to the message.
pub proof fn choices_give_content_and_then_reasoning(
    state: StreamState,
    chunk: StreamChunk,
    choice: StreamChoice,
)
    requires
        chunk.choices@ == seq![choice],
        state.applied(chunk).1 is None,
    ensures
        ({
            let after = state.applied(chunk).0;
            &&& after.chunks == match (choice.delta.content, choice.delta.reasoning_content) {
                (Some(content), Some(reasoning)) => state.chunks.push(
                    StreamingChunk::Content(content),
                ).push(StreamingChunk::Reasoning(reasoning)),
                (Some(content), None) => state.chunks.push(StreamingChunk::Content(content)),
                (None, Some(reasoning)) => state.chunks.push(StreamingChunk::Reasoning(reasoning)),
                (None, None) => state.chunks,
            }
            &&& match choice.delta.content {
                Some(content) => after.constructing.content == Some(
                    (match state.constructing.content {
                        Some(before) => before,
                        None => seq![],
                    }) + content@,
                ),
                None => after.constructing.content == state.constructing.content,
            }
            &&& match choice.delta.reasoning_content {
                Some(reasoning) => after.constructing.reasoning_content == Some(
                    (match state.constructing.reasoning_content {
                        Some(before) => before,
                        None => seq![],
                    }) + reasoning@,
                ),
                None => after.constructing.reasoning_content
                    == state.constructing.reasoning_content,
            }
        }),
{
    let start = Applied {
        message: state.constructing,
        chunks: state.chunks,
        tokens: state.usage.streamed_tokens,
        error: None,
    };
    let after = state.applied(chunk).0;
    assert(seq![choice].drop_last() =~= seq![]);
    assert(choices_applied(start, seq![choice].drop_last()) == start);
    assert(seq![choice].last() == choice);
    assert(choices_applied(start, seq![choice]) == choice_applied(start, choice));
    let none: Seq<char> = seq![];
    match choice.delta.content {
        Some(content) => {
            assert(none + content@ =~= content@);
        },
        None => {},
    }
    match choice.delta.reasoning_content {
        Some(reasoning) => {
            assert(none + reasoning@ =~= reasoning@);
        },
        None => {},
    }
    assert(after.chunks =~= match (choice.delta.content, choice.delta.reasoning_content) {
        (Some(content), Some(reasoning)) => state.chunks.push(
            StreamingChunk::Content(content),
        ).push(StreamingChunk::Reasoning(reasoning)),
        (Some(content), None) => state.chunks.push(StreamingChunk::Content(content)),
        (None, Some(reasoning)) => state.chunks.push(StreamingChunk::Reasoning(reasoning)),
        (None, None) => state.chunks,
    });
}

/// Several choices of an event are applied one after the other.
pub proof fn choices_are_applied_in_order(
    state: Applied,
    first: Seq<StreamChoice>,
    second: Seq<StreamChoice>,
)
    ensures
        choices_applied(state, first + second) == choices_applied(
            choices_applied(state, first),
            second,
        ),
        choices_applied(state, first).error is Some ==> choices_applied(state, first + second)
            == choices_applied(state, first),
    decreases second.len(),
{
    if second.len() == 0 {
        assert(first + second =~= first);
    } else {
        choices_are_applied_in_order(state, first, second.drop_last());
        assert((first + second).drop_last() =~= first + second.drop_last());
        assert((first + second).last() == second.last());
    }
}

/// Bytes that come in are read after those that are there, and an end or a failure of their source is
/// taken note of.
pub proof fn what_happens_outside_is_taken_in(state: StreamState, bytes: Vec<u8>, error: String)
    ensures
        state.told(StreamEvent::Bytes(bytes)) == (
            StreamState { unread: state.unread + bytes@, ..state },
            None::<Seq<Seq<char>>>,
        ),
        state.told(StreamEvent::Idle) == (state, None::<Seq<Seq<char>>>),
        state.told(StreamEvent::Ended).0.ended && state.told(StreamEvent::Ended).1 is None,
        state.told(StreamEvent::Ended).0.unread == state.unread,
        state.told(StreamEvent::Broken(error)).1 is Some && state.told(
            StreamEvent::Broken(error),
        ).0.terminated(),
        state.told(StreamEvent::Invalid(error)).1 is Some && state.told(
            StreamEvent::Invalid(error),
        ).0.terminated(),
        (state.told(StreamEvent::Broken(error)).1->0).last() == error@,
        (state.told(StreamEvent::Invalid(error)).1->0).last() == error@,
{
}

/// What a stream without chunks left comes to: the full message once it is done and the message is
/// complete; an error where it ends before that.
pub proof fn streams_are_done_when_they_say_so(state: StreamState)
    requires
        state.chunks.len() == 0,
        state.waiting || !state.terminated(),
    ensures
        ({
            let (after, step) = state.polled();
            let over = state.done || scan(state.unread, state.ended) is Done;
            &&& step is Finished <==> over && final_message(state.constructing) is Ok
            &&& step is Finished ==> after.full == Some(final_message(state.constructing)->Ok_0)
            &&& over && final_message(state.constructing) is Err ==> step is Failed
            &&& !over && scan(state.unread, state.ended) is Ended ==> step is Failed
            &&& !over ==> match scan(state.unread, state.ended) {
                Scan::Data { data, rest } => step == StepView::Parse(data) && after.unread == rest,
                Scan::NeedBytes { rest } => step is NeedBytes && after.unread == rest,
                _ => step is Failed,
            }
        }),
{
}

/// A stream that is ended early, or at its end, has the message that has arrived so far if that is
/// complete, and nothing more to come; the token counts stay.
pub proof fn ending_keeps_what_has_arrived(state: StreamState)
    ensures
        ({
            let (after, step) = state.concluded();
            &&& after.terminated() && after.done
            &&& after.usage == state.usage && after.reported == state.reported
            &&& step is Finished <==> final_message(state.constructing) is Ok
            &&& step is Finished ==> after.full == Some(final_message(state.constructing)->Ok_0)
            &&& step !is Finished ==> step is Failed && after.full == state.full
        }),
{
}

/// Passing over the chunks leads to what follows when all of them have been handed out.
pub proof fn passing_over_chunks_skips_only_them(state: StreamState)
    ensures
        ({
            let (after, step) = state.passed_over();
            &&& step !is Chunk
            &&& state.chunks.len() > 0 ==> (after, step) == (StreamState {
                chunks: seq![],
                waiting: false,
                ..state
            }).polled()
            &&& state.chunks.len() == 0 ==> (after, step) == state.polled()
        }),
    decreases state.chunks.len(),
{
    let (next, step) = state.polled();
    if step is Chunk {
        passing_over_chunks_skips_only_them(next);
        if state.chunks.len() == 1 {
            assert(state.chunks.skip(1) =~= seq![]);
        }
    }
}

/// A stream begins with nothing: no bytes, no chunks and no message, and the counts that it is given. It
/// needs bytes before there is anything to hand out.
pub proof fn streams_begin_with_nothing(usage: TokenUsage)
    ensures
        ({
            let state = StreamState::fresh(usage);
            &&& state.usage == usage && state.reported is None && state.full is None
            &&& state.constructing.content is None && state.constructing.reasoning_content is None
                && state.constructing.tool_calls is None
            &&& !state.terminated() && !state.done && !state.waiting
            &&& state.polled().1 is NeedBytes
            &&& state.polled().0.unread.len() == 0
        }),
{
    let none: Seq<u8> = seq![];
    assert(!none.contains(10));
    searches_end_with_the_lines(none);
}

} // verus!
