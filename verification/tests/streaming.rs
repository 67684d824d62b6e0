use work_buddy::client::TokenUsage;
use work_buddy::delta::{
    StreamingAssistantMessage, StreamingCustomCall, StreamingFunctionCall, StreamingToolCall,
    StreamingToolCallParams,
};
use work_buddy::failure::Failure;
use work_buddy::line_format::ToolCallParams;
use work_buddy::newline_split::{LineStep, NewlineSplit};
use work_buddy::streaming::{
    StreamChoice, StreamChunk, StreamEvent, StreamStep, StreamingChunk, StreamingResult,
    UsagePayload,
};

fn usage() -> TokenUsage {
    TokenUsage {
        prompt_tokens: 0,
        completion_tokens: 0,
        streamed_tokens: 0,
    }
}

fn delta(content: Option<&str>, reasoning: Option<&str>) -> StreamingAssistantMessage {
    StreamingAssistantMessage {
        content: content.map(str::to_string),
        reasoning_content: reasoning.map(str::to_string),
        tool_calls: None,
    }
}

fn event(deltas: Vec<StreamingAssistantMessage>) -> StreamEvent {
    StreamEvent::Parsed(StreamChunk {
        choices: deltas
            .into_iter()
            .map(|delta| StreamChoice { delta })
            .collect(),
        usage: None,
    })
}

fn function(
    index: usize,
    id: Option<&str>,
    name: Option<&str>,
    arguments: Option<&str>,
) -> StreamingToolCall {
    StreamingToolCall {
        index,
        id: id.map(str::to_string),
        call: Some(StreamingToolCallParams::Function(StreamingFunctionCall {
            name: name.map(str::to_string),
            arguments: arguments.map(str::to_string),
        })),
    }
}

fn custom(name: Option<&str>, input: Option<&str>) -> StreamingToolCallParams {
    StreamingToolCallParams::Custom(StreamingCustomCall {
        name: name.map(str::to_string),
        input: input.map(str::to_string),
    })
}

fn calls(list: Vec<StreamingToolCall>) -> StreamingAssistantMessage {
    StreamingAssistantMessage {
        content: None,
        reasoning_content: None,
        tool_calls: Some(list),
    }
}

fn texts(failure: &Failure) -> Vec<&str> {
    let mut all = vec![failure.message.as_str()];
    for cause in &failure.causes {
        all.push(cause.as_str());
    }
    all
}

fn bytes(stream: &mut StreamingResult, text: &str) {
    assert!(stream
        .tell(StreamEvent::Bytes(text.as_bytes().to_vec()))
        .is_ok());
}

#[test]
fn lines_are_split_whatever_the_pieces() {
    let text = "one\ntwo\nthr\u{e4}\n";
    for cut in 0..text.len() {
        let mut split = NewlineSplit::new();
        let mut lines = Vec::new();
        for piece in [&text.as_bytes()[..cut], &text.as_bytes()[cut..]] {
            split.feed(piece);
            loop {
                match split.next_line() {
                    LineStep::Line(line) => lines.push(line),
                    LineStep::NeedBytes => break,
                    other => panic!("{:?}", other),
                }
            }
        }
        assert_eq!(lines, vec!["one\n", "two\n", "thr\u{e4}\n"]);
    }
}

#[test]
fn the_last_line_needs_no_newline() {
    let mut split = NewlineSplit::new();
    split.feed(b"a\nb");
    assert!(matches!(split.next_line(), LineStep::Line(line) if line == "a\n"));
    assert!(matches!(split.next_line(), LineStep::NeedBytes));
    split.finish();
    assert!(!split.is_terminated());
    assert!(matches!(split.next_line(), LineStep::Line(line) if line == "b"));
    assert!(matches!(split.next_line(), LineStep::Ended));
    assert!(split.is_terminated());
}

#[test]
fn bytes_that_are_not_text_end_it_all() {
    let mut split = NewlineSplit::new();
    split.feed(b"\xff\xfe\nmore\n");
    assert!(
        matches!(split.next_line(), LineStep::Unreadable(error) if error.starts_with("invalid utf-8"))
    );
    assert!(split.is_terminated());
}

#[test]
fn a_whole_answer_is_streamed() {
    let mut stream = StreamingResult::from_stream(&usage());
    assert!(matches!(stream.poll_next(), StreamStep::NeedBytes));
    bytes(&mut stream, ": comment\n\ndata: {1}\nda");
    assert!(matches!(stream.poll_next(), StreamStep::Parse(data) if data == "{1}"));
    assert!(stream
        .tell(event(vec![
            delta(Some("Hel"), Some("hm")),
            delta(Some("lo"), None)
        ]))
        .is_ok());
    assert!(
        matches!(stream.poll_next(), StreamStep::Chunk(StreamingChunk::Content(text)) if text == "Hel")
    );
    assert!(
        matches!(stream.poll_next(), StreamStep::Chunk(StreamingChunk::Reasoning(text)) if text == "hm")
    );
    assert!(
        matches!(stream.poll_next(), StreamStep::Chunk(StreamingChunk::Content(text)) if text == "lo")
    );
    assert_eq!(stream.token_usage().streamed_tokens, 2);
    assert!(matches!(stream.poll_next(), StreamStep::NeedBytes));
    bytes(&mut stream, "ta:{2}\ndata: [DONE]\nrest");
    assert!(matches!(stream.poll_next(), StreamStep::Parse(data) if data == "{2}"));
    assert!(stream
        .tell(StreamEvent::Parsed(StreamChunk {
            choices: vec![],
            usage: Some(UsagePayload {
                prompt_tokens: 7,
                completion_tokens: 3
            }),
        }))
        .is_ok());
    assert!(matches!(stream.poll_next(), StreamStep::Finished));
    assert!(stream.is_terminated());
    assert_eq!(
        stream.token_usage(),
        TokenUsage {
            prompt_tokens: 7,
            completion_tokens: 3,
            streamed_tokens: 0
        }
    );
    assert_eq!(stream.token_usage().sum(), 10);
    let message = stream.full_message().unwrap();
    assert_eq!(message.content.as_deref(), Some("Hello"));
    assert_eq!(message.reasoning_content.as_deref(), Some("hm"));
    assert!(message.tool_calls.is_none());
    assert!(stream.full_message().is_none());
    match stream.poll_next() {
        StreamStep::Failed(failure) => assert_eq!(texts(&failure), vec!["Stream is terminated"]),
        other => panic!("{:?}", other),
    }
}

#[test]
fn an_answer_must_be_done() {
    let mut stream = StreamingResult::from_stream(&usage());
    bytes(&mut stream, "data: {1}\n");
    assert!(matches!(stream.poll_next(), StreamStep::Parse(_)));
    assert!(stream.tell(event(vec![])).is_ok());
    assert!(matches!(stream.poll_next(), StreamStep::NeedBytes));
    assert!(stream.tell(StreamEvent::Ended).is_ok());
    match stream.poll_next() {
        StreamStep::Failed(failure) => assert_eq!(
            texts(&failure),
            vec!["completion stream ended before being done"]
        ),
        other => panic!("{:?}", other),
    }
    assert!(stream.is_terminated());
}

#[test]
fn an_answer_may_break_off() {
    let mut stream = StreamingResult::from_stream(&usage());
    assert!(matches!(stream.poll_next(), StreamStep::NeedBytes));
    let failure = stream
        .tell(StreamEvent::Broken("reset".to_string()))
        .unwrap_err();
    assert_eq!(texts(&failure), vec!["reading completion stream", "reset"]);
    assert!(stream.is_terminated());

    let mut stream = StreamingResult::from_stream(&usage());
    bytes(&mut stream, "data: {\n");
    assert!(matches!(stream.poll_next(), StreamStep::Parse(_)));
    let failure = stream
        .tell(StreamEvent::Invalid("EOF".to_string()))
        .unwrap_err();
    assert_eq!(texts(&failure), vec!["completion stream invalid", "EOF"]);

    let mut stream = StreamingResult::from_stream(&usage());
    assert!(stream.tell(StreamEvent::Bytes(vec![0xff, 10])).is_ok());
    match stream.poll_next() {
        StreamStep::Failed(failure) => {
            assert_eq!(failure.message, "reading completion stream");
            assert_eq!(failure.causes.len(), 1);
        }
        other => panic!("{:?}", other),
    }
}

#[test]
fn tool_calls_are_put_together() {
    let mut message = StreamingAssistantMessage::default();
    assert!(message
        .push(&calls(vec![function(1, Some("b"), Some("lo"), None)]))
        .is_ok());
    assert!(message
        .push(&calls(vec![
            function(0, Some("a"), Some("x"), Some("{}")),
            function(1, None, Some("ok"), Some("{\"q\":")),
        ]))
        .is_ok());
    assert!(message
        .push(&calls(vec![function(1, None, None, Some("1}"))]))
        .is_ok());
    let done = message.finalize().unwrap();
    let list = done.tool_calls.unwrap();
    assert_eq!(list.len(), 2);
    assert_eq!(list[0].id, "a");
    assert_eq!(list[1].id, "b");
    match &list[1].call {
        ToolCallParams::Function { function } => {
            assert_eq!(function.name, "look");
            assert_eq!(function.arguments, "{\"q\":1}");
        }
        other => panic!("{:?}", other),
    }
}

#[test]
fn wrong_pieces_of_tool_calls_are_refused() {
    let mut message = StreamingAssistantMessage::default();
    assert!(message
        .push(&calls(vec![function(0, Some("a"), Some("x"), None)]))
        .is_ok());
    let failure = message
        .push(&calls(vec![function(0, Some("b"), None, None)]))
        .unwrap_err();
    assert_eq!(
        texts(&failure),
        vec!["Tool call at index 0", "ID set twice: a -> b"]
    );
    let failure = message
        .push(&calls(vec![StreamingToolCall {
            index: 0,
            id: None,
            call: Some(custom(Some("c"), None)),
        }]))
        .unwrap_err();
    assert_eq!(
        texts(&failure)[1],
        "Non-custom tool call updated with custom tool data: Function(StreamingFunctionCall { name: Some(\"x\"), arguments: None }) -> Custom(StreamingCustomCall { name: Some(\"c\"), input: None })"
    );
    let mut params = custom(None, Some("i\n"));
    let error = params
        .push(&StreamingToolCallParams::Function(StreamingFunctionCall {
            name: None,
            arguments: None,
        }))
        .unwrap_err();
    assert_eq!(
        error,
        "Non-function tool call updated with function data: Custom(StreamingCustomCall { name: None, input: Some(\"i\\n\") }) -> Function(StreamingFunctionCall { name: None, arguments: None })"
    );
}

#[test]
fn incomplete_tool_calls_are_refused() {
    let finalized = |call: StreamingToolCall| {
        let failure = call.finalize().unwrap_err();
        let mut all = vec![failure.message];
        all.extend(failure.causes);
        all
    };
    assert_eq!(
        finalized(function(3, None, Some("x"), None)),
        vec!["Tool call 3 has no ID"]
    );
    assert_eq!(
        finalized(StreamingToolCall {
            index: 2,
            id: Some("a".to_string()),
            call: None
        }),
        vec!["Tool call 2 is empty"]
    );
    assert_eq!(
        finalized(function(0, Some("a"), None, Some("{}"))),
        vec!["Tool call 0", "Missing function name"]
    );
    assert_eq!(
        finalized(function(0, Some("a"), Some("x"), None)),
        vec!["Tool call 0", "Missing function arguments"]
    );
    assert_eq!(
        custom(None, Some("i")).finalize().unwrap_err(),
        "Missing tool name"
    );
    assert_eq!(
        custom(Some("n"), None).finalize().unwrap_err(),
        "Missing tool input"
    );
    assert!(matches!(
        custom(Some("n"), Some("i")).finalize().unwrap(),
        ToolCallParams::Custom { custom } if custom.name == "n" && custom.input == "i"
    ));

    let mut stream = StreamingResult::from_stream(&usage());
    bytes(&mut stream, "data: x\ndata: [DONE]\n");
    assert!(matches!(stream.poll_next(), StreamStep::Parse(_)));
    assert!(stream
        .tell(event(vec![calls(vec![function(
            0,
            None,
            Some("x"),
            Some("")
        )])]))
        .is_ok());
    match stream.poll_next() {
        StreamStep::Failed(failure) => assert_eq!(
            texts(&failure),
            vec!["constructing finalized message", "Tool call 0 has no ID"]
        ),
        other => panic!("{:?}", other),
    }
}

#[test]
fn a_wrong_event_ends_the_stream() {
    let mut stream = StreamingResult::from_stream(&usage());
    bytes(&mut stream, "data: x\n");
    assert!(matches!(stream.poll_next(), StreamStep::Parse(_)));
    let failure = stream
        .tell(event(vec![
            delta(Some("a"), None),
            calls(vec![function(0, Some("1"), None, None)]),
            calls(vec![function(0, Some("2"), None, None)]),
            delta(Some("b"), None),
        ]))
        .unwrap_err();
    assert_eq!(failure.message, "Tool call at index 0");
    assert!(stream.is_terminated());
    assert_eq!(stream.token_usage().streamed_tokens, 3);
}

#[test]
fn an_answer_can_be_ended_early() {
    let mut stream = StreamingResult::from_stream(&usage());
    bytes(&mut stream, "data: x\n");
    assert!(matches!(stream.poll_next(), StreamStep::Parse(_)));
    assert!(stream.tell(event(vec![delta(Some("par"), None)])).is_ok());
    stream.force_finalize();
    assert!(stream.is_terminated());
    assert_eq!(
        stream.full_message().unwrap().content.as_deref(),
        Some("par")
    );
}

#[test]
fn content_is_the_pieces_in_order() {
    let mut message = StreamingAssistantMessage::default();
    for piece in ["a", "", "b", "c"] {
        assert!(message.push(&delta(Some(piece), None)).is_ok());
    }
    assert!(message.push(&delta(None, None)).is_ok());
    let done = message.finalize().unwrap();
    assert_eq!(done.content.as_deref(), Some("abc"));
    assert_eq!(done.reasoning_content, None);
}

#[test]
fn events_are_found_whatever_the_pieces() {
    let text = ": hm\ndata: {1}\n\ndata:{2}\ndata: [DONE]\n".as_bytes();
    for cut in 0..text.len() {
        let mut stream = StreamingResult::from_stream(&usage());
        let mut found = Vec::new();
        let mut pieces = vec![text[cut..].to_vec(), text[..cut].to_vec()];
        loop {
            match stream.poll_next() {
                StreamStep::NeedBytes => {
                    let piece = pieces.pop().unwrap();
                    assert!(stream.tell(StreamEvent::Bytes(piece)).is_ok());
                }
                StreamStep::Parse(data) => {
                    found.push(data);
                    assert!(stream.tell(event(vec![])).is_ok());
                }
                StreamStep::Finished => break,
                other => panic!("{:?}", other),
            }
        }
        assert_eq!(found, vec!["{1}", "{2}"]);
    }
}

fn streamed(pieces: Vec<Vec<u8>>) -> (String, String, Option<String>, Option<String>, usize) {
    let mut result = StreamingResult::from_stream(&usage());
    let mut pieces = pieces.into_iter();
    let (mut content, mut reasoning) = (String::new(), String::new());
    let mut told = StreamEvent::Idle;
    loop {
        result.tell(told).unwrap();
        told = match result.poll_next() {
            StreamStep::Chunk(StreamingChunk::Content(text)) => {
                content.push_str(&text);
                StreamEvent::Idle
            }
            StreamStep::Chunk(StreamingChunk::Reasoning(text)) => {
                reasoning.push_str(&text);
                StreamEvent::Idle
            }
            StreamStep::Parse(data) => match data.split_once('/') {
                Some((first, second)) => event(vec![
                    delta(Some(first), None),
                    delta(Some(second), Some("hm")),
                ]),
                None => event(vec![delta(None, Some(&data))]),
            },
            StreamStep::NeedBytes => match pieces.next() {
                Some(bytes) => StreamEvent::Bytes(bytes),
                None => StreamEvent::Ended,
            },
            StreamStep::Finished => break,
            StreamStep::Failed(failure) => panic!("{:?}", failure),
        };
    }
    let message = result.full_message().unwrap();
    let tokens = result.token_usage().streamed_tokens;
    (content, reasoning, message.content, message.reasoning_content, tokens)
}

#[test]
fn chunks_make_up_the_message_in_any_pieces() {
    let bytes = "data: a/ü\n: ping\n\ndata: why\r\ndata: b/\ndata: [DONE]\n".as_bytes();
    let whole = streamed(vec![bytes.to_vec()]);
    assert_eq!(whole.0, "aüb");
    assert_eq!(whole.1, "hmwhyhm");
    assert_eq!(whole.2.as_deref(), Some("aüb"));
    assert_eq!(whole.3.as_deref(), Some("hmwhyhm"));
    assert_eq!(whole.4, 5);
    for cut in 0..bytes.len() {
        let pieces = vec![bytes[..cut].to_vec(), bytes[cut..].to_vec()];
        assert_eq!(streamed(pieces), whole);
    }
    let single = bytes.iter().map(|byte| vec![*byte]).collect();
    assert_eq!(streamed(single), whole);
}
