use work_buddy::agent::{
    log_messages, Agent, AgentRunning, ChatListener, ResponseStep, Tool,
};
use work_buddy::call_round::CallRound;
use work_buddy::chat_agent::{
    call_finished, call_started, AgentAction, AgentEvent, ChatAgent,
};
use work_buddy::client::{models_url, Client, ModelsReply, Retry, TokenUsage, MAX_ATTEMPTS};
use work_buddy::delta::{
    StreamingAssistantMessage, StreamingFunctionCall, StreamingToolCall, StreamingToolCallParams,
};
use work_buddy::history::{new_with_history, ChatHistory, HistoryEntryType};
use work_buddy::line_format::{
    AssistantMessage, ChatMessage, CustomCall, CustomToolFormat, FunctionCall, ModelInfo, Models,
    StreamOptions, SystemMessage, ToolCall, ToolCallParams, ToolChoice, ToolChoiceMode,
    ToolDefinition, ToolResult, UserMessage,
};
use work_buddy::prefill::{
    push_data, Instruction, Message, MessageSource, MessageTarget, PrefillStep,
};
use work_buddy::session_log::{unparsable, unreadable, SessionLog};
use work_buddy::streaming::{
    StreamChoice, StreamChunk, StreamEvent, StreamStep, StreamingChunk, UsagePayload,
};
use work_buddy::ui::{
    app_round, buddy_round, AgentNotification, AppInput, Event, Notification,
};
use work_buddy::work_buddy_agent::{BuddyAction, BuddyEvent, WorkBuddyAgent};

struct Echo {
    name: &'static str,
}

impl Tool for Echo {
    type Schema = u8;

    fn name(&self) -> String {
        self.name.to_string()
    }

    fn description(&self) -> Option<String> {
        Some("says it again".to_string())
    }

    fn schema(&self) -> u8 {
        3
    }

    fn fmt_call_display(&self, arguments: &str) -> String {
        format!("<{}>", arguments)
    }

    fn fmt_call_result_display(&self, result: &str) -> String {
        format!("«{}»", result)
    }
}

#[derive(Default)]
struct Heard {
    count: usize,
}

impl ChatListener for Heard {
    fn log_message(&mut self, _message: &ChatMessage) {
        self.count += 1;
    }
}

fn agent() -> Agent<(), Echo> {
    let mut agent = Agent::new(Client::for_url("http://host/"));
    agent.add_tool(Echo { name: "echo" });
    agent
}

fn call(id: &str, name: &str) -> ToolCall {
    ToolCall {
        id: id.to_string(),
        call: ToolCallParams::Function {
            function: FunctionCall {
                name: name.to_string(),
                arguments: "{}".to_string(),
            },
        },
    }
}

fn custom_call(name: &str) -> ToolCallParams {
    ToolCallParams::Custom {
        custom: CustomCall {
            name: name.to_string(),
            input: "i".to_string(),
        },
    }
}

fn assistant(content: Option<&str>, calls: Option<Vec<ToolCall>>) -> ChatMessage {
    ChatMessage::Assistant(AssistantMessage {
        content: content.map(str::to_string),
        reasoning_content: None,
        tool_calls: calls,
    })
}

fn lines(history: &ChatHistory) -> Vec<(&str, HistoryEntryType)> {
    history
        .lines()
        .iter()
        .map(|line| (line.0.as_str(), line.1))
        .collect()
}

fn model(id: &str, aliases: Vec<&str>, n_ctx: Option<u64>) -> ModelInfo {
    ModelInfo {
        id: id.to_string(),
        aliases: aliases.into_iter().map(str::to_string).collect(),
        n_ctx,
    }
}

fn listed(data: Vec<ModelInfo>) -> ModelsReply {
    ModelsReply::Listed(Models { data })
}

#[test]
fn urls_have_no_double_slash() {
    assert_eq!(models_url("http://host:1//"), "http://host:1/v1/models");
    assert_eq!(
        Client::for_url("http://host:1").chat_url(),
        "http://host:1/v1/chat/completions"
    );
    assert_eq!(Client::for_url("http://host:1").model_name(), "default");
}

#[test]
fn the_only_model_is_chosen() {
    let client = Client::new("http://h/", None, listed(vec![model("m", vec![], Some(9))])).unwrap();
    assert_eq!(client.model_name(), "m");
    assert_eq!(client.context_size(), Some(9));
    assert_eq!(client.chat_url(), "http://h/v1/chat/completions");
    assert_eq!(client.token_usage().sum(), 0);
}

#[test]
fn models_are_found_by_name_and_alias() {
    let list = || {
        listed(vec![
            model("a", vec!["x", "y"], None),
            model("b", vec!["default"], None),
        ])
    };
    assert_eq!(Client::new("h", Some("a"), list()).unwrap().model_name(), "a");
    assert_eq!(Client::new("h", Some("y"), list()).unwrap().model_name(), "a");
    assert_eq!(Client::new("h", None, list()).unwrap().model_name(), "b");
    assert_eq!(
        Client::new("h", Some("z"), list()).unwrap_err(),
        "Model \"z\" not found, available models:\n- a (aliases: \"x\"), \"y\")), - b (aliases: \"default\"))"
    );
    assert_eq!(
        Client::new("h", None, listed(vec![])).unwrap_err(),
        "Model \"default\" not found, available models:\n"
    );
}

#[test]
fn failed_model_queries_are_told() {
    assert_eq!(
        Client::new("h", None, ModelsReply::Unanswered("e".to_string())).unwrap_err(),
        "Failed to query model info on h/v1/models: e"
    );
    assert_eq!(
        Client::new(
            "h",
            None,
            ModelsReply::Refused {
                status: "404 Not Found".to_string(),
                body: "b".to_string()
            }
        )
        .unwrap_err(),
        "Failed to query model info on h/v1/models: 404 Not Found: b"
    );
    assert_eq!(
        Client::new(
            "h",
            None,
            ModelsReply::Unreadable {
                body: "b".to_string(),
                error: "e".to_string()
            }
        )
        .unwrap_err(),
        "Failed to parse model info from h/v1/models: b: e"
    );
    assert_eq!(Client::refused("500", "b"), "llama-server returned 500: b");
}

#[test]
fn requests_are_retried_a_few_times() {
    let client = Client::for_url("h");
    assert!(matches!(
        client.submit_request(1, 3, true, "e"),
        Retry::After(500)
    ));
    assert!(matches!(
        client.submit_request(2, 3, true, "e"),
        Retry::After(1000)
    ));
    match client.submit_request(3, 3, true, "e") {
        Retry::GiveUp(error) => assert_eq!(
            error,
            "sending chat request to h/v1/chat/completions (attempt 3): e"
        ),
        other => panic!("{:?}", other),
    }
    assert!(matches!(
        client.submit_request(1, 3, false, "e"),
        Retry::GiveUp(_)
    ));
}

#[test]
fn chat_requests_are_sent_up_to_three_times() {
    let client = Client::for_url("h");
    let attempts = |benign: [bool; 3]| {
        let mut attempt = 1;
        while let Retry::After(_) =
            client.submit_request(attempt, MAX_ATTEMPTS, benign[attempt - 1], "e")
        {
            attempt += 1;
        }
        attempt
    };
    assert_eq!(attempts([true, true, true]), 3);
    assert_eq!(attempts([true, false, true]), 2);
    assert_eq!(attempts([false, true, true]), 1);
}

#[test]
fn token_counts_are_summed() {
    let mut client = Client::for_url("h");
    client.set_token_usage(TokenUsage {
        prompt_tokens: 1,
        completion_tokens: 2,
        streamed_tokens: 4,
    });
    assert_eq!(client.token_usage().sum(), 7);
}

#[test]
fn requests_hold_the_history_and_the_tools() {
    let mut agent = agent();
    agent.push_system("be kind".to_string());
    agent.push_user("hi".to_string());
    let request = agent.submit();
    assert_eq!(request.model, "default");
    assert_eq!(request.messages.len(), 2);
    assert!(request.stream);
    assert!(request.stream_options.include_usage);
    assert!(!request.stream_options.include_obfuscation);
    assert!(matches!(
        request.tool_choice,
        ToolChoice::Mode(ToolChoiceMode::Auto)
    ));
    match &request.tools[0] {
        ToolDefinition::Function { function } => {
            assert_eq!(function.name, "echo");
            assert_eq!(function.description.as_deref(), Some("says it again"));
            assert_eq!(function.parameters, Some(3));
            assert!(function.strict);
        }
        ToolDefinition::Custom { .. } => panic!("not a function"),
    }
}

#[test]
fn every_message_is_heard() {
    let mut agent: Agent<Heard, Echo> =
        Agent::new_with_listener(Client::for_url("h"), Heard::default());
    agent.push_user("a".to_string());
    agent.push_history(vec![
        ChatMessage::User(UserMessage {
            content: "b".to_string(),
        }),
        assistant(Some("c"), None),
    ]);
    agent.push_tool_call(call("1", "echo"));
    assert_eq!(agent.history().len(), 4);
    let mut heard = Heard::default();
    log_messages(
        &mut heard,
        &vec![
            assistant(None, None),
            assistant(None, None),
        ],
    );
    assert_eq!(heard.count, 2);
}

#[test]
fn the_last_result_is_the_last_content() {
    let mut agent = agent();
    assert!(agent.last_result().is_none());
    agent.push(assistant(Some("old"), None));
    agent.push_user("q".to_string());
    assert!(agent.last_result().is_none());
    agent.push(assistant(Some("new"), None));
    agent.push(assistant(None, None));
    assert_eq!(agent.last_result().map(String::as_str), Some("new"));
}

#[test]
fn tool_calls_are_answered() {
    let mut agent = agent();
    agent.push_tool_call(call("1", "echo"));
    agent.push_tool_call(call("2", "nope"));
    agent.push_tool_call(call("3", "echo"));
    let mut round = agent.take_pending_calls();
    assert_eq!(round.all().len(), 3);
    assert!(agent.take_pending_calls().all().is_empty());
    assert!(agent.execute_call(&round.all()[0].call).is_ok());
    assert_eq!(
        agent.execute_call(&round.all()[1].call).err().unwrap(),
        "No such function: nope"
    );
    assert_eq!(
        agent.execute_call(&custom_call("c")).err().unwrap(),
        "No such tool: c"
    );
    assert_eq!(round.next(), Some(0));
    assert!(!round.running(0));
    round.guarded(Ok(()));
    assert!(round.running(0));
    assert_eq!(round.next(), Some(1));
    round.guarded(Err("no".to_string()));
    assert!(!round.running(1));
    assert!(!round.over());
    round.guarded(Ok(()));
    assert_eq!(round.next(), None);
    assert!(round.failure().is_none());
    round.returned(2, Err("broke".to_string()), Ok(()));
    assert!(!round.running(2));
    assert!(!round.over());
    round.returned(0, Ok("done".to_string()), Ok(()));
    assert!(round.over());
    assert_eq!(round.failure().map(String::as_str), Some("broke"));
    assert!(agent.execute_pending_calls(round));
    let told: Vec<(&str, &str)> = agent
        .history()
        .iter()
        .filter_map(|message| match message {
            ChatMessage::Tool(result) => Some((
                result.tool_call_id.as_deref().unwrap(),
                result.content.as_str(),
            )),
            _ => None,
        })
        .collect();
    assert_eq!(
        told,
        vec![
            ("2", "TOOL CALL REJECTED: no"),
            ("3", "TOOL CALL FAILED: broke"),
            ("1", "done")
        ]
    );
    let none = CallRound::new(vec![]);
    assert!(none.over());
    assert!(none.next().is_none());
    assert!(!agent.execute_pending_calls(none));
}

#[test]
fn results_may_be_withheld() {
    let mut round = CallRound::new(vec![call("1", "echo"), call("2", "echo")]);
    round.guarded(Ok(()));
    round.guarded(Ok(()));
    round.returned(0, Err("broke".to_string()), Err("secret".to_string()));
    assert!(round.failure().is_none());
    round.returned(1, Ok("fine".to_string()), Ok(()));
    assert!(round.over());
    let told: Vec<String> = round
        .into_results()
        .into_iter()
        .map(|message| match message {
            ChatMessage::Tool(result) => result.content,
            _ => panic!("no result"),
        })
        .collect();
    assert_eq!(told, vec!["TOOL CALL REJECTED: secret", "fine"]);
}

#[test]
fn calls_are_shown_by_their_tools() {
    let agent = agent();
    assert_eq!(
        agent.display_call(&call("1", "echo").call),
        "[function call] echo(<{}>)"
    );
    assert_eq!(
        agent.display_call(&call("1", "nope").call),
        "[unknown function nope]"
    );
    assert_eq!(agent.display_call(&custom_call("c")), "[unknown tool c]");
    assert_eq!(
        agent.display_call_result(&call("1", "echo").call, "r"),
        "«r»"
    );
    assert_eq!(
        agent.display_call_result(&call("1", "nope").call, "r"),
        "[unknown function nope]"
    );
    assert_eq!(
        agent.display_call_result(&custom_call("c"), "r"),
        "[unknown tool c]"
    );
}

#[test]
fn an_answer_goes_into_the_history() {
    let mut agent = agent();
    let mut running = AgentRunning::new(&TokenUsage::default());
    assert!(matches!(
        running.poll_next(&mut agent, StreamEvent::Idle),
        StreamStep::NeedBytes
    ));
    let step = running.poll_next(
        &mut agent,
        StreamEvent::Bytes(b"data: x\ndata: [DONE]\n".to_vec()),
    );
    assert!(matches!(step, StreamStep::Parse(data) if data == "x"));
    let chunk = StreamChunk {
        choices: vec![StreamChoice {
            delta: StreamingAssistantMessage {
                content: Some("ok".to_string()),
                reasoning_content: None,
                tool_calls: Some(vec![StreamingToolCall {
                    index: 0,
                    id: Some("1".to_string()),
                    call: Some(StreamingToolCallParams::Function(StreamingFunctionCall {
                        name: Some("echo".to_string()),
                        arguments: Some("{}".to_string()),
                    })),
                }]),
            },
        }],
        usage: None,
    };
    let step = running.poll_next(&mut agent, StreamEvent::Parsed(chunk));
    assert!(matches!(step, StreamStep::Chunk(StreamingChunk::Content(text)) if text == "ok"));
    assert!(!running.is_terminated());
    assert!(matches!(
        running.poll_next(&mut agent, StreamEvent::Idle),
        StreamStep::Finished
    ));
    assert!(running.is_terminated());
    assert_eq!(agent.last_result().map(String::as_str), Some("ok"));
    assert_eq!(agent.take_pending_calls().all().len(), 1);
    assert_eq!(agent.token_usage(), (0, 0));
    assert_eq!(running.token_usage().streamed_tokens, 1);
    assert_eq!(agent.llm().token_usage().streamed_tokens, 1);
}

fn said(text: &str, usage: Option<UsagePayload>) -> StreamEvent {
    StreamEvent::Parsed(StreamChunk {
        choices: vec![StreamChoice {
            delta: StreamingAssistantMessage {
                content: Some(text.to_string()),
                reasoning_content: None,
                tool_calls: None,
            },
        }],
        usage,
    })
}

#[test]
fn token_counts_are_carried_over() {
    let mut agent = agent();
    let reported = UsagePayload {
        prompt_tokens: 7,
        completion_tokens: 2,
    };
    for (usage, counts) in [
        (None, (0, 0, 1)),
        (Some(reported), (7, 2, 0)),
        (None, (7, 2, 1)),
        (None, (7, 2, 2)),
    ] {
        let mut running = AgentRunning::new(agent.llm().token_usage());
        let bytes = b"data: x\ndata: [DONE]\n".to_vec();
        assert!(matches!(
            running.poll_next(&mut agent, StreamEvent::Bytes(bytes)),
            StreamStep::Parse(_)
        ));
        assert!(matches!(
            running.poll_next(&mut agent, said("a", usage)),
            StreamStep::Chunk(_)
        ));
        let count = |usage: &TokenUsage| {
            (
                usage.prompt_tokens,
                usage.completion_tokens,
                usage.streamed_tokens,
            )
        };
        assert_eq!(count(agent.llm().token_usage()), counts);
        assert!(matches!(
            running.poll_next(&mut agent, StreamEvent::Idle),
            StreamStep::Finished
        ));
        assert_eq!(count(agent.llm().token_usage()), counts);
        assert_eq!(agent.token_usage(), (counts.0, counts.1));
    }
    let mut running = AgentRunning::new(agent.llm().token_usage());
    running.poll_next(&mut agent, StreamEvent::Broken("e".to_string()));
    assert_eq!(agent.llm().token_usage().streamed_tokens, 2);
}

#[test]
fn an_answer_without_a_report_keeps_the_counts() {
    let mut agent = agent();
    let reported = UsagePayload {
        prompt_tokens: 7,
        completion_tokens: 2,
    };
    let mut running = AgentRunning::new(agent.llm().token_usage());
    running.poll_next(&mut agent, StreamEvent::Bytes(b"data: x\n".to_vec()));
    running.poll_next(&mut agent, said("a", Some(reported)));
    running.poll_next(&mut agent, StreamEvent::Broken("e".to_string()));
    assert!(running.is_terminated());
    assert_eq!(agent.llm().token_usage().prompt_tokens, 7);
    assert_eq!(agent.token_usage(), (0, 0));

    let mut running = AgentRunning::new(agent.llm().token_usage());
    let bytes = b"data: x\ndata: [DONE]\n".to_vec();
    running.poll_next(&mut agent, StreamEvent::Bytes(bytes));
    running.poll_next(&mut agent, said("b", None));
    assert!(matches!(
        running.poll_next(&mut agent, StreamEvent::Idle),
        StreamStep::Finished
    ));
    assert_eq!(agent.last_result().map(String::as_str), Some("b"));
    assert_eq!(agent.token_usage(), (0, 0));
    assert_eq!(agent.llm().token_usage().prompt_tokens, 7);
    assert_eq!(agent.llm().token_usage().streamed_tokens, 1);
}

#[test]
fn full_responses_pass_over_chunks() {
    let mut agent = agent();
    let mut response = AgentRunning::new(&TokenUsage::default()).full_response();
    assert!(matches!(
        response.poll(&mut agent, StreamEvent::Idle),
        ResponseStep::NeedBytes
    ));
    let bytes = b"data: x\ndata: y\ndata: [DONE]\n".to_vec();
    assert!(matches!(
        response.poll(&mut agent, StreamEvent::Bytes(bytes)),
        ResponseStep::Parse(data) if data == "x"
    ));
    assert!(matches!(
        response.poll(&mut agent, said("one ", None)),
        ResponseStep::Parse(data) if data == "y"
    ));
    assert!(!response.is_terminated());
    assert!(matches!(
        response.poll(&mut agent, said("two", None)),
        ResponseStep::Finished
    ));
    assert_eq!(agent.last_result().map(String::as_str), Some("one two"));
    assert!(response.is_terminated());
    assert!(matches!(
        response.poll(&mut agent, StreamEvent::Broken("e".to_string())),
        ResponseStep::Finished
    ));
    assert_eq!(agent.history().len(), 1);
    assert!(response.execute_pending_calls(&mut agent).all().is_empty());
    let mut response = AgentRunning::new(&TokenUsage::default()).full_response();
    assert!(matches!(
        response.poll(&mut agent, StreamEvent::Broken("e".to_string())),
        ResponseStep::Failed(_)
    ));
    assert!(response.is_terminated());
}

#[test]
fn calls_are_taken_once_the_request_is_done() {
    let mut agent = agent();
    agent.push_tool_call(call("1", "echo"));
    let mut running = AgentRunning::new(&TokenUsage::default());
    running.force_finalize(&mut agent);
    assert!(running.is_terminated());
    let round = running.execute_pending_calls(&mut agent);
    assert_eq!(round.all().len(), 1);
    assert!(agent.take_pending_calls().all().is_empty());
}

#[test]
fn an_answer_may_be_ended_early_or_fail() {
    let mut agent = agent();
    let mut running = AgentRunning::new(&TokenUsage::default());
    running.force_finalize(&mut agent);
    assert!(running.is_terminated());
    assert_eq!(agent.history().len(), 1);
    let mut running = AgentRunning::new(&TokenUsage::default());
    let step = running.poll_next(&mut agent, StreamEvent::Broken("e".to_string()));
    assert!(
        matches!(step, StreamStep::Failed(failure) if failure.message == "reading completion stream")
    );
    assert!(running.is_terminated());
    assert_eq!(agent.history().len(), 1);
}

#[test]
fn messages_come_from_their_parts() {
    assert!(matches!(
        ChatMessage::from(SystemMessage::from("s".to_string())),
        ChatMessage::System(message) if message.content == "s"
    ));
    assert!(matches!(
        ChatMessage::from(UserMessage::from("u".to_string())),
        ChatMessage::User(message) if message.content == "u"
    ));
    assert!(matches!(
        ChatMessage::from(AssistantMessage::default()),
        ChatMessage::Assistant(_)
    ));
    assert!(matches!(
        ChatMessage::from(ToolResult::new("1".to_string(), Ok("r".to_string()))),
        ChatMessage::Tool(_)
    ));
    assert!(matches!(
        ToolChoice::from(ToolChoiceMode::Required),
        ToolChoice::Mode(ToolChoiceMode::Required)
    ));
    assert!(matches!(
        CustomToolFormat::default(),
        CustomToolFormat::Text
    ));
    assert!(!StreamOptions::default().include_usage);
    assert_eq!(call("1", "n").call.clone().name(), "n");
}

#[test]
fn lines_of_one_type_are_continued() {
    let mut history = ChatHistory::default();
    history.push("a", HistoryEntryType::Content, true);
    history.push("b", HistoryEntryType::Content, true);
    history.push("c", HistoryEntryType::Content, false);
    history.push("d", HistoryEntryType::Reasoning, true);
    assert_eq!(
        lines(&history),
        vec![
            ("ab", HistoryEntryType::Content),
            ("c", HistoryEntryType::Content),
            ("", HistoryEntryType::Empty),
            ("d", HistoryEntryType::Reasoning),
        ]
    );
}

#[test]
fn an_empty_line_becomes_the_separator() {
    let mut history = ChatHistory::default();
    history.push_lines("a\n", HistoryEntryType::Content, true);
    history.push("b", HistoryEntryType::ToolCall, true);
    assert_eq!(
        lines(&history),
        vec![
            ("a", HistoryEntryType::Content),
            ("", HistoryEntryType::Empty),
            ("b", HistoryEntryType::ToolCall),
        ]
    );
    history.set_token_usage((3, 4));
    assert_eq!(*history.token_usage(), (3, 4));
}

#[test]
fn streamed_text_shows_alike_in_any_pieces() {
    let text = "one\ntwo\n\nthree";
    let mut whole = ChatHistory::default();
    whole.push_lines(text, HistoryEntryType::Content, true);
    for cut in 0..text.len() {
        let mut history = ChatHistory::default();
        history.push_lines(&text[..cut], HistoryEntryType::Content, cut % 2 == 0);
        history.push_lines(&text[cut..], HistoryEntryType::Content, true);
        assert_eq!(lines(&history), lines(&whole));
    }
    let shown: Vec<&str> = lines(&whole).into_iter().map(|line| line.0).collect();
    assert_eq!(shown.join("\n"), text);
}

#[test]
fn resumed_chats_show_all_messages() {
    let mut agent = agent();
    let messages = vec![
        ChatMessage::System(SystemMessage::from("hidden".to_string())),
        ChatMessage::User(UserMessage::from("hi".to_string())),
        ChatMessage::Assistant(AssistantMessage {
            content: Some("yes".to_string()),
            reasoning_content: Some("hm".to_string()),
            tool_calls: Some(vec![call("1", "echo"), call("2", "echo")]),
        }),
        ChatMessage::from(ToolResult::new("1".to_string(), Ok("r".to_string()))),
        ChatMessage::from(ToolResult::rejected("9".to_string(), "no")),
        ChatMessage::from(ToolResult::new("8".to_string(), Ok("raw".to_string()))),
    ];
    let history = new_with_history(&mut agent, &messages);
    let shown: Vec<(&str, HistoryEntryType)> = lines(&history)
        .into_iter()
        .filter(|line| line.1 != HistoryEntryType::Empty)
        .collect();
    assert_eq!(
        shown,
        vec![
            ("hi", HistoryEntryType::User),
            ("hm", HistoryEntryType::Reasoning),
            ("yes", HistoryEntryType::Content),
            (
                "[1] [function call] echo(<{}>)\n",
                HistoryEntryType::ToolCall
            ),
            (
                "[2] [function call] echo(<{}>)\n",
                HistoryEntryType::ToolCall
            ),
            ("=[echo/1]=> «r»\n", HistoryEntryType::ToolResultOk),
            (
                "=[(unmatched call)/9]=> no\n",
                HistoryEntryType::ToolResultErr
            ),
            (
                "=[(unmatched call)/8]=> raw\n",
                HistoryEntryType::ToolResultOk
            ),
            (
                "=[echo/2]=> Tool call aborted due to incomplete session state, please retry\n",
                HistoryEntryType::ToolResultErr
            ),
        ]
    );
    assert_eq!(agent.history().len(), 1);
    assert!(matches!(
        &agent.history()[0],
        ChatMessage::Tool(result) if result.content.starts_with("TOOL CALL FAILED: Tool call aborted")
    ));
}

fn prompt(text: &str) -> Option<AgentNotification> {
    Some(AgentNotification::QueuePrompt(text.to_string()))
}

#[test]
fn prompts_are_submitted_together_and_in_order() {
    let mut history = ChatHistory::default();
    let mut agent = agent();
    let mut ui = Vec::new();
    let mut chat = ChatAgent::new();
    let mut step = |event: AgentEvent| chat.do_run(&mut history, &mut agent, &mut ui, event);
    assert_eq!(
        step(AgentEvent::Received(Some(
            AgentNotification::ForceSubmitQueued
        ))),
        AgentAction::Receive
    );
    assert_eq!(
        step(AgentEvent::Received(prompt("a"))),
        AgentAction::TryReceive
    );
    assert_eq!(
        step(AgentEvent::Available(prompt("b"))),
        AgentAction::TryReceive
    );
    assert_eq!(step(AgentEvent::Available(None)), AgentAction::Submit);
    assert_eq!(step(AgentEvent::Submitted), AgentAction::Stream);
    assert_eq!(
        step(AgentEvent::Chunk(StreamingChunk::Content("x".to_string()))),
        AgentAction::Stream
    );
    assert_eq!(
        step(AgentEvent::Received(prompt("c"))),
        AgentAction::Stream
    );
    assert_eq!(step(AgentEvent::StreamEnded), AgentAction::Call);
    assert_eq!(step(AgentEvent::Called(false)), AgentAction::TryReceive);
    assert_eq!(step(AgentEvent::Available(None)), AgentAction::Submit);
    assert_eq!(step(AgentEvent::Submitted), AgentAction::Stream);
    assert_eq!(
        step(AgentEvent::Received(Some(
            AgentNotification::ForceSubmitQueued
        ))),
        AgentAction::ForceFinalize
    );
    assert_eq!(step(AgentEvent::Called(true)), AgentAction::TryReceive);
    assert_eq!(step(AgentEvent::Available(None)), AgentAction::Submit);
    assert_eq!(step(AgentEvent::Submitted), AgentAction::Stream);
    assert_eq!(step(AgentEvent::StreamEnded), AgentAction::Call);
    assert_eq!(step(AgentEvent::Called(false)), AgentAction::TryReceive);
    assert_eq!(step(AgentEvent::Available(None)), AgentAction::Receive);
    assert_eq!(
        step(AgentEvent::Received(Some(AgentNotification::Exit))),
        AgentAction::Exit
    );
    let users: Vec<&str> = agent
        .history()
        .iter()
        .map(|message| match message {
            ChatMessage::User(message) => message.content.as_str(),
            other => panic!("{:?}", other),
        })
        .collect();
    assert_eq!(users, vec!["a", "b", "c"]);
    assert_eq!(
        lines(&history)
            .into_iter()
            .map(|line| line.0)
            .collect::<Vec<&str>>(),
        vec!["a", "b", "", "x", "", "c"]
    );
    assert_eq!(
        ui.iter()
            .filter(|n| matches!(n, Notification::PromptSubmitted))
            .count(),
        3
    );
    assert!(matches!(ui.last(), Some(Notification::Exit)));
}

#[test]
fn errors_make_the_agent_leave() {
    let mut history = ChatHistory::default();
    let mut agent = agent();
    let mut ui = Vec::new();
    let mut chat = ChatAgent::new();
    chat.do_run(&mut history, &mut agent, &mut ui, AgentEvent::Received(prompt("a")));
    chat.do_run(&mut history, &mut agent, &mut ui, AgentEvent::Available(None));
    assert_eq!(
        chat.do_run(&mut history, &mut agent, &mut ui, AgentEvent::SubmitFailed),
        AgentAction::Fail
    );
    let mut chat = ChatAgent::new();
    assert_eq!(
        chat.do_run(&mut history, &mut agent, &mut ui, AgentEvent::Received(None)),
        AgentAction::Exit
    );
}

#[test]
fn calls_and_results_are_shown_while_they_happen() {
    let mut history = ChatHistory::default();
    let agent = agent();
    let mut ui = Vec::new();
    let one = call("1", "echo");
    call_started(&mut history, &mut ui, &agent, &one);
    call_finished(&mut history, &mut ui, &agent, &one, &Ok("r".to_string()));
    call_finished(&mut history, &mut ui, &agent, &one, &Err("e".to_string()));
    assert_eq!(
        lines(&history),
        vec![
            ("[1] [function call] echo(<{}>)", HistoryEntryType::ToolCall),
            ("", HistoryEntryType::Empty),
            ("=[echo/1]=> «r»", HistoryEntryType::ToolResultOk),
            ("", HistoryEntryType::Empty),
            ("=[echo/1]=> e", HistoryEntryType::ToolResultErr),
            ("", HistoryEntryType::ToolResultErr),
        ]
    );
    assert_eq!(ui.len(), 3);
}

#[test]
fn the_buddy_submits_messages_at_once() {
    let mut history = ChatHistory::default();
    let mut agent = agent();
    let mut buddy = WorkBuddyAgent::new();
    let mut step = |event: BuddyEvent| buddy.do_run(&mut history, &mut agent, event);
    let text = |text: &str| Some(text.to_string());
    assert_eq!(
        step(BuddyEvent::Received(text("a"), false)),
        BuddyAction::TryReceive
    );
    assert_eq!(
        step(BuddyEvent::Available(text("b"))),
        BuddyAction::TryReceive
    );
    assert_eq!(step(BuddyEvent::Available(None)), BuddyAction::Submit);
    assert_eq!(step(BuddyEvent::Submitted), BuddyAction::Stream);
    assert_eq!(
        step(BuddyEvent::Chunk(
            StreamingChunk::Reasoning("r".to_string()),
            false
        )),
        BuddyAction::Stream
    );
    assert_eq!(step(BuddyEvent::StreamEnded), BuddyAction::Call);
    assert_eq!(step(BuddyEvent::Called(false)), BuddyAction::TryReceive);
    assert_eq!(
        step(BuddyEvent::Available(text("c"))),
        BuddyAction::TryReceive
    );
    assert_eq!(step(BuddyEvent::Available(None)), BuddyAction::Submit);
    assert_eq!(step(BuddyEvent::Submitted), BuddyAction::Stream);
    assert_eq!(step(BuddyEvent::StreamEnded), BuddyAction::Call);
    assert_eq!(step(BuddyEvent::Called(false)), BuddyAction::TryReceive);
    assert_eq!(step(BuddyEvent::Available(None)), BuddyAction::Receive);
    assert_eq!(
        step(BuddyEvent::Received(text(""), true)),
        BuddyAction::Exit
    );
    assert_eq!(agent.history().len(), 3);
    assert_eq!(lines(&history)[0], ("ab", HistoryEntryType::User));
}

#[test]
fn the_buddy_leaves_when_told() {
    let mut history = ChatHistory::default();
    let mut agent = agent();
    let mut buddy = WorkBuddyAgent::new();
    buddy.do_run(
        &mut history,
        &mut agent,
        BuddyEvent::Received(Some("a".to_string()), false),
    );
    buddy.do_run(&mut history, &mut agent, BuddyEvent::Available(None));
    buddy.do_run(&mut history, &mut agent, BuddyEvent::Submitted);
    assert_eq!(
        buddy.do_run(
            &mut history,
            &mut agent,
            BuddyEvent::Chunk(StreamingChunk::Content("x".to_string()), true)
        ),
        BuddyAction::Exit
    );
    let mut buddy = WorkBuddyAgent::new();
    buddy.do_run(
        &mut history,
        &mut agent,
        BuddyEvent::Received(Some("a".to_string()), false),
    );
    buddy.do_run(&mut history, &mut agent, BuddyEvent::Available(None));
    assert_eq!(
        buddy.do_run(&mut history, &mut agent, BuddyEvent::SubmitFailed),
        BuddyAction::Fail
    );
}

#[test]
fn the_application_passes_things_on() {
    let out = app_round(AppInput::Ui(Event::Exit));
    assert!(out.exit && matches!(out.to_agent, Some(AgentNotification::Exit)));
    let out = app_round(AppInput::Ui(Event::Input("m".to_string())));
    assert!(!out.exit);
    assert!(matches!(out.to_ui, Some(Notification::PromptQueued(text)) if text == "m"));
    assert!(matches!(out.to_agent, Some(AgentNotification::QueuePrompt(text)) if text == "m"));
    let out = app_round(AppInput::Ui(Event::ForceSubmitQueued));
    assert!(matches!(
        out.to_agent,
        Some(AgentNotification::ForceSubmitQueued)
    ));
    assert!(app_round(AppInput::Notified(Notification::Exit)).exit);
    assert!(!app_round(AppInput::Notified(Notification::Update)).exit);
    assert!(matches!(
        app_round(AppInput::Quiet).to_ui,
        Some(Notification::Update)
    ));
}

#[test]
fn messages_are_submitted_at_once() {
    let out = buddy_round(Some(Event::Input("m".to_string())));
    assert!(!out.exit);
    assert_eq!(out.message.as_deref(), Some("m"));
    let out = buddy_round(Some(Event::Exit));
    assert!(out.exit && out.message.is_none());
    for event in [Some(Event::ForceSubmitQueued), None] {
        let out = buddy_round(event);
        assert!(!out.exit && out.message.is_none());
    }
}

#[test]
fn instructions_prefill_the_chat() {
    let mut agent = agent();
    let message = |role, source| Instruction::<u8>::Message(Message { role, source });
    assert!(matches!(
        message(MessageTarget::User, MessageSource::Inline("u".to_string())).execute(&mut agent),
        PrefillStep::Done
    ));
    match message(MessageTarget::System, MessageSource::File(5)).execute(&mut agent) {
        PrefillStep::Read(role, 5) => push_data(&mut agent, role, "s".to_string()),
        _ => panic!("nothing to read"),
    }
    assert!(matches!(
        Instruction::<u8>::ToolCall(call("1", "echo")).execute(&mut agent),
        PrefillStep::Call(round) if round.all().len() == 1 && round.all()[0].id == "1"
    ));
    assert!(matches!(&agent.history()[0], ChatMessage::User(m) if m.content == "u"));
    assert!(matches!(&agent.history()[1], ChatMessage::System(m) if m.content == "s"));
    assert!(matches!(&agent.history()[2], ChatMessage::Assistant(_)));
}

#[test]
fn logged_messages_can_be_read_line_by_line() {
    let mut log = SessionLog::new();
    let messages = ["{\"a\":1}", "{}", "[\"\\n\"]"];
    let file: String = messages
        .iter()
        .map(|message| log.do_log(message).unwrap())
        .collect();
    assert_eq!(file.lines().collect::<Vec<&str>>(), messages);
    log.log_message(true);
    assert!(log.do_log("{}").is_some());
    log.log_message(false);
    log.log_message(true);
    assert!(log.do_log("{}").is_none());
    assert!(SessionLog::null().do_log("{}").is_none());
    assert_eq!(unreadable("e"), "Failed to read data: e");
    assert_eq!(unparsable("l", "e"), "Failed to parse data: l: e");
}
