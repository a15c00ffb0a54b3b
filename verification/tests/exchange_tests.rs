use shuaforge_core::ai::{problem_set_analysis_system_prompt, AiConfig, AiStep};
use shuaforge_core::ai_exchange::{
    extract_explanation, pick_tool_request, plain_chat_prompt, plan_tool_call, reply_text,
    sse_line, stream_delta_content, stream_problem_set_analysis, ChatCompletionMessage,
    ExplainChoice, ExplainMessage, ExplainResponse, ProblemSetToolRequest, SseLine, StreamChoice,
    StreamDelta, StreamResponse, ToolCall, ToolConversation, ToolStep, MAX_TOOL_ROUNDS,
    NO_FINAL_REPORT, TOOLS_EXHAUSTED_REPORT,
};
use shuaforge_core::problem::{Problem, ProblemState, ProblemType};

fn problem(id: &str) -> Problem {
    Problem {
        id: id.into(),
        prompt: format!("题目 {id}\nA. 是\nB. 否"),
        answer: "A".into(),
        explanation: String::new(),
        tags: vec![],
        problem_type: Some(ProblemType::SingleChoice),
        deck_name: None,
        deck_info: None,
        images: vec![],
        state: ProblemState::default(),
    }
}

fn chat_choice(content: Option<&str>, text: Option<&str>) -> ExplainChoice {
    ExplainChoice {
        message: Some(ExplainMessage { content: content.map(str::to_owned) }),
        text: text.map(str::to_owned),
    }
}

fn request(tool: &str, id: Option<&str>, cursor: usize, limit: usize) -> ProblemSetToolRequest {
    ProblemSetToolRequest { tool: tool.into(), id: id.map(str::to_owned), cursor, limit }
}

// {"choices":[{"message":{"content":"解析内容"}}]}
#[test]
fn extracts_openai_like_response() {
    let reply = ExplainResponse {
        explanation: None,
        choices: Some(vec![chat_choice(Some("解析内容"), None)]),
    };
    assert_eq!(extract_explanation(&reply).as_deref(), Some("解析内容"));
}

// {"explanation":"简单解析"}
#[test]
fn extracts_simple_response() {
    let reply = ExplainResponse { explanation: Some("简单解析".into()), choices: None };
    assert_eq!(extract_explanation(&reply).as_deref(), Some("简单解析"));
}

#[test]
fn blank_explanation_falls_through_to_choices() {
    let reply = ExplainResponse {
        explanation: Some("   ".into()),
        choices: Some(vec![
            chat_choice(Some(" "), Some("不会用到")),
            ExplainChoice { message: None, text: Some("文本解析".into()) },
        ]),
    };
    assert_eq!(extract_explanation(&reply).as_deref(), Some("文本解析"));
}

#[test]
fn message_without_content_uses_choice_text() {
    let reply = ExplainResponse {
        explanation: None,
        choices: Some(vec![ExplainChoice {
            message: Some(ExplainMessage { content: None }),
            text: Some("补充文本".into()),
        }]),
    };
    assert_eq!(extract_explanation(&reply).as_deref(), Some("补充文本"));
}

#[test]
fn reply_without_explanation_is_shown_as_it_came() {
    let empty = ExplainResponse { explanation: None, choices: Some(vec![]) };
    assert_eq!(reply_text("原始回复", &Some(empty)), "原始回复");
    assert_eq!(reply_text("不是 JSON", &None), "不是 JSON");
    let full = ExplainResponse { explanation: Some("解析".into()), choices: None };
    assert_eq!(reply_text("{\"explanation\":\"解析\"}", &Some(full)), "解析");
}

#[test]
fn stream_chunk_gives_first_nonempty_delta() {
    let chunk = StreamResponse {
        choices: Some(vec![
            StreamChoice { delta: None },
            StreamChoice { delta: Some(StreamDelta { content: Some(String::new()) }) },
            StreamChoice { delta: Some(StreamDelta { content: Some(" 你好".into()) }) },
        ]),
    };
    assert_eq!(stream_delta_content(&chunk).as_deref(), Some(" 你好"));
    assert_eq!(stream_delta_content(&StreamResponse { choices: None }), None);
}

#[test]
fn event_stream_lines_are_classified() {
    assert_eq!(sse_line("  data: {\"a\":1}  "), SseLine::Data("{\"a\":1}".into()));
    assert_eq!(sse_line("data: [DONE]"), SseLine::Done);
    assert_eq!(sse_line(": keep-alive"), SseLine::Skip);
    assert_eq!(sse_line("   "), SseLine::Skip);
    assert_eq!(sse_line("event: message"), SseLine::Skip);
}

#[test]
fn plain_prompt_joins_messages_with_rules() {
    let messages = vec![
        ChatCompletionMessage { role: "system".into(), content: "规则".into() },
        ChatCompletionMessage { role: "user".into(), content: "问题".into() },
    ];
    assert_eq!(plain_chat_prompt(&messages), "system:\n规则\n\n---\n\nuser:\n问题");
    assert_eq!(plain_chat_prompt(&[]), "");
}

#[test]
fn first_request_naming_a_known_tool_is_picked() {
    let requests = vec![
        None,
        Some(request("shuaforge.unknown", None, 0, 30)),
        Some(request("shuaforge.list_problems", None, 1, 2)),
        Some(request("shuaforge.get_problem", Some("p1"), 0, 30)),
    ];
    assert_eq!(pick_tool_request(&requests), Some(2));
    assert_eq!(pick_tool_request(&vec![None, Some(request("other", None, 0, 30))]), None);
}

#[test]
fn tool_calls_are_planned_from_requests() {
    let problems: Vec<Problem> = (0..4).map(|i| problem(&format!("p{i}"))).collect();
    match plan_tool_call(&problems, &request("shuaforge.list_problems", None, 1, 2)) {
        ToolCall::List { cursor, window } => {
            assert_eq!(cursor, 1);
            assert_eq!(window.limit, 2);
            assert_eq!(window.read_count, 2);
            assert_eq!(window.remaining_count, 1);
            assert_eq!(window.next_cursor, Some(3));
        }
        other => panic!("unexpected {other:?}"),
    }
    assert_eq!(
        plan_tool_call(&problems, &request("shuaforge.get_problem", Some("p2"), 0, 30)),
        ToolCall::Detail(2)
    );
    assert_eq!(
        plan_tool_call(&problems, &request("shuaforge.get_problem", None, 0, 30)),
        ToolCall::MissingId
    );
    assert_eq!(
        plan_tool_call(&problems, &request("shuaforge.get_problem", Some("x"), 0, 30)),
        ToolCall::NotFound("x".into())
    );
    assert_eq!(plan_tool_call(&problems, &request("shuaforge.other", None, 0, 30)), ToolCall::UnknownTool);
}

#[test]
fn tool_conversation_runs_until_a_report_or_the_last_round() {
    let problems = vec![problem("p0")];
    let mut conversation = ToolConversation::start("题库", &problems);
    assert_eq!(conversation.messages.len(), 2);
    assert_eq!(conversation.messages[0].role, "system");
    assert_eq!(conversation.messages[0].content, problem_set_analysis_system_prompt());
    assert_eq!(conversation.messages[1].role, "user");

    assert_eq!(conversation.after_reply("取数".into(), Some("结果".into())), ToolStep::Send);
    assert_eq!(conversation.rounds, 1);
    assert_eq!(conversation.messages[2].role, "assistant");
    assert_eq!(conversation.messages[2].content, "取数");
    assert_eq!(conversation.messages[3].role, "system");
    assert_eq!(conversation.messages[3].content, "结果");

    assert_eq!(conversation.after_reply("报告".into(), None), ToolStep::Finish("报告".into()));
    assert_eq!(conversation.messages.len(), 4);

    let mut step = ToolStep::Send;
    while conversation.rounds < MAX_TOOL_ROUNDS {
        step = conversation.after_reply("再取".into(), Some("{}".into()));
    }
    assert_eq!(step, ToolStep::Exhausted);
    assert_eq!(conversation.messages.len(), 2 + 2 * MAX_TOOL_ROUNDS);
    assert!(TOOLS_EXHAUSTED_REPORT.contains("未生成最终报告"));
    assert!(NO_FINAL_REPORT.contains("未生成最终报告"));
}

#[test]
fn streamed_analysis_starts_locally_unless_the_service_is_ready() {
    let problems = vec![problem("p0")];
    let off = AiConfig::default();
    assert_eq!(stream_problem_set_analysis(&off, "题库", &[]), AiStep::Reply("没有可分析的题目。".into()));
    assert!(matches!(stream_problem_set_analysis(&off, "题库", &problems), AiStep::Reply(_)));
    let unconfigured = AiConfig { enabled: true, ..AiConfig::default() };
    assert!(matches!(stream_problem_set_analysis(&unconfigured, "题库", &problems), AiStep::Reply(_)));
    let ready = AiConfig {
        enabled: true,
        endpoint: "https://api.example.test/chat/completions".into(),
        api_key: String::new(),
        model: "demo".into(),
        timeout_secs: 30,
    };
    assert!(matches!(stream_problem_set_analysis(&ready, "题库", &problems), AiStep::Ask(_)));
}
