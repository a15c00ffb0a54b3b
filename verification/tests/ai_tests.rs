use shuaforge_core::ai::{
    build_problem_set_analysis_prompt, build_review_prompt, continue_analysis_chat,
    local_learning_gap_analysis, local_problem_set_analysis, problem_batch_window,
    problem_set_analysis_system_prompt, uses_chat_completions, AiConfig, AiStep,
};
use shuaforge_core::problem::{Problem, ProblemState, ProblemType};
use shuaforge_core::store::AnswerRecord;

fn problem(id: &str, prompt: &str, answer: &str, tags: Vec<String>, kind: Option<ProblemType>) -> Problem {
    Problem {
        id: id.into(),
        prompt: prompt.into(),
        answer: answer.into(),
        explanation: String::new(),
        tags,
        problem_type: kind,
        deck_name: None,
        deck_info: None,
        images: vec![],
        state: ProblemState::default(),
    }
}

fn reply_text(step: AiStep) -> String {
    match step {
        AiStep::Reply(text) => text,
        AiStep::Ask(prompt) => panic!("expected a local reply, got a prompt: {prompt}"),
    }
}

#[test]
fn review_prompt_treats_saved_answer_as_reference_only() {
    let problem = problem("1", "简答题", "历史答案", vec![], None);

    let prompt = build_review_prompt(&problem, "本次答案");
    assert!(prompt.contains("不一定正确"));
    assert!(prompt.contains("用户本次答案：本次答案"));
    assert!(prompt.contains("不要自称老师"));
}

#[test]
fn local_problem_set_analysis_summarizes_types_and_tags() {
    let problem = problem(
        "1",
        "单选题\nA. 对\nB. 错",
        "A",
        vec!["统计学".into()],
        Some(ProblemType::SingleChoice),
    );

    let report = local_problem_set_analysis("测试题库", &[problem]);
    assert!(report.contains("| 单选 | 1 |"));
    assert!(report.contains("统计学"));
    assert!(report.contains("不推断难度比例"));
}

#[test]
fn problem_set_prompt_uses_tool_paging_instead_of_embedded_samples() {
    let problems = (0..35)
        .map(|index| {
            problem(
                &format!("p{index}"),
                "统计学是什么？\nA. 数据分析\nB. 绘画",
                "A",
                vec!["统计学".into()],
                Some(ProblemType::SingleChoice),
            )
        })
        .collect::<Vec<_>>();

    let prompt = build_problem_set_analysis_prompt("测试题组", &problems);
    assert!(prompt.contains("题组/题库「测试题组」总览如下"));
    assert!(prompt.contains("题库总览"));
    assert!(!prompt.contains("统计学是什么？"));
    assert!(!prompt.contains("以下是 30 道样例题"));

    let system_prompt = problem_set_analysis_system_prompt();
    assert!(system_prompt.contains("已通过工具读取完全部题目"));
    assert!(system_prompt.contains("next_cursor` 不是 null"));
    assert!(system_prompt.contains("每次只能请求一页题目"));
    assert!(system_prompt.contains("shuaforge.list_problems"));
    assert!(system_prompt.contains("shuaforge.get_problem"));
}

#[test]
fn local_learning_gap_analysis_reports_accuracy() {
    let records = vec![
        AnswerRecord {
            answered_at: "now".into(),
            problem_id: "p1".into(),
            user_answer: "A".into(),
            correct_answer: "A".into(),
            is_correct: true,
        },
        AnswerRecord {
            answered_at: "now".into(),
            problem_id: "p2".into(),
            user_answer: "B".into(),
            correct_answer: "A".into(),
            is_correct: false,
        },
    ];

    let report = local_learning_gap_analysis("测试题库", &records);
    assert!(report.contains("正确率：50.0%"));
    assert!(report.contains("p2"));
}

#[test]
fn continue_analysis_chat_guides_when_ai_disabled() {
    let reply = reply_text(continue_analysis_chat(
        &AiConfig::default(),
        "测试",
        "已有分析",
        "下一步怎么练",
    ));
    assert!(reply.contains("当前未启用 AI"));
    assert!(reply.contains("下一步怎么练"));
}

#[test]
fn blank_follow_up_question_is_refused() {
    let reply = reply_text(continue_analysis_chat(&AiConfig::default(), "测试", "已有分析", "   "));
    assert_eq!(reply, "请输入要追问的内容。");
}

#[test]
fn enabled_but_unconfigured_service_asks_for_settings() {
    let config = AiConfig {
        enabled: true,
        endpoint: " ".into(),
        api_key: String::new(),
        model: "m".into(),
        timeout_secs: 30,
    };
    let reply = reply_text(continue_analysis_chat(&config, "测试", "已有分析", "为什么"));
    assert_eq!(reply, "继续对话需要先启用并填写 endpoint/model。");
}

#[test]
fn configured_service_is_asked_with_the_follow_up() {
    let config = AiConfig {
        enabled: true,
        endpoint: "https://api.deepseek.com/chat/completions".into(),
        api_key: String::new(),
        model: "deepseek-chat".into(),
        timeout_secs: 30,
    };
    match continue_analysis_chat(&config, "测试", "已有分析", " 为什么 ") {
        AiStep::Ask(prompt) => {
            assert!(prompt.contains("分析对象：测试"));
            assert!(prompt.ends_with("用户追问：为什么"));
        }
        AiStep::Reply(text) => panic!("expected a prompt, got {text}"),
    }
}

#[test]
fn chat_completion_endpoints_are_recognised() {
    assert!(uses_chat_completions("https://api.deepseek.com/chat/completions"));
}

#[test]
fn batch_window_pages_through_the_problems() {
    let window = problem_batch_window(4, 1, 2);
    assert_eq!(window.read_count, 2);
    assert_eq!(window.end, 3);
    assert_eq!(window.next_cursor, Some(3));
    let last = problem_batch_window(4, 3, 2);
    assert_eq!(last.end, 4);
    assert_eq!(last.next_cursor, None);
}

#[test]
fn fenced_json_requests_are_found_in_replies() {
    let reply = "```json\n{\"tool\":\"shuaforge.list_problems\",\"cursor\":1,\"limit\":2}\n```";
    let candidates = shuaforge_core::ai::json_candidates(reply);
    assert_eq!(candidates.len(), 3);
    assert_eq!(candidates[0], reply);
    assert_eq!(candidates[1], "{\"tool\":\"shuaforge.list_problems\",\"cursor\":1,\"limit\":2}");
    assert_eq!(candidates[2], candidates[1]);
    assert_eq!(shuaforge_core::ai::json_candidates("  plain  "), vec!["plain".to_string()]);
    assert_eq!(shuaforge_core::ai::json_candidates("} {"), vec!["} {".to_string()]);
}

#[test]
fn only_problem_set_tools_are_accepted() {
    assert!(shuaforge_core::ai::is_problem_set_tool("shuaforge.list_problems"));
    assert!(shuaforge_core::ai::is_problem_set_tool("shuaforge.get_problem"));
    assert!(!shuaforge_core::ai::is_problem_set_tool("shuaforge.delete_everything"));
    assert_eq!(shuaforge_core::ai::chat_role_name("system"), "system");
    assert_eq!(shuaforge_core::ai::chat_role_name("tool"), "user");
}

#[test]
fn chat_reply_content_is_read_from_the_first_choice() {
    assert_eq!(
        shuaforge_core::ai::extract_chat_content(r#"{"choices":[{"message":{"content":"解析内容"}}]}"#).as_deref(),
        Some("解析内容")
    );
    assert_eq!(
        shuaforge_core::ai::extract_chat_content(r#"{"choices":[{"message":{"content":null},"text":"简单"}]}"#)
            .as_deref(),
        Some("简单")
    );
    assert_eq!(shuaforge_core::ai::extract_chat_content(r#"{"choices":[{"text":"简单"}]}"#), None);
    assert_eq!(shuaforge_core::ai::extract_chat_content(r#"{"choices":{"0":{"message":{"content":"x"}}}}"#), None);
    assert_eq!(shuaforge_core::ai::extract_chat_content("not json"), None);
}
