use shuaforge_core::ai::{AnalysisStreamEvent, AnalysisToolResult};
use shuaforge_core::analysis_dialog::{
    import_failure_message, AnalysisDialogState, AnalysisKind, AnalysisProgressState,
    AnalysisSession, ChatRole, ImportQualitySummary, ProblemImportBatchSummary,
};
use shuaforge_core::store::ImportSummary;
use shuaforge_core::deck::SubmitResult;
use shuaforge_core::practice_flow::{
    plan_submission, submit_feedback, SubmitPlan, UpdateCheckSource, UpdateResponse,
    UpdateUiState,
};
use shuaforge_core::problem::{Problem, ProblemAnswerSource, ProblemReviewStatus, ProblemState, ProblemType};
use shuaforge_core::self_update::{UpdateInfo, UpdateOutcome};

fn problem(id: &str) -> Problem {
    Problem {
        id: id.into(),
        prompt: "题目\nA. 是\nB. 否".into(),
        answer: "A".into(),
        explanation: String::new(),
        tags: vec![],
        problem_type: Some(ProblemType::SingleChoice),
        deck_name: None,
        deck_info: None,
        images: vec![],
        state: ProblemState::default(),
    }
}

#[test]
fn loading_dialog_shows_request_tool_call_and_placeholder() {
    let dialog = AnalysisDialogState::loading("测试".into(), AnalysisKind::ProblemSet, "shuaforge.analyze_problem_set", "{}".into());
    assert_eq!(dialog.messages.len(), 3);
    assert_eq!(dialog.messages[0].role, ChatRole::User);
    assert_eq!(dialog.messages[1].title, "Tool Call · shuaforge.analyze_problem_set");
    assert_eq!(dialog.messages[2].content, "AI 总监正在审查，请稍候...");
    assert!(dialog.is_loading);
}

#[test]
fn tool_result_fills_tool_and_assistant_messages() {
    let mut dialog = AnalysisDialogState::loading("测试".into(), AnalysisKind::LearningGap, "t", "{}".into());
    dialog.apply_tool_result(&AnalysisToolResult {
        tool_name: "shuaforge.analyze_learning_gaps".into(),
        arguments_json: "{\"answer_record_count\":1}".into(),
        result: "报告".into(),
    });
    assert_eq!(dialog.messages[1].title, "Tool Call · shuaforge.analyze_learning_gaps");
    assert_eq!(dialog.messages[1].content, "{\"answer_record_count\":1}");
    assert_eq!(dialog.messages[2].content, "报告");
    assert_eq!(dialog.latest_result, "报告");
    assert!(!dialog.is_loading);
}

#[test]
fn follow_up_question_waits_for_its_reply() {
    let mut dialog = AnalysisDialogState::loading("测试".into(), AnalysisKind::ProblemSet, "t", "{}".into());
    dialog.input = " 怎么练 ".into();
    assert_eq!(dialog.begin_follow_up(), None);
    dialog.is_loading = false;
    dialog.latest_result = "已有分析".into();
    let (title, latest, question) = dialog.begin_follow_up().expect("question sent");
    assert_eq!((title.as_str(), latest.as_str(), question.as_str()), ("测试", "已有分析", "怎么练"));
    assert_eq!(dialog.input, "");
    assert_eq!(dialog.messages.len(), 5);
    assert!(dialog.is_loading);
    dialog.apply_follow_up_reply("多做题".into());
    assert_eq!(dialog.messages[4].content, "多做题");
    assert!(!dialog.is_loading);
}

#[test]
fn streamed_analysis_replaces_the_placeholder() {
    let mut session = AnalysisSession {
        analysis: String::new(),
        status: String::new(),
        progress: None,
        dialog: Some(AnalysisDialogState::loading("测试".into(), AnalysisKind::ProblemSet, "t", "{}".into())),
    };
    assert!(!session.apply_stream_event(AnalysisStreamEvent::ToolCall { arguments_json: "{\"a\":1}".into() }));
    assert!(!session.apply_stream_event(AnalysisStreamEvent::TextDelta("第一段".into())));
    assert!(!session.apply_stream_event(AnalysisStreamEvent::TextDelta("第二段".into())));
    let dialog = session.dialog.as_ref().unwrap();
    assert_eq!(dialog.messages[1].title, "Tool Call · shuaforge.ai_director_review_problem_set");
    assert_eq!(dialog.messages[2].content, "第一段第二段");
    assert_eq!(dialog.latest_result, "第一段第二段");
    assert_eq!(session.progress.as_ref().unwrap().text(), "AI 总监正在生成审查报告");
    assert!(!session.apply_stream_event(AnalysisStreamEvent::Failed("超时".into())));
    assert_eq!(session.status, "AI 分析失败，已尝试回退：超时");
    assert!(session.apply_stream_event(AnalysisStreamEvent::Finished));
    assert_eq!(session.status, "AI 总监审查完成。");
    assert!(session.progress.is_none());
    assert!(!session.dialog.as_ref().unwrap().is_loading);
}

#[test]
fn progress_text_caps_the_current_step() {
    assert_eq!(AnalysisProgressState::new("读取题目", 7, 5).text(), "读取题目 · 5/5");
    assert_eq!(AnalysisProgressState::new("读取题目", 2, 5).text(), "读取题目 · 2/5");
    assert_eq!(AnalysisProgressState::new("等待", 2, 0).text(), "等待");
}

#[test]
fn import_quality_is_counted_and_described() {
    let mut pending = problem("b");
    pending.state.review_status = ProblemReviewStatus::Pending;
    pending.state.answer_source = ProblemAnswerSource::UserTemporary;
    let mut text = problem("c");
    text.problem_type = Some(ProblemType::Text);
    let summary = ImportQualitySummary::from_problems(&[problem("a"), pending, text]);
    assert_eq!(summary.total, 3);
    assert_eq!(summary.standard, 2);
    assert_eq!(summary.review_needed, 1);
    assert_eq!(
        summary.describe(),
        "题型：单选 2，多选 0，文本 1；答案来源：标准 2，临时 1，得分推断 0，AI复核 0，人工确认 0；需 AI/人工复核 1"
    );
    let mut total = ImportQualitySummary::from_problems(&[]);
    assert_eq!(total.describe(), "");
    total.add(&summary);
    total.add(&summary);
    assert_eq!(total.total, 6);
    assert_eq!(total.text, 2);
}

#[test]
fn submission_is_planned_from_the_current_problem() {
    assert_eq!(plan_submission(None, "A", None), SubmitPlan::Refuse("请先导入题库。".into()));
    let p = problem("p1");
    assert_eq!(plan_submission(Some(&p), "  ", None), SubmitPlan::Refuse("请输入答案后再提交。".into()));
    assert_eq!(plan_submission(Some(&p), "A", Some("p1")), SubmitPlan::Submit { keep: true });
    assert_eq!(plan_submission(Some(&p), "A", Some("p2")), SubmitPlan::Submit { keep: false });
    let mut held = problem("p3");
    held.state.review_needed = true;
    match plan_submission(Some(&held), " 我的 ", None) {
        SubmitPlan::HoldForReview { analysis, .. } => assert!(analysis.contains("你的输入：我的\n")),
        other => panic!("unexpected plan {other:?}"),
    }
}

#[test]
fn feedback_follows_the_verdict() {
    let correct = submit_feedback(&SubmitResult::Correct, false);
    assert_eq!(correct.status, "回答正确，已从题库移除。");
    assert_eq!(correct.record_correct, Some(true));
    let wrong = submit_feedback(&SubmitResult::Wrong { expected: "A".into(), explanation: " ".into() }, false);
    assert_eq!(wrong.status, "回答错误，已重新加入题库。标准答案：A");
    assert!(wrong.request_explanation);
    let none = submit_feedback(&SubmitResult::NoCurrentProblem, false);
    assert_eq!(none.analysis, None);
}

fn update_state(source: Option<UpdateCheckSource>, ignored: Option<&str>) -> UpdateUiState {
    UpdateUiState {
        status: "就绪".into(),
        update_status: String::new(),
        update_info: None,
        show_update_prompt: false,
        is_update_checking: true,
        is_update_applying: false,
        downloaded_bytes: 0,
        total_bytes: 0,
        ignored_tag: ignored.map(String::from),
        check_source: source,
    }
}

fn info(tag: &str) -> UpdateInfo {
    UpdateInfo { tag_name: tag.into(), release_name: tag.into(), asset_name: "a.zip".into(), size: 1 }
}

#[test]
fn ignored_release_is_not_offered_at_startup() {
    let mut state = update_state(Some(UpdateCheckSource::Startup), Some("v9.0.0"));
    assert!(state.apply_update_response(UpdateResponse::CheckFinished(Ok(Some(info("v9.0.0"))))));
    assert!(!state.show_update_prompt);
    assert_eq!(state.update_status, "发现新版本 v9.0.0（当前 v0.1.5）。");
    let mut manual = update_state(Some(UpdateCheckSource::Manual), Some("v9.0.0"));
    manual.apply_update_response(UpdateResponse::CheckFinished(Ok(Some(info("v9.0.0")))));
    assert!(manual.show_update_prompt);
}

#[test]
fn update_errors_and_progress_are_reported() {
    let mut state = update_state(None, None);
    state.apply_update_response(UpdateResponse::CheckFinished(Err("离线".into())));
    assert_eq!(state.status, "检查更新失败：离线");
    assert!(!state.apply_update_response(UpdateResponse::ApplyProgress { downloaded: 1536, total: 0 }));
    assert_eq!(state.update_status, "正在下载更新... 1.5 KB");
    state.apply_update_response(UpdateResponse::ApplyProgress { downloaded: 2048, total: 4096 });
    assert_eq!(state.update_status, "正在下载更新... 2.0 KB / 4.0 KB");
    assert!(state.apply_update_response(UpdateResponse::ApplyFinished(Ok(UpdateOutcome::Skipped))));
    assert_eq!(state.status, "开发构建或当前环境不适合自动替换，已跳过更新。");
}

#[test]
fn import_batches_are_reported_in_one_line() {
    let mut batch = ProblemImportBatchSummary::new();
    assert_eq!(batch.status_text(), "没有成功导入题库。");
    let summary = ImportSummary { deck_id: 1, imported: 2, inserted: 1, updated: 1 };
    batch.add_imported("a.json".into(), &summary, &[problem("a"), problem("b")]);
    assert_eq!(
        batch.status_text(),
        "导入 2 道题：新增 1，更新 1。已保存到题库列表。 题型：单选 2，多选 0，文本 0；答案来源：标准 2，临时 0，得分推断 0，AI复核 0，人工确认 0；无需复核。"
    );
    batch.add_imported("b.json".into(), &summary, &[]);
    batch.add_failure(import_failure_message("c.txt", "格式不支持", false));
    batch.add_failure(import_failure_message("d.json", "磁盘已满", true));
    assert!(batch.status_text().starts_with("批量导入完成：成功 2 个文件，共 4 道题；新增 2，更新 2。 失败 2 个：c.txt：格式不支持；d.json：保存失败：磁盘已满 "));
    assert_eq!(batch.last_imported_path.as_deref(), Some("b.json"));
}

#[test]
fn ai_import_status_counts_files_and_characters() {
    let mut batch = ProblemImportBatchSummary::new();
    assert_eq!(batch.ai_import_status(1, 100), None);
    let summary = ImportSummary { deck_id: 1, imported: 3, inserted: 3, updated: 0 };
    batch.add_imported("a.pdf".into(), &summary, &[]);
    assert_eq!(batch.ai_import_status(1, 1200).as_deref(), Some("AI 导入完成：从约 1200 个字符中提取并导入 3 道题。"));
    batch.add_failure(import_failure_message("b.pdf", "超时", false));
    assert_eq!(
        batch.ai_import_status(2, 1500).as_deref(),
        Some("AI 批量导入完成：成功 1/2 个文件，从约 1500 个字符中提取并导入 3 道题；新增 3，更新 0。 失败 1 个：b.pdf：超时")
    );
}
