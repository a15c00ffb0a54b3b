use shuaforge_core::problem::{Problem, ProblemAnswerSource, ProblemReviewStatus, ProblemState, ProblemType};
use shuaforge_core::problem_export::{default_export_file_name, ExportProblemBank};
use shuaforge_core::store::{
    import_deck_name, problem_type_to_str, review_status_to_str, str_to_problem_type,
    str_to_review_status,
};
use shuaforge_core::tag_stats::rank_tags;
use shuaforge_core::ui_model::{
    ai_review_action_summary, browser_snapshot_import_meta, choice_row_text, compact_middle,
    compact_text, display_answer_value, format_bytes, handle_practice_keyboard,
    import_director_analysis_title, platform_name, problem_display_type_label,
    safe_virtual_source_name, system_font_candidates, FilePickerResults, KeyModifiers,
    PracticeKeyboardActions, PracticeKeys,
};
use shuaforge_core::markdown::CODECOGS_SVG_URL_TEMPLATE;
use shuaforge_core::ui_model::{
    formula_render_preset_label, formula_render_short_label, is_formula_render_preset,
    shortcut_button_label,
};
use shuaforge_core::ui_model::{
    analysis_titles_affected_by_deck, analysis_titles_affected_by_import, current_user_answer,
    deck_drag_ids, is_deck_dragging, theme_button_icon, theme_button_tooltip, AppTheme,
};
use std::path::PathBuf;

fn problem(id: &str, deck_name: &str) -> Problem {
    Problem {
        id: id.into(),
        prompt: format!("题目 {id}"),
        answer: "A".into(),
        explanation: String::new(),
        tags: vec![],
        problem_type: Some(ProblemType::SingleChoice),
        deck_name: Some(deck_name.into()),
        deck_info: None,
        images: vec![],
        state: ProblemState::default(),
    }
}

#[test]
fn bank_backfills_deck_metadata() {
    let bank = ExportProblemBank::new("第一章".into(), "导出测试".into(), vec![problem("p1", "")], 0);

    assert_eq!(bank.problem_count, 1);
    assert_eq!(bank.problems[0].deck_name.as_deref(), Some("第一章"));
    assert_eq!(bank.problems[0].deck_info.as_deref(), Some("导出测试"));
}

#[test]
fn export_file_name_carries_a_safe_stem_and_the_time() {
    assert_eq!(default_export_file_name("第一章/习题", ".json", 7), "第一章_习题-7.json");
    assert_eq!(default_export_file_name(" .. ", "zip", 0), "shuaforge-export-0.zip");
}

#[test]
fn browser_snapshot_import_title_uses_deck_name_for_new_virtual_sources() {
    let path = PathBuf::from("browser-snapshot-第一章-abcdef.json");

    assert_eq!(
        import_director_analysis_title(&path.to_string_lossy(), Some("第一章")).as_deref(),
        Some("AI总监审查 · 浏览器页面快照 · 第一章")
    );
    assert_eq!(
        import_director_analysis_title(&PathBuf::from("浏览器页面快照").to_string_lossy(), None).as_deref(),
        Some("AI总监审查 · 浏览器页面快照")
    );
    assert_eq!(import_director_analysis_title("bank.json", Some("第一章")), None);
}

#[test]
fn browser_snapshot_source_path_is_stable_and_distinguishes_decks() {
    let first_snapshot = r#"{
        "url": "https://example.test/homework/1",
        "title": "作业详情",
        "bank": { "name": "第一章", "info": "" }
    }"#;
    let second_snapshot = r#"{
        "url": "https://example.test/homework/2",
        "title": "作业详情",
        "bank": { "name": "第二章", "info": "" }
    }"#;

    let first = browser_snapshot_import_meta(first_snapshot, &[problem("p1", "第一章")]);
    let first_again = browser_snapshot_import_meta(first_snapshot, &[problem("p1", "第一章")]);
    let second = browser_snapshot_import_meta(second_snapshot, &[problem("p2", "第二章")]);

    assert_eq!(first.source_path, first_again.source_path);
    assert_ne!(first.source_path, second.source_path);
    assert_eq!(first.director_title, "浏览器页面快照 · 第一章");
    assert_eq!(second.director_title, "浏览器页面快照 · 第二章");
    assert!(first.source_path.starts_with("browser-snapshot-第一章-"));
    assert!(first.source_path.ends_with(".json"));
    assert_eq!(first.source_path.len(), "browser-snapshot-第一章-".len() + 16 + ".json".len());
}

#[test]
fn snapshot_without_bank_name_falls_back_to_deck_then_title() {
    let meta = browser_snapshot_import_meta(r#"{"title":" 作业 "}"#, &[problem("p1", "  ")]);
    assert_eq!(meta.director_title, "浏览器页面快照 · 作业");
    let meta = browser_snapshot_import_meta("not json", &[]);
    assert_eq!(meta.director_title, "浏览器页面快照 · 浏览器页面快照");
}

#[test]
fn virtual_source_names_are_path_safe() {
    assert_eq!(safe_virtual_source_name(" 第一章 / 习题:1 "), "第一章-习题-1");
    assert_eq!(safe_virtual_source_name("///"), "browser");
    assert_eq!(safe_virtual_source_name(&"x".repeat(60)).chars().count(), 48);
}

#[test]
fn latin_ui_font_candidates_precede_cjk_fallbacks() {
    let candidates = system_font_candidates();
    let segoe = candidates.iter().position(|(name, _)| *name == "Segoe UI").expect("Segoe UI candidate");
    let yahei = candidates
        .iter()
        .position(|(name, _)| *name == "Microsoft YaHei")
        .expect("Microsoft YaHei candidate");

    assert!(segoe < yahei);
}

#[test]
fn byte_sizes_use_binary_units() {
    assert_eq!(format_bytes(0), "0 B");
    assert_eq!(format_bytes(1023), "1023 B");
    assert_eq!(format_bytes(1536), "1.5 KB");
    assert_eq!(format_bytes(1280), "1.2 KB");
    assert_eq!(format_bytes(3 * 1024 * 1024), "3.0 MB");
    assert_eq!(format_bytes(5 * 1024 * 1024 * 1024 * 1024), "5120.0 GB");
}

#[test]
fn texts_are_shortened_around_an_ellipsis() {
    assert_eq!(compact_middle("abcdefghij", 7), "abc…hij");
    assert_eq!(compact_middle("abcdefghij", 3), "…");
    assert_eq!(compact_middle("abc", 7), "abc");
    assert_eq!(compact_text("abcdefghij", 4), "…hij");
}

#[test]
fn judgement_answers_are_shown_as_true_or_false() {
    let mut p = problem("j", "d");
    p.prompt = "判断题\nA. 对\nB. 错".into();
    assert_eq!(problem_display_type_label(&p), "判断题");
    assert_eq!(display_answer_value(&p, " A "), "对");
    assert_eq!(display_answer_value(&p, "错误"), "错");
    assert_eq!(display_answer_value(&problem("s", "d"), "A"), "A");
}

#[test]
fn review_summary_counts_each_outcome() {
    let mut accepted = problem("a", "d");
    accepted.state.answer_source = ProblemAnswerSource::AiReviewed;
    accepted.state.review_status = ProblemReviewStatus::Accepted;
    let mut conflict = problem("c", "d");
    conflict.state.review_status = ProblemReviewStatus::Conflict;
    let summary = ai_review_action_summary(&[accepted, conflict, problem("n", "d")]);
    assert_eq!(summary, "自动采纳 1，仍待确认 1，冲突 1");
}

#[test]
fn platform_and_row_markers() {
    assert_eq!(platform_name(), "ios");
    assert_eq!(choice_row_text("A. 对", true, false), "◉  A. 对");
    assert_eq!(choice_row_text("B. 错", false, true), "☐  B. 错");
}

fn keys() -> PracticeKeys {
    PracticeKeys {
        text_input_focused: false,
        modifiers: KeyModifiers { alt: false, ctrl: false, shift: false, mac_cmd: false, command: false },
        enter: false,
        key_i: false,
        key_s: false,
        key_d: false,
        escape: false,
        space: false,
        arrow_up: false,
        arrow_down: false,
        arrow_left: false,
        arrow_right: false,
    }
}

#[test]
fn arrows_and_space_select_options() {
    let mut p = problem("m", "d");
    p.prompt = "多选\nA. 一\nB. 二\nC. 三".into();
    p.problem_type = Some(ProblemType::MultipleChoice);
    let mut single = None;
    let mut multiple: Vec<String> = vec![];
    let mut focus = 0usize;
    let mut visible = false;
    let mut k = keys();
    k.arrow_down = true;
    k.space = true;
    let actions = handle_practice_keyboard(&k, &p, &mut single, &mut multiple, &mut focus, &mut visible);
    assert_eq!(actions, PracticeKeyboardActions::default());
    assert_eq!(focus, 1);
    assert!(visible);
    assert_eq!(multiple, vec!["B".to_string()]);
    let mut k = keys();
    k.space = true;
    k.enter = true;
    let actions = handle_practice_keyboard(&k, &p, &mut single, &mut multiple, &mut focus, &mut visible);
    assert!(actions.submit);
    assert!(multiple.is_empty());
    assert_eq!(single, None);
}

#[test]
fn text_answers_take_ctrl_shortcuts_only() {
    let mut p = problem("t", "d");
    p.prompt = "简答".into();
    p.problem_type = Some(ProblemType::Text);
    let (mut single, mut multiple, mut focus, mut visible) = (None, vec![], 0usize, false);
    let mut k = keys();
    k.enter = true;
    let plain = handle_practice_keyboard(&k, &p, &mut single, &mut multiple, &mut focus, &mut visible);
    assert!(!plain.submit);
    k.modifiers.ctrl = true;
    let ctrl = handle_practice_keyboard(&k, &p, &mut single, &mut multiple, &mut focus, &mut visible);
    assert!(ctrl.submit);
    k.text_input_focused = true;
    let focused = handle_practice_keyboard(&k, &p, &mut single, &mut multiple, &mut focus, &mut visible);
    assert_eq!(focused, PracticeKeyboardActions::default());
}

#[test]
fn file_picker_results_come_out_oldest_first() {
    let mut queue = FilePickerResults::new();
    assert_eq!(queue.poll_problem_bank_file_picker_result(), None);
    queue.push_file_picker_result(Ok("/a.json".into()));
    queue.push_file_picker_result(Err("取消".into()));
    assert_eq!(queue.poll_problem_bank_file_picker_result(), Some(Ok("/a.json".into())));
    assert_eq!(queue.poll_problem_bank_file_picker_result(), Some(Err("取消".into())));
    assert_eq!(queue.poll_problem_bank_file_picker_result(), None);
}

#[test]
fn stored_enum_names_read_back() {
    for kind in [ProblemType::SingleChoice, ProblemType::MultipleChoice, ProblemType::Text] {
        assert_eq!(str_to_problem_type(problem_type_to_str(kind)), Some(kind));
    }
    for status in [ProblemReviewStatus::Pending, ProblemReviewStatus::Conflict, ProblemReviewStatus::Accepted] {
        assert_eq!(str_to_review_status(review_status_to_str(status)), status);
    }
}

#[test]
fn import_deck_name_prefers_the_problems_deck() {
    assert_eq!(import_deck_name(&[problem("p", "第二章")], "/tmp/bank.json"), "第二章");
    assert_eq!(import_deck_name(&[], "/tmp/统计学.json"), "统计学");
}

#[test]
fn tags_are_ranked_by_count_then_name() {
    let mut a = problem("a", "d");
    a.tags = vec!["b".into(), "a".into()];
    let mut b = problem("b", "d");
    b.tags = vec!["b".into()];
    let ranked = rank_tags(&[a, b]);
    assert_eq!(ranked.len(), 2);
    assert_eq!(ranked[0].tag, "b");
    assert_eq!(ranked[0].count, 2);
    assert_eq!(ranked[1].tag, "a");
}

#[test]
fn labels_of_buttons_and_formula_services() {
    assert_eq!(shortcut_button_label("提交", true, true, "Ctrl+Enter", "Enter"), "提交 Ctrl+Enter");
    assert_eq!(shortcut_button_label("提交", false, true, "Ctrl+Enter", "Enter"), "提交 Enter");
    assert_eq!(shortcut_button_label("提交", false, false, "Ctrl+Enter", "Enter"), "提交");
    let label = formula_render_preset_label(CODECOGS_SVG_URL_TEMPLATE);
    assert_eq!(label, "CodeCogs SVG（公共免费服务，不保证可用）");
    assert_eq!(formula_render_short_label(label), "CodeCogs SVG");
    assert_eq!(formula_render_preset_label("https://x.test/{latex}"), "自定义服务");
    assert!(is_formula_render_preset(CODECOGS_SVG_URL_TEMPLATE));
    assert!(!is_formula_render_preset("https://x.test/{latex}"));
    assert_eq!(formula_render_short_label("（全角"), "（全角");
}

#[test]
fn form_answers_follow_the_problem_type() {
    let mut multi = problem("m", "d");
    multi.prompt = "多选\nA. 一\nB. 二\nC. 三".into();
    multi.problem_type = Some(ProblemType::MultipleChoice);
    let picked = vec!["C".to_string(), "A".to_string()];
    assert_eq!(current_user_answer(&multi, &None, &picked, ""), "AC");
    let single = problem("s", "d");
    assert_eq!(current_user_answer(&single, &Some("B".into()), &vec![], ""), "B");
    assert_eq!(current_user_answer(&single, &None, &vec![], ""), "");
    let mut text = problem("t", "d");
    text.problem_type = Some(ProblemType::Text);
    assert_eq!(current_user_answer(&text, &None, &vec![], "我的答案"), "我的答案");
}

#[test]
fn stale_analyses_are_named_for_imports_and_decks() {
    assert_eq!(
        analysis_titles_affected_by_import("browser-snapshot-x-1.json", Some(" 第一章 ")),
        vec!["题库：第一章".to_string(), "AI总监审查 · 浏览器页面快照 · 第一章".to_string()]
    );
    assert_eq!(analysis_titles_affected_by_import("bank.json", None), Vec::<String>::new());
    assert_eq!(
        analysis_titles_affected_by_deck("第一章", Some(("bank.json", "第一章")), &vec!["期末".into()]),
        vec!["题库：第一章".to_string(), "题组：期末".to_string()]
    );
}

#[test]
fn dragging_moves_the_selection_together() {
    assert_eq!(deck_drag_ids(&vec![1, 2], 2), vec![1, 2]);
    assert_eq!(deck_drag_ids(&vec![1, 2], 3), vec![3]);
    assert!(is_deck_dragging(&vec![1, 2], Some(1), 2));
    assert!(!is_deck_dragging(&vec![1], Some(1), 2));
    assert!(is_deck_dragging(&vec![], Some(5), 5));
    assert!(!is_deck_dragging(&vec![1, 2], None, 2));
    assert_eq!(theme_button_icon(AppTheme::Dark), "☀");
    assert_eq!(theme_button_tooltip(AppTheme::Light), "切换到深色主题");
}
