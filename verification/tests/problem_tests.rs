use shuaforge_core::normalize::normalize_problem;
use shuaforge_core::problem::{
    clean_tags, is_system_tag, split_tag_text, normalize_answer, normalize_choice_answer, visible_tags, Problem,
    ProblemAnswerSource, ProblemState, ProblemType,
};

fn problem(id: &str, prompt: &str, answer: &str, explanation: &str, kind: Option<ProblemType>) -> Problem {
    Problem {
        id: id.into(),
        prompt: prompt.into(),
        answer: answer.into(),
        explanation: explanation.into(),
        tags: vec![],
        problem_type: kind,
        deck_name: None,
        deck_info: None,
        images: vec![],
        state: ProblemState::default(),
    }
}

#[test]
fn problem_answers_are_case_and_space_insensitive() {
    let problem = problem("1", "Rust 所有权英文？", "Ownership", "", None);

    assert!(problem.is_correct(" ownership "));
    assert_eq!(normalize_answer("  A   B  "), "a b");
}

#[test]
fn problem_multiple_choice_answer_order_does_not_matter() {
    let problem = problem(
        "1",
        "多选\nA. 参数估计\nB. 绘图\nC. 假设检验",
        "A,C",
        "",
        Some(ProblemType::MultipleChoice),
    );

    assert!(problem.is_correct("C A"));
}

#[test]
fn problem_tags_are_cleaned() {
    assert_eq!(
        clean_tags(&vec!["：".into(), "知识点：\n测量尺度".into(), "测量尺度".into()]),
        vec!["测量尺度"]
    );
}

#[test]
fn visible_tags_hide_system_statuses() {
    let tags = vec![
        "AI知识点:需求弹性".into(),
        "作答错误".into(),
        "待复核".into(),
        "本题得分:0分".into(),
        "统计学".into(),
        "AI复核结论:错误".into(),
    ];

    let visible = visible_tags(&tags);
    assert_eq!(visible, vec!["需求弹性", "统计学"]);
}

#[test]
fn problem_judgement_answers_are_normalized_to_choice_keys() {
    let problem = normalize_problem(problem(
        "judge",
        "样本均值是总体均值的无偏估计。\nA. 对\nB. 错",
        "对",
        "",
        None,
    ));

    assert_eq!(problem.answer, "A");
    assert_eq!(problem.kind(), ProblemType::SingleChoice);
    assert!(problem.is_judgement());
}

#[test]
fn judgement_answer_with_score_line_is_normalized() {
    let mut raw = problem(
        "judge-score",
        "平均固定成本会随着产量增加而不断上升。\nA. 对\nB. 错",
        "错\n2分",
        "页面没有提供标准答案，已使用“我的答案”作为导出答案；本题得分可用于判断该作答是否正确。 当前作答得分 2 分；填空/主观题评分规则不确定，需人工复核后再作为标准答案使用。",
        Some(ProblemType::Text),
    );
    raw.state.user_answer = "错".into();
    raw.state.score_display = "2".into();
    let problem = normalize_problem(raw);

    assert_eq!(problem.answer, "B");
    assert_eq!(problem.kind(), ProblemType::SingleChoice);
    assert!(problem.is_judgement());
    assert_eq!(problem.state.answer_source, ProblemAnswerSource::ScoreInferred);
    assert!(!problem.needs_ai_review());
}

#[test]
fn problem_multi_choice_keywords_infer_multiple_choice() {
    let problem = normalize_problem(problem(
        "multi",
        "下列哪些是参数估计的评价标准(\nA. 无偏性\nB. 有效性\nC. 一致性\nD. 随机性",
        "A",
        "未批改：页面没有提供正确答案，已使用“我的答案”作为临时答案。",
        None,
    ));

    assert_eq!(problem.kind(), ProblemType::MultipleChoice);
}

#[test]
fn problem_detects_pending_ai_review_problem() {
    let problem = normalize_problem(problem(
        "pending",
        "简答题",
        "我的旧答案",
        "未批改：页面没有提供正确答案，已使用“我的答案”作为临时答案。",
        None,
    ));

    assert!(problem.needs_ai_review());
}

#[test]
fn score_inferred_correct_choice_does_not_need_ai_review() {
    let mut raw = problem(
        "score-correct",
        "单选题\nA. 正确项\nB. 干扰项",
        "A",
        "页面没有提供标准答案，已使用“我的答案”作为导出答案；本题得分可用于判断该作答是否正确。 当前作答得分 2.6 分，单选题可推断该答案正确。",
        None,
    );
    raw.tags = vec!["无标准答案".into(), "按得分推断".into(), "本题得分:2.6分".into(), "作答正确".into()];
    let problem = normalize_problem(raw);

    assert!(!problem.needs_ai_review());
}

#[test]
fn score_inferred_wrong_choice_needs_ai_review() {
    let mut raw = problem(
        "score-wrong",
        "单选题\nA. 正确项\nB. 错误项",
        "B",
        "页面没有提供标准答案，已使用“我的答案”作为导出答案；本题得分可用于判断该作答是否正确。 当前作答得分 0 分，单选题可推断该作答错误；因页面未给出标准答案，需人工补全正确答案。",
        None,
    );
    raw.tags = vec![
        "无标准答案".into(),
        "按得分推断".into(),
        "本题得分:0分".into(),
        "作答错误".into(),
        "待复核".into(),
    ];
    let problem = normalize_problem(raw);

    assert!(problem.needs_ai_review());
}

#[test]
fn mixed_answer_field_extracts_correct_and_user_answers() {
    let problem = normalize_problem(problem(
        "judge-mixed",
        "判断题\nA. 对\nB. 错",
        "我的答案:对\n正确答案:对",
        "",
        None,
    ));

    assert_eq!(problem.answer, "A");
    assert_eq!(problem.state.user_answer, "对");
    assert_eq!(problem.kind(), ProblemType::SingleChoice);
    assert!(problem.is_judgement());
}

#[test]
fn choice_answers_keep_option_letters_only() {
    assert_eq!(normalize_choice_answer("c, a"), "AC");
    assert_eq!(normalize_choice_answer("B A B"), "AB");
}

#[test]
fn system_tags_are_recognised() {
    assert!(is_system_tag("待复核"));
    assert!(is_system_tag("本题得分:0分"));
    assert!(!is_system_tag("统计学"));
}

#[test]
fn question_text_and_options_are_split_from_the_prompt() {
    let problem = problem("q", "哪个是质数？\nA. 4\nB. 7", "B", "", None);
    let options = problem.options();
    assert_eq!(problem.question_text(), "哪个是质数？");
    assert_eq!(options.len(), 2);
    assert_eq!(options[1].key, "B");
    assert_eq!(options[1].text, "7");
    assert_eq!(problem.kind(), ProblemType::SingleChoice);
    assert!(!problem.is_judgement());
}

#[test]
fn answers_are_case_and_space_insensitive() {
    let problem = problem("1", "Rust 所有权英文？", "Ownership", "", None);

    assert!(problem.is_correct(" ownership "));
    assert_eq!(normalize_answer("  A   B  "), "a b");
}

#[test]
fn multiple_choice_answer_order_does_not_matter() {
    let problem = problem(
        "1",
        "多选\nA. 参数估计\nB. 绘图\nC. 假设检验",
        "A,C",
        "",
        Some(ProblemType::MultipleChoice),
    );

    assert!(problem.is_correct("C A"));
}

#[test]
fn tags_are_cleaned() {
    assert_eq!(
        clean_tags(&vec!["：".into(), "知识点：\n测量尺度".into(), "测量尺度".into()]),
        vec!["测量尺度"]
    );
}

#[test]
fn judgement_answers_are_normalized_to_choice_keys() {
    let problem = normalize_problem(problem(
        "judge",
        "样本均值是总体均值的无偏估计。\nA. 对\nB. 错",
        "对",
        "",
        None,
    ));

    assert_eq!(problem.answer, "A");
    assert_eq!(problem.kind(), ProblemType::SingleChoice);
}

#[test]
fn multi_choice_keywords_infer_multiple_choice() {
    let problem = normalize_problem(problem(
        "multi",
        "下列哪些是参数估计的评价标准(\nA. 无偏性\nB. 有效性\nC. 一致性\nD. 随机性",
        "A",
        "未批改：页面没有提供正确答案，已使用“我的答案”作为临时答案。",
        None,
    ));

    assert_eq!(problem.kind(), ProblemType::MultipleChoice);
}

#[test]
fn detects_pending_ai_review_problem() {
    // The review state is read from the explanation when the problem is
    // normalised on import.
    let problem = normalize_problem(problem(
        "pending",
        "简答题",
        "我的旧答案",
        "未批改：页面没有提供正确答案，已使用“我的答案”作为临时答案。",
        None,
    ));

    assert!(problem.needs_ai_review());
}

#[test]
fn tag_text_is_split_at_commas() {
    assert_eq!(split_tag_text("rust, ownership"), vec!["rust", "ownership"]);
    assert_eq!(split_tag_text(" , a,,b "), vec!["a", "b"]);
    assert!(split_tag_text("").is_empty());
}
