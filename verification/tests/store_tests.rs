use shuaforge_core::problem::{
    Problem, ProblemAnswerSource, ProblemReviewConfidence, ProblemReviewStatus,
    ProblemReviewVerdict, ProblemState, ProblemType,
};
use shuaforge_core::self_update::{update_precheck, UpdateOutcome};
use shuaforge_core::store::{
    accepted_ai_reviews, apply_manual_answer, deck_name_from_source, import_deck_name,
    is_accepted_ai_review,
};

fn problem(id: &str) -> Problem {
    Problem {
        id: id.into(),
        prompt: "题干\nA. 甲\nB. 乙\nC. 丙\nD. 丁".into(),
        answer: "A".into(),
        explanation: String::new(),
        tags: vec!["标签".into()],
        problem_type: Some(ProblemType::SingleChoice),
        deck_name: Some("题库".into()),
        deck_info: None,
        images: vec![],
        state: ProblemState::default(),
    }
}

#[test]
fn manual_answer_marks_problem_as_manually_reviewed() {
    let mut pending = problem("p1");
    pending.state.user_answer = "B".into();
    pending.state.answer_source = ProblemAnswerSource::UserTemporary;
    pending.state.review_status = ProblemReviewStatus::Pending;
    pending.state.review_needed = true;
    pending.state.score_display = "0/2".into();

    let corrected = apply_manual_answer(&pending, "  C ").expect("manual answer");
    assert_eq!(corrected.answer, "C");
    assert_eq!(corrected.state.user_answer, "");
    assert_eq!(corrected.state.answer_source, ProblemAnswerSource::ManualReviewed);
    assert_eq!(corrected.state.review_status, ProblemReviewStatus::Accepted);
    assert_eq!(corrected.state.review_verdict, ProblemReviewVerdict::Unknown);
    assert_eq!(corrected.state.review_confidence, ProblemReviewConfidence::High);
    assert!(!corrected.state.review_needed);
    assert_eq!(corrected.state.score_display, "");
    assert_eq!(corrected.prompt, pending.prompt);
    assert_eq!(corrected.tags, pending.tags);
    assert_eq!(corrected.deck_name, pending.deck_name);
}

#[test]
fn blank_manual_answer_is_refused() {
    assert_eq!(apply_manual_answer(&problem("p1"), "  \n"), Err("人工修正答案不能为空".to_owned()));
}

#[test]
fn only_accepted_ai_reviews_are_written_back() {
    let mut reviewed = problem("p1");
    reviewed.answer = "C".into();
    reviewed.state.answer_source = ProblemAnswerSource::AiReviewed;
    reviewed.state.review_status = ProblemReviewStatus::Accepted;
    let mut unsure = problem("p2");
    unsure.answer = "D".into();
    unsure.state.answer_source = ProblemAnswerSource::UserTemporary;
    unsure.state.review_status = ProblemReviewStatus::Unknown;
    unsure.state.review_needed = true;
    let mut blank = reviewed.clone();
    blank.answer = "  ".into();
    let mut pending_ai = reviewed.clone();
    pending_ai.state.review_status = ProblemReviewStatus::Pending;

    assert!(is_accepted_ai_review(&reviewed));
    assert!(!is_accepted_ai_review(&unsure));
    let problems = vec![reviewed.clone(), unsure, blank, pending_ai, reviewed];
    assert_eq!(accepted_ai_reviews(&problems), vec![0, 4]);
}

#[test]
fn deck_names_come_from_the_file_stem() {
    assert_eq!(deck_name_from_source("bank.json"), "bank");
    assert_eq!(deck_name_from_source(" 经济学 .csv"), "经济学");
    assert_eq!(deck_name_from_source("archive.tar.gz"), "archive.tar");
    assert_eq!(deck_name_from_source(".hidden"), ".hidden");
    assert_eq!(deck_name_from_source("   .csv"), "未命名题库");
    assert_eq!(deck_name_from_source(""), "未命名题库");
    let mut named = problem("p1");
    named.deck_name = None;
    assert_eq!(import_deck_name(&[named], "bank.json"), "bank");
}

#[test]
fn development_builds_skip_updates_first() {
    assert_eq!(update_precheck(true, None), Some(UpdateOutcome::Skipped));
    assert_eq!(update_precheck(false, Some("/home/u/proj/target/debug/shuaforge")), Some(UpdateOutcome::Skipped));
    assert_eq!(update_precheck(false, Some("C:\\Apps\\ShuaForge.exe")), None);
    assert_eq!(update_precheck(false, None), None);
}
