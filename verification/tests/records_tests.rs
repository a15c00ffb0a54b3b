use shuaforge_core::analysis_dialog::{AnalysisDialogState, AnalysisKind};
use shuaforge_core::analysis_records::{
    AnalysisCacheKey, AnalysisRecords, AnalysisSource, ClearedAnalyses,
};

fn key(title: &str) -> AnalysisCacheKey {
    AnalysisCacheKey { kind: AnalysisKind::ProblemSet, title: title.into() }
}

fn dialog(title: &str, result: &str) -> AnalysisDialogState {
    AnalysisDialogState {
        title: title.into(),
        kind: AnalysisKind::ProblemSet,
        messages: vec![],
        input: String::new(),
        latest_result: result.into(),
        is_loading: false,
        open: true,
    }
}

fn records() -> AnalysisRecords {
    AnalysisRecords {
        cache: vec![(key("题库：A"), dialog("题库：A", "报告A")), (key("题库：B"), dialog("题库：B", "报告B"))],
        dialogs: vec![(key("题组：G"), dialog("题组：G", "报告G"))],
        sources: vec![(key("题库：A"), AnalysisSource::Problems(vec![])), (key("题库：B"), AnalysisSource::Records(vec![]))],
        dialog: Some(dialog("题库：A", "报告A")),
        active_key: None,
        analysis: "报告A".into(),
    }
}

#[test]
fn clearing_titles_removes_their_records_and_the_text_shown() {
    let mut r = records();
    let cleared = r.clear_for_titles(&vec!["题库：A".to_owned()]);
    assert_eq!(cleared, ClearedAnalyses { removed: 2, text_cleared: true });
    assert_eq!(r.cache.len(), 1);
    assert_eq!(r.cache[0].0.title, "题库：B");
    assert_eq!(r.dialogs.len(), 1);
    assert_eq!(r.sources.len(), 1);
    assert!(r.dialog.is_none());
    assert_eq!(r.analysis, "");
}

#[test]
fn clearing_other_titles_keeps_the_text_shown() {
    let mut r = records();
    let cleared = r.clear_for_titles(&vec!["题组：G".to_owned(), "题库：X".to_owned()]);
    assert_eq!(cleared, ClearedAnalyses { removed: 0, text_cleared: false });
    assert_eq!(r.cache.len(), 2);
    assert!(r.dialogs.is_empty());
    assert!(r.dialog.is_some());
    assert_eq!(r.analysis, "报告A");
}

#[test]
fn clearing_no_titles_changes_nothing() {
    let mut r = records();
    r.active_key = Some(key("题库：A"));
    assert_eq!(r.clear_for_titles(&vec![]), ClearedAnalyses { removed: 0, text_cleared: false });
    assert_eq!(r.cache.len(), 2);
    assert!(r.active_key.is_some());
    let cleared = r.clear_for_titles(&vec!["题库：A".to_owned()]);
    assert!(cleared.text_cleared);
    assert!(r.active_key.is_none());
}

#[test]
fn director_review_shows_its_waiting_texts() {
    let (status, analysis) = shuaforge_core::analysis_dialog::director_review_started("题库：A");
    assert_eq!(status, "AI 总监正在审查题库：A...");
    assert_eq!(analysis, "AI 总监正在审查题库质量，请稍候...");
}
