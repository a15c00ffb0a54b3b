use shuaforge_core::ai::local_learning_gap_analysis;
use shuaforge_core::lan_sync::{PeerTable, SyncAnnouncement};
use shuaforge_core::markdown::percent_encode_url_component;
use shuaforge_core::normalize::normalize_problem;
use shuaforge_core::problem::{
    clean_tags, infer_problem_type, normalize_choice_answer, Problem, ProblemState, ProblemType,
};
use shuaforge_core::store::AnswerRecord;
use shuaforge_core::userscript_server::{percent_decode, BridgeState};

#[test]
fn choice_answers_have_one_canonical_form() {
    assert_eq!(normalize_choice_answer("C A"), "AC");
    assert_eq!(normalize_choice_answer("a,c"), "AC");
    assert_eq!(normalize_choice_answer("dbBd"), "BD");
    let once = normalize_choice_answer("z, a; Q");
    assert_eq!(once, "AQZ");
    assert_eq!(normalize_choice_answer(&once), once);
}

#[test]
fn cleaned_tags_are_distinct_and_never_bare_labels() {
    let tags = vec!["知识点：统计，抽样".to_owned(), "抽样".to_owned(), "标签".to_owned(), " ；".to_owned()];
    assert_eq!(clean_tags(&tags), vec!["统计".to_owned(), "抽样".to_owned()]);
    assert!(clean_tags(&vec![]).is_empty());
}

#[test]
fn normalised_problems_record_the_inferred_type() {
    let problem = Problem {
        id: "p1".into(),
        prompt: "下列哪些正确（多选）\nA. 甲\nB. 乙".into(),
        answer: "AB".into(),
        explanation: String::new(),
        tags: vec!["本题得分:2分".into(), "统计".into(), "统计".into()],
        problem_type: None,
        deck_name: None,
        deck_info: None,
        images: vec![],
        state: ProblemState::default(),
    };
    let normalized = normalize_problem(problem);
    let prompt: Vec<char> = normalized.prompt.chars().collect();
    let answer: Vec<char> = normalized.answer.chars().collect();
    assert_eq!(normalized.problem_type, Some(infer_problem_type(&prompt, &answer)));
    assert_eq!(normalized.problem_type, Some(ProblemType::MultipleChoice));
    assert_eq!(normalized.tags, vec!["统计".to_owned()]);
}

#[test]
fn percent_decoding_undoes_url_encoding() {
    for text in ["a b+c", "中文/路径?x=1&y=%", "", "~-_."] {
        assert_eq!(percent_decode(&percent_encode_url_component(text)), text);
    }
}

#[test]
fn gap_report_states_rate_and_wrong_ids() {
    let record = |id: &str, ok: bool| AnswerRecord {
        answered_at: "2024-01-01".into(),
        problem_id: id.into(),
        user_answer: "A".into(),
        correct_answer: "B".into(),
        is_correct: ok,
    };
    let report = local_learning_gap_analysis("题库", &[record("p1", true), record("p2", false)]);
    assert!(report.contains("正确率：50.0%"));
    assert!(report.contains("p2"));
    let clean = local_learning_gap_analysis("题库", &[record("p1", true)]);
    assert!(clean.contains("近期错题：暂无"));
}

#[test]
fn discovered_peers_are_listed_once_each() {
    let mut table = PeerTable::new();
    let ann = |id: &str, addr: &str| SyncAnnouncement {
        app: "ShuaForge".into(),
        device_id: id.into(),
        device_name: "设备".into(),
        addr: addr.into(),
    };
    table.record_announcement(&ann("d1", "10.0.0.2:1"), None, 100);
    table.record_announcement(&ann("d2", "10.0.0.3:1"), None, 101);
    table.record_announcement(&ann("d1", "10.0.0.2:2"), None, 102);
    let peers = table.discovered_peers(105);
    assert_eq!(peers.len(), 2);
    assert_eq!(peers[0].device_id, "d1");
    assert_eq!(peers[0].addr, "10.0.0.2:2");
    assert_eq!(peers[1].device_id, "d2");
}

#[test]
fn snapshot_commands_reach_each_page_once() {
    let mut bridge = BridgeState::new();
    bridge.register_client("page-a".into(), 1000);
    bridge.register_client("page-b".into(), 1000);
    assert_eq!(bridge.request_page_snapshot(1500, "batch"), Ok(2));
    assert!(bridge.next_bridge_command_json(Some("page-a")).contains("\"command\":\"snapshot\""));
    assert_eq!(bridge.next_bridge_command_json(Some("page-a")), "{\"command\":\"none\"}");
    assert!(bridge.next_bridge_command_json(Some("page-b")).contains("\"command\":\"snapshot\""));
    assert_eq!(bridge.next_bridge_command_json(Some("page-b")), "{\"command\":\"none\"}");
    assert_eq!(bridge.next_bridge_command_json(Some("page-c")), "{\"command\":\"none\"}");
}
