use shuaforge_core::deck::{PracticeDeck, PracticeOrder, SubmitResult};
use shuaforge_core::problem::{Problem, ProblemState};

fn problem(id: &str, answer: &str) -> Problem {
    Problem {
        id: id.into(),
        prompt: format!("题目 {id}"),
        answer: answer.into(),
        explanation: "解析".into(),
        tags: vec![],
        problem_type: None,
        deck_name: None,
        deck_info: None,
        images: vec![],
        state: ProblemState::default(),
    }
}

#[test]
fn correct_answer_removes_problem() {
    let mut deck = PracticeDeck::with_order(vec![problem("1", "a")], PracticeOrder::Shuffled);
    assert_eq!(deck.submit("a"), SubmitResult::Correct);
    assert!(deck.is_finished());
    assert_eq!(deck.stats().correct, 1);
}

#[test]
fn wrong_answer_requeues_problem() {
    let mut deck = PracticeDeck::with_order(vec![problem("1", "a")], PracticeOrder::Shuffled);
    let result = deck.submit("b");
    assert!(matches!(result, SubmitResult::Wrong { .. }));
    assert!(!deck.is_finished());
    assert_eq!(deck.stats().wrong, 1);
    assert_eq!(deck.stats().remaining, 1);
}

#[test]
fn requeue_current_without_advancing_keeps_current_problem_visible() {
    let mut deck = PracticeDeck::with_order(
        vec![problem("1", "a"), problem("2", "b"), problem("3", "c")],
        PracticeOrder::Sequential,
    );

    let current_id = deck.current().expect("current problem").id.clone();
    deck.requeue_current_without_advancing();

    assert_eq!(deck.current().expect("current problem after requeue").id, current_id);
    assert_eq!(deck.stats().remaining, 4);
}

#[test]
fn submit_and_requeue_keeps_correct_problem_in_queue() {
    let mut deck = PracticeDeck::with_order(
        vec![problem("1", "a"), problem("2", "b")],
        PracticeOrder::Sequential,
    );

    assert_eq!(deck.submit_and_requeue("a"), SubmitResult::Correct);

    assert_eq!(deck.stats().correct, 1);
    assert_eq!(deck.stats().remaining, 2);
    assert!(!deck.is_finished());
}

#[test]
fn deck_snapshot_restores_current_queue_and_stats() {
    let mut deck = PracticeDeck::with_order(
        vec![problem("1", "a"), problem("2", "b")],
        PracticeOrder::Sequential,
    );
    assert_eq!(
        deck.submit("x"),
        SubmitResult::Wrong { expected: "a".into(), explanation: "解析".into() }
    );

    let snapshot = deck.snapshot();
    let restored = PracticeDeck::from_snapshot(snapshot);

    assert_eq!(restored.current().expect("current").id, deck.current().expect("current").id);
    assert_eq!(restored.stats(), deck.stats());
}

#[test]
fn sequential_order_follows_the_bank() {
    let mut deck = PracticeDeck::with_order(
        vec![problem("1", "a"), problem("2", "b"), problem("3", "c")],
        PracticeOrder::Sequential,
    );
    assert_eq!(deck.current().unwrap().id, "1");
    deck.skip();
    assert_eq!(deck.current().unwrap().id, "2");
    assert_eq!(deck.stats().total, 3);
    assert_eq!(deck.stats().remaining, 3);
}

#[test]
fn shuffled_order_keeps_every_problem_once() {
    let ids = ["1", "2", "3", "4", "5", "6"];
    let mut deck = PracticeDeck::with_order(
        ids.iter().map(|id| problem(id, id)).collect(),
        PracticeOrder::Shuffled,
    );
    let mut seen = Vec::new();
    while let Some(p) = deck.current() {
        let id = p.id.clone();
        let answer = p.answer.clone();
        seen.push(id);
        assert_eq!(deck.submit(&answer), SubmitResult::Correct);
    }
    seen.sort();
    assert_eq!(seen, ids.iter().map(|s| s.to_string()).collect::<Vec<_>>());
    assert!(deck.is_finished());
    assert_eq!(deck.stats().correct, 6);
}

#[test]
fn submitting_to_a_finished_deck_reports_no_problem() {
    let mut deck = PracticeDeck::with_order(vec![], PracticeOrder::Sequential);
    assert!(deck.is_finished());
    assert_eq!(deck.submit("a"), SubmitResult::NoCurrentProblem);
    assert_eq!(deck.stats().total, 0);
}
