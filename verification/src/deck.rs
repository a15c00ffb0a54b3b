//! A practice session over a deck of problems: the current problem, the
//! queue of the ones still to answer, and the running score.
use vstd::prelude::*;
use std::collections::VecDeque;
use rand::Rng;
use rand::seq::SliceRandom;
use crate::problem::{
    answer_matches, copy_problem, inferred_type, kind_of, Problem, ProblemType, ProblemV,
};

verus! {

#[derive(Debug, Clone, Copy, PartialEq, Eq, Structural)]
pub struct PracticeStats {
    pub total: usize,
    pub remaining: usize,
    pub correct: usize,
    pub wrong: usize,
}

impl Default for PracticeStats {
    fn default() -> (r: Self)
        ensures
            r == (PracticeStats { total: 0, remaining: 0, correct: 0, wrong: 0 }),
    {
        PracticeStats { total: 0, remaining: 0, correct: 0, wrong: 0 }
    }
}

#[derive(Debug)]
pub struct PracticeDeck {
    queue: VecDeque<Problem>,
    current: Option<Problem>,
    stats: PracticeStats,
}

#[derive(Debug, Clone, PartialEq, Eq)]
pub struct PracticeDeckSnapshot {
    pub queue: Vec<Problem>,
    pub current: Option<Problem>,
    pub stats: PracticeStats,
}

#[derive(Debug, Clone, Copy, PartialEq, Eq, Structural)]
pub enum PracticeOrder {
    Sequential,
    Shuffled,
}

#[derive(Debug, Clone, PartialEq, Eq)]
pub enum SubmitResult {
    Correct,
    Wrong { expected: String, explanation: String },
    NoCurrentProblem,
}

/// The session as plain values.
pub struct DeckView {
    pub queue: Seq<ProblemV>,
    pub current: Option<ProblemV>,
    pub stats: PracticeStats,
}

pub open spec fn views(s: Seq<Problem>) -> Seq<ProblemV> {
    s.map_values(|p: Problem| p@)
}

pub open spec fn opt_problem_view(o: Option<Problem>) -> Option<ProblemV> {
    match o {
        Some(p) => Some(p@),
        None => None,
    }
}

impl View for PracticeDeck {
    type V = DeckView;

    closed spec fn view(&self) -> DeckView {
        DeckView {
            queue: views(self.queue@),
            current: opt_problem_view(self.current),
            stats: self.stats,
        }
    }
}

impl View for PracticeDeckSnapshot {
    type V = DeckView;

    open spec fn view(&self) -> DeckView {
        DeckView {
            queue: views(self.queue@),
            current: opt_problem_view(self.current),
            stats: self.stats,
        }
    }
}

/// The type of a problem given by its view.
pub open spec fn kind_v(v: ProblemV) -> ProblemType {
    match v.problem_type {
        Some(t) => t,
        None => inferred_type(v.prompt, v.answer),
    }
}

/// Whether `input` answers the problem `v`.
pub open spec fn answers(v: ProblemV, input: Seq<char>) -> bool {
    answer_matches(kind_v(v), v.answer, input)
}

/// The problem at the front of the queue becomes current.
pub open spec fn advance(q: Seq<ProblemV>) -> (Seq<ProblemV>, Option<ProblemV>) {
    if q.len() > 0 {
        (q.drop_first(), Some(q[0]))
    } else {
        (q, None)
    }
}

/// Where a problem put back into a queue of length `len` may land: at the
/// back of an empty queue, else anywhere from a third of the way (at
/// least position 1) to the back.
pub open spec fn requeue_index_ok(len: int, idx: int) -> bool {
    if len == 0 {
        idx == 0
    } else {
        (if len / 3 >= 1 {
            len / 3
        } else {
            1
        }) <= idx <= len
    }
}

/// Problems still in the session (queue and current).
pub open spec fn remaining_count(d: DeckView) -> int {
    d.queue.len() + if d.current is Some {
        1int
    } else {
        0int
    }
}

/// A position in `start..=end`, drawn by the `rand` crate's thread-local
/// generator (`Rng::random_range`); only the range is promised.
#[verifier::external_body]
fn random_index_between(start: usize, end: usize) -> (r: usize)
    requires
        start <= end,
    ensures
        start <= r <= end,
{
    rand::rng().random_range(start..=end)
}

/// Puts the problems in a random order with the `rand` crate's
/// `SliceRandom::shuffle`; the same problems come out, in some order.
#[verifier::external_body]
fn shuffle_problems(v: &mut Vec<Problem>)
    ensures
        final(v)@.to_multiset() == old(v)@.to_multiset(),
        final(v)@.len() == old(v)@.len(),
{
    v.shuffle(&mut rand::rng());
}

proof fn lemma_views_insert(s: Seq<Problem>, i: int, p: Problem)
    requires
        0 <= i <= s.len(),
    ensures
        views(s.insert(i, p)) == views(s).insert(i, p@),
{
    assert(views(s.insert(i, p)) =~= views(s).insert(i, p@));
}

proof fn lemma_views_drop_first(s: Seq<Problem>)
    requires
        s.len() > 0,
    ensures
        views(s.subrange(1, s.len() as int)) == views(s).drop_first(),
        views(s)[0] == s[0]@,
{
    assert(views(s.subrange(1, s.len() as int)) =~= views(s).drop_first());
}

impl PracticeDeck {
    /// Builds a session over `problems` (in order, or shuffled) and makes
    /// the first problem current.
    pub fn with_order(problems: Vec<Problem>, order: PracticeOrder) -> (r: Self)
        ensures
            r@.stats == (PracticeStats {
                total: problems@.len() as usize,
                remaining: problems@.len() as usize,
                correct: 0,
                wrong: 0,
            }),
            order == PracticeOrder::Sequential ==> (r@.queue, r@.current) == advance(
                views(problems@),
            ),
            remaining_count(r@) == problems@.len(),
            order == PracticeOrder::Shuffled ==> exists|s: Seq<Problem>|
                s.to_multiset() == problems@.to_multiset() && (r@.queue, r@.current) == advance(
                    views(s),
                ),
    {
        let mut problems = problems;
        let ghost original = problems@;
        if order == PracticeOrder::Shuffled {
            shuffle_problems(&mut problems);
        }
        let ghost arranged = problems@;
        let total = problems.len();
        let mut queue: VecDeque<Problem> = VecDeque::new();
        while problems.len() > 0
            invariant
                problems@ + queue@ == arranged,
            decreases problems@.len(),
        {
            let ghost before_p = problems@;
            let ghost before_q = queue@;
            let p = problems.pop().unwrap();
            queue.push_front(p);
            assert(before_p =~= problems@.push(p));
            assert(problems@ + queue@ =~= arranged) by {
                assert(queue@ =~= seq![p] + before_q);
            }
        }
        assert(queue@ =~= arranged);
        let mut deck = PracticeDeck {
            queue,
            current: None,
            stats: PracticeStats { total, remaining: total, correct: 0, wrong: 0 },
        };
        deck.next();
        proof {
            if arranged.len() > 0 {
                lemma_views_drop_first(arranged);
            }
            if order == PracticeOrder::Sequential {
                assert(arranged == original);
            }
        }
        deck
    }

    /// Restores a session from a snapshot.
    pub fn from_snapshot(snapshot: PracticeDeckSnapshot) -> (r: Self)
        ensures
            r@ == snapshot@,
    {
        let mut problems = snapshot.queue;
        let ghost arranged = problems@;
        let mut queue: VecDeque<Problem> = VecDeque::new();
        while problems.len() > 0
            invariant
                problems@ + queue@ == arranged,
            decreases problems@.len(),
        {
            let ghost before_p = problems@;
            let ghost before_q = queue@;
            let p = problems.pop().unwrap();
            queue.push_front(p);
            assert(before_p =~= problems@.push(p));
            assert(problems@ + queue@ =~= arranged) by {
                assert(queue@ =~= seq![p] + before_q);
            }
        }
        assert(queue@ =~= arranged);
        PracticeDeck { queue, current: snapshot.current, stats: snapshot.stats }
    }

    /// A copy of the session's state.
    pub fn snapshot(&self) -> (r: PracticeDeckSnapshot)
        ensures
            r@ == self@,
    {
        let mut queue: Vec<Problem> = Vec::new();
        let mut i: usize = 0;
        while i < self.queue.len()
            invariant
                i <= self.queue@.len(),
                views(queue@) == views(self.queue@.take(i as int)),
            decreases self.queue@.len() - i,
        {
            let c = copy_problem(&self.queue[i]);
            let ghost before = queue@;
            queue.push(c);
            assert(views(queue@) =~= views(self.queue@.take(i + 1))) by {
                assert(queue@ == before.push(c));
                assert(self.queue@.take(i + 1) =~= self.queue@.take(i as int).push(
                    self.queue@[i as int],
                ));
                assert(views(before.push(c)) =~= views(before).push(c@));
                assert(views(self.queue@.take(i as int).push(self.queue@[i as int])) =~= views(
                    self.queue@.take(i as int),
                ).push(self.queue@[i as int]@));
            }
            i = i + 1;
        }
        assert(self.queue@.take(self.queue@.len() as int) =~= self.queue@);
        let current = match &self.current {
            Some(p) => Some(copy_problem(p)),
            None => None,
        };
        PracticeDeckSnapshot { queue, current, stats: self.stats }
    }

    pub fn current(&self) -> (r: Option<&Problem>)
        ensures
            opt_problem_view(
                match r {
                    Some(p) => Some(*p),
                    None => None,
                },
            ) == self@.current,
    {
        self.current.as_ref()
    }

    /// The stored counts, with `remaining` computed from the queue and the
    /// current problem.
    pub fn stats(&self) -> (r: PracticeStats)
        ensures
            r.total == self@.stats.total,
            r.correct == self@.stats.correct,
            r.wrong == self@.stats.wrong,
            remaining_count(self@) <= usize::MAX ==> r.remaining == remaining_count(self@),
    {
        let extra: usize = if self.current.is_some() {
            1
        } else {
            0
        };
        let len = self.queue.len();
        let remaining = if len == usize::MAX {
            usize::MAX
        } else {
            len + extra
        };
        PracticeStats { remaining, ..self.stats }
    }

    /// Makes the front problem current when there is no current problem.
    pub fn next(&mut self) -> (r: Option<&Problem>)
        ensures
            old(self)@.current is None ==> (final(self)@.queue, final(self)@.current) == advance(
                old(self)@.queue,
            ),
            old(self)@.current is Some ==> final(self)@ == old(self)@,
            final(self)@.stats == old(self)@.stats,
    {
        if self.current.is_none() {
            let ghost q = self.queue@;
            self.current = self.queue.pop_front();
            proof {
                if q.len() > 0 {
                    lemma_views_drop_first(q);
                }
            }
        }
        self.current.as_ref()
    }

    /// Puts the current problem back into the queue and makes the front
    /// problem current.
    pub fn skip(&mut self)
        ensures
            final(self)@.stats == old(self)@.stats,
            match old(self)@.current {
                Some(p) => exists|idx: int|
                    requeue_index_ok(old(self)@.queue.len() as int, idx) && (
                    final(self)@.queue,
                    final(self)@.current,
                ) == advance(old(self)@.queue.insert(idx, p)),
                None => (final(self)@.queue, final(self)@.current) == advance(old(self)@.queue),
            },
    {
        let ghost q0 = self.queue@;
        match self.current.take() {
            Some(problem) => {
                let idx = self.requeue(problem);
                let ghost q1 = self.queue@;
                self.current = self.queue.pop_front();
                proof {
                    lemma_views_insert(q0, idx as int, problem);
                    lemma_views_drop_first(q1);
                    assert(requeue_index_ok(old(self)@.queue.len() as int, idx as int) && (
                    self@.queue,
                    self@.current,
                ) == advance(old(self)@.queue.insert(idx as int, problem@)));
                }
            },
            None => {
                self.current = self.queue.pop_front();
                proof {
                    if q0.len() > 0 {
                        lemma_views_drop_first(q0);
                    }
                }
            },
        }
    }

    /// Puts a copy of the current problem back into the queue; the current
    /// problem stays current.
    pub fn requeue_current_without_advancing(&mut self)
        ensures
            final(self)@.stats == old(self)@.stats,
            final(self)@.current == old(self)@.current,
            match old(self)@.current {
                Some(p) => exists|idx: int|
                    requeue_index_ok(old(self)@.queue.len() as int, idx) && final(self)@.queue
                        == old(self)@.queue.insert(idx, p),
                None => final(self)@.queue == old(self)@.queue,
            },
    {
        let ghost q0 = self.queue@;
        match &self.current {
            Some(p) => {
                let copy = copy_problem(p);
                let idx = self.requeue(copy);
                proof {
                    lemma_views_insert(q0, idx as int, copy);
                    assert(requeue_index_ok(old(self)@.queue.len() as int, idx as int)
                        && self@.queue == old(self)@.queue.insert(idx as int, copy@));
                }
            },
            None => {},
        }
    }

    /// Checks `answer` against the current problem and puts the problem back
    /// into the queue whether or not it was answered correctly.
    pub fn submit_and_requeue(&mut self, answer: &str) -> (r: SubmitResult)
        requires
            old(self)@.stats.correct < usize::MAX,
            old(self)@.stats.wrong < usize::MAX,
        ensures
            match old(self)@.current {
                None => r == SubmitResult::NoCurrentProblem && final(self)@ == old(self)@,
                Some(p) => {
                    &&& final(self)@.stats.total == old(self)@.stats.total
                    &&& final(self)@.stats.remaining == old(self)@.stats.remaining
                    &&& exists|idx: int|
                        requeue_index_ok(old(self)@.queue.len() as int, idx) && (
                        final(self)@.queue,
                        final(self)@.current,
                    ) == advance(old(self)@.queue.insert(idx, p))
                    &&& if answers(p, answer@) {
                        &&& r == SubmitResult::Correct
                        &&& final(self)@.stats.correct == old(self)@.stats.correct + 1
                        &&& final(self)@.stats.wrong == old(self)@.stats.wrong
                    } else {
                        &&& r matches SubmitResult::Wrong { expected, explanation }
                        &&& expected@ == p.answer
                        &&& explanation@ == p.explanation
                        &&& final(self)@.stats.correct == old(self)@.stats.correct
                        &&& final(self)@.stats.wrong == old(self)@.stats.wrong + 1
                    }
                },
            },
    {
        let ghost q0 = self.queue@;
        let problem = match self.current.take() {
            Some(p) => p,
            None => {
                return SubmitResult::NoCurrentProblem;
            },
        };
        if problem.is_correct(answer) {
            self.stats.correct = self.stats.correct + 1;
            let idx = self.requeue(problem);
            let ghost q1 = self.queue@;
            self.current = self.queue.pop_front();
            proof {
                lemma_views_insert(q0, idx as int, problem);
                lemma_views_drop_first(q1);
                assert(requeue_index_ok(old(self)@.queue.len() as int, idx as int) && (
                self@.queue,
                self@.current,
            ) == advance(old(self)@.queue.insert(idx as int, problem@)));
            }
            SubmitResult::Correct
        } else {
            self.stats.wrong = self.stats.wrong + 1;
            let expected = problem.answer.clone();
            let explanation = problem.explanation.clone();
            let ghost pv = problem@;
            let idx = self.requeue(problem);
            let ghost q1 = self.queue@;
            self.current = self.queue.pop_front();
            proof {
                lemma_views_insert(q0, idx as int, problem);
                lemma_views_drop_first(q1);
                assert(requeue_index_ok(old(self)@.queue.len() as int, idx as int) && (
                self@.queue,
                self@.current,
            ) == advance(old(self)@.queue.insert(idx as int, problem@)));
            }
            SubmitResult::Wrong { expected, explanation }
        }
    }

    /// Checks `answer` against the current problem: a correct answer takes
    /// the problem out of the session, a wrong one puts it back into the
    /// queue.  Either way the front problem becomes current.
    pub fn submit(&mut self, answer: &str) -> (r: SubmitResult)
        requires
            old(self)@.stats.correct < usize::MAX,
            old(self)@.stats.wrong < usize::MAX,
        ensures
            match old(self)@.current {
                None => r == SubmitResult::NoCurrentProblem && final(self)@ == old(self)@,
                Some(p) => {
                    &&& final(self)@.stats.total == old(self)@.stats.total
                    &&& final(self)@.stats.remaining == old(self)@.stats.remaining
                    &&& if answers(p, answer@) {
                        &&& r == SubmitResult::Correct
                        &&& final(self)@.stats.correct == old(self)@.stats.correct + 1
                        &&& final(self)@.stats.wrong == old(self)@.stats.wrong
                        &&& (final(self)@.queue, final(self)@.current) == advance(
                            old(self)@.queue,
                        )
                    } else {
                        &&& r matches SubmitResult::Wrong { expected, explanation }
                        &&& expected@ == p.answer
                        &&& explanation@ == p.explanation
                        &&& final(self)@.stats.correct == old(self)@.stats.correct
                        &&& final(self)@.stats.wrong == old(self)@.stats.wrong + 1
                        &&& exists|idx: int|
                            requeue_index_ok(old(self)@.queue.len() as int, idx) && (
                            final(self)@.queue,
                            final(self)@.current,
                        ) == advance(old(self)@.queue.insert(idx, p))
                    }
                },
            },
    {
        let ghost q0 = self.queue@;
        let problem = match self.current.take() {
            Some(p) => p,
            None => {
                return SubmitResult::NoCurrentProblem;
            },
        };
        if problem.is_correct(answer) {
            self.stats.correct = self.stats.correct + 1;
            self.current = self.queue.pop_front();
            proof {
                if q0.len() > 0 {
                    lemma_views_drop_first(q0);
                }
            }
            SubmitResult::Correct
        } else {
            self.stats.wrong = self.stats.wrong + 1;
            let expected = problem.answer.clone();
            let explanation = problem.explanation.clone();
            let idx = self.requeue(problem);
            let ghost q1 = self.queue@;
            self.current = self.queue.pop_front();
            proof {
                lemma_views_insert(q0, idx as int, problem);
                lemma_views_drop_first(q1);
                assert(requeue_index_ok(old(self)@.queue.len() as int, idx as int) && (
                self@.queue,
                self@.current,
            ) == advance(old(self)@.queue.insert(idx as int, problem@)));
            }
            SubmitResult::Wrong { expected, explanation }
        }
    }

    /// Whether no problem is left (no current problem, empty queue).
    pub fn is_finished(&self) -> (r: bool)
        ensures
            r == (remaining_count(self@) == 0),
    {
        self.current.is_none() && self.queue.len() == 0
    }

    /// Inserts `problem` at a random position from a third of the way into
    /// the queue (at least 1) to its back; into an empty queue it goes at 0.
    fn requeue(&mut self, problem: Problem) -> (idx: usize)
        ensures
            requeue_index_ok(old(self).queue@.len() as int, idx as int),
            final(self).queue@ == old(self).queue@.insert(idx as int, problem),
            final(self).current == old(self).current,
            final(self).stats == old(self).stats,
    {
        let len = self.queue.len();
        if len == 0 {
            self.queue.push_back(problem);
            assert(self.queue@ =~= old(self).queue@.insert(0, problem));
            return 0;
        }
        let third = len / 3;
        let start = if third >= 1 {
            third
        } else {
            1
        };
        let index = random_index_between(start, len);
        self.queue.insert(index, problem);
        index
    }
}

} // verus!

verus! {

/// Restoring a snapshot gives back the session it was taken of: the
/// snapshot holds the session (`snapshot`) and the restored session holds
/// the snapshot (`from_snapshot`), so queue, current problem and
/// statistics all come back.
pub proof fn law_snapshot_round_trip(session: DeckView, snapshot: DeckView, restored: DeckView)
    requires
        snapshot == session,
        restored == snapshot,
    ensures
        restored.queue == session.queue,
        restored.current == session.current,
        restored.stats == session.stats,
        remaining_count(restored) == remaining_count(session),
{
}

/// A problem put back into the queue (after a skip or a wrong answer) is
/// still in the session afterwards: it is current again, or waiting in
/// the queue; and the number of problems left is one more than the queue
/// held before.
pub proof fn law_requeued_problem_stays(q: Seq<ProblemV>, p: ProblemV, idx: int)
    requires
        requeue_index_ok(q.len() as int, idx),
    ensures
        ({
            let (q2, c2) = advance(q.insert(idx, p));
            &&& c2 == Some(p) || q2.contains(p)
            &&& q2.len() + (if c2 is Some {
                1int
            } else {
                0int
            }) == q.len() + 1
        }),
{
    let s = q.insert(idx, p);
    assert(s[idx] == p);
    if idx > 0 {
        assert(s.drop_first()[idx - 1] == p);
    }
}

/// When other problems are waiting, a problem put back into the queue is
/// not the next one shown: the former front of the queue becomes current.
pub proof fn law_requeued_problem_not_next(q: Seq<ProblemV>, p: ProblemV, idx: int)
    requires
        requeue_index_ok(q.len() as int, idx),
        q.len() > 0,
    ensures
        advance(q.insert(idx, p)).1 == Some(q[0]),
{
    assert(q.insert(idx, p)[0] == q[0]);
}

/// A correct answer in `submit` takes the problem out of the session: one
/// problem fewer is left (the queue's front, if any, becomes current).
pub proof fn law_correct_answer_removes(q: Seq<ProblemV>)
    ensures
        ({
            let (q2, c2) = advance(q);
            q2.len() + (if c2 is Some {
                1int
            } else {
                0int
            }) == q.len()
        }),
{
}

} // verus!
