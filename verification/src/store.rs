//! The records the practice store keeps (decks, groups, answer history),
//! the names under which problem fields are stored, and how an imported
//! bank's deck is named.
use vstd::prelude::*;
use crate::ai::blank;
use crate::normalize::{lit_string, normalize_problem, normalized, pview, PView};
use crate::problem::{
    copy_problem, Problem, ProblemAnswerSource, ProblemV, ProblemReviewConfidence, ProblemReviewStatus,
    ProblemReviewVerdict, ProblemState, ProblemType, StateView,
};
use crate::text::{chars_of, is_blank_str, str_eq, string_of, trim, trim_chars};

verus! {

/// What one import did to the store.
#[derive(Debug, Clone, Copy, Default, PartialEq, Eq)]
pub struct ImportSummary {
    pub deck_id: i64,
    pub imported: usize,
    pub inserted: usize,
    pub updated: usize,
}

/// A deck as the library lists it.
#[derive(Debug, Clone)]
pub struct DeckCard {
    pub id: i64,
    pub name: String,
    pub source_path: String,
    pub inserted: i64,
    pub updated: i64,
    pub problem_count: i64,
    pub updated_at: String,
}

/// A group of decks as the library lists it.
#[derive(Debug, Clone)]
pub struct GroupCard {
    pub id: i64,
    pub name: String,
    pub deck_count: i64,
    pub problem_count: i64,
    pub updated_at: String,
}

/// A deck inside a group.
#[derive(Debug, Clone)]
pub struct GroupDeckCard {
    pub id: i64,
    pub name: String,
    pub problem_count: i64,
}

/// One answered problem.
#[derive(Debug, Clone)]
pub struct AnswerRecord {
    pub answered_at: String,
    pub problem_id: String,
    pub user_answer: String,
    pub correct_answer: String,
    pub is_correct: bool,
}

/// The stored name of a `ProblemType`.
pub open spec fn problem_type_name(v: ProblemType) -> Seq<char> {
    match v {
        ProblemType::SingleChoice => "single_choice"@,
        ProblemType::MultipleChoice => "multiple_choice"@,
        ProblemType::Text => "text"@,
    }
}

pub fn problem_type_to_str(v: ProblemType) -> (r: &'static str)
    ensures
        r@ == problem_type_name(v),
{
    match v {
        ProblemType::SingleChoice => "single_choice",
        ProblemType::MultipleChoice => "multiple_choice",
        ProblemType::Text => "text",
    }
}

/// The `ProblemType` stored under `value`, if any.
pub open spec fn problem_type_of(value: Seq<char>) -> Option<ProblemType> {
    if value == "single_choice"@ {
        Some(ProblemType::SingleChoice)
    } else if value == "multiple_choice"@ {
        Some(ProblemType::MultipleChoice)
    } else if value == "text"@ {
        Some(ProblemType::Text)
    } else {
        None
    }
}

pub fn str_to_problem_type(value: &str) -> (r: Option<ProblemType>)
    ensures
        r == problem_type_of(value@),
{
    if str_eq(value, "single_choice") {
        Some(ProblemType::SingleChoice)
    } else if str_eq(value, "multiple_choice") {
        Some(ProblemType::MultipleChoice)
    } else if str_eq(value, "text") {
        Some(ProblemType::Text)
    } else {
        None
    }
}

/// Reading back the stored name of a `ProblemType` gives the same value.
pub proof fn law_problem_type_round_trip(v: ProblemType)
    ensures
        problem_type_of(problem_type_name(v)) == Some(v),
{
    match v {
        ProblemType::SingleChoice => {
            reveal_strlit("single_choice");
            reveal_strlit("multiple_choice");
            assert("single_choice"@.len() != "multiple_choice"@.len());
            reveal_strlit("text");
            assert("single_choice"@.len() != "text"@.len());
        },
        ProblemType::MultipleChoice => {
            reveal_strlit("multiple_choice");
            reveal_strlit("single_choice");
            assert("multiple_choice"@.len() != "single_choice"@.len());
            reveal_strlit("text");
            assert("multiple_choice"@.len() != "text"@.len());
        },
        ProblemType::Text => {
            reveal_strlit("text");
            reveal_strlit("single_choice");
            assert("text"@.len() != "single_choice"@.len());
            reveal_strlit("multiple_choice");
            assert("text"@.len() != "multiple_choice"@.len());
        },
    }
}

/// The stored name of a `ProblemAnswerSource`.
pub open spec fn answer_source_name(v: ProblemAnswerSource) -> Seq<char> {
    match v {
        ProblemAnswerSource::Standard => "standard"@,
        ProblemAnswerSource::UserTemporary => "user_temporary"@,
        ProblemAnswerSource::ScoreInferred => "score_inferred"@,
        ProblemAnswerSource::AiReviewed => "ai_reviewed"@,
        ProblemAnswerSource::ManualReviewed => "manual_reviewed"@,
    }
}

pub fn answer_source_to_str(v: ProblemAnswerSource) -> (r: &'static str)
    ensures
        r@ == answer_source_name(v),
{
    match v {
        ProblemAnswerSource::Standard => "standard",
        ProblemAnswerSource::UserTemporary => "user_temporary",
        ProblemAnswerSource::ScoreInferred => "score_inferred",
        ProblemAnswerSource::AiReviewed => "ai_reviewed",
        ProblemAnswerSource::ManualReviewed => "manual_reviewed",
    }
}

/// The `ProblemAnswerSource` stored under `value`; unknown names read as `Standard`.
pub open spec fn answer_source_of(value: Seq<char>) -> ProblemAnswerSource {
    if value == "user_temporary"@ {
        ProblemAnswerSource::UserTemporary
    } else if value == "score_inferred"@ {
        ProblemAnswerSource::ScoreInferred
    } else if value == "ai_reviewed"@ {
        ProblemAnswerSource::AiReviewed
    } else if value == "manual_reviewed"@ {
        ProblemAnswerSource::ManualReviewed
    } else {
        ProblemAnswerSource::Standard
    }
}

pub fn str_to_answer_source(value: &str) -> (r: ProblemAnswerSource)
    ensures
        r == answer_source_of(value@),
{
    if str_eq(value, "user_temporary") {
        ProblemAnswerSource::UserTemporary
    } else if str_eq(value, "score_inferred") {
        ProblemAnswerSource::ScoreInferred
    } else if str_eq(value, "ai_reviewed") {
        ProblemAnswerSource::AiReviewed
    } else if str_eq(value, "manual_reviewed") {
        ProblemAnswerSource::ManualReviewed
    } else {
        ProblemAnswerSource::Standard
    }
}

/// Reading back the stored name of a `ProblemAnswerSource` gives the same value.
pub proof fn law_answer_source_round_trip(v: ProblemAnswerSource)
    ensures
        answer_source_of(answer_source_name(v)) == v,
{
    match v {
        ProblemAnswerSource::Standard => {
            reveal_strlit("standard");
            reveal_strlit("user_temporary");
            assert("standard"@.len() != "user_temporary"@.len());
            reveal_strlit("score_inferred");
            assert("standard"@.len() != "score_inferred"@.len());
            reveal_strlit("ai_reviewed");
            assert("standard"@.len() != "ai_reviewed"@.len());
            reveal_strlit("manual_reviewed");
            assert("standard"@.len() != "manual_reviewed"@.len());
        },
        ProblemAnswerSource::UserTemporary => {
            reveal_strlit("user_temporary");
            reveal_strlit("standard");
            assert("user_temporary"@.len() != "standard"@.len());
            reveal_strlit("score_inferred");
            assert("user_temporary"@[0] != "score_inferred"@[0]);
            reveal_strlit("ai_reviewed");
            assert("user_temporary"@.len() != "ai_reviewed"@.len());
            reveal_strlit("manual_reviewed");
            assert("user_temporary"@.len() != "manual_reviewed"@.len());
        },
        ProblemAnswerSource::ScoreInferred => {
            reveal_strlit("score_inferred");
            reveal_strlit("standard");
            assert("score_inferred"@.len() != "standard"@.len());
            reveal_strlit("user_temporary");
            assert("score_inferred"@[0] != "user_temporary"@[0]);
            reveal_strlit("ai_reviewed");
            assert("score_inferred"@.len() != "ai_reviewed"@.len());
            reveal_strlit("manual_reviewed");
            assert("score_inferred"@.len() != "manual_reviewed"@.len());
        },
        ProblemAnswerSource::AiReviewed => {
            reveal_strlit("ai_reviewed");
            reveal_strlit("standard");
            assert("ai_reviewed"@.len() != "standard"@.len());
            reveal_strlit("user_temporary");
            assert("ai_reviewed"@.len() != "user_temporary"@.len());
            reveal_strlit("score_inferred");
            assert("ai_reviewed"@.len() != "score_inferred"@.len());
            reveal_strlit("manual_reviewed");
            assert("ai_reviewed"@.len() != "manual_reviewed"@.len());
        },
        ProblemAnswerSource::ManualReviewed => {
            reveal_strlit("manual_reviewed");
            reveal_strlit("standard");
            assert("manual_reviewed"@.len() != "standard"@.len());
            reveal_strlit("user_temporary");
            assert("manual_reviewed"@.len() != "user_temporary"@.len());
            reveal_strlit("score_inferred");
            assert("manual_reviewed"@.len() != "score_inferred"@.len());
            reveal_strlit("ai_reviewed");
            assert("manual_reviewed"@.len() != "ai_reviewed"@.len());
        },
    }
}

/// The stored name of a `ProblemReviewStatus`.
pub open spec fn review_status_name(v: ProblemReviewStatus) -> Seq<char> {
    match v {
        ProblemReviewStatus::NoReview => "none"@,
        ProblemReviewStatus::Pending => "pending"@,
        ProblemReviewStatus::Accepted => "accepted"@,
        ProblemReviewStatus::Unknown => "unknown"@,
        ProblemReviewStatus::Conflict => "conflict"@,
    }
}

pub fn review_status_to_str(v: ProblemReviewStatus) -> (r: &'static str)
    ensures
        r@ == review_status_name(v),
{
    match v {
        ProblemReviewStatus::NoReview => "none",
        ProblemReviewStatus::Pending => "pending",
        ProblemReviewStatus::Accepted => "accepted",
        ProblemReviewStatus::Unknown => "unknown",
        ProblemReviewStatus::Conflict => "conflict",
    }
}

/// The `ProblemReviewStatus` stored under `value`; unknown names read as `NoReview`.
pub open spec fn review_status_of(value: Seq<char>) -> ProblemReviewStatus {
    if value == "pending"@ {
        ProblemReviewStatus::Pending
    } else if value == "accepted"@ {
        ProblemReviewStatus::Accepted
    } else if value == "unknown"@ {
        ProblemReviewStatus::Unknown
    } else if value == "conflict"@ {
        ProblemReviewStatus::Conflict
    } else {
        ProblemReviewStatus::NoReview
    }
}

pub fn str_to_review_status(value: &str) -> (r: ProblemReviewStatus)
    ensures
        r == review_status_of(value@),
{
    if str_eq(value, "pending") {
        ProblemReviewStatus::Pending
    } else if str_eq(value, "accepted") {
        ProblemReviewStatus::Accepted
    } else if str_eq(value, "unknown") {
        ProblemReviewStatus::Unknown
    } else if str_eq(value, "conflict") {
        ProblemReviewStatus::Conflict
    } else {
        ProblemReviewStatus::NoReview
    }
}

/// Reading back the stored name of a `ProblemReviewStatus` gives the same value.
pub proof fn law_review_status_round_trip(v: ProblemReviewStatus)
    ensures
        review_status_of(review_status_name(v)) == v,
{
    match v {
        ProblemReviewStatus::NoReview => {
            reveal_strlit("none");
            reveal_strlit("pending");
            assert("none"@.len() != "pending"@.len());
            reveal_strlit("accepted");
            assert("none"@.len() != "accepted"@.len());
            reveal_strlit("unknown");
            assert("none"@.len() != "unknown"@.len());
            reveal_strlit("conflict");
            assert("none"@.len() != "conflict"@.len());
        },
        ProblemReviewStatus::Pending => {
            reveal_strlit("pending");
            reveal_strlit("none");
            assert("pending"@.len() != "none"@.len());
            reveal_strlit("accepted");
            assert("pending"@.len() != "accepted"@.len());
            reveal_strlit("unknown");
            assert("pending"@[0] != "unknown"@[0]);
            reveal_strlit("conflict");
            assert("pending"@.len() != "conflict"@.len());
        },
        ProblemReviewStatus::Accepted => {
            reveal_strlit("accepted");
            reveal_strlit("none");
            assert("accepted"@.len() != "none"@.len());
            reveal_strlit("pending");
            assert("accepted"@.len() != "pending"@.len());
            reveal_strlit("unknown");
            assert("accepted"@.len() != "unknown"@.len());
            reveal_strlit("conflict");
            assert("accepted"@[0] != "conflict"@[0]);
        },
        ProblemReviewStatus::Unknown => {
            reveal_strlit("unknown");
            reveal_strlit("none");
            assert("unknown"@.len() != "none"@.len());
            reveal_strlit("pending");
            assert("unknown"@[0] != "pending"@[0]);
            reveal_strlit("accepted");
            assert("unknown"@.len() != "accepted"@.len());
            reveal_strlit("conflict");
            assert("unknown"@.len() != "conflict"@.len());
        },
        ProblemReviewStatus::Conflict => {
            reveal_strlit("conflict");
            reveal_strlit("none");
            assert("conflict"@.len() != "none"@.len());
            reveal_strlit("pending");
            assert("conflict"@.len() != "pending"@.len());
            reveal_strlit("accepted");
            assert("conflict"@[0] != "accepted"@[0]);
            reveal_strlit("unknown");
            assert("conflict"@.len() != "unknown"@.len());
        },
    }
}

/// The stored name of a `ProblemReviewVerdict`.
pub open spec fn review_verdict_name(v: ProblemReviewVerdict) -> Seq<char> {
    match v {
        ProblemReviewVerdict::Correct => "correct"@,
        ProblemReviewVerdict::Wrong => "wrong"@,
        ProblemReviewVerdict::Unknown => "unknown"@,
    }
}

pub fn review_verdict_to_str(v: ProblemReviewVerdict) -> (r: &'static str)
    ensures
        r@ == review_verdict_name(v),
{
    match v {
        ProblemReviewVerdict::Correct => "correct",
        ProblemReviewVerdict::Wrong => "wrong",
        ProblemReviewVerdict::Unknown => "unknown",
    }
}

/// The `ProblemReviewVerdict` stored under `value`; unknown names read as `Unknown`.
pub open spec fn review_verdict_of(value: Seq<char>) -> ProblemReviewVerdict {
    if value == "correct"@ {
        ProblemReviewVerdict::Correct
    } else if value == "wrong"@ {
        ProblemReviewVerdict::Wrong
    } else {
        ProblemReviewVerdict::Unknown
    }
}

pub fn str_to_review_verdict(value: &str) -> (r: ProblemReviewVerdict)
    ensures
        r == review_verdict_of(value@),
{
    if str_eq(value, "correct") {
        ProblemReviewVerdict::Correct
    } else if str_eq(value, "wrong") {
        ProblemReviewVerdict::Wrong
    } else {
        ProblemReviewVerdict::Unknown
    }
}

/// Reading back the stored name of a `ProblemReviewVerdict` gives the same value.
pub proof fn law_review_verdict_round_trip(v: ProblemReviewVerdict)
    ensures
        review_verdict_of(review_verdict_name(v)) == v,
{
    match v {
        ProblemReviewVerdict::Correct => {
            reveal_strlit("correct");
            reveal_strlit("wrong");
            assert("correct"@.len() != "wrong"@.len());
            reveal_strlit("unknown");
            assert("correct"@[0] != "unknown"@[0]);
        },
        ProblemReviewVerdict::Wrong => {
            reveal_strlit("wrong");
            reveal_strlit("correct");
            assert("wrong"@.len() != "correct"@.len());
            reveal_strlit("unknown");
            assert("wrong"@.len() != "unknown"@.len());
        },
        ProblemReviewVerdict::Unknown => {
            reveal_strlit("unknown");
            reveal_strlit("correct");
            assert("unknown"@[0] != "correct"@[0]);
            reveal_strlit("wrong");
            assert("unknown"@.len() != "wrong"@.len());
        },
    }
}

/// The stored name of a `ProblemReviewConfidence`.
pub open spec fn review_confidence_name(v: ProblemReviewConfidence) -> Seq<char> {
    match v {
        ProblemReviewConfidence::High => "high"@,
        ProblemReviewConfidence::Medium => "medium"@,
        ProblemReviewConfidence::Low => "low"@,
        ProblemReviewConfidence::Unknown => "unknown"@,
    }
}

pub fn review_confidence_to_str(v: ProblemReviewConfidence) -> (r: &'static str)
    ensures
        r@ == review_confidence_name(v),
{
    match v {
        ProblemReviewConfidence::High => "high",
        ProblemReviewConfidence::Medium => "medium",
        ProblemReviewConfidence::Low => "low",
        ProblemReviewConfidence::Unknown => "unknown",
    }
}

/// The `ProblemReviewConfidence` stored under `value`; unknown names read as `Unknown`.
pub open spec fn review_confidence_of(value: Seq<char>) -> ProblemReviewConfidence {
    if value == "high"@ {
        ProblemReviewConfidence::High
    } else if value == "medium"@ {
        ProblemReviewConfidence::Medium
    } else if value == "low"@ {
        ProblemReviewConfidence::Low
    } else {
        ProblemReviewConfidence::Unknown
    }
}

pub fn str_to_review_confidence(value: &str) -> (r: ProblemReviewConfidence)
    ensures
        r == review_confidence_of(value@),
{
    if str_eq(value, "high") {
        ProblemReviewConfidence::High
    } else if str_eq(value, "medium") {
        ProblemReviewConfidence::Medium
    } else if str_eq(value, "low") {
        ProblemReviewConfidence::Low
    } else {
        ProblemReviewConfidence::Unknown
    }
}

/// Reading back the stored name of a `ProblemReviewConfidence` gives the same value.
pub proof fn law_review_confidence_round_trip(v: ProblemReviewConfidence)
    ensures
        review_confidence_of(review_confidence_name(v)) == v,
{
    match v {
        ProblemReviewConfidence::High => {
            reveal_strlit("high");
            reveal_strlit("medium");
            assert("high"@.len() != "medium"@.len());
            reveal_strlit("low");
            assert("high"@.len() != "low"@.len());
            reveal_strlit("unknown");
            assert("high"@.len() != "unknown"@.len());
        },
        ProblemReviewConfidence::Medium => {
            reveal_strlit("medium");
            reveal_strlit("high");
            assert("medium"@.len() != "high"@.len());
            reveal_strlit("low");
            assert("medium"@.len() != "low"@.len());
            reveal_strlit("unknown");
            assert("medium"@.len() != "unknown"@.len());
        },
        ProblemReviewConfidence::Low => {
            reveal_strlit("low");
            reveal_strlit("high");
            assert("low"@.len() != "high"@.len());
            reveal_strlit("medium");
            assert("low"@.len() != "medium"@.len());
            reveal_strlit("unknown");
            assert("low"@.len() != "unknown"@.len());
        },
        ProblemReviewConfidence::Unknown => {
            reveal_strlit("unknown");
            reveal_strlit("high");
            assert("unknown"@.len() != "high"@.len());
            reveal_strlit("medium");
            assert("unknown"@.len() != "medium"@.len());
            reveal_strlit("low");
            assert("unknown"@.len() != "low"@.len());
        },
    }
}

// ------------------------------------------------------------------
// Deck names
// ------------------------------------------------------------------
/// The name given to a deck whose source names nothing.
pub open spec fn unnamed_deck() -> Seq<char> {
    "未命名题库"@
}

/// The deck name taken from a file stem: the trimmed stem unless it is
/// missing or blank.
pub open spec fn deck_name_of_stem(stem: Option<Seq<char>>) -> Seq<char> {
    match stem {
        Some(s) => if trim(s).len() > 0 {
            trim(s)
        } else {
            unnamed_deck()
        },
        None => unnamed_deck(),
    }
}

pub fn deck_name_from_stem(stem: Option<&str>) -> (r: String)
    ensures
        r@ == deck_name_of_stem(match stem {
            Some(s) => Some(s@),
            None => None,
        }),
{
    match stem {
        Some(s) => {
            let t = trim_chars(&chars_of(s));
            if t.len() > 0 {
                string_of(&t)
            } else {
                lit_string("未命名题库")
            }
        },
        None => lit_string("未命名题库"),
    }
}

/// The position of the last `.` in `s`.
pub open spec fn last_dot(s: Seq<char>) -> Option<int>
    decreases s.len(),
{
    if s.len() == 0 {
        None
    } else if s.last() == '.' {
        Some(s.len() - 1)
    } else {
        last_dot(s.drop_last())
    }
}

/// A path that is one plain file name on every platform: not empty, not
/// `.` or `..`, and without `/`, `\` or `:`.
pub open spec fn plain_file_name(path: Seq<char>) -> bool {
    path.len() > 0 && path != "."@ && path != ".."@ && !path.contains('/') && !path.contains('\\')
        && !path.contains(':')
}

/// The stem of a file name: the text before its last `.`, or the whole
/// name when it has no `.` or only a leading one.
pub open spec fn name_stem(name: Seq<char>) -> Seq<char> {
    match last_dot(name) {
        Some(i) => if i == 0 {
            name
        } else {
            name.take(i)
        },
        None => name,
    }
}

/// `Path::file_stem` of `path`, as UTF-8.  Path syntax is the platform's,
/// so what is stated is what holds on every platform: the stem is a piece
/// of the path's text (`file_stem` returns a slice of the path) holding no
/// `/`, and for a path that is one plain file name it is the name's stem
/// as the documentation of `Path::file_stem` gives it.
#[verifier::external_body]
fn file_stem(path: &str) -> (r: Option<String>)
    ensures
        match r {
            Some(s) => crate::text::contains_seq(path@, s@) && !s@.contains('/') && (plain_file_name(path@)
                ==> s@ == name_stem(path@)),
            None => !plain_file_name(path@),
        },
{
    std::path::Path::new(path).file_stem().and_then(|s| s.to_str()).map(|s| s.to_owned())
}

/// A deck name taken from `source_path`: that of some stem that is a
/// piece of the path holding no `/`, or of no stem.
pub open spec fn source_deck_name(source_path: Seq<char>, name: Seq<char>) -> bool {
    exists|stem: Option<Seq<char>>|
        name == deck_name_of_stem(stem) && (stem matches Some(t) ==> crate::text::contains_seq(
            source_path,
            t,
        ) && !t.contains('/'))
}

/// The deck name for a bank imported from `source_path`: its file stem,
/// trimmed, or the unnamed-deck name.
pub fn deck_name_from_source(source_path: &str) -> (r: String)
    ensures
        source_deck_name(source_path@, r@),
        plain_file_name(source_path@) ==> r@ == deck_name_of_stem(Some(name_stem(source_path@))),
{
    let stem = file_stem(source_path);
    match &stem {
        Some(s) => deck_name_from_stem(Some(s.as_str())),
        None => deck_name_from_stem(None),
    }
}

/// The deck name an import uses: the first problem that names a deck
/// decides (its name trimmed, if not blank); otherwise the name taken from
/// the source.
pub open spec fn first_deck_name(names: Seq<Option<Seq<char>>>) -> Option<Seq<char>>
    decreases names.len(),
{
    if names.len() == 0 {
        None
    } else {
        match names[0] {
            Some(n) => Some(n),
            None => first_deck_name(names.drop_first()),
        }
    }
}

pub open spec fn deck_names(problems: Seq<Problem>) -> Seq<Option<Seq<char>>> {
    problems.map_values(|p: Problem| match p.deck_name {
        Some(n) => Some(n@),
        None => None,
    })
}

/// The named deck of an import, when the problems name one that is not
/// blank.
pub open spec fn named_import_deck(problems: Seq<Problem>) -> Option<Seq<char>> {
    match first_deck_name(deck_names(problems)) {
        Some(n) => if trim(n).len() > 0 {
            Some(trim(n))
        } else {
            None
        },
        None => None,
    }
}

/// The deck name an import into the store uses.
pub fn import_deck_name(problems: &[Problem], source_path: &str) -> (r: String)
    ensures
        named_import_deck(problems@) matches Some(n) ==> r@ == n,
        named_import_deck(problems@) is None ==> source_deck_name(source_path@, r@),
        named_import_deck(problems@) is None && plain_file_name(source_path@) ==> r@
            == deck_name_of_stem(Some(name_stem(source_path@))),
{
    let ghost names = deck_names(problems@);
    let mut i: usize = 0;
    assert(names.skip(0) =~= names);
    while i < problems.len()
        invariant
            i <= problems@.len(),
            names == deck_names(problems@),
            names.len() == problems@.len(),
            first_deck_name(names.skip(i as int)) == first_deck_name(names),
        decreases problems@.len() - i,
    {
        let ghost rest = names.skip(i as int);
        assert(rest[0] == names[i as int]);
        assert(rest.drop_first() =~= names.skip(i + 1));
        match &problems[i].deck_name {
            Some(n) => {
                let t = trim_chars(&chars_of(n.as_str()));
                if t.len() > 0 {
                    return string_of(&t);
                } else {
                    return deck_name_from_source(source_path);
                }
            },
            None => {},
        }
        i = i + 1;
    }
    assert(names.skip(i as int) =~= Seq::<Option<Seq<char>>>::empty());
    deck_name_from_source(source_path)
}

// ------------------------------------------------------------------
// Corrections written back
// ------------------------------------------------------------------
/// The review state of a manually corrected answer: accepted with high
/// confidence, nothing left to review, no user answer or score.
pub open spec fn manual_state() -> StateView {
    StateView {
        user_answer: Seq::empty(),
        answer_source: ProblemAnswerSource::ManualReviewed,
        review_needed: false,
        review_status: ProblemReviewStatus::Accepted,
        review_verdict: ProblemReviewVerdict::Unknown,
        review_confidence: ProblemReviewConfidence::High,
        score_display: Seq::empty(),
    }
}

/// The answer stored for a manual correction: the trimmed answer as
/// normalisation writes it for the problem in its manual state.
pub open spec fn manual_answer_text(p: Problem, answer: Seq<char>) -> Seq<char> {
    normalized(PView { answer: trim(answer), state: manual_state(), ..pview(p) }).answer
}

/// A problem after a person corrects its answer; refused when the answer
/// is blank.  Only the answer and the review state change.
pub fn apply_manual_answer(problem: &Problem, answer: &str) -> (r: Result<Problem, String>)
    ensures
        blank(answer@) ==> (r matches Err(m) && m@ == "人工修正答案不能为空"@),
        !blank(answer@) ==> (r matches Ok(q) && q@ == (ProblemV {
            answer: manual_answer_text(*problem, answer@),
            state: manual_state(),
            ..problem@
        })),
{
    if is_blank_str(answer) {
        return Err(lit_string("人工修正答案不能为空"));
    }
    let mut corrected = copy_problem(problem);
    corrected.answer = string_of(&trim_chars(&chars_of(answer)));
    corrected.state = manual_review_state();
    proof {
        assert(pview(corrected) == PView { answer: trim(answer@), state: manual_state(), ..pview(*problem) });
    }
    let n = normalize_problem(corrected);
    let mut stored = copy_problem(problem);
    stored.answer = n.answer;
    stored.state = manual_review_state();
    Ok(stored)
}

fn manual_review_state() -> (r: ProblemState)
    ensures
        r@ == manual_state(),
{
    let r = ProblemState {
        user_answer: String::new(),
        answer_source: ProblemAnswerSource::ManualReviewed,
        review_needed: false,
        review_status: ProblemReviewStatus::Accepted,
        review_verdict: ProblemReviewVerdict::Unknown,
        review_confidence: ProblemReviewConfidence::High,
        score_display: String::new(),
    };
    assert(r@.user_answer =~= Seq::<char>::empty());
    assert(r@.score_display =~= Seq::<char>::empty());
    r
}

/// An answer that an AI review accepted, ready to be written back: the
/// review accepted it and the answer is not blank.
pub open spec fn accepted_ai_review(p: Problem) -> bool {
    p.state.answer_source == ProblemAnswerSource::AiReviewed && p.state.review_status
        == ProblemReviewStatus::Accepted && !blank(p.answer@)
}

pub fn is_accepted_ai_review(problem: &Problem) -> (r: bool)
    ensures
        r == accepted_ai_review(*problem),
{
    let source_ok = match problem.state.answer_source {
        ProblemAnswerSource::AiReviewed => true,
        _ => false,
    };
    let status_ok = match problem.state.review_status {
        ProblemReviewStatus::Accepted => true,
        _ => false,
    };
    source_ok && status_ok && !is_blank_str(problem.answer.as_str())
}

/// The positions, in order, among the first `n` problems, of those whose
/// accepted AI reviews are written back.
pub open spec fn accepted_positions(ps: Seq<Problem>, n: int) -> Seq<usize>
    decreases n,
{
    if n <= 0 {
        Seq::empty()
    } else if accepted_ai_review(ps[n - 1]) {
        accepted_positions(ps, n - 1).push((n - 1) as usize)
    } else {
        accepted_positions(ps, n - 1)
    }
}

pub fn accepted_ai_reviews(problems: &[Problem]) -> (r: Vec<usize>)
    ensures
        r@ == accepted_positions(problems@, problems@.len() as int),
{
    let mut out: Vec<usize> = Vec::new();
    let mut i: usize = 0;
    while i < problems.len()
        invariant
            i <= problems@.len(),
            out@ == accepted_positions(problems@, i as int),
        decreases problems@.len() - i,
    {
        if is_accepted_ai_review(&problems[i]) {
            out.push(i);
        }
        i = i + 1;
    }
    out
}

} // verus!
