//! Loading a problem bank once its file has been read and parsed: which
//! formats are accepted, the deck metadata a bank passes to its problems,
//! the conversion of exported page snapshots, and the checks every loaded
//! problem must pass before it is normalised.
use vstd::prelude::*;
use crate::ai::blank;
use crate::logging::{lower_ascii_chars, lower_ascii_seq};
use crate::normalize::{lit_string, normalize_problem, normalized, pview, same_identity};
use crate::problem::{
    opt_view, Problem, ProblemAnswerSource, ProblemImage, ProblemReviewConfidence,
    ProblemReviewStatus, ProblemReviewVerdict, ProblemState, ProblemV,
};
use crate::problem_export::or_empty;
use crate::text::{
    chars_of, contains_seq, contains_str, ends_with, ends_with_chars, ends_with_str, eq_lit,
    extend_chars, extend_str, is_blank_str, replace_all, replace_all_chars, string_of, trim,
    trim_chars, trim_start_set, trim_start_set_chars,
};

verus! {

// ------------------------------------------------------------------
// Formats
// ------------------------------------------------------------------
/// The file formats a bank can be loaded from.
#[derive(Debug, Clone, Copy, PartialEq, Eq, Structural)]
pub enum BankFormat {
    Json,
    Csv,
    Zip,
}

pub open spec fn format_of(extension: Option<Seq<char>>) -> Option<BankFormat> {
    match extension {
        Some(e) => {
            let l = lower_ascii_seq(e);
            if l == "json"@ {
                Some(BankFormat::Json)
            } else if l == "csv"@ {
                Some(BankFormat::Csv)
            } else if l == "zip"@ {
                Some(BankFormat::Zip)
            } else {
                None
            }
        },
        None => None,
    }
}

/// The format of a bank file by its extension (ASCII case ignored).
pub fn bank_format(extension: Option<&str>) -> (r: Result<BankFormat, String>)
    ensures
        match format_of(
            match extension {
                Some(e) => Some(e@),
                None => None,
            },
        ) {
            Some(f) => r == Ok::<BankFormat, String>(f),
            None => r matches Err(m) && m@ == "仅支持 .json / .csv / .zip 题库文件"@,
        },
{
    match extension {
        Some(e) => {
            let l = lower_ascii_chars(&chars_of(e));
            if eq_lit(&l, "json") {
                Ok(BankFormat::Json)
            } else if eq_lit(&l, "csv") {
                Ok(BankFormat::Csv)
            } else if eq_lit(&l, "zip") {
                Ok(BankFormat::Zip)
            } else {
                Err(lit_string("仅支持 .json / .csv / .zip 题库文件"))
            }
        },
        None => Err(lit_string("仅支持 .json / .csv / .zip 题库文件")),
    }
}

/// Pasted bank text: a byte-order mark and surrounding whitespace removed;
/// refused when nothing is left.
pub open spec fn import_text_of(text: Seq<char>) -> Option<Seq<char>> {
    let t = trim(trim_start_set(text, seq!['\u{feff}']));
    if t.len() == 0 {
        None
    } else {
        Some(t)
    }
}

pub fn import_text_body(text: &str) -> (r: Result<String, String>)
    ensures
        match import_text_of(text@) {
            Some(t) => r matches Ok(s) && s@ == t,
            None => r matches Err(m) && m@ == "题库文本为空"@,
        },
{
    let bom = vec!['\u{feff}'];
    assert(bom@ =~= seq!['\u{feff}']);
    let t = trim_chars(&trim_start_set_chars(&chars_of(text), &bom));
    if t.len() == 0 {
        Err(lit_string("题库文本为空"))
    } else {
        Ok(string_of(&t))
    }
}

/// Why pasted text is neither a JSON nor a CSV bank.
pub fn text_import_error(json_error: &str, csv_error: &str) -> (r: String)
    ensures
        r@ == "无法按 JSON 或 CSV 解析题库：JSON："@ + json_error@ + "；CSV："@ + csv_error@,
{
    let mut out = chars_of("无法按 JSON 或 CSV 解析题库：JSON：");
    extend_str(&mut out, json_error);
    extend_str(&mut out, "；CSV：");
    extend_str(&mut out, csv_error);
    string_of(&out)
}

// ------------------------------------------------------------------
// Checks
// ------------------------------------------------------------------
/// Why a loaded bank is refused, if it is: no problems, or the first
/// problem without an id, a prompt or an answer.
pub open spec fn validation_error(ps: Seq<ProblemV>) -> Option<Seq<char>>
    decreases ps.len(),
{
    if ps.len() == 0 {
        None
    } else {
        let p = ps[0];
        if blank(p.id) {
            Some("题目 id 不能为空"@)
        } else if blank(p.prompt) {
            Some("题目 "@ + p.id + " 的题干不能为空"@)
        } else if blank(p.answer) {
            Some("题目 "@ + p.id + " 的答案不能为空"@)
        } else {
            validation_error(ps.drop_first())
        }
    }
}

pub open spec fn problem_views(ps: Seq<Problem>) -> Seq<ProblemV> {
    ps.map_values(|p: Problem| p@)
}

/// Checks a loaded bank and normalises its problems: refused when empty or
/// when a problem lacks an id, prompt or answer.
pub fn validate_problems(problems: Vec<Problem>) -> (r: Result<Vec<Problem>, String>)
    ensures
        problems@.len() == 0 ==> (r matches Err(m) && m@ == "题库为空"@),
        problems@.len() > 0 ==> match validation_error(problem_views(problems@)) {
            Some(e) => r matches Err(m) && m@ == e,
            None => r matches Ok(v) && v@.len() == problems@.len() && forall|i: int|
                0 <= i < v@.len() ==> pview(#[trigger] v@[i]) == normalized(pview(problems@[i]))
                    && same_identity(problems@[i], v@[i]),
        },
{
    if problems.len() == 0 {
        return Err(lit_string("题库为空"));
    }
    let ghost pv = problem_views(problems@);
    let mut i: usize = 0;
    assert(pv.skip(0) =~= pv);
    while i < problems.len()
        invariant
            i <= problems@.len(),
            pv == problem_views(problems@),
            pv.len() == problems@.len(),
            validation_error(pv.skip(i as int)) == validation_error(pv),
        decreases problems@.len() - i,
    {
        let ghost rest = pv.skip(i as int);
        assert(rest[0] == problems@[i as int]@);
        assert(rest.drop_first() =~= pv.skip(i + 1));
        let p = &problems[i];
        if is_blank_str(p.id.as_str()) {
            return Err(lit_string("题目 id 不能为空"));
        }
        if is_blank_str(p.prompt.as_str()) {
            let mut m = chars_of("题目 ");
            extend_str(&mut m, p.id.as_str());
            extend_str(&mut m, " 的题干不能为空");
            return Err(string_of(&m));
        }
        if is_blank_str(p.answer.as_str()) {
            let mut m = chars_of("题目 ");
            extend_str(&mut m, p.id.as_str());
            extend_str(&mut m, " 的答案不能为空");
            return Err(string_of(&m));
        }
        i = i + 1;
    }
    assert(pv.skip(i as int) =~= Seq::<ProblemV>::empty());
    let mut out: Vec<Problem> = Vec::new();
    let mut rest = problems;
    let ghost orig = rest@;
    let mut k: usize = 0;
    assert(orig.skip(0) =~= orig);
    assert(orig.len() == rest.len());
    while rest.len() > 0
        invariant
            k <= orig.len(),
            orig.len() <= usize::MAX,
            rest@ == orig.skip(k as int),
            out@.len() == k,
            forall|j: int|
                0 <= j < k ==> pview(#[trigger] out@[j]) == normalized(pview(orig[j])) && same_identity(
                    orig[j],
                    out@[j],
                ),
        decreases rest@.len(),
    {
        let p = rest.remove(0);
        assert(p == orig[k as int]);
        assert(rest@ =~= orig.skip(k + 1));
        let q = normalize_problem(p);
        out.push(q);
        k = k + 1;
    }
    assert(k == orig.len());
    Ok(out)
}

// ------------------------------------------------------------------
// Deck metadata of a bank
// ------------------------------------------------------------------
/// A problem of a bank file: the bank's deck name and description fill
/// in where the problem has none and the bank has one.
pub open spec fn with_bank_metadata(p: ProblemV, deck_name: Seq<char>, deck_info: Seq<char>) -> ProblemV {
    ProblemV {
        deck_name: if blank(or_empty(p.deck_name)) && !blank(deck_name) {
            Some(deck_name)
        } else {
            p.deck_name
        },
        deck_info: if blank(or_empty(p.deck_info)) && !blank(deck_info) {
            Some(deck_info)
        } else {
            p.deck_info
        },
        ..p
    }
}

/// A bank's deck name and description never replace a problem's own: a
/// problem that names a deck (or has a description) keeps it, and one
/// without takes the bank's when the bank has one.
pub proof fn law_bank_metadata_fills_only_gaps(p: ProblemV, deck_name: Seq<char>, deck_info: Seq<char>)
    ensures
        !blank(or_empty(p.deck_name)) ==> with_bank_metadata(p, deck_name, deck_info).deck_name
            == p.deck_name,
        !blank(or_empty(p.deck_info)) ==> with_bank_metadata(p, deck_name, deck_info).deck_info
            == p.deck_info,
        blank(or_empty(p.deck_name)) && !blank(deck_name) ==> with_bank_metadata(
            p,
            deck_name,
            deck_info,
        ).deck_name == Some(deck_name),
        blank(deck_name) ==> with_bank_metadata(p, deck_name, deck_info).deck_name == p.deck_name,
        with_bank_metadata(p, deck_name, deck_info).prompt == p.prompt && with_bank_metadata(
            p,
            deck_name,
            deck_info,
        ).answer == p.answer && with_bank_metadata(p, deck_name, deck_info).id == p.id,
{
}

fn blank_opt(o: &Option<String>) -> (r: bool)
    ensures
        r == blank(or_empty(opt_view(*o))),
{
    match o {
        Some(s) => is_blank_str(s.as_str()),
        None => {
            assert(trim(Seq::<char>::empty()) =~= Seq::<char>::empty());
            true
        },
    }
}

pub fn apply_bank_metadata(problems: &mut Vec<Problem>, deck_name: &str, deck_info: &str)
    ensures
        final(problems)@.len() == old(problems)@.len(),
        forall|i: int|
            0 <= i < old(problems)@.len() ==> (#[trigger] final(problems)@[i])@ == with_bank_metadata(
                old(problems)@[i]@,
                deck_name@,
                deck_info@,
            ),
{
    let name_blank = is_blank_str(deck_name);
    let info_blank = is_blank_str(deck_info);
    let ghost orig = problems@;
    let mut i: usize = 0;
    while i < problems.len()
        invariant
            i <= problems@.len(),
            problems@.len() == orig.len(),
            name_blank == blank(deck_name@),
            info_blank == blank(deck_info@),
            forall|k: int|
                0 <= k < i ==> (#[trigger] problems@[k])@ == with_bank_metadata(
                    orig[k]@,
                    deck_name@,
                    deck_info@,
                ),
            forall|k: int| i <= k < problems@.len() ==> #[trigger] problems@[k] == orig[k],
        decreases problems@.len() - i,
    {
        let mut p = crate::problem::copy_problem(&problems[i]);
        if blank_opt(&p.deck_name) && !name_blank {
            p.deck_name = Some(lit_string(deck_name));
        }
        if blank_opt(&p.deck_info) && !info_blank {
            p.deck_info = Some(lit_string(deck_info));
        }
        assert(p@ == with_bank_metadata(orig[i as int]@, deck_name@, deck_info@));
        problems.set(i, p);
        i = i + 1;
    }
}

// ------------------------------------------------------------------
// Page snapshots
// ------------------------------------------------------------------
/// The bank described by a page snapshot.
#[derive(Debug, Clone, Default)]
pub struct DebugSnapshotBankInfo {
    pub name: String,
    pub info: String,
}

/// What the userscript extracted for one problem of a page.
#[derive(Debug, Clone)]
pub struct DebugSnapshotExtractedProblem {
    pub prompt: String,
    pub answer: String,
    pub explanation: String,
    pub tags: Vec<String>,
    pub images: Vec<ProblemImage>,
    pub user_answer: String,
    pub answer_source: ProblemAnswerSource,
    pub review_needed: bool,
    pub review_status: ProblemReviewStatus,
    pub review_verdict: ProblemReviewVerdict,
    pub score_display: String,
}

/// One problem of a page snapshot.
#[derive(Debug, Clone)]
pub struct DebugSnapshotProblem {
    pub id: String,
    pub extracted: DebugSnapshotExtractedProblem,
}

/// The problem a snapshot entry stands for: its extracted fields, no type,
/// the bank's name and description when they are not blank, review
/// confidence unknown.
pub fn debug_snapshot_problem_to_problem(item: DebugSnapshotProblem, bank: &DebugSnapshotBankInfo) -> (r:
    Problem)
    ensures
        r.id@ == item.id@,
        r.prompt@ == item.extracted.prompt@,
        r.answer@ == item.extracted.answer@,
        r.explanation@ == item.extracted.explanation@,
        r.tags.deep_view() == item.extracted.tags.deep_view(),
        r.problem_type is None,
        opt_view(r.deck_name) == if blank(bank.name@) {
            None
        } else {
            Some(bank.name@)
        },
        opt_view(r.deck_info) == if blank(bank.info@) {
            None
        } else {
            Some(bank.info@)
        },
        r.images == item.extracted.images,
        r.state.user_answer@ == item.extracted.user_answer@,
        r.state.answer_source == item.extracted.answer_source,
        r.state.review_needed == item.extracted.review_needed,
        r.state.review_status == item.extracted.review_status,
        r.state.review_verdict == item.extracted.review_verdict,
        r.state.review_confidence == ProblemReviewConfidence::Unknown,
        r.state.score_display@ == item.extracted.score_display@,
{
    let e = item.extracted;
    Problem {
        id: item.id,
        prompt: e.prompt,
        answer: e.answer,
        explanation: e.explanation,
        tags: e.tags,
        problem_type: None,
        deck_name: if is_blank_str(bank.name.as_str()) {
            None
        } else {
            Some(bank.name.clone())
        },
        deck_info: if is_blank_str(bank.info.as_str()) {
            None
        } else {
            Some(bank.info.clone())
        },
        images: e.images,
        state: ProblemState {
            user_answer: e.user_answer,
            answer_source: e.answer_source,
            review_needed: e.review_needed,
            review_status: e.review_status,
            review_verdict: e.review_verdict,
            review_confidence: ProblemReviewConfidence::Unknown,
            score_display: e.score_display,
        },
    }
}

// ------------------------------------------------------------------
// Images inside a ZIP bank
// ------------------------------------------------------------------
/// Backslashes written as slashes.
pub open spec fn slashed(s: Seq<char>) -> Seq<char> {
    replace_all(s, "\\"@, "/"@)
}

/// An archive entry holds image `index` (from 0) of a problem: it is
/// `assets/<file>`, ends with `-<index + 1>-<file>`, or names the problem
/// and ends with the file name.
pub open spec fn is_image_entry(name: Seq<char>, problem_id: Seq<char>, index: nat, filename: Seq<char>) -> bool {
    let n = slashed(name);
    ||| n == "assets/"@ + slashed(filename)
    ||| ends_with(n, "-"@ + crate::text::decimal(index + 1) + "-"@ + slashed(filename))
    ||| (contains_seq(n, problem_id) && ends_with(n, filename))
}

pub fn zip_image_entry_matches(name: &str, problem_id: &str, index: u64, filename: &str) -> (r: bool)
    requires
        index < u64::MAX,
    ensures
        r == is_image_entry(name@, problem_id@, index as nat, filename@),
{
    let back = chars_of("\\");
    let slash = chars_of("/");
    let n = replace_all_chars(&chars_of(name), &back, &slash);
    let f = replace_all_chars(&chars_of(filename), &back, &slash);
    let mut fallback = chars_of("assets/");
    extend_chars(&mut fallback, &f);
    let mut suffix = chars_of("-");
    extend_chars(&mut suffix, &crate::text::decimal_chars(index + 1));
    extend_str(&mut suffix, "-");
    extend_chars(&mut suffix, &f);
    crate::text::chars_eq(&n, &fallback) || ends_with_chars(&n, &suffix) || (
    crate::text::contains_chars(&n, &chars_of(problem_id)) && ends_with_str(&n, filename))
}

} // verus!
