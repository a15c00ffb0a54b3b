//! Presentation rules of the practice application that do not depend on a
//! GUI toolkit: labels, shortened texts, byte sizes, virtual import sources,
//! the answer form's keyboard handling and the file-picker result queue.
use vstd::prelude::*;
use crate::problem::{
    judgement_options, kind_of, needs_review, options_of, Problem, ProblemAnswerSource,
    ProblemReviewStatus, ProblemType,
};
use crate::text::{
    chars_of, decimal, decimal_chars, extend_chars, extend_str, is_whitespace, is_ws, join,
    lemma_deep_chars, push_line, slice_vec, split_set, split_set_chars, string_of, trim,
    trim_chars,
};

verus! {

/// Whether the application lays itself out for a desktop window or a phone.
#[derive(Debug, Clone, Copy, PartialEq, Eq, Structural)]
pub enum AppUiMode {
    Desktop,
    Mobile,
}

/// What the user asked for in a problem's preview row.
#[derive(Debug, Clone, PartialEq, Eq)]
pub enum ProblemPreviewAction {
    Start { problem_id: String, answer: String },
    Save { problem_id: String, answer: String },
    Cancel,
}

// ------------------------------------------------------------------
// Labels
// ------------------------------------------------------------------
pub open spec fn type_label(t: ProblemType) -> Seq<char> {
    match t {
        ProblemType::SingleChoice => "单选题"@,
        ProblemType::MultipleChoice => "多选题"@,
        ProblemType::Text => "文本题"@,
    }
}

/// The name of a problem type as the interface shows it.
pub fn problem_type_label(problem_type: ProblemType) -> (r: &'static str)
    ensures
        r@ == type_label(problem_type),
{
    match problem_type {
        ProblemType::SingleChoice => "单选题",
        ProblemType::MultipleChoice => "多选题",
        ProblemType::Text => "文本题",
    }
}

pub open spec fn display_type_label(p: Problem) -> Seq<char> {
    if judgement_options(options_of(p.prompt@)) {
        "判断题"@
    } else {
        type_label(kind_of(p))
    }
}

/// A true/false question is shown as such; other problems by their type.
pub fn problem_display_type_label(problem: &Problem) -> (r: &'static str)
    ensures
        r@ == display_type_label(*problem),
{
    if problem.is_judgement() {
        "判断题"
    } else {
        problem_type_label(problem.kind())
    }
}

pub open spec fn source_label(s: ProblemAnswerSource) -> Seq<char> {
    match s {
        ProblemAnswerSource::Standard => "标准答案"@,
        ProblemAnswerSource::UserTemporary => "临时答案"@,
        ProblemAnswerSource::ScoreInferred => "得分推断"@,
        ProblemAnswerSource::AiReviewed => "AI复核"@,
        ProblemAnswerSource::ManualReviewed => "人工确认"@,
    }
}

/// Where a problem's answer came from, as the preview shows it.
pub fn answer_source_label(source: ProblemAnswerSource) -> (r: &'static str)
    ensures
        r@ == source_label(source),
{
    match source {
        ProblemAnswerSource::Standard => "标准答案",
        ProblemAnswerSource::UserTemporary => "临时答案",
        ProblemAnswerSource::ScoreInferred => "得分推断",
        ProblemAnswerSource::AiReviewed => "AI复核",
        ProblemAnswerSource::ManualReviewed => "人工确认",
    }
}

pub open spec fn true_answer_word(t: Seq<char>) -> bool {
    t == "A"@ || t == "a"@ || t == "对"@ || t == "正确"@ || t == "√"@
}

pub open spec fn false_answer_word(t: Seq<char>) -> bool {
    t == "B"@ || t == "b"@ || t == "错"@ || t == "错误"@ || t == "×"@
}

pub open spec fn displayed_answer(judgement: bool, answer: Seq<char>) -> Seq<char> {
    if !judgement {
        answer
    } else if true_answer_word(trim(answer)) {
        "对"@
    } else if false_answer_word(trim(answer)) {
        "错"@
    } else {
        trim(answer)
    }
}

fn is_true_answer_word(t: &[char]) -> (r: bool)
    ensures
        r == true_answer_word(t@),
{
    crate::text::eq_lit(t, "A") || crate::text::eq_lit(t, "a") || crate::text::eq_lit(t, "对")
        || crate::text::eq_lit(t, "正确") || crate::text::eq_lit(t, "√")
}

fn is_false_answer_word(t: &[char]) -> (r: bool)
    ensures
        r == false_answer_word(t@),
{
    crate::text::eq_lit(t, "B") || crate::text::eq_lit(t, "b") || crate::text::eq_lit(t, "错")
        || crate::text::eq_lit(t, "错误") || crate::text::eq_lit(t, "×")
}

/// An answer as the preview shows it: the letters of a true/false question
/// become 对 and 错.
pub fn display_answer_value(problem: &Problem, answer: &str) -> (r: String)
    ensures
        r@ == displayed_answer(judgement_options(options_of(problem.prompt@)), answer@),
{
    if !problem.is_judgement() {
        return crate::normalize::lit_string(answer);
    }
    let a = chars_of(answer);
    let t = trim_chars(&a);
    if is_true_answer_word(&t) {
        crate::normalize::lit_string("对")
    } else if is_false_answer_word(&t) {
        crate::normalize::lit_string("错")
    } else {
        string_of(&t)
    }
}

// ------------------------------------------------------------------
// Shortened texts
// ------------------------------------------------------------------
pub open spec fn compact_tail(s: Seq<char>, max_chars: nat) -> Seq<char> {
    if s.len() <= max_chars {
        s
    } else {
        let keep: int = if max_chars >= 1 { max_chars - 1 } else { 0 };
        seq!['…'] + s.subrange(s.len() - keep, s.len() as int)
    }
}

/// A text cut to `max_chars` characters by keeping its end behind an
/// ellipsis.
pub fn compact_text(value: &str, max_chars: usize) -> (r: String)
    ensures
        r@ == compact_tail(value@, max_chars as nat),
{
    let s = chars_of(value);
    if s.len() <= max_chars {
        return string_of(&s);
    }
    let keep: usize = if max_chars >= 1 { max_chars - 1 } else { 0 };
    let mut out: Vec<char> = Vec::new();
    out.push('…');
    let tail = slice_vec(&s, s.len() - keep, s.len());
    extend_chars(&mut out, &tail);
    assert(out@ =~= seq!['…'] + s@.subrange(s@.len() - keep, s@.len() as int));
    string_of(&out)
}

pub open spec fn compact_mid(s: Seq<char>, max_chars: nat) -> Seq<char> {
    if s.len() <= max_chars {
        s
    } else if max_chars <= 3 {
        seq!['…']
    } else {
        let head: int = (max_chars - 1) / 2;
        let tail: int = max_chars - 1 - head;
        s.take(head) + seq!['…'] + s.subrange(s.len() - tail, s.len() as int)
    }
}

/// A text cut to `max_chars` characters by replacing its middle with an
/// ellipsis.
pub fn compact_middle(value: &str, max_chars: usize) -> (r: String)
    ensures
        r@ == compact_mid(value@, max_chars as nat),
        r@.len() <= if value@.len() <= max_chars { value@.len() } else if max_chars <= 3 { 1 } else { max_chars as nat },
{
    let s = chars_of(value);
    if s.len() <= max_chars {
        return string_of(&s);
    }
    if max_chars <= 3 {
        let mut out: Vec<char> = Vec::new();
        out.push('…');
        assert(out@ =~= seq!['…']);
        return string_of(&out);
    }
    let head: usize = (max_chars - 1) / 2;
    let tail: usize = max_chars - 1 - head;
    let mut out = slice_vec(&s, 0, head);
    out.push('…');
    let end = slice_vec(&s, s.len() - tail, s.len());
    extend_chars(&mut out, &end);
    assert(out@ =~= s@.take(head as int) + seq!['…'] + s@.subrange(
        s@.len() - tail,
        s@.len() as int,
    ));
    string_of(&out)
}

// ------------------------------------------------------------------
// Review summary
// ------------------------------------------------------------------
pub open spec fn auto_accepted(p: Problem) -> bool {
    p.state.answer_source == ProblemAnswerSource::AiReviewed && p.state.review_status
        == ProblemReviewStatus::Accepted
}

pub open spec fn in_conflict(p: Problem) -> bool {
    p.state.review_status == ProblemReviewStatus::Conflict
}

/// How many problems of `ps` satisfy `f`.
pub open spec fn count_where(ps: Seq<Problem>, f: spec_fn(Problem) -> bool) -> nat
    decreases ps.len(),
{
    if ps.len() == 0 {
        0
    } else {
        count_where(ps.drop_last(), f) + if f(ps.last()) { 1nat } else { 0nat }
    }
}

pub open spec fn review_summary(ps: Seq<Problem>) -> Seq<char> {
    "自动采纳 "@ + decimal(count_where(ps, |p: Problem| auto_accepted(p))) + "，仍待确认 "@
        + decimal(count_where(ps, |p: Problem| needs_review(p.state@))) + "，冲突 "@ + decimal(
        count_where(ps, |p: Problem| in_conflict(p)),
    )
}

proof fn lemma_count_bound(ps: Seq<Problem>, f: spec_fn(Problem) -> bool)
    ensures
        count_where(ps, f) <= ps.len(),
    decreases ps.len(),
{
    if ps.len() > 0 {
        lemma_count_bound(ps.drop_last(), f);
    }
}

/// The line that reports what an AI review of `problems` left: answers
/// taken over automatically, answers still to confirm, conflicts.
pub fn ai_review_action_summary(problems: &[Problem]) -> (r: String)
    ensures
        r@ == review_summary(problems@),
{
    let ghost fa = |p: Problem| auto_accepted(p);
    let ghost fp = |p: Problem| needs_review(p.state@);
    let ghost fc = |p: Problem| in_conflict(p);
    let mut accepted: u64 = 0;
    let mut pending: u64 = 0;
    let mut conflict: u64 = 0;
    let mut i: usize = 0;
    while i < problems.len()
        invariant
            i <= problems@.len(),
            accepted == count_where(problems@.take(i as int), fa),
            pending == count_where(problems@.take(i as int), fp),
            conflict == count_where(problems@.take(i as int), fc),
            fa == (|p: Problem| auto_accepted(p)),
            fp == (|p: Problem| needs_review(p.state@)),
            fc == (|p: Problem| in_conflict(p)),
        decreases problems@.len() - i,
    {
        let p = &problems[i];
        let ghost t = problems@.take(i + 1);
        assert(t.drop_last() =~= problems@.take(i as int));
        proof {
            lemma_count_bound(problems@.take(i as int), fa);
            lemma_count_bound(problems@.take(i as int), fp);
            lemma_count_bound(problems@.take(i as int), fc);
        }
        let is_accepted = p.state.answer_source == ProblemAnswerSource::AiReviewed
            && p.state.review_status == ProblemReviewStatus::Accepted;
        let is_pending = p.needs_ai_review();
        let is_conflict = p.state.review_status == ProblemReviewStatus::Conflict;
        assert(t.last() == problems@[i as int]);
        assert(is_accepted == fa(t.last()));
        assert(is_pending == fp(t.last()));
        assert(is_conflict == fc(t.last()));
        if is_accepted {
            accepted = accepted + 1;
        }
        if is_pending {
            pending = pending + 1;
        }
        if is_conflict {
            conflict = conflict + 1;
        }
        i = i + 1;
    }
    assert(problems@.take(problems@.len() as int) =~= problems@);
    let mut out = chars_of("自动采纳 ");
    extend_chars(&mut out, &decimal_chars(accepted));
    extend_str(&mut out, "，仍待确认 ");
    extend_chars(&mut out, &decimal_chars(pending));
    extend_str(&mut out, "，冲突 ");
    extend_chars(&mut out, &decimal_chars(conflict));
    string_of(&out)
}

// ------------------------------------------------------------------
// Byte sizes
// ------------------------------------------------------------------
/// The unit a byte count is shown in: 0 for B, 1 for KB, 2 for MB, 3 for GB.
pub open spec fn size_unit(bytes: nat) -> nat {
    if bytes < 1024 {
        0
    } else if bytes < 1024 * 1024 {
        1
    } else if bytes < 1024 * 1024 * 1024 {
        2
    } else {
        3
    }
}

pub open spec fn unit_scale(k: nat) -> nat {
    if k == 0 {
        1
    } else if k == 1 {
        1024
    } else if k == 2 {
        1024 * 1024
    } else {
        1024 * 1024 * 1024
    }
}

pub open spec fn unit_name(k: nat) -> Seq<char> {
    if k == 0 {
        "B"@
    } else if k == 1 {
        "KB"@
    } else if k == 2 {
        "MB"@
    } else {
        "GB"@
    }
}

/// `bytes / scale` in tenths, rounded to nearest with ties to even, which
/// is how one decimal of the exact quotient is printed.
pub open spec fn tenths(bytes: nat, scale: nat) -> nat
    recommends
        scale > 0,
{
    let q = (bytes * 10) / scale;
    let r = (bytes * 10) % scale;
    if 2 * r > scale || (2 * r == scale && q % 2 == 1) {
        q + 1
    } else {
        q
    }
}

pub open spec fn size_text(bytes: nat) -> Seq<char> {
    let k = size_unit(bytes);
    if k == 0 {
        decimal(bytes) + " "@ + unit_name(k)
    } else {
        let t = tenths(bytes, unit_scale(k));
        decimal(t / 10) + "."@ + decimal(t % 10) + " "@ + unit_name(k)
    }
}

/// A byte count in B, KB, MB or GB (powers of 1024), with one decimal
/// above bytes.
pub fn format_bytes(bytes: u64) -> (r: String)
    ensures
        r@ == size_text(bytes as nat),
{
    let (k, scale, unit): (u64, u64, &str) = if bytes < 1024 {
        (0, 1, "B")
    } else if bytes < 1024 * 1024 {
        (1, 1024, "KB")
    } else if bytes < 1024 * 1024 * 1024 {
        (2, 1024 * 1024, "MB")
    } else {
        (3, 1024 * 1024 * 1024, "GB")
    };
    assert(k == size_unit(bytes as nat) && scale == unit_scale(k as nat) && unit@ == unit_name(k as nat));
    let mut out: Vec<char>;
    if k == 0 {
        out = decimal_chars(bytes);
    } else {
        let wide: u128 = (bytes as u128) * 10;
        let q: u128 = wide / (scale as u128);
        let rem: u128 = wide % (scale as u128);
        let t: u128 = if 2 * rem > scale as u128 || (2 * rem == scale as u128 && q % 2 == 1) {
            q + 1
        } else {
            q
        };
        assert(t == tenths(bytes as nat, scale as nat));
        assert(q <= (u64::MAX as u128) * 10);
        let whole: u64 = (t / 10) as u64;
        let frac: u64 = (t % 10) as u64;
        out = decimal_chars(whole);
        out.push('.');
        extend_chars(&mut out, &decimal_chars(frac));
    }
    out.push(' ');
    extend_str(&mut out, unit);
    proof {
        if k == 0 {
            assert(out@ =~= decimal(bytes as nat) + " "@ + unit_name(k as nat)) by {
                reveal_strlit(" ");
            }
        } else {
            assert(out@ =~= decimal(tenths(bytes as nat, scale as nat) / 10) + "."@ + decimal(
                tenths(bytes as nat, scale as nat) % 10,
            ) + " "@ + unit_name(k as nat)) by {
                reveal_strlit(" ");
                reveal_strlit(".");
            }
        }
    }
    string_of(&out)
}

// ------------------------------------------------------------------
// Platform
// ------------------------------------------------------------------
/// The name of the iOS build's platform.
pub fn platform_name() -> (r: &'static str)
    ensures
        r@ == "ios"@,
{
    "ios"
}

// ------------------------------------------------------------------
// Fonts
// ------------------------------------------------------------------
pub open spec fn font_candidate_names() -> Seq<Seq<char>> {
    seq![
        "Segoe UI"@,
        "Segoe UI Symbol"@,
        "Segoe UI Emoji"@,
        "Microsoft YaHei"@,
        "Microsoft YaHei UI"@,
        "Arial Unicode MS"@,
        "SimHei"@,
        "SimSun"@,
        "Noto Sans CJK"@,
    ]
}

/// The system fonts looked for on Windows, in the order they are tried:
/// Latin interface fonts before the CJK fallbacks.
pub fn system_font_candidates() -> (r: Vec<(&'static str, &'static str)>)
    ensures
        r@.len() == font_candidate_names().len(),
        forall|i: int| 0 <= i < r@.len() ==> #[trigger] r@[i].0@ == font_candidate_names()[i],
{
    let mut v: Vec<(&'static str, &'static str)> = Vec::new();
    v.push(("Segoe UI", "C:\\Windows\\Fonts\\segoeui.ttf"));
    v.push(("Segoe UI Symbol", "C:\\Windows\\Fonts\\seguisym.ttf"));
    v.push(("Segoe UI Emoji", "C:\\Windows\\Fonts\\seguiemj.ttf"));
    v.push(("Microsoft YaHei", "C:\\Windows\\Fonts\\msyh.ttc"));
    v.push(("Microsoft YaHei UI", "C:\\Windows\\Fonts\\msyh.ttf"));
    v.push(("Arial Unicode MS", "C:\\Windows\\Fonts\\arialuni.ttf"));
    v.push(("SimHei", "C:\\Windows\\Fonts\\simhei.ttf"));
    v.push(("SimSun", "C:\\Windows\\Fonts\\simsun.ttc"));
    v.push(("Noto Sans CJK", "C:\\Windows\\Fonts\\NotoSansCJK-Regular.ttc"));
    v
}

/// Adds a font to a family's fallback list: first when it is preferred,
/// last otherwise.
pub fn register_family_entry(entries: &mut Vec<String>, name: &str, prefer_first: bool)
    ensures
        prefer_first ==> final(entries).deep_view() == seq![name@] + old(entries).deep_view(),
        !prefer_first ==> final(entries).deep_view() == old(entries).deep_view().push(name@),
{
    let ghost before = entries.deep_view();
    let n = crate::normalize::lit_string(name);
    if prefer_first {
        entries.insert(0, n);
        assert(entries.deep_view() =~= seq![name@] + before);
    } else {
        entries.push(n);
        assert(entries.deep_view() =~= before.push(name@));
    }
}

// ------------------------------------------------------------------
// File picker results
// ------------------------------------------------------------------
/// Results of the system file picker waiting to be taken by the
/// interface, oldest first: a chosen path or an error message.
pub struct FilePickerResults {
    pub results: Vec<Result<String, String>>,
}

impl FilePickerResults {
    pub fn new() -> (r: Self)
        ensures
            r.results@.len() == 0,
    {
        FilePickerResults { results: Vec::new() }
    }

    /// Queues a result behind the others.
    pub fn push_file_picker_result(&mut self, result: Result<String, String>)
        ensures
            final(self).results@ == old(self).results@.push(result),
    {
        self.results.push(result);
    }

    /// Takes the oldest waiting result, if any.
    pub fn poll_problem_bank_file_picker_result(&mut self) -> (r: Option<Result<String, String>>)
        ensures
            old(self).results@.len() == 0 ==> r is None && final(self).results@ == old(self).results@,
            old(self).results@.len() > 0 ==> r == Some(old(self).results@[0])
                && final(self).results@ == old(self).results@.drop_first(),
    {
        if self.results.len() == 0 {
            None
        } else {
            let first = self.results.remove(0);
            assert(self.results@ =~= old(self).results@.drop_first());
            Some(first)
        }
    }
}

// ------------------------------------------------------------------
// Keyboard handling of the answer form
// ------------------------------------------------------------------
/// Modifier keys held during a frame.
#[derive(Debug, Clone, Copy, PartialEq, Eq, Structural)]
pub struct KeyModifiers {
    pub alt: bool,
    pub ctrl: bool,
    pub shift: bool,
    pub mac_cmd: bool,
    pub command: bool,
}

/// The keys of one frame that the practice view reacts to.
#[derive(Debug, Clone, Copy, PartialEq, Eq, Structural)]
pub struct PracticeKeys {
    /// A text field has the keyboard; the view then ignores the keys.
    pub text_input_focused: bool,
    pub modifiers: KeyModifiers,
    pub enter: bool,
    pub key_i: bool,
    pub key_s: bool,
    pub key_d: bool,
    pub escape: bool,
    pub space: bool,
    pub arrow_up: bool,
    pub arrow_down: bool,
    pub arrow_left: bool,
    pub arrow_right: bool,
}

/// What the keys of a frame ask the practice view to do.
#[derive(Debug, Clone, Copy, PartialEq, Eq, Structural)]
pub struct PracticeKeyboardActions {
    pub submit: bool,
    pub solution_guide: bool,
    pub skip: bool,
    pub skip_without_requeue: bool,
    pub back_to_library: bool,
}

pub open spec fn no_actions() -> PracticeKeyboardActions {
    PracticeKeyboardActions {
        submit: false,
        solution_guide: false,
        skip: false,
        skip_without_requeue: false,
        back_to_library: false,
    }
}

impl Default for PracticeKeyboardActions {
    fn default() -> (r: Self)
        ensures
            r == no_actions(),
    {
        PracticeKeyboardActions {
            submit: false,
            solution_guide: false,
            skip: false,
            skip_without_requeue: false,
            back_to_library: false,
        }
    }
}

pub open spec fn any_modifier(m: KeyModifiers) -> bool {
    m.alt || m.ctrl || m.shift || m.mac_cmd || m.command
}

pub open spec fn ctrl_only(m: KeyModifiers) -> bool {
    m.ctrl && !m.alt && !m.shift && !m.mac_cmd
}

/// In a text answer the shortcuts need Ctrl; Escape needs no modifier.
pub open spec fn text_answer_actions(k: PracticeKeys) -> PracticeKeyboardActions {
    let c = ctrl_only(k.modifiers);
    PracticeKeyboardActions {
        submit: c && k.enter,
        solution_guide: c && k.key_i,
        skip: c && k.key_s,
        skip_without_requeue: c && k.key_d,
        back_to_library: !any_modifier(k.modifiers) && k.escape,
    }
}

/// For a choice question the shortcuts are plain keys.
pub open spec fn choice_actions(k: PracticeKeys) -> PracticeKeyboardActions {
    let p = !any_modifier(k.modifiers);
    PracticeKeyboardActions {
        submit: p && k.enter,
        solution_guide: p && k.key_i,
        skip: p && k.key_s,
        skip_without_requeue: p && k.key_d,
        back_to_library: p && k.escape,
    }
}

/// The focused option and whether its focus is shown, after the arrow keys
/// of a frame, among `n` options.
pub open spec fn focus_after(k: PracticeKeys, n: nat, index: nat, visible: bool) -> (nat, bool) {
    if n == 0 {
        (index, visible)
    } else {
        let p = !any_modifier(k.modifiers);
        let i0: nat = if index >= n { (n - 1) as nat } else { index };
        let down = p && (k.arrow_down || k.arrow_right);
        let up = p && (k.arrow_up || k.arrow_left);
        let i1: nat = if down && i0 + 1 < n { i0 + 1 } else { i0 };
        let i2: nat = if up && i1 > 0 { (i1 - 1) as nat } else { i1 };
        (i2, visible || down || up)
    }
}

/// Space toggles the focused option once its focus is shown.
pub open spec fn toggles_focused(k: PracticeKeys, n: nat, index: nat, visible: bool) -> bool {
    n > 0 && !any_modifier(k.modifiers) && k.space && focus_after(k, n, index, visible).1
}

/// The keyboard handling of a practice frame.  With a text field focused
/// nothing happens.  A text answer takes Ctrl shortcuts.  For a choice
/// question the arrows move the focus among the options, Space selects the
/// focused option (or toggles it in a multiple choice) and plain keys are
/// the shortcuts.  The multiple selection is kept as a list whose elements
/// form the selected set.
pub fn handle_practice_keyboard(
    keys: &PracticeKeys,
    problem: &Problem,
    selected_single: &mut Option<String>,
    selected_multiple: &mut Vec<String>,
    focused_choice_index: &mut usize,
    keyboard_choice_focus_visible: &mut bool,
) -> (r: PracticeKeyboardActions)
    ensures
        keys.text_input_focused ==> r == no_actions() && *final(selected_single) == *old(
            selected_single) && final(selected_multiple)@ == old(selected_multiple)@
            && *final(focused_choice_index) == *old(focused_choice_index)
            && *final(keyboard_choice_focus_visible) == *old(keyboard_choice_focus_visible),
        !keys.text_input_focused && kind_of(*problem) == ProblemType::Text ==> r
            == text_answer_actions(*keys) && *final(selected_single) == *old(selected_single)
            && final(selected_multiple)@ == old(selected_multiple)@ && *final(focused_choice_index)
            == *old(focused_choice_index) && *final(keyboard_choice_focus_visible) == *old(
            keyboard_choice_focus_visible),
        !keys.text_input_focused && kind_of(*problem) != ProblemType::Text ==> {
            let opts = options_of(problem.prompt@);
            let n = opts.len();
            let f = focus_after(*keys, n, *old(focused_choice_index) as nat, *old(keyboard_choice_focus_visible));
            let toggles = toggles_focused(*keys, n, *old(focused_choice_index) as nat, *old(keyboard_choice_focus_visible));
            &&& r == choice_actions(*keys)
            &&& *final(focused_choice_index) as nat == f.0
            &&& *final(keyboard_choice_focus_visible) == f.1
            &&& (toggles && kind_of(*problem) == ProblemType::SingleChoice) ==> opt_str(*final(selected_single)) == Some(opts[f.0 as int].0)
            &&& !(toggles && kind_of(*problem) == ProblemType::SingleChoice) ==> *final(selected_single) == *old(selected_single)
            &&& (toggles && kind_of(*problem) == ProblemType::MultipleChoice) ==> final(selected_multiple).deep_view().to_set() == toggled(old(selected_multiple).deep_view().to_set(), opts[f.0 as int].0)
            &&& !(toggles && kind_of(*problem) == ProblemType::MultipleChoice) ==> final(selected_multiple)@ == old(selected_multiple)@
        },
{
    if keys.text_input_focused {
        return PracticeKeyboardActions::default();
    }
    let m = keys.modifiers;
    let plain = !(m.alt || m.ctrl || m.shift || m.mac_cmd || m.command);
    let kind = problem.kind();
    if kind == ProblemType::Text {
        let c = m.ctrl && !m.alt && !m.shift && !m.mac_cmd;
        return PracticeKeyboardActions {
            submit: c && keys.enter,
            solution_guide: c && keys.key_i,
            skip: c && keys.key_s,
            skip_without_requeue: c && keys.key_d,
            back_to_library: plain && keys.escape,
        };
    }
    let options = problem.options();
    let ghost opts = options_of(problem.prompt@);
    assert(options@.len() == opts.len()) by {
        assert(options@.map_values(|o: crate::problem::ChoiceOption| crate::problem::option_view(o)).len() == options@.len());
    }
    let n = options.len();
    if n > 0 {
        if *focused_choice_index >= n {
            *focused_choice_index = n - 1;
        }
        let down = plain && (keys.arrow_down || keys.arrow_right);
        let up = plain && (keys.arrow_up || keys.arrow_left);
        if down {
            *keyboard_choice_focus_visible = true;
            if *focused_choice_index + 1 < n {
                *focused_choice_index = *focused_choice_index + 1;
            }
        }
        if up {
            *keyboard_choice_focus_visible = true;
            if *focused_choice_index > 0 {
                *focused_choice_index = *focused_choice_index - 1;
            }
        }
        if plain && *keyboard_choice_focus_visible && keys.space {
            let idx = *focused_choice_index;
            assert(crate::problem::option_view(options@[idx as int]) == opts[idx as int]);
            let key = crate::problem::copy_string(&options[idx].key);
            if kind == ProblemType::SingleChoice {
                *selected_single = Some(key);
            } else {
                toggle_selection(selected_multiple, key);
            }
        }
    }
    PracticeKeyboardActions {
        submit: plain && keys.enter,
        solution_guide: plain && keys.key_i,
        skip: plain && keys.key_s,
        skip_without_requeue: plain && keys.key_d,
        back_to_library: plain && keys.escape,
    }
}

pub open spec fn opt_str(o: Option<String>) -> Option<Seq<char>> {
    match o {
        Some(s) => Some(s@),
        None => None,
    }
}

/// A set with `x` added when it was missing and removed when present.
pub open spec fn toggled(s: Set<Seq<char>>, x: Seq<char>) -> Set<Seq<char>> {
    if s.contains(x) {
        s.remove(x)
    } else {
        s.insert(x)
    }
}

/// Toggles `key` in the selection whose elements form a set.
pub fn toggle_selection(selected: &mut Vec<String>, key: String)
    ensures
        final(selected).deep_view().to_set() == toggled(old(selected).deep_view().to_set(), key@),
{
    let k = chars_of(key.as_str());
    proof {
        lemma_deep_chars(&k);
    }
    if crate::text::vec_contains(selected, &k) {
        let ghost before = selected.deep_view();
        let mut kept: Vec<String> = Vec::new();
        let mut i: usize = 0;
        while i < selected.len()
            invariant
                i <= selected@.len(),
                before == selected.deep_view(),
                k@ == key@,
                forall|x: Seq<char>| #[trigger] kept.deep_view().contains(x) <==> (before.take(i as int).contains(x) && x != key@),
            decreases selected@.len() - i,
        {
            let e = chars_of(selected[i].as_str());
            let ghost t = before.take(i + 1);
            assert(t =~= before.take(i as int).push(before[i as int]));
            let ghost kb = kept.deep_view();
            if !crate::text::chars_eq(&e, &k) {
                kept.push(crate::problem::copy_string(&selected[i]));
                assert(kept.deep_view() =~= kb.push(before[i as int]));
            }
            assert(e@ == before[i as int]);
            assert(before[i as int] != key@ ==> kept.deep_view() == kb.push(before[i as int]));
            assert(before[i as int] == key@ ==> kept.deep_view() == kb);
            assert forall|x: Seq<char>| #[trigger] kept.deep_view().contains(x) <==> (t.contains(x) && x != key@) by {
                let bi = before.take(i as int);
                assert(kb.contains(x) <==> (bi.contains(x) && x != key@));
                assert(t.contains(x) <==> (bi.contains(x) || x == before[i as int])) by {
                    if t.contains(x) {
                        let j = choose|j: int| 0 <= j < t.len() && t[j] == x;
                        if j < i {
                            assert(bi[j] == x);
                        }
                    }
                    if bi.contains(x) {
                        let j = choose|j: int| 0 <= j < bi.len() && bi[j] == x;
                        assert(t[j] == x);
                    }
                    if x == before[i as int] {
                        assert(t[i as int] == x);
                    }
                }
                if before[i as int] != key@ {
                    assert(kept.deep_view().contains(x) <==> (kb.contains(x) || x == before[i as int])) by {
                        if kept.deep_view().contains(x) {
                            let j = choose|j: int| 0 <= j < kept.deep_view().len() && kept.deep_view()[j] == x;
                            if j < kb.len() {
                                assert(kb[j] == x);
                            }
                        }
                        if kb.contains(x) {
                            let j = choose|j: int| 0 <= j < kb.len() && kb[j] == x;
                            assert(kept.deep_view()[j] == x);
                        }
                        if x == before[i as int] {
                            assert(kept.deep_view()[kb.len() as int] == x);
                        }
                    }
                }
            }
            i = i + 1;
        }
        assert(before.take(before.len() as int) =~= before);
        *selected = kept;
        assert(selected.deep_view().to_set() =~= before.to_set().remove(key@));
    } else {
        let ghost before = selected.deep_view();
        selected.push(key);
        assert(selected.deep_view() =~= before.push(k@));
        assert(selected.deep_view().to_set() =~= before.to_set().insert(key@)) by {
            assert forall|x: Seq<char>| #[trigger] selected.deep_view().contains(x) <==> (before.contains(x) || x == key@) by {
                if selected.deep_view().contains(x) {
                    let j = choose|j: int| 0 <= j < selected.deep_view().len() && selected.deep_view()[j] == x;
                    if j < before.len() {
                        assert(before[j] == x);
                    }
                }
                if before.contains(x) {
                    let j = choose|j: int| 0 <= j < before.len() && before[j] == x;
                    assert(selected.deep_view()[j] == x);
                }
                if x == key@ {
                    assert(selected.deep_view()[before.len() as int] == x);
                }
            }
        }
    }
}

/// Whatever keys are pressed, the focus stays on one of the options when
/// there are any.
pub proof fn law_focus_stays_on_an_option(k: PracticeKeys, n: nat, index: nat, visible: bool)
    requires
        n > 0,
    ensures
        focus_after(k, n, index, visible).0 < n,
{
}

/// Toggling the same option twice leaves the selection as it was.
pub proof fn law_toggle_twice_restores(s: Set<Seq<char>>, x: Seq<char>)
    ensures
        toggled(toggled(s, x), x) == s,
{
    if s.contains(x) {
        assert(s.remove(x).insert(x) =~= s);
    } else {
        assert(s.insert(x).remove(x) =~= s);
    }
}

/// The mark in front of an option's label: a check box for a multiple
/// choice, a radio button otherwise.
pub fn choice_row_text(label: &str, selected: bool, multiple: bool) -> (r: String)
    ensures
        r@ == (if multiple {
            if selected { "☑"@ } else { "☐"@ }
        } else {
            if selected { "◉"@ } else { "○"@ }
        }) + "  "@ + label@,
{
    let marker = if multiple {
        if selected { "☑" } else { "☐" }
    } else {
        if selected { "◉" } else { "○" }
    };
    let mut v = chars_of(marker);
    extend_str(&mut v, "  ");
    extend_str(&mut v, label);
    string_of(&v)
}

/// Keeps the focused option inside the list of `option_len` options.
pub fn clamp_focused_choice(focused_choice_index: &mut usize, option_len: usize)
    ensures
        option_len == 0 ==> *final(focused_choice_index) == 0,
        option_len > 0 && *old(focused_choice_index) >= option_len ==> *final(focused_choice_index) == option_len - 1,
        option_len > 0 && *old(focused_choice_index) < option_len ==> *final(focused_choice_index) == *old(focused_choice_index),
{
    if option_len == 0 {
        *focused_choice_index = 0;
    } else if *focused_choice_index >= option_len {
        *focused_choice_index = option_len - 1;
    }
}

// ------------------------------------------------------------------
// Virtual import sources
// ------------------------------------------------------------------
pub open spec fn path_forbidden(c: char) -> bool {
    c == '/' || c == '\\' || c == ':' || c == '*' || c == '?' || c == '"' || c == '<' || c == '>'
        || c == '|'
}

/// Whitespace and characters that paths forbid become `-`.
pub open spec fn virtual_char(c: char) -> char {
    if is_ws(c) || path_forbidden(c) {
        '-'
    } else {
        c
    }
}

/// The pieces that are not empty, in order.
pub open spec fn nonempty_parts(ps: Seq<Seq<char>>) -> Seq<Seq<char>>
    decreases ps.len(),
{
    if ps.len() == 0 {
        ps
    } else if ps.last().len() > 0 {
        nonempty_parts(ps.drop_last()).push(ps.last())
    } else {
        nonempty_parts(ps.drop_last())
    }
}

pub open spec fn virtual_source_name(s: Seq<char>) -> Seq<char> {
    let mapped = s.map_values(|c: char| virtual_char(c));
    let dash = seq!['-'];
    let compact = join(nonempty_parts(split_set(mapped, dash)), dash);
    let trimmed = crate::text::trim_set(compact, dash);
    if trimmed.len() == 0 {
        "browser"@
    } else if trimmed.len() <= 48 {
        trimmed
    } else {
        trimmed.take(48)
    }
}

fn nonempty_parts_exec(parts: &Vec<Vec<char>>) -> (r: Vec<Vec<char>>)
    ensures
        r.deep_view() == nonempty_parts(parts.deep_view()),
{
    let mut out: Vec<Vec<char>> = Vec::new();
    let mut i: usize = 0;
    while i < parts.len()
        invariant
            i <= parts@.len(),
            out.deep_view() == nonempty_parts(parts.deep_view().take(i as int)),
        decreases parts@.len() - i,
    {
        let ghost t = parts.deep_view().take(i + 1);
        assert(t.drop_last() =~= parts.deep_view().take(i as int));
        assert(t.last() == parts@[i as int]@);
        if parts[i].len() > 0 {
            let p = slice_vec(&parts[i], 0, parts[i].len());
            assert(p@ =~= parts[i as int]@);
            push_line(&mut out, p);
        }
        i = i + 1;
    }
    assert(parts.deep_view().take(parts@.len() as int) =~= parts.deep_view());
    out
}

/// A name for a virtual import source: whitespace and characters that
/// paths forbid become dashes, runs of dashes collapse, dashes at the ends
/// go, at most 48 characters stay, and an empty result is `browser`.
pub fn safe_virtual_source_name(value: &str) -> (r: String)
    ensures
        r@ == virtual_source_name(value@),
{
    let s = chars_of(value);
    let mut mapped: Vec<char> = Vec::new();
    let mut i: usize = 0;
    while i < s.len()
        invariant
            i <= s@.len(),
            mapped@ == s@.take(i as int).map_values(|c: char| virtual_char(c)),
        decreases s@.len() - i,
    {
        let c = s[i];
        let d = if is_whitespace(c) || c == '/' || c == '\\' || c == ':' || c == '*' || c == '?'
            || c == '"' || c == '<' || c == '>' || c == '|' {
            '-'
        } else {
            c
        };
        mapped.push(d);
        assert(mapped@ =~= s@.take(i + 1).map_values(|c: char| virtual_char(c)));
        i = i + 1;
    }
    assert(s@.take(s@.len() as int) =~= s@);
    let dash: Vec<char> = vec!['-'];
    assert(dash@ =~= seq!['-']);
    let parts = split_set_chars(&mapped, &dash);
    let kept = nonempty_parts_exec(&parts);
    let joined = crate::problem::join_chars(&kept, &dash);
    let trimmed = crate::text::trim_set_chars(&joined, &dash);
    if trimmed.len() == 0 {
        crate::normalize::lit_string("browser")
    } else if trimmed.len() <= 48 {
        string_of(&trimmed)
    } else {
        string_of(&slice_vec(&trimmed, 0, 48))
    }
}

pub open spec fn director_title(source: Seq<char>, deck_name: Option<Seq<char>>) -> Option<Seq<char>> {
    if source == "浏览器页面快照"@ {
        Some("AI总监审查 · 浏览器页面快照"@)
    } else if crate::text::starts_with(source, "browser-snapshot-"@) {
        let name = match deck_name {
            Some(d) => if trim(d).len() > 0 { trim(d) } else { "浏览器页面快照"@ },
            None => "浏览器页面快照"@,
        };
        Some("AI总监审查 · 浏览器页面快照 · "@ + name)
    } else {
        None
    }
}

/// The title of the AI review offered after an import from a browser
/// snapshot, named by the import's source path; other sources get none.
pub fn import_director_analysis_title(source: &str, deck_name: Option<&str>) -> (r: Option<String>)
    ensures
        opt_str(r) == director_title(source@, match deck_name { Some(d) => Some(d@), None => None }),
{
    if crate::text::str_eq(source, "浏览器页面快照") {
        return Some(crate::normalize::lit_string("AI总监审查 · 浏览器页面快照"));
    }
    let s = chars_of(source);
    if crate::text::starts_with_str(&s, "browser-snapshot-") {
        let mut name: Vec<char> = chars_of("浏览器页面快照");
        match deck_name {
            Some(d) => {
                let t = trim_chars(&chars_of(d));
                if t.len() > 0 {
                    name = t;
                }
            },
            None => {},
        }
        let mut out = chars_of("AI总监审查 · 浏览器页面快照 · ");
        extend_chars(&mut out, &name);
        return Some(string_of(&out));
    }
    None
}

/// Where an import from a browser snapshot is recorded, and the title of
/// its review.
pub struct BrowserSnapshotImportMeta {
    pub source_path: String,
    pub director_title: String,
}

/// `o` trimmed, when something is left.
pub open spec fn nonblank_trimmed(o: Option<Seq<char>>) -> Option<Seq<char>> {
    match o {
        Some(s) => if trim(s).len() > 0 { Some(trim(s)) } else { None },
        None => None,
    }
}

/// The deck name of the first problem that has one.
pub open spec fn first_deck_name(ps: Seq<Problem>) -> Option<Seq<char>>
    decreases ps.len(),
{
    if ps.len() == 0 {
        None
    } else {
        match ps[0].deck_name {
            Some(d) => Some(d@),
            None => first_deck_name(ps.drop_first()),
        }
    }
}

/// The bank a snapshot is named after: its bank name, else the first deck
/// name of its problems, else the page title, else a fixed name.
pub open spec fn snapshot_bank_name(snapshot: Seq<char>, ps: Seq<Problem>) -> Seq<char> {
    match nonblank_trimmed(crate::json::text_at(snapshot, seq!["bank"@, "name"@])) {
        Some(n) => n,
        None => match nonblank_trimmed(first_deck_name(ps)) {
            Some(n) => n,
            None => match nonblank_trimmed(crate::json::text_at(snapshot, seq!["title"@])) {
                Some(n) => n,
                None => "浏览器页面快照"@,
            },
        },
    }
}

/// What the fingerprint of a snapshot is made from: the bank name and the
/// page URL, or the whole snapshot when it has no URL.
pub open spec fn snapshot_seed(snapshot: Seq<char>, ps: Seq<Problem>) -> Seq<char> {
    let name = snapshot_bank_name(snapshot, ps);
    match nonblank_trimmed(crate::json::text_at(snapshot, seq!["url"@])) {
        Some(url) => name + "\n"@ + url,
        None => name + "\n"@ + snapshot,
    }
}

pub open spec fn snapshot_source_path(snapshot: Seq<char>, ps: Seq<Problem>) -> Seq<char> {
    "browser-snapshot-"@ + virtual_source_name(snapshot_bank_name(snapshot, ps)) + "-"@
        + crate::codec::hex_lower(
        crate::codec::sha256_digest(vstd::utf8::encode_utf8(snapshot_seed(snapshot, ps))).take(8),
    ) + ".json"@
}

fn nonblank_trimmed_exec(o: Option<String>) -> (r: Option<String>)
    ensures
        opt_str(r) == nonblank_trimmed(opt_str(o)),
{
    match o {
        Some(s) => {
            let t = trim_chars(&chars_of(s.as_str()));
            if t.len() > 0 {
                Some(string_of(&t))
            } else {
                None
            }
        },
        None => None,
    }
}

fn first_deck_name_exec(problems: &[Problem]) -> (r: Option<String>)
    ensures
        opt_str(r) == first_deck_name(problems@),
{
    let mut i: usize = 0;
    assert(problems@.skip(0) =~= problems@);
    while i < problems.len()
        invariant
            i <= problems@.len(),
            first_deck_name(problems@) == first_deck_name(problems@.skip(i as int)),
        decreases problems@.len() - i,
    {
        let ghost rest = problems@.skip(i as int);
        assert(rest[0] == problems@[i as int]);
        assert(rest.drop_first() =~= problems@.skip(i + 1));
        match &problems[i].deck_name {
            Some(d) => {
                return Some(crate::normalize::lit_string(d.as_str()));
            },
            None => {},
        }
        i = i + 1;
    }
    assert(problems@.skip(problems@.len() as int) =~= Seq::<Problem>::empty());
    None
}

/// The string a snapshot holds at the pointer tokens.
fn snapshot_string(snapshot_json: &str, tokens: Vec<&str>) -> (r: Option<String>)
    ensures
        opt_str(r) == crate::json::text_at(snapshot_json@, crate::json::token_views(tokens@)),
{
    crate::json::string_at(snapshot_json, tokens.as_slice())
}

/// The virtual source path and review title of an import from a browser
/// page snapshot.  The path carries a fingerprint of the bank name and page
/// URL, so that the same page maps to the same source and other decks to
/// other sources.
pub fn browser_snapshot_import_meta(snapshot_json: &str, problems: &[Problem]) -> (r: BrowserSnapshotImportMeta)
    ensures
        r.source_path@ == snapshot_source_path(snapshot_json@, problems@),
        r.director_title@ == "浏览器页面快照 · "@ + snapshot_bank_name(snapshot_json@, problems@),
{
    let bank_tokens = vec!["bank", "name"];
    let title_tokens = vec!["title"];
    let url_tokens = vec!["url"];
    assert(crate::json::token_views(bank_tokens@) =~= seq!["bank"@, "name"@]);
    assert(crate::json::token_views(title_tokens@) =~= seq!["title"@]);
    assert(crate::json::token_views(url_tokens@) =~= seq!["url"@]);
    let bank = nonblank_trimmed_exec(snapshot_string(snapshot_json, bank_tokens));
    let name: String = match bank {
        Some(n) => n,
        None => match nonblank_trimmed_exec(first_deck_name_exec(problems)) {
            Some(n) => n,
            None => match nonblank_trimmed_exec(snapshot_string(snapshot_json, title_tokens)) {
                Some(n) => n,
                None => crate::normalize::lit_string("浏览器页面快照"),
            },
        },
    };
    assert(name@ == snapshot_bank_name(snapshot_json@, problems@));
    let url = nonblank_trimmed_exec(snapshot_string(snapshot_json, url_tokens));
    let mut seed = chars_of(name.as_str());
    extend_str(&mut seed, "\n");
    match &url {
        Some(u) => extend_str(&mut seed, u.as_str()),
        None => extend_str(&mut seed, snapshot_json),
    }
    assert(seed@ == snapshot_seed(snapshot_json@, problems@));
    let seed_text = string_of(&seed);
    let digest = crate::codec::sha256(seed_text.as_str().as_bytes());
    let head = crate::text::slice_u8(&digest, 0, 8);
    let hash = crate::codec::hex_encode(&head);
    let safe = safe_virtual_source_name(name.as_str());
    let mut path = chars_of("browser-snapshot-");
    extend_str(&mut path, safe.as_str());
    extend_str(&mut path, "-");
    extend_str(&mut path, hash.as_str());
    extend_str(&mut path, ".json");
    let mut title = chars_of("浏览器页面快照 · ");
    extend_str(&mut title, name.as_str());
    BrowserSnapshotImportMeta { source_path: string_of(&path), director_title: string_of(&title) }
}

// ------------------------------------------------------------------
// Button and setting labels
// ------------------------------------------------------------------
/// A practice button's label, followed by its shortcut (the text answer's
/// or the choice question's) when shortcuts are shown.
pub fn shortcut_button_label(
    base: &str,
    text_problem: bool,
    show_shortcut: bool,
    text_shortcut: &str,
    choice_shortcut: &str,
) -> (r: String)
    ensures
        !show_shortcut ==> r@ == base@,
        show_shortcut ==> r@ == base@ + " "@ + if text_problem {
            text_shortcut@
        } else {
            choice_shortcut@
        },
{
    if !show_shortcut {
        return crate::normalize::lit_string(base);
    }
    let mut out = chars_of(base);
    extend_str(&mut out, " ");
    extend_str(&mut out, if text_problem { text_shortcut } else { choice_shortcut });
    string_of(&out)
}

pub open spec fn preset_labels() -> Seq<(Seq<char>, Seq<char>)> {
    seq![
        ("CodeCogs SVG（公共免费服务，不保证可用）"@, crate::markdown::CODECOGS_SVG_URL_TEMPLATE@),
        ("CodeCogs SVG 白色公式（公共免费服务，不保证可用）"@, crate::markdown::CODECOGS_DARK_SVG_URL_TEMPLATE@),
    ]
}

/// The formula rendering services offered, by label and URL template.
pub fn formula_render_presets() -> (r: Vec<(&'static str, &'static str)>)
    ensures
        r@.len() == preset_labels().len(),
        forall|i: int| 0 <= i < r@.len() ==> (#[trigger] r@[i]).0@ == preset_labels()[i].0 && r@[i].1@
            == preset_labels()[i].1,
{
    let mut v: Vec<(&'static str, &'static str)> = Vec::new();
    v.push(("CodeCogs SVG（公共免费服务，不保证可用）", crate::markdown::CODECOGS_SVG_URL_TEMPLATE));
    v.push(("CodeCogs SVG 白色公式（公共免费服务，不保证可用）", crate::markdown::CODECOGS_DARK_SVG_URL_TEMPLATE));
    v
}

pub open spec fn preset_label_of(url: Seq<char>) -> Seq<char> {
    if url == preset_labels()[0].1 {
        preset_labels()[0].0
    } else if url == preset_labels()[1].1 {
        preset_labels()[1].0
    } else {
        "自定义服务"@
    }
}

/// The label of the preset service with this URL template, or 自定义服务.
pub fn formula_render_preset_label(url_template: &str) -> (r: &'static str)
    ensures
        r@ == preset_label_of(url_template@),
{
    if crate::text::str_eq(url_template, crate::markdown::CODECOGS_SVG_URL_TEMPLATE) {
        "CodeCogs SVG（公共免费服务，不保证可用）"
    } else if crate::text::str_eq(url_template, crate::markdown::CODECOGS_DARK_SVG_URL_TEMPLATE) {
        "CodeCogs SVG 白色公式（公共免费服务，不保证可用）"
    } else {
        "自定义服务"
    }
}

/// Whether the URL template is one of the preset services.
pub fn is_formula_render_preset(url_template: &str) -> (r: bool)
    ensures
        r == (url_template@ == preset_labels()[0].1 || url_template@ == preset_labels()[1].1),
{
    crate::text::str_eq(url_template, crate::markdown::CODECOGS_SVG_URL_TEMPLATE) || crate::text::str_eq(
        url_template,
        crate::markdown::CODECOGS_DARK_SVG_URL_TEMPLATE,
    )
}

/// A label shortened to what comes before its full-width parenthesis
/// (the whole label when that is empty).
pub open spec fn short_label(label: Seq<char>) -> Seq<char> {
    let head = split_set(label, seq!['（'])[0];
    if head.len() > 0 {
        head
    } else {
        label
    }
}

pub fn formula_render_short_label(label: &str) -> (r: String)
    ensures
        r@ == short_label(label@),
{
    let s = chars_of(label);
    let paren: Vec<char> = vec!['（'];
    assert(paren@ =~= seq!['（']);
    let parts = split_set_chars(&s, &paren);
    assert(parts.deep_view()[0] == parts@[0]@);
    if parts[0].len() > 0 {
        string_of(&parts[0])
    } else {
        string_of(&s)
    }
}

// ------------------------------------------------------------------
// The answer being given, and what an import or a deck affects
// ------------------------------------------------------------------
/// The answer the practice form holds for the problem: the chosen option,
/// the chosen options (as a choice answer, so their order does not
/// matter), or the typed text.
pub open spec fn form_answer(kind: ProblemType, single: Option<Seq<char>>, multiple: Seq<Seq<char>>, typed: Seq<char>) -> Seq<char> {
    match kind {
        ProblemType::SingleChoice => match single {
            Some(k) => k,
            None => Seq::empty(),
        },
        ProblemType::MultipleChoice => crate::problem::choice_key(join(multiple, ","@)),
        ProblemType::Text => typed,
    }
}

pub fn current_user_answer(
    problem: &Problem,
    selected_single: &Option<String>,
    selected_multiple: &Vec<String>,
    answer_input: &str,
) -> (r: String)
    ensures
        r@ == form_answer(kind_of(*problem), opt_str(*selected_single), selected_multiple.deep_view(), answer_input@),
{
    match problem.kind() {
        ProblemType::SingleChoice => match selected_single {
            Some(k) => crate::normalize::lit_string(k.as_str()),
            None => String::new(),
        },
        ProblemType::MultipleChoice => {
            let joined = crate::self_update::join_strings(selected_multiple, ",");
            let text = string_of(&joined);
            crate::problem::normalize_choice_answer(text.as_str())
        },
        ProblemType::Text => crate::normalize::lit_string(answer_input),
    }
}

proof fn lemma_letter_concat(a: Seq<char>, b: Seq<char>, k: int)
    ensures
        crate::problem::has_choice_letter(a + b, k) == (crate::problem::has_choice_letter(a, k)
            || crate::problem::has_choice_letter(b, k)),
{
    let ab = a + b;
    if crate::problem::has_choice_letter(ab, k) {
        let j = choose|j: int|
            0 <= j < ab.len() && crate::text::is_ascii_alpha(ab[j]) && crate::text::ascii_upper(ab[j])
                == crate::problem::letter(k);
        if j < a.len() {
            assert(a[j] == ab[j]);
        } else {
            assert(b[j - a.len()] == ab[j]);
        }
    }
    if crate::problem::has_choice_letter(a, k) {
        let j = choose|j: int|
            0 <= j < a.len() && crate::text::is_ascii_alpha(a[j]) && crate::text::ascii_upper(a[j])
                == crate::problem::letter(k);
        assert(ab[j] == a[j]);
    }
    if crate::problem::has_choice_letter(b, k) {
        let j = choose|j: int|
            0 <= j < b.len() && crate::text::is_ascii_alpha(b[j]) && crate::text::ascii_upper(b[j])
                == crate::problem::letter(k);
        assert(ab[a.len() + j] == b[j]);
    }
}

proof fn lemma_joined_letters(ps: Seq<Seq<char>>, k: int)
    ensures
        crate::problem::has_choice_letter(join(ps, ","@), k) == (exists|i: int|
            0 <= i < ps.len() && crate::problem::has_choice_letter(#[trigger] ps[i], k)),
    decreases ps.len(),
{
    reveal_strlit(",");
    if ps.len() == 0 {
    } else if ps.len() == 1 {
        if crate::problem::has_choice_letter(ps[0], k) {
            assert(crate::problem::has_choice_letter(ps[0], k));
        }
    } else {
        let init = ps.drop_last();
        lemma_joined_letters(init, k);
        lemma_letter_concat(join(init, ","@) + ","@, ps.last(), k);
        lemma_letter_concat(join(init, ","@), ","@, k);
        assert(!crate::problem::has_choice_letter(","@, k)) by {
            if crate::problem::has_choice_letter(","@, k) {
                let j = choose|j: int|
                    0 <= j < ","@.len() && crate::text::is_ascii_alpha(","@[j])
                        && crate::text::ascii_upper(","@[j]) == crate::problem::letter(k);
                assert(","@[j] == ',');
            }
        }
        if exists|i: int| 0 <= i < ps.len() && crate::problem::has_choice_letter(#[trigger] ps[i], k) {
            let i = choose|i: int| 0 <= i < ps.len() && crate::problem::has_choice_letter(#[trigger] ps[i], k);
            if i < init.len() {
                assert(init[i] == ps[i]);
            }
        }
        if exists|i: int| 0 <= i < init.len() && crate::problem::has_choice_letter(#[trigger] init[i], k) {
            let i = choose|i: int| 0 <= i < init.len() && crate::problem::has_choice_letter(#[trigger] init[i], k);
            assert(ps[i] == init[i]);
        }
    }
}

/// The answer made of the chosen options does not depend on the order in
/// which they were chosen, nor on repeats: only the set of options counts.
pub proof fn law_chosen_options_order_free(
    single: Option<Seq<char>>,
    a: Seq<Seq<char>>,
    b: Seq<Seq<char>>,
    typed: Seq<char>,
)
    requires
        a.to_set() == b.to_set(),
    ensures
        form_answer(ProblemType::MultipleChoice, single, a, typed) == form_answer(
            ProblemType::MultipleChoice,
            single,
            b,
            typed,
        ),
{
    let ja = join(a, ","@);
    let jb = join(b, ","@);
    assert forall|k: int| 0 <= k < 26 implies crate::problem::has_choice_letter(ja, k)
        == crate::problem::has_choice_letter(jb, k) by {
        lemma_joined_letters(a, k);
        lemma_joined_letters(b, k);
        if exists|i: int| 0 <= i < a.len() && crate::problem::has_choice_letter(#[trigger] a[i], k) {
            let i = choose|i: int| 0 <= i < a.len() && crate::problem::has_choice_letter(#[trigger] a[i], k);
            assert(a.to_set().contains(a[i]));
            assert(b.to_set().contains(a[i]));
            let j = choose|j: int| 0 <= j < b.len() && b[j] == a[i];
            assert(crate::problem::has_choice_letter(b[j], k));
        }
        if exists|i: int| 0 <= i < b.len() && crate::problem::has_choice_letter(#[trigger] b[i], k) {
            let i = choose|i: int| 0 <= i < b.len() && crate::problem::has_choice_letter(#[trigger] b[i], k);
            assert(b.to_set().contains(b[i]));
            assert(a.to_set().contains(b[i]));
            let j = choose|j: int| 0 <= j < a.len() && a[j] == b[i];
            assert(crate::problem::has_choice_letter(a[j], k));
        }
    }
    crate::problem::law_choice_answer_order_free(ja, ja, jb);
}

/// The analyses an import makes stale: the deck's analysis when the deck
/// has a name, and the review of a browser snapshot.
pub open spec fn titles_for_import(source: Seq<char>, deck_name: Option<Seq<char>>) -> Seq<Seq<char>> {
    let deck = match deck_name {
        Some(d) => if trim(d).len() > 0 { seq!["题库："@ + trim(d)] } else { Seq::empty() },
        None => Seq::empty(),
    };
    let review = match director_title(source, deck_name) {
        Some(t) => seq![t],
        None => Seq::empty(),
    };
    deck + review
}

pub fn analysis_titles_affected_by_import(source: &str, deck_name: Option<&str>) -> (r: Vec<String>)
    ensures
        r.deep_view() == titles_for_import(source@, opt_seq_str(deck_name)),
{
    let mut titles: Vec<String> = Vec::new();
    match deck_name {
        Some(d) => {
            let t = trim_chars(&chars_of(d));
            if t.len() > 0 {
                let mut title = chars_of("题库：");
                extend_chars(&mut title, &t);
                titles.push(string_of(&title));
            }
        },
        None => {},
    }
    let ghost first = titles.deep_view();
    match import_director_analysis_title(source, deck_name) {
        Some(t) => titles.push(t),
        None => {},
    }
    assert(titles.deep_view() =~= titles_for_import(source@, opt_seq_str(deck_name)));
    titles
}

pub open spec fn opt_seq_str(o: Option<&str>) -> Option<Seq<char>> {
    match o {
        Some(s) => Some(s@),
        None => None,
    }
}

/// The analyses a change to a deck makes stale: the deck's own, the review
/// of the snapshot it was imported from, and those of the groups holding
/// it.
pub open spec fn titles_for_deck(
    deck_name: Seq<char>,
    card: Option<(Seq<char>, Seq<char>)>,
    groups: Seq<Seq<char>>,
) -> Seq<Seq<char>> {
    let review = match card {
        Some((source, name)) => match director_title(source, Some(name)) {
            Some(t) => seq![t],
            None => Seq::empty(),
        },
        None => Seq::empty(),
    };
    seq!["题库："@ + deck_name] + review + groups.map_values(|g: Seq<char>| "题组："@ + g)
}

/// `card` is the deck's source path and name, when the deck is listed;
/// `group_names` are the groups that hold the deck.
pub fn analysis_titles_affected_by_deck(
    deck_name: &str,
    card: Option<(&str, &str)>,
    group_names: &Vec<String>,
) -> (r: Vec<String>)
    ensures
        r.deep_view() == titles_for_deck(
            deck_name@,
            match card {
                Some((a, b)) => Some((a@, b@)),
                None => None,
            },
            group_names.deep_view(),
        ),
{
    let mut titles: Vec<String> = Vec::new();
    let mut first = chars_of("题库：");
    extend_str(&mut first, deck_name);
    titles.push(string_of(&first));
    match card {
        Some((source, name)) => match import_director_analysis_title(source, Some(name)) {
            Some(t) => titles.push(t),
            None => {},
        },
        None => {},
    }
    let ghost head = titles.deep_view();
    let mut i: usize = 0;
    while i < group_names.len()
        invariant
            i <= group_names@.len(),
            titles.deep_view() == head + group_names.deep_view().take(i as int).map_values(
                |g: Seq<char>| "题组："@ + g,
            ),
        decreases group_names@.len() - i,
    {
        let mut t = chars_of("题组：");
        extend_str(&mut t, group_names[i].as_str());
        let ghost before = titles.deep_view();
        titles.push(string_of(&t));
        assert(titles.deep_view() =~= before.push("题组："@ + group_names.deep_view()[i as int]));
        assert(group_names.deep_view().take(i + 1).map_values(|g: Seq<char>| "题组："@ + g)
            =~= group_names.deep_view().take(i as int).map_values(|g: Seq<char>| "题组："@ + g).push(
            "题组："@ + group_names.deep_view()[i as int],
        ));
        i = i + 1;
    }
    assert(group_names.deep_view().take(group_names@.len() as int) =~= group_names.deep_view());
    titles
}

// ------------------------------------------------------------------
// Dragging decks, theme
// ------------------------------------------------------------------
/// The decks dragged when `deck_id` is picked up: all selected decks when
/// it is one of them, else that deck alone.
pub fn deck_drag_ids(selected: &Vec<i64>, deck_id: i64) -> (r: Vec<i64>)
    ensures
        selected@.contains(deck_id) ==> r@ == selected@,
        !selected@.contains(deck_id) ==> r@ == seq![deck_id],
{
    let mut i: usize = 0;
    while i < selected.len()
        invariant
            i <= selected@.len(),
            forall|j: int| 0 <= j < i ==> selected@[j] != deck_id,
        decreases selected@.len() - i,
    {
        if selected[i] == deck_id {
            assert(selected@[i as int] == deck_id);
            let mut all: Vec<i64> = Vec::new();
            let mut k: usize = 0;
            while k < selected.len()
                invariant
                    k <= selected@.len(),
                    all@ == selected@.take(k as int),
                decreases selected@.len() - k,
            {
                all.push(selected[k]);
                assert(all@ =~= selected@.take(k + 1));
                k = k + 1;
            }
            assert(selected@.take(selected@.len() as int) =~= selected@);
            return all;
        }
        i = i + 1;
    }
    let mut one: Vec<i64> = Vec::new();
    one.push(deck_id);
    assert(one@ =~= seq![deck_id]);
    one
}

fn contains_id(ids: &Vec<i64>, id: i64) -> (r: bool)
    ensures
        r == ids@.contains(id),
{
    let mut i: usize = 0;
    while i < ids.len()
        invariant
            i <= ids@.len(),
            forall|j: int| 0 <= j < i ==> ids@[j] != id,
        decreases ids@.len() - i,
    {
        if ids[i] == id {
            assert(ids@[i as int] == id);
            return true;
        }
        i = i + 1;
    }
    false
}

/// Whether `deck_id` moves with the deck being dragged: it is that deck,
/// or both are selected.
pub fn is_deck_dragging(selected: &Vec<i64>, dragging: Option<i64>, deck_id: i64) -> (r: bool)
    ensures
        r == match dragging {
            Some(d) => d == deck_id || (selected@.contains(d) && selected@.contains(deck_id)),
            None => false,
        },
{
    match dragging {
        Some(d) => d == deck_id || (contains_id(selected, d) && contains_id(selected, deck_id)),
        None => false,
    }
}

/// The colour themes of the interface.
#[derive(Debug, Clone, Copy, PartialEq, Eq, Structural)]
pub enum AppTheme {
    Dark,
    Light,
}

/// The theme button shows the theme it switches to.
pub fn theme_button_icon(theme: AppTheme) -> (r: &'static str)
    ensures
        r@ == match theme {
            AppTheme::Dark => "☀"@,
            AppTheme::Light => "🌙"@,
        },
{
    match theme {
        AppTheme::Dark => "☀",
        AppTheme::Light => "🌙",
    }
}

pub fn theme_button_tooltip(theme: AppTheme) -> (r: &'static str)
    ensures
        r@ == match theme {
            AppTheme::Dark => "切换到浅色主题"@,
            AppTheme::Light => "切换到深色主题"@,
        },
{
    match theme {
        AppTheme::Dark => "切换到浅色主题",
        AppTheme::Light => "切换到深色主题",
    }
}

} // verus!
