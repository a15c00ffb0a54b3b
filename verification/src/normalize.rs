//! Normalisation of imported problems: score lines and labelled answers in
//! the answer field, true/false answers, inferred types, review state
//! reconstructed from legacy tags, and score-based review decisions.
use vstd::prelude::*;
use crate::problem::{
    choice_key, choice_key_chars, clean_tags, cleaned_tags, copy_string, default_state,
    inferred_type, infer_problem_type, is_false_word, is_false_word_exec, is_judgement_options,
    is_true_word, is_true_word_exec, judgement_options, option_view, options_of, options_of_prompt,
    law_cleaned_tags_distinct_and_kept, lemma_without_system_tags, prune_system_tags, system_tag,
    without_system_tags, ChoiceOption, Problem, ProblemAnswerSource,
    ProblemReviewConfidence, ProblemReviewStatus, ProblemReviewVerdict, ProblemState,
    ProblemType, StateView,
};
use crate::text::{
    chars_of, contains_seq, contains_str, ends_with, ends_with_str, eq_lit, find_from, is_blank,
    is_blank_str, is_ascii_digit, is_ascii_digit_spec, join, lemma_deep_chars, lines, occurs_at,
    slice_vec, split_lines, starts_with, starts_with_str, string_of, trim, trim_chars,
    trim_end_set, trim_end_set_chars, trim_set, trim_set_chars, trim_start_set,
    trim_start_set_chars, vec_contains, ascii_lower, to_ascii_lowercase,
};

verus! {

// ------------------------------------------------------------------
// Plain view of the fields that normalisation reads and writes
// ------------------------------------------------------------------
pub struct PView {
    pub prompt: Seq<char>,
    pub answer: Seq<char>,
    pub explanation: Seq<char>,
    pub tags: Seq<Seq<char>>,
    pub problem_type: Option<ProblemType>,
    pub state: StateView,
}

pub open spec fn pview(p: Problem) -> PView {
    PView {
        prompt: p.prompt@,
        answer: p.answer@,
        explanation: p.explanation@,
        tags: p.tags.deep_view(),
        problem_type: p.problem_type,
        state: p.state@,
    }
}

/// The fields that normalisation leaves alone are unchanged.
pub open spec fn same_identity(a: Problem, b: Problem) -> bool {
    a.id == b.id && a.deck_name == b.deck_name && a.deck_info == b.deck_info && a.images
        == b.images && a.prompt == b.prompt && a.explanation == b.explanation
}

// ------------------------------------------------------------------
// Score lines
// ------------------------------------------------------------------
pub open spec fn dot_count(s: Seq<char>) -> int
    decreases s.len(),
{
    if s.len() == 0 {
        0
    } else {
        dot_count(s.drop_last()) + if s.last() == '.' {
            1int
        } else {
            0int
        }
    }
}

/// Digits with at most one decimal point.
pub open spec fn decimal_text(n: Seq<char>) -> bool {
    (forall|i: int| 0 <= i < n.len() ==> is_ascii_digit_spec(n[i]) || n[i] == '.') && dot_count(n)
        <= 1
}

/// The score written on a line such as `"**2.6 分**"`: the number before
/// `分`, when it is a non-empty decimal.
pub open spec fn score_of_line(v: Seq<char>) -> Option<Seq<char>> {
    let t = trim_set(trim(v), seq!['*', ' ']);
    if ends_with(t, "分"@) {
        let n = trim(t.drop_last());
        if n.len() > 0 && decimal_text(n) {
            Some(n)
        } else {
            None
        }
    } else {
        None
    }
}

pub fn is_decimal_text(n: &[char]) -> (r: bool)
    ensures
        r == decimal_text(n@),
{
    let mut dots: usize = 0;
    let mut i: usize = 0;
    while i < n.len()
        invariant
            i <= n@.len(),
            dots == dot_count(n@.take(i as int)),
            dots <= 1,
            forall|j: int| 0 <= j < i ==> is_ascii_digit_spec(n@[j]) || n@[j] == '.',
        decreases n@.len() - i,
    {
        let c = n[i];
        let ghost t1 = n@.take(i + 1);
        assert(t1.drop_last() =~= n@.take(i as int));
        if c == '.' {
            if dots == 1 {
                proof {
                    lemma_dot_count_prefix(n@, i + 1);
                }
                return false;
            }
            dots = dots + 1;
        } else if !is_ascii_digit(c) {
            return false;
        }
        i = i + 1;
    }
    assert(n@.take(n@.len() as int) =~= n@);
    true
}

proof fn lemma_dot_count_prefix(s: Seq<char>, k: int)
    requires
        0 <= k <= s.len(),
    ensures
        dot_count(s) >= dot_count(s.take(k)),
    decreases s.len() - k,
{
    if k < s.len() {
        assert(s.drop_last().take(k) =~= s.take(k));
        lemma_dot_count_prefix(s.drop_last(), k);
    } else {
        assert(s.take(k) =~= s);
    }
}

pub fn parse_score_line(v: &[char]) -> (r: Option<Vec<char>>)
    ensures
        match r {
            Some(n) => score_of_line(v@) == Some(n@),
            None => score_of_line(v@) is None,
        },
{
    let mut set: Vec<char> = Vec::new();
    set.push('*');
    set.push(' ');
    assert(set@ =~= seq!['*', ' ']);
    let a = trim_chars(v);
    let t = trim_set_chars(&a, &set);
    if !ends_with_str(&t, "分") {
        return None;
    }
    proof {
        reveal_strlit("分");
    }
    let body = slice_vec(&t, 0, t.len() - 1);
    assert(body@ =~= t@.drop_last());
    let n = trim_chars(&body);
    if n.len() > 0 && is_decimal_text(&n) {
        Some(n)
    } else {
        None
    }
}

/// The answer without a final score line, and that score.
pub open spec fn split_score(value: Seq<char>) -> (Seq<char>, Option<Seq<char>>) {
    let ls = lines(value);
    if ls.len() == 0 {
        (value, None)
    } else {
        match score_of_line(trim(ls.last())) {
            Some(score) => (trim(join(ls.drop_last(), seq!['\n'])), Some(score)),
            None => (value, None),
        }
    }
}

pub fn strip_trailing_score_line(value: &[char]) -> (r: (Vec<char>, Option<Vec<char>>))
    ensures
        r.0@ == split_score(value@).0,
        match r.1 {
            Some(s) => split_score(value@).1 == Some(s@),
            None => split_score(value@).1 is None,
        },
{
    let mut ls = split_lines(value);
    if ls.len() == 0 {
        return (slice_vec(value, 0, value.len()), None);
    }
    let ghost lsv = ls.deep_view();
    let n = ls.len();
    proof {
        lemma_deep_chars(&ls@[n - 1]);
    }
    let last = trim_chars(&ls[n - 1]);
    match parse_score_line(&last) {
        Some(score) => {
            let ghost before = ls@;
            ls.pop();
            assert(ls.deep_view() =~= lsv.drop_last());
            let mut nl: Vec<char> = Vec::new();
            nl.push('\n');
            assert(nl@ =~= seq!['\n']);
            let joined = crate::problem::join_chars(&ls, &nl);
            (trim_chars(&joined), Some(score))
        },
        None => {
            let copy = slice_vec(value, 0, value.len());
            assert(copy@ =~= value@);
            (copy, None)
        },
    }
}

// ------------------------------------------------------------------
// Labelled answers ("正确答案：A", "我的答案：B")
// ------------------------------------------------------------------
/// `s` without any `c`.
pub open spec fn remove_char(s: Seq<char>, c: char) -> Seq<char>
    decreases s.len(),
{
    if s.len() == 0 {
        Seq::empty()
    } else {
        let prev = remove_char(s.drop_last(), c);
        if s.last() == c {
            prev
        } else {
            prev.push(s.last())
        }
    }
}

pub fn remove_char_exec(s: &[char], c: char) -> (r: Vec<char>)
    ensures
        r@ == remove_char(s@, c),
{
    let mut out: Vec<char> = Vec::new();
    let mut i: usize = 0;
    while i < s.len()
        invariant
            i <= s@.len(),
            out@ == remove_char(s@.take(i as int), c),
        decreases s@.len() - i,
    {
        let ghost t1 = s@.take(i + 1);
        assert(t1.drop_last() =~= s@.take(i as int));
        if s[i] != c {
            out.push(s[i]);
        }
        i = i + 1;
    }
    assert(s@.take(s@.len() as int) =~= s@);
    out
}

/// Smallest position at or after `start` where `p` occurs.
pub open spec fn first_occ_from(s: Seq<char>, p: Seq<char>, start: int) -> Option<int>
    decreases s.len() + 1 - start,
{
    if start < 0 || start > s.len() {
        None
    } else if occurs_at(s, p, start) {
        Some(start)
    } else {
        first_occ_from(s, p, start + 1)
    }
}

pub proof fn lemma_first_occ_props(s: Seq<char>, p: Seq<char>, start: int)
    ensures
        match first_occ_from(s, p, start) {
            Some(j) => start <= j && occurs_at(s, p, j),
            None => true,
        },
    decreases s.len() + 1 - start,
{
    if start >= 0 && start <= s.len() && !occurs_at(s, p, start) {
        lemma_first_occ_props(s, p, start + 1);
    }
}

proof fn lemma_first_occ_found(s: Seq<char>, p: Seq<char>, start: int, i: int)
    requires
        0 <= start <= i,
        occurs_at(s, p, i),
        forall|j: int| start <= j < i ==> !occurs_at(s, p, j),
    ensures
        first_occ_from(s, p, start) == Some(i),
    decreases i - start,
{
    if start < i {
        lemma_first_occ_found(s, p, start + 1, i);
    }
}

proof fn lemma_first_occ_none(s: Seq<char>, p: Seq<char>, start: int)
    requires
        0 <= start,
        forall|j: int| start <= j ==> !occurs_at(s, p, j),
    ensures
        first_occ_from(s, p, start) is None,
    decreases s.len() + 1 - start,
{
    if start <= s.len() {
        lemma_first_occ_none(s, p, start + 1);
    }
}

/// `find_from` with its result stated through `first_occ_from`.
pub fn find_first(s: &[char], p: &[char], start: usize) -> (r: Option<usize>)
    ensures
        match r {
            Some(i) => first_occ_from(s@, p@, start as int) == Some(i as int) && start <= i
                && occurs_at(s@, p@, i as int),
            None => first_occ_from(s@, p@, start as int) is None,
        },
{
    let r = find_from(s, p, start);
    proof {
        match r {
            Some(i) => lemma_first_occ_found(s@, p@, start as int, i as int),
            None => lemma_first_occ_none(s@, p@, start as int),
        }
    }
    r
}

/// Every label that ends a labelled section.
pub open spec fn all_labels() -> Seq<Seq<char>> {
    seq![
        "正确答案"@,
        "参考答案"@,
        "标准答案"@,
        "我的答案"@,
        "你的答案"@,
        "作答答案"@,
        "答案解析"@,
        "解析"@,
        "知识点"@,
        "考点"@,
        "标签"@,
        "得分"@,
    ]
}

pub open spec fn correct_labels() -> Seq<Seq<char>> {
    seq!["正确答案"@, "参考答案"@, "标准答案"@]
}

pub open spec fn user_labels() -> Seq<Seq<char>> {
    seq!["我的答案"@, "你的答案"@, "作答答案"@]
}

/// Where the next labelled section starts in `s` (its length if none).
pub open spec fn section_end(s: Seq<char>, labels: Seq<Seq<char>>) -> int
    decreases labels.len(),
{
    if labels.len() == 0 {
        s.len() as int
    } else {
        let m = section_end(s, labels.drop_last());
        match first_occ_from(s, labels.last(), 0) {
            Some(j) => if j < m {
                j
            } else {
                m
            },
            None => m,
        }
    }
}

/// The value of a labelled answer: trimmed, `*` and trailing `;` removed;
/// none when empty, the choice key when it has letters, else the text.
pub open spec fn clean_answer_value(value: Seq<char>) -> Option<Seq<char>> {
    let v = trim(trim_end_set(trim_set(trim(value), seq!['*']), seq![';', '；']));
    if v.len() == 0 {
        None
    } else if choice_key(v).len() > 0 {
        Some(choice_key(v))
    } else {
        Some(v)
    }
}

pub open spec fn label_gap_chars() -> Seq<char> {
    seq![' ', '\t', ':', '：']
}

/// The value after the label occurrence at `i`.
pub open spec fn label_value(text: Seq<char>, label: Seq<char>, i: int) -> Option<Seq<char>> {
    let after = trim_start_set(text.skip(i + label.len()), label_gap_chars());
    clean_answer_value(after.take(section_end(after, all_labels())))
}

/// The first occurrence (from `start`) of `label` with a non-empty value.
pub open spec fn scan_label(text: Seq<char>, label: Seq<char>, start: int) -> Option<(int, Seq<char>)>
    decreases text.len() + 1 - start,
{
    if label.len() == 0 || start < 0 {
        None
    } else {
        proof {
            lemma_first_occ_props(text, label, start);
        }
        match first_occ_from(text, label, start) {
            None => None,
            Some(j) => match label_value(text, label, j) {
                Some(v) => Some((j, v)),
                None => if j + label.len() > start {
                    scan_label(text, label, j + label.len())
                } else {
                    None
                },
            },
        }
    }
}

/// Over `labels`, the labelled value found earliest in `text`; on a tie
/// the label listed first wins.
pub open spec fn best_labeled(text: Seq<char>, labels: Seq<Seq<char>>) -> Option<(int, Seq<char>)>
    decreases labels.len(),
{
    if labels.len() == 0 {
        None
    } else {
        let prev = best_labeled(text, labels.drop_last());
        match scan_label(text, labels.last(), 0) {
            None => prev,
            Some(found) => match prev {
                Some(best) => if best.0 <= found.0 {
                    prev
                } else {
                    Some(found)
                },
                None => Some(found),
            },
        }
    }
}

pub open spec fn labeled_answer(text: Seq<char>, labels: Seq<Seq<char>>) -> Option<Seq<char>> {
    match best_labeled(remove_char(text, '*'), labels) {
        Some(found) => Some(found.1),
        None => None,
    }
}

pub fn clean_labeled_answer_value(value: &[char]) -> (r: Option<Vec<char>>)
    ensures
        match r {
            Some(v) => clean_answer_value(value@) == Some(v@),
            None => clean_answer_value(value@) is None,
        },
{
    let mut star: Vec<char> = Vec::new();
    star.push('*');
    let mut semi: Vec<char> = Vec::new();
    semi.push(';');
    semi.push('；');
    assert(star@ =~= seq!['*']);
    assert(semi@ =~= seq![';', '；']);
    let a = trim_chars(value);
    let b = trim_set_chars(&a, &star);
    let c = trim_end_set_chars(&b, &semi);
    let v = trim_chars(&c);
    if v.len() == 0 {
        return None;
    }
    let key = choice_key_chars(&v);
    if key.len() > 0 {
        Some(key)
    } else {
        Some(v)
    }
}

fn label_list(which: u8) -> (r: Vec<Vec<char>>)
    ensures
        which == 0 ==> r.deep_view() == all_labels(),
        which == 1 ==> r.deep_view() == correct_labels(),
        which != 0 && which != 1 ==> r.deep_view() == user_labels(),
        forall|i: int| 0 <= i < r@.len() ==> r.deep_view()[i].len() > 0,
{
    let mut r: Vec<Vec<char>> = Vec::new();
    if which == 0 {
        crate::text::push_line(&mut r, chars_of("正确答案"));
        crate::text::push_line(&mut r, chars_of("参考答案"));
        crate::text::push_line(&mut r, chars_of("标准答案"));
        crate::text::push_line(&mut r, chars_of("我的答案"));
        crate::text::push_line(&mut r, chars_of("你的答案"));
        crate::text::push_line(&mut r, chars_of("作答答案"));
        crate::text::push_line(&mut r, chars_of("答案解析"));
        crate::text::push_line(&mut r, chars_of("解析"));
        crate::text::push_line(&mut r, chars_of("知识点"));
        crate::text::push_line(&mut r, chars_of("考点"));
        crate::text::push_line(&mut r, chars_of("标签"));
        crate::text::push_line(&mut r, chars_of("得分"));
        proof {
            reveal_strlit("正确答案");
            reveal_strlit("参考答案");
            reveal_strlit("标准答案");
            reveal_strlit("我的答案");
            reveal_strlit("你的答案");
            reveal_strlit("作答答案");
            reveal_strlit("答案解析");
            reveal_strlit("解析");
            reveal_strlit("知识点");
            reveal_strlit("考点");
            reveal_strlit("标签");
            reveal_strlit("得分");
        }
        assert(r.deep_view() =~= all_labels());
    } else if which == 1 {
        crate::text::push_line(&mut r, chars_of("正确答案"));
        crate::text::push_line(&mut r, chars_of("参考答案"));
        crate::text::push_line(&mut r, chars_of("标准答案"));
        proof {
            reveal_strlit("正确答案");
            reveal_strlit("参考答案");
            reveal_strlit("标准答案");
        }
        assert(r.deep_view() =~= correct_labels());
    } else {
        crate::text::push_line(&mut r, chars_of("我的答案"));
        crate::text::push_line(&mut r, chars_of("你的答案"));
        crate::text::push_line(&mut r, chars_of("作答答案"));
        proof {
            reveal_strlit("我的答案");
            reveal_strlit("你的答案");
            reveal_strlit("作答答案");
        }
        assert(r.deep_view() =~= user_labels());
    }
    r
}

pub fn next_section_index(s: &[char], labels: &Vec<Vec<char>>) -> (r: usize)
    ensures
        r == section_end(s@, labels.deep_view()),
        r <= s@.len(),
{
    let mut m: usize = s.len();
    let mut k: usize = 0;
    assert(labels.deep_view().take(0) =~= Seq::<Seq<char>>::empty());
    while k < labels.len()
        invariant
            k <= labels@.len(),
            m == section_end(s@, labels.deep_view().take(k as int)),
            m <= s@.len(),
        decreases labels@.len() - k,
    {
        proof {
            lemma_deep_chars(&labels@[k as int]);
        }
        let ghost t1 = labels.deep_view().take(k + 1);
        assert(t1.drop_last() =~= labels.deep_view().take(k as int));
        match find_first(s, &labels[k], 0) {
            Some(j) => {
                if j < m {
                    m = j;
                }
            },
            None => {},
        }
        k = k + 1;
    }
    assert(labels.deep_view().take(labels@.len() as int) =~= labels.deep_view());
    m
}

pub fn label_value_at(text: &[char], label: &[char], i: usize, all: &Vec<Vec<char>>) -> (r: Option<Vec<char>>)
    requires
        all.deep_view() == all_labels(),
        occurs_at(text@, label@, i as int),
    ensures
        match r {
            Some(v) => label_value(text@, label@, i as int) == Some(v@),
            None => label_value(text@, label@, i as int) is None,
        },
{
    let n = text.len();
    let rest = slice_vec(text, i + label.len(), n);
    assert(rest@ =~= text@.skip(i + label@.len()));
    let mut gap: Vec<char> = Vec::new();
    gap.push(' ');
    gap.push('\t');
    gap.push(':');
    gap.push('：');
    assert(gap@ =~= label_gap_chars());
    let after = trim_start_set_chars(&rest, &gap);
    let end = next_section_index(&after, all);
    let part = slice_vec(&after, 0, end);
    assert(part@ =~= after@.take(end as int));
    clean_labeled_answer_value(&part)
}

pub fn scan_label_exec(text: &[char], label: &[char], all: &Vec<Vec<char>>) -> (r: Option<(usize, Vec<char>)>)
    requires
        all.deep_view() == all_labels(),
        label@.len() > 0,
    ensures
        match r {
            Some(found) => scan_label(text@, label@, 0) == Some((found.0 as int, found.1@)),
            None => scan_label(text@, label@, 0) is None,
        },
{
    let n = text.len();
    let mut start: usize = 0;
    while start <= n
        invariant
            n == text@.len(),
            label@.len() > 0,
            all.deep_view() == all_labels(),
            scan_label(text@, label@, 0) == scan_label(text@, label@, start as int),
        decreases text@.len() + 1 - start,
    {
        match find_first(text, label, start) {
            None => {
                return None;
            },
            Some(j) => {
                match label_value_at(text, label, j, all) {
                    Some(v) => {
                        return Some((j, v));
                    },
                    None => {
                        start = j + label.len();
                    },
                }
            },
        }
    }
    proof {
        assert(first_occ_from(text@, label@, start as int) is None);
    }
    None
}

pub fn best_labeled_exec(text: &[char], labels: &Vec<Vec<char>>, all: &Vec<Vec<char>>) -> (r: Option<(usize, Vec<char>)>)
    requires
        all.deep_view() == all_labels(),
        forall|i: int| 0 <= i < labels@.len() ==> labels.deep_view()[i].len() > 0,
    ensures
        match r {
            Some(b) => best_labeled(text@, labels.deep_view()) == Some((b.0 as int, b.1@)),
            None => best_labeled(text@, labels.deep_view()) is None,
        },
{
    let mut best: Option<(usize, Vec<char>)> = None;
    let mut k: usize = 0;
    assert(labels.deep_view().take(0) =~= Seq::<Seq<char>>::empty());
    while k < labels.len()
        invariant
            k <= labels@.len(),
            all.deep_view() == all_labels(),
            forall|i: int| 0 <= i < labels@.len() ==> labels.deep_view()[i].len() > 0,
            match best {
                Some(b) => best_labeled(text@, labels.deep_view().take(k as int)) == Some(
                    (b.0 as int, b.1@),
                ),
                None => best_labeled(text@, labels.deep_view().take(k as int)) is None,
            },
        decreases labels@.len() - k,
    {
        proof {
            lemma_deep_chars(&labels@[k as int]);
        }
        let ghost t1 = labels.deep_view().take(k + 1);
        assert(t1.drop_last() =~= labels.deep_view().take(k as int));
        assert(labels.deep_view()[k as int].len() > 0);
        match scan_label_exec(text, &labels[k], all) {
            None => {},
            Some(found) => {
                let replace = match &best {
                    Some(b) => b.0 > found.0,
                    None => true,
                };
                if replace {
                    best = Some(found);
                }
            },
        }
        k = k + 1;
    }
    assert(labels.deep_view().take(labels@.len() as int) =~= labels.deep_view());
    best
}

/// The correct and the user's answer written with labels in `text`.
pub fn extract_labeled_answers(text: &[char]) -> (r: (Option<Vec<char>>, Option<Vec<char>>))
    ensures
        match r.0 {
            Some(v) => labeled_answer(text@, correct_labels()) == Some(v@),
            None => labeled_answer(text@, correct_labels()) is None,
        },
        match r.1 {
            Some(v) => labeled_answer(text@, user_labels()) == Some(v@),
            None => labeled_answer(text@, user_labels()) is None,
        },
{
    let normalized = remove_char_exec(text, '*');
    let all = label_list(0);
    let correct_l = label_list(1);
    let user_l = label_list(2);
    let c = match best_labeled_exec(&normalized, &correct_l, &all) {
        Some(b) => Some(b.1),
        None => None,
    };
    let u = match best_labeled_exec(&normalized, &user_l, &all) {
        Some(b) => Some(b.1),
        None => None,
    };
    (c, u)
}

} // verus!

verus! {

// ------------------------------------------------------------------
// Score values
// ------------------------------------------------------------------
/// How the score text compares with zero when read as a decimal number
/// (an optional sign, then `nan`, `inf`, `infinity` or digits with at
/// most one point); text that is not such a number counts as zero.
pub enum ScoreSign {
    Positive,
    NotPositive,
    NotANumber,
}

pub open spec fn has_nonzero_digit(s: Seq<char>) -> bool {
    exists|i: int| 0 <= i < s.len() && '1' <= s[i] && s[i] <= '9'
}

pub open spec fn lower_ascii(s: Seq<char>) -> Seq<char> {
    s.map_values(|c: char| ascii_lower(c))
}

pub open spec fn score_negative(s: Seq<char>) -> bool {
    trim(s).len() > 0 && trim(s)[0] == '-'
}

pub open spec fn score_body(s: Seq<char>) -> Seq<char> {
    let t = trim(s);
    if t.len() > 0 && (t[0] == '+' || t[0] == '-') {
        t.skip(1)
    } else {
        t
    }
}

pub open spec fn score_sign(s: Seq<char>) -> ScoreSign {
    let negative = score_negative(s);
    let body = score_body(s);
    let lower = lower_ascii(body);
    if lower == "nan"@ {
        ScoreSign::NotANumber
    } else if lower == "inf"@ || lower == "infinity"@ {
        if negative {
            ScoreSign::NotPositive
        } else {
            ScoreSign::Positive
        }
    } else if decimal_text(body) && (exists|i: int| 0 <= i < body.len() && is_ascii_digit_spec(body[i])) && !negative && has_nonzero_digit(body) {
        ScoreSign::Positive
    } else {
        ScoreSign::NotPositive
    }
}

fn lower_ascii_chars(s: &[char]) -> (r: Vec<char>)
    ensures
        r@ == lower_ascii(s@),
{
    let mut out: Vec<char> = Vec::new();
    let mut i: usize = 0;
    while i < s.len()
        invariant
            i <= s@.len(),
            out@ == lower_ascii(s@.take(i as int)),
        decreases s@.len() - i,
    {
        out.push(to_ascii_lowercase(s[i]));
        assert(lower_ascii(s@.take(i + 1)) =~= lower_ascii(s@.take(i as int)).push(
            ascii_lower(s@[i as int]),
        ));
        i = i + 1;
    }
    assert(s@.take(s@.len() as int) =~= s@);
    out
}

pub fn score_sign_of(s: &[char]) -> (r: ScoreSign)
    ensures
        r == score_sign(s@),
{
    let t = trim_chars(s);
    let negative = t.len() > 0 && t[0] == '-';
    let body = if t.len() > 0 && (t[0] == '+' || t[0] == '-') {
        let b = slice_vec(&t, 1, t.len());
        assert(b@ =~= t@.skip(1));
        b
    } else {
        slice_vec(&t, 0, t.len())
    };
    assert(body@ =~= score_body(s@));
    assert(negative == score_negative(s@));
    let lower = lower_ascii_chars(&body);
    if eq_lit(&lower, "nan") {
        return ScoreSign::NotANumber;
    }
    if eq_lit(&lower, "inf") || eq_lit(&lower, "infinity") {
        return if negative {
            ScoreSign::NotPositive
        } else {
            ScoreSign::Positive
        };
    }
    if !is_decimal_text(&body) || negative {
        return ScoreSign::NotPositive;
    }
    let mut any_digit = false;
    let mut nonzero = false;
    let mut i: usize = 0;
    while i < body.len()
        invariant
            i <= body@.len(),
            any_digit == exists|j: int| 0 <= j < i && is_ascii_digit_spec(body@[j]),
            nonzero == exists|j: int| 0 <= j < i && '1' <= body@[j] && body@[j] <= '9',
        decreases body@.len() - i,
    {
        let c = body[i];
        if is_ascii_digit(c) {
            any_digit = true;
        }
        if '1' <= c && c <= '9' {
            nonzero = true;
        }
        i = i + 1;
    }
    proof {
        assert(body@.take(i as int) =~= body@);
        if nonzero {
            let j = choose|j: int| 0 <= j < i && '1' <= body@[j] && body@[j] <= '9';
            assert(has_nonzero_digit(body@));
        }
        if has_nonzero_digit(body@) {
            let j = choose|j: int| 0 <= j < body@.len() && '1' <= body@[j] && body@[j] <= '9';
            assert(nonzero);
        }
    }
    if any_digit && nonzero {
        ScoreSign::Positive
    } else {
        ScoreSign::NotPositive
    }
}

// ------------------------------------------------------------------
// The normalisation steps
// ------------------------------------------------------------------
/// Score line and labelled answers moved out of the answer field.
pub open spec fn embedded_step(v: PView) -> PView {
    let (a1, score) = split_score(v.answer);
    let sd = if trim(v.state.score_display).len() == 0 && score is Some {
        score->0
    } else {
        v.state.score_display
    };
    let correct = labeled_answer(a1, correct_labels());
    let user = labeled_answer(a1, user_labels());
    let ua = if user is Some && trim(v.state.user_answer).len() == 0 {
        user->0
    } else {
        v.state.user_answer
    };
    let ans = match correct {
        Some(c) => c,
        None => match user {
            Some(u) => u,
            None => a1,
        },
    };
    PView { answer: ans, state: StateView { user_answer: ua, score_display: sd, ..v.state }, ..v }
}

/// A true/false answer of a judgement problem written as its option key.
pub open spec fn judgement_step(v: PView) -> PView {
    if judgement_options(options_of(v.prompt)) {
        let t = trim(v.answer);
        if is_true_word(t) {
            PView { answer: "A"@, ..v }
        } else if is_false_word(t) {
            PView { answer: "B"@, ..v }
        } else {
            v
        }
    } else {
        v
    }
}

/// The type recorded as the one inferred from prompt and answer.
pub open spec fn type_step(v: PView) -> PView {
    PView { problem_type: Some(inferred_type(v.prompt, v.answer)), ..v }
}

pub open spec fn view_kind(v: PView) -> ProblemType {
    match v.problem_type {
        Some(t) => t,
        None => inferred_type(v.prompt, v.answer),
    }
}

/// The score recorded in a "本题得分:" tag.
pub open spec fn score_of_tag(tag: Seq<char>) -> Option<Seq<char>> {
    if starts_with(tag, "本题得分:"@) {
        let value = trim(trim_end_set(trim(tag.skip("本题得分:"@.len() as int)), seq!['分']));
        if value.len() > 0 {
            Some(value)
        } else {
            None
        }
    } else {
        None
    }
}

/// The score of the first tag that records one.
pub open spec fn legacy_score(tags: Seq<Seq<char>>) -> Option<Seq<char>>
    decreases tags.len(),
{
    if tags.len() == 0 {
        None
    } else {
        match legacy_score(tags.drop_last()) {
            Some(x) => Some(x),
            None => score_of_tag(tags.last()),
        }
    }
}

pub open spec fn has_tag_prefix(tags: Seq<Seq<char>>, p: Seq<char>) -> bool {
    exists|i: int| 0 <= i < tags.len() && starts_with(tags[i], p)
}

pub open spec fn legacy_verdict(tags: Seq<Seq<char>>, expl: Seq<char>) -> ProblemReviewVerdict {
    if tags.contains("作答正确"@) || tags.contains("AI复核结论:正确"@) || contains_seq(
        expl,
        "AI复核结果：正确"@,
    ) {
        ProblemReviewVerdict::Correct
    } else if tags.contains("作答错误"@) || tags.contains("AI复核结论:错误"@) || contains_seq(
        expl,
        "AI复核结果：错误"@,
    ) {
        ProblemReviewVerdict::Wrong
    } else {
        ProblemReviewVerdict::Unknown
    }
}

pub open spec fn legacy_confidence(expl: Seq<char>) -> ProblemReviewConfidence {
    if contains_seq(expl, "置信度：高"@) {
        ProblemReviewConfidence::High
    } else if contains_seq(expl, "置信度：中"@) {
        ProblemReviewConfidence::Medium
    } else if contains_seq(expl, "置信度：低"@) {
        ProblemReviewConfidence::Low
    } else {
        ProblemReviewConfidence::Unknown
    }
}

pub open spec fn has_ai_review_marks(tags: Seq<Seq<char>>, expl: Seq<char>) -> bool {
    contains_seq(expl, "AI复核结果："@) || tags.contains("AI复核完成"@) || tags.contains(
        "AI复核无法判断"@,
    ) || tags.contains("AI复核冲突"@) || has_tag_prefix(tags, "AI复核结论:"@)
}

pub open spec fn has_score_inferred_marks(tags: Seq<Seq<char>>, expl: Seq<char>) -> bool {
    tags.contains("按得分推断"@) || contains_seq(expl, "本题得分可用于判断该作答是否正确"@)
}

pub open spec fn has_pending_marks(tags: Seq<Seq<char>>, expl: Seq<char>) -> bool {
    contains_seq(expl, "未批改：页面没有提供正确答案"@) || contains_seq(
        expl,
        "因页面未给出标准答案，需人工补全正确答案"@,
    ) || tags.contains("未批改"@) || tags.contains("AI批改"@) || tags.contains("待复核"@)
        || tags.contains("多选需复核"@) || tags.contains("填空需复核"@)
}

pub open spec fn has_review_request_tags(tags: Seq<Seq<char>>) -> bool {
    tags.contains("待复核"@) || tags.contains("多选需复核"@) || tags.contains("填空需复核"@)
}

pub open spec fn ai_review_status(tags: Seq<Seq<char>>, expl: Seq<char>) -> ProblemReviewStatus {
    if tags.contains("AI复核冲突"@) || contains_seq(expl, "冲突"@) {
        ProblemReviewStatus::Conflict
    } else if tags.contains("AI复核无法判断"@) || contains_seq(expl, "未自动采用"@) || contains_seq(
        expl,
        "无法判断"@,
    ) {
        ProblemReviewStatus::Unknown
    } else {
        ProblemReviewStatus::Accepted
    }
}

/// The review state of a problem saved before review states existed,
/// rebuilt from its tags and explanation; a state that is not the default
/// is kept.
pub open spec fn backfill_step(v: PView) -> PView {
    if v.state != default_state() {
        v
    } else {
        let base = StateView {
            score_display: match legacy_score(v.tags) {
                Some(x) => x,
                None => Seq::empty(),
            },
            ..default_state()
        };
        let state = if has_ai_review_marks(v.tags, v.explanation) {
            let status = ai_review_status(v.tags, v.explanation);
            StateView {
                answer_source: ProblemAnswerSource::AiReviewed,
                review_verdict: legacy_verdict(v.tags, v.explanation),
                review_confidence: legacy_confidence(v.explanation),
                review_status: status,
                review_needed: status != ProblemReviewStatus::Accepted,
                ..base
            }
        } else if has_score_inferred_marks(v.tags, v.explanation) {
            let verdict = if v.tags.contains("作答正确"@) {
                ProblemReviewVerdict::Correct
            } else if v.tags.contains("作答错误"@) {
                ProblemReviewVerdict::Wrong
            } else {
                ProblemReviewVerdict::Unknown
            };
            let needed = has_review_request_tags(v.tags) || verdict == ProblemReviewVerdict::Wrong
                || view_kind(v) != ProblemType::SingleChoice;
            StateView {
                answer_source: ProblemAnswerSource::ScoreInferred,
                user_answer: v.answer,
                review_verdict: verdict,
                review_needed: needed,
                review_status: if needed {
                    ProblemReviewStatus::Pending
                } else {
                    ProblemReviewStatus::NoReview
                },
                ..base
            }
        } else if has_pending_marks(v.tags, v.explanation) {
            StateView {
                answer_source: ProblemAnswerSource::UserTemporary,
                user_answer: v.answer,
                review_needed: true,
                review_status: ProblemReviewStatus::Pending,
                ..base
            }
        } else {
            base
        };
        PView { state, ..v }
    }
}

/// A score-inferred answer judged by its score: for a single choice a
/// positive score means the user's answer was right; any other problem is
/// sent to review.
pub open spec fn repair_step(v: PView) -> PView {
    let src = v.state.answer_source;
    let has_text = contains_seq(v.explanation, "页面没有提供标准答案，已使用“我的答案”作为导出答案"@)
        || contains_seq(v.explanation, "本题得分可用于判断该作答是否正确"@);
    if src == ProblemAnswerSource::AiReviewed || src == ProblemAnswerSource::ManualReviewed {
        v
    } else if !has_text && src != ProblemAnswerSource::ScoreInferred {
        v
    } else {
        let ua = if trim(v.state.user_answer).len() == 0 {
            v.answer
        } else {
            v.state.user_answer
        };
        let sign = score_sign(v.state.score_display);
        let base = StateView {
            user_answer: ua,
            answer_source: ProblemAnswerSource::ScoreInferred,
            ..v.state
        };
        let state = if view_kind(v) == ProblemType::SingleChoice {
            if sign is Positive {
                StateView {
                    review_verdict: ProblemReviewVerdict::Correct,
                    review_needed: false,
                    review_status: ProblemReviewStatus::NoReview,
                    ..base
                }
            } else {
                StateView {
                    review_verdict: ProblemReviewVerdict::Wrong,
                    review_needed: true,
                    review_status: ProblemReviewStatus::Pending,
                    ..base
                }
            }
        } else {
            StateView {
                review_verdict: if sign is NotPositive {
                    ProblemReviewVerdict::Wrong
                } else {
                    ProblemReviewVerdict::Unknown
                },
                review_needed: true,
                review_status: ProblemReviewStatus::Pending,
                ..base
            }
        };
        PView { state, ..v }
    }
}

pub open spec fn tags_step(v: PView) -> PView {
    PView { tags: cleaned_tags(v.tags), ..v }
}

pub open spec fn prune_step(v: PView) -> PView {
    PView { tags: without_system_tags(v.tags), ..v }
}

/// Everything that normalisation does to a problem, in order.
pub open spec fn normalized(v: PView) -> PView {
    prune_step(repair_step(backfill_step(type_step(judgement_step(embedded_step(tags_step(v)))))))
}

/// A score-inferred answer to a multiple-choice or free-text problem is
/// never taken as right by normalisation: it is left for review (needed,
/// pending) and not judged correct, whatever its score.
pub proof fn law_score_inferred_open_answers_need_review(v: PView)
    ensures
        normalized(v).state.answer_source == ProblemAnswerSource::ScoreInferred && (normalized(
            v,
        ).problem_type == Some(ProblemType::MultipleChoice) || normalized(v).problem_type == Some(
            ProblemType::Text,
        )) ==> normalized(v).state.review_needed && normalized(v).state.review_status
            == ProblemReviewStatus::Pending && normalized(v).state.review_verdict
            != ProblemReviewVerdict::Correct,
{
    let t = type_step(judgement_step(embedded_step(tags_step(v))));
    let b = backfill_step(t);
    assert(b.problem_type == t.problem_type);
    let r = repair_step(b);
    assert(normalized(v).state == r.state);
    assert(normalized(v).problem_type == b.problem_type);
    assert(view_kind(b) == b.problem_type->0);
}

/// A normalised problem records the type inferred from its prompt and
/// answer, keeps its prompt and explanation, and its tags are distinct,
/// none empty, a bare label word or a system tag.
pub proof fn law_normalized_type_and_tags(v: PView)
    ensures
        normalized(v).problem_type == Some(inferred_type(normalized(v).prompt, normalized(v).answer)),
        normalized(v).prompt == v.prompt,
        normalized(v).explanation == v.explanation,
        forall|i: int, j: int|
            0 <= i < j < normalized(v).tags.len() ==> #[trigger] normalized(v).tags[i]
                != #[trigger] normalized(v).tags[j],
        forall|i: int|
            0 <= i < normalized(v).tags.len() ==> #[trigger] normalized(v).tags[i].len() > 0
                && !system_tag(normalized(v).tags[i]) && normalized(v).tags[i] != "知识点"@
                && normalized(v).tags[i] != "考点"@ && normalized(v).tags[i] != "标签"@,
{
    let t = cleaned_tags(v.tags);
    law_cleaned_tags_distinct_and_kept(v.tags);
    let b = repair_step(backfill_step(type_step(judgement_step(embedded_step(tags_step(v))))));
    assert(b.tags == t);
    lemma_without_system_tags(t);
    let r = normalized(v);
    assert(r.tags == without_system_tags(t));
    assert forall|i: int| 0 <= i < r.tags.len() implies #[trigger] r.tags[i].len() > 0 && !system_tag(r.tags[i])
        && r.tags[i] != "知识点"@ && r.tags[i] != "考点"@ && r.tags[i] != "标签"@ by {
        assert(r.tags.contains(r.tags[i]));
        assert(t.contains(r.tags[i]));
        let k = choose|k: int| 0 <= k < t.len() && t[k] == r.tags[i];
        assert(t[k].len() > 0);
    }
}

} // verus!

verus! {

/// The `String` holding the characters of a literal.
pub fn lit_string(s: &str) -> (r: String)
    ensures
        r@ == s@,
{
    let v = chars_of(s);
    string_of(&v)
}

pub fn normalize_embedded_answer_state(p: &mut Problem)
    ensures
        pview(*final(p)) == embedded_step(pview(*old(p))),
        same_identity(*old(p), *final(p)),
{
    let ans = chars_of(p.answer.as_str());
    let (a1, score) = strip_trailing_score_line(&ans);
    let sd_blank = is_blank_str(p.state.score_display.as_str());
    if sd_blank {
        match &score {
            Some(sc) => {
                p.state.score_display = string_of(sc);
            },
            None => {},
        }
    }
    let (correct, user) = extract_labeled_answers(&a1);
    let ua_blank = is_blank_str(p.state.user_answer.as_str());
    if ua_blank {
        match &user {
            Some(u) => {
                p.state.user_answer = string_of(u);
            },
            None => {},
        }
    }
    p.answer = match correct {
        Some(c) => string_of(&c),
        None => match user {
            Some(u) => string_of(&u),
            None => string_of(&a1),
        },
    };
    proof {
        let v = pview(*old(p));
        let w = embedded_step(v);
        assert(pview(*p).state == w.state);
        assert(pview(*p) == w);
    }
}

pub fn normalize_judgement_answer(p: &mut Problem)
    ensures
        pview(*final(p)) == judgement_step(pview(*old(p))),
        same_identity(*old(p), *final(p)),
{
    let opts = p.options();
    if is_judgement_options(&opts) {
        let a = chars_of(p.answer.as_str());
        let t = trim_chars(&a);
        if is_true_word_exec(&t) {
            p.answer = lit_string("A");
        } else if is_false_word_exec(&t) {
            p.answer = lit_string("B");
        }
    }
}

pub fn record_inferred_type(p: &mut Problem)
    ensures
        pview(*final(p)) == type_step(pview(*old(p))),
        same_identity(*old(p), *final(p)),
{
    let pr = chars_of(p.prompt.as_str());
    let an = chars_of(p.answer.as_str());
    p.problem_type = Some(infer_problem_type(&pr, &an));
}

fn tags_contain(tags: &Vec<String>, lit: &str) -> (r: bool)
    ensures
        r == tags.deep_view().contains(lit@),
{
    let v = chars_of(lit);
    vec_contains(tags, &v)
}

fn tags_have_prefix(tags: &Vec<String>, prefix: &str) -> (r: bool)
    ensures
        r == has_tag_prefix(tags.deep_view(), prefix@),
{
    let mut i: usize = 0;
    while i < tags.len()
        invariant
            i <= tags@.len(),
            forall|j: int| 0 <= j < i ==> !starts_with(tags.deep_view()[j], prefix@),
        decreases tags@.len() - i,
    {
        let t = chars_of(tags[i].as_str());
        if starts_with_str(&t, prefix) {
            assert(tags.deep_view()[i as int] == t@);
            return true;
        }
        i = i + 1;
    }
    false
}

fn score_of_tag_exec(tag: &[char]) -> (r: Option<Vec<char>>)
    ensures
        match r {
            Some(v) => score_of_tag(tag@) == Some(v@),
            None => score_of_tag(tag@) is None,
        },
{
    let prefix = chars_of("本题得分:");
    if !crate::text::starts_with_chars(tag, &prefix) {
        return None;
    }
    let rest = slice_vec(tag, prefix.len(), tag.len());
    assert(rest@ =~= tag@.skip("本题得分:"@.len() as int));
    let mut fen: Vec<char> = Vec::new();
    fen.push('分');
    assert(fen@ =~= seq!['分']);
    let a = trim_chars(&rest);
    let b = trim_end_set_chars(&a, &fen);
    let c = trim_chars(&b);
    if c.len() > 0 {
        Some(c)
    } else {
        None
    }
}

fn legacy_score_exec(tags: &Vec<String>) -> (r: Option<Vec<char>>)
    ensures
        match r {
            Some(v) => legacy_score(tags.deep_view()) == Some(v@),
            None => legacy_score(tags.deep_view()) is None,
        },
{
    let mut i: usize = 0;
    assert(tags.deep_view().take(0) =~= Seq::<Seq<char>>::empty());
    while i < tags.len()
        invariant
            i <= tags@.len(),
            legacy_score(tags.deep_view().take(i as int)) is None,
        decreases tags@.len() - i,
    {
        let t = chars_of(tags[i].as_str());
        let ghost t1 = tags.deep_view().take(i + 1);
        assert(t1.drop_last() =~= tags.deep_view().take(i as int));
        let found = score_of_tag_exec(&t);
        if found.is_some() {
            proof {
                lemma_legacy_score_prefix(tags.deep_view(), i + 1);
            }
            return found;
        }
        i = i + 1;
    }
    assert(tags.deep_view().take(tags@.len() as int) =~= tags.deep_view());
    None
}

proof fn lemma_legacy_score_prefix(tags: Seq<Seq<char>>, k: int)
    requires
        0 <= k <= tags.len(),
        legacy_score(tags.take(k)) is Some,
    ensures
        legacy_score(tags) == legacy_score(tags.take(k)),
    decreases tags.len() - k,
{
    if k < tags.len() {
        assert(tags.drop_last().take(k) =~= tags.take(k));
        lemma_legacy_score_prefix(tags.drop_last(), k);
    } else {
        assert(tags.take(k) =~= tags);
    }
}

pub fn backfill_legacy_problem_state(p: &mut Problem)
    ensures
        pview(*final(p)) == backfill_step(pview(*old(p))),
        same_identity(*old(p), *final(p)),
{
    if !p.state.is_default() {
        return;
    }
    let ghost v = pview(*p);
    let expl = chars_of(p.explanation.as_str());
    let sd = match legacy_score_exec(&p.tags) {
        Some(x) => string_of(&x),
        None => String::new(),
    };
    let ai_marks = contains_str(&expl, "AI复核结果：") || tags_contain(&p.tags, "AI复核完成")
        || tags_contain(&p.tags, "AI复核无法判断") || tags_contain(&p.tags, "AI复核冲突")
        || tags_have_prefix(&p.tags, "AI复核结论:");
    let score_marks = tags_contain(&p.tags, "按得分推断") || contains_str(
        &expl,
        "本题得分可用于判断该作答是否正确",
    );
    let pending_marks = contains_str(&expl, "未批改：页面没有提供正确答案") || contains_str(
        &expl,
        "因页面未给出标准答案，需人工补全正确答案",
    ) || tags_contain(&p.tags, "未批改") || tags_contain(&p.tags, "AI批改") || tags_contain(
        &p.tags,
        "待复核",
    ) || tags_contain(&p.tags, "多选需复核") || tags_contain(&p.tags, "填空需复核");
    let mut state = ProblemState {
        user_answer: String::new(),
        answer_source: ProblemAnswerSource::Standard,
        review_needed: false,
        review_status: ProblemReviewStatus::NoReview,
        review_verdict: ProblemReviewVerdict::Unknown,
        review_confidence: ProblemReviewConfidence::Unknown,
        score_display: sd,
    };
    if ai_marks {
        state.answer_source = ProblemAnswerSource::AiReviewed;
        state.review_verdict = if tags_contain(&p.tags, "作答正确") || tags_contain(
            &p.tags,
            "AI复核结论:正确",
        ) || contains_str(&expl, "AI复核结果：正确") {
            ProblemReviewVerdict::Correct
        } else if tags_contain(&p.tags, "作答错误") || tags_contain(&p.tags, "AI复核结论:错误")
            || contains_str(&expl, "AI复核结果：错误") {
            ProblemReviewVerdict::Wrong
        } else {
            ProblemReviewVerdict::Unknown
        };
        state.review_confidence = if contains_str(&expl, "置信度：高") {
            ProblemReviewConfidence::High
        } else if contains_str(&expl, "置信度：中") {
            ProblemReviewConfidence::Medium
        } else if contains_str(&expl, "置信度：低") {
            ProblemReviewConfidence::Low
        } else {
            ProblemReviewConfidence::Unknown
        };
        state.review_status = if tags_contain(&p.tags, "AI复核冲突") || contains_str(&expl, "冲突") {
            ProblemReviewStatus::Conflict
        } else if tags_contain(&p.tags, "AI复核无法判断") || contains_str(&expl, "未自动采用")
            || contains_str(&expl, "无法判断") {
            ProblemReviewStatus::Unknown
        } else {
            ProblemReviewStatus::Accepted
        };
        state.review_needed = state.review_status != ProblemReviewStatus::Accepted;
    } else if score_marks {
        state.answer_source = ProblemAnswerSource::ScoreInferred;
        state.user_answer = copy_string(&p.answer);
        state.review_verdict = if tags_contain(&p.tags, "作答正确") {
            ProblemReviewVerdict::Correct
        } else if tags_contain(&p.tags, "作答错误") {
            ProblemReviewVerdict::Wrong
        } else {
            ProblemReviewVerdict::Unknown
        };
        let kind = p.kind();
        state.review_needed = tags_contain(&p.tags, "待复核") || tags_contain(&p.tags, "多选需复核")
            || tags_contain(&p.tags, "填空需复核") || state.review_verdict
            == ProblemReviewVerdict::Wrong || kind != ProblemType::SingleChoice;
        state.review_status = if state.review_needed {
            ProblemReviewStatus::Pending
        } else {
            ProblemReviewStatus::NoReview
        };
    } else if pending_marks {
        state.answer_source = ProblemAnswerSource::UserTemporary;
        state.user_answer = copy_string(&p.answer);
        state.review_needed = true;
        state.review_status = ProblemReviewStatus::Pending;
    }
    p.state = state;
    proof {
        let w = backfill_step(v);
        assert(pview(*p).state == w.state);
        assert(pview(*p) == w);
    }
}

pub fn repair_score_inferred_state(p: &mut Problem)
    ensures
        pview(*final(p)) == repair_step(pview(*old(p))),
        same_identity(*old(p), *final(p)),
{
    let ghost v = pview(*p);
    let src = p.state.answer_source;
    if src == ProblemAnswerSource::AiReviewed || src == ProblemAnswerSource::ManualReviewed {
        return;
    }
    let expl = chars_of(p.explanation.as_str());
    let has_text = contains_str(&expl, "页面没有提供标准答案，已使用“我的答案”作为导出答案")
        || contains_str(&expl, "本题得分可用于判断该作答是否正确");
    if !has_text && src != ProblemAnswerSource::ScoreInferred {
        return;
    }
    if is_blank_str(p.state.user_answer.as_str()) {
        p.state.user_answer = copy_string(&p.answer);
    }
    p.state.answer_source = ProblemAnswerSource::ScoreInferred;
    let sdv = chars_of(p.state.score_display.as_str());
    let sign = score_sign_of(&sdv);
    let kind = p.kind();
    if kind == ProblemType::SingleChoice {
        match sign {
            ScoreSign::Positive => {
                p.state.review_verdict = ProblemReviewVerdict::Correct;
                p.state.review_needed = false;
                p.state.review_status = ProblemReviewStatus::NoReview;
            },
            _ => {
                p.state.review_verdict = ProblemReviewVerdict::Wrong;
                p.state.review_needed = true;
                p.state.review_status = ProblemReviewStatus::Pending;
            },
        }
    } else {
        p.state.review_verdict = match sign {
            ScoreSign::NotPositive => ProblemReviewVerdict::Wrong,
            _ => ProblemReviewVerdict::Unknown,
        };
        p.state.review_needed = true;
        p.state.review_status = ProblemReviewStatus::Pending;
    }
    proof {
        let w = repair_step(v);
        assert(pview(*p).state == w.state);
        assert(pview(*p) == w);
    }
}

/// Normalises an imported problem (see `normalized`): tags cleaned, score
/// line and labelled answers moved out of the answer, true/false answers
/// written as keys, type inferred, review state rebuilt and decided,
/// system tags removed.
pub fn normalize_problem(problem: Problem) -> (r: Problem)
    ensures
        pview(r) == normalized(pview(problem)),
        same_identity(problem, r),
{
    let mut p = problem;
    let cleaned = clean_tags(&p.tags);
    p.tags = cleaned;
    assert(pview(p) == tags_step(pview(problem)));
    normalize_embedded_answer_state(&mut p);
    normalize_judgement_answer(&mut p);
    record_inferred_type(&mut p);
    backfill_legacy_problem_state(&mut p);
    repair_score_inferred_state(&mut p);
    let ghost before = pview(p);
    let pruned = prune_system_tags(&p.tags);
    p.tags = pruned;
    assert(pview(p) == prune_step(before));
    p
}

} // verus!
