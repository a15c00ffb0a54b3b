//! Problems of a practice bank: their types, answer checking, option
//! parsing, tag cleaning and the normalisation applied on import.
use vstd::prelude::*;
use crate::text::{
    ascii_upper, chars_eq, chars_of, collapse_whitespace, collapse_ws, contains_seq, contains_str,
    dedup_first, eq_lit, lemma_dedup_push, extend_chars, is_ascii_alpha, is_ascii_alphabetic, join, lemma_deep_chars,
    lines, push_line, slice_vec, split_lines, split_set, split_set_chars, starts_with,
    starts_with_chars, starts_with_str, str_eq, string_of, strip_prefix_all, strip_prefix_all_str,
    to_ascii_uppercase, to_lowercase, trim, trim_chars, trim_start_set, trim_start_set_chars,
    unicode_lowercase, vec_contains,
};

verus! {

#[derive(Debug, Clone, Copy, PartialEq, Eq, Structural)]
pub enum ProblemType {
    SingleChoice,
    MultipleChoice,
    Text,
}

#[derive(Debug, Clone, Copy, PartialEq, Eq, Structural)]
pub enum ProblemAnswerSource {
    Standard,
    UserTemporary,
    ScoreInferred,
    AiReviewed,
    ManualReviewed,
}

#[derive(Debug, Clone, Copy, PartialEq, Eq, Structural)]
pub enum ProblemReviewStatus {
    NoReview,
    Pending,
    Accepted,
    Unknown,
    Conflict,
}

#[derive(Debug, Clone, Copy, PartialEq, Eq, Structural)]
pub enum ProblemReviewVerdict {
    Unknown,
    Correct,
    Wrong,
}

#[derive(Debug, Clone, Copy, PartialEq, Eq, Structural)]
pub enum ProblemReviewConfidence {
    High,
    Medium,
    Low,
    Unknown,
}

impl Default for ProblemAnswerSource {
    fn default() -> (r: Self)
        ensures
            r == ProblemAnswerSource::Standard,
    {
        ProblemAnswerSource::Standard
    }
}

impl Default for ProblemReviewStatus {
    fn default() -> (r: Self)
        ensures
            r == ProblemReviewStatus::NoReview,
    {
        ProblemReviewStatus::NoReview
    }
}

impl Default for ProblemReviewVerdict {
    fn default() -> (r: Self)
        ensures
            r == ProblemReviewVerdict::Unknown,
    {
        ProblemReviewVerdict::Unknown
    }
}

impl Default for ProblemReviewConfidence {
    fn default() -> (r: Self)
        ensures
            r == ProblemReviewConfidence::Unknown,
    {
        ProblemReviewConfidence::Unknown
    }
}

/// Review bookkeeping attached to a problem.
#[derive(Debug, Clone, PartialEq, Eq)]
pub struct ProblemState {
    pub user_answer: String,
    pub answer_source: ProblemAnswerSource,
    pub review_needed: bool,
    pub review_status: ProblemReviewStatus,
    pub review_verdict: ProblemReviewVerdict,
    pub review_confidence: ProblemReviewConfidence,
    pub score_display: String,
}

/// The state as plain values.
pub struct StateView {
    pub user_answer: Seq<char>,
    pub answer_source: ProblemAnswerSource,
    pub review_needed: bool,
    pub review_status: ProblemReviewStatus,
    pub review_verdict: ProblemReviewVerdict,
    pub review_confidence: ProblemReviewConfidence,
    pub score_display: Seq<char>,
}

impl View for ProblemState {
    type V = StateView;

    open spec fn view(&self) -> StateView {
        StateView {
            user_answer: self.user_answer@,
            answer_source: self.answer_source,
            review_needed: self.review_needed,
            review_status: self.review_status,
            review_verdict: self.review_verdict,
            review_confidence: self.review_confidence,
            score_display: self.score_display@,
        }
    }
}

/// The default state: no user answer, standard answer, nothing to review.
pub open spec fn default_state() -> StateView {
    StateView {
        user_answer: Seq::empty(),
        answer_source: ProblemAnswerSource::Standard,
        review_needed: false,
        review_status: ProblemReviewStatus::NoReview,
        review_verdict: ProblemReviewVerdict::Unknown,
        review_confidence: ProblemReviewConfidence::Unknown,
        score_display: Seq::empty(),
    }
}

impl Default for ProblemState {
    fn default() -> (r: Self)
        ensures
            r@ == default_state(),
    {
        ProblemState {
            user_answer: String::new(),
            answer_source: ProblemAnswerSource::Standard,
            review_needed: false,
            review_status: ProblemReviewStatus::NoReview,
            review_verdict: ProblemReviewVerdict::Unknown,
            review_confidence: ProblemReviewConfidence::Unknown,
            score_display: String::new(),
        }
    }
}

impl ProblemState {
    /// Whether the state equals the default state.
    pub fn is_default(&self) -> (r: bool)
        ensures
            r == (self@ == default_state()),
    {
        let empty_texts = self.user_answer.as_str().unicode_len() == 0
            && self.score_display.as_str().unicode_len() == 0;
        proof {
            if empty_texts {
                assert(self.user_answer@ =~= Seq::<char>::empty());
                assert(self.score_display@ =~= Seq::<char>::empty());
            }
        }
        empty_texts && self.answer_source == ProblemAnswerSource::Standard && !self.review_needed
            && self.review_status == ProblemReviewStatus::NoReview && self.review_verdict
            == ProblemReviewVerdict::Unknown && self.review_confidence
            == ProblemReviewConfidence::Unknown
    }
}

#[derive(Debug, Clone, PartialEq, Eq)]
pub struct ProblemImage {
    pub filename: String,
    pub mime_type: String,
    pub base64: String,
    pub alt_text: String,
    pub source_url: String,
}

#[derive(Debug, Clone, PartialEq, Eq)]
pub struct Problem {
    pub id: String,
    pub prompt: String,
    pub answer: String,
    pub explanation: String,
    pub tags: Vec<String>,
    pub problem_type: Option<ProblemType>,
    pub deck_name: Option<String>,
    pub deck_info: Option<String>,
    pub images: Vec<ProblemImage>,
    pub state: ProblemState,
}

#[derive(Debug, Clone, PartialEq, Eq)]
pub struct ChoiceOption {
    pub key: String,
    pub text: String,
}

// ------------------------------------------------------------------
// Choice answers
// ------------------------------------------------------------------
/// The `k`-th capital letter (`'A'` for 0).
pub open spec fn letter(k: int) -> char {
    (65 + k) as char
}

/// `s` holds an ASCII letter whose capital form is `letter(k)`.
pub open spec fn has_choice_letter(s: Seq<char>, k: int) -> bool {
    exists|j: int| 0 <= j < s.len() && is_ascii_alpha(s[j]) && ascii_upper(s[j]) == letter(k)
}

pub open spec fn letters_upto(s: Seq<char>, n: int) -> Seq<char>
    decreases n,
{
    if n <= 0 {
        Seq::empty()
    } else {
        let prev = letters_upto(s, n - 1);
        if has_choice_letter(s, n - 1) {
            prev.push(letter(n - 1))
        } else {
            prev
        }
    }
}

/// The canonical form of a choice answer: the distinct ASCII letters of
/// `s`, upper-cased, in alphabetical order.
pub open spec fn choice_key(s: Seq<char>) -> Seq<char> {
    letters_upto(s, 26)
}

proof fn lemma_letters_upto_len(s: Seq<char>, n: int)
    requires
        0 <= n,
    ensures
        letters_upto(s, n).len() <= n,
    decreases n,
{
    if n > 0 {
        lemma_letters_upto_len(s, n - 1);
    }
}

proof fn lemma_letters_upto_same(a: Seq<char>, b: Seq<char>, n: int)
    requires
        0 <= n <= 26,
        forall|k: int| 0 <= k < 26 ==> has_choice_letter(a, k) == has_choice_letter(b, k),
    ensures
        letters_upto(a, n) == letters_upto(b, n),
    decreases n,
{
    if n > 0 {
        lemma_letters_upto_same(a, b, n - 1);
        assert(has_choice_letter(a, n - 1) == has_choice_letter(b, n - 1));
    }
}

/// A multiple-choice answer is judged by the option letters it names:
/// their order, repetition, case and the separators between them do not
/// matter.
pub proof fn law_choice_answer_order_free(answer: Seq<char>, a: Seq<char>, b: Seq<char>)
    requires
        forall|k: int| 0 <= k < 26 ==> has_choice_letter(a, k) == has_choice_letter(b, k),
    ensures
        answer_matches(ProblemType::MultipleChoice, answer, a) == answer_matches(
            ProblemType::MultipleChoice,
            answer,
            b,
        ),
{
    lemma_letters_upto_same(a, b, 26);
}

proof fn lemma_letters_upto_shape(s: Seq<char>, n: int)
    requires
        0 <= n <= 26,
    ensures
        forall|i: int|
            0 <= i < letters_upto(s, n).len() ==> 65 <= (#[trigger] letters_upto(s, n)[i]) as int
                && (letters_upto(s, n)[i] as int) < 65 + n,
        forall|i: int, j: int|
            0 <= i < j < letters_upto(s, n).len() ==> ((#[trigger] letters_upto(s, n)[i]) as int)
                < ((#[trigger] letters_upto(s, n)[j]) as int),
        forall|k: int|
            0 <= k < 26 ==> (#[trigger] has_choice_letter(letters_upto(s, n), k) <==> (k < n
                && has_choice_letter(s, k))),
    decreases n,
{
    if n > 0 {
        lemma_letters_upto_shape(s, n - 1);
        let prev = letters_upto(s, n - 1);
        let r = letters_upto(s, n);
        let c = letter(n - 1);
        assert((c as int) == 65 + n - 1);
        if has_choice_letter(s, n - 1) {
            assert(r == prev.push(c));
            assert forall|k: int| 0 <= k < 26 implies (#[trigger] has_choice_letter(r, k) <==> (k < n
                && has_choice_letter(s, k))) by {
                if has_choice_letter(r, k) {
                    let j = choose|j: int|
                        0 <= j < r.len() && is_ascii_alpha(r[j]) && ascii_upper(r[j]) == letter(k);
                    if j < prev.len() {
                        assert(r[j] == prev[j]);
                        assert(has_choice_letter(prev, k));
                    } else {
                        assert(r[j] == c);
                        assert(ascii_upper(c) == c);
                        assert(k == n - 1);
                    }
                }
                if k < n && has_choice_letter(s, k) {
                    if k < n - 1 {
                        assert(has_choice_letter(prev, k));
                        let j = choose|j: int|
                            0 <= j < prev.len() && is_ascii_alpha(prev[j]) && ascii_upper(prev[j])
                                == letter(k);
                        assert(r[j] == prev[j]);
                    } else {
                        assert(r[prev.len() as int] == c);
                        assert(is_ascii_alpha(c) && ascii_upper(c) == letter(k));
                    }
                }
            }
        } else {
            assert forall|k: int| 0 <= k < 26 implies (#[trigger] has_choice_letter(r, k) <==> (k < n
                && has_choice_letter(s, k))) by {
                assert(has_choice_letter(prev, k) <==> (k < n - 1 && has_choice_letter(s, k)));
            }
        }
    }
}

/// A normalised choice answer is written in capitals A to Z, each named
/// letter once, in alphabetical order; it names exactly the letters the
/// answer names, so normalising it again changes nothing.
pub proof fn law_choice_key_canonical(s: Seq<char>)
    ensures
        forall|i: int|
            0 <= i < choice_key(s).len() ==> 'A' <= #[trigger] choice_key(s)[i] && choice_key(s)[i]
                <= 'Z',
        forall|i: int, j: int|
            0 <= i < j < choice_key(s).len() ==> ((#[trigger] choice_key(s)[i]) as int)
                < ((#[trigger] choice_key(s)[j]) as int),
        forall|k: int|
            0 <= k < 26 ==> (#[trigger] has_choice_letter(choice_key(s), k) <==> has_choice_letter(
                s,
                k,
            )),
        choice_key(choice_key(s)) == choice_key(s),
{
    lemma_letters_upto_shape(s, 26);
    let r = choice_key(s);
    assert forall|i: int| 0 <= i < r.len() implies 'A' <= #[trigger] r[i] && r[i] <= 'Z' by {
        assert(65 <= (r[i] as int) && (r[i] as int) < 91);
    }
    lemma_letters_upto_same(r, s, 26);
}

/// Canonical form of a choice answer: `"C a,A"` becomes `"AC"`.
pub fn normalize_choice_answer(value: &str) -> (r: String)
    ensures
        r@ == choice_key(value@),
{
    let s = chars_of(value);
    let v = choice_key_chars(&s);
    string_of(&v)
}

pub fn choice_key_chars(s: &[char]) -> (r: Vec<char>)
    ensures
        r@ == choice_key(s@),
        r@.len() <= 26,
{
    let mut seen: Vec<bool> = Vec::new();
    let mut k: usize = 0;
    while k < 26
        invariant
            k <= 26,
            seen@.len() == k,
            forall|m: int| 0 <= m < k ==> !seen@[m],
        decreases 26 - k,
    {
        seen.push(false);
        k = k + 1;
    }
    let mut i: usize = 0;
    while i < s.len()
        invariant
            i <= s@.len(),
            seen@.len() == 26,
            forall|m: int|
                0 <= m < 26 ==> (seen@[m] <==> has_choice_letter(s@.take(i as int), m)),
        decreases s@.len() - i,
    {
        let c = s[i];
        let ghost t = s@.take(i as int);
        let ghost t1 = s@.take(i + 1);
        assert forall|m: int| 0 <= m < 26 && has_choice_letter(t, m) implies has_choice_letter(
            t1,
            m,
        ) by {
            let j = choose|j: int|
                0 <= j < t.len() && is_ascii_alpha(t[j]) && ascii_upper(t[j]) == letter(m);
            assert(t1[j] == t[j]);
        }
        if 'a' <= c && c <= 'z' {
            let idx = (c as u32 - 97) as usize;
            seen.set(idx, true);
            proof {
                assert(t1[i as int] == c);
                assert(ascii_upper(c) == letter(idx as int));
            }
        } else if 'A' <= c && c <= 'Z' {
            let idx = (c as u32 - 65) as usize;
            seen.set(idx, true);
            proof {
                assert(t1[i as int] == c);
                assert(ascii_upper(c) == letter(idx as int));
            }
        }
        proof {
            assert forall|m: int|
                0 <= m < 26 && has_choice_letter(t1, m) implies seen@[m] by {
                let j = choose|j: int|
                    0 <= j < t1.len() && is_ascii_alpha(t1[j]) && ascii_upper(t1[j]) == letter(m);
                if j < i {
                    assert(t[j] == t1[j]);
                    assert(has_choice_letter(t, m));
                } else {
                    assert(t1[j] == c);
                    assert((letter(m) as u32) == 65 + m);
                }
            }
        }
        i = i + 1;
    }
    assert(s@.take(s@.len() as int) =~= s@);
    let mut out: Vec<char> = Vec::new();
    let mut k: usize = 0;
    while k < 26
        invariant
            k <= 26,
            seen@.len() == 26,
            forall|m: int| 0 <= m < 26 ==> (seen@[m] <==> has_choice_letter(s@, m)),
            out@ == letters_upto(s@, k as int),
        decreases 26 - k,
    {
        if seen[k] {
            let u: u32 = 65 + k as u32;
            let b: u8 = u as u8;
            let ch = b as char;
            assert(ch == letter(k as int));
            out.push(ch);
        }
        k = k + 1;
    }
    proof {
        lemma_letters_upto_len(s@, 26);
    }
    out
}

// ------------------------------------------------------------------
// Free-text answers
// ------------------------------------------------------------------
/// The canonical form of a free-text answer: whitespace runs collapsed to
/// single spaces, ends trimmed, then lower-cased.
pub open spec fn answer_key(s: Seq<char>) -> Seq<char> {
    unicode_lowercase(collapse_ws(s))
}

/// Canonical form of a free-text answer (`"  A   B  "` becomes `"a b"`).
pub fn normalize_answer(value: &str) -> (r: String)
    ensures
        r@ == answer_key(value@),
{
    let s = chars_of(value);
    let c = collapse_whitespace(&s);
    let joined = string_of(&c);
    to_lowercase(joined.as_str())
}

// ------------------------------------------------------------------
// Options in a prompt
// ------------------------------------------------------------------
pub open spec fn is_option_separator(c: char) -> bool {
    c == '.' || c == '、' || c == '．'
}

/// The option a prompt line stands for: a letter (upper-cased), one of
/// `.`, `、`, `．`, then the option text (trimmed).
pub open spec fn option_of_line(line: Seq<char>) -> Option<(Seq<char>, Seq<char>)> {
    let t = trim(line);
    if t.len() >= 2 && is_ascii_alpha(t[0]) && is_option_separator(t[1]) {
        Some((seq![ascii_upper(t[0])], trim(t.skip(2))))
    } else {
        None
    }
}

/// A prompt line whose trimmed text is an ASCII letter, then `.`, `、` or
/// `．`, then the option text, is that option: the capital letter as key
/// and the rest, trimmed, as text.  A line whose second character is none
/// of these is no option.
pub proof fn law_option_lines(line: Seq<char>)
    ensures
        ({
            let t = trim(line);
            t.len() >= 2 && is_ascii_alpha(t[0]) && (t[1] == '.' || t[1] == '、' || t[1] == '．')
                ==> option_of_line(line) == Some((seq![ascii_upper(t[0])], trim(t.skip(2))))
        }),
        ({
            let t = trim(line);
            t.len() >= 2 && !(t[1] == '.' || t[1] == '、' || t[1] == '．') ==> option_of_line(line) is None
        }),
{
}

pub open spec fn options_from(ls: Seq<Seq<char>>) -> Seq<(Seq<char>, Seq<char>)>
    decreases ls.len(),
{
    if ls.len() == 0 {
        Seq::empty()
    } else {
        let prev = options_from(ls.drop_last());
        match option_of_line(ls.last()) {
            Some(o) => prev.push(o),
            None => prev,
        }
    }
}

/// The options of a prompt, in order.
pub open spec fn options_of(prompt: Seq<char>) -> Seq<(Seq<char>, Seq<char>)> {
    options_from(lines(prompt))
}

pub open spec fn option_view(o: ChoiceOption) -> (Seq<char>, Seq<char>) {
    (o.key@, o.text@)
}

pub fn parse_option_line(line: &[char]) -> (r: Option<ChoiceOption>)
    ensures
        match r {
            Some(o) => option_of_line(line@) == Some(option_view(o)),
            None => option_of_line(line@) is None,
        },
{
    let t = trim_chars(line);
    if t.len() < 2 {
        return None;
    }
    if !is_ascii_alphabetic(t[0]) {
        return None;
    }
    let sep = t[1];
    if !(sep == '.' || sep == '、' || sep == '．') {
        return None;
    }
    let key_char = to_ascii_uppercase(t[0]);
    let mut key_v: Vec<char> = Vec::new();
    key_v.push(key_char);
    let rest = slice_vec(&t, 2, t.len());
    assert(rest@ =~= t@.skip(2));
    let text_v = trim_chars(&rest);
    let key = string_of(&key_v);
    let text = string_of(&text_v);
    assert(key@ =~= seq![ascii_upper(t@[0])]);
    Some(ChoiceOption { key, text })
}

pub fn options_of_lines(ls: &Vec<Vec<char>>) -> (r: Vec<ChoiceOption>)
    ensures
        r@.map_values(|o: ChoiceOption| option_view(o)) == options_from(ls.deep_view()),
{
    let mut out: Vec<ChoiceOption> = Vec::new();
    let mut i: usize = 0;
    while i < ls.len()
        invariant
            i <= ls@.len(),
            out@.map_values(|o: ChoiceOption| option_view(o)) == options_from(
                ls.deep_view().take(i as int),
            ),
        decreases ls@.len() - i,
    {
        let ghost t1 = ls.deep_view().take(i + 1);
        assert(t1.drop_last() =~= ls.deep_view().take(i as int));
        proof {
            lemma_deep_chars(&ls@[i as int]);
        }
        assert(t1.last() == ls@[i as int]@);
        let ghost before = out@;
        match parse_option_line(&ls[i]) {
            Some(o) => {
                out.push(o);
                assert(out@.map_values(|o: ChoiceOption| option_view(o)) =~= before.map_values(
                    |o: ChoiceOption| option_view(o),
                ).push(option_view(out@.last())));
            },
            None => {},
        }
        i = i + 1;
    }
    assert(ls.deep_view().take(ls@.len() as int) =~= ls.deep_view());
    out
}

// ------------------------------------------------------------------
// Question text
// ------------------------------------------------------------------
/// Index of the first line that is an option line (or the line count).
pub open spec fn first_option_line(ls: Seq<Seq<char>>, i: int) -> int
    decreases ls.len() - i,
{
    if i < ls.len() && option_of_line(ls[i]) is None {
        first_option_line(ls, i + 1)
    } else {
        i
    }
}

/// The question: the prompt lines before the first option line, each
/// trimmed, joined with newlines, and the whole trimmed.
pub open spec fn question_of(prompt: Seq<char>) -> Seq<char> {
    let ls = lines(prompt);
    let n = first_option_line(ls, 0);
    trim(join(ls.take(n).map_values(|l: Seq<char>| trim(l)), seq!['\n']))
}

proof fn lemma_first_option_line(ls: Seq<Seq<char>>, i: int, n: int)
    requires
        0 <= i <= n <= ls.len(),
        forall|j: int| i <= j < n ==> option_of_line(ls[j]) is None,
        n == ls.len() || option_of_line(ls[n]) is Some,
    ensures
        first_option_line(ls, i) == n,
    decreases n - i,
{
    if i < n {
        lemma_first_option_line(ls, i + 1, n);
    }
}

pub proof fn lemma_join_push_pub(pieces: Seq<Seq<char>>, sep: Seq<char>, p: Seq<char>)
    requires
        pieces.len() > 0,
    ensures
        join(pieces.push(p), sep) == join(pieces, sep) + sep + p,
{
    assert(pieces.push(p).drop_last() =~= pieces);
}

/// Joins buffers with a separator (`[T]::join`).
pub fn join_chars(pieces: &Vec<Vec<char>>, sep: &[char]) -> (r: Vec<char>)
    ensures
        r@ == join(pieces.deep_view(), sep@),
{
    let mut out: Vec<char> = Vec::new();
    let mut i: usize = 0;
    while i < pieces.len()
        invariant
            i <= pieces@.len(),
            out@ == join(pieces.deep_view().take(i as int), sep@),
        decreases pieces@.len() - i,
    {
        let ghost t = pieces.deep_view().take(i as int);
        let ghost t1 = pieces.deep_view().take(i + 1);
        assert(t1 =~= t.push(pieces.deep_view()[i as int]));
        proof {
            lemma_deep_chars(&pieces@[i as int]);
        }
        if i > 0 {
            proof {
                lemma_join_push_pub(t, sep@, pieces.deep_view()[i as int]);
            }
            extend_chars(&mut out, sep);
        } else {
            assert(t1 =~= seq![pieces.deep_view()[0]]);
        }
        extend_chars(&mut out, &pieces[i]);
        i = i + 1;
    }
    assert(pieces.deep_view().take(pieces@.len() as int) =~= pieces.deep_view());
    out
}

pub fn question_text_of(prompt: &[char]) -> (r: Vec<char>)
    ensures
        r@ == question_of(prompt@),
{
    let ls = split_lines(prompt);
    let mut parts: Vec<Vec<char>> = Vec::new();
    let mut i: usize = 0;
    let mut stop = false;
    while i < ls.len() && !stop
        invariant
            i <= ls@.len(),
            ls.deep_view() == lines(prompt@),
            forall|j: int| 0 <= j < i ==> option_of_line(ls.deep_view()[j]) is None,
            stop ==> i < ls@.len() && option_of_line(ls.deep_view()[i as int]) is Some,
            parts.deep_view() == ls.deep_view().take(i as int).map_values(
                |l: Seq<char>| trim(l),
            ),
        decreases ls@.len() - i + (if stop { 0int } else { 1int }),
    {
        proof {
            lemma_deep_chars(&ls@[i as int]);
        }
        if parse_option_line(&ls[i]).is_some() {
            stop = true;
            continue;
        }
        let t = trim_chars(&ls[i]);
        let ghost before = parts.deep_view();
        push_line(&mut parts, t);
        assert(parts.deep_view() =~= ls.deep_view().take(i + 1).map_values(
            |l: Seq<char>| trim(l),
        ));
        i = i + 1;
    }
    proof {
        lemma_first_option_line(ls.deep_view(), 0, i as int);
    }
    let mut nl: Vec<char> = Vec::new();
    nl.push('\n');
    let joined = join_chars(&parts, &nl);
    assert(nl@ =~= seq!['\n']);
    trim_chars(&joined)
}

// ------------------------------------------------------------------
// Judgement (true/false) options
// ------------------------------------------------------------------
pub open spec fn is_true_word(t: Seq<char>) -> bool {
    t == "对"@ || t == "正确"@ || t == "√"@
}

pub open spec fn is_false_word(t: Seq<char>) -> bool {
    t == "错"@ || t == "错误"@ || t == "×"@
}

/// Exactly two options, the first reading "true" and the second "false".
pub open spec fn judgement_options(opts: Seq<(Seq<char>, Seq<char>)>) -> bool {
    opts.len() == 2 && is_true_word(trim(opts[0].1)) && is_false_word(trim(opts[1].1))
}

pub fn is_true_word_exec(t: &[char]) -> (r: bool)
    ensures
        r == is_true_word(t@),
{
    let a = chars_of("对");
    let b = chars_of("正确");
    let c = chars_of("√");
    chars_eq(t, &a) || chars_eq(t, &b) || chars_eq(t, &c)
}

pub fn is_false_word_exec(t: &[char]) -> (r: bool)
    ensures
        r == is_false_word(t@),
{
    let a = chars_of("错");
    let b = chars_of("错误");
    let c = chars_of("×");
    chars_eq(t, &a) || chars_eq(t, &b) || chars_eq(t, &c)
}

pub fn is_judgement_options(options: &Vec<ChoiceOption>) -> (r: bool)
    ensures
        r == judgement_options(options@.map_values(|o: ChoiceOption| option_view(o))),
{
    let ghost ov = options@.map_values(|o: ChoiceOption| option_view(o));
    if options.len() != 2 {
        return false;
    }
    let a = chars_of(options[0].text.as_str());
    let b = chars_of(options[1].text.as_str());
    let ta = trim_chars(&a);
    let tb = trim_chars(&b);
    is_true_word_exec(&ta) && is_false_word_exec(&tb)
}

// ------------------------------------------------------------------
// Problem type
// ------------------------------------------------------------------
/// Wording that marks a question as having several correct choices.
pub open spec fn looks_multi(question: Seq<char>) -> bool {
    ||| contains_seq(question, "哪些"@)
    ||| contains_seq(question, "多选"@)
    ||| contains_seq(question, "正确的有"@)
    ||| contains_seq(question, "包括"@)
    ||| (contains_seq(question, "属于"@) && contains_seq(question, "有"@))
    ||| contains_seq(question, "因素有"@)
    ||| contains_seq(question, "方法有"@)
    ||| contains_seq(question, "例子"@)
}

/// The type read off a prompt and an answer: with two options or more, a
/// multi-letter answer or multiple-choice wording gives a multiple-choice
/// problem and a one-letter answer a single-choice problem; all else is text.
pub open spec fn inferred_type(prompt: Seq<char>, answer: Seq<char>) -> ProblemType {
    let key = choice_key(answer);
    let n = options_of(prompt).len();
    if n >= 2 && (key.len() > 1 || looks_multi(question_of(prompt))) {
        ProblemType::MultipleChoice
    } else if n >= 2 && key.len() == 1 {
        ProblemType::SingleChoice
    } else {
        ProblemType::Text
    }
}

/// The type of a problem: the stored one, else the inferred one.
pub open spec fn kind_of(p: Problem) -> ProblemType {
    match p.problem_type {
        Some(t) => t,
        None => inferred_type(p.prompt@, p.answer@),
    }
}

pub fn looks_like_multiple_choice(question: &[char]) -> (r: bool)
    ensures
        r == looks_multi(question@),
{
    contains_str(question, "哪些") || contains_str(question, "多选") || contains_str(
        question,
        "正确的有",
    ) || contains_str(question, "包括") || (contains_str(question, "属于") && contains_str(
        question,
        "有",
    )) || contains_str(question, "因素有") || contains_str(question, "方法有") || contains_str(
        question,
        "例子",
    )
}

pub fn options_of_prompt(prompt: &[char]) -> (r: Vec<ChoiceOption>)
    ensures
        r@.map_values(|o: ChoiceOption| option_view(o)) == options_of(prompt@),
{
    let ls = split_lines(prompt);
    options_of_lines(&ls)
}

pub fn infer_problem_type(prompt: &[char], answer: &[char]) -> (r: ProblemType)
    ensures
        r == inferred_type(prompt@, answer@),
{
    let key = choice_key_chars(answer);
    let opts = options_of_prompt(prompt);
    assert(opts@.len() == options_of(prompt@).len());
    if opts.len() >= 2 {
        if key.len() > 1 {
            return ProblemType::MultipleChoice;
        }
        let q = question_text_of(prompt);
        if looks_like_multiple_choice(&q) {
            ProblemType::MultipleChoice
        } else if key.len() == 1 {
            ProblemType::SingleChoice
        } else {
            ProblemType::Text
        }
    } else {
        ProblemType::Text
    }
}

/// Whether `input` answers a problem of type `kind` with stored answer
/// `answer`: multiple choice compares choice keys, everything else compares
/// the canonical free-text forms.
pub open spec fn answer_matches(kind: ProblemType, answer: Seq<char>, input: Seq<char>) -> bool {
    match kind {
        ProblemType::MultipleChoice => choice_key(input) == choice_key(answer),
        _ => answer_key(input) == answer_key(answer),
    }
}

/// A single-choice or free-text answer is judged on its text with runs of
/// whitespace collapsed and letters lower-cased (`str::to_lowercase`) on
/// both sides: it is right exactly when those forms agree, so an answer
/// that differs from the stored one only in whitespace runs is right, and
/// every stored answer is judged right against itself, whatever the kind.
pub proof fn law_typed_answer_matches_case_and_space_free(
    kind: ProblemType,
    answer: Seq<char>,
    input: Seq<char>,
)
    ensures
        kind != ProblemType::MultipleChoice ==> (answer_matches(kind, answer, input) <==> unicode_lowercase(
            collapse_ws(input),
        ) == unicode_lowercase(collapse_ws(answer))),
        kind != ProblemType::MultipleChoice && collapse_ws(input) == collapse_ws(answer) ==> answer_matches(
            kind,
            answer,
            input,
        ),
        answer_matches(kind, answer, answer),
{
}

/// The problem is waiting for a review of its answer.
pub open spec fn needs_review(s: StateView) -> bool {
    s.review_needed || s.review_status == ProblemReviewStatus::Pending || s.review_status
        == ProblemReviewStatus::Unknown || s.review_status == ProblemReviewStatus::Conflict
}

impl Problem {
    pub fn needs_ai_review(&self) -> (r: bool)
        ensures
            r == needs_review(self.state@),
    {
        self.state.review_needed || self.state.review_status == ProblemReviewStatus::Pending
            || self.state.review_status == ProblemReviewStatus::Unknown
            || self.state.review_status == ProblemReviewStatus::Conflict
    }

    pub fn kind(&self) -> (r: ProblemType)
        ensures
            r == kind_of(*self),
    {
        match self.problem_type {
            Some(t) => t,
            None => {
                let p = chars_of(self.prompt.as_str());
                let a = chars_of(self.answer.as_str());
                infer_problem_type(&p, &a)
            },
        }
    }

    pub fn is_correct(&self, input: &str) -> (r: bool)
        ensures
            r == answer_matches(kind_of(*self), self.answer@, input@),
    {
        match self.kind() {
            ProblemType::MultipleChoice => {
                let a = normalize_choice_answer(input);
                let b = normalize_choice_answer(self.answer.as_str());
                str_eq(a.as_str(), b.as_str())
            },
            _ => {
                let a = normalize_answer(input);
                let b = normalize_answer(self.answer.as_str());
                str_eq(a.as_str(), b.as_str())
            },
        }
    }

    pub fn question_text(&self) -> (r: String)
        ensures
            r@ == question_of(self.prompt@),
    {
        let p = chars_of(self.prompt.as_str());
        let q = question_text_of(&p);
        string_of(&q)
    }

    pub fn options(&self) -> (r: Vec<ChoiceOption>)
        ensures
            r@.map_values(|o: ChoiceOption| option_view(o)) == options_of(self.prompt@),
    {
        let p = chars_of(self.prompt.as_str());
        options_of_prompt(&p)
    }

    pub fn is_judgement(&self) -> (r: bool)
        ensures
            r == judgement_options(options_of(self.prompt@)),
    {
        let opts = self.options();
        is_judgement_options(&opts)
    }
}

} // verus!

verus! {

// ------------------------------------------------------------------
// Tags
// ------------------------------------------------------------------
/// Characters that separate tags written in one string.
pub open spec fn tag_separators() -> Seq<char> {
    seq![',', '，', '、', ';', '；', '\n', '\r']
}

/// The tags of a tag field written as one text: its comma-separated
/// pieces, trimmed, empty ones dropped.
pub open spec fn tag_text_items(pieces: Seq<Seq<char>>) -> Seq<Seq<char>>
    decreases pieces.len(),
{
    if pieces.len() == 0 {
        Seq::empty()
    } else {
        let prev = tag_text_items(pieces.drop_last());
        let v = trim(pieces.last());
        if v.len() > 0 {
            prev.push(v)
        } else {
            prev
        }
    }
}

pub fn split_tag_text(text: &str) -> (r: Vec<String>)
    ensures
        r.deep_view() == tag_text_items(split_set(text@, seq![','])),
{
    let comma: Vec<char> = vec![','];
    assert(comma@ =~= seq![',']);
    let parts = split_set_chars(&chars_of(text), &comma);
    let ghost ps = parts.deep_view();
    let mut out: Vec<String> = Vec::new();
    let mut i: usize = 0;
    while i < parts.len()
        invariant
            i <= parts@.len(),
            ps == parts.deep_view(),
            out.deep_view() == tag_text_items(ps.take(i as int)),
        decreases parts@.len() - i,
    {
        let ghost t = ps.take(i + 1);
        assert(t.drop_last() =~= ps.take(i as int));
        assert(t.last() == parts@[i as int]@);
        let v = trim_chars(&parts[i]);
        if v.len() > 0 {
            let ghost before = out.deep_view();
            out.push(string_of(&v));
            assert(out.deep_view() =~= before.push(v@));
        }
        i = i + 1;
    }
    assert(ps.take(ps.len() as int) =~= ps);
    out
}

/// One tag item with its decorations removed: trimmed, leading colons and
/// leading "知识点" labels stripped, trimmed again.
pub open spec fn clean_tag_item(item: Seq<char>) -> Seq<char> {
    let v1 = trim_start_set(trim_start_set(trim(item), seq!['：']), seq![':']);
    let v2 = strip_prefix_all(v1, "知识点"@);
    trim(trim_start_set(trim_start_set(v2, seq!['：']), seq![':']))
}

/// A cleaned item is kept unless it is empty or a bare label word.
pub open spec fn tag_kept(v: Seq<char>) -> bool {
    v.len() > 0 && v != "知识点"@ && v != "考点"@ && v != "标签"@
}

/// Cleaned, kept items of a list of pieces, in order.
pub open spec fn kept_items(pieces: Seq<Seq<char>>) -> Seq<Seq<char>>
    decreases pieces.len(),
{
    if pieces.len() == 0 {
        Seq::empty()
    } else {
        let prev = kept_items(pieces.drop_last());
        let v = clean_tag_item(pieces.last());
        if tag_kept(v) {
            prev.push(v)
        } else {
            prev
        }
    }
}

/// All kept items of all tags, in order.
pub open spec fn tag_items(tags: Seq<Seq<char>>) -> Seq<Seq<char>>
    decreases tags.len(),
{
    if tags.len() == 0 {
        Seq::empty()
    } else {
        tag_items(tags.drop_last()) + kept_items(split_set(tags.last(), tag_separators()))
    }
}

/// What `clean_tags` returns: every tag split at separators, each item
/// cleaned, empty items and bare labels dropped, repeats dropped.
pub open spec fn cleaned_tags(tags: Seq<Seq<char>>) -> Seq<Seq<char>> {
    dedup_first(tag_items(tags))
}

proof fn lemma_dedup_first_props(s: Seq<Seq<char>>)
    ensures
        forall|i: int, j: int|
            0 <= i < j < dedup_first(s).len() ==> #[trigger] dedup_first(s)[i] != #[trigger] dedup_first(
                s,
            )[j],
        forall|x: Seq<char>| #[trigger] dedup_first(s).contains(x) ==> s.contains(x),
    decreases s.len(),
{
    if s.len() > 0 {
        lemma_dedup_first_props(s.drop_last());
        let d = dedup_first(s.drop_last());
        let r = dedup_first(s);
        assert forall|x: Seq<char>| #[trigger] r.contains(x) implies s.contains(x) by {
            let k = choose|k: int| 0 <= k < r.len() && r[k] == x;
            if k < d.len() {
                assert(r[k] == d[k]);
                assert(d.contains(x));
                let j = choose|j: int| 0 <= j < s.drop_last().len() && s.drop_last()[j] == x;
                assert(s[j] == x);
            } else {
                assert(s[s.len() - 1] == x);
            }
        }
        if !d.contains(s.last()) {
            assert forall|i: int, j: int| 0 <= i < j < r.len() implies #[trigger] r[i] != #[trigger] r[j] by {
                if j == d.len() {
                    assert(r[i] == d[i]);
                    assert(d.contains(d[i]));
                } else {
                    assert(r[i] == d[i] && r[j] == d[j]);
                }
            }
        }
    }
}

proof fn lemma_kept_items_kept(pieces: Seq<Seq<char>>)
    ensures
        forall|x: Seq<char>| #[trigger] kept_items(pieces).contains(x) ==> tag_kept(x) && trim(x) == x,
    decreases pieces.len(),
{
    if pieces.len() > 0 {
        lemma_kept_items_kept(pieces.drop_last());
        let prev = kept_items(pieces.drop_last());
        let r = kept_items(pieces);
        let item = pieces.last();
        let v1 = trim_start_set(trim_start_set(trim(item), seq!['：']), seq![':']);
        let v2 = strip_prefix_all(v1, "知识点"@);
        crate::text::lemma_trim_idempotent(trim_start_set(trim_start_set(v2, seq!['：']), seq![':']));
        assert forall|x: Seq<char>| #[trigger] r.contains(x) implies tag_kept(x) && trim(x) == x by {
            let k = choose|k: int| 0 <= k < r.len() && r[k] == x;
            if k < prev.len() {
                assert(r[k] == prev[k]);
                assert(prev.contains(x));
            }
        }
    }
}

proof fn lemma_tag_items_kept(tags: Seq<Seq<char>>)
    ensures
        forall|x: Seq<char>| #[trigger] tag_items(tags).contains(x) ==> tag_kept(x) && trim(x) == x,
    decreases tags.len(),
{
    if tags.len() > 0 {
        lemma_tag_items_kept(tags.drop_last());
        let a = tag_items(tags.drop_last());
        let b = kept_items(split_set(tags.last(), tag_separators()));
        lemma_kept_items_kept(split_set(tags.last(), tag_separators()));
        assert forall|x: Seq<char>| #[trigger] tag_items(tags).contains(x) implies tag_kept(x) && trim(x) == x by {
            let r = tag_items(tags);
            assert(r == a + b);
            let k = choose|k: int| 0 <= k < r.len() && r[k] == x;
            if k < a.len() {
                assert(r[k] == a[k]);
                assert(a.contains(x));
            } else {
                assert(r[k] == b[k - a.len()]);
                assert(b.contains(x));
            }
        }
    }
}

/// The separator characters tag text is split at.
pub open spec fn is_tag_separator(c: char) -> bool {
    c == ',' || c == '，' || c == '、' || c == ';' || c == '；' || c == '\n' || c == '\r'
}

proof fn lemma_split_set_append_plain(p: Seq<char>, y: Seq<char>, set: Seq<char>)
    requires
        forall|i: int| 0 <= i < y.len() ==> !set.contains(#[trigger] y[i]),
    ensures
        split_set(p + y, set).len() == split_set(p, set).len(),
        split_set(p + y, set) == split_set(p, set).update(
            split_set(p, set).len() - 1,
            split_set(p, set).last() + y,
        ),
    decreases y.len(),
{
    crate::text::lemma_split_set_nonempty(p, set);
    if y.len() == 0 {
        assert(p + y =~= p);
        assert(split_set(p, set).last() + y =~= split_set(p, set).last());
        assert(split_set(p, set).update(split_set(p, set).len() - 1, split_set(p, set).last())
            =~= split_set(p, set));
    } else {
        let y0 = y.drop_last();
        lemma_split_set_append_plain(p, y0, set);
        assert((p + y).drop_last() =~= p + y0);
        assert((p + y).last() == y.last());
        assert(!set.contains(y[y.len() - 1]));
        let r0 = split_set(p + y0, set);
        let sp = split_set(p, set);
        assert(r0.last() == sp.last() + y0);
        assert(split_set(p + y, set) =~= sp.update(sp.len() - 1, sp.last() + y)) by {
            assert(sp.last() + y0 + seq![y.last()] =~= sp.last() + y);
            assert(r0.last().push(y.last()) =~= sp.last() + y);
        }
    }
}

/// Tag text holding two items separated by `、` (or any tag separator)
/// gives the two cleaned items as two tags.
pub proof fn law_tag_text_splits_at_separators(a: Seq<char>, b: Seq<char>, sep: char)
    requires
        sep == ',' || sep == '，' || sep == '、' || sep == ';' || sep == '；' || sep == '\n' || sep == '\r',
        forall|i: int| 0 <= i < a.len() ==> !is_tag_separator(#[trigger] a[i]),
        forall|i: int| 0 <= i < b.len() ==> !is_tag_separator(#[trigger] b[i]),
        tag_kept(clean_tag_item(a)),
        tag_kept(clean_tag_item(b)),
        clean_tag_item(a) != clean_tag_item(b),
    ensures
        cleaned_tags(seq![a + seq![sep] + b]) == seq![clean_tag_item(a), clean_tag_item(b)],
{
    let set = tag_separators();
    assert forall|c: char| set.contains(c) <==> is_tag_separator(c) by {
        if is_tag_separator(c) {
            if c == ',' { assert(set[0] == c); }
            else if c == '，' { assert(set[1] == c); }
            else if c == '、' { assert(set[2] == c); }
            else if c == ';' { assert(set[3] == c); }
            else if c == '；' { assert(set[4] == c); }
            else if c == '\n' { assert(set[5] == c); }
            else { assert(set[6] == c); }
        }
    }
    let e = Seq::<char>::empty();
    lemma_split_set_append_plain(e, a, set);
    assert(e + a =~= a);
    assert(split_set(e, set) == seq![e]);
    assert(split_set(a, set) =~= seq![a]);
    let asep = a + seq![sep];
    assert(asep.drop_last() =~= a);
    assert(set.contains(sep));
    assert(split_set(asep, set) =~= seq![a, e]);
    lemma_split_set_append_plain(asep, b, set);
    let whole = a + seq![sep] + b;
    assert(asep + b =~= whole);
    assert(split_set(whole, set) =~= seq![a, b]);
    let pieces = seq![a, b];
    assert(pieces.drop_last() =~= seq![a]);
    assert(seq![a].drop_last() =~= Seq::<Seq<char>>::empty());
    assert(seq![a].last() == a);
    assert(kept_items(Seq::<Seq<char>>::empty()) =~= Seq::<Seq<char>>::empty());
    assert(kept_items(seq![a]) =~= seq![clean_tag_item(a)]);
    assert(pieces.last() == b);
    assert(kept_items(pieces) =~= seq![clean_tag_item(a), clean_tag_item(b)]);
    let tags = seq![whole];
    assert(tags.drop_last() =~= Seq::<Seq<char>>::empty());
    assert(tags.last() == whole);
    assert(split_set(tags.last(), tag_separators()) == pieces);
    assert(tag_items(Seq::<Seq<char>>::empty()) =~= Seq::<Seq<char>>::empty());
    assert(tag_items(tags) =~= Seq::<Seq<char>>::empty() + kept_items(pieces));
    let items = seq![clean_tag_item(a), clean_tag_item(b)];
    assert(tag_items(tags) =~= items);
    assert(items.drop_last() =~= seq![clean_tag_item(a)]);
    assert(seq![clean_tag_item(a)].drop_last() =~= Seq::<Seq<char>>::empty());
    let one = seq![clean_tag_item(a)];
    assert(one.last() == clean_tag_item(a));
    assert(dedup_first(Seq::<Seq<char>>::empty()) =~= Seq::<Seq<char>>::empty());
    assert(!Seq::<Seq<char>>::empty().contains(clean_tag_item(a)));
    assert(dedup_first(one) =~= Seq::<Seq<char>>::empty().push(clean_tag_item(a)));
    assert(dedup_first(one) =~= one);
    assert(items.last() == clean_tag_item(b));
    assert(!seq![clean_tag_item(a)].contains(clean_tag_item(b)));
    assert(dedup_first(items) =~= items);
}

/// Cleaned tags are distinct and trimmed, none is empty, and none is a
/// bare label word ("知识点", "考点", "标签"); no tags give no tags.
pub proof fn law_cleaned_tags_distinct_and_kept(tags: Seq<Seq<char>>)
    ensures
        forall|i: int, j: int|
            0 <= i < j < cleaned_tags(tags).len() ==> #[trigger] cleaned_tags(tags)[i]
                != #[trigger] cleaned_tags(tags)[j],
        forall|i: int|
            0 <= i < cleaned_tags(tags).len() ==> #[trigger] cleaned_tags(tags)[i].len() > 0
                && trim(cleaned_tags(tags)[i]) == cleaned_tags(tags)[i] && cleaned_tags(tags)[i] != "知识点"@ && cleaned_tags(tags)[i] != "考点"@ && cleaned_tags(
                tags,
            )[i] != "标签"@,
        tags.len() == 0 ==> cleaned_tags(tags).len() == 0,
{
    lemma_dedup_first_props(tag_items(tags));
    lemma_tag_items_kept(tags);
    let r = cleaned_tags(tags);
    assert forall|i: int| 0 <= i < r.len() implies #[trigger] r[i].len() > 0 && trim(r[i]) == r[i] && r[i]
        != "知识点"@ && r[i] != "考点"@ && r[i] != "标签"@ by {
        assert(r.contains(r[i]));
        assert(tag_items(tags).contains(r[i]));
        assert(tag_kept(r[i]));
    }
}

pub fn clean_tag_item_exec(item: &[char]) -> (r: Vec<char>)
    ensures
        r@ == clean_tag_item(item@),
{
    let mut fw: Vec<char> = Vec::new();
    fw.push('：');
    let mut hw: Vec<char> = Vec::new();
    hw.push(':');
    assert(fw@ =~= seq!['：']);
    assert(hw@ =~= seq![':']);
    let t = trim_chars(item);
    let a = trim_start_set_chars(&t, &fw);
    let b = trim_start_set_chars(&a, &hw);
    let c = strip_prefix_all_str(&b, "知识点");
    let d = trim_start_set_chars(&c, &fw);
    let e = trim_start_set_chars(&d, &hw);
    trim_chars(&e)
}

pub fn tag_kept_exec(v: &[char]) -> (r: bool)
    ensures
        r == tag_kept(v@),
{
    v.len() > 0 && !eq_lit(v, "知识点") && !eq_lit(v, "考点") && !eq_lit(v, "标签")
}

/// Appends `x` unless an equal string is already there.
pub fn push_unique(out: &mut Vec<String>, x: &[char])
    ensures
        final(out).deep_view() == if old(out).deep_view().contains(x@) {
            old(out).deep_view()
        } else {
            old(out).deep_view().push(x@)
        },
{
    if !vec_contains(out, x) {
        let s = string_of(x);
        let ghost before = out.deep_view();
        out.push(s);
        assert(out.deep_view() =~= before.push(x@));
    }
}

/// Splits tag text at separators, cleans each item and drops empty items,
/// bare labels and repeats (`["知识点：\n测量尺度", "测量尺度"]` gives
/// `["测量尺度"]`).
pub fn clean_tags(tags: &Vec<String>) -> (r: Vec<String>)
    ensures
        r.deep_view() == cleaned_tags(tags.deep_view()),
{
    let seps = tag_separator_chars();
    let mut out: Vec<String> = Vec::new();
    let mut i: usize = 0;
    assert(tags.deep_view().take(0) =~= Seq::<Seq<char>>::empty());
    while i < tags.len()
        invariant
            i <= tags@.len(),
            seps@ == tag_separators(),
            out.deep_view() == dedup_first(tag_items(tags.deep_view().take(i as int))),
        decreases tags@.len() - i,
    {
        let tag = chars_of(tags[i].as_str());
        let pieces = split_set_chars(&tag, &seps);
        let ghost base = tag_items(tags.deep_view().take(i as int));
        let mut k: usize = 0;
        assert(pieces.deep_view().take(0) =~= Seq::<Seq<char>>::empty());
        assert(base + kept_items(Seq::empty()) =~= base);
        while k < pieces.len()
            invariant
                k <= pieces@.len(),
                out.deep_view() == dedup_first(
                    base + kept_items(pieces.deep_view().take(k as int)),
                ),
            decreases pieces@.len() - k,
        {
            proof {
                lemma_deep_chars(&pieces@[k as int]);
            }
            let v = clean_tag_item_exec(&pieces[k]);
            let ghost pk = pieces.deep_view().take(k as int);
            let ghost pk1 = pieces.deep_view().take(k + 1);
            assert(pk1.drop_last() =~= pk);
            if tag_kept_exec(&v) {
                assert(base + kept_items(pk1) =~= (base + kept_items(pk)).push(v@));
                proof {
                    lemma_dedup_push(base + kept_items(pk), v@);
                }
                push_unique(&mut out, &v);
            } else {
                assert(base + kept_items(pk1) =~= base + kept_items(pk));
            }
            k = k + 1;
        }
        proof {
            assert(pieces.deep_view().take(pieces@.len() as int) =~= pieces.deep_view());
            let t1 = tags.deep_view().take(i + 1);
            assert(t1.drop_last() =~= tags.deep_view().take(i as int));
            assert(t1.last() == tag@);
        }
        i = i + 1;
    }
    assert(tags.deep_view().take(tags@.len() as int) =~= tags.deep_view());
    out
}

pub fn tag_separator_chars() -> (r: Vec<char>)
    ensures
        r@ == tag_separators(),
{
    let mut v: Vec<char> = Vec::new();
    v.push(',');
    v.push('，');
    v.push('、');
    v.push(';');
    v.push('；');
    v.push('\n');
    v.push('\r');
    assert(v@ =~= tag_separators());
    v
}

/// Status words written as tags by the exporter; they are not knowledge
/// points.
pub open spec fn is_system_word(t: Seq<char>) -> bool {
    ||| t == "无标准答案"@
    ||| t == "按得分推断"@
    ||| t == "作答正确"@
    ||| t == "作答错误"@
    ||| t == "待复核"@
    ||| t == "多选需复核"@
    ||| t == "填空需复核"@
    ||| t == "AI复核完成"@
    ||| t == "AI复核无法判断"@
    ||| t == "AI复核冲突"@
    ||| t == "AI导入"@
    ||| t == "未批改"@
    ||| t == "AI批改"@
    ||| t == "整卷得分反推"@
    ||| t == "结果页显示规则反推"@
}

/// A tag that records review status rather than a knowledge point.
pub open spec fn system_tag(tag: Seq<char>) -> bool {
    let t = trim(tag);
    is_system_word(t) || starts_with(t, "本题得分:"@) || starts_with(t, "AI复核结论:"@)
}

fn is_system_word_exec(t: &[char]) -> (r: bool)
    ensures
        r == is_system_word(t@),
{
    eq_lit(t, "无标准答案") || eq_lit(t, "按得分推断") || eq_lit(t, "作答正确") || eq_lit(
        t,
        "作答错误",
    ) || eq_lit(t, "待复核") || eq_lit(t, "多选需复核") || eq_lit(t, "填空需复核") || eq_lit(
        t,
        "AI复核完成",
    ) || eq_lit(t, "AI复核无法判断") || eq_lit(t, "AI复核冲突") || eq_lit(t, "AI导入")
        || eq_lit(t, "未批改") || eq_lit(t, "AI批改") || eq_lit(t, "整卷得分反推") || eq_lit(
        t,
        "结果页显示规则反推",
    )
}

pub fn is_system_tag_chars(tag: &[char]) -> (r: bool)
    ensures
        r == system_tag(tag@),
{
    let t = trim_chars(tag);
    is_system_word_exec(&t) || starts_with_str(&t, "本题得分:") || starts_with_str(&t, "AI复核结论:")
}

pub fn is_system_tag(tag: &str) -> (r: bool)
    ensures
        r == system_tag(tag@),
{
    let v = chars_of(tag);
    is_system_tag_chars(&v)
}

/// The visible form of a tag: none for blank and system tags, the point
/// for an "AI知识点:" tag (none if that is blank), else the trimmed tag.
pub open spec fn visible_form(tag: Seq<char>) -> Option<Seq<char>> {
    let v = trim(tag);
    if v.len() == 0 || system_tag(v) {
        None
    } else if starts_with(v, "AI知识点:"@) {
        let point = trim(v.skip("AI知识点:"@.len() as int));
        if point.len() == 0 {
            None
        } else {
            Some(point)
        }
    } else {
        Some(v)
    }
}

pub open spec fn visible_items(tags: Seq<Seq<char>>) -> Seq<Seq<char>>
    decreases tags.len(),
{
    if tags.len() == 0 {
        Seq::empty()
    } else {
        let prev = visible_items(tags.drop_last());
        match visible_form(tags.last()) {
            Some(v) => prev.push(v),
            None => prev,
        }
    }
}

pub fn visible_form_exec(tag: &[char]) -> (r: Option<Vec<char>>)
    ensures
        match r {
            Some(v) => visible_form(tag@) == Some(v@),
            None => visible_form(tag@) is None,
        },
{
    let v = trim_chars(tag);
    if v.len() == 0 || is_system_tag_chars(&v) {
        return None;
    }
    let prefix = chars_of("AI知识点:");
    if starts_with_chars(&v, &prefix) {
        let rest = slice_vec(&v, prefix.len(), v.len());
        assert(rest@ =~= v@.skip("AI知识点:"@.len() as int));
        let point = trim_chars(&rest);
        if point.len() == 0 {
            None
        } else {
            Some(point)
        }
    } else {
        Some(v)
    }
}

/// Tags as shown to the user: system tags hidden, "AI知识点:" prefixes
/// removed, repeats dropped.
pub fn visible_tags(tags: &Vec<String>) -> (r: Vec<String>)
    ensures
        r.deep_view() == dedup_first(visible_items(tags.deep_view())),
{
    let mut out: Vec<String> = Vec::new();
    let mut i: usize = 0;
    assert(tags.deep_view().take(0) =~= Seq::<Seq<char>>::empty());
    while i < tags.len()
        invariant
            i <= tags@.len(),
            out.deep_view() == dedup_first(visible_items(tags.deep_view().take(i as int))),
        decreases tags@.len() - i,
    {
        let tag = chars_of(tags[i].as_str());
        let ghost t1 = tags.deep_view().take(i + 1);
        assert(t1.drop_last() =~= tags.deep_view().take(i as int));
        assert(t1.last() == tag@);
        match visible_form_exec(&tag) {
            Some(v) => {
                proof {
                    lemma_dedup_push(visible_items(tags.deep_view().take(i as int)), v@);
                }
                push_unique(&mut out, &v);
            },
            None => {},
        }
        i = i + 1;
    }
    assert(tags.deep_view().take(tags@.len() as int) =~= tags.deep_view());
    out
}

pub open spec fn without_system_tags(tags: Seq<Seq<char>>) -> Seq<Seq<char>>
    decreases tags.len(),
{
    if tags.len() == 0 {
        Seq::empty()
    } else {
        let prev = without_system_tags(tags.drop_last());
        if system_tag(tags.last()) {
            prev
        } else {
            prev.push(tags.last())
        }
    }
}

/// The tags left after removing system tags are tags of the list, none a
/// system tag; a list without repeats keeps none.
pub proof fn lemma_without_system_tags(tags: Seq<Seq<char>>)
    ensures
        forall|x: Seq<char>| #[trigger] without_system_tags(tags).contains(x) ==> tags.contains(x)
            && !system_tag(x),
        (forall|i: int, j: int| 0 <= i < j < tags.len() ==> #[trigger] tags[i] != #[trigger] tags[j])
            ==> (forall|i: int, j: int|
            0 <= i < j < without_system_tags(tags).len() ==> #[trigger] without_system_tags(tags)[i]
                != #[trigger] without_system_tags(tags)[j]),
    decreases tags.len(),
{
    if tags.len() > 0 {
        let d = tags.drop_last();
        lemma_without_system_tags(d);
        let prev = without_system_tags(d);
        let r = without_system_tags(tags);
        assert forall|x: Seq<char>| #[trigger] r.contains(x) implies tags.contains(x) && !system_tag(x) by {
            let k = choose|k: int| 0 <= k < r.len() && r[k] == x;
            if k < prev.len() {
                assert(r[k] == prev[k]);
                assert(prev.contains(x));
                let j = choose|j: int| 0 <= j < d.len() && d[j] == x;
                assert(tags[j] == x);
            } else {
                assert(tags[tags.len() - 1] == x);
            }
        }
        if forall|i: int, j: int| 0 <= i < j < tags.len() ==> #[trigger] tags[i] != #[trigger] tags[j] {
            assert forall|i: int, j: int| 0 <= i < j < d.len() implies #[trigger] d[i] != #[trigger] d[j] by {
                assert(d[i] == tags[i] && d[j] == tags[j]);
            }
            if !system_tag(tags.last()) {
                assert forall|i: int, j: int| 0 <= i < j < r.len() implies #[trigger] r[i] != #[trigger] r[j] by {
                    if j == prev.len() {
                        assert(r[i] == prev[i]);
                        assert(prev.contains(prev[i]));
                        let k = choose|k: int| 0 <= k < d.len() && d[k] == prev[i];
                        assert(tags[k] == d[k]);
                        assert(r[j] == tags[tags.len() - 1]);
                    } else {
                        assert(r[i] == prev[i] && r[j] == prev[j]);
                    }
                }
            }
        }
    }
}

/// Removes system tags, keeping the order of the others.
pub fn prune_system_tags(tags: &Vec<String>) -> (r: Vec<String>)
    ensures
        r.deep_view() == without_system_tags(tags.deep_view()),
{
    let mut out: Vec<String> = Vec::new();
    let mut i: usize = 0;
    assert(tags.deep_view().take(0) =~= Seq::<Seq<char>>::empty());
    while i < tags.len()
        invariant
            i <= tags@.len(),
            out.deep_view() == without_system_tags(tags.deep_view().take(i as int)),
        decreases tags@.len() - i,
    {
        let ghost t1 = tags.deep_view().take(i + 1);
        assert(t1.drop_last() =~= tags.deep_view().take(i as int));
        if !is_system_tag(tags[i].as_str()) {
            let ghost before = out.deep_view();
            let s = copy_string(&tags[i]);
            out.push(s);
            assert(out.deep_view() =~= before.push(tags.deep_view()[i as int]));
        }
        i = i + 1;
    }
    assert(tags.deep_view().take(tags@.len() as int) =~= tags.deep_view());
    out
}

/// A copy of a string.
pub fn copy_string(s: &String) -> (r: String)
    ensures
        r@ == s@,
        r == *s,
{
    s.clone()
}

} // verus!

verus! {

// ------------------------------------------------------------------
// Plain view of a whole problem, and copies
// ------------------------------------------------------------------
pub struct ImageV {
    pub filename: Seq<char>,
    pub mime_type: Seq<char>,
    pub base64: Seq<char>,
    pub alt_text: Seq<char>,
    pub source_url: Seq<char>,
}

impl View for ProblemImage {
    type V = ImageV;

    open spec fn view(&self) -> ImageV {
        ImageV {
            filename: self.filename@,
            mime_type: self.mime_type@,
            base64: self.base64@,
            alt_text: self.alt_text@,
            source_url: self.source_url@,
        }
    }
}

pub open spec fn opt_view(o: Option<String>) -> Option<Seq<char>> {
    match o {
        Some(s) => Some(s@),
        None => None,
    }
}

pub struct ProblemV {
    pub id: Seq<char>,
    pub prompt: Seq<char>,
    pub answer: Seq<char>,
    pub explanation: Seq<char>,
    pub tags: Seq<Seq<char>>,
    pub problem_type: Option<ProblemType>,
    pub deck_name: Option<Seq<char>>,
    pub deck_info: Option<Seq<char>>,
    pub images: Seq<ImageV>,
    pub state: StateView,
}

impl View for Problem {
    type V = ProblemV;

    open spec fn view(&self) -> ProblemV {
        ProblemV {
            id: self.id@,
            prompt: self.prompt@,
            answer: self.answer@,
            explanation: self.explanation@,
            tags: self.tags.deep_view(),
            problem_type: self.problem_type,
            deck_name: opt_view(self.deck_name),
            deck_info: opt_view(self.deck_info),
            images: self.images@.map_values(|i: ProblemImage| i@),
            state: self.state@,
        }
    }
}

pub fn copy_opt_string(o: &Option<String>) -> (r: Option<String>)
    ensures
        opt_view(r) == opt_view(*o),
        r == *o,
{
    match o {
        Some(s) => Some(s.clone()),
        None => None,
    }
}

pub fn copy_strings(v: &Vec<String>) -> (r: Vec<String>)
    ensures
        r.deep_view() == v.deep_view(),
{
    let mut out: Vec<String> = Vec::new();
    let mut i: usize = 0;
    while i < v.len()
        invariant
            i <= v@.len(),
            out.deep_view() == v.deep_view().take(i as int),
        decreases v@.len() - i,
    {
        let ghost before = out.deep_view();
        let c = v[i].clone();
        assert(c@ == v.deep_view()[i as int]);
        out.push(c);
        assert(out.deep_view() =~= before.push(c@));
        assert(out.deep_view() =~= v.deep_view().take(i + 1));
        i = i + 1;
    }
    assert(v.deep_view().take(v@.len() as int) =~= v.deep_view());
    out
}

pub fn copy_image(i: &ProblemImage) -> (r: ProblemImage)
    ensures
        r@ == i@,
{
    ProblemImage {
        filename: i.filename.clone(),
        mime_type: i.mime_type.clone(),
        base64: i.base64.clone(),
        alt_text: i.alt_text.clone(),
        source_url: i.source_url.clone(),
    }
}

pub fn copy_images(v: &Vec<ProblemImage>) -> (r: Vec<ProblemImage>)
    ensures
        r@.map_values(|i: ProblemImage| i@) == v@.map_values(|i: ProblemImage| i@),
{
    let mut out: Vec<ProblemImage> = Vec::new();
    let mut k: usize = 0;
    while k < v.len()
        invariant
            k <= v@.len(),
            out@.map_values(|i: ProblemImage| i@) == v@.take(k as int).map_values(
                |i: ProblemImage| i@,
            ),
        decreases v@.len() - k,
    {
        let c = copy_image(&v[k]);
        let ghost before = out@;
        out.push(c);
        assert(out@ == before.push(c));
        assert(v@.take(k + 1) =~= v@.take(k as int).push(v@[k as int]));
        assert(out@.map_values(|i: ProblemImage| i@) =~= before.map_values(|i: ProblemImage| i@).push(c@));
        assert(v@.take(k + 1).map_values(|i: ProblemImage| i@) =~= v@.take(k as int).map_values(|i: ProblemImage| i@).push(v@[k as int]@));
        assert(out@.map_values(|i: ProblemImage| i@) =~= v@.take(k + 1).map_values(
            |i: ProblemImage| i@,
        ));
        k = k + 1;
    }
    assert(v@.take(v@.len() as int) =~= v@);
    out
}

pub fn copy_state(s: &ProblemState) -> (r: ProblemState)
    ensures
        r@ == s@,
{
    ProblemState {
        user_answer: s.user_answer.clone(),
        answer_source: s.answer_source,
        review_needed: s.review_needed,
        review_status: s.review_status,
        review_verdict: s.review_verdict,
        review_confidence: s.review_confidence,
        score_display: s.score_display.clone(),
    }
}

/// A copy of a problem (the same view).
pub fn copy_problem(p: &Problem) -> (r: Problem)
    ensures
        r@ == p@,
{
    Problem {
        id: p.id.clone(),
        prompt: p.prompt.clone(),
        answer: p.answer.clone(),
        explanation: p.explanation.clone(),
        tags: copy_strings(&p.tags),
        problem_type: p.problem_type,
        deck_name: copy_opt_string(&p.deck_name),
        deck_info: copy_opt_string(&p.deck_info),
        images: copy_images(&p.images),
        state: copy_state(&p.state),
    }
}

} // verus!
