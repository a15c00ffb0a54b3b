//! The analysis dialog: its chat messages, how a running analysis or a
//! follow-up question changes them as results arrive, the progress line,
//! and the quality summary of an import.
use vstd::prelude::*;
use crate::ai::{AnalysisStreamEvent, AnalysisToolResult};
use crate::problem::{copy_string, kind_of, needs_review, Problem, ProblemAnswerSource, ProblemType};
use crate::text::{chars_of, decimal, decimal_chars, extend_chars, extend_str, join, string_of, trim, trim_chars};
use crate::normalize::lit_string;

verus! {

#[derive(Debug, Clone, Copy, PartialEq, Eq, Structural)]
pub enum ChatRole {
    User,
    Assistant,
    Tool,
}

/// What an analysis is about: a problem set, or the user's answer records.
#[derive(Debug, Clone, Copy, PartialEq, Eq, Structural)]
pub enum AnalysisKind {
    ProblemSet,
    LearningGap,
}

/// One message of the dialog.
#[derive(Debug, Clone)]
pub struct ChatMessage {
    pub role: ChatRole,
    pub title: String,
    pub content: String,
}

pub struct MessageView {
    pub role: ChatRole,
    pub title: Seq<char>,
    pub content: Seq<char>,
}

impl View for ChatMessage {
    type V = MessageView;

    open spec fn view(&self) -> MessageView {
        MessageView { role: self.role, title: self.title@, content: self.content@ }
    }
}

pub open spec fn msg_views(ms: Seq<ChatMessage>) -> Seq<MessageView> {
    ms.map_values(|m: ChatMessage| m@)
}

/// An analysis dialog with its messages, the text being typed, the latest
/// result, and whether an answer is awaited.
#[derive(Debug, Clone)]
pub struct AnalysisDialogState {
    pub title: String,
    pub kind: AnalysisKind,
    pub messages: Vec<ChatMessage>,
    pub input: String,
    pub latest_result: String,
    pub is_loading: bool,
    pub open: bool,
}

/// Placeholders shown in the assistant's message while it is awaited.
pub open spec fn analyzing_placeholder() -> Seq<char> {
    "正在分析，请稍候..."@
}

pub open spec fn reviewing_placeholder() -> Seq<char> {
    "AI 总监正在审查，请稍候..."@
}

pub open spec fn replying_placeholder() -> Seq<char> {
    "正在回复，请稍候..."@
}

/// The first message with role `role`.
pub open spec fn first_role(ms: Seq<MessageView>, role: ChatRole) -> Option<int>
    decreases ms.len(),
{
    if ms.len() == 0 {
        None
    } else {
        match first_role(ms.drop_last(), role) {
            Some(i) => Some(i),
            None => if ms.last().role == role {
                Some(ms.len() - 1)
            } else {
                None
            },
        }
    }
}

/// The last message with role `role` (and, when `placeholder` is given,
/// with that content).
pub open spec fn last_role(ms: Seq<MessageView>, role: ChatRole, placeholder: Option<Seq<char>>) -> Option<int>
    decreases ms.len(),
{
    if ms.len() == 0 {
        None
    } else if ms.last().role == role && (placeholder is None || placeholder == Some(ms.last().content)) {
        Some(ms.len() - 1)
    } else {
        last_role(ms.drop_last(), role, placeholder)
    }
}

proof fn lemma_first_role_range(ms: Seq<MessageView>, role: ChatRole)
    ensures
        first_role(ms, role) matches Some(i) ==> 0 <= i < ms.len() && ms[i].role == role,
    decreases ms.len(),
{
    if ms.len() > 0 {
        lemma_first_role_range(ms.drop_last(), role);
    }
}

proof fn lemma_last_role_range(ms: Seq<MessageView>, role: ChatRole, placeholder: Option<Seq<char>>)
    ensures
        last_role(ms, role, placeholder) matches Some(i) ==> 0 <= i < ms.len() && ms[i].role == role,
    decreases ms.len(),
{
    if ms.len() > 0 {
        lemma_last_role_range(ms.drop_last(), role, placeholder);
    }
}

/// The message at `i` with another title and content.
pub open spec fn retitled(ms: Seq<MessageView>, i: int, title: Seq<char>, content: Seq<char>) -> Seq<MessageView> {
    ms.update(i, MessageView { role: ms[i].role, title, content })
}

/// The message at `i` with another content.
pub open spec fn recontented(ms: Seq<MessageView>, i: int, content: Seq<char>) -> Seq<MessageView> {
    ms.update(i, MessageView { role: ms[i].role, title: ms[i].title, content })
}

fn find_first_role(ms: &Vec<ChatMessage>, role: ChatRole) -> (r: Option<usize>)
    ensures
        match r {
            Some(i) => first_role(msg_views(ms@), role) == Some(i as int),
            None => first_role(msg_views(ms@), role) is None,
        },
{
    let ghost v = msg_views(ms@);
    let mut i: usize = 0;
    assert(v.take(0) =~= Seq::<MessageView>::empty());
    while i < ms.len()
        invariant
            i <= ms@.len(),
            v == msg_views(ms@),
            first_role(v.take(i as int), role) is None,
        decreases ms@.len() - i,
    {
        let ghost t = v.take(i + 1);
        assert(t.drop_last() =~= v.take(i as int));
        if ms[i].role == role {
            proof {
                lemma_first_prefix(v, role, i + 1);
            }
            return Some(i);
        }
        i = i + 1;
    }
    assert(v.take(ms@.len() as int) =~= v);
    None
}

proof fn lemma_first_prefix(v: Seq<MessageView>, role: ChatRole, n: int)
    requires
        0 < n <= v.len(),
        first_role(v.take(n - 1), role) is None,
        v[n - 1].role == role,
    ensures
        first_role(v, role) == Some(n - 1),
    decreases v.len(),
{
    if v.len() == n {
        assert(v.drop_last() =~= v.take(n - 1));
    } else {
        assert(v.drop_last().take(n - 1) =~= v.take(n - 1));
        lemma_first_prefix(v.drop_last(), role, n);
    }
}

fn find_last_role(ms: &Vec<ChatMessage>, role: ChatRole, placeholder: Option<&str>) -> (r: Option<usize>)
    ensures
        match r {
            Some(i) => last_role(msg_views(ms@), role, opt_seq(placeholder)) == Some(i as int),
            None => last_role(msg_views(ms@), role, opt_seq(placeholder)) is None,
        },
{
    let ghost v = msg_views(ms@);
    let mut n: usize = ms.len();
    assert(v.take(n as int) =~= v);
    while n > 0
        invariant
            n <= ms@.len(),
            v == msg_views(ms@),
            last_role(v, role, opt_seq(placeholder)) == last_role(v.take(n as int), role, opt_seq(placeholder)),
        decreases n,
    {
        let i = n - 1;
        let ghost t = v.take(n as int);
        assert(t.drop_last() =~= v.take(i as int));
        assert(t.last() == ms@[i as int]@);
        let matches_content = match placeholder {
            Some(p) => crate::text::str_eq(ms[i].content.as_str(), p),
            None => true,
        };
        if ms[i].role == role && matches_content {
            return Some(i);
        }
        n = i;
    }
    None
}

pub open spec fn opt_seq(o: Option<&str>) -> Option<Seq<char>> {
    match o {
        Some(s) => Some(s@),
        None => None,
    }
}

fn message(role: ChatRole, title: &str, content: String) -> (r: ChatMessage)
    ensures
        r@ == (MessageView { role, title: title@, content: content@ }),
{
    ChatMessage { role, title: lit_string(title), content }
}

fn set_message(ms: &mut Vec<ChatMessage>, i: usize, title: String, content: String)
    requires
        i < old(ms)@.len(),
    ensures
        msg_views(final(ms)@) == retitled(msg_views(old(ms)@), i as int, title@, content@),
{
    let role = ms[i].role;
    let ghost before = msg_views(ms@);
    ms.set(i, ChatMessage { role, title, content });
    assert(msg_views(ms@) =~= retitled(before, i as int, title@, content@));
}

pub open spec fn tool_title(tool_name: Seq<char>) -> Seq<char> {
    "Tool Call · "@ + tool_name
}

pub open spec fn kind_request(kind: AnalysisKind) -> Seq<char> {
    match kind {
        AnalysisKind::ProblemSet => "请作为 AI 总监审查这组题目的采集质量、待复核项和学习价值。"@,
        AnalysisKind::LearningGap => "请根据答题记录分析需要提升的内容。"@,
    }
}

impl AnalysisDialogState {
    /// A dialog waiting for its first answer: the user's request, the tool
    /// call made for it, and the assistant's placeholder.
    pub fn loading(title: String, kind: AnalysisKind, tool_name: &str, arguments_json: String) -> (r: Self)
        ensures
            r.title@ == title@,
            r.kind == kind,
            msg_views(r.messages@) == seq![
                MessageView { role: ChatRole::User, title: "用户"@, content: kind_request(kind) },
                MessageView { role: ChatRole::Tool, title: tool_title(tool_name@), content: arguments_json@ },
                MessageView { role: ChatRole::Assistant, title: "助手"@, content: reviewing_placeholder() },
            ],
            r.input@ == Seq::<char>::empty(),
            r.latest_result@ == Seq::<char>::empty(),
            r.is_loading,
            r.open,
    {
        let request = match kind {
            AnalysisKind::ProblemSet => lit_string("请作为 AI 总监审查这组题目的采集质量、待复核项和学习价值。"),
            AnalysisKind::LearningGap => lit_string("请根据答题记录分析需要提升的内容。"),
        };
        let mut tt = chars_of("Tool Call · ");
        extend_str(&mut tt, tool_name);
        let mut messages: Vec<ChatMessage> = Vec::new();
        messages.push(message(ChatRole::User, "用户", request));
        messages.push(ChatMessage { role: ChatRole::Tool, title: string_of(&tt), content: arguments_json });
        messages.push(message(ChatRole::Assistant, "助手", lit_string("AI 总监正在审查，请稍候...")));
        let r = AnalysisDialogState {
            title,
            kind,
            messages,
            input: String::new(),
            latest_result: String::new(),
            is_loading: true,
            open: true,
        };
        assert(msg_views(r.messages@) =~= seq![
            MessageView { role: ChatRole::User, title: "用户"@, content: kind_request(kind) },
            MessageView { role: ChatRole::Tool, title: tool_title(tool_name@), content: arguments_json@ },
            MessageView { role: ChatRole::Assistant, title: "助手"@, content: reviewing_placeholder() },
        ]);
        r
    }

    /// A finished (not streamed) analysis: the tool message shows the call,
    /// the last assistant message and the latest result hold the report,
    /// and nothing is awaited any more.
    pub fn apply_tool_result(&mut self, result: &AnalysisToolResult)
        ensures
            final(self).title == old(self).title,
            final(self).kind == old(self).kind,
            final(self).input == old(self).input,
            final(self).open == old(self).open,
            !final(self).is_loading,
            final(self).latest_result@ == result.result@,
            msg_views(final(self).messages@) == {
                let m0 = msg_views(old(self).messages@);
                let m1 = match first_role(m0, ChatRole::Tool) {
                    Some(i) => retitled(m0, i, tool_title(result.tool_name@), result.arguments_json@),
                    None => m0,
                };
                match last_role(m1, ChatRole::Assistant, None) {
                    Some(j) => recontented(m1, j, result.result@),
                    None => m1,
                }
            },
    {
        proof {
            lemma_first_role_range(msg_views(self.messages@), ChatRole::Tool);
        }
        match find_first_role(&self.messages, ChatRole::Tool) {
            Some(i) => {
                let mut tt = chars_of("Tool Call · ");
                extend_str(&mut tt, result.tool_name.as_str());
                set_message(&mut self.messages, i, string_of(&tt), copy_string(&result.arguments_json));
            },
            None => {},
        }
        proof {
            lemma_last_role_range(msg_views(self.messages@), ChatRole::Assistant, None);
        }
        match find_last_role(&self.messages, ChatRole::Assistant, None) {
            Some(j) => {
                let t = copy_string(&self.messages[j].title);
                set_message(&mut self.messages, j, t, copy_string(&result.result));
            },
            None => {},
        }
        self.latest_result = copy_string(&result.result);
        self.is_loading = false;
    }
}

impl AnalysisDialogState {
    /// Sends the typed follow-up question: unless an answer is awaited or
    /// the input is blank, the question (trimmed) and a reply placeholder
    /// join the messages, the input is cleared, and the dialog's title,
    /// latest result and the question are given for the request.
    pub fn begin_follow_up(&mut self) -> (r: Option<(String, String, String)>)
        ensures
            old(self).is_loading || trim(old(self).input@).len() == 0 ==> r is None && final(self).title == old(self).title
                && final(self).kind == old(self).kind && final(self).messages@ == old(self).messages@
                && final(self).input == old(self).input && final(self).latest_result == old(self).latest_result
                && final(self).is_loading == old(self).is_loading && final(self).open == old(self).open,
            !old(self).is_loading && trim(old(self).input@).len() > 0 ==> {
                &&& r matches Some((t, l, q)) && t@ == old(self).title@ && l@ == old(self).latest_result@
                    && q@ == trim(old(self).input@)
                &&& msg_views(final(self).messages@) == msg_views(old(self).messages@).push(
                    MessageView { role: ChatRole::User, title: "用户"@, content: trim(old(self).input@) },
                ).push(MessageView { role: ChatRole::Assistant, title: "助手"@, content: replying_placeholder() })
                &&& final(self).input@ == Seq::<char>::empty()
                &&& final(self).is_loading
                &&& final(self).title == old(self).title
                &&& final(self).kind == old(self).kind
                &&& final(self).latest_result == old(self).latest_result
                &&& final(self).open == old(self).open
            },
    {
        if self.is_loading {
            return None;
        }
        let question = trim_chars(&chars_of(self.input.as_str()));
        if question.len() == 0 {
            return None;
        }
        let ghost before = msg_views(self.messages@);
        self.input = String::new();
        self.messages.push(message(ChatRole::User, "用户", string_of(&question)));
        self.messages.push(message(ChatRole::Assistant, "助手", lit_string("正在回复，请稍候...")));
        assert(msg_views(self.messages@) =~= before.push(
            MessageView { role: ChatRole::User, title: "用户"@, content: question@ },
        ).push(MessageView { role: ChatRole::Assistant, title: "助手"@, content: replying_placeholder() }));
        self.is_loading = true;
        Some((copy_string(&self.title), copy_string(&self.latest_result), string_of(&question)))
    }

    /// The reply to a follow-up question replaces the last reply
    /// placeholder, and nothing is awaited any more.
    pub fn apply_follow_up_reply(&mut self, reply: String)
        ensures
            final(self).title == old(self).title,
            final(self).kind == old(self).kind,
            final(self).input == old(self).input,
            final(self).latest_result == old(self).latest_result,
            final(self).open == old(self).open,
            !final(self).is_loading,
            msg_views(final(self).messages@) == match last_role(
                msg_views(old(self).messages@),
                ChatRole::Assistant,
                Some(replying_placeholder()),
            ) {
                Some(j) => recontented(msg_views(old(self).messages@), j, reply@),
                None => msg_views(old(self).messages@),
            },
    {
        proof {
            lemma_last_role_range(msg_views(self.messages@), ChatRole::Assistant, Some(replying_placeholder()));
        }
        match find_last_role(&self.messages, ChatRole::Assistant, Some("正在回复，请稍候...")) {
            Some(j) => {
                let t = copy_string(&self.messages[j].title);
                set_message(&mut self.messages, j, t, reply);
            },
            None => {},
        }
        self.is_loading = false;
    }
}

// ------------------------------------------------------------------
// Progress
// ------------------------------------------------------------------
/// How far a long analysis has come.
#[derive(Debug, Clone, PartialEq, Eq)]
pub struct AnalysisProgressState {
    pub label: String,
    pub current: usize,
    pub total: usize,
}

pub open spec fn progress_text(label: Seq<char>, current: nat, total: nat) -> Seq<char> {
    if total == 0 {
        label
    } else {
        label + " · "@ + decimal(if current < total { current } else { total }) + "/"@ + decimal(total)
    }
}

impl AnalysisProgressState {
    pub fn new(label: &str, current: usize, total: usize) -> (r: Self)
        ensures
            r.label@ == label@,
            r.current == current,
            r.total == total,
    {
        AnalysisProgressState { label: lit_string(label), current, total }
    }

    /// The progress line: the label, then `current/total` (current capped
    /// at total) when a total is known.
    pub fn text(&self) -> (r: String)
        ensures
            r@ == progress_text(self.label@, self.current as nat, self.total as nat),
    {
        if self.total == 0 {
            return copy_string(&self.label);
        }
        let shown: usize = if self.current < self.total { self.current } else { self.total };
        let mut out = chars_of(self.label.as_str());
        extend_str(&mut out, " · ");
        extend_chars(&mut out, &decimal_chars(shown as u64));
        extend_str(&mut out, "/");
        extend_chars(&mut out, &decimal_chars(self.total as u64));
        string_of(&out)
    }
}

// ------------------------------------------------------------------
// A running analysis
// ------------------------------------------------------------------
/// What the interface shows of a running analysis: the text received so
/// far, the status line, the progress, and the open dialog.
#[derive(Debug, Clone)]
pub struct AnalysisSession {
    pub analysis: String,
    pub status: String,
    pub progress: Option<AnalysisProgressState>,
    pub dialog: Option<AnalysisDialogState>,
}

pub open spec fn progress_view(p: Option<AnalysisProgressState>) -> Option<(Seq<char>, usize, usize)> {
    match p {
        Some(s) => Some((s.label@, s.current, s.total)),
        None => None,
    }
}

pub open spec fn dialog_messages(d: Option<AnalysisDialogState>) -> Option<Seq<MessageView>> {
    match d {
        Some(x) => Some(msg_views(x.messages@)),
        None => None,
    }
}

/// The status line and analysis text shown while the AI director reviews
/// the problem set titled `title`.
pub fn director_review_started(title: &str) -> (r: (String, String))
    ensures
        r.0@ == "AI 总监正在审查"@ + title@ + "..."@,
        r.1@ == "AI 总监正在审查题库质量，请稍候..."@,
{
    let mut status = chars_of("AI 总监正在审查");
    extend_str(&mut status, title);
    extend_str(&mut status, "...");
    (string_of(&status), lit_string("AI 总监正在审查题库质量，请稍候..."))
}

pub open spec fn director_tool() -> Seq<char> {
    "shuaforge.ai_director_review_problem_set"@
}

/// The assistant's message after a piece of streamed text: a placeholder
/// is dropped before the text is appended.
pub open spec fn streamed_content(content: Seq<char>, delta: Seq<char>) -> Seq<char> {
    if content == analyzing_placeholder() || content == reviewing_placeholder() {
        delta
    } else {
        content + delta
    }
}

/// The dialog's messages after a streamed event.
pub open spec fn messages_after(ms: Seq<MessageView>, event: AnalysisStreamEvent) -> Seq<MessageView> {
    match event {
        AnalysisStreamEvent::ToolCall { arguments_json } => match first_role(ms, ChatRole::Tool) {
            Some(i) => retitled(ms, i, tool_title(director_tool()), arguments_json@),
            None => ms,
        },
        AnalysisStreamEvent::TextDelta(d) => match last_role(ms, ChatRole::Assistant, None) {
            Some(j) => recontented(ms, j, streamed_content(ms[j].content, d@)),
            None => ms,
        },
        _ => ms,
    }
}

impl AnalysisSession {
    /// Applies one event of a streamed analysis.  A tool call shows in the
    /// tool message; text is appended to the analysis and to the
    /// assistant's message; the end closes the wait; a failure is reported
    /// while the local fallback is produced.  Gives whether the stream has
    /// ended.
    pub fn apply_stream_event(&mut self, event: AnalysisStreamEvent) -> (ended: bool)
        ensures
            ended == (event is Finished),
            dialog_messages(final(self).dialog) == match old(self).dialog {
                Some(d) => Some(messages_after(msg_views(d.messages@), event)),
                None => None,
            },
            match event {
                AnalysisStreamEvent::ToolCall { .. } => {
                    &&& final(self).analysis == old(self).analysis
                    &&& final(self).status == old(self).status
                    &&& progress_view(final(self).progress) == Some(("AI 总监正在生成审查报告"@, 0usize, 0usize))
                },
                AnalysisStreamEvent::TextDelta(d) => {
                    &&& final(self).analysis@ == old(self).analysis@ + d@
                    &&& final(self).status == old(self).status
                    &&& progress_view(final(self).progress) == Some(("AI 总监正在生成审查报告"@, 0usize, 0usize))
                    &&& (final(self).dialog matches Some(x) ==> x.latest_result@ == final(self).analysis@)
                },
                AnalysisStreamEvent::Finished => {
                    &&& final(self).analysis == old(self).analysis
                    &&& final(self).status@ == "AI 总监审查完成。"@
                    &&& final(self).progress is None
                    &&& (final(self).dialog matches Some(x) ==> !x.is_loading)
                },
                AnalysisStreamEvent::Failed(reason) => {
                    &&& final(self).analysis == old(self).analysis
                    &&& final(self).status@ == "AI 分析失败，已尝试回退："@ + reason@
                    &&& progress_view(final(self).progress) == Some(("正在生成本地回退分析"@, 0usize, 0usize))
                },
            },
    {
        match event {
            AnalysisStreamEvent::ToolCall { arguments_json } => {
                self.progress = Some(AnalysisProgressState::new("AI 总监正在生成审查报告", 0, 0));
                if self.dialog.is_some() {
                    let mut d = self.dialog.take().unwrap();
                    let ghost before = msg_views(d.messages@);
                    proof {
                        lemma_first_role_range(before, ChatRole::Tool);
                    }
                    match find_first_role(&d.messages, ChatRole::Tool) {
                        Some(i) => {
                            let mut tt = chars_of("Tool Call · ");
                            extend_str(&mut tt, "shuaforge.ai_director_review_problem_set");
                            set_message(&mut d.messages, i, string_of(&tt), arguments_json);
                        },
                        None => {},
                    }
                    self.dialog = Some(d);
                }
                false
            },
            AnalysisStreamEvent::TextDelta(delta) => {
                self.progress = Some(AnalysisProgressState::new("AI 总监正在生成审查报告", 0, 0));
                let mut text = chars_of(self.analysis.as_str());
                extend_str(&mut text, delta.as_str());
                self.analysis = string_of(&text);
                if self.dialog.is_some() {
                    let mut d = self.dialog.take().unwrap();
                    let ghost before = msg_views(d.messages@);
                    proof {
                        lemma_last_role_range(before, ChatRole::Assistant, None);
                    }
                    match find_last_role(&d.messages, ChatRole::Assistant, None) {
                        Some(j) => {
                            let content = d.messages[j].content.as_str();
                            let mut next: Vec<char> = if crate::text::str_eq(content, "正在分析，请稍候...")
                                || crate::text::str_eq(content, "AI 总监正在审查，请稍候...") {
                                Vec::new()
                            } else {
                                chars_of(content)
                            };
                            extend_str(&mut next, delta.as_str());
                            assert(next@ =~= streamed_content(before[j as int].content, delta@));
                            let t = copy_string(&d.messages[j].title);
                            set_message(&mut d.messages, j, t, string_of(&next));
                        },
                        None => {},
                    }
                    d.latest_result = copy_string(&self.analysis);
                    self.dialog = Some(d);
                }
                false
            },
            AnalysisStreamEvent::Finished => {
                self.status = lit_string("AI 总监审查完成。");
                self.progress = None;
                if self.dialog.is_some() {
                    let mut d = self.dialog.take().unwrap();
                    d.is_loading = false;
                    self.dialog = Some(d);
                }
                true
            },
            AnalysisStreamEvent::Failed(reason) => {
                let mut s = chars_of("AI 分析失败，已尝试回退：");
                extend_str(&mut s, reason.as_str());
                self.status = string_of(&s);
                self.progress = Some(AnalysisProgressState::new("正在生成本地回退分析", 0, 0));
                false
            },
        }
    }
}

// ------------------------------------------------------------------
// Import quality
// ------------------------------------------------------------------
/// Counts of an imported bank by answer source, review need and type.
#[derive(Debug, Clone, Copy, PartialEq, Eq, Structural)]
pub struct ImportQualitySummary {
    pub total: usize,
    pub standard: usize,
    pub user_temporary: usize,
    pub score_inferred: usize,
    pub ai_reviewed: usize,
    pub manual_reviewed: usize,
    pub review_needed: usize,
    pub single_choice: usize,
    pub multiple_choice: usize,
    pub text: usize,
}

/// How many problems of `ps` satisfy `f`.
pub open spec fn count_of(ps: Seq<Problem>, f: spec_fn(Problem) -> bool) -> nat
    decreases ps.len(),
{
    if ps.len() == 0 {
        0
    } else {
        count_of(ps.drop_last(), f) + if f(ps.last()) { 1nat } else { 0nat }
    }
}

proof fn lemma_count_of_bound(ps: Seq<Problem>, f: spec_fn(Problem) -> bool)
    ensures
        count_of(ps, f) <= ps.len(),
    decreases ps.len(),
{
    if ps.len() > 0 {
        lemma_count_of_bound(ps.drop_last(), f);
    }
}

pub open spec fn source_is(s: ProblemAnswerSource) -> spec_fn(Problem) -> bool {
    |p: Problem| p.state.answer_source == s
}

pub open spec fn kind_is(k: ProblemType) -> spec_fn(Problem) -> bool {
    |p: Problem| kind_of(p) == k
}

pub open spec fn reviewing() -> spec_fn(Problem) -> bool {
    |p: Problem| needs_review(p.state@)
}

/// The summary of `ps`: every count is the number of problems with that
/// property.
pub open spec fn summary_of(ps: Seq<Problem>) -> ImportQualitySummary {
    ImportQualitySummary {
        total: ps.len() as usize,
        standard: count_of(ps, source_is(ProblemAnswerSource::Standard)) as usize,
        user_temporary: count_of(ps, source_is(ProblemAnswerSource::UserTemporary)) as usize,
        score_inferred: count_of(ps, source_is(ProblemAnswerSource::ScoreInferred)) as usize,
        ai_reviewed: count_of(ps, source_is(ProblemAnswerSource::AiReviewed)) as usize,
        manual_reviewed: count_of(ps, source_is(ProblemAnswerSource::ManualReviewed)) as usize,
        review_needed: count_of(ps, reviewing()) as usize,
        single_choice: count_of(ps, kind_is(ProblemType::SingleChoice)) as usize,
        multiple_choice: count_of(ps, kind_is(ProblemType::MultipleChoice)) as usize,
        text: count_of(ps, kind_is(ProblemType::Text)) as usize,
    }
}

pub open spec fn summary_sum(a: ImportQualitySummary, b: ImportQualitySummary) -> ImportQualitySummary {
    ImportQualitySummary {
        total: (a.total + b.total) as usize,
        standard: (a.standard + b.standard) as usize,
        user_temporary: (a.user_temporary + b.user_temporary) as usize,
        score_inferred: (a.score_inferred + b.score_inferred) as usize,
        ai_reviewed: (a.ai_reviewed + b.ai_reviewed) as usize,
        manual_reviewed: (a.manual_reviewed + b.manual_reviewed) as usize,
        review_needed: (a.review_needed + b.review_needed) as usize,
        single_choice: (a.single_choice + b.single_choice) as usize,
        multiple_choice: (a.multiple_choice + b.multiple_choice) as usize,
        text: (a.text + b.text) as usize,
    }
}

/// Every count of the sum fits a `usize`.
pub open spec fn sum_fits(a: ImportQualitySummary, b: ImportQualitySummary) -> bool {
    &&& a.total + b.total <= usize::MAX
    &&& a.standard + b.standard <= usize::MAX
    &&& a.user_temporary + b.user_temporary <= usize::MAX
    &&& a.score_inferred + b.score_inferred <= usize::MAX
    &&& a.ai_reviewed + b.ai_reviewed <= usize::MAX
    &&& a.manual_reviewed + b.manual_reviewed <= usize::MAX
    &&& a.review_needed + b.review_needed <= usize::MAX
    &&& a.single_choice + b.single_choice <= usize::MAX
    &&& a.multiple_choice + b.multiple_choice <= usize::MAX
    &&& a.text + b.text <= usize::MAX
}

pub open spec fn quality_text(s: ImportQualitySummary) -> Seq<char> {
    if s.total == 0 {
        Seq::empty()
    } else {
        "题型：单选 "@ + decimal(s.single_choice as nat) + "，多选 "@ + decimal(s.multiple_choice as nat)
            + "，文本 "@ + decimal(s.text as nat) + "；答案来源：标准 "@ + decimal(s.standard as nat)
            + "，临时 "@ + decimal(s.user_temporary as nat) + "，得分推断 "@ + decimal(
            s.score_inferred as nat,
        ) + "，AI复核 "@ + decimal(s.ai_reviewed as nat) + "，人工确认 "@ + decimal(
            s.manual_reviewed as nat,
        ) + "；"@ + if s.review_needed > 0 {
            "需 AI/人工复核 "@ + decimal(s.review_needed as nat)
        } else {
            "无需复核"@
        }
    }
}

impl ImportQualitySummary {
    pub fn from_problems(problems: &[Problem]) -> (r: Self)
        ensures
            r == summary_of(problems@),
    {
        let mut s = ImportQualitySummary {
            total: 0,
            standard: 0,
            user_temporary: 0,
            score_inferred: 0,
            ai_reviewed: 0,
            manual_reviewed: 0,
            review_needed: 0,
            single_choice: 0,
            multiple_choice: 0,
            text: 0,
        };
        let mut i: usize = 0;
        while i < problems.len()
            invariant
                i <= problems@.len(),
                s == summary_of(problems@.take(i as int)),
            decreases problems@.len() - i,
        {
            let ghost t = problems@.take(i as int);
            let ghost t1 = problems@.take(i + 1);
            assert(t1.drop_last() =~= t);
            assert(t1.last() == problems@[i as int]);
            proof {
                lemma_count_of_bound(t, source_is(ProblemAnswerSource::Standard));
                lemma_count_of_bound(t, source_is(ProblemAnswerSource::UserTemporary));
                lemma_count_of_bound(t, source_is(ProblemAnswerSource::ScoreInferred));
                lemma_count_of_bound(t, source_is(ProblemAnswerSource::AiReviewed));
                lemma_count_of_bound(t, source_is(ProblemAnswerSource::ManualReviewed));
                lemma_count_of_bound(t, reviewing());
                lemma_count_of_bound(t, kind_is(ProblemType::SingleChoice));
                lemma_count_of_bound(t, kind_is(ProblemType::MultipleChoice));
                lemma_count_of_bound(t, kind_is(ProblemType::Text));
            }
            let p = &problems[i];
            s.total = s.total + 1;
            match p.state.answer_source {
                ProblemAnswerSource::Standard => s.standard = s.standard + 1,
                ProblemAnswerSource::UserTemporary => s.user_temporary = s.user_temporary + 1,
                ProblemAnswerSource::ScoreInferred => s.score_inferred = s.score_inferred + 1,
                ProblemAnswerSource::AiReviewed => s.ai_reviewed = s.ai_reviewed + 1,
                ProblemAnswerSource::ManualReviewed => s.manual_reviewed = s.manual_reviewed + 1,
            }
            if p.needs_ai_review() {
                s.review_needed = s.review_needed + 1;
            }
            match p.kind() {
                ProblemType::SingleChoice => s.single_choice = s.single_choice + 1,
                ProblemType::MultipleChoice => s.multiple_choice = s.multiple_choice + 1,
                ProblemType::Text => s.text = s.text + 1,
            }
            i = i + 1;
        }
        assert(problems@.take(problems@.len() as int) =~= problems@);
        s
    }

    /// Adds the counts of `other` to these.
    pub fn add(&mut self, other: &Self)
        requires
            sum_fits(*old(self), *other),
        ensures
            *final(self) == summary_sum(*old(self), *other),
    {
        self.total = self.total + other.total;
        self.standard = self.standard + other.standard;
        self.user_temporary = self.user_temporary + other.user_temporary;
        self.score_inferred = self.score_inferred + other.score_inferred;
        self.ai_reviewed = self.ai_reviewed + other.ai_reviewed;
        self.manual_reviewed = self.manual_reviewed + other.manual_reviewed;
        self.review_needed = self.review_needed + other.review_needed;
        self.single_choice = self.single_choice + other.single_choice;
        self.multiple_choice = self.multiple_choice + other.multiple_choice;
        self.text = self.text + other.text;
    }

    /// One line on the imported problems' types, answer sources and review
    /// need; empty when nothing was imported.
    pub fn describe(&self) -> (r: String)
        ensures
            r@ == quality_text(*self),
    {
        if self.total == 0 {
            return String::new();
        }
        let mut out = chars_of("题型：单选 ");
        extend_chars(&mut out, &decimal_chars(self.single_choice as u64));
        extend_str(&mut out, "，多选 ");
        extend_chars(&mut out, &decimal_chars(self.multiple_choice as u64));
        extend_str(&mut out, "，文本 ");
        extend_chars(&mut out, &decimal_chars(self.text as u64));
        extend_str(&mut out, "；答案来源：标准 ");
        extend_chars(&mut out, &decimal_chars(self.standard as u64));
        extend_str(&mut out, "，临时 ");
        extend_chars(&mut out, &decimal_chars(self.user_temporary as u64));
        extend_str(&mut out, "，得分推断 ");
        extend_chars(&mut out, &decimal_chars(self.score_inferred as u64));
        extend_str(&mut out, "，AI复核 ");
        extend_chars(&mut out, &decimal_chars(self.ai_reviewed as u64));
        extend_str(&mut out, "，人工确认 ");
        extend_chars(&mut out, &decimal_chars(self.manual_reviewed as u64));
        extend_str(&mut out, "；");
        if self.review_needed > 0 {
            extend_str(&mut out, "需 AI/人工复核 ");
            extend_chars(&mut out, &decimal_chars(self.review_needed as u64));
        } else {
            extend_str(&mut out, "无需复核");
        }
        string_of(&out)
    }
}

proof fn lemma_count_of_concat(a: Seq<Problem>, b: Seq<Problem>, f: spec_fn(Problem) -> bool)
    ensures
        count_of(a + b, f) == count_of(a, f) + count_of(b, f),
    decreases b.len(),
{
    if b.len() == 0 {
        assert(a + b =~= a);
    } else {
        lemma_count_of_concat(a, b.drop_last(), f);
        assert((a + b).drop_last() =~= a + b.drop_last());
        assert((a + b).last() == b.last());
    }
}

/// Summing the summaries of two banks gives the summary of both together.
pub proof fn law_summary_of_concatenation(a: Seq<Problem>, b: Seq<Problem>)
    requires
        a.len() + b.len() <= usize::MAX,
    ensures
        summary_sum(summary_of(a), summary_of(b)) == summary_of(a + b),
{
    lemma_count_of_concat(a, b, source_is(ProblemAnswerSource::Standard));
    lemma_count_of_concat(a, b, source_is(ProblemAnswerSource::UserTemporary));
    lemma_count_of_concat(a, b, source_is(ProblemAnswerSource::ScoreInferred));
    lemma_count_of_concat(a, b, source_is(ProblemAnswerSource::AiReviewed));
    lemma_count_of_concat(a, b, source_is(ProblemAnswerSource::ManualReviewed));
    lemma_count_of_concat(a, b, reviewing());
    lemma_count_of_concat(a, b, kind_is(ProblemType::SingleChoice));
    lemma_count_of_concat(a, b, kind_is(ProblemType::MultipleChoice));
    lemma_count_of_concat(a, b, kind_is(ProblemType::Text));
    lemma_count_of_bound(a, source_is(ProblemAnswerSource::Standard));
    lemma_count_of_bound(b, source_is(ProblemAnswerSource::Standard));
    lemma_count_of_bound(a, source_is(ProblemAnswerSource::UserTemporary));
    lemma_count_of_bound(b, source_is(ProblemAnswerSource::UserTemporary));
    lemma_count_of_bound(a, source_is(ProblemAnswerSource::ScoreInferred));
    lemma_count_of_bound(b, source_is(ProblemAnswerSource::ScoreInferred));
    lemma_count_of_bound(a, source_is(ProblemAnswerSource::AiReviewed));
    lemma_count_of_bound(b, source_is(ProblemAnswerSource::AiReviewed));
    lemma_count_of_bound(a, source_is(ProblemAnswerSource::ManualReviewed));
    lemma_count_of_bound(b, source_is(ProblemAnswerSource::ManualReviewed));
    lemma_count_of_bound(a, reviewing());
    lemma_count_of_bound(b, reviewing());
    lemma_count_of_bound(a, kind_is(ProblemType::SingleChoice));
    lemma_count_of_bound(b, kind_is(ProblemType::SingleChoice));
    lemma_count_of_bound(a, kind_is(ProblemType::MultipleChoice));
    lemma_count_of_bound(b, kind_is(ProblemType::MultipleChoice));
    lemma_count_of_bound(a, kind_is(ProblemType::Text));
    lemma_count_of_bound(b, kind_is(ProblemType::Text));
}

// ------------------------------------------------------------------
// A batch of imported files
// ------------------------------------------------------------------
/// What importing several bank files came to.
#[derive(Debug, Clone)]
pub struct ProblemImportBatchSummary {
    pub imported_files: usize,
    pub imported: usize,
    pub inserted: usize,
    pub updated: usize,
    pub failures: Vec<String>,
    pub last_imported_path: Option<String>,
    pub quality: ImportQualitySummary,
}

/// Why a file of the batch was not imported: it could not be read, or it
/// could not be saved.
pub open spec fn failure_text(path: Seq<char>, error: Seq<char>, saving: bool) -> Seq<char> {
    path + "："@ + if saving {
        "保存失败："@ + error
    } else {
        error
    }
}

pub fn import_failure_message(path: &str, error: &str, saving: bool) -> (r: String)
    ensures
        r@ == failure_text(path@, error@, saving),
{
    let mut out = chars_of(path);
    extend_str(&mut out, "：");
    if saving {
        extend_str(&mut out, "保存失败：");
    }
    extend_str(&mut out, error);
    string_of(&out)
}

pub open spec fn batch_status(b: ProblemImportBatchSummary) -> Seq<char> {
    let head = if b.imported_files == 0 {
        "没有成功导入题库。"@
    } else if b.imported_files == 1 {
        "导入 "@ + decimal(b.imported as nat) + " 道题：新增 "@ + decimal(b.inserted as nat) + "，更新 "@
            + decimal(b.updated as nat) + "。已保存到题库列表。"@
    } else {
        "批量导入完成：成功 "@ + decimal(b.imported_files as nat) + " 个文件，共 "@ + decimal(b.imported as nat)
            + " 道题；新增 "@ + decimal(b.inserted as nat) + "，更新 "@ + decimal(b.updated as nat) + "。"@
    };
    let failed = if b.failures@.len() > 0 {
        " 失败 "@ + decimal(b.failures@.len()) + " 个："@ + join(b.failures.deep_view(), "；"@)
    } else {
        Seq::empty()
    };
    let q = quality_text(b.quality);
    head + failed + if q.len() > 0 {
        " "@ + q + "。"@
    } else {
        Seq::empty()
    }
}

impl ProblemImportBatchSummary {
    pub fn new() -> (r: Self)
        ensures
            r.imported_files == 0 && r.imported == 0 && r.inserted == 0 && r.updated == 0,
            r.failures@.len() == 0,
            r.last_imported_path is None,
            r.quality == summary_of(Seq::empty()),
    {
        ProblemImportBatchSummary {
            imported_files: 0,
            imported: 0,
            inserted: 0,
            updated: 0,
            failures: Vec::new(),
            last_imported_path: None,
            quality: ImportQualitySummary::from_problems(&[]),
        }
    }

    /// A file was imported: its counts and quality join the batch and it
    /// becomes the last imported path.
    pub fn add_imported(&mut self, path: String, summary: &crate::store::ImportSummary, problems: &[Problem])
        requires
            old(self).imported_files < usize::MAX,
            old(self).imported + summary.imported <= usize::MAX,
            old(self).inserted + summary.inserted <= usize::MAX,
            old(self).updated + summary.updated <= usize::MAX,
            sum_fits(old(self).quality, summary_of(problems@)),
        ensures
            final(self).imported_files == old(self).imported_files + 1,
            final(self).imported == old(self).imported + summary.imported,
            final(self).inserted == old(self).inserted + summary.inserted,
            final(self).updated == old(self).updated + summary.updated,
            final(self).failures@ == old(self).failures@,
            final(self).last_imported_path == Some(path),
            final(self).quality == summary_sum(old(self).quality, summary_of(problems@)),
    {
        let q = ImportQualitySummary::from_problems(problems);
        self.quality.add(&q);
        self.imported_files = self.imported_files + 1;
        self.imported = self.imported + summary.imported;
        self.inserted = self.inserted + summary.inserted;
        self.updated = self.updated + summary.updated;
        self.last_imported_path = Some(path);
    }

    /// A file could not be imported.
    pub fn add_failure(&mut self, message: String)
        ensures
            final(self).failures@ == old(self).failures@.push(message),
            final(self).imported_files == old(self).imported_files,
            final(self).imported == old(self).imported,
            final(self).inserted == old(self).inserted,
            final(self).updated == old(self).updated,
            final(self).last_imported_path == old(self).last_imported_path,
            final(self).quality == old(self).quality,
    {
        self.failures.push(message);
    }

    /// The status line after the batch: how many files and problems came
    /// in, the failures, and the quality of what came in.
    pub fn status_text(&self) -> (r: String)
        ensures
            r@ == batch_status(*self),
    {
        let mut out: Vec<char>;
        if self.imported_files == 0 {
            out = chars_of("没有成功导入题库。");
        } else if self.imported_files == 1 {
            out = chars_of("导入 ");
            extend_chars(&mut out, &decimal_chars(self.imported as u64));
            extend_str(&mut out, " 道题：新增 ");
            extend_chars(&mut out, &decimal_chars(self.inserted as u64));
            extend_str(&mut out, "，更新 ");
            extend_chars(&mut out, &decimal_chars(self.updated as u64));
            extend_str(&mut out, "。已保存到题库列表。");
        } else {
            out = chars_of("批量导入完成：成功 ");
            extend_chars(&mut out, &decimal_chars(self.imported_files as u64));
            extend_str(&mut out, " 个文件，共 ");
            extend_chars(&mut out, &decimal_chars(self.imported as u64));
            extend_str(&mut out, " 道题；新增 ");
            extend_chars(&mut out, &decimal_chars(self.inserted as u64));
            extend_str(&mut out, "，更新 ");
            extend_chars(&mut out, &decimal_chars(self.updated as u64));
            extend_str(&mut out, "。");
        }
        let ghost head = out@;
        if self.failures.len() > 0 {
            extend_str(&mut out, " 失败 ");
            extend_chars(&mut out, &decimal_chars(self.failures.len() as u64));
            extend_str(&mut out, " 个：");
            let joined = crate::self_update::join_strings(&self.failures, "；");
            extend_chars(&mut out, &joined);
        }
        let ghost with_failures = out@;
        let q = self.quality.describe();
        if q.as_str().unicode_len() > 0 {
            extend_str(&mut out, " ");
            extend_str(&mut out, q.as_str());
            extend_str(&mut out, "。");
        }
        proof {
            if q@.len() > 0 {
                assert(out@ =~= with_failures + (" "@ + q@ + "。"@));
            } else {
                assert(out@ =~= with_failures + Seq::<char>::empty());
            }
            if self.failures@.len() > 0 {
                assert(with_failures =~= head + (" 失败 "@ + decimal(self.failures@.len()) + " 个："@ + join(
                    self.failures.deep_view(),
                    "；"@,
                )));
            } else {
                assert(with_failures =~= head + Seq::<char>::empty());
            }
        }
        string_of(&out)
    }
}

/// The failures of a batch as a suffix of a status line.
pub open spec fn failure_suffix(failures: Seq<Seq<char>>) -> Seq<char> {
    if failures.len() > 0 {
        " 失败 "@ + decimal(failures.len()) + " 个："@ + join(failures, "；"@)
    } else {
        Seq::empty()
    }
}

/// The status line after an AI import of `total_files` files from which
/// about `extracted_chars` characters of text were read; `None` when no
/// file was imported (the batch's own line stands then).
pub open spec fn ai_import_status_text(total_files: nat, extracted_chars: nat, b: ProblemImportBatchSummary) -> Option<Seq<char>> {
    if b.imported_files == 0 {
        None
    } else if total_files == 1 {
        Some("AI 导入完成：从约 "@ + decimal(extracted_chars) + " 个字符中提取并导入 "@ + decimal(b.imported as nat)
            + " 道题。"@ + failure_suffix(b.failures.deep_view()))
    } else {
        Some("AI 批量导入完成：成功 "@ + decimal(b.imported_files as nat) + "/"@ + decimal(total_files)
            + " 个文件，从约 "@ + decimal(extracted_chars) + " 个字符中提取并导入 "@ + decimal(b.imported as nat)
            + " 道题；新增 "@ + decimal(b.inserted as nat) + "，更新 "@ + decimal(b.updated as nat) + "。"@
            + failure_suffix(b.failures.deep_view()))
    }
}

impl ProblemImportBatchSummary {
    pub fn ai_import_status(&self, total_files: usize, extracted_chars: u64) -> (r: Option<String>)
        ensures
            match r {
                Some(t) => ai_import_status_text(total_files as nat, extracted_chars as nat, *self) == Some(t@),
                None => ai_import_status_text(total_files as nat, extracted_chars as nat, *self) is None,
            },
    {
        if self.imported_files == 0 {
            return None;
        }
        let mut suffix: Vec<char> = Vec::new();
        if self.failures.len() > 0 {
            extend_str(&mut suffix, " 失败 ");
            extend_chars(&mut suffix, &decimal_chars(self.failures.len() as u64));
            extend_str(&mut suffix, " 个：");
            let joined = crate::self_update::join_strings(&self.failures, "；");
            extend_chars(&mut suffix, &joined);
        }
        assert(suffix@ =~= failure_suffix(self.failures.deep_view()));
        let mut out: Vec<char>;
        if total_files == 1 {
            out = chars_of("AI 导入完成：从约 ");
            extend_chars(&mut out, &decimal_chars(extracted_chars));
            extend_str(&mut out, " 个字符中提取并导入 ");
            extend_chars(&mut out, &decimal_chars(self.imported as u64));
            extend_str(&mut out, " 道题。");
        } else {
            out = chars_of("AI 批量导入完成：成功 ");
            extend_chars(&mut out, &decimal_chars(self.imported_files as u64));
            extend_str(&mut out, "/");
            extend_chars(&mut out, &decimal_chars(total_files as u64));
            extend_str(&mut out, " 个文件，从约 ");
            extend_chars(&mut out, &decimal_chars(extracted_chars));
            extend_str(&mut out, " 个字符中提取并导入 ");
            extend_chars(&mut out, &decimal_chars(self.imported as u64));
            extend_str(&mut out, " 道题；新增 ");
            extend_chars(&mut out, &decimal_chars(self.inserted as u64));
            extend_str(&mut out, "，更新 ");
            extend_chars(&mut out, &decimal_chars(self.updated as u64));
            extend_str(&mut out, "。");
        }
        extend_chars(&mut out, &suffix);
        Some(string_of(&out))
    }
}

} // verus!
