//! The exchange with the AI service around each request: what a reply
//! holds once its JSON has been read into the shapes below, the lines of
//! a streamed reply, the prompt sent to endpoints without chat messages,
//! and the conversation in which the service reads problem data through
//! tools.  Sending requests and reading JSON are the caller's part.
use vstd::prelude::*;
use crate::ai::{
    analysis_system_prompt, batch_window, blank, build_problem_set_analysis_prompt,
    find_problem_by_id, index_of_id, is_problem_set_tool, known_tool, local_problem_set_analysis,
    local_set_report, problem_batch_window, problem_set_analysis_system_prompt, problem_set_prompt,
    service_configured, service_configured_exec, AiConfig, AiStep, BatchWindow,
};
use crate::normalize::lit_string;
use crate::problem::{join_chars, opt_view, Problem};
use crate::tag_stats::all_tags;
use crate::text::{
    chars_of, extend_chars, extend_str, is_blank_str, join, slice_vec, starts_with,
    push_line, starts_with_str, str_eq, string_of, trim, trim_chars,
};

verus! {

// ------------------------------------------------------------------
// Replies with an explanation
// ------------------------------------------------------------------
/// The message of a chat choice.
#[derive(Debug, Clone)]
pub struct ExplainMessage {
    pub content: Option<String>,
}

/// One choice of a reply: a chat message, or plain text.
#[derive(Debug, Clone)]
pub struct ExplainChoice {
    pub message: Option<ExplainMessage>,
    pub text: Option<String>,
}

/// A reply of the service: an explanation of its own, or choices.
#[derive(Debug, Clone)]
pub struct ExplainResponse {
    pub explanation: Option<String>,
    pub choices: Option<Vec<ExplainChoice>>,
}

/// The text, unless it is missing or blank.
pub open spec fn nonblank(o: Option<Seq<char>>) -> Option<Seq<char>> {
    match o {
        Some(t) => if blank(t) {
            None
        } else {
            Some(t)
        },
        None => None,
    }
}

/// What a choice says: its message's content, or else its text; nothing
/// when that is blank.
pub open spec fn choice_text(c: ExplainChoice) -> Option<Seq<char>> {
    nonblank(
        match c.message {
            Some(m) => match m.content {
                Some(t) => Some(t@),
                None => opt_view(c.text),
            },
            None => opt_view(c.text),
        },
    )
}

/// The first choice that says something.
pub open spec fn first_choice_text(cs: Seq<ExplainChoice>) -> Option<Seq<char>>
    decreases cs.len(),
{
    if cs.len() == 0 {
        None
    } else {
        match choice_text(cs[0]) {
            Some(t) => Some(t),
            None => first_choice_text(cs.drop_first()),
        }
    }
}

/// The explanation a reply gives: its own when not blank, else that of
/// its first choice that says something.
pub open spec fn explanation_of(r: ExplainResponse) -> Option<Seq<char>> {
    match nonblank(opt_view(r.explanation)) {
        Some(e) => Some(e),
        None => match r.choices {
            Some(cs) => first_choice_text(cs@),
            None => None,
        },
    }
}

fn nonblank_string(o: &Option<String>) -> (r: Option<String>)
    ensures
        opt_view(r) == nonblank(opt_view(*o)),
{
    match o {
        Some(s) => if is_blank_str(s.as_str()) {
            None
        } else {
            Some(s.clone())
        },
        None => None,
    }
}

fn choice_said(c: &ExplainChoice) -> (r: Option<String>)
    ensures
        opt_view(r) == choice_text(*c),
{
    match &c.message {
        Some(m) => match &m.content {
            Some(t) => nonblank_string(&Some(t.clone())),
            None => nonblank_string(&c.text),
        },
        None => nonblank_string(&c.text),
    }
}

/// The explanation in a reply (see [`explanation_of`]).
pub fn extract_explanation(reply: &ExplainResponse) -> (r: Option<String>)
    ensures
        opt_view(r) == explanation_of(*reply),
{
    let own = nonblank_string(&reply.explanation);
    if own.is_some() {
        return own;
    }
    match &reply.choices {
        Some(cs) => {
            let ghost s = cs@;
            let mut i: usize = 0;
            assert(s.skip(0) =~= s);
            while i < cs.len()
                invariant
                    i <= s.len(),
                    s == cs@,
                    first_choice_text(s.skip(i as int)) == first_choice_text(s),
                    explanation_of(*reply) == first_choice_text(s),
                decreases s.len() - i,
            {
                let ghost rest = s.skip(i as int);
                assert(rest[0] == s[i as int]);
                assert(rest.drop_first() =~= s.skip(i + 1));
                let said = choice_said(&cs[i]);
                if said.is_some() {
                    assert(rest.len() > 0);
                    assert(first_choice_text(rest) == choice_text(rest[0]));
                    return said;
                }
                i = i + 1;
            }
            assert(s.skip(i as int) =~= Seq::<ExplainChoice>::empty());
            None
        },
        None => None,
    }
}

/// What is shown for a reply whose text is `text`: the explanation it
/// gives, or the text as it came when it gives none or could not be read
/// as a reply (`parsed` is `None`).
pub open spec fn reply_text_of(text: Seq<char>, parsed: Option<ExplainResponse>) -> Seq<char> {
    match parsed {
        Some(p) => match explanation_of(p) {
            Some(e) => e,
            None => text,
        },
        None => text,
    }
}

pub fn reply_text(text: &str, parsed: &Option<ExplainResponse>) -> (r: String)
    ensures
        r@ == reply_text_of(text@, *parsed),
{
    match parsed {
        Some(p) => match extract_explanation(p) {
            Some(e) => e,
            None => lit_string(text),
        },
        None => lit_string(text),
    }
}

// ------------------------------------------------------------------
// Streamed replies
// ------------------------------------------------------------------
/// The new text of a streamed chunk.
#[derive(Debug, Clone)]
pub struct StreamDelta {
    pub content: Option<String>,
}

#[derive(Debug, Clone)]
pub struct StreamChoice {
    pub delta: Option<StreamDelta>,
}

/// One chunk of a streamed reply.
#[derive(Debug, Clone)]
pub struct StreamResponse {
    pub choices: Option<Vec<StreamChoice>>,
}

/// The text a choice of a chunk adds, when it adds any.
pub open spec fn delta_text(c: StreamChoice) -> Option<Seq<char>> {
    match c.delta {
        Some(d) => match d.content {
            Some(t) => if t@.len() > 0 {
                Some(t@)
            } else {
                None
            },
            None => None,
        },
        None => None,
    }
}

pub open spec fn first_delta_text(cs: Seq<StreamChoice>) -> Option<Seq<char>>
    decreases cs.len(),
{
    if cs.len() == 0 {
        None
    } else {
        match delta_text(cs[0]) {
            Some(t) => Some(t),
            None => first_delta_text(cs.drop_first()),
        }
    }
}

/// The text a chunk adds: that of its first choice adding any.
pub open spec fn chunk_text(r: StreamResponse) -> Option<Seq<char>> {
    match r.choices {
        Some(cs) => first_delta_text(cs@),
        None => None,
    }
}

fn delta_said(c: &StreamChoice) -> (r: Option<String>)
    ensures
        opt_view(r) == delta_text(*c),
{
    match &c.delta {
        Some(d) => match &d.content {
            Some(t) => if chars_of(t.as_str()).len() > 0 {
                Some(t.clone())
            } else {
                None
            },
            None => None,
        },
        None => None,
    }
}

pub fn stream_delta_content(chunk: &StreamResponse) -> (r: Option<String>)
    ensures
        opt_view(r) == chunk_text(*chunk),
{
    match &chunk.choices {
        Some(cs) => {
            let ghost s = cs@;
            let mut i: usize = 0;
            assert(s.skip(0) =~= s);
            while i < cs.len()
                invariant
                    i <= s.len(),
                    s == cs@,
                    first_delta_text(s.skip(i as int)) == first_delta_text(s),
                    chunk_text(*chunk) == first_delta_text(s),
                decreases s.len() - i,
            {
                let ghost rest = s.skip(i as int);
                assert(rest[0] == s[i as int]);
                assert(rest.drop_first() =~= s.skip(i + 1));
                let said = delta_said(&cs[i]);
                if said.is_some() {
                    assert(rest.len() > 0);
                    assert(first_delta_text(rest) == delta_text(rest[0]));
                    return said;
                }
                i = i + 1;
            }
            assert(s.skip(i as int) =~= Seq::<StreamChoice>::empty());
            None
        },
        None => None,
    }
}

/// A line of an event stream, as the reader treats it.
#[derive(Debug, Clone, PartialEq, Eq)]
pub enum SseLine {
    /// Not data: blank, a comment, or another field.
    Skip,
    /// The end of the stream.
    Done,
    /// A chunk of the reply, as JSON text.
    Data(String),
}

/// A data line: once trimmed, it starts with `data:`.
pub open spec fn is_data_line(line: Seq<char>) -> bool {
    starts_with(trim(line), "data:"@)
}

/// The data of a data line, trimmed.
pub open spec fn line_data(line: Seq<char>) -> Seq<char> {
    trim(trim(line).subrange(5, trim(line).len() as int))
}

pub fn sse_line(line: &str) -> (r: SseLine)
    ensures
        !is_data_line(line@) ==> r == SseLine::Skip,
        is_data_line(line@) && line_data(line@) == "[DONE]"@ ==> r == SseLine::Done,
        is_data_line(line@) && line_data(line@) != "[DONE]"@ ==> (r matches SseLine::Data(d) && d@
            == line_data(line@)),
{
    let t = trim_chars(&chars_of(line));
    if !starts_with_str(&t, "data:") {
        return SseLine::Skip;
    }
    proof {
        reveal_strlit("data:");
    }
    let data = trim_chars(&slice_vec(&t, 5, t.len()));
    if crate::text::eq_lit(&data, "[DONE]") {
        SseLine::Done
    } else {
        SseLine::Data(string_of(&data))
    }
}

// ------------------------------------------------------------------
// Conversations
// ------------------------------------------------------------------
/// A message of a conversation with a chat endpoint.
#[derive(Debug, Clone)]
pub struct ChatCompletionMessage {
    pub role: String,
    pub content: String,
}

/// A message as its role and content.
pub open spec fn message_view(m: ChatCompletionMessage) -> (Seq<char>, Seq<char>) {
    (m.role@, m.content@)
}

pub open spec fn message_views(ms: Seq<ChatCompletionMessage>) -> Seq<(Seq<char>, Seq<char>)> {
    ms.map_values(|m: ChatCompletionMessage| message_view(m))
}

/// A message as written into a plain prompt: its role, a colon, a line
/// break and its content.
pub open spec fn message_block(m: ChatCompletionMessage) -> Seq<char> {
    m.role@ + ":\n"@ + m.content@
}

/// The prompt that stands for a conversation at an endpoint that takes no
/// chat messages: the messages' blocks, separated by a rule.
pub open spec fn plain_prompt(ms: Seq<ChatCompletionMessage>) -> Seq<char> {
    join(ms.map_values(|m: ChatCompletionMessage| message_block(m)), "\n\n---\n\n"@)
}

pub fn plain_chat_prompt(messages: &[ChatCompletionMessage]) -> (r: String)
    ensures
        r@ == plain_prompt(messages@),
{
    let mut pieces: Vec<Vec<char>> = Vec::new();
    let mut i: usize = 0;
    while i < messages.len()
        invariant
            i <= messages@.len(),
            pieces.deep_view().len() == i,
            forall|k: int| 0 <= k < i ==> (#[trigger] pieces.deep_view()[k]) == message_block(messages@[k]),
        decreases messages@.len() - i,
    {
        let mut block = chars_of(messages[i].role.as_str());
        extend_str(&mut block, ":\n");
        extend_str(&mut block, messages[i].content.as_str());
        push_line(&mut pieces, block);
        i = i + 1;
    }
    assert(pieces.deep_view() =~= messages@.map_values(|m: ChatCompletionMessage| message_block(m)));
    let sep = chars_of("\n\n---\n\n");
    string_of(&join_chars(&pieces, &sep))
}

fn message(role: &str, content: String) -> (r: ChatCompletionMessage)
    ensures
        message_view(r) == (role@, content@),
{
    ChatCompletionMessage { role: lit_string(role), content }
}

// ------------------------------------------------------------------
// Reading problems through tools
// ------------------------------------------------------------------
/// A request for problem data, as the service writes it.
#[derive(Debug, Clone)]
pub struct ProblemSetToolRequest {
    pub tool: String,
    pub id: Option<String>,
    pub cursor: usize,
    pub limit: usize,
}

/// Of the JSON pieces of a reply, each read as a request where it could
/// be, the position of the first naming a known tool.
pub open spec fn first_tool_request(reqs: Seq<Option<ProblemSetToolRequest>>) -> Option<int>
    decreases reqs.len(),
{
    if reqs.len() == 0 {
        None
    } else if reqs[0] matches Some(q) && known_tool(q.tool@) {
        Some(0)
    } else {
        match first_tool_request(reqs.drop_first()) {
            Some(k) => Some(k + 1),
            None => None,
        }
    }
}

pub fn pick_tool_request(requests: &Vec<Option<ProblemSetToolRequest>>) -> (r: Option<usize>)
    ensures
        match r {
            Some(k) => first_tool_request(requests@) == Some(k as int),
            None => first_tool_request(requests@) is None,
        },
{
    let ghost s = requests@;
    let mut i: usize = 0;
    while i < requests.len()
        invariant
            i <= s.len(),
            s == requests@,
            forall|j: int| 0 <= j < i ==> !(#[trigger] s[j] matches Some(q) && known_tool(q.tool@)),
        decreases s.len() - i,
    {
        let hit = match &requests[i] {
            Some(q) => is_problem_set_tool(q.tool.as_str()),
            None => false,
        };
        if hit {
            proof {
                lemma_first_tool_request(s, i as int);
            }
            return Some(i);
        }
        i = i + 1;
    }
    proof {
        lemma_first_tool_request(s, i as int);
    }
    None
}

proof fn lemma_first_tool_request(s: Seq<Option<ProblemSetToolRequest>>, i: int)
    requires
        0 <= i <= s.len(),
        forall|j: int| 0 <= j < i ==> !(#[trigger] s[j] matches Some(q) && known_tool(q.tool@)),
        i < s.len() ==> (s[i] matches Some(q) && known_tool(q.tool@)),
    ensures
        first_tool_request(s) == if i == s.len() {
            None::<int>
        } else {
            Some(i)
        },
    decreases i,
{
    if i > 0 {
        let t = s.drop_first();
        assert forall|j: int| 0 <= j < i - 1 implies !(#[trigger] t[j] matches Some(q) && known_tool(
            q.tool@,
        )) by {
            assert(t[j] == s[j + 1]);
        }
        if i < s.len() {
            assert(t[i - 1] == s[i]);
        }
        lemma_first_tool_request(t, i - 1);
        assert(!(s[0] matches Some(q) && known_tool(q.tool@)));
    }
}

/// What a tool request is answered with.
#[derive(Debug, Clone, PartialEq, Eq)]
pub enum ToolCall {
    /// The page of problems starting at `cursor`.
    List { cursor: usize, window: BatchWindow },
    /// The problem at this position.
    Detail(usize),
    /// A problem was asked for without an id.
    MissingId,
    /// No problem has this id.
    NotFound(String),
    /// The request names no known tool.
    UnknownTool,
}

pub fn plan_tool_call(problems: &[Problem], request: &ProblemSetToolRequest) -> (r: ToolCall)
    ensures
        request.tool@ == "shuaforge.list_problems"@ ==> r == (ToolCall::List {
            cursor: request.cursor,
            window: batch_window(problems@.len() as usize, request.cursor, request.limit),
        }),
        request.tool@ == "shuaforge.get_problem"@ ==> match request.id {
            None => r == ToolCall::MissingId,
            Some(id) => match index_of_id(problems@, id@) {
                Some(k) => r == ToolCall::Detail(k as usize),
                None => r matches ToolCall::NotFound(x) && x@ == id@,
            },
        },
        !known_tool(request.tool@) ==> r == ToolCall::UnknownTool,
{
    proof {
        reveal_strlit("shuaforge.list_problems");
        reveal_strlit("shuaforge.get_problem");
        assert("shuaforge.list_problems"@[10] != "shuaforge.get_problem"@[10]);
    }
    if str_eq(request.tool.as_str(), "shuaforge.list_problems") {
        ToolCall::List {
            cursor: request.cursor,
            window: problem_batch_window(problems.len(), request.cursor, request.limit),
        }
    } else if str_eq(request.tool.as_str(), "shuaforge.get_problem") {
        match &request.id {
            None => ToolCall::MissingId,
            Some(id) => match find_problem_by_id(problems, id.as_str()) {
                Some(k) => ToolCall::Detail(k),
                None => ToolCall::NotFound(lit_string(id.as_str())),
            },
        }
    } else {
        ToolCall::UnknownTool
    }
}

/// How many tool rounds the service is given before the analysis stops.
pub const MAX_TOOL_ROUNDS: usize = 8;

/// The report given when the service kept asking for data.
pub const TOOLS_EXHAUSTED_REPORT: &'static str = "AI 已多次请求题目数据但未生成最终报告。请缩小题组范围或稍后重试。";

/// The text shown when a streamed final report came back empty.
pub const NO_FINAL_REPORT: &'static str = "AI 未生成最终报告，请稍后重试。";

/// A problem-set analysis in which the service reads the problems
/// through tools: the messages so far and the tool rounds taken.
pub struct ToolConversation {
    pub messages: Vec<ChatCompletionMessage>,
    pub rounds: usize,
}

/// What to do after a reply of the service.
#[derive(Debug, Clone, PartialEq, Eq)]
pub enum ToolStep {
    /// Send the conversation again.
    Send,
    /// The reply is the report.
    Finish(String),
    /// The rounds are used up.
    Exhausted,
}

impl ToolConversation {
    /// The conversation that starts an analysis: the tool rules, then the
    /// overview of the problems.
    pub fn start(title: &str, problems: &[Problem]) -> (r: Self)
        requires
            all_tags(problems@).len() <= usize::MAX,
        ensures
            r.rounds == 0,
            message_views(r.messages@) == seq![
                ("system"@, analysis_system_prompt()),
                ("user"@, problem_set_prompt(title@, problems@)),
            ],
    {
        let mut messages: Vec<ChatCompletionMessage> = Vec::new();
        messages.push(message("system", problem_set_analysis_system_prompt()));
        messages.push(message("user", build_problem_set_analysis_prompt(title, problems)));
        proof {
            reveal_strlit("system");
            reveal_strlit("user");
        }
        let r = ToolConversation { messages, rounds: 0 };
        assert(message_views(r.messages@) =~= seq![
            ("system"@, analysis_system_prompt()),
            ("user"@, problem_set_prompt(title@, problems@)),
        ]);
        r
    }

    /// Takes the service's `reply`.  `tool_result` is what the tool that
    /// the reply asks for gave, or `None` when it asks for none: then the
    /// reply is the report.  Otherwise the reply and the tool's result
    /// join the conversation, which is sent again unless that was the last
    /// round.
    pub fn after_reply(&mut self, reply: String, tool_result: Option<String>) -> (r: ToolStep)
        requires
            old(self).rounds < MAX_TOOL_ROUNDS,
        ensures
            tool_result is None ==> (r matches ToolStep::Finish(t) && t@ == reply@) && message_views(
                final(self).messages@,
            ) == message_views(old(self).messages@) && final(self).rounds == old(self).rounds,
            tool_result matches Some(t) ==> message_views(final(self).messages@) == message_views(
                old(self).messages@,
            ).push(("assistant"@, reply@)).push(("system"@, t@)) && final(self).rounds == old(
                self,
            ).rounds + 1 && r == if final(self).rounds == MAX_TOOL_ROUNDS {
                ToolStep::Exhausted
            } else {
                ToolStep::Send
            },
    {
        match tool_result {
            None => ToolStep::Finish(reply),
            Some(t) => {
                let ghost before = self.messages@;
                self.messages.push(message("assistant", reply));
                self.messages.push(message("system", t));
                proof {
                    reveal_strlit("assistant");
                    reveal_strlit("system");
                }
                assert(message_views(self.messages@) =~= message_views(before).push(
                    ("assistant"@, reply@),
                ).push(("system"@, t@)));
                self.rounds = self.rounds + 1;
                if self.rounds == MAX_TOOL_ROUNDS {
                    ToolStep::Exhausted
                } else {
                    ToolStep::Send
                }
            },
        }
    }
}

/// How a streamed problem-set analysis begins: a notice for an empty set,
/// the local report when the service is off or not configured, otherwise
/// the service is asked.
pub fn stream_problem_set_analysis(config: &AiConfig, title: &str, problems: &[Problem]) -> (r: AiStep)
    requires
        all_tags(problems@).len() <= usize::MAX,
    ensures
        problems@.len() == 0 ==> (r matches AiStep::Reply(t) && t@ == "没有可分析的题目。"@),
        problems@.len() > 0 && !(config.enabled && service_configured(*config)) ==> (r matches AiStep::Reply(
            t,
        ) && t@ == local_set_report(title@, problems@)),
        problems@.len() > 0 && config.enabled && service_configured(*config) ==> (r matches AiStep::Ask(
            p,
        ) && p@ == problem_set_prompt(title@, problems@)),
{
    if problems.len() == 0 {
        return AiStep::Reply(lit_string("没有可分析的题目。"));
    }
    if !config.enabled || !service_configured_exec(config) {
        return AiStep::Reply(local_problem_set_analysis(title, problems));
    }
    AiStep::Ask(build_problem_set_analysis_prompt(title, problems))
}

} // verus!
