//! The assistant: what is answered locally and what is put to the AI
//! service, the prompts sent to it, the local reports used without it, and
//! the paging of problem data that the service reads through tools.
//!
//! Talking to the service is the caller's part: a function here either
//! gives the reply or gives the prompt to send ([`AiStep`]).
use vstd::prelude::*;
use crate::json::{
    first_item, first_item_exec, get, get_exec, json_document, parse_json_document, str_of,
    str_of_exec, JsonValue,
};
use crate::logging::{lower_ascii_chars, lower_ascii_seq};
use crate::normalize::lit_string;
use crate::problem::{kind_of, Problem, ProblemType};
use crate::store::AnswerRecord;
use crate::tag_stats::{all_tags, counts_view, rank_tags, TagCount};
use crate::text::{
    chars_of, contains_seq, contains_str, decimal, decimal_chars, extend_chars, extend_str,
    is_blank_str, join, string_of, trim, trim_chars,
};

verus! {

/// Settings of the AI service.
#[derive(Debug, Clone, PartialEq, Eq)]
pub struct AiConfig {
    pub enabled: bool,
    pub endpoint: String,
    pub api_key: String,
    pub model: String,
    pub timeout_secs: u64,
}

/// Seconds to wait for the service unless configured otherwise.
pub fn default_timeout_secs() -> (r: u64)
    ensures
        r == 30,
{
    30
}

impl Default for AiConfig {
    fn default() -> (r: Self)
        ensures
            !r.enabled,
            r.endpoint@ == Seq::<char>::empty(),
            r.api_key@ == Seq::<char>::empty(),
            r.model@ == Seq::<char>::empty(),
            r.timeout_secs == 30,
    {
        AiConfig {
            enabled: false,
            endpoint: String::new(),
            api_key: String::new(),
            model: String::new(),
            timeout_secs: default_timeout_secs(),
        }
    }
}

/// A tool call made on the user's behalf, with what it produced.
#[derive(Debug, Clone)]
pub struct AnalysisToolResult {
    pub tool_name: String,
    pub arguments_json: String,
    pub result: String,
}

/// What a streamed analysis reports as it goes.
#[derive(Debug, Clone)]
pub enum AnalysisStreamEvent {
    ToolCall { arguments_json: String },
    TextDelta(String),
    Finished,
    Failed(String),
}

/// The next step of a request to the assistant.
#[derive(Debug, Clone, PartialEq, Eq)]
pub enum AiStep {
    /// The reply, known without the service.
    Reply(String),
    /// Send this prompt to the service; its answer is the reply.
    Ask(String),
}

pub open spec fn blank(s: Seq<char>) -> bool {
    trim(s).len() == 0
}

/// The service can be called: endpoint and model are filled in.
pub open spec fn service_configured(c: AiConfig) -> bool {
    !blank(c.endpoint@) && !blank(c.model@)
}

pub(crate) fn service_configured_exec(config: &AiConfig) -> (r: bool)
    ensures
        r == service_configured(*config),
{
    !is_blank_str(config.endpoint.as_str()) && !is_blank_str(config.model.as_str())
}

/// The step's reply is `s`.
pub open spec fn replies(step: AiStep, s: Seq<char>) -> bool {
    step matches AiStep::Reply(r) && r@ == s
}

/// The step asks the service with prompt `s`.
pub open spec fn asks(step: AiStep, s: Seq<char>) -> bool {
    step matches AiStep::Ask(p) && p@ == s
}

// ------------------------------------------------------------------
// Explaining and reviewing one answer
// ------------------------------------------------------------------
pub open spec fn explain_prompt(prompt: Seq<char>, user: Seq<char>, answer: Seq<char>, explanation: Seq<char>) -> Seq<char> {
    "你是刷题助手。请用中文简洁解释这道题为什么答错，并给出记忆要点。\n\n题目："@ + prompt + "\n用户答案："@
        + user + "\n标准答案："@ + answer + "\n已有解析："@ + if blank(explanation) {
        "无"@
    } else {
        explanation
    }
}

/// The prompt asking why an answer was wrong.
pub fn build_prompt(problem: &Problem, user_answer: &str) -> (r: String)
    ensures
        r@ == explain_prompt(problem.prompt@, user_answer@, problem.answer@, problem.explanation@),
{
    let mut out = chars_of("你是刷题助手。请用中文简洁解释这道题为什么答错，并给出记忆要点。\n\n题目：");
    extend_str(&mut out, problem.prompt.as_str());
    extend_str(&mut out, "\n用户答案：");
    extend_str(&mut out, user_answer);
    extend_str(&mut out, "\n标准答案：");
    extend_str(&mut out, problem.answer.as_str());
    extend_str(&mut out, "\n已有解析：");
    if is_blank_str(problem.explanation.as_str()) {
        extend_str(&mut out, "无");
    } else {
        extend_str(&mut out, problem.explanation.as_str());
    }
    string_of(&out)
}

pub open spec fn review_prompt(prompt: Seq<char>, user: Seq<char>, answer: Seq<char>) -> Seq<char> {
    "你是严谨但鼓励型的刷题助手，不要自称老师。页面没有提供标准答案，题库中保存的 answer 只是上次作答记录，不一定正确。请根据题干、选项和用户本次答案进行批改。\n\n要求：\n1. 先给出结论：正确 / 部分正确 / 错误 / 无法判断。\n2. 简要说明理由。\n3. 如果能推断出更合理答案，请给出参考答案。\n4. 给出复习建议。\n\n题目："@
        + prompt + "\n\n用户本次答案："@ + trim(user) + "\n\n历史作答记录（仅供参考，可能错误）："@ + answer
}

/// The prompt asking the service to mark an answer when the bank has no
/// reliable answer.
pub fn build_review_prompt(problem: &Problem, user_answer: &str) -> (r: String)
    ensures
        r@ == review_prompt(problem.prompt@, user_answer@, problem.answer@),
{
    let mut out = chars_of(
        "你是严谨但鼓励型的刷题助手，不要自称老师。页面没有提供标准答案，题库中保存的 answer 只是上次作答记录，不一定正确。请根据题干、选项和用户本次答案进行批改。\n\n要求：\n1. 先给出结论：正确 / 部分正确 / 错误 / 无法判断。\n2. 简要说明理由。\n3. 如果能推断出更合理答案，请给出参考答案。\n4. 给出复习建议。\n\n题目：",
    );
    extend_str(&mut out, problem.prompt.as_str());
    extend_str(&mut out, "\n\n用户本次答案：");
    extend_chars(&mut out, &trim_chars(&chars_of(user_answer)));
    extend_str(&mut out, "\n\n历史作答记录（仅供参考，可能错误）：");
    extend_str(&mut out, problem.answer.as_str());
    string_of(&out)
}

pub open spec fn local_explanation_text(user: Seq<char>, answer: Seq<char>, explanation: Seq<char>) -> Seq<char> {
    "回答错误。\n\n你的答案："@ + trim(user) + "\n标准答案："@ + answer + "\n\n"@ + if blank(
        explanation,
    ) {
        "暂无本地解析。可在题库中补充 explanation 字段，或启用 AI 获取解析。"@
    } else {
        explanation
    }
}

/// The explanation given without the service.
pub fn local_explanation(problem: &Problem, user_answer: &str) -> (r: String)
    ensures
        r@ == local_explanation_text(user_answer@, problem.answer@, problem.explanation@),
{
    let mut out = chars_of("回答错误。\n\n你的答案：");
    extend_chars(&mut out, &trim_chars(&chars_of(user_answer)));
    extend_str(&mut out, "\n标准答案：");
    extend_str(&mut out, problem.answer.as_str());
    extend_str(&mut out, "\n\n");
    if is_blank_str(problem.explanation.as_str()) {
        extend_str(&mut out, "暂无本地解析。可在题库中补充 explanation 字段，或启用 AI 获取解析。");
    } else {
        extend_str(&mut out, problem.explanation.as_str());
    }
    string_of(&out)
}

pub open spec fn local_review_text(user: Seq<char>, answer: Seq<char>) -> Seq<char> {
    "该题没有标准答案，建议启用 AI 批改。\n\n你的本次答案："@ + trim(user) + "\n历史作答记录："@ + answer
        + "\n\n启用 AI 后，可根据题干判断作答情况并给出参考答案。"@
}

/// The review given without the service.
pub fn local_review(problem: &Problem, user_answer: &str) -> (r: String)
    ensures
        r@ == local_review_text(user_answer@, problem.answer@),
{
    let mut out = chars_of("该题没有标准答案，建议启用 AI 批改。\n\n你的本次答案：");
    extend_chars(&mut out, &trim_chars(&chars_of(user_answer)));
    extend_str(&mut out, "\n历史作答记录：");
    extend_str(&mut out, problem.answer.as_str());
    extend_str(&mut out, "\n\n启用 AI 后，可根据题干判断作答情况并给出参考答案。");
    string_of(&out)
}

/// Explaining a wrong answer: locally when the service is off, a notice
/// when it is not configured, otherwise by asking it.
pub fn explain_wrong_answer(config: &AiConfig, problem: &Problem, user_answer: &str) -> (r: AiStep)
    ensures
        !config.enabled ==> replies(
            r,
            local_explanation_text(user_answer@, problem.answer@, problem.explanation@),
        ),
        config.enabled && !service_configured(*config) ==> replies(
            r,
            "AI 已启用，但 endpoint/model 未配置。请先在配置区填写。"@,
        ),
        config.enabled && service_configured(*config) ==> asks(
            r,
            explain_prompt(problem.prompt@, user_answer@, problem.answer@, problem.explanation@),
        ),
{
    if !config.enabled {
        return AiStep::Reply(local_explanation(problem, user_answer));
    }
    if !service_configured_exec(config) {
        return AiStep::Reply(lit_string("AI 已启用，但 endpoint/model 未配置。请先在配置区填写。"));
    }
    AiStep::Ask(build_prompt(problem, user_answer))
}

/// Reviewing an answer to a problem without a reliable answer.
pub fn review_answer(config: &AiConfig, problem: &Problem, user_answer: &str) -> (r: AiStep)
    ensures
        !config.enabled ==> replies(r, local_review_text(user_answer@, problem.answer@)),
        config.enabled && !service_configured(*config) ==> replies(
            r,
            "AI 批改需要先启用并填写 endpoint/model。"@,
        ),
        config.enabled && service_configured(*config) ==> asks(
            r,
            review_prompt(problem.prompt@, user_answer@, problem.answer@),
        ),
{
    if !config.enabled {
        return AiStep::Reply(local_review(problem, user_answer));
    }
    if !service_configured_exec(config) {
        return AiStep::Reply(lit_string("AI 批改需要先启用并填写 endpoint/model。"));
    }
    AiStep::Ask(build_review_prompt(problem, user_answer))
}

// ------------------------------------------------------------------
// Follow-up questions
// ------------------------------------------------------------------
pub open spec fn chat_disabled_text(title: Seq<char>, message: Seq<char>) -> Seq<char> {
    "当前未启用 AI，无法继续追问。\n\n当前分析对象："@ + title + "\n你的问题："@ + trim(message)
        + "\n\n可启用 AI 配置后继续对话。"@
}

pub open spec fn chat_prompt(title: Seq<char>, analysis: Seq<char>, message: Seq<char>) -> Seq<char> {
    "你是 ShuaForge 的刷题助手，不要自称老师。以下是已经生成的分析结果，请基于该结果回答用户追问。不要编造不存在的数据。\n\n分析对象："@
        + title + "\n\n已有分析：\n"@ + analysis + "\n\n用户追问："@ + trim(message)
}

/// A follow-up question on an analysis.
pub fn continue_analysis_chat(
    config: &AiConfig,
    title: &str,
    analysis_result: &str,
    user_message: &str,
) -> (r: AiStep)
    ensures
        blank(user_message@) ==> replies(r, "请输入要追问的内容。"@),
        !blank(user_message@) && !config.enabled ==> replies(
            r,
            chat_disabled_text(title@, user_message@),
        ),
        !blank(user_message@) && config.enabled && !service_configured(*config) ==> replies(
            r,
            "继续对话需要先启用并填写 endpoint/model。"@,
        ),
        !blank(user_message@) && config.enabled && service_configured(*config) ==> asks(
            r,
            chat_prompt(title@, analysis_result@, user_message@),
        ),
{
    let message = trim_chars(&chars_of(user_message));
    if message.len() == 0 {
        return AiStep::Reply(lit_string("请输入要追问的内容。"));
    }
    if !config.enabled {
        let mut out = chars_of("当前未启用 AI，无法继续追问。\n\n当前分析对象：");
        extend_str(&mut out, title);
        extend_str(&mut out, "\n你的问题：");
        extend_chars(&mut out, &message);
        extend_str(&mut out, "\n\n可启用 AI 配置后继续对话。");
        return AiStep::Reply(string_of(&out));
    }
    if !service_configured_exec(config) {
        return AiStep::Reply(lit_string("继续对话需要先启用并填写 endpoint/model。"));
    }
    let mut out = chars_of(
        "你是 ShuaForge 的刷题助手，不要自称老师。以下是已经生成的分析结果，请基于该结果回答用户追问。不要编造不存在的数据。\n\n分析对象：",
    );
    extend_str(&mut out, title);
    extend_str(&mut out, "\n\n已有分析：\n");
    extend_str(&mut out, analysis_result);
    extend_str(&mut out, "\n\n用户追问：");
    extend_chars(&mut out, &message);
    AiStep::Ask(string_of(&out))
}

// ------------------------------------------------------------------
// Problem set statistics
// ------------------------------------------------------------------
/// How many problems are of type `k`.
pub open spec fn count_kind(problems: Seq<Problem>, k: ProblemType) -> nat
    decreases problems.len(),
{
    if problems.len() == 0 {
        0
    } else {
        count_kind(problems.drop_last(), k) + if kind_of(problems.last()) == k {
            1nat
        } else {
            0nat
        }
    }
}

proof fn lemma_count_kind_bound(problems: Seq<Problem>, k: ProblemType)
    ensures
        count_kind(problems, k) <= problems.len(),
    decreases problems.len(),
{
    if problems.len() > 0 {
        lemma_count_kind_bound(problems.drop_last(), k);
    }
}

/// The numbers of single-choice, multiple-choice and text problems.
pub fn count_kinds(problems: &[Problem]) -> (r: (usize, usize, usize))
    ensures
        r.0 == count_kind(problems@, ProblemType::SingleChoice),
        r.1 == count_kind(problems@, ProblemType::MultipleChoice),
        r.2 == count_kind(problems@, ProblemType::Text),
{
    let mut single: usize = 0;
    let mut multiple: usize = 0;
    let mut text: usize = 0;
    let mut i: usize = 0;
    while i < problems.len()
        invariant
            i <= problems@.len(),
            single == count_kind(problems@.take(i as int), ProblemType::SingleChoice),
            multiple == count_kind(problems@.take(i as int), ProblemType::MultipleChoice),
            text == count_kind(problems@.take(i as int), ProblemType::Text),
        decreases problems@.len() - i,
    {
        let ghost t1 = problems@.take(i + 1);
        assert(t1.drop_last() =~= problems@.take(i as int));
        proof {
            lemma_count_kind_bound(problems@.take(i as int), ProblemType::SingleChoice);
            lemma_count_kind_bound(problems@.take(i as int), ProblemType::MultipleChoice);
            lemma_count_kind_bound(problems@.take(i as int), ProblemType::Text);
        }
        match problems[i].kind() {
            ProblemType::SingleChoice => single = single + 1,
            ProblemType::MultipleChoice => multiple = multiple + 1,
            ProblemType::Text => text = text + 1,
        }
        i = i + 1;
    }
    assert(problems@.take(problems@.len() as int) =~= problems@);
    (single, multiple, text)
}

/// `tag` followed by its count between `open` and `close`.
pub open spec fn tag_entry(t: (Seq<char>, nat), open: Seq<char>, close: Seq<char>) -> Seq<char> {
    t.0 + open + decimal(t.1) + close
}

/// The first `limit` ranked tags as entries joined with `、`.
pub open spec fn tag_summary_of(
    ranked: Seq<(Seq<char>, nat)>,
    limit: nat,
    open: Seq<char>,
    close: Seq<char>,
) -> Seq<char> {
    let n = if ranked.len() < limit {
        ranked.len()
    } else {
        limit
    };
    join(Seq::new(n, |i: int| tag_entry(ranked[i], open, close)), "、"@)
}

proof fn lemma_join_push(pieces: Seq<Seq<char>>, sep: Seq<char>, p: Seq<char>)
    requires
        pieces.len() > 0,
    ensures
        join(pieces.push(p), sep) == join(pieces, sep) + sep + p,
{
    assert(pieces.push(p).drop_last() =~= pieces);
}

fn tag_summary(ranked: &Vec<TagCount>, limit: usize, open: &str, close: &str) -> (r: Vec<char>)
    ensures
        r@ == tag_summary_of(counts_view(ranked@), limit as nat, open@, close@),
{
    let ghost rv = counts_view(ranked@);
    let n: usize = if ranked.len() < limit {
        ranked.len()
    } else {
        limit
    };
    let ghost pieces = Seq::new(n as nat, |i: int| tag_entry(rv[i], open@, close@));
    let mut out: Vec<char> = Vec::new();
    let mut i: usize = 0;
    while i < n
        invariant
            i <= n,
            n <= ranked@.len(),
            rv == counts_view(ranked@),
            pieces == Seq::new(n as nat, |i: int| tag_entry(rv[i], open@, close@)),
            out@ == join(pieces.take(i as int), "、"@),
        decreases n - i,
    {
        let ghost before = out@;
        if i > 0 {
            extend_str(&mut out, "、");
        }
        extend_str(&mut out, ranked[i].tag.as_str());
        extend_str(&mut out, open);
        let digits = decimal_chars(ranked[i].count as u64);
        extend_chars(&mut out, &digits);
        extend_str(&mut out, close);
        proof {
            assert(rv[i as int] == ranked@[i as int]@);
            assert(pieces.take(i + 1) =~= pieces.take(i as int).push(pieces[i as int]));
            if i > 0 {
                lemma_join_push(pieces.take(i as int), "、"@, pieces[i as int]);
            } else {
                assert(pieces.take(1) =~= seq![pieces[0]]);
            }
            assert(out@ =~= join(pieces.take(i + 1), "、"@));
        }
        i = i + 1;
    }
    assert(pieces.take(n as int) =~= pieces);
    out
}

/// The overview of a problem set given to the service.
pub open spec fn stats_text(problems: Seq<Problem>) -> Seq<char> {
    let top = tag_summary_of(
        crate::tag_stats::ranking_of(all_tags(problems)),
        12,
        "("@,
        ")"@,
    );
    "- 题目总数："@ + decimal(problems.len()) + "\n- 题型分布（全量精确）：单选 "@ + decimal(
        count_kind(problems, ProblemType::SingleChoice),
    ) + "，多选 "@ + decimal(count_kind(problems, ProblemType::MultipleChoice)) + "，文本/简答 "@
        + decimal(count_kind(problems, ProblemType::Text)) + "\n- 高频标签（全量，最多 12 个）："@
        + if top.len() == 0 {
        "暂无标签"@
    } else {
        top
    }
}

fn push_decimal(out: &mut Vec<char>, n: usize)
    ensures
        final(out)@ == old(out)@ + decimal(n as nat),
{
    let digits = decimal_chars(n as u64);
    extend_chars(out, &digits);
}

/// The overview of a problem set: counts by type and the twelve most
/// frequent tags.
pub fn problem_set_stats(problems: &[Problem]) -> (r: String)
    requires
        all_tags(problems@).len() <= usize::MAX,
    ensures
        r@ == stats_text(problems@),
{
    let (single, multiple, text) = count_kinds(problems);
    let ranked = rank_tags(problems);
    let top = tag_summary(&ranked, 12, "(", ")");
    let mut out = chars_of("- 题目总数：");
    push_decimal(&mut out, problems.len());
    extend_str(&mut out, "\n- 题型分布（全量精确）：单选 ");
    push_decimal(&mut out, single);
    extend_str(&mut out, "，多选 ");
    push_decimal(&mut out, multiple);
    extend_str(&mut out, "，文本/简答 ");
    push_decimal(&mut out, text);
    extend_str(&mut out, "\n- 高频标签（全量，最多 12 个）：");
    if top.len() == 0 {
        extend_str(&mut out, "暂无标签");
    } else {
        extend_chars(&mut out, &top);
    }
    string_of(&out)
}

pub open spec fn problem_set_prompt(title: Seq<char>, problems: Seq<Problem>) -> Seq<char> {
    "题组/题库「"@ + title + "」总览如下。请按系统消息中的工具规则获取完整数据后再分析。\n\n题库总览：\n"@
        + stats_text(problems)
}

/// The first user message of a problem-set analysis: the overview only;
/// the problems themselves are read through the paging tools.
pub fn build_problem_set_analysis_prompt(title: &str, problems: &[Problem]) -> (r: String)
    requires
        all_tags(problems@).len() <= usize::MAX,
    ensures
        r@ == problem_set_prompt(title@, problems@),
{
    let stats = problem_set_stats(problems);
    let mut out = chars_of("题组/题库「");
    extend_str(&mut out, title);
    extend_str(&mut out, "」总览如下。请按系统消息中的工具规则获取完整数据后再分析。\n\n题库总览：\n");
    extend_str(&mut out, stats.as_str());
    string_of(&out)
}

pub open spec fn analysis_system_prompt() -> Seq<char> {
    "你是 ShuaForge 的刷题助手，不要自称老师。\n\n这是一个两阶段任务：\n1. 先读取题库数据。\n2. 只有在已通过工具读取完全部题目后，才能输出最终 Markdown 报告。\n\n强制规则：\n- 如果还没读完全部题目，不要给最终分析，不要总结，不要推断难度和易混点。\n- 每次只能请求一页题目，且 `limit` 不超过 50。\n- 当工具结果里的 `next_cursor` 不是 null 时，说明还有未读取题目，必须继续请求下一页。\n- 只有当 `next_cursor` 为 null 且已读取题目数等于题库总数时，才能输出最终报告。\n- 最终报告中的“数据读取范围”必须明确写出是否已读取全部题目。\n- 题型数量和标签频次只能使用题库总览中的全量统计。\n- 難度、易混点、刷题顺序必须基于全部已读取题目，而不是少量样本。\n- 不要因为第一页数据足够就提前结束；题库有多少题，就尽量把全部页都读完。\n\n工具协议：\n- 拉取题目列表：只回复 JSON {\"tool\":\"shuaforge.list_problems\",\"cursor\":0,\"limit\":50}\n- 拉取单题详情：只回复 JSON {\"tool\":\"shuaforge.get_problem\",\"id\":\"题目ID\"}\n- 程序会把工具结果作为 system 消息插回对话；你应读取 system 消息后继续下一步。\n- 如果需要下一页，请使用上一次返回的 next_cursor 作为 cursor。"@
}

/// The system message of a problem-set analysis: read every page through
/// the tools before reporting.
pub fn problem_set_analysis_system_prompt() -> (r: String)
    ensures
        r@ == analysis_system_prompt(),
{
    lit_string(
        "你是 ShuaForge 的刷题助手，不要自称老师。\n\n这是一个两阶段任务：\n1. 先读取题库数据。\n2. 只有在已通过工具读取完全部题目后，才能输出最终 Markdown 报告。\n\n强制规则：\n- 如果还没读完全部题目，不要给最终分析，不要总结，不要推断难度和易混点。\n- 每次只能请求一页题目，且 `limit` 不超过 50。\n- 当工具结果里的 `next_cursor` 不是 null 时，说明还有未读取题目，必须继续请求下一页。\n- 只有当 `next_cursor` 为 null 且已读取题目数等于题库总数时，才能输出最终报告。\n- 最终报告中的“数据读取范围”必须明确写出是否已读取全部题目。\n- 题型数量和标签频次只能使用题库总览中的全量统计。\n- 難度、易混点、刷题顺序必须基于全部已读取题目，而不是少量样本。\n- 不要因为第一页数据足够就提前结束；题库有多少题，就尽量把全部页都读完。\n\n工具协议：\n- 拉取题目列表：只回复 JSON {\"tool\":\"shuaforge.list_problems\",\"cursor\":0,\"limit\":50}\n- 拉取单题详情：只回复 JSON {\"tool\":\"shuaforge.get_problem\",\"id\":\"题目ID\"}\n- 程序会把工具结果作为 system 消息插回对话；你应读取 system 消息后继续下一步。\n- 如果需要下一页，请使用上一次返回的 next_cursor 作为 cursor。",
    )
}

pub open spec fn local_set_report(title: Seq<char>, problems: Seq<Problem>) -> Seq<char> {
    let top = tag_summary_of(
        crate::tag_stats::ranking_of(all_tags(problems)),
        8,
        "（"@,
        "）"@,
    );
    "## 题组/题库分析："@ + title + "\n\n### 概览\n\n- 题目数量："@ + decimal(problems.len())
        + "\n- 分析方式：本地统计，仅做确定性汇总，不推断难度比例。\n\n### 题型分布\n\n| 题型 | 数量 |\n| --- | ---: |\n| 单选 | "@
        + decimal(count_kind(problems, ProblemType::SingleChoice)) + " |\n| 多选 | "@ + decimal(
        count_kind(problems, ProblemType::MultipleChoice),
    ) + " |\n| 文本/简答 | "@ + decimal(count_kind(problems, ProblemType::Text))
        + " |\n\n### 知识点\n\n"@ + (if top.len() == 0 {
        "暂无标签"@
    } else {
        top
    })
        + "\n\n### 局限性\n\n本地模式无法可靠判断难度和易混点；启用 AI 后会基于样例题给出观察，但仍会明确区分全量统计和样例推断。\n\n### 刷题建议\n\n先按高频知识点刷一轮，再集中复盘错题。"@
}

/// The report made without the service: counts by type and the eight most
/// frequent tags.
pub fn local_problem_set_analysis(title: &str, problems: &[Problem]) -> (r: String)
    requires
        all_tags(problems@).len() <= usize::MAX,
    ensures
        r@ == local_set_report(title@, problems@),
{
    let (single, multiple, text) = count_kinds(problems);
    let ranked = rank_tags(problems);
    let top = tag_summary(&ranked, 8, "（", "）");
    let mut out = chars_of("## 题组/题库分析：");
    extend_str(&mut out, title);
    extend_str(&mut out, "\n\n### 概览\n\n- 题目数量：");
    push_decimal(&mut out, problems.len());
    extend_str(
        &mut out,
        "\n- 分析方式：本地统计，仅做确定性汇总，不推断难度比例。\n\n### 题型分布\n\n| 题型 | 数量 |\n| --- | ---: |\n| 单选 | ",
    );
    push_decimal(&mut out, single);
    extend_str(&mut out, " |\n| 多选 | ");
    push_decimal(&mut out, multiple);
    extend_str(&mut out, " |\n| 文本/简答 | ");
    push_decimal(&mut out, text);
    extend_str(&mut out, " |\n\n### 知识点\n\n");
    if top.len() == 0 {
        extend_str(&mut out, "暂无标签");
    } else {
        extend_chars(&mut out, &top);
    }
    extend_str(
        &mut out,
        "\n\n### 局限性\n\n本地模式无法可靠判断难度和易混点；启用 AI 后会基于样例题给出观察，但仍会明确区分全量统计和样例推断。\n\n### 刷题建议\n\n先按高频知识点刷一轮，再集中复盘错题。",
    );
    string_of(&out)
}

/// Analysing a problem set: a notice for an empty set, the local report
/// when the service is off, a notice when it is not configured, otherwise
/// the service is asked (reading the problems through the tools).
pub fn analyze_problem_set(config: &AiConfig, title: &str, problems: &[Problem]) -> (r: AiStep)
    requires
        all_tags(problems@).len() <= usize::MAX,
    ensures
        problems@.len() == 0 ==> replies(r, "没有可分析的题目。"@),
        problems@.len() > 0 && !config.enabled ==> replies(r, local_set_report(title@, problems@)),
        problems@.len() > 0 && config.enabled && !service_configured(*config) ==> replies(
            r,
            "AI 分析需要先启用并填写 endpoint/model。"@,
        ),
        problems@.len() > 0 && config.enabled && service_configured(*config) ==> asks(
            r,
            problem_set_prompt(title@, problems@),
        ),
{
    if problems.len() == 0 {
        return AiStep::Reply(lit_string("没有可分析的题目。"));
    }
    if !config.enabled {
        return AiStep::Reply(local_problem_set_analysis(title, problems));
    }
    if !service_configured_exec(config) {
        return AiStep::Reply(lit_string("AI 分析需要先启用并填写 endpoint/model。"));
    }
    AiStep::Ask(build_problem_set_analysis_prompt(title, problems))
}

pub open spec fn fallback_report(error: Seq<char>, title: Seq<char>, problems: Seq<Problem>) -> Seq<char> {
    "AI 请求失败，已切换为本地分析。\n\n失败原因："@ + error + "\n\n"@ + local_set_report(title, problems)
}

/// What a failed service analysis is answered with: the reason, then the
/// local report.
pub fn analysis_failure_report(error: &str, title: &str, problems: &[Problem]) -> (r: String)
    requires
        all_tags(problems@).len() <= usize::MAX,
    ensures
        r@ == fallback_report(error@, title@, problems@),
{
    let mut out = chars_of("AI 请求失败，已切换为本地分析。\n\n失败原因：");
    extend_str(&mut out, error);
    extend_str(&mut out, "\n\n");
    let local = local_problem_set_analysis(title, problems);
    extend_str(&mut out, local.as_str());
    string_of(&out)
}

// ------------------------------------------------------------------
// Answer history
// ------------------------------------------------------------------
/// The ids of the wrongly answered records, in order.
pub open spec fn wrong_ids(records: Seq<AnswerRecord>) -> Seq<Seq<char>>
    decreases records.len(),
{
    if records.len() == 0 {
        Seq::empty()
    } else {
        let w = wrong_ids(records.drop_last());
        if records.last().is_correct {
            w
        } else {
            w.push(records.last().problem_id@)
        }
    }
}

proof fn lemma_wrong_ids_bound(records: Seq<AnswerRecord>)
    ensures
        wrong_ids(records).len() <= records.len(),
    decreases records.len(),
{
    if records.len() > 0 {
        lemma_wrong_ids_bound(records.drop_last());
    }
}

/// The accuracy in tenths of a percent: `correct / total` rounded to one
/// decimal place, ties to even (0 without records).
pub open spec fn rate_tenths(correct: nat, total: nat) -> nat {
    if total == 0 {
        0
    } else {
        let q = (correct * 1000) / total;
        let rem = (correct * 1000) % total;
        if 2 * rem > total || (2 * rem == total && q % 2 == 1) {
            q + 1
        } else {
            q
        }
    }
}

/// The accuracy written with one decimal place, as in `50.0`.
pub open spec fn rate_text(correct: nat, total: nat) -> Seq<char> {
    let t = rate_tenths(correct, total);
    decimal(t / 10) + "."@ + decimal(t % 10)
}

proof fn lemma_rate_bound(correct: nat, total: nat)
    requires
        correct <= total,
        total > 0,
    ensures
        (correct * 1000) / total <= 1000,
{
    assert((correct * 1000) / total <= 1000) by (nonlinear_arith)
        requires
            correct <= total,
            total > 0,
    ;
}

fn rate_chars(correct: usize, total: usize) -> (r: Vec<char>)
    requires
        correct <= total,
    ensures
        r@ == rate_text(correct as nat, total as nat),
{
    let tenths: u64 = if total == 0 {
        0
    } else {
        let scaled: u128 = (correct as u128) * 1000;
        let q: u128 = scaled / (total as u128);
        let rem: u128 = scaled % (total as u128);
        proof {
            lemma_rate_bound(correct as nat, total as nat);
        }
        let t: u128 = if 2 * rem > total as u128 || (2 * rem == total as u128 && q % 2 == 1) {
            q + 1
        } else {
            q
        };
        t as u64
    };
    let mut out = decimal_chars(tenths / 10);
    out.push('.');
    let d = decimal_chars(tenths % 10);
    extend_chars(&mut out, &d);
    proof {
        reveal_strlit(".");
    }
    assert(out@ =~= decimal((tenths / 10) as nat) + "."@ + decimal((tenths % 10) as nat));
    out
}

pub open spec fn gap_report(title: Seq<char>, records: Seq<AnswerRecord>) -> Seq<char> {
    let total = records.len();
    let wrong = wrong_ids(records).len();
    let correct = (total - wrong) as nat;
    let recent = join(wrong_ids(records).take(if wrong < 8 { wrong as int } else { 8 }), "、"@);
    "学习诊断："@ + title + "\n\n最近记录："@ + decimal(total) + " 条\n正确："@ + decimal(correct)
        + "，错误："@ + decimal(wrong) + "，正确率："@ + rate_text(correct, total) + "%\n近期错题："@
        + (if recent.len() == 0 {
        "暂无"@
    } else {
        recent
    }) + "\n\n建议：优先复盘近期错题。启用 AI 后，可进一步分析知识点分布和提升建议。"@
}

proof fn lemma_contains_middle(a: Seq<char>, x: Seq<char>, b: Seq<char>)
    ensures
        contains_seq(a + x + b, x),
{
    assert((a + x + b).subrange(a.len() as int, (a.len() + x.len()) as int) =~= x);
    assert(crate::text::occurs_at(a + x + b, x, a.len() as int));
}

proof fn lemma_join_contains(ps: Seq<Seq<char>>, sep: Seq<char>, i: int)
    requires
        0 <= i < ps.len(),
    ensures
        contains_seq(join(ps, sep), ps[i]),
    decreases ps.len(),
{
    if ps.len() == 1 {
        lemma_contains_middle(Seq::empty(), ps[0], Seq::empty());
        assert(Seq::<char>::empty() + ps[0] + Seq::<char>::empty() =~= ps[0]);
    } else if i == ps.len() - 1 {
        lemma_contains_middle(join(ps.drop_last(), sep) + sep, ps.last(), Seq::empty());
        assert(join(ps.drop_last(), sep) + sep + ps.last() + Seq::<char>::empty() =~= join(ps, sep));
    } else {
        let d = ps.drop_last();
        assert(d[i] == ps[i]);
        lemma_join_contains(d, sep, i);
        let j = join(d, sep);
        let k = choose|k: int| crate::text::occurs_at(j, ps[i], k);
        assert(join(ps, sep) == j + sep + ps.last());
        assert((j + sep + ps.last()).subrange(k, k + ps[i].len()) =~= j.subrange(k, k + ps[i].len()));
        assert(crate::text::occurs_at(join(ps, sep), ps[i], k));
    }
}

/// The local diagnosis states the accuracy, and names each of the first
/// eight wrongly answered problems (or says there are none).
pub proof fn law_gap_report_rate_and_recent_mistakes(title: Seq<char>, records: Seq<AnswerRecord>)
    ensures
        contains_seq(
            gap_report(title, records),
            "正确率："@ + rate_text(
                (records.len() - wrong_ids(records).len()) as nat,
                records.len(),
            ) + "%"@,
        ),
        forall|k: int|
            0 <= k < wrong_ids(records).len() && k < 8 ==> contains_seq(
                gap_report(title, records),
                #[trigger] wrong_ids(records)[k],
            ),
        wrong_ids(records).len() == 0 ==> contains_seq(gap_report(title, records), "近期错题：暂无"@),
{
    let total = records.len();
    let wrong = wrong_ids(records).len();
    let correct = (total - wrong) as nat;
    let n: int = if wrong < 8 { wrong as int } else { 8 };
    let firsts = wrong_ids(records).take(n);
    let recent = join(firsts, "、"@);
    let shown = if recent.len() == 0 { "暂无"@ } else { recent };
    let head = "学习诊断："@ + title + "\n\n最近记录："@ + decimal(total) + " 条\n正确："@ + decimal(correct)
        + "，错误："@ + decimal(wrong) + "，"@;
    let rate = "正确率："@ + rate_text(correct, total) + "%"@;
    let tail = "\n近期错题："@ + shown + "\n\n建议：优先复盘近期错题。启用 AI 后，可进一步分析知识点分布和提升建议。"@;
    let report = gap_report(title, records);
    reveal_strlit("，正确率：");
    reveal_strlit("，");
    reveal_strlit("正确率：");
    reveal_strlit("%\n近期错题：");
    reveal_strlit("%");
    reveal_strlit("\n近期错题：");
    assert("，正确率："@ =~= "，"@ + "正确率："@);
    assert("%\n近期错题："@ =~= "%"@ + "\n近期错题："@);
    assert(report =~= head + rate + tail);
    lemma_contains_middle(head, rate, tail);
    assert forall|k: int| 0 <= k < wrong && k < 8 implies contains_seq(report, #[trigger] wrong_ids(records)[k]) by {
        assert(firsts[k] == wrong_ids(records)[k]);
        lemma_join_contains(firsts, "、"@, k);
        let j = choose|j: int| crate::text::occurs_at(recent, firsts[k], j);
        if firsts[k].len() == 0 {
            assert(report.subrange(0, 0) =~= firsts[k]);
            assert(crate::text::occurs_at(report, firsts[k], 0));
        } else {
        assert(recent.len() > 0);
        let pre = head + rate + "\n近期错题："@;
        let post = "\n\n建议：优先复盘近期错题。启用 AI 后，可进一步分析知识点分布和提升建议。"@;
        assert(report =~= pre + recent + post);
        assert((pre + recent + post).subrange(pre.len() + j, pre.len() + j + firsts[k].len()) =~= recent.subrange(
            j,
            j + firsts[k].len(),
        ));
        assert(crate::text::occurs_at(report, firsts[k], pre.len() + j));
        }
    }
    if wrong == 0 {
        assert(firsts =~= Seq::<Seq<char>>::empty());
        reveal_strlit("\n");
        reveal_strlit("近期错题：暂无");
        reveal_strlit("暂无");
        assert("\n近期错题："@ + "暂无"@ =~= "\n"@ + "近期错题：暂无"@);
        let pre = head + rate + "\n"@;
        let post = "\n\n建议：优先复盘近期错题。启用 AI 后，可进一步分析知识点分布和提升建议。"@;
        assert(report =~= pre + "近期错题：暂无"@ + post);
        lemma_contains_middle(pre, "近期错题：暂无"@, post);
    }
}

/// The diagnosis made without the service: counts, accuracy and the first
/// eight wrongly answered problems.
pub fn local_learning_gap_analysis(title: &str, records: &[AnswerRecord]) -> (r: String)
    ensures
        r@ == gap_report(title@, records@),
{
    let ghost ids = wrong_ids(records@);
    let mut wrong: usize = 0;
    let mut recent: Vec<char> = Vec::new();
    let mut i: usize = 0;
    while i < records.len()
        invariant
            i <= records@.len(),
            ids == wrong_ids(records@),
            wrong == wrong_ids(records@.take(i as int)).len(),
            wrong <= i,
            recent@ == join(
                wrong_ids(records@.take(i as int)).take(
                    if wrong < 8 {
                        wrong as int
                    } else {
                        8
                    },
                ),
                "、"@,
            ),
        decreases records@.len() - i,
    {
        let ghost w0 = wrong_ids(records@.take(i as int));
        let ghost t1 = records@.take(i + 1);
        assert(t1.drop_last() =~= records@.take(i as int));
        assert(t1.last() == records@[i as int]);
        if !records[i].is_correct {
            let ghost w1 = w0.push(records@[i as int].problem_id@);
            if wrong < 8 {
                proof {
                    assert(w1.take(wrong + 1) =~= w0.take(wrong as int).push(records@[i as int].problem_id@));
                    assert(w0.take(wrong as int) =~= w0);
                    if wrong > 0 {
                        lemma_join_push(w0.take(wrong as int), "、"@, records@[i as int].problem_id@);
                    } else {
                        assert(w1.take(1) =~= seq![records@[i as int].problem_id@]);
                    }
                }
                if wrong > 0 {
                    extend_str(&mut recent, "、");
                }
                extend_str(&mut recent, records[i].problem_id.as_str());
            } else {
                assert(w1.take(8) =~= w0.take(8));
            }
            wrong = wrong + 1;
        }
        i = i + 1;
    }
    assert(records@.take(records@.len() as int) =~= records@);
    let total = records.len();
    let correct = total - wrong;
    let mut out = chars_of("学习诊断：");
    extend_str(&mut out, title);
    extend_str(&mut out, "\n\n最近记录：");
    push_decimal(&mut out, total);
    extend_str(&mut out, " 条\n正确：");
    push_decimal(&mut out, correct);
    extend_str(&mut out, "，错误：");
    push_decimal(&mut out, wrong);
    extend_str(&mut out, "，正确率：");
    let rate = rate_chars(correct, total);
    extend_chars(&mut out, &rate);
    extend_str(&mut out, "%\n近期错题：");
    if recent.len() == 0 {
        extend_str(&mut out, "暂无");
    } else {
        extend_chars(&mut out, &recent);
    }
    extend_str(&mut out, "\n\n建议：优先复盘近期错题。启用 AI 后，可进一步分析知识点分布和提升建议。");
    string_of(&out)
}

/// One answer record as the service reads it.
pub open spec fn record_line(r: AnswerRecord) -> Seq<char> {
    "时间: "@ + r.answered_at@ + " | 题目ID: "@ + r.problem_id@ + " | 是否正确: "@ + (if r.is_correct {
        "正确"@
    } else {
        "错误"@
    }) + " | 用户答案: "@ + r.user_answer@ + " | 参考答案: "@ + r.correct_answer@
}

pub open spec fn gap_prompt(title: Seq<char>, records: Seq<AnswerRecord>) -> Seq<char> {
    let shown = records.take(if records.len() < 120 { records.len() as int } else { 120 });
    "你是 ShuaForge 的学习诊断助手，不要自称老师。请基于用户在「"@ + title
        + "」中的答题记录分析需要提高的内容。\n\n要求：\n1. 给出正确率和整体表现判断。\n2. 根据错题/反复错误推断薄弱知识点或题型。\n3. 给出 3-5 条具体提高建议。\n4. 给出下一轮练习策略。\n5. 不要编造不存在的题干，只基于记录做推断。\n6. 使用 Markdown 输出，语气应像学习助手，不要说“老师已分析完”。\n\n答题记录数量："@
        + decimal(records.len()) + "\n记录如下：\n"@ + join(
        shown.map_values(|r: AnswerRecord| record_line(r)),
        "\n"@,
    )
}

fn push_record_line(out: &mut Vec<char>, r: &AnswerRecord)
    ensures
        final(out)@ == old(out)@ + record_line(*r),
{
    extend_str(out, "时间: ");
    extend_str(out, r.answered_at.as_str());
    extend_str(out, " | 题目ID: ");
    extend_str(out, r.problem_id.as_str());
    extend_str(out, " | 是否正确: ");
    if r.is_correct {
        extend_str(out, "正确");
    } else {
        extend_str(out, "错误");
    }
    extend_str(out, " | 用户答案: ");
    extend_str(out, r.user_answer.as_str());
    extend_str(out, " | 参考答案: ");
    extend_str(out, r.correct_answer.as_str());
}

/// The prompt of a learning-gap diagnosis, with at most 120 records.
pub fn build_learning_gap_prompt(title: &str, records: &[AnswerRecord]) -> (r: String)
    ensures
        r@ == gap_prompt(title@, records@),
{
    let n: usize = if records.len() < 120 {
        records.len()
    } else {
        120
    };
    let ghost shown = records@.take(n as int);
    let ghost lines = shown.map_values(|r: AnswerRecord| record_line(r));
    let mut history: Vec<char> = Vec::new();
    let mut i: usize = 0;
    while i < n
        invariant
            i <= n,
            n <= records@.len(),
            shown == records@.take(n as int),
            lines == shown.map_values(|r: AnswerRecord| record_line(r)),
            history@ == join(lines.take(i as int), "\n"@),
        decreases n - i,
    {
        proof {
            assert(lines.take(i + 1) =~= lines.take(i as int).push(lines[i as int]));
            assert(lines[i as int] == record_line(records@[i as int]));
            if i > 0 {
                lemma_join_push(lines.take(i as int), "\n"@, lines[i as int]);
            } else {
                assert(lines.take(1) =~= seq![lines[0]]);
            }
        }
        if i > 0 {
            extend_str(&mut history, "\n");
        }
        push_record_line(&mut history, &records[i]);
        i = i + 1;
    }
    assert(lines.take(n as int) =~= lines);
    let mut out = chars_of("你是 ShuaForge 的学习诊断助手，不要自称老师。请基于用户在「");
    extend_str(&mut out, title);
    extend_str(
        &mut out,
        "」中的答题记录分析需要提高的内容。\n\n要求：\n1. 给出正确率和整体表现判断。\n2. 根据错题/反复错误推断薄弱知识点或题型。\n3. 给出 3-5 条具体提高建议。\n4. 给出下一轮练习策略。\n5. 不要编造不存在的题干，只基于记录做推断。\n6. 使用 Markdown 输出，语气应像学习助手，不要说“老师已分析完”。\n\n答题记录数量：",
    );
    push_decimal(&mut out, records.len());
    extend_str(&mut out, "\n记录如下：\n");
    extend_chars(&mut out, &history);
    string_of(&out)
}

/// Diagnosing weak points from the answer history.
pub fn analyze_learning_gaps(config: &AiConfig, title: &str, records: &[AnswerRecord]) -> (r: AiStep)
    ensures
        records@.len() == 0 ==> replies(
            r,
            "还没有这个范围内的答题记录。先刷一轮，再分析薄弱点会更准。"@,
        ),
        records@.len() > 0 && !config.enabled ==> replies(r, gap_report(title@, records@)),
        records@.len() > 0 && config.enabled && !service_configured(*config) ==> replies(
            r,
            "AI 薄弱点分析需要先启用并填写 endpoint/model。"@,
        ),
        records@.len() > 0 && config.enabled && service_configured(*config) ==> asks(
            r,
            gap_prompt(title@, records@),
        ),
{
    if records.len() == 0 {
        return AiStep::Reply(lit_string("还没有这个范围内的答题记录。先刷一轮，再分析薄弱点会更准。"));
    }
    if !config.enabled {
        return AiStep::Reply(local_learning_gap_analysis(title, records));
    }
    if !service_configured_exec(config) {
        return AiStep::Reply(lit_string("AI 薄弱点分析需要先启用并填写 endpoint/model。"));
    }
    AiStep::Ask(build_learning_gap_prompt(title, records))
}

// ------------------------------------------------------------------
// Talking to the service
// ------------------------------------------------------------------
/// The endpoint takes chat-completion requests (`messages`), judged by its
/// URL, ignoring ASCII case and surrounding whitespace.
pub open spec fn chat_endpoint(endpoint: Seq<char>) -> bool {
    let e = lower_ascii_seq(trim(endpoint));
    contains_seq(e, "/chat/completions"@) || contains_seq(e, "api.deepseek.com"@)
}

pub fn uses_chat_completions(endpoint: &str) -> (r: bool)
    ensures
        r == chat_endpoint(endpoint@),
{
    let e = lower_ascii_chars(&trim_chars(&chars_of(endpoint)));
    contains_str(&e, "/chat/completions") || contains_str(&e, "api.deepseek.com")
}

/// Why a status code failed, in words.
pub open spec fn http_failure_reason(status: i32) -> Seq<char> {
    if status == 400 {
        "请求格式不被服务接受。若使用 DeepSeek/OpenAI chat/completions，需要 messages 格式；请确认 Endpoint 与模型接口类型匹配。"@
    } else if status == 401 || status == 403 {
        "认证失败，请检查 API Key 或服务权限。"@
    } else if status == 404 {
        "接口地址不存在。通常是 Endpoint 路径填错，例如少了服务要求的 /v1/completions、/v1/chat/completions 或自定义代理路径。"@
    } else if status == 429 {
        "请求过于频繁或额度不足，请稍后重试或检查配额。"@
    } else if 500 <= status && status <= 599 {
        "AI 服务端异常，请稍后重试或检查服务日志。"@
    } else {
        "AI 服务返回了非成功状态码。"@
    }
}

/// A signed number in decimal.
pub open spec fn signed_decimal(n: int) -> Seq<char> {
    if n < 0 {
        "-"@ + decimal((-n) as nat)
    } else {
        decimal(n as nat)
    }
}

/// The message for a failed service request: status, reason, endpoint, and
/// the first 240 characters of a non-blank response body.
pub open spec fn http_error_text(status: i32, endpoint: Seq<char>, body: Option<Seq<char>>) -> Seq<char> {
    "AI 请求失败：HTTP "@ + signed_decimal(status as int) + "\n"@ + http_failure_reason(status)
        + "\n当前 Endpoint："@ + trim(endpoint) + match body {
        Some(b) => if trim(b).len() > 0 {
            "\n响应片段："@ + trim(b).take(if trim(b).len() < 240 {
                trim(b).len() as int
            } else {
                240
            })
        } else {
            Seq::empty()
        },
        None => Seq::empty(),
    }
}

fn push_signed(out: &mut Vec<char>, n: i32)
    ensures
        final(out)@ == old(out)@ + signed_decimal(n as int),
{
    if n < 0 {
        extend_str(out, "-");
        let m: u64 = if n == i32::MIN {
            2147483648u64
        } else {
            (-n) as u64
        };
        let digits = decimal_chars(m);
        extend_chars(out, &digits);
    } else {
        let digits = decimal_chars(n as u64);
        extend_chars(out, &digits);
    }
}

pub fn format_ai_http_error(status_code: i32, endpoint: &str, response_body: Option<&str>) -> (r: String)
    ensures
        r@ == http_error_text(status_code, endpoint@, match response_body {
            Some(b) => Some(b@),
            None => None,
        }),
{
    let reason = if status_code == 400 {
        "请求格式不被服务接受。若使用 DeepSeek/OpenAI chat/completions，需要 messages 格式；请确认 Endpoint 与模型接口类型匹配。"
    } else if status_code == 401 || status_code == 403 {
        "认证失败，请检查 API Key 或服务权限。"
    } else if status_code == 404 {
        "接口地址不存在。通常是 Endpoint 路径填错，例如少了服务要求的 /v1/completions、/v1/chat/completions 或自定义代理路径。"
    } else if status_code == 429 {
        "请求过于频繁或额度不足，请稍后重试或检查配额。"
    } else if 500 <= status_code && status_code <= 599 {
        "AI 服务端异常，请稍后重试或检查服务日志。"
    } else {
        "AI 服务返回了非成功状态码。"
    };
    let mut out = chars_of("AI 请求失败：HTTP ");
    push_signed(&mut out, status_code);
    extend_str(&mut out, "\n");
    extend_str(&mut out, reason);
    extend_str(&mut out, "\n当前 Endpoint：");
    extend_chars(&mut out, &trim_chars(&chars_of(endpoint)));
    match response_body {
        Some(b) => {
            let t = trim_chars(&chars_of(b));
            if t.len() > 0 {
                extend_str(&mut out, "\n响应片段：");
                let n: usize = if t.len() < 240 {
                    t.len()
                } else {
                    240
                };
                let snippet = crate::text::slice_vec(&t, 0, n);
                assert(snippet@ =~= t@.take(n as int));
                extend_chars(&mut out, &snippet);
            }
        },
        None => {},
    }
    string_of(&out)
}

// ------------------------------------------------------------------
// Paging problems to the service
// ------------------------------------------------------------------
/// The page of problems that a `list_problems` tool call reads.
#[derive(Debug, Clone, Copy, PartialEq, Eq)]
pub struct BatchWindow {
    /// The page size used: the requested one, within 1..=50.
    pub limit: usize,
    /// Where the page ends (exclusive).
    pub end: usize,
    /// How many problems the page holds.
    pub read_count: usize,
    /// How many problems follow the page.
    pub remaining_count: usize,
    /// Where the next page starts, when problems follow.
    pub next_cursor: Option<usize>,
}

/// The page size the service asks for unless it says otherwise.
pub fn default_problem_batch_limit() -> (r: usize)
    ensures
        r == 30,
{
    30
}

/// The page that starts at `cursor` with `limit` problems asked for, of
/// `total`: the page size kept within 1..=50, the page cut at the end.
pub open spec fn batch_window(total: usize, cursor: usize, limit: usize) -> BatchWindow {
    let l: usize = if limit < 1 {
        1
    } else if limit > 50 {
        50
    } else {
        limit
    };
    let end: usize = if cursor + l < total {
        (cursor + l) as usize
    } else {
        total
    };
    BatchWindow {
        limit: l,
        end,
        read_count: if cursor < total {
            (end - cursor) as usize
        } else {
            0
        },
        remaining_count: (total - end) as usize,
        next_cursor: if end < total {
            Some(end)
        } else {
            None
        },
    }
}

pub fn problem_batch_window(total: usize, cursor: usize, limit: usize) -> (r: BatchWindow)
    ensures
        r == batch_window(total, cursor, limit),
{
    let limit: usize = if limit < 1 {
        1
    } else if limit > 50 {
        50
    } else {
        limit
    };
    let reach = cursor.saturating_add(limit);
    let end = if reach < total {
        reach
    } else {
        total
    };
    let read_count = if cursor < total {
        end - cursor
    } else {
        0
    };
    BatchWindow {
        limit,
        end,
        read_count,
        remaining_count: total - end,
        next_cursor: if end < total {
            Some(end)
        } else {
            None
        },
    }
}

/// The position of the problem with this id.
pub open spec fn index_of_id(problems: Seq<Problem>, id: Seq<char>) -> Option<int>
    decreases problems.len(),
{
    if problems.len() == 0 {
        None
    } else if problems[0].id@ == id {
        Some(0)
    } else {
        match index_of_id(problems.drop_first(), id) {
            Some(k) => Some(k + 1),
            None => None,
        }
    }
}

proof fn lemma_index_of_id(problems: Seq<Problem>, id: Seq<char>, i: int)
    requires
        0 <= i <= problems.len(),
        forall|j: int| 0 <= j < i ==> (#[trigger] problems[j]).id@ != id,
        i == problems.len() || problems[i].id@ == id,
    ensures
        index_of_id(problems, id) == if i == problems.len() {
            None::<int>
        } else {
            Some(i)
        },
    decreases i,
{
    if i > 0 {
        assert forall|j: int| 0 <= j < i - 1 implies (#[trigger] problems.drop_first()[j]).id@
            != id by {
            assert(problems.drop_first()[j] == problems[j + 1]);
        }
        if i < problems.len() {
            assert(problems.drop_first()[i - 1] == problems[i]);
        }
        lemma_index_of_id(problems.drop_first(), id, i - 1);
    }
}

/// The problem a `get_problem` tool call asks for.
pub fn find_problem_by_id(problems: &[Problem], id: &str) -> (r: Option<usize>)
    ensures
        match r {
            Some(k) => index_of_id(problems@, id@) == Some(k as int),
            None => index_of_id(problems@, id@) is None,
        },
{
    let mut i: usize = 0;
    while i < problems.len()
        invariant
            i <= problems@.len(),
            forall|j: int| 0 <= j < i ==> (#[trigger] problems@[j]).id@ != id@,
        decreases problems@.len() - i,
    {
        if crate::text::str_eq(problems[i].id.as_str(), id) {
            proof {
                lemma_index_of_id(problems@, id@, i as int);
            }
            return Some(i);
        }
        i = i + 1;
    }
    proof {
        lemma_index_of_id(problems@, id@, i as int);
    }
    None
}

/// The name a problem type is shown to the service under.
pub fn problem_type_debug_name(kind: ProblemType) -> (r: &'static str)
    ensures
        r@ == match kind {
            ProblemType::SingleChoice => "SingleChoice"@,
            ProblemType::MultipleChoice => "MultipleChoice"@,
            ProblemType::Text => "Text"@,
        },
{
    match kind {
        ProblemType::SingleChoice => "SingleChoice",
        ProblemType::MultipleChoice => "MultipleChoice",
        ProblemType::Text => "Text",
    }
}

// ------------------------------------------------------------------
// Reading the service's replies
// ------------------------------------------------------------------
/// The first position at or after `start` where `p` occurs, if any.
proof fn lemma_no_occurrence_after(s: Seq<char>, p: Seq<char>, start: int)
    requires
        0 <= start,
        forall|j: int| start <= j ==> !crate::text::occurs_at(s, p, j),
    ensures
        crate::normalize::first_occ_from(s, p, start) is None,
    decreases s.len() + 1 - start,
{
    if start <= s.len() {
        lemma_no_occurrence_after(s, p, start + 1);
    }
}

proof fn lemma_occurrence_found(s: Seq<char>, p: Seq<char>, start: int, i: int)
    requires
        0 <= start <= i,
        crate::text::occurs_at(s, p, i),
        forall|j: int| start <= j < i ==> !crate::text::occurs_at(s, p, j),
    ensures
        crate::normalize::first_occ_from(s, p, start) == Some(i),
    decreases i - start,
{
    if start < i {
        lemma_occurrence_found(s, p, start + 1, i);
    }
}

/// The pieces of `s` from `start` on, cut at each occurrence of `sep`
/// searched left to right (`str::split` with a string pattern).
pub open spec fn split_from(s: Seq<char>, sep: Seq<char>, start: int) -> Seq<Seq<char>>
    decreases s.len() + 1 - start,
    when 0 <= start <= s.len() && sep.len() > 0
{
    match crate::normalize::first_occ_from(s, sep, start) {
        Some(i) => {
            proof {
                crate::normalize::lemma_first_occ_props(s, sep, start);
            }
            seq![s.subrange(start, i)] + split_from(s, sep, i + sep.len())
        },
        None => seq![s.subrange(start, s.len() as int)],
    }
}

/// A fenced piece that holds JSON: it starts with `json` after leading
/// whitespace.
pub open spec fn json_piece(p: Seq<char>) -> bool {
    crate::text::starts_with(crate::text::trim_start(p), "json"@)
}

/// The first piece that holds JSON.
pub open spec fn first_json_piece(ps: Seq<Seq<char>>) -> Option<Seq<char>>
    decreases ps.len(),
{
    if ps.len() == 0 {
        None
    } else if json_piece(ps[0]) {
        Some(ps[0])
    } else {
        first_json_piece(ps.drop_first())
    }
}

pub open spec fn fence() -> Seq<char> {
    "```"@
}

fn fenced_json_piece(t: &[char]) -> (r: Option<Vec<char>>)
    ensures
        match r {
            Some(v) => first_json_piece(split_from(t@, fence(), 0)) == Some(v@),
            None => first_json_piece(split_from(t@, fence(), 0)) is None,
        },
{
    let f = chars_of("```");
    proof {
        reveal_strlit("```");
    }
    let mut start: usize = 0;
    loop
        invariant
            start <= t@.len(),
            f@ == fence(),
            fence().len() == 3,
            first_json_piece(split_from(t@, fence(), 0)) == first_json_piece(
                split_from(t@, fence(), start as int),
            ),
        decreases t@.len() - start,
    {
        let found = crate::text::find_from(t, &f, start);
        let end: usize = match found {
            Some(i) => i,
            None => t.len(),
        };
        proof {
            match found {
                Some(i) => {
                    lemma_occurrence_found(t@, fence(), start as int, i as int);
                },
                None => {
                    lemma_no_occurrence_after(t@, fence(), start as int);
                },
            }
        }
        let piece = slice_vec_chars(t, start, end);
        let ghost rest = match found {
            Some(i) => split_from(t@, fence(), i + 3),
            None => Seq::<Seq<char>>::empty(),
        };
        assert(split_from(t@, fence(), start as int) =~= seq![piece@] + rest);
        assert((seq![piece@] + rest).drop_first() =~= rest);
        let head = crate::text::trim_start_chars(&piece);
        if crate::text::starts_with_str(&head, "json") {
            return Some(piece);
        }
        assert(!json_piece(piece@));
        match found {
            Some(i) => {
                assert(crate::text::occurs_at(t@, f@, i as int));
                let n: usize = t.len();
                assert(i + 3 <= n);
                start = i + 3;
            },
            None => {
                assert(rest.len() == 0);
                assert(first_json_piece(seq![piece@] + rest) == first_json_piece(rest));
                return None;
            },
        }
    }
}

fn slice_vec_chars(s: &[char], lo: usize, hi: usize) -> (r: Vec<char>)
    requires
        lo <= hi <= s@.len(),
    ensures
        r@ == s@.subrange(lo as int, hi as int),
{
    crate::text::slice_vec(s, lo, hi)
}

/// Where a reply may hold a JSON request: the whole trimmed reply, the
/// first fenced piece marked `json` (the mark and surrounding whitespace
/// removed), and the text from the first `{` to the last `}`.
pub open spec fn json_candidates_of(text: Seq<char>) -> Seq<Seq<char>> {
    let t = trim(text);
    let fenced = match first_json_piece(split_from(t, fence(), 0)) {
        Some(p) => seq![trim(crate::text::strip_prefix_all(p, "json"@))],
        None => Seq::empty(),
    };
    let braces = match (crate::logging::index_of_char(t, '{'), crate::ai_import::last_index_of(t, '}')) {
        (Some(a), Some(b)) => if a < b {
            seq![t.subrange(a, b + 1)]
        } else {
            Seq::empty()
        },
        _ => Seq::empty(),
    };
    seq![t] + fenced + braces
}

/// The texts a reply is tried as, in order, when a JSON request is looked
/// for in it.
pub fn json_candidates(text: &str) -> (r: Vec<String>)
    ensures
        r.deep_view() == json_candidates_of(text@),
{
    let t = trim_chars(&chars_of(text));
    let mut out: Vec<String> = Vec::new();
    out.push(string_of(&t));
    let ghost first = out.deep_view();
    match fenced_json_piece(&t) {
        Some(p) => {
            let body = trim_chars(&crate::text::strip_prefix_all_str(&p, "json"));
            out.push(string_of(&body));
        },
        None => {},
    }
    let ghost second = out.deep_view();
    let open_at = crate::logging::find_char(&t, '{');
    let close_at = crate::ai_import::rfind_char(&t, '}');
    match open_at {
        Some(a) => match close_at {
            Some(b) => {
                if a < b {
                    let n: usize = t.len();
                    assert(b < n);
                    out.push(string_of(&slice_vec_chars(&t, a, b + 1)));
                }
            },
            None => {},
        },
        None => {},
    }
    assert(out.deep_view() =~= json_candidates_of(text@));
    out
}

/// The tools the service may call while it reads a problem set.
pub open spec fn known_tool(name: Seq<char>) -> bool {
    name == "shuaforge.list_problems"@ || name == "shuaforge.get_problem"@
}

pub fn is_problem_set_tool(name: &str) -> (r: bool)
    ensures
        r == known_tool(name@),
{
    crate::text::str_eq(name, "shuaforge.list_problems") || crate::text::str_eq(name, "shuaforge.get_problem")
}

/// The role a chat message is sent under: `user`, `assistant` and
/// `system` stay, anything else becomes `user`.
pub fn chat_role_name(role: &str) -> (r: &'static str)
    ensures
        r@ == if role@ == "assistant"@ {
            "assistant"@
        } else if role@ == "system"@ {
            "system"@
        } else {
            "user"@
        },
{
    if crate::text::str_eq(role, "assistant") {
        "assistant"
    } else if crate::text::str_eq(role, "system") {
        "system"
    } else {
        "user"
    }
}

/// The first choice of a chat-completion reply.
pub open spec fn first_choice(doc: JsonValue) -> Option<JsonValue> {
    match get(doc, "choices"@) {
        Some(cs) => first_item(cs),
        None => None,
    }
}

/// The text of a chat-completion reply, read as `serde_json` values are
/// walked: the first choice's message must have a content; when that is
/// a string it is the text, otherwise the first choice's text is.
pub open spec fn chat_content_of(reply: Seq<char>) -> Option<Seq<char>> {
    match json_document(reply) {
        Some(doc) => match first_choice(doc) {
            Some(choice) => match get(choice, "message"@) {
                Some(message) => match get(message, "content"@) {
                    Some(content) => match str_of(content) {
                        Some(t) => Some(t),
                        None => match get(choice, "text"@) {
                            Some(text) => str_of(text),
                            None => None,
                        },
                    },
                    None => None,
                },
                None => None,
            },
            None => None,
        },
        None => None,
    }
}

pub fn extract_chat_content(reply: &str) -> (r: Option<String>)
    ensures
        match r {
            Some(c) => chat_content_of(reply@) == Some(c@),
            None => chat_content_of(reply@) is None,
        },
{
    let doc = match parse_json_document(reply) {
        Some(d) => d,
        None => return None,
    };
    let choices = match get_exec(&doc, "choices") {
        Some(c) => c,
        None => return None,
    };
    let choice = match first_item_exec(choices) {
        Some(c) => c,
        None => return None,
    };
    let message = match get_exec(choice, "message") {
        Some(m) => m,
        None => return None,
    };
    let content = match get_exec(message, "content") {
        Some(c) => c,
        None => return None,
    };
    match str_of_exec(content) {
        Some(t) => Some(t),
        None => match get_exec(choice, "text") {
            Some(text) => str_of_exec(text),
            None => None,
        },
    }
}

} // verus!
