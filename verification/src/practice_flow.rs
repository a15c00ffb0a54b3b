//! Decisions of the practice screen and of the update check: what a
//! submitted answer leads to, and how the results of an update check or
//! download change what the interface shows.
use vstd::prelude::*;
use crate::deck::SubmitResult;
use crate::normalize::lit_string;
use crate::problem::{needs_review, Problem};
use crate::self_update::{current_tag, current_tag_of, UpdateInfo, UpdateOutcome};
use crate::text::{chars_of, extend_chars, extend_str, string_of, trim, trim_chars};
use crate::ui_model::{format_bytes, size_text};

verus! {

// ------------------------------------------------------------------
// Submitting an answer
// ------------------------------------------------------------------
/// What a submitted answer leads to before the deck is asked.
#[derive(Debug, Clone, PartialEq, Eq)]
pub enum SubmitPlan {
    /// Nothing is submitted; the status line says why.
    Refuse(String),
    /// The problem's answer awaits a review: the input is neither judged
    /// nor counted.
    HoldForReview { status: String, analysis: String },
    /// The deck judges the answer; with `keep` the problem goes back into
    /// the queue even when answered correctly.
    Submit { keep: bool },
}

pub open spec fn no_bank_text() -> Seq<char> {
    "请先导入题库。"@
}

pub open spec fn empty_answer_text() -> Seq<char> {
    "请输入答案后再提交。"@
}

pub open spec fn review_hold_status() -> Seq<char> {
    "该题尚未完成 AI 复核，暂不判题也不计错。请回到题库主页点击“AI分析”，统一复核后再练习。"@
}

pub open spec fn review_hold_analysis(input: Seq<char>) -> Seq<char> {
    "这道题缺少可靠标准答案，当前答案不会被判错。\n\n你的输入："@ + trim(input)
        + "\n\n建议先对所在题库/题组运行 AI 分析；分析阶段会统一复核待复核题目，并把可确认的标准答案保存到题库。"@
}

/// Decides what submitting `user_answer` for the current problem does: no
/// problem or a blank answer is refused, a problem awaiting review holds
/// the answer back, otherwise the deck judges it, keeping the problem when
/// the user was guided through it.
pub fn plan_submission(current: Option<&Problem>, user_answer: &str, guided_problem_id: Option<&str>) -> (r: SubmitPlan)
    ensures
        current is None ==> (r matches SubmitPlan::Refuse(s) && s@ == no_bank_text()),
        current matches Some(p) ==> if trim(user_answer@).len() == 0 {
            r matches SubmitPlan::Refuse(s) && s@ == empty_answer_text()
        } else if needs_review(p.state@) {
            r matches SubmitPlan::HoldForReview { status, analysis } && status@ == review_hold_status()
                && analysis@ == review_hold_analysis(user_answer@)
        } else {
            r == SubmitPlan::Submit { keep: guided_problem_id matches Some(g) && g@ == p.id@ }
        },
{
    let p = match current {
        Some(p) => p,
        None => {
            return SubmitPlan::Refuse(lit_string("请先导入题库。"));
        },
    };
    let answer = trim_chars(&chars_of(user_answer));
    if answer.len() == 0 {
        return SubmitPlan::Refuse(lit_string("请输入答案后再提交。"));
    }
    if p.needs_ai_review() {
        let mut text = chars_of("这道题缺少可靠标准答案，当前答案不会被判错。\n\n你的输入：");
        extend_chars(&mut text, &answer);
        extend_str(
            &mut text,
            "\n\n建议先对所在题库/题组运行 AI 分析；分析阶段会统一复核待复核题目，并把可确认的标准答案保存到题库。",
        );
        return SubmitPlan::HoldForReview {
            status: lit_string(
                "该题尚未完成 AI 复核，暂不判题也不计错。请回到题库主页点击“AI分析”，统一复核后再练习。",
            ),
            analysis: string_of(&text),
        };
    }
    let keep = match guided_problem_id {
        Some(g) => crate::text::str_eq(g, p.id.as_str()),
        None => false,
    };
    SubmitPlan::Submit { keep }
}

/// What the interface shows after the deck judged an answer.
#[derive(Debug, Clone, PartialEq, Eq)]
pub struct SubmitFeedback {
    pub status: String,
    /// The new analysis text, when it changes.
    pub analysis: Option<String>,
    /// The answer is recorded with this verdict.
    pub record_correct: Option<bool>,
    /// No explanation is stored, so one is asked from the assistant.
    pub request_explanation: bool,
}

pub open spec fn opt_text(o: Option<String>) -> Option<Seq<char>> {
    match o {
        Some(s) => Some(s@),
        None => None,
    }
}

/// The feedback on a judged answer; `kept` when the problem was put back
/// although correct.
pub fn submit_feedback(result: &SubmitResult, kept: bool) -> (r: SubmitFeedback)
    ensures
        match result {
            SubmitResult::Correct => {
                &&& r.record_correct == Some(true)
                &&& !r.request_explanation
                &&& kept ==> r.status@ == "回答正确；由于你查看过 AI 解题过程，本题已重新插回题库。"@
                    && opt_text(r.analysis) == Some("回答正确；本题已保留在当前练习队列中，稍后会再次出现。"@)
                &&& !kept ==> r.status@ == "回答正确，已从题库移除。"@ && opt_text(r.analysis) == Some(
                    "回答正确，本题已从当前练习队列移除。"@,
                )
            },
            SubmitResult::Wrong { expected, explanation } => {
                &&& r.record_correct == Some(false)
                &&& r.status@ == "回答错误，已重新加入题库。标准答案："@ + expected@
                &&& r.request_explanation == (trim(explanation@).len() == 0)
                &&& trim(explanation@).len() == 0 ==> opt_text(r.analysis) == Some(
                    "本题暂无预生成解析，正在临时请求 AI 解析..."@,
                )
                &&& trim(explanation@).len() > 0 ==> opt_text(r.analysis) == Some(explanation@)
            },
            SubmitResult::NoCurrentProblem => {
                &&& r.status@ == "当前没有题目。"@
                &&& r.analysis is None
                &&& r.record_correct is None
                &&& !r.request_explanation
            },
        },
{
    match result {
        SubmitResult::Correct => {
            if kept {
                SubmitFeedback {
                    status: lit_string("回答正确；由于你查看过 AI 解题过程，本题已重新插回题库。"),
                    analysis: Some(lit_string("回答正确；本题已保留在当前练习队列中，稍后会再次出现。")),
                    record_correct: Some(true),
                    request_explanation: false,
                }
            } else {
                SubmitFeedback {
                    status: lit_string("回答正确，已从题库移除。"),
                    analysis: Some(lit_string("回答正确，本题已从当前练习队列移除。")),
                    record_correct: Some(true),
                    request_explanation: false,
                }
            }
        },
        SubmitResult::Wrong { expected, explanation } => {
            let mut status = chars_of("回答错误，已重新加入题库。标准答案：");
            extend_str(&mut status, expected.as_str());
            let missing = crate::text::is_blank_str(explanation.as_str());
            SubmitFeedback {
                status: string_of(&status),
                analysis: Some(
                    if missing {
                        lit_string("本题暂无预生成解析，正在临时请求 AI 解析...")
                    } else {
                        lit_string(explanation.as_str())
                    },
                ),
                record_correct: Some(false),
                request_explanation: missing,
            }
        },
        SubmitResult::NoCurrentProblem => SubmitFeedback {
            status: lit_string("当前没有题目。"),
            analysis: None,
            record_correct: None,
            request_explanation: false,
        },
    }
}

// ------------------------------------------------------------------
// Update check and download
// ------------------------------------------------------------------
/// Who asked for the update check: the start of the program, or the user.
#[derive(Debug, Clone, Copy, PartialEq, Eq, Structural)]
pub enum UpdateCheckSource {
    Startup,
    Manual,
}

/// What the update worker reports.
pub enum UpdateResponse {
    /// The check ended: a newer release, none, or an error.
    CheckFinished(Result<Option<UpdateInfo>, String>),
    /// Bytes downloaded so far, and the total when known (else 0).
    ApplyProgress { downloaded: u64, total: u64 },
    /// The update attempt ended.
    ApplyFinished(Result<UpdateOutcome, String>),
}

/// What the interface shows of updates.
pub struct UpdateUiState {
    pub status: String,
    pub update_status: String,
    pub update_info: Option<UpdateInfo>,
    pub show_update_prompt: bool,
    pub is_update_checking: bool,
    pub is_update_applying: bool,
    pub downloaded_bytes: u64,
    pub total_bytes: u64,
    pub ignored_tag: Option<String>,
    pub check_source: Option<UpdateCheckSource>,
}

pub open spec fn download_text(downloaded: u64, total: u64) -> Seq<char> {
    if total > 0 {
        "正在下载更新... "@ + size_text(downloaded as nat) + " / "@ + size_text(total as nat)
    } else {
        "正在下载更新... "@ + size_text(downloaded as nat)
    }
}

pub open spec fn outcome_text(o: UpdateOutcome) -> Seq<char> {
    match o {
        UpdateOutcome::UpToDate => "已是最新版本。"@,
        UpdateOutcome::Skipped => "开发构建或当前环境不适合自动替换，已跳过更新。"@,
        UpdateOutcome::UpdateLaunched => "更新流程已启动，请按提示完成。"@,
    }
}

pub open spec fn opt_tag(o: Option<String>) -> Option<Seq<char>> {
    match o {
        Some(s) => Some(s@),
        None => None,
    }
}

impl UpdateUiState {
    /// Applies one report of the update worker; gives whether the worker is
    /// done.  A found release is offered unless the user ignored that tag
    /// at an automatic check; an error of a manual check also shows in the
    /// status line; download progress shows the sizes; the end of an update
    /// attempt shows its outcome in both lines.
    pub fn apply_update_response(&mut self, response: UpdateResponse) -> (done: bool)
        ensures
            done == !(response is ApplyProgress),
            final(self).ignored_tag == old(self).ignored_tag,
            match response {
                UpdateResponse::CheckFinished(result) => {
                    let manual = old(self).check_source != Some(UpdateCheckSource::Startup);
                    &&& !final(self).is_update_checking
                    &&& final(self).is_update_applying == old(self).is_update_applying
                    &&& final(self).check_source is None
                    &&& final(self).downloaded_bytes == old(self).downloaded_bytes
                    &&& final(self).total_bytes == old(self).total_bytes
                    &&& match result {
                        Ok(Some(info)) => {
                            &&& final(self).update_status@ == "发现新版本 "@ + info.tag_name@ + "（当前 "@
                                + current_tag_of() + "）。"@
                            &&& final(self).update_info matches Some(i) && i.tag_name@ == info.tag_name@
                            &&& final(self).show_update_prompt == (opt_tag(old(self).ignored_tag)
                                != Some(info.tag_name@) || manual)
                            &&& final(self).status == old(self).status
                        },
                        Ok(None) => {
                            &&& final(self).update_info is None
                            &&& !final(self).show_update_prompt
                            &&& final(self).update_status@ == "已是最新版本 "@ + current_tag_of() + "。"@
                            &&& final(self).status == old(self).status
                        },
                        Err(e) => {
                            &&& final(self).update_status@ == "检查更新失败："@ + e@
                            &&& manual ==> final(self).status@ == final(self).update_status@
                            &&& !manual ==> final(self).status == old(self).status
                            &&& final(self).show_update_prompt == old(self).show_update_prompt
                        },
                    }
                },
                UpdateResponse::ApplyProgress { downloaded, total } => {
                    let t = if total > 0 { total } else { old(self).total_bytes };
                    &&& final(self).downloaded_bytes == downloaded
                    &&& final(self).total_bytes == t
                    &&& final(self).update_status@ == download_text(downloaded, t)
                    &&& final(self).status == old(self).status
                    &&& final(self).is_update_checking == old(self).is_update_checking
                    &&& final(self).is_update_applying == old(self).is_update_applying
                    &&& final(self).show_update_prompt == old(self).show_update_prompt
                    &&& final(self).check_source == old(self).check_source
                },
                UpdateResponse::ApplyFinished(result) => {
                    &&& !final(self).is_update_applying
                    &&& final(self).is_update_checking == old(self).is_update_checking
                    &&& final(self).show_update_prompt == old(self).show_update_prompt
                    &&& final(self).check_source == old(self).check_source
                    &&& final(self).update_status@ == match result {
                        Ok(o) => outcome_text(o),
                        Err(e) => "更新失败："@ + e@,
                    }
                    &&& final(self).status@ == final(self).update_status@
                },
            },
    {
        match response {
            UpdateResponse::CheckFinished(result) => {
                self.is_update_checking = false;
                let manual = match self.check_source {
                    Some(UpdateCheckSource::Startup) => false,
                    _ => true,
                };
                self.check_source = None;
                match result {
                    Ok(Some(info)) => {
                        let ignored = match &self.ignored_tag {
                            Some(t) => crate::text::str_eq(t.as_str(), info.tag_name.as_str()),
                            None => false,
                        };
                        let mut s = chars_of("发现新版本 ");
                        extend_str(&mut s, info.tag_name.as_str());
                        extend_str(&mut s, "（当前 ");
                        extend_str(&mut s, current_tag().as_str());
                        extend_str(&mut s, "）。");
                        self.update_status = string_of(&s);
                        self.update_info = Some(info);
                        self.show_update_prompt = !ignored || manual;
                    },
                    Ok(None) => {
                        self.update_info = None;
                        self.show_update_prompt = false;
                        let mut s = chars_of("已是最新版本 ");
                        extend_str(&mut s, current_tag().as_str());
                        extend_str(&mut s, "。");
                        self.update_status = string_of(&s);
                    },
                    Err(err) => {
                        let mut s = chars_of("检查更新失败：");
                        extend_str(&mut s, err.as_str());
                        self.update_status = string_of(&s);
                        if manual {
                            self.status = string_of(&s);
                        }
                    },
                }
                true
            },
            UpdateResponse::ApplyProgress { downloaded, total } => {
                self.downloaded_bytes = downloaded;
                if total > 0 {
                    self.total_bytes = total;
                }
                let mut s = chars_of("正在下载更新... ");
                extend_str(&mut s, format_bytes(self.downloaded_bytes).as_str());
                if self.total_bytes > 0 {
                    extend_str(&mut s, " / ");
                    extend_str(&mut s, format_bytes(self.total_bytes).as_str());
                }
                self.update_status = string_of(&s);
                false
            },
            UpdateResponse::ApplyFinished(result) => {
                self.is_update_applying = false;
                let text = match result {
                    Ok(UpdateOutcome::UpToDate) => lit_string("已是最新版本。"),
                    Ok(UpdateOutcome::Skipped) => lit_string("开发构建或当前环境不适合自动替换，已跳过更新。"),
                    Ok(UpdateOutcome::UpdateLaunched) => lit_string("更新流程已启动，请按提示完成。"),
                    Err(err) => {
                        let mut s = chars_of("更新失败：");
                        extend_str(&mut s, err.as_str());
                        string_of(&s)
                    },
                };
                self.status = lit_string(text.as_str());
                self.update_status = text;
                true
            },
        }
    }
}

} // verus!
