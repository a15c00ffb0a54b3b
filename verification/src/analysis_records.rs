//! The analyses the interface keeps: finished ones by kind and title, the
//! open dialogs, what each analysed, the dialog on screen and the active
//! analysis; and the clearing of every record of given titles when the
//! decks they were made from change or go.
use vstd::prelude::*;
use crate::ai::blank;
use crate::analysis_dialog::{AnalysisDialogState, AnalysisKind};
use crate::problem::Problem;
use crate::store::AnswerRecord;
use crate::text::{chars_of, is_blank_str, str_eq, vec_contains};

verus! {

/// What an analysis is kept under: its kind and the title analysed.
#[derive(Debug, Clone)]
pub struct AnalysisCacheKey {
    pub kind: AnalysisKind,
    pub title: String,
}

/// What an analysis was made from.
#[derive(Debug, Clone)]
pub enum AnalysisSource {
    Problems(Vec<Problem>),
    Records(Vec<AnswerRecord>),
}

/// The analyses kept by the interface.
pub struct AnalysisRecords {
    /// Finished analyses.
    pub cache: Vec<(AnalysisCacheKey, AnalysisDialogState)>,
    /// Dialogs kept while another is shown.
    pub dialogs: Vec<(AnalysisCacheKey, AnalysisDialogState)>,
    /// What each analysis was made from.
    pub sources: Vec<(AnalysisCacheKey, AnalysisSource)>,
    /// The dialog on screen.
    pub dialog: Option<AnalysisDialogState>,
    /// The analysis being worked on.
    pub active_key: Option<AnalysisCacheKey>,
    /// The analysis text shown.
    pub analysis: String,
}

/// What clearing did: how many analyses went, and whether the text shown
/// was one of them (and was cleared).
#[derive(Debug, Clone, Copy, PartialEq, Eq)]
pub struct ClearedAnalyses {
    pub removed: usize,
    pub text_cleared: bool,
}

/// The entries whose title is not one of `titles`, in order.
pub open spec fn kept<V>(es: Seq<(AnalysisCacheKey, V)>, titles: Seq<Seq<char>>) -> Seq<(AnalysisCacheKey, V)>
    decreases es.len(),
{
    if es.len() == 0 {
        Seq::empty()
    } else if titles.contains(es.last().0.title@) {
        kept(es.drop_last(), titles)
    } else {
        kept(es.drop_last(), titles).push(es.last())
    }
}

/// The dialog holds the analysis text shown.
pub open spec fn shows(d: AnalysisDialogState, analysis: Seq<char>) -> bool {
    !blank(d.latest_result@) && d.latest_result@ == analysis
}

/// Some entry of one of `titles` holds the analysis text shown.
pub open spec fn removes_shown(
    es: Seq<(AnalysisCacheKey, AnalysisDialogState)>,
    titles: Seq<Seq<char>>,
    analysis: Seq<char>,
) -> bool
    decreases es.len(),
{
    if es.len() == 0 {
        false
    } else {
        removes_shown(es.drop_last(), titles, analysis) || (titles.contains(es.last().0.title@) && shows(
            es.last().1,
            analysis,
        ))
    }
}

/// The dialog on screen is about one of `titles`.
pub open spec fn dialog_titled(d: Option<AnalysisDialogState>, titles: Seq<Seq<char>>) -> bool {
    d matches Some(x) && titles.contains(x.title@)
}

pub open spec fn key_titled(k: Option<AnalysisCacheKey>, titles: Seq<Seq<char>>) -> bool {
    k matches Some(x) && titles.contains(x.title@)
}

/// Removes the dialog entries of `titles`; gives how many went and
/// whether one of them held the text shown.
fn take_titled_dialogs(
    entries: &mut Vec<(AnalysisCacheKey, AnalysisDialogState)>,
    titles: &Vec<String>,
    analysis: &str,
) -> (r: (usize, bool))
    ensures
        final(entries)@ == kept(old(entries)@, titles.deep_view()),
        r.0 + final(entries)@.len() == old(entries)@.len(),
        r.1 == removes_shown(old(entries)@, titles.deep_view(), analysis@),
{
    let ghost orig = entries@;
    let ghost t = titles.deep_view();
    let mut rest: Vec<(AnalysisCacheKey, AnalysisDialogState)> = Vec::new();
    assert(orig.len() == entries@.len());
    std::mem::swap(entries, &mut rest);
    let total = rest.len();
    assert(orig.len() == total);
    let mut removed: usize = 0;
    let mut shown = false;
    let mut n: usize = 0;
    assert(orig.take(0) =~= Seq::<(AnalysisCacheKey, AnalysisDialogState)>::empty());
    assert(orig.skip(0) =~= orig);
    while rest.len() > 0
        invariant
            n <= orig.len(),
            orig.len() <= usize::MAX,
            rest@ == orig.skip(n as int),
            entries@ == kept(orig.take(n as int), t),
            removed + entries@.len() == n,
            shown == removes_shown(orig.take(n as int), t, analysis@),
            t == titles.deep_view(),
        decreases rest@.len(),
    {
        let ghost before = rest@;
        let e = rest.remove(0);
        assert(e == orig[n as int]);
        assert(orig.take(n + 1).drop_last() =~= orig.take(n as int));
        assert(orig.take(n + 1).last() == orig[n as int]);
        assert(rest@ =~= orig.skip(n + 1));
        let titled = vec_contains(titles, &chars_of(e.0.title.as_str()));
        if titled {
            if !is_blank_str(e.1.latest_result.as_str()) && str_eq(e.1.latest_result.as_str(), analysis) {
                shown = true;
            }
            removed = removed + 1;
        } else {
            entries.push(e);
        }
        n = n + 1;
    }
    assert(orig.take(n as int) =~= orig);
    (removed, shown)
}

/// Removes the source entries of `titles`.
fn take_titled_sources(entries: &mut Vec<(AnalysisCacheKey, AnalysisSource)>, titles: &Vec<String>)
    ensures
        final(entries)@ == kept(old(entries)@, titles.deep_view()),
{
    let ghost orig = entries@;
    let ghost t = titles.deep_view();
    let mut rest: Vec<(AnalysisCacheKey, AnalysisSource)> = Vec::new();
    assert(orig.len() == entries@.len());
    std::mem::swap(entries, &mut rest);
    let total = rest.len();
    assert(orig.len() == total);
    let mut n: usize = 0;
    assert(orig.take(0) =~= Seq::<(AnalysisCacheKey, AnalysisSource)>::empty());
    assert(orig.skip(0) =~= orig);
    while rest.len() > 0
        invariant
            n <= orig.len(),
            orig.len() <= usize::MAX,
            rest@ == orig.skip(n as int),
            entries@ == kept(orig.take(n as int), t),
            t == titles.deep_view(),
        decreases rest@.len(),
    {
        let e = rest.remove(0);
        assert(e == orig[n as int]);
        assert(orig.take(n + 1).drop_last() =~= orig.take(n as int));
        assert(orig.take(n + 1).last() == orig[n as int]);
        assert(rest@ =~= orig.skip(n + 1));
        if !vec_contains(titles, &chars_of(e.0.title.as_str())) {
            entries.push(e);
        }
        n = n + 1;
    }
    assert(orig.take(n as int) =~= orig);
}

impl AnalysisRecords {
    /// Clears every record of the given titles: finished analyses, kept
    /// dialogs and sources, the dialog on screen and the active analysis
    /// when they are about one of them, and the analysis text when a
    /// cleared record held it.  Counts the finished analyses removed, and
    /// the dialog on screen when it goes.  Nothing changes for no titles.
    pub fn clear_for_titles(&mut self, titles: &Vec<String>) -> (r: ClearedAnalyses)
        requires
            old(self).cache@.len() < usize::MAX,
        ensures
            titles@.len() == 0 ==> r == (ClearedAnalyses { removed: 0, text_cleared: false })
                && final(self).cache@ == old(self).cache@ && final(self).dialogs@ == old(self).dialogs@
                && final(self).sources@ == old(self).sources@ && final(self).dialog == old(self).dialog
                && final(self).active_key == old(self).active_key && final(self).analysis == old(
                self,
            ).analysis,
            titles@.len() > 0 ==> {
                let t = titles.deep_view();
                let a = old(self).analysis@;
                &&& final(self).cache@ == kept(old(self).cache@, t)
                &&& final(self).dialogs@ == kept(old(self).dialogs@, t)
                &&& final(self).sources@ == kept(old(self).sources@, t)
                &&& final(self).dialog == if dialog_titled(old(self).dialog, t) {
                    None
                } else {
                    old(self).dialog
                }
                &&& final(self).active_key == if key_titled(old(self).active_key, t) {
                    None
                } else {
                    old(self).active_key
                }
                &&& r.removed == old(self).cache@.len() - kept(old(self).cache@, t).len() + if dialog_titled(
                    old(self).dialog,
                    t,
                ) {
                    1int
                } else {
                    0int
                }
                &&& r.text_cleared == (removes_shown(old(self).cache@, t, a) || removes_shown(
                    old(self).dialogs@,
                    t,
                    a,
                ) || (dialog_titled(old(self).dialog, t) && shows(old(self).dialog->0, a))
                    || key_titled(old(self).active_key, t))
                &&& final(self).analysis@ == if r.text_cleared {
                    Seq::<char>::empty()
                } else {
                    a
                }
            },
    {
        if titles.len() == 0 {
            return ClearedAnalyses { removed: 0, text_cleared: false };
        }
        let ghost a = self.analysis@;
        let (cache_removed, cache_shown) = take_titled_dialogs(&mut self.cache, titles, self.analysis.as_str());
        let (_, dialogs_shown) = take_titled_dialogs(&mut self.dialogs, titles, self.analysis.as_str());
        take_titled_sources(&mut self.sources, titles);
        let mut removed = cache_removed;
        let mut text_cleared = cache_shown || dialogs_shown;
        let dialog_goes = match &self.dialog {
            Some(d) => vec_contains(titles, &chars_of(d.title.as_str())),
            None => false,
        };
        if dialog_goes {
            match &self.dialog {
                Some(d) => {
                    if !is_blank_str(d.latest_result.as_str()) && str_eq(
                        d.latest_result.as_str(),
                        self.analysis.as_str(),
                    ) {
                        text_cleared = true;
                    }
                },
                None => {},
            }
            removed = removed + 1;
            self.dialog = None;
        }
        let key_goes = match &self.active_key {
            Some(k) => vec_contains(titles, &chars_of(k.title.as_str())),
            None => false,
        };
        if key_goes {
            self.active_key = None;
            text_cleared = true;
        }
        if text_cleared {
            self.analysis = String::new();
        }
        ClearedAnalyses { removed, text_cleared }
    }
}

} // verus!
