//! Exporting a problem bank: the bank record with its deck metadata, and
//! safe names for the files written.  Writing the files happens in the
//! caller, which also reads the clock.
use vstd::prelude::*;
use crate::ai::blank;
use crate::normalize::lit_string;
use crate::problem::{copy_problem, opt_view, Problem, ProblemV};
use crate::text::{
    chars_of, decimal, decimal_chars, extend_chars, extend_str, is_blank_str, string_of, trim,
    trim_chars, trim_set, trim_set_chars, trim_start_set, trim_start_set_chars,
};

verus! {

/// A bank as exported: deck name and description, when it was exported,
/// and its problems.
#[derive(Debug, Clone)]
pub struct ExportProblemBank {
    pub deck_name: String,
    pub deck_info: String,
    pub exported_at: String,
    pub problem_count: usize,
    pub problems: Vec<Problem>,
}

/// A problem with the bank's deck metadata filled in where it has none:
/// the deck name always, the description when the bank has one.
pub open spec fn with_deck_metadata(p: ProblemV, deck_name: Seq<char>, deck_info: Seq<char>) -> ProblemV {
    ProblemV {
        deck_name: if blank(or_empty(p.deck_name)) {
            Some(deck_name)
        } else {
            p.deck_name
        },
        deck_info: if blank(or_empty(p.deck_info)) && !blank(deck_info) {
            Some(deck_info)
        } else {
            p.deck_info
        },
        ..p
    }
}

pub open spec fn or_empty(o: Option<Seq<char>>) -> Seq<char> {
    match o {
        Some(s) => s,
        None => Seq::empty(),
    }
}

/// When an export was made, as `unix:<seconds>`.
pub open spec fn export_time_text(secs: u64) -> Seq<char> {
    "unix:"@ + decimal(secs as nat)
}

fn blank_opt(o: &Option<String>) -> (r: bool)
    ensures
        r == blank(or_empty(opt_view(*o))),
{
    match o {
        Some(s) => is_blank_str(s.as_str()),
        None => {
            assert(trim(Seq::<char>::empty()) =~= Seq::<char>::empty());
            true
        },
    }
}

impl ExportProblemBank {
    /// The bank exported at `exported_at_secs` (seconds since the Unix
    /// epoch), its problems carrying the deck metadata.
    pub fn new(deck_name: String, deck_info: String, problems: Vec<Problem>, exported_at_secs: u64) -> (r:
        Self)
        ensures
            r.deck_name@ == deck_name@,
            r.deck_info@ == deck_info@,
            r.exported_at@ == export_time_text(exported_at_secs),
            r.problem_count == problems@.len(),
            r.problems@.len() == problems@.len(),
            forall|i: int|
                0 <= i < problems@.len() ==> (#[trigger] r.problems@[i])@ == with_deck_metadata(
                    problems@[i]@,
                    deck_name@,
                    deck_info@,
                ),
    {
        let info_blank = is_blank_str(deck_info.as_str());
        let mut out: Vec<Problem> = Vec::new();
        let mut i: usize = 0;
        while i < problems.len()
            invariant
                i <= problems@.len(),
                out@.len() == i,
                info_blank == blank(deck_info@),
                forall|k: int|
                    0 <= k < i ==> (#[trigger] out@[k])@ == with_deck_metadata(
                        problems@[k]@,
                        deck_name@,
                        deck_info@,
                    ),
            decreases problems@.len() - i,
        {
            let mut p = copy_problem(&problems[i]);
            if blank_opt(&p.deck_name) {
                p.deck_name = Some(deck_name.clone());
            }
            if blank_opt(&p.deck_info) && !info_blank {
                p.deck_info = Some(deck_info.clone());
            }
            assert(p@ == with_deck_metadata(problems@[i as int]@, deck_name@, deck_info@));
            out.push(p);
            i = i + 1;
        }
        let mut stamp = chars_of("unix:");
        extend_chars(&mut stamp, &decimal_chars(exported_at_secs));
        ExportProblemBank {
            deck_name,
            deck_info,
            exported_at: string_of(&stamp),
            problem_count: out.len(),
            problems: out,
        }
    }
}

// ------------------------------------------------------------------
// File names
// ------------------------------------------------------------------
/// `char::is_control`: the general category Cc.
pub open spec fn is_control(c: char) -> bool {
    (c as u32) <= 0x1F || (0x7F <= (c as u32) && (c as u32) <= 0x9F)
}

/// Characters that file systems refuse become `_`.
pub open spec fn safe_char(c: char) -> char {
    if c == '<' || c == '>' || c == ':' || c == '"' || c == '/' || c == '\\' || c == '|' || c == '?'
        || c == '*' || c == '\0' || is_control(c) {
        '_'
    } else {
        c
    }
}

/// A name made safe for a file: unsafe characters replaced, then trimmed
/// of whitespace and of dots at both ends; `None` when nothing is left.
pub open spec fn safe_stem(value: Seq<char>) -> Option<Seq<char>> {
    let cleaned = trim_set(trim(value.map_values(|c: char| safe_char(c))), seq!['.']);
    if cleaned.len() == 0 {
        None
    } else {
        Some(cleaned)
    }
}

pub fn safe_file_stem(value: &str) -> (r: Option<String>)
    ensures
        match r {
            Some(s) => safe_stem(value@) == Some(s@),
            None => safe_stem(value@) is None,
        },
{
    let v = chars_of(value);
    let mut mapped: Vec<char> = Vec::new();
    let mut i: usize = 0;
    while i < v.len()
        invariant
            i <= v@.len(),
            mapped@ == v@.take(i as int).map_values(|c: char| safe_char(c)),
        decreases v@.len() - i,
    {
        let c = v[i];
        let u = c as u32;
        let d = if c == '<' || c == '>' || c == ':' || c == '"' || c == '/' || c == '\\' || c == '|'
            || c == '?' || c == '*' || c == '\0' || u <= 0x1F || (0x7F <= u && u <= 0x9F) {
            '_'
        } else {
            c
        };
        mapped.push(d);
        assert(v@.take(i + 1).map_values(|c: char| safe_char(c)) =~= v@.take(i as int).map_values(
            |c: char| safe_char(c),
        ).push(safe_char(c)));
        i = i + 1;
    }
    assert(v@.take(v@.len() as int) =~= v@);
    let dot = vec!['.'];
    assert(dot@ =~= seq!['.']);
    let cleaned = trim_set_chars(&trim_chars(&mapped), &dot);
    if cleaned.len() == 0 {
        None
    } else {
        Some(string_of(&cleaned))
    }
}

/// A safe name for a file inside the archive, `unnamed` when nothing is left.
pub fn safe_zip_segment(value: &str) -> (r: String)
    ensures
        r@ == match safe_stem(value@) {
            Some(s) => s,
            None => "unnamed"@,
        },
{
    match safe_file_stem(value) {
        Some(s) => s,
        None => lit_string("unnamed"),
    }
}

/// The suggested file name of an export made at `timestamp_secs`:
/// `<safe name>-<seconds>.<extension>`.
pub open spec fn export_file_name(name: Seq<char>, extension: Seq<char>, secs: u64) -> Seq<char> {
    (match safe_stem(name) {
        Some(s) => s,
        None => "shuaforge-export"@,
    }) + "-"@ + decimal(secs as nat) + "."@ + trim_start_set(extension, seq!['.'])
}

pub fn default_export_file_name(name: &str, extension: &str, timestamp_secs: u64) -> (r: String)
    ensures
        r@ == export_file_name(name@, extension@, timestamp_secs),
{
    let mut out = match safe_file_stem(name) {
        Some(s) => chars_of(s.as_str()),
        None => chars_of("shuaforge-export"),
    };
    extend_str(&mut out, "-");
    extend_chars(&mut out, &decimal_chars(timestamp_secs));
    extend_str(&mut out, ".");
    let dot = vec!['.'];
    assert(dot@ =~= seq!['.']);
    extend_chars(&mut out, &trim_start_set_chars(&chars_of(extension), &dot));
    string_of(&out)
}

/// The archive path of a problem's image: `assets/<problem>-<n>-<file>`,
/// `n` counting from 1.
pub open spec fn asset_path(problem_id: Seq<char>, index: nat, filename: Seq<char>) -> Seq<char> {
    "assets/"@ + (match safe_stem(problem_id) {
        Some(s) => s,
        None => "unnamed"@,
    }) + "-"@ + decimal(index + 1) + "-"@ + match safe_stem(filename) {
        Some(s) => s,
        None => "unnamed"@,
    }
}

pub fn image_asset_path(problem_id: &str, index: u64, filename: &str) -> (r: String)
    requires
        index < u64::MAX,
    ensures
        r@ == asset_path(problem_id@, index as nat, filename@),
{
    let mut out = chars_of("assets/");
    extend_str(&mut out, safe_zip_segment(problem_id).as_str());
    extend_str(&mut out, "-");
    extend_chars(&mut out, &decimal_chars(index + 1));
    extend_str(&mut out, "-");
    extend_str(&mut out, safe_zip_segment(filename).as_str());
    string_of(&out)
}

// ------------------------------------------------------------------
// Images in an archive
// ------------------------------------------------------------------
/// An image stored in an exported archive: its path and bytes, when the
/// image has base64 data that decodes.
pub open spec fn asset_of(problem_id: Seq<char>, index: nat, image: crate::problem::ImageV) -> Option<
    (Seq<char>, Seq<u8>),
> {
    let b = trim(image.base64);
    if b.len() == 0 {
        None
    } else {
        match crate::codec::base64_decoded(b) {
            Some(bytes) => Some((asset_path(problem_id, index, image.filename), bytes)),
            None => None,
        }
    }
}

pub fn export_image_asset(problem_id: &str, index: u64, image: &crate::problem::ProblemImage) -> (r: Option<
    (String, Vec<u8>),
>)
    requires
        index < u64::MAX,
    ensures
        match asset_of(problem_id@, index as nat, image@) {
            Some((path, bytes)) => r matches Some((p, b)) && p@ == path && b@ == bytes,
            None => r is None,
        },
{
    let bv = trim_chars(&chars_of(image.base64.as_str()));
    if bv.len() == 0 {
        return None;
    }
    let b = string_of(&bv);
    match crate::codec::base64_decode(b.as_str()) {
        Some(bytes) => Some((image_asset_path(problem_id, index, image.filename.as_str()), bytes)),
        None => None,
    }
}

/// An image read from an archive: the bytes found for it, base64-encoded,
/// when it carried no data of its own.
pub fn hydrate_image(image: &mut crate::problem::ProblemImage, bytes: Option<Vec<u8>>)
    requires
        bytes matches Some(b) ==> b@.len() <= usize::MAX / 2,
    ensures
        final(image).filename == old(image).filename,
        final(image).mime_type == old(image).mime_type,
        final(image).alt_text == old(image).alt_text,
        final(image).source_url == old(image).source_url,
        trim(old(image).base64@).len() > 0 ==> final(image).base64 == old(image).base64,
        trim(old(image).base64@).len() == 0 ==> match bytes {
            Some(b) => final(image).base64@ == crate::codec::base64_encoded(b@),
            None => final(image).base64 == old(image).base64,
        },
{
    if !is_blank_str(image.base64.as_str()) {
        return;
    }
    match bytes {
        Some(b) => {
            image.base64 = crate::codec::base64_encode(&b);
        },
        None => {},
    }
}

/// The read-me placed in an exported archive.
pub fn export_readme(bank: &ExportProblemBank, asset_count: usize) -> (r: String)
    ensures
        r@ == "ShuaForge 题库导出\n\n名称："@ + bank.deck_name@ + "\n题目数："@ + decimal(
            bank.problem_count as nat,
        ) + "\n图片资源："@ + decimal(asset_count as nat) + "\n导出时间："@ + bank.exported_at@
            + "\n\n可在 ShuaForge 中直接导入本 ZIP。\n"@,
{
    let mut out = chars_of("ShuaForge 题库导出\n\n名称：");
    extend_str(&mut out, bank.deck_name.as_str());
    extend_str(&mut out, "\n题目数：");
    extend_chars(&mut out, &decimal_chars(bank.problem_count as u64));
    extend_str(&mut out, "\n图片资源：");
    extend_chars(&mut out, &decimal_chars(asset_count as u64));
    extend_str(&mut out, "\n导出时间：");
    extend_str(&mut out, bank.exported_at.as_str());
    extend_str(&mut out, "\n\n可在 ShuaForge 中直接导入本 ZIP。\n");
    string_of(&out)
}

} // verus!
