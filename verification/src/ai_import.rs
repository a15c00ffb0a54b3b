//! Importing a problem bank through the AI service: the checks before a
//! request, the prompt built from the file's text, the JSON object taken
//! from the reply, and the clean-up of the problems it returns.
//!
//! Reading the file and calling the service happen in the caller.
use vstd::prelude::*;
use crate::ai::{blank, service_configured, AiConfig};
use crate::logging::{find_char, index_of_char, lower_ascii_chars, lower_ascii_seq};
use crate::normalize::lit_string;
use crate::problem::{Problem, ProblemType, ProblemV};
use crate::text::{
    chars_eq, chars_of, decimal, decimal_chars, eq_lit, extend_chars, extend_str, is_blank_str,
    join, slice_vec, string_of, strip_prefix_all, strip_prefix_all_str, trim,
};

verus! {

/// The longest extracted text sent to the service, in characters.
pub const MAX_IMPORT_TEXT_CHARS: usize = 80000;

/// The problems the service extracted, and how much text it was given.
#[derive(Debug, Clone)]
pub struct AiImportResult {
    pub problems: Vec<Problem>,
    pub extracted_chars: usize,
}

pub open spec fn import_config_error(c: AiConfig) -> Option<Seq<char>> {
    if !c.enabled {
        Some("AI 导入需要先在设置中启用 AI"@)
    } else if !service_configured(c) {
        Some("AI 导入需要先填写 endpoint 和 model"@)
    } else {
        None
    }
}

/// An import needs the service switched on and configured.
pub fn ensure_ai_import_config(config: &AiConfig) -> (r: Result<(), String>)
    ensures
        match import_config_error(*config) {
            Some(e) => r matches Err(m) && m@ == e,
            None => r is Ok,
        },
{
    if !config.enabled {
        return Err(lit_string("AI 导入需要先在设置中启用 AI"));
    }
    if is_blank_str(config.endpoint.as_str()) || is_blank_str(config.model.as_str()) {
        return Err(lit_string("AI 导入需要先填写 endpoint 和 model"));
    }
    Ok(())
}

pub open spec fn truncation_note() -> Seq<char> {
    "\n\n[ShuaForge: 文件过长，以上为前部可解析内容，请尽量从已提供文本中提取题目。]"@
}

/// The text sent to the service: its first 80000 characters, with a note
/// when it was longer.
pub open spec fn prompt_text(text: Seq<char>) -> Seq<char> {
    if text.len() > MAX_IMPORT_TEXT_CHARS {
        text.take(MAX_IMPORT_TEXT_CHARS as int) + truncation_note()
    } else {
        text
    }
}

pub fn truncate_for_prompt(text: &str) -> (r: String)
    ensures
        r@ == prompt_text(text@),
{
    let t = chars_of(text);
    if t.len() > MAX_IMPORT_TEXT_CHARS {
        let mut v = slice_vec(&t, 0, MAX_IMPORT_TEXT_CHARS);
        extend_str(&mut v, "\n\n[ShuaForge: 文件过长，以上为前部可解析内容，请尽量从已提供文本中提取题目。]");
        string_of(&v)
    } else {
        string_of(&t)
    }
}

pub open spec fn import_prompt(file_name: Seq<char>, text: Seq<char>) -> Seq<char> {
    "你是 ShuaForge 题库导入器。请从用户提供的题库文件文本中提取题目，并只返回严格 JSON。\n\n文件名："@
        + file_name
        + "\n\n输出格式必须是：\n{\n  \"problems\": [\n    {\n      \"id\": \"稳定唯一ID，例如 ai-import-001\",\n      \"prompt\": \"题干。选择题必须把选项写入 prompt，每个选项独立一行，如 A. ...\",\n      \"answer\": \"标准答案。单选/判断使用 A/B/C；多选使用 ABC；填空/问答写文本答案\",\n      \"explanation\": \"解析；没有则为空字符串\",\n      \"tags\": [\"AI导入\"],\n      \"problem_type\": \"single_choice|multiple_choice|text\"\n    }\n  ]\n}\n\n规则：\n1. 只能输出 JSON，不要 Markdown，不要代码块。\n2. 不确定答案的题目不要导入。\n3. 保留题干、选项、答案、解析和知识点标签。\n4. 判断题请转换为两个选项：A. 对 / B. 错，并把 answer 转成 A 或 B。\n5. id 在本次返回中必须唯一。\n6. 如果原文件是表格，按列名/上下文推断题干、选项、答案、解析、题型。\n\n文件文本如下：\n"@
        + text + "\n"@
}

/// The prompt asking the service to extract problems from a file's text.
/// `file_name` is the file's name, `unknown` when it has none.
pub fn build_ai_import_prompt(file_name: &str, extracted_text: &str) -> (r: String)
    ensures
        r@ == import_prompt(file_name@, extracted_text@),
{
    let mut out = chars_of(
        "你是 ShuaForge 题库导入器。请从用户提供的题库文件文本中提取题目，并只返回严格 JSON。\n\n文件名：",
    );
    extend_str(&mut out, file_name);
    extend_str(
        &mut out,
        "\n\n输出格式必须是：\n{\n  \"problems\": [\n    {\n      \"id\": \"稳定唯一ID，例如 ai-import-001\",\n      \"prompt\": \"题干。选择题必须把选项写入 prompt，每个选项独立一行，如 A. ...\",\n      \"answer\": \"标准答案。单选/判断使用 A/B/C；多选使用 ABC；填空/问答写文本答案\",\n      \"explanation\": \"解析；没有则为空字符串\",\n      \"tags\": [\"AI导入\"],\n      \"problem_type\": \"single_choice|multiple_choice|text\"\n    }\n  ]\n}\n\n规则：\n1. 只能输出 JSON，不要 Markdown，不要代码块。\n2. 不确定答案的题目不要导入。\n3. 保留题干、选项、答案、解析和知识点标签。\n4. 判断题请转换为两个选项：A. 对 / B. 错，并把 answer 转成 A 或 B。\n5. id 在本次返回中必须唯一。\n6. 如果原文件是表格，按列名/上下文推断题干、选项、答案、解析、题型。\n\n文件文本如下：\n",
    );
    extend_str(&mut out, extracted_text);
    extend_str(&mut out, "\n");
    string_of(&out)
}

/// The request for an import: the prompt and how many characters the
/// file's text has; refused when the service is not ready or the text is
/// blank.
pub fn import_problem_bank_with_ai(config: &AiConfig, file_name: &str, extracted_text: &str) -> (r:
    Result<(String, usize), String>)
    ensures
        match import_config_error(*config) {
            Some(e) => r matches Err(m) && m@ == e,
            None => if blank(extracted_text@) {
                r matches Err(m) && m@ == "文件中没有提取到可供 AI 识别的文本"@
            } else {
                r matches Ok((p, n)) && p@ == import_prompt(file_name@, prompt_text(extracted_text@))
                    && n == extracted_text@.len()
            },
        },
{
    match ensure_ai_import_config(config) {
        Err(e) => return Err(e),
        Ok(()) => {},
    }
    if is_blank_str(extracted_text) {
        return Err(lit_string("文件中没有提取到可供 AI 识别的文本"));
    }
    let chars = chars_of(extracted_text);
    let truncated = truncate_for_prompt(extracted_text);
    Ok((build_ai_import_prompt(file_name, truncated.as_str()), chars.len()))
}

// ------------------------------------------------------------------
// The reply
// ------------------------------------------------------------------
/// The last position of `c` in `s`.
pub open spec fn last_index_of(s: Seq<char>, c: char) -> Option<int>
    decreases s.len(),
{
    if s.len() == 0 {
        None
    } else if s.last() == c {
        Some(s.len() - 1)
    } else {
        last_index_of(s.drop_last(), c)
    }
}

pub(crate) fn rfind_char(s: &[char], c: char) -> (r: Option<usize>)
    ensures
        match r {
            Some(i) => last_index_of(s@, c) == Some(i as int) && i < s@.len(),
            None => last_index_of(s@, c) is None,
        },
{
    let mut i: usize = s.len();
    assert(s@.take(s@.len() as int) =~= s@);
    while i > 0
        invariant
            i <= s@.len(),
            last_index_of(s@.take(i as int), c) == last_index_of(s@, c),
        decreases i,
    {
        let ghost t = s@.take(i as int);
        assert(t.drop_last() =~= s@.take(i - 1));
        assert(t.last() == s@[i - 1]);
        if s[i - 1] == c {
            return Some(i - 1);
        }
        i = i - 1;
    }
    assert(s@.take(0) =~= Seq::<char>::empty());
    None
}

/// The text from the first `{` to the last `}`, when the first comes first.
pub open spec fn json_object_of(text: Seq<char>) -> Option<Seq<char>> {
    match (index_of_char(text, '{'), last_index_of(text, '}')) {
        (Some(a), Some(b)) => if a <= b {
            Some(text.subrange(a, b + 1))
        } else {
            None
        },
        _ => None,
    }
}

pub fn extract_json_object(text: &str) -> (r: Option<String>)
    ensures
        match r {
            Some(o) => json_object_of(text@) == Some(o@),
            None => json_object_of(text@) is None,
        },
{
    let t = chars_of(text);
    match (find_char(&t, '{'), rfind_char(&t, '}')) {
        (Some(a), Some(b)) => if a <= b {
            assert(b < t.len());
            Some(string_of(&slice_vec(&t, a, b + 1)))
        } else {
            None
        },
        _ => None,
    }
}

/// `n` in decimal, padded with zeros to at least four digits.
pub open spec fn padded4(n: nat) -> Seq<char> {
    let d = decimal(n);
    if d.len() < 4 {
        Seq::new((4 - d.len()) as nat, |i: int| '0') + d
    } else {
        d
    }
}

/// The tag every imported problem carries.
pub open spec fn import_tag() -> Seq<char> {
    "AI导入"@
}

/// The `index`-th returned problem as imported: an id when it has none,
/// the text type when it has no type, and the import tag.
pub open spec fn cleaned_import(p: ProblemV, index: nat) -> ProblemV {
    ProblemV {
        id: if blank(p.id) {
            "ai-import-"@ + padded4(index + 1)
        } else {
            p.id
        },
        problem_type: match p.problem_type {
            Some(t) => Some(t),
            None => Some(ProblemType::Text),
        },
        tags: if p.tags.contains(import_tag()) {
            p.tags
        } else {
            p.tags.push(import_tag())
        },
        ..p
    }
}

/// A returned problem is kept when it has a prompt and an answer.
pub open spec fn importable(p: ProblemV) -> bool {
    !blank(p.prompt) && !blank(p.answer)
}

/// The kept problems of a reply, cleaned, in order.
pub open spec fn cleaned_imports(ps: Seq<ProblemV>) -> Seq<ProblemV>
    decreases ps.len(),
{
    if ps.len() == 0 {
        Seq::empty()
    } else {
        let r = cleaned_imports(ps.drop_last());
        if importable(ps.last()) {
            r.push(cleaned_import(ps.last(), (ps.len() - 1) as nat))
        } else {
            r
        }
    }
}

fn padded_index(n: u64) -> (r: Vec<char>)
    ensures
        r@ == padded4(n as nat),
{
    let d = decimal_chars(n);
    if d.len() < 4 {
        let mut out: Vec<char> = Vec::new();
        let pad = 4 - d.len();
        let mut i: usize = 0;
        while i < pad
            invariant
                i <= pad,
                out@ == Seq::new(i as nat, |k: int| '0'),
            decreases pad - i,
        {
            out.push('0');
            assert(out@ =~= Seq::new((i + 1) as nat, |k: int| '0'));
            i = i + 1;
        }
        extend_chars(&mut out, &d);
        out
    } else {
        d
    }
}

fn has_tag(tags: &Vec<String>, tag: &str) -> (r: bool)
    ensures
        r == tags.deep_view().contains(tag@),
{
    let t = chars_of(tag);
    let mut i: usize = 0;
    while i < tags.len()
        invariant
            i <= tags@.len(),
            t@ == tag@,
            forall|k: int| 0 <= k < i ==> tags.deep_view()[k] != tag@,
        decreases tags@.len() - i,
    {
        let c = chars_of(tags[i].as_str());
        if chars_eq(&c, &t) {
            assert(tags.deep_view()[i as int] == tag@);
            return true;
        }
        i = i + 1;
    }
    false
}

/// Keeps the returned problems that have a prompt and an answer, giving
/// them ids, a type and the import tag; refused when nothing is left.
pub fn validate_ai_import_problems(problems: Vec<Problem>) -> (r: Result<Vec<Problem>, String>)
    ensures
        problems@.len() == 0 ==> (r matches Err(m) && m@ == "AI 没有提取到可导入题目"@),
        problems@.len() > 0 && cleaned_imports(problems@.map_values(|p: Problem| p@)).len() == 0
            ==> (r matches Err(m) && m@ == "AI 返回的题目缺少题干或答案，无法导入"@),
        problems@.len() > 0 && cleaned_imports(problems@.map_values(|p: Problem| p@)).len() > 0
            ==> (r matches Ok(v) && v@.map_values(|p: Problem| p@) == cleaned_imports(
            problems@.map_values(|p: Problem| p@),
        )),
{
    if problems.len() == 0 {
        return Err(lit_string("AI 没有提取到可导入题目"));
    }
    let ghost pv = problems@.map_values(|p: Problem| p@);
    let mut cleaned: Vec<Problem> = Vec::new();
    let mut i: usize = 0;
    while i < problems.len()
        invariant
            i <= problems@.len(),
            pv == problems@.map_values(|p: Problem| p@),
            cleaned@.map_values(|p: Problem| p@) == cleaned_imports(pv.take(i as int)),
        decreases problems@.len() - i,
    {
        let ghost t1 = pv.take(i + 1);
        assert(t1.drop_last() =~= pv.take(i as int));
        assert(t1.last() == problems@[i as int]@);
        let mut p = crate::problem::copy_problem(&problems[i]);
        if is_blank_str(p.prompt.as_str()) || is_blank_str(p.answer.as_str()) {
        } else {
            let ghost before = cleaned@.map_values(|p: Problem| p@);
            if is_blank_str(p.id.as_str()) {
                let mut id = chars_of("ai-import-");
                let digits = padded_index((i as u64) + 1);
                extend_chars(&mut id, &digits);
                p.id = string_of(&id);
            }
            if p.problem_type.is_none() {
                p.problem_type = Some(ProblemType::Text);
            }
            if !has_tag(&p.tags, "AI导入") {
                let ghost tv = p.tags.deep_view();
                p.tags.push(lit_string("AI导入"));
                assert(p.tags.deep_view() =~= tv.push(import_tag()));
            }
            assert(p@ == cleaned_import(problems@[i as int]@, i as nat));
            cleaned.push(p);
            assert(cleaned@.map_values(|p: Problem| p@) =~= before.push(
                cleaned_import(problems@[i as int]@, i as nat),
            ));
        }
        i = i + 1;
    }
    assert(pv.take(pv.len() as int) =~= pv);
    if cleaned.len() == 0 {
        return Err(lit_string("AI 返回的题目缺少题干或答案，无法导入"));
    }
    Ok(cleaned)
}

// ------------------------------------------------------------------
// The text given to the service
// ------------------------------------------------------------------
/// The kinds of file whose text an AI import reads.
#[derive(Debug, Clone, Copy, PartialEq, Eq, Structural)]
pub enum AiImportSource {
    Csv,
    Xlsx,
    Pdf,
}

pub open spec fn ai_source_of(extension: Option<Seq<char>>) -> Option<AiImportSource> {
    match extension {
        Some(e) => {
            let l = lower_ascii_seq(e);
            if l == "csv"@ {
                Some(AiImportSource::Csv)
            } else if l == "xlsx"@ {
                Some(AiImportSource::Xlsx)
            } else if l == "pdf"@ {
                Some(AiImportSource::Pdf)
            } else {
                None
            }
        },
        None => None,
    }
}

/// How the text of a file is read, by its extension (ASCII case ignored).
pub fn ai_import_source(extension: Option<&str>) -> (r: Result<AiImportSource, String>)
    ensures
        match ai_source_of(
            match extension {
                Some(e) => Some(e@),
                None => None,
            },
        ) {
            Some(k) => r == Ok::<AiImportSource, String>(k),
            None => r matches Err(m) && m@ == "AI 动态导入目前仅支持 .csv / .xlsx / .pdf"@,
        },
{
    match extension {
        Some(e) => {
            let l = lower_ascii_chars(&chars_of(e));
            if eq_lit(&l, "csv") {
                Ok(AiImportSource::Csv)
            } else if eq_lit(&l, "xlsx") {
                Ok(AiImportSource::Xlsx)
            } else if eq_lit(&l, "pdf") {
                Ok(AiImportSource::Pdf)
            } else {
                Err(lit_string("AI 动态导入目前仅支持 .csv / .xlsx / .pdf"))
            }
        },
        None => Err(lit_string("AI 动态导入目前仅支持 .csv / .xlsx / .pdf")),
    }
}

/// The text of a CSV file without its leading byte-order marks.
pub fn csv_import_text(text: &str) -> (r: String)
    ensures
        r@ == strip_prefix_all(text@, seq!['\u{feff}']),
{
    proof {
        reveal_strlit("\u{feff}");
    }
    assert("\u{feff}"@ =~= seq!['\u{feff}']);
    string_of(&strip_prefix_all_str(&chars_of(text), "\u{feff}"))
}

/// A worksheet as its name and the text of its cells, row by row.
#[derive(Debug, Clone)]
pub struct WorkbookSheet {
    pub name: String,
    pub rows: Vec<Vec<String>>,
}

/// A cell kept on its line: line breaks and tabs become spaces.
pub open spec fn cell_line_text(cell: Seq<char>) -> Seq<char> {
    cell.map_values(|c: char| if c == '\n' || c == '\r' || c == '\t' { ' ' } else { c })
}

/// A row: its cells separated by tabs, then a line break.
pub open spec fn row_line(row: Seq<Seq<char>>) -> Seq<char> {
    join(row.map_values(|c: Seq<char>| cell_line_text(c)), "\t"@) + "\n"@
}

pub open spec fn rows_text(rows: Seq<Seq<Seq<char>>>) -> Seq<char>
    decreases rows.len(),
{
    if rows.len() == 0 {
        Seq::empty()
    } else {
        rows_text(rows.drop_last()) + row_line(rows.last())
    }
}

/// A sheet: a heading with its name, its rows, then an empty line.
pub open spec fn sheet_text(name: Seq<char>, rows: Seq<Seq<Seq<char>>>) -> Seq<char> {
    "# Sheet: "@ + name + "\n"@ + rows_text(rows) + "\n"@
}

pub open spec fn sheets_text(sheets: Seq<WorkbookSheet>) -> Seq<char>
    decreases sheets.len(),
{
    if sheets.len() == 0 {
        Seq::empty()
    } else {
        sheets_text(sheets.drop_last()) + sheet_text(sheets.last().name@, sheets.last().rows.deep_view())
    }
}

fn cell_line_chars(cell: &str) -> (r: Vec<char>)
    ensures
        r@ == cell_line_text(cell@),
{
    let v = chars_of(cell);
    let mut out: Vec<char> = Vec::new();
    let mut i: usize = 0;
    while i < v.len()
        invariant
            i <= v@.len(),
            v@ == cell@,
            out@ =~= cell_line_text(v@.take(i as int)),
        decreases v@.len() - i,
    {
        let c = v[i];
        out.push(if c == '\n' || c == '\r' || c == '\t' { ' ' } else { c });
        i = i + 1;
    }
    assert(v@.take(v@.len() as int) =~= v@);
    out
}

fn push_row_line(out: &mut Vec<char>, row: &Vec<String>)
    ensures
        final(out)@ == old(out)@ + row_line(row.deep_view()),
{
    let mut cells: Vec<Vec<char>> = Vec::new();
    let mut i: usize = 0;
    while i < row.len()
        invariant
            i <= row@.len(),
            cells.deep_view().len() == i,
            forall|k: int| 0 <= k < i ==> #[trigger] cells.deep_view()[k] == cell_line_text(row@[k]@),
        decreases row@.len() - i,
    {
        crate::text::push_line(&mut cells, cell_line_chars(row[i].as_str()));
        i = i + 1;
    }
    assert(cells.deep_view() =~= row.deep_view().map_values(|c: Seq<char>| cell_line_text(c)));
    let tab = chars_of("\t");
    let joined = crate::problem::join_chars(&cells, &tab);
    extend_chars(out, &joined);
    extend_str(out, "\n");
}

/// The text of a workbook's sheets, as the service is given it.
pub fn workbook_text(sheets: &[WorkbookSheet]) -> (r: String)
    ensures
        r@ == sheets_text(sheets@),
{
    let mut out: Vec<char> = Vec::new();
    let mut i: usize = 0;
    while i < sheets.len()
        invariant
            i <= sheets@.len(),
            out@ == sheets_text(sheets@.take(i as int)),
        decreases sheets@.len() - i,
    {
        let ghost before = out@;
        let sheet = &sheets[i];
        extend_str(&mut out, "# Sheet: ");
        extend_str(&mut out, sheet.name.as_str());
        extend_str(&mut out, "\n");
        let ghost head = out@;
        let mut j: usize = 0;
        while j < sheet.rows.len()
            invariant
                j <= sheet.rows@.len(),
                out@ == head + rows_text(sheet.rows.deep_view().take(j as int)),
            decreases sheet.rows@.len() - j,
        {
            let ghost rv = sheet.rows.deep_view();
            assert(rv.take(j + 1).drop_last() =~= rv.take(j as int));
            push_row_line(&mut out, &sheet.rows[j]);
            j = j + 1;
        }
        assert(sheet.rows.deep_view().take(sheet.rows@.len() as int) =~= sheet.rows.deep_view());
        extend_str(&mut out, "\n");
        assert(sheets@.take(i + 1).drop_last() =~= sheets@.take(i as int));
        assert(out@ =~= before + sheet_text(sheet.name@, sheet.rows.deep_view()));
        i = i + 1;
    }
    assert(sheets@.take(sheets@.len() as int) =~= sheets@);
    string_of(&out)
}

} // verus!
