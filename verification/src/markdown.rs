//! The text side of rendering explanations: Markdown lines (lists, tables,
//! formula blocks), inline formulas, and the URLs and SVG text used to draw
//! formulas.  Drawing itself happens in the caller.
use vstd::prelude::*;
use crate::normalize::{find_first, first_occ_from, lemma_first_occ_props, lit_string};
use crate::text::{
    chars_eq, chars_of, contains_chars, contains_seq, contains_str, ends_with, ends_with_chars,
    ends_with_str, extend_chars, extend_str, has_char, is_ascii_digit, is_ascii_digit_spec,
    is_whitespace, is_ws, occurs_at, replace_all, replace_all_chars, slice_vec, split_set,
    split_set_chars, starts_with, starts_with_chars, starts_with_str, string_of, trim, trim_bounds,
    trim_chars, trim_set, trim_set_chars, trim_start,
};

verus! {

// ------------------------------------------------------------------
// Characters shown as they are typed
// ------------------------------------------------------------------
/// Dashes and minus signs become `-`, a no-break space a space.
pub open spec fn display_char(c: char) -> char {
    if c == '\u{2010}' || c == '\u{2011}' || c == '\u{2012}' || c == '\u{2013}' || c == '\u{2014}'
        || c == '\u{2212}' {
        '-'
    } else if c == '\u{00a0}' {
        ' '
    } else {
        c
    }
}

pub fn normalize_display_symbols(text: &str) -> (r: String)
    ensures
        r@ == text@.map_values(|c: char| display_char(c)),
{
    let t = chars_of(text);
    let mut out: Vec<char> = Vec::new();
    let mut i: usize = 0;
    while i < t.len()
        invariant
            i <= t@.len(),
            out@ == t@.take(i as int).map_values(|c: char| display_char(c)),
        decreases t@.len() - i,
    {
        let c = t[i];
        let d = if c == '\u{2010}' || c == '\u{2011}' || c == '\u{2012}' || c == '\u{2013}' || c
            == '\u{2014}' || c == '\u{2212}' {
            '-'
        } else if c == '\u{00a0}' {
            ' '
        } else {
            c
        };
        out.push(d);
        assert(t@.take(i + 1).map_values(|c: char| display_char(c)) =~= t@.take(i as int).map_values(
            |c: char| display_char(c),
        ).push(display_char(c)));
        i = i + 1;
    }
    assert(t@.take(t@.len() as int) =~= t@);
    string_of(&out)
}

/// Bold and code markers removed.
pub open spec fn stripped_inline(text: Seq<char>) -> Seq<char> {
    replace_all(replace_all(text, "**"@, Seq::empty()), "`"@, Seq::empty())
}

pub fn strip_markdown_inline(text: &str) -> (r: String)
    ensures
        r@ == stripped_inline(text@),
{
    let t = chars_of(text);
    let empty: Vec<char> = Vec::new();
    let a = replace_all_chars(&t, &chars_of("**"), &empty);
    let b = replace_all_chars(&a, &chars_of("`"), &empty);
    assert(empty@ =~= Seq::<char>::empty());
    string_of(&b)
}

// ------------------------------------------------------------------
// List items
// ------------------------------------------------------------------
pub open spec fn all_ascii_digits(s: Seq<char>) -> bool {
    forall|i: int| 0 <= i < s.len() ==> is_ascii_digit_spec(#[trigger] s[i])
}

/// The text after the first `sep` when everything before it is digits
/// (none at all included), as in a numbered item `1. text`.
pub open spec fn numbered_rest(line: Seq<char>, sep: Seq<char>) -> Option<Seq<char>> {
    match first_occ_from(line, sep, 0) {
        Some(i) => if all_ascii_digits(line.take(i)) {
            Some(line.skip(i + sep.len()))
        } else {
            None
        },
        None => None,
    }
}

/// The text of a list item: after `*   `, `* `, `- `, or a number with
/// `.  ` or `. `.
pub open spec fn list_item_of(line: Seq<char>) -> Option<Seq<char>> {
    if starts_with(line, "*   "@) {
        Some(line.skip(4))
    } else if starts_with(line, "* "@) {
        Some(line.skip(2))
    } else if starts_with(line, "- "@) {
        Some(line.skip(2))
    } else if numbered_rest(line, ".  "@) is Some {
        numbered_rest(line, ".  "@)
    } else {
        numbered_rest(line, ". "@)
    }
}

fn all_digits_exec(s: &[char]) -> (r: bool)
    ensures
        r == all_ascii_digits(s@),
{
    let mut i: usize = 0;
    while i < s.len()
        invariant
            i <= s@.len(),
            forall|k: int| 0 <= k < i ==> is_ascii_digit_spec(#[trigger] s@[k]),
        decreases s@.len() - i,
    {
        if !is_ascii_digit(s[i]) {
            return false;
        }
        i = i + 1;
    }
    true
}

fn numbered_rest_exec(line: &Vec<char>, sep: &str) -> (r: Option<Vec<char>>)
    ensures
        match r {
            Some(v) => numbered_rest(line@, sep@) == Some(v@),
            None => numbered_rest(line@, sep@) is None,
        },
{
    let s = chars_of(sep);
    match find_first(line, &s, 0) {
        Some(i) => {
            proof {
                lemma_first_occ_props(line@, s@, 0);
            }
            let head = slice_vec(line, 0, i);
            assert(head@ =~= line@.take(i as int));
            if all_digits_exec(&head) {
                assert(i + s.len() <= line.len());
                let rest = slice_vec(line, i + s.len(), line.len());
                assert(rest@ =~= line@.skip(i + s@.len()));
                Some(rest)
            } else {
                None
            }
        },
        None => None,
    }
}

pub fn markdown_list_item(line: &str) -> (r: Option<String>)
    ensures
        match r {
            Some(v) => list_item_of(line@) == Some(v@),
            None => list_item_of(line@) is None,
        },
{
    let l = chars_of(line);
    if starts_with_str(&l, "*   ") {
        proof {
            reveal_strlit("*   ");
        }
        let v = slice_vec(&l, 4, l.len());
        assert(v@ =~= l@.skip(4));
        return Some(string_of(&v));
    }
    if starts_with_str(&l, "* ") {
        proof {
            reveal_strlit("* ");
        }
        let v = slice_vec(&l, 2, l.len());
        assert(v@ =~= l@.skip(2));
        return Some(string_of(&v));
    }
    if starts_with_str(&l, "- ") {
        proof {
            reveal_strlit("- ");
        }
        let v = slice_vec(&l, 2, l.len());
        assert(v@ =~= l@.skip(2));
        return Some(string_of(&v));
    }
    match numbered_rest_exec(&l, ".  ") {
        Some(v) => Some(string_of(&v)),
        None => match numbered_rest_exec(&l, ". ") {
            Some(v) => Some(string_of(&v)),
            None => None,
        },
    }
}

// ------------------------------------------------------------------
// SVG text and formula URLs
// ------------------------------------------------------------------
pub open spec fn svg_escape_char(c: char) -> Seq<char> {
    if c == '&' {
        "&amp;"@
    } else if c == '<' {
        "&lt;"@
    } else if c == '>' {
        "&gt;"@
    } else if c == '"' {
        "&quot;"@
    } else if c == '\'' {
        "&apos;"@
    } else {
        seq![c]
    }
}

/// Text with the XML special characters written as entities.
pub open spec fn svg_escaped(s: Seq<char>) -> Seq<char>
    decreases s.len(),
{
    if s.len() == 0 {
        Seq::empty()
    } else {
        svg_escaped(s.drop_last()) + svg_escape_char(s.last())
    }
}

pub fn escape_svg_text(text: &str) -> (r: String)
    ensures
        r@ == svg_escaped(text@),
{
    let t = chars_of(text);
    let mut out: Vec<char> = Vec::new();
    let mut i: usize = 0;
    while i < t.len()
        invariant
            i <= t@.len(),
            out@ == svg_escaped(t@.take(i as int)),
        decreases t@.len() - i,
    {
        let c = t[i];
        let ghost before = out@;
        if c == '&' {
            extend_str(&mut out, "&amp;");
        } else if c == '<' {
            extend_str(&mut out, "&lt;");
        } else if c == '>' {
            extend_str(&mut out, "&gt;");
        } else if c == '"' {
            extend_str(&mut out, "&quot;");
        } else if c == '\'' {
            extend_str(&mut out, "&apos;");
        } else {
            out.push(c);
        }
        assert(t@.take(i + 1).drop_last() =~= t@.take(i as int));
        assert(out@ =~= before + svg_escape_char(c));
        i = i + 1;
    }
    assert(t@.take(t@.len() as int) =~= t@);
    string_of(&out)
}

/// The text is an SVG document: it starts with `<svg`, or with `<?xml` and
/// holds `<svg`, after leading whitespace.
pub open spec fn is_svg_text(text: Seq<char>) -> bool {
    let t = trim_start(text);
    starts_with(t, "<svg"@) || (starts_with(t, "<?xml"@) && contains_seq(t, "<svg"@))
}

pub fn looks_like_svg(text: &str) -> (r: bool)
    ensures
        r == is_svg_text(text@),
{
    let t = chars_of(text);
    let (lo, _hi) = trim_bounds(&t);
    let s = slice_vec(&t, lo, t.len());
    assert(s@ =~= t@.skip(lo as int));
    starts_with_str(&s, "<svg") || (starts_with_str(&s, "<?xml") && contains_str(&s, "<svg"))
}

pub open spec fn unreserved_byte(b: u8) -> bool {
    (65 <= b && b <= 90) || (97 <= b && b <= 122) || (48 <= b && b <= 57) || b == 45 || b == 95
        || b == 46 || b == 126
}

pub open spec fn hex_upper(d: u8) -> char {
    if d < 10 {
        (48 + d) as char
    } else {
        (55 + d) as char
    }
}

/// A byte of a URL component: itself when unreserved, else `%XX`.
pub open spec fn encoded_byte(b: u8) -> Seq<char> {
    if unreserved_byte(b) {
        seq![b as char]
    } else {
        seq!['%', hex_upper(b / 16), hex_upper(b % 16)]
    }
}

pub open spec fn percent_encoded(bytes: Seq<u8>) -> Seq<char>
    decreases bytes.len(),
{
    if bytes.len() == 0 {
        Seq::empty()
    } else {
        percent_encoded(bytes.drop_last()) + encoded_byte(bytes.last())
    }
}

fn hex_upper_exec(d: u8) -> (r: char)
    requires
        d < 16,
    ensures
        r == hex_upper(d),
{
    if d < 10 {
        (48 + d) as char
    } else {
        (55 + d) as char
    }
}

/// Percent-encodes the UTF-8 bytes of `input`, keeping ASCII letters,
/// digits and `-_.~`.
pub fn percent_encode_url_component(input: &str) -> (r: String)
    ensures
        r@ == percent_encoded(vstd::utf8::encode_utf8(input@)),
{
    let bytes = input.as_bytes();
    let mut out: Vec<char> = Vec::new();
    let mut i: usize = 0;
    while i < bytes.len()
        invariant
            i <= bytes@.len(),
            out@ == percent_encoded(bytes@.take(i as int)),
        decreases bytes@.len() - i,
    {
        let b = bytes[i];
        let ghost before = out@;
        if (65 <= b && b <= 90) || (97 <= b && b <= 122) || (48 <= b && b <= 57) || b == 45 || b
            == 95 || b == 46 || b == 126 {
            out.push(b as char);
        } else {
            out.push('%');
            out.push(hex_upper_exec(b / 16));
            out.push(hex_upper_exec(b % 16));
        }
        assert(bytes@.take(i + 1).drop_last() =~= bytes@.take(i as int));
        assert(out@ =~= before + encoded_byte(b));
        i = i + 1;
    }
    assert(bytes@.take(bytes@.len() as int) =~= bytes@);
    string_of(&out)
}

/// Where the formula goes in a URL template.
pub const REMOTE_FORMULA_PLACEHOLDER: &'static str = "{latex}";

/// The default service: CodeCogs, formula in the path.
pub const CODECOGS_SVG_URL_TEMPLATE: &'static str = "https://latex.codecogs.com/svg.image?{latex}";

/// CodeCogs with the formula drawn in white.
pub const CODECOGS_DARK_SVG_URL_TEMPLATE: &'static str =
    "https://latex.codecogs.com/svg.image?\\color{white}{%20{latex}%20}";

/// The URL that renders `latex`: the encoded formula (with
/// `\displaystyle ` first for display formulas) replaces the placeholder
/// of the trimmed template, or is added as the `latex` query parameter.
pub open spec fn formula_url(template: Seq<char>, latex: Seq<char>, display: bool) -> Seq<char> {
    let l = if display {
        "\\displaystyle "@ + latex
    } else {
        latex
    };
    let encoded = percent_encoded(vstd::utf8::encode_utf8(l));
    let t = trim(template);
    if contains_seq(t, REMOTE_FORMULA_PLACEHOLDER@) {
        replace_all(t, REMOTE_FORMULA_PLACEHOLDER@, encoded)
    } else if t.contains('?') {
        t + "&latex="@ + encoded
    } else {
        t + "?latex="@ + encoded
    }
}

pub fn build_remote_formula_url(template: &str, latex: &str, display: bool) -> (r: Option<String>)
    ensures
        r matches Some(u) && u@ == formula_url(template@, latex@, display),
{
    let l = if display {
        let mut v = chars_of("\\displaystyle ");
        extend_str(&mut v, latex);
        string_of(&v)
    } else {
        lit_string(latex)
    };
    let encoded = chars_of(percent_encode_url_component(l.as_str()).as_str());
    let t = trim_chars(&chars_of(template));
    let placeholder = chars_of(REMOTE_FORMULA_PLACEHOLDER);
    if contains_chars(&t, &placeholder) {
        Some(string_of(&replace_all_chars(&t, &placeholder, &encoded)))
    } else if has_char(&t, '?') {
        let mut v = t;
        extend_str(&mut v, "&latex=");
        extend_chars(&mut v, &encoded);
        Some(string_of(&v))
    } else {
        let mut v = t;
        extend_str(&mut v, "?latex=");
        extend_chars(&mut v, &encoded);
        Some(string_of(&v))
    }
}

// ------------------------------------------------------------------
// Formula blocks
// ------------------------------------------------------------------
/// `formula` with `part` appended, space-separated; empty parts add nothing.
pub open spec fn append_part(formula: Seq<char>, part: Seq<char>) -> Seq<char> {
    if part.len() == 0 {
        formula
    } else if formula.len() == 0 {
        part
    } else {
        formula + " "@ + part
    }
}

/// Line `index` of a block as it contributes: trimmed, and on the first
/// line the opening delimiter and the spaces after it removed (`None`
/// when the first line does not open the block).
pub open spec fn block_part(line: Seq<char>, open: Seq<char>, index: int) -> Option<Seq<char>> {
    let t = trim(line);
    if index == 0 {
        if starts_with(t, open) {
            Some(trim_start(t.skip(open.len() as int)))
        } else {
            None
        }
    } else {
        Some(t)
    }
}

/// The line closes the block.
pub open spec fn block_ends(part: Seq<char>, open: Seq<char>, close: Seq<char>, index: int) -> bool {
    if open == close && index == 0 {
        ends_with(part, close) && part.len() > close.len()
    } else {
        ends_with(part, close)
    }
}

/// The block formula read from line `index` on, with `formula` read so
/// far, and the number of lines it takes.
pub open spec fn collect_from(
    lines: Seq<Seq<char>>,
    open: Seq<char>,
    close: Seq<char>,
    index: int,
    formula: Seq<char>,
) -> Option<(Seq<char>, nat)>
    decreases lines.len() - index,
{
    if index < 0 || index >= lines.len() {
        None
    } else {
        match block_part(lines[index], open, index) {
            None => None,
            Some(part) => if block_ends(part, open, close, index) {
                Some(
                    (
                        append_part(
                            formula,
                            crate::text::trim_end(part.take(part.len() - close.len())),
                        ),
                        (index + 1) as nat,
                    ),
                )
            } else {
                collect_from(lines, open, close, index + 1, append_part(formula, part))
            },
        }
    }
}

pub open spec fn str_views(lines: Seq<&str>) -> Seq<Seq<char>> {
    lines.map_values(|l: &str| l@)
}

fn append_part_exec(formula: &mut Vec<char>, part: &[char])
    ensures
        final(formula)@ == append_part(old(formula)@, part@),
{
    if part.len() > 0 {
        if formula.len() > 0 {
            formula.push(' ');
            proof {
                reveal_strlit(" ");
            }
        }
        extend_chars(formula, part);
    }
    proof {
        if part@.len() > 0 && old(formula)@.len() > 0 {
            assert(formula@ =~= old(formula)@ + " "@ + part@);
        }
    }
}

/// A formula block: the lines from one that opens with `open` to the one
/// that ends with `close`, joined with spaces, with the number of lines.
pub fn collect_delimited_latex(lines: &[&str], open: &str, close: &str) -> (r: Option<(String, usize)>)
    ensures
        match r {
            Some((f, n)) => collect_from(str_views(lines@), open@, close@, 0, Seq::empty()) == Some(
                (f@, n as nat),
            ),
            None => collect_from(str_views(lines@), open@, close@, 0, Seq::empty()) is None,
        },
{
    let ghost lv = str_views(lines@);
    let o = chars_of(open);
    let c = chars_of(close);
    let same = chars_eq(&o, &c);
    let mut formula: Vec<char> = Vec::new();
    let mut index: usize = 0;
    while index < lines.len()
        invariant
            index <= lines@.len(),
            lv == str_views(lines@),
            lv.len() == lines@.len(),
            o@ == open@,
            c@ == close@,
            same == (open@ == close@),
            collect_from(lv, open@, close@, index as int, formula@) == collect_from(
                lv,
                open@,
                close@,
                0,
                Seq::empty(),
            ),
        decreases lines@.len() - index,
    {
        let t = trim_chars(&chars_of(lines[index]));
        assert(lv[index as int] == lines@[index as int]@);
        let part = if index == 0 {
            if !starts_with_chars(&t, &o) {
                return None;
            }
            let rest = slice_vec(&t, o.len(), t.len());
            assert(rest@ =~= t@.skip(o@.len() as int));
            crate::text::trim_start_chars(&rest)
        } else {
            t
        };
        let ended = if same && index == 0 {
            ends_with_chars(&part, &c) && part.len() > c.len()
        } else {
            ends_with_chars(&part, &c)
        };
        if ended {
            let body = slice_vec(&part, 0, part.len() - c.len());
            assert(body@ =~= part@.take(part@.len() - c@.len()));
            let body = crate::text::trim_end_chars(&body);
            append_part_exec(&mut formula, &body);
            return Some((string_of(&formula), index + 1));
        }
        append_part_exec(&mut formula, &part);
        index = index + 1;
    }
    None
}

/// A formula block starting at the first line: `\[ ... \]` or `$$ ... $$`.
pub open spec fn latex_block_of(lines: Seq<Seq<char>>) -> Option<(Seq<char>, nat)> {
    if lines.len() == 0 {
        None
    } else if starts_with(trim(lines[0]), "\\["@) {
        collect_from(lines, "\\["@, "\\]"@, 0, Seq::empty())
    } else if starts_with(trim(lines[0]), "$$"@) {
        collect_from(lines, "$$"@, "$$"@, 0, Seq::empty())
    } else {
        None
    }
}

pub fn parse_latex_block(lines: &[&str]) -> (r: Option<(String, usize)>)
    ensures
        match r {
            Some((f, n)) => latex_block_of(str_views(lines@)) == Some((f@, n as nat)),
            None => latex_block_of(str_views(lines@)) is None,
        },
{
    if lines.len() == 0 {
        return None;
    }
    let first = trim_chars(&chars_of(lines[0]));
    assert(str_views(lines@)[0] == lines@[0]@);
    if starts_with_str(&first, "\\[") {
        collect_delimited_latex(lines, "\\[", "\\]")
    } else if starts_with_str(&first, "$$") {
        collect_delimited_latex(lines, "$$", "$$")
    } else {
        None
    }
}

// ------------------------------------------------------------------
// Tables
// ------------------------------------------------------------------
/// The cells of a table row: the trimmed line, outer `|`s removed, split
/// at `|`, each cell trimmed; a row needs a `|` and two cells.
pub open spec fn table_row_of(line: Seq<char>) -> Option<Seq<Seq<char>>> {
    let t = trim(line);
    if !t.contains('|') {
        None
    } else {
        let cells = split_set(trim_set(t, seq!['|']), seq!['|']).map_values(|c: Seq<char>| trim(c));
        if cells.len() >= 2 {
            Some(cells)
        } else {
            None
        }
    }
}

pub fn parse_table_row(line: &str) -> (r: Option<Vec<String>>)
    ensures
        match r {
            Some(v) => table_row_of(line@) == Some(v.deep_view()),
            None => table_row_of(line@) is None,
        },
{
    let t = trim_chars(&chars_of(line));
    if !has_char(&t, '|') {
        return None;
    }
    let bar = vec!['|'];
    let inner = trim_set_chars(&t, &bar);
    let pieces = split_set_chars(&inner, &bar);
    assert(bar@ =~= seq!['|']);
    let ghost pv = pieces.deep_view();
    let mut cells: Vec<String> = Vec::new();
    let mut i: usize = 0;
    while i < pieces.len()
        invariant
            i <= pieces@.len(),
            pv == pieces.deep_view(),
            pv.len() == pieces@.len(),
            cells.deep_view() == pv.take(i as int).map_values(|c: Seq<char>| trim(c)),
        decreases pieces@.len() - i,
    {
        let cell = trim_chars(&pieces[i]);
        let ghost before = cells.deep_view();
        let cs = string_of(&cell);
        cells.push(cs);
        assert(pv[i as int] == pieces@[i as int]@);
        assert(cells.deep_view() =~= before.push(cell@));
        assert(cells.deep_view() =~= pv.take(i + 1).map_values(|c: Seq<char>| trim(c)));
        i = i + 1;
    }
    assert(pv.take(pv.len() as int) =~= pv);
    if cells.len() >= 2 {
        Some(cells)
    } else {
        None
    }
}

pub open spec fn separator_cell(cell: Seq<char>) -> bool {
    let c = trim(cell);
    c.len() > 0 && forall|i: int| 0 <= i < c.len() ==> (#[trigger] c[i] == '-' || c[i] == ':' || c[i] == ' ')
}

/// The line separates a table's header: a row of at least `min_columns`
/// cells made of `-`, `:` and spaces.
pub open spec fn is_separator_row(line: Seq<char>, min_columns: nat) -> bool {
    match table_row_of(line) {
        Some(cells) => cells.len() >= min_columns && forall|i: int|
            0 <= i < cells.len() ==> separator_cell(#[trigger] cells[i]),
        None => false,
    }
}

fn separator_cell_exec(cell: &str) -> (r: bool)
    ensures
        r == separator_cell(cell@),
{
    let c = trim_chars(&chars_of(cell));
    if c.len() == 0 {
        return false;
    }
    let mut i: usize = 0;
    while i < c.len()
        invariant
            i <= c@.len(),
            c@ == trim(cell@),
            c@.len() > 0,
            forall|k: int| 0 <= k < i ==> (#[trigger] c@[k] == '-' || c@[k] == ':' || c@[k] == ' '),
        decreases c@.len() - i,
    {
        let ch = c[i];
        if !(ch == '-' || ch == ':' || ch == ' ') {
            return false;
        }
        i = i + 1;
    }
    true
}

pub fn is_table_separator(line: &str, min_columns: usize) -> (r: bool)
    ensures
        r == is_separator_row(line@, min_columns as nat),
{
    match parse_table_row(line) {
        Some(cells) => {
            if cells.len() < min_columns {
                return false;
            }
            let mut i: usize = 0;
            while i < cells.len()
                invariant
                    i <= cells@.len(),
                    table_row_of(line@) == Some(cells.deep_view()),
                    cells@.len() >= min_columns,
                    forall|k: int| 0 <= k < i ==> separator_cell(#[trigger] cells.deep_view()[k]),
                decreases cells@.len() - i,
            {
                assert(cells.deep_view()[i as int] == cells@[i as int]@);
                if !separator_cell_exec(cells[i].as_str()) {
                    return false;
                }
                i = i + 1;
            }
            true
        },
        None => false,
    }
}

/// How many rows follow from line `i` on: each parses as a row.
pub open spec fn body_rows(lines: Seq<Seq<char>>, i: int) -> nat
    decreases lines.len() - i,
{
    if i < 0 || i >= lines.len() {
        0
    } else if table_row_of(lines[i]) is Some {
        1 + body_rows(lines, i + 1)
    } else {
        0
    }
}

/// A table at the first line: a header row, a separator with as many
/// columns, then the rows that follow; with the number of lines taken.
pub open spec fn table_of(lines: Seq<Seq<char>>) -> Option<(Seq<Seq<Seq<char>>>, nat)> {
    if lines.len() < 2 {
        None
    } else {
        match table_row_of(lines[0]) {
            None => None,
            Some(header) => if !is_separator_row(lines[1], header.len()) {
                None
            } else {
                let n = body_rows(lines, 2);
                Some(
                    (
                        seq![header] + Seq::new(n, |k: int| table_row_of(lines[k + 2])->0),
                        n + 2,
                    ),
                )
            },
        }
    }
}

pub fn parse_markdown_table(lines: &[&str]) -> (r: Option<(Vec<Vec<String>>, usize)>)
    ensures
        match r {
            Some((rows, n)) => (table_of(str_views(lines@)) matches Some((t, m)) && n == m
                && rows@.len() == t.len() && forall|k: int|
                0 <= k < t.len() ==> (#[trigger] rows@[k]).deep_view() == t[k]),
            None => table_of(str_views(lines@)) is None,
        },
{
    let ghost lv = str_views(lines@);
    if lines.len() < 2 {
        return None;
    }
    assert(lv[0] == lines@[0]@ && lv[1] == lines@[1]@);
    let header = match parse_table_row(lines[0]) {
        Some(h) => h,
        None => return None,
    };
    if header.len() < 2 || !is_table_separator(lines[1], header.len()) {
        return None;
    }
    let ghost hv = header.deep_view();
    let mut rows: Vec<Vec<String>> = Vec::new();
    rows.push(header);
    let mut i: usize = 2;
    let mut stop = false;
    while i < lines.len() && !stop
        invariant
            2 <= i <= lines@.len(),
            lv == str_views(lines@),
            lv.len() == lines@.len(),
            rows@.len() == i - 1,
            rows@[0].deep_view() == hv,
            forall|k: int|
                1 <= k < rows@.len() ==> table_row_of(lv[k + 1]) == Some(
                    (#[trigger] rows@[k]).deep_view(),
                ),
            !stop ==> body_rows(lv, 2) == (i - 2) + body_rows(lv, i as int),
            stop ==> body_rows(lv, 2) == i - 2,
        decreases lines@.len() - i + (if stop { 0int } else { 1int }),
    {
        assert(lv[i as int] == lines@[i as int]@);
        match parse_table_row(lines[i]) {
            Some(row) => {
                let ghost old_rows = rows@;
                rows.push(row);
                proof {
                    assert forall|k: int| 1 <= k < rows@.len() implies table_row_of(lv[k + 1]) == Some(
                        (#[trigger] rows@[k]).deep_view(),
                    ) by {
                        if k < old_rows.len() {
                            assert(rows@[k] == old_rows[k]);
                        }
                    }
                }
                i = i + 1;
            },
            None => {
                stop = true;
            },
        }
    }
    proof {
        if !stop {
            assert(body_rows(lv, i as int) == 0);
        }
        let n = body_rows(lv, 2);
        let t = seq![hv] + Seq::new(n, |k: int| table_row_of(lv[k + 2])->0);
        assert forall|k: int| 0 <= k < t.len() implies (#[trigger] rows@[k]).deep_view() == t[k] by {
            if k > 0 {
                assert(t[k] == table_row_of(lv[k + 1])->0);
            }
        }
    }
    let n = i;
    Some((rows, n))
}

// ------------------------------------------------------------------
// Inline formulas
// ------------------------------------------------------------------
/// How many backslashes directly precede position `i`.
pub open spec fn backslashes_before(t: Seq<char>, i: int) -> nat
    decreases i,
{
    if i <= 0 || i > t.len() {
        0
    } else if t[i - 1] == '\\' {
        1 + backslashes_before(t, i - 1)
    } else {
        0
    }
}

/// The character at `i` is escaped: an odd number of backslashes precede it.
pub open spec fn escaped_at(t: Seq<char>, i: int) -> bool {
    backslashes_before(t, i) % 2 == 1
}

/// The first occurrence of `needle` at or after `from` that is not escaped.
pub open spec fn find_unescaped(t: Seq<char>, needle: Seq<char>, from: int) -> Option<int>
    decreases t.len() + 1 - from,
{
    if from < 0 || from > t.len() || needle.len() == 0 {
        None
    } else {
        match first_occ_from(t, needle, from) {
            Some(a) => if !escaped_at(t, a) {
                Some(a)
            } else {
                proof {
                    lemma_first_occ_props(t, needle, from);
                }
                find_unescaped(t, needle, a + needle.len())
            },
            None => None,
        }
    }
}

pub proof fn lemma_find_unescaped(t: Seq<char>, needle: Seq<char>, from: int)
    ensures
        match find_unescaped(t, needle, from) {
            Some(a) => from <= a && occurs_at(t, needle, a) && !escaped_at(t, a),
            None => true,
        },
    decreases t.len() + 1 - from,
{
    if 0 <= from <= t.len() && needle.len() > 0 {
        lemma_first_occ_props(t, needle, from);
        match first_occ_from(t, needle, from) {
            Some(a) => if escaped_at(t, a) {
                lemma_find_unescaped(t, needle, a + needle.len());
            },
            None => {},
        }
    }
}

fn is_escaped(t: &[char], index: usize) -> (r: bool)
    requires
        index <= t@.len(),
    ensures
        r == escaped_at(t@, index as int),
{
    let mut count: usize = 0;
    let mut i: usize = index;
    while i > 0 && t[i - 1] == '\\'
        invariant
            i <= index,
            count == index - i,
            index <= t@.len(),
            backslashes_before(t@, index as int) == count + backslashes_before(t@, i as int),
        decreases i,
    {
        count = count + 1;
        i = i - 1;
    }
    count % 2 == 1
}

fn find_unescaped_str(t: &[char], needle: &[char], from: usize) -> (r: Option<usize>)
    requires
        needle@.len() > 0,
        from <= t@.len(),
    ensures
        match r {
            Some(a) => find_unescaped(t@, needle@, from as int) == Some(a as int),
            None => find_unescaped(t@, needle@, from as int) is None,
        },
{
    let mut search: usize = from;
    loop
        invariant
            search <= t@.len(),
            needle@.len() > 0,
            find_unescaped(t@, needle@, search as int) == find_unescaped(t@, needle@, from as int),
        decreases t@.len() - search,
    {
        match find_first(t, needle, search) {
            Some(a) => {
                if !is_escaped(t, a) {
                    return Some(a);
                }
                assert(a + needle@.len() <= t@.len());
                assert(needle.len() <= t.len() - a);
                search = a + needle.len();
            },
            None => return None,
        }
    }
}

/// Where an inline formula was found: the whole of it with delimiters,
/// and its content.
#[derive(Clone, Copy, Debug, PartialEq, Eq, Structural)]
pub struct FormulaMatch {
    pub start: usize,
    pub end: usize,
    pub content_start: usize,
    pub content_end: usize,
    pub display: bool,
}

/// A formula between `open` and `close` (both unescaped), not empty.
pub open spec fn delimited_formula(
    t: Seq<char>,
    cursor: int,
    open: Seq<char>,
    close: Seq<char>,
    display: bool,
) -> Option<(int, int, int, int, bool)> {
    match find_unescaped(t, open, cursor) {
        None => None,
        Some(start) => {
            let cs = start + open.len();
            match find_unescaped(t, close, cs) {
                None => None,
                Some(ce) => if ce > cs {
                    Some((start, ce + close.len(), cs, ce, display))
                } else {
                    None
                },
            }
        },
    }
}

/// The content holds something formula-like: a backslash, `_`, `^`, an
/// operator or a brace.
pub open spec fn math_like(content: Seq<char>) -> bool {
    let t = trim(content);
    t.len() > 0 && exists|i: int|
        0 <= i < t.len() && {
            let c = #[trigger] t[i];
            c == '\\' || c == '_' || c == '^' || c == '=' || c == '+' || c == '-' || c == '*' || c
                == '/' || c == '<' || c == '>' || c == '{' || c == '}'
        }
}

/// A `$...$` formula: `$$` is skipped, and so is dollar text that does not
/// look like mathematics.
pub open spec fn dollar_formula(t: Seq<char>, cursor: int) -> Option<(int, int, int, int, bool)>
    decreases t.len() + 1 - cursor,
{
    if cursor < 0 || cursor > t.len() {
        None
    } else {
        match find_unescaped(t, "$"@, cursor) {
            None => None,
            Some(start) => {
                proof {
                    lemma_find_unescaped(t, "$"@, cursor);
                    reveal_strlit("$");
                }
                if starts_with(t.skip(start), "$$"@) {
                    dollar_formula(t, start + 2)
                } else {
                    let cs = start + 1;
                    match find_unescaped(t, "$"@, cs) {
                        None => None,
                        Some(ce) => {
                            proof {
                                lemma_find_unescaped(t, "$"@, cs);
                            }
                            if starts_with(t.skip(ce), "$$"@) {
                                dollar_formula(t, ce + 2)
                            } else if math_like(t.subrange(cs, ce)) {
                                Some((start, ce + 1, cs, ce, false))
                            } else {
                                dollar_formula(t, ce + 1)
                            }
                        },
                    }
                }
            },
        }
    }
}

/// Of two candidates the one that starts first; the first one on a tie.
pub open spec fn earliest(
    a: Option<(int, int, int, int, bool)>,
    b: Option<(int, int, int, int, bool)>,
) -> Option<(int, int, int, int, bool)> {
    match (a, b) {
        (None, _) => b,
        (Some(_), None) => a,
        (Some(x), Some(y)) => if y.0 < x.0 {
            b
        } else {
            a
        },
    }
}

/// The next formula at or after `cursor`: `\(..\)`, `\[..\]`, `$$..$$`
/// or `$..$`, whichever starts first.
pub open spec fn next_formula(t: Seq<char>, cursor: int) -> Option<(int, int, int, int, bool)> {
    earliest(
        earliest(
            earliest(
                delimited_formula(t, cursor, "\\("@, "\\)"@, false),
                delimited_formula(t, cursor, "\\["@, "\\]"@, true),
            ),
            delimited_formula(t, cursor, "$$"@, "$$"@, true),
        ),
        dollar_formula(t, cursor),
    )
}

pub open spec fn match_view(m: FormulaMatch) -> (int, int, int, int, bool) {
    (m.start as int, m.end as int, m.content_start as int, m.content_end as int, m.display)
}

pub open spec fn opt_match_view(m: Option<FormulaMatch>) -> Option<(int, int, int, int, bool)> {
    match m {
        Some(x) => Some(match_view(x)),
        None => None,
    }
}

fn find_delimited_formula(t: &[char], cursor: usize, open: &str, close: &str, display: bool) -> (r:
    Option<FormulaMatch>)
    requires
        cursor <= t@.len(),
        open@.len() > 0,
        close@.len() > 0,
    ensures
        opt_match_view(r) == delimited_formula(t@, cursor as int, open@, close@, display),
        r matches Some(m) ==> cursor <= m.start < m.content_start <= m.content_end < m.end <= t@.len(),
{
    let o = chars_of(open);
    let c = chars_of(close);
    let start = match find_unescaped_str(t, &o, cursor) {
        Some(s) => s,
        None => return None,
    };
    proof {
        lemma_find_unescaped(t@, o@, cursor as int);
    }
    assert(o.len() <= t.len() - start);
    let cs = start + o.len();
    let ce = match find_unescaped_str(t, &c, cs) {
        Some(e) => e,
        None => return None,
    };
    proof {
        lemma_find_unescaped(t@, c@, cs as int);
    }
    assert(c.len() <= t.len() - ce);
    if ce > cs {
        Some(FormulaMatch { start, end: ce + c.len(), content_start: cs, content_end: ce, display })
    } else {
        None
    }
}

fn looks_like_latex_math(content: &[char]) -> (r: bool)
    ensures
        r == math_like(content@),
{
    let t = trim_chars(content);
    if t.len() == 0 {
        return false;
    }
    let mut i: usize = 0;
    while i < t.len()
        invariant
            i <= t@.len(),
            t@ == trim(content@),
            t@.len() > 0,
            forall|k: int|
                0 <= k < i ==> !({
                    let c = #[trigger] t@[k];
                    c == '\\' || c == '_' || c == '^' || c == '=' || c == '+' || c == '-' || c
                        == '*' || c == '/' || c == '<' || c == '>' || c == '{' || c == '}'
                }),
        decreases t@.len() - i,
    {
        let c = t[i];
        if c == '\\' || c == '_' || c == '^' || c == '=' || c == '+' || c == '-' || c == '*' || c
            == '/' || c == '<' || c == '>' || c == '{' || c == '}' {
            assert(t@[i as int] == c);
            return true;
        }
        i = i + 1;
    }
    false
}

fn find_dollar_formula(t: &[char], cursor: usize) -> (r: Option<FormulaMatch>)
    requires
        cursor <= t@.len(),
    ensures
        opt_match_view(r) == dollar_formula(t@, cursor as int),
        r matches Some(m) ==> cursor <= m.start < m.content_start <= m.content_end < m.end <= t@.len(),
{
    let dollar = chars_of("$");
    let two = chars_of("$$");
    proof {
        reveal_strlit("$");
        reveal_strlit("$$");
    }
    let mut cur: usize = cursor;
    loop
        invariant
            cursor <= cur <= t@.len(),
            dollar@ == "$"@,
            two@ == "$$"@,
            dollar@ == seq!['$'],
            two@.len() == 2,
            dollar_formula(t@, cur as int) == dollar_formula(t@, cursor as int),
        decreases t@.len() - cur,
    {
        let start = match find_unescaped_str(t, &dollar, cur) {
            Some(s) => s,
            None => return None,
        };
        proof {
            lemma_find_unescaped(t@, dollar@, cur as int);
        }
        let rest = slice_vec(t, start, t.len());
        assert(rest@ =~= t@.skip(start as int));
        if starts_with_chars(&rest, &two) {
            assert(start + 2 <= t@.len());
            cur = start + 2;
        } else {
            let cs = start + 1;
            let ce = match find_unescaped_str(t, &dollar, cs) {
                Some(e) => e,
                None => return None,
            };
            proof {
                lemma_find_unescaped(t@, dollar@, cs as int);
            }
            let rest2 = slice_vec(t, ce, t.len());
            assert(rest2@ =~= t@.skip(ce as int));
            if starts_with_chars(&rest2, &two) {
                assert(ce + 2 <= t@.len());
                cur = ce + 2;
            } else {
                let content = slice_vec(t, cs, ce);
                if looks_like_latex_math(&content) {
                    return Some(
                        FormulaMatch {
                            start,
                            end: ce + 1,
                            content_start: cs,
                            content_end: ce,
                            display: false,
                        },
                    );
                }
                cur = ce + 1;
            }
        }
    }
}

fn earliest_exec(a: Option<FormulaMatch>, b: Option<FormulaMatch>) -> (r: Option<FormulaMatch>)
    ensures
        opt_match_view(r) == earliest(opt_match_view(a), opt_match_view(b)),
        r == a || r == b,
{
    match (a, b) {
        (None, _) => b,
        (Some(_), None) => a,
        (Some(x), Some(y)) => if y.start < x.start {
            b
        } else {
            a
        },
    }
}

pub fn find_next_inline_formula(t: &[char], cursor: usize) -> (r: Option<FormulaMatch>)
    requires
        cursor <= t@.len(),
    ensures
        opt_match_view(r) == next_formula(t@, cursor as int),
        r matches Some(m) ==> cursor <= m.start < m.content_start <= m.content_end < m.end <= t@.len(),
{
    proof {
        reveal_strlit("\\(");
        reveal_strlit("\\)");
        reveal_strlit("\\[");
        reveal_strlit("\\]");
        reveal_strlit("$$");
    }
    let a = find_delimited_formula(t, cursor, "\\(", "\\)", false);
    let b = find_delimited_formula(t, cursor, "\\[", "\\]", true);
    let c = find_delimited_formula(t, cursor, "$$", "$$", true);
    let d = find_dollar_formula(t, cursor);
    let ab = earliest_exec(a, b);
    let abc = earliest_exec(ab, c);
    earliest_exec(abc, d)
}

/// A piece of a line: plain text or a formula.
#[derive(Debug, Clone, PartialEq, Eq)]
pub enum InlineSegment {
    Text(String),
    Formula { latex: String, display: bool },
}

pub enum SegmentView {
    Text(Seq<char>),
    Formula(Seq<char>, bool),
}

impl View for InlineSegment {
    type V = SegmentView;

    open spec fn view(&self) -> SegmentView {
        match self {
            InlineSegment::Text(s) => SegmentView::Text(s@),
            InlineSegment::Formula { latex, display } => SegmentView::Formula(latex@, *display),
        }
    }
}

/// The pieces of `t` from `cursor` on: text up to the next formula, the
/// formula, and so on; the rest after the last formula is text.
pub open spec fn segments_from(t: Seq<char>, cursor: int) -> Seq<SegmentView>
    decreases t.len() - cursor,
{
    if cursor < 0 || cursor >= t.len() {
        Seq::empty()
    } else {
        match next_formula(t, cursor) {
            None => seq![SegmentView::Text(t.skip(cursor))],
            Some(m) => if cursor <= m.0 && cursor < m.1 && m.1 <= t.len() {
                (if m.0 > cursor {
                    seq![SegmentView::Text(t.subrange(cursor, m.0))]
                } else {
                    Seq::empty()
                }) + seq![SegmentView::Formula(t.subrange(m.2, m.3), m.4)] + segments_from(t, m.1)
            } else {
                Seq::empty()
            },
        }
    }
}

/// The pieces of a whole line (an empty line is one empty text piece).
pub open spec fn inline_segments(t: Seq<char>) -> Seq<SegmentView> {
    if t.len() == 0 {
        seq![SegmentView::Text(Seq::empty())]
    } else {
        segments_from(t, 0)
    }
}

pub open spec fn segment_views(v: Seq<InlineSegment>) -> Seq<SegmentView> {
    v.map_values(|s: InlineSegment| s@)
}

pub fn parse_inline_formula_segments(text: &str) -> (r: Vec<InlineSegment>)
    ensures
        segment_views(r@) == inline_segments(text@),
{
    let t = chars_of(text);
    let mut segments: Vec<InlineSegment> = Vec::new();
    if t.len() == 0 {
        segments.push(InlineSegment::Text(String::new()));
        assert(segment_views(segments@) =~= seq![SegmentView::Text(Seq::empty())]);
        return segments;
    }
    let mut cursor: usize = 0;
    let mut done = false;
    assert(segment_views(segments@) + segments_from(t@, 0) =~= segments_from(t@, 0));
    while cursor < t.len() && !done
        invariant
            cursor <= t@.len(),
            t@ == text@,
            t@.len() > 0,
            !done ==> segment_views(segments@) + segments_from(t@, cursor as int) == segments_from(
                t@,
                0,
            ),
            done ==> segment_views(segments@) == segments_from(t@, 0),
        decreases t@.len() - cursor + (if done { 0int } else { 1int }),
    {
        let ghost before = segment_views(segments@);
        match find_next_inline_formula(&t, cursor) {
            None => {
                let rest = slice_vec(&t, cursor, t.len());
                assert(rest@ =~= t@.skip(cursor as int));
                segments.push(InlineSegment::Text(string_of(&rest)));
                assert(segment_views(segments@) =~= before.push(SegmentView::Text(t@.skip(cursor as int))));
                assert(segments_from(t@, cursor as int) =~= seq![SegmentView::Text(t@.skip(cursor as int))]);
                done = true;
            },
            Some(m) => {
                let ghost tail = segments_from(t@, m.end as int);
                if m.start > cursor {
                    let pre = slice_vec(&t, cursor, m.start);
                    segments.push(InlineSegment::Text(string_of(&pre)));
                }
                let latex = slice_vec(&t, m.content_start, m.content_end);
                segments.push(InlineSegment::Formula { latex: string_of(&latex), display: m.display });
                proof {
                    let piece = (if m.start > cursor {
                        seq![SegmentView::Text(t@.subrange(cursor as int, m.start as int))]
                    } else {
                        Seq::<SegmentView>::empty()
                    }) + seq![SegmentView::Formula(t@.subrange(m.content_start as int, m.content_end as int), m.display)];
                    assert(segment_views(segments@) =~= before + piece);
                    assert(segments_from(t@, cursor as int) == piece + tail);
                    assert(before + piece + tail =~= before + (piece + tail));
                }
                cursor = m.end;
            },
        }
    }
    proof {
        if !done {
            assert(segments_from(t@, cursor as int) =~= Seq::<SegmentView>::empty());
            assert(segment_views(segments@) =~= segment_views(segments@) + Seq::<SegmentView>::empty());
        }
    }
    segments
}

// ------------------------------------------------------------------
// Pixels
// ------------------------------------------------------------------
/// A colour channel with its alpha premultiplication undone, rounded.
pub open spec fn unpremultiplied(channel: u8, alpha: u8) -> u8 {
    let v = (channel * 255 + alpha / 2) / alpha as int;
    if v > 255 {
        255
    } else {
        v as u8
    }
}

/// One RGBA pixel with straight alpha; a transparent pixel becomes all 0.
pub open spec fn unpremultiplied_pixel(p: Seq<u8>) -> Seq<u8> {
    if p[3] == 0 {
        seq![0u8, 0u8, 0u8, 0u8]
    } else {
        seq![
            unpremultiplied(p[0], p[3]),
            unpremultiplied(p[1], p[3]),
            unpremultiplied(p[2], p[3]),
            p[3],
        ]
    }
}

/// The whole pixels of `data` (a trailing partial pixel is dropped),
/// converted.
pub open spec fn unpremultiplied_rgba(data: Seq<u8>) -> Seq<u8>
    decreases data.len(),
{
    if data.len() < 4 {
        Seq::empty()
    } else {
        unpremultiplied_pixel(data.take(4)) + unpremultiplied_rgba(data.skip(4))
    }
}

fn unpremultiply_channel(channel: u8, alpha: u8) -> (r: u8)
    requires
        alpha > 0,
    ensures
        r == unpremultiplied(channel, alpha),
{
    let v: u16 = ((channel as u16) * 255 + (alpha as u16) / 2) / (alpha as u16);
    if v > 255 {
        255
    } else {
        v as u8
    }
}

pub fn premultiplied_to_unmultiplied_rgba(data: &[u8]) -> (r: Vec<u8>)
    ensures
        r@ == unpremultiplied_rgba(data@),
{
    let mut out: Vec<u8> = Vec::new();
    let mut i: usize = 0;
    assert(data@.skip(0) =~= data@);
    while data.len() - i >= 4
        invariant
            i <= data@.len(),
            out@ + unpremultiplied_rgba(data@.skip(i as int)) == unpremultiplied_rgba(data@),
        decreases data@.len() - i,
    {
        let ghost rest = data@.skip(i as int);
        assert(rest.take(4) =~= data@.subrange(i as int, i + 4));
        assert(rest.skip(4) =~= data@.skip(i + 4));
        let ghost before = out@;
        let a = data[i + 3];
        if a == 0 {
            out.push(0);
            out.push(0);
            out.push(0);
            out.push(0);
        } else {
            out.push(unpremultiply_channel(data[i], a));
            out.push(unpremultiply_channel(data[i + 1], a));
            out.push(unpremultiply_channel(data[i + 2], a));
            out.push(a);
        }
        assert(out@ =~= before + unpremultiplied_pixel(rest.take(4)));
        assert(before + unpremultiplied_pixel(rest.take(4)) + unpremultiplied_rgba(rest.skip(4))
            =~= before + (unpremultiplied_pixel(rest.take(4)) + unpremultiplied_rgba(rest.skip(4))));
        i = i + 4;
    }
    assert(unpremultiplied_rgba(data@.skip(i as int)) =~= Seq::<u8>::empty());
    assert(out@ + Seq::<u8>::empty() =~= out@);
    out
}

// ------------------------------------------------------------------
// Formula rendering settings and caches
// ------------------------------------------------------------------
/// How formulas are drawn: locally, or by a remote service first.
#[derive(Debug, Clone, PartialEq, Eq)]
pub struct FormulaRenderSettings {
    pub enable_remote: bool,
    pub remote_url_template: String,
    pub remote_timeout_secs: u64,
}

pub fn default_formula_render_url_template() -> (r: String)
    ensures
        r@ == CODECOGS_SVG_URL_TEMPLATE@,
{
    lit_string(CODECOGS_SVG_URL_TEMPLATE)
}

pub fn default_formula_render_timeout_secs() -> (r: u64)
    ensures
        r == 6,
{
    6
}

impl Default for FormulaRenderSettings {
    fn default() -> (r: Self)
        ensures
            !r.enable_remote,
            r.remote_url_template@ == CODECOGS_SVG_URL_TEMPLATE@,
            r.remote_timeout_secs == 6,
    {
        FormulaRenderSettings {
            enable_remote: false,
            remote_url_template: default_formula_render_url_template(),
            remote_timeout_secs: default_formula_render_timeout_secs(),
        }
    }
}

pub open spec fn same_settings(a: FormulaRenderSettings, b: FormulaRenderSettings) -> bool {
    a.enable_remote == b.enable_remote && a.remote_url_template@ == b.remote_url_template@
        && a.remote_timeout_secs == b.remote_timeout_secs
}

fn same_settings_exec(a: &FormulaRenderSettings, b: &FormulaRenderSettings) -> (r: bool)
    ensures
        r == same_settings(*a, *b),
{
    a.enable_remote == b.enable_remote && crate::text::str_eq(
        a.remote_url_template.as_str(),
        b.remote_url_template.as_str(),
    ) && a.remote_timeout_secs == b.remote_timeout_secs
}

/// A formula drawn to straight-alpha RGBA pixels.
#[derive(Clone, Debug, PartialEq, Eq)]
pub struct RenderedFormulaImage {
    pub size: [usize; 2],
    pub rgba: Vec<u8>,
}

pub struct ImageView {
    pub width: usize,
    pub height: usize,
    pub rgba: Seq<u8>,
}

impl View for RenderedFormulaImage {
    type V = ImageView;

    open spec fn view(&self) -> ImageView {
        ImageView { width: self.size@[0], height: self.size@[1], rgba: self.rgba@ }
    }
}

pub fn copy_image(i: &RenderedFormulaImage) -> (r: RenderedFormulaImage)
    ensures
        r@ == i@,
{
    let w = i.size[0];
    let h = i.size[1];
    let mut rgba: Vec<u8> = Vec::new();
    let mut k: usize = 0;
    while k < i.rgba.len()
        invariant
            k <= i.rgba@.len(),
            rgba@ == i.rgba@.take(k as int),
        decreases i.rgba@.len() - k,
    {
        rgba.push(i.rgba[k]);
        assert(i.rgba@.take(k + 1) =~= i.rgba@.take(k as int).push(i.rgba@[k as int]));
        k = k + 1;
    }
    assert(i.rgba@.take(i.rgba@.len() as int) =~= i.rgba@);
    let r = RenderedFormulaImage { size: [w, h], rgba };
    assert(r.size@[0] == w && r.size@[1] == h);
    r
}

pub open spec fn opt_image(o: Option<RenderedFormulaImage>) -> Option<ImageView> {
    match o {
        Some(i) => Some(i@),
        None => None,
    }
}

fn copy_opt_image(o: &Option<RenderedFormulaImage>) -> (r: Option<RenderedFormulaImage>)
    ensures
        opt_image(r) == opt_image(*o),
{
    match o {
        Some(i) => Some(copy_image(i)),
        None => None,
    }
}

/// A formula as readable text, with a drawing when one could be made.
#[derive(Clone, Debug, PartialEq, Eq)]
pub struct RenderedFormula {
    pub readable_text: String,
    pub image: Option<RenderedFormulaImage>,
}

pub struct RenderedView {
    pub readable_text: Seq<char>,
    pub image: Option<ImageView>,
}

impl View for RenderedFormula {
    type V = RenderedView;

    open spec fn view(&self) -> RenderedView {
        RenderedView { readable_text: self.readable_text@, image: opt_image(self.image) }
    }
}

pub fn copy_rendered(r: &RenderedFormula) -> (c: RenderedFormula)
    ensures
        c@ == r@,
{
    RenderedFormula { readable_text: r.readable_text.clone(), image: copy_opt_image(&r.image) }
}

/// What is kept for a formula the renderer was asked about: its
/// rendering, or the formula's source as text when it gave none.
pub open spec fn rendered_or_source(out: Option<RenderedFormula>, source: Seq<char>) -> RenderedView {
    match out {
        Some(x) => x@,
        None => RenderedView { readable_text: source, image: None },
    }
}

struct CachedFormula {
    latex: String,
    display: bool,
    rendered: RenderedFormula,
}

/// Rendered formulas by trimmed source and display mode, each rendered once.
pub struct FormulaRenderCache {
    entries: Vec<CachedFormula>,
}

impl View for FormulaRenderCache {
    type V = Seq<(Seq<char>, bool, RenderedView)>;

    closed spec fn view(&self) -> Seq<(Seq<char>, bool, RenderedView)> {
        self.entries@.map_values(|e: CachedFormula| (e.latex@, e.display, e.rendered@))
    }
}

/// The cached rendering for a formula key.
pub open spec fn cache_lookup(
    entries: Seq<(Seq<char>, bool, RenderedView)>,
    latex: Seq<char>,
    display: bool,
) -> Option<RenderedView>
    decreases entries.len(),
{
    if entries.len() == 0 {
        None
    } else if entries[0].0 == latex && entries[0].1 == display {
        Some(entries[0].2)
    } else {
        cache_lookup(entries.drop_first(), latex, display)
    }
}

proof fn lemma_cache_lookup_push(
    entries: Seq<(Seq<char>, bool, RenderedView)>,
    e: (Seq<char>, bool, RenderedView),
    latex: Seq<char>,
    display: bool,
)
    ensures
        cache_lookup(entries.push(e), latex, display) == match cache_lookup(entries, latex, display) {
            Some(v) => Some(v),
            None => if e.0 == latex && e.1 == display {
                Some(e.2)
            } else {
                None
            },
        },
    decreases entries.len(),
{
    let pe = entries.push(e);
    if entries.len() > 0 {
        assert(pe.drop_first() =~= entries.drop_first().push(e));
        assert(pe[0] == entries[0]);
        lemma_cache_lookup_push(entries.drop_first(), e, latex, display);
        if entries[0].0 == latex && entries[0].1 == display {
            assert(cache_lookup(pe, latex, display) == Some(entries[0].2));
        } else {
            assert(cache_lookup(pe, latex, display) == cache_lookup(pe.drop_first(), latex, display));
        }
    } else {
        assert(pe =~= seq![e]);
        assert(pe.drop_first() =~= Seq::<(Seq<char>, bool, RenderedView)>::empty());
        assert(cache_lookup(Seq::<(Seq<char>, bool, RenderedView)>::empty(), latex, display) is None);
        assert(cache_lookup(entries, latex, display) is None);
    }
}

impl FormulaRenderCache {
    pub fn new() -> (r: Self)
        ensures
            r@ == Seq::<(Seq<char>, bool, RenderedView)>::empty(),
    {
        let r = FormulaRenderCache { entries: Vec::new() };
        assert(r@ =~= Seq::<(Seq<char>, bool, RenderedView)>::empty());
        r
    }

    pub fn clear(&mut self)
        ensures
            final(self)@ == Seq::<(Seq<char>, bool, RenderedView)>::empty(),
    {
        self.entries = Vec::new();
        assert(self@ =~= Seq::<(Seq<char>, bool, RenderedView)>::empty());
    }

    /// The rendering of `latex` (trimmed) in this mode: the cached one, or
    /// else what `renderer` gives for the trimmed formula (its trimmed
    /// source as text when it gives none), which is then cached.  The
    /// renderer is asked only when the formula is not cached.
    pub fn render_with<F>(&mut self, renderer: &F, latex: &str, display: bool) -> (r: RenderedFormula) where
        F: Fn(&str, bool) -> Option<RenderedFormula>,

        requires
            forall|k: &str, d: bool| call_requires(*renderer, (k, d)),
        ensures
            match cache_lookup(old(self)@, trim(latex@), display) {
                Some(v) => r@ == v && final(self)@ == old(self)@,
                None => (exists|k: &str, out: Option<RenderedFormula>|
                    k@ == trim(latex@) && #[trigger] call_ensures(*renderer, (k, display), out) && r@
                        == rendered_or_source(out, trim(latex@))) && final(self)@ == old(self)@.push(
                    (trim(latex@), display, r@),
                ),
            },
            cache_lookup(final(self)@, trim(latex@), display) == Some(r@),
    {
        let key = string_of(&trim_chars(&chars_of(latex)));
        let ghost entries = self@;
        let mut i: usize = 0;
        assert(entries.skip(0) =~= entries);
        while i < self.entries.len()
            invariant
                i <= self.entries@.len(),
                entries == self@,
                entries.len() == self.entries@.len(),
                key@ == trim(latex@),
                cache_lookup(entries.skip(i as int), key@, display) == cache_lookup(
                    entries,
                    key@,
                    display,
                ),
            decreases self.entries@.len() - i,
        {
            let ghost rest = entries.skip(i as int);
            assert(rest[0] == entries[i as int]);
            assert(rest.drop_first() =~= entries.skip(i + 1));
            let e = &self.entries[i];
            if e.display == display && crate::text::str_eq(e.latex.as_str(), key.as_str()) {
                return copy_rendered(&e.rendered);
            }
            i = i + 1;
        }
        assert(entries.skip(i as int) =~= Seq::<(Seq<char>, bool, RenderedView)>::empty());
        let out = renderer(key.as_str(), display);
        let ghost out_v = out;
        let rendered = match out {
            Some(r) => r,
            None => RenderedFormula { readable_text: crate::normalize::lit_string(key.as_str()), image: None },
        };
        assert(rendered@ == rendered_or_source(out_v, trim(latex@)));
        let result = copy_rendered(&rendered);
        self.entries.push(CachedFormula { latex: key, display, rendered });
        proof {
            assert(self@ =~= entries.push((trim(latex@), display, result@)));
            lemma_cache_lookup_push(entries, (trim(latex@), display, result@), trim(latex@), display);
        }
        result
    }
}

/// A remote rendering by formula, display mode and URL template.
#[derive(Clone, Debug, PartialEq, Eq)]
pub struct RemoteFormulaCacheKey {
    pub latex: String,
    pub display: bool,
    pub url_template: String,
}

pub struct RemoteKeyView {
    pub latex: Seq<char>,
    pub display: bool,
    pub url_template: Seq<char>,
}

impl View for RemoteFormulaCacheKey {
    type V = RemoteKeyView;

    open spec fn view(&self) -> RemoteKeyView {
        RemoteKeyView { latex: self.latex@, display: self.display, url_template: self.url_template@ }
    }
}

fn copy_key(k: &RemoteFormulaCacheKey) -> (r: RemoteFormulaCacheKey)
    ensures
        r@ == k@,
{
    RemoteFormulaCacheKey {
        latex: k.latex.clone(),
        display: k.display,
        url_template: k.url_template.clone(),
    }
}

fn same_key(a: &RemoteFormulaCacheKey, b: &RemoteFormulaCacheKey) -> (r: bool)
    ensures
        r == (a@ == b@),
{
    a.display == b.display && crate::text::str_eq(a.latex.as_str(), b.latex.as_str())
        && crate::text::str_eq(a.url_template.as_str(), b.url_template.as_str())
}

/// Where a remote rendering stands.
#[derive(Clone, Debug)]
pub enum RemoteFormulaState {
    /// Requested, not answered yet.
    Pending,
    /// Answered: the drawing, or none when the service failed.
    Ready(Option<RenderedFormulaImage>),
}

pub enum RemoteStateView {
    Pending,
    Ready(Option<ImageView>),
}

impl View for RemoteFormulaState {
    type V = RemoteStateView;

    open spec fn view(&self) -> RemoteStateView {
        match self {
            RemoteFormulaState::Pending => RemoteStateView::Pending,
            RemoteFormulaState::Ready(i) => RemoteStateView::Ready(opt_image(*i)),
        }
    }
}

fn copy_state(s: &RemoteFormulaState) -> (r: RemoteFormulaState)
    ensures
        r@ == s@,
{
    match s {
        RemoteFormulaState::Pending => RemoteFormulaState::Pending,
        RemoteFormulaState::Ready(i) => RemoteFormulaState::Ready(copy_opt_image(i)),
    }
}

struct RemoteEntry {
    key: RemoteFormulaCacheKey,
    state: RemoteFormulaState,
}

/// Remote renderings, by key.
pub struct RemoteFormulaCache {
    entries: Vec<RemoteEntry>,
}

impl View for RemoteFormulaCache {
    type V = Seq<(RemoteKeyView, RemoteStateView)>;

    closed spec fn view(&self) -> Seq<(RemoteKeyView, RemoteStateView)> {
        self.entries@.map_values(|e: RemoteEntry| (e.key@, e.state@))
    }
}

/// The position of `key` in the cache.
pub open spec fn remote_index(entries: Seq<(RemoteKeyView, RemoteStateView)>, key: RemoteKeyView) -> Option<
    int,
>
    decreases entries.len(),
{
    if entries.len() == 0 {
        None
    } else if entries.last().0 == key {
        Some(entries.len() - 1)
    } else {
        remote_index(entries.drop_last(), key)
    }
}

pub open spec fn remote_get(entries: Seq<(RemoteKeyView, RemoteStateView)>, key: RemoteKeyView) -> Option<
    RemoteStateView,
> {
    match remote_index(entries, key) {
        Some(i) => Some(entries[i].1),
        None => None,
    }
}

pub open spec fn remote_put(
    entries: Seq<(RemoteKeyView, RemoteStateView)>,
    key: RemoteKeyView,
    state: RemoteStateView,
) -> Seq<(RemoteKeyView, RemoteStateView)> {
    match remote_index(entries, key) {
        Some(i) => entries.update(i, (key, state)),
        None => entries.push((key, state)),
    }
}

proof fn lemma_remote_index(entries: Seq<(RemoteKeyView, RemoteStateView)>, key: RemoteKeyView)
    ensures
        match remote_index(entries, key) {
            Some(i) => 0 <= i < entries.len() && entries[i].0 == key,
            None => forall|j: int| 0 <= j < entries.len() ==> (#[trigger] entries[j]).0 != key,
        },
    decreases entries.len(),
{
    if entries.len() > 0 {
        lemma_remote_index(entries.drop_last(), key);
        if entries.last().0 != key {
            assert forall|j: int| 0 <= j < entries.len() - 1 implies (#[trigger] entries[j]).0 == entries.drop_last()[j].0 by {}
        }
    }
}

proof fn lemma_remote_index_unique(entries: Seq<(RemoteKeyView, RemoteStateView)>, key: RemoteKeyView, i: int)
    requires
        0 <= i < entries.len(),
        entries[i].0 == key,
        forall|j: int| i < j < entries.len() ==> (#[trigger] entries[j]).0 != key,
    ensures
        remote_index(entries, key) == Some(i),
    decreases entries.len(),
{
    if i < entries.len() - 1 {
        assert(entries.drop_last()[i] == entries[i]);
        assert forall|j: int| i < j < entries.drop_last().len() implies (#[trigger] entries.drop_last()[j]).0 != key by {
            assert(entries.drop_last()[j] == entries[j]);
        }
        lemma_remote_index_unique(entries.drop_last(), key, i);
    }
}

impl RemoteFormulaCache {
    pub fn new() -> (r: Self)
        ensures
            r@ == Seq::<(RemoteKeyView, RemoteStateView)>::empty(),
    {
        let r = RemoteFormulaCache { entries: Vec::new() };
        assert(r@ =~= Seq::<(RemoteKeyView, RemoteStateView)>::empty());
        r
    }

    pub fn clear(&mut self)
        ensures
            final(self)@ == Seq::<(RemoteKeyView, RemoteStateView)>::empty(),
    {
        self.entries = Vec::new();
        assert(self@ =~= Seq::<(RemoteKeyView, RemoteStateView)>::empty());
    }

    pub fn is_empty(&self) -> (r: bool)
        ensures
            r == (self@.len() == 0),
    {
        self.entries.len() == 0
    }

    fn find(&self, key: &RemoteFormulaCacheKey) -> (r: Option<usize>)
        ensures
            match r {
                Some(i) => remote_index(self@, key@) == Some(i as int) && i < self@.len(),
                None => remote_index(self@, key@) is None,
            },
    {
        let ghost es = self@;
        proof {
            lemma_remote_index(es, key@);
        }
        let mut i: usize = self.entries.len();
        assert(es.take(es.len() as int) =~= es);
        while i > 0
            invariant
                i <= self.entries@.len(),
                es == self@,
                es.len() == self.entries@.len(),
                remote_index(es.take(i as int), key@) == remote_index(es, key@),
            decreases i,
        {
            let ghost t = es.take(i as int);
            assert(t.drop_last() =~= es.take(i - 1));
            assert(t.last() == es[i - 1]);
            assert(es[i - 1].0 == self.entries@[i - 1].key@);
            if same_key(&self.entries[i - 1].key, key) {
                return Some(i - 1);
            }
            i = i - 1;
        }
        assert(es.take(0) =~= Seq::<(RemoteKeyView, RemoteStateView)>::empty());
        None
    }

    /// The state stored for `key`.
    pub fn get(&self, key: &RemoteFormulaCacheKey) -> (r: Option<RemoteFormulaState>)
        ensures
            match r {
                Some(s) => remote_get(self@, key@) == Some(s@),
                None => remote_get(self@, key@) is None,
            },
    {
        match self.find(key) {
            Some(i) => {
                assert(self@.len() == self.entries@.len());
                assert(self@[i as int].1 == self.entries@[i as int].state@);
                Some(copy_state(&self.entries[i].state))
            },
            None => None,
        }
    }

    /// Stores `state` for `key`, replacing what was there.
    pub fn insert(&mut self, key: RemoteFormulaCacheKey, state: RemoteFormulaState)
        ensures
            final(self)@ == remote_put(old(self)@, key@, state@),
    {
        let ghost es = self@;
        let ghost kv = key@;
        let ghost sv = state@;
        match self.find(&key) {
            Some(i) => {
                assert(es.len() == self.entries@.len());
                self.entries.set(i, RemoteEntry { key, state });
                assert(self@ =~= es.update(i as int, (kv, sv)));
            },
            None => {
                self.entries.push(RemoteEntry { key, state });
                assert(self@ =~= es.push((kv, sv)));
            },
        }
    }
}

/// Reading back what was stored under a key gives it.
pub proof fn law_remote_cache_read_back(
    entries: Seq<(RemoteKeyView, RemoteStateView)>,
    key: RemoteKeyView,
    state: RemoteStateView,
)
    ensures
        remote_get(remote_put(entries, key, state), key) == Some(state),
{
    lemma_remote_index(entries, key);
    let n = remote_put(entries, key, state);
    match remote_index(entries, key) {
        Some(i) => {
            lemma_remote_index(entries.take(entries.len() as int), key);
            assert forall|j: int| i < j < n.len() implies (#[trigger] n[j]).0 != key by {
                assert(n[j] == entries[j]);
                lemma_later_keys_differ(entries, key, i, j);
            }
            lemma_remote_index_unique(n, key, i);
        },
        None => {
            lemma_remote_index_unique(n, key, n.len() - 1);
        },
    }
}

proof fn lemma_later_keys_differ(entries: Seq<(RemoteKeyView, RemoteStateView)>, key: RemoteKeyView, i: int, j: int)
    requires
        remote_index(entries, key) == Some(i),
        0 <= i < j < entries.len(),
    ensures
        entries[j].0 != key,
    decreases entries.len(),
{
    if entries.last().0 == key {
        assert(i == entries.len() - 1);
    } else if j < entries.len() - 1 {
        assert(entries.drop_last()[j] == entries[j]);
        lemma_later_keys_differ(entries.drop_last(), key, i, j);
    }
}

/// What asking for a remote rendering comes to.
pub enum RemoteLookup {
    /// Remote rendering is off (or has no URL template).
    Disabled,
    /// The answer is in: the drawing, if the service gave one.
    Ready(Option<RenderedFormulaImage>),
    /// Already requested; not answered yet.
    Pending,
    /// Not requested before: now marked pending, to be fetched for this key.
    Started(RemoteFormulaCacheKey),
}

/// The renderer's settings and caches.
pub struct FormulaRenderState {
    pub settings: FormulaRenderSettings,
    pub fallback: FormulaRenderCache,
    pub remote: RemoteFormulaCache,
}

impl FormulaRenderState {
    pub fn new() -> (r: Self)
        ensures
            same_settings(r.settings, FormulaRenderSettings {
                enable_remote: false,
                remote_url_template: r.settings.remote_url_template,
                remote_timeout_secs: 6,
            }),
            r.settings.remote_url_template@ == CODECOGS_SVG_URL_TEMPLATE@,
            r.fallback@.len() == 0,
            r.remote@.len() == 0,
    {
        FormulaRenderState {
            settings: FormulaRenderSettings::default(),
            fallback: FormulaRenderCache::new(),
            remote: RemoteFormulaCache::new(),
        }
    }

    /// Forgets every rendering.
    pub fn clear_formula_render_caches(&mut self)
        ensures
            final(self).fallback@.len() == 0,
            final(self).remote@.len() == 0,
            final(self).settings == old(self).settings,
    {
        self.fallback.clear();
        self.remote.clear();
    }

    /// Uses new settings; renderings made under other settings are dropped.
    pub fn apply_formula_render_settings(&mut self, settings: FormulaRenderSettings)
        ensures
            same_settings(old(self).settings, settings) ==> final(self).settings == old(self).settings
                && final(self).fallback@ == old(self).fallback@ && final(self).remote@ == old(
                self,
            ).remote@,
            !same_settings(old(self).settings, settings) ==> final(self).settings == settings
                && final(self).fallback@.len() == 0 && final(self).remote@.len() == 0,
    {
        if !same_settings_exec(&self.settings, &settings) {
            self.settings = settings;
            self.clear_formula_render_caches();
        }
    }

    /// Looks up the remote rendering of `latex`, marking it pending (to be
    /// fetched) when it was never asked for.
    pub fn remote_formula_image(&mut self, latex: &str, display: bool) -> (r: RemoteLookup)
        ensures
            !old(self).settings.enable_remote || trim(old(self).settings.remote_url_template@).len() == 0 ==> (
            r is Disabled && final(self).remote@ == old(self).remote@),
            final(self).settings == old(self).settings,
            final(self).fallback@ == old(self).fallback@,
            old(self).settings.enable_remote && trim(old(self).settings.remote_url_template@).len() > 0 ==> {
                let key = RemoteKeyView {
                    latex: trim(latex@),
                    display,
                    url_template: trim(old(self).settings.remote_url_template@),
                };
                match remote_get(old(self).remote@, key) {
                    Some(RemoteStateView::Ready(i)) => (r matches RemoteLookup::Ready(j) && opt_image(j)
                        == i) && final(self).remote@ == old(self).remote@,
                    Some(RemoteStateView::Pending) => r is Pending && final(self).remote@ == old(
                        self,
                    ).remote@,
                    None => (r matches RemoteLookup::Started(k) && k@ == key) && final(self).remote@
                        == remote_put(old(self).remote@, key, RemoteStateView::Pending),
                }
            },
    {
        let template = trim_chars(&chars_of(self.settings.remote_url_template.as_str()));
        if !self.settings.enable_remote || template.len() == 0 {
            return RemoteLookup::Disabled;
        }
        let key = RemoteFormulaCacheKey {
            latex: string_of(&trim_chars(&chars_of(latex))),
            display,
            url_template: string_of(&template),
        };
        match self.remote.get(&key) {
            Some(RemoteFormulaState::Ready(image)) => RemoteLookup::Ready(image),
            Some(RemoteFormulaState::Pending) => RemoteLookup::Pending,
            None => {
                let k = copy_key(&key);
                self.remote.insert(key, RemoteFormulaState::Pending);
                RemoteLookup::Started(k)
            },
        }
    }
}

// ------------------------------------------------------------------
// LaTeX as readable text
// ------------------------------------------------------------------
/// The number of `{` in `s`.
pub open spec fn braces(s: Seq<char>) -> nat
    decreases s.len(),
{
    if s.len() == 0 {
        0
    } else {
        braces(s.drop_last()) + if s.last() == '{' {
            1nat
        } else {
            0nat
        }
    }
}

pub proof fn lemma_braces_concat(a: Seq<char>, b: Seq<char>)
    ensures
        braces(a + b) == braces(a) + braces(b),
    decreases b.len(),
{
    if b.len() > 0 {
        assert((a + b).drop_last() =~= a + b.drop_last());
        lemma_braces_concat(a, b.drop_last());
    } else {
        assert(a + b =~= a);
    }
}

pub proof fn lemma_braces_split(s: Seq<char>, i: int)
    requires
        0 <= i <= s.len(),
    ensures
        braces(s) == braces(s.take(i)) + braces(s.skip(i)),
{
    assert(s =~= s.take(i) + s.skip(i));
    lemma_braces_concat(s.take(i), s.skip(i));
}

/// `s` without `{` and `}`.
pub open spec fn without_braces(s: Seq<char>) -> Seq<char>
    decreases s.len(),
{
    if s.len() == 0 {
        s
    } else if s.last() == '{' || s.last() == '}' {
        without_braces(s.drop_last())
    } else {
        without_braces(s.drop_last()).push(s.last())
    }
}

pub proof fn lemma_without_braces(s: Seq<char>)
    ensures
        braces(without_braces(s)) == 0,
    decreases s.len(),
{
    if s.len() > 0 {
        lemma_without_braces(s.drop_last());
        let w = without_braces(s.drop_last());
        if !(s.last() == '{' || s.last() == '}') {
            assert(w.push(s.last()).drop_last() =~= w);
        }
    }
}

/// Where the group opened at `i` (scanning with `depth` groups open)
/// closes.
pub open spec fn group_close(t: Seq<char>, i: int, depth: nat) -> Option<int>
    decreases t.len() - i,
{
    if i < 0 || i >= t.len() {
        None
    } else if t[i] == '{' {
        group_close(t, i + 1, depth + 1)
    } else if t[i] == '}' {
        let d: nat = if depth > 0 {
            (depth - 1) as nat
        } else {
            0
        };
        if d == 0 {
            Some(i)
        } else {
            group_close(t, i + 1, d)
        }
    } else {
        group_close(t, i + 1, depth)
    }
}

pub proof fn lemma_group_close(t: Seq<char>, i: int, depth: nat)
    ensures
        match group_close(t, i, depth) {
            Some(e) => i <= e < t.len() && t[e] == '}',
            None => true,
        },
    decreases t.len() - i,
{
    if 0 <= i < t.len() {
        if t[i] == '{' {
            lemma_group_close(t, i + 1, depth + 1);
        } else if t[i] == '}' {
            let d: nat = if depth > 0 {
                (depth - 1) as nat
            } else {
                0
            };
            if d != 0 {
                lemma_group_close(t, i + 1, d);
            }
        } else {
            lemma_group_close(t, i + 1, depth);
        }
    }
}

/// The braced group opening at `open`: its content and the position after
/// its closing brace.
pub open spec fn braced_group(t: Seq<char>, open: int) -> Option<(Seq<char>, int)> {
    if 0 <= open < t.len() && t[open] == '{' {
        match group_close(t, open, 0) {
            Some(e) => Some((t.subrange(open + 1, e), e + 1)),
            None => None,
        }
    } else {
        None
    }
}

pub proof fn lemma_braced_group(t: Seq<char>, open: int)
    ensures
        match braced_group(t, open) {
            Some((content, end)) => 0 <= open < end <= t.len() && t[open] == '{' && content
                == t.subrange(open + 1, end - 1) && braces(t.subrange(open, end)) == 1 + braces(
                content,
            ) && braces(content) < braces(t),
            None => true,
        },
{
    if 0 <= open < t.len() && t[open] == '{' {
        lemma_group_close(t, open, 0);
        match group_close(t, open, 0) {
            Some(e) => {
                if e == open {
                    assert(t[open] == '{');
                }
                let g = t.subrange(open, e + 1);
                let c = t.subrange(open + 1, e);
                assert(g =~= seq!['{'] + c + seq!['}']);
                lemma_braces_concat(seq!['{'] + c, seq!['}']);
                lemma_braces_concat(seq!['{'], c);
                assert(seq!['{'].drop_last() =~= Seq::<char>::empty());
                assert(seq!['}'].drop_last() =~= Seq::<char>::empty());
                assert(braces(Seq::<char>::empty()) == 0);
                assert(seq!['{'].last() == '{');
                assert(braces(seq!['{']) == 1);
                assert(braces(seq!['}']) == 0);
                assert(braces(g) == 1 + braces(c));
                lemma_braces_split(t, open);
                lemma_braces_split(t.skip(open), e + 1 - open);
                assert(t.skip(open).take(e + 1 - open) =~= g);
                assert(braces(t) >= braces(g));
            },
            None => {},
        }
    }
}

/// Each character followed by a combining overline.
pub open spec fn overlined(s: Seq<char>) -> Seq<char>
    decreases s.len(),
{
    if s.len() == 0 {
        s
    } else {
        overlined(s.drop_last()) + seq![s.last(), '\u{0305}']
    }
}

pub proof fn lemma_overlined_braces(s: Seq<char>)
    ensures
        braces(overlined(s)) == braces(s),
    decreases s.len(),
{
    if s.len() > 0 {
        lemma_overlined_braces(s.drop_last());
        let o = overlined(s.drop_last());
        let pair = seq![s.last(), '\u{0305}'];
        lemma_braces_concat(o, pair);
        assert(pair.drop_last() =~= seq![s.last()]);
        assert(seq![s.last()].drop_last() =~= Seq::<char>::empty());
        assert(braces(seq![s.last()]) == braces(Seq::<char>::empty()) + if s.last() == '{' {
            1nat
        } else {
            0nat
        });
        assert(braces(pair) == braces(seq![s.last()]));
    }
}

/// One step of a rewrite: the text with `[start, end)` replaced.
pub open spec fn spliced(t: Seq<char>, start: int, end: int, with: Seq<char>) -> Seq<char> {
    t.take(start) + with + t.skip(end)
}

pub proof fn lemma_spliced_braces(t: Seq<char>, start: int, end: int, with: Seq<char>)
    requires
        0 <= start <= end <= t.len(),
    ensures
        braces(spliced(t, start, end, with)) + braces(t.subrange(start, end)) == braces(t) + braces(
            with,
        ),
{
    lemma_braces_concat(t.take(start) + with, t.skip(end));
    lemma_braces_concat(t.take(start), with);
    lemma_braces_split(t, start);
    lemma_braces_split(t.skip(start), end - start);
    assert(t.skip(start).take(end - start) =~= t.subrange(start, end));
    assert(t.skip(start).skip(end - start) =~= t.skip(end));
}

/// `\bar{x}`-style commands written as overlined text, first occurrence
/// first, until none is left (or one has no closing brace).
pub open spec fn bar_pass(t: Seq<char>, command: Seq<char>) -> Seq<char>
    decreases braces(t),
{
    match first_occ_from(t, command + "{"@, 0) {
        None => t,
        Some(start) => match braced_group(t, start + command.len()) {
            None => t,
            Some((arg, end)) => {
                proof {
                    lemma_first_occ_props(t, command + "{"@, 0);
                    lemma_braced_group(t, start + command.len());
                    lemma_spliced_braces(t, start, end, overlined(arg));
                    lemma_overlined_braces(arg);
                    lemma_braces_split(t.subrange(start, end), command.len() as int);
                    assert(t.subrange(start, end).skip(command.len() as int) =~= t.subrange(
                        start + command.len(),
                        end,
                    ));
                }
                bar_pass(spliced(t, start, end, overlined(arg)), command)
            },
        },
    }
}

pub open spec fn hat_mark() -> Seq<char> {
    seq!['\u{0302}']
}

pub open spec fn fraction_text(num: Seq<char>, den: Seq<char>) -> Seq<char> {
    "("@ + trim(num) + ")/("@ + trim(den) + ")"@
}

/// Command words and what they are written as, applied in this order.
pub open spec fn symbol_table() -> Seq<(Seq<char>, Seq<char>)> {
    seq![
        ("\\text"@, ""@),
        ("\\sum"@, "∑"@),
        ("\\prod"@, "∏"@),
        ("\\infty"@, "∞"@),
        ("\\leq"@, "≤"@),
        ("\\geq"@, "≥"@),
        ("\\neq"@, "≠"@),
        ("\\approx"@, "≈"@),
        ("\\alpha"@, "α"@),
        ("\\beta"@, "β"@),
        ("\\gamma"@, "γ"@),
        ("\\delta"@, "δ"@),
        ("\\mu"@, "μ"@),
        ("\\sigma"@, "σ"@),
        ("\\times"@, "×"@),
        ("\\cdot"@, "·"@),
        ("\\%"@, "%"@),
        ("\\left"@, ""@),
        ("\\right"@, ""@),
        ("\\mathrm"@, ""@),
        ("\\mathbf"@, ""@),
        ("\\quad"@, " "@),
        ("\\,"@, " "@),
    ]
}

/// The first `n` rewrites of `table` applied to `t`, in order.
pub open spec fn replace_each(t: Seq<char>, table: Seq<(Seq<char>, Seq<char>)>, n: nat) -> Seq<char>
    decreases n,
{
    if n == 0 || n > table.len() {
        t
    } else {
        replace_all(replace_each(t, table, (n - 1) as nat), table[n - 1].0, table[n - 1].1)
    }
}

/// The last step: a display formula with line breaks keeps its lines
/// (trailing spaces and outer blank lines dropped); anything else becomes
/// one line with single spaces.
pub open spec fn finish_lines(t: Seq<char>, display: bool) -> Seq<char> {
    if display && t.contains('\n') {
        trim_set(
            crate::text::join(
                crate::text::lines(t).map_values(|l: Seq<char>| crate::text::trim_end(l)),
                "\n"@,
            ),
            seq!['\n'],
        )
    } else {
        crate::text::collapse_ws(t)
    }
}

pub proof fn lemma_braces_subrange(t: Seq<char>, a: int, b: int, c: int)
    requires
        0 <= a <= b <= c <= t.len(),
    ensures
        braces(t.subrange(a, c)) == braces(t.subrange(a, b)) + braces(t.subrange(b, c)),
{
    assert(t.subrange(a, c) =~= t.subrange(a, b) + t.subrange(b, c));
    lemma_braces_concat(t.subrange(a, b), t.subrange(b, c));
}
pub proof fn lemma_hat_mark()
    ensures
        braces(hat_mark()) == 0,
{
    assert(hat_mark().drop_last() =~= Seq::<char>::empty());
    assert(braces(Seq::<char>::empty()) == 0);
}

/// The text standing for a hatted argument already made readable.
pub open spec fn hat_text_of(r: Seq<char>) -> Seq<char> {
    if r.len() == 0 {
        hat_mark()
    } else {
        without_braces(r) + hat_mark()
    }
}

pub proof fn lemma_hat_text_braces(r: Seq<char>)
    ensures
        braces(hat_text_of(r)) == 0,
{
    lemma_hat_mark();
    lemma_without_braces(r);
    lemma_braces_concat(without_braces(r), hat_mark());
}

/// `\hat{x}`-style commands written as the readable argument with a
/// combining circumflex, first occurrence first.
pub open spec fn hat_pass(t: Seq<char>, command: Seq<char>, inner: nat) -> Seq<char>
    decreases inner, braces(t) + 1,
{
    match first_occ_from(t, command + "{"@, 0) {
        None => t,
        Some(start) => match braced_group(t, start + command.len()) {
            None => t,
            Some((arg, end)) => {
                let with = hat_text_of(trim(readable(arg, false, inner)));
                proof {
                    lemma_first_occ_props(t, command + "{"@, 0);
                    lemma_braced_group(t, start + command.len());
                    lemma_hat_text_braces(trim(readable(arg, false, inner)));
                    lemma_spliced_braces(t, start, end, with);
                    lemma_braces_subrange(t, start, start + command.len(), end);
                }
                hat_pass(spliced(t, start, end, with), command, inner)
            },
        },
    }
}

/// `\frac{a}{b}` written as `(a)/(b)` with both parts readable, first
/// occurrence first.
pub open spec fn frac_pass(t: Seq<char>, inner: nat) -> Seq<char>
    decreases inner, braces(t) + 1,
{
    match first_occ_from(t, "\\frac{"@, 0) {
        None => t,
        Some(start) => match braced_group(t, start + "\\frac"@.len()) {
            None => t,
            Some((num, num_end)) => match braced_group(t, num_end) {
                None => t,
                Some((den, den_end)) => {
                    let with = without_braces(
                        fraction_text(readable(num, false, inner), readable(den, false, inner)),
                    );
                    proof {
                        lemma_first_occ_props(t, "\\frac{"@, 0);
                        lemma_braced_group(t, start + "\\frac"@.len());
                        lemma_braced_group(t, num_end);
                        lemma_without_braces(
                            fraction_text(readable(num, false, inner), readable(den, false, inner)),
                        );
                        lemma_spliced_braces(t, start, den_end, with);
                        lemma_braces_subrange(t, start, start + "\\frac"@.len(), den_end);
                        lemma_braces_subrange(t, start + "\\frac"@.len(), num_end, den_end);
                    }
                    frac_pass(spliced(t, start, den_end, with), inner)
                },
            },
        },
    }
}

/// A formula as readable text, with nesting allowed `budget` levels deep.
pub open spec fn readable(s: Seq<char>, display: bool, budget: nat) -> Seq<char>
    decreases budget, 0nat,
{
    if budget == 0 {
        Seq::empty()
    } else {
        let inner = (budget - 1) as nat;
        let t1 = hat_pass(hat_pass(trim(s), "\\widehat"@, inner), "\\hat"@, inner);
        let t2 = bar_pass(bar_pass(t1, "\\bar"@), "\\overline"@);
        let t3 = frac_pass(t2, inner);
        finish_lines(without_braces(replace_each(t3, symbol_table(), 23)), display)
    }
}

proof fn lemma_trim_start_braces(s: Seq<char>)
    ensures
        braces(trim_start(s)) <= braces(s),
    decreases s.len(),
{
    if s.len() > 0 && is_ws(s[0]) {
        lemma_braces_split(s, 1);
        assert(s.skip(1) =~= s.drop_first());
        lemma_trim_start_braces(s.drop_first());
    }
}

proof fn lemma_trim_end_braces(s: Seq<char>)
    ensures
        braces(crate::text::trim_end(s)) <= braces(s),
    decreases s.len(),
{
    if s.len() > 0 && is_ws(s.last()) {
        lemma_trim_end_braces(s.drop_last());
    }
}

proof fn lemma_trim_braces(s: Seq<char>)
    ensures
        braces(trim(s)) <= braces(s),
{
    lemma_trim_start_braces(s);
    lemma_trim_end_braces(trim_start(s));
}

/// A rewrite of a command with a braced argument takes out at least the
/// argument's braces and its own.
proof fn lemma_rewrite_drops_braces(t: Seq<char>, start: int, open: int, end: int, with: Seq<char>, content: Seq<char>)
    requires
        0 <= start <= open < end <= t.len(),
        braces(t.subrange(open, end)) == 1 + braces(content),
        braces(with) <= braces(content),
    ensures
        braces(spliced(t, start, end, with)) < braces(t),
{
    lemma_spliced_braces(t, start, end, with);
    lemma_braces_subrange(t, start, open, end);
}

proof fn lemma_bar_pass_braces(t: Seq<char>, command: Seq<char>)
    ensures
        braces(bar_pass(t, command)) <= braces(t),
    decreases braces(t),
{
    match first_occ_from(t, command + "{"@, 0) {
        None => {},
        Some(start) => match braced_group(t, start + command.len()) {
            None => {},
            Some((arg, end)) => {
                lemma_first_occ_props(t, command + "{"@, 0);
                lemma_braced_group(t, start + command.len());
                lemma_overlined_braces(arg);
                lemma_rewrite_drops_braces(t, start, start + command.len(), end, overlined(arg), arg);
                lemma_bar_pass_braces(spliced(t, start, end, overlined(arg)), command);
            },
        },
    }
}

proof fn lemma_hat_pass_braces(t: Seq<char>, command: Seq<char>, inner: nat)
    ensures
        braces(hat_pass(t, command, inner)) <= braces(t),
    decreases braces(t),
{
    match first_occ_from(t, command + "{"@, 0) {
        None => {},
        Some(start) => match braced_group(t, start + command.len()) {
            None => {},
            Some((arg, end)) => {
                let with = hat_text_of(trim(readable(arg, false, inner)));
                lemma_first_occ_props(t, command + "{"@, 0);
                lemma_braced_group(t, start + command.len());
                lemma_hat_text_braces(trim(readable(arg, false, inner)));
                lemma_rewrite_drops_braces(t, start, start + command.len(), end, with, arg);
                lemma_hat_pass_braces(spliced(t, start, end, with), command, inner);
            },
        },
    }
}

/// Readable text does not depend on the nesting budget once it exceeds
/// the number of braces.
proof fn lemma_readable_stable(s: Seq<char>, display: bool, b1: nat, b2: nat)
    requires
        b1 >= braces(s) + 1,
        b2 >= braces(s) + 1,
    ensures
        readable(s, display, b1) == readable(s, display, b2),
    decreases braces(s), 2nat,
{
    let i1 = (b1 - 1) as nat;
    let i2 = (b2 - 1) as nat;
    let t0 = trim(s);
    lemma_trim_braces(s);
    lemma_hat_stable(t0, "\\widehat"@, i1, i2);
    let h = hat_pass(t0, "\\widehat"@, i1);
    lemma_hat_pass_braces(t0, "\\widehat"@, i1);
    lemma_hat_stable(h, "\\hat"@, i1, i2);
    let t1 = hat_pass(h, "\\hat"@, i1);
    lemma_hat_pass_braces(h, "\\hat"@, i1);
    lemma_bar_pass_braces(t1, "\\bar"@);
    lemma_bar_pass_braces(bar_pass(t1, "\\bar"@), "\\overline"@);
    let t2 = bar_pass(bar_pass(t1, "\\bar"@), "\\overline"@);
    lemma_frac_stable(t2, i1, i2);
}

proof fn lemma_hat_stable(t: Seq<char>, command: Seq<char>, i1: nat, i2: nat)
    requires
        i1 >= braces(t),
        i2 >= braces(t),
    ensures
        hat_pass(t, command, i1) == hat_pass(t, command, i2),
    decreases braces(t), 1nat,
{
    match first_occ_from(t, command + "{"@, 0) {
        None => {},
        Some(start) => match braced_group(t, start + command.len()) {
            None => {},
            Some((arg, end)) => {
                lemma_first_occ_props(t, command + "{"@, 0);
                lemma_braced_group(t, start + command.len());
                lemma_readable_stable(arg, false, i1, i2);
                let with = hat_text_of(trim(readable(arg, false, i1)));
                lemma_hat_text_braces(trim(readable(arg, false, i1)));
                lemma_rewrite_drops_braces(t, start, start + command.len(), end, with, arg);
                lemma_hat_stable(spliced(t, start, end, with), command, i1, i2);
            },
        },
    }
}

proof fn lemma_frac_stable(t: Seq<char>, i1: nat, i2: nat)
    requires
        i1 >= braces(t),
        i2 >= braces(t),
    ensures
        frac_pass(t, i1) == frac_pass(t, i2),
    decreases braces(t), 1nat,
{
    match first_occ_from(t, "\\frac{"@, 0) {
        None => {},
        Some(start) => match braced_group(t, start + "\\frac"@.len()) {
            None => {},
            Some((num, num_end)) => match braced_group(t, num_end) {
                None => {},
                Some((den, den_end)) => {
                    lemma_first_occ_props(t, "\\frac{"@, 0);
                    lemma_braced_group(t, start + "\\frac"@.len());
                    lemma_braced_group(t, num_end);
                    lemma_braces_subrange(t, start + "\\frac"@.len(), num_end, den_end);
                    lemma_readable_stable(num, false, i1, i2);
                    lemma_readable_stable(den, false, i1, i2);
                    let with = without_braces(
                        fraction_text(readable(num, false, i1), readable(den, false, i1)),
                    );
                    lemma_without_braces(
                        fraction_text(readable(num, false, i1), readable(den, false, i1)),
                    );
                    lemma_spliced_braces(t, start, den_end, with);
                    lemma_braces_subrange(t, start, start + "\\frac"@.len(), den_end);
                    lemma_frac_stable(spliced(t, start, den_end, with), i1, i2);
                },
            },
        },
    }
}

/// Any nesting budget above the number of braces gives the same text, so
/// [`readable_text`] is the formula's readable text however deeply its
/// fractions and hats nest.
pub proof fn law_readable_text_budget_free(s: Seq<char>, display: bool, budget: nat)
    requires
        budget >= braces(s) + 1,
    ensures
        readable(s, display, budget) == readable_text(s, display),
{
    lemma_readable_stable(s, display, budget, braces(s) + 1);
}

/// A formula as readable text: fractions as `(a)/(b)`, hats and bars as
/// combining marks, common commands as symbols, braces dropped; display
/// formulas keep their lines.  Nesting is bounded by the number of braces,
/// which is as deep as it can go.
pub open spec fn readable_text(s: Seq<char>, display: bool) -> Seq<char> {
    readable(s, display, braces(s) + 1)
}

fn symbol_table_exec() -> (r: Vec<(&'static str, &'static str)>)
    ensures
        r@.map_values(|p: (&'static str, &'static str)| (p.0@, p.1@)) == symbol_table(),
{
    let mut r: Vec<(&'static str, &'static str)> = Vec::new();
    r.push(("\\text", ""));
    r.push(("\\sum", "∑"));
    r.push(("\\prod", "∏"));
    r.push(("\\infty", "∞"));
    r.push(("\\leq", "≤"));
    r.push(("\\geq", "≥"));
    r.push(("\\neq", "≠"));
    r.push(("\\approx", "≈"));
    r.push(("\\alpha", "α"));
    r.push(("\\beta", "β"));
    r.push(("\\gamma", "γ"));
    r.push(("\\delta", "δ"));
    r.push(("\\mu", "μ"));
    r.push(("\\sigma", "σ"));
    r.push(("\\times", "×"));
    r.push(("\\cdot", "·"));
    r.push(("\\%", "%"));
    r.push(("\\left", ""));
    r.push(("\\right", ""));
    r.push(("\\mathrm", ""));
    r.push(("\\mathbf", ""));
    r.push(("\\quad", " "));
    r.push(("\\,", " "));
    assert(r@.map_values(|p: (&'static str, &'static str)| (p.0@, p.1@)) =~= symbol_table());
    r
}

fn braces_count(s: &[char]) -> (r: usize)
    ensures
        r == braces(s@),
        r <= s@.len(),
{
    let mut n: usize = 0;
    let mut i: usize = 0;
    while i < s.len()
        invariant
            i <= s@.len(),
            n == braces(s@.take(i as int)),
            n <= i,
        decreases s@.len() - i,
    {
        assert(s@.take(i + 1).drop_last() =~= s@.take(i as int));
        if s[i] == '{' {
            n = n + 1;
        }
        i = i + 1;
    }
    assert(s@.take(s@.len() as int) =~= s@);
    n
}

fn without_braces_exec(s: &[char]) -> (r: Vec<char>)
    ensures
        r@ == without_braces(s@),
{
    let mut out: Vec<char> = Vec::new();
    let mut i: usize = 0;
    while i < s.len()
        invariant
            i <= s@.len(),
            out@ == without_braces(s@.take(i as int)),
        decreases s@.len() - i,
    {
        assert(s@.take(i + 1).drop_last() =~= s@.take(i as int));
        let c = s[i];
        if c != '{' && c != '}' {
            out.push(c);
        }
        i = i + 1;
    }
    assert(s@.take(s@.len() as int) =~= s@);
    out
}

/// The braced group opening at `open_index`: its content, and where it ends.
pub fn read_braced_group(text: &[char], open_index: usize) -> (r: Option<(Vec<char>, usize)>)
    ensures
        match r {
            Some((c, e)) => braced_group(text@, open_index as int) == Some((c@, e as int)),
            None => braced_group(text@, open_index as int) is None,
        },
{
    if open_index >= text.len() || text[open_index] != '{' {
        return None;
    }
    let mut depth: usize = 0;
    let mut i: usize = open_index;
    while i < text.len()
        invariant
            open_index <= i <= text@.len(),
            open_index < text@.len(),
            text@[open_index as int] == '{',
            depth <= i - open_index,
            group_close(text@, i as int, depth as nat) == group_close(text@, open_index as int, 0),
        decreases text@.len() - i,
    {
        let c = text[i];
        if c == '{' {
            depth = depth + 1;
        } else if c == '}' {
            depth = if depth > 0 {
                depth - 1
            } else {
                0
            };
            if depth == 0 {
                let content = slice_vec(text, open_index + 1, i);
                proof {
                    lemma_group_close(text@, open_index as int, 0);
                }
                return Some((content, i + 1));
            }
        }
        i = i + 1;
    }
    None
}

fn overline_text(text: &[char]) -> (r: Vec<char>)
    ensures
        r@ == overlined(text@),
{
    let mut out: Vec<char> = Vec::new();
    let mut i: usize = 0;
    while i < text.len()
        invariant
            i <= text@.len(),
            out@ == overlined(text@.take(i as int)),
        decreases text@.len() - i,
    {
        assert(text@.take(i + 1).drop_last() =~= text@.take(i as int));
        let ghost before = out@;
        out.push(text[i]);
        out.push('\u{0305}');
        assert(out@ =~= before + seq![text@[i as int], '\u{0305}']);
        i = i + 1;
    }
    assert(text@.take(text@.len() as int) =~= text@);
    out
}

fn splice(t: &[char], start: usize, end: usize, with: &[char]) -> (r: Vec<char>)
    requires
        start <= end <= t@.len(),
    ensures
        r@ == spliced(t@, start as int, end as int, with@),
{
    let mut out = slice_vec(t, 0, start);
    extend_chars(&mut out, with);
    let tail = slice_vec(t, end, t.len());
    extend_chars(&mut out, &tail);
    assert(out@ =~= spliced(t@, start as int, end as int, with@));
    out
}

fn bar_pass_exec(text: Vec<char>, command: &str) -> (r: Vec<char>)
    ensures
        r@ == bar_pass(text@, command@),
{
    let mut t = text;
    let mut needle = chars_of(command);
    let cmd_len = needle.len();
    needle.push('{');
    proof {
        reveal_strlit("{");
    }
    assert(needle@ =~= command@ + "{"@);
    loop
        invariant
            needle@ == command@ + "{"@,
            cmd_len == command@.len(),
            bar_pass(t@, command@) == bar_pass(text@, command@),
        decreases braces(t@),
    {
        let start = match find_first(&t, &needle, 0) {
            Some(s) => s,
            None => return t,
        };
        proof {
            lemma_first_occ_props(t@, needle@, 0);
        }
        assert(needle.len() <= t.len() - start);
        let (arg, end) = match read_braced_group(&t, start + cmd_len) {
            Some(g) => g,
            None => return t,
        };
        proof {
            lemma_braced_group(t@, start + cmd_len);
            lemma_spliced_braces(t@, start as int, end as int, overlined(arg@));
            lemma_overlined_braces(arg@);
            lemma_braces_subrange(t@, start as int, start + cmd_len, end as int);
        }
        let with = overline_text(&arg);
        t = splice(&t, start, end, &with);
    }
}

fn hat_text_exec(r: &[char]) -> (o: Vec<char>)
    ensures
        o@ == hat_text_of(r@),
{
    let mut out: Vec<char> = if r.len() == 0 {
        Vec::new()
    } else {
        without_braces_exec(r)
    };
    out.push('\u{0302}');
    assert(out@ =~= hat_text_of(r@));
    out
}

fn hat_pass_exec(text: Vec<char>, command: &str, inner: usize) -> (r: Vec<char>)
    ensures
        r@ == hat_pass(text@, command@, inner as nat),
    decreases inner, 1nat,
{
    let mut t = text;
    let mut needle = chars_of(command);
    let cmd_len = needle.len();
    needle.push('{');
    proof {
        reveal_strlit("{");
    }
    assert(needle@ =~= command@ + "{"@);
    loop
        invariant
            needle@ == command@ + "{"@,
            cmd_len == command@.len(),
            hat_pass(t@, command@, inner as nat) == hat_pass(text@, command@, inner as nat),
        decreases braces(t@),
    {
        let start = match find_first(&t, &needle, 0) {
            Some(s) => s,
            None => return t,
        };
        proof {
            lemma_first_occ_props(t@, needle@, 0);
        }
        assert(needle.len() <= t.len() - start);
        let (arg, end) = match read_braced_group(&t, start + cmd_len) {
            Some(g) => g,
            None => return t,
        };
        let readable_arg = readable_exec(&arg, false, inner);
        let with = hat_text_exec(&trim_chars(&readable_arg));
        proof {
            lemma_braced_group(t@, start + cmd_len);
            lemma_hat_text_braces(trim(readable(arg@, false, inner as nat)));
            lemma_spliced_braces(t@, start as int, end as int, with@);
            lemma_braces_subrange(t@, start as int, start + cmd_len, end as int);
        }
        t = splice(&t, start, end, &with);
    }
}

fn fraction_text_exec(num: &[char], den: &[char]) -> (r: Vec<char>)
    ensures
        r@ == fraction_text(num@, den@),
{
    let mut out = chars_of("(");
    extend_chars(&mut out, &trim_chars(num));
    extend_str(&mut out, ")/(");
    extend_chars(&mut out, &trim_chars(den));
    extend_str(&mut out, ")");
    out
}

fn frac_pass_exec(text: Vec<char>, inner: usize) -> (r: Vec<char>)
    ensures
        r@ == frac_pass(text@, inner as nat),
    decreases inner, 1nat,
{
    let mut t = text;
    let needle = chars_of("\\frac{");
    let cmd = chars_of("\\frac");
    loop
        invariant
            needle@ == "\\frac{"@,
            cmd@ == "\\frac"@,
            frac_pass(t@, inner as nat) == frac_pass(text@, inner as nat),
        decreases braces(t@),
    {
        let start = match find_first(&t, &needle, 0) {
            Some(s) => s,
            None => return t,
        };
        proof {
            lemma_first_occ_props(t@, needle@, 0);
            reveal_strlit("\\frac{");
            reveal_strlit("\\frac");
        }
        assert(needle.len() <= t.len() - start);
        assert(cmd@.len() < needle@.len());
        let (num, num_end) = match read_braced_group(&t, start + cmd.len()) {
            Some(g) => g,
            None => return t,
        };
        let (den, den_end) = match read_braced_group(&t, num_end) {
            Some(g) => g,
            None => return t,
        };
        let rn = readable_exec(&num, false, inner);
        let rd = readable_exec(&den, false, inner);
        let with = without_braces_exec(&fraction_text_exec(&rn, &rd));
        proof {
            lemma_braced_group(t@, start + cmd@.len());
            lemma_braced_group(t@, num_end as int);
            lemma_without_braces(fraction_text(rn@, rd@));
            lemma_spliced_braces(t@, start as int, den_end as int, with@);
            lemma_braces_subrange(t@, start as int, start + cmd@.len(), den_end as int);
            lemma_braces_subrange(t@, start + cmd@.len(), num_end as int, den_end as int);
        }
        t = splice(&t, start, den_end, &with);
    }
}

fn replace_symbols(t: Vec<char>) -> (r: Vec<char>)
    ensures
        r@ == replace_each(t@, symbol_table(), 23),
{
    let table = symbol_table_exec();
    let ghost tv = table@.map_values(|p: (&'static str, &'static str)| (p.0@, p.1@));
    let mut v = t;
    let ghost orig = v@;
    let mut i: usize = 0;
    while i < table.len()
        invariant
            i <= table@.len(),
            tv == table@.map_values(|p: (&'static str, &'static str)| (p.0@, p.1@)),
            tv == symbol_table(),
            tv.len() == 23,
            v@ == replace_each(orig, tv, i as nat),
        decreases table@.len() - i,
    {
        let (from, to) = table[i];
        assert(tv[i as int] == (from@, to@));
        v = replace_all_chars(&v, &chars_of(from), &chars_of(to));
        i = i + 1;
    }
    v
}

fn finish_lines_exec(t: &[char], display: bool) -> (r: Vec<char>)
    ensures
        r@ == finish_lines(t@, display),
{
    if display && has_char(t, '\n') {
        let ls = crate::text::split_lines(t);
        let ghost lv = ls.deep_view();
        let mut trimmed: Vec<Vec<char>> = Vec::new();
        let mut i: usize = 0;
        while i < ls.len()
            invariant
                i <= ls@.len(),
                lv == ls.deep_view(),
                lv.len() == ls@.len(),
                trimmed.deep_view() == lv.take(i as int).map_values(|l: Seq<char>| crate::text::trim_end(l)),
            decreases ls@.len() - i,
        {
            let e = crate::text::trim_end_chars(&ls[i]);
            let ghost before = trimmed.deep_view();
            crate::text::push_line(&mut trimmed, e);
            assert(lv[i as int] == ls@[i as int]@);
            assert(trimmed.deep_view() =~= lv.take(i + 1).map_values(|l: Seq<char>| crate::text::trim_end(l)));
            i = i + 1;
        }
        assert(lv.take(lv.len() as int) =~= lv);
        let joined = crate::problem::join_chars(&trimmed, &chars_of("\n"));
        let nl = vec!['\n'];
        assert(nl@ =~= seq!['\n']);
        trim_set_chars(&joined, &nl)
    } else {
        crate::text::collapse_whitespace(t)
    }
}

fn readable_exec(s: &[char], display: bool, budget: usize) -> (r: Vec<char>)
    ensures
        r@ == readable(s@, display, budget as nat),
    decreases budget, 0nat,
{
    if budget == 0 {
        return Vec::new();
    }
    let inner = budget - 1;
    let t0 = trim_chars(s);
    let t1 = hat_pass_exec(t0, "\\widehat", inner);
    let t2 = hat_pass_exec(t1, "\\hat", inner);
    let t3 = bar_pass_exec(t2, "\\bar");
    let t4 = bar_pass_exec(t3, "\\overline");
    let t5 = frac_pass_exec(t4, inner);
    let t6 = replace_symbols(t5);
    let t7 = without_braces_exec(&t6);
    finish_lines_exec(&t7, display)
}

/// A formula as readable text, for inline (`display` false) or display use.
pub fn latex_to_readable_text_with_mode(formula: &str, display: bool) -> (r: String)
    requires
        formula@.len() < usize::MAX,
    ensures
        r@ == readable_text(formula@, display),
{
    let s = chars_of(formula);
    let n = braces_count(&s);
    assert(n <= s@.len());
    let out = readable_exec(&s, display, n + 1);
    string_of(&out)
}

/// A formula as readable single-line text.
pub fn latex_to_readable_text(formula: &str) -> (r: String)
    requires
        formula@.len() < usize::MAX,
    ensures
        r@ == readable_text(formula@, false),
{
    latex_to_readable_text_with_mode(formula, false)
}

} // verus!
