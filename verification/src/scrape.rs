//! The exchange's listing page: decoding, locating its table and reading its cells.
//!
//! HTML parsing, CSS selection, regular expressions and Big5 decoding are
//! done by `scraper`, `regex` and `encoding_rs`; what they return is named
//! here (and, for the two regular expressions used, stated), and the rest is
//! verified.

use vstd::prelude::*;
use crate::records::{DailyTask, SecurityTemp};
use crate::text::{
    chars_of, copy_string, html_decode, html_decoded, is_digit, is_white_space, string_from_chars, trim_chars, trimmed,
};

verus! {

/// Whether the regular expression `pattern` matches somewhere in `text`
/// (`None` when the pattern does not compile).
pub uninterp spec fn regex_matches(pattern: Seq<char>, text: Seq<char>) -> Option<bool>;

/// `text` with every match of `pattern` replaced by `rep` (`None` when the
/// pattern does not compile).
pub uninterp spec fn regex_replaced(pattern: Seq<char>, text: Seq<char>, rep: Seq<char>) -> Option<Seq<char>>;

/// `text` decoded from the Big5 encoding.
pub uninterp spec fn big5_decoded(bytes: Seq<u8>) -> Seq<char>;

/// The outer HTML of the first element of the parsed document `doc` that the
/// CSS selector `selector` selects (`None` when none does, or the selector
/// does not parse).
pub uninterp spec fn html_first_match(doc: Seq<char>, selector: Seq<char>) -> Option<Seq<char>>;

/// For each element of the parsed fragment selected by `row_selector`, the
/// inner HTML of each of its descendants selected by `cell_selector`, in
/// document order (`None` when a selector does not parse).
pub uninterp spec fn html_fragment_cells(fragment: Seq<char>, row_selector: Seq<char>, cell_selector: Seq<char>) -> Option<Seq<Seq<Seq<char>>>>;

/// Whether the text holds an ASCII digit, a `.` or a `,`.
pub open spec fn has_number_char(text: Seq<char>) -> bool {
    exists|i: int| 0 <= i < text.len() && (is_digit(#[trigger] text[i]) || text[i] == '.' || text[i] == ',')
}

/// `Regex::new(pattern)` then `is_match(text)`.
/// Claimed: the result is [`regex_matches`] of the arguments; for the
/// one-class pattern `[0-9.,]+` the pattern compiles and matches exactly when
/// some character of the text is in the class.
#[verifier::external_body]
pub(crate) fn regex_is_match(pattern: &str, text: &str) -> (r: Option<bool>)
    ensures
        r == regex_matches(pattern@, text@),
        pattern@ == "[0-9.,]+"@ ==> r == Some(has_number_char(text@)),
{
    match regex::Regex::new(pattern) {
        Ok(re) => Some(re.is_match(text)),
        Err(_) => None,
    }
}

/// Length of the run of white space (`\s`, the Unicode `White_Space`
/// characters) that starts at `i`.
pub open spec fn white_run(s: Seq<char>, i: int) -> nat
    decreases s.len() - i,
{
    if 0 <= i < s.len() && is_white_space(s[i]) {
        1 + white_run(s, i + 1)
    } else {
        0
    }
}

/// Whether a `>`, a line feed, some white space and a `<` start `s`.
pub open spec fn tag_gap_at_start(s: Seq<char>) -> bool {
    &&& s.len() >= 4
    &&& s[0] == '>'
    &&& s[1] == '\n'
    &&& white_run(s, 2) > 0
    &&& 2 + white_run(s, 2) < s.len()
    &&& s[2 + white_run(s, 2) as int] == '<'
}

/// `s` with each `>`, line feed, white space and `<` closed up to `><`,
/// scanning from the left (the matches of `>\n\s+<` replaced by `><`).
pub open spec fn tags_closed_up(s: Seq<char>) -> Seq<char>
    decreases s.len(),
{
    if tag_gap_at_start(s) {
        seq!['>', '<'] + tags_closed_up(s.skip(3 + white_run(s, 2) as int))
    } else if s.len() > 0 {
        seq![s[0]] + tags_closed_up(s.skip(1))
    } else {
        s
    }
}

/// The characters of `s` other than white space, in order.
pub open spec fn without_white(s: Seq<char>) -> Seq<char>
    decreases s.len(),
{
    if s.len() == 0 {
        s
    } else if is_white_space(s[0]) {
        without_white(s.skip(1))
    } else {
        seq![s[0]] + without_white(s.skip(1))
    }
}

/// Skipping a run of white space changes nothing once white space is dropped.
proof fn lemma_without_white_run(s: Seq<char>, i: int)
    requires
        0 <= i <= s.len(),
    ensures
        without_white(s.skip(i)) == without_white(s.skip(i + white_run(s, i))),
    decreases s.len() - i,
{
    if i < s.len() && is_white_space(s[i]) {
        lemma_without_white_run(s, i + 1);
        assert(s.skip(i).skip(1) =~= s.skip(i + 1));
        assert(1 + white_run(s, i + 1) == white_run(s, i));
        assert(i + 1 + white_run(s, i + 1) == i + white_run(s, i));
    }
}

proof fn lemma_white_run_bound(s: Seq<char>, i: int)
    requires
        0 <= i <= s.len(),
    ensures
        i + white_run(s, i) <= s.len(),
        forall|k: int| i <= k < i + white_run(s, i) ==> is_white_space(#[trigger] s[k]),
    decreases s.len() - i,
{
    if i < s.len() && is_white_space(s[i]) {
        lemma_white_run_bound(s, i + 1);
    }
}

/// Law: closing up the gaps between tags removes white space only: every
/// other character of the text stays, in order, and nothing is added.
pub proof fn lemma_tags_closed_up_keeps_text(s: Seq<char>)
    ensures
        without_white(tags_closed_up(s)) == without_white(s),
        tags_closed_up(s).len() <= s.len(),
    decreases s.len(),
{
    if tag_gap_at_start(s) {
        let n = white_run(s, 2);
        lemma_white_run_bound(s, 2);
        let rest = s.skip(3 + n as int);
        lemma_tags_closed_up_keeps_text(rest);
        let out = seq!['>', '<'] + tags_closed_up(rest);
        assert(!is_white_space('>') && !is_white_space('<'));
        assert(out.skip(1) =~= seq!['<'] + tags_closed_up(rest));
        assert(out.skip(1).skip(1) =~= tags_closed_up(rest));
        assert(without_white(out) == seq!['>'] + without_white(out.skip(1)));
        assert(without_white(out.skip(1)) == seq!['<'] + without_white(out.skip(1).skip(1)));
        assert(is_white_space(s[1]));
        assert(s.skip(1).skip(1) =~= s.skip(2));
        assert(without_white(s.skip(1)) == without_white(s.skip(2)));
        lemma_without_white_run(s, 2);
        let t = s.skip(2 + n as int);
        assert(t[0] == '<');
        assert(t.skip(1) =~= rest);
        assert(without_white(t) == seq!['<'] + without_white(rest));
        assert(without_white(s) == seq!['>'] + without_white(s.skip(1)));
        assert(without_white(out) =~= without_white(s));
    } else if s.len() > 0 {
        lemma_tags_closed_up_keeps_text(s.skip(1));
        let out = seq![s[0]] + tags_closed_up(s.skip(1));
        assert(out.skip(1) =~= tags_closed_up(s.skip(1)));
        assert(out[0] == s[0]);
    }
}

/// `Regex::new(pattern)` then `replace_all(text, rep)`.
/// Claimed: the result is [`regex_replaced`] of the arguments; for the
/// pattern `>\n\s+<` and the replacement `><` (no `$` in it) the pattern
/// compiles and the result is [`tags_closed_up`] of the text (the leftmost
/// matches, without overlap; `\s+` can only end where the `<` follows).
#[verifier::external_body]
pub(crate) fn regex_replace_all(pattern: &str, text: &str, rep: &str) -> (r: Option<String>)
    ensures
        match r {
            Some(s) => regex_replaced(pattern@, text@, rep@) == Some(s@),
            None => regex_replaced(pattern@, text@, rep@) is None,
        },
        r is Some || !(pattern@ == ">\n\\s+<"@ && rep@ == "><"@),
        r is Some && pattern@ == ">\n\\s+<"@ && rep@ == "><"@ ==> r.unwrap()@ == tags_closed_up(text@),
{
    match regex::Regex::new(pattern) {
        Ok(re) => Some(re.replace_all(text, rep).to_string()),
        Err(_) => None,
    }
}

/// `encoding_rs::BIG5.decode(bytes)`.
/// Claimed: the result is [`big5_decoded`] of the bytes.
#[verifier::external_body]
pub(crate) fn decode_big5(bytes: &[u8]) -> (r: String)
    ensures
        r@ == big5_decoded(bytes@),
{
    encoding_rs::BIG5.decode(bytes).0.to_string()
}

/// `Html::parse_document`, `Selector::parse`, the first `select` result and its `html()`.
/// Claimed: the result is [`html_first_match`] of the arguments.
#[verifier::external_body]
pub(crate) fn first_match_html(doc: &str, selector: &str) -> (r: Option<String>)
    ensures
        match r {
            Some(s) => html_first_match(doc@, selector@) == Some(s@),
            None => html_first_match(doc@, selector@) is None,
        },
{
    let document = scraper::Html::parse_document(doc);
    match scraper::Selector::parse(selector) {
        Ok(sel) => document.select(&sel).next().map(|e| e.html()),
        Err(_) => None,
    }
}

/// `Html::parse_fragment`, then `inner_html()` of each cell of each row.
/// Claimed: the result is [`html_fragment_cells`] of the arguments.
#[verifier::external_body]
pub(crate) fn fragment_cells(fragment: &str, row_selector: &str, cell_selector: &str) -> (r: Option<Vec<Vec<String>>>)
    ensures
        match r {
            Some(rows) => html_fragment_cells(fragment@, row_selector@, cell_selector@) == Some(rows.deep_view()),
            None => html_fragment_cells(fragment@, row_selector@, cell_selector@) is None,
        },
{
    let html = scraper::Html::parse_fragment(fragment);
    match (scraper::Selector::parse(row_selector), scraper::Selector::parse(cell_selector)) {
        (Ok(tr), Ok(td)) => Some(html.select(&tr).map(|row| row.select(&td).map(|cell| cell.inner_html()).collect()).collect()),
        _ => None,
    }
}


/// The listing table of the page: the first `table.h4`, with the line
/// breaks and indentation between tags removed.
pub open spec fn security_table(page: Seq<char>) -> Option<Seq<char>> {
    match html_first_match(page, "table.h4"@) {
        Some(table) => Some(tags_closed_up(table)),
        None => None,
    }
}

/// The listing table of the page (see [`security_table`]); the page must hold one.
pub fn parse_web_security_data(table: &String) -> (r: String)
    requires
        security_table(table@) is Some,
    ensures
        r@ == security_table(table@).unwrap(),
{
    let found = first_match_html(table.as_str(), "table.h4").unwrap();
    regex_replace_all(">\n\\s+<", found.as_str(), "><").unwrap()
}

/// The listing table of the page, or `None` when the page holds none.
pub fn security_table_html(table: &String) -> (r: Option<String>)
    ensures
        match r {
            Some(t) => security_table(table@) == Some(t@),
            None => security_table(table@) is None,
        },
{
    match first_match_html(table.as_str(), "table.h4") {
        Some(_) => Some(parse_web_security_data(table)),
        None => None,
    }
}

/// The listing page as fetched (Big5 bytes) reduced to its decoded table,
/// or `None` when the page holds no listing table.
pub fn security_page_text(bytes: &[u8]) -> (r: Option<String>)
    ensures
        match r {
            Some(t) => security_table(big5_decoded(bytes@)) matches Some(table) && t@ == html_decoded(table),
            None => security_table(big5_decoded(bytes@)) is None,
        },
{
    let page = decode_big5(bytes);
    match security_table_html(&page) {
        Some(table) => Some(html_decode(table.as_str())),
        None => None,
    }
}

/// A scraped cell: entities decoded, asterisks dropped, white space trimmed.
pub open spec fn clean_cell(c: Seq<char>) -> Seq<char> {
    trimmed(html_decoded(c))
}

/// Every cell of a row cleaned.
pub open spec fn clean_row(row: Seq<Seq<char>>) -> Seq<Seq<char>> {
    row.map_values(|c: Seq<char>| clean_cell(c))
}

/// The cells of the table's rows after the header row.
pub open spec fn table_body(table: Seq<char>) -> Option<Seq<Seq<Seq<char>>>> {
    match html_fragment_cells(table, "tr"@, "td"@) {
        Some(rows) => if rows.len() > 0 {
            Some(rows.drop_first().map_values(|row: Seq<Seq<char>>| clean_row(row)))
        } else {
            None
        },
        None => None,
    }
}

fn clean_cells(row: &Vec<String>) -> (r: Vec<String>)
    ensures
        r.deep_view() == clean_row(row.deep_view()),
{
    let mut out: Vec<String> = Vec::new();
    let mut k: usize = 0;
    while k < row.len()
        invariant
            k <= row.len(),
            out.deep_view() == clean_row(row.deep_view().take(k as int)),
        decreases row.len() - k,
    {
        let decoded = html_decode(row[k].as_str());
        let cell = string_from_chars(&trim_chars(&chars_of(decoded.as_str())));
        let ghost before = out.deep_view();
        out.push(cell);
        assert(out.deep_view() =~= before.push(clean_cell(row.deep_view()[k as int])));
        k += 1;
        assert(clean_row(row.deep_view().take(k as int)) =~= before.push(clean_cell(row.deep_view()[k - 1])));
    }
    assert(row.deep_view().take(row.len() as int) =~= row.deep_view());
    out
}

/// The rows of the listing table after its header, each cell cleaned; the
/// table must have a header row.
pub fn parse_table_data(table: &str) -> (r: Vec<Vec<String>>)
    requires
        table_body(table@) is Some,
    ensures
        r.deep_view() == table_body(table@).unwrap(),
{
    let rows = fragment_cells(table, "tr", "td").unwrap();
    let ghost all = rows.deep_view();
    let mut out: Vec<Vec<String>> = Vec::new();
    let mut i: usize = 1;
    while i < rows.len()
        invariant
            1 <= i <= rows.len(),
            all == rows.deep_view(),
            out.deep_view() == all.subrange(1, i as int).map_values(|row: Seq<Seq<char>>| clean_row(row)),
        decreases rows.len() - i,
    {
        let cleaned = clean_cells(&rows[i]);
        let ghost before = out.deep_view();
        out.push(cleaned);
        assert(out.deep_view() =~= before.push(clean_row(all[i as int])));
        i += 1;
        assert(all.subrange(1, i as int).map_values(|row: Seq<Seq<char>>| clean_row(row))
            =~= before.push(clean_row(all[i - 1])));
    }
    assert(all.subrange(1, rows.len() as int) =~= all.drop_first());
    out
}

/// The cleaned body rows of the listing table, or `None` when it has no rows.
pub fn table_rows(table: &str) -> (r: Option<Vec<Vec<String>>>)
    ensures
        match r {
            Some(rows) => table_body(table@) == Some(rows.deep_view()),
            None => table_body(table@) is None,
        },
{
    match fragment_cells(table, "tr", "td") {
        Some(rows) => if rows.len() > 0 {
            Some(parse_table_data(table))
        } else {
            None
        },
        None => None,
    }
}

/// Cell `i` of a row, or the empty text when the row is shorter.
pub open spec fn cell(row: Seq<Seq<char>>, i: int) -> Seq<char> {
    if 0 <= i < row.len() { row[i] } else { Seq::<char>::empty() }
}

fn cell_exec(row: &Vec<String>, i: usize) -> (r: String)
    ensures
        r@ == cell(row.deep_view(), i as int),
{
    if i < row.len() {
        copy_string(&row[i])
    } else {
        String::new()
    }
}

/// The listing row as a security of the task's day: cells 1 to 9 are the
/// international code, code, name, market, security type, industry, issue
/// date, CFI code and remark.
pub fn loop_data_temp(content: &Vec<String>, task: &DailyTask) -> (r: SecurityTemp)
    ensures
        r.row_id@ == Seq::<char>::empty(),
        r.open_date_year@ == task.open_date_year@,
        r.open_date_month@ == task.open_date_month@,
        r.open_date_day@ == task.open_date_day@,
        r.international_code@ == cell(content.deep_view(), 1),
        r.security_code@ == cell(content.deep_view(), 2),
        r.security_name@ == cell(content.deep_view(), 3),
        r.market_type@ == cell(content.deep_view(), 4),
        r.security_type@ == cell(content.deep_view(), 5),
        r.industry_type@ == cell(content.deep_view(), 6),
        r.issue_date@ == cell(content.deep_view(), 7),
        r.cfi_code@ == cell(content.deep_view(), 8),
        r.remark@ == cell(content.deep_view(), 9),
{
    SecurityTemp {
        row_id: String::new(),
        open_date_year: copy_string(&task.open_date_year),
        open_date_month: copy_string(&task.open_date_month),
        open_date_day: copy_string(&task.open_date_day),
        international_code: cell_exec(content, 1),
        security_code: cell_exec(content, 2),
        security_name: cell_exec(content, 3),
        market_type: cell_exec(content, 4),
        security_type: cell_exec(content, 5),
        industry_type: cell_exec(content, 6),
        issue_date: cell_exec(content, 7),
        cfi_code: cell_exec(content, 8),
        remark: cell_exec(content, 9),
    }
}

} // verus!
