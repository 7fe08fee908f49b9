//! Replies of the two exchanges (TWSE and TPEx) and the closing prices kept from them.

use vstd::prelude::*;
use crate::decimal::{decimal_text_positive, text_is_positive};
use crate::fmt::{decimal, decimal_chars};
use crate::records::SecurityTask;
use crate::text::{
    copy_string, string_of, chars_of, has_prefix, parse_u32, parsed_u32, replace_chars, replaced, starts_with_chars,
    string_from_chars, trim_chars, trimmed,
};

verus! {

/// The TWSE monthly-average reply.
#[derive(Clone, Debug)]
pub struct SecurityPriceTwse {
    pub stat: String,
    pub date: Option<String>,
    pub title: Option<String>,
    pub fields: Option<Vec<String>>,
    pub data: Option<Vec<Vec<String>>>,
    pub notes: Option<Vec<String>>,
    pub hints: Option<String>,
}

/// The TPEx trading reply.
#[derive(Clone, Debug)]
pub struct SecurityPriceTpex {
    pub tables: Vec<SecurityPriceTpexTable>,
    pub stat: String,
    pub date: String,
    pub code: Option<String>,
    pub name: Option<String>,
    pub show_list_price_note: Option<bool>,
    pub show_list_price_link: Option<bool>,
}

/// One table of a TPEx reply.
#[derive(Clone, Debug)]
pub struct SecurityPriceTpexTable {
    pub title: String,
    pub subtitle: String,
    pub data: Vec<Vec<String>>,
    pub date: String,
    pub total_count: u32,
    pub fields: Vec<String>,
    pub notes: Vec<String>,
    pub summary: Option<Vec<String>>,
}

/// The closing prices of one month, as stored for later parsing.
#[derive(Clone, Debug)]
pub struct MonthlyPrice {
    pub status: String,
    pub title: String,
    pub date: String,
    pub fields: Vec<String>,
    pub data: Vec<Vec<String>>,
}

/// `s` with every comma removed.
pub open spec fn without_commas(s: Seq<char>) -> Seq<char> {
    replaced(s, seq![','], Seq::<char>::empty())
}

/// Rows may be read at the date column, and at the price column where the
/// date matches the month.
pub open spec fn close_rows_readable(rows: Seq<Seq<Seq<char>>>, tw_ym: Seq<char>, date_index: int, price_index: int) -> bool {
    forall|i: int| 0 <= i < rows.len() ==> {
        &&& 0 <= date_index < (#[trigger] rows[i]).len()
        &&& has_prefix(trimmed(rows[i][date_index]), tw_ym) ==> 0 <= price_index < rows[i].len()
    }
}

/// The rows of `rows` whose trimmed date starts with the month `tw_ym` and
/// whose price (commas removed) is a decimal above zero, each reduced to its
/// date and its price without commas.
pub open spec fn close_rows(rows: Seq<Seq<Seq<char>>>, tw_ym: Seq<char>, date_index: int, price_index: int) -> Seq<Seq<Seq<char>>>
    decreases rows.len(),
{
    if rows.len() == 0 {
        Seq::empty()
    } else {
        let rest = close_rows(rows.drop_last(), tw_ym, date_index, price_index);
        let x = rows.last();
        if has_prefix(trimmed(x[date_index]), tw_ym) && text_is_positive(without_commas(x[price_index])) {
            rest.push(seq![x[date_index], without_commas(x[price_index])])
        } else {
            rest
        }
    }
}

/// Law: a kept row holds the date and the price only; its date falls in the
/// month, and its price is a decimal above zero written without commas.
pub proof fn lemma_close_rows_kept(rows: Seq<Seq<Seq<char>>>, tw_ym: Seq<char>, date_index: int, price_index: int)
    ensures
        close_rows(rows, tw_ym, date_index, price_index).len() <= rows.len(),
        forall|k: int| 0 <= k < close_rows(rows, tw_ym, date_index, price_index).len() ==> {
            let row = #[trigger] close_rows(rows, tw_ym, date_index, price_index)[k];
            &&& row.len() == 2
            &&& has_prefix(trimmed(row[0]), tw_ym)
            &&& text_is_positive(row[1])
            &&& !row[1].contains(',')
        },
    decreases rows.len(),
{
    if rows.len() > 0 {
        let q = rows.drop_last();
        lemma_close_rows_kept(q, tw_ym, date_index, price_index);
        let x = rows.last();
        crate::text::lemma_replaced_removes(x[price_index], ',');
        let prev = close_rows(q, tw_ym, date_index, price_index);
        assert forall|k: int| 0 <= k < close_rows(rows, tw_ym, date_index, price_index).len() implies {
            let row = #[trigger] close_rows(rows, tw_ym, date_index, price_index)[k];
            &&& row.len() == 2
            &&& has_prefix(trimmed(row[0]), tw_ym)
            &&& text_is_positive(row[1])
            &&& !row[1].contains(',')
        } by {
            if k < prev.len() {
                assert(close_rows(rows, tw_ym, date_index, price_index)[k] == prev[k]);
            }
        }
    }
}

/// Whether a row holds a closing price of the month: its trimmed date
/// starts with the month and its price, commas removed, is a decimal above zero.
pub open spec fn close_row_test(tw_ym: Seq<char>, date_index: int, price_index: int) -> spec_fn(Seq<Seq<char>>) -> bool {
    |x: Seq<Seq<char>>| has_prefix(trimmed(x[date_index]), tw_ym) && text_is_positive(without_commas(x[price_index]))
}

/// A row reduced to its date and its price without commas.
pub open spec fn close_row_cells(date_index: int, price_index: int) -> spec_fn(Seq<Seq<char>>) -> Seq<Seq<char>> {
    |x: Seq<Seq<char>>| seq![x[date_index], without_commas(x[price_index])]
}

/// Law: no closing price of the month is lost or added. The kept rows are
/// exactly the rows whose trimmed date starts with the month and whose
/// price, commas removed, is a decimal above zero: all of them, in their
/// order, each reduced to its date and its price without commas, whatever
/// the other rows hold.
pub proof fn lemma_close_rows_complete(rows: Seq<Seq<Seq<char>>>, tw_ym: Seq<char>, date_index: int, price_index: int)
    ensures
        close_rows(rows, tw_ym, date_index, price_index)
            == rows.filter(|x: Seq<Seq<char>>| has_prefix(trimmed(x[date_index]), tw_ym) && text_is_positive(without_commas(x[price_index])))
                .map_values(|x: Seq<Seq<char>>| seq![x[date_index], without_commas(x[price_index])]),
    decreases rows.len(),
{
    reveal(Seq::filter);
    let test = |x: Seq<Seq<char>>| has_prefix(trimmed(x[date_index]), tw_ym) && text_is_positive(without_commas(x[price_index]));
    let cells = |x: Seq<Seq<char>>| seq![x[date_index], without_commas(x[price_index])];
    if rows.len() == 0 {
        assert(rows.filter(test).map_values(cells) =~= Seq::<Seq<Seq<char>>>::empty());
    } else {
        let q = rows.drop_last();
        let x = rows.last();
        lemma_close_rows_complete(q, tw_ym, date_index, price_index);
        let f = q.filter(test);
        if test(x) {
            assert(rows.filter(test) == f.push(x));
            assert(f.push(x).map_values(cells) =~= f.map_values(cells).push(cells(x)));
        } else {
            assert(rows.filter(test) == f);
        }
    }
}

/// `s` with its commas removed.
pub fn remove_commas(s: &String) -> (r: String)
    ensures
        r@ == without_commas(s@),
{
    let v = chars_of(s.as_str());
    let comma = vec![','];
    let none: Vec<char> = Vec::new();
    assert(comma@ =~= seq![','] && none@ =~= Seq::<char>::empty());
    string_from_chars(&replace_chars(&v, &comma, &none))
}

/// Whether the rows may be read as [`get_close_price`] reads them (see
/// [`close_rows_readable`]).
pub fn close_rows_ready(data: &Vec<Vec<String>>, tw_ym: &String, date_index: usize, price_index: usize) -> (r: bool)
    ensures
        r == close_rows_readable(data.deep_view(), tw_ym@, date_index as int, price_index as int),
{
    let ym = chars_of(tw_ym.as_str());
    let ghost rows = data.deep_view();
    let mut i: usize = 0;
    while i < data.len()
        invariant
            i <= data.len(),
            rows == data.deep_view(),
            ym@ == tw_ym@,
            forall|j: int| 0 <= j < i ==> {
                &&& 0 <= date_index < (#[trigger] rows[j]).len()
                &&& has_prefix(trimmed(rows[j][date_index as int]), tw_ym@) ==> 0 <= price_index < rows[j].len()
            },
        decreases data.len() - i,
    {
        assert(rows[i as int] == data@[i as int].deep_view());
        if date_index >= data[i].len() {
            return false;
        }
        let trimmed_date = trim_chars(&chars_of(data[i][date_index].as_str()));
        if starts_with_chars(&trimmed_date, &ym) && price_index >= data[i].len() {
            return false;
        }
        i += 1;
    }
    true
}

/// The closing prices of the month `tw_ym`: rows whose date matches and whose
/// price is above zero, as `[date, price without commas]`.
pub fn get_close_price(data: &Vec<Vec<String>>, tw_ym: &String, date_index: usize, price_index: usize) -> (r: Vec<Vec<String>>)
    requires
        close_rows_readable(data.deep_view(), tw_ym@, date_index as int, price_index as int),
    ensures
        r.deep_view() == close_rows(data.deep_view(), tw_ym@, date_index as int, price_index as int),
        r.deep_view() == data.deep_view().filter(close_row_test(tw_ym@, date_index as int, price_index as int))
            .map_values(close_row_cells(date_index as int, price_index as int)),
{
    proof {
        lemma_close_rows_complete(data.deep_view(), tw_ym@, date_index as int, price_index as int);
        let di = date_index as int;
        let pi = price_index as int;
        let ym = tw_ym@;
        assert(close_row_test(ym, di, pi)
            =~= |x: Seq<Seq<char>>| has_prefix(trimmed(x[di]), ym) && text_is_positive(without_commas(x[pi])));
        assert(close_row_cells(di, pi) =~= |x: Seq<Seq<char>>| seq![x[di], without_commas(x[pi])]);
    }
    let ym = chars_of(tw_ym.as_str());
    let mut out: Vec<Vec<String>> = Vec::new();
    let mut i: usize = 0;
    let ghost rows = data.deep_view();
    assert(rows.take(0) =~= Seq::<Seq<Seq<char>>>::empty());
    while i < data.len()
        invariant
            i <= data.len(),
            rows == data.deep_view(),
            ym@ == tw_ym@,
            close_rows_readable(rows, tw_ym@, date_index as int, price_index as int),
            out.deep_view() == close_rows(rows.take(i as int), tw_ym@, date_index as int, price_index as int),
        decreases data.len() - i,
    {
        assert(rows.take(i + 1).drop_last() =~= rows.take(i as int));
        assert(rows.take(i + 1).last() == rows[i as int]);
        assert(rows[i as int] == data@[i as int].deep_view());
        let row = &data[i];
        assert(0 <= date_index < rows[i as int].len());
        let date = chars_of(row[date_index].as_str());
        let trimmed_date = trim_chars(&date);
        if starts_with_chars(&trimmed_date, &ym) {
            let price = remove_commas(&row[price_index]);
            if decimal_text_positive(price.as_str()) {
                let kept = vec![row[date_index].clone(), price];
                assert(kept.deep_view() =~= seq![rows[i as int][date_index as int], without_commas(rows[i as int][price_index as int])]);
                let ghost before = out.deep_view();
                let ghost kv = kept.deep_view();
                out.push(kept);
                assert(out.deep_view() =~= before.push(kv));
                assert(out.deep_view() =~= before.push(seq![rows[i as int][date_index as int], without_commas(rows[i as int][price_index as int])]));
            }
        }
        i += 1;
    }
    assert(rows.take(data.len() as int) =~= rows);
    out
}


/// The optional string, or the empty one.
pub open spec fn or_empty(s: Option<String>) -> Seq<char> {
    match s {
        Some(t) => t@,
        None => Seq::<char>::empty(),
    }
}

/// The rows of a TWSE reply, none when absent.
pub open spec fn twse_rows(j: SecurityPriceTwse) -> Seq<Seq<Seq<char>>> {
    match j.data {
        Some(d) => d.deep_view(),
        None => Seq::empty(),
    }
}

/// The field names of a TWSE reply, none when absent.
pub open spec fn twse_fields(j: SecurityPriceTwse) -> Seq<Seq<char>> {
    match j.fields {
        Some(f) => f.deep_view(),
        None => Seq::empty(),
    }
}

/// The month's closing prices kept from a TWSE reply: present only when the
/// reply's `stat` is `OK` and some price of the month is above zero.
pub fn get_twse_price(twse_json: SecurityPriceTwse, tw_ym: String, date_index: usize, price_index: usize) -> (r: Option<MonthlyPrice>)
    requires
        close_rows_readable(twse_rows(twse_json), tw_ym@, date_index as int, price_index as int),
    ensures
        ({
            let kept = close_rows(twse_rows(twse_json), tw_ym@, date_index as int, price_index as int);
            match r {
                Some(m) => {
                    &&& twse_json.stat@ == seq!['O', 'K']
                    &&& kept.len() > 0
                    &&& m.status@ == seq!['Y']
                    &&& m.title@ == or_empty(twse_json.title)
                    &&& m.date@ == or_empty(twse_json.date)
                    &&& m.fields.deep_view() == twse_fields(twse_json)
                    &&& m.data.deep_view() == kept
                },
                None => twse_json.stat@ != seq!['O', 'K'] || kept.len() == 0,
            }
        }),
{
    let ok = vec!['O', 'K'];
    let stat = chars_of(twse_json.stat.as_str());
    let status_ok = crate::text::chars_eq(&stat, &ok);
    assert(ok@ =~= seq!['O', 'K']);
    let title = match twse_json.title {
        Some(t) => t,
        None => String::new(),
    };
    let date = match twse_json.date {
        Some(t) => t,
        None => String::new(),
    };
    let fields = match twse_json.fields {
        Some(f) => f,
        None => Vec::new(),
    };
    assert(fields.deep_view() =~= twse_fields(twse_json));
    let rows = match twse_json.data {
        Some(d) => d,
        None => Vec::new(),
    };
    assert(rows.deep_view() =~= twse_rows(twse_json));
    let data = get_close_price(&rows, &tw_ym, date_index, price_index);
    if status_ok && data.len() > 0 {
        let status = string_of(vec!['Y']);
        Some(MonthlyPrice { status, title, date, fields, data })
    } else {
        None
    }
}

/// The first table of a TPEx reply may be read as [`get_tpex_price`] does.
pub open spec fn tpex_readable(j: SecurityPriceTpex, tw_ym: Seq<char>, date_index: int, price_index: int) -> bool {
    j.tables.len() > 0 ==> close_rows_readable(j.tables[0].data.deep_view(), tw_ym, date_index, price_index)
}

/// The month's closing prices kept from the first table of a TPEx reply:
/// present only when the table exists, counts some rows, and some price of
/// the month is above zero.
pub fn get_tpex_price(tpex_json: SecurityPriceTpex, tw_ym: String, date_index: usize, price_index: usize) -> (r: Option<MonthlyPrice>)
    requires
        tpex_readable(tpex_json, tw_ym@, date_index as int, price_index as int),
    ensures
        match r {
            Some(m) => {
                let t = tpex_json.tables[0];
                let kept = close_rows(t.data.deep_view(), tw_ym@, date_index as int, price_index as int);
                &&& tpex_json.tables.len() > 0
                &&& t.total_count > 0
                &&& kept.len() > 0
                &&& m.status@ == seq!['Y']
                &&& m.title@ == t.subtitle@
                &&& m.date@ == t.date@
                &&& m.fields.deep_view() == t.fields.deep_view()
                &&& m.data.deep_view() == kept
            },
            None => tpex_json.tables.len() == 0 || tpex_json.tables[0].total_count == 0
                || close_rows(tpex_json.tables[0].data.deep_view(), tw_ym@, date_index as int, price_index as int).len() == 0,
        },
{
    if tpex_json.tables.len() == 0 {
        return None;
    }
    let table = &tpex_json.tables[0];
    let title = copy_string(&table.subtitle);
    let date = copy_string(&table.date);
    let fields = crate::text::copy_strings(&table.fields);
    let data = get_close_price(&table.data, &tw_ym, date_index, price_index);
    if table.total_count > 0 && data.len() > 0 {
        let status = string_of(vec!['Y']);
        Some(MonthlyPrice { status, title, date, fields, data })
    } else {
        None
    }
}

/// The ROC-calendar month `year - 1911` and `month` joined by `/`, as the
/// exchanges print dates (e.g. `113/05`).
pub open spec fn tw_year_month_text(year: Seq<char>, month: Seq<char>) -> Seq<char> {
    decimal((parsed_u32(year).unwrap() - 1911) as nat) + seq!['/'] + month
}

/// The ROC-calendar year and month of a task's date.
pub fn tw_year_month(year: &String, month: &String) -> (r: String)
    requires
        parsed_u32(year@) matches Some(y) && y >= 1911,
    ensures
        r@ == tw_year_month_text(year@, month@),
{
    let y = parse_u32(&chars_of(year.as_str())).unwrap();
    let mut out = decimal_chars((y - 1911) as u64);
    out.push('/');
    crate::text::push_str(&mut out, month.as_str());
    assert(out@ =~= tw_year_month_text(year@, month@));
    string_from_chars(&out)
}

/// The log line announcing a price request for a task.
pub fn run_task_log(task: &SecurityTask) -> (r: String)
    ensures
        r@ == seq!['s', 'e', 'n', 'd', ' ', '[', ' '] + task.open_date_year@ + task.open_date_month@
            + task.open_date_day@ + seq![':', ' '] + task.market_type@ + seq!['('] + task.security_code@
            + seq![')', ' ', ']'],
{
    let mut out: Vec<char> = vec!['s', 'e', 'n', 'd', ' ', '[', ' '];
    crate::text::push_str(&mut out, task.open_date_year.as_str());
    crate::text::push_str(&mut out, task.open_date_month.as_str());
    crate::text::push_str(&mut out, task.open_date_day.as_str());
    out.push(':');
    out.push(' ');
    crate::text::push_str(&mut out, task.market_type.as_str());
    out.push('(');
    crate::text::push_str(&mut out, task.security_code.as_str());
    out.push(')');
    out.push(' ');
    out.push(']');
    string_from_chars(&out)
}

} // verus!
