//! Closing prices read from stored replies, and the statistics kept beside each price.

use vstd::prelude::*;
use crate::decimal::{
    all_wf, big_decimal_parts, closes_above, closes_below, copy_decimal, decimal_wf, first_min_index,
    get_calculator_avg, is_positive, last_max_index, max_and_mean_above, mean_up4, min_and_mean_below,
    parse_decimal, plain_price, pow10, units, value_lt, views, wf, zero_decimal, Decimal,
};
use crate::exchange::{remove_commas, without_commas};
use crate::fmt::{pad_left, pad_left_chars};
use crate::records::{price_wf, ResposePrice, SecurityPrice};
use crate::scrape::{has_number_char, regex_is_match};
use crate::text::{chars_eq, chars_of, copy_string, replace_chars, replaced, string_from_chars, trim_chars, trimmed};

verus! {

/// The two decimals are written alike: same unscaled text, same scale.
pub open spec fn same_decimal(a: Decimal, b: Decimal) -> bool {
    a.unscaled@ == b.unscaled@ && a.scale == b.scale
}

/// The row's statistics are all zero (`BigDecimal::zero()`, scale 0).
pub open spec fn zero_statistics(p: SecurityPrice) -> bool {
    &&& p.price_avg@ == (0int, 0int) && p.price_hight@ == (0int, 0int) && p.price_hight_avg@ == (0int, 0int)
    &&& p.price_lowest@ == (0int, 0int) && p.price_lowest_avg@ == (0int, 0int)
}

/// The price date as stored: the monthly-average label unchanged, any other
/// date right-aligned with zeros to ten characters.
pub open spec fn stored_price_date(d: Seq<char>) -> Seq<char> {
    if d == "月平均收盤價"@ {
        d
    } else {
        pad_left(d, '0', 10)
    }
}

/// A new price row for the reply's security and day, with zero statistics,
/// when the closing price is above zero.
pub fn loop_data_price(price_date: String, price_close: Decimal, data: &ResposePrice) -> (r: Option<SecurityPrice>)
    requires
        wf(price_close),
    ensures
        r is Some <==> price_close@.0 > 0,
        r matches Some(p) ==> {
            &&& p.row_id@ == Seq::<char>::empty()
            &&& p.open_date_year@ == data.open_date_year@
            &&& p.open_date_month@ == data.open_date_month@
            &&& p.open_date_day@ == data.open_date_day@
            &&& p.security_code@ == data.security_code@
            &&& p.security_name@ == data.security_name@
            &&& p.price_date@ == stored_price_date(price_date@)
            &&& p.price_close == price_close
            &&& zero_statistics(p)
            &&& price_wf(p)
        },
{
    let label = chars_of("月平均收盤價");
    let date = chars_of(price_date.as_str());
    let new_price_date = if chars_eq(&date, &label) {
        price_date
    } else {
        string_from_chars(&pad_left_chars(&date, '0', 10))
    };
    if is_positive(&price_close) {
        Some(SecurityPrice {
            row_id: String::new(),
            open_date_year: copy_string(&data.open_date_year),
            open_date_month: copy_string(&data.open_date_month),
            open_date_day: copy_string(&data.open_date_day),
            security_code: copy_string(&data.security_code),
            security_name: copy_string(&data.security_name),
            price_date: new_price_date,
            price_close,
            price_avg: zero_decimal(),
            price_hight: zero_decimal(),
            price_hight_avg: zero_decimal(),
            price_lowest: zero_decimal(),
            price_lowest_avg: zero_decimal(),
        })
    } else {
        None
    }
}

/// The column holding the closing price in a reply of the given market:
/// 1 for TWSE listings (上市), 6 for TPEx listings (上櫃), 5 for the emerging
/// market (興櫃); none for any other market.
pub open spec fn price_column(market: Seq<char>) -> Option<int> {
    if market == "上市"@ {
        Some(1)
    } else if market == "上櫃"@ {
        Some(6)
    } else if market == "興櫃"@ {
        Some(5)
    } else {
        None
    }
}

/// The row's price cell looks numeric: it holds a digit, a `.` or a `,`
/// (the pattern `[0-9.,]+` matches in it).
pub open spec fn numeric_cell(row: Seq<Seq<char>>, col: int) -> bool {
    has_number_char(row[col])
}

/// Rows of a reply that `loop_data_res` may read: the price column exists in
/// every row and, where it looks numeric, it parses as a decimal once its
/// commas are removed.
pub open spec fn res_rows_readable(rows: Seq<Seq<Seq<char>>>, col: int) -> bool {
    forall|i: int| 0 <= i < rows.len() ==> {
        &&& 0 <= col < (#[trigger] rows[i]).len()
        &&& numeric_cell(rows[i], col) ==> big_decimal_parts(without_commas(rows[i][col])) is Some
    }
}

/// The (date, closing price) pairs `loop_data_res` keeps: rows whose price
/// cell looks numeric and denotes a price above zero, with the date cell
/// trimmed, cleared of `＊` and stored as [`stored_price_date`] says.
pub open spec fn kept_prices(rows: Seq<Seq<Seq<char>>>, col: int) -> Seq<(Seq<char>, (int, int))>
    decreases rows.len(),
{
    if rows.len() == 0 {
        Seq::empty()
    } else {
        let rest = kept_prices(rows.drop_last(), col);
        let x = rows.last();
        if numeric_cell(x, col) && big_decimal_parts(without_commas(x[col])).unwrap().0 > 0 {
            rest.push((
                stored_price_date(replaced(trimmed(x[0]), seq!['＊'], Seq::<char>::empty())),
                big_decimal_parts(without_commas(x[col])).unwrap(),
            ))
        } else {
            rest
        }
    }
}

/// Whether a reply row yields a price row: its price cell looks numeric and,
/// commas removed, parses to a price above zero.
pub open spec fn price_row_test(col: int) -> spec_fn(Seq<Seq<char>>) -> bool {
    |x: Seq<Seq<char>>| numeric_cell(x, col) && big_decimal_parts(without_commas(x[col])) is Some
        && big_decimal_parts(without_commas(x[col])).unwrap().0 > 0
}

/// Law: each reply row that yields a price yields exactly one, whatever the
/// other rows hold. The kept prices are exactly the rows whose price cell
/// looks numeric and, commas removed, parses to a price above zero: all of
/// them, in their order, each as its date (trimmed, cleared of `＊`, stored
/// as [`stored_price_date`] says) and its price.
pub proof fn lemma_kept_prices_complete(rows: Seq<Seq<Seq<char>>>, col: int)
    requires
        res_rows_readable(rows, col),
    ensures
        kept_prices(rows, col) == rows.filter(|x: Seq<Seq<char>>| numeric_cell(x, col)
            && big_decimal_parts(without_commas(x[col])) is Some
            && big_decimal_parts(without_commas(x[col])).unwrap().0 > 0)
            .map_values(|x: Seq<Seq<char>>| (
                stored_price_date(replaced(trimmed(x[0]), seq!['＊'], Seq::<char>::empty())),
                big_decimal_parts(without_commas(x[col])).unwrap(),
            )),
    decreases rows.len(),
{
    reveal(Seq::filter);
    let test = |x: Seq<Seq<char>>| numeric_cell(x, col)
        && big_decimal_parts(without_commas(x[col])) is Some
        && big_decimal_parts(without_commas(x[col])).unwrap().0 > 0;
    let entry = |x: Seq<Seq<char>>| (
        stored_price_date(replaced(trimmed(x[0]), seq!['＊'], Seq::<char>::empty())),
        big_decimal_parts(without_commas(x[col])).unwrap(),
    );
    if rows.len() == 0 {
        assert(rows.filter(test).map_values(entry) =~= Seq::<(Seq<char>, (int, int))>::empty());
    } else {
        let q = rows.drop_last();
        let x = rows.last();
        assert(res_rows_readable(q, col)) by {
            assert forall|i: int| 0 <= i < q.len() implies {
                &&& 0 <= col < (#[trigger] q[i]).len()
                &&& numeric_cell(q[i], col) ==> big_decimal_parts(without_commas(q[i][col])) is Some
            } by {
                assert(q[i] == rows[i]);
            }
        }
        lemma_kept_prices_complete(q, col);
        assert(x == rows[rows.len() - 1]);
        let f = q.filter(test);
        if test(x) {
            assert(rows.filter(test) == f.push(x));
            assert(f.push(x).map_values(entry) =~= f.map_values(entry).push(entry(x)));
        } else {
            assert(rows.filter(test) == f);
        }
    }
}

/// Row `p` belongs to the reply's security and day and has zero statistics.
pub open spec fn fresh_price_of(p: SecurityPrice, data: ResposePrice) -> bool {
    &&& p.row_id@ == Seq::<char>::empty()
    &&& p.open_date_year@ == data.open_date_year@
    &&& p.open_date_month@ == data.open_date_month@
    &&& p.open_date_day@ == data.open_date_day@
    &&& p.security_code@ == data.security_code@
    &&& p.security_name@ == data.security_name@
    &&& zero_statistics(p)
    &&& price_wf(p)
}

/// The price column of the reply's market, if it has one.
fn price_column_exec(market: &String) -> (r: Option<usize>)
    ensures
        match price_column(market@) {
            Some(c) => r == Some(c as usize),
            None => r is None,
        },
{
    let m = chars_of(market.as_str());
    if chars_eq(&m, &chars_of("上市")) {
        Some(1)
    } else if chars_eq(&m, &chars_of("上櫃")) {
        Some(6)
    } else if chars_eq(&m, &chars_of("興櫃")) {
        Some(5)
    } else {
        None
    }
}

/// The new price rows of one stored reply, whose rows are given: the price
/// column follows the market ([`price_column`]); a market without one gives none.
pub fn loop_data_res(data: &ResposePrice, rows: &Vec<Vec<String>>) -> (r: Vec<SecurityPrice>)
    requires
        price_column(data.market_type@) matches Some(c) ==> res_rows_readable(rows.deep_view(), c),
    ensures
        ({
            let kept = match price_column(data.market_type@) {
                Some(c) => kept_prices(rows.deep_view(), c),
                None => Seq::empty(),
            };
            &&& r.len() == kept.len()
            &&& forall|k: int| 0 <= k < r.len() ==> {
                &&& fresh_price_of(#[trigger] r@[k], *data)
                &&& r@[k].price_date@ == kept[k].0
                &&& r@[k].price_close@ == kept[k].1
            }
        }),
        price_column(data.market_type@) matches Some(c) ==> r.len() == rows.deep_view().filter(price_row_test(c)).len(),
{
    proof {
        if price_column(data.market_type@) is Some {
            let c = price_column(data.market_type@).unwrap();
            lemma_kept_prices_complete(rows.deep_view(), c);
            assert(price_row_test(c) =~= |x: Seq<Seq<char>>| numeric_cell(x, c)
                && big_decimal_parts(without_commas(x[c])) is Some
                && big_decimal_parts(without_commas(x[c])).unwrap().0 > 0);
        }
    }
    let mut out: Vec<SecurityPrice> = Vec::new();
    let col = match price_column_exec(&data.market_type) {
        Some(c) => c,
        None => { return out; },
    };
    let ghost all = rows.deep_view();
    let mut i: usize = 0;
    assert(all.take(0) =~= Seq::<Seq<Seq<char>>>::empty());
    while i < rows.len()
        invariant
            i <= rows.len(),
            all == rows.deep_view(),
            price_column(data.market_type@) == Some(col as int),
            res_rows_readable(all, col as int),
            out.len() == kept_prices(all.take(i as int), col as int).len(),
            forall|k: int| 0 <= k < out.len() ==> {
                &&& fresh_price_of(#[trigger] out@[k], *data)
                &&& out@[k].price_date@ == kept_prices(all.take(i as int), col as int)[k].0
                &&& out@[k].price_close@ == kept_prices(all.take(i as int), col as int)[k].1
            },
        decreases rows.len() - i,
    {
        assert(all.take(i + 1).drop_last() =~= all.take(i as int));
        assert(all.take(i + 1).last() == all[i as int]);
        assert(all[i as int] == rows@[i as int].deep_view());
        let row = &rows[i];
        assert(0 <= col < all[i as int].len());
        let ghost before = kept_prices(all.take(i as int), col as int);
        if regex_is_match("[0-9.,]+", row[col].as_str()) == Some(true) {
            let price_text = remove_commas(&row[col]);
            let price_close = parse_decimal(price_text.as_str()).unwrap();
            let ghost pv = price_close@;
            let date = trim_chars(&chars_of(row[0].as_str()));
            let mark = vec!['＊'];
            let none: Vec<char> = Vec::new();
            assert(mark@ =~= seq!['＊'] && none@ =~= Seq::<char>::empty());
            let price_date = string_from_chars(&replace_chars(&date, &mark, &none));
            match loop_data_price(price_date, price_close, data) {
                Some(p) => {
                    out.push(p);
                    assert(kept_prices(all.take(i + 1), col as int) == before.push(
                        (stored_price_date(replaced(trimmed(all[i as int][0]), seq!['＊'], Seq::<char>::empty())), pv)));
                },
                None => {},
            }
        }
        i += 1;
    }
    assert(all.take(rows.len() as int) =~= all);
    out
}

/// Whether every row's price column exists and, where it looks numeric,
/// parses as a decimal once its commas are removed.
fn res_rows_check(rows: &Vec<Vec<String>>, col: usize) -> (r: bool)
    ensures
        r == res_rows_readable(rows.deep_view(), col as int),
{
    let ghost all = rows.deep_view();
    let mut i: usize = 0;
    while i < rows.len()
        invariant
            i <= rows.len(),
            all == rows.deep_view(),
            forall|j: int| 0 <= j < i ==> {
                &&& 0 <= col < (#[trigger] all[j]).len()
                &&& numeric_cell(all[j], col as int) ==> big_decimal_parts(without_commas(all[j][col as int])) is Some
            },
        decreases rows.len() - i,
    {
        assert(all[i as int] == rows@[i as int].deep_view());
        if col >= rows[i].len() {
            return false;
        }
        if regex_is_match("[0-9.,]+", rows[i][col].as_str()) == Some(true) {
            let price_text = remove_commas(&rows[i][col]);
            if parse_decimal(price_text.as_str()).is_none() {
                return false;
            }
        }
        i += 1;
    }
    true
}

/// What to do with one stored reply: drop the prices already kept for its
/// security and month (when there are some), then insert the new rows.
pub struct PriceReload {
    pub remove_existing: bool,
    pub records: Vec<SecurityPrice>,
}

/// The reload of each stored reply, given the number of price rows already
/// kept for its security and month and the rows read from its content; `None`
/// when some price cell that looks numeric does not parse as a decimal.
pub fn get_security_to_price(res_prices: &Vec<ResposePrice>, existing_counts: &Vec<usize>, rows: &Vec<Vec<Vec<String>>>) -> (r: Option<Vec<PriceReload>>)
    requires
        existing_counts.len() == res_prices.len(),
        rows.len() == res_prices.len(),
    ensures
        match r {
            Some(plan) => {
                &&& plan.len() == res_prices.len()
                &&& forall|i: int| 0 <= i < plan.len() ==> {
                    let data = res_prices@[i];
                    let kept = match price_column(data.market_type@) {
                        Some(c) => kept_prices(rows@[i].deep_view(), c),
                        None => Seq::empty(),
                    };
                    &&& (#[trigger] plan@[i]).remove_existing == (existing_counts@[i] > 0)
                    &&& plan@[i].records.len() == kept.len()
                    &&& forall|k: int| 0 <= k < kept.len() ==> {
                        &&& fresh_price_of(#[trigger] plan@[i].records@[k], data)
                        &&& plan@[i].records@[k].price_date@ == kept[k].0
                        &&& plan@[i].records@[k].price_close@ == kept[k].1
                    }
                }
            },
            None => exists|i: int| 0 <= i < res_prices.len() && (price_column(res_prices@[i].market_type@) matches Some(c)
                && !res_rows_readable(#[trigger] rows@[i].deep_view(), c)),
        },
{
    let mut plan: Vec<PriceReload> = Vec::new();
    let mut i: usize = 0;
    while i < res_prices.len()
        invariant
            i <= res_prices.len(),
            existing_counts.len() == res_prices.len(),
            rows.len() == res_prices.len(),
            plan.len() == i,
            forall|j: int| 0 <= j < i ==> {
                let data = res_prices@[j];
                let kept = match price_column(data.market_type@) {
                    Some(c) => kept_prices(rows@[j].deep_view(), c),
                    None => Seq::empty(),
                };
                &&& (#[trigger] plan@[j]).remove_existing == (existing_counts@[j] > 0)
                &&& plan@[j].records.len() == kept.len()
                &&& forall|k: int| 0 <= k < kept.len() ==> {
                    &&& fresh_price_of(#[trigger] plan@[j].records@[k], data)
                    &&& plan@[j].records@[k].price_date@ == kept[k].0
                    &&& plan@[j].records@[k].price_close@ == kept[k].1
                }
            },
        decreases res_prices.len() - i,
    {
        let data = &res_prices[i];
        match price_column_exec(&data.market_type) {
            Some(c) => {
                if !res_rows_check(&rows[i], c) {
                    return None;
                }
            },
            None => {},
        }
        let records = loop_data_res(data, &rows[i]);
        plan.push(PriceReload { remove_existing: existing_counts[i] > 0, records });
        i += 1;
    }
    Some(plan)
}

/// The key under which price rows are kept and removed: year, month and
/// security. A reply's reload removes the rows of its own key, and the rows
/// its plan inserts carry that key (see [`fresh_price_of`]).
pub open spec fn price_key(p: SecurityPrice) -> (Seq<char>, Seq<char>, Seq<char>) {
    (p.open_date_year@, p.open_date_month@, p.security_code@)
}

/// The rows of `t` whose key is not `k`, in order.
pub open spec fn without_key(t: Seq<SecurityPrice>, k: (Seq<char>, Seq<char>, Seq<char>)) -> Seq<SecurityPrice>
    decreases t.len(),
{
    if t.len() == 0 {
        t
    } else if price_key(t.last()) == k {
        without_key(t.drop_last(), k)
    } else {
        without_key(t.drop_last(), k).push(t.last())
    }
}

/// The rows of `t` whose key is none of `ks`, in order.
pub open spec fn without_keys(t: Seq<SecurityPrice>, ks: Seq<(Seq<char>, Seq<char>, Seq<char>)>) -> Seq<SecurityPrice>
    decreases t.len(),
{
    if t.len() == 0 {
        t
    } else if ks.contains(price_key(t.last())) {
        without_keys(t.drop_last(), ks)
    } else {
        without_keys(t.drop_last(), ks).push(t.last())
    }
}

/// Some row of `t` has the key `k`.
pub open spec fn has_key(t: Seq<SecurityPrice>, k: (Seq<char>, Seq<char>, Seq<char>)) -> bool {
    exists|i: int| 0 <= i < t.len() && price_key(#[trigger] t[i]) == k
}

/// The table after one reply's reload: the rows of its key removed where
/// there are some, then its new rows added.
pub open spec fn reload_step(t: Seq<SecurityPrice>, k: (Seq<char>, Seq<char>, Seq<char>), records: Seq<SecurityPrice>) -> Seq<SecurityPrice> {
    (if has_key(t, k) { without_key(t, k) } else { t }) + records
}

/// The table after the reloads of the replies with keys `ks` and new rows
/// `rs`, in order.
pub open spec fn reload_run(t: Seq<SecurityPrice>, ks: Seq<(Seq<char>, Seq<char>, Seq<char>)>, rs: Seq<Seq<SecurityPrice>>) -> Seq<SecurityPrice>
    decreases ks.len(),
{
    if ks.len() == 0 || rs.len() == 0 {
        t
    } else {
        reload_step(reload_run(t, ks.drop_last(), rs.drop_last()), ks.last(), rs.last())
    }
}

proof fn lemma_without_key_add(a: Seq<SecurityPrice>, b: Seq<SecurityPrice>, k: (Seq<char>, Seq<char>, Seq<char>))
    ensures
        without_key(a + b, k) == without_key(a, k) + without_key(b, k),
    decreases b.len(),
{
    if b.len() == 0 {
        assert(a + b =~= a);
        assert(without_key(a, k) + without_key(b, k) =~= without_key(a, k));
    } else {
        lemma_without_key_add(a, b.drop_last(), k);
        assert((a + b).drop_last() =~= a + b.drop_last());
        assert((a + b).last() == b.last());
        if price_key(b.last()) != k {
            assert(without_key(a, k) + without_key(b.drop_last(), k).push(b.last())
                =~= (without_key(a, k) + without_key(b.drop_last(), k)).push(b.last()));
        }
    }
}

proof fn lemma_without_keys_add(a: Seq<SecurityPrice>, b: Seq<SecurityPrice>, ks: Seq<(Seq<char>, Seq<char>, Seq<char>)>)
    ensures
        without_keys(a + b, ks) == without_keys(a, ks) + without_keys(b, ks),
    decreases b.len(),
{
    if b.len() == 0 {
        assert(a + b =~= a);
        assert(without_keys(a, ks) + without_keys(b, ks) =~= without_keys(a, ks));
    } else {
        lemma_without_keys_add(a, b.drop_last(), ks);
        assert((a + b).drop_last() =~= a + b.drop_last());
        assert((a + b).last() == b.last());
        if !ks.contains(price_key(b.last())) {
            assert(without_keys(a, ks) + without_keys(b.drop_last(), ks).push(b.last())
                =~= (without_keys(a, ks) + without_keys(b.drop_last(), ks)).push(b.last()));
        }
    }
}

/// Removing a key that no row has changes nothing.
proof fn lemma_without_absent_key(t: Seq<SecurityPrice>, k: (Seq<char>, Seq<char>, Seq<char>))
    requires
        !has_key(t, k),
    ensures
        without_key(t, k) == t,
    decreases t.len(),
{
    if t.len() > 0 {
        let q = t.drop_last();
        assert(!has_key(q, k)) by {
            if has_key(q, k) {
                let i = choose|i: int| 0 <= i < q.len() && price_key(#[trigger] q[i]) == k;
                assert(t[i] == q[i]);
            }
        }
        lemma_without_absent_key(q, k);
        assert(price_key(t[t.len() - 1]) != k);
        assert(q.push(t.last()) =~= t);
    }
}

/// Removing the keys `ks` and then `k` removes the keys `ks.push(k)`.
proof fn lemma_without_keys_push(t: Seq<SecurityPrice>, ks: Seq<(Seq<char>, Seq<char>, Seq<char>)>, k: (Seq<char>, Seq<char>, Seq<char>))
    ensures
        without_key(without_keys(t, ks), k) == without_keys(t, ks.push(k)),
    decreases t.len(),
{
    if t.len() > 0 {
        lemma_without_keys_push(t.drop_last(), ks, k);
        let x = price_key(t.last());
        assert(ks.push(k).contains(x) == (ks.contains(x) || x == k)) by {
            if ks.push(k).contains(x) {
                let i = choose|i: int| 0 <= i < ks.push(k).len() && ks.push(k)[i] == x;
                if i < ks.len() {
                    assert(ks[i] == x);
                }
            }
            if ks.contains(x) {
                let i = choose|i: int| 0 <= i < ks.len() && ks[i] == x;
                assert(ks.push(k)[i] == x);
            }
            if x == k {
                assert(ks.push(k)[ks.len() as int] == x);
            }
        }
        let w = without_keys(t.drop_last(), ks);
        if !ks.contains(x) {
            assert(w.push(t.last()).drop_last() =~= w);
        }
    }
}

/// Removing the same keys twice removes no more than once.
proof fn lemma_without_keys_twice(t: Seq<SecurityPrice>, ks: Seq<(Seq<char>, Seq<char>, Seq<char>)>)
    ensures
        without_keys(without_keys(t, ks), ks) == without_keys(t, ks),
    decreases t.len(),
{
    if t.len() > 0 {
        lemma_without_keys_twice(t.drop_last(), ks);
        let w = without_keys(t.drop_last(), ks);
        if !ks.contains(price_key(t.last())) {
            assert(w.push(t.last()).drop_last() =~= w);
        }
    }
}

/// Rows whose keys all lie in `ks` are all removed by `ks`.
proof fn lemma_without_own_keys(t: Seq<SecurityPrice>, ks: Seq<(Seq<char>, Seq<char>, Seq<char>)>)
    requires
        forall|i: int| 0 <= i < t.len() ==> ks.contains(price_key(#[trigger] t[i])),
    ensures
        without_keys(t, ks) == Seq::<SecurityPrice>::empty(),
    decreases t.len(),
{
    if t.len() > 0 {
        let q = t.drop_last();
        assert forall|i: int| 0 <= i < q.len() implies ks.contains(price_key(#[trigger] q[i])) by {
            assert(q[i] == t[i]);
        }
        lemma_without_own_keys(q, ks);
        assert(ks.contains(price_key(t[t.len() - 1])));
    }
}

/// The rows left after removing a key are rows of `t`, so any property of
/// every row's key carries over.
proof fn lemma_without_key_keys(t: Seq<SecurityPrice>, k: (Seq<char>, Seq<char>, Seq<char>), ks: Seq<(Seq<char>, Seq<char>, Seq<char>)>)
    requires
        forall|i: int| 0 <= i < t.len() ==> ks.contains(price_key(#[trigger] t[i])),
    ensures
        forall|i: int| 0 <= i < without_key(t, k).len() ==> ks.contains(price_key(#[trigger] without_key(t, k)[i])),
    decreases t.len(),
{
    if t.len() > 0 {
        let q = t.drop_last();
        assert forall|i: int| 0 <= i < q.len() implies ks.contains(price_key(#[trigger] q[i])) by {
            assert(q[i] == t[i]);
        }
        lemma_without_key_keys(q, k, ks);
        assert(ks.contains(price_key(t[t.len() - 1])));
        let w = without_key(q, k);
        if price_key(t.last()) != k {
            assert forall|i: int| 0 <= i < w.push(t.last()).len() implies ks.contains(price_key(#[trigger] w.push(t.last())[i])) by {
                if i < w.len() {
                    assert(w.push(t.last())[i] == w[i]);
                }
            }
        }
    }
}

/// A run of reloads keeps the rows of `t` whose keys it does not touch and
/// adds what the same run adds to an empty table, all of whose rows carry
/// the run's keys.
proof fn lemma_reload_run_shape(t: Seq<SecurityPrice>, ks: Seq<(Seq<char>, Seq<char>, Seq<char>)>, rs: Seq<Seq<SecurityPrice>>)
    requires
        rs.len() == ks.len(),
        forall|i: int, j: int| 0 <= i < rs.len() && 0 <= j < rs[i].len() ==> price_key(#[trigger] rs[i][j]) == ks[i],
    ensures
        reload_run(t, ks, rs) == without_keys(t, ks) + reload_run(Seq::empty(), ks, rs),
        forall|i: int| 0 <= i < reload_run(Seq::<SecurityPrice>::empty(), ks, rs).len()
            ==> ks.contains(price_key(#[trigger] reload_run(Seq::<SecurityPrice>::empty(), ks, rs)[i])),
    decreases ks.len(),
{
    let e = Seq::<SecurityPrice>::empty();
    if ks.len() == 0 {
        assert(without_keys(t, ks) =~= t) by {
            lemma_without_keys_none(t, ks);
        }
        assert(t + e =~= t);
    } else {
        let ks0 = ks.drop_last();
        let rs0 = rs.drop_last();
        let k = ks.last();
        let r = rs.last();
        assert forall|i: int, j: int| 0 <= i < rs0.len() && 0 <= j < rs0[i].len() implies price_key(#[trigger] rs0[i][j]) == ks0[i] by {
            assert(rs0[i] == rs[i]);
        }
        lemma_reload_run_shape(t, ks0, rs0);
        let w = without_keys(t, ks0);
        let g = reload_run(e, ks0, rs0);
        let run_t = reload_run(t, ks0, rs0);
        lemma_without_key_add(w, g, k);
        lemma_without_keys_push(t, ks0, k);
        assert(ks0.push(k) =~= ks);
        if !has_key(run_t, k) {
            lemma_without_absent_key(run_t, k);
        }
        assert(reload_run(t, ks, rs) == without_key(run_t, k) + r);
        lemma_without_keys_none(e, ks0);
        assert(without_keys(e, ks0) + g =~= g);
        lemma_reload_run_shape(e, ks0, rs0);
        if !has_key(g, k) {
            lemma_without_absent_key(g, k);
        }
        assert(reload_run(e, ks, rs) == without_key(g, k) + r);
        assert(without_keys(t, ks) + (without_key(g, k) + r) =~= (without_key(w, k) + without_key(g, k)) + r);
        lemma_without_key_keys(g, k, ks0);
        assert forall|i: int| 0 <= i < reload_run(e, ks, rs).len() implies ks.contains(price_key(#[trigger] reload_run(e, ks, rs)[i])) by {
            let wg = without_key(g, k);
            if i < wg.len() {
                assert(reload_run(e, ks, rs)[i] == wg[i]);
                let x = price_key(wg[i]);
                let m = choose|m: int| 0 <= m < ks0.len() && ks0[m] == x;
                assert(ks[m] == x);
            } else {
                assert(reload_run(e, ks, rs)[i] == r[i - wg.len()]);
                assert(price_key(rs[ks.len() - 1][i - wg.len()]) == ks[ks.len() - 1]);
            }
        }
    }
}

/// Removing no keys, or keys from an empty table, changes nothing.
proof fn lemma_without_keys_none(t: Seq<SecurityPrice>, ks: Seq<(Seq<char>, Seq<char>, Seq<char>)>)
    requires
        ks.len() == 0 || t.len() == 0,
    ensures
        without_keys(t, ks) == t,
    decreases t.len(),
{
    if t.len() > 0 {
        lemma_without_keys_none(t.drop_last(), ks);
        assert(t.drop_last().push(t.last()) =~= t);
    }
}

/// Law: reloading is repeatable. Where each reply's new rows carry its key
/// (as the plans of `get_security_to_price` do), a second run of the same
/// reloads over the table that the first run left leaves it as it was: the
/// rows of the replies' keys are replaced, not added again.
pub proof fn lemma_reload_twice(t: Seq<SecurityPrice>, ks: Seq<(Seq<char>, Seq<char>, Seq<char>)>, rs: Seq<Seq<SecurityPrice>>)
    requires
        rs.len() == ks.len(),
        forall|i: int, j: int| 0 <= i < rs.len() && 0 <= j < rs[i].len() ==> price_key(#[trigger] rs[i][j]) == ks[i],
    ensures
        reload_run(reload_run(t, ks, rs), ks, rs) == reload_run(t, ks, rs),
{
    let e = Seq::<SecurityPrice>::empty();
    let once = reload_run(t, ks, rs);
    lemma_reload_run_shape(t, ks, rs);
    lemma_reload_run_shape(once, ks, rs);
    let w = without_keys(t, ks);
    let g = reload_run(e, ks, rs);
    lemma_without_keys_add(w, g, ks);
    lemma_without_keys_twice(t, ks);
    lemma_without_own_keys(g, ks);
    assert(w + e =~= w);
}

/// The closing prices of a list of price rows.
pub open spec fn closes(p: Seq<SecurityPrice>) -> Seq<(int, int)> {
    p.map_values(|x: SecurityPrice| x.price_close@)
}

/// Every closing price of the list is well written.
pub open spec fn closes_wf(p: Seq<SecurityPrice>) -> bool {
    forall|i: int| 0 <= i < p.len() ==> wf(#[trigger] p[i].price_close)
}

/// A price history the statistics can be taken of: some price above the
/// mean and some below it (the highest and lowest are taken of those, and an
/// empty list has none).
pub open spec fn history_ok(p: Seq<SecurityPrice>) -> bool {
    &&& closes_wf(p)
    &&& closes_above(closes(p), mean_up4(closes(p))).len() > 0
    &&& closes_below(closes(p), mean_up4(closes(p))).len() > 0
}

fn closes_exec(p: &Vec<SecurityPrice>) -> (r: Vec<Decimal>)
    requires
        closes_wf(p@),
    ensures
        views(r@) == closes(p@),
        all_wf(r@),
{
    let mut out: Vec<Decimal> = Vec::new();
    let mut i: usize = 0;
    while i < p.len()
        invariant
            i <= p.len(),
            closes_wf(p@),
            views(out@) == closes(p@).take(i as int),
            all_wf(out@),
        decreases p.len() - i,
    {
        let c = copy_decimal(&p[i].price_close);
        let ghost before = out@;
        out.push(c);
        assert(views(out@) =~= views(before).push(c@));
        assert(wf(p@[i as int].price_close));
        i += 1;
        assert(views(out@) =~= closes(p@).take(i as int));
    }
    assert(closes(p@).take(p.len() as int) =~= closes(p@));
    out
}

/// The highest closing price above `price_avg` (the last one of equal
/// highest prices) and the mean of those above it.
pub fn get_calculator_max_avg(price_avg: &Decimal, resp_prices: &Vec<SecurityPrice>) -> (r: (Decimal, Decimal))
    requires
        wf(*price_avg),
        closes_wf(resp_prices@),
        closes_above(closes(resp_prices@), price_avg@).len() > 0,
    ensures
        wf(r.0) && wf(r.1),
        ({
            let above = closes_above(closes(resp_prices@), price_avg@);
            r.0@ == above[last_max_index(above)] && r.1@ == mean_up4(above)
        }),
{
    let c = closes_exec(resp_prices);
    max_and_mean_above(price_avg, &c)
}

/// The lowest closing price below `price_avg` (the first one of equal
/// lowest prices) and the mean of those below it.
pub fn get_calculator_min_avg(price_avg: &Decimal, resp_prices: &Vec<SecurityPrice>) -> (r: (Decimal, Decimal))
    requires
        wf(*price_avg),
        closes_wf(resp_prices@),
        closes_below(closes(resp_prices@), price_avg@).len() > 0,
    ensures
        wf(r.0) && wf(r.1),
        ({
            let below = closes_below(closes(resp_prices@), price_avg@);
            r.0@ == below[first_min_index(below)] && r.1@ == mean_up4(below)
        }),
{
    let c = closes_exec(resp_prices);
    min_and_mean_below(price_avg, &c)
}

/// The two rows agree on everything but the statistics.
pub open spec fn same_price_row(a: SecurityPrice, b: SecurityPrice) -> bool {
    &&& a.row_id@ == b.row_id@
    &&& a.open_date_year@ == b.open_date_year@
    &&& a.open_date_month@ == b.open_date_month@
    &&& a.open_date_day@ == b.open_date_day@
    &&& a.security_code@ == b.security_code@
    &&& a.security_name@ == b.security_name@
    &&& a.price_date@ == b.price_date@
    &&& same_decimal(a.price_close, b.price_close)
}

/// A copy of the row with the given statistics.
pub fn get_security_price(
    price: &SecurityPrice,
    price_avg: Decimal,
    price_max: Decimal,
    price_avg_max: Decimal,
    price_min: Decimal,
    price_avg_min: Decimal,
) -> (r: SecurityPrice)
    ensures
        same_price_row(r, *price),
        r.price_avg == price_avg,
        r.price_hight == price_max,
        r.price_hight_avg == price_avg_max,
        r.price_lowest == price_min,
        r.price_lowest_avg == price_avg_min,
{
    SecurityPrice {
        row_id: copy_string(&price.row_id),
        open_date_year: copy_string(&price.open_date_year),
        open_date_month: copy_string(&price.open_date_month),
        open_date_day: copy_string(&price.open_date_day),
        security_code: copy_string(&price.security_code),
        security_name: copy_string(&price.security_name),
        price_date: copy_string(&price.price_date),
        price_close: copy_decimal(&price.price_close),
        price_avg,
        price_hight: price_max,
        price_hight_avg: price_avg_max,
        price_lowest: price_min,
        price_lowest_avg: price_avg_min,
    }
}

/// The statistics of a row computed from its price history.
pub open spec fn calculated(r: SecurityPrice, data: SecurityPrice, history: Seq<SecurityPrice>) -> bool {
    let c = closes(history);
    let avg = mean_up4(c);
    let above = closes_above(c, avg);
    let below = closes_below(c, avg);
    &&& same_price_row(r, data)
    &&& r.price_avg@ == avg
    &&& r.price_hight@ == above[last_max_index(above)]
    &&& r.price_hight_avg@ == mean_up4(above)
    &&& r.price_lowest@ == below[first_min_index(below)]
    &&& r.price_lowest_avg@ == mean_up4(below)
}

/// Whether the statistics can be taken of the history (see [`history_ok`]).
pub fn history_ready(resp_prices: &Vec<SecurityPrice>) -> (r: bool)
    ensures
        r == history_ok(resp_prices@),
{
    let mut i: usize = 0;
    while i < resp_prices.len()
        invariant
            i <= resp_prices.len(),
            forall|j: int| 0 <= j < i ==> wf(#[trigger] resp_prices@[j].price_close),
        decreases resp_prices.len() - i,
    {
        if !decimal_wf(&resp_prices[i].price_close) {
            return false;
        }
        i += 1;
    }
    let c = closes_exec(resp_prices);
    let avg = get_calculator_avg(&c);
    let above = crate::decimal::filter_closes(&c, &avg, true);
    let below = crate::decimal::filter_closes(&c, &avg, false);
    above.len() > 0 && below.len() > 0
}

/// The row with its statistics taken from its price history: the mean, the
/// highest price above the mean and their mean, the lowest price below the
/// mean and their mean (means rounded away from zero to four places).
pub fn loop_data_calculator(data: &SecurityPrice, resp_prices: &Vec<SecurityPrice>) -> (r: SecurityPrice)
    requires
        history_ok(resp_prices@),
    ensures
        calculated(r, *data, resp_prices@),
        wf(r.price_avg) && wf(r.price_hight) && wf(r.price_hight_avg),
        wf(r.price_lowest) && wf(r.price_lowest_avg),
{
    let c = closes_exec(resp_prices);
    let price_avg = get_calculator_avg(&c);
    let (price_max, price_avg_max) = get_calculator_max_avg(&price_avg, resp_prices);
    let (price_min, price_avg_min) = get_calculator_min_avg(&price_avg, resp_prices);
    get_security_price(data, price_avg, price_max, price_avg_max, price_min, price_avg_min)
}

/// Law: the statistics of a row are ordered as their names say: the lowest
/// price is below the mean and the highest above it; the highest is at least
/// every price above the mean and the lowest at most every price below it.
pub proof fn lemma_statistics_order(r: SecurityPrice, data: SecurityPrice, history: Seq<SecurityPrice>)
    requires
        history_ok(history),
        calculated(r, data, history),
    ensures
        value_lt(r.price_lowest@, r.price_avg@),
        value_lt(r.price_avg@, r.price_hight@),
        forall|k: int| 0 <= k < history.len() && value_lt(r.price_avg@, #[trigger] history[k].price_close@)
            ==> !value_lt(r.price_hight@, history[k].price_close@),
        forall|k: int| 0 <= k < history.len() && value_lt(#[trigger] history[k].price_close@, r.price_avg@)
            ==> !value_lt(history[k].price_close@, r.price_lowest@),
{
    let c = closes(history);
    let avg = mean_up4(c);
    let above = closes_above(c, avg);
    let below = closes_below(c, avg);
    crate::decimal::lemma_filtered_sides(c, avg);
    crate::decimal::lemma_extremes(above);
    crate::decimal::lemma_extremes(below);
    crate::decimal::lemma_index_in_range(above);
    crate::decimal::lemma_index_in_range(below);
    assert(value_lt(avg, above[last_max_index(above)]));
    assert(value_lt(below[first_min_index(below)], avg));
    assert forall|k: int| 0 <= k < history.len() && value_lt(r.price_avg@, #[trigger] history[k].price_close@)
        implies !value_lt(r.price_hight@, history[k].price_close@) by {
        assert(c[k] == history[k].price_close@);
        lemma_member_above(c, avg, k);
    }
    assert forall|k: int| 0 <= k < history.len() && value_lt(#[trigger] history[k].price_close@, r.price_avg@)
        implies !value_lt(history[k].price_close@, r.price_lowest@) by {
        assert(c[k] == history[k].price_close@);
        lemma_member_below(c, avg, k);
    }
}

/// Law: each side's mean lies between its extreme and the overall mean:
/// `lowest ≤ lowest_avg < avg < hight_avg ≤ hight`, for a history of at most
/// `10^9` plain prices (positive, at most four decimal places, at most `10^18`).
pub proof fn lemma_side_means_between(r: SecurityPrice, data: SecurityPrice, history: Seq<SecurityPrice>)
    requires
        history_ok(history),
        calculated(r, data, history),
        history.len() <= 1_000_000_000,
        forall|k: int| 0 <= k < history.len() ==> plain_price(#[trigger] history[k].price_close@),
    ensures
        !value_lt(r.price_lowest_avg@, r.price_lowest@),
        value_lt(r.price_lowest_avg@, r.price_avg@),
        value_lt(r.price_avg@, r.price_hight_avg@),
        !value_lt(r.price_hight@, r.price_hight_avg@),
{
    let c = closes(history);
    let avg = mean_up4(c);
    let above = closes_above(c, avg);
    let below = closes_below(c, avg);
    assert forall|i: int| 0 <= i < c.len() implies plain_price(#[trigger] c[i]) by {
        assert(c[i] == history[i].price_close@);
    }
    crate::decimal::lemma_filtered_plain(c, avg);
    crate::decimal::lemma_filtered_sides(c, avg);
    crate::decimal::lemma_extremes(above);
    crate::decimal::lemma_extremes(below);
    crate::decimal::lemma_index_in_range(above);
    crate::decimal::lemma_index_in_range(below);
    crate::decimal::lemma_mean_up4_bounds(c);
    crate::decimal::lemma_mean_up4_bounds(above);
    crate::decimal::lemma_mean_up4_bounds(below);
    let hight = above[last_max_index(above)];
    let lowest = below[first_min_index(below)];
    assert(plain_price(hight) && plain_price(lowest));
    assert(avg.1 == 4 && mean_up4(above).1 == 4 && mean_up4(below).1 == 4);
    assert(pow10(0) == 1);
    assert(units(avg) == avg.0 * pow10(0));
    assert(units(avg) == avg.0);
    assert forall|i: int| 0 <= i < above.len() implies avg.0 + 1 <= units(#[trigger] above[i]) <= units(hight) by {
        crate::decimal::lemma_units_lt(avg, above[i]);
        crate::decimal::lemma_units_lt(hight, above[i]);
    }
    assert forall|i: int| 0 <= i < below.len() implies units(lowest) <= units(#[trigger] below[i]) <= avg.0 - 1 by {
        crate::decimal::lemma_units_lt(below[i], avg);
        crate::decimal::lemma_units_lt(below[i], lowest);
    }
    crate::decimal::lemma_units_sum_bounds(above, avg.0 + 1, units(hight));
    crate::decimal::lemma_units_sum_bounds(below, units(lowest), avg.0 - 1);
    let ha = mean_up4(above).0;
    let la = mean_up4(below).0;
    let na = above.len() as int;
    let nb = below.len() as int;
    let ua = crate::decimal::units_sum(above);
    let ub = crate::decimal::units_sum(below);
    assert(ha >= avg.0 + 1) by (nonlinear_arith)
        requires ha * na >= ua, na * (avg.0 + 1) <= ua, na >= 1;
    assert(ha <= units(hight)) by (nonlinear_arith)
        requires (ha - 1) * na < ua, ua <= na * units(hight), na >= 1;
    assert(la >= units(lowest)) by (nonlinear_arith)
        requires la * nb >= ub, nb * units(lowest) <= ub, nb >= 1;
    assert(la <= avg.0 - 1) by (nonlinear_arith)
        requires (la - 1) * nb < ub, ub <= nb * (avg.0 - 1), nb >= 1;
    assert(units(mean_up4(above)) == ha * pow10(0));
    assert(units(mean_up4(below)) == la * pow10(0));
    crate::decimal::lemma_units_lt(mean_up4(below), lowest);
    crate::decimal::lemma_units_lt(mean_up4(below), avg);
    crate::decimal::lemma_units_lt(avg, mean_up4(above));
    crate::decimal::lemma_units_lt(hight, mean_up4(above));
}

/// A member worth more than `avg` appears among `closes_above(p, avg)`.
proof fn lemma_member_above(p: Seq<(int, int)>, avg: (int, int), k: int) -> (j: int)
    requires
        0 <= k < p.len(),
        value_lt(avg, p[k]),
    ensures
        0 <= j < closes_above(p, avg).len(),
        closes_above(p, avg)[j] == p[k],
    decreases p.len(),
{
    let q = p.drop_last();
    if k == p.len() - 1 {
        closes_above(q, avg).len() as int
    } else {
        assert(q[k] == p[k]);
        let j = lemma_member_above(q, avg, k);
        j
    }
}

/// A member worth less than `avg` appears among `closes_below(p, avg)`.
proof fn lemma_member_below(p: Seq<(int, int)>, avg: (int, int), k: int) -> (j: int)
    requires
        0 <= k < p.len(),
        value_lt(p[k], avg),
    ensures
        0 <= j < closes_below(p, avg).len(),
        closes_below(p, avg)[j] == p[k],
    decreases p.len(),
{
    let q = p.drop_last();
    if k == p.len() - 1 {
        closes_below(q, avg).len() as int
    } else {
        assert(q[k] == p[k]);
        let j = lemma_member_below(q, avg, k);
        j
    }
}

/// Every row of the month with its statistics, the `i`-th taken from `histories[i]`.
pub fn get_calculator_to_price(month_prices: &Vec<SecurityPrice>, histories: &Vec<Vec<SecurityPrice>>) -> (r: Vec<SecurityPrice>)
    requires
        histories.len() == month_prices.len(),
        forall|i: int| 0 <= i < histories.len() ==> history_ok(#[trigger] histories@[i]@),
    ensures
        r.len() == month_prices.len(),
        forall|i: int| 0 <= i < r.len() ==> calculated(#[trigger] r@[i], month_prices@[i], histories@[i]@),
{
    let mut out: Vec<SecurityPrice> = Vec::new();
    let mut i: usize = 0;
    while i < month_prices.len()
        invariant
            i <= month_prices.len(),
            histories.len() == month_prices.len(),
            forall|j: int| 0 <= j < histories.len() ==> history_ok(#[trigger] histories@[j]@),
            out.len() == i,
            forall|j: int| 0 <= j < i ==> calculated(#[trigger] out@[j], month_prices@[j], histories@[j]@),
        decreases month_prices.len() - i,
    {
        let updated = loop_data_calculator(&month_prices[i], &histories[i]);
        out.push(updated);
        i += 1;
    }
    out
}

} // verus!
