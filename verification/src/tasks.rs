//! The per-security fetch tasks of a trading day: their order, their
//! creation from the listing, and the pacing of the requests.

use vstd::prelude::*;
use rand::Rng;
use crate::calendar::{local_now, valid_date, valid_ymd, LocalNow};
use crate::fmt::{zero_padded, zero_padded_string};
use crate::records::{DailyTask, ResponseData, SecurityTask, SecurityTemp};
use crate::text::{all_digits, chars_eq, chars_of, copy_string, parse_i32, parse_u32, parsed_i32, parsed_u32};

verus! {

/// The order in which two lists are merged: for each `i` from 0, the `i`-th
/// item of the first list (`true`) and then the `i`-th of the second
/// (`false`), skipping a list once it is used up. Covers `0 ≤ i < k`.
pub open spec fn interleave_order(na: nat, nb: nat, k: nat) -> Seq<(bool, nat)>
    decreases k,
{
    if k == 0 {
        Seq::empty()
    } else {
        let prev = interleave_order(na, nb, (k - 1) as nat);
        let i = (k - 1) as nat;
        let with_a = if i < na { prev.push((true, i)) } else { prev };
        if i < nb { with_a.push((false, i)) } else { with_a }
    }
}

/// The full merge order of lists of lengths `na` and `nb`.
pub open spec fn merge_order(na: nat, nb: nat) -> Seq<(bool, nat)> {
    interleave_order(na, nb, if na >= nb { na } else { nb })
}

proof fn lemma_interleave_len(na: nat, nb: nat, k: nat)
    ensures
        interleave_order(na, nb, k).len() == (if k <= na { k } else { na }) + (if k <= nb { k } else { nb }),
        forall|p: int| 0 <= p < interleave_order(na, nb, k).len() ==> {
            let e = #[trigger] interleave_order(na, nb, k)[p];
            (e.0 ==> e.1 < na) && (!e.0 ==> e.1 < nb) && e.1 < k
        },
    decreases k,
{
    if k > 0 {
        lemma_interleave_len(na, nb, (k - 1) as nat);
    }
}

/// Where the merge places item `i` of the first list.
pub open spec fn first_list_position(i: nat, nb: nat) -> int {
    if i < nb { (2 * i) as int } else { (i + nb) as int }
}

/// Where the merge places item `j` of the second list.
pub open spec fn second_list_position(j: nat, na: nat) -> int {
    if j < na { (2 * j + 1) as int } else { (j + na) as int }
}

/// Law: the merge places every item of both lists exactly once, keeps each
/// list's order, and alternates while both lists last: item `i` of the first
/// list comes at `2i` (or `i + nb` once the second is used up), item `j` of
/// the second at `2j + 1` (or `j + na`).
pub proof fn lemma_merge_positions(na: nat, nb: nat)
    ensures
        merge_order(na, nb).len() == na + nb,
        forall|i: nat| i < na ==> merge_order(na, nb)[#[trigger] first_list_position(i, nb)] == (true, i),
        forall|j: nat| j < nb ==> merge_order(na, nb)[#[trigger] second_list_position(j, na)] == (false, j),
{
    let m: nat = if na >= nb { na } else { nb };
    lemma_interleave_len(na, nb, m);
    assert forall|i: nat| i < na implies merge_order(na, nb)[#[trigger] first_list_position(i, nb)] == (true, i) by {
        lemma_interleave_prefix(na, nb, i + 1, m);
        lemma_interleave_len(na, nb, i);
        lemma_interleave_len(na, nb, i + 1);
        let prev = interleave_order(na, nb, i);
        let with_a = prev.push((true, i));
        assert(interleave_order(na, nb, (i + 1) as nat) == if i < nb { with_a.push((false, i)) } else { with_a });
        assert(prev.len() == first_list_position(i, nb));
        assert(interleave_order(na, nb, (i + 1) as nat)[prev.len() as int] == (true, i));
    }
    assert forall|j: nat| j < nb implies merge_order(na, nb)[#[trigger] second_list_position(j, na)] == (false, j) by {
        lemma_interleave_prefix(na, nb, j + 1, m);
        lemma_interleave_len(na, nb, j);
        lemma_interleave_len(na, nb, j + 1);
        let prev = interleave_order(na, nb, j);
        let with_a = if j < na { prev.push((true, j)) } else { prev };
        assert(interleave_order(na, nb, (j + 1) as nat) == with_a.push((false, j)));
        assert(with_a.len() == second_list_position(j, na));
        assert(interleave_order(na, nb, (j + 1) as nat)[with_a.len() as int] == (false, j));
    }
}

/// Shorter merges are prefixes of longer ones.
proof fn lemma_interleave_prefix(na: nat, nb: nat, k: nat, m: nat)
    requires
        k <= m,
    ensures
        interleave_order(na, nb, k).len() <= interleave_order(na, nb, m).len(),
        forall|p: int| 0 <= p < interleave_order(na, nb, k).len() ==>
            interleave_order(na, nb, m)[p] == #[trigger] interleave_order(na, nb, k)[p],
    decreases m - k,
{
    if k < m {
        lemma_interleave_prefix(na, nb, k, (m - 1) as nat);
    }
}

/// A copy of a task.
pub open spec fn same_task(a: SecurityTask, b: SecurityTask) -> bool {
    &&& a.row_id@ == b.row_id@
    &&& a.open_date_year@ == b.open_date_year@
    &&& a.open_date_month@ == b.open_date_month@
    &&& a.open_date_day@ == b.open_date_day@
    &&& a.security_code@ == b.security_code@
    &&& a.security_name@ == b.security_name@
    &&& a.market_type@ == b.market_type@
    &&& a.issue_date@ == b.issue_date@
    &&& a.exec_seed@ == b.exec_seed@
}

/// A copy of the task with other counters.
pub fn copy_task(t: &SecurityTask, exec_count: i32, is_enabled: i32, sort_no: i32) -> (r: SecurityTask)
    ensures
        same_task(r, *t),
        r.exec_count == exec_count,
        r.is_enabled == is_enabled,
        r.sort_no == sort_no,
{
    SecurityTask {
        row_id: copy_string(&t.row_id),
        open_date_year: copy_string(&t.open_date_year),
        open_date_month: copy_string(&t.open_date_month),
        open_date_day: copy_string(&t.open_date_day),
        security_code: copy_string(&t.security_code),
        security_name: copy_string(&t.security_name),
        market_type: copy_string(&t.market_type),
        issue_date: copy_string(&t.issue_date),
        exec_seed: copy_string(&t.exec_seed),
        exec_count,
        is_enabled,
        sort_no,
    }
}

/// The task renumbered to `item_index`, when its number differs.
pub fn loop_data_task_data(security: &SecurityTask, item_index: i32) -> (r: Option<SecurityTask>)
    ensures
        r is Some <==> security.sort_no != item_index,
        r matches Some(t) ==> same_task(t, *security) && t.exec_count == security.exec_count
            && t.is_enabled == security.is_enabled && t.sort_no == item_index,
{
    if security.sort_no != item_index {
        Some(copy_task(security, security.exec_count, security.is_enabled, item_index))
    } else {
        None
    }
}

/// The item the merge places at position `p`.
pub open spec fn merged_at<T>(a: Seq<T>, b: Seq<T>, p: int) -> T {
    let e = merge_order(a.len(), b.len())[p];
    if e.0 { a[e.1 as int] } else { b[e.1 as int] }
}

/// The day's tasks of both markets renumbered in merge order (TWSE first):
/// for each position `p`, the task there renumbered to `p + 1` when its
/// number differs.
pub fn update_task_data(twse_list: &Vec<SecurityTask>, tpex_list: &Vec<SecurityTask>) -> (r: Vec<Option<SecurityTask>>)
    requires
        twse_list.len() + tpex_list.len() < i32::MAX,
    ensures
        r.len() == twse_list.len() + tpex_list.len(),
        forall|p: int| 0 <= p < r.len() ==> {
            let x = merged_at(twse_list@, tpex_list@, p);
            &&& ((#[trigger] r@[p]) is Some <==> x.sort_no != p + 1)
            &&& r@[p] matches Some(t) ==> same_task(t, x) && t.exec_count == x.exec_count
                && t.is_enabled == x.is_enabled && t.sort_no == p + 1
        },
{
    let na = twse_list.len();
    let nb = tpex_list.len();
    let max_count = if na >= nb { na } else { nb };
    let ghost a = twse_list@;
    let ghost b = tpex_list@;
    let mut out: Vec<Option<SecurityTask>> = Vec::new();
    let mut sort_num: i32 = 0;
    let mut i: usize = 0;
    proof {
        lemma_interleave_len(na as nat, nb as nat, max_count as nat);
    }
    while i < max_count
        invariant
            i <= max_count,
            max_count == (if na >= nb { na } else { nb }),
            na == a.len() && nb == b.len(),
            na + nb < i32::MAX,
            a == twse_list@ && b == tpex_list@,
            out.len() == interleave_order(na as nat, nb as nat, i as nat).len(),
            sort_num == out.len(),
            forall|p: int| 0 <= p < out.len() ==> {
                let e = interleave_order(na as nat, nb as nat, i as nat)[p];
                let x = if e.0 { a[e.1 as int] } else { b[e.1 as int] };
                &&& ((#[trigger] out@[p]) is Some <==> x.sort_no != p + 1)
                &&& out@[p] matches Some(t) ==> same_task(t, x) && t.exec_count == x.exec_count
                    && t.is_enabled == x.is_enabled && t.sort_no == p + 1
            },
        decreases max_count - i,
    {
        proof {
            lemma_interleave_len(na as nat, nb as nat, i as nat);
            lemma_interleave_len(na as nat, nb as nat, (i + 1) as nat);
        }
        let ghost prev = interleave_order(na as nat, nb as nat, i as nat);
        if i < na {
            sort_num = sort_num + 1;
            out.push(loop_data_task_data(&twse_list[i], sort_num));
        }
        if i < nb {
            sort_num = sort_num + 1;
            out.push(loop_data_task_data(&tpex_list[i], sort_num));
        }
        i += 1;
    }
    out
}

/// A task as a renumbering leaves it: its renumbered copy, or the task itself
/// where it kept its number.
pub open spec fn written_back(o: Option<SecurityTask>, t: SecurityTask) -> SecurityTask {
    match o {
        Some(u) => u,
        None => t,
    }
}

/// Every position of a merge holds an item of one of the two lists.
proof fn lemma_position_source(na: nat, nb: nat, p: int)
    requires
        0 <= p < na + nb,
    ensures
        (exists|i: nat| i < na && first_list_position(i, nb) == p)
            || (exists|j: nat| j < nb && second_list_position(j, na) == p),
{
    let m: int = if na <= nb { na as int } else { nb as int };
    if p < 2 * m {
        if p % 2 == 0 {
            let i: nat = (p / 2) as nat;
            assert(first_list_position(i, nb) == p);
        } else {
            let j: nat = ((p - 1) / 2) as nat;
            assert(second_list_position(j, na) == p);
        }
    } else if na > nb {
        let i: nat = (p - nb) as nat;
        assert(first_list_position(i, nb) == p);
    } else {
        let j: nat = (p - na) as nat;
        assert(second_list_position(j, na) == p);
    }
}

/// Law: one renumbering settles the order. Where `r` is what
/// `update_task_data` gave for the lists `a` and `b`, and each task is written
/// back as `r` left it (`a2`, `b2`), every task of the written lists already
/// holds the number of its place in the merge, so a second `update_task_data`
/// over them renumbers nothing.
pub proof fn lemma_renumbering_settles(
    a: Seq<SecurityTask>,
    b: Seq<SecurityTask>,
    r: Seq<Option<SecurityTask>>,
    a2: Seq<SecurityTask>,
    b2: Seq<SecurityTask>,
)
    requires
        r.len() == a.len() + b.len(),
        forall|p: int| 0 <= p < r.len() ==> {
            let x = merged_at(a, b, p);
            &&& ((#[trigger] r[p]) is Some <==> x.sort_no != p + 1)
            &&& r[p] matches Some(t) ==> t.sort_no == p + 1
        },
        a2.len() == a.len(),
        b2.len() == b.len(),
        forall|i: int| 0 <= i < a.len() ==> #[trigger] a2[i] == written_back(r[first_list_position(i as nat, b.len())], a[i]),
        forall|j: int| 0 <= j < b.len() ==> #[trigger] b2[j] == written_back(r[second_list_position(j as nat, a.len())], b[j]),
    ensures
        forall|p: int| 0 <= p < a2.len() + b2.len() ==> (#[trigger] merged_at(a2, b2, p)).sort_no == p + 1,
{
    let na = a.len();
    let nb = b.len();
    lemma_merge_positions(na, nb);
    assert forall|p: int| 0 <= p < a2.len() + b2.len() implies (#[trigger] merged_at(a2, b2, p)).sort_no == p + 1 by {
        lemma_position_source(na, nb, p);
        if exists|i: nat| i < na && first_list_position(i, nb) == p {
            let i = choose|i: nat| i < na && first_list_position(i, nb) == p;
            assert(merge_order(na, nb)[first_list_position(i, nb)] == (true, i));
            assert(a2[i as int] == written_back(r[p], a[i as int]));
        } else {
            let j = choose|j: nat| j < nb && second_list_position(j, na) == p;
            assert(merge_order(na, nb)[second_list_position(j, na)] == (false, j));
            assert(b2[j as int] == written_back(r[p], b[j as int]));
        }
    }
}

/// The largest task seed.
pub open spec fn max_seed() -> int {
    9_999_999_999_999
}

/// `rand::thread_rng().gen_range(1..=9999999999999)`.
/// Claimed: a number from 1 to 9999999999999; nothing about which.
#[verifier::external_body]
fn random_seed() -> (r: i64)
    ensures
        1 <= r <= max_seed(),
{
    rand::thread_rng().gen_range(1..=9999999999999i64)
}

/// The task of a listed security for the day: counters reset, enabled, the
/// given number, and its seed written with thirteen digits.
pub open spec fn new_task_of(r: SecurityTask, data: SecurityTemp, task: DailyTask, item_index: i32, seed: int) -> bool {
    &&& r.row_id@ == Seq::<char>::empty()
    &&& r.security_code@ == data.security_code@
    &&& r.security_name@ == data.security_name@
    &&& r.market_type@ == data.market_type@
    &&& r.issue_date@ == data.issue_date@
    &&& r.open_date_year@ == task.open_date_year@
    &&& r.open_date_month@ == task.open_date_month@
    &&& r.open_date_day@ == task.open_date_day@
    &&& r.exec_seed@ == zero_padded(seed, 13)
    &&& r.exec_count == 0
    &&& r.is_enabled == 1
    &&& r.sort_no == item_index
}

/// Law: a task's seed is written with exactly thirteen digits.
pub proof fn lemma_seed_thirteen_digits(seed: int)
    requires
        1 <= seed <= max_seed(),
    ensures
        zero_padded(seed, 13).len() == 13,
        all_digits(zero_padded(seed, 13)),
{
    reveal_with_fuel(crate::decimal::pow10, 14);
    crate::fmt::lemma_decimal_len(seed as nat, 13);
    crate::fmt::lemma_padded_digits(seed as nat, 13);
}

/// The task of a listed security for the day, with some seed from 1 to 9999999999999.
pub open spec fn created_from(r: SecurityTask, data: SecurityTemp, task: DailyTask, item_index: i32) -> bool {
    exists|seed: int| 1 <= seed <= max_seed() && #[trigger] new_task_of(r, data, task, item_index, seed)
}

/// Law: a new task is the listed security's, for the day, numbered as asked,
/// not yet tried, enabled, with a seed of thirteen digits; so the day's new
/// tasks (see [`insert_task_data`]) carry the numbers 1, 2, … of their places
/// in the merge of the two lists.
pub proof fn lemma_new_task_shape(r: SecurityTask, data: SecurityTemp, task: DailyTask, item_index: i32)
    requires
        created_from(r, data, task, item_index),
    ensures
        r.sort_no == item_index,
        r.exec_count == 0,
        r.is_enabled == 1,
        r.row_id@.len() == 0,
        r.security_code@ == data.security_code@,
        r.market_type@ == data.market_type@,
        r.open_date_year@ == task.open_date_year@ && r.open_date_month@ == task.open_date_month@
            && r.open_date_day@ == task.open_date_day@,
        r.exec_seed@.len() == 13,
        all_digits(r.exec_seed@),
{
    let seed = choose|seed: int| 1 <= seed <= max_seed() && #[trigger] new_task_of(r, data, task, item_index, seed);
    lemma_seed_thirteen_digits(seed);
}

/// The task of a listed security for the day, with the given seed.
pub fn new_security_task(data: &SecurityTemp, task: &DailyTask, item_index: i32, seed: i64) -> (r: SecurityTask)
    ensures
        new_task_of(r, *data, *task, item_index, seed as int),
{
    SecurityTask {
        security_code: copy_string(&data.security_code),
        security_name: copy_string(&data.security_name),
        market_type: copy_string(&data.market_type),
        issue_date: copy_string(&data.issue_date),
        exec_count: 0,
        is_enabled: 1,
        sort_no: item_index,
        open_date_year: copy_string(&task.open_date_year),
        open_date_month: copy_string(&task.open_date_month),
        open_date_day: copy_string(&task.open_date_day),
        exec_seed: zero_padded_string(seed, 13),
        row_id: String::new(),
    }
}

/// The task of a listed security for the day, with a random seed.
pub fn get_new_security_task(data: &SecurityTemp, task: &DailyTask, item_index: i32) -> (r: SecurityTask)
    ensures
        created_from(r, *data, *task, item_index),
{
    let seed = random_seed();
    new_security_task(data, task, item_index, seed)
}

/// The day's tasks made from the listing, TWSE and TPEx securities merged
/// (see [`merge_order`]) and numbered from 1 in that order.
pub fn insert_task_data(twse_list: &Vec<SecurityTemp>, tpex_list: &Vec<SecurityTemp>, task: &DailyTask) -> (r: Vec<SecurityTask>)
    requires
        twse_list.len() + tpex_list.len() < i32::MAX,
    ensures
        r.len() == twse_list.len() + tpex_list.len(),
        forall|p: int| 0 <= p < r.len() ==> created_from(#[trigger] r@[p], merged_at(twse_list@, tpex_list@, p), *task, (p + 1) as i32),
{
    let na = twse_list.len();
    let nb = tpex_list.len();
    let max_count = if na >= nb { na } else { nb };
    let ghost a = twse_list@;
    let ghost b = tpex_list@;
    let mut out: Vec<SecurityTask> = Vec::new();
    let mut sort_num: i32 = 0;
    let mut i: usize = 0;
    proof {
        lemma_interleave_len(na as nat, nb as nat, max_count as nat);
    }
    while i < max_count
        invariant
            i <= max_count,
            max_count == (if na >= nb { na } else { nb }),
            na == a.len() && nb == b.len(),
            na + nb < i32::MAX,
            a == twse_list@ && b == tpex_list@,
            out.len() == interleave_order(na as nat, nb as nat, i as nat).len(),
            sort_num == out.len(),
            forall|p: int| 0 <= p < out.len() ==> {
                let e = interleave_order(na as nat, nb as nat, i as nat)[p];
                let x = if e.0 { a[e.1 as int] } else { b[e.1 as int] };
                created_from(#[trigger] out@[p], x, *task, (p + 1) as i32)
            },
        decreases max_count - i,
    {
        proof {
            lemma_interleave_len(na as nat, nb as nat, i as nat);
            lemma_interleave_len(na as nat, nb as nat, (i + 1) as nat);
        }
        if i < na {
            sort_num = sort_num + 1;
            out.push(get_new_security_task(&twse_list[i], task, sort_num));
        }
        if i < nb {
            sort_num = sort_num + 1;
            out.push(get_new_security_task(&tpex_list[i], task, sort_num));
        }
        i += 1;
    }
    out
}


/// Seconds to wait after a request, before the next: 4 when the market
/// switches between TWSE (`上市`) and TPEx (`上櫃`, `興櫃`), 8 otherwise,
/// less the seconds the request took, and never below zero.
pub open spec fn pause_base(old: Seq<char>, new: Seq<char>) -> int {
    if (old == "上市"@ && new == "上櫃"@) || (old == "上市"@ && new == "興櫃"@)
        || (old == "上櫃"@ && new == "上市"@) || (old == "興櫃"@ && new == "上市"@) {
        4
    } else {
        8
    }
}

/// The pause after a request that took `seconds` (see [`pause_base`]).
pub open spec fn pause_seconds(seconds: int, old: Seq<char>, new: Seq<char>) -> int {
    let b = pause_base(old, new);
    if b - seconds > 0 { b - seconds } else { 0 }
}

/// The pause, in seconds, before the next request.
pub fn sleep_time(seconds: i64, old_market_type: &String, new_market_type: &String) -> (r: u64)
    requires
        seconds > i64::MIN + 8,
    ensures
        r == pause_seconds(seconds as int, old_market_type@, new_market_type@),
{
    let old = chars_of(old_market_type.as_str());
    let new = chars_of(new_market_type.as_str());
    let listed = chars_of("上市");
    let otc = chars_of("上櫃");
    let emerging = chars_of("興櫃");
    let switch = (chars_eq(&old, &listed) && chars_eq(&new, &otc))
        || (chars_eq(&old, &listed) && chars_eq(&new, &emerging))
        || (chars_eq(&old, &otc) && chars_eq(&new, &listed))
        || (chars_eq(&old, &emerging) && chars_eq(&new, &listed));
    let base: i64 = if switch { 4 } else { 8 };
    if base - seconds > 0 {
        (base - seconds) as u64
    } else {
        0
    }
}

/// Law: the request and the pause after it fill an interval between two
/// requests, and a longer request leaves a shorter pause. The interval is
/// four seconds when the market switches between TWSE (`上市`) and one of
/// TPEx's (`上櫃`, `興櫃`), in either direction, and eight otherwise (the
/// same market twice, or between the two TPEx markets); a request that took
/// the whole interval or longer is followed by no pause.
pub proof fn lemma_pause_fills_interval(seconds: int, later: int, old: Seq<char>, new: Seq<char>)
    requires
        0 <= seconds <= later,
    ensures
        ({
            let twse = "上市"@;
            let tpex = |m: Seq<char>| m == "上櫃"@ || m == "興櫃"@;
            let interval = if (old == twse && tpex(new)) || (tpex(old) && new == twse) { 4int } else { 8int };
            &&& seconds <= interval ==> seconds + pause_seconds(seconds, old, new) == interval
            &&& seconds >= interval ==> pause_seconds(seconds, old, new) == 0
        }),
        pause_seconds(later, old, new) <= pause_seconds(seconds, old, new),
        pause_seconds(seconds, old, new) == pause_seconds(seconds, new, old),
{
}

/// Law: the pause never exceeds eight seconds and is zero once a request
/// took eight seconds or more.
pub proof fn lemma_pause_bounded(seconds: int, old: Seq<char>, new: Seq<char>)
    requires
        seconds >= 0,
    ensures
        0 <= pause_seconds(seconds, old, new) <= 8,
        seconds >= 8 ==> pause_seconds(seconds, old, new) == 0,
{
}

/// The task's date as numbers, when its fields parse.
pub open spec fn task_date(t: SecurityTask) -> (int, int, int) {
    (parsed_i32(t.open_date_year@).unwrap() as int, parsed_u32(t.open_date_month@).unwrap() as int,
        parsed_u32(t.open_date_day@).unwrap() as int)
}

/// The task's date fields parse to a date `NaiveDate` holds.
pub open spec fn task_date_ok(t: SecurityTask) -> bool {
    &&& parsed_i32(t.open_date_year@) is Some
    &&& parsed_u32(t.open_date_month@) is Some
    &&& parsed_u32(t.open_date_day@) is Some
    &&& valid_date(task_date(t).0, task_date(t).1, task_date(t).2)
}

/// Whether the task's date fields parse to a date (see [`task_date_ok`]).
pub fn task_date_ready(task: &SecurityTask) -> (r: bool)
    ensures
        r == task_date_ok(*task),
{
    let y = parse_i32(&chars_of(task.open_date_year.as_str()));
    let m = parse_u32(&chars_of(task.open_date_month.as_str()));
    let d = parse_u32(&chars_of(task.open_date_day.as_str()));
    match (y, m, d) {
        (Some(y), Some(m), Some(d)) => valid_ymd(y, m, d),
        _ => false,
    }
}

/// A task may be fetched at `now` unless it is for today and the market has
/// not closed yet (15:30).
pub open spec fn exec_due(t: SecurityTask, now: LocalNow) -> bool {
    let d = task_date(t);
    let today = d.0 == now.year && d.1 == now.month && d.2 == now.day;
    let after_close = now.hour > 15 || (now.hour == 15 && (now.minute > 30
        || (now.minute == 30 && (now.second > 0 || now.nanosecond > 0))));
    !today || after_close
}

/// Law: a task of another day is always due; a task of today is due exactly
/// when the time of day is later than 15:30:00, counted in seconds since
/// midnight (the nanoseconds decide at 15:30:00 itself). So from 15:30:01 on
/// it is due at every later time of the day, whatever the minute.
pub proof fn lemma_due_after_close(t: SecurityTask, now: LocalNow)
    requires
        now.minute < 60,
        now.second < 60,
    ensures
        task_date(t) != (now.year as int, now.month as int, now.day as int) ==> exec_due(t, now),
        task_date(t) == (now.year as int, now.month as int, now.day as int) ==> (exec_due(t, now) <==> {
            let secs = now.hour * 3600 + now.minute * 60 + now.second;
            secs > 55800 || (secs == 55800 && now.nanosecond > 0)
        }),
{
}

/// Whether the task may be fetched at the given moment.
pub fn exec_date_due(task: &SecurityTask, now: &LocalNow) -> (r: bool)
    requires
        task_date_ok(*task),
    ensures
        r == exec_due(*task, *now),
        task_date(*task) != (now.year as int, now.month as int, now.day as int) ==> r,
        task_date(*task) == (now.year as int, now.month as int, now.day as int) && now.minute < 60 && now.second < 60
            ==> (r <==> {
                let secs = now.hour * 3600 + now.minute * 60 + now.second;
                secs > 55800 || (secs == 55800 && now.nanosecond > 0)
            }),
{
    proof {
        if now.minute < 60 && now.second < 60 {
            lemma_due_after_close(*task, *now);
        }
    }
    let y = parse_i32(&chars_of(task.open_date_year.as_str())).unwrap();
    let m = parse_u32(&chars_of(task.open_date_month.as_str())).unwrap();
    let d = parse_u32(&chars_of(task.open_date_day.as_str())).unwrap();
    let today = y == now.year && m == now.month && d == now.day;
    let after_close = now.hour > 15 || (now.hour == 15 && (now.minute > 30
        || (now.minute == 30 && (now.second > 0 || now.nanosecond > 0))));
    !today || after_close
}

/// Whether the task may be fetched now (see [`exec_due`]).
pub fn check_exec_date(task: &SecurityTask) -> (r: bool)
    requires
        task_date_ok(*task),
    ensures
        exists|now: LocalNow| valid_date(now.year as int, now.month as int, now.day as int) && r == exec_due(*task, now),
{
    let now = local_now();
    exec_date_due(task, &now)
}

/// The task after a fetch: one more attempt, and disabled when its prices were kept.
pub fn update_data(security: &SecurityTask, is_action: bool) -> (r: SecurityTask)
    requires
        security.exec_count < i32::MAX,
    ensures
        same_task(r, *security),
        r.exec_count == security.exec_count + 1,
        r.is_enabled == if is_action { 0 } else { security.is_enabled },
        r.sort_no == security.sort_no,
{
    let enabled = if is_action { 0 } else { security.is_enabled };
    copy_task(security, security.exec_count + 1, enabled, security.sort_no)
}

/// What a fetch that returned `text` means for the task: the reply is kept
/// (`true`) exactly when it is not empty, and the task is counted and, when
/// the reply is kept, disabled (see `update_data`).
pub fn fetched_task(security: &SecurityTask, text: &String) -> (r: (bool, SecurityTask))
    requires
        security.exec_count < i32::MAX,
    ensures
        r.0 == (text@.len() > 0),
        same_task(r.1, *security),
        r.1.exec_count == security.exec_count + 1,
        r.1.is_enabled == if text@.len() > 0 { 0 } else { security.is_enabled },
        r.1.sort_no == security.sort_no,
{
    let keep = !text.as_str().is_empty();
    (keep, update_data(security, keep))
}

/// The reply row to keep for a task: the stored one of its month (when
/// there is one) with the new content, or a new row for the task's day and
/// security; `true` when it is new.
pub fn add_res_data(security: &SecurityTask, html: String, existing: &Option<ResponseData>) -> (r: (ResponseData, bool))
    ensures
        r.1 == existing is None,
        r.0.open_date_year@ == security.open_date_year@,
        r.0.open_date_month@ == security.open_date_month@,
        r.0.open_date_day@ == security.open_date_day@,
        r.0.data_content@ == html@,
        match existing {
            Some(e) => r.0.row_id@ == e.row_id@ && r.0.exec_code@ == e.exec_code@,
            None => r.0.row_id@ == Seq::<char>::empty() && r.0.exec_code@ == security.security_code@,
        },
{
    match existing {
        None => (ResponseData {
            row_id: String::new(),
            open_date_year: copy_string(&security.open_date_year),
            open_date_month: copy_string(&security.open_date_month),
            open_date_day: copy_string(&security.open_date_day),
            exec_code: copy_string(&security.security_code),
            data_content: html,
        }, true),
        Some(e) => (ResponseData {
            row_id: copy_string(&e.row_id),
            open_date_year: copy_string(&security.open_date_year),
            open_date_month: copy_string(&security.open_date_month),
            open_date_day: copy_string(&security.open_date_day),
            exec_code: copy_string(&e.exec_code),
            data_content: html,
        }, false),
    }
}

/// Where a security's prices are requested.
#[derive(Clone, Copy, Debug, PartialEq, Eq)]
pub enum PriceSource {
    /// TWSE monthly averages; date in column 0, price in column 1.
    TwseAvg,
    /// TPEx trading data; date in column 0, price in column 6.
    TpexTrading,
    /// TPEx emerging market history; date in column 0, price in column 5.
    TpexEmerging,
}

/// The source of each market: TWSE for `上市`, TPEx trading for `上櫃`, the
/// emerging market for `興櫃`; none for any other.
pub open spec fn source_of(market: Seq<char>) -> Option<PriceSource> {
    if market == "上市"@ {
        Some(PriceSource::TwseAvg)
    } else if market == "上櫃"@ {
        Some(PriceSource::TpexTrading)
    } else if market == "興櫃"@ {
        Some(PriceSource::TpexEmerging)
    } else {
        None
    }
}

/// The source of a security's prices.
pub fn price_source(market_type: &String) -> (r: Option<PriceSource>)
    ensures
        r == source_of(market_type@),
{
    let m = chars_of(market_type.as_str());
    if chars_eq(&m, &chars_of("上市")) {
        Some(PriceSource::TwseAvg)
    } else if chars_eq(&m, &chars_of("上櫃")) {
        Some(PriceSource::TpexTrading)
    } else if chars_eq(&m, &chars_of("興櫃")) {
        Some(PriceSource::TpexEmerging)
    } else {
        None
    }
}

/// The date and price columns of a source's rows.
pub fn source_columns(source: PriceSource) -> (r: (usize, usize))
    ensures
        r == match source {
            PriceSource::TwseAvg => (0usize, 1usize),
            PriceSource::TpexTrading => (0usize, 6usize),
            PriceSource::TpexEmerging => (0usize, 5usize),
        },
{
    match source {
        PriceSource::TwseAvg => (0, 1),
        PriceSource::TpexTrading => (0, 6),
        PriceSource::TpexEmerging => (0, 5),
    }
}

/// Progress through the day's tasks: the position reached and the market of
/// the last security fetched.
pub struct TaskRunState {
    pub index: usize,
    pub old_market_type: String,
}

/// The start of a run: the first task, no market yet.
pub fn task_run_start() -> (r: TaskRunState)
    ensures
        r.index == 0,
        r.old_market_type@ == Seq::<char>::empty(),
{
    TaskRunState { index: 0, old_market_type: String::new() }
}

/// What the run does next with the current task: stop after the last one,
/// wait while it is not due, move on when its reply is already kept, fetch otherwise.
#[derive(Clone, Copy, Debug, PartialEq, Eq)]
pub enum TaskRunStep {
    Finished,
    NotDue,
    AlreadyKept,
    Fetch,
}

/// The next step of the run (see [`TaskRunStep`]).
pub fn task_run_step(state: &TaskRunState, task_count: usize, due: bool, has_response: bool) -> (r: TaskRunStep)
    ensures
        r == if state.index >= task_count {
            TaskRunStep::Finished
        } else if !due {
            TaskRunStep::NotDue
        } else if has_response {
            TaskRunStep::AlreadyKept
        } else {
            TaskRunStep::Fetch
        },
{
    if state.index >= task_count {
        TaskRunStep::Finished
    } else if !due {
        TaskRunStep::NotDue
    } else if has_response {
        TaskRunStep::AlreadyKept
    } else {
        TaskRunStep::Fetch
    }
}

/// The run after a task whose reply was already kept: the next task, same market.
pub fn task_run_after_kept(state: TaskRunState) -> (r: TaskRunState)
    requires
        state.index < usize::MAX,
    ensures
        r.index == state.index + 1,
        r.old_market_type@ == state.old_market_type@,
{
    TaskRunState { index: state.index + 1, old_market_type: state.old_market_type }
}

/// The run after a fetch of `security` that took `elapsed_seconds`: on
/// success the next task, the security's market remembered, and the pause to
/// take; on failure the same task again and no pause.
pub fn task_run_after_fetch(state: TaskRunState, security: &SecurityTask, fetched: bool, elapsed_seconds: i64) -> (r: (TaskRunState, Option<u64>))
    requires
        state.index < usize::MAX,
        elapsed_seconds > i64::MIN + 8,
    ensures
        fetched ==> r.0.index == state.index + 1 && r.0.old_market_type@ == security.market_type@
            && r.1 == Some(pause_seconds(elapsed_seconds as int, state.old_market_type@, security.market_type@) as u64),
        !fetched ==> r.0.index == state.index && r.0.old_market_type@ == state.old_market_type@ && r.1 is None,
{
    if fetched {
        let pause = sleep_time(elapsed_seconds, &state.old_market_type, &security.market_type);
        (TaskRunState { index: state.index + 1, old_market_type: copy_string(&security.market_type) }, Some(pause))
    } else {
        (state, None)
    }
}

} // verus!
