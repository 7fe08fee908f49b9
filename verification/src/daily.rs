//! The daily job runner: which job a task names, the status it records, the
//! per-month locks held in `listen_flow`, and the keys its reads use.

use vstd::prelude::*;
use crate::calendar::LocalNow;
use crate::fmt::{zero_padded, zero_padded_chars};
use crate::records::{DailyTask, ListenFlow, ResponseData};
use crate::text::{chars_eq, chars_of, copy_string, parse_i32, parsed_i32, push_chars, push_str, string_from_chars};

verus! {

/// A job of the securities flow.
#[derive(Clone, Copy, Debug, PartialEq, Eq)]
pub enum SecurityJob {
    /// `delete_temp`: empty the listing table.
    DeleteTemp,
    /// `get_web_security`: fetch the listing page.
    GetWebSecurity,
    /// `res_to_temp`: read the listing page into the listing table.
    ResToTemp,
    /// `temp_to_task`: make the day's fetch tasks.
    TempToTask,
    /// `task_run`: run the day's fetch tasks.
    TaskRun,
}

/// A job of the price flow.
#[derive(Clone, Copy, Debug, PartialEq, Eq)]
pub enum PriceJob {
    /// `res_price`: read kept replies into price rows.
    ResPrice,
    /// `price_value`: compute the price statistics.
    PriceValue,
}

/// The securities job a job code names.
pub open spec fn security_job_of(code: Seq<char>) -> Option<SecurityJob> {
    if code == "delete_temp"@ {
        Some(SecurityJob::DeleteTemp)
    } else if code == "get_web_security"@ {
        Some(SecurityJob::GetWebSecurity)
    } else if code == "res_to_temp"@ {
        Some(SecurityJob::ResToTemp)
    } else if code == "temp_to_task"@ {
        Some(SecurityJob::TempToTask)
    } else if code == "task_run"@ {
        Some(SecurityJob::TaskRun)
    } else {
        None
    }
}

/// The price job a job code names.
pub open spec fn price_job_of(code: Seq<char>) -> Option<PriceJob> {
    if code == "res_price"@ {
        Some(PriceJob::ResPrice)
    } else if code == "price_value"@ {
        Some(PriceJob::PriceValue)
    } else {
        None
    }
}

/// The securities job of a task (none for an unknown code).
pub fn security_job(job_code: &String) -> (r: Option<SecurityJob>)
    ensures
        r == security_job_of(job_code@),
{
    let c = chars_of(job_code.as_str());
    if chars_eq(&c, &chars_of("delete_temp")) {
        Some(SecurityJob::DeleteTemp)
    } else if chars_eq(&c, &chars_of("get_web_security")) {
        Some(SecurityJob::GetWebSecurity)
    } else if chars_eq(&c, &chars_of("res_to_temp")) {
        Some(SecurityJob::ResToTemp)
    } else if chars_eq(&c, &chars_of("temp_to_task")) {
        Some(SecurityJob::TempToTask)
    } else if chars_eq(&c, &chars_of("task_run")) {
        Some(SecurityJob::TaskRun)
    } else {
        None
    }
}

/// The price job of a task (none for an unknown code).
pub fn price_job(job_code: &String) -> (r: Option<PriceJob>)
    ensures
        r == price_job_of(job_code@),
{
    let c = chars_of(job_code.as_str());
    if chars_eq(&c, &chars_of("res_price")) {
        Some(PriceJob::ResPrice)
    } else if chars_eq(&c, &chars_of("price_value")) {
        Some(PriceJob::PriceValue)
    } else {
        None
    }
}

/// The status a job leaves on its task: `EXIT` when it succeeded, `EXEC` when it failed.
pub fn job_exit_status(succeeded: bool) -> (r: String)
    ensures
        r@ == if succeeded { "EXIT"@ } else { "EXEC"@ },
{
    if succeeded {
        string_from_chars(&chars_of("EXIT"))
    } else {
        string_from_chars(&chars_of("EXEC"))
    }
}

/// The two daily tasks name the same job on the same day.
pub open spec fn same_daily(a: DailyTask, b: DailyTask) -> bool {
    &&& a.row_id@ == b.row_id@
    &&& a.open_date_year@ == b.open_date_year@
    &&& a.open_date_month@ == b.open_date_month@
    &&& a.open_date_day@ == b.open_date_day@
    &&& a.job_code@ == b.job_code@
}

/// The task with a new status.
pub fn update_task_status(task: &DailyTask, status: &str) -> (r: DailyTask)
    ensures
        same_daily(r, *task),
        r.exec_status@ == status@,
{
    DailyTask {
        row_id: copy_string(&task.row_id),
        open_date_year: copy_string(&task.open_date_year),
        open_date_month: copy_string(&task.open_date_month),
        open_date_day: copy_string(&task.open_date_day),
        job_code: copy_string(&task.job_code),
        exec_status: string_from_chars(&chars_of(status)),
    }
}

/// The task to insert for a scheduled job not in the table yet: waiting, no row id.
pub fn new_daily_task(data: &DailyTask) -> (r: DailyTask)
    ensures
        r.row_id@ == Seq::<char>::empty(),
        r.open_date_year@ == data.open_date_year@,
        r.open_date_month@ == data.open_date_month@,
        r.open_date_day@ == data.open_date_day@,
        r.job_code@ == data.job_code@,
        r.exec_status@ == "WAIT"@,
{
    DailyTask {
        open_date_year: copy_string(&data.open_date_year),
        open_date_month: copy_string(&data.open_date_month),
        open_date_day: copy_string(&data.open_date_day),
        job_code: copy_string(&data.job_code),
        exec_status: string_from_chars(&chars_of("WAIT")),
        row_id: String::new(),
    }
}

/// Some lock of this process on the month is still held (not `EXIT`).
pub open spec fn running_flow(flows: Seq<ListenFlow>, pid: i32) -> bool {
    exists|i: int| 0 <= i < flows.len() && (#[trigger] flows[i]).pid == pid && flows[i].pstatus@ != "EXIT"@
}

/// Whether this process still holds a lock on the month.
pub fn has_running_flow(flows: &Vec<ListenFlow>, pid: i32) -> (r: bool)
    ensures
        r == running_flow(flows@, pid),
        r <==> exists|i: int| 0 <= i < flows.len() && (#[trigger] flows@[i]).pid == pid && flows@[i].pstatus@ != "EXIT"@,
{
    let exit = chars_of("EXIT");
    let mut i: usize = 0;
    while i < flows.len()
        invariant
            i <= flows.len(),
            exit@ == "EXIT"@,
            forall|j: int| 0 <= j < i ==> !((#[trigger] flows@[j]).pid == pid && flows@[j].pstatus@ != "EXIT"@),
        decreases flows.len() - i,
    {
        if flows[i].pid == pid && !chars_eq(&chars_of(flows[i].pstatus.as_str()), &exit) {
            assert(flows@[i as int].pid == pid && flows@[i as int].pstatus@ != "EXIT"@);
            return true;
        }
        i += 1;
    }
    false
}

/// Law: once every lock of a month is released (set to `EXIT`, as
/// [`exit_flow`] does), no process counts as still working on it.
pub proof fn lemma_released_locks(flows: Seq<ListenFlow>, pid: i32)
    requires
        forall|i: int| 0 <= i < flows.len() ==> (#[trigger] flows[i]).pstatus@ == "EXIT"@,
    ensures
        !running_flow(flows, pid),
{
}

/// Law: a lock of the process counts as held whatever its status, unless
/// that status is `EXIT`: a lock just taken (status `WAIT`) or one being
/// worked on keeps the month busy for the process.
pub proof fn lemma_unreleased_lock_held(flows: Seq<ListenFlow>, pid: i32, i: int)
    requires
        0 <= i < flows.len(),
        flows[i].pid == pid,
        flows[i].pstatus@ != "EXIT"@,
    ensures
        running_flow(flows, pid),
{
    assert(flows[i].pid == pid);
}

/// Law: a lock row as [`flow_filter`] writes it for a new lock (status
/// `WAIT`) is held by its process.
pub proof fn lemma_new_lock_held(flows: Seq<ListenFlow>, pid: i32, i: int, flow_code: Seq<char>, p1: Seq<char>, p2: Seq<char>)
    requires
        0 <= i < flows.len(),
        flow_row(flows[i], flow_code, p1, p2, pid, "WAIT"@),
    ensures
        running_flow(flows, pid),
{
    reveal_strlit("WAIT");
    reveal_strlit("EXIT");
    assert(flows[i].pstatus@[0] != "EXIT"@[0]);
    lemma_unreleased_lock_held(flows, pid, i);
}

/// A lock row of the flow on a month: the two parameters set, the others
/// absent, with the given process id and status.
pub open spec fn flow_row(f: ListenFlow, flow_code: Seq<char>, p1: Seq<char>, p2: Seq<char>, pid: i32, pstatus: Seq<char>) -> bool {
    &&& f.row_id@ == Seq::<char>::empty()
    &&& f.flow_code@ == flow_code
    &&& f.flow_param1 matches Some(x) && x@ == p1
    &&& f.flow_param2 matches Some(x) && x@ == p2
    &&& f.flow_param3 is None && f.flow_param4 is None && f.flow_param5 is None
    &&& f.pid == pid
    &&& f.pstatus@ == pstatus
}

/// The lock row of a flow on a month, with the given process id and status
/// (a process id of 0 and an empty status select every process's locks).
pub fn flow_filter(flow_code: &str, flow_param1: &str, flow_param2: &str, pid: i32, pstatus: &str) -> (r: ListenFlow)
    ensures
        flow_row(r, flow_code@, flow_param1@, flow_param2@, pid, pstatus@),
{
    ListenFlow {
        row_id: String::new(),
        flow_code: string_from_chars(&chars_of(flow_code)),
        flow_param1: Some(string_from_chars(&chars_of(flow_param1))),
        flow_param2: Some(string_from_chars(&chars_of(flow_param2))),
        flow_param3: None,
        flow_param4: None,
        flow_param5: None,
        pid,
        pstatus: string_from_chars(&chars_of(pstatus)),
    }
}

/// The lock released: the same row with status `EXIT`.
pub fn exit_flow(flow: ListenFlow) -> (r: ListenFlow)
    ensures
        r.row_id@ == flow.row_id@,
        r.flow_code@ == flow.flow_code@,
        r.flow_param1 == flow.flow_param1,
        r.flow_param2 == flow.flow_param2,
        r.flow_param3 == flow.flow_param3,
        r.flow_param4 == flow.flow_param4,
        r.flow_param5 == flow.flow_param5,
        r.pid == flow.pid,
        r.pstatus@ == "EXIT"@,
{
    let mut new_flow = flow;
    new_flow.pstatus = string_from_chars(&chars_of("EXIT"));
    new_flow
}

/// `format!("{:04}{:02}{:02}", y, m, d)` of today: the key of today's schedule.
pub fn today_key(now: &LocalNow) -> (r: String)
    ensures
        r@ == zero_padded(now.year as int, 4) + zero_padded(now.month as int, 2) + zero_padded(now.day as int, 2),
{
    let mut out = zero_padded_chars(now.year as i64, 4);
    push_chars(&mut out, &zero_padded_chars(now.month as i64, 2));
    push_chars(&mut out, &zero_padded_chars(now.day as i64, 2));
    string_from_chars(&out)
}

/// A date's parts joined by `sep`: the keys of reads and the dates of
/// requests (`YYYYMMDD` with no separator, `YYYY/MM/DD` with `/`).
pub fn joined_date(year: &String, month: &String, day: &String, sep: &str) -> (r: String)
    ensures
        r@ == year@ + sep@ + month@ + sep@ + day@,
{
    let mut out = chars_of(year.as_str());
    push_str(&mut out, sep);
    push_str(&mut out, month.as_str());
    push_str(&mut out, sep);
    push_str(&mut out, day.as_str());
    string_from_chars(&out)
}

/// `format!("%{:04}/{:02}%", year - 1911, month)`: the pattern of a month's
/// price dates in the exchanges' calendar.
pub open spec fn price_month_pattern(year: int, month: int) -> Seq<char> {
    seq!['%'] + zero_padded(year - 1911, 4) + seq!['/'] + zero_padded(month, 2) + seq!['%']
}

/// The pattern matching a month's price dates; year and month must be numbers.
pub fn price_date_pattern(q_year: &String, q_month: &String) -> (r: String)
    requires
        parsed_i32(q_year@) matches Some(y) && y >= i32::MIN + 1911,
        parsed_i32(q_month@) is Some,
    ensures
        r@ == price_month_pattern(parsed_i32(q_year@).unwrap() as int, parsed_i32(q_month@).unwrap() as int),
{
    let y = parse_i32(&chars_of(q_year.as_str())).unwrap();
    let m = parse_i32(&chars_of(q_month.as_str())).unwrap();
    let mut out: Vec<char> = vec!['%'];
    push_chars(&mut out, &zero_padded_chars((y - 1911) as i64, 4));
    out.push('/');
    push_chars(&mut out, &zero_padded_chars(m as i64, 2));
    out.push('%');
    assert(out@ =~= price_month_pattern(y as int, m as int));
    string_from_chars(&out)
}

/// The reply of the listing page kept for a day, under the code `security`.
pub fn security_response(task: &DailyTask, content: String) -> (r: ResponseData)
    ensures
        r.row_id@ == Seq::<char>::empty(),
        r.exec_code@ == "security"@,
        r.data_content@ == content@,
        r.open_date_year@ == task.open_date_year@,
        r.open_date_month@ == task.open_date_month@,
        r.open_date_day@ == task.open_date_day@,
{
    ResponseData {
        row_id: String::new(),
        exec_code: string_from_chars(&chars_of("security")),
        data_content: content,
        open_date_year: copy_string(&task.open_date_year),
        open_date_month: copy_string(&task.open_date_month),
        open_date_day: copy_string(&task.open_date_day),
    }
}

} // verus!
