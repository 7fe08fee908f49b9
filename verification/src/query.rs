//! SQL text of the filtered reads, built from the fields a filter sets.

use vstd::prelude::*;
use crate::fmt::{decimal, zero_padded, zero_padded_chars};
use crate::records::{ListenFlow, TaskSetting};
use crate::text::{chars_of, push_chars, push_str, string_from_chars};

verus! {

/// ` WHERE ` for the first condition, ` AND ` for the others.
pub open spec fn joiner(index: int) -> Seq<char> {
    if index <= 0 { " WHERE "@ } else { " AND "@ }
}

/// The condition `field conditional $n` added to a query whose counter was
/// `index` (`n` is `index + 1`).
pub open spec fn where_clause(field: Seq<char>, conditional: Seq<char>, index: int) -> Seq<char> {
    seq![' '] + joiner(index) + seq![' '] + field + seq![' '] + conditional + seq![' ', '$']
        + zero_padded(index + 1, 0) + seq![' ']
}

/// One condition of a filtered read, numbering its placeholder from the counter.
pub fn where_append(field: &str, conditional: &str, index: &mut i32) -> (r: String)
    requires
        *old(index) < i32::MAX,
    ensures
        *final(index) == *old(index) + 1,
        r@ == where_clause(field@, conditional@, *old(index) as int),
{
    let mut out: Vec<char> = vec![' '];
    if *index <= 0 {
        push_str(&mut out, " WHERE ");
    } else {
        push_str(&mut out, " AND ");
    }
    *index = *index + 1;
    out.push(' ');
    push_str(&mut out, field);
    out.push(' ');
    push_str(&mut out, conditional);
    out.push(' ');
    out.push('$');
    push_chars(&mut out, &zero_padded_chars(*index as i64, 0));
    out.push(' ');
    assert(out@ =~= where_clause(field@, conditional@, *old(index) as int));
    string_from_chars(&out)
}

/// Law: successive calls number their placeholders in call order. Where a
/// counter starts at 0 and each of `k` calls of `where_append` adds one to it
/// (`counters[j]` is the counter before call `j`, `counters[k]` after the
/// last), the counter ends at `k`, the first call alone writes `WHERE`, every
/// later one writes `AND`, and call `j` writes the placeholder `$(j + 1)`.
pub proof fn lemma_where_sequence(counters: Seq<int>, fields: Seq<Seq<char>>, conditionals: Seq<Seq<char>>)
    requires
        counters.len() == fields.len() + 1,
        conditionals.len() == fields.len(),
        counters[0] == 0,
        forall|j: int| 0 <= j < fields.len() ==> #[trigger] counters[j + 1] == counters[j] + 1,
    ensures
        counters[fields.len() as int] == fields.len(),
        forall|j: int| 0 <= j < fields.len() ==> #[trigger] where_clause(fields[j], conditionals[j], counters[j])
            == seq![' '] + (if j == 0 { " WHERE "@ } else { " AND "@ }) + seq![' '] + fields[j] + seq![' ']
                + conditionals[j] + seq![' ', '$'] + decimal((j + 1) as nat) + seq![' '],
{
    assert forall|j: int| 0 <= j <= fields.len() implies counters[j] == j by {
        lemma_counter_steps(counters, j);
    }
    assert forall|j: int| 0 <= j < fields.len() implies #[trigger] where_clause(fields[j], conditionals[j], counters[j])
        == seq![' '] + (if j == 0 { " WHERE "@ } else { " AND "@ }) + seq![' '] + fields[j] + seq![' ']
            + conditionals[j] + seq![' ', '$'] + decimal((j + 1) as nat) + seq![' '] by {
        lemma_counter_steps(counters, j);
        assert(zero_padded(j + 1, 0) == decimal((j + 1) as nat));
    }
}

/// A counter that starts at 0 and grows by one at each step holds `j` after `j` steps.
proof fn lemma_counter_steps(counters: Seq<int>, j: int)
    requires
        0 <= j < counters.len(),
        counters[0] == 0,
        forall|i: int| 0 <= i < counters.len() - 1 ==> #[trigger] counters[i + 1] == counters[i] + 1,
    ensures
        counters[j] == j,
    decreases j,
{
    if j > 0 {
        lemma_counter_steps(counters, j - 1);
        assert(counters[(j - 1) + 1] == counters[j - 1] + 1);
    }
}

/// The `=` conditions on `fields`, numbered from the counter `index`.
pub open spec fn where_clauses(fields: Seq<Seq<char>>, index: int) -> Seq<char>
    decreases fields.len(),
{
    if fields.len() == 0 {
        Seq::empty()
    } else {
        where_clause(fields[0], "="@, index) + where_clauses(fields.drop_first(), index + 1)
    }
}

/// Law: the conditions of a filtered read are its fields' clauses one after
/// another, the field at position `j` numbered from the counter `index + j`:
/// so from a counter of 0, the first field alone is joined by `WHERE` and the
/// placeholders `$1`, `$2`, … follow the fields' order (see
/// [`lemma_where_sequence`]).
pub proof fn lemma_where_clauses_in_order(fields: Seq<Seq<char>>, index: int)
    ensures
        where_clauses(fields, index)
            == Seq::new(fields.len(), |j: int| where_clause(fields[j], "="@, index + j)).flatten(),
    decreases fields.len(),
{
    let parts = Seq::new(fields.len(), |j: int| where_clause(fields[j], "="@, index + j));
    if fields.len() > 0 {
        let rest = fields.drop_first();
        lemma_where_clauses_in_order(rest, index + 1);
        let rest_parts = Seq::new(rest.len(), |j: int| where_clause(rest[j], "="@, index + 1 + j));
        assert(parts.drop_first() =~= rest_parts) by {
            assert forall|j: int| 0 <= j < rest.len() implies parts.drop_first()[j] == rest_parts[j] by {
                assert(rest[j] == fields[j + 1]);
                assert(index + (j + 1) == index + 1 + j);
            }
        }
        assert(parts.first() == where_clause(fields[0], "="@, index));
    } else {
        assert(parts =~= Seq::<Seq<char>>::empty());
    }
}

fn append_where_clauses(out: &mut Vec<char>, fields: &Vec<&str>)
    requires
        fields.len() < 1000,
    ensures
        final(out)@ == old(out)@ + where_clauses(fields@.map_values(|f: &str| f@), 0),
{
    let ghost names = fields@.map_values(|f: &str| f@);
    let mut index: i32 = 0;
    let mut k: usize = 0;
    assert(names.skip(0) =~= names);
    while k < fields.len()
        invariant
            k <= fields.len() < 1000,
            index == k,
            names == fields@.map_values(|f: &str| f@),
            out@ + where_clauses(names.skip(k as int), k as int) == old(out)@ + where_clauses(names, 0),
        decreases fields.len() - k,
    {
        let ghost rest = names.skip(k as int);
        let clause = where_append(fields[k], "=", &mut index);
        assert(rest.drop_first() =~= names.skip(k + 1));
        assert(rest[0] == fields@[k as int]@);
        let ghost before = out@;
        push_str(out, clause.as_str());
        assert(out@ + where_clauses(names.skip(k + 1), k + 1) =~= before + where_clauses(rest, k as int));
        k += 1;
    }
    assert(names.skip(fields.len() as int) =~= Seq::<Seq<char>>::empty());
    assert(out@ =~= old(out)@ + where_clauses(names, 0));
}

/// A field of `listen_flow` a read filters on.
#[derive(Clone, Copy, Debug, PartialEq, Eq)]
pub enum ListenFlowField {
    FlowCode,
    FlowParam1,
    FlowParam2,
    FlowParam3,
    FlowParam4,
    FlowParam5,
    Pid,
}

/// The column of a `listen_flow` field.
pub open spec fn listen_flow_column(f: ListenFlowField) -> Seq<char> {
    match f {
        ListenFlowField::FlowCode => "flow_code"@,
        ListenFlowField::FlowParam1 => "flow_param1"@,
        ListenFlowField::FlowParam2 => "flow_param2"@,
        ListenFlowField::FlowParam3 => "flow_param3"@,
        ListenFlowField::FlowParam4 => "flow_param4"@,
        ListenFlowField::FlowParam5 => "flow_param5"@,
        ListenFlowField::Pid => "pid"@,
    }
}

fn listen_flow_column_exec(f: ListenFlowField) -> (r: &'static str)
    ensures
        r@ == listen_flow_column(f),
{
    match f {
        ListenFlowField::FlowCode => "flow_code",
        ListenFlowField::FlowParam1 => "flow_param1",
        ListenFlowField::FlowParam2 => "flow_param2",
        ListenFlowField::FlowParam3 => "flow_param3",
        ListenFlowField::FlowParam4 => "flow_param4",
        ListenFlowField::FlowParam5 => "flow_param5",
        ListenFlowField::Pid => "pid",
    }
}

/// The fields a `listen_flow` filter sets, in column order: a non-empty flow
/// code, each parameter present, a positive process id.
pub open spec fn listen_flow_filters(data: ListenFlow) -> Seq<ListenFlowField> {
    let s0 = Seq::<ListenFlowField>::empty();
    let s1 = if data.flow_code@.len() > 0 { s0.push(ListenFlowField::FlowCode) } else { s0 };
    let s2 = if data.flow_param1 is Some { s1.push(ListenFlowField::FlowParam1) } else { s1 };
    let s3 = if data.flow_param2 is Some { s2.push(ListenFlowField::FlowParam2) } else { s2 };
    let s4 = if data.flow_param3 is Some { s3.push(ListenFlowField::FlowParam3) } else { s3 };
    let s5 = if data.flow_param4 is Some { s4.push(ListenFlowField::FlowParam4) } else { s4 };
    let s6 = if data.flow_param5 is Some { s5.push(ListenFlowField::FlowParam5) } else { s5 };
    if data.pid > 0 { s6.push(ListenFlowField::Pid) } else { s6 }
}

/// The place of a `listen_flow` field among the table's columns.
pub open spec fn listen_flow_rank(f: ListenFlowField) -> int {
    match f {
        ListenFlowField::FlowCode => 0,
        ListenFlowField::FlowParam1 => 1,
        ListenFlowField::FlowParam2 => 2,
        ListenFlowField::FlowParam3 => 3,
        ListenFlowField::FlowParam4 => 4,
        ListenFlowField::FlowParam5 => 5,
        ListenFlowField::Pid => 6,
    }
}

/// A pushed item is found, and so is every item found before.
proof fn lemma_push_contains<A>(s: Seq<A>, x: A, y: A)
    ensures
        s.push(x).contains(y) <==> (s.contains(y) || x == y),
{
    if s.contains(y) {
        let i = choose|i: int| 0 <= i < s.len() && s[i] == y;
        assert(s.push(x)[i] == y);
    }
    if x == y {
        assert(s.push(x)[s.len() as int] == y);
    }
    if s.push(x).contains(y) {
        let i = choose|i: int| 0 <= i < s.push(x).len() && s.push(x)[i] == y;
        if i < s.len() {
            assert(s[i] == y);
        }
    }
}

/// Law: a `listen_flow` read binds exactly the fields its filter sets (a
/// non-empty flow code, each parameter present, a positive process id),
/// each once, in the order of the table's columns.
pub proof fn lemma_listen_flow_binds(data: ListenFlow)
    ensures
        listen_flow_filters(data).contains(ListenFlowField::FlowCode) <==> data.flow_code@.len() > 0,
        listen_flow_filters(data).contains(ListenFlowField::FlowParam1) <==> data.flow_param1 is Some,
        listen_flow_filters(data).contains(ListenFlowField::FlowParam2) <==> data.flow_param2 is Some,
        listen_flow_filters(data).contains(ListenFlowField::FlowParam3) <==> data.flow_param3 is Some,
        listen_flow_filters(data).contains(ListenFlowField::FlowParam4) <==> data.flow_param4 is Some,
        listen_flow_filters(data).contains(ListenFlowField::FlowParam5) <==> data.flow_param5 is Some,
        listen_flow_filters(data).contains(ListenFlowField::Pid) <==> data.pid > 0,
        forall|i: int, j: int| 0 <= i < j < listen_flow_filters(data).len()
            ==> listen_flow_rank(#[trigger] listen_flow_filters(data)[i]) < listen_flow_rank(#[trigger] listen_flow_filters(data)[j]),
{
    let s0 = Seq::<ListenFlowField>::empty();
    let s1 = if data.flow_code@.len() > 0 { s0.push(ListenFlowField::FlowCode) } else { s0 };
    let s2 = if data.flow_param1 is Some { s1.push(ListenFlowField::FlowParam1) } else { s1 };
    let s3 = if data.flow_param2 is Some { s2.push(ListenFlowField::FlowParam2) } else { s2 };
    let s4 = if data.flow_param3 is Some { s3.push(ListenFlowField::FlowParam3) } else { s3 };
    let s5 = if data.flow_param4 is Some { s4.push(ListenFlowField::FlowParam4) } else { s4 };
    let s6 = if data.flow_param5 is Some { s5.push(ListenFlowField::FlowParam5) } else { s5 };
    let s7 = if data.pid > 0 { s6.push(ListenFlowField::Pid) } else { s6 };
    assert(s7 == listen_flow_filters(data));
    let all = seq![ListenFlowField::FlowCode, ListenFlowField::FlowParam1, ListenFlowField::FlowParam2,
        ListenFlowField::FlowParam3, ListenFlowField::FlowParam4, ListenFlowField::FlowParam5, ListenFlowField::Pid];
    assert forall|k: int| 0 <= k < 7 implies {
        let y = #[trigger] all[k];
        &&& (s1.contains(y) <==> (data.flow_code@.len() > 0 && listen_flow_rank(y) == 0))
        &&& (s2.contains(y) <==> (s1.contains(y) || (data.flow_param1 is Some && listen_flow_rank(y) == 1)))
        &&& (s3.contains(y) <==> (s2.contains(y) || (data.flow_param2 is Some && listen_flow_rank(y) == 2)))
        &&& (s4.contains(y) <==> (s3.contains(y) || (data.flow_param3 is Some && listen_flow_rank(y) == 3)))
        &&& (s5.contains(y) <==> (s4.contains(y) || (data.flow_param4 is Some && listen_flow_rank(y) == 4)))
        &&& (s6.contains(y) <==> (s5.contains(y) || (data.flow_param5 is Some && listen_flow_rank(y) == 5)))
        &&& (s7.contains(y) <==> (s6.contains(y) || (data.pid > 0 && listen_flow_rank(y) == 6)))
    } by {
        let y = all[k];
        lemma_push_contains(s0, ListenFlowField::FlowCode, y);
        lemma_push_contains(s1, ListenFlowField::FlowParam1, y);
        lemma_push_contains(s2, ListenFlowField::FlowParam2, y);
        lemma_push_contains(s3, ListenFlowField::FlowParam3, y);
        lemma_push_contains(s4, ListenFlowField::FlowParam4, y);
        lemma_push_contains(s5, ListenFlowField::FlowParam5, y);
        lemma_push_contains(s6, ListenFlowField::Pid, y);
    }
    assert(all[0] == ListenFlowField::FlowCode && all[1] == ListenFlowField::FlowParam1);
    assert(all[2] == ListenFlowField::FlowParam2 && all[3] == ListenFlowField::FlowParam3);
    assert(all[4] == ListenFlowField::FlowParam4 && all[5] == ListenFlowField::FlowParam5 && all[6] == ListenFlowField::Pid);
    lemma_ranks_rise(s0, s1, ListenFlowField::FlowCode, |f: ListenFlowField| listen_flow_rank(f));
    lemma_ranks_rise(s1, s2, ListenFlowField::FlowParam1, |f: ListenFlowField| listen_flow_rank(f));
    lemma_ranks_rise(s2, s3, ListenFlowField::FlowParam2, |f: ListenFlowField| listen_flow_rank(f));
    lemma_ranks_rise(s3, s4, ListenFlowField::FlowParam3, |f: ListenFlowField| listen_flow_rank(f));
    lemma_ranks_rise(s4, s5, ListenFlowField::FlowParam4, |f: ListenFlowField| listen_flow_rank(f));
    lemma_ranks_rise(s5, s6, ListenFlowField::FlowParam5, |f: ListenFlowField| listen_flow_rank(f));
    lemma_ranks_rise(s6, s7, ListenFlowField::Pid, |f: ListenFlowField| listen_flow_rank(f));
}

/// Pushing an item of a higher rank than every item before keeps the ranks rising.
proof fn lemma_ranks_rise<A>(s: Seq<A>, t: Seq<A>, x: A, rank: spec_fn(A) -> int)
    requires
        t == s || t == s.push(x),
        forall|i: int, j: int| 0 <= i < j < s.len() ==> rank(#[trigger] s[i]) < rank(#[trigger] s[j]),
        forall|i: int| 0 <= i < s.len() ==> rank(#[trigger] s[i]) < rank(x),
    ensures
        forall|i: int, j: int| 0 <= i < j < t.len() ==> rank(#[trigger] t[i]) < rank(#[trigger] t[j]),
        forall|i: int| 0 <= i < t.len() ==> rank(#[trigger] t[i]) <= rank(x),
{
    if t != s {
        assert forall|i: int, j: int| 0 <= i < j < t.len() implies rank(#[trigger] t[i]) < rank(#[trigger] t[j]) by {
            if j < s.len() {
                assert(t[i] == s[i] && t[j] == s[j]);
            } else {
                assert(t[i] == s[i] && t[j] == x);
            }
        }
        assert forall|i: int| 0 <= i < t.len() implies rank(#[trigger] t[i]) <= rank(x) by {
            if i < s.len() {
                assert(t[i] == s[i]);
            }
        }
    }
}

/// The columns read from `listen_flow`.
pub open spec fn listen_flow_select() -> Seq<char> {
    " \n        SELECT row_id\n             , flow_code\n             , flow_param1\n             , flow_param2\n             , flow_param3\n             , flow_param4\n             , flow_param5\n             , pid\n             , pstatus\n          FROM listen_flow\n    "@
}

/// A read of `listen_flow`: its SQL text and the fields bound to `$1`, `$2`, … in order.
pub struct ListenFlowQuery {
    pub sql: String,
    pub binds: Vec<ListenFlowField>,
}

/// The read of the `listen_flow` rows matching the fields the filter sets,
/// ordered by process id and creation time.
pub fn listen_flow_find_all(data: &ListenFlow) -> (r: ListenFlowQuery)
    ensures
        r.binds@ == listen_flow_filters(*data),
        r.sql@ == listen_flow_select()
            + where_clauses(listen_flow_filters(*data).map_values(|f: ListenFlowField| listen_flow_column(f)), 0)
            + "ORDER BY pid, created_date"@,
{
    let mut binds: Vec<ListenFlowField> = Vec::new();
    if data.flow_code.as_str().unicode_len() > 0 {
        binds.push(ListenFlowField::FlowCode);
    }
    if data.flow_param1.is_some() {
        binds.push(ListenFlowField::FlowParam1);
    }
    if data.flow_param2.is_some() {
        binds.push(ListenFlowField::FlowParam2);
    }
    if data.flow_param3.is_some() {
        binds.push(ListenFlowField::FlowParam3);
    }
    if data.flow_param4.is_some() {
        binds.push(ListenFlowField::FlowParam4);
    }
    if data.flow_param5.is_some() {
        binds.push(ListenFlowField::FlowParam5);
    }
    if data.pid > 0 {
        binds.push(ListenFlowField::Pid);
    }
    assert(binds@ =~= listen_flow_filters(*data));
    let mut names: Vec<&str> = Vec::new();
    let mut k: usize = 0;
    while k < binds.len()
        invariant
            k <= binds.len() <= 7,
            names.len() == k,
            forall|j: int| 0 <= j < k ==> (#[trigger] names@[j])@ == listen_flow_column(binds@[j]),
        decreases binds.len() - k,
    {
        names.push(listen_flow_column_exec(binds[k]));
        k += 1;
    }
    assert(names@.map_values(|f: &str| f@) =~= binds@.map_values(|f: ListenFlowField| listen_flow_column(f)));
    let mut out = chars_of(" \n        SELECT row_id\n             , flow_code\n             , flow_param1\n             , flow_param2\n             , flow_param3\n             , flow_param4\n             , flow_param5\n             , pid\n             , pstatus\n          FROM listen_flow\n    ");
    append_where_clauses(&mut out, &names);
    push_str(&mut out, "ORDER BY pid, created_date");
    ListenFlowQuery { sql: string_from_chars(&out), binds }
}

/// A field of `task_setting` a read filters on.
#[derive(Clone, Copy, Debug, PartialEq, Eq)]
pub enum TaskSettingField {
    GroupCode,
    JobCode,
    WaitType,
    WaitNumber,
    IsEnabled,
}

/// The column of a `task_setting` field.
pub open spec fn task_setting_column(f: TaskSettingField) -> Seq<char> {
    match f {
        TaskSettingField::GroupCode => "group_code"@,
        TaskSettingField::JobCode => "job_code"@,
        TaskSettingField::WaitType => "wait_type"@,
        TaskSettingField::WaitNumber => "wait_number"@,
        TaskSettingField::IsEnabled => "is_enabled"@,
    }
}

fn task_setting_column_exec(f: TaskSettingField) -> (r: &'static str)
    ensures
        r@ == task_setting_column(f),
{
    match f {
        TaskSettingField::GroupCode => "group_code",
        TaskSettingField::JobCode => "job_code",
        TaskSettingField::WaitType => "wait_type",
        TaskSettingField::WaitNumber => "wait_number",
        TaskSettingField::IsEnabled => "is_enabled",
    }
}

/// The fields a `task_setting` filter sets, in column order.
pub open spec fn task_setting_filters(data: TaskSetting) -> Seq<TaskSettingField> {
    let s0 = Seq::<TaskSettingField>::empty();
    let s1 = if data.group_code is Some { s0.push(TaskSettingField::GroupCode) } else { s0 };
    let s2 = if data.job_code is Some { s1.push(TaskSettingField::JobCode) } else { s1 };
    let s3 = if data.wait_type is Some { s2.push(TaskSettingField::WaitType) } else { s2 };
    let s4 = if data.wait_number is Some { s3.push(TaskSettingField::WaitNumber) } else { s3 };
    if data.is_enabled is Some { s4.push(TaskSettingField::IsEnabled) } else { s4 }
}

/// The place of a `task_setting` field among the table's columns.
pub open spec fn task_setting_rank(f: TaskSettingField) -> int {
    match f {
        TaskSettingField::GroupCode => 0,
        TaskSettingField::JobCode => 1,
        TaskSettingField::WaitType => 2,
        TaskSettingField::WaitNumber => 3,
        TaskSettingField::IsEnabled => 4,
    }
}

/// Law: a `task_setting` read binds exactly the fields its filter holds, each
/// once, in the order of the table's columns.
pub proof fn lemma_task_setting_binds(data: TaskSetting)
    ensures
        task_setting_filters(data).contains(TaskSettingField::GroupCode) <==> data.group_code is Some,
        task_setting_filters(data).contains(TaskSettingField::JobCode) <==> data.job_code is Some,
        task_setting_filters(data).contains(TaskSettingField::WaitType) <==> data.wait_type is Some,
        task_setting_filters(data).contains(TaskSettingField::WaitNumber) <==> data.wait_number is Some,
        task_setting_filters(data).contains(TaskSettingField::IsEnabled) <==> data.is_enabled is Some,
        forall|i: int, j: int| 0 <= i < j < task_setting_filters(data).len()
            ==> task_setting_rank(#[trigger] task_setting_filters(data)[i]) < task_setting_rank(#[trigger] task_setting_filters(data)[j]),
{
    let s0 = Seq::<TaskSettingField>::empty();
    let s1 = if data.group_code is Some { s0.push(TaskSettingField::GroupCode) } else { s0 };
    let s2 = if data.job_code is Some { s1.push(TaskSettingField::JobCode) } else { s1 };
    let s3 = if data.wait_type is Some { s2.push(TaskSettingField::WaitType) } else { s2 };
    let s4 = if data.wait_number is Some { s3.push(TaskSettingField::WaitNumber) } else { s3 };
    let s5 = if data.is_enabled is Some { s4.push(TaskSettingField::IsEnabled) } else { s4 };
    assert(s5 == task_setting_filters(data));
    let all = seq![TaskSettingField::GroupCode, TaskSettingField::JobCode, TaskSettingField::WaitType,
        TaskSettingField::WaitNumber, TaskSettingField::IsEnabled];
    assert forall|k: int| 0 <= k < 5 implies {
        let y = #[trigger] all[k];
        &&& (s1.contains(y) <==> (data.group_code is Some && task_setting_rank(y) == 0))
        &&& (s2.contains(y) <==> (s1.contains(y) || (data.job_code is Some && task_setting_rank(y) == 1)))
        &&& (s3.contains(y) <==> (s2.contains(y) || (data.wait_type is Some && task_setting_rank(y) == 2)))
        &&& (s4.contains(y) <==> (s3.contains(y) || (data.wait_number is Some && task_setting_rank(y) == 3)))
        &&& (s5.contains(y) <==> (s4.contains(y) || (data.is_enabled is Some && task_setting_rank(y) == 4)))
    } by {
        let y = all[k];
        lemma_push_contains(s0, TaskSettingField::GroupCode, y);
        lemma_push_contains(s1, TaskSettingField::JobCode, y);
        lemma_push_contains(s2, TaskSettingField::WaitType, y);
        lemma_push_contains(s3, TaskSettingField::WaitNumber, y);
        lemma_push_contains(s4, TaskSettingField::IsEnabled, y);
    }
    assert(all[0] == TaskSettingField::GroupCode && all[1] == TaskSettingField::JobCode);
    assert(all[2] == TaskSettingField::WaitType && all[3] == TaskSettingField::WaitNumber && all[4] == TaskSettingField::IsEnabled);
    let rank = |f: TaskSettingField| task_setting_rank(f);
    lemma_ranks_rise(s0, s1, TaskSettingField::GroupCode, rank);
    lemma_ranks_rise(s1, s2, TaskSettingField::JobCode, rank);
    lemma_ranks_rise(s2, s3, TaskSettingField::WaitType, rank);
    lemma_ranks_rise(s3, s4, TaskSettingField::WaitNumber, rank);
    lemma_ranks_rise(s4, s5, TaskSettingField::IsEnabled, rank);
}

/// The columns read from `task_setting`.
pub open spec fn task_setting_select() -> Seq<char> {
    " \n        SELECT row_id\n             , group_code\n             , job_code\n             , wait_type\n             , wait_number\n             , is_enabled\n             , sort_no\n             , created_date\n             , updated_date\n          FROM task_setting\n    "@
}

/// A read of `task_setting`: its SQL text and the fields bound in order.
pub struct TaskSettingQuery {
    pub sql: String,
    pub binds: Vec<TaskSettingField>,
}

/// The read of the `task_setting` rows matching the fields the filter sets.
pub fn task_setting_read_all(data: &TaskSetting) -> (r: TaskSettingQuery)
    ensures
        r.binds@ == task_setting_filters(*data),
        r.sql@ == task_setting_select()
            + where_clauses(task_setting_filters(*data).map_values(|f: TaskSettingField| task_setting_column(f)), 0),
{
    let mut binds: Vec<TaskSettingField> = Vec::new();
    if data.group_code.is_some() {
        binds.push(TaskSettingField::GroupCode);
    }
    if data.job_code.is_some() {
        binds.push(TaskSettingField::JobCode);
    }
    if data.wait_type.is_some() {
        binds.push(TaskSettingField::WaitType);
    }
    if data.wait_number.is_some() {
        binds.push(TaskSettingField::WaitNumber);
    }
    if data.is_enabled.is_some() {
        binds.push(TaskSettingField::IsEnabled);
    }
    assert(binds@ =~= task_setting_filters(*data));
    let mut names: Vec<&str> = Vec::new();
    let mut k: usize = 0;
    while k < binds.len()
        invariant
            k <= binds.len() <= 5,
            names.len() == k,
            forall|j: int| 0 <= j < k ==> (#[trigger] names@[j])@ == task_setting_column(binds@[j]),
        decreases binds.len() - k,
    {
        names.push(task_setting_column_exec(binds[k]));
        k += 1;
    }
    assert(names@.map_values(|f: &str| f@) =~= binds@.map_values(|f: TaskSettingField| task_setting_column(f)));
    let mut out = chars_of(" \n        SELECT row_id\n             , group_code\n             , job_code\n             , wait_type\n             , wait_number\n             , is_enabled\n             , sort_no\n             , created_date\n             , updated_date\n          FROM task_setting\n    ");
    append_where_clauses(&mut out, &names);
    TaskSettingQuery { sql: string_from_chars(&out), binds }
}

} // verus!
