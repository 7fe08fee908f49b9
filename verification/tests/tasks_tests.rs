use security_api::calendar::LocalNow;
use security_api::records::{DailyTask, ResponseData, SecurityTask, SecurityTemp};
use security_api::tasks::{
    add_res_data, check_exec_date, copy_task, exec_date_due, fetched_task, get_new_security_task, insert_task_data, loop_data_task_data,
    new_security_task, price_source, sleep_time, source_columns, task_date_ready, task_run_after_fetch, task_run_after_kept,
    task_run_start, task_run_step, update_data, update_task_data, PriceSource, TaskRunStep,
};

fn s(x: &str) -> String {
    x.to_string()
}

fn task(code: &str, market: &str, sort_no: i32) -> SecurityTask {
    SecurityTask {
        row_id: s("7"),
        open_date_year: s("2024"),
        open_date_month: s("05"),
        open_date_day: s("17"),
        security_code: s(code),
        security_name: s("name"),
        market_type: s(market),
        issue_date: s("19940905"),
        exec_seed: s("0000000000042"),
        exec_count: 2,
        is_enabled: 1,
        sort_no,
    }
}

fn temp(code: &str, market: &str) -> SecurityTemp {
    SecurityTemp {
        row_id: s(""),
        open_date_year: s("2024"),
        open_date_month: s("05"),
        open_date_day: s("17"),
        international_code: s("TW0002330008"),
        security_code: s(code),
        security_name: s("name"),
        market_type: s(market),
        security_type: s("股票"),
        industry_type: s("半導體業"),
        issue_date: s("1994/09/05"),
        cfi_code: s("ESVUFR"),
        remark: s(""),
    }
}

fn daily() -> DailyTask {
    DailyTask {
        row_id: s("1"),
        open_date_year: s("2024"),
        open_date_month: s("05"),
        open_date_day: s("20"),
        job_code: s("get_web_security"),
        exec_status: s("WAIT"),
    }
}

fn now(hour: u32, minute: u32, second: u32, nanosecond: u32) -> LocalNow {
    LocalNow { year: 2024, month: 5, day: 17, hour, minute, second, nanosecond }
}

#[test]
fn renumbering_only_when_the_number_changes() {
    assert!(loop_data_task_data(&task("2330", "上市", 3), 3).is_none());
    let t = loop_data_task_data(&task("2330", "上市", 3), 5).unwrap();
    assert_eq!(t.sort_no, 5);
    assert_eq!(t.exec_count, 2);
    assert_eq!(t.row_id, "7");
    assert_eq!(t.exec_seed, "0000000000042");
}

#[test]
fn renumbering_alternates_the_markets() {
    let twse = vec![task("A", "上市", 1), task("B", "上市", 3), task("C", "上市", 9)];
    let tpex = vec![task("X", "上櫃", 2)];
    let out = update_task_data(&twse, &tpex);
    assert_eq!(out.len(), 4);
    assert!(out[0].is_none());
    assert!(out[1].is_none());
    assert!(out[2].is_none());
    let c = out[3].as_ref().unwrap();
    assert_eq!(c.security_code, "C");
    assert_eq!(c.sort_no, 4);
    let swapped = update_task_data(&tpex, &twse);
    let codes: Vec<(String, i32)> =
        swapped.iter().flatten().map(|t| (t.security_code.clone(), t.sort_no)).collect();
    assert_eq!(codes, vec![(s("X"), 1), (s("A"), 2), (s("C"), 4)]);
}

#[test]
fn new_task_with_a_given_seed() {
    let t = new_security_task(&temp("2330", "上市"), &daily(), 4, 42);
    assert_eq!(t.row_id, "");
    assert_eq!(t.exec_seed, "0000000000042");
    assert_eq!(t.open_date_day, "20");
    assert_eq!(t.issue_date, "1994/09/05");
    assert_eq!(t.market_type, "上市");
    assert_eq!(t.exec_count, 0);
    assert_eq!(t.is_enabled, 1);
    assert_eq!(t.sort_no, 4);
    assert_eq!(new_security_task(&temp("1", "上櫃"), &daily(), 1, 9999999999999).exec_seed, "9999999999999");
    assert_eq!(new_security_task(&temp("1", "上櫃"), &daily(), 1, 1).exec_seed, "0000000000001");
}

#[test]
fn random_seeds_have_thirteen_digits() {
    for _ in 0..50 {
        let t = get_new_security_task(&temp("2330", "上市"), &daily(), 1);
        assert_eq!(t.exec_seed.len(), 13);
        assert!(t.exec_seed.chars().all(|c| c.is_ascii_digit()));
        assert_ne!(t.exec_seed, "0000000000000");
    }
}

#[test]
fn day_tasks_follow_the_merge_order() {
    let twse = vec![temp("A", "上市"), temp("B", "上市")];
    let tpex = vec![temp("X", "上櫃"), temp("Y", "興櫃"), temp("Z", "上櫃")];
    let out = insert_task_data(&twse, &tpex, &daily());
    let codes: Vec<(String, i32)> = out.iter().map(|t| (t.security_code.clone(), t.sort_no)).collect();
    assert_eq!(codes, vec![(s("A"), 1), (s("X"), 2), (s("B"), 3), (s("Y"), 4), (s("Z"), 5)]);
    assert!(insert_task_data(&vec![], &vec![], &daily()).is_empty());
}

#[test]
fn pauses_between_requests() {
    assert_eq!(sleep_time(1, &s("上市"), &s("上櫃")), 3);
    assert_eq!(sleep_time(1, &s("興櫃"), &s("上市")), 3);
    assert_eq!(sleep_time(1, &s("上市"), &s("上市")), 7);
    assert_eq!(sleep_time(1, &s("上櫃"), &s("興櫃")), 7);
    assert_eq!(sleep_time(0, &s(""), &s("上市")), 8);
    assert_eq!(sleep_time(5, &s("上市"), &s("上櫃")), 0);
    assert_eq!(sleep_time(20, &s("上市"), &s("上市")), 0);
    for secs in 0..20 {
        assert!(sleep_time(secs, &s("上櫃"), &s("上市")) <= 8);
    }
}

#[test]
fn today_waits_for_the_close() {
    let t = task("2330", "上市", 1);
    assert!(!exec_date_due(&t, &now(15, 30, 0, 0)));
    assert!(exec_date_due(&t, &now(15, 30, 0, 1)));
    assert!(exec_date_due(&t, &now(15, 31, 0, 0)));
    assert!(!exec_date_due(&t, &now(9, 0, 0, 0)));
    let mut other = task("2330", "上市", 1);
    other.open_date_day = s("16");
    assert!(exec_date_due(&other, &now(9, 0, 0, 0)));
}

#[test]
fn fetch_counts_and_disables() {
    let t = task("2330", "上市", 6);
    let kept = update_data(&t, true);
    assert_eq!(kept.exec_count, 3);
    assert_eq!(kept.is_enabled, 0);
    assert_eq!(kept.sort_no, 6);
    let retried = update_data(&t, false);
    assert_eq!(retried.exec_count, 3);
    assert_eq!(retried.is_enabled, 1);
    let copy = copy_task(&t, 0, 0, 0);
    assert_eq!(copy.security_code, "2330");
    assert_eq!(copy.exec_count, 0);
}

#[test]
fn reply_rows_new_or_reused() {
    let t = task("2330", "上市", 1);
    let (fresh, is_new) = add_res_data(&t, s("<html>"), &None);
    assert!(is_new);
    assert_eq!(fresh.row_id, "");
    assert_eq!(fresh.exec_code, "2330");
    assert_eq!(fresh.data_content, "<html>");
    let stored = ResponseData {
        row_id: s("99"),
        open_date_year: s("2024"),
        open_date_month: s("05"),
        open_date_day: s("01"),
        exec_code: s("2330"),
        data_content: s("old"),
    };
    let (again, is_new) = add_res_data(&t, s("new"), &Some(stored));
    assert!(!is_new);
    assert_eq!(again.row_id, "99");
    assert_eq!(again.open_date_day, "17");
    assert_eq!(again.data_content, "new");
}

#[test]
fn price_sources_by_market() {
    assert_eq!(price_source(&s("上市")), Some(PriceSource::TwseAvg));
    assert_eq!(price_source(&s("上櫃")), Some(PriceSource::TpexTrading));
    assert_eq!(price_source(&s("興櫃")), Some(PriceSource::TpexEmerging));
    assert_eq!(price_source(&s("公開發行")), None);
    assert_eq!(source_columns(PriceSource::TwseAvg), (0, 1));
    assert_eq!(source_columns(PriceSource::TpexTrading), (0, 6));
    assert_eq!(source_columns(PriceSource::TpexEmerging), (0, 5));
}

#[test]
fn run_steps_through_the_tasks() {
    let start = task_run_start();
    assert_eq!(start.index, 0);
    assert_eq!(task_run_step(&start, 0, true, false), TaskRunStep::Finished);
    assert_eq!(task_run_step(&start, 2, false, false), TaskRunStep::NotDue);
    assert_eq!(task_run_step(&start, 2, true, true), TaskRunStep::AlreadyKept);
    assert_eq!(task_run_step(&start, 2, true, false), TaskRunStep::Fetch);
    let next = task_run_after_kept(start);
    assert_eq!(next.index, 1);
    assert_eq!(next.old_market_type, "");
    let (after, pause) = task_run_after_fetch(next, &task("6488", "上櫃", 2), true, 1);
    assert_eq!(after.index, 2);
    assert_eq!(after.old_market_type, "上櫃");
    assert_eq!(pause, Some(7));
    let (again, pause) = task_run_after_fetch(after, &task("2330", "上市", 3), true, 2);
    assert_eq!(again.index, 3);
    assert_eq!(pause, Some(2));
    let (same, pause) = task_run_after_fetch(again, &task("1101", "上市", 4), false, 2);
    assert_eq!(same.index, 3);
    assert_eq!(same.old_market_type, "上市");
    assert_eq!(pause, None);
}

#[test]
fn task_dates_must_parse() {
    assert!(task_date_ready(&task("2330", "上市", 1)));
    let mut bad = task("2330", "上市", 1);
    bad.open_date_month = s("13");
    assert!(!task_date_ready(&bad));
    bad.open_date_month = s("May");
    assert!(!task_date_ready(&bad));
}

#[test]
fn a_past_day_is_always_due() {
    let mut old = task("2330", "上市", 1);
    old.open_date_year = s("2000");
    old.open_date_month = s("01");
    old.open_date_day = s("03");
    assert!(check_exec_date(&old));
}

#[test]
fn fetched_reply_disables_only_when_not_empty() {
    let t = task("2330", "上市", 6);
    let (keep, kept) = fetched_task(&t, &s("{\"data\":[]}"));
    assert!(keep);
    assert_eq!(kept.exec_count, 3);
    assert_eq!(kept.is_enabled, 0);
    assert_eq!(kept.sort_no, 6);
    assert_eq!(kept.security_code, "2330");
    let (keep, retried) = fetched_task(&t, &s(""));
    assert!(!keep);
    assert_eq!(retried.exec_count, 3);
    assert_eq!(retried.is_enabled, 1);
}

#[test]
fn renumbering_twice_changes_nothing() {
    let twse = vec![task("A", "上市", 9), task("B", "上市", 9), task("C", "上市", 9)];
    let tpex = vec![task("X", "上櫃", 0)];
    let first = update_task_data(&twse, &tpex);
    assert!(first.iter().all(|t| t.is_some()));
    let at = |p: usize| first[p].as_ref().unwrap().clone();
    let twse2 = vec![at(0), at(2), at(3)];
    let tpex2 = vec![at(1)];
    assert_eq!(twse2.iter().map(|t| t.security_code.clone()).collect::<Vec<_>>(), vec![s("A"), s("B"), s("C")]);
    assert_eq!(tpex2[0].security_code, "X");
    let second = update_task_data(&twse2, &tpex2);
    assert_eq!(second.len(), 4);
    assert!(second.iter().all(|t| t.is_none()));
}
