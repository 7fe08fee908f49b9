use security_api::calendar::LocalNow;
use security_api::daily::{
    exit_flow, flow_filter, has_running_flow, job_exit_status, joined_date, new_daily_task, price_date_pattern,
    price_job, security_job, security_response, today_key, update_task_status, PriceJob, SecurityJob,
};
use security_api::records::DailyTask;

fn s(x: &str) -> String {
    x.to_string()
}

fn daily(job: &str) -> DailyTask {
    DailyTask {
        row_id: s("12"),
        open_date_year: s("2024"),
        open_date_month: s("05"),
        open_date_day: s("17"),
        job_code: s(job),
        exec_status: s("WAIT"),
    }
}

#[test]
fn job_codes_name_jobs() {
    assert_eq!(security_job(&s("delete_temp")), Some(SecurityJob::DeleteTemp));
    assert_eq!(security_job(&s("get_web_security")), Some(SecurityJob::GetWebSecurity));
    assert_eq!(security_job(&s("res_to_temp")), Some(SecurityJob::ResToTemp));
    assert_eq!(security_job(&s("temp_to_task")), Some(SecurityJob::TempToTask));
    assert_eq!(security_job(&s("task_run")), Some(SecurityJob::TaskRun));
    assert_eq!(security_job(&s("res_price")), None);
    assert_eq!(price_job(&s("res_price")), Some(PriceJob::ResPrice));
    assert_eq!(price_job(&s("price_value")), Some(PriceJob::PriceValue));
    assert_eq!(price_job(&s("task_run")), None);
}

#[test]
fn exit_status_of_a_job() {
    assert_eq!(job_exit_status(true), "EXIT");
    assert_eq!(job_exit_status(false), "EXEC");
}

#[test]
fn status_changes_keep_the_task() {
    let t = update_task_status(&daily("task_run"), "OPEN");
    assert_eq!(t.exec_status, "OPEN");
    assert_eq!(t.row_id, "12");
    assert_eq!(t.job_code, "task_run");
    let n = new_daily_task(&daily("res_price"));
    assert_eq!(n.row_id, "");
    assert_eq!(n.exec_status, "WAIT");
    assert_eq!(n.open_date_day, "17");
}

#[test]
fn locks_of_a_month() {
    let mine = flow_filter("get_web_price", "2024", "05", 4321, "OPEN");
    assert_eq!(mine.flow_param1.as_deref(), Some("2024"));
    assert_eq!(mine.flow_param2.as_deref(), Some("05"));
    assert!(mine.flow_param3.is_none());
    assert_eq!(mine.pid, 4321);
    let other = flow_filter("get_web_price", "2024", "05", 99, "OPEN");
    assert!(has_running_flow(&vec![other.clone(), mine.clone()], 4321));
    assert!(!has_running_flow(&vec![other.clone()], 4321));
    let released = exit_flow(mine);
    assert_eq!(released.pstatus, "EXIT");
    assert_eq!(released.pid, 4321);
    assert!(!has_running_flow(&vec![other.clone(), released], 4321));
    let all_released: Vec<_> = vec![other.clone(), other].into_iter().map(exit_flow).collect();
    assert!(!has_running_flow(&all_released, 99));
}

#[test]
fn keys_and_patterns() {
    let now = LocalNow { year: 2024, month: 5, day: 7, hour: 1, minute: 2, second: 3, nanosecond: 0 };
    assert_eq!(today_key(&now), "20240507");
    assert_eq!(joined_date(&s("2024"), &s("05"), &s("17"), ""), "20240517");
    assert_eq!(joined_date(&s("2024"), &s("05"), &s("17"), "/"), "2024/05/17");
    assert_eq!(price_date_pattern(&s("2024"), &s("05")), "%0113/05%");
    assert_eq!(price_date_pattern(&s("2024"), &s("5")), "%0113/05%");
}

#[test]
fn listing_reply_row() {
    let r = security_response(&daily("get_web_security"), s("<table/>"));
    assert_eq!(r.row_id, "");
    assert_eq!(r.exec_code, "security");
    assert_eq!(r.data_content, "<table/>");
    assert_eq!(r.open_date_month, "05");
}
