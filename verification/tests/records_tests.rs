use security_api::decimal::Decimal;
use security_api::records::{CalendarData, DailyTask, ListenFlow, ResponseData, SecurityPrice, TaskSetting};

fn s(x: &str) -> String {
    x.to_string()
}

#[test]
fn daily_task_text() {
    let t = DailyTask {
        row_id: s("5"),
        open_date_year: s("2024"),
        open_date_month: s("05"),
        open_date_day: s("17"),
        job_code: s("task_run"),
        exec_status: s("EXIT"),
    };
    assert_eq!(t.to_string(), "5, open_date: 20240517, job_code: task_run, exec_status: EXIT");
}

#[test]
fn calendar_text_carries_both_calendars() {
    let c = CalendarData {
        row_id: s("9"),
        ce_year: s("2024"),
        ce_month: s("05"),
        ce_day: s("17"),
        week_index: 5,
        date_status: s("O"),
        group_task: s("SECURITY"),
    };
    assert_eq!(
        c.to_string(),
        "9, \n            ce_date: 2024/05/17, \n            tw_date: 113/05/17, \n            date_status: O,\n            group_task: SECURITY\n            "
    );
}

#[test]
fn flow_text_pretty_prints_parameters() {
    let f = ListenFlow {
        row_id: s("1"),
        flow_code: s("price"),
        flow_param1: Some(s("2024")),
        flow_param2: None,
        flow_param3: None,
        flow_param4: None,
        flow_param5: None,
        pid: 77,
        pstatus: s("OPEN"),
    };
    let text = f.to_string();
    assert!(text.starts_with("price, \n            flow_param1: Some(\n    \"2024\",\n), \n            flow_param1: None"));
    assert!(text.ends_with("pid: 77\n            "));
}

#[test]
fn setting_text_pretty_prints_options() {
    let t = TaskSetting {
        row_id: None,
        group_code: Some(s("FIRST")),
        job_code: None,
        wait_type: None,
        wait_number: Some(-3),
        is_enabled: None,
        sort_no: Some(2),
    };
    let text = t.to_string();
    assert!(text.starts_with("None, \n            group_code: Some(\n    \"FIRST\",\n)"));
    assert!(text.contains("wait_number: Some(\n    -3,\n)"));
    assert!(text.ends_with("sort_no: Some(\n    2,\n)\n            "));
}

#[test]
fn reply_and_price_texts() {
    let r = ResponseData {
        row_id: s("2"),
        open_date_year: s("2024"),
        open_date_month: s("05"),
        open_date_day: s("01"),
        exec_code: s("2330"),
        data_content: s("{}"),
    };
    assert_eq!(
        r.to_string(),
        "2, \n            open_date: 20240501, \n            exec_code: 2330, \n            data_content: {}\n            "
    );
    let z = Decimal { unscaled: "0".to_string(), scale: 0 };
    let p = SecurityPrice {
        row_id: s("3"),
        open_date_year: s("2024"),
        open_date_month: s("05"),
        open_date_day: s("01"),
        security_code: s("2330"),
        security_name: s("台積電"),
        price_date: s("0113/05/02"),
        price_close: Decimal { unscaled: "78000".to_string(), scale: 2 },
        price_avg: Decimal { unscaled: "7755".to_string(), scale: 1 },
        price_hight: z.clone(),
        price_hight_avg: z.clone(),
        price_lowest: z,
        price_lowest_avg: Decimal { unscaled: "-15".to_string(), scale: 1 },
    };
    let text = p.to_string();
    assert!(text.contains("price_close: 780.00, \n            price_avg: 775.5,"));
    assert!(text.contains("price_hight: 0,"));
    assert!(text.contains("price_lowest_avg: -1.5,"));
}
