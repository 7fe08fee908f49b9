use security_api::query::{listen_flow_find_all, task_setting_read_all, where_append, ListenFlowField, TaskSettingField};
use security_api::records::{ListenFlow, TaskSetting};

fn flow(code: &str, p1: Option<&str>, p2: Option<&str>, pid: i32) -> ListenFlow {
    ListenFlow {
        row_id: String::new(),
        flow_code: code.to_string(),
        flow_param1: p1.map(|x| x.to_string()),
        flow_param2: p2.map(|x| x.to_string()),
        flow_param3: None,
        flow_param4: None,
        flow_param5: None,
        pid,
        pstatus: String::new(),
    }
}

const FLOW_SELECT: &str = " \n        SELECT row_id\n             , flow_code\n             , flow_param1\n             , flow_param2\n             , flow_param3\n             , flow_param4\n             , flow_param5\n             , pid\n             , pstatus\n          FROM listen_flow\n    ";

#[test]
fn conditions_are_joined_and_numbered() {
    let mut index = 0;
    assert_eq!(where_append("flow_code", "=", &mut index), "  WHERE  flow_code = $1 ");
    assert_eq!(index, 1);
    assert_eq!(where_append("pid", "<>", &mut index), "  AND  pid <> $2 ");
    assert_eq!(index, 2);
    let mut low = -3;
    assert_eq!(where_append("pid", "=", &mut low), "  WHERE  pid = $-2 ");
    assert_eq!(low, -2);
}

#[test]
fn unfiltered_flow_read() {
    let q = listen_flow_find_all(&flow("", None, None, 0));
    assert!(q.binds.is_empty());
    assert_eq!(q.sql, format!("{}ORDER BY pid, created_date", FLOW_SELECT));
}

#[test]
fn flow_read_filters_in_column_order() {
    let q = listen_flow_find_all(&flow("get_web_price", Some("2024"), Some("05"), 42));
    assert_eq!(
        q.binds,
        vec![ListenFlowField::FlowCode, ListenFlowField::FlowParam1, ListenFlowField::FlowParam2, ListenFlowField::Pid]
    );
    assert_eq!(
        q.sql,
        format!(
            "{}  WHERE  flow_code = $1   AND  flow_param1 = $2   AND  flow_param2 = $3   AND  pid = $4 ORDER BY pid, created_date",
            FLOW_SELECT
        )
    );
}

#[test]
fn negative_pid_is_no_filter() {
    let q = listen_flow_find_all(&flow("x", None, None, -1));
    assert_eq!(q.binds, vec![ListenFlowField::FlowCode]);
}

#[test]
fn task_setting_read_filters() {
    let all = TaskSetting {
        row_id: None,
        group_code: None,
        job_code: None,
        wait_type: None,
        wait_number: None,
        is_enabled: None,
        sort_no: None,
    };
    let q = task_setting_read_all(&all);
    assert!(q.binds.is_empty());
    assert!(q.sql.ends_with("FROM task_setting\n    "));
    let some = TaskSetting { group_code: Some("FIRST".to_string()), is_enabled: Some(1), sort_no: Some(3), ..all };
    let q = task_setting_read_all(&some);
    assert_eq!(q.binds, vec![TaskSettingField::GroupCode, TaskSettingField::IsEnabled]);
    assert!(q.sql.ends_with("FROM task_setting\n      WHERE  group_code = $1   AND  is_enabled = $2 "));
}

#[test]
fn successive_conditions_number_in_call_order() {
    let mut index = 0;
    let clauses: Vec<String> = (0..12).map(|k| where_append(&format!("f{}", k), "=", &mut index)).collect();
    assert_eq!(index, 12);
    assert_eq!(clauses.iter().filter(|c| c.contains("WHERE")).count(), 1);
    assert_eq!(clauses[0], "  WHERE  f0 = $1 ");
    assert_eq!(clauses[9], "  AND  f9 = $10 ");
    assert_eq!(clauses[11], "  AND  f11 = $12 ");
}
