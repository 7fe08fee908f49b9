use security_api::exchange::{
    close_rows_ready, get_close_price, get_tpex_price, get_twse_price, remove_commas, run_task_log, tw_year_month,
    SecurityPriceTpex, SecurityPriceTpexTable, SecurityPriceTwse,
};
use security_api::records::SecurityTask;

fn s(x: &str) -> String {
    x.to_string()
}

fn rows(data: &[&[&str]]) -> Vec<Vec<String>> {
    data.iter().map(|r| r.iter().map(|c| c.to_string()).collect()).collect()
}

fn task() -> SecurityTask {
    SecurityTask {
        row_id: s("7"),
        open_date_year: s("2024"),
        open_date_month: s("05"),
        open_date_day: s("17"),
        security_code: s("2330"),
        security_name: s("台積電"),
        market_type: s("上市"),
        issue_date: s("1994/09/05"),
        exec_seed: s("0000000000042"),
        exec_count: 0,
        is_enabled: 1,
        sort_no: 3,
    }
}

#[test]
fn close_prices_of_the_month_only() {
    let data = rows(&[
        &[" 113/05/02", "1,234.50"],
        &["113/04/30", "99.00"],
        &["113/05/03", "0.00"],
        &["113/05/06", "--"],
        &["113/05/07", "800"],
    ]);
    let kept = get_close_price(&data, &s("113/05"), 0, 1);
    assert_eq!(kept, rows(&[&[" 113/05/02", "1234.50"], &["113/05/07", "800"]]));
}

#[test]
fn close_rows_law_two_cells_month_positive() {
    let data = rows(&[&["113/05/02", "12", "x"], &["113/05/03", "1,0", "y"], &["112/05/03", "5", "z"]]);
    let kept = get_close_price(&data, &s("113/05"), 0, 1);
    for row in &kept {
        assert_eq!(row.len(), 2);
        assert!(row[0].trim().starts_with("113/05"));
        assert!(!row[1].contains(','));
    }
    assert_eq!(kept.len(), 2);
}

#[test]
fn twse_reply_kept_when_ok_and_priced() {
    let reply = SecurityPriceTwse {
        stat: s("OK"),
        date: Some(s("20240517")),
        title: Some(s("113年05月 2330 台積電 各日收盤價及月平均收盤價")),
        fields: Some(vec![s("日期"), s("收盤價")]),
        data: Some(rows(&[&["113/05/02", "780.00"], &["月平均收盤價", "800.00"]])),
        notes: None,
        hints: None,
    };
    let kept = get_twse_price(reply, s("113/05"), 0, 1).unwrap();
    assert_eq!(kept.status, "Y");
    assert_eq!(kept.date, "20240517");
    assert_eq!(kept.fields, vec![s("日期"), s("收盤價")]);
    assert_eq!(kept.data, rows(&[&["113/05/02", "780.00"]]));
}

#[test]
fn twse_reply_refused_when_not_ok_or_empty() {
    let not_ok = SecurityPriceTwse {
        stat: s("很抱歉，沒有符合條件的資料!"),
        date: None,
        title: None,
        fields: None,
        data: Some(rows(&[&["113/05/02", "780.00"]])),
        notes: None,
        hints: None,
    };
    assert!(get_twse_price(not_ok, s("113/05"), 0, 1).is_none());
    let no_rows = SecurityPriceTwse {
        stat: s("OK"),
        date: None,
        title: None,
        fields: None,
        data: None,
        notes: None,
        hints: None,
    };
    assert!(get_twse_price(no_rows, s("113/05"), 0, 1).is_none());
}

fn tpex(total_count: u32, data: Vec<Vec<String>>) -> SecurityPriceTpex {
    SecurityPriceTpex {
        tables: vec![SecurityPriceTpexTable {
            title: s("個股日成交資訊"),
            subtitle: s("6488 環球晶"),
            data,
            date: s("20240517"),
            total_count,
            fields: vec![s("日 期"), s("收盤")],
            notes: vec![],
            summary: None,
        }],
        stat: s("ok"),
        date: s("20240517"),
        code: None,
        name: None,
        show_list_price_note: None,
        show_list_price_link: None,
    }
}

#[test]
fn tpex_reply_uses_first_table() {
    let table = rows(&[&["113/05/02", "a", "b", "c", "d", "e", "1,021.00"]]);
    let kept = get_tpex_price(tpex(1, table.clone()), s("113/05"), 0, 6).unwrap();
    assert_eq!(kept.status, "Y");
    assert_eq!(kept.title, "6488 環球晶");
    assert_eq!(kept.data, rows(&[&["113/05/02", "1021.00"]]));
    assert!(get_tpex_price(tpex(0, table), s("113/05"), 0, 6).is_none());
    let mut empty = tpex(1, vec![]);
    empty.tables.clear();
    assert!(get_tpex_price(empty, s("113/05"), 0, 6).is_none());
}

#[test]
fn roc_month_and_log_line() {
    assert_eq!(tw_year_month(&s("2024"), &s("05")), "113/05");
    assert_eq!(tw_year_month(&s("1911"), &s("1")), "0/1");
    assert_eq!(run_task_log(&task()), "send [ 20240517: 上市(2330) ]");
    assert_eq!(remove_commas(&s("1,234,567.8")), "1234567.8");
}

#[test]
fn rows_ready_when_the_cells_read_exist() {
    let ym = s("113/05");
    assert!(close_rows_ready(&rows(&[&["113/05/02", "10"], &["112/12/01"]]), &ym, 0, 1));
    assert!(!close_rows_ready(&rows(&[&[" 113/05/02 "]]), &ym, 0, 1));
    assert!(!close_rows_ready(&vec![Vec::<String>::new()], &ym, 0, 1));
    assert!(close_rows_ready(&vec![], &ym, 0, 6));
}
