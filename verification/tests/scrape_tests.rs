use security_api::records::DailyTask;
use security_api::scrape::{loop_data_temp, parse_table_data, security_page_text, security_table_html, table_rows};

fn s(x: &str) -> String {
    x.to_string()
}

fn daily() -> DailyTask {
    DailyTask {
        row_id: s("3"),
        open_date_year: s("2024"),
        open_date_month: s("05"),
        open_date_day: s("17"),
        job_code: s("res_to_temp"),
        exec_status: s("OPEN"),
    }
}

const PAGE: &str = "<html><body><h2>list</h2><table class=\"h4\">\n  <tr>\n    <td>code</td>\n  </tr>\n  <tr>\n    <td>2330</td>\n  </tr>\n</table></body></html>";

#[test]
fn listing_table_located_and_compacted() {
    let table = security_table_html(&s(PAGE)).unwrap();
    assert!(table.starts_with("<table"));
    assert!(table.ends_with("</table>"));
    assert!(table.contains("<td>2330</td>"));
    assert!(table.contains("<tr><td>2330</td></tr>"));
    assert!(!table.contains("<h2>"));
}

#[test]
fn page_without_listing_table() {
    assert!(security_table_html(&s("<html><body><table class=\"h3\"><tr><td>x</td></tr></table></body></html>")).is_none());
    assert!(security_table_html(&s("")).is_none());
}

#[test]
fn big5_page_decoded_and_cleaned() {
    let html = "<html><body><table class=\"h4\"><tr><td>上市</td><td>A&amp;B＊</td></tr></table></body></html>";
    let (bytes, _, failed) = encoding_rs::BIG5.encode(html);
    assert!(!failed);
    let text = security_page_text(&bytes).unwrap();
    assert!(text.contains("<td>上市</td>"));
    assert!(text.contains("<td>A&B</td>"));
    assert!(security_page_text(b"<html><body>none</body></html>").is_none());
}

#[test]
fn body_rows_after_the_header() {
    let table = "<table><tr><td>h1</td><td>h2</td></tr><tr><td> 1 </td><td>A&amp;B*</td></tr><tr><td>2</td></tr></table>";
    let rows = table_rows(table).unwrap();
    assert_eq!(rows, vec![vec![s("1"), s("A&B")], vec![s("2")]]);
    assert_eq!(parse_table_data(table), rows);
    assert!(table_rows("<p>no rows</p>").is_none());
    assert_eq!(table_rows("<table><tr><td>only header</td></tr></table>").unwrap().len(), 0);
}

#[test]
fn listing_row_to_security() {
    let row: Vec<String> = ["", "TW0002330008", "2330", "台積電", "上市", "股票", "半導體業", "1994/09/05", "ESVUFR", "note"]
        .iter()
        .map(|c| s(c))
        .collect();
    let t = loop_data_temp(&row, &daily());
    assert_eq!(t.row_id, "");
    assert_eq!(t.open_date_day, "17");
    assert_eq!(t.international_code, "TW0002330008");
    assert_eq!(t.security_code, "2330");
    assert_eq!(t.security_name, "台積電");
    assert_eq!(t.market_type, "上市");
    assert_eq!(t.security_type, "股票");
    assert_eq!(t.industry_type, "半導體業");
    assert_eq!(t.issue_date, "1994/09/05");
    assert_eq!(t.cfi_code, "ESVUFR");
    assert_eq!(t.remark, "note");
    let short = loop_data_temp(&vec![s("x"), s("TW1")], &daily());
    assert_eq!(short.international_code, "TW1");
    assert_eq!(short.security_code, "");
    assert_eq!(short.remark, "");
}
