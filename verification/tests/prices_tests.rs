use security_api::decimal::Decimal;
use security_api::prices::{
    get_calculator_max_avg, get_calculator_min_avg, get_calculator_to_price, get_security_price,
    get_security_to_price, history_ready, loop_data_calculator, loop_data_price, loop_data_res,
};
use security_api::records::{ResposePrice, SecurityPrice};

fn s(x: &str) -> String {
    x.to_string()
}

fn d(digits: i128, scale: i64) -> Decimal {
    Decimal { unscaled: digits.to_string(), scale }
}

fn same(a: Decimal, b: Decimal) -> bool {
    a.unscaled == b.unscaled && a.scale == b.scale
}

fn reply(market: &str) -> ResposePrice {
    ResposePrice {
        open_date_year: s("2024"),
        open_date_month: s("05"),
        open_date_day: s("17"),
        security_code: s("2330"),
        security_name: s("台積電"),
        market_type: s(market),
        data_content: s("{}"),
    }
}

fn rows(data: &[&[&str]]) -> Vec<Vec<String>> {
    data.iter().map(|r| r.iter().map(|c| c.to_string()).collect()).collect()
}

fn price(date: &str, close: Decimal) -> SecurityPrice {
    SecurityPrice {
        row_id: s("1"),
        open_date_year: s("2024"),
        open_date_month: s("05"),
        open_date_day: s("17"),
        security_code: s("2330"),
        security_name: s("台積電"),
        price_date: s(date),
        price_close: close,
        price_avg: d(0, 0),
        price_hight: d(0, 0),
        price_hight_avg: d(0, 0),
        price_lowest: d(0, 0),
        price_lowest_avg: d(0, 0),
    }
}

#[test]
fn new_price_row_pads_dates_but_not_the_average_label() {
    let p = loop_data_price(s("13/05/02"), d(78000, 2), &reply("上市")).unwrap();
    assert_eq!(p.price_date, "0013/05/02");
    assert_eq!(p.row_id, "");
    assert_eq!(p.security_code, "2330");
    assert!(same(p.price_close.clone(), d(78000, 2)));
    assert!(same(p.price_avg.clone(), d(0, 0)));
    let avg = loop_data_price(s("月平均收盤價"), d(1, 0), &reply("上市")).unwrap();
    assert_eq!(avg.price_date, "月平均收盤價");
    assert!(loop_data_price(s("113/05/02"), d(0, 2), &reply("上市")).is_none());
    assert!(loop_data_price(s("113/05/02"), d(-5, 0), &reply("上市")).is_none());
}

#[test]
fn reply_rows_become_price_rows_by_market_column() {
    let twse = rows(&[&[" 113/05/02＊", "1,780.00"], &["113/05/03", "--"], &["113/05/06", "0"]]);
    let out = loop_data_res(&reply("上市"), &twse);
    assert_eq!(out.len(), 1);
    assert_eq!(out[0].price_date, "0113/05/02");
    assert!(same(out[0].price_close.clone(), d(178000, 2)));
    let otc = rows(&[&["113/05/02", "", "", "", "", "", "55.5"]]);
    assert_eq!(loop_data_res(&reply("上櫃"), &otc).len(), 1);
    let emerging = rows(&[&["113/05/02", "", "", "", "", "12"]]);
    assert_eq!(loop_data_res(&reply("興櫃"), &emerging).len(), 1);
    assert_eq!(loop_data_res(&reply("其他"), &twse).len(), 0);
}

#[test]
fn reload_plan_per_reply() {
    let plan = get_security_to_price(
        &vec![reply("上市"), reply("興櫃")],
        &vec![0, 3],
        &vec![rows(&[&["113/05/02", "10"]]), rows(&[&["113/05/02", "", "", "", "", "12"]])],
    )
    .unwrap();
    assert_eq!(plan.len(), 2);
    assert!(!plan[0].remove_existing);
    assert!(plan[1].remove_existing);
    assert_eq!(plan[0].records.len(), 1);
    assert_eq!(plan[1].records.len(), 1);
}

#[test]
fn reload_refused_when_a_numeric_cell_is_no_decimal() {
    let bad = get_security_to_price(&vec![reply("上市")], &vec![0], &vec![rows(&[&["113/05/02", "1.2.3"]])]);
    assert!(bad.is_none());
    let short = get_security_to_price(&vec![reply("上市")], &vec![0], &vec![rows(&[&["113/05/02"]])]);
    assert!(short.is_none());
}

#[test]
fn statistics_of_a_history() {
    let history = vec![
        price("113/05/02", d(10, 0)),
        price("113/05/03", d(20, 0)),
        price("113/05/06", d(25, 0)),
        price("113/05/07", d(250, 1)),
    ];
    let row = price("113/05/07", d(250, 1));
    let r = loop_data_calculator(&row, &history);
    assert!(same(r.price_avg.clone(), d(200000, 4)));
    assert!(same(r.price_hight.clone(), d(250, 1)));
    assert!(same(r.price_hight_avg.clone(), d(250000, 4)));
    assert!(same(r.price_lowest.clone(), d(10, 0)));
    assert!(same(r.price_lowest_avg.clone(), d(100000, 4)));
    assert_eq!(r.price_date, "113/05/07");
    let (max, _) = get_calculator_max_avg(&d(15, 0), &history);
    assert!(same(max, d(250, 1)));
    let (min, below) = get_calculator_min_avg(&d(21, 0), &history);
    assert!(same(min, d(10, 0)));
    assert!(same(below, d(150000, 4)));
}

#[test]
fn statistics_law_lowest_below_mean_below_highest() {
    let history = vec![price("a", d(101, 1)), price("b", d(99, 1)), price("c", d(1003, 2)), price("d", d(97, 1))];
    let r = loop_data_calculator(&history[0], &history);
    let v = |x: &Decimal| x.unscaled.parse::<f64>().unwrap() / 10f64.powi(x.scale as i32);
    assert!(v(&r.price_lowest) < v(&r.price_avg));
    assert!(v(&r.price_avg) < v(&r.price_hight));
    for p in &history {
        let c = v(&p.price_close);
        if c > v(&r.price_avg) {
            assert!(c <= v(&r.price_hight));
        }
        if c < v(&r.price_avg) {
            assert!(c >= v(&r.price_lowest));
        }
    }
}

#[test]
fn month_statistics_and_row_update() {
    let history = vec![price("a", d(1, 0)), price("b", d(3, 0))];
    let month = vec![price("a", d(1, 0))];
    let out = get_calculator_to_price(&month, &vec![history]);
    assert_eq!(out.len(), 1);
    assert!(same(out[0].price_avg.clone(), d(20000, 4)));
    assert!(same(out[0].price_hight.clone(), d(3, 0)));
    assert!(same(out[0].price_lowest.clone(), d(1, 0)));
    let copy = get_security_price(&month[0], d(1, 0), d(2, 0), d(3, 0), d(4, 0), d(5, 0));
    assert!(same(copy.price_lowest_avg.clone(), d(5, 0)));
    assert_eq!(copy.price_date, "a");
}

#[test]
fn history_ready_needs_prices_on_both_sides_of_the_mean() {
    assert!(history_ready(&vec![price("a", d(1, 0)), price("b", d(3, 0))]));
    assert!(!history_ready(&vec![price("a", d(2, 0)), price("b", d(20, 1))]));
    assert!(!history_ready(&vec![price("a", d(2, 0))]));
    assert!(!history_ready(&vec![]));
    assert!(history_ready(&vec![price("a", d(1, 0)), price("b", d(1, 11))]));
    let mut bad = price("c", d(5, 0));
    bad.price_close.unscaled = s("5x");
    assert!(!history_ready(&vec![price("a", d(1, 0)), bad]));
}

#[test]
fn reload_keeps_large_and_finely_scaled_prices() {
    let data = rows(&[&["113/05/02", "123,456,789,012,345,678.5"], &["113/05/03", "0.000000000001"]]);
    let plan = get_security_to_price(&vec![reply("上市")], &vec![0], &vec![data]).unwrap();
    assert_eq!(plan[0].records.len(), 2);
    assert!(same(plan[0].records[0].price_close.clone(), Decimal { unscaled: s("1234567890123456785"), scale: 1 }));
    assert!(same(plan[0].records[1].price_close.clone(), d(1, 12)));
}

#[test]
fn statistics_of_large_prices() {
    let e = |u: &str| Decimal { unscaled: s(u), scale: 0 };
    let history = vec![
        price("a", e("100000000000000000000000")),
        price("b", e("300000000000000000000000")),
        price("c", e("500000000000000000000000")),
    ];
    let r = loop_data_calculator(&history[0], &history);
    assert!(same(r.price_avg.clone(), Decimal { unscaled: s("3000000000000000000000000000"), scale: 4 }));
    assert!(same(r.price_hight.clone(), e("500000000000000000000000")));
    assert!(same(r.price_lowest.clone(), e("100000000000000000000000")));
}

#[test]
fn side_means_lie_between_extremes_and_mean() {
    let history = vec![
        price("a", d(101, 1)),
        price("b", d(99, 1)),
        price("c", d(1003, 2)),
        price("d", d(97, 1)),
        price("e", d(98765, 4)),
    ];
    let r = loop_data_calculator(&history[0], &history);
    assert!(same(r.price_avg.clone(), d(99213, 4)));
    assert!(same(r.price_hight_avg.clone(), d(100650, 4)));
    assert!(same(r.price_lowest_avg.clone(), d(98255, 4)));
    let v = |x: &Decimal| x.unscaled.parse::<f64>().unwrap() / 10f64.powi(x.scale as i32);
    assert!(v(&r.price_lowest) <= v(&r.price_lowest_avg));
    assert!(v(&r.price_lowest_avg) < v(&r.price_avg));
    assert!(v(&r.price_avg) < v(&r.price_hight_avg));
    assert!(v(&r.price_hight_avg) <= v(&r.price_hight));
}

fn key(p: &SecurityPrice) -> (String, String, String) {
    (p.open_date_year.clone(), p.open_date_month.clone(), p.security_code.clone())
}

fn run_reload(table: &mut Vec<SecurityPrice>, replies: &Vec<ResposePrice>, data: &Vec<Vec<Vec<String>>>) {
    for (i, r) in replies.iter().enumerate() {
        let k = (r.open_date_year.clone(), r.open_date_month.clone(), r.security_code.clone());
        let count = table.iter().filter(|p| key(p) == k).count();
        let plan = get_security_to_price(&vec![r.clone()], &vec![count], &vec![data[i].clone()]).unwrap();
        if plan[0].remove_existing {
            table.retain(|p| key(p) != k);
        }
        table.extend(plan[0].records.iter().cloned());
    }
}

fn summary(table: &Vec<SecurityPrice>) -> Vec<(String, String, String)> {
    table.iter().map(|p| (p.security_code.clone(), p.price_date.clone(), p.price_close.unscaled.clone())).collect()
}

#[test]
fn reloading_twice_leaves_the_table_as_once() {
    let mut other = price("0113/05/02", d(5, 0));
    other.security_code = s("1101");
    let stale = price("0113/04/30", d(7, 0));
    let mut table = vec![other, stale];
    let replies = vec![reply("上市")];
    let data = vec![rows(&[&["113/05/02", "10"], &["113/05/03", "11.5"]])];
    run_reload(&mut table, &replies, &data);
    let once = summary(&table);
    assert_eq!(
        once,
        vec![(s("1101"), s("0113/05/02"), s("5")), (s("2330"), s("0113/05/02"), s("10")), (s("2330"), s("0113/05/03"), s("115"))]
    );
    run_reload(&mut table, &replies, &data);
    assert_eq!(summary(&table), once);
}
