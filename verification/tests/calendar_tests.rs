use security_api::calendar::{
    add_next_year_plan, calendar_year, get_new_calendar_date, get_open_stock_date, get_open_stock_month,
    get_weekday, init_calendar_plan, init_years, insert_calendar_plan, last_day_in_month, needs_month_prices, valid_ymd,
};
use security_api::decimal::Decimal;
use security_api::records::SecurityPrice;

fn s(x: &str) -> String {
    x.to_string()
}

fn z() -> Decimal {
    Decimal { unscaled: "0".to_string(), scale: 0 }
}

fn priced(date: &str) -> SecurityPrice {
    SecurityPrice {
        row_id: s("1"),
        open_date_year: s("2024"),
        open_date_month: s("05"),
        open_date_day: s("01"),
        security_code: s("2330"),
        security_name: s("台積電"),
        price_date: s(date),
        price_close: Decimal { unscaled: "100".to_string(), scale: 0 },
        price_avg: z(),
        price_hight: z(),
        price_hight_avg: z(),
        price_lowest: z(),
        price_lowest_avg: z(),
    }
}

#[test]
fn last_day_of_each_kind_of_month() {
    assert_eq!(last_day_in_month(2024, 2), 29);
    assert_eq!(last_day_in_month(2023, 2), 28);
    assert_eq!(last_day_in_month(1900, 2), 28);
    assert_eq!(last_day_in_month(2000, 2), 29);
    assert_eq!(last_day_in_month(2024, 4), 30);
    assert_eq!(last_day_in_month(2024, 12), 31);
}

#[test]
fn weekdays_from_monday() {
    assert_eq!(get_weekday(2024, 5, 17), 5);
    assert_eq!(get_weekday(2024, 5, 18), 6);
    assert_eq!(get_weekday(2024, 5, 19), 7);
    assert_eq!(get_weekday(2024, 5, 20), 1);
    assert_eq!(get_weekday(2000, 1, 1), 6);
    assert_eq!(get_weekday(2024, 1, 1), 1);
}

#[test]
fn consecutive_days_step_through_the_week() {
    for day in 1..31u32 {
        let today = get_weekday(2024, 3, day);
        let tomorrow = get_weekday(2024, 3, day + 1);
        assert_eq!(tomorrow, today % 7 + 1);
    }
}

#[test]
fn priced_days_are_open_up_to_the_last_price() {
    let days = get_open_stock_date(2024, 5, &s("20240501"), &vec![priced("0113/05/01")]);
    assert_eq!(days.len(), 31);
    assert_eq!(days[0], (2024, 5, 1, 0));
    assert_eq!(days[1], (2024, 5, 2, 1));
    assert_eq!(days[2], (2024, 5, 3, 2));
    assert_eq!(days[3], (2024, 5, 4, -1));
    assert_eq!(days[4], (2024, 5, 5, -1));
    assert_eq!(days[5], (2024, 5, 6, 3));
    assert_eq!(days[30], (2024, 5, 31, 22));
}

#[test]
fn unpriced_day_before_the_last_price_is_closed() {
    let days = get_open_stock_date(2024, 5, &s("20240502"), &vec![priced("0113/05/02")]);
    assert_eq!(days[0], (2024, 5, 1, -1));
    assert_eq!(days[1], (2024, 5, 2, 0));
    assert_eq!(days[2], (2024, 5, 3, 1));
}

#[test]
fn open_days_are_numbered_without_gaps() {
    let days = get_open_stock_date(2024, 2, &s("20231231"), &vec![]);
    assert_eq!(days.len(), 29);
    let mut next = 0;
    for (k, day) in days.iter().enumerate() {
        assert_eq!(day.2 as usize, k + 1);
        if day.3 != -1 {
            assert_eq!(day.3, next);
            next += 1;
        }
    }
    assert_eq!(next, 21);
}

#[test]
fn month_prices_needed_only_for_the_month_of_the_last_price() {
    assert!(needs_month_prices(2024, 5, &s("20240517")));
    assert!(!needs_month_prices(2024, 6, &s("20240517")));
    assert!(!needs_month_prices(2023, 5, &s("20240517")));
}

#[test]
fn a_whole_year_month_after_month() {
    let mut monthly: Vec<Vec<SecurityPrice>> = (0..12).map(|_| Vec::new()).collect();
    monthly[4] = vec![priced("0113/05/01")];
    let days = get_open_stock_month(2024, &s("20240501"), &monthly);
    assert_eq!(days.len(), 366);
    assert_eq!(days[0], (2024, 1, 1, -1));
    assert_eq!(days[121], (2024, 5, 1, 0));
    assert_eq!(days[122], (2024, 5, 2, 1));
    assert_eq!(days[365].0, 2024);
    assert_eq!(days[365].1, 12);
    assert_eq!(days[365].2, 31);
}

#[test]
fn a_future_year_opens_on_weekdays() {
    let monthly: Vec<Vec<SecurityPrice>> = (0..12).map(|_| Vec::new()).collect();
    let days = get_open_stock_month(2025, &s("20241231"), &monthly);
    assert_eq!(days.len(), 365);
    assert_eq!(days[0], (2025, 1, 1, 0));
    assert_eq!(days[3], (2025, 1, 4, -1));
}

#[test]
fn calendar_row_of_a_day() {
    let row = get_new_calendar_date(2024, 5, 7, "O", "FIRST");
    assert_eq!(row.ce_year, "2024");
    assert_eq!(row.ce_month, "05");
    assert_eq!(row.ce_day, "07");
    assert_eq!(row.week_index, 2);
    assert_eq!(row.date_status, "O");
    assert_eq!(row.group_task, "FIRST");
}

#[test]
fn first_fill_classes_around_the_start_point() {
    let days = vec![(2024, 5, 16, -1), (2024, 5, 16, 0), (2024, 5, 16, 3), (2024, 5, 17, 0), (2024, 5, 17, 2)];
    let rows = init_calendar_plan(&days);
    let classes: Vec<(String, String)> = rows.iter().map(|r| (r.date_status.clone(), r.group_task.clone())).collect();
    assert_eq!(
        classes,
        vec![
            (s("S"), s("STOP")),
            (s("O"), s("FIRST_INIT")),
            (s("O"), s("INIT")),
            (s("O"), s("FIRST")),
            (s("O"), s("SECURITY")),
        ]
    );
    assert_eq!(rows[4].ce_day, "17");
    assert_eq!(rows[4].week_index, 5);
}

#[test]
fn added_year_classes() {
    let rows = insert_calendar_plan(&vec![(2025, 1, 1, 0), (2025, 1, 2, 1), (2025, 1, 4, -1)]);
    assert_eq!(rows.len(), 3);
    assert_eq!((rows[0].date_status.as_str(), rows[0].group_task.as_str()), ("O", "FRIST"));
    assert_eq!((rows[1].date_status.as_str(), rows[1].group_task.as_str()), ("O", "SECURITY"));
    assert_eq!((rows[2].date_status.as_str(), rows[2].group_task.as_str()), ("S", "STOP"));
    assert_eq!(rows[2].week_index, 6);
}

#[test]
fn next_year_is_planned_on_the_first_of_october() {
    assert_eq!(add_next_year_plan(10, 1), vec![true, false]);
    assert_eq!(add_next_year_plan(10, 2), vec![false]);
    assert_eq!(add_next_year_plan(1, 1), vec![false]);
    assert_eq!(calendar_year(2024, true), 2025);
    assert_eq!(calendar_year(2024, false), 2024);
}

#[test]
fn first_fill_years() {
    assert_eq!(init_years(2001), vec![1999, 2000, 2001]);
    assert_eq!(init_years(1999), vec![1999]);
    assert!(init_years(1990).is_empty());
}

#[test]
fn dates_that_exist() {
    assert!(valid_ymd(2024, 2, 29));
    assert!(!valid_ymd(2023, 2, 29));
    assert!(!valid_ymd(2024, 13, 1));
    assert!(!valid_ymd(2024, 4, 31));
    assert!(!valid_ymd(2024, 1, 0));
    assert!(!valid_ymd(300000, 1, 1));
}
