//! Rows of the collector's tables, as the verified logic reads and builds them.

use vstd::prelude::*;
use crate::decimal::{big_decimal_rendering, decimal_to_string, wf, Decimal};
use crate::fmt::{zero_padded, zero_padded_chars};
use crate::text::{chars_of, parse_i32, parsed_i32, push_chars, push_str, string_from_chars};

verus! {

/// One day of the trading calendar.
#[derive(Clone, Debug)]
pub struct CalendarData {
    pub row_id: String,
    pub ce_year: String,
    pub ce_month: String,
    pub ce_day: String,
    pub week_index: i32,
    pub date_status: String,
    pub group_task: String,
}

/// A calendar day about to be inserted (its timestamps are set on insert).
#[derive(Clone, Debug)]
pub struct NewCalendarData {
    pub ce_year: String,
    pub ce_month: String,
    pub ce_day: String,
    pub week_index: i32,
    pub date_status: String,
    pub group_task: String,
}

/// One job scheduled on one trading day.
#[derive(Clone, Debug)]
pub struct DailyTask {
    pub row_id: String,
    pub open_date_year: String,
    pub open_date_month: String,
    pub open_date_day: String,
    pub job_code: String,
    pub exec_status: String,
}

/// A lock row telling which process works on which month of which flow.
#[derive(Clone, Debug)]
pub struct ListenFlow {
    pub row_id: String,
    pub flow_code: String,
    pub flow_param1: Option<String>,
    pub flow_param2: Option<String>,
    pub flow_param3: Option<String>,
    pub flow_param4: Option<String>,
    pub flow_param5: Option<String>,
    pub pid: i32,
    pub pstatus: String,
}

/// A raw reply kept from an exchange web site.
#[derive(Clone, Debug)]
pub struct ResponseData {
    pub row_id: String,
    pub open_date_year: String,
    pub open_date_month: String,
    pub open_date_day: String,
    pub exec_code: String,
    pub data_content: String,
}

/// One security to fetch prices for on one trading day.
#[derive(Clone, Debug)]
pub struct SecurityTask {
    pub row_id: String,
    pub open_date_year: String,
    pub open_date_month: String,
    pub open_date_day: String,
    pub security_code: String,
    pub security_name: String,
    pub market_type: String,
    pub issue_date: String,
    pub exec_seed: String,
    pub exec_count: i32,
    pub is_enabled: i32,
    pub sort_no: i32,
}

/// One row of the exchange's listing of securities.
#[derive(Clone, Debug)]
pub struct SecurityTemp {
    pub row_id: String,
    pub open_date_year: String,
    pub open_date_month: String,
    pub open_date_day: String,
    pub international_code: String,
    pub security_code: String,
    pub security_name: String,
    pub market_type: String,
    pub security_type: String,
    pub industry_type: String,
    pub issue_date: String,
    pub cfi_code: String,
    pub remark: String,
}

/// Which jobs run for which calendar group.
#[derive(Clone, Debug)]
pub struct TaskSetting {
    pub row_id: Option<String>,
    pub group_code: Option<String>,
    pub job_code: Option<String>,
    pub wait_type: Option<String>,
    pub wait_number: Option<i32>,
    pub is_enabled: Option<i32>,
    pub sort_no: Option<i32>,
}

/// A closing price of one security and the statistics derived from its history.
#[derive(Clone, Debug)]
pub struct SecurityPrice {
    pub row_id: String,
    pub open_date_year: String,
    pub open_date_month: String,
    pub open_date_day: String,
    pub security_code: String,
    pub security_name: String,
    pub price_date: String,
    pub price_close: Decimal,
    pub price_avg: Decimal,
    pub price_hight: Decimal,
    pub price_hight_avg: Decimal,
    pub price_lowest: Decimal,
    pub price_lowest_avg: Decimal,
}

/// A stored exchange reply joined with the task it answered.
#[derive(Clone, Debug)]
pub struct ResposePrice {
    pub open_date_year: String,
    pub open_date_month: String,
    pub open_date_day: String,
    pub security_code: String,
    pub security_name: String,
    pub market_type: String,
    pub data_content: String,
}

/// The database dump job.
pub struct DatabaseBackup;


/// What `{:?}` prints for a string: the text quoted, with escapes.
pub uninterp spec fn debug_quoted(s: Seq<char>) -> Seq<char>;

/// `format!("{:?}", s)`.
/// Claimed: the result is [`debug_quoted`] of the text.
#[verifier::external_body]
fn debug_string(s: &str) -> (r: String)
    ensures
        r@ == debug_quoted(s@),
{
    format!("{:?}", s)
}

/// What `{:#?}` prints for an optional string.
pub open spec fn pretty_opt_str(o: Option<String>) -> Seq<char> {
    match o {
        Some(s) => "Some(\n    "@ + debug_quoted(s@) + ",\n)"@,
        None => "None"@,
    }
}

/// What `{:#?}` prints for an optional integer.
pub open spec fn pretty_opt_i32(o: Option<i32>) -> Seq<char> {
    match o {
        Some(v) => "Some(\n    "@ + zero_padded(v as int, 0) + ",\n)"@,
        None => "None"@,
    }
}

fn push_pretty_opt_str(out: &mut Vec<char>, o: &Option<String>)
    ensures
        final(out)@ == old(out)@ + pretty_opt_str(*o),
{
    match o {
        Some(s) => {
            push_str(out, "Some(\n    ");
            push_str(out, debug_string(s.as_str()).as_str());
            push_str(out, ",\n)");
        },
        None => push_str(out, "None"),
    }
}

fn push_pretty_opt_i32(out: &mut Vec<char>, o: &Option<i32>)
    ensures
        final(out)@ == old(out)@ + pretty_opt_i32(*o),
{
    match o {
        Some(v) => {
            push_str(out, "Some(\n    ");
            push_chars(out, &zero_padded_chars(*v as i64, 0));
            push_str(out, ",\n)");
        },
        None => push_str(out, "None"),
    }
}

impl CalendarData {
    /// The text form used in the logs.
    pub open spec fn text(&self) -> Seq<char> {
        self.row_id@ + ", \n            ce_date: "@ + self.ce_year@ + "/"@ + self.ce_month@ + "/"@ + self.ce_day@ + ", \n            tw_date: "@ + zero_padded(parsed_i32(self.ce_year@).unwrap() - 1911, 0) + "/"@ + self.ce_month@ + "/"@ + self.ce_day@ + ", \n            date_status: "@ + self.date_status@ + ",\n            group_task: "@ + self.group_task@ + "\n            "@
    }

    /// The text form used in the logs (see [`CalendarData::text`]).
    pub fn to_string(&self) -> (r: String)
        requires
            parsed_i32(self.ce_year@) matches Some(y) && y >= i32::MIN + 1911,
        ensures
            r@ == self.text(),
    {
        let year = parse_i32(&chars_of(self.ce_year.as_str())).unwrap();
        let mut out: Vec<char> = Vec::new();
        push_str(&mut out, self.row_id.as_str());
        push_str(&mut out, ", \n            ce_date: ");
        push_str(&mut out, self.ce_year.as_str());
        push_str(&mut out, "/");
        push_str(&mut out, self.ce_month.as_str());
        push_str(&mut out, "/");
        push_str(&mut out, self.ce_day.as_str());
        push_str(&mut out, ", \n            tw_date: ");
        push_chars(&mut out, &zero_padded_chars((year - 1911) as i64, 0));
        push_str(&mut out, "/");
        push_str(&mut out, self.ce_month.as_str());
        push_str(&mut out, "/");
        push_str(&mut out, self.ce_day.as_str());
        push_str(&mut out, ", \n            date_status: ");
        push_str(&mut out, self.date_status.as_str());
        push_str(&mut out, ",\n            group_task: ");
        push_str(&mut out, self.group_task.as_str());
        push_str(&mut out, "\n            ");
        assert(out@ =~= self.text());
        string_from_chars(&out)
    }
}

impl DailyTask {
    /// The text form used in the logs.
    pub open spec fn text(&self) -> Seq<char> {
        self.row_id@ + ", open_date: "@ + self.open_date_year@ + self.open_date_month@ + self.open_date_day@ + ", job_code: "@ + self.job_code@ + ", exec_status: "@ + self.exec_status@
    }

    /// The text form used in the logs (see [`DailyTask::text`]).
    pub fn to_string(&self) -> (r: String)
        ensures
            r@ == self.text(),
    {
        let mut out: Vec<char> = Vec::new();
        push_str(&mut out, self.row_id.as_str());
        push_str(&mut out, ", open_date: ");
        push_str(&mut out, self.open_date_year.as_str());
        push_str(&mut out, self.open_date_month.as_str());
        push_str(&mut out, self.open_date_day.as_str());
        push_str(&mut out, ", job_code: ");
        push_str(&mut out, self.job_code.as_str());
        push_str(&mut out, ", exec_status: ");
        push_str(&mut out, self.exec_status.as_str());
        assert(out@ =~= self.text());
        string_from_chars(&out)
    }
}

impl ListenFlow {
    /// The text form used in the logs.
    pub open spec fn text(&self) -> Seq<char> {
        self.flow_code@ + ", \n            flow_param1: "@ + pretty_opt_str(self.flow_param1) + ", \n            flow_param1: "@ + pretty_opt_str(self.flow_param2) + ", \n            flow_param1: "@ + pretty_opt_str(self.flow_param3) + ",\n            flow_param1: "@ + pretty_opt_str(self.flow_param4) + ",\n            flow_param1: "@ + pretty_opt_str(self.flow_param5) + ",\n            pid: "@ + zero_padded(self.pid as int, 0) + "\n            "@
    }

    /// The text form used in the logs (see [`ListenFlow::text`]).
    pub fn to_string(&self) -> (r: String)
        ensures
            r@ == self.text(),
    {
        let mut out: Vec<char> = Vec::new();
        push_str(&mut out, self.flow_code.as_str());
        push_str(&mut out, ", \n            flow_param1: ");
        push_pretty_opt_str(&mut out, &self.flow_param1);
        push_str(&mut out, ", \n            flow_param1: ");
        push_pretty_opt_str(&mut out, &self.flow_param2);
        push_str(&mut out, ", \n            flow_param1: ");
        push_pretty_opt_str(&mut out, &self.flow_param3);
        push_str(&mut out, ",\n            flow_param1: ");
        push_pretty_opt_str(&mut out, &self.flow_param4);
        push_str(&mut out, ",\n            flow_param1: ");
        push_pretty_opt_str(&mut out, &self.flow_param5);
        push_str(&mut out, ",\n            pid: ");
        push_chars(&mut out, &zero_padded_chars(self.pid as i64, 0));
        push_str(&mut out, "\n            ");
        assert(out@ =~= self.text());
        string_from_chars(&out)
    }
}

impl ResponseData {
    /// The text form used in the logs.
    pub open spec fn text(&self) -> Seq<char> {
        self.row_id@ + ", \n            open_date: "@ + self.open_date_year@ + self.open_date_month@ + self.open_date_day@ + ", \n            exec_code: "@ + self.exec_code@ + ", \n            data_content: "@ + self.data_content@ + "\n            "@
    }

    /// The text form used in the logs (see [`ResponseData::text`]).
    pub fn to_string(&self) -> (r: String)
        ensures
            r@ == self.text(),
    {
        let mut out: Vec<char> = Vec::new();
        push_str(&mut out, self.row_id.as_str());
        push_str(&mut out, ", \n            open_date: ");
        push_str(&mut out, self.open_date_year.as_str());
        push_str(&mut out, self.open_date_month.as_str());
        push_str(&mut out, self.open_date_day.as_str());
        push_str(&mut out, ", \n            exec_code: ");
        push_str(&mut out, self.exec_code.as_str());
        push_str(&mut out, ", \n            data_content: ");
        push_str(&mut out, self.data_content.as_str());
        push_str(&mut out, "\n            ");
        assert(out@ =~= self.text());
        string_from_chars(&out)
    }
}

impl SecurityTask {
    /// The text form used in the logs.
    pub open spec fn text(&self) -> Seq<char> {
        self.row_id@ + ", \n            open_date: "@ + self.open_date_year@ + self.open_date_month@ + self.open_date_day@ + ", \n            security_code: "@ + self.security_code@ + ", \n            security_name: "@ + self.security_name@ + ", \n            market_type: "@ + self.market_type@ + ", \n            issue_date: "@ + self.issue_date@ + ", \n            exec_seed: "@ + self.exec_seed@ + ", \n            exec_count: "@ + zero_padded(self.exec_count as int, 0) + ", \n            is_enabled: "@ + zero_padded(self.is_enabled as int, 0) + ", \n            sort_no: "@ + zero_padded(self.sort_no as int, 0) + "\n            "@
    }

    /// The text form used in the logs (see [`SecurityTask::text`]).
    pub fn to_string(&self) -> (r: String)
        ensures
            r@ == self.text(),
    {
        let mut out: Vec<char> = Vec::new();
        push_str(&mut out, self.row_id.as_str());
        push_str(&mut out, ", \n            open_date: ");
        push_str(&mut out, self.open_date_year.as_str());
        push_str(&mut out, self.open_date_month.as_str());
        push_str(&mut out, self.open_date_day.as_str());
        push_str(&mut out, ", \n            security_code: ");
        push_str(&mut out, self.security_code.as_str());
        push_str(&mut out, ", \n            security_name: ");
        push_str(&mut out, self.security_name.as_str());
        push_str(&mut out, ", \n            market_type: ");
        push_str(&mut out, self.market_type.as_str());
        push_str(&mut out, ", \n            issue_date: ");
        push_str(&mut out, self.issue_date.as_str());
        push_str(&mut out, ", \n            exec_seed: ");
        push_str(&mut out, self.exec_seed.as_str());
        push_str(&mut out, ", \n            exec_count: ");
        push_chars(&mut out, &zero_padded_chars(self.exec_count as i64, 0));
        push_str(&mut out, ", \n            is_enabled: ");
        push_chars(&mut out, &zero_padded_chars(self.is_enabled as i64, 0));
        push_str(&mut out, ", \n            sort_no: ");
        push_chars(&mut out, &zero_padded_chars(self.sort_no as i64, 0));
        push_str(&mut out, "\n            ");
        assert(out@ =~= self.text());
        string_from_chars(&out)
    }
}

impl SecurityTemp {
    /// The text form used in the logs.
    pub open spec fn text(&self) -> Seq<char> {
        self.row_id@ + ", \n            open_date: "@ + self.open_date_year@ + self.open_date_month@ + self.open_date_day@ + ", \n            international_code: "@ + self.international_code@ + ", \n            security_code: "@ + self.security_code@ + ", \n            security_name: "@ + self.security_name@ + ", \n            market_type: "@ + self.market_type@ + ", \n            security_type: "@ + self.security_type@ + ", \n            industry_type: "@ + self.industry_type@ + ", \n            issue_date: "@ + self.issue_date@ + ", \n            cfi_code: "@ + self.cfi_code@ + ", \n            remark: "@ + self.remark@ + ", \n            "@
    }

    /// The text form used in the logs (see [`SecurityTemp::text`]).
    pub fn to_string(&self) -> (r: String)
        ensures
            r@ == self.text(),
    {
        let mut out: Vec<char> = Vec::new();
        push_str(&mut out, self.row_id.as_str());
        push_str(&mut out, ", \n            open_date: ");
        push_str(&mut out, self.open_date_year.as_str());
        push_str(&mut out, self.open_date_month.as_str());
        push_str(&mut out, self.open_date_day.as_str());
        push_str(&mut out, ", \n            international_code: ");
        push_str(&mut out, self.international_code.as_str());
        push_str(&mut out, ", \n            security_code: ");
        push_str(&mut out, self.security_code.as_str());
        push_str(&mut out, ", \n            security_name: ");
        push_str(&mut out, self.security_name.as_str());
        push_str(&mut out, ", \n            market_type: ");
        push_str(&mut out, self.market_type.as_str());
        push_str(&mut out, ", \n            security_type: ");
        push_str(&mut out, self.security_type.as_str());
        push_str(&mut out, ", \n            industry_type: ");
        push_str(&mut out, self.industry_type.as_str());
        push_str(&mut out, ", \n            issue_date: ");
        push_str(&mut out, self.issue_date.as_str());
        push_str(&mut out, ", \n            cfi_code: ");
        push_str(&mut out, self.cfi_code.as_str());
        push_str(&mut out, ", \n            remark: ");
        push_str(&mut out, self.remark.as_str());
        push_str(&mut out, ", \n            ");
        assert(out@ =~= self.text());
        string_from_chars(&out)
    }
}

impl TaskSetting {
    /// The text form used in the logs.
    pub open spec fn text(&self) -> Seq<char> {
        pretty_opt_str(self.row_id) + ", \n            group_code: "@ + pretty_opt_str(self.group_code) + ", \n            job_code: "@ + pretty_opt_str(self.job_code) + ", \n            wait_type: "@ + pretty_opt_str(self.wait_type) + ", \n            wait_number: "@ + pretty_opt_i32(self.wait_number) + ", \n            is_enabled: "@ + pretty_opt_i32(self.is_enabled) + ",\n            sort_no: "@ + pretty_opt_i32(self.sort_no) + "\n            "@
    }

    /// The text form used in the logs (see [`TaskSetting::text`]).
    pub fn to_string(&self) -> (r: String)
        ensures
            r@ == self.text(),
    {
        let mut out: Vec<char> = Vec::new();
        push_pretty_opt_str(&mut out, &self.row_id);
        push_str(&mut out, ", \n            group_code: ");
        push_pretty_opt_str(&mut out, &self.group_code);
        push_str(&mut out, ", \n            job_code: ");
        push_pretty_opt_str(&mut out, &self.job_code);
        push_str(&mut out, ", \n            wait_type: ");
        push_pretty_opt_str(&mut out, &self.wait_type);
        push_str(&mut out, ", \n            wait_number: ");
        push_pretty_opt_i32(&mut out, &self.wait_number);
        push_str(&mut out, ", \n            is_enabled: ");
        push_pretty_opt_i32(&mut out, &self.is_enabled);
        push_str(&mut out, ",\n            sort_no: ");
        push_pretty_opt_i32(&mut out, &self.sort_no);
        push_str(&mut out, "\n            ");
        assert(out@ =~= self.text());
        string_from_chars(&out)
    }
}

/// Every amount of the row is well written.
pub open spec fn price_wf(p: SecurityPrice) -> bool {
    &&& wf(p.price_close) && wf(p.price_avg) && wf(p.price_hight) && wf(p.price_hight_avg)
    &&& wf(p.price_lowest) && wf(p.price_lowest_avg)
}

impl SecurityPrice {
    /// The text form used in the logs.
    pub open spec fn text(&self) -> Seq<char> {
        self.row_id@ + ", \n            open_date: "@ + self.open_date_year@ + self.open_date_month@ + self.open_date_day@ + ", \n            security_code: "@ + self.security_code@ + ", \n            security_name: "@ + self.security_name@ + ", \n            price_date: "@ + self.price_date@ + ", \n            price_close: "@ + big_decimal_rendering(self.price_close@.0, self.price_close@.1) + ", \n            price_avg: "@ + big_decimal_rendering(self.price_avg@.0, self.price_avg@.1) + ",\n            price_hight: "@ + big_decimal_rendering(self.price_hight@.0, self.price_hight@.1) + ",\n            price_hight_avg: "@ + big_decimal_rendering(self.price_hight_avg@.0, self.price_hight_avg@.1) + ",\n            price_lowest: "@ + big_decimal_rendering(self.price_lowest@.0, self.price_lowest@.1) + ",\n            price_lowest_avg: "@ + big_decimal_rendering(self.price_lowest_avg@.0, self.price_lowest_avg@.1) + ",\n            "@
    }

    /// The text form used in the logs (see [`SecurityPrice::text`]).
    pub fn to_string(&self) -> (r: String)
        requires
            price_wf(*self),
        ensures
            r@ == self.text(),
    {
        let mut out: Vec<char> = Vec::new();
        push_str(&mut out, self.row_id.as_str());
        push_str(&mut out, ", \n            open_date: ");
        push_str(&mut out, self.open_date_year.as_str());
        push_str(&mut out, self.open_date_month.as_str());
        push_str(&mut out, self.open_date_day.as_str());
        push_str(&mut out, ", \n            security_code: ");
        push_str(&mut out, self.security_code.as_str());
        push_str(&mut out, ", \n            security_name: ");
        push_str(&mut out, self.security_name.as_str());
        push_str(&mut out, ", \n            price_date: ");
        push_str(&mut out, self.price_date.as_str());
        push_str(&mut out, ", \n            price_close: ");
        push_str(&mut out, decimal_to_string(&self.price_close).as_str());
        push_str(&mut out, ", \n            price_avg: ");
        push_str(&mut out, decimal_to_string(&self.price_avg).as_str());
        push_str(&mut out, ",\n            price_hight: ");
        push_str(&mut out, decimal_to_string(&self.price_hight).as_str());
        push_str(&mut out, ",\n            price_hight_avg: ");
        push_str(&mut out, decimal_to_string(&self.price_hight_avg).as_str());
        push_str(&mut out, ",\n            price_lowest: ");
        push_str(&mut out, decimal_to_string(&self.price_lowest).as_str());
        push_str(&mut out, ",\n            price_lowest_avg: ");
        push_str(&mut out, decimal_to_string(&self.price_lowest_avg).as_str());
        push_str(&mut out, ",\n            ");
        assert(out@ =~= self.text());
        string_from_chars(&out)
    }
}

} // verus!
