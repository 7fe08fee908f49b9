//! Daily database dumps: whether today's dumps exist, and the `pg_dump` arguments.

use vstd::prelude::*;
use crate::calendar::LocalNow;
use crate::fmt::{decimal, decimal_chars, pad_left, pad_left_chars, zero_padded, zero_padded_chars};
use crate::records::DatabaseBackup;
use crate::text::{chars_of, has_prefix, push_chars, push_str, starts_with_chars, string_from_chars};

verus! {

/// `%Y` of a year: four digits from 0 to 9999, otherwise a sign and at
/// least four digits.
pub open spec fn year_stamp(y: int) -> Seq<char> {
    if 0 <= y < 10000 {
        zero_padded(y, 4)
    } else if y < 0 {
        seq!['-'] + pad_left(decimal((-y) as nat), '0', 4)
    } else {
        seq!['+'] + pad_left(decimal(y as nat), '0', 4)
    }
}

/// `%Y%m%d` of a date.
pub open spec fn date_stamp(now: LocalNow) -> Seq<char> {
    year_stamp(now.year as int) + zero_padded(now.month as int, 2) + zero_padded(now.day as int, 2)
}

/// `%Y%m%d_%H%M%S` of a moment.
pub open spec fn time_stamp(now: LocalNow) -> Seq<char> {
    date_stamp(now) + seq!['_'] + zero_padded(now.hour as int, 2) + zero_padded(now.minute as int, 2)
        + zero_padded(now.second as int, 2)
}

fn year_stamp_chars(y: i32) -> (r: Vec<char>)
    ensures
        r@ == year_stamp(y as int),
{
    if 0 <= y && y < 10000 {
        zero_padded_chars(y as i64, 4)
    } else {
        let sign = if y < 0 { '-' } else { '+' };
        let mag: u64 = if y < 0 { (0 - (y as i64)) as u64 } else { y as u64 };
        let mut out: Vec<char> = vec![sign];
        push_chars(&mut out, &pad_left_chars(&decimal_chars(mag), '0', 4));
        out
    }
}

fn date_stamp_chars(now: &LocalNow) -> (r: Vec<char>)
    ensures
        r@ == date_stamp(*now),
{
    let mut out = year_stamp_chars(now.year);
    push_chars(&mut out, &zero_padded_chars(now.month as i64, 2));
    push_chars(&mut out, &zero_padded_chars(now.day as i64, 2));
    out
}

/// The name prefix of today's dump of the given kind: `security_api_<kind>_backup_<YYYYMMDD>`.
pub open spec fn backup_prefix(kind: Seq<char>, now: LocalNow) -> Seq<char> {
    "security_api_"@ + kind + "_backup_"@ + date_stamp(now)
}

/// Some file name starts with the prefix.
pub open spec fn any_starts_with(names: Seq<Seq<char>>, prefix: Seq<char>) -> bool {
    exists|i: int| 0 <= i < names.len() && has_prefix(#[trigger] names[i], prefix)
}

fn any_name_starts_with(names: &Vec<String>, prefix: &Vec<char>) -> (r: bool)
    ensures
        r == any_starts_with(names.deep_view(), prefix@),
{
    let mut i: usize = 0;
    while i < names.len()
        invariant
            i <= names.len(),
            forall|j: int| 0 <= j < i ==> !has_prefix(#[trigger] names.deep_view()[j], prefix@),
        decreases names.len() - i,
    {
        assert(names.deep_view()[i as int] == names@[i as int]@);
        if starts_with_chars(&chars_of(names[i].as_str()), prefix) {
            return true;
        }
        i += 1;
    }
    false
}

/// Which of today's dumps are still to be made, given the names of the files
/// in the working directory: the insert dump, then the copy dump.
pub fn backup_needed(file_names: &Vec<String>, now: &LocalNow) -> (r: (bool, bool))
    ensures
        r.0 == !any_starts_with(file_names.deep_view(), backup_prefix("insert"@, *now)),
        r.1 == !any_starts_with(file_names.deep_view(), backup_prefix("copy"@, *now)),
{
    let stamp = date_stamp_chars(now);
    let mut insert_prefix = chars_of("security_api_");
    push_str(&mut insert_prefix, "insert");
    push_str(&mut insert_prefix, "_backup_");
    push_chars(&mut insert_prefix, &stamp);
    let mut copy_prefix = chars_of("security_api_");
    push_str(&mut copy_prefix, "copy");
    push_str(&mut copy_prefix, "_backup_");
    push_chars(&mut copy_prefix, &stamp);
    assert(insert_prefix@ =~= backup_prefix("insert"@, *now));
    assert(copy_prefix@ =~= backup_prefix("copy"@, *now));
    (!any_name_starts_with(file_names, &insert_prefix), !any_name_starts_with(file_names, &copy_prefix))
}

/// The `pg_dump` arguments of a data-only dump of `database_name` into
/// `<backup_path>_<YYYYMMDD_HHMMSS>.sql`, as `INSERT`s with column names
/// when `column_inserts`, leaving out the migration, lock and listing tables.
pub open spec fn dump_args(database_name: Seq<char>, backup_path: Seq<char>, now: LocalNow, column_inserts: bool) -> Seq<Seq<char>> {
    let head = seq![
        database_name,
        "--file="@ + backup_path + seq!['_'] + time_stamp(now) + ".sql"@,
        "--data-only"@,
        "--encoding=UTF-8"@,
        "--format=plain"@,
    ];
    let tail = seq![
        "--no-sync"@,
        "--exclude-table=_sqlx_migrations"@,
        "--exclude-table=listen_flow"@,
        "--exclude-table=security_temp"@,
    ];
    if column_inserts { head + seq!["--column-inserts"@] + tail } else { head + tail }
}

/// The name of the file that a dump with these arguments writes: its
/// `--file=` argument without the option.
pub open spec fn dump_file(args: Seq<Seq<char>>) -> Seq<char> {
    args[1].skip(7)
}

/// Law: a day's dumps are made once. Where the file names hold those that
/// the insert dump (to `security_api_insert_backup`) and the copy dump (to
/// `security_api_copy_backup`) wrote at a moment `then`, a check at any
/// moment `now` of the same day finds both, so `backup_needed` asks for
/// neither dump again.
pub proof fn lemma_backups_made_today(names: Seq<Seq<char>>, database_name: Seq<char>, then: LocalNow, now: LocalNow)
    requires
        then.year == now.year,
        then.month == now.month,
        then.day == now.day,
        names.contains(dump_file(dump_args(database_name, "security_api_insert_backup"@, then, true))),
        names.contains(dump_file(dump_args(database_name, "security_api_copy_backup"@, then, false))),
    ensures
        any_starts_with(names, backup_prefix("insert"@, now)),
        any_starts_with(names, backup_prefix("copy"@, now)),
{
    reveal_strlit("security_api_insert_backup");
    reveal_strlit("security_api_copy_backup");
    reveal_strlit("security_api_");
    reveal_strlit("insert");
    reveal_strlit("copy");
    reveal_strlit("_backup");
    assert("security_api_insert_backup"@ =~= "security_api_"@ + "insert"@ + "_backup"@);
    assert("security_api_copy_backup"@ =~= "security_api_"@ + "copy"@ + "_backup"@);
    lemma_dump_file_prefix(names, database_name, "insert"@, then, now, true);
    lemma_dump_file_prefix(names, database_name, "copy"@, then, now, false);
}

proof fn lemma_dump_file_prefix(
    names: Seq<Seq<char>>,
    database_name: Seq<char>,
    kind: Seq<char>,
    then: LocalNow,
    now: LocalNow,
    column_inserts: bool,
)
    requires
        date_stamp(then) == date_stamp(now),
        names.contains(dump_file(dump_args(database_name, "security_api_"@ + kind + "_backup"@, then, column_inserts))),
    ensures
        any_starts_with(names, backup_prefix(kind, now)),
{
    let path = "security_api_"@ + kind + "_backup"@;
    reveal_strlit("--file=");
    reveal_strlit("_backup_");
    reveal_strlit("_backup");
    let file = dump_file(dump_args(database_name, path, then, column_inserts));
    let whole = "--file="@ + path + seq!['_'] + time_stamp(then) + ".sql"@;
    assert(dump_args(database_name, path, then, column_inserts)[1] == whole);
    assert(file =~= path + seq!['_'] + time_stamp(then) + ".sql"@);
    let prefix = backup_prefix(kind, now);
    assert(prefix =~= path + seq!['_'] + date_stamp(then));
    assert(file.take(prefix.len() as int) =~= prefix);
    let i = choose|i: int| 0 <= i < names.len() && names[i] == file;
    assert(has_prefix(names[i], prefix));
}

fn dump_args_exec(database_name: &str, backup_path: &str, now: &LocalNow, column_inserts: bool) -> (r: Vec<String>)
    ensures
        r.deep_view() == dump_args(database_name@, backup_path@, *now, column_inserts),
{
    let mut file = chars_of("--file=");
    push_str(&mut file, backup_path);
    file.push('_');
    push_chars(&mut file, &date_stamp_chars(now));
    file.push('_');
    push_chars(&mut file, &zero_padded_chars(now.hour as i64, 2));
    push_chars(&mut file, &zero_padded_chars(now.minute as i64, 2));
    push_chars(&mut file, &zero_padded_chars(now.second as i64, 2));
    push_str(&mut file, ".sql");
    assert(file@ =~= "--file="@ + backup_path@ + seq!['_'] + time_stamp(*now) + ".sql"@);
    let mut args: Vec<String> = Vec::new();
    args.push(string_from_chars(&chars_of(database_name)));
    args.push(string_from_chars(&file));
    args.push(string_from_chars(&chars_of("--data-only")));
    args.push(string_from_chars(&chars_of("--encoding=UTF-8")));
    args.push(string_from_chars(&chars_of("--format=plain")));
    if column_inserts {
        args.push(string_from_chars(&chars_of("--column-inserts")));
    }
    args.push(string_from_chars(&chars_of("--no-sync")));
    args.push(string_from_chars(&chars_of("--exclude-table=_sqlx_migrations")));
    args.push(string_from_chars(&chars_of("--exclude-table=listen_flow")));
    args.push(string_from_chars(&chars_of("--exclude-table=security_temp")));
    assert(args.deep_view() =~= dump_args(database_name@, backup_path@, *now, column_inserts));
    args
}

impl DatabaseBackup {
    /// The `pg_dump` arguments of the insert dump (see [`dump_args`]).
    pub fn backup_insert(self, database_name: &str, backup_path: &str, now: &LocalNow) -> (r: Vec<String>)
        ensures
            r.deep_view() == dump_args(database_name@, backup_path@, *now, true),
    {
        dump_args_exec(database_name, backup_path, now, true)
    }

    /// The `pg_dump` arguments of the copy dump (see [`dump_args`]).
    pub fn backup_copy(self, database_name: &str, backup_path: &str, now: &LocalNow) -> (r: Vec<String>)
        ensures
            r.deep_view() == dump_args(database_name@, backup_path@, *now, false),
    {
        dump_args_exec(database_name, backup_path, now, false)
    }
}

} // verus!
