use security_api::backup::backup_needed;
use security_api::calendar::LocalNow;
use security_api::records::DatabaseBackup;

fn moment() -> LocalNow {
    LocalNow { year: 2024, month: 5, day: 7, hour: 9, minute: 5, second: 3, nanosecond: 0 }
}

#[test]
fn dumps_still_to_make_today() {
    let now = moment();
    assert_eq!(backup_needed(&vec![], &now), (true, true));
    let names = vec![
        "security_api_insert_backup_20240507_010101.sql".to_string(),
        "security_api_copy_backup_20240506_010101.sql".to_string(),
        "notes.txt".to_string(),
    ];
    assert_eq!(backup_needed(&names, &now), (false, true));
    let both = vec![
        "security_api_copy_backup_20240507_230000.sql".to_string(),
        "security_api_insert_backup_20240507.sql".to_string(),
    ];
    assert_eq!(backup_needed(&both, &now), (false, false));
}

#[test]
fn insert_dump_arguments() {
    let args = DatabaseBackup.backup_insert("postgres://db", "/var/backup/security_api_insert_backup", &moment());
    assert_eq!(
        args,
        vec![
            "postgres://db",
            "--file=/var/backup/security_api_insert_backup_20240507_090503.sql",
            "--data-only",
            "--encoding=UTF-8",
            "--format=plain",
            "--column-inserts",
            "--no-sync",
            "--exclude-table=_sqlx_migrations",
            "--exclude-table=listen_flow",
            "--exclude-table=security_temp",
        ]
    );
}

#[test]
fn copy_dump_arguments() {
    let args = DatabaseBackup.backup_copy("db", "out", &moment());
    assert_eq!(args.len(), 9);
    assert_eq!(args[1], "--file=out_20240507_090503.sql");
    assert!(!args.iter().any(|a| a == "--column-inserts"));
}

#[test]
fn years_beyond_four_digits_carry_a_sign() {
    let far = LocalNow { year: 12024, month: 5, day: 7, hour: 0, minute: 0, second: 0, nanosecond: 0 };
    let names = vec!["security_api_insert_backup_+120240507_000000.sql".to_string()];
    assert_eq!(backup_needed(&names, &far), (false, true));
    let early = LocalNow { year: -1, month: 1, day: 2, hour: 3, minute: 4, second: 5, nanosecond: 0 };
    let args = DatabaseBackup.backup_copy("db", "out", &early);
    assert_eq!(args[1], "--file=out_-00010102_030405.sql");
    let first = LocalNow { year: 7, month: 1, day: 2, hour: 3, minute: 4, second: 5, nanosecond: 0 };
    assert_eq!(DatabaseBackup.backup_copy("db", "out", &first)[1], "--file=out_00070102_030405.sql");
}

#[test]
fn dumps_written_earlier_today_are_found() {
    let then = LocalNow { year: 2024, month: 5, day: 7, hour: 0, minute: 0, second: 1, nanosecond: 0 };
    let insert = DatabaseBackup.backup_insert("security_api", "security_api_insert_backup", &then);
    let copy = DatabaseBackup.backup_copy("security_api", "security_api_copy_backup", &then);
    let names: Vec<String> =
        vec![insert[1].trim_start_matches("--file=").to_string(), copy[1].trim_start_matches("--file=").to_string()];
    assert_eq!(names[0], "security_api_insert_backup_20240507_000001.sql");
    assert_eq!(backup_needed(&names, &moment()), (false, false));
    let next_day = LocalNow { year: 2024, month: 5, day: 8, hour: 0, minute: 0, second: 1, nanosecond: 0 };
    assert_eq!(backup_needed(&names, &next_day), (true, true));
}
