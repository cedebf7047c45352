use sweep::schedule::{create_args, cron_line, delete_args, is_installed, query_args, with_cron_entry, without_cron_entries, CRON_MARKER, TASK_NAME};

#[test]
fn schtasks_args_are_well_formed() {
    let args = create_args("C:\\tools\\sweep.exe");
    assert_eq!(args[0], "/Create");
    assert!(args.windows(2).any(|w| w[0] == "/TR"
        && w[1].contains("C:\\tools\\sweep.exe")
        && w[1].ends_with("index")));
}

#[test]
fn cron_line_carries_marker_and_index() {
    let line = cron_line("/usr/bin/sweep");
    assert!(line.starts_with("@daily /usr/bin/sweep index"));
    assert!(line.ends_with(CRON_MARKER));
}

#[test]
fn delete_and_query_name_the_task() {
    assert_eq!(delete_args(), vec!["/Delete", "/F", "/TN", TASK_NAME]);
    assert_eq!(query_args(), vec!["/Query", "/TN", TASK_NAME]);
}

#[test]
fn crontab_edits_add_once_and_remove_only_ours() {
    let line = cron_line("/usr/bin/sweep");
    let body = "0 1 * * * backup";
    let installed = with_cron_entry(body, &line).unwrap();
    assert_eq!(installed, format!("0 1 * * * backup\n{line}\n"));
    assert!(is_installed(&installed));
    assert_eq!(with_cron_entry(&installed, &line), None);
    assert_eq!(without_cron_entries(&installed), "0 1 * * * backup\n");
    assert!(!is_installed(body));
    assert_eq!(with_cron_entry("", &line).unwrap(), format!("{line}\n"));
    assert_eq!(without_cron_entries(""), "\n");
}
