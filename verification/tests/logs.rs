use nightindex::logs::{
    rank_errors, read_log_line, summarize_log, tell_errors, tell_log, LogFields, LogTotals,
};


const LOG: &str =
    "{\"event\":\"copy_progress\",\"planned_files\":10,\"planned_bytes\":1000,\"completed_files\":3,\"copied_bytes\":250,\"failed_files\":1}\n{\"schema_version\":2,\"rel_path\":\"x\",\"action\":\"fail\",\"bytes\":0}\n{\"event\":\"copy_summary\",\"planned_files\":10,\"planned_bytes\":1000,\"copied_files\":7,\"copied_bytes\":900,\"failed_files\":2}\n";

#[test]
fn logs_command_parses_progress_and_summary_lines() {
    let totals = summarize_log(LOG, 200);
    assert_eq!(totals.copied_bytes, 900);
    assert_eq!(totals.planned_bytes, 1000);
    assert_eq!(totals.completed_files, 7);
    assert_eq!(totals.planned_files, 10);
    assert_eq!(totals.failed_files, 2);
    assert_eq!(totals.events_seen, 2);
    assert_eq!(totals.failures, 1);
    assert_eq!(totals.retries.len(), 1);
    assert_eq!(totals.retries[0].rel_path, "x");
    assert_eq!(totals.retries[0].reason, "unknown");
    assert_eq!(
        tell_log(&totals, "copy.ndjson"),
        "[logs] file=copy.ndjson events_seen=2 copied=900/1000 bytes (90.00%) files=7/10 failed=2 failure_events=1"
    );
}

#[test]
fn only_the_last_lines_count_where_that_is_asked_for() {
    let totals = summarize_log(LOG, 1);
    assert_eq!(totals.events_seen, 1);
    assert_eq!(totals.failures, 0);
    assert_eq!(summarize_log(LOG, 0).events_seen, 2);
}

#[test]
fn a_line_is_read_by_its_keys() {
    let fields = read_log_line("{\"event\":\"e\",\"bytes\":5,\"reason\":7,\"copied_bytes\":-1}");
    assert_eq!(fields.event, Some("e".to_string()));
    assert_eq!(fields.bytes, Some(5));
    assert_eq!(fields.reason, None);
    assert_eq!(fields.copied_bytes, None);
    let none = read_log_line("not json");
    assert_eq!(none.event, None);
    assert_eq!(none.bytes, None);
    let list = read_log_line("[1, 2]");
    assert_eq!(list.event, None);
}

fn failure(reason: &str) -> LogFields {
    LogFields {
        event: None,
        action: Some("fail".to_string()),
        reason: Some(reason.to_string()),
        rel_path: Some("p".to_string()),
        bytes: Some(3),
        copied_bytes: None,
        planned_bytes: None,
        completed_files: None,
        copied_files: None,
        planned_files: None,
        failed_files: None,
    }
}

#[test]
fn failures_are_ranked_by_class() {
    let mut totals = LogTotals::new();
    totals.note(&failure(" Disk Full : /a"), "1");
    totals.note(&failure("zebra: x"), "2");
    totals.note(&failure("disk full: /b"), "3");
    totals.note(&failure("apple"), "4");
    let ranked = rank_errors(&totals.classes);
    let names: Vec<(String, usize)> = ranked
        .iter()
        .map(|c| (c.class.clone(), c.count))
        .collect();
    assert_eq!(
        names,
        vec![
            ("disk full".to_string(), 2),
            ("apple".to_string(), 1),
            ("zebra".to_string(), 1)
        ]
    );
    assert_eq!(
        tell_errors(&ranked, 2),
        vec![
            "[logs errors] class=disk full count=2".to_string(),
            "[logs errors] class=apple count=1".to_string()
        ]
    );
    assert_eq!(totals.failed_lines.len(), 4);
    assert_eq!(totals.retries[3].bytes, 3);
}

#[test]
fn parts_are_told_as_the_machine_tells_them() {
    for (part, whole) in [
        (1u64, 3u64),
        (2, 3),
        (123_456_789, 987_654_321),
        (u64::MAX, 1),
        (1, u64::MAX),
        (5, 5),
    ] {
        let mut totals = LogTotals::new();
        totals.copied_bytes = part;
        totals.planned_bytes = whole;
        let percent = format!("({:.2}%)", (part as f64) * 100.0 / (whole as f64));
        assert!(tell_log(&totals, "f").contains(&percent), "{percent}");
    }
    let totals = LogTotals::new();
    assert!(tell_log(&totals, "f").contains("(0.00%)"));
}

#[test]
fn numbers_that_a_report_does_not_give_stay() {
    let mut totals = summarize_log(LOG, 0);
    let mut fields = failure("x");
    fields.event = Some("copy_progress".to_string());
    totals.note(&fields, "line");
    assert_eq!(totals.copied_bytes, 900);
    assert_eq!(totals.completed_files, 7);
    assert_eq!(totals.failures, 1);
    assert_eq!(totals.events_seen, 3);
}
