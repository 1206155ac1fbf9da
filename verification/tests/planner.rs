use solverforge_mail::errors::MailErrorKind;
use solverforge_mail::planner::{
    calendars_arguments, default_calendar_from, first_line, import_report_from, refused, ImportReport, Planner123,
};

/// Read an `ical import` envelope the way the application's JSON reader does.
fn parse_import(stdout: &str) -> Result<ImportReport, solverforge_mail::errors::MailError> {
    let value: serde_json::Value = serde_json::from_str(stdout).expect("JSON");
    let status = value["status"].as_str().unwrap_or_default().to_string();
    let error = value["error"].as_str().map(str::to_string);
    let data = value.get("data").filter(|d| !d.is_null()).map(|d| ImportReport {
        calendar_name: d["calendar_name"].as_str().unwrap_or_default().to_string(),
        imported: d["imported"].as_u64().unwrap_or_default() as usize,
        skipped: d["skipped"].as_u64().unwrap_or_default() as usize,
        warnings: d["warnings"]
            .as_array()
            .map(|w| w.iter().filter_map(|x| x.as_str().map(str::to_string)).collect())
            .unwrap_or_default(),
    });
    import_report_from(&status, data, error)
}

/// Read a `calendars list` envelope the way the application's JSON reader does.
fn parse_default_calendar(stdout: &str) -> Result<String, solverforge_mail::errors::MailError> {
    let value: serde_json::Value = serde_json::from_str(stdout).expect("JSON");
    let calendars: Vec<(String, bool)> = value["data"]
        .as_array()
        .unwrap()
        .iter()
        .map(|c| (c["id"].as_str().unwrap().to_string(), c["is_default"].as_bool().unwrap_or(false)))
        .collect();
    default_calendar_from(&calendars)
}

#[test]
fn reads_an_import_report() {
    let report = parse_import(
        r#"{"data":{"calendar_name":"Personal","imported":1,"skipped":0,
                "warnings":["ignored unsupported attendee data"]},"status":"ok"}"#,
    )
    .expect("report");

    assert_eq!(report.calendar_name, "Personal");
    assert_eq!(report.imported, 1);
    assert_eq!(report.skipped, 0);
    assert!(report.summary().contains("Added 1 event(s)"));
    assert!(report
        .summary()
        .contains("ignored unsupported attendee data"));
}

#[test]
fn counts_skipped_events_in_the_summary() {
    let report = parse_import(
        r#"{"data":{"calendar_name":"Work","imported":2,"skipped":1,"warnings":[]},"status":"ok"}"#,
    )
    .expect("report");
    assert!(
        report.summary().contains("1 skipped"),
        "{}",
        report.summary()
    );
}

#[test]
fn a_failed_import_reports_the_error() {
    let error =
        parse_import(r#"{"status":"error","error":"calendar not found"}"#).expect_err("refused");
    assert!(error.message.contains("calendar not found"), "{error:?}");
}

#[test]
fn the_default_calendar_is_preferred() {
    let id = parse_default_calendar(
        r#"{"data":[{"id":"a","is_default":false},{"id":"b","is_default":true}]}"#,
    )
    .expect("a calendar");
    assert_eq!(id, "b");
}

#[test]
fn the_first_calendar_is_used_when_none_is_marked() {
    let id = parse_default_calendar(r#"{"data":[{"id":"a"},{"id":"b"}]}"#).expect("a calendar");
    assert_eq!(id, "a");
}

#[test]
fn no_calendars_is_an_error() {
    let error = parse_default_calendar(r#"{"data":[]}"#).expect_err("refused");
    assert!(error.message.contains("no calendar"), "{error:?}");
}

#[test]
fn summaries_are_exact() {
    let report = ImportReport {
        calendar_name: "Work".to_string(),
        imported: 2,
        skipped: 1,
        warnings: vec!["first".to_string(), "second".to_string()],
    };
    assert_eq!(report.summary(), "Added 2 event(s) to Planner123 (Work). 1 skipped. first");
    let quiet = ImportReport { calendar_name: "P".to_string(), imported: 0, skipped: 0, warnings: Vec::new() };
    assert_eq!(quiet.summary(), "Added 0 event(s) to Planner123 (P).");
}

#[test]
fn a_report_without_data_is_an_error() {
    let error = import_report_from("ok", None, None).unwrap_err();
    assert_eq!(error.kind, MailErrorKind::Other);
    assert_eq!(error.message, "Planner123 reported no import data");
    let refused_status = import_report_from("error", None, None).unwrap_err();
    assert_eq!(refused_status.message, "Planner123 reported error: ");
}

#[test]
fn the_first_nonblank_line_is_reported() {
    assert_eq!(first_line("\n  \n  boom  \nmore"), "boom");
    assert_eq!(first_line("   "), "");
    assert_eq!(
        refused("Planner123 refused the import: ", "\nboom\n").message,
        "Planner123 refused the import: boom"
    );
}

#[test]
fn the_cli_is_called_as_documented() {
    let client = Planner123::new("/usr/bin/planner123-cli".to_string(), Some("cal-1".to_string()), "Europe/Berlin".to_string());
    assert_eq!(client.binary(), "/usr/bin/planner123-cli");
    assert_eq!(client.calendar_id().as_deref(), Some("cal-1"));
    assert_eq!(
        client.import_arguments("cal-1", "/tmp/x.ics"),
        vec!["ical", "import", "--calendar-id", "cal-1", "--path", "/tmp/x.ics", "--timezone", "Europe/Berlin"]
    );
    assert_eq!(calendars_arguments(), vec!["calendars", "list"]);
}
