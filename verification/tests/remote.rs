use solverforge_mail::roles::{deletion_for, Deletion, pick_role_folder, Folder, pick_drafts_folder, pick_sent_folder, pick_trash_folder, role_from_names, FolderRole};
use solverforge_mail::search::{flag_store_command, search_criteria};
use solverforge_mail::template::{parse_template_message, sanitize_file_name};

#[test]
fn sanitize_file_name_replaces_path_separators() {
    assert_eq!(
        sanitize_file_name("report:Q2/2026?.pdf"),
        "report_Q2_2026_.pdf"
    );
}

#[test]
fn remote_template_parser_splits_headers_and_body() {
    let parsed = parse_template_message("To: a@example.com\nSubject: Hi\n\nHello");
    assert_eq!(parsed.header("to"), Some("a@example.com"));
    assert_eq!(parsed.header("subject"), Some("Hi"));
    assert_eq!(parsed.body, "Hello");
}

#[test]
fn tests_template_parser_splits_headers_and_body() {
    let parsed = parse_template_message("To: a@example.com\nSubject: Hi\n\nHello");
    assert_eq!(parsed.header("to"), Some("a@example.com"));
    assert_eq!(parsed.header("subject"), Some("Hi"));
    assert_eq!(parsed.body, "Hello");
}

fn check_search_grammar() {
    assert_eq!(search_criteria(None), "ALL");
    assert_eq!(search_criteria(Some("   ")), "ALL");
    assert_eq!(search_criteria(Some("flag seen")), "SEEN");
    assert_eq!(search_criteria(Some("not flag seen")), "UNSEEN");
    assert_eq!(search_criteria(Some("flag flagged")), "FLAGGED");
    assert_eq!(
        search_criteria(Some("subject quarterly")),
        "SUBJECT \"quarterly\""
    );
    assert_eq!(
        search_criteria(Some("from alice and not flag seen")),
        "FROM \"alice\" UNSEEN"
    );
    assert_eq!(search_criteria(Some("revenue")), "TEXT \"revenue\"");
    assert_eq!(
        search_criteria(Some("subject \"quoted\"")),
        "SUBJECT \"\\\"quoted\\\"\""
    );
}

#[test]
fn remote_search_criteria_translate_the_app_query_grammar() {
    check_search_grammar();
}

#[test]
fn tests_search_criteria_translate_the_app_query_grammar() {
    check_search_grammar();
}

fn check_sent() {
    let folders = vec![
        ("INBOX".to_string(), Vec::new()),
        ("Gesendet".to_string(), vec!["\\Sent".to_string()]),
        ("Sent".to_string(), Vec::new()),
    ];
    assert_eq!(pick_sent_folder(&folders).as_deref(), Some("Gesendet"));

    let fallback = vec![
        ("INBOX".to_string(), Vec::new()),
        ("Sent Items".to_string(), Vec::new()),
    ];
    assert_eq!(pick_sent_folder(&fallback).as_deref(), Some("Sent Items"));
    assert!(pick_sent_folder(&[("INBOX".to_string(), Vec::new())]).is_none());
}

#[test]
fn remote_sent_folder_prefers_special_use_over_names() {
    check_sent();
}

#[test]
fn tests_sent_folder_prefers_special_use_over_names() {
    check_sent();
}

fn check_trash() {
    let folders = vec![
        ("INBOX".to_string(), Vec::new()),
        ("Papierkorb".to_string(), vec!["\\Trash".to_string()]),
        ("Trash".to_string(), Vec::new()),
    ];
    assert_eq!(pick_trash_folder(&folders).as_deref(), Some("Papierkorb"));

    let fallback = vec![
        ("INBOX".to_string(), Vec::new()),
        ("Deleted Items".to_string(), Vec::new()),
    ];
    assert_eq!(
        pick_trash_folder(&fallback).as_deref(),
        Some("Deleted Items")
    );
    assert!(pick_trash_folder(&[("INBOX".to_string(), Vec::new())]).is_none());
}

#[test]
fn remote_trash_folder_prefers_special_use_over_names() {
    check_trash();
}

#[test]
fn tests_trash_folder_prefers_special_use_over_names() {
    check_trash();
}

#[test]
fn drafts_folder_prefers_special_use_over_names() {
    let folders = vec![
        ("INBOX".to_string(), Vec::new()),
        ("Entwuerfe".to_string(), vec!["\\Drafts".to_string()]),
        ("Drafts".to_string(), Vec::new()),
    ];
    assert_eq!(pick_drafts_folder(&folders).as_deref(), Some("Entwuerfe"));

    let fallback = vec![
        ("INBOX".to_string(), Vec::new()),
        ("Drafts".to_string(), Vec::new()),
    ];
    assert_eq!(pick_drafts_folder(&fallback).as_deref(), Some("Drafts"));
    assert!(pick_drafts_folder(&[("INBOX".to_string(), Vec::new())]).is_none());
}

#[test]
fn recognises_every_special_use_role() {
    for (name, role) in [
        ("\\Sent", FolderRole::Sent),
        ("\\Drafts", FolderRole::Drafts),
        ("\\Trash", FolderRole::Trash),
        ("\\Archive", FolderRole::Archive),
        ("\\Junk", FolderRole::Junk),
        ("\\Flagged", FolderRole::Flagged),
        ("\\All", FolderRole::All),
    ] {
        assert_eq!(role_from_names(&[name.to_string()]), role, "{name}");
    }
    assert_eq!(
        role_from_names(&["\\HasNoChildren".to_string()]),
        FolderRole::Other
    );
}

#[test]
fn role_folders_prefer_the_role_over_names() {
    let folders = vec![
        Folder { name: "INBOX".to_string(), desc: None, role: FolderRole::Other },
        Folder { name: "Sent".to_string(), desc: None, role: FolderRole::Other },
        Folder { name: "Gesendet".to_string(), desc: None, role: FolderRole::Sent },
    ];
    assert_eq!(pick_role_folder(&folders, FolderRole::Sent).as_deref(), Some("Gesendet"));
    let named = vec![Folder { name: "Sent Items".to_string(), desc: None, role: FolderRole::Other }];
    assert_eq!(pick_role_folder(&named, FolderRole::Sent).as_deref(), Some("Sent Items"));
    assert_eq!(pick_role_folder(&named, FolderRole::Trash), None);
}

#[test]
fn flag_changes_store_silently() {
    assert_eq!(flag_store_command("seen", true), "+FLAGS.SILENT (\\Seen)");
    assert_eq!(flag_store_command("Flagged", false), "-FLAGS.SILENT (\\Flagged)");
    assert_eq!(flag_store_command("$label1", true), "+FLAGS.SILENT ($label1)");
}

#[test]
fn deleting_moves_to_the_trash_unless_already_there() {
    assert_eq!(deletion_for("INBOX", Some("Deleted Items".to_string())), Deletion::MoveToTrash("Deleted Items".to_string()));
    assert_eq!(deletion_for("deleted items", Some("Deleted Items".to_string())), Deletion::Expunge);
    assert_eq!(deletion_for("Archive", None), Deletion::MoveToTrash("Trash".to_string()));
    assert_eq!(deletion_for("TRASH", None), Deletion::Expunge);
}
