use solverforge_mail::envelope::{merge_results, optional_id, sender_from, Envelope, Sender};

fn envelope(id: &str, folder: &str, date: &str) -> Envelope {
    Envelope {
        id: id.to_string(),
        flags: Vec::new(),
        subject: format!("Subject {id}"),
        sender: Sender::Plain("alice@example.com".to_string()),
        date: date.to_string(),
        message_id: None,
        in_reply_to: None,
        account: None,
        folder: Some(folder.to_string()),
    }
}

#[test]
fn merges_newest_first_and_drops_duplicates() {
    let merged = merge_results(vec![
        vec![
            envelope("1", "INBOX", "2026-01-02"),
            envelope("2", "INBOX", "2026-01-01"),
        ],
        vec![
            envelope("2", "INBOX", "2026-01-01"),
            envelope("3", "Archive", "2026-01-03"),
        ],
    ]);

    let ids: Vec<&str> = merged.iter().map(|e| e.id.as_str()).collect();
    assert_eq!(ids, vec!["3", "1", "2"], "newest first, no duplicates");
    assert_eq!(merged[2].folder.as_deref(), Some("INBOX"));
}

#[test]
fn the_same_id_in_two_folders_is_two_messages() {
    let merged = merge_results(vec![
        vec![envelope("7", "INBOX", "2026-01-01")],
        vec![envelope("7", "Archive", "2026-01-01")],
    ]);
    assert_eq!(merged.len(), 2);
    // Equal dates keep the order in which the folders were searched.
    assert_eq!(merged[0].folder.as_deref(), Some("INBOX"));
    assert_eq!(merged[1].folder.as_deref(), Some("Archive"));
}

#[test]
fn the_first_copy_of_a_message_is_kept() {
    let mut later = envelope("1", "INBOX", "2026-01-01");
    later.subject = "changed".to_string();
    let merged = merge_results(vec![vec![envelope("1", "INBOX", "2026-01-01")], vec![later]]);
    assert_eq!(merged.len(), 1);
    assert_eq!(merged[0].subject, "Subject 1");
    assert!(merge_results(Vec::new()).is_empty());
}

#[test]
fn message_ids_lose_their_angle_brackets() {
    assert_eq!(optional_id("  <abc@example.com> ").as_deref(), Some("abc@example.com"));
    assert_eq!(optional_id("plain@id").as_deref(), Some("plain@id"));
    assert_eq!(optional_id(" <> "), None);
    assert_eq!(optional_id(""), None);
}

#[test]
fn senders_come_from_the_first_address() {
    assert_eq!(sender_from(None), Sender::Unknown);
    assert_eq!(sender_from(Some(("", "alice", "example.com"))), Sender::Plain("alice@example.com".to_string()));
    assert_eq!(
        sender_from(Some(("Alice", "alice", "example.com"))),
        Sender::Structured { name: Some("Alice".to_string()), addr: Some("alice@example.com".to_string()) }
    );
    assert_eq!(
        sender_from(Some(("Alice", "alice", ""))),
        Sender::Structured { name: Some("Alice".to_string()), addr: None }
    );
    assert_eq!(sender_from(Some(("", "", "example.com"))), Sender::Unknown);
}
