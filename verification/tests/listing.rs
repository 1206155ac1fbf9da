use solverforge_mail::envelope::{list_threaded, threaded_listing, ThreadedListing};
use solverforge_mail::envelope::{fetch_to_envelope, sender_from_addresses, LegacyFetch};
use solverforge_mail::envelope::{
    thread_groups, ThreadNode, envelope_from_items, in_requested_order, newest_uid_first, parse_id, parse_thread_response, Envelope,
    EnvelopeFields, EnvelopeItem, Sender,
};

fn envelope(id: &str) -> Envelope {
    Envelope {
        id: id.to_string(),
        flags: Vec::new(),
        subject: String::new(),
        sender: Sender::Unknown,
        date: String::new(),
        message_id: None,
        in_reply_to: None,
        account: None,
        folder: None,
    }
}

#[test]
fn fetch_items_make_an_envelope() {
    let fields = EnvelopeFields {
        subject: "Plans".to_string(),
        from: Some(("Alice".to_string(), "alice".to_string(), "example.com".to_string())),
        date: "Mon, 1 Jan 2026".to_string(),
        message_id: "<m1@example.com>".to_string(),
        in_reply_to: String::new(),
    };
    let e = envelope_from_items(&[
        EnvelopeItem::Uid(42),
        EnvelopeItem::Flags(vec!["Seen".to_string()]),
        EnvelopeItem::InternalDate("2026-01-01 10:00:00+00:00".to_string()),
        EnvelopeItem::Envelope(fields.clone()),
        EnvelopeItem::Other,
    ]);
    assert_eq!(e.id, "42");
    assert_eq!(e.flags, vec!["Seen".to_string()]);
    assert_eq!(e.subject, "Plans");
    assert_eq!(
        e.sender,
        Sender::Structured { name: Some("Alice".to_string()), addr: Some("alice@example.com".to_string()) }
    );
    assert_eq!(e.date, "2026-01-01 10:00:00+00:00");
    assert_eq!(e.message_id.as_deref(), Some("m1@example.com"));
    assert_eq!(e.in_reply_to, None);

    let without_internal_date = envelope_from_items(&[EnvelopeItem::Envelope(fields)]);
    assert_eq!(without_internal_date.date, "Mon, 1 Jan 2026");
    assert_eq!(without_internal_date.id, "");
}

#[test]
fn listings_follow_the_requested_uids() {
    let ordered = in_requested_order(
        vec![envelope("1"), envelope("2"), envelope("3"), envelope("x")],
        &[3, 1, 2],
    );
    let ids: Vec<&str> = ordered.iter().map(|e| e.id.as_str()).collect();
    assert_eq!(ids, vec!["3", "1", "2", "x"]);

    let newest = newest_uid_first(vec![envelope("2"), envelope("10"), envelope("7")]);
    let ids: Vec<&str> = newest.iter().map(|e| e.id.as_str()).collect();
    assert_eq!(ids, vec!["10", "7", "2"]);
    assert_eq!(parse_id("+12"), 12);
    assert_eq!(parse_id("abc"), 0);
    assert_eq!(parse_id("99999999999"), 0);
}

#[test]
fn thread_answers_flatten_to_uids() {
    let uids = parse_thread_response("* THREAD (1)(2 3)(4 (5)(6))\r\na001 OK Thread completed\r\n");
    assert_eq!(uids, vec![1, 2, 3, 4, 5, 6]);
    assert_eq!(parse_thread_response("* SEARCH 1 2\r\n"), Vec::<u32>::new());
    assert_eq!(parse_thread_response("* THREAD (99999999999)(7)"), vec![7]);
}

#[test]
fn thread_answers_group_their_uids() {
    let groups = thread_groups(&[
        ThreadNode::Members { prefix: vec![1], answers: Vec::new() },
        ThreadNode::Members { prefix: vec![2, 3], answers: Vec::new() },
        ThreadNode::Nested { answers: Vec::new() },
        ThreadNode::Members {
            prefix: vec![4],
            answers: vec![
                ThreadNode::Members { prefix: vec![5], answers: Vec::new() },
                ThreadNode::Nested {
                    answers: vec![ThreadNode::Members { prefix: vec![6, 7], answers: Vec::new() }],
                },
            ],
        },
    ]);
    assert_eq!(groups, vec![vec![1], vec![2, 3], vec![4, 5, 6, 7]]);
}

fn part(value: &str) -> Option<String> {
    Some(value.to_string())
}

#[test]
fn legacy_senders_keep_what_the_first_address_holds() {
    assert_eq!(sender_from_addresses(&[]), Sender::Unknown);
    assert_eq!(
        sender_from_addresses(&[(part(" Alice "), part("alice"), part("example.com"))]),
        Sender::Structured { name: Some("Alice".to_string()), addr: Some("alice@example.com".to_string()) }
    );
    assert_eq!(
        sender_from_addresses(&[(None, part("postmaster"), None)]),
        Sender::Structured { name: None, addr: Some("postmaster".to_string()) }
    );
    assert_eq!(
        sender_from_addresses(&[(part("  "), None, part("example.com"))]),
        Sender::Unknown
    );
    assert_eq!(
        sender_from_addresses(&[(part("Bob"), None, None), (None, part("carol"), part("example.com"))]),
        Sender::Structured { name: Some("Bob".to_string()), addr: None }
    );
}

#[test]
fn a_legacy_fetch_becomes_a_listing_entry() {
    let fetch = LegacyFetch {
        uid: Some(42),
        message: 3,
        flags: vec!["Seen".to_string()],
        subject: part("  Quarterly report "),
        from: Some(vec![(part("Alice"), part("alice"), part("example.com"))]),
        internal_date: None,
        envelope_date: part(" Mon, 13 Apr 2026 09:00:00 +0000 "),
    };
    let envelope = fetch_to_envelope(&fetch);
    assert_eq!(envelope.id, "42");
    assert_eq!(envelope.subject, "Quarterly report");
    assert_eq!(envelope.flags, vec!["Seen".to_string()]);
    assert_eq!(envelope.date, "Mon, 13 Apr 2026 09:00:00 +0000");
    assert_eq!(
        envelope.sender,
        Sender::Structured { name: Some("Alice".to_string()), addr: Some("alice@example.com".to_string()) }
    );
    assert_eq!(envelope.message_id, None);

    let bare = fetch_to_envelope(&LegacyFetch {
        uid: None,
        message: 7,
        flags: vec![],
        subject: None,
        from: None,
        internal_date: part("2026-04-13 09:00:00+00:00"),
        envelope_date: part("ignored"),
    });
    assert_eq!(bare.id, "7");
    assert_eq!(bare.subject, "");
    assert_eq!(bare.sender, Sender::Unknown);
    assert_eq!(bare.date, "2026-04-13 09:00:00+00:00");
}

#[test]
fn a_threaded_listing_falls_back_or_ends_early() {
    assert_eq!(threaded_listing(None), ThreadedListing::Plain);
    assert_eq!(threaded_listing(Some(vec![])), ThreadedListing::Empty);
    assert_eq!(threaded_listing(Some(vec![3, 1, 2])), ThreadedListing::Fetch(vec![3, 1, 2]));
}

#[test]
fn a_threaded_listing_without_thread_is_the_plain_listing() {
    let plain = || Ok(vec![envelope("9"), envelope("4")]);
    let unused = |_: Vec<u32>| -> Result<Vec<Envelope>, solverforge_mail::errors::MailError> { panic!("no fetch without THREAD") };
    let listed = list_threaded(None, plain, unused).unwrap();
    assert_eq!(listed.iter().map(|e| e.id.as_str()).collect::<Vec<_>>(), vec!["9", "4"]);

    let never = || -> Result<Vec<Envelope>, solverforge_mail::errors::MailError> { panic!("no plain listing with THREAD") };
    assert!(list_threaded(Some(vec![]), never, unused).unwrap().is_empty());

    let fetch = |uids: Vec<u32>| {
        assert_eq!(uids, vec![2, 7, 5]);
        Ok(vec![envelope("5"), envelope("7"), envelope("8"), envelope("2")])
    };
    let threaded = list_threaded(Some(vec![2, 7, 5]), never, fetch).unwrap();
    assert_eq!(threaded.iter().map(|e| e.id.as_str()).collect::<Vec<_>>(), vec!["2", "7", "5", "8"]);
}
