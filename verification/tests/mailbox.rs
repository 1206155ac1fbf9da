use solverforge_mail::mailbox::{body_from_fetch, changed_since, select_tracking, uids_from_search, SearchData, SelectTracking};
use solverforge_mail::flags::{flag_name, flag_of, FetchedFlag, ImapFlag};
use solverforge_mail::folder_sync::{after_select_error, SelectRecovery};
use solverforge_mail::folder_sync::{
    after_delta, apply_folder_delta, delta_after_select, mark_seen, resync_from_status, stored_anchor,
    with_changed_flags, CachedMessage, DeltaStep, FolderDelta, SyncCursor, SyncNext,
};
use solverforge_mail::errors::{MailError, MailErrorKind};
use solverforge_mail::mailbox::{
    changed_flags, copy_result, expand_uids, mailbox_status, page_of_uids, select_state, FetchItem, MailboxStatus,
    SelectData, SelectState, SetItem, StateCode, StatusItem, SyncAnchor,
};

#[test]
fn uid_sets_expand_ranges_and_drop_stars() {
    let uids = expand_uids(&[
        SetItem::Single(Some(4)),
        SetItem::Range(Some(7), Some(9)),
        SetItem::Single(None),
        SetItem::Range(Some(3), None),
        SetItem::Range(Some(5), Some(4)),
    ]);
    assert_eq!(uids, vec![4, 7, 8, 9]);
    assert_eq!(expand_uids(&[SetItem::Range(Some(u32::MAX - 1), Some(u32::MAX))]), vec![u32::MAX - 1, u32::MAX]);
    let copied = copy_result(1790003435, &[SetItem::Single(Some(1))], &[SetItem::Range(Some(10), Some(11))]);
    assert_eq!(copied.uid_validity, 1790003435);
    assert_eq!(copied.source, vec![1]);
    assert_eq!(copied.destination, vec![10, 11]);
}

#[test]
fn select_reports_state_and_later_codes_win() {
    let state = select_state(
        &[
            SelectData::Exists(2),
            SelectData::Vanished(vec![SetItem::Range(Some(1), Some(2))]),
            SelectData::Fetch(vec![5]),
            SelectData::Exists(3),
            SelectData::Other,
        ],
        &[
            StateCode::UidValidity(1790003434),
            StateCode::UidNext(3),
            StateCode::HighestModSeq(3),
            StateCode::HighestModSeq(4),
            StateCode::Other,
        ],
    );
    assert_eq!(state.exists, Some(3));
    assert_eq!(state.uid_validity, Some(1790003434));
    assert_eq!(state.uid_next, Some(3));
    assert_eq!(state.highest_modseq, Some(4));
    assert_eq!(state.vanished, vec![1, 2]);
    assert_eq!(state.changed, vec![5]);
    assert_eq!(select_state(&[], &[]), SelectState::default());
}

#[test]
fn status_items_fill_the_status() {
    let status = mailbox_status(&[
        StatusItem::Messages(12),
        StatusItem::Unseen(3),
        StatusItem::UidValidity(9),
        StatusItem::UidNext(40),
        StatusItem::Other,
    ]);
    assert_eq!(
        status,
        MailboxStatus { messages: Some(12), unseen: Some(3), uid_validity: Some(9), uid_next: Some(40) }
    );
    assert_eq!(mailbox_status(&[]), MailboxStatus::default());
}

#[test]
fn changed_flags_pair_uids_with_their_flags() {
    let changed = changed_flags(&[
        vec![FetchItem::Uid(2), FetchItem::Other, FetchItem::Flags(vec!["Seen".to_string()])],
        vec![FetchItem::Flags(vec!["Seen".to_string()])],
        vec![FetchItem::Uid(3)],
    ]);
    assert_eq!(changed, vec![(2, vec!["Seen".to_string()]), (3, Vec::new())]);
}

#[test]
fn a_delta_needs_an_anchor_and_a_modseq() {
    let state = SelectState {
        exists: Some(2),
        uid_validity: Some(9),
        uid_next: Some(5),
        highest_modseq: Some(12),
        vanished: vec![1],
        changed: vec![2],
    };
    match delta_after_select(state.clone(), None) {
        DeltaStep::Done(delta) => {
            assert!(delta.full_resync);
            assert_eq!(delta.highest_modseq, Some(12));
            assert!(delta.vanished.is_empty());
        }
        other => panic!("unexpected {other:?}"),
    }
    let anchor = SyncAnchor { uid_validity: 9, highest_modseq: 10 };
    match delta_after_select(state.clone(), Some(anchor)) {
        DeltaStep::FetchChanged { delta, since } => {
            assert_eq!(since, 10);
            assert!(!delta.full_resync);
            assert_eq!(delta.vanished, vec![1]);
            let delta = with_changed_flags(delta, vec![(2, vec!["Seen".to_string()])]);
            assert_eq!(delta.changed_flags.len(), 1);
        }
        other => panic!("unexpected {other:?}"),
    }
    let ignored = SelectState { highest_modseq: None, ..state };
    assert!(matches!(delta_after_select(ignored, Some(anchor)), DeltaStep::Done(d) if d.full_resync));
    let status = MailboxStatus { messages: None, unseen: None, uid_validity: Some(9), uid_next: Some(5) };
    let resync = resync_from_status(&status);
    assert!(resync.full_resync);
    assert_eq!(resync.uid_next, Some(5));
}

#[test]
fn a_sync_goes_on_according_to_the_delta() {
    assert_eq!(after_delta(&Ok(FolderDelta::default())), SyncNext::ApplyDelta);
    assert_eq!(after_delta(&Ok(FolderDelta { full_resync: true, ..FolderDelta::default() })), SyncNext::FullListing);
    assert_eq!(after_delta(&Err(MailError::transport_timeout("slow"))), SyncNext::ServeCache);
    assert_eq!(after_delta(&Err(MailError::backend_unavailable("down"))), SyncNext::ServeCache);
    assert_eq!(after_delta(&Err(MailError::imap_auth_rejected("no"))), SyncNext::Fail);
}

fn cached(uid: &str, flags: &[&str]) -> CachedMessage {
    CachedMessage { uid: uid.to_string(), flags: flags.iter().map(|f| f.to_string()).collect() }
}

#[test]
fn a_delta_removes_vanished_messages_and_updates_flags() {
    let messages = vec![cached("1", &[]), cached("2", &["Seen"]), cached("3", &[])];
    let cursor = Some(SyncCursor { uid_validity: Some(9), uid_next: Some(4), highest_modseq: Some(10) });
    let delta = FolderDelta {
        full_resync: false,
        uid_validity: Some(9),
        uid_next: None,
        highest_modseq: Some(12),
        vanished: vec![1],
        changed_flags: vec![(3, vec!["Flagged".to_string()]), (8, vec!["Seen".to_string()]), (1, vec!["Seen".to_string()])],
    };
    let (after, next) = apply_folder_delta(messages, cursor, &delta);
    assert_eq!(after, vec![cached("2", &["Seen"]), cached("3", &["Flagged"])]);
    assert_eq!(next, SyncCursor { uid_validity: Some(9), uid_next: Some(4), highest_modseq: Some(12) });
}

#[test]
fn a_new_uid_validity_empties_the_cache() {
    let messages = vec![cached("1", &[]), cached("2", &["Seen"])];
    let cursor = Some(SyncCursor { uid_validity: Some(9), uid_next: Some(4), highest_modseq: Some(10) });
    let delta = FolderDelta { uid_validity: Some(10), ..FolderDelta::default() };
    let (after, next) = apply_folder_delta(messages, cursor, &delta);
    assert!(after.is_empty());
    assert_eq!(next.uid_validity, Some(10));
    assert_eq!(next.highest_modseq, Some(10));
}

#[test]
fn anchors_need_validity_and_modseq() {
    assert_eq!(
        stored_anchor(Some(SyncCursor { uid_validity: Some(9), uid_next: None, highest_modseq: Some(3) })),
        Some(SyncAnchor { uid_validity: 9, highest_modseq: 3 })
    );
    assert_eq!(stored_anchor(Some(SyncCursor { uid_validity: Some(9), uid_next: Some(2), highest_modseq: None })), None);
    assert_eq!(stored_anchor(None), None);
}

#[test]
fn reading_a_message_marks_it_seen_once() {
    assert_eq!(mark_seen(vec!["Flagged".to_string()]), vec!["Flagged".to_string(), "Seen".to_string()]);
    assert_eq!(mark_seen(vec!["seen".to_string()]), vec!["seen".to_string()]);
}

#[test]
fn flag_names_map_to_imap_flags() {
    assert_eq!(flag_of(" \\Seen ").unwrap(), ImapFlag::Seen);
    assert_eq!(flag_of("flagged").unwrap(), ImapFlag::Flagged);
    assert_eq!(flag_of("ANSWERED").unwrap(), ImapFlag::Answered);
    assert_eq!(flag_of("Deleted").unwrap(), ImapFlag::Deleted);
    assert_eq!(flag_of("draft").unwrap(), ImapFlag::Draft);
    assert_eq!(flag_of("$label1").unwrap(), ImapFlag::Keyword("$label1".to_string()));
    let empty = flag_of("  \\ ").unwrap_err();
    assert_eq!(empty.kind, MailErrorKind::InvalidInput);
    assert_eq!(empty.message, "empty flag name");
    let bad = flag_of("two words").unwrap_err();
    assert_eq!(bad.kind, MailErrorKind::InvalidInput);
    assert!(bad.message.starts_with("invalid flag two words"));
}

#[test]
fn fetched_flags_have_application_names() {
    assert_eq!(flag_name(&FetchedFlag::Recent), "Recent");
    assert_eq!(flag_name(&FetchedFlag::Seen), "Seen");
    assert_eq!(flag_name(&FetchedFlag::Draft), "Draft");
    assert_eq!(flag_name(&FetchedFlag::MayCreate), "MayCreate");
    assert_eq!(flag_name(&FetchedFlag::Keyword("$label1".to_string())), "$label1");
    assert_eq!(flag_name(&FetchedFlag::Extension("Custom".to_string())), "Custom");
}

#[test]
fn pages_count_from_the_highest_uid() {
    let uids = vec![3, 9, 1, 7];
    assert_eq!(page_of_uids(uids.clone(), 1, 2), vec![9, 7]);
    assert_eq!(page_of_uids(uids.clone(), 2, 2), vec![3, 1]);
    assert_eq!(page_of_uids(uids.clone(), 3, 2), Vec::<u32>::new());
    assert_eq!(page_of_uids(uids.clone(), 0, 3), vec![9, 7, 3]);
    assert_eq!(page_of_uids(uids, 1, usize::MAX), vec![9, 7, 3, 1]);
}

#[test]
fn search_and_sort_answers_list_uids_in_order() {
    let uids = uids_from_search(&[
        SearchData::Sort(vec![4, 2]),
        SearchData::Other,
        SearchData::Search(vec![9]),
    ]);
    assert_eq!(uids, vec![4, 2, 9]);
}

#[test]
fn a_select_resyncs_from_a_usable_anchor_only() {
    assert_eq!(select_tracking(None).unwrap(), SelectTracking::CondStore);
    assert_eq!(
        select_tracking(Some(SyncAnchor { uid_validity: 7, highest_modseq: 42 })).unwrap(),
        SelectTracking::QResync { uid_validity: 7, mod_sequence: 42 }
    );
    let zero_validity = select_tracking(Some(SyncAnchor { uid_validity: 0, highest_modseq: 42 })).unwrap_err();
    assert_eq!(zero_validity.kind, MailErrorKind::InvalidInput);
    assert_eq!(zero_validity.message, "a UIDVALIDITY of zero is not valid");
    let zero_modseq = select_tracking(Some(SyncAnchor { uid_validity: 7, highest_modseq: 0 })).unwrap_err();
    assert_eq!(zero_modseq.message, "a change sequence of zero is not valid");
    assert_eq!(changed_since(9).unwrap(), 9);
    assert_eq!(changed_since(0).unwrap_err().message, "a change sequence of zero is not valid");
}

#[test]
fn a_dropped_connection_during_select_is_reported_not_resynced() {
    match after_select_error(MailError::connection_dropped("gone")) {
        SelectRecovery::Fail(error) => {
            assert_eq!(error.kind, MailErrorKind::ConnectionDropped);
            assert_eq!(error.message, "gone");
        }
        SelectRecovery::ListWithStatus => panic!("a transport failure must be reported"),
    }
    assert!(matches!(
        after_select_error(MailError::transport_timeout("slow")),
        SelectRecovery::Fail(_)
    ));
    assert!(matches!(
        after_select_error(MailError::other("SELECT failed: BAD unknown parameter")),
        SelectRecovery::ListWithStatus
    ));
}

#[test]
fn a_fetched_message_is_its_first_returned_body() {
    assert_eq!(
        body_from_fetch(vec![None, Some(b"Subject: hi\r\n\r\nbody".to_vec()), Some(b"later".to_vec())]).unwrap(),
        b"Subject: hi\r\n\r\nbody".to_vec()
    );
    let missing = body_from_fetch(vec![None]).unwrap_err();
    assert_eq!(missing.kind, MailErrorKind::Other);
    assert_eq!(missing.message, "message body was not returned by the server");
    assert!(body_from_fetch(vec![]).is_err());
}
