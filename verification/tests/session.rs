use solverforge_mail::imap_session::app_owned_remote_transport_available;
use solverforge_mail::imap_session::{read_step, DecodeOutcome, ReadStep};
use solverforge_mail::imap_session::{after_failure, PoolStep};
use solverforge_mail::errors::MailError;
use base64::Engine;
use solverforge_mail::capabilities::{Capabilities, Security};
use solverforge_mail::errors::MailErrorKind;
use solverforge_mail::imap_session::{
    base64_plain, collect_step, idle_accepted, idle_first_line, push_bounded, require_ok, sasl_step,
    tag_for, valid_tag, wait_step, xoauth2_response, CollectStep, Completion, IdleFirstLine, IdleOutcome,
    IdleRound, ImapClient, ResponseKind, SaslStep, WaitStep, MAX_SKIPPED,
};

fn check_capabilities() {
    let capabilities = Capabilities::from_names(&[
        "IMAP4rev1",
        "IDLE",
        "MOVE",
        "UIDPLUS",
        "CONDSTORE",
        "SPECIAL-USE",
        "SORT",
        "THREAD",
        "UTF8=ACCEPT",
        "COMPRESS=DEFLATE",
        "AUTH=PLAIN",
        "AUTH=XOAUTH2",
    ]);

    assert!(capabilities.imap4rev1);
    assert!(capabilities.idle);
    assert!(capabilities.move_);
    assert!(capabilities.uidplus);
    assert!(capabilities.condstore);
    assert!(capabilities.special_use);
    assert!(capabilities.sort);
    assert!(capabilities.thread);
    assert!(capabilities.utf8_accept);
    assert!(capabilities.compress_deflate);
    assert!(capabilities.auth_plain);
    assert!(capabilities.auth_xoauth2);
    assert!(!capabilities.qresync);
    assert!(capabilities.supports("idle"));
}

#[test]
fn session_capabilities_map_known_extensions() {
    check_capabilities();
}

#[test]
fn tests_capabilities_map_known_extensions() {
    check_capabilities();
}

fn check_security() {
    assert_eq!(Security::normalize(Some("imaps"), "plain"), Security::Tls);
    assert_eq!(Security::normalize(Some("ssl"), "plain"), Security::Tls);
    assert_eq!(
        Security::normalize(Some("starttls"), "tls"),
        Security::StartTls
    );
    assert_eq!(Security::normalize(Some("none"), "tls"), Security::Plain);
    assert_eq!(Security::normalize(None, "tls"), Security::Tls);
}

#[test]
fn session_security_normalizes_aliases() {
    check_security();
}

#[test]
fn tests_security_normalizes_aliases() {
    check_security();
}

#[test]
fn tags_are_padded_and_valid() {
    assert_eq!(tag_for(1), "a0001");
    assert_eq!(tag_for(12345), "a12345");
    assert!(valid_tag(&tag_for(7)));
    assert!(!valid_tag(""));
    assert!(!valid_tag("a b"));
}

#[test]
fn sasl_plain_payload_is_nul_separated() {
    let encoded = base64_plain("alice", "secret");
    let decoded = base64::engine::general_purpose::STANDARD
        .decode(encoded)
        .expect("base64");
    assert_eq!(decoded, b"\0alice\0secret");
}

#[test]
fn xoauth2_payload_names_user_and_bearer_token() {
    let decoded = base64::engine::general_purpose::STANDARD
        .decode(xoauth2_response("alice", "tok"))
        .expect("base64");
    assert_eq!(decoded, b"user=alice\x01auth=Bearer tok\x01\x01");
}

#[test]
fn sasl_payloads_are_exact_standard_base64() {
    assert_eq!(base64_plain("alice", "secret"), "AGFsaWNlAHNlY3JldA==");
    assert_eq!(
        xoauth2_response("alice", "tok"),
        "dXNlcj1hbGljZQFhdXRoPUJlYXJlciB0b2sBAQ=="
    );
}

#[test]
fn a_session_numbers_its_commands() {
    let mut client = ImapClient::new(0u8);
    *client.stream_mut() = 5;
    assert_eq!(client.next_tag(), "a0001");
    assert_eq!(client.next_tag(), "a0002");
    assert!(client.skipped_lines().is_empty());
    assert_eq!(client.into_inner(), 5u8);
}

#[test]
fn only_the_newest_undecodable_lines_are_kept() {
    let mut lines = Vec::new();
    for i in 0..40 {
        push_bounded(&mut lines, format!("line {i}"));
    }
    assert_eq!(lines.len(), MAX_SKIPPED);
    assert_eq!(lines[0], "line 8");
    assert_eq!(lines[MAX_SKIPPED - 1], "line 39");

    let mut client = ImapClient::new(());
    client.record_skipped("junk".to_string());
    assert_eq!(client.skipped_lines(), &["junk".to_string()][..]);
    assert_eq!(client.take_skipped(), vec!["junk".to_string()]);
    assert!(client.skipped_lines().is_empty());
}

#[test]
fn completions_decide_the_outcome_of_a_command() {
    let ok = Completion { ok: true, text: "done".to_string(), code: String::new() };
    assert!(require_ok("SELECT", Some(&ok), 0).is_ok());
    let no = Completion { ok: false, text: "no such mailbox".to_string(), code: "TryCreate".to_string() };
    let error = require_ok("SELECT", Some(&no), 0).unwrap_err();
    assert_eq!(error.kind, MailErrorKind::Other);
    assert_eq!(error.message, "SELECT failed: no such mailbox TryCreate");
    let dropped = require_ok("FETCH", None, 3).unwrap_err();
    assert_eq!(dropped.kind, MailErrorKind::ConnectionDropped);
    assert_eq!(dropped.message, "FETCH produced no completion; skipped 3 undecodable line(s)");
}

#[test]
fn collect_steps_follow_the_response_kind() {
    match collect_step("a0002", &ResponseKind::Tagged { tag: "a0001".to_string(), ok: true, text: "done".to_string(), code: String::new() }) {
        CollectStep::Stop(error) => {
            assert_eq!(error.message, "IMAP response tag 'a0001' does not match command tag 'a0002'");
        }
        other => panic!("unexpected {other:?}"),
    }
    assert!(matches!(collect_step("a0002", &ResponseKind::Tagged { tag: "a0002".to_string(), ok: true, text: "done".to_string(), code: String::new() }), CollectStep::Complete));
    assert!(matches!(collect_step("a0002", &ResponseKind::Untagged("predicted".to_string())), CollectStep::KeepStatus));
    assert!(matches!(collect_step("a0002", &ResponseKind::Data), CollectStep::KeepData));
    match collect_step("a0002", &ResponseKind::Bye("Logging out".to_string())) {
        CollectStep::Stop(error) => {
            assert_eq!(error.kind, MailErrorKind::ConnectionDropped);
            assert_eq!(error.message, "server closed the session: Logging out");
        }
        other => panic!("unexpected {other:?}"),
    }
}

#[test]
fn sasl_lines_drive_the_exchange() {
    assert!(matches!(sasl_step("+ ", "a0003", "SASL PLAIN"), SaslStep::Respond));
    assert!(matches!(sasl_step("a0003 ok done", "a0003", "SASL PLAIN"), SaslStep::Accepted));
    match sasl_step("a0003 NO bad", "a0003", "SASL PLAIN") {
        SaslStep::Rejected(error) => {
            assert_eq!(error.kind, MailErrorKind::ImapAuthRejected);
            assert_eq!(error.message, "SASL PLAIN rejected: a0003 NO bad");
        }
        other => panic!("unexpected {other:?}"),
    }
    assert!(matches!(sasl_step("* CAPABILITY", "a0003", "SASL PLAIN"), SaslStep::Ignore));
}

#[test]
fn idle_rounds_end_on_change_or_deadline() {
    assert!(matches!(wait_step(&IdleRound::Changed, false), WaitStep::Finish(IdleOutcome::MailboxChanged)));
    assert!(matches!(wait_step(&IdleRound::Quiet, false), WaitStep::Again));
    assert!(matches!(wait_step(&IdleRound::Quiet, true), WaitStep::Finish(IdleOutcome::TimedOut)));
    let timeout = IdleRound::Failed { timed_out: true, message: "timed out".to_string() };
    assert!(matches!(wait_step(&timeout, false), WaitStep::Again));
    let broken = IdleRound::Failed { timed_out: false, message: "reset".to_string() };
    match wait_step(&broken, false) {
        WaitStep::Fail(error) => {
            assert_eq!(error.kind, MailErrorKind::ConnectionDropped);
            assert_eq!(error.message, "reset");
        }
        other => panic!("unexpected {other:?}"),
    }
    assert!(matches!(wait_step(&broken, true), WaitStep::Finish(IdleOutcome::TimedOut)));
    assert!(idle_accepted("+ idling").is_ok());
    assert_eq!(idle_accepted("a0001 BAD no").unwrap_err().message, "IDLE was not accepted: a0001 BAD no");
    assert_eq!(idle_first_line(Some("a0001 OK done"), "a0001"), IdleFirstLine::Completed);
    assert_eq!(idle_first_line(Some("* 3 EXISTS"), "a0001"), IdleFirstLine::Done { changed: true });
    assert_eq!(idle_first_line(None, "a0001"), IdleFirstLine::Done { changed: false });
}

#[test]
fn a_transport_failure_is_retried_once() {
    assert_eq!(after_failure(&MailError::connection_dropped("x"), 0), PoolStep::Reconnect);
    assert_eq!(after_failure(&MailError::transport_timeout("x"), 1), PoolStep::DropAndFail);
    assert_eq!(after_failure(&MailError::imap_auth_rejected("x"), 0), PoolStep::Fail);
}

#[test]
fn undecodable_lines_are_skipped_one_at_a_time() {
    assert_eq!(read_step(DecodeOutcome::Decoded { consumed: 7 }, b"* OK x\r\n"), ReadStep::Emit { consumed: 7 });
    assert_eq!(read_step(DecodeOutcome::Incomplete, b"* 1 FETCH"), ReadStep::ReadMore);
    assert_eq!(read_step(DecodeOutcome::Failed, b"* XWEIRD\r\n* OK"), ReadStep::SkipLine { end: 10 });
    assert_eq!(read_step(DecodeOutcome::Failed, b"* XWEI"), ReadStep::ReadMore);
}

#[test]
fn remote_accounts_use_the_app_owned_client() {
    assert!(app_owned_remote_transport_available());
}
