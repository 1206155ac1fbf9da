use solverforge_mail::attachments::{name_step, require_attachments, saved_report, NameProbe};
use solverforge_mail::template::draft_sender;
use solverforge_mail::attachments::{ensure_unique_attachment_name, extract_attachments};
use solverforge_mail::capabilities::looks_like_auth_failure;
use solverforge_mail::errors::{MailError, MailErrorKind};
use solverforge_mail::failures::{classify_smtp_failure, is_timeout, map_codec_error, map_imap_error, sieve_error};
use solverforge_mail::mime::parse_message;
use solverforge_mail::options::SendOptions;
use solverforge_mail::roles::FolderRole;
use solverforge_mail::search::{folder_description, imap_flag, imap_quote, uid_set};
use solverforge_mail::template::{forward_template, reply_template};
use solverforge_mail::template::{
    forward_subject, forwarded_body, parse_template_message, quoted_reply_body, render_template, reply_subject,
};

#[test]
fn subjects_are_prefixed_once() {
    assert_eq!(reply_subject(Some("Hi".to_string())), "Re: Hi");
    assert_eq!(reply_subject(Some("RE: Hi".to_string())), "RE: Hi");
    assert_eq!(reply_subject(None), "Re:");
    assert_eq!(forward_subject(Some("Hi".to_string())), "Fwd: Hi");
    assert_eq!(forward_subject(Some("fwd: Hi".to_string())), "fwd: Hi");
    assert_eq!(forward_subject(Some(String::new())), "Fwd:");
}

#[test]
fn templates_render_nonblank_headers_then_the_body() {
    let rendered = render_template(
        &[("To", " a@example.com ".to_string()), ("Cc", "  ".to_string()), ("Subject", "Hi".to_string())],
        "Hello",
    );
    assert_eq!(rendered, "To: a@example.com\nSubject: Hi\n\nHello");
    let parsed = parse_template_message(&rendered);
    assert_eq!(parsed.header("to"), Some("a@example.com"));
    assert_eq!(parsed.header("cc"), None);
    assert_eq!(parsed.body, "Hello");
}

#[test]
fn replies_quote_and_forwards_list_the_original() {
    let raw = b"From: Alice <a@example.com>\r\nDate: Mon, 1 Jan 2026 10:00:00 +0000\r\nSubject: Plans\r\nTo: b@example.com\r\n\r\nSee you\r\n";
    let message = parse_message(raw).unwrap();
    let reply = quoted_reply_body(&message);
    assert!(reply.starts_with("\nOn Mon, 1 Jan 2026 10:00:00 +0000, Alice <a@example.com> wrote:\n"), "{reply}");
    assert!(reply.contains("> See you"), "{reply}");
    let forward = forwarded_body(&message);
    assert!(forward.starts_with("---------- Forwarded message ----------\nFrom: Alice <a@example.com>\n"), "{forward}");
    assert!(forward.contains("Subject: Plans"), "{forward}");
}

#[test]
fn attachments_are_named_and_kept() {
    let raw = b"MIME-Version: 1.0\r\nContent-Type: multipart/mixed; boundary=b\r\n\r\n--b\r\nContent-Type: text/plain\r\n\r\nbody\r\n--b\r\nContent-Type: application/pdf; name=\"q2.pdf\"\r\nContent-Disposition: attachment; filename=\"q2.pdf\"\r\n\r\nPDF\r\n--b--";
    let attachments = extract_attachments(raw).unwrap();
    assert_eq!(attachments.len(), 1);
    assert_eq!(attachments[0].0, "q2.pdf");
    let base = "/nonexistent/solverforge-mail-attachments";
    assert_eq!(ensure_unique_attachment_name(base, 1, "a/b.txt"), "a_b.txt");
    assert_eq!(ensure_unique_attachment_name(base, 3, "  "), "attachment-4");
}

#[test]
fn search_helpers_quote_and_join() {
    assert_eq!(uid_set(&[1, 5, 42]), "1,5,42");
    assert_eq!(uid_set(&[]), "");
    assert_eq!(imap_flag("seen"), "\\Seen");
    assert_eq!(imap_flag("Deleted"), "\\Deleted");
    assert_eq!(imap_flag("$label"), "$label");
    assert_eq!(imap_quote("a\"b"), "\"a\\\"b\"");
    assert_eq!(folder_description("INBOX").as_deref(), Some("Incoming messages"));
    assert_eq!(folder_description("Archive"), None);
    assert_eq!(FolderRole::from_name("Sent Items"), FolderRole::Sent);
}

#[test]
fn failures_are_classified() {
    assert!(looks_like_auth_failure("AUTHENTICATIONFAILED bad"));
    assert!(!looks_like_auth_failure("mailbox is full"));
    let lost = map_imap_error(imap::error::Error::ConnectionLost);
    assert_eq!(lost.kind, MailErrorKind::ConnectionDropped);
    let no = map_imap_error(imap::error::Error::No("[AUTHENTICATIONFAILED] Invalid credentials".to_string()));
    assert_eq!(no.kind, MailErrorKind::ImapAuthRejected);
    let bad = map_imap_error(imap::error::Error::Bad("syntax".to_string()));
    assert_eq!(bad.kind, MailErrorKind::Other);
    assert_eq!(bad.message, "syntax");
    assert_eq!(classify_smtp_failure(true, false, false, "x").kind, MailErrorKind::TlsFailure);
    assert_eq!(classify_smtp_failure(false, false, false, "535 5.7.8").kind, MailErrorKind::SmtpAuthRejected);
    assert_eq!(classify_smtp_failure(false, false, true, "gone").kind, MailErrorKind::ConnectionDropped);
    let timeout = map_codec_error(anyhow::Error::new(std::io::Error::new(std::io::ErrorKind::TimedOut, "slow")));
    assert_eq!(timeout.kind, MailErrorKind::TransportTimeout);
    let sieve = sieve_error(anyhow::Error::msg("connect to sieve.example.com:4190"));
    assert_eq!(sieve.kind, MailErrorKind::ConnectionDropped);
    assert_eq!(sieve.message, "Sieve: connect to sieve.example.com:4190");
    assert_eq!(sieve_error(anyhow::Error::msg("NO")).kind, MailErrorKind::Other);
    let io = map_imap_error(imap::error::Error::Io(std::io::Error::new(std::io::ErrorKind::TimedOut, "slow")));
    assert_eq!(io.kind, MailErrorKind::TransportTimeout);
    let refused = map_imap_error(imap::error::Error::Io(std::io::Error::new(std::io::ErrorKind::ConnectionRefused, "no")));
    assert_eq!(refused.kind, MailErrorKind::Io);
    let wrapped = anyhow::Error::new(std::io::Error::new(std::io::ErrorKind::WouldBlock, "later")).context("reading");
    assert_eq!(map_codec_error(wrapped).kind, MailErrorKind::TransportTimeout);
    let reset = anyhow::Error::new(std::io::Error::new(std::io::ErrorKind::ConnectionReset, "reset"));
    assert_eq!(map_codec_error(reset).kind, MailErrorKind::ConnectionDropped);
    assert_eq!(map_codec_error(anyhow::Error::msg("IMAP server closed the connection")).kind, MailErrorKind::ConnectionDropped);
    assert_eq!(map_codec_error(anyhow::Error::msg("unexpected")).kind, MailErrorKind::Other);
    let timed_out = anyhow::Error::new(std::io::Error::new(std::io::ErrorKind::TimedOut, "slow")).context("idle");
    assert!(is_timeout(&timed_out));
    assert!(!is_timeout(&anyhow::Error::msg("slow")));
}

#[test]
fn errors_describe_themselves() {
    let error = MailError::secret_missing("no secret");
    assert_eq!(error.kind, MailErrorKind::SecretMissing);
    assert_eq!(error.describe(), "no secret");
    assert!(MailError::transport_timeout("t").is_transport());
    assert!(!MailError::io("t").is_transport());
}

#[test]
fn send_options_name_the_protection() {
    let none = SendOptions::default();
    assert!(!none.is_protected());
    let pgp = SendOptions { sign: true, ..SendOptions::default() };
    assert!(pgp.is_pgp());
    assert!(!pgp.is_smime());
    assert!(pgp.is_protected());
    let smime = SendOptions { smime_encrypt: true, ..SendOptions::default() };
    assert!(smime.is_smime());
    assert!(smime.is_protected());
}

#[test]
fn a_draft_is_from_its_first_from_line() {
    assert_eq!(draft_sender("To: b@example.com\nFrom:  Alice <a@example.com> \r\n\nbody"), "Alice <a@example.com>");
    assert_eq!(draft_sender("From: first@example.com\nFrom: second@example.com\n"), "first@example.com");
    assert_eq!(draft_sender("from: lower@example.com\n\nbody"), "");
    assert_eq!(draft_sender("From:\n"), "");
    assert_eq!(draft_sender(""), "");
}

#[test]
fn reply_and_forward_templates_address_and_quote_the_original() {
    let raw = b"From: Alice <a@example.com>\r\nReply-To: list@example.com\r\nCc: c@example.com\r\nDate: Mon, 1 Jan 2026 10:00:00 +0000\r\nSubject: Plans\r\n\r\nSee you\r\n";
    let message = parse_message(raw).unwrap();

    let reply = reply_template(&message, false, &[("In-Reply-To", "<m1@example.com>".to_string())]);
    assert!(
        reply.starts_with("To: list@example.com\nSubject: Re: Plans\nIn-Reply-To: <m1@example.com>\n\n"),
        "{reply}"
    );
    assert!(reply.ends_with(&quoted_reply_body(&message)), "{reply}");

    let reply_all = reply_template(&message, true, &[]);
    assert!(reply_all.starts_with("To: list@example.com\nCc: c@example.com\nSubject: Re: Plans\n\n"), "{reply_all}");

    let forward = forward_template(&message);
    assert_eq!(forward, format!("Subject: Fwd: Plans\n\n{}", forwarded_body(&message)));
}

#[test]
fn a_taken_name_moves_on_to_the_next_variant() {
    assert_eq!(name_step("report.pdf", 1, false), NameProbe::Use("report.pdf".to_string()));
    assert_eq!(name_step("report.pdf", 1, true), NameProbe::Try(2));
    assert_eq!(name_step("report.pdf", 2, false), NameProbe::Use("report-2.pdf".to_string()));
    assert_eq!(name_step("notes", 7, false), NameProbe::Use("notes-7".to_string()));
    assert_eq!(name_step("report.pdf", 998, true), NameProbe::Try(999));
    assert_eq!(name_step("report.pdf", 999, true), NameProbe::Use("report.pdf".to_string()));
}

#[test]
fn downloads_need_attachments_and_report_the_saved_paths() {
    let none: Vec<(String, Vec<u8>)> = vec![];
    let refused = require_attachments(&none).unwrap_err();
    assert_eq!(refused.kind, MailErrorKind::UnsupportedFeature);
    assert_eq!(refused.message, "this message does not include any downloadable attachments");
    assert!(require_attachments(&[("a.pdf".to_string(), vec![1])]).is_ok());
    assert_eq!(
        saved_report(&vec!["/d/a.pdf".to_string(), "/d/b.txt".to_string()]),
        "/d/a.pdf, /d/b.txt"
    );
    assert_eq!(saved_report(&vec![]), "");
}
