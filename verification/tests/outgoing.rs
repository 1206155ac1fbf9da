use solverforge_mail::accounts::{account_username, ensure_account, ensure_requested_account, AccountRecord};
use solverforge_mail::capabilities::Security;
use solverforge_mail::errors::MailErrorKind;
use solverforge_mail::options::SendOptions;
use solverforge_mail::outgoing::{
    draft_status, imap_login_plan, smtp_login_plan_after_tls, outgoing_plan, sent_status, smtp_probe_result, smtp_login_plan, wrapping_of, AuthPlan, Wrapping,
};
use solverforge_mail::addresses::{parse_mailbox, parse_mailboxes};
use solverforge_mail::template::parse_template_message;

fn account() -> AccountRecord {
    AccountRecord {
        name: "work".to_string(),
        backend_kind: "imap".to_string(),
        provider_kind: "generic".to_string(),
        enabled: true,
        is_default: false,
        maildir_path: None,
        imap_host: Some("imap.example.com".to_string()),
        imap_port: Some(993),
        imap_security: Some("ssl".to_string()),
        smtp_host: Some("smtp.example.com".to_string()),
        smtp_port: Some(587),
        smtp_security: Some("starttls".to_string()),
        sieve_host: None,
        sieve_port: None,
        sieve_security: None,
        auth_mode: None,
        username: Some("alice@example.com".to_string()),
        keyring_imap_secret_id: Some("work-imap".to_string()),
        keyring_smtp_secret_id: Some("work-smtp".to_string()),
    }
}

#[test]
fn login_plans_come_from_the_account() {
    let imap = imap_login_plan(&account()).unwrap();
    assert_eq!(imap.host, "imap.example.com");
    assert_eq!(imap.port, 993);
    assert_eq!(imap.security, Security::Tls);
    assert_eq!(imap.auth, AuthPlan::Password { secret_id: "work-imap".to_string() });
    let smtp = smtp_login_plan(&account()).unwrap();
    assert_eq!(smtp.security, Security::StartTls);
    assert_eq!(smtp.auth, AuthPlan::Password { secret_id: "work-smtp".to_string() });

    let oauth = AccountRecord { auth_mode: Some("oauth2".to_string()), ..account() };
    assert_eq!(imap_login_plan(&oauth).unwrap().auth, AuthPlan::OAuth2);
    let odd = AccountRecord { auth_mode: Some("kerberos".to_string()), ..account() };
    let error = imap_login_plan(&odd).unwrap_err();
    assert_eq!(error.kind, MailErrorKind::UnsupportedFeature);
    assert_eq!(error.message, "unsupported auth mode: kerberos");
    let portless = AccountRecord { smtp_port: None, ..account() };
    assert_eq!(smtp_login_plan(&portless).unwrap_err().message, "SMTP port is missing");
    let hostless = AccountRecord { imap_host: None, ..account() };
    assert_eq!(imap_login_plan(&hostless).unwrap_err().message, "IMAP host is missing");
    let secretless = AccountRecord { keyring_smtp_secret_id: None, ..account() };
    assert_eq!(smtp_login_plan(&secretless).unwrap_err().message, "SMTP secret reference is missing");
}

#[test]
fn a_template_describes_the_message_to_send() {
    let draft = parse_template_message(
        "To: b@example.com\nCc: c@example.com\nSubject: Hi\nAttachment: /tmp/a.pdf\nAttachment:  \n\nHello",
    );
    let plan = outgoing_plan(&draft, Some("alice@example.com")).unwrap();
    assert_eq!(plan.from, "alice@example.com");
    assert_eq!(plan.to, vec!["b@example.com".to_string()]);
    assert_eq!(plan.cc, vec!["c@example.com".to_string()]);
    assert!(plan.bcc.is_empty());
    assert_eq!(plan.subject, "Hi");
    assert_eq!(plan.body, "Hello");
    assert_eq!(plan.attachments, vec!["/tmp/a.pdf".to_string()]);

    let no_from = outgoing_plan(&draft, None).unwrap_err();
    assert_eq!(no_from.message, "a From address is required to send mail");
    let no_to = outgoing_plan(&parse_template_message("From: a@example.com\n\nHi"), None).unwrap_err();
    assert_eq!(no_to.kind, MailErrorKind::InvalidInput);
    assert_eq!(no_to.message, "a To address is required to send mail");
    let injected = outgoing_plan(&parse_template_message("To: b@example.com\rBcc: x@example.com\n\nHi"), None)
        .unwrap_err();
    assert_eq!(injected.message, "header to contains a line break");
}

#[test]
fn a_send_wraps_once_and_reports_its_status() {
    assert_eq!(wrapping_of(&SendOptions::default()).unwrap(), Wrapping::Plain);
    assert_eq!(wrapping_of(&SendOptions { encrypt: true, ..SendOptions::default() }).unwrap(), Wrapping::Pgp);
    assert_eq!(wrapping_of(&SendOptions { smime_sign: true, ..SendOptions::default() }).unwrap(), Wrapping::Smime);
    let both = SendOptions { sign: true, smime_sign: true, ..SendOptions::default() };
    assert_eq!(
        wrapping_of(&both).unwrap_err().message,
        "choose either PGP/MIME or S/MIME for one message, not both"
    );
    assert_eq!(sent_status(None), "Message sent.");
    assert_eq!(sent_status(Some("quota")), "Message sent, but saving to Sent failed: quota");
}

#[test]
fn recipients_are_read_as_mailboxes() {
    let draft = parse_template_message(
        "From: Alice <alice@example.com>\nTo: Bob <bob@example.com>, carol@example.com\nBcc: dave@example.com\n\nHi",
    );
    let plan = outgoing_plan(&draft, None).unwrap();
    assert_eq!(plan.from, "Alice <alice@example.com>");
    assert_eq!(
        plan.to,
        vec!["Bob <bob@example.com>".to_string(), "carol@example.com".to_string()]
    );
    assert!(plan.cc.is_empty());
    assert_eq!(plan.bcc, vec!["dave@example.com".to_string()]);
}

#[test]
fn address_lists_keep_names_and_order() {
    assert_eq!(
        parse_mailboxes("Alice <alice@example.com>, bob@example.com").unwrap(),
        vec!["Alice <alice@example.com>".to_string(), "bob@example.com".to_string()]
    );
    assert_eq!(parse_mailbox("bob@example.com, carol@example.com").unwrap(), "bob@example.com");
    let refused = parse_mailboxes("bob").unwrap_err();
    assert_eq!(refused.kind, MailErrorKind::InvalidInput);
}

#[test]
fn a_service_serves_only_its_own_account() {
    let record = account();
    assert!(ensure_account(&record, "work").is_ok());
    let other = ensure_account(&record, "home").unwrap_err();
    assert_eq!(other.kind, MailErrorKind::AccountNotFound);
    assert_eq!(other.message, "home");
    assert!(ensure_requested_account(&record, None).is_ok());
    assert_eq!(account_username(&record).unwrap(), "alice@example.com");
    let anonymous = AccountRecord { username: None, ..account() };
    assert_eq!(account_username(&anonymous).unwrap_err().message, "account username is missing");
    assert!(ensure_requested_account(&record, Some("work")).is_ok());
    assert_eq!(
        ensure_requested_account(&record, Some("Work")).unwrap_err().kind,
        MailErrorKind::AccountNotFound
    );
}

#[test]
fn probes_and_drafts_report_plainly() {
    assert!(smtp_probe_result(true).is_ok());
    let closed = smtp_probe_result(false).unwrap_err();
    assert_eq!(closed.kind, MailErrorKind::ConnectionDropped);
    assert_eq!(closed.message, "SMTP server closed the connection during NOOP");
    assert_eq!(draft_status(true), "Draft saved.");
    assert_eq!(draft_status(false), "Draft saved locally only (no Drafts mailbox found).");
}

#[test]
fn smtp_tls_setup_is_checked_before_the_secret() {
    let no_secret = AccountRecord { keyring_smtp_secret_id: None, ..account() };
    let tls = smtp_login_plan_after_tls(&no_secret, Some("no trust store")).unwrap_err();
    assert_eq!(tls.kind, MailErrorKind::TlsFailure);
    assert_eq!(tls.message, "no trust store");
    let plain = AccountRecord { smtp_security: Some("plain".to_string()), ..no_secret.clone() };
    let missing = smtp_login_plan_after_tls(&plain, Some("no trust store")).unwrap_err();
    assert_eq!(missing.kind, MailErrorKind::ConfigInvalid);
    assert_eq!(missing.message, "SMTP secret reference is missing");
    let plan = smtp_login_plan_after_tls(&account(), None).unwrap();
    assert_eq!(plan.host, "smtp.example.com");
    let no_host = AccountRecord { smtp_host: None, ..account() };
    assert_eq!(smtp_login_plan_after_tls(&no_host, Some("x")).unwrap_err().message, "SMTP host is missing");
}
