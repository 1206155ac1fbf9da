use solverforge_mail::accounts::{
    choose_account, resolve_sieve_target, route_of, sieve_settings, sort_account_records, AccountRecord, Route,
};
use solverforge_mail::errors::{is_offline, MailError, MailErrorKind};
use solverforge_mail::sieve::SieveSecurity;

fn stored_account(name: &str, backend_kind: &str) -> AccountRecord {
    AccountRecord {
        name: name.to_string(),
        backend_kind: backend_kind.to_string(),
        provider_kind: "generic".to_string(),
        enabled: true,
        is_default: false,
        maildir_path: None,
        imap_host: Some("imap.example.com".to_string()),
        imap_port: Some(993),
        imap_security: Some("tls".to_string()),
        smtp_host: Some("smtp.example.com".to_string()),
        smtp_port: Some(465),
        smtp_security: Some("tls".to_string()),
        sieve_host: None,
        sieve_port: None,
        sieve_security: None,
        auth_mode: Some("password".to_string()),
        username: Some("alice@example.com".to_string()),
        keyring_imap_secret_id: Some("solverforge-mail/work/imap".to_string()),
        keyring_smtp_secret_id: Some("solverforge-mail/work/smtp".to_string()),
    }
}

fn check_routable() {
    assert!(stored_account("work", "imap").is_routable());
    assert!(stored_account("test", "maildir").is_routable());
}

#[test]
fn service_stored_imap_accounts_are_routable() {
    check_routable();
}

#[test]
fn tests_stored_imap_accounts_are_routable() {
    check_routable();
}

fn check_sort() {
    let mut accounts = vec![
        stored_account("test", "maildir"),
        AccountRecord {
            is_default: true,
            ..stored_account("work", "imap")
        },
    ];

    sort_account_records(&mut accounts);

    assert_eq!(accounts[0].name, "work");
    assert_eq!(accounts[1].name, "test");
}

#[test]
fn service_account_sort_keeps_default_remote_ahead_of_local_test_account() {
    check_sort();
}

#[test]
fn tests_account_sort_keeps_default_remote_ahead_of_local_test_account() {
    check_sort();
}

fn check_offline() {
    assert!(is_offline(&MailError::transport_timeout("timed out")));
    assert!(is_offline(&MailError::connection_dropped("closed")));
    assert!(!is_offline(&MailError::imap_auth_rejected("bad password")));
    assert!(!is_offline(&MailError::config_invalid("missing host")));
}

#[test]
fn service_offline_errors_are_classified_for_cache_fallback() {
    check_offline();
}

#[test]
fn tests_offline_errors_are_classified_for_cache_fallback() {
    check_offline();
}

fn record() -> AccountRecord {
    AccountRecord {
        name: "work".to_string(),
        backend_kind: "imap".to_string(),
        provider_kind: "generic".to_string(),
        enabled: true,
        is_default: false,
        maildir_path: None,
        imap_host: Some("imap.example.com".to_string()),
        imap_port: Some(993),
        imap_security: Some("tls".to_string()),
        smtp_host: Some("smtp.example.com".to_string()),
        smtp_port: Some(465),
        smtp_security: Some("tls".to_string()),
        sieve_host: None,
        sieve_port: None,
        sieve_security: None,
        auth_mode: Some("password".to_string()),
        username: Some("alice@example.com".to_string()),
        keyring_imap_secret_id: Some("work-imap".to_string()),
        keyring_smtp_secret_id: Some("work-smtp".to_string()),
    }
}

#[test]
fn falls_back_to_the_imap_host_and_starttls() {
    let (host, port, security) = resolve_sieve_target(&record(), None).unwrap();
    assert_eq!(host, "imap.example.com");
    assert_eq!(port, 4190);
    assert_eq!(security, SieveSecurity::StartTls);
}

#[test]
fn explicit_sieve_settings_win() {
    let mut record = record();
    record.sieve_host = Some("sieve.example.com".to_string());
    record.sieve_port = Some(14190);
    record.sieve_security = Some("tls".to_string());

    let (host, port, security) = resolve_sieve_target(&record, None).unwrap();
    assert_eq!(host, "sieve.example.com");
    assert_eq!(port, 14190);
    assert_eq!(security, SieveSecurity::Tls);
}

#[test]
fn plain_imap_keeps_sieve_plaintext() {
    let mut record = record();
    record.imap_security = Some("plain".to_string());
    let (_, _, security) = resolve_sieve_target(&record, None).unwrap();
    assert_eq!(security, SieveSecurity::Plain);
}

#[test]
fn a_port_from_the_environment_applies_only_without_an_account_port() {
    let (_, port, _) = resolve_sieve_target(&record(), Some("2000")).unwrap();
    assert_eq!(port, 2000);
    let (_, port, _) = resolve_sieve_target(&record(), Some("+2001")).unwrap();
    assert_eq!(port, 2001);
    let (_, port, _) = resolve_sieve_target(&record(), Some("70000")).unwrap();
    assert_eq!(port, 4190);
    let (_, port, _) = resolve_sieve_target(&record(), Some("x")).unwrap();
    assert_eq!(port, 4190);
    let mut own = record();
    own.sieve_port = Some(1234);
    let (_, port, _) = resolve_sieve_target(&own, Some("2000")).unwrap();
    assert_eq!(port, 1234);
}

#[test]
fn a_record_without_hosts_has_no_sieve_target() {
    let mut record = record();
    record.imap_host = None;
    let error = resolve_sieve_target(&record, None).unwrap_err();
    assert_eq!(error.kind, MailErrorKind::ConfigInvalid);
    assert_eq!(error.message, "IMAP host is missing");
}

#[test]
fn sieve_settings_need_a_username_and_a_secret() {
    let settings = sieve_settings(&record(), None).unwrap();
    assert_eq!(settings.username, "alice@example.com");
    assert_eq!(settings.secret_id, "work-imap");

    let mut nameless = record();
    nameless.username = None;
    assert_eq!(sieve_settings(&nameless, None).unwrap_err().message, "account username is missing");

    let mut secretless = record();
    secretless.keyring_imap_secret_id = None;
    assert_eq!(
        sieve_settings(&secretless, None).unwrap_err().message,
        "IMAP secret reference is missing"
    );
}

#[test]
fn disabled_and_unknown_backends_are_not_routable() {
    let mut disabled = stored_account("work", "imap");
    disabled.enabled = false;
    assert!(!disabled.is_routable());
    assert!(!stored_account("work", "pop3").is_routable());
    assert!(stored_account("work", "IMAP").is_routable());
}

#[test]
fn sorting_orders_defaults_then_remote_then_names() {
    let mut accounts = vec![
        stored_account("zeta", "imap"),
        stored_account("local", "maildir"),
        stored_account("alpha", "imap"),
        AccountRecord { is_default: true, ..stored_account("main", "maildir") },
    ];
    sort_account_records(&mut accounts);
    let names: Vec<&str> = accounts.iter().map(|a| a.name.as_str()).collect();
    assert_eq!(names, vec!["main", "alpha", "zeta", "local"]);
}

#[test]
fn choosing_an_account_prefers_the_named_one_or_the_first_offered() {
    let records = vec![
        stored_account("test", "maildir"),
        stored_account("work", "imap"),
        stored_account("off", "pop3"),
    ];
    assert_eq!(choose_account(records.clone(), None).unwrap().name, "work");
    assert_eq!(choose_account(records.clone(), Some("test")).unwrap().name, "test");
    let missing = choose_account(records.clone(), Some("nobody")).unwrap_err();
    assert_eq!(missing.kind, MailErrorKind::AccountNotFound);
    assert_eq!(missing.message, "nobody");
    let unroutable = choose_account(records, Some("off")).unwrap_err();
    assert_eq!(unroutable.kind, MailErrorKind::AccountNotFound);
    let none = choose_account(vec![stored_account("off", "pop3")], None).unwrap_err();
    assert_eq!(none.message, "no configured account");
}

#[test]
fn routes_follow_the_backend() {
    let mut maildir = stored_account("test", "maildir");
    match route_of(&maildir).unwrap_err() {
        error => {
            assert_eq!(error.kind, MailErrorKind::ConfigInvalid);
            assert_eq!(error.message, "account test is missing a maildir path");
        }
    }
    maildir.maildir_path = Some("/tmp/mail".to_string());
    match route_of(&maildir).unwrap() {
        Route::Maildir { name, path, is_default } => {
            assert_eq!(name, "test");
            assert_eq!(path, "/tmp/mail");
            assert!(!is_default);
        }
        Route::Remote => panic!("a maildir account routes to its maildir"),
    }
    assert!(matches!(route_of(&stored_account("work", "imap")).unwrap(), Route::Remote));
    let error = route_of(&stored_account("work", "pop3")).unwrap_err();
    assert_eq!(error.kind, MailErrorKind::UnsupportedFeature);
    assert_eq!(error.message, "unsupported backend kind: pop3");
}
