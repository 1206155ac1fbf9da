use solverforge_mail::errors::MailErrorKind;
use solverforge_mail::keyring::{lookup_args, secret_from_lookup, LookupOutcome};

#[test]
fn a_lookup_names_the_service_user_and_application() {
    assert_eq!(
        lookup_args("imap.example.com", "alice"),
        vec![
            "lookup", "service", "imap.example.com", "username", "alice", "application",
            "solverforge-mail",
        ]
    );
}

#[test]
fn a_lookup_outcome_becomes_a_secret_or_a_keyring_error() {
    let secret = secret_from_lookup(
        "imap",
        LookupOutcome::Succeeded { stdout: "  hunter2\n".to_string() },
    );
    assert_eq!(secret.unwrap(), "hunter2");

    let missing = secret_from_lookup("imap", LookupOutcome::Succeeded { stdout: " \n".to_string() }).unwrap_err();
    assert_eq!(missing.kind, MailErrorKind::SecretMissing);
    assert_eq!(missing.message, "no secret found for service imap");

    let absent = secret_from_lookup("imap", LookupOutcome::NotInstalled).unwrap_err();
    assert_eq!(absent.kind, MailErrorKind::KeyringUnavailable);
    assert_eq!(absent.message, "secret-tool is not installed or not available in PATH");

    let failed = secret_from_lookup(
        "imap",
        LookupOutcome::Failed { stderr: "locked collection\n".to_string() },
    )
    .unwrap_err();
    assert_eq!(failed.kind, MailErrorKind::KeyringUnavailable);
    assert_eq!(failed.message, "locked collection");

    let denied = secret_from_lookup("imap", LookupOutcome::NotStarted("permission denied".to_string())).unwrap_err();
    assert_eq!(denied.kind, MailErrorKind::KeyringUnavailable);
    assert_eq!(denied.message, "permission denied");
}
