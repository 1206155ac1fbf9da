use solverforge_mail::mime::{detect_protection, parse_message, Protection};
use solverforge_mail::security::parse_authentication_results;

#[test]
fn parses_spf_dkim_dmarc() {
    let value = "mx.example.com; spf=pass (sender ok) smtp.mailfrom=a@b.com; \
                 dkim=pass header.d=b.com; dmarc=pass header.from=b.com";
    let verdicts = parse_authentication_results(&[value]);

    assert_eq!(verdicts.spf.as_deref(), Some("pass"));
    assert_eq!(verdicts.dkim.as_deref(), Some("pass"));
    assert_eq!(verdicts.dmarc.as_deref(), Some("pass"));
    assert_eq!(
        verdicts.summary().as_deref(),
        Some("SPF pass \u{00b7} DKIM pass \u{00b7} DMARC pass")
    );
}

#[test]
fn reports_failures_and_missing_results() {
    let verdicts = parse_authentication_results(&["mx; spf=fail; dkim=none"]);
    assert_eq!(verdicts.spf.as_deref(), Some("fail"));
    assert_eq!(verdicts.dkim.as_deref(), Some("none"));
    assert!(verdicts.dmarc.is_none());

    let empty = parse_authentication_results(&[]);
    assert!(empty.is_empty());
    assert!(empty.summary().is_none());
}

#[test]
fn later_headers_override_earlier() {
    let verdicts = parse_authentication_results(&["mx; spf=fail", "mx; spf=pass"]);
    assert_eq!(verdicts.spf.as_deref(), Some("pass"));
}

#[test]
fn detects_pgp_signed_and_encrypted() {
    let signed = b"MIME-Version: 1.0\r\nContent-Type: multipart/signed; protocol=\"application/pgp-signature\"; boundary=s\r\n\r\n--s\r\nContent-Type: text/plain\r\n\r\nhello\r\n--s\r\nContent-Type: application/pgp-signature\r\n\r\nsig\r\n--s--";
    assert_eq!(
        detect_protection(&parse_message(signed).unwrap()),
        Some(Protection::PgpSigned)
    );

    let encrypted = b"MIME-Version: 1.0\r\nContent-Type: multipart/encrypted; protocol=\"application/pgp-encrypted\"; boundary=e\r\n\r\n--e\r\nContent-Type: application/pgp-encrypted\r\n\r\nVersion: 1\r\n--e\r\nContent-Type: application/octet-stream\r\n\r\ncipher\r\n--e--";
    assert_eq!(
        detect_protection(&parse_message(encrypted).unwrap()),
        Some(Protection::PgpEncrypted)
    );
}

#[test]
fn detects_smime_and_ignores_plain() {
    let smime = b"MIME-Version: 1.0\r\nContent-Type: application/pkcs7-mime; smime-type=enveloped-data; name=smime.p7m\r\n\r\nbinary";
    assert_eq!(
        detect_protection(&parse_message(smime).unwrap()),
        Some(Protection::SmimeEncrypted)
    );

    let plain = b"From: a@b\r\nSubject: hi\r\n\r\nplain body";
    assert_eq!(
        detect_protection(&parse_message(plain).unwrap()),
        None
    );
}

#[test]
fn protection_labels_name_the_scheme() {
    assert_eq!(Protection::PgpSigned.label(), "PGP signed");
    assert_eq!(Protection::PgpEncrypted.label(), "PGP encrypted");
    assert_eq!(Protection::SmimeSigned.label(), "S/MIME signed");
    assert_eq!(Protection::SmimeEncrypted.label(), "S/MIME encrypted");
}

#[test]
fn verdicts_without_results_summarize_the_ones_present() {
    let verdicts = parse_authentication_results(&["mx; dmarc=fail"]);
    assert!(!verdicts.is_empty());
    assert_eq!(verdicts.summary().as_deref(), Some("DMARC fail"));
}
