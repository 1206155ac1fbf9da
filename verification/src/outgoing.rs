//! Sending mail: what an account says about how to log in to its IMAP and
//! SMTP servers, what a compose template says about the message to build,
//! and which protection a send asks for.
use vstd::prelude::*;
use crate::text::strings_view;
use crate::text::opt_view;
use crate::text::opt_str_view;

use crate::accounts::AccountRecord;
use crate::addresses::{parse_mailbox, parse_mailboxes, parsed_mailbox, parsed_mailboxes};
use crate::capabilities::Security;
use crate::capabilities::security_of;
use crate::errors::MailError;
use crate::errors::MailErrorKind;
use crate::errors::MailResult;
use crate::options::SendOptions;
use crate::template::TemplateMessage;
use crate::template::template_header_spec;
use crate::template::pairs_view;
use crate::text::chars_of;
use crate::text::string_of;
use crate::text::push_all;
use crate::text::str_eq;
use crate::text::eq_ci;
use crate::text::eq_ignore_ascii_case;
use crate::text::trim;
use crate::text::trim_str;

verus! {

// ---------------------------------------------------------------------------
// Logging in.
// ---------------------------------------------------------------------------
/// How a session authenticates.
#[derive(Debug, Clone, PartialEq, Eq)]
pub enum AuthPlan {
    /// A password kept in the keyring under this secret reference.
    Password { secret_id: String },
    /// An OAuth2 access token (XOAUTH2).
    OAuth2,
}

/// Where a server is and how to log in to it.
#[derive(Debug, Clone, PartialEq, Eq)]
pub struct LoginPlan {
    pub host: String,
    pub port: u16,
    pub security: Security,
    pub username: String,
    pub auth: AuthPlan,
}

/// The secret reference of a password login.
pub open spec fn auth_secret(a: AuthPlan) -> Option<Seq<char>> {
    match a {
        AuthPlan::Password { secret_id } => Some(secret_id@),
        AuthPlan::OAuth2 => None,
    }
}

/// The authentication mode an account names, `password` when it names none.
pub open spec fn auth_mode_of(mode: Option<String>) -> Seq<char> {
    match mode {
        Some(m) => m@,
        None => "password"@,
    }
}

/// What an account's settings say about logging in to one of its servers:
/// the first missing setting, in the order host, port, user name, secret
/// reference (for password logins), or an unknown authentication mode, is an
/// error; otherwise the plan.
pub open spec fn login_plan_ok(
    r: MailResult<LoginPlan>,
    server: Seq<char>,
    host: Option<String>,
    port: Option<u16>,
    security: Option<String>,
    username: Option<String>,
    mode: Option<String>,
    secret: Option<String>,
) -> bool {
    match (host, port, username) {
        (None, _, _) => r matches Err(e) && e.kind == MailErrorKind::ConfigInvalid && e.message@ == server + " host is missing"@,
        (Some(_), None, _) => r matches Err(e) && e.kind == MailErrorKind::ConfigInvalid && e.message@ == server + " port is missing"@,
        (Some(_), Some(_), None) => r matches Err(e) && e.kind == MailErrorKind::ConfigInvalid && e.message@ == "account username is missing"@,
        (Some(h), Some(p), Some(u)) => {
            let m = auth_mode_of(mode);
            if m == "password"@ || m == "app_password"@ {
                match secret {
                    Some(s) => r matches Ok(plan) && plan.host@ == h@ && plan.port == p
                        && plan.security == security_of(match security { Some(v) => v@, None => "tls"@ })
                        && plan.username@ == u@ && auth_secret(plan.auth) == Some(s@),
                    None => r matches Err(e) && e.kind == MailErrorKind::ConfigInvalid
                        && e.message@ == server + " secret reference is missing"@,
                }
            } else if m == "oauth2"@ {
                r matches Ok(plan) && plan.host@ == h@ && plan.port == p
                    && plan.security == security_of(match security { Some(v) => v@, None => "tls"@ })
                    && plan.username@ == u@ && plan.auth == AuthPlan::OAuth2
            } else {
                r matches Err(e) && e.kind == MailErrorKind::UnsupportedFeature
                    && e.message@ == "unsupported auth mode: "@ + m
            }
        },
    }
}

fn missing(server: &str, what: &str) -> (r: MailError)
    ensures
        r.kind == MailErrorKind::ConfigInvalid,
        r.message@ == server@ + what@,
{
    let mut m = chars_of(server);
    push_all(&mut m, chars_of(what).as_slice());
    MailError::new(MailErrorKind::ConfigInvalid, string_of(m.as_slice()))
}

fn login_plan(
    server: &str,
    host: &Option<String>,
    port: Option<u16>,
    security: &Option<String>,
    username: &Option<String>,
    mode: &Option<String>,
    secret: &Option<String>,
) -> (r: MailResult<LoginPlan>)
    ensures
        login_plan_ok(r, server@, *host, port, *security, *username, *mode, *secret),
{
    let host = match host {
        Some(h) => h.clone(),
        None => {
            return Err(missing(server, " host is missing"));
        },
    };
    let port = match port {
        Some(p) => p,
        None => {
            return Err(missing(server, " port is missing"));
        },
    };
    let level = Security::normalize(
        match security {
            Some(s) => Some(s.as_str()),
            None => None,
        },
        "tls",
    );
    let username = match username {
        Some(u) => u.clone(),
        None => {
            return Err(MailError::config_invalid("account username is missing"));
        },
    };
    let m: String = match mode {
        Some(m) => m.clone(),
        None => string_of(chars_of("password").as_slice()),
    };
    if str_eq(m.as_str(), "password") || str_eq(m.as_str(), "app_password") {
        match secret {
            Some(s) => Ok(LoginPlan {
                host,
                port,
                security: level,
                username,
                auth: AuthPlan::Password { secret_id: s.clone() },
            }),
            None => Err(missing(server, " secret reference is missing")),
        }
    } else if str_eq(m.as_str(), "oauth2") {
        Ok(LoginPlan { host, port, security: level, username, auth: AuthPlan::OAuth2 })
    } else {
        let mut t = chars_of("unsupported auth mode: ");
        push_all(&mut t, chars_of(m.as_str()).as_slice());
        Err(MailError::new(MailErrorKind::UnsupportedFeature, string_of(t.as_slice())))
    }
}

/// How to reach and log in to an account's IMAP server.
pub fn imap_login_plan(account: &AccountRecord) -> (r: MailResult<LoginPlan>)
    ensures
        login_plan_ok(r, "IMAP"@, account.imap_host, account.imap_port, account.imap_security,
            account.username, account.auth_mode, account.keyring_imap_secret_id),
{
    login_plan("IMAP", &account.imap_host, account.imap_port, &account.imap_security, &account.username,
        &account.auth_mode, &account.keyring_imap_secret_id)
}

/// How to reach and log in to an account's SMTP server.
pub fn smtp_login_plan(account: &AccountRecord) -> (r: MailResult<LoginPlan>)
    ensures
        login_plan_ok(r, "SMTP"@, account.smtp_host, account.smtp_port, account.smtp_security,
            account.username, account.auth_mode, account.keyring_smtp_secret_id),
{
    login_plan("SMTP", &account.smtp_host, account.smtp_port, &account.smtp_security, &account.username,
        &account.auth_mode, &account.keyring_smtp_secret_id)
}

/// The SMTP login plan when building the TLS parameters for the server can
/// fail (`tls_failure` is what building them reported, if it failed). They
/// are built once the host, port and user name are known and before the
/// authentication settings are read, for a server that is not plaintext; a
/// failure there is a TLS failure.
pub open spec fn smtp_plan_ok(r: MailResult<LoginPlan>, account: AccountRecord, tls_failure: Option<Seq<char>>) -> bool {
    let security = security_of(match account.smtp_security { Some(v) => v@, None => "tls"@ });
    if account.smtp_host is Some && account.smtp_port is Some && account.username is Some
        && security != Security::Plain && tls_failure is Some {
        r matches Err(e) && e.kind == MailErrorKind::TlsFailure && e.message@ == tls_failure->0
    } else {
        login_plan_ok(r, "SMTP"@, account.smtp_host, account.smtp_port, account.smtp_security,
            account.username, account.auth_mode, account.keyring_smtp_secret_id)
    }
}

/// How to reach and log in to an account's SMTP server, given what building
/// its TLS parameters reported.
pub fn smtp_login_plan_after_tls(account: &AccountRecord, tls_failure: Option<&str>) -> (r: MailResult<LoginPlan>)
    ensures
        smtp_plan_ok(r, *account, opt_str_view(tls_failure)),
{
    let security = Security::normalize(
        match &account.smtp_security {
            Some(s) => Some(s.as_str()),
            None => None,
        },
        "tls",
    );
    if account.smtp_host.is_some() && account.smtp_port.is_some() && account.username.is_some()
        && security != Security::Plain {
        if let Some(t) = tls_failure {
            return Err(MailError::tls_failure(t));
        }
    }
    smtp_login_plan(account)
}

// ---------------------------------------------------------------------------
// Protection and status of a send.
// ---------------------------------------------------------------------------
/// The wrapping a send applies to the message.
#[derive(Debug, Clone, Copy, PartialEq, Eq, Structural)]
pub enum Wrapping {
    Plain,
    Pgp,
    Smime,
}

/// The wrapping that send options ask for; asking for both PGP/MIME and
/// S/MIME is refused.
pub fn wrapping_of(options: &SendOptions) -> (r: MailResult<Wrapping>)
    ensures
        match (options.sign || options.encrypt, options.smime_sign || options.smime_encrypt) {
            (true, false) => r == Ok::<Wrapping, MailError>(Wrapping::Pgp),
            (false, true) => r == Ok::<Wrapping, MailError>(Wrapping::Smime),
            (false, false) => r == Ok::<Wrapping, MailError>(Wrapping::Plain),
            (true, true) => r matches Err(e) && e.kind == MailErrorKind::InvalidInput
                && e.message@ == "choose either PGP/MIME or S/MIME for one message, not both"@,
        },
{
    match (options.is_pgp(), options.is_smime()) {
        (true, false) => Ok(Wrapping::Pgp),
        (false, true) => Ok(Wrapping::Smime),
        (false, false) => Ok(Wrapping::Plain),
        (true, true) => Err(MailError::invalid_input("choose either PGP/MIME or S/MIME for one message, not both")),
    }
}

/// The status line after a message was sent; `save_error` is why saving a
/// copy to the Sent folder failed, if it did.
pub fn sent_status(save_error: Option<&str>) -> (r: String)
    ensures
        r@ == match save_error {
            Some(e) => "Message sent, but saving to Sent failed: "@ + e@,
            None => "Message sent."@,
        },
{
    match save_error {
        Some(e) => {
            let mut t = chars_of("Message sent, but saving to Sent failed: ");
            push_all(&mut t, chars_of(e).as_slice());
            string_of(t.as_slice())
        },
        None => string_of(chars_of("Message sent.").as_slice()),
    }
}

/// What a connection check with the SMTP server means: a server that
/// answered NOOP is reachable; one that did not closed the connection.
pub fn smtp_probe_result(answered: bool) -> (r: MailResult<()>)
    ensures
        answered ==> r is Ok,
        !answered ==> (r matches Err(e) && e.kind == MailErrorKind::ConnectionDropped
            && e.message@ == "SMTP server closed the connection during NOOP"@),
{
    if answered {
        Ok(())
    } else {
        Err(MailError::connection_dropped("SMTP server closed the connection during NOOP"))
    }
}

/// The status line after saving a draft: kept only locally when the account
/// has no Drafts mailbox.
pub fn draft_status(drafts_mailbox_found: bool) -> (r: String)
    ensures
        r@ == if drafts_mailbox_found {
            "Draft saved."@
        } else {
            "Draft saved locally only (no Drafts mailbox found)."@
        },
{
    if drafts_mailbox_found {
        string_of(chars_of("Draft saved.").as_slice())
    } else {
        string_of(chars_of("Draft saved locally only (no Drafts mailbox found).").as_slice())
    }
}

// ---------------------------------------------------------------------------
// The message a template describes.
// ---------------------------------------------------------------------------
/// What a compose template says about the message to send.
#[derive(Debug, Clone, PartialEq, Eq)]
pub struct OutgoingPlan {
    /// The sender's mailbox.
    pub from: String,
    /// The recipients' mailboxes, in order.
    pub to: Vec<String>,
    pub subject: String,
    pub cc: Vec<String>,
    pub bcc: Vec<String>,
    pub in_reply_to: Option<String>,
    pub references: Option<String>,
    pub body: String,
    /// Paths of the files to attach, in order.
    pub attachments: Vec<String>,
}

/// A header value that would start another header line.
pub open spec fn breaks_line(value: Seq<char>) -> bool {
    exists|i: int| 0 <= i < value.len() && (value[i] == '\n' || value[i] == '\r')
}

/// The first header (in order) whose value breaks a line, if any.
pub open spec fn first_injected(headers: Seq<(Seq<char>, Seq<char>)>) -> Option<Seq<char>>
    decreases headers.len(),
{
    if headers.len() == 0 {
        None
    } else if breaks_line(headers[0].1) {
        Some(headers[0].0)
    } else {
        first_injected(headers.drop_first())
    }
}

/// The values of the headers named `attachment` that are not blank, in order.
pub open spec fn attachment_paths(headers: Seq<(Seq<char>, Seq<char>)>) -> Seq<Seq<char>>
    decreases headers.len(),
{
    if headers.len() == 0 {
        seq![]
    } else {
        let rest = attachment_paths(headers.drop_last());
        let h = headers.last();
        if eq_ci(h.0, "attachment"@) && trim(h.1).len() > 0 {
            rest.push(h.1)
        } else {
            rest
        }
    }
}

fn breaks_line_exec(value: &str) -> (r: bool)
    ensures
        r == breaks_line(value@),
{
    let cs = chars_of(value);
    let mut i: usize = 0;
    while i < cs.len()
        invariant
            i <= cs@.len(),
            cs@ == value@,
            forall|k: int| 0 <= k < i ==> !(cs@[k] == '\n' || cs@[k] == '\r'),
        decreases cs@.len() - i,
    {
        if cs[i] == '\n' || cs[i] == '\r' {
            return true;
        }
        i += 1;
    }
    false
}

fn owned(o: Option<&str>) -> (r: Option<String>)
    ensures
        opt_view(r) == opt_str_view(o),
{
    match o {
        Some(s) => Some(string_of(chars_of(s).as_slice())),
        None => None,
    }
}

/// An outcome that is an invalid-input error with message `m`.
pub open spec fn invalid_with<T>(r: MailResult<T>, m: Seq<char>) -> bool {
    r matches Err(e) && e.kind == MailErrorKind::InvalidInput && e.message@ == m
}

/// The mailboxes of an optional address list; none without one.
pub open spec fn optional_mailboxes(value: Option<Seq<char>>) -> Result<Seq<Seq<char>>, Seq<char>> {
    match value {
        None => Ok(seq![]),
        Some(v) => parsed_mailboxes(v),
    }
}

fn optional_mailboxes_of(value: Option<&str>) -> (r: MailResult<Vec<String>>)
    ensures
        match optional_mailboxes(opt_str_view(value)) {
            Ok(ts) => r matches Ok(v) && strings_view(v@) == ts,
            Err(m) => invalid_with(r, m),
        },
{
    match value {
        None => {
            let v: Vec<String> = Vec::new();
            assert(strings_view(v@) =~= Seq::<Seq<char>>::empty());
            Ok(v)
        },
        Some(v) => parse_mailboxes(v),
    }
}

/// The message a parsed compose template describes: no header value may
/// break a line; From falls back to `default_from` and must be there; To
/// must be there; the sender's address, then the To, Cc and Bcc lists must
/// read as mailboxes; the subject defaults to nothing; the non-blank
/// `Attachment:` headers name the files to attach.
pub fn outgoing_plan(draft: &TemplateMessage, default_from: Option<&str>) -> (r: MailResult<OutgoingPlan>)
    ensures
        match first_injected(draft@.headers) {
            Some(name) => r matches Err(e) && e.kind == MailErrorKind::InvalidInput
                && e.message@ == "header "@ + name + " contains a line break"@,
            None => {
                let hs = draft@.headers;
                let from = match template_header_spec(hs, "from"@) {
                    Some(f) => Some(f),
                    None => opt_str_view(default_from),
                };
                match (from, template_header_spec(hs, "to"@)) {
                    (None, _) => r matches Err(e) && e.kind == MailErrorKind::InvalidInput
                        && e.message@ == "a From address is required to send mail"@,
                    (Some(_), None) => r matches Err(e) && e.kind == MailErrorKind::InvalidInput
                        && e.message@ == "a To address is required to send mail"@,
                    (Some(f), Some(t)) => match (
                        parsed_mailbox(f),
                        parsed_mailboxes(t),
                        optional_mailboxes(template_header_spec(hs, "cc"@)),
                        optional_mailboxes(template_header_spec(hs, "bcc"@)),
                    ) {
                        (Err(m), _, _, _) => invalid_with(r, m),
                        (Ok(_), Err(m), _, _) => invalid_with(r, m),
                        (Ok(_), Ok(_), Err(m), _) => invalid_with(r, m),
                        (Ok(_), Ok(_), Ok(_), Err(m)) => invalid_with(r, m),
                        (Ok(fm), Ok(tos), Ok(ccs), Ok(bccs)) => r matches Ok(p) && p.from@ == fm
                            && strings_view(p.to@) == tos
                            && strings_view(p.cc@) == ccs
                            && strings_view(p.bcc@) == bccs
                            && p.subject@ == (match template_header_spec(hs, "subject"@) { Some(s) => s, None => Seq::<char>::empty() })
                            && opt_view(p.in_reply_to) == template_header_spec(hs, "in-reply-to"@)
                            && opt_view(p.references) == template_header_spec(hs, "references"@)
                            && p.body@ == draft@.body
                            && strings_view(p.attachments@) == attachment_paths(hs),
                    },
                }
            },
        },
{
    let ghost hs = draft@.headers;
    let mut i: usize = 0;
    assert(hs.skip(0) =~= hs);
    while i < draft.headers.len()
        invariant
            i <= draft.headers@.len(),
            hs == draft@.headers,
            hs.len() == draft.headers@.len(),
            first_injected(hs) == first_injected(hs.skip(i as int)),
        decreases draft.headers@.len() - i,
    {
        assert(hs[i as int] == (draft.headers@[i as int].0@, draft.headers@[i as int].1@));
        assert(hs.skip(i as int)[0] == hs[i as int]);
        if breaks_line_exec(draft.headers[i].1.as_str()) {
            let mut m = chars_of("header ");
            push_all(&mut m, chars_of(draft.headers[i].0.as_str()).as_slice());
            push_all(&mut m, chars_of(" contains a line break").as_slice());
            return Err(MailError::new(MailErrorKind::InvalidInput, string_of(m.as_slice())));
        }
        assert(hs.skip(i as int).drop_first() =~= hs.skip(i + 1));
        i += 1;
    }
    assert(hs.skip(i as int) =~= Seq::<(Seq<char>, Seq<char>)>::empty());
    let from = match draft.header("from") {
        Some(f) => string_of(chars_of(f).as_slice()),
        None => match default_from {
            Some(d) => string_of(chars_of(d).as_slice()),
            None => {
                return Err(MailError::invalid_input("a From address is required to send mail"));
            },
        },
    };
    let to = match draft.header("to") {
        Some(t) => string_of(chars_of(t).as_slice()),
        None => {
            return Err(MailError::invalid_input("a To address is required to send mail"));
        },
    };
    let from = match parse_mailbox(from.as_str()) {
        Ok(m) => m,
        Err(e) => {
            return Err(e);
        },
    };
    let subject = match draft.header("subject") {
        Some(s) => string_of(chars_of(s).as_slice()),
        None => string_of(chars_of("").as_slice()),
    };
    proof {
        reveal_strlit("");
    }
    let to = match parse_mailboxes(to.as_str()) {
        Ok(v) => v,
        Err(e) => {
            return Err(e);
        },
    };
    let cc = match optional_mailboxes_of(draft.header("cc")) {
        Ok(v) => v,
        Err(e) => {
            return Err(e);
        },
    };
    let bcc = match optional_mailboxes_of(draft.header("bcc")) {
        Ok(v) => v,
        Err(e) => {
            return Err(e);
        },
    };
    let in_reply_to = owned(draft.header("in-reply-to"));
    let references = owned(draft.header("references"));
    let mut attachments: Vec<String> = Vec::new();
    let mut k: usize = 0;
    while k < draft.headers.len()
        invariant
            k <= draft.headers@.len(),
            hs == draft@.headers,
            hs.len() == draft.headers@.len(),
            strings_view(attachments@) == attachment_paths(hs.take(k as int)),
        decreases draft.headers@.len() - k,
    {
        assert(hs.take(k + 1).drop_last() =~= hs.take(k as int));
        assert(hs.take(k + 1).last() == (draft.headers@[k as int].0@, draft.headers@[k as int].1@));
        let name = &draft.headers[k].0;
        let value = &draft.headers[k].1;
        let ghost before = attachments@;
        if eq_ignore_ascii_case(name.as_str(), "attachment") && !trim_str(value.as_str()).as_str().is_empty() {
            attachments.push(value.clone());
            assert(strings_view(attachments@) =~= strings_view(before).push(value@));
        }
        k += 1;
    }
    assert(hs.take(k as int) =~= hs);
    Ok(OutgoingPlan {
        from,
        to,
        subject,
        cc,
        bcc,
        in_reply_to,
        references,
        body: draft.body.clone(),
        attachments,
    })
}

} // verus!
