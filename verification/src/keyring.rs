//! Looking up a stored secret with `secret-tool`: the command line to run,
//! and what its outcome means.
use vstd::prelude::*;

use crate::errors::{MailError, MailErrorKind, MailResult};
use crate::text::{chars_of, push_all, string_of, strings_view, trim, trim_str};

verus! {

/// The program that reads the desktop keyring.
pub const SECRET_TOOL: &'static str = "secret-tool";

/// The `secret-tool` arguments that look up the secret stored for a service
/// and user name by this application.
pub open spec fn lookup_args_spec(service: Seq<char>, username: Seq<char>) -> Seq<Seq<char>> {
    seq!["lookup"@, "service"@, service, "username"@, username, "application"@, "solverforge-mail"@]
}

/// The arguments of a keyring lookup.
pub fn lookup_args(service: &str, username: &str) -> (r: Vec<String>)
    ensures
        strings_view(r@) == lookup_args_spec(service@, username@),
{
    let mut r: Vec<String> = Vec::new();
    r.push(string_of(chars_of("lookup").as_slice()));
    r.push(string_of(chars_of("service").as_slice()));
    r.push(string_of(chars_of(service).as_slice()));
    r.push(string_of(chars_of("username").as_slice()));
    r.push(string_of(chars_of(username).as_slice()));
    r.push(string_of(chars_of("application").as_slice()));
    r.push(string_of(chars_of("solverforge-mail").as_slice()));
    assert(strings_view(r@) =~= lookup_args_spec(service@, username@));
    r
}

/// How running `secret-tool` went, its output already read as text.
#[derive(Debug, Clone, PartialEq, Eq)]
pub enum LookupOutcome {
    /// The program is not installed or not on the search path.
    NotInstalled,
    /// It could not be started for another reason, given as text.
    NotStarted(String),
    /// It ran and reported failure on its error stream.
    Failed { stderr: String },
    /// It ran and succeeded, writing the secret to its output stream.
    Succeeded { stdout: String },
}

/// An outcome that is an error of `kind` with message `m`.
pub open spec fn error_with<T>(r: MailResult<T>, kind: MailErrorKind, m: Seq<char>) -> bool {
    r matches Err(e) && e.kind == kind && e.message@ == m
}

/// What a keyring lookup gives: the keyring is unavailable when the program
/// is missing, cannot start or fails (the failure's trimmed error text is the
/// message); a secret that is blank once trimmed is missing; otherwise the
/// trimmed secret.
pub open spec fn secret_ok(r: MailResult<String>, service: Seq<char>, outcome: LookupOutcome) -> bool {
    match outcome {
        LookupOutcome::NotInstalled => error_with(
            r,
            MailErrorKind::KeyringUnavailable,
            "secret-tool is not installed or not available in PATH"@,
        ),
        LookupOutcome::NotStarted(reason) => error_with(r, MailErrorKind::KeyringUnavailable, reason@),
        LookupOutcome::Failed { stderr } => error_with(r, MailErrorKind::KeyringUnavailable, trim(stderr@)),
        LookupOutcome::Succeeded { stdout } => if trim(stdout@).len() == 0 {
            error_with(r, MailErrorKind::SecretMissing, "no secret found for service "@ + service)
        } else {
            r matches Ok(s) && s@ == trim(stdout@)
        },
    }
}

/// The secret a keyring lookup for `service` produced, or why there is none.
pub fn secret_from_lookup(service: &str, outcome: LookupOutcome) -> (r: MailResult<String>)
    ensures
        secret_ok(r, service@, outcome),
{
    match outcome {
        LookupOutcome::NotInstalled => Err(
            MailError::keyring_unavailable("secret-tool is not installed or not available in PATH"),
        ),
        LookupOutcome::NotStarted(reason) => Err(MailError::new(MailErrorKind::KeyringUnavailable, reason)),
        LookupOutcome::Failed { stderr } => Err(
            MailError::new(MailErrorKind::KeyringUnavailable, trim_str(stderr.as_str())),
        ),
        LookupOutcome::Succeeded { stdout } => {
            let secret = trim_str(stdout.as_str());
            if secret.as_str().is_empty() {
                let mut m = chars_of("no secret found for service ");
                push_all(&mut m, chars_of(service).as_slice());
                Err(MailError::new(MailErrorKind::SecretMissing, string_of(m.as_slice())))
            } else {
                Ok(secret)
            }
        },
    }
}

} // verus!
