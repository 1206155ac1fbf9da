//! The error taxonomy the mail layer reports.
use vstd::prelude::*;

use crate::text::chars_of;
use crate::text::string_of;

verus! {

/// What went wrong, at the granularity the application branches on.
#[derive(Debug, Clone, Copy, PartialEq, Eq, Structural)]
pub enum MailErrorKind {
    AccountNotFound,
    ConfigInvalid,
    InvalidInput,
    UnsupportedFeature,
    Io,
    TlsFailure,
    TransportTimeout,
    ConnectionDropped,
    ImapAuthRejected,
    SmtpAuthRejected,
    KeyringUnavailable,
    SecretMissing,
    BackendUnavailable,
    Other,
}

/// A classified failure with a human-readable detail.
#[derive(Debug, Clone)]
pub struct MailError {
    pub kind: MailErrorKind,
    pub message: String,
}

/// The result type of mail operations.
pub type MailResult<T> = Result<T, MailError>;

/// A failure of the network transport, after which a connection is discarded
/// and a cached answer is preferable.
pub open spec fn is_transport_kind(kind: MailErrorKind) -> bool {
    kind == MailErrorKind::TransportTimeout || kind == MailErrorKind::ConnectionDropped
}

impl MailError {
    /// An error of `kind` carrying `message`.
    pub fn new(kind: MailErrorKind, message: String) -> (r: Self)
        ensures
            r.kind == kind,
            r.message@ == message@,
    {
        MailError { kind, message }
    }

    fn with(kind: MailErrorKind, message: &str) -> (r: Self)
        ensures
            r.kind == kind,
            r.message@ == message@,
    {
        let cs = chars_of(message);
        MailError { kind, message: string_of(cs.as_slice()) }
    }

    pub fn account_not_found(message: &str) -> (r: Self)
        ensures r.kind == MailErrorKind::AccountNotFound, r.message@ == message@,
    {
        Self::with(MailErrorKind::AccountNotFound, message)
    }

    pub fn config_invalid(message: &str) -> (r: Self)
        ensures r.kind == MailErrorKind::ConfigInvalid, r.message@ == message@,
    {
        Self::with(MailErrorKind::ConfigInvalid, message)
    }

    pub fn invalid_input(message: &str) -> (r: Self)
        ensures r.kind == MailErrorKind::InvalidInput, r.message@ == message@,
    {
        Self::with(MailErrorKind::InvalidInput, message)
    }

    pub fn unsupported_feature(message: &str) -> (r: Self)
        ensures r.kind == MailErrorKind::UnsupportedFeature, r.message@ == message@,
    {
        Self::with(MailErrorKind::UnsupportedFeature, message)
    }

    pub fn io(message: &str) -> (r: Self)
        ensures r.kind == MailErrorKind::Io, r.message@ == message@,
    {
        Self::with(MailErrorKind::Io, message)
    }

    pub fn tls_failure(message: &str) -> (r: Self)
        ensures r.kind == MailErrorKind::TlsFailure, r.message@ == message@,
    {
        Self::with(MailErrorKind::TlsFailure, message)
    }

    pub fn transport_timeout(message: &str) -> (r: Self)
        ensures r.kind == MailErrorKind::TransportTimeout, r.message@ == message@,
    {
        Self::with(MailErrorKind::TransportTimeout, message)
    }

    pub fn connection_dropped(message: &str) -> (r: Self)
        ensures r.kind == MailErrorKind::ConnectionDropped, r.message@ == message@,
    {
        Self::with(MailErrorKind::ConnectionDropped, message)
    }

    pub fn imap_auth_rejected(message: &str) -> (r: Self)
        ensures r.kind == MailErrorKind::ImapAuthRejected, r.message@ == message@,
    {
        Self::with(MailErrorKind::ImapAuthRejected, message)
    }

    pub fn smtp_auth_rejected(message: &str) -> (r: Self)
        ensures r.kind == MailErrorKind::SmtpAuthRejected, r.message@ == message@,
    {
        Self::with(MailErrorKind::SmtpAuthRejected, message)
    }

    pub fn keyring_unavailable(message: &str) -> (r: Self)
        ensures r.kind == MailErrorKind::KeyringUnavailable, r.message@ == message@,
    {
        Self::with(MailErrorKind::KeyringUnavailable, message)
    }

    pub fn secret_missing(message: &str) -> (r: Self)
        ensures r.kind == MailErrorKind::SecretMissing, r.message@ == message@,
    {
        Self::with(MailErrorKind::SecretMissing, message)
    }

    pub fn backend_unavailable(message: &str) -> (r: Self)
        ensures r.kind == MailErrorKind::BackendUnavailable, r.message@ == message@,
    {
        Self::with(MailErrorKind::BackendUnavailable, message)
    }

    pub fn other(message: &str) -> (r: Self)
        ensures r.kind == MailErrorKind::Other, r.message@ == message@,
    {
        Self::with(MailErrorKind::Other, message)
    }

    /// The failure is in the network transport.
    pub fn is_transport(&self) -> (r: bool)
        ensures
            r == is_transport_kind(self.kind),
    {
        self.kind == MailErrorKind::TransportTimeout || self.kind == MailErrorKind::ConnectionDropped
    }

    /// The human-readable detail.
    pub fn describe(&self) -> (r: String)
        ensures
            r@ == self.message@,
    {
        self.message.clone()
    }
}

/// Whether an error means the server is unreachable, so a cached result is
/// preferable to surfacing the failure.
pub fn is_offline(error: &MailError) -> (r: bool)
    ensures
        r == (is_transport_kind(error.kind) || error.kind == MailErrorKind::BackendUnavailable),
{
    error.is_transport() || error.kind == MailErrorKind::BackendUnavailable
}

} // verus!
