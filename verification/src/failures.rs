//! Classifying failures from the IMAP, SMTP, and ManageSieve clients into the
//! application's error taxonomy.
use vstd::prelude::*;

use crate::capabilities::{auth_failure_text, looks_like_auth_failure};
use crate::errors::{MailError, MailErrorKind};
use crate::text::{chars_of, contains, contains_chars, lower_chars, lower_seq, push_all, string_of};

verus! {

#[verifier::external_type_specification]
#[verifier::external_body]
pub struct ExImapError(imap::error::Error);

#[verifier::external_type_specification]
#[verifier::external_body]
pub struct ExSmtpError(lettre::transport::smtp::Error);

#[verifier::external_type_specification]
#[verifier::external_body]
pub struct ExAnyhowError(anyhow::Error);

/// A failure of the legacy IMAP client, with its detail text.
#[derive(Debug, Clone, PartialEq, Eq)]
pub enum ImapFailure {
    /// A socket error; `timed_out` when its kind is `TimedOut`.
    Io { timed_out: bool, detail: String },
    /// A TLS failure, during the handshake or after it.
    Tls(String),
    /// A BAD response.
    Bad(String),
    /// A NO response.
    No(String),
    /// The server dropped the connection.
    ConnectionLost,
    /// Anything else the client reports.
    Other(String),
}

/// The classification of an IMAP client failure: a NO or BAD that reads like
/// a credential problem is an authentication rejection, other NO/BAD replies
/// are plain failures, TLS problems are TLS failures, a lost connection is a
/// dropped connection, a timed-out socket is a transport timeout, and any
/// other socket error is an I/O error. The detail text is kept.
pub open spec fn imap_failure_class(f: ImapFailure) -> (MailErrorKind, Seq<char>) {
    match f {
        ImapFailure::No(d) => if auth_failure_text(d@) {
            (MailErrorKind::ImapAuthRejected, d@)
        } else {
            (MailErrorKind::Other, d@)
        },
        ImapFailure::Bad(d) => if auth_failure_text(d@) {
            (MailErrorKind::ImapAuthRejected, d@)
        } else {
            (MailErrorKind::Other, d@)
        },
        ImapFailure::Tls(d) => (MailErrorKind::TlsFailure, d@),
        ImapFailure::ConnectionLost => (MailErrorKind::ConnectionDropped, "the IMAP server closed the connection"@),
        ImapFailure::Io { timed_out, detail } => if timed_out {
            (MailErrorKind::TransportTimeout, detail@)
        } else {
            (MailErrorKind::Io, detail@)
        },
        ImapFailure::Other(d) => (MailErrorKind::Other, d@),
    }
}

/// Classify an IMAP client failure.
pub fn classify_imap_failure(failure: &ImapFailure) -> (r: MailError)
    ensures
        (r.kind, r.message@) == imap_failure_class(*failure),
{
    match failure {
        ImapFailure::No(d) | ImapFailure::Bad(d) => {
            if looks_like_auth_failure(d.as_str()) {
                MailError::imap_auth_rejected(d.as_str())
            } else {
                MailError::other(d.as_str())
            }
        },
        ImapFailure::Tls(d) => MailError::tls_failure(d.as_str()),
        ImapFailure::ConnectionLost => MailError::connection_dropped("the IMAP server closed the connection"),
        ImapFailure::Io { timed_out, detail } => {
            if *timed_out {
                MailError::transport_timeout(detail.as_str())
            } else {
                MailError::io(detail.as_str())
            }
        },
        ImapFailure::Other(d) => MailError::other(d.as_str()),
    }
}

/// What a failure of the legacy IMAP client is, as far as it is a property
/// of the error value: its variant, whether a socket error timed out, and the
/// server's reply for NO and BAD. (The texts of socket and TLS errors come
/// from the operating system and the TLS library and are left out.)
pub enum ImapShape {
    Io { timed_out: bool },
    Tls,
    Bad(Seq<char>),
    No(Seq<char>),
    ConnectionLost,
    Other,
}

/// The shape of a legacy IMAP client error.
pub uninterp spec fn imap_error_shape(error: imap::error::Error) -> ImapShape;

/// The shape of a failure as the library holds it.
pub open spec fn failure_shape(f: ImapFailure) -> ImapShape {
    match f {
        ImapFailure::Io { timed_out, detail: _ } => ImapShape::Io { timed_out },
        ImapFailure::Tls(_) => ImapShape::Tls,
        ImapFailure::Bad(d) => ImapShape::Bad(d@),
        ImapFailure::No(d) => ImapShape::No(d@),
        ImapFailure::ConnectionLost => ImapShape::ConnectionLost,
        ImapFailure::Other(_) => ImapShape::Other,
    }
}

/// Tell the variants of an `imap::error::Error` apart, keeping each one's
/// text (its `Display`, or the server's reply for NO and BAD). The claim is
/// that the variant, whether an `Io` error's kind is `TimedOut`, and the NO
/// and BAD replies are those of the error value, named `imap_error_shape`;
/// `Tls` stands for both `Tls` and `TlsHandshake`, `Other` for the remaining
/// variants. The texts of the other variants are not stated.
#[verifier::external_body]
fn imap_failure_of(error: imap::error::Error) -> (r: ImapFailure)
    ensures
        failure_shape(r) == imap_error_shape(error),
{
    match error {
        imap::error::Error::Io(e) => ImapFailure::Io { timed_out: e.kind() == std::io::ErrorKind::TimedOut, detail: e.to_string() },
        imap::error::Error::Tls(e) => ImapFailure::Tls(e.to_string()),
        imap::error::Error::TlsHandshake(e) => ImapFailure::Tls(e.to_string()),
        imap::error::Error::Bad(d) => ImapFailure::Bad(d),
        imap::error::Error::No(d) => ImapFailure::No(d),
        imap::error::Error::ConnectionLost => ImapFailure::ConnectionLost,
        other => ImapFailure::Other(other.to_string()),
    }
}

/// The kind an IMAP client error is classified as, and for NO, BAD and a
/// lost connection the message too.
pub open spec fn imap_error_ok(r: MailError, shape: ImapShape) -> bool {
    match shape {
        ImapShape::No(d) => r.message@ == d && r.kind == (if auth_failure_text(d) { MailErrorKind::ImapAuthRejected } else { MailErrorKind::Other }),
        ImapShape::Bad(d) => r.message@ == d && r.kind == (if auth_failure_text(d) { MailErrorKind::ImapAuthRejected } else { MailErrorKind::Other }),
        ImapShape::Tls => r.kind == MailErrorKind::TlsFailure,
        ImapShape::ConnectionLost => r.kind == MailErrorKind::ConnectionDropped
            && r.message@ == "the IMAP server closed the connection"@,
        ImapShape::Io { timed_out } => r.kind == if timed_out { MailErrorKind::TransportTimeout } else { MailErrorKind::Io },
        ImapShape::Other => r.kind == MailErrorKind::Other,
    }
}

/// Map a legacy IMAP client error into the app's taxonomy.
pub fn map_imap_error(error: imap::error::Error) -> (r: MailError)
    ensures
        imap_error_ok(r, imap_error_shape(error)),
{
    let failure = imap_failure_of(error);
    classify_imap_failure(&failure)
}

/// The classification of an SMTP failure: TLS first, then a timeout, then a
/// reply that reads like a credential problem, then a shut-down transport,
/// otherwise a plain failure. The detail text is kept.
pub open spec fn smtp_failure_class(tls: bool, timeout: bool, shutdown: bool, detail: Seq<char>) -> MailErrorKind {
    if tls {
        MailErrorKind::TlsFailure
    } else if timeout {
        MailErrorKind::TransportTimeout
    } else if auth_failure_text(detail) {
        MailErrorKind::SmtpAuthRejected
    } else if shutdown {
        MailErrorKind::ConnectionDropped
    } else {
        MailErrorKind::Other
    }
}

/// Classify an SMTP failure from what the transport reports of it.
pub fn classify_smtp_failure(tls: bool, timeout: bool, shutdown: bool, detail: &str) -> (r: MailError)
    ensures
        r.kind == smtp_failure_class(tls, timeout, shutdown, detail@),
        r.message@ == detail@,
{
    if tls {
        MailError::tls_failure(detail)
    } else if timeout {
        MailError::transport_timeout(detail)
    } else if looks_like_auth_failure(detail) {
        MailError::smtp_auth_rejected(detail)
    } else if shutdown {
        MailError::connection_dropped(detail)
    } else {
        MailError::other(detail)
    }
}

/// Whether an SMTP error is a TLS error (`Error::is_tls`).
pub uninterp spec fn smtp_error_is_tls(error: lettre::transport::smtp::Error) -> bool;

/// Whether an SMTP error is a timeout (`Error::is_timeout`).
pub uninterp spec fn smtp_error_is_timeout(error: lettre::transport::smtp::Error) -> bool;

/// Whether an SMTP error is a shut-down transport
/// (`Error::is_transport_shutdown`).
pub uninterp spec fn smtp_error_is_shutdown(error: lettre::transport::smtp::Error) -> bool;

/// `lettre::transport::smtp::Error::is_tls`, which tests the error's kind:
/// the answer is a property of the error value, named `smtp_error_is_tls`.
#[verifier::external_body]
fn smtp_is_tls(error: &lettre::transport::smtp::Error) -> (r: bool)
    ensures
        r == smtp_error_is_tls(*error),
{
    error.is_tls()
}

/// `lettre::transport::smtp::Error::is_timeout`, which tests whether the
/// first I/O error in the error's source chain is of kind `TimedOut`: a
/// property of the error value, named `smtp_error_is_timeout`.
#[verifier::external_body]
fn smtp_is_timeout(error: &lettre::transport::smtp::Error) -> (r: bool)
    ensures
        r == smtp_error_is_timeout(*error),
{
    error.is_timeout()
}

/// `lettre::transport::smtp::Error::is_transport_shutdown`, which tests the
/// error's kind: a property of the error value, named
/// `smtp_error_is_shutdown`.
#[verifier::external_body]
fn smtp_is_transport_shutdown(error: &lettre::transport::smtp::Error) -> (r: bool)
    ensures
        r == smtp_error_is_shutdown(*error),
{
    error.is_transport_shutdown()
}

/// The `Display` text of an SMTP error. It can carry the text of an
/// operating-system error, so nothing is stated of it.
#[verifier::external_body]
fn smtp_text(error: &lettre::transport::smtp::Error) -> String {
    error.to_string()
}

/// Map an SMTP transport error into the app's taxonomy: the kind follows the
/// error's TLS, timeout and shutdown properties and its text, which is the
/// message.
pub fn map_smtp_error(error: lettre::transport::smtp::Error) -> (r: MailError)
    ensures
        r.kind == smtp_failure_class(
            smtp_error_is_tls(error),
            smtp_error_is_timeout(error),
            smtp_error_is_shutdown(error),
            r.message@,
        ),
{
    let detail = smtp_text(&error);
    classify_smtp_failure(
        smtp_is_tls(&error),
        smtp_is_timeout(&error),
        smtp_is_transport_shutdown(&error),
        detail.as_str(),
    )
}

/// The kind of a socket error, as far as the client distinguishes it.
#[derive(Debug, Clone, Copy, PartialEq, Eq, Structural)]
pub enum IoKind {
    TimedOut,
    WouldBlock,
    Other,
}

/// For each cause in an `anyhow` error's chain, outermost first, the kind of
/// its `std::io::Error` when it is one.
pub uninterp spec fn io_cause_kinds(error: anyhow::Error) -> Seq<Option<IoKind>>;

/// The kinds of a chain of causes, without their texts.
pub open spec fn kinds_of(causes: Seq<Option<(IoKind, Seq<char>)>>) -> Seq<Option<IoKind>> {
    causes.map_values(|c: Option<(IoKind, Seq<char>)>| match c { Some(p) => Some(p.0), None => None })
}

/// For each cause in an `anyhow` error chain (`Error::chain`), outermost
/// first, its `std::io::Error` kind and text when it is one. The claim is
/// that the kinds are those of the error value, named `io_cause_kinds`; the
/// texts come from the operating system and are not stated.
#[verifier::external_body]
fn io_causes(error: &anyhow::Error) -> (r: Vec<Option<(IoKind, String)>>)
    ensures
        kinds_of(causes_view(r@)) == io_cause_kinds(*error),
{
    error.chain().map(|cause| cause.downcast_ref::<std::io::Error>().map(|io| (match io.kind() {
        std::io::ErrorKind::TimedOut => IoKind::TimedOut,
        std::io::ErrorKind::WouldBlock => IoKind::WouldBlock,
        _ => IoKind::Other,
    }, io.to_string()))).collect()
}

/// The `Display` text of an `anyhow` error; nothing is stated of it.
#[verifier::external_body]
fn anyhow_text(error: &anyhow::Error) -> String {
    error.to_string()
}

pub open spec fn causes_view(v: Seq<Option<(IoKind, String)>>) -> Seq<Option<(IoKind, Seq<char>)>> {
    v.map_values(|c: Option<(IoKind, String)>| match c { Some(p) => Some((p.0, p.1@)), None => None })
}

/// The index of the first cause that is a socket error, or -1.
pub open spec fn first_io_cause(causes: Seq<Option<(IoKind, Seq<char>)>>) -> int
    decreases causes.len(),
{
    if causes.len() == 0 {
        -1
    } else if causes[0] is Some {
        0
    } else {
        let j = first_io_cause(causes.drop_first());
        if j < 0 {
            -1
        } else {
            j + 1
        }
    }
}

/// The classification of a failure of the app-owned IMAP client: the first
/// socket error in its chain decides (a timeout or would-block is a transport
/// timeout, anything else a dropped connection, with the socket error's text);
/// without one, a message about a closed connection or a response cut short
/// is a dropped connection and anything else a plain failure.
pub open spec fn codec_failure_class(causes: Seq<Option<(IoKind, Seq<char>)>>, detail: Seq<char>) -> (MailErrorKind, Seq<char>) {
    let i = first_io_cause(causes);
    if i >= 0 {
        let (kind, text) = causes[i]->0;
        if kind == IoKind::TimedOut || kind == IoKind::WouldBlock {
            (MailErrorKind::TransportTimeout, text)
        } else {
            (MailErrorKind::ConnectionDropped, text)
        }
    } else if contains(lower_seq(detail), "closed the connection"@) || contains(lower_seq(detail), "mid-response"@) {
        (MailErrorKind::ConnectionDropped, detail)
    } else {
        (MailErrorKind::Other, detail)
    }
}

proof fn lemma_first_io_cause(causes: Seq<Option<(IoKind, Seq<char>)>>)
    ensures
        -1 <= first_io_cause(causes) < causes.len(),
        first_io_cause(causes) >= 0 ==> causes[first_io_cause(causes)] is Some,
        forall|k: int|
            0 <= k < causes.len() && (first_io_cause(causes) < 0 || k < first_io_cause(causes))
                ==> (#[trigger] causes[k]) is None,
    decreases causes.len(),
{
    if causes.len() > 0 && causes[0] is None {
        lemma_first_io_cause(causes.drop_first());
        assert forall|k: int|
            0 <= k < causes.len() && (first_io_cause(causes) < 0 || k < first_io_cause(causes))
                implies (#[trigger] causes[k]) is None by {
            if k > 0 {
                assert(causes[k] == causes.drop_first()[k - 1]);
            }
        }
    }
}

/// Classify a failure of the app-owned client from its chain of causes and
/// its text.
pub fn classify_codec_failure(causes: &Vec<Option<(IoKind, String)>>, detail: &str) -> (r: MailError)
    ensures
        (r.kind, r.message@) == codec_failure_class(causes_view(causes@), detail@),
{
    let ghost cv = causes_view(causes@);
    proof {
        lemma_first_io_cause(cv);
    }
    let mut i: usize = 0;
    while i < causes.len()
        invariant
            i <= causes@.len(),
            cv == causes_view(causes@),
            forall|k: int| 0 <= k < i ==> (#[trigger] cv[k]) is None,
        decreases causes@.len() - i,
    {
        if let Some((kind, text)) = &causes[i] {
            proof {
                lemma_first_io_cause(cv);
                let f = first_io_cause(cv);
                if f < 0 || f > i {
                    assert(cv[i as int] is None);
                } else if f < i {
                    assert(cv[f] is Some);
                }
            }
            return match kind {
                IoKind::TimedOut | IoKind::WouldBlock => MailError::transport_timeout(text.as_str()),
                IoKind::Other => MailError::connection_dropped(text.as_str()),
            };
        }
        i += 1;
    }
    proof {
        lemma_first_io_cause(cv);
        let f = first_io_cause(cv);
        if f >= 0 {
            assert(cv[f] is Some);
        }
    }
    let lowered = lower_chars(chars_of(detail).as_slice());
    if contains_chars(lowered.as_slice(), chars_of("closed the connection").as_slice()) || contains_chars(
        lowered.as_slice(),
        chars_of("mid-response").as_slice(),
    ) {
        MailError::connection_dropped(detail)
    } else {
        MailError::other(detail)
    }
}

/// The index of the first socket error among the kinds of a chain, or -1.
pub open spec fn first_io_kind(kinds: Seq<Option<IoKind>>) -> int
    decreases kinds.len(),
{
    if kinds.len() == 0 {
        -1
    } else if kinds[0] is Some {
        0
    } else {
        let j = first_io_kind(kinds.drop_first());
        if j < 0 {
            -1
        } else {
            j + 1
        }
    }
}

/// The kind a failure of the app-owned client is classified as, from the
/// kinds of its chain and the message it is reported with: the first socket
/// error decides (timed out or would block: a transport timeout; otherwise a
/// dropped connection); without one, a message about a closed connection or
/// a response cut short is a dropped connection, anything else a failure.
pub open spec fn codec_kind(kinds: Seq<Option<IoKind>>, message: Seq<char>) -> MailErrorKind {
    let i = first_io_kind(kinds);
    if i >= 0 {
        let k = kinds[i]->0;
        if k == IoKind::TimedOut || k == IoKind::WouldBlock {
            MailErrorKind::TransportTimeout
        } else {
            MailErrorKind::ConnectionDropped
        }
    } else if contains(lower_seq(message), "closed the connection"@) || contains(lower_seq(message), "mid-response"@) {
        MailErrorKind::ConnectionDropped
    } else {
        MailErrorKind::Other
    }
}

proof fn lemma_first_io_kind(causes: Seq<Option<(IoKind, Seq<char>)>>)
    ensures
        first_io_kind(kinds_of(causes)) == first_io_cause(causes),
        first_io_cause(causes) >= 0 ==> kinds_of(causes)[first_io_cause(causes)] == Some(
            (causes[first_io_cause(causes)]->0).0,
        ),
    decreases causes.len(),
{
    lemma_first_io_cause(causes);
    if causes.len() > 0 {
        assert(kinds_of(causes.drop_first()) =~= kinds_of(causes).drop_first());
        lemma_first_io_kind(causes.drop_first());
    }
}

/// Classify a failure from the app-owned client into the app's error taxonomy.
///
/// The client reports transport faults as plain messages or wrapped I/O
/// errors; losing that classification would stop the pool from reconnecting.
pub fn map_codec_error(error: anyhow::Error) -> (r: MailError)
    ensures
        r.kind == codec_kind(io_cause_kinds(error), r.message@),
{
    let causes = io_causes(&error);
    let detail = anyhow_text(&error);
    let r = classify_codec_failure(&causes, detail.as_str());
    proof {
        lemma_first_io_kind(causes_view(causes@));
    }
    r
}

/// The cause is a timed-out socket.
pub open spec fn timed_out_cause(c: Option<(IoKind, Seq<char>)>) -> bool {
    match c {
        Some(p) => p.0 == IoKind::TimedOut,
        None => false,
    }
}

/// Some cause in the chain is a timed-out socket.
pub open spec fn chain_timed_out(causes: Seq<Option<(IoKind, Seq<char>)>>) -> bool {
    exists|i: int| 0 <= i < causes.len() && timed_out_cause(#[trigger] causes[i])
}

/// Whether a chain of causes holds a timed-out socket error.
pub fn causes_timed_out(causes: &Vec<Option<(IoKind, String)>>) -> (r: bool)
    ensures
        r == chain_timed_out(causes_view(causes@)),
{
    let ghost cv = causes_view(causes@);
    let mut i: usize = 0;
    while i < causes.len()
        invariant
            i <= causes@.len(),
            cv == causes_view(causes@),
            forall|k: int| 0 <= k < i ==> !timed_out_cause(#[trigger] cv[k]),
        decreases causes@.len() - i,
    {
        if let Some((kind, _)) = &causes[i] {
            if *kind == IoKind::TimedOut {
                assert(timed_out_cause(cv[i as int]));
                return true;
            }
        }
        i += 1;
    }
    false
}

/// Some cause in the chain is a socket error that timed out.
pub open spec fn kinds_timed_out(kinds: Seq<Option<IoKind>>) -> bool {
    exists|i: int| 0 <= i < kinds.len() && kinds[i] == Some(IoKind::TimedOut)
}

/// Whether an error from the app-owned client is a read timeout.
pub fn is_timeout(error: &anyhow::Error) -> (r: bool)
    ensures
        r == kinds_timed_out(io_cause_kinds(*error)),
{
    let causes = io_causes(error);
    let r = causes_timed_out(&causes);
    proof {
        let cv = causes_view(causes@);
        let ks = kinds_of(cv);
        if r {
            let i = choose|i: int| 0 <= i < cv.len() && timed_out_cause(#[trigger] cv[i]);
            assert(ks[i] == Some(IoKind::TimedOut));
        }
        if kinds_timed_out(ks) {
            let i = choose|i: int| 0 <= i < ks.len() && ks[i] == Some(IoKind::TimedOut);
            assert(timed_out_cause(cv[i]));
        }
    }
    r
}

/// The classification of a ManageSieve failure: a message mentioning
/// `connect` is a dropped connection, anything else a plain failure; the
/// message is prefixed with `Sieve: `.
pub open spec fn sieve_failure_class(message: Seq<char>) -> (MailErrorKind, Seq<char>) {
    if contains(lower_seq(message), "connect"@) {
        (MailErrorKind::ConnectionDropped, "Sieve: "@ + message)
    } else {
        (MailErrorKind::Other, "Sieve: "@ + message)
    }
}

/// Classify a ManageSieve failure from its message.
pub fn classify_sieve_failure(message: &str) -> (r: MailError)
    ensures
        (r.kind, r.message@) == sieve_failure_class(message@),
{
    let m = chars_of(message);
    let mut text = chars_of("Sieve: ");
    push_all(&mut text, m.as_slice());
    let full = string_of(text.as_slice());
    let lowered = lower_chars(m.as_slice());
    if contains_chars(lowered.as_slice(), chars_of("connect").as_slice()) {
        MailError::new(MailErrorKind::ConnectionDropped, full)
    } else {
        MailError::new(MailErrorKind::Other, full)
    }
}

/// Map a ManageSieve client error into the app's taxonomy.
pub fn sieve_error(error: anyhow::Error) -> (r: MailError)
    ensures
        exists|message: Seq<char>| (r.kind, r.message@) == sieve_failure_class(message),
{
    let message = anyhow_text(&error);
    classify_sieve_failure(message.as_str())
}

} // verus!
