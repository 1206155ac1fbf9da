//! The policy of an IMAP session around the codec: command tags, the lines
//! that did not decode, when a command has completed, SASL exchanges and IDLE.
//! The socket is driven by the caller; these functions decide.
use vstd::prelude::*;
use crate::text::strings_view;
use vstd::string::StringSliceAdditionalSpecFns;
use vstd::utf8::encode_utf8;

use crate::encoding::base64_standard;
use crate::encoding::base64_encode;
use crate::errors::MailError;
use crate::errors::MailErrorKind;
use crate::errors::MailResult;
use crate::text::chars_of;
use crate::text::string_of;
use crate::text::push_all;
use crate::text::decimal;
use crate::text::digit;
use crate::text::digits_value;
use crate::text::push_decimal;
use crate::text::starts_with;
use crate::text::starts_with_chars;
use crate::text::contains;
use crate::text::contains_chars;
use crate::text::upper_seq;
use crate::text::upper_chars;

verus! {

// ---------------------------------------------------------------------------
// Tags.
// ---------------------------------------------------------------------------
/// Remote accounts are served over the application's own IMAP client.
pub fn app_owned_remote_transport_available() -> (r: bool)
    ensures
        r,
{
    true
}

/// `n` in decimal, padded with zeros to at least four digits.
pub open spec fn padded4(n: nat) -> Seq<char> {
    let d = decimal(n);
    if d.len() < 4 {
        Seq::new((4 - d.len()) as nat, |i: int| '0') + d
    } else {
        d
    }
}

/// The tag of the `index`th command of a session: `a` and the number, at
/// least four digits wide.
pub open spec fn tag_text(index: nat) -> Seq<char> {
    seq!['a'] + padded4(index)
}

/// The tag written for command number `index`.
pub fn tag_for(index: u64) -> (r: String)
    ensures
        r@ == tag_text(index as nat),
{
    let mut digits: Vec<char> = Vec::new();
    push_decimal(&mut digits, index);
    assert(digits@ =~= decimal(index as nat));
    let mut out: Vec<char> = Vec::new();
    out.push('a');
    let mut k: usize = digits.len();
    while k < 4
        invariant
            digits.len() <= k <= 4 || (k == digits.len() && k >= 4),
            out@ == seq!['a'] + Seq::new((k - digits.len()) as nat, |i: int| '0'),
        decreases 4 - k,
    {
        out.push('0');
        k += 1;
        assert(out@ =~= seq!['a'] + Seq::new((k - digits.len()) as nat, |i: int| '0'));
    }
    push_all(&mut out, digits.as_slice());
    proof {
        if digits@.len() >= 4 {
            assert(Seq::new(0nat, |i: int| '0') =~= Seq::<char>::empty());
            assert(out@ =~= seq!['a'] + digits@);
        } else {
            assert(out@ =~= seq!['a'] + (Seq::new((4 - digits@.len()) as nat, |i: int| '0') + digits@));
        }
    }
    string_of(out.as_slice())
}

/// An IMAP tag character: an ASTRING-CHAR other than `+` (RFC 3501).
pub open spec fn is_tag_char(c: char) -> bool {
    '\x21' <= c && c <= '\x7e' && c != '(' && c != ')' && c != '{' && c != '%' && c != '*'
        && c != '"' && c != '\\' && c != '+'
}

/// A valid tag: one or more tag characters.
pub open spec fn is_tag(s: Seq<char>) -> bool {
    s.len() > 0 && forall|i: int| 0 <= i < s.len() ==> is_tag_char(#[trigger] s[i])
}

/// Whether `value` can serve as a command tag.
///
/// Calls `imap_types::core::Tag::validate`, which accepts a non-empty byte
/// string of ASTRING-CHARs other than `+`. Those are all ASCII, and the UTF-8
/// bytes of any other character are not, so the validation passes exactly when
/// every character of `value` is a tag character.
#[verifier::external_body]
pub fn valid_tag(value: &str) -> (r: bool)
    ensures
        r == is_tag(value@),
{
    imap_types::core::Tag::validate(value.as_bytes()).is_ok()
}

/// The lines that did not decode that a session keeps for diagnostics.
pub const MAX_SKIPPED: usize = 32;

/// `lines` followed by `line`, the oldest line dropped first when
/// `MAX_SKIPPED` are kept already.
pub open spec fn bounded_push(lines: Seq<Seq<char>>, line: Seq<char>) -> Seq<Seq<char>> {
    if lines.len() == MAX_SKIPPED {
        lines.drop_first().push(line)
    } else {
        lines.push(line)
    }
}

/// An IMAP session: the stream, how many commands were tagged, and the
/// latest response lines that did not decode.
pub struct ImapClient<S> {
    stream: S,
    tag: u64,
    skipped: Vec<String>,
}

impl<S> ImapClient<S> {
    /// A session over an established (and already secured) stream.
    pub fn new(stream: S) -> (r: Self)
        ensures
            r.stream_view() == stream,
            r.tags_issued() == 0,
            r.skipped_view() == Seq::<Seq<char>>::empty(),
    {
        ImapClient { stream, tag: 0, skipped: Vec::new() }
    }

    /// The stream.
    pub closed spec fn stream_view(&self) -> S {
        self.stream
    }

    /// How many tags this session has issued.
    pub closed spec fn tags_issued(&self) -> nat {
        self.tag as nat
    }

    /// The undecodable lines kept, oldest first.
    pub closed spec fn skipped_view(&self) -> Seq<Seq<char>> {
        strings_view(self.skipped@)
    }

    /// A session never keeps more than `MAX_SKIPPED` undecodable lines.
    pub closed spec fn well_formed(&self) -> bool {
        self.skipped@.len() <= MAX_SKIPPED
    }

    /// Take back the stream, for upgrading the transport.
    pub fn into_inner(self) -> (r: S)
        ensures
            r == self.stream_view(),
    {
        self.stream
    }

    /// The stream, to read and write on.
    pub fn stream_mut(&mut self) -> (r: &mut S)
        ensures
            *r == old(self).stream_view(),
            final(self).stream_view() == *final(r),
            final(self).tags_issued() == old(self).tags_issued(),
            final(self).skipped_view() == old(self).skipped_view(),
            final(self).well_formed() == old(self).well_formed(),
    {
        &mut self.stream
    }

    /// Undecodable response lines seen so far.
    pub fn skipped_lines(&self) -> (r: &[String])
        ensures
            strings_view(r@) == self.skipped_view(),
    {
        self.skipped.as_slice()
    }

    /// The tag for the next command.
    pub fn next_tag(&mut self) -> (r: String)
        requires
            old(self).tags_issued() < u64::MAX,
        ensures
            final(self).tags_issued() == old(self).tags_issued() + 1,
            r@ == tag_text(final(self).tags_issued()),
            final(self).stream_view() == old(self).stream_view(),
            final(self).skipped_view() == old(self).skipped_view(),
            final(self).well_formed() == old(self).well_formed(),
    {
        self.tag = self.tag + 1;
        tag_for(self.tag)
    }

    /// Keep an undecodable line, dropping the oldest beyond `MAX_SKIPPED`.
    pub fn record_skipped(&mut self, line: String)
        ensures
            final(self).skipped_view() == bounded_push(old(self).skipped_view(), line@),
            old(self).well_formed() ==> final(self).well_formed(),
            final(self).stream_view() == old(self).stream_view(),
            final(self).tags_issued() == old(self).tags_issued(),
    {
        push_bounded(&mut self.skipped, line);
    }

    /// Hand the kept lines to a command's output, keeping none.
    pub fn take_skipped(&mut self) -> (r: Vec<String>)
        ensures
            strings_view(r@) == old(self).skipped_view(),
            final(self).skipped_view() == Seq::<Seq<char>>::empty(),
            final(self).well_formed(),
            final(self).stream_view() == old(self).stream_view(),
            final(self).tags_issued() == old(self).tags_issued(),
    {
        let mut taken: Vec<String> = Vec::new();
        std::mem::swap(&mut taken, &mut self.skipped);
        assert(strings_view(self.skipped@) =~= Seq::<Seq<char>>::empty());
        taken
    }
}

/// Append `line`, first dropping the oldest line when `MAX_SKIPPED` are kept
/// already; a list that holds at most `MAX_SKIPPED` lines still does.
pub fn push_bounded(lines: &mut Vec<String>, line: String)
    ensures
        strings_view(final(lines)@) == bounded_push(strings_view(old(lines)@), line@),
        old(lines)@.len() <= MAX_SKIPPED ==> final(lines)@.len() <= MAX_SKIPPED,
{
    let ghost orig = lines@;
    if lines.len() == MAX_SKIPPED {
        lines.remove(0);
        assert(strings_view(lines@) =~= strings_view(orig).drop_first());
    }
    let ghost before = lines@;
    lines.push(line);
    assert(strings_view(lines@) =~= strings_view(before).push(line@));
}

// ---------------------------------------------------------------------------
// Completing a command.
// ---------------------------------------------------------------------------
/// The tagged completion of a command, as the codec decoded it.
#[derive(Debug, Clone)]
pub struct Completion {
    /// The status is `OK` (not `NO` or `BAD`).
    pub ok: bool,
    /// The human-readable text.
    pub text: String,
    /// The response code, in the codec's debug form, or empty.
    pub code: String,
}

/// The outcome a command had: success when it completed with `OK`; else a
/// failure naming the command and the server's text and code; and a dropped
/// connection when no completion came, naming how many lines did not decode.
pub fn require_ok(what: &str, completion: Option<&Completion>, skipped: usize) -> (r: MailResult<()>)
    ensures
        match completion {
            Some(c) => if c.ok {
                r is Ok
            } else {
                r matches Err(e) && e.kind == MailErrorKind::Other
                    && e.message@ == what@ + " failed: "@ + c.text@ + " "@ + c.code@
            },
            None => r matches Err(e) && e.kind == MailErrorKind::ConnectionDropped
                && e.message@ == what@ + " produced no completion; skipped "@ + decimal(skipped as nat) + " undecodable line(s)"@,
        },
{
    match completion {
        Some(c) => if c.ok {
            Ok(())
        } else {
            let mut m = chars_of(what);
            push_all(&mut m, chars_of(" failed: ").as_slice());
            push_all(&mut m, chars_of(c.text.as_str()).as_slice());
            push_all(&mut m, chars_of(" ").as_slice());
            push_all(&mut m, chars_of(c.code.as_str()).as_slice());
            Err(MailError::new(MailErrorKind::Other, string_of(m.as_slice())))
        },
        None => {
            let mut m = chars_of(what);
            push_all(&mut m, chars_of(" produced no completion; skipped ").as_slice());
            push_decimal(&mut m, skipped as u64);
            push_all(&mut m, chars_of(" undecodable line(s)").as_slice());
            Err(MailError::new(MailErrorKind::ConnectionDropped, string_of(m.as_slice())))
        },
    }
}

/// A response, as far as collecting a command's output cares.
#[derive(Debug, Clone)]
pub enum ResponseKind {
    /// A tagged completion: its tag, whether its status is `OK` (not `NO`
    /// or `BAD`), its text, and its response code in the codec's debug form
    /// (empty without one).
    Tagged { tag: String, ok: bool, text: String, code: String },
    /// An untagged status response, with its text.
    Untagged(String),
    /// The server ends the session, with this text.
    Bye(String),
    /// Any other response: data.
    Data,
}

/// What collecting a command's output does with the next response.
#[derive(Debug, Clone)]
pub enum CollectStep {
    /// The command completed: store the completion and stop.
    Complete,
    /// Keep the untagged status and read on.
    KeepStatus,
    /// Keep the data response and read on.
    KeepData,
    /// Stop with this error.
    Stop(MailError),
}

/// Decide what a response means while collecting the output of the command
/// tagged `tag`: a completion with another tag is a protocol error, and BYE
/// ends the session.
pub fn collect_step(tag: &str, response: &ResponseKind) -> (r: CollectStep)
    ensures
        match response {
            ResponseKind::Tagged { tag: t, .. } => if t@ == tag@ {
                r is Complete
            } else {
                r matches CollectStep::Stop(e) && e.kind == MailErrorKind::Other
                    && e.message@ == "IMAP response tag '"@ + t@ + "' does not match command tag '"@ + tag@ + "'"@
            },
            ResponseKind::Untagged(_) => r is KeepStatus,
            ResponseKind::Bye(text) => r matches CollectStep::Stop(e) && e.kind == MailErrorKind::ConnectionDropped
                && e.message@ == "server closed the session: "@ + text@,
            ResponseKind::Data => r is KeepData,
        },
{
    match response {
        ResponseKind::Tagged { tag: t, .. } => {
            if crate::text::str_eq(t.as_str(), tag) {
                CollectStep::Complete
            } else {
                let mut m = chars_of("IMAP response tag '");
                push_all(&mut m, chars_of(t.as_str()).as_slice());
                push_all(&mut m, chars_of("' does not match command tag '").as_slice());
                push_all(&mut m, chars_of(tag).as_slice());
                push_all(&mut m, chars_of("'").as_slice());
                CollectStep::Stop(MailError::new(MailErrorKind::Other, string_of(m.as_slice())))
            }
        },
        ResponseKind::Untagged(_) => CollectStep::KeepStatus,
        ResponseKind::Bye(text) => {
            let mut m = chars_of("server closed the session: ");
            push_all(&mut m, chars_of(text.as_str()).as_slice());
            CollectStep::Stop(MailError::new(MailErrorKind::ConnectionDropped, string_of(m.as_slice())))
        },
        ResponseKind::Data => CollectStep::KeepData,
    }
}

// ---------------------------------------------------------------------------
// SASL.
// ---------------------------------------------------------------------------
/// SASL PLAIN's initial response: `\0user\0password` in UTF-8.
pub open spec fn plain_payload(username: Seq<u8>, password: Seq<u8>) -> Seq<u8> {
    seq![0u8] + username + seq![0u8] + password
}

fn push_bytes(out: &mut Vec<u8>, bytes: &[u8])
    ensures
        final(out)@ == old(out)@ + bytes@,
{
    let ghost start = out@;
    let mut i: usize = 0;
    while i < bytes.len()
        invariant
            i <= bytes@.len(),
            out@ == start + bytes@.take(i as int),
        decreases bytes@.len() - i,
    {
        out.push(bytes[i]);
        i += 1;
        assert(out@ =~= start + bytes@.take(i as int));
    }
    assert(bytes@.take(i as int) =~= bytes@);
}

/// The base64 SASL PLAIN response for a user name and password.
pub fn base64_plain(username: &str, password: &str) -> (r: String)
    ensures
        r@ == base64_standard(plain_payload(username.spec_bytes(), password.spec_bytes())),
{
    let mut payload: Vec<u8> = Vec::new();
    payload.push(0u8);
    push_bytes(&mut payload, username.as_bytes());
    payload.push(0u8);
    push_bytes(&mut payload, password.as_bytes());
    assert(payload@ =~= plain_payload(username.spec_bytes(), password.spec_bytes()));
    base64_encode(payload.as_slice())
}

/// The XOAUTH2 initial response (before base64): `user=U^Aauth=Bearer T^A^A`.
pub open spec fn xoauth2_text(username: Seq<char>, token: Seq<char>) -> Seq<char> {
    "user="@ + username + seq!['\x01'] + "auth=Bearer "@ + token + seq!['\x01', '\x01']
}

/// Encode a string's UTF-8 bytes in base64.
fn base64_of_text(text: &str) -> (r: String)
    ensures
        r@ == base64_standard(text.spec_bytes()),
{
    base64_encode(text.as_bytes())
}

/// The base64 XOAUTH2 response for a user name and access token.
pub fn xoauth2_response(username: &str, access_token: &str) -> (r: String)
    ensures
        r@ == base64_standard(encode_utf8(xoauth2_text(username@, access_token@))),
{
    let mut m = chars_of("user=");
    push_all(&mut m, chars_of(username).as_slice());
    m.push('\x01');
    push_all(&mut m, chars_of("auth=Bearer ").as_slice());
    push_all(&mut m, chars_of(access_token).as_slice());
    m.push('\x01');
    m.push('\x01');
    let text = string_of(m.as_slice());
    proof {
        assert(m@ =~= xoauth2_text(username@, access_token@));
    }
    base64_of_text(text.as_str())
}

/// What a line the server sends during a SASL exchange asks for.
#[derive(Debug, Clone)]
pub enum SaslStep {
    /// A continuation request: send the (base64) response.
    Respond,
    /// The exchange completed with OK.
    Accepted,
    /// The exchange ended otherwise.
    Rejected(MailError),
    /// Another line; read on.
    Ignore,
}

/// The ASCII upper-case form of a line contains ` OK`.
pub open spec fn completes_ok(line: Seq<char>) -> bool {
    contains(upper_seq(line), " OK"@)
}

/// Decide what a SASL line means in the exchange of the command tagged
/// `tag`; `mechanism` names the exchange in the rejection.
pub fn sasl_step(line: &str, tag: &str, mechanism: &str) -> (r: SaslStep)
    ensures
        if starts_with(line@, "+"@) {
            r is Respond
        } else if starts_with(line@, tag@) {
            if completes_ok(line@) {
                r is Accepted
            } else {
                r matches SaslStep::Rejected(e) && e.kind == MailErrorKind::ImapAuthRejected
                    && e.message@ == mechanism@ + " rejected: "@ + line@
            }
        } else {
            r is Ignore
        },
{
    let l = chars_of(line);
    if starts_with_chars(l.as_slice(), chars_of("+").as_slice()) {
        return SaslStep::Respond;
    }
    if starts_with_chars(l.as_slice(), chars_of(tag).as_slice()) {
        let upper = upper_chars(l.as_slice());
        if contains_chars(upper.as_slice(), chars_of(" OK").as_slice()) {
            return SaslStep::Accepted;
        }
        let mut m = chars_of(mechanism);
        push_all(&mut m, chars_of(" rejected: ").as_slice());
        push_all(&mut m, l.as_slice());
        return SaslStep::Rejected(MailError::new(MailErrorKind::ImapAuthRejected, string_of(m.as_slice())));
    }
    SaslStep::Ignore
}

// ---------------------------------------------------------------------------
// IDLE.
// ---------------------------------------------------------------------------
/// How waiting for a mailbox change ended.
#[derive(Debug, Clone, Copy, PartialEq, Eq, Structural)]
pub enum IdleOutcome {
    TimedOut,
    MailboxChanged,
}

/// What one round of IDLE produced.
#[derive(Debug, Clone)]
pub enum IdleRound {
    /// The server reported a change.
    Changed,
    /// The server stayed quiet until the read timeout.
    Quiet,
    /// The round failed; `timed_out` when the cause was a read timeout.
    Failed { timed_out: bool, message: String },
}

/// What waiting does after a round of IDLE.
#[derive(Debug, Clone)]
pub enum WaitStep {
    /// Stop waiting with this outcome.
    Finish(IdleOutcome),
    /// Issue IDLE again.
    Again,
    /// Stop with this error.
    Fail(MailError),
}

/// Decide how waiting goes on after a round of IDLE: a change ends it; past
/// the deadline a quiet or failed round is a timeout; a quiet round, or one
/// that failed by a read timeout, is repeated; any other failure means the
/// connection dropped.
pub fn wait_step(round: &IdleRound, past_deadline: bool) -> (r: WaitStep)
    ensures
        match round {
            IdleRound::Changed => r matches WaitStep::Finish(IdleOutcome::MailboxChanged),
            IdleRound::Quiet => if past_deadline { r matches WaitStep::Finish(IdleOutcome::TimedOut) } else { r is Again },
            IdleRound::Failed { timed_out, message } => if past_deadline {
                r matches WaitStep::Finish(IdleOutcome::TimedOut)
            } else if *timed_out {
                r is Again
            } else {
                r matches WaitStep::Fail(e) && e.kind == MailErrorKind::ConnectionDropped && e.message@ == message@
            },
        },
{
    match round {
        IdleRound::Changed => WaitStep::Finish(IdleOutcome::MailboxChanged),
        IdleRound::Quiet => if past_deadline { WaitStep::Finish(IdleOutcome::TimedOut) } else { WaitStep::Again },
        IdleRound::Failed { timed_out, message } => if past_deadline {
            WaitStep::Finish(IdleOutcome::TimedOut)
        } else if *timed_out {
            WaitStep::Again
        } else {
            WaitStep::Fail(MailError::new(MailErrorKind::ConnectionDropped, message.clone()))
        },
    }
}

/// What the line after `IDLE` says: a continuation lets IDLE run; anything
/// else refuses it.
pub fn idle_accepted(line: &str) -> (r: MailResult<()>)
    ensures
        starts_with(line@, "+"@) ==> r is Ok,
        !starts_with(line@, "+"@) ==> (r matches Err(e) && e.kind == MailErrorKind::Other
            && e.message@ == "IDLE was not accepted: "@ + line@),
{
    let l = chars_of(line);
    if starts_with_chars(l.as_slice(), chars_of("+").as_slice()) {
        Ok(())
    } else {
        let mut m = chars_of("IDLE was not accepted: ");
        push_all(&mut m, l.as_slice());
        Err(MailError::new(MailErrorKind::Other, string_of(m.as_slice())))
    }
}

/// The first line read while idling: `None` when the read failed (the
/// timeout); a completion of the IDLE command itself ends the round with no
/// change and no DONE; any other line reports a change.
#[derive(Debug, Clone, Copy, PartialEq, Eq, Structural)]
pub enum IdleFirstLine {
    /// IDLE completed on its own: no change, and no DONE to send.
    Completed,
    /// Send DONE and drain; the mailbox changed when `changed`.
    Done { changed: bool },
}

/// Decide what the first line read while idling means.
pub fn idle_first_line(line: Option<&str>, tag: &str) -> (r: IdleFirstLine)
    ensures
        match line {
            Some(l) => if starts_with(l@, tag@) { r == IdleFirstLine::Completed } else { r == (IdleFirstLine::Done { changed: true }) },
            None => r == (IdleFirstLine::Done { changed: false }),
        },
{
    match line {
        Some(l) => {
            let lc = chars_of(l);
            if starts_with_chars(lc.as_slice(), chars_of(tag).as_slice()) {
                IdleFirstLine::Completed
            } else {
                IdleFirstLine::Done { changed: true }
            }
        },
        None => IdleFirstLine::Done { changed: false },
    }
}

// ---------------------------------------------------------------------------
// Laws of tags.
// ---------------------------------------------------------------------------
proof fn lemma_decimal_value(n: nat)
    ensures
        digits_value(decimal(n)) == n,
    decreases n,
{
    if n >= 10 {
        lemma_decimal_value(n / 10);
        assert(decimal(n).drop_last() == decimal(n / 10));
        assert(decimal(n).last() == digit(n % 10));
        assert((digit(n % 10) as u32 - 48) as nat == n % 10);
        assert(digits_value(decimal(n)) == digits_value(decimal(n / 10)) * 10 + n % 10);
        assert(n == (n / 10) * 10 + n % 10);
    } else {
        assert(decimal(n).drop_last() =~= Seq::<char>::empty());
        assert(digits_value(Seq::<char>::empty()) == 0);
        assert((digit(n) as u32 - 48) as nat == n);
        assert(digits_value(decimal(n)) == digits_value(Seq::<char>::empty()) * 10 + n);
    }
}

proof fn lemma_zeros_value(k: nat, d: Seq<char>)
    ensures
        digits_value(Seq::new(k, |i: int| '0') + d) == digits_value(d),
    decreases k, d.len(),
{
    if d.len() > 0 {
        lemma_zeros_value(k, d.drop_last());
        assert((Seq::new(k, |i: int| '0') + d).drop_last() =~= Seq::new(k, |i: int| '0') + d.drop_last());
        assert((Seq::new(k, |i: int| '0') + d).last() == d.last());
    } else if k > 0 {
        lemma_zeros_value((k - 1) as nat, d);
        assert((Seq::new(k, |i: int| '0') + d).drop_last() =~= Seq::new((k - 1) as nat, |i: int| '0') + d);
        assert((Seq::new(k, |i: int| '0') + d).last() == '0');
    } else {
        assert(Seq::new(k, |i: int| '0') + d =~= Seq::<char>::empty());
    }
}

proof fn lemma_padded_value(n: nat)
    ensures
        digits_value(padded4(n)) == n,
{
    lemma_decimal_value(n);
    let d = decimal(n);
    if d.len() < 4 {
        lemma_zeros_value((4 - d.len()) as nat, d);
    }
}

/// Different commands of a session get different tags, so a completion
/// names exactly one command.
pub proof fn law_tags_are_distinct(a: nat, b: nat)
    requires
        a != b,
    ensures
        tag_text(a) != tag_text(b),
{
    if tag_text(a) == tag_text(b) {
        assert(padded4(a) =~= tag_text(a).drop_first());
        assert(padded4(b) =~= tag_text(b).drop_first());
        lemma_padded_value(a);
        lemma_padded_value(b);
    }
}

// ---------------------------------------------------------------------------
// Reusing a session.
// ---------------------------------------------------------------------------
/// What a pooled session does after an operation on it failed.
#[derive(Debug, Clone, Copy, PartialEq, Eq, Structural)]
pub enum PoolStep {
    /// Report the error and keep the session.
    Fail,
    /// Drop the session, connect again and retry the operation.
    Reconnect,
    /// Drop the session and report the error.
    DropAndFail,
}

/// What follows a failure, after `attempts` earlier retries: a transport
/// failure discards the session and is retried once on a fresh connection;
/// any other failure is reported as is.
pub open spec fn pool_step(transport: bool, attempts: nat) -> PoolStep {
    if transport {
        if attempts == 0 { PoolStep::Reconnect } else { PoolStep::DropAndFail }
    } else {
        PoolStep::Fail
    }
}

/// Decide what follows a failed operation on a pooled session.
pub fn after_failure(error: &MailError, attempts: u32) -> (r: PoolStep)
    ensures
        r == pool_step(crate::errors::is_transport_kind(error.kind), attempts as nat),
{
    if error.is_transport() {
        if attempts == 0 { PoolStep::Reconnect } else { PoolStep::DropAndFail }
    } else {
        PoolStep::Fail
    }
}

/// An operation is retried at most once: after one retry, no failure leads
/// to another.
pub proof fn law_one_retry_at_most(transport: bool, attempts: nat)
    requires
        attempts >= 1,
    ensures
        pool_step(transport, attempts) != PoolStep::Reconnect,
{
}

// ---------------------------------------------------------------------------
// Reading responses.
// ---------------------------------------------------------------------------
/// What the codec made of the bytes buffered so far.
#[derive(Debug, Clone, Copy, PartialEq, Eq, Structural)]
pub enum DecodeOutcome {
    /// A response was decoded from the first `consumed` bytes.
    Decoded { consumed: usize },
    /// More bytes are needed (a line or an announced literal is incomplete).
    Incomplete,
    /// The bytes do not decode.
    Failed,
}

/// What the reader does next.
#[derive(Debug, Clone, Copy, PartialEq, Eq, Structural)]
pub enum ReadStep {
    /// Hand out the response and drop its `consumed` bytes from the buffer.
    Emit { consumed: usize },
    /// Read more bytes from the socket.
    ReadMore,
    /// Keep the first `end` bytes as an undecodable line, drop them, and
    /// decode again.
    SkipLine { end: usize },
}

/// Decide how reading goes on: a decoded response is handed out; an
/// incomplete one waits for more bytes; bytes that do not decode are skipped
/// one line at a time, so an unknown line never desynchronizes the session,
/// and a partial undecodable line waits for the rest.
pub fn read_step(outcome: DecodeOutcome, buffer: &[u8]) -> (r: ReadStep)
    ensures
        match outcome {
            DecodeOutcome::Decoded { consumed } => r == (ReadStep::Emit { consumed }),
            DecodeOutcome::Incomplete => r == ReadStep::ReadMore,
            DecodeOutcome::Failed => match r {
                ReadStep::SkipLine { end } => 1 <= end <= buffer@.len() && buffer@[end - 1] == 10u8
                    && forall|j: int| 0 <= j < end - 1 ==> buffer@[j] != 10u8,
                ReadStep::ReadMore => forall|j: int| 0 <= j < buffer@.len() ==> buffer@[j] != 10u8,
                ReadStep::Emit { .. } => false,
            },
        },
{
    match outcome {
        DecodeOutcome::Decoded { consumed } => ReadStep::Emit { consumed },
        DecodeOutcome::Incomplete => ReadStep::ReadMore,
        DecodeOutcome::Failed => {
            let mut i: usize = 0;
            while i < buffer.len()
                invariant
                    i <= buffer@.len(),
                    outcome == DecodeOutcome::Failed,
                    forall|j: int| 0 <= j < i ==> buffer@[j] != 10u8,
                decreases buffer@.len() - i,
            {
                if buffer[i] == 10u8 {
                    return ReadStep::SkipLine { end: i + 1 };
                }
                i += 1;
            }
            ReadStep::ReadMore
        },
    }
}

} // verus!
