//! Reading IMAP responses: imap-codec decodes, and the reader owns the policy
//! around it. A line that does not decode is kept for diagnostics and
//! skipped, and decoding goes on from the next line, so an unknown response
//! never desynchronizes the session.
use imap_codec::decode::Decoder;
use imap_codec::ResponseCodec;
use imap_types::response::{Response, Status};
use vstd::prelude::*;
use vstd::utf8::{decode_utf8, valid_utf8};

use crate::errors::{MailError, MailErrorKind};
use crate::imap_session::{bounded_push, push_bounded, ResponseKind, MAX_SKIPPED};
use crate::text::{chars_of, push_all, string_of, strings_view, trim_end};

verus! {

/// What imap-codec makes of the bytes buffered so far.
#[derive(Debug, Clone, Copy, PartialEq, Eq, Structural)]
pub enum DecodeAnswer {
    /// A response was decoded from the first `consumed` bytes.
    Decoded { consumed: usize },
    /// More bytes are needed: a line, or a literal it announced, is cut short.
    Incomplete,
    /// The bytes do not decode.
    Failed,
}

/// What `ResponseCodec` answers for a buffer.
pub uninterp spec fn response_decoding(buffer: Seq<u8>) -> DecodeAnswer;

/// Decode the next response from `buffer` with `imap_codec::ResponseCodec`.
/// The claim is that the answer is a function of the bytes, named
/// `response_decoding`: the decoder hands back the bytes after the response,
/// which are a suffix of the input, so what it consumed fits in the buffer; a
/// literal found before its bytes arrived counts as incomplete.
#[verifier::external_body]
pub fn decode_response(buffer: &[u8]) -> (r: DecodeAnswer)
    ensures
        r == response_decoding(buffer@),
        r matches DecodeAnswer::Decoded { consumed } ==> consumed <= buffer@.len(),
{
    match ResponseCodec::default().decode(buffer) {
        Ok((rest, _)) => DecodeAnswer::Decoded { consumed: buffer.len() - rest.len() },
        Err(imap_codec::decode::ResponseDecodeError::Failed) => DecodeAnswer::Failed,
        Err(_) => DecodeAnswer::Incomplete,
    }
}

/// A response kind with its texts as characters.
pub enum KindModel {
    Tagged { tag: Seq<char>, ok: bool, text: Seq<char>, code: Seq<char> },
    Untagged(Seq<char>),
    Bye(Seq<char>),
    Data,
}

pub open spec fn kind_view(k: ResponseKind) -> KindModel {
    match k {
        ResponseKind::Tagged { tag, ok, text, code } => KindModel::Tagged { tag: tag@, ok, text: text@, code: code@ },
        ResponseKind::Untagged(t) => KindModel::Untagged(t@),
        ResponseKind::Bye(t) => KindModel::Bye(t@),
        ResponseKind::Data => KindModel::Data,
    }
}

/// What kind of response the bytes of one decoded response are.
pub uninterp spec fn response_kind_of(bytes: Seq<u8>) -> KindModel;

/// Tell apart the response that `bytes` decode to with imap-codec: a status
/// with a tag (its tag, whether it is `OK`, its text and its code's debug
/// form), a status without one (its text), BYE (its text), or anything else
/// (data, a continuation request, or bytes that do not decode).
/// The claim is that the kind is a function of the bytes, named
/// `response_kind_of`.
#[verifier::external_body]
pub fn response_kind(bytes: &[u8]) -> (r: ResponseKind)
    ensures
        kind_view(r) == response_kind_of(bytes@),
{
    let status = match ResponseCodec::default().decode(bytes) {
        Ok((_, Response::Status(status))) => status,
        _ => return ResponseKind::Data,
    };
    let text: String = status.text().inner().into();
    match (&status, status.tag()) {
        (Status::Bye { .. }, _) => ResponseKind::Bye(text),
        (_, None) => ResponseKind::Untagged(text),
        (_, Some(t)) => ResponseKind::Tagged { tag: t.inner().into(), ok: matches!(status, Status::Ok { .. }), text,
            code: status.code().map(|c| format!("{c:?}")).unwrap_or_default() },
    }
}

/// The text `String::from_utf8_lossy` makes of some bytes.
pub uninterp spec fn utf8_lossy(bytes: Seq<u8>) -> Seq<char>;

/// `String::from_utf8_lossy`: a function of the bytes, named `utf8_lossy`.
/// As std documents, valid UTF-8 comes back as the text it encodes; invalid
/// sequences become U+FFFD, which is not stated.
#[verifier::external_body]
fn lossy_text(bytes: &[u8]) -> (r: String)
    ensures
        r@ == utf8_lossy(bytes@),
        valid_utf8(bytes@) ==> r@ == decode_utf8(bytes@),
{
    String::from_utf8_lossy(bytes).into_owned()
}

/// The `Debug` form of a text: quoted, with special characters escaped.
pub uninterp spec fn str_debug(text: Seq<char>) -> Seq<char>;

/// `format!("{:?}", text)` for a `str`: a function of the text, named
/// `str_debug`; the escaping rules are not stated.
#[verifier::external_body]
fn debug_text(text: &str) -> (r: String)
    ensures
        r@ == str_debug(text@),
{
    format!("{text:?}")
}

/// The index of the first line feed in `b`, or -1.
pub open spec fn first_newline(b: Seq<u8>) -> int
    decreases b.len(),
{
    if b.len() == 0 {
        -1
    } else if b[0] == 10u8 {
        0
    } else {
        let j = first_newline(b.drop_first());
        if j < 0 { -1 } else { j + 1 }
    }
}

/// The text kept of a skipped line: its first `end` bytes, decoded lossily,
/// without trailing whitespace.
pub open spec fn skipped_line(b: Seq<u8>, end: int) -> Seq<char> {
    trim_end(utf8_lossy(b.take(end)))
}

/// Reading the next response from buffered bytes: a decoded response is
/// handed out and its bytes dropped; a buffer that is cut short waits for
/// more; a line that does not decode is kept (at most `MAX_SKIPPED` lines are
/// kept) and dropped, and decoding goes on from the next line; a partial line
/// that does not decode waits for the rest. The result is the response's
/// bytes, what stays buffered, and the kept lines.
pub open spec fn drain(b: Seq<u8>, skipped: Seq<Seq<char>>) -> (Option<Seq<u8>>, Seq<u8>, Seq<Seq<char>>)
    decreases b.len(),
{
    match response_decoding(b) {
        DecodeAnswer::Decoded { consumed } => if consumed <= b.len() {
            (Some(b.take(consumed as int)), b.skip(consumed as int), skipped)
        } else {
            (None, b, skipped)
        },
        DecodeAnswer::Incomplete => (None, b, skipped),
        DecodeAnswer::Failed => {
            let i = first_newline(b);
            if 0 <= i < b.len() {
                drain(b.skip(i + 1), bounded_push(skipped, skipped_line(b, i + 1)))
            } else {
                (None, b, skipped)
            }
        },
    }
}

proof fn lemma_first_newline(b: Seq<u8>)
    ensures
        -1 <= first_newline(b) < b.len(),
        first_newline(b) >= 0 ==> b[first_newline(b)] == 10u8,
        forall|j: int| 0 <= j < b.len() && (first_newline(b) < 0 || j < first_newline(b)) ==> #[trigger] b[j] != 10u8,
    decreases b.len(),
{
    if b.len() > 0 && b[0] != 10u8 {
        lemma_first_newline(b.drop_first());
        assert forall|j: int| 0 <= j < b.len() && (first_newline(b) < 0 || j < first_newline(b)) implies #[trigger] b[j] != 10u8 by {
            if j > 0 {
                assert(b[j] == b.drop_first()[j - 1]);
            }
        }
    }
}

/// Bytes received from a server that are not yet handed out as responses,
/// and the lines that did not decode.
pub struct ResponseBuffer {
    buffer: Vec<u8>,
    skipped: Vec<String>,
}

fn copy_from(v: &Vec<u8>, from: usize) -> (r: Vec<u8>)
    requires
        from <= v@.len(),
    ensures
        r@ == v@.skip(from as int),
{
    let mut r: Vec<u8> = Vec::new();
    let mut i: usize = from;
    while i < v.len()
        invariant
            from <= i <= v@.len(),
            r@ == v@.subrange(from as int, i as int),
        decreases v@.len() - i,
    {
        r.push(v[i]);
        i += 1;
    }
    assert(r@ =~= v@.skip(from as int));
    r
}

fn copy_to(v: &Vec<u8>, to: usize) -> (r: Vec<u8>)
    requires
        to <= v@.len(),
    ensures
        r@ == v@.take(to as int),
{
    let mut r: Vec<u8> = Vec::new();
    let mut i: usize = 0;
    while i < to
        invariant
            i <= to <= v@.len(),
            r@ == v@.take(i as int),
        decreases to - i,
    {
        r.push(v[i]);
        i += 1;
        assert(r@ =~= v@.take(i as int));
    }
    r
}

fn trim_end_string(s: String) -> (r: String)
    ensures
        r@ == trim_end(s@),
{
    let cs = chars_of(s.as_str());
    let mut j: usize = cs.len();
    assert(cs@.take(j as int) =~= cs@);
    while j > 0 && crate::text::is_space_char(cs[j - 1])
        invariant
            j <= cs@.len(),
            trim_end(cs@) == trim_end(cs@.take(j as int)),
        decreases j,
    {
        assert(cs@.take(j as int).drop_last() =~= cs@.take(j - 1));
        j -= 1;
    }
    let out = crate::text::slice_range(cs.as_slice(), 0, j);
    assert(out@ =~= cs@.take(j as int));
    string_of(out.as_slice())
}

impl ResponseBuffer {
    /// The bytes buffered and not yet handed out.
    pub closed spec fn pending(&self) -> Seq<u8> {
        self.buffer@
    }

    /// The undecodable lines kept, oldest first.
    pub closed spec fn skipped_view(&self) -> Seq<Seq<char>> {
        strings_view(self.skipped@)
    }

    /// At most `MAX_SKIPPED` lines are kept.
    pub closed spec fn well_formed(&self) -> bool {
        self.skipped@.len() <= MAX_SKIPPED
    }

    /// Nothing buffered, nothing kept.
    pub fn new() -> (r: Self)
        ensures
            r.pending() == Seq::<u8>::empty(),
            r.skipped_view() == Seq::<Seq<char>>::empty(),
            r.well_formed(),
    {
        let r = ResponseBuffer { buffer: Vec::new(), skipped: Vec::new() };
        assert(strings_view(r.skipped@) =~= Seq::<Seq<char>>::empty());
        r
    }

    /// Buffer bytes read from the server.
    pub fn feed(&mut self, bytes: &[u8])
        ensures
            final(self).pending() == old(self).pending() + bytes@,
            final(self).skipped_view() == old(self).skipped_view(),
            final(self).well_formed() == old(self).well_formed(),
    {
        let mut i: usize = 0;
        let ghost start = self.buffer@;
        while i < bytes.len()
            invariant
                i <= bytes@.len(),
                self.buffer@ == start + bytes@.take(i as int),
                start == old(self).buffer@,
                self.skipped@ == old(self).skipped@,
            decreases bytes@.len() - i,
        {
            self.buffer.push(bytes[i]);
            i += 1;
            assert(self.buffer@ =~= start + bytes@.take(i as int));
        }
        assert(bytes@.take(i as int) =~= bytes@);
    }

    /// The bytes of the next response, when the buffer holds a whole one; the
    /// lines before it that do not decode are skipped and kept.
    pub fn next_response(&mut self) -> (r: Option<Vec<u8>>)
        ensures
            ({
                let d = drain(old(self).pending(), old(self).skipped_view());
                &&& match r {
                    Some(v) => d.0 == Some(v@),
                    None => d.0 is None,
                }
                &&& final(self).pending() == d.1
                &&& final(self).skipped_view() == d.2
            }),
            old(self).well_formed() ==> final(self).well_formed(),
    {
        let ghost goal = drain(self.buffer@, strings_view(self.skipped@));
        loop
            invariant
                drain(self.buffer@, strings_view(self.skipped@)) == goal,
                goal == drain(old(self).pending(), old(self).skipped_view()),
                old(self).well_formed() ==> self.skipped@.len() <= MAX_SKIPPED,
            decreases self.buffer@.len(),
        {
            match decode_response(self.buffer.as_slice()) {
                DecodeAnswer::Decoded { consumed } => {
                    let bytes = copy_to(&self.buffer, consumed);
                    self.buffer = copy_from(&self.buffer, consumed);
                    return Some(bytes);
                },
                DecodeAnswer::Incomplete => {
                    return None;
                },
                DecodeAnswer::Failed => {
                    proof {
                        lemma_first_newline(self.buffer@);
                    }
                    let mut i: usize = 0;
                    while i < self.buffer.len() && self.buffer[i] != 10u8
                        invariant
                            i <= self.buffer@.len(),
                            forall|j: int| 0 <= j < i ==> self.buffer@[j] != 10u8,
                        decreases self.buffer@.len() - i,
                    {
                        i += 1;
                    }
                    proof {
                        lemma_first_newline(self.buffer@);
                        let f = first_newline(self.buffer@);
                        if i < self.buffer@.len() {
                            if f < 0 || f > i {
                                assert(self.buffer@[i as int] != 10u8);
                            } else if f < i {
                                assert(self.buffer@[f] != 10u8);
                            }
                        } else if f >= 0 {
                            assert(self.buffer@[f] != 10u8);
                        }
                    }
                    if i == self.buffer.len() {
                        return None;
                    }
                    let line = copy_to(&self.buffer, i + 1);
                    let text = trim_end_string(lossy_text(line.as_slice()));
                    push_bounded(&mut self.skipped, text);
                    self.buffer = copy_from(&self.buffer, i + 1);
                },
            }
        }
    }

    /// Take one raw line (through its line feed) off the buffer, when a whole
    /// one is buffered; used while a continuation or an IDLE report is
    /// awaited rather than a response.
    pub fn take_line(&mut self) -> (r: Option<Vec<u8>>)
        ensures
            ({
                let i = first_newline(old(self).pending());
                if i >= 0 {
                    &&& r matches Some(l) && l@ == old(self).pending().take(i + 1)
                    &&& final(self).pending() == old(self).pending().skip(i + 1)
                } else {
                    &&& r is None
                    &&& final(self).pending() == old(self).pending()
                }
            }),
            final(self).skipped_view() == old(self).skipped_view(),
            final(self).well_formed() == old(self).well_formed(),
    {
        proof {
            lemma_first_newline(self.buffer@);
        }
        let mut i: usize = 0;
        while i < self.buffer.len() && self.buffer[i] != 10u8
            invariant
                i <= self.buffer@.len(),
                forall|j: int| 0 <= j < i ==> self.buffer@[j] != 10u8,
            decreases self.buffer@.len() - i,
        {
            i += 1;
        }
        proof {
            let f = first_newline(self.buffer@);
            if i < self.buffer@.len() {
                if f < 0 || f > i {
                    assert(self.buffer@[i as int] != 10u8);
                } else if f < i {
                    assert(self.buffer@[f] != 10u8);
                }
            } else if f >= 0 {
                assert(self.buffer@[f] != 10u8);
            }
        }
        if i == self.buffer.len() {
            return None;
        }
        let line = copy_to(&self.buffer, i + 1);
        self.buffer = copy_from(&self.buffer, i + 1);
        Some(line)
    }

    /// The lines that did not decode, handed over; none are kept.
    pub fn take_skipped(&mut self) -> (r: Vec<String>)
        ensures
            strings_view(r@) == old(self).skipped_view(),
            final(self).skipped_view() == Seq::<Seq<char>>::empty(),
            final(self).pending() == old(self).pending(),
            final(self).well_formed(),
    {
        let mut taken: Vec<String> = Vec::new();
        std::mem::swap(&mut taken, &mut self.skipped);
        assert(strings_view(self.skipped@) =~= Seq::<Seq<char>>::empty());
        taken
    }

    /// The error when the server closes the connection while bytes are
    /// buffered that did not make a response: cut short in the middle of a
    /// line that does not decode, or in the middle of a response (quoting
    /// what was buffered). Either way the connection was dropped.
    pub fn closed_error(&self) -> (r: MailError)
        ensures
            r.kind == MailErrorKind::ConnectionDropped,
            response_decoding(self.pending()) == DecodeAnswer::Failed ==> r.message@
                == "IMAP server closed the connection during an undecodable line"@,
            response_decoding(self.pending()) != DecodeAnswer::Failed ==> r.message@
                == "IMAP server closed the connection mid-response: "@ + str_debug(utf8_lossy(self.pending())),
    {
        match decode_response(self.buffer.as_slice()) {
            DecodeAnswer::Failed => MailError::connection_dropped("IMAP server closed the connection during an undecodable line"),
            _ => {
                let mut m = chars_of("IMAP server closed the connection mid-response: ");
                let text = lossy_text(self.buffer.as_slice());
                push_all(&mut m, chars_of(debug_text(text.as_str()).as_str()).as_slice());
                MailError::new(MailErrorKind::ConnectionDropped, string_of(m.as_slice()))
            },
        }
    }
}

/// A line that does not decode is skipped and decoding goes on right after
/// it: when the buffer fails to decode and holds a line feed, reading from it
/// is reading from the bytes after the first line, with that line kept.
pub proof fn law_undecodable_line_is_skipped(b: Seq<u8>, skipped: Seq<Seq<char>>)
    requires
        response_decoding(b) == DecodeAnswer::Failed,
        0 <= first_newline(b),
    ensures
        drain(b, skipped) == drain(
            b.skip(first_newline(b) + 1),
            bounded_push(skipped, skipped_line(b, first_newline(b) + 1)),
        ),
{
    lemma_first_newline(b);
}

/// The decoder's answer does not change when more bytes follow a whole
/// response or a whole line that does not decode: what was decoded stays
/// decoded, and what failed on a complete line still fails.
pub open spec fn decoding_is_stable() -> bool {
    forall|b: Seq<u8>, x: Seq<u8>| #![trigger response_decoding(b + x)]
        ((response_decoding(b) matches DecodeAnswer::Decoded { consumed } && consumed <= b.len())
            ==> response_decoding(b + x) == response_decoding(b))
        && ((response_decoding(b) == DecodeAnswer::Failed && 0 <= first_newline(b))
            ==> response_decoding(b + x) == DecodeAnswer::Failed)
}

/// Reading from bytes that arrived in two pieces, draining in between.
pub open spec fn drain_in_two(b: Seq<u8>, x: Seq<u8>, skipped: Seq<Seq<char>>) -> (Option<Seq<u8>>, Seq<u8>, Seq<Seq<char>>) {
    let d = drain(b, skipped);
    match d.0 {
        Some(r) => (Some(r), d.1 + x, d.2),
        None => drain(d.1 + x, d.2),
    }
}

proof fn lemma_first_newline_extends(b: Seq<u8>, x: Seq<u8>)
    requires
        0 <= first_newline(b),
    ensures
        first_newline(b + x) == first_newline(b),
    decreases b.len(),
{
    lemma_first_newline(b);
    if b[0] != 10u8 {
        assert((b + x).drop_first() =~= b.drop_first() + x);
        lemma_first_newline_extends(b.drop_first(), x);
    }
}

/// How the bytes arrive does not matter: when the decoder is stable (see
/// `decoding_is_stable`), reading after the first piece of the bytes and
/// then after the rest gives the same response, the same remaining bytes
/// and the same kept lines as reading after all of them at once.
pub proof fn law_reading_does_not_depend_on_chunking(b: Seq<u8>, x: Seq<u8>, skipped: Seq<Seq<char>>)
    requires
        decoding_is_stable(),
    ensures
        drain_in_two(b, x, skipped) == drain(b + x, skipped),
    decreases b.len(),
{
    match response_decoding(b) {
        DecodeAnswer::Decoded { consumed } => {
            if consumed <= b.len() {
                assert(response_decoding(b + x) == response_decoding(b));
                assert((b + x).take(consumed as int) =~= b.take(consumed as int));
                assert((b + x).skip(consumed as int) =~= b.skip(consumed as int) + x);
            }
        },
        DecodeAnswer::Incomplete => {},
        DecodeAnswer::Failed => {
            let i = first_newline(b);
            lemma_first_newline(b);
            if 0 <= i < b.len() {
                assert(response_decoding(b + x) == DecodeAnswer::Failed);
                lemma_first_newline_extends(b, x);
                assert((b + x).take(i + 1) =~= b.take(i + 1));
                assert((b + x).skip(i + 1) =~= b.skip(i + 1) + x);
                let s2 = bounded_push(skipped, skipped_line(b, i + 1));
                assert(skipped_line(b + x, i + 1) == skipped_line(b, i + 1));
                law_reading_does_not_depend_on_chunking(b.skip(i + 1), x, s2);
            }
        },
    }
}

} // verus!
