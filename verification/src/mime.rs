//! The parsed shape of a message: its headers, its MIME parts, and its text.
use mail_parser::MimeHeaders;
use vstd::prelude::*;

use crate::errors::{MailError, MailResult};
use crate::text::{
    chars_of, contains, contains_chars, eq_ci, eq_ci_chars, lower_chars, lower_seq, push_all,
    starts_with, starts_with_chars, string_of, trim, trim_chars,
};

verus! {

/// One MIME part's media type, as the `Content-Type` header gave it.
#[derive(Debug, Clone)]
pub struct MimePart {
    /// The top-level type, e.g. `multipart`; absent without a `Content-Type`.
    pub ctype: Option<String>,
    /// The subtype, e.g. `signed`.
    pub subtype: Option<String>,
}

/// A parsed message.
#[derive(Debug, Clone)]
pub struct MessageDocument {
    /// The message's header fields in order, each as its name and raw value.
    pub headers: Vec<(String, String)>,
    /// Every MIME part of the message, the root part first, then the parts
    /// below it in document order.
    pub parts: Vec<MimePart>,
    /// The first text body of the message, when it has one.
    pub text: Option<String>,
}

/// A MIME part as character sequences.
pub struct PartModel {
    pub ctype: Option<Seq<char>>,
    pub subtype: Option<Seq<char>>,
}

/// A parsed message as character sequences.
pub struct DocumentModel {
    pub headers: Seq<(Seq<char>, Seq<char>)>,
    pub parts: Seq<PartModel>,
    pub text: Option<Seq<char>>,
}

pub open spec fn opt_chars(o: Option<String>) -> Option<Seq<char>> {
    match o {
        Some(s) => Some(s@),
        None => None,
    }
}

impl View for MimePart {
    type V = PartModel;

    open spec fn view(&self) -> PartModel {
        PartModel { ctype: opt_chars(self.ctype), subtype: opt_chars(self.subtype) }
    }
}

impl View for MessageDocument {
    type V = DocumentModel;

    open spec fn view(&self) -> DocumentModel {
        DocumentModel {
            headers: self.headers@.map_values(|h: (String, String)| (h.0@, h.1@)),
            parts: self.parts@.map_values(|p: MimePart| p@),
            text: opt_chars(self.text),
        }
    }
}

/// What `mail_parser` makes of a raw message, when it parses.
pub uninterp spec fn parsed_message(raw: Seq<u8>) -> Option<DocumentModel>;

/// Parse a raw message with `mail_parser::MessageParser` (minimal headers,
/// other headers as text). The claim is that the result is a function of the
/// bytes alone, named `parsed_message`; nothing more of the parser is stated.
#[verifier::external_body]
fn parse_with_mail_parser(raw: &[u8]) -> (r: Option<MessageDocument>)
    ensures
        r is None <==> parsed_message(raw@) is None,
        r matches Some(d) ==> d@ == parsed_message(raw@)->0,
{
    let message = mail_parser::MessageParser::new().with_minimal_headers().default_header_text().parse(raw)?;
    let headers = message.root_part().headers.iter().map(|h| (h.name.as_str().to_string(),
        String::from_utf8_lossy(&raw[h.offset_start..h.offset_end]).into_owned())).collect();
    let parts = message.parts.iter().map(|p| {
        let ct = p.content_type();
        MimePart { ctype: ct.map(|c| c.ctype().to_string()), subtype: ct.and_then(|c| c.subtype().map(str::to_string)) }
    }).collect();
    let text = message.body_text(0).map(|t| t.into_owned());
    Some(MessageDocument { headers, parts, text })
}

/// Parse a raw message; unparseable input is an error.
pub fn parse_message(raw: &[u8]) -> (r: MailResult<MessageDocument>)
    ensures
        r is Err <==> parsed_message(raw@) is None,
        r matches Ok(d) ==> d@ == parsed_message(raw@)->0,
        r matches Err(e) ==> e.kind == crate::errors::MailErrorKind::Other,
{
    match parse_with_mail_parser(raw) {
        Some(d) => Ok(d),
        None => Err(MailError::other("the message could not be parsed")),
    }
}

/// The first header named `name` (ASCII case-insensitively), trimmed.
pub open spec fn header_value_spec(headers: Seq<(Seq<char>, Seq<char>)>, name: Seq<char>) -> Option<Seq<char>>
    decreases headers.len(),
{
    if headers.len() == 0 {
        None
    } else if eq_ci(headers[0].0, name) {
        Some(trim(headers[0].1))
    } else {
        header_value_spec(headers.drop_first(), name)
    }
}

/// The full media type of a part in ASCII lowercase: `type/subtype`, or the
/// type alone, and `text/plain` for a part without a `Content-Type`.
pub open spec fn media_type(p: PartModel) -> Seq<char> {
    match p.ctype {
        None => "text/plain"@,
        Some(t) => match p.subtype {
            Some(s) => lower_seq(t + "/"@ + s),
            None => lower_seq(t),
        },
    }
}

/// Some part's media type contains `needle`.
pub open spec fn any_part_contains(parts: Seq<PartModel>, needle: Seq<char>) -> bool {
    exists|i: int| 0 <= i < parts.len() && contains(media_type(#[trigger] parts[i]), needle)
}

/// Cryptographic protection detected on a message's MIME structure.
#[derive(Debug, Clone, Copy, PartialEq, Eq, Structural)]
pub enum Protection {
    PgpSigned,
    PgpEncrypted,
    SmimeSigned,
    SmimeEncrypted,
}

/// The protection a MIME structure shows: a signed or encrypted multipart is
/// classified by the protocol parts below it, and a bare `pkcs7-mime` root is
/// an S/MIME encrypted message.
pub open spec fn protection_of(parts: Seq<PartModel>) -> Option<Protection> {
    if parts.len() == 0 {
        None
    } else {
        let top = media_type(parts[0]);
        if starts_with(top, "multipart/signed"@) && any_part_contains(parts, "pgp-signature"@) {
            Some(Protection::PgpSigned)
        } else if starts_with(top, "multipart/signed"@) && any_part_contains(parts, "pkcs7-signature"@) {
            Some(Protection::SmimeSigned)
        } else if starts_with(top, "multipart/encrypted"@) && any_part_contains(parts, "pgp-encrypted"@) {
            Some(Protection::PgpEncrypted)
        } else if starts_with(top, "multipart/encrypted"@) && any_part_contains(parts, "pkcs7-mime"@) {
            Some(Protection::SmimeEncrypted)
        } else if contains(top, "pkcs7-mime"@) {
            Some(Protection::SmimeEncrypted)
        } else {
            None
        }
    }
}

impl Protection {
    pub fn label(self) -> (r: &'static str)
        ensures
            r@ == match self {
                Protection::PgpSigned => "PGP signed"@,
                Protection::PgpEncrypted => "PGP encrypted"@,
                Protection::SmimeSigned => "S/MIME signed"@,
                Protection::SmimeEncrypted => "S/MIME encrypted"@,
            },
    {
        match self {
            Protection::PgpSigned => "PGP signed",
            Protection::PgpEncrypted => "PGP encrypted",
            Protection::SmimeSigned => "S/MIME signed",
            Protection::SmimeEncrypted => "S/MIME encrypted",
        }
    }
}

fn media_type_of(p: &MimePart) -> (r: Vec<char>)
    ensures
        r@ == media_type(p@),
{
    match &p.ctype {
        None => chars_of("text/plain"),
        Some(t) => {
            let mut full = chars_of(t.as_str());
            if let Some(s) = &p.subtype {
                let slash = chars_of("/");
                push_all(&mut full, slash.as_slice());
                let sub = chars_of(s.as_str());
                push_all(&mut full, sub.as_slice());
            }
            lower_chars(full.as_slice())
        },
    }
}

fn any_contains(types: &Vec<Vec<char>>, needle: &str, Ghost(parts): Ghost<Seq<PartModel>>) -> (r: bool)
    requires
        types@.len() == parts.len(),
        forall|i: int| 0 <= i < parts.len() ==> #[trigger] types@[i]@ == media_type(parts[i]),
    ensures
        r == any_part_contains(parts, needle@),
{
    let n = chars_of(needle);
    let mut i: usize = 0;
    while i < types.len()
        invariant
            i <= types@.len(),
            types@.len() == parts.len(),
            n@ == needle@,
            forall|k: int| 0 <= k < parts.len() ==> #[trigger] types@[k]@ == media_type(parts[k]),
            forall|k: int| 0 <= k < i ==> !contains(media_type(#[trigger] parts[k]), needle@),
        decreases types@.len() - i,
    {
        if contains_chars(types[i].as_slice(), n.as_slice()) {
            assert(contains(media_type(parts[i as int]), needle@));
            return true;
        }
        i += 1;
    }
    false
}

/// Detect PGP/MIME or S/MIME protection from the MIME tree. This identifies
/// the structure only; it does not verify signatures or decrypt.
pub fn detect_protection(document: &MessageDocument) -> (r: Option<Protection>)
    ensures
        r == protection_of(document@.parts),
{
    let ghost parts = document@.parts;
    let mut types: Vec<Vec<char>> = Vec::new();
    let mut i: usize = 0;
    while i < document.parts.len()
        invariant
            i <= document.parts@.len(),
            parts == document@.parts,
            types@.len() == i,
            forall|k: int| 0 <= k < i ==> #[trigger] types@[k]@ == media_type(parts[k]),
        decreases document.parts@.len() - i,
    {
        types.push(media_type_of(&document.parts[i]));
        i += 1;
    }
    if types.len() == 0 {
        return None;
    }
    let top = types[0].as_slice();
    let signed = chars_of("multipart/signed");
    let encrypted = chars_of("multipart/encrypted");
    let pkcs7 = chars_of("pkcs7-mime");
    if starts_with_chars(top, signed.as_slice()) {
        if any_contains(&types, "pgp-signature", Ghost(parts)) {
            return Some(Protection::PgpSigned);
        }
        if any_contains(&types, "pkcs7-signature", Ghost(parts)) {
            return Some(Protection::SmimeSigned);
        }
    }
    if starts_with_chars(top, encrypted.as_slice()) {
        if any_contains(&types, "pgp-encrypted", Ghost(parts)) {
            return Some(Protection::PgpEncrypted);
        }
        if any_contains(&types, "pkcs7-mime", Ghost(parts)) {
            return Some(Protection::SmimeEncrypted);
        }
    }
    if contains_chars(top, pkcs7.as_slice()) {
        return Some(Protection::SmimeEncrypted);
    }
    None
}

impl MessageDocument {
    /// The first header named `name`, compared ASCII case-insensitively,
    /// with surrounding whitespace removed.
    pub fn header_value(&self, name: &str) -> (r: Option<String>)
        ensures
            opt_chars(r) == header_value_spec(self@.headers, name@),
    {
        let wanted = chars_of(name);
        let ghost hs = self@.headers;
        let mut i: usize = 0;
        assert(hs.skip(0) =~= hs);
        while i < self.headers.len()
            invariant
                i <= self.headers@.len(),
                hs == self@.headers,
                wanted@ == name@,
                header_value_spec(hs, name@) == header_value_spec(hs.skip(i as int), name@),
            decreases self.headers@.len() - i,
        {
            let key = chars_of(self.headers[i].0.as_str());
            assert(hs.skip(i as int)[0] == hs[i as int]);
            if eq_ci_chars(key.as_slice(), wanted.as_slice()) {
                let v = chars_of(self.headers[i].1.as_str());
                let t = trim_chars(v.as_slice());
                return Some(string_of(t.as_slice()));
            }
            assert(hs.skip(i as int).drop_first() =~= hs.skip(i + 1));
            i += 1;
        }
        None
    }
}

} // verus!
