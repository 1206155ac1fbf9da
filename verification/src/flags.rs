//! Message flags between the application's names and IMAP's.
use vstd::prelude::*;

use crate::errors::MailError;
use crate::errors::MailErrorKind;
use crate::errors::MailResult;
use crate::text::chars_of;
use crate::text::string_of;
use crate::text::push_all;
use crate::text::trim;
use crate::text::trim_chars;
use crate::text::eq_ci;
use crate::text::eq_ci_chars;
use crate::text::slice_range;

verus! {

/// An IMAP flag as a command carries it.
#[derive(Debug, Clone, PartialEq, Eq)]
pub enum ImapFlag {
    Answered,
    Deleted,
    Draft,
    Flagged,
    Seen,
    /// A keyword, an atom without a backslash.
    Keyword(String),
}

/// An IMAP ATOM-CHAR (RFC 3501): a printable ASCII character other than a
/// space and `( ) { % * " \ ]`.
pub open spec fn is_atom_char(c: char) -> bool {
    '\x21' <= c && c <= '\x7e' && c != '(' && c != ')' && c != '{' && c != '%' && c != '*'
        && c != '"' && c != '\\' && c != ']'
}

/// An IMAP atom: one or more atom characters.
pub open spec fn is_atom(s: Seq<char>) -> bool {
    s.len() > 0 && forall|i: int| 0 <= i < s.len() ==> is_atom_char(#[trigger] s[i])
}

/// The debug text of the error imap-types gives when `value` is not an atom.
pub uninterp spec fn atom_refusal(value: Seq<char>) -> Seq<char>;

/// Check that `value` is an IMAP atom; the error is the validator's
/// description of what is wrong, in its debug form.
///
/// Calls `imap_types::core::Atom::validate`, which accepts a non-empty byte
/// string of ATOM-CHARs. Those are all ASCII, and the UTF-8 bytes of any
/// other character are not, so the check passes exactly when every character
/// of `value` is an atom character. The error text is a function of the
/// value alone, named `atom_refusal`.
#[verifier::external_body]
fn check_atom(value: &str) -> (r: Result<(), String>)
    ensures
        r is Ok <==> is_atom(value@),
        r matches Err(e) ==> e@ == atom_refusal(value@),
{
    imap_types::core::Atom::validate(value.as_bytes()).map_err(|error| format!("{error:?}"))
}

/// `s` trimmed, without one leading backslash.
pub open spec fn bare_flag(s: Seq<char>) -> Seq<char> {
    let t = trim(s);
    if t.len() > 0 && t[0] == '\\' { t.drop_first() } else { t }
}

/// The IMAP flag an application flag name denotes: the five system flags in
/// any letter case, else a keyword.
pub open spec fn flag_of_bare(bare: Seq<char>) -> (int, Seq<char>) {
    if eq_ci(bare, "answered"@) {
        (0, seq![])
    } else if eq_ci(bare, "deleted"@) {
        (1, seq![])
    } else if eq_ci(bare, "draft"@) {
        (2, seq![])
    } else if eq_ci(bare, "flagged"@) {
        (3, seq![])
    } else if eq_ci(bare, "seen"@) {
        (4, seq![])
    } else {
        (5, bare)
    }
}

/// The shape of a flag: system flag 0 to 4, or a keyword (5) with its atom.
pub open spec fn flag_view(f: ImapFlag) -> (int, Seq<char>) {
    match f {
        ImapFlag::Answered => (0, seq![]),
        ImapFlag::Deleted => (1, seq![]),
        ImapFlag::Draft => (2, seq![]),
        ImapFlag::Flagged => (3, seq![]),
        ImapFlag::Seen => (4, seq![]),
        ImapFlag::Keyword(k) => (5, k@),
    }
}

fn is_word(s: &[char], word: &str) -> (r: bool)
    ensures
        r == eq_ci(s@, word@),
{
    eq_ci_chars(s, chars_of(word).as_slice())
}

/// Map an application flag name onto an IMAP flag. Names come without the
/// leading backslash (one is tolerated); the five system flags become their
/// own variants and anything else a keyword, which must be an atom.
pub fn flag_of(name: &str) -> (r: MailResult<ImapFlag>)
    ensures
        bare_flag(name@).len() == 0 ==> (r matches Err(e) && e.kind == MailErrorKind::InvalidInput
            && e.message@ == "empty flag name"@),
        bare_flag(name@).len() > 0 && !is_atom(bare_flag(name@)) ==> (r matches Err(e)
            && e.kind == MailErrorKind::InvalidInput
            && e.message@ == "invalid flag "@ + name@ + ": "@ + atom_refusal(bare_flag(name@))),
        bare_flag(name@).len() > 0 && is_atom(bare_flag(name@)) ==> (r matches Ok(f)
            && flag_view(f) == flag_of_bare(bare_flag(name@))),
{
    let cs = chars_of(name);
    let t = trim_chars(cs.as_slice());
    let bare = if t.len() > 0 && t[0] == '\\' { slice_range(t.as_slice(), 1, t.len()) } else { t };
    assert(bare@ =~= bare_flag(name@));
    if bare.len() == 0 {
        return Err(MailError::invalid_input("empty flag name"));
    }
    let text = string_of(bare.as_slice());
    match check_atom(text.as_str()) {
        Err(detail) => {
            let mut m = chars_of("invalid flag ");
            push_all(&mut m, cs.as_slice());
            push_all(&mut m, chars_of(": ").as_slice());
            push_all(&mut m, chars_of(detail.as_str()).as_slice());
            return Err(MailError::new(MailErrorKind::InvalidInput, string_of(m.as_slice())));
        },
        Ok(()) => {},
    }
    if is_word(bare.as_slice(), "answered") {
        Ok(ImapFlag::Answered)
    } else if is_word(bare.as_slice(), "deleted") {
        Ok(ImapFlag::Deleted)
    } else if is_word(bare.as_slice(), "draft") {
        Ok(ImapFlag::Draft)
    } else if is_word(bare.as_slice(), "flagged") {
        Ok(ImapFlag::Flagged)
    } else if is_word(bare.as_slice(), "seen") {
        Ok(ImapFlag::Seen)
    } else {
        Ok(ImapFlag::Keyword(text))
    }
}

/// A flag as a FETCH response reports it.
#[derive(Debug, Clone, PartialEq, Eq)]
pub enum FetchedFlag {
    Recent,
    Seen,
    Answered,
    Flagged,
    Deleted,
    Draft,
    /// `\*`: new keywords may be created (in a PERMANENTFLAGS list).
    MayCreate,
    /// A keyword, with its atom.
    Keyword(String),
    /// A flag extension, with its atom.
    Extension(String),
}

/// The application's name of a fetched flag: system flags by their names
/// without the backslash, keywords and extensions by their atoms.
pub open spec fn flag_name_spec(f: FetchedFlag) -> Seq<char> {
    match f {
        FetchedFlag::Recent => "Recent"@,
        FetchedFlag::Seen => "Seen"@,
        FetchedFlag::Answered => "Answered"@,
        FetchedFlag::Flagged => "Flagged"@,
        FetchedFlag::Deleted => "Deleted"@,
        FetchedFlag::Draft => "Draft"@,
        FetchedFlag::MayCreate => "MayCreate"@,
        FetchedFlag::Keyword(a) => a@,
        FetchedFlag::Extension(a) => a@,
    }
}

fn text(s: &str) -> (r: String)
    ensures
        r@ == s@,
{
    string_of(chars_of(s).as_slice())
}

/// The application's name of a fetched flag.
pub fn flag_name(flag: &FetchedFlag) -> (r: String)
    ensures
        r@ == flag_name_spec(*flag),
{
    match flag {
        FetchedFlag::Recent => text("Recent"),
        FetchedFlag::Seen => text("Seen"),
        FetchedFlag::Answered => text("Answered"),
        FetchedFlag::Flagged => text("Flagged"),
        FetchedFlag::Deleted => text("Deleted"),
        FetchedFlag::Draft => text("Draft"),
        FetchedFlag::MayCreate => text("MayCreate"),
        FetchedFlag::Keyword(a) => a.clone(),
        FetchedFlag::Extension(a) => a.clone(),
    }
}

} // verus!
