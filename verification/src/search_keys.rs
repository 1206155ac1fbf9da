//! The app's search grammar as typed IMAP search keys.
//!
//! Free text searches headers and body (TEXT); `subject X`, `from X`, `to X`
//! and `body X` narrow to one field; `flag seen|flagged|answered` and their
//! `not flag …` forms select flags; terms combine with ` and `.
use vstd::prelude::*;
use vstd::string::StringSliceAdditionalSpecFns;
use vstd::utf8::{decode_utf8, encode_utf8, is_char_boundary};

use crate::text::{chars_of, eq_chars, lower_chars, lower_seq, split, split_chars, string_of, trim, trim_chars};

verus! {

/// One IMAP search key of a query.
#[derive(Debug, Clone, PartialEq, Eq)]
pub enum SearchTerm {
    All,
    Seen,
    Unseen,
    Flagged,
    Unflagged,
    Answered,
    Unanswered,
    Subject(String),
    From(String),
    To(String),
    Body(String),
    Text(String),
}

/// A search key with its text as characters.
pub enum TermModel {
    All,
    Seen,
    Unseen,
    Flagged,
    Unflagged,
    Answered,
    Unanswered,
    Subject(Seq<char>),
    From(Seq<char>),
    To(Seq<char>),
    Body(Seq<char>),
    Text(Seq<char>),
}

impl View for SearchTerm {
    type V = TermModel;

    open spec fn view(&self) -> TermModel {
        match self {
            SearchTerm::All => TermModel::All,
            SearchTerm::Seen => TermModel::Seen,
            SearchTerm::Unseen => TermModel::Unseen,
            SearchTerm::Flagged => TermModel::Flagged,
            SearchTerm::Unflagged => TermModel::Unflagged,
            SearchTerm::Answered => TermModel::Answered,
            SearchTerm::Unanswered => TermModel::Unanswered,
            SearchTerm::Subject(s) => TermModel::Subject(s@),
            SearchTerm::From(s) => TermModel::From(s@),
            SearchTerm::To(s) => TermModel::To(s@),
            SearchTerm::Body(s) => TermModel::Body(s@),
            SearchTerm::Text(s) => TermModel::Text(s@),
        }
    }
}

/// An ASCII text as its bytes.
pub open spec fn ascii_bytes(p: Seq<char>) -> Seq<u8> {
    p.map_values(|c: char| (c as u32) as u8)
}

pub open spec fn is_ascii_text(p: Seq<char>) -> bool {
    forall|i: int| 0 <= i < p.len() ==> (#[trigger] p[i] as u32) < 128
}

/// A byte in ASCII lowercase.
pub open spec fn lower_byte(b: u8) -> u8 {
    if 65 <= b && b <= 90 {
        (b + 32) as u8
    } else {
        b
    }
}

/// Equal bytes once both are in ASCII lowercase (`eq_ignore_ascii_case`).
pub open spec fn bytes_eq_ci(a: Seq<u8>, b: Seq<u8>) -> bool {
    a.len() == b.len() && forall|i: int| 0 <= i < a.len() ==> lower_byte(#[trigger] a[i]) == lower_byte(b[i])
}

/// Stripping an ASCII prefix case-insensitively from a UTF-8 text, as the
/// grammar does it: the text must be at least as long as the prefix, the
/// index as far from the end as the prefix is long must fall on a character
/// boundary, and the first bytes must match the prefix; what follows is the
/// rest.
pub open spec fn stripped(b: Seq<u8>, p: Seq<char>) -> Option<Seq<u8>> {
    let n = p.len();
    if b.len() < n {
        None
    } else if !is_char_boundary(b, b.len() - n) {
        None
    } else if bytes_eq_ci(b.take(n as int), ascii_bytes(p)) {
        Some(b.skip(n as int))
    } else {
        None
    }
}

/// Where the prefix comparison would cut a character in two: the text is long
/// enough and its boundary check passes, but the prefix's length is no
/// character boundary of it.
pub open spec fn strip_cuts_char(b: Seq<u8>, p: Seq<char>) -> bool {
    b.len() >= p.len() && is_char_boundary(b, b.len() - p.len()) && !is_char_boundary(b, p.len() as int)
}

fn lower_byte_exec(b: u8) -> (r: u8)
    ensures
        r == lower_byte(b),
{
    if 65 <= b && b <= 90 {
        b + 32
    } else {
        b
    }
}

/// Strip an ASCII prefix case-insensitively.
fn strip_prefix_ci<'a>(value: &'a str, prefix: &[char]) -> (r: Option<&'a str>)
    requires
        is_ascii_text(prefix@),
        !strip_cuts_char(value.spec_bytes(), prefix@),
    ensures
        match r {
            Some(rest) => stripped(value.spec_bytes(), prefix@) == Some(rest.spec_bytes()),
            None => stripped(value.spec_bytes(), prefix@) is None,
        },
{
    let n = value.as_bytes().len();
    let plen = prefix.len();
    if n < plen {
        return None;
    }
    if !value.is_char_boundary(n - plen) {
        return None;
    }
    let (head, rest) = value.split_at(plen);
    let hb = head.as_bytes();
    let ghost b = value.spec_bytes();
    let ghost pb = ascii_bytes(prefix@);
    assert(hb@ =~= b.take(plen as int));
    let mut i: usize = 0;
    while i < plen
        invariant
            i <= plen,
            plen == prefix@.len(),
            hb@ == b.take(plen as int),
            pb == ascii_bytes(prefix@),
            hb@.len() == plen,
            b == value.spec_bytes(),
            b.len() >= plen,
            is_char_boundary(b, b.len() - plen),
            forall|k: int| 0 <= k < i ==> lower_byte(#[trigger] hb@[k]) == lower_byte(pb[k]),
        decreases plen - i,
    {
        let c = prefix[i] as u32;
        let pbyte = c as u8;
        assert(pb[i as int] == pbyte);
        if lower_byte_exec(hb[i]) != lower_byte_exec(pbyte) {
            assert(!bytes_eq_ci(b.take(plen as int), pb));
            return None;
        }
        i += 1;
    }
    assert(bytes_eq_ci(b.take(plen as int), pb));
    assert(rest.spec_bytes() =~= b.skip(plen as int));
    Some(rest)
}

/// The text of a field key: the value itself, or `search` where the value
/// holds a NUL character, which no IMAP string can carry.
pub open spec fn search_text(v: Seq<char>) -> Seq<char> {
    if v.contains('\0') {
        "search"@
    } else {
        v
    }
}

/// The flag key a lowercased term names, if it names one.
pub open spec fn flag_term(l: Seq<char>) -> Option<TermModel> {
    if l == "flag seen"@ {
        Some(TermModel::Seen)
    } else if l == "not flag seen"@ {
        Some(TermModel::Unseen)
    } else if l == "flag flagged"@ {
        Some(TermModel::Flagged)
    } else if l == "not flag flagged"@ {
        Some(TermModel::Unflagged)
    } else if l == "flag answered"@ {
        Some(TermModel::Answered)
    } else if l == "not flag answered"@ {
        Some(TermModel::Unanswered)
    } else {
        None
    }
}

/// The field key of a term: the first of `subject `, `from `, `to `, `body `
/// that it starts with narrows the search to that field, else the whole text
/// is searched for.
pub open spec fn field_term(t: Seq<char>) -> TermModel {
    let b = encode_utf8(t);
    match stripped(b, "subject "@) {
        Some(rest) => TermModel::Subject(search_text(decode_utf8(rest))),
        None => match stripped(b, "from "@) {
            Some(rest) => TermModel::From(search_text(decode_utf8(rest))),
            None => match stripped(b, "to "@) {
                Some(rest) => TermModel::To(search_text(decode_utf8(rest))),
                None => match stripped(b, "body "@) {
                    Some(rest) => TermModel::Body(search_text(decode_utf8(rest))),
                    None => TermModel::Text(search_text(t)),
                },
            },
        },
    }
}

/// The key of one (trimmed) term: a flag key when its ASCII-lowercased text
/// names one, else its field key.
pub open spec fn term_spec(t: Seq<char>) -> TermModel {
    match flag_term(lower_seq(t)) {
        Some(k) => k,
        None => field_term(t),
    }
}

/// No prefix comparison that reading the term makes cuts a character in two.
pub open spec fn term_safe(t: Seq<char>) -> bool {
    let b = encode_utf8(t);
    ||| flag_term(lower_seq(t)) is Some
    ||| !strip_cuts_char(b, "subject "@) && (stripped(b, "subject "@) is Some
        || !strip_cuts_char(b, "from "@) && (stripped(b, "from "@) is Some
        || !strip_cuts_char(b, "to "@) && (stripped(b, "to "@) is Some
        || !strip_cuts_char(b, "body "@))))
}

/// The pieces that are not empty, in order.
pub open spec fn nonblank(s: Seq<Seq<char>>) -> Seq<Seq<char>>
    decreases s.len(),
{
    if s.len() == 0 {
        seq![]
    } else if s.last().len() == 0 {
        nonblank(s.drop_last())
    } else {
        nonblank(s.drop_last()).push(s.last())
    }
}

/// The terms of a query: its ` and `-separated pieces, trimmed, blank ones
/// dropped.
pub open spec fn query_terms(q: Seq<char>) -> Seq<Seq<char>> {
    nonblank(split(trim(q), " and "@).map_values(|p: Seq<char>| trim(p)))
}

/// The keys of a query: `ALL` for no query or one without terms, else one
/// key per term.
pub open spec fn criteria_spec(query: Option<Seq<char>>) -> Seq<TermModel> {
    match query {
        None => seq![TermModel::All],
        Some(q) => if query_terms(q).len() == 0 {
            seq![TermModel::All]
        } else {
            query_terms(q).map_values(|t: Seq<char>| term_spec(t))
        },
    }
}

/// Reading no term of the query cuts a character in two.
pub open spec fn query_safe(query: Option<Seq<char>>) -> bool {
    match query {
        None => true,
        Some(q) => terms_safe(query_terms(q)),
    }
}

/// Reading no one of the terms cuts a character in two.
pub open spec fn terms_safe(terms: Seq<Seq<char>>) -> bool {
    forall|k: int| 0 <= k < terms.len() ==> term_safe(#[trigger] terms[k])
}

/// `AString::try_from` of imap-types. It takes the text as an atom, else as
/// a quoted string, else as a literal, and a literal may hold every byte but
/// NUL: so the claim is that it accepts exactly the texts without a NUL
/// character.
#[verifier::external_body]
fn astring_accepts(value: &str) -> (r: bool)
    ensures
        r == !value@.contains('\0'),
{
    imap_types::core::AString::try_from(value.to_string()).is_ok()
}

fn search_text_of(value: &str) -> (r: String)
    ensures
        r@ == search_text(value@),
{
    if astring_accepts(value) {
        string_of(chars_of(value).as_slice())
    } else {
        string_of(chars_of("search").as_slice())
    }
}

fn is_literal(t: &[char], lit: &str) -> (r: bool)
    ensures
        r == (t@ == lit@),
{
    let l = chars_of(lit);
    eq_chars(t, l.as_slice())
}

fn ascii_prefix(lit: &str) -> (r: Vec<char>)
    requires
        is_ascii_text(lit@),
    ensures
        r@ == lit@,
        is_ascii_text(r@),
{
    chars_of(lit)
}

/// The key of one trimmed term.
fn term(t: &[char]) -> (r: SearchTerm)
    requires
        term_safe(t@),
    ensures
        r@ == term_spec(t@),
{
    let l = lower_chars(t);
    let ls = l.as_slice();
    if is_literal(ls, "flag seen") {
        return SearchTerm::Seen;
    } else if is_literal(ls, "not flag seen") {
        return SearchTerm::Unseen;
    } else if is_literal(ls, "flag flagged") {
        return SearchTerm::Flagged;
    } else if is_literal(ls, "not flag flagged") {
        return SearchTerm::Unflagged;
    } else if is_literal(ls, "flag answered") {
        return SearchTerm::Answered;
    } else if is_literal(ls, "not flag answered") {
        return SearchTerm::Unanswered;
    }
    assert(flag_term(lower_seq(t@)) is None);
    let owned = string_of(t);
    let value = owned.as_str();
    assert(value.spec_bytes() == encode_utf8(t@));
    proof {
        reveal_strlit("subject ");
        reveal_strlit("from ");
        reveal_strlit("to ");
        reveal_strlit("body ");
    }
    let subject = ascii_prefix("subject ");
    if let Some(rest) = strip_prefix_ci(value, subject.as_slice()) {
        proof { vstd::utf8::encode_utf8_decode_utf8(rest@); }
        return SearchTerm::Subject(search_text_of(rest));
    }
    let from = ascii_prefix("from ");
    if let Some(rest) = strip_prefix_ci(value, from.as_slice()) {
        proof { vstd::utf8::encode_utf8_decode_utf8(rest@); }
        return SearchTerm::From(search_text_of(rest));
    }
    let to = ascii_prefix("to ");
    if let Some(rest) = strip_prefix_ci(value, to.as_slice()) {
        proof { vstd::utf8::encode_utf8_decode_utf8(rest@); }
        return SearchTerm::To(search_text_of(rest));
    }
    let body = ascii_prefix("body ");
    if let Some(rest) = strip_prefix_ci(value, body.as_slice()) {
        proof { vstd::utf8::encode_utf8_decode_utf8(rest@); }
        return SearchTerm::Body(search_text_of(rest));
    }
    SearchTerm::Text(search_text_of(value))
}

proof fn lemma_nonblank_step(s: Seq<Seq<char>>, i: int)
    requires
        0 <= i < s.len(),
    ensures
        nonblank(s.take(i + 1)) == if s[i].len() == 0 {
            nonblank(s.take(i))
        } else {
            nonblank(s.take(i)).push(s[i])
        },
{
    assert(s.take(i + 1).drop_last() =~= s.take(i));
}

proof fn lemma_query_term_safe(q: Seq<char>, k: int)
    requires
        query_safe(Some(q)),
        0 <= k < query_terms(q).len(),
    ensures
        term_safe(query_terms(q)[k]),
{
}

proof fn lemma_nonblank_prefix(s: Seq<Seq<char>>, i: int, j: int)
    requires
        0 <= i <= j <= s.len(),
    ensures
        nonblank(s.take(i)).len() <= nonblank(s.take(j)).len(),
        forall|k: int| 0 <= k < nonblank(s.take(i)).len() ==> #[trigger] nonblank(s.take(j))[k] == nonblank(s.take(i))[k],
    decreases j - i,
{
    if i < j {
        lemma_nonblank_prefix(s, i, j - 1);
        lemma_nonblank_step(s, j - 1);
    }
}

/// Translate a query into search keys.
pub fn criteria(query: Option<&str>) -> (r: Vec<SearchTerm>)
    requires
        query_safe(match query {
            Some(q) => Some(q@),
            None => None,
        }),
    ensures
        r@.len() == criteria_spec(match query {
            Some(q) => Some(q@),
            None => None,
        }).len(),
        forall|k: int| 0 <= k < r@.len() ==> #[trigger] r@[k]@ == criteria_spec(match query {
            Some(q) => Some(q@),
            None => None,
        })[k],
{
    let q = match query {
        None => {
            return vec![SearchTerm::All];
        },
        Some(q) => q,
    };
    let cs = chars_of(q);
    let t = trim_chars(cs.as_slice());
    let sep = chars_of(" and ");
    proof {
        reveal_strlit(" and ");
    }
    let pieces = split_chars(t.as_slice(), sep.as_slice());
    let ghost trimmed = split(trim(q@), " and "@).map_values(|p: Seq<char>| trim(p));
    let ghost terms = query_terms(q@);
    let mut keys: Vec<SearchTerm> = Vec::new();
    let mut i: usize = 0;
    assert(trimmed.take(0) =~= Seq::<Seq<char>>::empty());
    while i < pieces.len()
        invariant
            i <= pieces@.len(),
            pieces@.len() == trimmed.len(),
            trimmed == split(trim(q@), " and "@).map_values(|p: Seq<char>| trim(p)),
            forall|k: int| 0 <= k < pieces@.len() ==> trim(#[trigger] pieces@[k]@) == trimmed[k],
            terms == query_terms(q@),
            terms == nonblank(trimmed),
            query_safe(Some(q@)),
            keys@.len() == nonblank(trimmed.take(i as int)).len(),
            forall|k: int| 0 <= k < keys@.len() ==> #[trigger] keys@[k]@ == term_spec(nonblank(trimmed.take(i as int))[k]),
        decreases pieces@.len() - i,
    {
        let piece = trim_chars(pieces[i].as_slice());
        proof {
            lemma_nonblank_step(trimmed, i as int);
        }
        if piece.len() > 0 {
            proof {
                lemma_nonblank_prefix(trimmed, i + 1, trimmed.len() as int);
                assert(trimmed.take(trimmed.len() as int) =~= trimmed);
                assert(trimmed[i as int] == piece@);
                assert(nonblank(trimmed.take(i + 1)) == nonblank(trimmed.take(i as int)).push(piece@));
                assert(keys@.len() < terms.len());
                assert(terms[keys@.len() as int] == piece@);
                lemma_query_term_safe(q@, keys@.len() as int);
            }
            keys.push(term(piece.as_slice()));
        }
        i += 1;
    }
    assert(trimmed.take(i as int) =~= trimmed);
    if keys.len() == 0 {
        return vec![SearchTerm::All];
    }
    keys
}

} // verus!
