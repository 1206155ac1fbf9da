//! The app's search grammar as an IMAP SEARCH expression, and the small
//! protocol spellings that go with it: quoted strings, UID sets, and flags.
use vstd::prelude::*;

use crate::text::{
    chars_of, decimal, eq_ci, eq_ci_chars, eq_chars, join, join_chars, lower_chars, lower_seq,
    push_all, push_decimal, seq_of_pieces, split, split_chars, starts_with, starts_with_chars,
    string_of, trim, trim_chars,
};

verus! {

/// The escaped form of one character inside an IMAP quoted string.
pub open spec fn quote_char(c: char) -> Seq<char> {
    if c == '\\' {
        seq!['\\', '\\']
    } else if c == '"' {
        seq!['\\', '"']
    } else {
        seq![c]
    }
}

/// Backslash and double quote escaped with a backslash, everything else kept.
pub open spec fn escape(s: Seq<char>) -> Seq<char>
    decreases s.len(),
{
    if s.len() == 0 {
        seq![]
    } else {
        escape(s.drop_last()) + quote_char(s.last())
    }
}

/// An IMAP quoted string holding `value`.
pub open spec fn quoted(value: Seq<char>) -> Seq<char> {
    seq!['"'] + escape(value) + seq!['"']
}

fn quoted_chars(value: &[char]) -> (r: Vec<char>)
    ensures
        r@ == quoted(value@),
{
    let mut out: Vec<char> = Vec::new();
    out.push('"');
    let mut i: usize = 0;
    while i < value.len()
        invariant
            i <= value@.len(),
            out@ == seq!['"'] + escape(value@.take(i as int)),
        decreases value@.len() - i,
    {
        let c = value[i];
        if c == '\\' {
            out.push('\\');
            out.push('\\');
        } else if c == '"' {
            out.push('\\');
            out.push('"');
        } else {
            out.push(c);
        }
        assert(value@.take(i + 1).drop_last() =~= value@.take(i as int));
        i += 1;
        assert(out@ =~= seq!['"'] + escape(value@.take(i as int)));
    }
    out.push('"');
    assert(value@.take(i as int) =~= value@);
    assert(out@ =~= quoted(value@));
    out
}

/// Quote a value for an IMAP command.
pub fn imap_quote(value: &str) -> (r: String)
    ensures
        r@ == quoted(value@),
{
    let cs = chars_of(value);
    let q = quoted_chars(cs.as_slice());
    string_of(q.as_slice())
}

/// The SEARCH key for one term of the app's grammar. The term is read in
/// ASCII lowercase: `flag seen`, `not flag seen`, `flag flagged`, and
/// `not flag flagged` select flags; `subject X` and `from X` narrow to one
/// field; anything else searches the whole text.
pub open spec fn term_criterion(term: Seq<char>) -> Seq<char> {
    let t = lower_seq(trim(term));
    if t == "flag seen"@ {
        "SEEN"@
    } else if t == "not flag seen"@ {
        "UNSEEN"@
    } else if t == "flag flagged"@ {
        "FLAGGED"@
    } else if t == "not flag flagged"@ {
        "UNFLAGGED"@
    } else if starts_with(t, "subject "@) {
        "SUBJECT "@ + quoted(trim(t.skip("subject "@.len() as int)))
    } else if starts_with(t, "from "@) {
        "FROM "@ + quoted(trim(t.skip("from "@.len() as int)))
    } else {
        "TEXT "@ + quoted(t)
    }
}

/// The RFC 3501 SEARCH expression for a query: `ALL` for no query or a blank
/// one, otherwise the criteria of its ` and `-separated terms, space-joined.
pub open spec fn search_criteria_spec(query: Option<Seq<char>>) -> Seq<char> {
    match query {
        None => "ALL"@,
        Some(q) => if trim(q).len() == 0 {
            "ALL"@
        } else {
            let terms = split(trim(q), " and "@);
            if terms.len() == 0 {
                "ALL"@
            } else {
                join(terms.map_values(|t: Seq<char>| term_criterion(t)), " "@)
            }
        },
    }
}

fn literal_is(t: &[char], lit: &str) -> (r: bool)
    ensures
        r == (t@ == lit@),
{
    let l = chars_of(lit);
    eq_chars(t, l.as_slice())
}

fn criterion_for(term: &[char]) -> (r: Vec<char>)
    ensures
        r@ == term_criterion(term@),
{
    let trimmed = trim_chars(term);
    let t = lower_chars(trimmed.as_slice());
    let ts = t.as_slice();
    if literal_is(ts, "flag seen") {
        chars_of("SEEN")
    } else if literal_is(ts, "not flag seen") {
        chars_of("UNSEEN")
    } else if literal_is(ts, "flag flagged") {
        chars_of("FLAGGED")
    } else if literal_is(ts, "not flag flagged") {
        chars_of("UNFLAGGED")
    } else {
        let subject = chars_of("subject ");
        let from = chars_of("from ");
        if starts_with_chars(ts, subject.as_slice()) {
            let value = trim_chars(&ts[subject.len()..ts.len()]);
            assert(ts@.subrange(subject@.len() as int, ts@.len() as int) =~= ts@.skip(subject@.len() as int));
            let mut out = chars_of("SUBJECT ");
            let q = quoted_chars(value.as_slice());
            push_all(&mut out, q.as_slice());
            out
        } else if starts_with_chars(ts, from.as_slice()) {
            let value = trim_chars(&ts[from.len()..ts.len()]);
            assert(ts@.subrange(from@.len() as int, ts@.len() as int) =~= ts@.skip(from@.len() as int));
            let mut out = chars_of("FROM ");
            let q = quoted_chars(value.as_slice());
            push_all(&mut out, q.as_slice());
            out
        } else {
            let mut out = chars_of("TEXT ");
            let q = quoted_chars(ts);
            push_all(&mut out, q.as_slice());
            out
        }
    }
}

/// Turn the app's search grammar into an RFC 3501 SEARCH expression so
/// filtering happens on the server instead of over a fully fetched mailbox.
pub fn search_criteria(query: Option<&str>) -> (r: String)
    ensures
        r@ == search_criteria_spec(match query {
            Some(q) => Some(q@),
            None => None,
        }),
{
    let q = match query {
        None => {
            return string_of(chars_of("ALL").as_slice());
        },
        Some(q) => q,
    };
    let cs = chars_of(q);
    let t = trim_chars(cs.as_slice());
    if t.len() == 0 {
        return string_of(chars_of("ALL").as_slice());
    }
    let sep = chars_of(" and ");
    proof {
        reveal_strlit(" and ");
    }
    let terms = split_chars(t.as_slice(), sep.as_slice());
    let ghost spec_terms = split(t@, " and "@);
    let mut criteria: Vec<Vec<char>> = Vec::new();
    let mut i: usize = 0;
    while i < terms.len()
        invariant
            i <= terms@.len(),
            terms@.len() == spec_terms.len(),
            forall|k: int| 0 <= k < terms@.len() ==> #[trigger] terms@[k]@ == spec_terms[k],
            criteria@.len() == i,
            forall|k: int| 0 <= k < i ==> #[trigger] criteria@[k]@ == term_criterion(spec_terms[k]),
        decreases terms@.len() - i,
    {
        criteria.push(criterion_for(terms[i].as_slice()));
        i += 1;
    }
    if criteria.len() == 0 {
        return string_of(chars_of("ALL").as_slice());
    }
    let space = chars_of(" ");
    let joined = join_chars(&criteria, space.as_slice());
    assert(seq_of_pieces(criteria@) =~= spec_terms.map_values(|t: Seq<char>| term_criterion(t)));
    string_of(joined.as_slice())
}

/// The comma-separated UID set naming `uids` in order.
pub open spec fn uid_set_spec(uids: Seq<u32>) -> Seq<char> {
    join(uids.map_values(|u: u32| decimal(u as nat)), ","@)
}

/// The UID set for a FETCH or STORE over `uids`.
pub fn uid_set(uids: &[u32]) -> (r: String)
    ensures
        r@ == uid_set_spec(uids@),
{
    let mut parts: Vec<Vec<char>> = Vec::new();
    let mut i: usize = 0;
    while i < uids.len()
        invariant
            i <= uids@.len(),
            parts@.len() == i,
            forall|k: int| 0 <= k < i ==> #[trigger] parts@[k]@ == decimal(uids@[k] as nat),
        decreases uids@.len() - i,
    {
        let mut d: Vec<char> = Vec::new();
        push_decimal(&mut d, uids[i] as u64);
        assert(d@ =~= decimal(uids@[i as int] as nat));
        parts.push(d);
        i += 1;
    }
    let comma = chars_of(",");
    let joined = join_chars(&parts, comma.as_slice());
    assert(seq_of_pieces(parts@) =~= uids@.map_values(|u: u32| decimal(u as nat)));
    string_of(joined.as_slice())
}

/// The IMAP system flag for an app flag name, matched ASCII
/// case-insensitively; any other name is passed through as a keyword.
pub open spec fn imap_flag_spec(flag: Seq<char>) -> Seq<char> {
    if eq_ci(flag, "seen"@) {
        "\\Seen"@
    } else if eq_ci(flag, "flagged"@) {
        "\\Flagged"@
    } else if eq_ci(flag, "answered"@) {
        "\\Answered"@
    } else if eq_ci(flag, "deleted"@) {
        "\\Deleted"@
    } else {
        flag
    }
}

fn is_ci(a: &[char], lit: &str) -> (r: bool)
    ensures
        r == eq_ci(a@, lit@),
{
    let l = chars_of(lit);
    eq_ci_chars(a, l.as_slice())
}

/// Map an app flag name onto the flag STORE expects.
pub fn imap_flag(flag: &str) -> (r: &str)
    ensures
        r@ == imap_flag_spec(flag@),
{
    let f = chars_of(flag);
    if is_ci(f.as_slice(), "seen") {
        "\\Seen"
    } else if is_ci(f.as_slice(), "flagged") {
        "\\Flagged"
    } else if is_ci(f.as_slice(), "answered") {
        "\\Answered"
    } else if is_ci(f.as_slice(), "deleted") {
        "\\Deleted"
    } else {
        flag
    }
}

/// The STORE argument that adds (`+FLAGS.SILENT`) or removes
/// (`-FLAGS.SILENT`) one app flag.
pub open spec fn flag_store_spec(flag: Seq<char>, add: bool) -> Seq<char> {
    (if add { "+FLAGS.SILENT"@ } else { "-FLAGS.SILENT"@ }) + " ("@ + imap_flag_spec(flag) + ")"@
}

/// The STORE argument for setting or clearing a flag.
pub fn flag_store_command(flag: &str, add: bool) -> (r: String)
    ensures
        r@ == flag_store_spec(flag@, add),
{
    let mut out = if add { chars_of("+FLAGS.SILENT") } else { chars_of("-FLAGS.SILENT") };
    push_all(&mut out, chars_of(" (").as_slice());
    push_all(&mut out, chars_of(imap_flag(flag)).as_slice());
    push_all(&mut out, chars_of(")").as_slice());
    string_of(out.as_slice())
}

/// A description for the well-known mailbox names, compared in ASCII
/// lowercase.
pub open spec fn folder_description_spec(name: Seq<char>) -> Option<Seq<char>> {
    let n = lower_seq(name);
    if n == "inbox"@ {
        Some("Incoming messages"@)
    } else if n == "sent"@ || n == "sent items"@ {
        Some("Sent messages"@)
    } else if n == "drafts"@ {
        Some("Draft messages"@)
    } else if n == "trash"@ || n == "deleted"@ || n == "bin"@ {
        Some("Deleted messages"@)
    } else {
        None
    }
}

/// Describe a well-known mailbox.
pub fn folder_description(name: &str) -> (r: Option<String>)
    ensures
        match r {
            Some(s) => folder_description_spec(name@) == Some(s@),
            None => folder_description_spec(name@) is None,
        },
{
    let cs = chars_of(name);
    let n = lower_chars(cs.as_slice());
    let ns = n.as_slice();
    if literal_is(ns, "inbox") {
        Some(string_of(chars_of("Incoming messages").as_slice()))
    } else if literal_is(ns, "sent") || literal_is(ns, "sent items") {
        Some(string_of(chars_of("Sent messages").as_slice()))
    } else if literal_is(ns, "drafts") {
        Some(string_of(chars_of("Draft messages").as_slice()))
    } else if literal_is(ns, "trash") || literal_is(ns, "deleted") || literal_is(ns, "bin") {
        Some(string_of(chars_of("Deleted messages").as_slice()))
    } else {
        None
    }
}


proof fn lemma_escape_append(a: Seq<char>, b: Seq<char>)
    ensures
        escape(a + b) == escape(a) + escape(b),
    decreases b.len(),
{
    if b.len() == 0 {
        assert(a + b =~= a);
        assert(escape(a) + escape(b) =~= escape(a));
    } else {
        lemma_escape_append(a, b.drop_last());
        assert((a + b).drop_last() =~= a + b.drop_last());
        assert((a + b).last() == b.last());
        assert(escape(a) + escape(b) =~= escape(a) + escape(b.drop_last()) + quote_char(b.last()));
    }
}

proof fn lemma_escape_len(s: Seq<char>)
    ensures
        escape(s).len() >= s.len(),
    decreases s.len(),
{
    if s.len() > 0 {
        lemma_escape_len(s.drop_last());
    }
}

/// A negated flag term selects the complement of what the flag term selects.
/// Whatever the flag word `W`, the term `not flag W` never gives the
/// criterion `flag W` gives; for the flags the server knows, `flag seen` and
/// `not flag seen` give `SEEN` and `UNSEEN`, and `flag flagged` and
/// `not flag flagged` give `FLAGGED` and `UNFLAGGED`. Terms are read in any
/// ASCII case and with any surrounding whitespace.
pub proof fn law_negated_flag_term_selects_the_complement(pos: Seq<char>, neg: Seq<char>, w: Seq<char>)
    requires
        lower_seq(trim(pos)) == "flag "@ + w,
        lower_seq(trim(neg)) == "not flag "@ + w,
    ensures
        term_criterion(neg) != term_criterion(pos),
        w == "seen"@ ==> term_criterion(pos) == "SEEN"@ && term_criterion(neg) == "UNSEEN"@,
        w == "flagged"@ ==> term_criterion(pos) == "FLAGGED"@ && term_criterion(neg) == "UNFLAGGED"@,
{
    reveal_strlit("flag ");
    reveal_strlit("not flag ");
    reveal_strlit("not ");
    reveal_strlit("seen");
    reveal_strlit("flagged");
    reveal_strlit("flag seen");
    reveal_strlit("not flag seen");
    reveal_strlit("flag flagged");
    reveal_strlit("not flag flagged");
    reveal_strlit("subject ");
    reveal_strlit("from ");
    reveal_strlit("SEEN");
    reveal_strlit("UNSEEN");
    reveal_strlit("FLAGGED");
    reveal_strlit("UNFLAGGED");
    reveal_strlit("TEXT ");
    let tp = lower_seq(trim(pos));
    let tn = lower_seq(trim(neg));
    assert(tn =~= "not "@ + tp);
    assert(tp[0] == 'f' && tp[1] == 'l');
    assert(tn[0] == 'n');
    assert(tp != "not flag seen"@ && tp != "not flag flagged"@);
    assert(tn != "flag seen"@ && tn != "flag flagged"@);
    assert(!starts_with(tp, "subject "@)) by {
        if starts_with(tp, "subject "@) {
            assert(tp.take(8)[0] == tp[0]);
        }
    }
    assert(!starts_with(tp, "from "@)) by {
        if starts_with(tp, "from "@) {
            assert(tp.take(5)[1] == tp[1]);
        }
    }
    assert(!starts_with(tn, "subject "@)) by {
        if starts_with(tn, "subject "@) {
            assert(tn.take(8)[0] == tn[0]);
        }
    }
    assert(!starts_with(tn, "from "@)) by {
        if starts_with(tn, "from "@) {
            assert(tn.take(5)[0] == tn[0]);
        }
    }
    if w == "seen"@ {
        assert(tp =~= "flag seen"@);
        assert(tn =~= "not flag seen"@);
    } else if w == "flagged"@ {
        assert(tp =~= "flag flagged"@);
        assert(tn =~= "not flag flagged"@);
        assert(tp != "flag seen"@) by {
            assert(tp.len() != "flag seen"@.len());
        }
        assert(tn != "not flag seen"@) by {
            assert(tn.len() != "not flag seen"@.len());
        }
    } else {
        assert(tp != "flag seen"@) by {
            if tp == "flag seen"@ {
                assert(w =~= tp.skip(5));
                assert("flag seen"@.skip(5) =~= "seen"@);
            }
        }
        assert(tp != "flag flagged"@) by {
            if tp == "flag flagged"@ {
                assert(w =~= tp.skip(5));
                assert("flag flagged"@.skip(5) =~= "flagged"@);
            }
        }
        assert(tn != "not flag seen"@) by {
            if tn == "not flag seen"@ {
                assert(w =~= tn.skip(9));
                assert("not flag seen"@.skip(9) =~= "seen"@);
            }
        }
        assert(tn != "not flag flagged"@) by {
            if tn == "not flag flagged"@ {
                assert(w =~= tn.skip(9));
                assert("not flag flagged"@.skip(9) =~= "flagged"@);
            }
        }
        lemma_escape_append("not "@, tp);
        lemma_escape_len("not "@);
        assert(term_criterion(pos) == "TEXT "@ + quoted(tp));
        assert(term_criterion(neg) == "TEXT "@ + quoted(tn));
        assert(term_criterion(neg).len() > term_criterion(pos).len());
    }
}

} // verus!
