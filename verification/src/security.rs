//! Message authentication verdicts and cryptographic protection.
//!
//! Receiving servers record SPF, DKIM, and DMARC results in
//! `Authentication-Results`; these are parsed and surfaced rather than
//! re-running DNS. Protection is read from the MIME structure only: nothing is
//! verified or decrypted.
use vstd::prelude::*;
use crate::text::opt_view;

use crate::text::{
    chars_of, first_word, first_word_chars, join, join_chars, lower_chars, lower_seq, push_all,
    seq_of_pieces, split, split_chars, starts_with, starts_with_chars, string_of, trim, trim_char,
    trim_char_chars, trim_chars,
};

verus! {

/// SPF/DKIM/DMARC results reported for a message.
#[derive(Debug, Clone, PartialEq, Eq)]
pub struct AuthenticationVerdicts {
    pub spf: Option<String>,
    pub dkim: Option<String>,
    pub dmarc: Option<String>,
}

/// The verdicts as character sequences.
pub struct VerdictsModel {
    pub spf: Option<Seq<char>>,
    pub dkim: Option<Seq<char>>,
    pub dmarc: Option<Seq<char>>,
}

impl View for AuthenticationVerdicts {
    type V = VerdictsModel;

    open spec fn view(&self) -> VerdictsModel {
        VerdictsModel { spf: opt_view(self.spf), dkim: opt_view(self.dkim), dmarc: opt_view(self.dmarc) }
    }
}

/// No verdict recorded yet.
pub open spec fn no_verdicts() -> VerdictsModel {
    VerdictsModel { spf: None, dkim: None, dmarc: None }
}

/// The result word of a `method=result (comment) ...` tail: its first
/// whitespace-separated word without surrounding `(`, in ASCII lowercase.
pub open spec fn result_token_spec(value: Seq<char>) -> Seq<char> {
    lower_seq(trim_char(first_word(value), '('))
}

/// What one `;`-separated clause records.
pub open spec fn clause_update(m: VerdictsModel, clause: Seq<char>) -> VerdictsModel {
    let c = trim(clause);
    if starts_with(c, "spf="@) {
        VerdictsModel { spf: Some(result_token_spec(c.skip("spf="@.len() as int))), ..m }
    } else if starts_with(c, "dkim="@) {
        VerdictsModel { dkim: Some(result_token_spec(c.skip("dkim="@.len() as int))), ..m }
    } else if starts_with(c, "dmarc="@) {
        VerdictsModel { dmarc: Some(result_token_spec(c.skip("dmarc="@.len() as int))), ..m }
    } else {
        m
    }
}

/// The verdicts after reading `clauses` in order, later clauses overriding.
pub open spec fn apply_clauses(m: VerdictsModel, clauses: Seq<Seq<char>>) -> VerdictsModel
    decreases clauses.len(),
{
    if clauses.len() == 0 {
        m
    } else {
        clause_update(apply_clauses(m, clauses.drop_last()), clauses.last())
    }
}

/// The verdicts recorded by a list of `Authentication-Results` values, later
/// values overriding earlier ones.
pub open spec fn verdicts_of(values: Seq<Seq<char>>) -> VerdictsModel
    decreases values.len(),
{
    if values.len() == 0 {
        no_verdicts()
    } else {
        apply_clauses(verdicts_of(values.drop_last()), split(values.last(), ";"@))
    }
}

/// The pieces of the summary line, in SPF, DKIM, DMARC order.
pub open spec fn summary_parts(m: VerdictsModel) -> Seq<Seq<char>> {
    (if let Some(v) = m.spf { seq!["SPF "@ + v] } else { seq![] }) + (if let Some(v) = m.dkim {
        seq!["DKIM "@ + v]
    } else {
        seq![]
    }) + (if let Some(v) = m.dmarc { seq!["DMARC "@ + v] } else { seq![] })
}

/// The summary separator, a middle dot between spaces.
pub open spec fn summary_separator() -> Seq<char> {
    " \u{00b7} "@
}

fn labelled(out: &mut Vec<Vec<char>>, label: &str, value: &Option<String>)
    ensures
        final(out)@.len() == old(out)@.len() + (if value is Some { 1int } else { 0int }),
        forall|k: int| 0 <= k < old(out)@.len() ==> #[trigger] final(out)@[k] == old(out)@[k],
        value matches Some(v) ==> final(out)@.last()@ == label@ + v@,
{
    if let Some(v) = value {
        let mut piece = chars_of(label);
        let vs = chars_of(v.as_str());
        push_all(&mut piece, vs.as_slice());
        out.push(piece);
    }
}

impl AuthenticationVerdicts {
    /// No verdict was found.
    pub fn is_empty(&self) -> (r: bool)
        ensures
            r == (self.spf is None && self.dkim is None && self.dmarc is None),
    {
        self.spf.is_none() && self.dkim.is_none() && self.dmarc.is_none()
    }

    /// Human-readable summary, e.g. `SPF pass · DKIM pass · DMARC pass`, or
    /// `None` when no verdict was found.
    pub fn summary(&self) -> (r: Option<String>)
        ensures
            r is None <==> summary_parts(self@).len() == 0,
            r matches Some(s) ==> s@ == join(summary_parts(self@), summary_separator()),
    {
        let mut parts: Vec<Vec<char>> = Vec::new();
        labelled(&mut parts, "SPF ", &self.spf);
        labelled(&mut parts, "DKIM ", &self.dkim);
        labelled(&mut parts, "DMARC ", &self.dmarc);
        assert(seq_of_pieces(parts@) =~= summary_parts(self@));
        if parts.len() == 0 {
            None
        } else {
            let sep = chars_of(" \u{00b7} ");
            let joined = join_chars(&parts, sep.as_slice());
            Some(string_of(joined.as_slice()))
        }
    }
}

/// The result word of a clause tail, as `result_token_spec` states.
fn result_token(value: &[char]) -> (r: String)
    ensures
        r@ == result_token_spec(value@),
{
    let word = first_word_chars(value);
    let bare = trim_char_chars(word.as_slice(), '(');
    let lowered = lower_chars(bare.as_slice());
    string_of(lowered.as_slice())
}

fn update_with_clause(verdicts: &mut AuthenticationVerdicts, clause: &[char])
    ensures
        final(verdicts)@ == clause_update(old(verdicts)@, clause@),
{
    let c = trim_chars(clause);
    let spf = chars_of("spf=");
    let dkim = chars_of("dkim=");
    let dmarc = chars_of("dmarc=");
    if starts_with_chars(c.as_slice(), spf.as_slice()) {
        let tail = &c.as_slice()[spf.len()..c.len()];
        assert(tail@ =~= c@.skip(spf@.len() as int));
        verdicts.spf = Some(result_token(tail));
    } else if starts_with_chars(c.as_slice(), dkim.as_slice()) {
        let tail = &c.as_slice()[dkim.len()..c.len()];
        assert(tail@ =~= c@.skip(dkim@.len() as int));
        verdicts.dkim = Some(result_token(tail));
    } else if starts_with_chars(c.as_slice(), dmarc.as_slice()) {
        let tail = &c.as_slice()[dmarc.len()..c.len()];
        assert(tail@ =~= c@.skip(dmarc@.len() as int));
        verdicts.dmarc = Some(result_token(tail));
    }
}

/// The views of a slice of string slices.
pub open spec fn strs_view(values: Seq<&str>) -> Seq<Seq<char>> {
    values.map_values(|v: &str| v@)
}

/// Parse one or more `Authentication-Results` header values.
pub fn parse_authentication_results(values: &[&str]) -> (r: AuthenticationVerdicts)
    ensures
        r@ == verdicts_of(strs_view(values@)),
{
    let mut verdicts = AuthenticationVerdicts { spf: None, dkim: None, dmarc: None };
    let semicolon = [';'];
    assert(semicolon@ =~= ";"@) by {
        reveal_strlit(";");
    }
    let mut i: usize = 0;
    while i < values.len()
        invariant
            i <= values@.len(),
            semicolon@ == ";"@,
            verdicts@ == verdicts_of(strs_view(values@.take(i as int))),
        decreases values@.len() - i,
    {
        let value = chars_of(values[i]);
        let clauses = split_chars(value.as_slice(), semicolon.as_slice());
        let ghost before = verdicts@;
        let mut k: usize = 0;
        while k < clauses.len()
            invariant
                k <= clauses@.len(),
                clauses@.len() == split(value@, ";"@).len(),
                forall|j: int| 0 <= j < clauses@.len() ==> #[trigger] clauses@[j]@ == split(value@, ";"@)[j],
                verdicts@ == apply_clauses(before, split(value@, ";"@).take(k as int)),
            decreases clauses@.len() - k,
        {
            update_with_clause(&mut verdicts, clauses[k].as_slice());
            assert(split(value@, ";"@).take(k + 1).drop_last() =~= split(value@, ";"@).take(k as int));
            k += 1;
        }
        assert(split(value@, ";"@).take(k as int) =~= split(value@, ";"@));
        assert(strs_view(values@.take(i + 1)).drop_last() =~= strs_view(values@.take(i as int)));
        i += 1;
    }
    assert(values@.take(i as int) =~= values@);
    verdicts
}

} // verus!
