//! Message envelopes as the list view shows them, and the merging of the
//! results that several folders return for one search.
use vstd::prelude::*;
use crate::text::strings_view;
use crate::errors::{MailError, MailResult};
use crate::text::clone_strings;
use crate::text::opt_view;

use crate::text::chars_of;
use crate::text::string_of;
use crate::text::str_eq;
use crate::text::lex_lt;
use crate::text::lex_less;
use crate::text::lemma_lex_lt_irreflexive;
use crate::text::lemma_lex_lt_transitive;
use crate::text::trim;
use crate::text::trim_chars;
use crate::text::push_all;
use crate::text::decimal;
use crate::text::push_decimal;
use crate::text::is_digit;
use crate::text::digits_value;
use crate::text::parse_u32_digits;
use crate::text::slice_range;
use crate::text::lines;
use crate::text::lines_chars;
use crate::text::seq_of_pieces;
use crate::text::starts_with;
use crate::text::starts_with_chars;

verus! {

broadcast use vstd::seq_lib::to_multiset_build, vstd::seq_lib::to_multiset_insert;

/// Who sent a message, as far as its envelope says.
#[derive(Debug, Clone, PartialEq, Eq)]
pub enum Sender {
    /// A bare address.
    Plain(String),
    /// A display name and an address, either of which may be missing.
    Structured { name: Option<String>, addr: Option<String> },
    /// The envelope names no sender.
    Unknown,
}

/// One message in a listing.
#[derive(Debug, Clone, PartialEq, Eq)]
pub struct Envelope {
    pub id: String,
    pub flags: Vec<String>,
    pub subject: String,
    pub sender: Sender,
    pub date: String,
    pub message_id: Option<String>,
    pub in_reply_to: Option<String>,
    pub account: Option<String>,
    pub folder: Option<String>,
}

/// What identifies a message across folders: its id within its folder.
pub open spec fn key(e: Envelope) -> (Seq<char>, Option<Seq<char>>) {
    (e.id@, opt_view(e.folder))
}

/// The envelopes of `s` without the later ones whose key an earlier one has.
pub open spec fn first_of_each(s: Seq<Envelope>) -> Seq<Envelope>
    decreases s.len(),
{
    if s.len() == 0 {
        seq![]
    } else {
        let kept = first_of_each(s.drop_last());
        if exists|i: int| 0 <= i < kept.len() && key(#[trigger] kept[i]) == key(s.last()) {
            kept
        } else {
            kept.push(s.last())
        }
    }
}

/// All envelopes of all lists, list after list.
pub open spec fn concat_lists(lists: Seq<Vec<Envelope>>) -> Seq<Envelope>
    decreases lists.len(),
{
    if lists.len() == 0 {
        seq![]
    } else {
        concat_lists(lists.drop_last()) + lists.last()@
    }
}

/// No two envelopes of `s` share a key.
pub open spec fn distinct_keys(s: Seq<Envelope>) -> bool {
    forall|i: int, j: int| 0 <= i < j < s.len() ==> key(#[trigger] s[i]) != key(#[trigger] s[j])
}

/// Every key of `s` is the key of some envelope of `t`.
pub open spec fn covers(t: Seq<Envelope>, s: Seq<Envelope>) -> bool {
    forall|i: int| 0 <= i < s.len() ==> exists|j: int| 0 <= j < t.len() && key(#[trigger] t[j]) == key(#[trigger] s[i])
}

/// `a` is listed before `b`: its date is later (dates compare as text).
pub open spec fn newer(a: Envelope, b: Envelope) -> bool {
    lex_lt(b.date@, a.date@)
}

/// Merging drops only repeats: every message of the input lists is kept
/// once, as its first copy, and nothing else is kept.
pub proof fn law_merge_keeps_one_copy_of_each_message(s: Seq<Envelope>)
    ensures
        distinct_keys(first_of_each(s)),
        covers(first_of_each(s), s),
        forall|i: int| 0 <= i < first_of_each(s).len() ==> s.contains(#[trigger] first_of_each(s)[i]),
{
    lemma_first_of_each(s);
}

proof fn lemma_first_of_each(s: Seq<Envelope>)
    ensures
        distinct_keys(first_of_each(s)),
        covers(first_of_each(s), s),
        forall|i: int| 0 <= i < first_of_each(s).len() ==> s.contains(#[trigger] first_of_each(s)[i]),
    decreases s.len(),
{
    if s.len() > 0 {
        let p = s.drop_last();
        lemma_first_of_each(p);
        let kept = first_of_each(p);
        assert forall|i: int| 0 <= i < first_of_each(s).len() implies s.contains(#[trigger] first_of_each(s)[i]) by {
            if i < kept.len() {
                assert(p.contains(kept[i]));
                let j = choose|j: int| 0 <= j < p.len() && p[j] == kept[i];
                assert(s[j] == kept[i]);
            } else {
                assert(s[s.len() - 1] == s.last());
            }
        }
        assert forall|i: int| 0 <= i < s.len() implies exists|j: int| 0 <= j < first_of_each(s).len() && key(#[trigger] first_of_each(s)[j]) == key(#[trigger] s[i]) by {
            if i < p.len() {
                assert(p[i] == s[i]);
                let j = choose|j: int| 0 <= j < kept.len() && key(#[trigger] kept[j]) == key(p[i]);
                assert(first_of_each(s)[j] == kept[j]);
            } else {
                if exists|k: int| 0 <= k < kept.len() && key(#[trigger] kept[k]) == key(s.last()) {
                    let k = choose|k: int| 0 <= k < kept.len() && key(#[trigger] kept[k]) == key(s.last());
                    assert(first_of_each(s)[k] == kept[k]);
                } else {
                    assert(first_of_each(s)[kept.len() as int] == s.last());
                }
            }
        }
    }
}

/// No envelope of `s` is newer than one listed before it.
pub open spec fn newest_first(s: Seq<Envelope>) -> bool {
    forall|i: int, j: int| 0 <= i < j < s.len() ==> !newer(#[trigger] s[j], #[trigger] s[i])
}

spec fn drawn_from(s: Seq<Envelope>, kept: Seq<Envelope>, k: int) -> bool {
    forall|m: int| 0 <= m < s.len() ==> exists|i: int| 0 <= i < k && #[trigger] s[m] == kept[i]
}

spec fn holds_all(s: Seq<Envelope>, kept: Seq<Envelope>, k: int) -> bool {
    forall|m: int| 0 <= m < k ==> exists|i: int| 0 <= i < s.len() && s[i] == #[trigger] kept[m]
}

proof fn lemma_insert_keeps_order(before: Seq<Envelope>, p: int, x: Envelope)
    requires
        newest_first(before),
        0 <= p <= before.len(),
        forall|i: int| 0 <= i < p ==> !newer(x, #[trigger] before[i]),
        forall|j: int| p <= j < before.len() ==> !newer(#[trigger] before[j], x),
    ensures
        newest_first(before.insert(p, x)),
{
    let out = before.insert(p, x);
    assert forall|i: int, j: int| 0 <= i < j < out.len() implies !newer(#[trigger] out[j], #[trigger] out[i]) by {
        if j < p {
        } else if j == p {
        } else if i < p {
            assert(out[j] == before[j - 1]);
        } else if i == p {
            assert(out[j] == before[j - 1]);
        } else {
            assert(out[j] == before[j - 1]);
            assert(out[i] == before[i - 1]);
        }
    }
}

proof fn lemma_insert_keeps_keys_distinct(before: Seq<Envelope>, p: int, x: Envelope)
    requires
        distinct_keys(before),
        0 <= p <= before.len(),
        forall|i: int| 0 <= i < before.len() ==> key(#[trigger] before[i]) != key(x),
    ensures
        distinct_keys(before.insert(p, x)),
{
    let out = before.insert(p, x);
    assert forall|i: int, j: int| 0 <= i < j < out.len() implies key(#[trigger] out[i]) != key(#[trigger] out[j]) by {
        if j < p {
        } else if j == p {
            assert(out[i] == before[i]);
        } else if i < p {
            assert(out[j] == before[j - 1]);
        } else if i == p {
            assert(out[j] == before[j - 1]);
        } else {
            assert(out[j] == before[j - 1]);
            assert(out[i] == before[i - 1]);
        }
    }
}

proof fn lemma_insert_in_order(before: Seq<Envelope>, p: int, x: Envelope, kept: Seq<Envelope>, k: int)
    requires
        0 <= k < kept.len(),
        x == kept[k],
        distinct_keys(kept),
        drawn_from(before, kept, k),
        holds_all(before, kept, k),
        newest_first(before),
        distinct_keys(before),
        0 <= p <= before.len(),
        forall|i: int| 0 <= i < p ==> !newer(x, #[trigger] before[i]),
        forall|j: int| p <= j < before.len() ==> !newer(#[trigger] before[j], x),
    ensures
        drawn_from(before.insert(p, x), kept, k + 1),
        holds_all(before.insert(p, x), kept, k + 1),
        newest_first(before.insert(p, x)),
        distinct_keys(before.insert(p, x)),
{
    let out = before.insert(p, x);
    lemma_insert_keeps_order(before, p, x);
    assert forall|i: int| 0 <= i < before.len() implies key(#[trigger] before[i]) != key(x) by {
        let a = choose|a: int| 0 <= a < k && before[i] == kept[a];
        assert(key(kept[a]) != key(kept[k]));
    }
    lemma_insert_keeps_keys_distinct(before, p, x);
    assert forall|m: int| 0 <= m < out.len() implies exists|i: int| 0 <= i < k + 1 && #[trigger] out[m] == kept[i] by {
        if m < p {
            assert(out[m] == before[m]);
        } else if m == p {
        } else {
            assert(out[m] == before[m - 1]);
        }
    }
    assert forall|m: int| 0 <= m < k + 1 implies exists|i: int| 0 <= i < out.len() && out[i] == #[trigger] kept[m] by {
        if m < k {
            let i = choose|i: int| 0 <= i < before.len() && before[i] == kept[m];
            if i < p {
                assert(out[i] == before[i]);
            } else {
                assert(out[i + 1] == before[i]);
            }
        } else {
            assert(out[p] == kept[m]);
        }
    }
}

/// `s` holds the envelopes of `kept` in the places that `idx` names, each
/// once, and envelopes with the same date in the order they have in `kept`.
pub open spec fn stable_arrangement(kept: Seq<Envelope>, s: Seq<Envelope>, idx: Seq<int>) -> bool {
    &&& idx.len() == s.len()
    &&& forall|m: int| 0 <= m < s.len() ==> 0 <= #[trigger] idx[m] < kept.len() && s[m] == kept[idx[m]]
    &&& forall|m: int, n: int| 0 <= m < n < s.len() ==> #[trigger] idx[m] != #[trigger] idx[n]
    &&& forall|m: int, n: int| 0 <= m < n < s.len() && (#[trigger] s[m]).date@ == (#[trigger] s[n]).date@ ==> idx[m] < idx[n]
}

proof fn lemma_insert_stable(kept: Seq<Envelope>, before: Seq<Envelope>, idx: Seq<int>, p: int, k: int)
    requires
        0 <= k < kept.len(),
        stable_arrangement(kept.take(k), before, idx),
        newest_first(before),
        0 <= p <= before.len(),
        p < before.len() ==> newer(kept[k], before[p]),
    ensures
        stable_arrangement(kept.take(k + 1), before.insert(p, kept[k]), idx.insert(p, k)),
{
    let x = kept[k];
    let out = before.insert(p, x);
    let id2 = idx.insert(p, k);
    assert forall|m: int| 0 <= m < out.len() implies 0 <= #[trigger] id2[m] < kept.take(k + 1).len() && out[m] == kept.take(k + 1)[id2[m]] by {
        if m < p {
            assert(out[m] == before[m]);
            assert(id2[m] == idx[m]);
        } else if m == p {
        } else {
            assert(out[m] == before[m - 1]);
            assert(id2[m] == idx[m - 1]);
        }
    }
    assert forall|m: int, n: int| 0 <= m < n < out.len() implies #[trigger] id2[m] != #[trigger] id2[n] by {
        if n < p {
        } else if n == p {
            assert(id2[m] == idx[m]);
        } else if m < p {
            assert(id2[n] == idx[n - 1]);
        } else if m == p {
            assert(id2[n] == idx[n - 1]);
        } else {
            assert(id2[n] == idx[n - 1]);
            assert(id2[m] == idx[m - 1]);
        }
    }
    assert forall|m: int, n: int| 0 <= m < n < out.len() && (#[trigger] out[m]).date@ == (#[trigger] out[n]).date@ implies id2[m] < id2[n] by {
        if n < p {
        } else if n == p {
            assert(id2[m] == idx[m]);
        } else if m < p {
            assert(id2[n] == idx[n - 1]);
            assert(out[n] == before[n - 1]);
            assert(out[m] == before[m]);
        } else if m == p {
            assert(out[n] == before[n - 1]);
            if n - 1 > p {
                assert(!newer(before[n - 1], before[p]));
            } else {
                lemma_lex_lt_irreflexive(before[p].date@);
            }
        } else {
            assert(id2[n] == idx[n - 1]);
            assert(id2[m] == idx[m - 1]);
            assert(out[n] == before[n - 1]);
            assert(out[m] == before[m - 1]);
        }
    }
}

fn opt_str_eq(a: &Option<String>, b: &Option<String>) -> (r: bool)
    ensures
        r == (opt_view(*a) == opt_view(*b)),
{
    match (a, b) {
        (Some(x), Some(y)) => str_eq(x.as_str(), y.as_str()),
        (None, None) => true,
        _ => false,
    }
}

fn same_key(a: &Envelope, b: &Envelope) -> (r: bool)
    ensures
        r == (key(*a) == key(*b)),
{
    str_eq(a.id.as_str(), b.id.as_str()) && opt_str_eq(&a.folder, &b.folder)
}

fn is_newer(a: &Envelope, b: &Envelope) -> (r: bool)
    ensures
        r == newer(*a, *b),
{
    let ad = chars_of(a.date.as_str());
    let bd = chars_of(b.date.as_str());
    lex_less(bd.as_slice(), ad.as_slice())
}

/// The first envelope of each message (same id in the same folder), list
/// after list, in order.
fn first_copies(lists: Vec<Vec<Envelope>>) -> (r: Vec<Envelope>)
    ensures
        r@ == first_of_each(concat_lists(lists@)),
{
    let mut lists = lists;
    let ghost all = lists@;
    // Gather the first envelope of each message, in order.
    let mut merged: Vec<Envelope> = Vec::new();
    let ghost mut done: Seq<Vec<Envelope>> = seq![];
    assert(all =~= done + lists@);
    while lists.len() > 0
        invariant
            all == done + lists@,
            merged@ == first_of_each(concat_lists(done)),
        decreases lists.len(),
    {
        let ghost rest_before = lists@;
        let mut list = lists.remove(0);
        let ghost taken = list;
        let ghost whole = list@;
        let ghost base = concat_lists(done);
        assert(whole.take(0) =~= seq![]);
        assert(base + whole.take(0) =~= base);
        while list.len() > 0
            invariant
                whole == whole.take(whole.len() - list@.len()) + list@,
                list@.len() <= whole.len(),
                merged@ == first_of_each(base + whole.take(whole.len() - list@.len())),
            decreases list.len(),
        {
            let ghost k = whole.len() - list@.len();
            let ghost cur = list@;
            let e = list.remove(0);
            assert(whole[k] == e) by {
                assert((whole.take(k) + cur)[k] == cur[0]);
            }
            let mut duplicate = false;
            let mut i: usize = 0;
            while i < merged.len()
                invariant
                    i <= merged@.len(),
                    duplicate == exists|j: int| 0 <= j < i && key(#[trigger] merged@[j]) == key(e),
                decreases merged@.len() - i,
            {
                if same_key(&merged[i], &e) {
                    duplicate = true;
                }
                i += 1;
            }
            assert((base + whole.take(k + 1)).drop_last() =~= base + whole.take(k));
            assert((base + whole.take(k + 1)).last() == e);
            if !duplicate {
                merged.push(e);
            }
            assert(whole == whole.take(k + 1) + list@) by {
                assert(list@ =~= cur.drop_first());
                assert(whole.take(k + 1) + list@ =~= whole.take(k) + cur);
            }
        }
        assert(whole.take(whole.len() as int) =~= whole);
        proof {
            assert(done.push(taken).drop_last() =~= done);
            assert(concat_lists(done.push(taken)) == base + whole);
            assert(rest_before[0] == taken);
            done = done.push(taken);
            assert(all =~= done + lists@);
        }
    }
    assert(done =~= all);
    merged
}

/// Order envelopes with distinct keys newest first; envelopes with the same
/// date keep their order.
fn order_newest_first(merged: Vec<Envelope>) -> (r: Vec<Envelope>)
    requires
        distinct_keys(merged@),
    ensures
        r@.to_multiset() == merged@.to_multiset(),
        drawn_from(r@, merged@, merged@.len() as int),
        holds_all(r@, merged@, merged@.len() as int),
        newest_first(r@),
        distinct_keys(r@),
        exists|idx: Seq<int>| stable_arrangement(merged@, r@, idx),
{
    let mut merged = merged;
    let ghost kept = merged@;
    // Order them newest first; messages with the same date keep their order.
    let mut out: Vec<Envelope> = Vec::new();
    let ghost mut k: int = 0;
    let ghost mut idx: Seq<int> = seq![];
    assert(kept.take(0) =~= Seq::<Envelope>::empty());
    assert(kept.skip(0) =~= kept);
    while merged.len() > 0
        invariant
            0 <= k <= kept.len(),
            distinct_keys(kept),
            merged@ == kept.skip(k),
            out@.to_multiset() == kept.take(k).to_multiset(),
            drawn_from(out@, kept, k),
            holds_all(out@, kept, k),
            newest_first(out@),
            distinct_keys(out@),
            stable_arrangement(kept.take(k), out@, idx),
        decreases merged.len(),
    {
        let x = merged.remove(0);
        assert(x == kept[k]);
        let mut p: usize = 0;
        while p < out.len() && !is_newer(&x, &out[p])
            invariant
                p <= out.len(),
                forall|i: int| 0 <= i < p ==> !newer(x, #[trigger] out@[i]),
            decreases out.len() - p,
        {
            p = p + 1;
        }
        proof {
            if p < out.len() {
                assert(newer(x, out@[p as int]));
                assert forall|j: int| p <= j < out@.len() implies !newer(#[trigger] out@[j], x) by {
                    if newer(out@[j], x) {
                        lemma_lex_lt_transitive(out@[p as int].date@, x.date@, out@[j].date@);
                        if j == p {
                            lemma_lex_lt_irreflexive(out@[j].date@);
                        }
                    }
                }
            }
        }
        let ghost before = out@;
        out.insert(p, x);
        proof {
            assert(kept.take(k + 1) =~= kept.take(k).push(kept[k]));
            assert(kept.skip(k + 1) =~= kept.skip(k).drop_first());
            lemma_insert_in_order(before, p as int, x, kept, k);
            lemma_insert_stable(kept, before, idx, p as int, k);
            assert(out@ =~= before.insert(p as int, x));
            idx = idx.insert(p as int, k);
            k = k + 1;
        }
    }
    proof {
        assert(kept.take(k) =~= kept);
        assert(stable_arrangement(kept, out@, idx));
    }
    out
}

/// Combine the results of several folders into one list, newest first,
/// keeping the first envelope of each message (same id in the same folder);
/// envelopes with the same date keep the order in which they were found.
pub fn merge_results(lists: Vec<Vec<Envelope>>) -> (r: Vec<Envelope>)
    ensures
        r@.to_multiset() == first_of_each(concat_lists(lists@)).to_multiset(),
        distinct_keys(r@),
        newest_first(r@),
        exists|idx: Seq<int>| stable_arrangement(first_of_each(concat_lists(lists@)), r@, idx),
{
    let ghost all = lists@;
    let merged = first_copies(lists);
    let ghost kept = merged@;
    proof {
        lemma_first_of_each(concat_lists(all));
    }
    order_newest_first(merged)
}

// ---------------------------------------------------------------------------
// Fields of an envelope.
// ---------------------------------------------------------------------------
/// An angle bracket, which message ids are wrapped in.
pub open spec fn is_angle(c: char) -> bool {
    c == '<' || c == '>'
}

/// `s` without leading angle brackets.
pub open spec fn drop_leading_angles(s: Seq<char>) -> Seq<char>
    decreases s.len(),
{
    if s.len() > 0 && is_angle(s[0]) {
        drop_leading_angles(s.drop_first())
    } else {
        s
    }
}

/// `s` without trailing angle brackets.
pub open spec fn drop_trailing_angles(s: Seq<char>) -> Seq<char>
    decreases s.len(),
{
    if s.len() > 0 && is_angle(s.last()) {
        drop_trailing_angles(s.drop_last())
    } else {
        s
    }
}

/// A message id as an envelope field gives it, trimmed and unwrapped from its
/// angle brackets.
pub open spec fn message_id_text(value: Seq<char>) -> Seq<char> {
    drop_trailing_angles(drop_leading_angles(trim(value)))
}

/// The message id an envelope field holds, if it holds one.
pub fn optional_id(value: &str) -> (r: Option<String>)
    ensures
        match r {
            Some(t) => t@ == message_id_text(value@) && t@.len() > 0,
            None => message_id_text(value@).len() == 0,
        },
{
    let cs = chars_of(value);
    let t = trim_chars(cs.as_slice());
    let n = t.len();
    let mut i: usize = 0;
    assert(t@.skip(0) =~= t@);
    while i < n && (t[i] == '<' || t[i] == '>')
        invariant
            n == t@.len(),
            i <= n,
            drop_leading_angles(t@) == drop_leading_angles(t@.skip(i as int)),
        decreases n - i,
    {
        assert(t@.skip(i as int).drop_first() =~= t@.skip(i + 1));
        i += 1;
    }
    let ghost lead = t@.skip(i as int);
    assert(drop_leading_angles(t@) == lead);
    let mut j: usize = n;
    assert(lead =~= t@.subrange(i as int, n as int));
    while j > i && (t[j - 1] == '<' || t[j - 1] == '>')
        invariant
            n == t@.len(),
            i <= j <= n,
            drop_trailing_angles(lead) == drop_trailing_angles(t@.subrange(i as int, j as int)),
        decreases j,
    {
        assert(t@.subrange(i as int, j as int).drop_last() =~= t@.subrange(i as int, j - 1));
        j -= 1;
    }
    let body = crate::text::slice_range(t.as_slice(), i, j);
    assert(body@ == message_id_text(value@));
    if j == i {
        None
    } else {
        Some(string_of(body.as_slice()))
    }
}

/// The sender an address names: a bare address, a name with or without an
/// address, or nothing (empty fields count as absent).
pub open spec fn sender_spec(name: Seq<char>, mailbox: Seq<char>, host: Seq<char>) -> (int, Seq<char>, Seq<char>) {
    let has_addr = mailbox.len() > 0 && host.len() > 0;
    let addr = mailbox + seq!['@'] + host;
    if name.len() == 0 {
        if has_addr { (0, addr, seq![]) } else { (3, seq![], seq![]) }
    } else {
        if has_addr { (1, name, addr) } else { (2, name, seq![]) }
    }
}

/// The shape of a sender: plain address (0), name and address (1), name
/// alone (2), nobody (3), with the texts it holds.
pub open spec fn sender_view(s: Sender) -> (int, Seq<char>, Seq<char>) {
    match s {
        Sender::Plain(a) => (0, a@, seq![]),
        Sender::Structured { name: Some(n), addr: Some(a) } => (1, n@, a@),
        Sender::Structured { name: Some(n), addr: None } => (2, n@, seq![]),
        Sender::Structured { name: None, addr: _ } => (4, seq![], seq![]),
        Sender::Unknown => (3, seq![], seq![]),
    }
}

/// The sender of a message, from the first address of its From field, given
/// as display name, mailbox and host.
pub fn sender_from(first: Option<(&str, &str, &str)>) -> (r: Sender)
    ensures
        match first {
            Some((name, mailbox, host)) => sender_view(r) == sender_spec(name@, mailbox@, host@),
            None => r == Sender::Unknown,
        },
{
    match first {
        None => Sender::Unknown,
        Some((name, mailbox, host)) => {
            let n = chars_of(name);
            let m = chars_of(mailbox);
            let h = chars_of(host);
            let has_addr = m.len() > 0 && h.len() > 0;
            let mut a = chars_of(mailbox);
            a.push('@');
            push_all(&mut a, h.as_slice());
            if n.len() == 0 {
                if has_addr {
                    Sender::Plain(string_of(a.as_slice()))
                } else {
                    Sender::Unknown
                }
            } else if has_addr {
                Sender::Structured { name: Some(string_of(n.as_slice())), addr: Some(string_of(a.as_slice())) }
            } else {
                Sender::Structured { name: Some(string_of(n.as_slice())), addr: None }
            }
        },
    }
}

// ---------------------------------------------------------------------------
// Envelopes as the legacy IMAP client reports them.
// ---------------------------------------------------------------------------
/// A sender in full: plain (0) with its address, structured (1) with its
/// optional name and address, or unknown (2).
pub open spec fn sender_full_view(s: Sender) -> (int, Option<Seq<char>>, Option<Seq<char>>) {
    match s {
        Sender::Plain(a) => (0, None, Some(a@)),
        Sender::Structured { name, addr } => (1, opt_view(name), opt_view(addr)),
        Sender::Unknown => (2, None, None),
    }
}

/// An address part that is there: present and not blank once trimmed,
/// trimmed.
pub open spec fn present(p: Option<Seq<char>>) -> Option<Seq<char>> {
    match p {
        Some(v) => if trim(v).len() > 0 { Some(trim(v)) } else { None },
        None => None,
    }
}

/// The address of a mailbox and host: `mailbox@host`, or the mailbox alone
/// without a host, or none without a mailbox.
pub open spec fn legacy_addr(mailbox: Option<Seq<char>>, host: Option<Seq<char>>) -> Option<Seq<char>> {
    match (present(mailbox), present(host)) {
        (Some(l), Some(d)) => Some(l + seq!['@'] + d),
        (Some(l), None) => Some(l),
        _ => None,
    }
}

/// The sender one address names: structured with whatever name and address
/// are there, unknown when neither is.
pub open spec fn legacy_sender(name: Option<Seq<char>>, mailbox: Option<Seq<char>>, host: Option<Seq<char>>) -> (int, Option<Seq<char>>, Option<Seq<char>>) {
    let n = present(name);
    let a = legacy_addr(mailbox, host);
    if n is Some || a is Some {
        (1, n, a)
    } else {
        (2, None, None)
    }
}

/// An address as the legacy client gives it: display name, mailbox, host.
pub open spec fn address_view(a: (Option<String>, Option<String>, Option<String>)) -> (Option<Seq<char>>, Option<Seq<char>>, Option<Seq<char>>) {
    (opt_view(a.0), opt_view(a.1), opt_view(a.2))
}

fn present_part(p: &Option<String>) -> (r: Option<String>)
    ensures
        opt_view(r) == present(opt_view(*p)),
{
    match p {
        Some(v) => {
            let t = trim_chars(chars_of(v.as_str()).as_slice());
            if t.len() > 0 { Some(string_of(t.as_slice())) } else { None }
        },
        None => None,
    }
}

/// The sender of a message from the addresses of its From field, as the
/// legacy client reports them: the first address decides.
pub fn sender_from_addresses(addresses: &[(Option<String>, Option<String>, Option<String>)]) -> (r: Sender)
    ensures
        addresses@.len() == 0 ==> r == Sender::Unknown,
        addresses@.len() > 0 ==> sender_full_view(r) == {
            let a = address_view(addresses@[0]);
            legacy_sender(a.0, a.1, a.2)
        },
{
    if addresses.len() == 0 {
        return Sender::Unknown;
    }
    let name = present_part(&addresses[0].0);
    let mailbox = present_part(&addresses[0].1);
    let host = present_part(&addresses[0].2);
    let addr = match (mailbox, host) {
        (Some(local), Some(domain)) => {
            let mut a = chars_of(local.as_str());
            a.push('@');
            push_all(&mut a, chars_of(domain.as_str()).as_slice());
            Some(string_of(a.as_slice()))
        },
        (Some(local), None) => Some(local),
        _ => None,
    };
    if name.is_some() || addr.is_some() {
        Sender::Structured { name, addr }
    } else {
        Sender::Unknown
    }
}

/// A FETCH result as the legacy client reports it, its texts decoded.
#[derive(Debug, Clone, PartialEq, Eq)]
pub struct LegacyFetch {
    pub uid: Option<u32>,
    /// The message sequence number.
    pub message: u32,
    /// The flags, already named as the application names them.
    pub flags: Vec<String>,
    /// The ENVELOPE subject, when there is one.
    pub subject: Option<String>,
    /// The ENVELOPE From addresses, when there are any.
    pub from: Option<Vec<(Option<String>, Option<String>, Option<String>)>>,
    /// INTERNALDATE, formatted for display.
    pub internal_date: Option<String>,
    /// The ENVELOPE date, when there is one.
    pub envelope_date: Option<String>,
}

/// The listing entry for a legacy FETCH result: the UID (else the sequence
/// number) as id, the trimmed subject, the sender of the From addresses, and
/// INTERNALDATE, else the trimmed envelope date; nothing is known of message
/// ids, account or folder.
pub fn fetch_to_envelope(fetch: &LegacyFetch) -> (r: Envelope)
    ensures
        r.id@ == decimal((match fetch.uid { Some(u) => u, None => fetch.message }) as nat),
        strings_view(r.flags@) == strings_view(fetch.flags@),
        r.subject@ == match fetch.subject { Some(s) => trim(s@), None => Seq::<char>::empty() },
        match fetch.from {
            Some(addresses) => addresses@.len() == 0 && r.sender == Sender::Unknown
                || addresses@.len() > 0 && sender_full_view(r.sender) == {
                    let a = address_view(addresses@[0]);
                    legacy_sender(a.0, a.1, a.2)
                },
            None => r.sender == Sender::Unknown,
        },
        r.date@ == match (fetch.internal_date, fetch.envelope_date) {
            (Some(d), _) => d@,
            (None, Some(d)) => trim(d@),
            (None, None) => Seq::<char>::empty(),
        },
        r.message_id is None,
        r.in_reply_to is None,
        r.account is None,
        r.folder is None,
{
    let subject = match &fetch.subject {
        Some(s) => string_of(trim_chars(chars_of(s.as_str()).as_slice()).as_slice()),
        None => string_of(chars_of("").as_slice()),
    };
    proof {
        reveal_strlit("");
    }
    let sender = match &fetch.from {
        Some(addresses) => sender_from_addresses(addresses.as_slice()),
        None => Sender::Unknown,
    };
    let date = match (&fetch.internal_date, &fetch.envelope_date) {
        (Some(d), _) => d.clone(),
        (None, Some(d)) => string_of(trim_chars(chars_of(d.as_str()).as_slice()).as_slice()),
        (None, None) => string_of(chars_of("").as_slice()),
    };
    let number = match fetch.uid {
        Some(u) => u,
        None => fetch.message,
    };
    let mut id: Vec<char> = Vec::new();
    push_decimal(&mut id, number as u64);
    assert(id@ =~= decimal(number as nat));
    Envelope {
        id: string_of(id.as_slice()),
        flags: clone_strings(&fetch.flags),
        subject,
        sender,
        date,
        message_id: None,
        in_reply_to: None,
        account: None,
        folder: None,
    }
}

// ---------------------------------------------------------------------------
// Envelopes from FETCH items.
// ---------------------------------------------------------------------------
/// The ENVELOPE structure of a FETCH response, its strings already decoded.
#[derive(Debug, Clone, PartialEq, Eq)]
pub struct EnvelopeFields {
    pub subject: String,
    /// Display name, mailbox and host of the first From address.
    pub from: Option<(String, String, String)>,
    pub date: String,
    pub message_id: String,
    pub in_reply_to: String,
}

/// One item of a FETCH response that a listing reads.
#[derive(Debug, Clone, PartialEq, Eq)]
pub enum EnvelopeItem {
    Uid(u32),
    /// The flags, already named as the application names them.
    Flags(Vec<String>),
    /// INTERNALDATE, formatted for display.
    InternalDate(String),
    Envelope(EnvelopeFields),
    Other,
}

/// What a listing shows of a message, as character sequences.
pub struct ListingModel {
    pub id: Seq<char>,
    pub flags: Seq<Seq<char>>,
    pub subject: Seq<char>,
    pub sender: (int, Seq<char>, Seq<char>),
    pub date: Seq<char>,
    pub message_id: Option<Seq<char>>,
    pub in_reply_to: Option<Seq<char>>,
}

/// What a listing shows of an envelope: everything but the account and
/// folder it came from, which the caller records.
pub open spec fn listing_view(e: Envelope) -> ListingModel {
    ListingModel {
        id: e.id@,
        flags: strings_view(e.flags@),
        subject: e.subject@,
        sender: sender_view(e.sender),
        date: e.date@,
        message_id: opt_view(e.message_id),
        in_reply_to: opt_view(e.in_reply_to),
    }
}

/// A message id field as an optional id: its text when it has any.
pub open spec fn id_field(value: Seq<char>) -> Option<Seq<char>> {
    if message_id_text(value).len() > 0 { Some(message_id_text(value)) } else { None }
}

/// The sender of a first From address.
pub open spec fn sender_field(from: Option<(String, String, String)>) -> (int, Seq<char>, Seq<char>) {
    match from {
        Some(a) => sender_spec(a.0@, a.1@, a.2@),
        None => (3, seq![], seq![]),
    }
}

/// The listing after one more item: the UID gives the id, INTERNALDATE the
/// date, and ENVELOPE the subject, sender and ids, and the date when none is
/// known yet.
pub open spec fn after_item(m: ListingModel, item: EnvelopeItem) -> ListingModel {
    match item {
        EnvelopeItem::Uid(u) => ListingModel { id: decimal(u as nat), ..m },
        EnvelopeItem::Flags(f) => ListingModel { flags: strings_view(f@), ..m },
        EnvelopeItem::InternalDate(d) => ListingModel { date: d@, ..m },
        EnvelopeItem::Envelope(e) => ListingModel {
            subject: e.subject@,
            sender: sender_field(e.from),
            date: if m.date.len() == 0 { e.date@ } else { m.date },
            message_id: id_field(e.message_id@),
            in_reply_to: id_field(e.in_reply_to@),
            ..m
        },
        EnvelopeItem::Other => m,
    }
}

/// The listing the items of one FETCH response give, in order.
pub open spec fn listing_of(items: Seq<EnvelopeItem>) -> ListingModel
    decreases items.len(),
{
    if items.len() == 0 {
        ListingModel {
            id: seq![],
            flags: seq![],
            subject: seq![],
            sender: (3, seq![], seq![]),
            date: seq![],
            message_id: None,
            in_reply_to: None,
        }
    } else {
        after_item(listing_of(items.drop_last()), items.last())
    }
}

/// The envelope of a message from the items of its FETCH response; account
/// and folder are left for the caller.
pub fn envelope_from_items(items: &[EnvelopeItem]) -> (r: Envelope)
    ensures
        listing_view(r) == listing_of(items@),
        r.account is None,
        r.folder is None,
{
    let mut e = Envelope {
        id: string_of(chars_of("").as_slice()),
        flags: Vec::new(),
        subject: string_of(chars_of("").as_slice()),
        sender: Sender::Unknown,
        date: string_of(chars_of("").as_slice()),
        message_id: None,
        in_reply_to: None,
        account: None,
        folder: None,
    };
    proof {
        reveal_strlit("");
        assert(items@.take(0) =~= Seq::<EnvelopeItem>::empty());
        assert(strings_view(e.flags@) =~= Seq::<Seq<char>>::empty());
        assert(e.id@ =~= Seq::<char>::empty());
        assert(listing_view(e) == listing_of(items@.take(0)));
    }
    let mut i: usize = 0;
    while i < items.len()
        invariant
            i <= items@.len(),
            listing_view(e) == listing_of(items@.take(i as int)),
            e.account is None,
            e.folder is None,
        decreases items@.len() - i,
    {
        assert(items@.take(i + 1).drop_last() =~= items@.take(i as int));
        match &items[i] {
            EnvelopeItem::Uid(u) => {
                let mut t: Vec<char> = Vec::new();
                push_decimal(&mut t, *u as u64);
                assert(t@ =~= decimal(*u as nat));
                e.id = string_of(t.as_slice());
            },
            EnvelopeItem::Flags(f) => {
                e.flags = clone_strings(f);
            },
            EnvelopeItem::InternalDate(d) => {
                e.date = d.clone();
            },
            EnvelopeItem::Envelope(fields) => {
                e.subject = fields.subject.clone();
                e.sender = match &fields.from {
                    Some((n, m, h)) => sender_from(Some((n.as_str(), m.as_str(), h.as_str()))),
                    None => sender_from(None),
                };
                if e.date.as_str().is_empty() {
                    e.date = fields.date.clone();
                }
                e.message_id = optional_id(fields.message_id.as_str());
                e.in_reply_to = optional_id(fields.in_reply_to.as_str());
            },
            EnvelopeItem::Other => {},
        }
        i += 1;
        assert(listing_view(e) =~= listing_of(items@.take(i as int)));
    }
    assert(items@.take(i as int) =~= items@);
    e
}

// ---------------------------------------------------------------------------
// Ordering a listing by UID.
// ---------------------------------------------------------------------------
/// The number an envelope id spells (`str::parse::<u32>`), or 0.
pub open spec fn id_number(s: Seq<char>) -> nat {
    number_digits(if s.len() > 0 && s[0] == '+' { s.drop_first() } else { s })
}

/// The number a run of ASCII digits spells when it fits a `u32`, else 0.
pub open spec fn number_digits(digits: Seq<char>) -> nat {
    if digits.len() > 0 && (forall|k: int| 0 <= k < digits.len() ==> is_digit(#[trigger] digits[k]))
        && digits_value(digits) <= u32::MAX {
        digits_value(digits)
    } else {
        0
    }
}

/// The number an envelope id spells, or 0.
pub fn parse_id(s: &str) -> (r: u32)
    ensures
        r as nat == id_number(s@),
{
    let cs = chars_of(s);
    let start: usize = if cs.len() > 0 && cs[0] == '+' { 1 } else { 0 };
    let digits = slice_range(cs.as_slice(), start, cs.len());
    assert(digits@ =~= (if s@.len() > 0 && s@[0] == '+' { s@.drop_first() } else { s@ }));
    let mut k: usize = 0;
    while k < digits.len()
        invariant
            k <= digits@.len(),
            id_number(s@) == number_digits(digits@),
            forall|j: int| 0 <= j < k ==> is_digit(#[trigger] digits@[j]),
        decreases digits@.len() - k,
    {
        if !('0' <= digits[k] && digits[k] <= '9') {
            assert(!is_digit(digits@[k as int]));
            return 0;
        }
        k += 1;
    }
    match parse_u32_digits(digits.as_slice()) {
        Some(v) => v,
        None => 0,
    }
}

/// The last place of `v` in `uids`, or `usize::MAX` when it is not there.
pub open spec fn position(uids: Seq<u32>, v: nat) -> int
    decreases uids.len(),
{
    if uids.len() == 0 {
        usize::MAX as int
    } else if uids.last() as nat == v {
        uids.len() - 1
    } else {
        position(uids.drop_last(), v)
    }
}

/// How a listing is ordered.
#[derive(Debug, Clone, Copy, PartialEq, Eq, Structural)]
pub enum ListingOrder {
    /// In the order of a list of UIDs (a THREAD or SORT answer).
    Requested,
    /// Highest UID first.
    NewestUid,
}

/// The rank of an envelope in an order; lower ranks come first.
pub open spec fn rank(order: ListingOrder, uids: Seq<u32>, e: Envelope) -> int {
    match order {
        ListingOrder::Requested => position(uids, id_number(e.id@)),
        ListingOrder::NewestUid => u32::MAX - id_number(e.id@),
    }
}

/// No envelope of `s` ranks below one listed before it.
pub open spec fn ranked(order: ListingOrder, uids: Seq<u32>, s: Seq<Envelope>) -> bool {
    forall|i: int, j: int| 0 <= i < j < s.len() ==> rank(order, uids, #[trigger] s[i]) <= rank(order, uids, #[trigger] s[j])
}

fn rank_of(order: ListingOrder, uids: &[u32], e: &Envelope) -> (r: u64)
    ensures
        r as int == rank(order, uids@, *e),
{
    let n = parse_id(e.id.as_str());
    match order {
        ListingOrder::NewestUid => (u32::MAX - n) as u64,
        ListingOrder::Requested => {
            let mut i: usize = uids.len();
            assert(uids@.take(i as int) =~= uids@);
            while i > 0
                invariant
                    i <= uids@.len(),
                    order == ListingOrder::Requested,
                    n as nat == id_number(e.id@),
                    position(uids@, n as nat) == position(uids@.take(i as int), n as nat),
                decreases i,
            {
                assert(uids@.take(i as int).drop_last() =~= uids@.take(i - 1));
                if uids[i - 1] == n {
                    return (i - 1) as u64;
                }
                i -= 1;
            }
            usize::MAX as u64
        },
    }
}

proof fn lemma_insert_ranked(order: ListingOrder, uids: Seq<u32>, before: Seq<Envelope>, p: int, x: Envelope)
    requires
        ranked(order, uids, before),
        0 <= p <= before.len(),
        forall|i: int| 0 <= i < p ==> rank(order, uids, #[trigger] before[i]) <= rank(order, uids, x),
        forall|j: int| p <= j < before.len() ==> rank(order, uids, x) < rank(order, uids, #[trigger] before[j]),
    ensures
        ranked(order, uids, before.insert(p, x)),
{
    let out = before.insert(p, x);
    assert forall|i: int, j: int| 0 <= i < j < out.len() implies rank(order, uids, #[trigger] out[i]) <= rank(order, uids, #[trigger] out[j]) by {
        if j < p {
        } else if j == p {
        } else if i < p {
            assert(out[j] == before[j - 1]);
        } else if i == p {
            assert(out[j] == before[j - 1]);
        } else {
            assert(out[j] == before[j - 1]);
            assert(out[i] == before[i - 1]);
        }
    }
}

/// `s` holds the envelopes of `orig` in the places that `idx` names, each
/// once, and envelopes of the same rank in the order they have in `orig`.
pub open spec fn stable_ranking(order: ListingOrder, uids: Seq<u32>, orig: Seq<Envelope>, s: Seq<Envelope>, idx: Seq<int>) -> bool {
    &&& idx.len() == s.len()
    &&& forall|m: int| 0 <= m < s.len() ==> 0 <= #[trigger] idx[m] < orig.len() && s[m] == orig[idx[m]]
    &&& forall|m: int, n: int| 0 <= m < n < s.len() ==> #[trigger] idx[m] != #[trigger] idx[n]
    &&& forall|m: int, n: int| 0 <= m < n < s.len() && rank(order, uids, #[trigger] s[m]) == rank(order, uids, #[trigger] s[n]) ==> idx[m] < idx[n]
}

proof fn lemma_insert_ranked_stable(order: ListingOrder, uids: Seq<u32>, orig: Seq<Envelope>, before: Seq<Envelope>, idx: Seq<int>, p: int, k: int)
    requires
        0 <= k < orig.len(),
        stable_ranking(order, uids, orig.take(k), before, idx),
        0 <= p <= before.len(),
        forall|j: int| p <= j < before.len() ==> rank(order, uids, orig[k]) < rank(order, uids, #[trigger] before[j]),
    ensures
        stable_ranking(order, uids, orig.take(k + 1), before.insert(p, orig[k]), idx.insert(p, k)),
{
    let x = orig[k];
    let out = before.insert(p, x);
    let id2 = idx.insert(p, k);
    assert forall|m: int| 0 <= m < out.len() implies 0 <= #[trigger] id2[m] < orig.take(k + 1).len() && out[m] == orig.take(k + 1)[id2[m]] by {
        if m < p {
            assert(out[m] == before[m]);
            assert(id2[m] == idx[m]);
        } else if m == p {
        } else {
            assert(out[m] == before[m - 1]);
            assert(id2[m] == idx[m - 1]);
        }
    }
    assert forall|m: int, n: int| 0 <= m < n < out.len() implies #[trigger] id2[m] != #[trigger] id2[n] by {
        if n < p {
        } else if n == p {
            assert(id2[m] == idx[m]);
        } else if m < p {
            assert(id2[n] == idx[n - 1]);
        } else if m == p {
            assert(id2[n] == idx[n - 1]);
        } else {
            assert(id2[n] == idx[n - 1]);
            assert(id2[m] == idx[m - 1]);
        }
    }
    assert forall|m: int, n: int| 0 <= m < n < out.len() && rank(order, uids, #[trigger] out[m]) == rank(order, uids, #[trigger] out[n]) implies id2[m] < id2[n] by {
        if n < p {
        } else if n == p {
            assert(id2[m] == idx[m]);
        } else if m < p {
            assert(id2[n] == idx[n - 1]);
            assert(out[n] == before[n - 1]);
            assert(out[m] == before[m]);
        } else if m == p {
            assert(out[n] == before[n - 1]);
        } else {
            assert(id2[n] == idx[n - 1]);
            assert(id2[m] == idx[m - 1]);
            assert(out[n] == before[n - 1]);
            assert(out[m] == before[m - 1]);
        }
    }
}

/// Order a listing; envelopes of the same rank keep their order.
pub fn order_listing(envelopes: Vec<Envelope>, uids: &[u32], order: ListingOrder) -> (r: Vec<Envelope>)
    ensures
        r@.to_multiset() == envelopes@.to_multiset(),
        ranked(order, uids@, r@),
        exists|idx: Seq<int>| stable_ranking(order, uids@, envelopes@, r@, idx),
{
    let mut src = envelopes;
    let ghost orig = src@;
    let mut out: Vec<Envelope> = Vec::new();
    let ghost mut k: int = 0;
    let ghost mut idx: Seq<int> = seq![];
    assert(orig.take(0) =~= Seq::<Envelope>::empty());
    assert(orig.skip(0) =~= orig);
    while src.len() > 0
        invariant
            0 <= k <= orig.len(),
            orig == envelopes@,
            src@ == orig.skip(k),
            out@.to_multiset() == orig.take(k).to_multiset(),
            ranked(order, uids@, out@),
            stable_ranking(order, uids@, orig.take(k), out@, idx),
        decreases src.len(),
    {
        let x = src.remove(0);
        let rx = rank_of(order, uids, &x);
        let mut p: usize = 0;
        while p < out.len() && rank_of(order, uids, &out[p]) <= rx
            invariant
                p <= out.len(),
                rx as int == rank(order, uids@, x),
                forall|i: int| 0 <= i < p ==> rank(order, uids@, #[trigger] out@[i]) <= rank(order, uids@, x),
            decreases out.len() - p,
        {
            p = p + 1;
        }
        proof {
            if p < out.len() {
                assert forall|j: int| p <= j < out@.len() implies rank(order, uids@, x) < rank(order, uids@, #[trigger] out@[j]) by {
                    assert(rank(order, uids@, out@[p as int]) <= rank(order, uids@, out@[j]));
                }
            }
        }
        let ghost before = out@;
        out.insert(p, x);
        proof {
            lemma_insert_ranked(order, uids@, before, p as int, x);
            assert(x == orig[k]);
            lemma_insert_ranked_stable(order, uids@, orig, before, idx, p as int, k);
            idx = idx.insert(p as int, k);
            assert(orig.take(k + 1) =~= orig.take(k).push(orig[k]));
            assert(orig.skip(k + 1) =~= orig.skip(k).drop_first());
            k = k + 1;
        }
    }
    assert(orig.take(k) =~= orig);
    assert(stable_ranking(order, uids@, envelopes@, out@, idx));
    out
}

/// A listing in the order of `uids` (a THREAD or SORT answer): each envelope
/// at the last place its UID has there, those not there at the end.
pub fn in_requested_order(envelopes: Vec<Envelope>, uids: &[u32]) -> (r: Vec<Envelope>)
    ensures
        r@.to_multiset() == envelopes@.to_multiset(),
        ranked(ListingOrder::Requested, uids@, r@),
        exists|idx: Seq<int>| stable_ranking(ListingOrder::Requested, uids@, envelopes@, r@, idx),
{
    order_listing(envelopes, uids, ListingOrder::Requested)
}

/// A listing with the highest UID first.
pub fn newest_uid_first(envelopes: Vec<Envelope>) -> (r: Vec<Envelope>)
    ensures
        r@.to_multiset() == envelopes@.to_multiset(),
        ranked(ListingOrder::NewestUid, seq![], r@),
        exists|idx: Seq<int>| stable_ranking(ListingOrder::NewestUid, seq![], envelopes@, r@, idx),
{
    let none: Vec<u32> = Vec::new();
    assert(none@ =~= Seq::<u32>::empty());
    order_listing(envelopes, none.as_slice(), ListingOrder::NewestUid)
}

// ---------------------------------------------------------------------------
// THREAD answers.
// ---------------------------------------------------------------------------
/// The number a run of digits gives, when it fits a `u32`.
pub open spec fn emit(run: Seq<char>) -> Seq<u32> {
    if run.len() > 0 && digits_value(run) <= u32::MAX { seq![digits_value(run) as u32] } else { seq![] }
}

/// The numbers that the runs of ASCII digits in `s` spell, in order, after
/// the run `cur` that is already under way; runs too large for a `u32` are
/// dropped.
pub open spec fn numbers_in(s: Seq<char>, cur: Seq<char>) -> Seq<u32>
    decreases s.len(),
{
    if s.len() == 0 {
        emit(cur)
    } else if is_digit(s[0]) {
        numbers_in(s.drop_first(), cur.push(s[0]))
    } else {
        emit(cur) + numbers_in(s.drop_first(), seq![])
    }
}

/// The UIDs that the `* THREAD` lines of a response name, in order.
pub open spec fn thread_numbers(ls: Seq<Seq<char>>) -> Seq<u32>
    decreases ls.len(),
{
    if ls.len() == 0 {
        seq![]
    } else {
        thread_numbers(ls.drop_last()) + if starts_with(ls.last(), "* THREAD"@) {
            numbers_in(ls.last().skip(8), seq![])
        } else {
            seq![]
        }
    }
}

fn push_run(out: &mut Vec<u32>, run: &Vec<char>)
    requires
        forall|k: int| 0 <= k < run@.len() ==> is_digit(#[trigger] run@[k]),
    ensures
        final(out)@ == old(out)@ + emit(run@),
{
    if run.len() > 0 {
        match parse_u32_digits(run.as_slice()) {
            Some(v) => {
                out.push(v);
            },
            None => {},
        }
    }
    assert(final(out)@ =~= old(out)@ + emit(run@));
}

fn numbers_of(s: &[char], out: &mut Vec<u32>)
    ensures
        final(out)@ == old(out)@ + numbers_in(s@, seq![]),
{
    let ghost start = out@;
    let mut cur: Vec<char> = Vec::new();
    let mut i: usize = 0;
    assert(s@.skip(0) =~= s@);
    while i < s.len()
        invariant
            i <= s@.len(),
            forall|k: int| 0 <= k < cur@.len() ==> is_digit(#[trigger] cur@[k]),
            start + numbers_in(s@, seq![]) == out@ + numbers_in(s@.skip(i as int), cur@),
        decreases s@.len() - i,
    {
        assert(s@.skip(i as int)[0] == s@[i as int]);
        assert(s@.skip(i as int).drop_first() =~= s@.skip(i + 1));
        let c = s[i];
        if '0' <= c && c <= '9' {
            cur.push(c);
        } else {
            let ghost before = out@;
            push_run(out, &cur);
            assert(before + (emit(cur@) + numbers_in(s@.skip(i + 1), seq![])) =~= out@ + numbers_in(s@.skip(i + 1), seq![]));
            cur = Vec::new();
            assert(cur@ =~= Seq::<char>::empty());
        }
        i += 1;
    }
    let ghost before = out@;
    push_run(out, &cur);
    assert(out@ =~= before + emit(cur@));
}

/// The UIDs a `UID THREAD` response names, flattened in order.
pub fn parse_thread_response(response: &str) -> (r: Vec<u32>)
    ensures
        r@ == thread_numbers(lines(response@)),
{
    let cs = chars_of(response);
    let ls = lines_chars(cs.as_slice());
    let prefix = chars_of("* THREAD");
    proof {
        reveal_strlit("* THREAD");
    }
    let mut out: Vec<u32> = Vec::new();
    let mut i: usize = 0;
    while i < ls.len()
        invariant
            i <= ls@.len(),
            seq_of_pieces(ls@) == lines(response@),
            prefix@ == "* THREAD"@,
            prefix@.len() == 8,
            out@ == thread_numbers(lines(response@).take(i as int)),
        decreases ls@.len() - i,
    {
        assert(lines(response@).take(i + 1).drop_last() =~= lines(response@).take(i as int));
        assert(lines(response@).take(i + 1).last() == ls@[i as int]@);
        let line = &ls[i];
        if starts_with_chars(line.as_slice(), prefix.as_slice()) {
            let rest = slice_range(line.as_slice(), 8, line.len());
            assert(rest@ =~= line@.skip(8));
            numbers_of(rest.as_slice(), &mut out);
        } else {
            assert(out@ =~= out@ + Seq::<u32>::empty());
        }
        i += 1;
    }
    assert(lines(response@).take(i as int) =~= lines(response@));
    out
}

/// A THREAD answer as the codec decodes it: a run of UIDs followed by the
/// threads that answer its last message, or threads nested without a
/// message of their own.
#[derive(Debug, PartialEq, Eq)]
pub enum ThreadNode {
    Members { prefix: Vec<u32>, answers: Vec<ThreadNode> },
    Nested { answers: Vec<ThreadNode> },
}

/// The UIDs of a thread, depth first, in order.
pub open spec fn thread_uids(t: ThreadNode) -> Seq<u32>
    decreases t,
{
    match t {
        ThreadNode::Members { prefix, answers } => prefix@ + answers_uids(answers@),
        ThreadNode::Nested { answers } => answers_uids(answers@),
    }
}

/// The UIDs of a run of threads, in order.
pub open spec fn answers_uids(ts: Seq<ThreadNode>) -> Seq<u32>
    decreases ts,
{
    if ts.len() == 0 {
        seq![]
    } else {
        answers_uids(ts.drop_last()) + thread_uids(ts.last())
    }
}

fn collect_thread(t: &ThreadNode, out: &mut Vec<u32>)
    ensures
        final(out)@ == old(out)@ + thread_uids(*t),
    decreases t,
{
    let ghost start = out@;
    let answers = match t {
        ThreadNode::Members { prefix, answers } => {
            let mut k: usize = 0;
            while k < prefix.len()
                invariant
                    k <= prefix@.len(),
                    out@ == start + prefix@.take(k as int),
                decreases prefix@.len() - k,
            {
                out.push(prefix[k]);
                k += 1;
                assert(out@ =~= start + prefix@.take(k as int));
            }
            assert(prefix@.take(k as int) =~= prefix@);
            answers
        },
        ThreadNode::Nested { answers } => answers,
    };
    let ghost mid = out@;
    proof {
        assert(decreases_to!(*t => *answers));
        assert(decreases_to!(*answers => answers@));
    }
    let mut i: usize = 0;
    while i < answers.len()
        invariant
            i <= answers@.len(),
            out@ == mid + answers_uids(answers@.take(i as int)),
            decreases_to!(*t => answers@),
        decreases answers@.len() - i,
    {
        assert(decreases_to!(answers@ => answers@[i as int]));
        collect_thread(&answers[i], out);
        assert(answers@.take(i + 1).drop_last() =~= answers@.take(i as int));
        i += 1;
        assert(out@ =~= mid + answers_uids(answers@.take(i as int)));
    }
    assert(answers@.take(i as int) =~= answers@);
    assert(out@ =~= start + thread_uids(*t));
}

/// The groups of UIDs a THREAD answer names: each thread's UIDs in order,
/// empty threads left out.
pub open spec fn thread_groups_spec(ts: Seq<ThreadNode>) -> Seq<Seq<u32>>
    decreases ts.len(),
{
    if ts.len() == 0 {
        seq![]
    } else {
        let g = thread_uids(ts.last());
        if g.len() > 0 {
            thread_groups_spec(ts.drop_last()).push(g)
        } else {
            thread_groups_spec(ts.drop_last())
        }
    }
}

/// The views of groups of UIDs.
pub open spec fn groups_view(v: Seq<Vec<u32>>) -> Seq<Seq<u32>> {
    Seq::new(v.len(), |i: int| v[i]@)
}

/// Flatten the threads of a THREAD answer into groups of UIDs.
pub fn thread_groups(threads: &[ThreadNode]) -> (r: Vec<Vec<u32>>)
    ensures
        groups_view(r@) == thread_groups_spec(threads@),
{
    let mut groups: Vec<Vec<u32>> = Vec::new();
    let mut i: usize = 0;
    while i < threads.len()
        invariant
            i <= threads@.len(),
            groups_view(groups@) == thread_groups_spec(threads@.take(i as int)),
        decreases threads@.len() - i,
    {
        assert(threads@.take(i + 1).drop_last() =~= threads@.take(i as int));
        let mut group: Vec<u32> = Vec::new();
        collect_thread(&threads[i], &mut group);
        assert(group@ =~= thread_uids(threads@[i as int]));
        if group.len() > 0 {
            let ghost before = groups@;
            groups.push(group);
            assert(groups_view(groups@) =~= groups_view(before).push(thread_uids(threads@[i as int])));
        }
        i += 1;
    }
    assert(threads@.take(i as int) =~= threads@);
    groups
}

/// How a threaded listing goes on once the server was asked for threads.
#[derive(Debug, Clone, PartialEq, Eq)]
pub enum ThreadedListing {
    /// The server cannot THREAD: list the folder plainly.
    Plain,
    /// The THREAD answer names no message: the listing is empty.
    Empty,
    /// Fetch these UIDs and list them in this order.
    Fetch(Vec<u32>),
}

/// The next step of a threaded listing, from the THREAD answer's UIDs
/// (`None` when the server does not support THREAD).
pub fn threaded_listing(thread: Option<Vec<u32>>) -> (r: ThreadedListing)
    ensures
        match thread {
            None => r == ThreadedListing::Plain,
            Some(uids) => if uids@.len() == 0 {
                r == ThreadedListing::Empty
            } else {
                r == ThreadedListing::Fetch(uids)
            },
        },
{
    match thread {
        None => ThreadedListing::Plain,
        Some(uids) => if uids.len() == 0 {
            ThreadedListing::Empty
        } else {
            ThreadedListing::Fetch(uids)
        },
    }
}

fn copy_uids(v: &Vec<u32>) -> (r: Vec<u32>)
    ensures
        r@ == v@,
{
    let mut r: Vec<u32> = Vec::new();
    let mut i: usize = 0;
    while i < v.len()
        invariant
            i <= v@.len(),
            r@ == v@.take(i as int),
        decreases v@.len() - i,
    {
        r.push(v[i]);
        i += 1;
        assert(r@ =~= v@.take(i as int));
    }
    assert(v@.take(i as int) =~= v@);
    r
}

/// A threaded listing once the server was asked for threads (`thread` is
/// the flattened THREAD answer, `None` when the server cannot THREAD):
/// without THREAD it is exactly the plain listing `plain` gives; an empty
/// answer gives an empty listing; otherwise the envelopes `fetch` returns for
/// the answer's UIDs, in the answer's order (UIDs it does not name last).
/// A failure of either listing is the failure.
pub fn list_threaded<P, F>(thread: Option<Vec<u32>>, plain: P, fetch: F) -> (r: MailResult<Vec<Envelope>>)
    where
        P: Fn() -> MailResult<Vec<Envelope>>,
        F: Fn(Vec<u32>) -> MailResult<Vec<Envelope>>,
    requires
        thread is None ==> call_requires(plain, ()),
        forall|uids: Vec<u32>| call_requires(fetch, (uids,)),
    ensures
        thread is None ==> call_ensures(plain, (), r),
        thread is Some && thread->0@.len() == 0 ==> (r matches Ok(v) && v@.len() == 0),
        thread is Some && thread->0@.len() > 0 && r is Err ==> call_ensures(fetch, (thread->0,), r),
        thread is Some && thread->0@.len() > 0 && r is Ok ==> exists|fetched: Vec<Envelope>, idx: Seq<int>|
            call_ensures(fetch, (thread->0,), Ok::<Vec<Envelope>, MailError>(fetched))
                && #[trigger] stable_ranking(ListingOrder::Requested, thread->0@, fetched@, r->Ok_0@, idx),
{
    let ghost asked = thread;
    match threaded_listing(thread) {
        ThreadedListing::Plain => {
            let listed = plain();
            assert(asked is None);
            assert(call_ensures(plain, (), listed));
            listed
        },
        ThreadedListing::Empty => {
            assert(asked is Some);
            Ok(Vec::new())
        },
        ThreadedListing::Fetch(uids) => {
            assert(asked is Some);
            let order = copy_uids(&uids);
            let ghost u = uids;
            let fetched_result = fetch(uids);
            match fetched_result {
                Ok(fetched) => {
                    let ghost f = fetched;
                    let listed = in_requested_order(fetched, order.as_slice());
                    let ghost idx = choose|idx: Seq<int>| stable_ranking(ListingOrder::Requested, order@, f@, listed@, idx);
                    assert(call_ensures(fetch, (u,), Ok::<Vec<Envelope>, MailError>(f))
                        && stable_ranking(ListingOrder::Requested, u@, f@, listed@, idx));
                    assert(asked->0 == u);
                    let r: MailResult<Vec<Envelope>> = Ok(listed);
                    assert(r->Ok_0 == listed);
                    assert(stable_ranking(ListingOrder::Requested, asked->0@, f@, r->Ok_0@, idx));
                    assert(exists|fetched: Vec<Envelope>, i: Seq<int>|
                        call_ensures(fetch, (asked->0,), Ok::<Vec<Envelope>, MailError>(fetched))
                            && #[trigger] stable_ranking(ListingOrder::Requested, asked->0@, fetched@, r->Ok_0@, i));
                    r
                },
                Err(e) => {
                    assert(call_ensures(fetch, (u,), fetched_result));
                    Err(e)
                },
            }
        },
    }
}

} // verus!
