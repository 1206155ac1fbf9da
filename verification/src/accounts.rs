//! Stored accounts: which can be routed, in which order they are offered,
//! which one serves a request, and where its Sieve server is.
use vstd::prelude::*;
use crate::text::opt_str_view;
use vstd::relations::sorted_by;

use crate::errors::MailError;
use crate::errors::MailErrorKind;
use crate::errors::MailResult;
use crate::text::chars_of;
use crate::text::eq_ci;
use crate::text::eq_ignore_ascii_case;
use crate::text::eq_chars;
use crate::text::str_eq;
use crate::text::lex_lt;
use crate::text::lex_less;
use crate::text::lemma_lex_lt_irreflexive;
use crate::text::lemma_lex_lt_transitive;
use crate::text::lemma_lex_lt_total;
use crate::text::string_of;
use crate::text::push_all;
use crate::text::is_digit;
use crate::text::digits_value;
use crate::text::parse_u32_digits;
use crate::text::slice_range;
use crate::sieve::SieveSecurity;
use crate::sieve::SieveConfig;

verus! {

broadcast use vstd::seq_lib::to_multiset_build, vstd::seq_lib::to_multiset_insert;

/// One configured account as the account store keeps it.
#[derive(Debug, Clone)]
pub struct AccountRecord {
    pub name: String,
    pub backend_kind: String,
    pub provider_kind: String,
    pub enabled: bool,
    pub is_default: bool,
    pub maildir_path: Option<String>,
    pub imap_host: Option<String>,
    pub imap_port: Option<u16>,
    pub imap_security: Option<String>,
    pub smtp_host: Option<String>,
    pub smtp_port: Option<u16>,
    pub smtp_security: Option<String>,
    pub sieve_host: Option<String>,
    pub sieve_port: Option<u16>,
    pub sieve_security: Option<String>,
    pub auth_mode: Option<String>,
    pub username: Option<String>,
    pub keyring_imap_secret_id: Option<String>,
    pub keyring_smtp_secret_id: Option<String>,
}

/// The record is served by the local maildir backend.
pub open spec fn maildir_backend(r: AccountRecord) -> bool {
    eq_ci(r.backend_kind@, seq!['m', 'a', 'i', 'l', 'd', 'i', 'r'])
}

/// The record is served by the IMAP/SMTP backend.
pub open spec fn imap_backend(r: AccountRecord) -> bool {
    eq_ci(r.backend_kind@, seq!['i', 'm', 'a', 'p'])
}

/// The router can serve the record: it is enabled and its backend is one
/// that the router knows.
pub open spec fn routable(r: AccountRecord) -> bool {
    r.enabled && (maildir_backend(r) || imap_backend(r))
}

impl AccountRecord {
    /// Whether the account lives in a local maildir.
    pub fn is_maildir(&self) -> (r: bool)
        ensures
            r == maildir_backend(*self),
    {
        let word = chars_of("maildir");
        proof {
            reveal_strlit("maildir");
            assert(word@ =~= seq!['m', 'a', 'i', 'l', 'd', 'i', 'r']);
        }
        let kind = chars_of(self.backend_kind.as_str());
        crate::text::eq_ci_chars(kind.as_slice(), word.as_slice())
    }

    /// Whether the account uses the IMAP/SMTP backend.
    pub fn is_imap(&self) -> (r: bool)
        ensures
            r == imap_backend(*self),
    {
        let word = chars_of("imap");
        proof {
            reveal_strlit("imap");
            assert(word@ =~= seq!['i', 'm', 'a', 'p']);
        }
        let kind = chars_of(self.backend_kind.as_str());
        crate::text::eq_ci_chars(kind.as_slice(), word.as_slice())
    }

    /// Whether the router can serve this account.
    pub fn is_routable(&self) -> (r: bool)
        ensures
            r == routable(*self),
    {
        self.enabled && (self.is_maildir() || self.is_imap())
    }
}

/// `a` is offered before `b`: the default account first, then remote
/// accounts before maildir ones, then by name.
pub open spec fn record_lt(a: AccountRecord, b: AccountRecord) -> bool {
    if a.is_default != b.is_default {
        a.is_default
    } else if maildir_backend(a) != maildir_backend(b) {
        !maildir_backend(a)
    } else {
        lex_lt(a.name@, b.name@)
    }
}

/// No record of `s` is offered before one that precedes it in `s`.
pub open spec fn record_le(a: AccountRecord, b: AccountRecord) -> bool {
    !record_lt(b, a)
}

proof fn lemma_record_lt_irreflexive(a: AccountRecord)
    ensures
        !record_lt(a, a),
{
    lemma_lex_lt_irreflexive(a.name@);
}

proof fn lemma_record_lt_transitive(a: AccountRecord, b: AccountRecord, c: AccountRecord)
    requires
        record_lt(a, b),
        record_lt(b, c),
    ensures
        record_lt(a, c),
{
    if a.is_default == b.is_default && b.is_default == c.is_default
        && maildir_backend(a) == maildir_backend(b) && maildir_backend(b) == maildir_backend(c) {
        lemma_lex_lt_transitive(a.name@, b.name@, c.name@);
    }
}

proof fn lemma_record_lt_split(a: AccountRecord, b: AccountRecord, c: AccountRecord)
    requires
        record_lt(a, c),
    ensures
        record_lt(a, b) || record_lt(b, c),
{
    lemma_lex_lt_total(a.name@, b.name@);
    if lex_lt(b.name@, a.name@) && lex_lt(a.name@, c.name@) {
        lemma_lex_lt_transitive(b.name@, a.name@, c.name@);
    }
}

/// Whether `a` is offered before `b`.
pub fn record_precedes(a: &AccountRecord, b: &AccountRecord) -> (r: bool)
    ensures
        r == record_lt(*a, *b),
{
    if a.is_default != b.is_default {
        return a.is_default;
    }
    let am = a.is_maildir();
    let bm = b.is_maildir();
    if am != bm {
        return !am;
    }
    let an = chars_of(a.name.as_str());
    let bn = chars_of(b.name.as_str());
    lex_less(an.as_slice(), bn.as_slice())
}

/// `s` holds the records of `orig` in the places that `idx` names, each
/// once, and records that tie (neither is offered before the other) in the
/// order they have in `orig`.
pub open spec fn stable_order(orig: Seq<AccountRecord>, s: Seq<AccountRecord>, idx: Seq<int>) -> bool {
    &&& idx.len() == s.len()
    &&& forall|m: int| 0 <= m < s.len() ==> 0 <= #[trigger] idx[m] < orig.len() && s[m] == orig[idx[m]]
    &&& forall|m: int, n: int| 0 <= m < n < s.len() ==> #[trigger] idx[m] != #[trigger] idx[n]
    &&& forall|m: int, n: int| 0 <= m < n < s.len() && !record_lt(#[trigger] s[m], #[trigger] s[n]) && !record_lt(s[n], s[m]) ==> idx[m] < idx[n]
}

proof fn lemma_insert_stable(orig: Seq<AccountRecord>, before: Seq<AccountRecord>, idx: Seq<int>, p: int, k: int)
    requires
        0 <= k < orig.len(),
        stable_order(orig.take(k), before, idx),
        forall|i: int, j: int| 0 <= i < j < before.len() ==> !record_lt(#[trigger] before[j], #[trigger] before[i]),
        0 <= p <= before.len(),
        p < before.len() ==> record_lt(orig[k], before[p]),
    ensures
        stable_order(orig.take(k + 1), before.insert(p, orig[k]), idx.insert(p, k)),
{
    let x = orig[k];
    let out = before.insert(p, x);
    let id2 = idx.insert(p, k);
    assert forall|m: int| 0 <= m < out.len() implies 0 <= #[trigger] id2[m] < orig.take(k + 1).len() && out[m] == orig.take(k + 1)[id2[m]] by {
        if m < p {
            assert(out[m] == before[m]);
            assert(id2[m] == idx[m]);
        } else if m == p {
        } else {
            assert(out[m] == before[m - 1]);
            assert(id2[m] == idx[m - 1]);
        }
    }
    assert forall|m: int, n: int| 0 <= m < n < out.len() implies #[trigger] id2[m] != #[trigger] id2[n] by {
        if n < p {
        } else if n == p {
            assert(id2[m] == idx[m]);
        } else if m < p {
            assert(id2[n] == idx[n - 1]);
        } else if m == p {
            assert(id2[n] == idx[n - 1]);
        } else {
            assert(id2[n] == idx[n - 1]);
            assert(id2[m] == idx[m - 1]);
        }
    }
    assert forall|m: int, n: int| 0 <= m < n < out.len() && !record_lt(#[trigger] out[m], #[trigger] out[n]) && !record_lt(out[n], out[m]) implies id2[m] < id2[n] by {
        if n < p {
        } else if n == p {
            assert(id2[m] == idx[m]);
        } else if m < p {
            assert(id2[n] == idx[n - 1]);
            assert(out[n] == before[n - 1]);
            assert(out[m] == before[m]);
        } else if m == p {
            assert(out[n] == before[n - 1]);
            lemma_record_lt_split(x, before[n - 1], before[p]);
            if n - 1 == p {
                lemma_record_lt_irreflexive(before[p]);
            }
        } else {
            assert(id2[n] == idx[n - 1]);
            assert(id2[m] == idx[m - 1]);
            assert(out[n] == before[n - 1]);
            assert(out[m] == before[m - 1]);
        }
    }
}

/// Put accounts in the order in which they are offered: the default account
/// first, remote accounts before maildir ones, then by name. Accounts that
/// tie keep their relative order.
pub fn sort_account_records(accounts: &mut Vec<AccountRecord>)
    ensures
        final(accounts)@.to_multiset() == old(accounts)@.to_multiset(),
        sorted_by(final(accounts)@, |x: AccountRecord, y: AccountRecord| record_le(x, y)),
        exists|idx: Seq<int>| stable_order(old(accounts)@, final(accounts)@, idx),
{
    let ghost orig = accounts@;
    let mut src: Vec<AccountRecord> = Vec::new();
    std::mem::swap(accounts, &mut src);
    let mut out: Vec<AccountRecord> = Vec::new();
    let ghost mut k: int = 0;
    let ghost mut idx: Seq<int> = seq![];
    assert(orig.take(0) =~= Seq::<AccountRecord>::empty());
    assert(orig.skip(0) =~= orig);
    while src.len() > 0
        invariant
            0 <= k <= orig.len(),
            src@ == orig.skip(k),
            out@.to_multiset() == orig.take(k).to_multiset(),
            forall|i: int, j: int| 0 <= i < j < out@.len() ==> !record_lt(#[trigger] out@[j], #[trigger] out@[i]),
            stable_order(orig.take(k), out@, idx),
        decreases src.len(),
    {
        let x = src.remove(0);
        let mut p: usize = 0;
        while p < out.len() && !record_precedes(&x, &out[p])
            invariant
                p <= out.len(),
                forall|i: int| 0 <= i < p ==> !record_lt(x, #[trigger] out@[i]),
            decreases out.len() - p,
        {
            p = p + 1;
        }
        proof {
            if p < out.len() {
                assert(record_lt(x, out@[p as int]));
                assert forall|j: int| p <= j < out@.len() implies !record_lt(#[trigger] out@[j], x) by {
                    if record_lt(out@[j], x) {
                        lemma_record_lt_transitive(out@[j], x, out@[p as int]);
                        if j == p {
                            lemma_record_lt_irreflexive(out@[j]);
                        }
                    }
                }
            }
        }
        let ghost before = out@;
        out.insert(p, x);
        proof {
            assert(x == orig[k]);
            lemma_insert_stable(orig, before, idx, p as int, k);
            idx = idx.insert(p as int, k);
            assert(orig.take(k + 1) =~= orig.take(k).push(orig[k]));
            assert(orig.skip(k + 1) =~= orig.skip(k).drop_first());
            assert(out@ =~= before.insert(p as int, x));
            assert forall|i: int, j: int| 0 <= i < j < out@.len() implies !record_lt(#[trigger] out@[j], #[trigger] out@[i]) by {
                if j < p {
                } else if j == p {
                } else if i < p {
                    assert(out@[j] == before[j - 1]);
                } else if i == p {
                    assert(out@[j] == before[j - 1]);
                } else {
                    assert(out@[j] == before[j - 1]);
                    assert(out@[i] == before[i - 1]);
                }
            }
            k = k + 1;
        }
    }
    assert(orig.take(k) =~= orig);
    assert forall|i: int, j: int| 0 <= i < j < out@.len() implies
        (|x: AccountRecord, y: AccountRecord| record_le(x, y))(out@[i], out@[j]) by {
        assert(!record_lt(out@[j], out@[i]));
    }
    assert(stable_order(orig, out@, idx));
    std::mem::swap(accounts, &mut out);
}

// ---------------------------------------------------------------------------
// Choosing and routing an account.
// ---------------------------------------------------------------------------
/// The record that serves requests without a named account: the routable
/// record that is offered first, the earliest of those that tie.
pub open spec fn is_chosen(records: Seq<AccountRecord>, k: int) -> bool {
    &&& 0 <= k < records.len()
    &&& routable(records[k])
    &&& forall|j: int| 0 <= j < records.len() && routable(#[trigger] records[j]) ==> record_le(records[k], records[j])
    &&& forall|j: int| 0 <= j < k && routable(#[trigger] records[j]) ==> record_lt(records[k], records[j])
}

/// Some record can be routed.
pub open spec fn any_routable(records: Seq<AccountRecord>) -> bool {
    exists|j: int| 0 <= j < records.len() && routable(#[trigger] records[j])
}

/// The first record named `name`, if any.
pub open spec fn is_first_named(records: Seq<AccountRecord>, name: Seq<char>, k: int) -> bool {
    &&& 0 <= k < records.len()
    &&& records[k].name@ == name
    &&& forall|j: int| 0 <= j < k ==> (#[trigger] records[j]).name@ != name
}

/// A service bound to the account `record` serves a request for `account`
/// only when the names are equal; otherwise the account is not found.
pub fn ensure_account(record: &AccountRecord, account: &str) -> (r: MailResult<()>)
    ensures
        record.name@ == account@ ==> r is Ok,
        record.name@ != account@ ==> (r matches Err(e) && e.kind == MailErrorKind::AccountNotFound
            && e.message@ == account@),
{
    if str_eq(record.name.as_str(), account) {
        Ok(())
    } else {
        Err(MailError::account_not_found(account))
    }
}

/// The user name an account logs in with; an account without one is
/// misconfigured.
pub fn account_username(record: &AccountRecord) -> (r: MailResult<String>)
    ensures
        match record.username {
            Some(u) => r matches Ok(s) && s@ == u@,
            None => r matches Err(e) && e.kind == MailErrorKind::ConfigInvalid
                && e.message@ == "account username is missing"@,
        },
{
    match &record.username {
        Some(u) => Ok(u.clone()),
        None => Err(MailError::config_invalid("account username is missing")),
    }
}

/// A request that names no account is served by any service; one that names
/// an account must name the service's own.
pub fn ensure_requested_account(record: &AccountRecord, account: Option<&str>) -> (r: MailResult<()>)
    ensures
        match account {
            None => r is Ok,
            Some(name) => if record.name@ == name@ {
                r is Ok
            } else {
                r matches Err(e) && e.kind == MailErrorKind::AccountNotFound && e.message@ == name@
            },
        },
{
    match account {
        Some(name) => ensure_account(record, name),
        None => Ok(()),
    }
}

/// The account that serves a request among the stored `records`: the one
/// named `account`, which must be routable, or else the routable account
/// that is offered first.
pub fn choose_account(records: Vec<AccountRecord>, account: Option<&str>) -> (r: MailResult<AccountRecord>)
    ensures
        match account {
            Some(name) => match r {
                Ok(rec) => exists|k: int| is_first_named(records@, name@, k) && records@[k] == rec && routable(rec),
                Err(e) => e.kind == MailErrorKind::AccountNotFound && e.message@ == name@
                    && (forall|k: int| is_first_named(records@, name@, k) ==> !routable(#[trigger] records@[k])),
            },
            None => match r {
                Ok(rec) => exists|k: int| is_chosen(records@, k) && records@[k] == rec,
                Err(e) => e.kind == MailErrorKind::AccountNotFound && e.message@ == "no configured account"@
                    && !any_routable(records@),
            },
        },
{
    let mut pool = records;
    let ghost orig = pool@;
    match account {
        Some(name) => {
            let mut i: usize = 0;
            while i < pool.len()
                invariant
                    pool@ == orig,
                    records@ == orig,
                    account == Some(name),
                    i <= orig.len(),
                    forall|j: int| 0 <= j < i ==> (#[trigger] orig[j]).name@ != name@,
                decreases orig.len() - i,
            {
                if str_eq(pool[i].name.as_str(), name) {
                    if pool[i].is_routable() {
                        let rec = pool.remove(i);
                        assert(is_first_named(orig, name@, i as int));
                        assert(orig[i as int] == rec);
                        assert(exists|k: int| is_first_named(orig, name@, k) && orig[k] == rec && routable(rec));
                        return Ok(rec);
                    }
                    let e = MailError::account_not_found(name);
                    assert forall|k: int| is_first_named(orig, name@, k) implies !routable(#[trigger] orig[k]) by {
                        if k != i {
                            if k < i {
                            } else {
                                assert(orig[i as int].name@ == name@);
                            }
                        }
                    }
                    return Err(e);
                }
                i += 1;
            }
            Err(MailError::account_not_found(name))
        },
        None => {
            let mut best: usize = 0;
            let mut found = false;
            let mut i: usize = 0;
            while i < pool.len()
                invariant
                    pool@ == orig,
                    records@ == orig,
                    i <= orig.len(),
                    found ==> best < i,
                    found ==> routable(orig[best as int]),
                    found ==> forall|j: int| 0 <= j < i && routable(#[trigger] orig[j]) ==> record_le(orig[best as int], orig[j]),
                    found ==> forall|j: int| 0 <= j < best && routable(#[trigger] orig[j]) ==> record_lt(orig[best as int], orig[j]),
                    !found ==> forall|j: int| 0 <= j < i ==> !routable(#[trigger] orig[j]),
                decreases orig.len() - i,
            {
                if pool[i].is_routable() {
                    if !found || record_precedes(&pool[i], &pool[best]) {
                        proof {
                            if found {
                                assert forall|j: int| 0 <= j < i && routable(#[trigger] orig[j]) implies record_le(orig[i as int], orig[j]) by {
                                    if record_lt(orig[j], orig[i as int]) {
                                        assert(record_le(orig[best as int], orig[j]));
                                        lemma_record_lt_transitive(orig[j], orig[i as int], orig[best as int]);
                                        if j == best as int {
                                            lemma_record_lt_irreflexive(orig[j]);
                                        }
                                    }
                                }
                                assert forall|j: int| 0 <= j < i && routable(#[trigger] orig[j]) implies record_lt(orig[i as int], orig[j]) by {
                                    if !record_lt(orig[i as int], orig[j]) {
                                        assert(record_le(orig[best as int], orig[j]));
                                        lemma_record_lt_split(orig[i as int], orig[j], orig[best as int]);
                                    }
                                }
                            }
                            lemma_record_lt_irreflexive(orig[i as int]);
                        }
                        best = i;
                        found = true;
                    } else {
                        proof {
                            lemma_record_lt_irreflexive(orig[best as int]);
                        }
                    }
                }
                i += 1;
            }
            if found {
                let rec = pool.remove(best);
                assert(is_chosen(orig, best as int));
                Ok(rec)
            } else {
                let e = MailError::account_not_found("no configured account");
                Err(e)
            }
        },
    }
}

/// `a`, `b` and `c` written one after another.
pub fn concat3(a: &str, b: &str, c: &str) -> (r: String)
    ensures
        r@ == a@ + b@ + c@,
{
    let mut out = chars_of(a);
    let bs = chars_of(b);
    let cs = chars_of(c);
    push_all(&mut out, bs.as_slice());
    push_all(&mut out, cs.as_slice());
    string_of(out.as_slice())
}

/// Where the requests for an account go.
#[derive(Debug, Clone)]
pub enum Route {
    /// The local maildir at `path`.
    Maildir { name: String, path: String, is_default: bool },
    /// The IMAP/SMTP backend.
    Remote,
}

/// The backend that serves `record`.
pub fn route_of(record: &AccountRecord) -> (r: MailResult<Route>)
    ensures
        maildir_backend(*record) ==> match record.maildir_path {
            Some(p) => r matches Ok(Route::Maildir { name, path, is_default })
                && name@ == record.name@ && path@ == p@ && is_default == record.is_default,
            None => r matches Err(e) && e.kind == MailErrorKind::ConfigInvalid
                && e.message@ == "account "@ + record.name@ + " is missing a maildir path"@,
        },
        !maildir_backend(*record) && imap_backend(*record) ==> r matches Ok(Route::Remote),
        !maildir_backend(*record) && !imap_backend(*record) ==> (r matches Err(e)
            && e.kind == MailErrorKind::UnsupportedFeature
            && e.message@ == "unsupported backend kind: "@ + record.backend_kind@),
{
    if record.is_maildir() {
        match &record.maildir_path {
            Some(p) => Ok(Route::Maildir { name: record.name.clone(), path: p.clone(), is_default: record.is_default }),
            None => {
                let m = concat3("account ", record.name.as_str(), " is missing a maildir path");
                Err(MailError::new(MailErrorKind::ConfigInvalid, m))
            },
        }
    } else if record.is_imap() {
        Ok(Route::Remote)
    } else {
        let m = concat3("unsupported backend kind: ", record.backend_kind.as_str(), "");
        proof {
            reveal_strlit("");
            assert(m@ =~= "unsupported backend kind: "@ + record.backend_kind@);
        }
        Err(MailError::new(MailErrorKind::UnsupportedFeature, m))
    }
}

// ---------------------------------------------------------------------------
// The Sieve server of an account.
// ---------------------------------------------------------------------------
/// The port ManageSieve listens on by default (RFC 5804).
pub const DEFAULT_SIEVE_PORT: u16 = 4190;

/// The value of a port number written in decimal (`str::parse::<u16>`): an
/// optional `+`, then one or more ASCII digits, at most 65535.
pub open spec fn port_value(s: Seq<char>) -> Option<nat> {
    port_digits(if s.len() > 0 && s[0] == '+' { s.drop_first() } else { s })
}

/// The port number a run of digits spells, if it is one.
pub open spec fn port_digits(digits: Seq<char>) -> Option<nat> {
    if digits.len() > 0 && (forall|k: int| 0 <= k < digits.len() ==> is_digit(#[trigger] digits[k]))
        && digits_value(digits) <= u16::MAX {
        Some(digits_value(digits))
    } else {
        None
    }
}

/// Parse a port number.
pub fn parse_port(s: &str) -> (r: Option<u16>)
    ensures
        match r {
            Some(p) => port_value(s@) == Some(p as nat),
            None => port_value(s@) is None,
        },
{
    let cs = chars_of(s);
    let start: usize = if cs.len() > 0 && cs[0] == '+' { 1 } else { 0 };
    let digits = slice_range(cs.as_slice(), start, cs.len());
    proof {
        if cs@.len() > 0 && cs@[0] == '+' {
            assert(digits@ =~= cs@.drop_first());
        } else {
            assert(digits@ =~= cs@);
        }
    }
    assert(port_value(s@) == port_digits(digits@));
    let mut k: usize = 0;
    while k < digits.len()
        invariant
            k <= digits@.len(),
            port_value(s@) == port_digits(digits@),
            forall|j: int| 0 <= j < k ==> is_digit(#[trigger] digits@[j]),
        decreases digits@.len() - k,
    {
        if !('0' <= digits[k] && digits[k] <= '9') {
            assert(!is_digit(digits@[k as int]));
            return None;
        }
        k += 1;
    }
    match parse_u32_digits(digits.as_slice()) {
        Some(v) => if v <= 65535 {
            Some(v as u16)
        } else {
            None
        },
        None => None,
    }
}

/// The text is `word` in any letter case.
fn is_word(value: &String, word: &str) -> (r: bool)
    ensures
        r == eq_ci(value@, word@),
{
    eq_ignore_ascii_case(value.as_str(), word)
}

/// The connection security for an account's Sieve server: an explicit
/// setting wins (`tls`, `plain`, anything else STARTTLS); without one,
/// STARTTLS, unless the IMAP connection itself is plaintext.
pub open spec fn sieve_security_of(r: AccountRecord) -> SieveSecurity {
    match r.sieve_security {
        Some(v) => if eq_ci(v@, "tls"@) {
            SieveSecurity::Tls
        } else if eq_ci(v@, "plain"@) {
            SieveSecurity::Plain
        } else {
            SieveSecurity::StartTls
        },
        None => match r.imap_security {
            Some(v) => if eq_ci(v@, "plain"@) { SieveSecurity::Plain } else { SieveSecurity::StartTls },
            None => SieveSecurity::StartTls,
        },
    }
}

/// The Sieve port: the account's own setting, else an override given in the
/// environment when it is a port number, else the default port.
pub open spec fn sieve_port_of(r: AccountRecord, port_override: Option<Seq<char>>) -> nat {
    match r.sieve_port {
        Some(p) => p as nat,
        None => match port_override {
            Some(text) => match port_value(text) {
                Some(v) => v,
                None => DEFAULT_SIEVE_PORT as nat,
            },
            None => DEFAULT_SIEVE_PORT as nat,
        },
    }
}

/// The Sieve host: the account's own setting, else its IMAP host.
pub open spec fn sieve_host_of(r: AccountRecord) -> Option<Seq<char>> {
    match r.sieve_host {
        Some(h) => Some(h@),
        None => match r.imap_host {
            Some(h) => Some(h@),
            None => None,
        },
    }
}

/// Host, port and security of an account's Sieve server; `port_override` is
/// the port the environment names, if any.
pub fn resolve_sieve_target(record: &AccountRecord, port_override: Option<&str>) -> (r: MailResult<(String, u16, SieveSecurity)>)
    ensures
        match sieve_host_of(*record) {
            Some(h) => r matches Ok(t) && t.0@ == h && t.1 as nat == sieve_port_of(*record, opt_str_view(port_override))
                && t.2 == sieve_security_of(*record),
            None => r matches Err(e) && e.kind == MailErrorKind::ConfigInvalid && e.message@ == "IMAP host is missing"@,
        },
{
    let host = match &record.sieve_host {
        Some(h) => h.clone(),
        None => match &record.imap_host {
            Some(h) => h.clone(),
            None => {
                return Err(MailError::config_invalid("IMAP host is missing"));
            },
        },
    };
    let port: u16 = match record.sieve_port {
        Some(p) => p,
        None => match port_override {
            Some(text) => match parse_port(text) {
                Some(v) => v,
                None => DEFAULT_SIEVE_PORT,
            },
            None => DEFAULT_SIEVE_PORT,
        },
    };
    let security = match &record.sieve_security {
        Some(v) => if is_word(v, "tls") {
            SieveSecurity::Tls
        } else if is_word(v, "plain") {
            SieveSecurity::Plain
        } else {
            SieveSecurity::StartTls
        },
        None => match &record.imap_security {
            Some(v) => if is_word(v, "plain") { SieveSecurity::Plain } else { SieveSecurity::StartTls },
            None => SieveSecurity::StartTls,
        },
    };
    Ok((host, port, security))
}

/// Everything a Sieve connection needs from the account: where the server
/// is, who logs in, and which keyring secret holds the password.
#[derive(Debug, Clone)]
pub struct SieveSettings {
    pub host: String,
    pub port: u16,
    pub security: SieveSecurity,
    pub username: String,
    pub secret_id: String,
}

/// The Sieve settings of an account, or what is missing from it.
pub fn sieve_settings(record: &AccountRecord, port_override: Option<&str>) -> (r: MailResult<SieveSettings>)
    ensures
        match sieve_host_of(*record) {
            None => r matches Err(e) && e.kind == MailErrorKind::ConfigInvalid && e.message@ == "IMAP host is missing"@,
            Some(h) => match (record.username, record.keyring_imap_secret_id) {
                (Some(u), Some(id)) => r matches Ok(st) && st.host@ == h
                    && st.port as nat == sieve_port_of(*record, opt_str_view(port_override))
                    && st.security == sieve_security_of(*record) && st.username@ == u@ && st.secret_id@ == id@,
                (None, _) => r matches Err(e) && e.kind == MailErrorKind::ConfigInvalid
                    && e.message@ == "account username is missing"@,
                (Some(_), None) => r matches Err(e) && e.kind == MailErrorKind::ConfigInvalid
                    && e.message@ == "IMAP secret reference is missing"@,
            },
        },
{
    let (host, port, security) = match resolve_sieve_target(record, port_override) {
        Ok(t) => t,
        Err(e) => {
            return Err(e);
        },
    };
    let username = match &record.username {
        Some(u) => u.clone(),
        None => {
            return Err(MailError::config_invalid("account username is missing"));
        },
    };
    let secret_id = match &record.keyring_imap_secret_id {
        Some(id) => id.clone(),
        None => {
            return Err(MailError::config_invalid("IMAP secret reference is missing"));
        },
    };
    Ok(SieveSettings { host, port, security, username, secret_id })
}

/// The connection parameters of a Sieve session, once the password is known.
pub fn sieve_config(settings: SieveSettings, password: String) -> (r: SieveConfig)
    ensures
        r.host@ == settings.host@,
        r.port == settings.port,
        r.security == settings.security,
        r.username@ == settings.username@,
        r.password@ == password@,
{
    SieveConfig {
        host: settings.host,
        port: settings.port,
        username: settings.username,
        password,
        security: settings.security,
    }
}

} // verus!
