//! Server capabilities, transport security settings, and reading a refusal.
use vstd::prelude::*;
use crate::text::strings_view;

use crate::text::{
    chars_of, contains, contains_chars, eq_chars, eq_ci, eq_ci_chars, lower_chars, lower_seq,
    string_of, trim, trim_chars,
};

verus! {

/// Capabilities advertised by the server, decoded into the flags this client
/// branches on.
#[derive(Debug, Clone, PartialEq, Eq)]
pub struct Capabilities {
    pub names: Vec<String>,
    pub imap4rev1: bool,
    pub idle: bool,
    pub move_: bool,
    pub uidplus: bool,
    pub qresync: bool,
    pub condstore: bool,
    pub special_use: bool,
    pub sort: bool,
    pub thread: bool,
    pub utf8_accept: bool,
    pub compress_deflate: bool,
    pub auth_plain: bool,
    pub auth_xoauth2: bool,
}

/// The list names `capability`, ASCII case-insensitively.
pub open spec fn advertises(names: Seq<Seq<char>>, capability: Seq<char>) -> bool {
    exists|i: int| 0 <= i < names.len() && eq_ci(#[trigger] names[i], capability)
}

pub open spec fn strs_view(v: Seq<&str>) -> Seq<Seq<char>> {
    v.map_values(|s: &str| s@)
}

/// The flags match what the names advertise.
pub open spec fn flags_match(c: Capabilities, names: Seq<Seq<char>>) -> bool {
    &&& c.imap4rev1 == advertises(names, "IMAP4rev1"@)
    &&& c.idle == advertises(names, "IDLE"@)
    &&& c.move_ == advertises(names, "MOVE"@)
    &&& c.uidplus == advertises(names, "UIDPLUS"@)
    &&& c.qresync == advertises(names, "QRESYNC"@)
    &&& c.condstore == advertises(names, "CONDSTORE"@)
    &&& c.special_use == (advertises(names, "SPECIAL-USE"@) || advertises(names, "SPECIAL-USE=EXTENDED"@))
    &&& c.sort == advertises(names, "SORT"@)
    &&& c.thread == advertises(names, "THREAD"@)
    &&& c.utf8_accept == advertises(names, "UTF8=ACCEPT"@)
    &&& c.compress_deflate == advertises(names, "COMPRESS=DEFLATE"@)
    &&& c.auth_plain == advertises(names, "AUTH=PLAIN"@)
    &&& c.auth_xoauth2 == advertises(names, "AUTH=XOAUTH2"@)
}

fn has(names: &Vec<String>, capability: &str) -> (r: bool)
    ensures
        r == advertises(strings_view(names@), capability@),
{
    let wanted = chars_of(capability);
    let mut i: usize = 0;
    while i < names.len()
        invariant
            i <= names@.len(),
            wanted@ == capability@,
            forall|k: int| 0 <= k < i ==> !eq_ci(#[trigger] strings_view(names@)[k], capability@),
        decreases names@.len() - i,
    {
        let n = chars_of(names[i].as_str());
        if eq_ci_chars(n.as_slice(), wanted.as_slice()) {
            assert(eq_ci(strings_view(names@)[i as int], capability@));
            return true;
        }
        i += 1;
    }
    false
}

impl Capabilities {
    /// Decode a capability list.
    pub fn from_names(names: &[&str]) -> (r: Self)
        ensures
            strings_view(r.names@) == strs_view(names@),
            flags_match(r, strs_view(names@)),
    {
        let mut owned: Vec<String> = Vec::new();
        let mut i: usize = 0;
        while i < names.len()
            invariant
                i <= names@.len(),
                strings_view(owned@) == strs_view(names@.take(i as int)),
            decreases names@.len() - i,
        {
            let s = string_of(chars_of(names[i]).as_slice());
            let ghost before = owned@;
            owned.push(s);
            assert(strings_view(owned@) =~= strings_view(before).push(names@[i as int]@));
            assert(strs_view(names@.take(i + 1)) =~= strs_view(names@.take(i as int)).push(names@[i as int]@));
            i += 1;
        }
        assert(names@.take(i as int) =~= names@);
        Capabilities {
            imap4rev1: has(&owned, "IMAP4rev1"),
            idle: has(&owned, "IDLE"),
            move_: has(&owned, "MOVE"),
            uidplus: has(&owned, "UIDPLUS"),
            qresync: has(&owned, "QRESYNC"),
            condstore: has(&owned, "CONDSTORE"),
            special_use: has(&owned, "SPECIAL-USE") || has(&owned, "SPECIAL-USE=EXTENDED"),
            sort: has(&owned, "SORT"),
            thread: has(&owned, "THREAD"),
            utf8_accept: has(&owned, "UTF8=ACCEPT"),
            compress_deflate: has(&owned, "COMPRESS=DEFLATE"),
            auth_plain: has(&owned, "AUTH=PLAIN"),
            auth_xoauth2: has(&owned, "AUTH=XOAUTH2"),
            names: owned,
        }
    }

    /// The server advertises `capability`, compared ASCII case-insensitively.
    pub fn supports(&self, capability: &str) -> (r: bool)
        ensures
            r == advertises(strings_view(self.names@), capability@),
    {
        has(&self.names, capability)
    }
}

/// How the client secures a connection.
#[derive(Debug, Clone, Copy, PartialEq, Eq, Structural)]
pub enum Security {
    Tls,
    StartTls,
    Plain,
}

/// The security a configured value selects: `starttls`, or `plain`/`none`
/// for no encryption, read trimmed and in ASCII lowercase; anything else,
/// including aliases such as `ssl` and `imaps`, is implicit TLS.
pub open spec fn security_of(value: Seq<char>) -> Security {
    let v = lower_seq(trim(value));
    if v == "starttls"@ {
        Security::StartTls
    } else if v == "plain"@ || v == "none"@ {
        Security::Plain
    } else {
        Security::Tls
    }
}

impl Security {
    /// The security a configured value selects, `default` when unset.
    pub fn normalize(value: Option<&str>, default: &str) -> (r: Self)
        ensures
            r == security_of(match value {
                Some(v) => v@,
                None => default@,
            }),
    {
        let raw = match value {
            Some(v) => v,
            None => default,
        };
        let cs = chars_of(raw);
        let t = trim_chars(cs.as_slice());
        let v = lower_chars(t.as_slice());
        if eq_chars(v.as_slice(), chars_of("starttls").as_slice()) {
            Security::StartTls
        } else if eq_chars(v.as_slice(), chars_of("plain").as_slice()) || eq_chars(
            v.as_slice(),
            chars_of("none").as_slice(),
        ) {
            Security::Plain
        } else {
            Security::Tls
        }
    }
}

/// A refusal reads like a rejected credential: in ASCII lowercase it mentions
/// `auth`, `login failed`, `invalid credentials`, `username and password`, or
/// the SMTP code `535`.
pub open spec fn auth_failure_text(detail: Seq<char>) -> bool {
    let l = lower_seq(detail);
    contains(l, "auth"@) || contains(l, "login failed"@) || contains(l, "invalid credentials"@)
        || contains(l, "username and password"@) || contains(l, "535"@)
}

/// Whether a server refusal reads like a rejected credential rather than a
/// protocol error, so the app can ask for a new password instead of retrying.
pub fn looks_like_auth_failure(detail: &str) -> (r: bool)
    ensures
        r == auth_failure_text(detail@),
{
    let cs = chars_of(detail);
    let l = lower_chars(cs.as_slice());
    let ls = l.as_slice();
    contains_chars(ls, chars_of("auth").as_slice()) || contains_chars(ls, chars_of("login failed").as_slice())
        || contains_chars(ls, chars_of("invalid credentials").as_slice()) || contains_chars(
        ls,
        chars_of("username and password").as_slice(),
    ) || contains_chars(ls, chars_of("535").as_slice())
}

} // verus!
