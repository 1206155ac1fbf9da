//! ManageSieve (RFC 5804): the session state and the protocol decisions of a
//! client — how commands are written, how server lines are read, and what a
//! listing or a fetched script says. The socket itself is driven by the caller.
use vstd::prelude::*;
use crate::text::strings_view;
use vstd::string::StringSliceAdditionalSpecFns;

use crate::encoding::base64_standard;
use crate::encoding::base64_encode;
use crate::text::chars_of;
use crate::text::string_of;
use crate::text::push_all;
use crate::text::eq_ci;
use crate::text::eq_ci_chars;
use crate::text::lower_seq;
use crate::text::contains;
use crate::text::contains_chars;
use crate::text::lower_chars;
use crate::text::first_word;
use crate::text::first_word_chars;
use crate::text::trim_start;
use crate::text::trim;
use crate::text::trim_chars;
use crate::text::is_space;
use crate::text::is_space_char;
use crate::text::is_digit;
use crate::text::digits_value;
use crate::text::parse_u32_digits;
use crate::text::slice_range;

verus! {

/// How the ManageSieve connection is protected.
#[derive(Debug, Clone, Copy, PartialEq, Eq, Structural)]
pub enum SieveSecurity {
    /// TLS from the first byte.
    Tls,
    /// Plaintext greeting followed by STARTTLS (the usual port 4190 case).
    StartTls,
    /// No transport security; for local test servers only.
    Plain,
}

/// Connection parameters for a ManageSieve server.
#[derive(Debug, Clone)]
pub struct SieveConfig {
    pub host: String,
    pub port: u16,
    pub username: String,
    pub password: String,
    pub security: SieveSecurity,
}

/// One server-side script.
#[derive(Debug, Clone, PartialEq, Eq)]
pub struct SieveScript {
    pub name: String,
    pub active: bool,
}

/// The state of a ManageSieve session: the server it talks to and the
/// capability lines the server advertised last.
#[derive(Debug, Clone)]
pub struct SieveClient {
    host: String,
    capabilities: Vec<String>,
}

/// Some capability line mentions `word`, in any letter case.
pub open spec fn advertises_word(lines: Seq<Seq<char>>, word: Seq<char>) -> bool {
    exists|i: int| 0 <= i < lines.len() && contains(lower_seq(#[trigger] lines[i]), lower_seq(word))
}

/// Some capability line mentions both `first` and `second`, in any letter case.
pub open spec fn advertises_both(lines: Seq<Seq<char>>, first: Seq<char>, second: Seq<char>) -> bool {
    exists|i: int|
        0 <= i < lines.len() && contains(lower_seq(#[trigger] lines[i]), lower_seq(first))
            && contains(lower_seq(lines[i]), lower_seq(second))
}

fn line_mentions(line: &String, word: &[char]) -> (r: bool)
    ensures
        r == contains(lower_seq(line@), lower_seq(word@)),
{
    let l = chars_of(line.as_str());
    let ll = lower_chars(l.as_slice());
    let lw = lower_chars(word);
    contains_chars(ll.as_slice(), lw.as_slice())
}

impl SieveClient {
    /// A session with `host` that advertised `capabilities`.
    pub fn new(host: String, capabilities: Vec<String>) -> (r: Self)
        ensures
            r.host_view() == host@,
            r.capability_lines() == strings_view(capabilities@),
    {
        SieveClient { host, capabilities }
    }

    /// The server's host name.
    pub closed spec fn host_view(&self) -> Seq<char> {
        self.host@
    }

    /// The capability lines, as the server advertised them.
    pub closed spec fn capability_lines(&self) -> Seq<Seq<char>> {
        strings_view(self.capabilities@)
    }

    /// The server's host name.
    pub fn host(&self) -> (r: &str)
        ensures
            r@ == self.host_view(),
    {
        self.host.as_str()
    }

    /// Capability lines as advertised by the server.
    pub fn capabilities(&self) -> (r: &[String])
        ensures
            strings_view(r@) == self.capability_lines(),
    {
        self.capabilities.as_slice()
    }

    /// Replace the capabilities, as a new greeting (after STARTTLS) does.
    pub fn set_capabilities(&mut self, capabilities: Vec<String>)
        ensures
            final(self).host_view() == old(self).host_view(),
            final(self).capability_lines() == strings_view(capabilities@),
    {
        self.capabilities = capabilities;
    }

    /// Whether the server advertises STARTTLS.
    pub fn supports_starttls(&self) -> (r: bool)
        ensures
            r == advertises_word(self.capability_lines(), "STARTTLS"@),
    {
        let word = chars_of("STARTTLS");
        let mut i: usize = 0;
        while i < self.capabilities.len()
            invariant
                i <= self.capabilities@.len(),
                word@ == "STARTTLS"@,
                forall|j: int| 0 <= j < i ==> !contains(lower_seq(#[trigger] strings_view(self.capabilities@)[j]), lower_seq(word@)),
            decreases self.capabilities@.len() - i,
        {
            if line_mentions(&self.capabilities[i], word.as_slice()) {
                assert(strings_view(self.capabilities@)[i as int] == self.capabilities@[i as int]@);
                return true;
            }
            i += 1;
        }
        false
    }

    /// Whether the server offers SASL PLAIN, the one mechanism this client uses.
    pub fn supports_sasl_plain(&self) -> (r: bool)
        ensures
            r == advertises_both(self.capability_lines(), "SASL"@, "PLAIN"@),
    {
        let sasl = chars_of("SASL");
        let plain = chars_of("PLAIN");
        let mut i: usize = 0;
        while i < self.capabilities.len()
            invariant
                i <= self.capabilities@.len(),
                sasl@ == "SASL"@,
                plain@ == "PLAIN"@,
                forall|j: int| 0 <= j < i ==> !(contains(lower_seq(#[trigger] strings_view(self.capabilities@)[j]), lower_seq(sasl@))
                    && contains(lower_seq(strings_view(self.capabilities@)[j]), lower_seq(plain@))),
            decreases self.capabilities@.len() - i,
        {
            if line_mentions(&self.capabilities[i], sasl.as_slice())
                && line_mentions(&self.capabilities[i], plain.as_slice()) {
                assert(strings_view(self.capabilities@)[i as int] == self.capabilities@[i as int]@);
                return true;
            }
            i += 1;
        }
        false
    }
}

// ---------------------------------------------------------------------------
// Writing commands.
// ---------------------------------------------------------------------------
/// A character as it stands inside a quoted string.
pub open spec fn escape_char(c: char) -> Seq<char> {
    if c == '\\' || c == '"' {
        seq!['\\', c]
    } else {
        seq![c]
    }
}

/// The characters of `s` with quote and backslash escaped.
pub open spec fn escaped(s: Seq<char>) -> Seq<char>
    decreases s.len(),
{
    if s.len() == 0 {
        seq![]
    } else {
        escaped(s.drop_last()) + escape_char(s.last())
    }
}

/// `s` as a ManageSieve quoted string.
pub open spec fn quoted(s: Seq<char>) -> Seq<char> {
    seq!['"'] + escaped(s) + seq!['"']
}

/// Write `value` as a quoted string.
pub fn quote(value: &str) -> (r: String)
    ensures
        r@ == quoted(value@),
{
    let s = chars_of(value);
    let mut out: Vec<char> = Vec::new();
    out.push('"');
    let mut i: usize = 0;
    while i < s.len()
        invariant
            i <= s@.len(),
            out@ == seq!['"'] + escaped(s@.take(i as int)),
        decreases s@.len() - i,
    {
        let c = s[i];
        assert(s@.take(i + 1).drop_last() =~= s@.take(i as int));
        if c == '\\' || c == '"' {
            out.push('\\');
        }
        out.push(c);
        i += 1;
        assert(out@ =~= seq!['"'] + escaped(s@.take(i as int)));
    }
    assert(s@.take(i as int) =~= s@);
    out.push('"');
    string_of(out.as_slice())
}

/// A command name followed by its arguments, separated by single spaces.
pub open spec fn command_text(name: Seq<char>, args: Seq<Seq<char>>) -> Seq<char>
    decreases args.len(),
{
    if args.len() == 0 {
        name
    } else {
        command_text(name, args.drop_last()) + seq![' '] + args.last()
    }
}

/// The line that sends command `name` with `args`.
pub fn assemble(name: &str, args: &[String]) -> (r: String)
    ensures
        r@ == command_text(name@, strings_view(args@)),
{
    let mut out = chars_of(name);
    let mut i: usize = 0;
    while i < args.len()
        invariant
            i <= args@.len(),
            out@ == command_text(name@, strings_view(args@.take(i as int))),
        decreases args@.len() - i,
    {
        let a = chars_of(args[i].as_str());
        assert(strings_view(args@.take(i + 1)).drop_last() =~= strings_view(args@.take(i as int)));
        out.push(' ');
        push_all(&mut out, a.as_slice());
        i += 1;
        assert(strings_view(args@.take(i as int)).last() == args@[i - 1]@);
    }
    assert(args@.take(i as int) =~= args@);
    string_of(out.as_slice())
}

/// The argument of SETACTIVE: the script to activate, or the empty string to
/// deactivate every script.
pub fn set_active_argument(name: Option<&str>) -> (r: String)
    ensures
        r@ == match name {
            Some(n) => quoted(n@),
            None => quoted(seq![]),
        },
{
    match name {
        Some(n) => {
            let r = quote(n);
            assert(r@ == quoted(n@));
            r
        },
        None => {
            let r = quote("");
            proof {
                reveal_strlit("");
                assert(""@ =~= seq![]);
            }
            r
        },
    }
}

/// The first line of a command whose last argument is a non-synchronizing
/// literal of `size` bytes.
pub fn literal_command_line(name: &str, args: &[String], size: u64) -> (r: String)
    ensures
        r@ == command_text(name@, strings_view(args@)) + " {"@ + crate::text::decimal(size as nat) + "+}"@,
{
    let head = assemble(name, args);
    let mut out = chars_of(head.as_str());
    let open = chars_of(" {");
    let close = chars_of("+}");
    push_all(&mut out, open.as_slice());
    crate::text::push_decimal(&mut out, size);
    push_all(&mut out, close.as_slice());
    string_of(out.as_slice())
}

/// SASL PLAIN's initial response: `\0user\0password` in UTF-8.
pub open spec fn plain_payload(username: Seq<u8>, password: Seq<u8>) -> Seq<u8> {
    seq![0u8] + username + seq![0u8] + password
}

/// The SASL PLAIN payload of a user name and a password.
pub fn sasl_plain_payload(username: &str, password: &str) -> (r: Vec<u8>)
    ensures
        r@ == plain_payload(username.spec_bytes(), password.spec_bytes()),
{
    let mut out: Vec<u8> = Vec::new();
    out.push(0u8);
    let u = username.as_bytes();
    let mut i: usize = 0;
    while i < u.len()
        invariant
            i <= u@.len(),
            out@ == seq![0u8] + u@.take(i as int),
        decreases u@.len() - i,
    {
        out.push(u[i]);
        i += 1;
        assert(out@ =~= seq![0u8] + u@.take(i as int));
    }
    assert(u@.take(i as int) =~= u@);
    out.push(0u8);
    let p = password.as_bytes();
    let ghost mid = out@;
    let mut j: usize = 0;
    while j < p.len()
        invariant
            j <= p@.len(),
            out@ == mid + p@.take(j as int),
        decreases p@.len() - j,
    {
        out.push(p[j]);
        j += 1;
        assert(out@ =~= mid + p@.take(j as int));
    }
    assert(p@.take(j as int) =~= p@);
    out
}

/// The arguments of AUTHENTICATE for SASL PLAIN: the mechanism name and the
/// base64 of the payload, both quoted.
pub fn authenticate_arguments(username: &str, password: &str) -> (r: Vec<String>)
    ensures
        r@.len() == 2,
        r@[0]@ == quoted("PLAIN"@),
        r@[1]@ == quoted(base64_standard(plain_payload(username.spec_bytes(), password.spec_bytes()))),
{
    let payload = sasl_plain_payload(username, password);
    let encoded = base64_encode(payload.as_slice());
    let mut r: Vec<String> = Vec::new();
    r.push(quote("PLAIN"));
    r.push(quote(encoded.as_str()));
    r
}

// ---------------------------------------------------------------------------
// Reading replies.
// ---------------------------------------------------------------------------
/// The number a run of digits spells, when it is a non-empty run of ASCII
/// digits whose value fits a `u32`.
pub open spec fn digits_size(digits: Seq<char>) -> Option<nat> {
    if digits.len() > 0 && (forall|k: int| 0 <= k < digits.len() ==> is_digit(#[trigger] digits[k]))
        && digits_value(digits) <= u32::MAX {
        Some(digits_value(digits))
    } else {
        None
    }
}

/// The size a line announces when it is a literal header `{n}` or `{n+}`.
pub open spec fn literal_size_spec(line: Seq<char>) -> Option<nat> {
    if line.len() >= 3 && line[0] == '{' && line.last() == '}' {
        let inner = line.subrange(1, line.len() - 1);
        digits_size(if inner.len() > 0 && inner.last() == '+' { inner.drop_last() } else { inner })
    } else {
        None
    }
}

/// The size of the literal that `line` announces, if it announces one.
pub fn literal_size(line: &str) -> (r: Option<u32>)
    ensures
        match r {
            Some(n) => literal_size_spec(line@) == Some(n as nat),
            None => literal_size_spec(line@) is None,
        },
{
    let s = chars_of(line);
    let n = s.len();
    if n < 3 || s[0] != '{' || s[n - 1] != '}' {
        return None;
    }
    let end: usize = if s[n - 2] == '+' { n - 2 } else { n - 1 };
    let digits = slice_range(s.as_slice(), 1, end);
    proof {
        let inner = s@.subrange(1, n - 1);
        if inner.len() > 0 && inner.last() == '+' {
            assert(digits@ =~= inner.drop_last());
        } else {
            assert(digits@ =~= inner);
        }
    }
    assert(literal_size_spec(line@) == digits_size(digits@));
    let mut k: usize = 0;
    while k < digits.len()
        invariant
            k <= digits@.len(),
            literal_size_spec(line@) == digits_size(digits@),
            forall|j: int| 0 <= j < k ==> is_digit(#[trigger] digits@[j]),
        decreases digits@.len() - k,
    {
        if !('0' <= digits[k] && digits[k] <= '9') {
            assert(!is_digit(digits@[k as int]));
            return None;
        }
        k += 1;
    }
    parse_u32_digits(digits.as_slice())
}

/// What one line of a server reply is.
#[derive(Debug, Clone, PartialEq, Eq)]
pub enum SieveLine {
    /// A literal of this many bytes follows.
    Literal(u32),
    /// The command succeeded; the status line, left-trimmed.
    Done(String),
    /// The command failed (`NO` or `BYE`); the status line, left-trimmed.
    Failed(String),
    /// A data line of the reply.
    Data(String),
}

/// The status word of a reply line: `OK`, `NO` or `BYE` in any letter case.
pub open spec fn status_word(line: Seq<char>) -> Option<bool> {
    let w = first_word(line);
    if eq_ci(w, "OK"@) {
        Some(true)
    } else if eq_ci(w, "NO"@) || eq_ci(w, "BYE"@) {
        Some(false)
    } else {
        None
    }
}

/// What a line of a server reply means.
pub open spec fn sieve_line_spec(line: Seq<char>) -> (int, Seq<char>, nat) {
    match literal_size_spec(line) {
        Some(n) => (0, seq![], n),
        None => match status_word(line) {
            Some(true) => (1, trim_start(line), 0),
            Some(false) => (2, trim_start(line), 0),
            None => (3, line, 0),
        },
    }
}

/// The shape of a reply line as a (kind, text, size) triple: literal header
/// (0), success (1), failure (2), data (3).
pub open spec fn sieve_line_view(l: SieveLine) -> (int, Seq<char>, nat) {
    match l {
        SieveLine::Literal(n) => (0, seq![], n as nat),
        SieveLine::Done(t) => (1, t@, 0),
        SieveLine::Failed(t) => (2, t@, 0),
        SieveLine::Data(t) => (3, t@, 0),
    }
}

/// Classify one line read from the server.
pub fn classify_line(line: &str) -> (r: SieveLine)
    ensures
        sieve_line_view(r) == sieve_line_spec(line@),
{
    if let Some(n) = literal_size(line) {
        return SieveLine::Literal(n);
    }
    let s = chars_of(line);
    let word = first_word_chars(s.as_slice());
    let ok = chars_of("OK");
    let no = chars_of("NO");
    let bye = chars_of("BYE");
    let is_ok = eq_ci_chars(word.as_slice(), ok.as_slice());
    let is_failed = eq_ci_chars(word.as_slice(), no.as_slice()) || eq_ci_chars(word.as_slice(), bye.as_slice());
    if is_ok || is_failed {
        let mut i: usize = 0;
        assert(s@.skip(0) =~= s@);
        while i < s.len() && is_space_char(s[i])
            invariant
                i <= s@.len(),
                trim_start(s@) == trim_start(s@.skip(i as int)),
            decreases s@.len() - i,
        {
            assert(s@.skip(i as int).drop_first() =~= s@.skip(i + 1));
            i += 1;
        }
        let rest = slice_range(s.as_slice(), i, s.len());
        assert(rest@ =~= s@.skip(i as int));
        let text = string_of(rest.as_slice());
        if is_ok {
            SieveLine::Done(text)
        } else {
            SieveLine::Failed(text)
        }
    } else {
        SieveLine::Data(string_of(s.as_slice()))
    }
}

// ---------------------------------------------------------------------------
// Quoted strings, script listings and fetched scripts.
// ---------------------------------------------------------------------------
/// The body of a quoted string that starts `rest` (after its opening quote):
/// the unescaped value, and how many characters the body and the closing
/// quote take. `None` when the string is not closed.
pub open spec fn unquote(rest: Seq<char>) -> Option<(Seq<char>, nat)>
    decreases rest.len(),
{
    if rest.len() == 0 {
        None
    } else if rest[0] == '"' {
        Some((seq![], 1nat))
    } else if rest[0] == '\\' {
        if rest.len() < 2 {
            None
        } else {
            match unquote(rest.skip(2)) {
                Some(p) => Some((seq![rest[1]] + p.0, p.1 + 2)),
                None => None,
            }
        }
    } else {
        match unquote(rest.drop_first()) {
            Some(p) => Some((seq![rest[0]] + p.0, p.1 + 1)),
            None => None,
        }
    }
}

/// `o` with `acc` put before its value and `k` added to its length.
pub open spec fn prepend(acc: Seq<char>, k: nat, o: Option<(Seq<char>, nat)>) -> Option<(Seq<char>, nat)> {
    match o {
        Some(p) => Some((acc + p.0, p.1 + k)),
        None => None,
    }
}

proof fn lemma_prepend_twice(acc: Seq<char>, k: nat, c: Seq<char>, j: nat, o: Option<(Seq<char>, nat)>)
    ensures
        prepend(acc, k, prepend(c, j, o)) == prepend(acc + c, k + j, o),
{
    if let Some(p) = o {
        assert(acc + (c + p.0) =~= (acc + c) + p.0);
    }
}

/// The value of a line that starts with a closed quoted string.
pub open spec fn quoted_value_spec(line: Seq<char>) -> Option<Seq<char>> {
    if line.len() > 0 && line[0] == '"' {
        match unquote(line.drop_first()) {
            Some(p) => Some(p.0),
            None => None,
        }
    } else {
        None
    }
}

/// Read the quoted string that `s` starts with: its value and the index just
/// after its closing quote.
fn read_quoted(s: &[char]) -> (r: Option<(Vec<char>, usize)>)
    ensures
        match r {
            Some(p) => s@.len() > 0 && s@[0] == '"' && unquote(s@.drop_first()) == Some((p.0@, (p.1 - 1) as nat)) && 1 <= p.1 <= s@.len(),
            None => !(s@.len() > 0 && s@[0] == '"') || unquote(s@.drop_first()) is None,
        },
{
    let n = s.len();
    if n == 0 || s[0] != '"' {
        return None;
    }
    let mut acc: Vec<char> = Vec::new();
    let mut i: usize = 1;
    assert(s@.skip(1) =~= s@.drop_first());
    assert(prepend(seq![], 0, unquote(s@.skip(1))) == unquote(s@.skip(1))) by {
        if let Some(p) = unquote(s@.skip(1)) {
            assert(seq![] + p.0 =~= p.0);
        }
    }
    while i < n
        invariant
            n == s@.len(),
            1 <= i <= n,
            s@[0] == '"',
            unquote(s@.drop_first()) == prepend(acc@, (i - 1) as nat, unquote(s@.skip(i as int))),
        decreases n - i,
    {
        let c = s[i];
        let ghost rest = s@.skip(i as int);
        assert(rest[0] == c);
        if c == '"' {
            assert(unquote(rest) == Some((Seq::<char>::empty(), 1nat)));
            assert(acc@ + Seq::<char>::empty() =~= acc@);
            assert(unquote(s@.drop_first()) == Some((acc@, i as nat)));
            return Some((acc, i + 1));
        } else if c == '\\' {
            if i + 1 >= n {
                assert(unquote(rest) is None);
                return None;
            }
            let d = s[i + 1];
            assert(rest.skip(2) =~= s@.skip(i + 2));
            assert(rest[1] == d);
            proof {
                lemma_prepend_twice(acc@, (i - 1) as nat, seq![d], 2, unquote(s@.skip(i + 2)));
            }
            acc.push(d);
            i = i + 2;
        } else {
            assert(rest.drop_first() =~= s@.skip(i + 1));
            proof {
                lemma_prepend_twice(acc@, (i - 1) as nat, seq![c], 1, unquote(s@.skip(i + 1)));
            }
            acc.push(c);
            i = i + 1;
        }
    }
    assert(s@.skip(i as int).len() == 0);
    None
}

/// The value of a line that starts with a quoted string.
pub fn quoted_value(line: &str) -> (r: Option<String>)
    ensures
        match r {
            Some(v) => quoted_value_spec(line@) == Some(v@),
            None => quoted_value_spec(line@) is None,
        },
{
    let s = chars_of(line);
    match read_quoted(s.as_slice()) {
        Some((v, _)) => Some(string_of(v.as_slice())),
        None => None,
    }
}

/// What a line of a script listing says: the script's name and whether it is
/// the active one (`"name" ACTIVE`). A line without a closed quoted name is
/// taken as a bare name.
pub open spec fn script_of_line(line: Seq<char>) -> (Seq<char>, bool) {
    if line.len() > 0 && line[0] == '"' && unquote(line.drop_first()) is Some {
        let p = unquote(line.drop_first())->0;
        (p.0, eq_ci(trim(line.skip(1 + p.1 as int)), "ACTIVE"@))
    } else {
        (trim(line), false)
    }
}

/// Read one line of a script listing.
pub fn parse_script(line: &str) -> (r: SieveScript)
    ensures
        (r.name@, r.active) == script_of_line(line@),
{
    let s = chars_of(line);
    match read_quoted(s.as_slice()) {
        Some((v, end)) => {
            let rest = slice_range(s.as_slice(), end, s.len());
            assert(rest@ =~= s@.skip(end as int));
            let t = trim_chars(rest.as_slice());
            let active_word = chars_of("ACTIVE");
            let active = eq_ci_chars(t.as_slice(), active_word.as_slice());
            SieveScript { name: string_of(v.as_slice()), active }
        },
        None => {
            let t = trim_chars(s.as_slice());
            SieveScript { name: string_of(t.as_slice()), active: false }
        },
    }
}

/// One element of a server reply, as the reader collected it.
#[derive(Debug, Clone, PartialEq, Eq)]
pub enum SieveResponse {
    /// A data line.
    Line(String),
    /// The text of a literal.
    Literal(String),
    /// The closing `OK` line.
    Status(String),
}

/// The data lines of a reply, in order.
pub open spec fn data_lines(responses: Seq<SieveResponse>) -> Seq<Seq<char>>
    decreases responses.len(),
{
    if responses.len() == 0 {
        seq![]
    } else {
        let rest = data_lines(responses.drop_last());
        match responses.last() {
            SieveResponse::Line(l) => rest.push(l@),
            _ => rest,
        }
    }
}

/// The capability lines of a greeting: its data lines.
pub fn greeting_lines(responses: &[SieveResponse]) -> (r: Vec<String>)
    ensures
        strings_view(r@) == data_lines(responses@),
{
    let mut out: Vec<String> = Vec::new();
    let mut i: usize = 0;
    while i < responses.len()
        invariant
            i <= responses@.len(),
            strings_view(out@) == data_lines(responses@.take(i as int)),
        decreases responses@.len() - i,
    {
        assert(responses@.take(i + 1).drop_last() =~= responses@.take(i as int));
        match &responses[i] {
            SieveResponse::Line(l) => {
                out.push(l.clone());
                assert(strings_view(out@) =~= data_lines(responses@.take(i as int)).push(l@));
            },
            _ => {},
        }
        i += 1;
    }
    assert(responses@.take(i as int) =~= responses@);
    out
}

/// The scripts a listing reply names, in order.
pub fn scripts_of(responses: &[SieveResponse]) -> (r: Vec<SieveScript>)
    ensures
        r@.len() == data_lines(responses@).len(),
        forall|i: int| 0 <= i < r@.len() ==> (#[trigger] r@[i].name@, r@[i].active) == script_of_line(data_lines(responses@)[i]),
{
    let lines = greeting_lines(responses);
    let mut out: Vec<SieveScript> = Vec::new();
    let mut i: usize = 0;
    while i < lines.len()
        invariant
            i <= lines@.len(),
            out@.len() == i,
            strings_view(lines@) == data_lines(responses@),
            forall|k: int| 0 <= k < i ==> (#[trigger] out@[k].name@, out@[k].active) == script_of_line(lines@[k]@),
        decreases lines@.len() - i,
    {
        out.push(parse_script(lines[i].as_str()));
        i += 1;
    }
    assert forall|k: int| 0 <= k < out@.len() implies (#[trigger] out@[k].name@, out@[k].active) == script_of_line(data_lines(responses@)[k]) by {
        assert(strings_view(lines@)[k] == lines@[k]@);
    }
    out
}

/// The body of a fetched script: the first literal, or the first data line
/// that holds a quoted string.
pub open spec fn script_body_spec(responses: Seq<SieveResponse>) -> Option<Seq<char>>
    decreases responses.len(),
{
    if responses.len() == 0 {
        None
    } else {
        match responses[0] {
            SieveResponse::Literal(t) => Some(t@),
            SieveResponse::Line(l) => match quoted_value_spec(l@) {
                Some(v) => Some(v),
                None => script_body_spec(responses.drop_first()),
            },
            SieveResponse::Status(_) => script_body_spec(responses.drop_first()),
        }
    }
}

/// The script text a GETSCRIPT reply carries.
pub fn script_body(responses: &[SieveResponse]) -> (r: Option<String>)
    ensures
        match r {
            Some(t) => script_body_spec(responses@) == Some(t@),
            None => script_body_spec(responses@) is None,
        },
{
    let mut i: usize = 0;
    assert(responses@.skip(0) =~= responses@);
    while i < responses.len()
        invariant
            i <= responses@.len(),
            script_body_spec(responses@) == script_body_spec(responses@.skip(i as int)),
        decreases responses@.len() - i,
    {
        assert(responses@.skip(i as int)[0] == responses@[i as int]);
        assert(responses@.skip(i as int).drop_first() =~= responses@.skip(i + 1));
        match &responses[i] {
            SieveResponse::Literal(t) => {
                return Some(t.clone());
            },
            SieveResponse::Line(l) => {
                if let Some(v) = quoted_value(l.as_str()) {
                    return Some(v);
                }
            },
            SieveResponse::Status(_) => {},
        }
        i += 1;
    }
    None
}

// ---------------------------------------------------------------------------
// Laws of quoting.
// ---------------------------------------------------------------------------
proof fn lemma_escaped_cons(c: char, t: Seq<char>)
    ensures
        escaped(seq![c] + t) == escape_char(c) + escaped(t),
    decreases t.len(),
{
    if t.len() == 0 {
        assert(seq![c] + t =~= seq![c]);
        assert(seq![c].drop_last() =~= Seq::<char>::empty());
        assert(escape_char(c) + escaped(t) =~= escape_char(c));
        assert(escaped(seq![]) + escape_char(c) =~= escape_char(c));
    } else {
        lemma_escaped_cons(c, t.drop_last());
        assert((seq![c] + t).drop_last() =~= seq![c] + t.drop_last());
        assert((seq![c] + t).last() == t.last());
        assert(escape_char(c) + escaped(t.drop_last()) + escape_char(t.last()) =~= escape_char(c) + escaped(t));
    }
}

proof fn lemma_unquote_escaped(s: Seq<char>, rest: Seq<char>)
    ensures
        unquote(escaped(s) + seq!['"'] + rest) == Some((s, (escaped(s).len() + 1) as nat)),
    decreases s.len(),
{
    if s.len() == 0 {
        assert(escaped(s) =~= Seq::<char>::empty());
        assert((escaped(s) + seq!['"'] + rest)[0] == '"');
    } else {
        let c = s[0];
        let t = s.drop_first();
        assert(s =~= seq![c] + t);
        lemma_escaped_cons(c, t);
        lemma_unquote_escaped(t, rest);
        let whole = escaped(s) + seq!['"'] + rest;
        assert(whole =~= escape_char(c) + (escaped(t) + seq!['"'] + rest));
        if c == '\\' || c == '"' {
            assert(whole[0] == '\\');
            assert(whole[1] == c);
            assert(whole.skip(2) =~= escaped(t) + seq!['"'] + rest);
        } else {
            assert(whole[0] == c);
            assert(whole.drop_first() =~= escaped(t) + seq!['"'] + rest);
        }
        assert(seq![c] + t =~= s);
    }
}

/// A quoted string reads back as the value it quotes: what `quote` writes,
/// `quoted_value` returns unchanged.
pub proof fn law_quoted_value_reads_back(s: Seq<char>)
    ensures
        quoted_value_spec(quoted(s)) == Some(s),
{
    lemma_unquote_escaped(s, seq![]);
    assert(quoted(s).drop_first() =~= escaped(s) + seq!['"'] + Seq::<char>::empty());
}

} // verus!
