//! Compose templates: parsing what the user wrote, rendering what the client
//! proposes, and naming files saved from a message.
use vstd::prelude::*;

use crate::mime::{header_value_spec, opt_chars, MessageDocument};
use crate::text::{
    chars_of, decimal, lower, eq_ci, eq_ci_chars, find, is_space, join, join_chars, lines, lines_chars,
    lower_chars, lower_seq, push_all, push_decimal, seq_of_pieces, starts_with, starts_with_chars,
    string_of, trim, trim_chars, find_chars_from, lemma_find, lemma_find_from, match_at,
};

verus! {

/// A compose template split into header fields and body.
#[derive(Debug, Clone)]
pub struct TemplateMessage {
    /// Header fields in order of appearance, names in ASCII lowercase.
    pub headers: Vec<(String, String)>,
    pub body: String,
}

/// A template as character sequences.
pub struct TemplateModel {
    pub headers: Seq<(Seq<char>, Seq<char>)>,
    pub body: Seq<char>,
}

pub open spec fn pairs_view(v: Seq<(String, String)>) -> Seq<(Seq<char>, Seq<char>)> {
    v.map_values(|h: (String, String)| (h.0@, h.1@))
}

impl View for TemplateMessage {
    type V = TemplateModel;

    open spec fn view(&self) -> TemplateModel {
        TemplateModel { headers: pairs_view(self.headers@), body: self.body@ }
    }
}

/// The index of the first header named `key` (ASCII case-insensitively), or -1.
pub open spec fn first_header_index(hs: Seq<(Seq<char>, Seq<char>)>, key: Seq<char>) -> int
    decreases hs.len(),
{
    if hs.len() == 0 {
        -1
    } else if eq_ci(hs[0].0, key) {
        0
    } else {
        let j = first_header_index(hs.drop_first(), key);
        if j < 0 {
            -1
        } else {
            j + 1
        }
    }
}

pub proof fn lemma_first_header_index(hs: Seq<(Seq<char>, Seq<char>)>, key: Seq<char>)
    ensures
        -1 <= first_header_index(hs, key) < hs.len(),
        first_header_index(hs, key) >= 0 ==> eq_ci(hs[first_header_index(hs, key)].0, key),
        forall|k: int|
            0 <= k < hs.len() && (first_header_index(hs, key) < 0 || k < first_header_index(hs, key))
                ==> !eq_ci(#[trigger] hs[k].0, key),
    decreases hs.len(),
{
    if hs.len() > 0 && !eq_ci(hs[0].0, key) {
        lemma_first_header_index(hs.drop_first(), key);
        assert forall|k: int|
            0 <= k < hs.len() && (first_header_index(hs, key) < 0 || k < first_header_index(hs, key))
                implies !eq_ci(#[trigger] hs[k].0, key) by {
            if k > 0 {
                assert(hs[k] == hs.drop_first()[k - 1]);
            }
        }
    }
}

pub proof fn lemma_first_header_is(hs: Seq<(Seq<char>, Seq<char>)>, key: Seq<char>, i: int)
    requires
        0 <= i < hs.len(),
        eq_ci(hs[i].0, key),
        forall|k: int| 0 <= k < i ==> !eq_ci(#[trigger] hs[k].0, key),
    ensures
        first_header_index(hs, key) == i,
{
    lemma_first_header_index(hs, key);
    let f = first_header_index(hs, key);
    if f < 0 {
        assert(!eq_ci(hs[i].0, key));
    } else if f < i {
        assert(eq_ci(hs[f].0, key));
    } else if f > i {
        assert(!eq_ci(hs[i].0, key));
    }
}

/// The state of reading a template line by line.
pub struct ParseState {
    pub headers: Seq<(Seq<char>, Seq<char>)>,
    pub current: Option<Seq<char>>,
    pub body: Seq<Seq<char>>,
    pub in_body: bool,
}

/// A header value with a folded continuation line appended.
pub open spec fn folded(value: Seq<char>, line: Seq<char>) -> Seq<char> {
    if value.len() > 0 {
        value + seq![' '] + trim(line)
    } else {
        value + trim(line)
    }
}

/// Reading one template line. Until the first empty line, a line starting
/// with a space or tab continues the current header, `name: value` starts a
/// header (name trimmed and lowercased, value trimmed), and anything else is
/// ignored; every later line is body.
pub open spec fn parse_step(st: ParseState, line: Seq<char>) -> ParseState {
    if st.in_body {
        ParseState { body: st.body.push(line), ..st }
    } else if line.len() == 0 {
        ParseState { in_body: true, ..st }
    } else if line[0] == ' ' || line[0] == '\t' {
        match st.current {
            Some(key) => {
                let i = first_header_index(st.headers, key);
                if i >= 0 {
                    ParseState {
                        headers: st.headers.update(i, (st.headers[i].0, folded(st.headers[i].1, line))),
                        ..st
                    }
                } else {
                    st
                }
            },
            None => st,
        }
    } else if find(line, ":"@) >= 0 {
        let c = find(line, ":"@);
        let key = lower_seq(trim(line.take(c)));
        ParseState {
            headers: st.headers.push((key, trim(line.skip(c + 1)))),
            current: Some(key),
            ..st
        }
    } else {
        st
    }
}

/// The state after reading `ls` from the start.
pub open spec fn parse_lines(ls: Seq<Seq<char>>) -> ParseState
    decreases ls.len(),
{
    if ls.len() == 0 {
        ParseState { headers: seq![], current: None, body: seq![], in_body: false }
    } else {
        parse_step(parse_lines(ls.drop_last()), ls.last())
    }
}

/// The template a raw compose buffer holds: its headers, and its body lines
/// joined with `\n`.
pub open spec fn parse_template_spec(raw: Seq<char>) -> TemplateModel {
    let st = parse_lines(lines(raw));
    TemplateModel { headers: st.headers, body: join(st.body, "\n"@) }
}

/// The value of the first header named `name`, unless that value is blank.
pub open spec fn template_header_spec(headers: Seq<(Seq<char>, Seq<char>)>, name: Seq<char>) -> Option<Seq<char>> {
    let i = first_header_index(headers, name);
    if i >= 0 && trim(headers[i].1).len() > 0 {
        Some(headers[i].1)
    } else {
        None
    }
}

pub open spec fn char_pairs_view(v: Seq<(Vec<char>, Vec<char>)>) -> Seq<(Seq<char>, Seq<char>)> {
    v.map_values(|h: (Vec<char>, Vec<char>)| (h.0@, h.1@))
}

fn header_index(headers: &Vec<(Vec<char>, Vec<char>)>, key: &[char]) -> (r: Option<usize>)
    ensures
        match r {
            Some(i) => first_header_index(char_pairs_view(headers@), key@) == i && i < headers@.len(),
            None => first_header_index(char_pairs_view(headers@), key@) == -1,
        },
{
    let ghost hs = char_pairs_view(headers@);
    proof {
        lemma_first_header_index(hs, key@);
    }
    let mut i: usize = 0;
    while i < headers.len()
        invariant
            i <= headers@.len(),
            hs == char_pairs_view(headers@),
            forall|k: int| 0 <= k < i ==> !eq_ci(#[trigger] hs[k].0, key@),
        decreases headers@.len() - i,
    {
        if eq_ci_chars(headers[i].0.as_slice(), key) {
            proof {
                lemma_first_header_is(hs, key@, i as int);
            }
            return Some(i);
        }
        i += 1;
    }
    proof {
        if first_header_index(hs, key@) >= 0 {
            let j = first_header_index(hs, key@);
            assert(!eq_ci(hs[j].0, key@));
        }
    }
    None
}

fn step(
    headers: &mut Vec<(Vec<char>, Vec<char>)>,
    current: &mut Option<Vec<char>>,
    body: &mut Vec<Vec<char>>,
    in_body: &mut bool,
    line: &[char],
)
    ensures
        ({
            let before = ParseState {
                headers: char_pairs_view(old(headers)@),
                current: match *old(current) { Some(k) => Some(k@), None => None },
                body: seq_of_pieces(old(body)@),
                in_body: *old(in_body),
            };
            let after = parse_step(before, line@);
            &&& char_pairs_view(final(headers)@) == after.headers
            &&& match *final(current) { Some(k) => Some(k@), None => None } == after.current
            &&& seq_of_pieces(final(body)@) == after.body
            &&& *final(in_body) == after.in_body
        }),
{
    let ghost hv = char_pairs_view(headers@);
    if *in_body {
        let v = crate::text::to_vec(line);
        body.push(v);
        assert(seq_of_pieces(body@) =~= seq_of_pieces(old(body)@).push(line@));
        return;
    }
    if line.len() == 0 {
        *in_body = true;
        return;
    }
    if line[0] == ' ' || line[0] == '\t' {
        if let Some(key) = current {
            if let Some(i) = header_index(headers, key.as_slice()) {
                let name = headers[i].0.clone();
                let mut value = headers[i].1.clone();
                if value.len() > 0 {
                    value.push(' ');
                }
                let t = trim_chars(line);
                push_all(&mut value, t.as_slice());
                let ghost nv = value@;
                assert(nv == folded(hv[i as int].1, line@));
                headers.set(i, (name, value));
                assert(char_pairs_view(headers@) =~= hv.update(i as int, (hv[i as int].0, nv)));
            }
        }
        return;
    }
    let colon = [':'];
    proof {
        reveal_strlit(":");
        assert(colon@ =~= ":"@);
    }
    proof {
        lemma_find_from(line@, colon@, 0);
    }
    match find_chars_from(line, colon.as_slice(), 0) {
        Some(c) => {
            let k = trim_chars(&line[0..c]);
            let key = lower_chars(k.as_slice());
            let value = trim_chars(&line[c + 1..line.len()]);
            assert(line@.subrange(0, c as int) =~= line@.take(c as int));
            assert(line@.subrange(c + 1, line@.len() as int) =~= line@.skip(c + 1));
            let ghost kv = key@;
            let ghost vv = value@;
            headers.push((key.clone(), value));
            assert(char_pairs_view(headers@) =~= hv.push((kv, vv)));
            *current = Some(key);
        },
        None => {},
    }
}

fn pairs_to_strings(v: &Vec<(Vec<char>, Vec<char>)>) -> (r: Vec<(String, String)>)
    ensures
        pairs_view(r@) == char_pairs_view(v@),
{
    let mut r: Vec<(String, String)> = Vec::new();
    let mut i: usize = 0;
    while i < v.len()
        invariant
            i <= v@.len(),
            pairs_view(r@) == char_pairs_view(v@.take(i as int)),
        decreases v@.len() - i,
    {
        let a = string_of(v[i].0.as_slice());
        let b = string_of(v[i].1.as_slice());
        let ghost before = r@;
        r.push((a, b));
        assert(r@ == before.push((a, b)));
        assert(pairs_view(r@) =~= pairs_view(before).push((v@[i as int].0@, v@[i as int].1@)));
        assert(char_pairs_view(v@.take(i + 1)) =~= char_pairs_view(v@.take(i as int)).push((v@[i as int].0@, v@[i as int].1@)));
        i += 1;
    }
    assert(v@.take(i as int) =~= v@);
    r
}

/// Split a compose buffer into header fields and body.
pub fn parse_template_message(raw: &str) -> (r: TemplateMessage)
    ensures
        r@ == parse_template_spec(raw@),
{
    let cs = chars_of(raw);
    let ls = lines_chars(cs.as_slice());
    let ghost spec_lines = lines(raw@);
    let mut headers: Vec<(Vec<char>, Vec<char>)> = Vec::new();
    let mut current: Option<Vec<char>> = None;
    let mut body: Vec<Vec<char>> = Vec::new();
    let mut in_body = false;
    let mut i: usize = 0;
    assert(seq_of_pieces(body@) =~= seq![]);
    assert(char_pairs_view(headers@) =~= seq![]);
    while i < ls.len()
        invariant
            i <= ls@.len(),
            seq_of_pieces(ls@) == spec_lines,
            ({
                let st = parse_lines(spec_lines.take(i as int));
                &&& char_pairs_view(headers@) == st.headers
                &&& match current { Some(k) => Some(k@), None => None } == st.current
                &&& seq_of_pieces(body@) == st.body
                &&& in_body == st.in_body
            }),
        decreases ls@.len() - i,
    {
        assert(spec_lines.take(i + 1).drop_last() =~= spec_lines.take(i as int));
        assert(spec_lines[i as int] == ls@[i as int]@);
        step(&mut headers, &mut current, &mut body, &mut in_body, ls[i].as_slice());
        i += 1;
    }
    assert(spec_lines.take(i as int) =~= spec_lines);
    let nl = chars_of("\n");
    let joined = join_chars(&body, nl.as_slice());
    TemplateMessage { headers: pairs_to_strings(&headers), body: string_of(joined.as_slice()) }
}

impl TemplateMessage {
    /// The value of the first header named `name`, unless it is blank.
    pub fn header(&self, name: &str) -> (r: Option<&str>)
        ensures
            match r {
                Some(v) => template_header_spec(self@.headers, name@) == Some(v@),
                None => template_header_spec(self@.headers, name@) is None,
            },
    {
        let ghost hs = self@.headers;
        proof {
            lemma_first_header_index(hs, name@);
        }
        let wanted = chars_of(name);
        let mut i: usize = 0;
        while i < self.headers.len()
            invariant
                i <= self.headers@.len(),
                hs == self@.headers,
                wanted@ == name@,
                forall|k: int| 0 <= k < i ==> !eq_ci(#[trigger] hs[k].0, name@),
            decreases self.headers@.len() - i,
        {
            let key = chars_of(self.headers[i].0.as_str());
            if eq_ci_chars(key.as_slice(), wanted.as_slice()) {
                proof {
                    lemma_first_header_is(hs, name@, i as int);
                }
                let value = self.headers[i].1.as_str();
                let vc = chars_of(value);
                let t = trim_chars(vc.as_slice());
                if t.len() == 0 {
                    return None;
                }
                return Some(value);
            }
            i += 1;
        }
        None
    }
}

/// The rendered template: each header with a non-blank value as
/// `Name: value` with the value trimmed, then an empty line, then the body.
pub open spec fn render_headers(headers: Seq<(Seq<char>, Seq<char>)>) -> Seq<char>
    decreases headers.len(),
{
    if headers.len() == 0 {
        seq![]
    } else {
        let h = headers.last();
        render_headers(headers.drop_last()) + if trim(h.1).len() > 0 {
            h.0 + ": "@ + trim(h.1) + "\n"@
        } else {
            seq![]
        }
    }
}

pub open spec fn named_values_view(v: Seq<(&str, String)>) -> Seq<(Seq<char>, Seq<char>)> {
    v.map_values(|h: (&str, String)| (h.0@, h.1@))
}

/// Render header fields and a body as a compose template.
pub fn render_template(headers: &[(&str, String)], body: &str) -> (r: String)
    ensures
        r@ == render_headers(named_values_view(headers@)) + "\n"@ + body@,
{
    let ghost hs = named_values_view(headers@);
    let mut out: Vec<char> = Vec::new();
    let sep = chars_of(": ");
    let nl = chars_of("\n");
    let mut i: usize = 0;
    while i < headers.len()
        invariant
            i <= headers@.len(),
            hs == named_values_view(headers@),
            sep@ == ": "@,
            nl@ == "\n"@,
            out@ == render_headers(hs.take(i as int)),
        decreases headers@.len() - i,
    {
        let v = chars_of(headers[i].1.as_str());
        let t = trim_chars(v.as_slice());
        assert(hs.take(i + 1).drop_last() =~= hs.take(i as int));
        if t.len() > 0 {
            let name = chars_of(headers[i].0);
            push_all(&mut out, name.as_slice());
            push_all(&mut out, sep.as_slice());
            push_all(&mut out, t.as_slice());
            push_all(&mut out, nl.as_slice());
        }
        i += 1;
        assert(out@ =~= render_headers(hs.take(i as int)));
    }
    assert(hs.take(i as int) =~= hs);
    push_all(&mut out, nl.as_slice());
    let b = chars_of(body);
    push_all(&mut out, b.as_slice());
    string_of(out.as_slice())
}

/// A reply subject: kept when it already starts with `re:` in any ASCII case,
/// `Re:` when empty, otherwise prefixed with `Re: `.
pub open spec fn reply_subject_spec(subject: Seq<char>) -> Seq<char> {
    if starts_with(lower_seq(subject), "re:"@) {
        subject
    } else if subject.len() == 0 {
        "Re:"@
    } else {
        "Re: "@ + subject
    }
}

/// A forward subject: kept when it already starts with `fwd:` in any ASCII
/// case, `Fwd:` when empty, otherwise prefixed with `Fwd: `.
pub open spec fn forward_subject_spec(subject: Seq<char>) -> Seq<char> {
    if starts_with(lower_seq(subject), "fwd:"@) {
        subject
    } else if subject.len() == 0 {
        "Fwd:"@
    } else {
        "Fwd: "@ + subject
    }
}

pub open spec fn or_empty(o: Option<Seq<char>>) -> Seq<char> {
    match o {
        Some(s) => s,
        None => seq![],
    }
}

fn prefixed_subject(subject: Option<String>, marker: &str, bare: &str, prefix: &str) -> (r: String)
    ensures
        r@ == ({
            let s = or_empty(opt_chars(subject));
            if starts_with(lower_seq(s), marker@) {
                s
            } else if s.len() == 0 {
                bare@
            } else {
                prefix@ + s
            }
        }),
{
    let s = match subject {
        Some(s) => s,
        None => String::new(),
    };
    let cs = chars_of(s.as_str());
    let lowered = lower_chars(cs.as_slice());
    let m = chars_of(marker);
    if starts_with_chars(lowered.as_slice(), m.as_slice()) {
        s
    } else if cs.len() == 0 {
        string_of(chars_of(bare).as_slice())
    } else {
        let mut out = chars_of(prefix);
        push_all(&mut out, cs.as_slice());
        string_of(out.as_slice())
    }
}

/// The subject for a reply.
pub fn reply_subject(subject: Option<String>) -> (r: String)
    ensures
        r@ == reply_subject_spec(or_empty(opt_chars(subject))),
{
    prefixed_subject(subject, "re:", "Re:", "Re: ")
}

/// The subject for a forward.
pub fn forward_subject(subject: Option<String>) -> (r: String)
    ensures
        r@ == forward_subject_spec(or_empty(opt_chars(subject))),
{
    prefixed_subject(subject, "fwd:", "Fwd:", "Fwd: ")
}

/// A path-safe file name: `/ \ : * ? " < > |` become `_`, then surrounding
/// whitespace is removed.
pub open spec fn sanitized(value: Seq<char>) -> Seq<char> {
    trim(replace_unsafe(value))
}

/// Every character unsafe in a file name replaced by `_`.
pub open spec fn replace_unsafe(value: Seq<char>) -> Seq<char>
    decreases value.len(),
{
    if value.len() == 0 {
        seq![]
    } else {
        replace_unsafe(value.drop_last()).push(
            if unsafe_in_file_name(value.last()) {
                '_'
            } else {
                value.last()
            },
        )
    }
}

pub open spec fn unsafe_in_file_name(c: char) -> bool {
    c == '/' || c == '\\' || c == ':' || c == '*' || c == '?' || c == '"' || c == '<' || c == '>'
        || c == '|'
}

/// Make a name safe to use as a file name.
pub fn sanitize_file_name(value: &str) -> (r: String)
    ensures
        r@ == sanitized(value@),
{
    let cs = chars_of(value);
    let mut out: Vec<char> = Vec::new();
    let mut i: usize = 0;
    while i < cs.len()
        invariant
            i <= cs@.len(),
            cs@ == value@,
            out@ == replace_unsafe(cs@.take(i as int)),
        decreases cs@.len() - i,
    {
        let c = cs[i];
        let mapped = if c == '/' || c == '\\' || c == ':' || c == '*' || c == '?' || c == '"' || c
            == '<' || c == '>' || c == '|' {
            '_'
        } else {
            c
        };
        out.push(mapped);
        assert(cs@.take(i + 1).drop_last() =~= cs@.take(i as int));
        i += 1;
    }
    assert(cs@.take(i as int) =~= cs@);
    let t = trim_chars(out.as_slice());
    string_of(t.as_slice())
}


/// The readable text of a message, empty when it has none.
pub open spec fn readable_text(text: Option<Seq<char>>) -> Seq<char> {
    or_empty(text)
}

/// Each line prefixed with `> `.
pub open spec fn quote_lines(ls: Seq<Seq<char>>) -> Seq<Seq<char>>
    decreases ls.len(),
{
    if ls.len() == 0 {
        seq![]
    } else {
        quote_lines(ls.drop_last()).push("> "@ + ls.last())
    }
}

/// The attribution line that opens a quoted reply.
pub open spec fn reply_intro(from: Seq<char>, date: Seq<char>) -> Seq<char> {
    if date.len() > 0 && from.len() > 0 {
        "On "@ + date + ", "@ + from + " wrote:\n"@
    } else if from.len() > 0 {
        from + " wrote:\n"@
    } else {
        "Previous message:\n"@
    }
}

/// The body of a reply: an empty line, the attribution, and the original
/// text with every line quoted.
pub open spec fn quoted_reply_spec(headers: Seq<(Seq<char>, Seq<char>)>, text: Option<Seq<char>>) -> Seq<char> {
    let from = or_empty(header_value_spec(headers, "From"@));
    let date = or_empty(header_value_spec(headers, "Date"@));
    let rendered = readable_text(text);
    let quoted = if rendered.len() == 0 {
        seq![]
    } else {
        join(quote_lines(lines(rendered)), "\n"@)
    };
    "\n"@ + reply_intro(from, date) + quoted
}

fn text_chars(message: &MessageDocument) -> (r: Vec<char>)
    ensures
        r@ == readable_text(message@.text),
{
    match &message.text {
        Some(t) => chars_of(t.as_str()),
        None => Vec::new(),
    }
}

fn header_chars(message: &MessageDocument, name: &str) -> (r: Vec<char>)
    ensures
        r@ == or_empty(header_value_spec(message@.headers, name@)),
{
    match message.header_value(name) {
        Some(v) => chars_of(v.as_str()),
        None => Vec::new(),
    }
}

/// The body of a reply to `message`.
pub fn quoted_reply_body(message: &MessageDocument) -> (r: String)
    ensures
        r@ == quoted_reply_spec(message@.headers, message@.text),
{
    let from = header_chars(message, "From");
    let date = header_chars(message, "Date");
    let mut out = chars_of("\n");
    if date.len() > 0 && from.len() > 0 {
        push_all(&mut out, chars_of("On ").as_slice());
        push_all(&mut out, date.as_slice());
        push_all(&mut out, chars_of(", ").as_slice());
        push_all(&mut out, from.as_slice());
        push_all(&mut out, chars_of(" wrote:\n").as_slice());
    } else if from.len() > 0 {
        push_all(&mut out, from.as_slice());
        push_all(&mut out, chars_of(" wrote:\n").as_slice());
    } else {
        push_all(&mut out, chars_of("Previous message:\n").as_slice());
    }
    let ghost intro = out@;
    assert(intro =~= "\n"@ + reply_intro(from@, date@));
    let rendered = text_chars(message);
    if rendered.len() > 0 {
        let ls = lines_chars(rendered.as_slice());
        let ghost spec_lines = lines(rendered@);
        let mut quoted: Vec<Vec<char>> = Vec::new();
        let mut i: usize = 0;
        while i < ls.len()
            invariant
                i <= ls@.len(),
                seq_of_pieces(ls@) == spec_lines,
                seq_of_pieces(quoted@) == quote_lines(spec_lines.take(i as int)),
            decreases ls@.len() - i,
        {
            let mut q = chars_of("> ");
            push_all(&mut q, ls[i].as_slice());
            let ghost qv = q@;
            quoted.push(q);
            assert(spec_lines.take(i + 1).drop_last() =~= spec_lines.take(i as int));
            assert(spec_lines[i as int] == ls@[i as int]@);
            assert(seq_of_pieces(quoted@) =~= seq_of_pieces(quoted@.drop_last()).push(qv));
            i += 1;
        }
        assert(spec_lines.take(i as int) =~= spec_lines);
        let nl = chars_of("\n");
        let joined = join_chars(&quoted, nl.as_slice());
        push_all(&mut out, joined.as_slice());
    }
    string_of(out.as_slice())
}

/// The header lines of a forwarded message that the original carries.
pub open spec fn forwarded_headers(headers: Seq<(Seq<char>, Seq<char>)>, names: Seq<Seq<char>>) -> Seq<Seq<char>>
    decreases names.len(),
{
    if names.len() == 0 {
        seq![]
    } else {
        forwarded_headers(headers, names.drop_last()) + match header_value_spec(headers, names.last()) {
            Some(v) => seq![names.last() + ": "@ + v],
            None => seq![],
        }
    }
}

/// The header names a forwarded message repeats, in order.
pub open spec fn forwarded_names() -> Seq<Seq<char>> {
    seq!["From"@, "Date"@, "Subject"@, "To"@, "Cc"@]
}

/// The body of a forward: a marker line, the original's From, Date,
/// Subject, To, and Cc lines where present, an empty line, and its text.
pub open spec fn forwarded_body_spec(headers: Seq<(Seq<char>, Seq<char>)>, text: Option<Seq<char>>) -> Seq<char> {
    join(
        seq!["---------- Forwarded message ----------"@] + forwarded_headers(headers, forwarded_names())
            + seq![seq![], readable_text(text)],
        "\n"@,
    )
}

/// The body of a forward of `message`.
pub fn forwarded_body(message: &MessageDocument) -> (r: String)
    ensures
        r@ == forwarded_body_spec(message@.headers, message@.text),
{
    let mut pieces: Vec<Vec<char>> = Vec::new();
    pieces.push(chars_of("---------- Forwarded message ----------"));
    let names = ["From", "Date", "Subject", "To", "Cc"];
    let ghost spec_names = names@.map_values(|n: &str| n@);
    assert(spec_names =~= forwarded_names());
    let ghost first = pieces@[0]@;
    let mut i: usize = 0;
    while i < names.len()
        invariant
            i <= names@.len(),
            spec_names == names@.map_values(|n: &str| n@),
            first == "---------- Forwarded message ----------"@,
            seq_of_pieces(pieces@) == seq![first] + forwarded_headers(message@.headers, spec_names.take(i as int)),
        decreases names@.len() - i,
    {
        assert(spec_names.take(i + 1).drop_last() =~= spec_names.take(i as int));
        assert(spec_names[i as int] == names@[i as int]@);
        let ghost before = seq_of_pieces(pieces@);
        match message.header_value(names[i]) {
            Some(v) => {
                let mut line = chars_of(names[i]);
                push_all(&mut line, chars_of(": ").as_slice());
                push_all(&mut line, chars_of(v.as_str()).as_slice());
                let ghost lv = line@;
                pieces.push(line);
                assert(seq_of_pieces(pieces@) =~= before.push(lv));
            },
            None => {},
        }
        i += 1;
        assert(seq_of_pieces(pieces@) =~= seq![first] + forwarded_headers(message@.headers, spec_names.take(i as int)));
    }
    assert(spec_names.take(i as int) =~= spec_names);
    let ghost before = seq_of_pieces(pieces@);
    pieces.push(Vec::new());
    let text = text_chars(message);
    let ghost tv = text@;
    pieces.push(text);
    assert(seq_of_pieces(pieces@) =~= before + seq![seq![], tv]);
    let nl = chars_of("\n");
    let joined = join_chars(&pieces, nl.as_slice());
    string_of(joined.as_slice())
}

/// The text after `From:` on the first line that starts with it.
pub open spec fn first_from_line(ls: Seq<Seq<char>>) -> Option<Seq<char>>
    decreases ls.len(),
{
    if ls.len() == 0 {
        None
    } else if starts_with(ls[0], "From:"@) {
        Some(ls[0].skip(5))
    } else {
        first_from_line(ls.drop_first())
    }
}

/// Whom a draft is from, for encrypting it to its own sender: the trimmed
/// value of its first `From:` line, empty when it has none.
pub open spec fn draft_sender_spec(template: Seq<char>) -> Seq<char> {
    match first_from_line(lines(template)) {
        Some(v) => trim(v),
        None => Seq::<char>::empty(),
    }
}

/// The sender a draft names.
pub fn draft_sender(template: &str) -> (r: String)
    ensures
        r@ == draft_sender_spec(template@),
{
    let cs = chars_of(template);
    let ls = lines_chars(cs.as_slice());
    let prefix = chars_of("From:");
    proof {
        reveal_strlit("From:");
    }
    let ghost all = lines(template@);
    let mut i: usize = 0;
    assert(all.skip(0) =~= all);
    while i < ls.len()
        invariant
            i <= ls@.len(),
            seq_of_pieces(ls@) == all,
            all == lines(template@),
            prefix@ == "From:"@,
            prefix@.len() == 5,
            first_from_line(all) == first_from_line(all.skip(i as int)),
        decreases ls@.len() - i,
    {
        assert(all.skip(i as int)[0] == ls@[i as int]@);
        let line = ls[i].as_slice();
        if starts_with_chars(line, prefix.as_slice()) {
            let rest = trim_chars(&line[5..line.len()]);
            assert(line@.subrange(5, line@.len() as int) =~= line@.skip(5));
            return string_of(rest.as_slice());
        }
        assert(all.skip(i as int).drop_first() =~= all.skip(i + 1));
        i += 1;
    }
    assert(all.skip(i as int) =~= Seq::<Seq<char>>::empty());
    proof {
        reveal_strlit("");
    }
    string_of(chars_of("").as_slice())
}

/// The compose template that forwards `original`: its subject marked as
/// forwarded, and the forwarded message as the body.
pub fn forward_template(original: &MessageDocument) -> (r: String)
    ensures
        r@ == render_headers(seq![(
            "Subject"@,
            forward_subject_spec(or_empty(header_value_spec(original@.headers, "Subject"@))),
        )]) + "\n"@ + forwarded_body_spec(original@.headers, original@.text),
{
    let subject = forward_subject(original.header_value("Subject"));
    let body = forwarded_body(original);
    let headers = vec![("Subject", subject)];
    let r = render_template(headers.as_slice(), body.as_str());
    assert(named_values_view(headers@) =~= seq![(
        "Subject"@,
        forward_subject_spec(or_empty(header_value_spec(original@.headers, "Subject"@))),
    )]);
    r
}

/// Whom a reply goes to: the Reply-To address, else the sender, else nobody.
pub open spec fn reply_to_spec(headers: Seq<(Seq<char>, Seq<char>)>) -> Seq<char> {
    match header_value_spec(headers, "Reply-To"@) {
        Some(v) => v,
        None => or_empty(header_value_spec(headers, "From"@)),
    }
}

/// The header fields of a reply: To, Cc (the original's Cc when replying to
/// all, else empty), the subject marked as a reply, then the headers that
/// thread it under the original.
pub open spec fn reply_headers_spec(
    headers: Seq<(Seq<char>, Seq<char>)>,
    all: bool,
    thread: Seq<(Seq<char>, Seq<char>)>,
) -> Seq<(Seq<char>, Seq<char>)> {
    seq![
        ("To"@, reply_to_spec(headers)),
        ("Cc"@, if all { or_empty(header_value_spec(headers, "Cc"@)) } else { Seq::<char>::empty() }),
        ("Subject"@, reply_subject_spec(or_empty(header_value_spec(headers, "Subject"@)))),
    ] + thread
}

/// The compose template that replies to `original` (to all its recipients
/// when `all`), threaded with `thread_headers`, quoting the original below.
pub fn reply_template(original: &MessageDocument, all: bool, thread_headers: &[(&str, String)]) -> (r: String)
    ensures
        r@ == render_headers(reply_headers_spec(original@.headers, all, named_values_view(thread_headers@)))
            + "\n"@ + quoted_reply_spec(original@.headers, original@.text),
{
    let to = match original.header_value("Reply-To") {
        Some(v) => v,
        None => match original.header_value("From") {
            Some(v) => v,
            None => string_of(chars_of("").as_slice()),
        },
    };
    let cc = if all {
        match original.header_value("Cc") {
            Some(v) => v,
            None => string_of(chars_of("").as_slice()),
        }
    } else {
        string_of(chars_of("").as_slice())
    };
    proof {
        reveal_strlit("");
    }
    let subject = reply_subject(original.header_value("Subject"));
    let body = quoted_reply_body(original);
    let mut headers: Vec<(&str, String)> = vec![("To", to), ("Cc", cc), ("Subject", subject)];
    let ghost first = named_values_view(headers@);
    assert(headers@.len() == 3);
    assert(first[0] == ("To"@, reply_to_spec(original@.headers)));
    assert(first[1].1 == (if all { or_empty(header_value_spec(original@.headers, "Cc"@)) } else { Seq::<char>::empty() }));
    assert(first[2].1 == reply_subject_spec(or_empty(header_value_spec(original@.headers, "Subject"@))));
    assert(first =~= seq![
        ("To"@, reply_to_spec(original@.headers)),
        ("Cc"@, if all { or_empty(header_value_spec(original@.headers, "Cc"@)) } else { Seq::<char>::empty() }),
        ("Subject"@, reply_subject_spec(or_empty(header_value_spec(original@.headers, "Subject"@)))),
    ]);
    let mut i: usize = 0;
    while i < thread_headers.len()
        invariant
            i <= thread_headers@.len(),
            named_values_view(headers@) == first + named_values_view(thread_headers@).take(i as int),
            first == seq![
                ("To"@, reply_to_spec(original@.headers)),
                ("Cc"@, if all { or_empty(header_value_spec(original@.headers, "Cc"@)) } else { Seq::<char>::empty() }),
                ("Subject"@, reply_subject_spec(or_empty(header_value_spec(original@.headers, "Subject"@)))),
            ],
        decreases thread_headers@.len() - i,
    {
        let ghost before = headers@;
        headers.push((thread_headers[i].0, thread_headers[i].1.clone()));
        assert(named_values_view(headers@) =~= named_values_view(before).push(
            (thread_headers@[i as int].0@, thread_headers@[i as int].1@),
        ));
        assert(named_values_view(thread_headers@).take(i + 1) =~= named_values_view(thread_headers@).take(
            i as int,
        ).push((thread_headers@[i as int].0@, thread_headers@[i as int].1@)));
        i += 1;
    }
    assert(named_values_view(thread_headers@).take(i as int) =~= named_values_view(thread_headers@));
    render_template(headers.as_slice(), body.as_str())
}


/// The subject's first three characters read `re:` in any ASCII case.
pub open spec fn marked_as_reply(s: Seq<char>) -> bool {
    &&& s.len() >= 3
    &&& s[0] == 'r' || s[0] == 'R'
    &&& s[1] == 'e' || s[1] == 'E'
    &&& s[2] == ':'
}

/// A reply subject marks a reply exactly once: a subject whose first three
/// characters are `re:` in any ASCII case is kept as it is; any other
/// non-empty subject gets `Re: ` in front of it, and an empty one becomes
/// `Re:`. Replying to a reply's subject changes nothing more.
pub proof fn law_reply_subject_marks_replies_once(s: Seq<char>)
    ensures
        marked_as_reply(s) ==> reply_subject_spec(s) == s,
        !marked_as_reply(s) && s.len() > 0 ==> reply_subject_spec(s) == seq!['R', 'e', ':', ' '] + s,
        s.len() == 0 ==> reply_subject_spec(s) == seq!['R', 'e', ':'],
        reply_subject_spec(reply_subject_spec(s)) == reply_subject_spec(s),
{
    reveal_strlit("re:");
    reveal_strlit("Re:");
    reveal_strlit("Re: ");
    let m = "re:"@;
    let l = lower_seq(s);
    if s.len() >= 3 {
        assert(l.take(3)[0] == lower(s[0]));
        assert(l.take(3)[1] == lower(s[1]));
        assert(l.take(3)[2] == lower(s[2]));
        assert(starts_with(l, m) <==> marked_as_reply(s)) by {
            if marked_as_reply(s) {
                assert(l.take(3) =~= m);
            }
        }
    } else {
        assert(!starts_with(l, m));
    }
    let r = reply_subject_spec(s);
    if !marked_as_reply(s) && s.len() > 0 {
        assert(r == seq!['R', 'e', ':', ' '] + s);
        assert(marked_as_reply(r));
        let lr = lower_seq(r);
        assert(lr.take(3) =~= m);
    } else if s.len() == 0 {
        assert(r =~= seq!['R', 'e', ':']);
        assert(lower_seq(r).take(3) =~= m);
    }
}


/// The subject's first four characters read `fwd:` in any ASCII case.
pub open spec fn marked_as_forward(s: Seq<char>) -> bool {
    &&& s.len() >= 4
    &&& s[0] == 'f' || s[0] == 'F'
    &&& s[1] == 'w' || s[1] == 'W'
    &&& s[2] == 'd' || s[2] == 'D'
    &&& s[3] == ':'
}

/// A forward subject marks a forward exactly once: a subject whose first
/// four characters are `fwd:` in any ASCII case is kept as it is; any other
/// non-empty subject gets `Fwd: ` in front of it, and an empty one becomes
/// `Fwd:`. Forwarding a forward's subject changes nothing more.
pub proof fn law_forward_subject_marks_forwards_once(s: Seq<char>)
    ensures
        marked_as_forward(s) ==> forward_subject_spec(s) == s,
        !marked_as_forward(s) && s.len() > 0 ==> forward_subject_spec(s) == seq!['F', 'w', 'd', ':', ' '] + s,
        s.len() == 0 ==> forward_subject_spec(s) == seq!['F', 'w', 'd', ':'],
        forward_subject_spec(forward_subject_spec(s)) == forward_subject_spec(s),
{
    reveal_strlit("fwd:");
    reveal_strlit("Fwd:");
    reveal_strlit("Fwd: ");
    let m = "fwd:"@;
    let l = lower_seq(s);
    if s.len() >= 4 {
        assert(l.take(4)[0] == lower(s[0]));
        assert(l.take(4)[1] == lower(s[1]));
        assert(l.take(4)[2] == lower(s[2]));
        assert(l.take(4)[3] == lower(s[3]));
        assert(starts_with(l, m) <==> marked_as_forward(s)) by {
            if marked_as_forward(s) {
                assert(l.take(4) =~= m);
            }
        }
    } else {
        assert(!starts_with(l, m));
    }
    let r = forward_subject_spec(s);
    if !marked_as_forward(s) && s.len() > 0 {
        assert(r == seq!['F', 'w', 'd', ':', ' '] + s);
        assert(marked_as_forward(r));
        assert(lower_seq(r).take(4) =~= m);
    } else if s.len() == 0 {
        assert(r =~= seq!['F', 'w', 'd', ':']);
        assert(lower_seq(r).take(4) =~= m);
    }
}

} // verus!
