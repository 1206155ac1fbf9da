//! What a rendered compose template reads back as.
use vstd::prelude::*;

use crate::template::first_header_index;
use crate::template::lemma_first_header_index;
use crate::template::lemma_first_header_is;
use crate::template::folded;
use crate::template::parse_lines;
use crate::template::parse_step;
use crate::template::parse_template_spec;
use crate::template::render_headers;
use crate::template::ParseState;
use crate::template::TemplateModel;
use crate::text::eq_ci;
use crate::text::find;
use crate::text::is_space;
use crate::text::join;
use crate::text::lemma_find;
use crate::text::lines;
use crate::text::lower_seq;
use crate::text::match_at;
use crate::text::strip_cr;
use crate::text::trim;
use crate::text::trim_end;
use crate::text::trim_start;

verus! {

// ---------------------------------------------------------------------------
// Lines.
// ---------------------------------------------------------------------------
proof fn lemma_find_char(s: Seq<char>, c: char, k: int)
    requires
        0 <= k < s.len(),
        s[k] == c,
        forall|j: int| 0 <= j < k ==> s[j] != c,
    ensures
        find(s, seq![c]) == k,
{
    lemma_find(s, seq![c]);
    assert(s.subrange(k, k + 1) =~= seq![c]);
    assert(match_at(s, seq![c], k));
    let f = find(s, seq![c]);
    if f != k {
        assert(s.subrange(f, f + 1) == seq![c]);
        assert(s[f] == s.subrange(f, f + 1)[0]);
    }
}

/// The lines of a line ended by `\n`, followed by more text.
proof fn lemma_lines_cons(l: Seq<char>, rest: Seq<char>)
    requires
        forall|j: int| 0 <= j < l.len() ==> l[j] != '\n',
    ensures
        lines(l + seq!['\n'] + rest) == seq![strip_cr(l)] + lines(rest),
{
    let s = l + seq!['\n'] + rest;
    assert(s[l.len() as int] == '\n');
    assert forall|j: int| 0 <= j < l.len() implies s[j] != '\n' by {
        assert(s[j] == l[j]);
    }
    lemma_find_char(s, '\n', l.len() as int);
    assert(s.take(l.len() as int) =~= l);
    assert(s.skip(l.len() as int + 1) =~= rest);
}

proof fn lemma_join_cons(a: Seq<char>, xs: Seq<Seq<char>>, sep: Seq<char>)
    requires
        xs.len() > 0,
    ensures
        join(seq![a] + xs, sep) == a + sep + join(xs, sep),
    decreases xs.len(),
{
    assert(join(seq![a], sep) == a);
    if xs.len() == 1 {
        assert((seq![a] + xs).drop_last() =~= seq![a]);
        assert((seq![a] + xs).last() == xs[0]);
        assert(join(seq![a] + xs, sep) == join(seq![a], sep) + sep + xs[0]);
        assert(join(xs, sep) == xs[0]);
    } else {
        lemma_join_cons(a, xs.drop_last(), sep);
        assert((seq![a] + xs).drop_last() =~= seq![a] + xs.drop_last());
        assert((seq![a] + xs).last() == xs.last());
        assert(join(seq![a] + xs, sep) == join(seq![a] + xs.drop_last(), sep) + sep + xs.last());
        assert(join(xs, sep) == join(xs.drop_last(), sep) + sep + xs.last());
        assert(a + sep + join(xs.drop_last(), sep) + sep + xs.last() =~= a + sep + (join(xs.drop_last(), sep) + sep + xs.last()));
    }
}

/// Text that a join of its own lines gives back: no carriage return, and no
/// line ending at the very end.
pub open spec fn plain_text(b: Seq<char>) -> bool {
    (forall|i: int| 0 <= i < b.len() ==> b[i] != '\r') && (b.len() > 0 ==> b.last() != '\n')
}

proof fn lemma_join_lines(b: Seq<char>)
    requires
        plain_text(b),
    ensures
        join(lines(b), "\n"@) == b,
    decreases b.len(),
{
    reveal_strlit("\n");
    if b.len() == 0 {
    } else {
        lemma_find(b, seq!['\n']);
        let i = find(b, seq!['\n']);
        if i < 0 {
            assert(lines(b) == seq![b]);
        } else {
            let l = b.take(i);
            let rest = b.skip(i + 1);
            assert(b.subrange(i, i + 1) == seq!['\n']);
            assert(b.subrange(i, i + 1)[0] == b[i]);
            assert(b[i] == '\n');
            assert forall|j: int| 0 <= j < l.len() implies l[j] != '\n' by {
                assert(!match_at(b, seq!['\n'], j));
                assert(b.subrange(j, j + 1) =~= seq![b[j]]);
            }
            assert(b =~= l + seq!['\n'] + rest);
            lemma_lines_cons(l, rest);
            assert(rest.len() > 0) by {
                if rest.len() == 0 {
                    assert(b.last() == b[i]);
                }
            }
            assert(plain_text(rest)) by {
                assert forall|j: int| 0 <= j < rest.len() implies rest[j] != '\r' by {
                    assert(rest[j] == b[i + 1 + j]);
                }
                assert(rest.last() == b.last());
            }
            lemma_join_lines(rest);
            assert(strip_cr(l) == l) by {
                if l.len() > 0 {
                    assert(l.last() == b[i - 1]);
                }
            }
            assert(lines(rest).len() > 0) by {
                lemma_find(rest, seq!['\n']);
            }
            lemma_join_cons(l, lines(rest), "\n"@);
            assert(l + "\n"@ + rest =~= b);
        }
    }
}

// ---------------------------------------------------------------------------
// Trimming.
// ---------------------------------------------------------------------------
proof fn lemma_trim_start_stops(s: Seq<char>)
    ensures
        trim_start(s).len() == 0 || !is_space(trim_start(s)[0]),
        trim_start(s).len() <= s.len(),
        trim_start(s) == s.skip(s.len() - trim_start(s).len()),
    decreases s.len(),
{
    if s.len() > 0 && is_space(s[0]) {
        lemma_trim_start_stops(s.drop_first());
        assert(s.drop_first().skip(s.drop_first().len() - trim_start(s).len()) =~= s.skip(s.len() - trim_start(s).len()));
    } else {
        assert(s.skip(0) =~= s);
    }
}

proof fn lemma_trim_end_stops(s: Seq<char>)
    ensures
        trim_end(s).len() == 0 || !is_space(trim_end(s).last()),
        trim_end(s).len() <= s.len(),
        trim_end(s) == s.take(trim_end(s).len() as int),
    decreases s.len(),
{
    if s.len() > 0 && is_space(s.last()) {
        lemma_trim_end_stops(s.drop_last());
        assert(s.drop_last().take(trim_end(s).len() as int) =~= s.take(trim_end(s).len() as int));
    } else {
        assert(s.take(s.len() as int) =~= s);
    }
}

proof fn lemma_trim_start_of_trimmed_end(s: Seq<char>)
    requires
        s.len() == 0 || !is_space(s[0]),
    ensures
        trim_end(s).len() == 0 || !is_space(trim_end(s)[0]),
{
    lemma_trim_end_stops(s);
    if trim_end(s).len() > 0 {
        assert(s.take(trim_end(s).len() as int)[0] == s[0]);
        assert(trim_end(s)[0] == s[0]);
    }
}

/// A trimmed text has no whitespace at either end.
proof fn lemma_trimmed(v: Seq<char>)
    ensures
        trim(v).len() == 0 || (!is_space(trim(v)[0]) && !is_space(trim(v).last())),
{
    lemma_trim_start_stops(v);
    lemma_trim_start_of_trimmed_end(trim_start(v));
    lemma_trim_end_stops(trim_start(v));
}

/// Trimming a space and a text without whitespace at its ends gives the text.
proof fn lemma_trim_space_before(t: Seq<char>)
    requires
        t.len() > 0,
        !is_space(t[0]),
        !is_space(t.last()),
    ensures
        trim(seq![' '] + t) == t,
{
    let s = seq![' '] + t;
    assert(s.drop_first() =~= t);
    assert(trim_start(s) == trim_start(t));
    assert(trim_start(t) == t);
    assert(trim_end(t) == t);
}

// ---------------------------------------------------------------------------
// Rendering from the front.
// ---------------------------------------------------------------------------
/// The line a header renders to, without its line ending: `Name: value`.
pub open spec fn header_text(h: (Seq<char>, Seq<char>)) -> Seq<char> {
    h.0 + ": "@ + trim(h.1)
}

/// The header has a value that is not blank, so it is rendered.
pub open spec fn rendered(h: (Seq<char>, Seq<char>)) -> bool {
    trim(h.1).len() > 0
}

/// The lines the rendered headers take, from the first.
pub open spec fn header_texts(hs: Seq<(Seq<char>, Seq<char>)>) -> Seq<Seq<char>>
    decreases hs.len(),
{
    if hs.len() == 0 {
        seq![]
    } else if rendered(hs[0]) {
        seq![header_text(hs[0])] + header_texts(hs.drop_first())
    } else {
        header_texts(hs.drop_first())
    }
}

/// The header fields a parse of the rendered headers gives: each rendered
/// header's name trimmed and in lowercase, with its value trimmed.
pub open spec fn rendered_fields(hs: Seq<(Seq<char>, Seq<char>)>) -> Seq<(Seq<char>, Seq<char>)>
    decreases hs.len(),
{
    if hs.len() == 0 {
        seq![]
    } else if rendered(hs[0]) {
        seq![(lower_seq(trim(hs[0].0)), trim(hs[0].1))] + rendered_fields(hs.drop_first())
    } else {
        rendered_fields(hs.drop_first())
    }
}

/// A header name that renders to a line of its own that reads back as this
/// header: no colon or line ending in it, and not starting like a folded
/// continuation line.
pub open spec fn plain_name(n: Seq<char>) -> bool {
    &&& forall|i: int| 0 <= i < n.len() ==> n[i] != ':' && n[i] != '\n'
    &&& n.len() > 0 ==> n[0] != ' ' && n[0] != '\t'
}

/// Every header has a plain name and a value without a line ending inside.
pub open spec fn plain_headers(hs: Seq<(Seq<char>, Seq<char>)>) -> bool {
    forall|i: int| 0 <= i < hs.len() ==> plain_name((#[trigger] hs[i]).0)
        && (forall|j: int| 0 <= j < trim(hs[i].1).len() ==> trim(hs[i].1)[j] != '\n')
}

proof fn lemma_render_cons(h: (Seq<char>, Seq<char>), t: Seq<(Seq<char>, Seq<char>)>)
    ensures
        render_headers(seq![h] + t) == (if rendered(h) { header_text(h) + "\n"@ } else { seq![] }) + render_headers(t),
    decreases t.len(),
{
    reveal_strlit("\n");
    reveal_strlit(": ");
    if t.len() == 0 {
        assert(seq![h] + t =~= seq![h]);
        assert(seq![h].drop_last() =~= Seq::<(Seq<char>, Seq<char>)>::empty());
        assert(seq![h].last() == h);
        assert(render_headers(Seq::<(Seq<char>, Seq<char>)>::empty()) == Seq::<char>::empty());
        let first = if rendered(h) { header_text(h) + "\n"@ } else { seq![] };
        assert(h.0 + ": "@ + trim(h.1) + "\n"@ == header_text(h) + "\n"@);
        assert(render_headers(seq![h]) =~= first);
        assert(first + render_headers(t) =~= first);
    } else {
        lemma_render_cons(h, t.drop_last());
        assert((seq![h] + t).drop_last() =~= seq![h] + t.drop_last());
        assert((seq![h] + t).last() == t.last());
        let first = if rendered(h) { header_text(h) + "\n"@ } else { seq![] };
        let tail = if trim(t.last().1).len() > 0 { t.last().0 + ": "@ + trim(t.last().1) + "\n"@ } else { seq![] };
        assert(first + render_headers(t.drop_last()) + tail =~= first + (render_headers(t.drop_last()) + tail));
    }
}

proof fn lemma_rendered_lines(hs: Seq<(Seq<char>, Seq<char>)>, b: Seq<char>)
    requires
        plain_headers(hs),
    ensures
        lines(render_headers(hs) + "\n"@ + b) == header_texts(hs) + seq![seq![]] + lines(b),
    decreases hs.len(),
{
    reveal_strlit("\n");
    reveal_strlit(": ");
    if hs.len() == 0 {
        assert(render_headers(hs) =~= Seq::<char>::empty());
        assert(render_headers(hs) + "\n"@ + b =~= Seq::<char>::empty() + seq!['\n'] + b);
        lemma_lines_cons(seq![], b);
        assert(strip_cr(Seq::<char>::empty()) =~= Seq::<char>::empty());
        assert(header_texts(hs) + seq![seq![]] + lines(b) =~= seq![Seq::<char>::empty()] + lines(b));
    } else {
        let h = hs[0];
        let t = hs.drop_first();
        assert(hs =~= seq![h] + t);
        lemma_render_cons(h, t);
        assert(plain_headers(t)) by {
            assert forall|i: int| 0 <= i < t.len() implies plain_name((#[trigger] t[i]).0)
                && (forall|j: int| 0 <= j < trim(t[i].1).len() ==> trim(t[i].1)[j] != '\n') by {
                assert(t[i] == hs[i + 1]);
            }
        }
        lemma_rendered_lines(t, b);
        if rendered(h) {
            let l = header_text(h);
            assert(plain_name(hs[0].0));
            assert forall|j: int| 0 <= j < l.len() implies l[j] != '\n' by {
                if j < h.0.len() {
                    assert(l[j] == h.0[j]);
                } else if j < h.0.len() + 2 {
                } else {
                    assert(l[j] == trim(h.1)[j - h.0.len() - 2]);
                }
            }
            assert(render_headers(hs) + "\n"@ + b =~= l + seq!['\n'] + (render_headers(t) + "\n"@ + b));
            lemma_lines_cons(l, render_headers(t) + "\n"@ + b);
            lemma_trimmed(h.1);
            assert(l.last() == trim(h.1).last());
            assert(strip_cr(l) == l);
            assert(header_texts(hs) == seq![l] + header_texts(t));
            assert(seq![l] + (header_texts(t) + seq![seq![]] + lines(b)) =~= header_texts(hs) + seq![seq![]] + lines(b));
        } else {
            assert(render_headers(hs) =~= render_headers(t));
            assert(header_texts(hs) == header_texts(t));
        }
    }
}

// ---------------------------------------------------------------------------
// Parsing from the front.
// ---------------------------------------------------------------------------
/// The state after reading `ls` from state `st`.
pub open spec fn parse_from(st: ParseState, ls: Seq<Seq<char>>) -> ParseState
    decreases ls.len(),
{
    if ls.len() == 0 {
        st
    } else {
        parse_from(parse_step(st, ls[0]), ls.drop_first())
    }
}

proof fn lemma_parse_from_push(st: ParseState, ls: Seq<Seq<char>>, x: Seq<char>)
    ensures
        parse_from(st, ls.push(x)) == parse_step(parse_from(st, ls), x),
    decreases ls.len(),
{
    assert(ls.push(x)[0] == if ls.len() == 0 { x } else { ls[0] });
    if ls.len() == 0 {
        assert(ls.push(x).drop_first() =~= Seq::<Seq<char>>::empty());
        assert(parse_from(parse_step(st, x), Seq::<Seq<char>>::empty()) == parse_step(st, x));
    } else {
        lemma_parse_from_push(parse_step(st, ls[0]), ls.drop_first(), x);
        assert(ls.push(x).drop_first() =~= ls.drop_first().push(x));
    }
}

proof fn lemma_parse_lines_from(ls: Seq<Seq<char>>)
    ensures
        parse_lines(ls) == parse_from(ParseState { headers: seq![], current: None, body: seq![], in_body: false }, ls),
    decreases ls.len(),
{
    if ls.len() > 0 {
        lemma_parse_lines_from(ls.drop_last());
        lemma_parse_from_push(ParseState { headers: seq![], current: None, body: seq![], in_body: false }, ls.drop_last(), ls.last());
        assert(ls.drop_last().push(ls.last()) =~= ls);
    }
}

proof fn lemma_parse_append(st: ParseState, a: Seq<Seq<char>>, b: Seq<Seq<char>>)
    ensures
        parse_from(st, a + b) == parse_from(parse_from(st, a), b),
    decreases a.len(),
{
    if a.len() == 0 {
        assert(a + b =~= b);
    } else {
        lemma_parse_append(parse_step(st, a[0]), a.drop_first(), b);
        assert((a + b).drop_first() =~= a.drop_first() + b);
    }
}

proof fn lemma_parse_body(st: ParseState, ls: Seq<Seq<char>>)
    requires
        st.in_body,
    ensures
        parse_from(st, ls) == (ParseState { body: st.body + ls, ..st }),
    decreases ls.len(),
{
    if ls.len() == 0 {
        assert(st.body + ls =~= st.body);
    } else {
        lemma_parse_body(ParseState { body: st.body.push(ls[0]), ..st }, ls.drop_first());
        assert(st.body.push(ls[0]) + ls.drop_first() =~= st.body + ls);
    }
}

proof fn lemma_parse_header_line(st: ParseState, h: (Seq<char>, Seq<char>))
    requires
        !st.in_body,
        plain_name(h.0),
        rendered(h),
    ensures
        parse_step(st, header_text(h)).headers == st.headers.push((lower_seq(trim(h.0)), trim(h.1))),
        parse_step(st, header_text(h)).current == Some(lower_seq(trim(h.0))),
        !parse_step(st, header_text(h)).in_body,
        parse_step(st, header_text(h)).body == st.body,
{
    reveal_strlit(": ");
    reveal_strlit(":");
    let l = header_text(h);
    let n = h.0;
    assert(l.len() > 0);
    if n.len() > 0 {
        assert(l[0] == n[0]);
    } else {
        assert(l[0] == ':');
    }
    assert(l[n.len() as int] == ':');
    assert forall|j: int| 0 <= j < n.len() implies l[j] != ':' by {
        assert(l[j] == n[j]);
    }
    lemma_find_char(l, ':', n.len() as int);
    assert(":"@ =~= seq![':']);
    assert(l.take(n.len() as int) =~= n);
    assert(l.skip(n.len() as int + 1) =~= seq![' '] + trim(h.1));
    lemma_trimmed(h.1);
    lemma_trim_space_before(trim(h.1));
}

proof fn lemma_parse_headers(st: ParseState, hs: Seq<(Seq<char>, Seq<char>)>)
    requires
        !st.in_body,
        plain_headers(hs),
    ensures
        parse_from(st, header_texts(hs)).headers == st.headers + rendered_fields(hs),
        !parse_from(st, header_texts(hs)).in_body,
        parse_from(st, header_texts(hs)).body == st.body,
    decreases hs.len(),
{
    if hs.len() == 0 {
        assert(st.headers + rendered_fields(hs) =~= st.headers);
    } else {
        let h = hs[0];
        let t = hs.drop_first();
        assert(plain_headers(t)) by {
            assert forall|i: int| 0 <= i < t.len() implies plain_name((#[trigger] t[i]).0)
                && (forall|j: int| 0 <= j < trim(t[i].1).len() ==> trim(t[i].1)[j] != '\n') by {
                assert(t[i] == hs[i + 1]);
            }
        }
        assert(plain_name(hs[0].0));
        if rendered(h) {
            lemma_parse_header_line(st, h);
            let st1 = parse_step(st, header_text(h));
            lemma_parse_headers(st1, t);
            assert((seq![header_text(h)] + header_texts(t)).drop_first() =~= header_texts(t));
            assert(st1.headers + rendered_fields(t) =~= st.headers + rendered_fields(hs));
        } else {
            lemma_parse_headers(st, t);
        }
    }
}

/// A rendered template reads back as what was rendered: the headers with a
/// value that is not blank, each with its name trimmed and in lowercase and
/// its value trimmed, and the body — for header names that keep to a line of
/// their own and a body that its own lines join back into.
pub proof fn law_rendered_template_reads_back(hs: Seq<(Seq<char>, Seq<char>)>, body: Seq<char>)
    requires
        plain_headers(hs),
        plain_text(body),
    ensures
        parse_template_spec(render_headers(hs) + "\n"@ + body) == (TemplateModel { headers: rendered_fields(hs), body }),
{
    let raw = render_headers(hs) + "\n"@ + body;
    let init = ParseState { headers: seq![], current: None, body: seq![], in_body: false };
    lemma_rendered_lines(hs, body);
    lemma_parse_lines_from(lines(raw));
    lemma_parse_append(init, header_texts(hs), seq![seq![]] + lines(body));
    lemma_parse_headers(init, hs);
    let st1 = parse_from(init, header_texts(hs));
    lemma_parse_append(st1, seq![seq![]], lines(body));
    let st2 = parse_step(st1, seq![]);
    assert(parse_from(st1, seq![seq![]]) == st2) by {
        assert(seq![Seq::<char>::empty()].drop_first() =~= Seq::<Seq<char>>::empty());
        assert(seq![Seq::<char>::empty()][0] == Seq::<char>::empty());
        assert(parse_from(st2, Seq::<Seq<char>>::empty()) == st2);
    }
    assert(st2.in_body);
    lemma_parse_body(st2, lines(body));
    assert(header_texts(hs) + seq![seq![]] + lines(body) =~= header_texts(hs) + (seq![seq![]] + lines(body)));
    assert(seq![] + rendered_fields(hs) =~= rendered_fields(hs));
    assert(Seq::<Seq<char>>::empty() + lines(body) =~= lines(body));
    lemma_join_lines(body);
}


/// A header whose value goes on in a folded line (a line starting with a
/// space or a tab) reads back as one header whose value is the first line's
/// value, a space, and the continuation line trimmed: nothing of the
/// continuation is lost, and it starts no header of its own.
pub proof fn law_folded_header_reads_back_whole(h: (Seq<char>, Seq<char>), c: Seq<char>, body: Seq<char>)
    requires
        plain_headers(seq![h]),
        rendered(h),
        c.len() > 0,
        c[0] == ' ' || c[0] == '\t',
        forall|j: int| 0 <= j < c.len() ==> c[j] != '\n' && c[j] != '\r',
        plain_text(body),
    ensures
        parse_template_spec(header_text(h) + "\n"@ + c + "\n"@ + "\n"@ + body) == (TemplateModel {
            headers: seq![(lower_seq(trim(h.0)), trim(h.1) + seq![' '] + trim(c))],
            body,
        }),
{
    reveal_strlit("\n");
    reveal_strlit(": ");
    let l = header_text(h);
    let raw = l + "\n"@ + c + "\n"@ + "\n"@ + body;
    let key = lower_seq(trim(h.0));
    let v = trim(h.1);
    assert(plain_name(h.0) && forall|j: int| 0 <= j < v.len() ==> v[j] != '\n') by {
        assert(seq![h][0] == h);
    }
    assert forall|j: int| 0 <= j < l.len() implies l[j] != '\n' by {
        if j < h.0.len() {
            assert(l[j] == h.0[j]);
        } else if j < h.0.len() + 2 {
        } else {
            assert(l[j] == v[j - h.0.len() - 2]);
        }
    }
    lemma_trimmed(h.1);
    assert(strip_cr(l) == l) by {
        assert(l.last() == v.last());
    }
    assert(strip_cr(c) == c);
    assert(strip_cr(Seq::<char>::empty()) == Seq::<char>::empty());
    let rest2 = seq!['\n'] + body;
    let rest1 = c + seq!['\n'] + rest2;
    assert(raw =~= l + seq!['\n'] + rest1);
    lemma_lines_cons(l, rest1);
    lemma_lines_cons(c, rest2);
    assert(rest2 =~= Seq::<char>::empty() + seq!['\n'] + body);
    lemma_lines_cons(Seq::<char>::empty(), body);
    let ls = lines(raw);
    assert(ls =~= seq![l, c, Seq::<char>::empty()] + lines(body));
    let init = ParseState { headers: seq![], current: None, body: seq![], in_body: false };
    lemma_parse_lines_from(ls);
    lemma_parse_append(init, seq![l, c, Seq::<char>::empty()], lines(body));
    lemma_parse_header_line(init, h);
    let st1 = parse_step(init, l);
    assert(st1.headers =~= seq![(key, v)]);
    assert(first_header_index(st1.headers, key) == 0);
    let st2 = parse_step(st1, c);
    assert(st2.headers =~= seq![(key, v + seq![' '] + trim(c))]);
    let st3 = parse_step(st2, Seq::<char>::empty());
    assert(st3.in_body);
    assert(parse_from(init, seq![l, c, Seq::<char>::empty()]) == st3) by {
        let three = seq![l, c, Seq::<char>::empty()];
        assert(three[0] == l);
        assert(three.drop_first() =~= seq![c, Seq::<char>::empty()]);
        assert(three.drop_first()[0] == c);
        assert(three.drop_first().drop_first() =~= seq![Seq::<char>::empty()]);
        assert(three.drop_first().drop_first()[0] == Seq::<char>::empty());
        assert(three.drop_first().drop_first().drop_first() =~= Seq::<Seq<char>>::empty());
        assert(parse_from(st3, Seq::<Seq<char>>::empty()) == st3);
        assert(parse_from(st2, three.drop_first().drop_first()) == st3);
        assert(parse_from(st1, three.drop_first()) == st3);
        assert(parse_from(init, three) == parse_from(st1, three.drop_first()));
    }
    lemma_parse_body(st3, lines(body));
    assert(Seq::<Seq<char>>::empty() + lines(body) =~= lines(body));
    lemma_join_lines(body);
}


/// Among the headers, a line that starts with a space or a tab goes on with
/// the header being read: the first header with that header's name gets a
/// space (unless its value is empty) and the line trimmed at the end of its
/// value; no other header, and nothing of the body, changes, and no header
/// is added. Before any header it changes nothing.
pub proof fn law_continuation_line_extends_its_header(ls: Seq<Seq<char>>, c: Seq<char>, i: int)
    requires
        !parse_lines(ls).in_body,
        c.len() > 0,
        c[0] == ' ' || c[0] == '\t',
    ensures
        ({
            let b = parse_lines(ls);
            let a = parse_lines(ls.push(c));
            &&& !a.in_body
            &&& a.body == b.body
            &&& a.current == b.current
            &&& a.headers.len() == b.headers.len()
            &&& b.current is None ==> a.headers == b.headers
            &&& (b.current matches Some(k) && 0 <= i < b.headers.len() && eq_ci(b.headers[i].0, k)
                && (forall|j: int| 0 <= j < i ==> !eq_ci(#[trigger] b.headers[j].0, k)))
                ==> a.headers == b.headers.update(i, (
                    b.headers[i].0,
                    if b.headers[i].1.len() > 0 { b.headers[i].1 + seq![' '] + trim(c) } else { trim(c) },
                ))
        }),
{
    assert(ls.push(c).drop_last() =~= ls);
    assert(ls.push(c).last() == c);
    let b = parse_lines(ls);
    assert(parse_lines(ls.push(c)) == parse_step(b, c));
    if let Some(k) = b.current {
        lemma_first_header_index(b.headers, k);
        if 0 <= i < b.headers.len() && eq_ci(b.headers[i].0, k)
            && (forall|j: int| 0 <= j < i ==> !eq_ci(#[trigger] b.headers[j].0, k)) {
            lemma_first_header_is(b.headers, k, i);
            assert(folded(b.headers[i].1, c) =~= if b.headers[i].1.len() > 0 { b.headers[i].1 + seq![' '] + trim(c) } else { trim(c) });
        }
    }
}

} // verus!
