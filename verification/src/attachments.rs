//! Attachments of a raw message, and the file names they are saved under.
use mail_parser::MimeHeaders;
use vstd::prelude::*;

use crate::errors::{MailError, MailErrorKind, MailResult};
use crate::template::{sanitize_file_name, sanitized};
use crate::text::{chars_of, decimal, push_all, push_decimal, string_of};

verus! {

/// What `mail_parser` reports as the attachments of a raw message, in order:
/// each one's file name, when it has one, and its decoded content.
pub uninterp spec fn message_attachments(raw: Seq<u8>) -> Option<Seq<(Option<Seq<char>>, Seq<u8>)>>;

pub open spec fn named_bytes_view(v: Seq<(Option<String>, Vec<u8>)>) -> Seq<(Option<Seq<char>>, Seq<u8>)> {
    v.map_values(|a: (Option<String>, Vec<u8>)| (match a.0 { Some(n) => Some(n@), None => None }, a.1@))
}

/// Parse a raw message with `mail_parser` (minimal headers) and list its
/// attachments. The claim is that the result depends on the bytes alone,
/// named `message_attachments`.
#[verifier::external_body]
fn attachments_with_mail_parser(raw: &[u8]) -> (r: Option<Vec<(Option<String>, Vec<u8>)>>)
    ensures
        r is None <==> message_attachments(raw@) is None,
        r matches Some(v) ==> named_bytes_view(v@) == message_attachments(raw@)->0,
{
    let message = mail_parser::MessageParser::new().with_minimal_headers().default_header_text().parse(raw)?;
    Some(message.attachments().map(|part| (part.attachment_name().map(str::to_string), part.contents().to_vec())).collect())
}

/// The name an attachment is saved under: its own name when it has a
/// non-empty one, otherwise `attachment-N` for its 1-based position.
pub open spec fn attachment_label(name: Option<Seq<char>>, index: nat) -> Seq<char> {
    match name {
        Some(n) => if n.len() > 0 {
            n
        } else {
            "attachment-"@ + decimal(index + 1)
        },
        None => "attachment-"@ + decimal(index + 1),
    }
}

fn numbered_name(prefix: &str, index: usize) -> (r: Vec<char>)
    requires
        index < usize::MAX,
    ensures
        r@ == prefix@ + decimal((index + 1) as nat),
{
    let mut v = chars_of(prefix);
    push_decimal(&mut v, (index + 1) as u64);
    v
}

/// The attachments of a raw message with the names they are saved under.
pub fn extract_attachments(raw: &[u8]) -> (r: MailResult<Vec<(String, Vec<u8>)>>)
    ensures
        r is Err <==> message_attachments(raw@) is None,
        r matches Err(e) ==> e.kind == MailErrorKind::Other,
        r matches Ok(v) ==> {
            let found = message_attachments(raw@)->0;
            &&& v@.len() == found.len()
            &&& forall|i: int| 0 <= i < v@.len() ==> (#[trigger] v@[i]).0@ == attachment_label(found[i].0, i as nat) && v@[i].1@ == found[i].1
        },
{
    let found = match attachments_with_mail_parser(raw) {
        Some(found) => found,
        None => {
            return Err(MailError::other("failed to parse message attachments"));
        },
    };
    let ghost spec_found = named_bytes_view(found@);
    let mut out: Vec<(String, Vec<u8>)> = Vec::new();
    let mut i: usize = 0;
    while i < found.len()
        invariant
            i <= found@.len(),
            spec_found == named_bytes_view(found@),
            out@.len() == i,
            forall|k: int| 0 <= k < i ==> (#[trigger] out@[k]).0@ == attachment_label(spec_found[k].0, k as nat) && out@[k].1@ == spec_found[k].1,
        decreases found@.len() - i,
    {
        let name = match &found[i].0 {
            Some(n) => {
                if !n.as_str().is_empty() {
                    n.clone()
                } else {
                    string_of(numbered_name("attachment-", i).as_slice())
                }
            },
            None => string_of(numbered_name("attachment-", i).as_slice()),
        };
        out.push((name, found[i].1.clone()));
        i += 1;
    }
    Ok(out)
}

/// Whether `base/name` names an existing file or directory
/// (`std::path::Path::exists`). The answer depends on the file system, so
/// nothing is stated of it.
#[verifier::external_body]
fn path_exists(base: &str, name: &str) -> bool {
    std::path::Path::new(base).join(name).exists()
}

/// The name an attachment would be saved under before collisions are
/// considered: its sanitized name, or `attachment-N` when that is empty.
pub open spec fn attachment_candidate(index: nat, requested: Seq<char>) -> Seq<char> {
    if sanitized(requested).len() == 0 {
        "attachment-"@ + decimal(index + 1)
    } else {
        sanitized(requested)
    }
}

/// The index of the last `.` in `s`, or -1.
pub open spec fn last_dot(s: Seq<char>) -> int
    decreases s.len(),
{
    if s.len() == 0 {
        -1
    } else if s.last() == '.' {
        s.len() - 1
    } else {
        last_dot(s.drop_last())
    }
}

proof fn lemma_last_dot(s: Seq<char>)
    ensures
        -1 <= last_dot(s) < s.len(),
        last_dot(s) >= 0 ==> s[last_dot(s)] == '.',
        forall|k: int| last_dot(s) < k < s.len() ==> s[k] != '.',
    decreases s.len(),
{
    if s.len() > 0 && s.last() != '.' {
        lemma_last_dot(s.drop_last());
        assert forall|k: int| last_dot(s) < k < s.len() implies s[k] != '.' by {
            if k < s.len() - 1 {
                assert(s[k] == s.drop_last()[k]);
            }
        }
    }
}

/// `candidate` with `-k` inserted before its last extension, or appended when
/// it has no `.`.
pub open spec fn suffixed(candidate: Seq<char>, k: nat) -> Seq<char> {
    let d = last_dot(candidate);
    if d >= 0 {
        candidate.take(d) + "-"@ + decimal(k) + "."@ + candidate.skip(d + 1)
    } else {
        candidate + "-"@ + decimal(k)
    }
}

fn suffixed_name(candidate: &[char], k: u64) -> (r: Vec<char>)
    ensures
        r@ == suffixed(candidate@, k as nat),
{
    proof {
        lemma_last_dot(candidate@);
    }
    let mut d: usize = candidate.len();
    while d > 0 && candidate[d - 1] != '.'
        invariant
            d <= candidate@.len(),
            forall|j: int| d <= j < candidate@.len() ==> candidate@[j] != '.',
        decreases d,
    {
        d -= 1;
    }
    proof {
        assert(last_dot(candidate@) == d - 1) by {
            let l = last_dot(candidate@);
            if l > d - 1 {
                assert(candidate@[l] == '.');
            } else if l < d - 1 {
                assert(candidate@[d - 1] == '.');
            }
        }
    }
    proof {
        reveal_strlit("-");
        reveal_strlit(".");
    }
    let mut out: Vec<char> = Vec::new();
    if d > 0 {
        push_all(&mut out, &candidate[0..d - 1]);
        out.push('-');
        push_decimal(&mut out, k);
        out.push('.');
        push_all(&mut out, &candidate[d..candidate.len()]);
        assert(candidate@.subrange(0, d - 1) =~= candidate@.take(d - 1));
        assert(candidate@.subrange(d as int, candidate@.len() as int) =~= candidate@.skip(d as int));
        assert(out@ =~= suffixed(candidate@, k as nat));
    } else {
        push_all(&mut out, candidate);
        out.push('-');
        push_decimal(&mut out, k);
        assert(out@ =~= suffixed(candidate@, k as nat));
    }
    out
}

/// The name tried at attempt `k` for a candidate: the candidate itself
/// first, then its `-2` … `-999` variants.
pub open spec fn attempt_name(candidate: Seq<char>, k: nat) -> Seq<char> {
    if k < 2 { candidate } else { suffixed(candidate, k) }
}

/// What follows one existence check while looking for a free name.
#[derive(Debug, Clone, PartialEq, Eq)]
pub enum NameProbe {
    /// Save under this name.
    Use(String),
    /// Check the name of this attempt next.
    Try(u64),
}

/// The step after checking whether the name of attempt `k` exists: a free
/// name is used at once; a taken one moves on to the next attempt; when the
/// last variant (`-999`) is taken as well, the candidate itself is used.
pub fn name_step(candidate: &str, k: u64, exists: bool) -> (r: NameProbe)
    requires
        1 <= k <= 999,
    ensures
        !exists ==> (r matches NameProbe::Use(n) && n@ == attempt_name(candidate@, k as nat)),
        exists && k < 999 ==> r == NameProbe::Try((k + 1) as u64),
        exists && k == 999 ==> (r matches NameProbe::Use(n) && n@ == candidate@),
{
    if !exists {
        if k < 2 {
            NameProbe::Use(string_of(chars_of(candidate).as_slice()))
        } else {
            NameProbe::Use(string_of(suffixed_name(chars_of(candidate).as_slice(), k).as_slice()))
        }
    } else if k < 999 {
        NameProbe::Try(k + 1)
    } else {
        NameProbe::Use(string_of(chars_of(candidate).as_slice()))
    }
}

/// A file name under `base` for an attachment that does not collide with an
/// existing file: the candidate name when it is free, else the first free
/// `-2` … `-999` variant, else the candidate after all. Each step is
/// `name_step` on what the file system answered.
pub fn ensure_unique_attachment_name(base: &str, index: usize, requested: &str) -> (r: String)
    requires
        index < usize::MAX,
    ensures
        exists|k: nat| 1 <= k <= 999 && r@ == attempt_name(attachment_candidate(index as nat, requested@), k),
{
    let sanitized_name = sanitize_file_name(requested);
    let candidate = if sanitized_name.as_str().is_empty() {
        string_of(numbered_name("attachment-", index).as_slice())
    } else {
        sanitized_name
    };
    let ghost c = attachment_candidate(index as nat, requested@);
    let mut k: u64 = 1;
    loop
        invariant
            1 <= k <= 999,
            candidate@ == c,
            c == attachment_candidate(index as nat, requested@),
        decreases 1000 - k,
    {
        let name = if k < 2 {
            string_of(chars_of(candidate.as_str()).as_slice())
        } else {
            string_of(suffixed_name(chars_of(candidate.as_str()).as_slice(), k).as_slice())
        };
        let exists = path_exists(base, name.as_str());
        match name_step(candidate.as_str(), k, exists) {
            NameProbe::Use(n) => {
                proof {
                    if exists {
                        assert(n@ == attempt_name(c, 1));
                    } else {
                        assert(n@ == attempt_name(c, k as nat));
                    }
                }
                return n;
            },
            NameProbe::Try(next) => {
                k = next;
            },
        }
    }
}

/// Downloading needs something to download: a message without attachments
/// is refused.
pub fn require_attachments(attachments: &[(String, Vec<u8>)]) -> (r: MailResult<()>)
    ensures
        attachments@.len() > 0 ==> r is Ok,
        attachments@.len() == 0 ==> (r matches Err(e) && e.kind == MailErrorKind::UnsupportedFeature
            && e.message@ == "this message does not include any downloadable attachments"@),
{
    if attachments.len() == 0 {
        Err(MailError::unsupported_feature("this message does not include any downloadable attachments"))
    } else {
        Ok(())
    }
}

/// The report of a download: the saved paths, in order, separated by `, `.
pub fn saved_report(paths: &Vec<String>) -> (r: String)
    ensures
        r@ == crate::text::join(crate::text::strings_view(paths@), ", "@),
{
    let mut pieces: Vec<Vec<char>> = Vec::new();
    let mut i: usize = 0;
    while i < paths.len()
        invariant
            i <= paths@.len(),
            crate::text::seq_of_pieces(pieces@) == crate::text::strings_view(paths@).take(i as int),
        decreases paths@.len() - i,
    {
        let ghost before = pieces@;
        pieces.push(chars_of(paths[i].as_str()));
        proof {
            assert(crate::text::seq_of_pieces(pieces@) =~= crate::text::seq_of_pieces(before).push(paths@[i as int]@));
            assert(crate::text::strings_view(paths@).take(i + 1) =~= crate::text::strings_view(paths@).take(i as int).push(paths@[i as int]@));
        }
        i += 1;
    }
    assert(crate::text::strings_view(paths@).take(i as int) =~= crate::text::strings_view(paths@));
    let sep = chars_of(", ");
    let joined = crate::text::join_chars(&pieces, sep.as_slice());
    string_of(joined.as_slice())
}

} // verus!
