//! RFC 6154 mailbox roles, and choosing the mailbox that plays a role.
use vstd::prelude::*;
use crate::text::strings_view;
use crate::text::opt_view;

use crate::text::{chars_of, eq_chars, eq_ci, eq_ci_chars, lower_chars, lower_seq, trim, trim_chars};

verus! {

/// The special use a mailbox is put to.
#[derive(Debug, Clone, Copy, PartialEq, Eq, Structural)]
pub enum FolderRole {
    Sent,
    Drafts,
    Trash,
    Archive,
    Junk,
    Flagged,
    All,
    Other,
}

/// A mailbox as listed to the user.
#[derive(Debug, Clone)]
pub struct Folder {
    pub name: String,
    pub desc: Option<String>,
    pub role: FolderRole,
}

/// The role an RFC 6154 attribute names, compared ASCII case-insensitively.
pub open spec fn role_of_attribute(name: Seq<char>) -> Option<FolderRole> {
    if eq_ci(name, "\\Sent"@) {
        Some(FolderRole::Sent)
    } else if eq_ci(name, "\\Drafts"@) {
        Some(FolderRole::Drafts)
    } else if eq_ci(name, "\\Trash"@) {
        Some(FolderRole::Trash)
    } else if eq_ci(name, "\\Archive"@) {
        Some(FolderRole::Archive)
    } else if eq_ci(name, "\\Junk"@) {
        Some(FolderRole::Junk)
    } else if eq_ci(name, "\\Flagged"@) {
        Some(FolderRole::Flagged)
    } else if eq_ci(name, "\\All"@) {
        Some(FolderRole::All)
    } else {
        None
    }
}

/// The role named by the first attribute that names one, after trimming;
/// `Other` when none does.
pub open spec fn role_from_names_spec(names: Seq<Seq<char>>) -> FolderRole
    decreases names.len(),
{
    if names.len() == 0 {
        FolderRole::Other
    } else {
        match role_of_attribute(trim(names[0])) {
            Some(role) => role,
            None => role_from_names_spec(names.drop_first()),
        }
    }
}

fn is_ci(a: &[char], lit: &str) -> (r: bool)
    ensures
        r == eq_ci(a@, lit@),
{
    let l = chars_of(lit);
    eq_ci_chars(a, l.as_slice())
}

fn role_of_attribute_exec(name: &[char]) -> (r: Option<FolderRole>)
    ensures
        r == role_of_attribute(name@),
{
    if is_ci(name, "\\Sent") {
        Some(FolderRole::Sent)
    } else if is_ci(name, "\\Drafts") {
        Some(FolderRole::Drafts)
    } else if is_ci(name, "\\Trash") {
        Some(FolderRole::Trash)
    } else if is_ci(name, "\\Archive") {
        Some(FolderRole::Archive)
    } else if is_ci(name, "\\Junk") {
        Some(FolderRole::Junk)
    } else if is_ci(name, "\\Flagged") {
        Some(FolderRole::Flagged)
    } else if is_ci(name, "\\All") {
        Some(FolderRole::All)
    } else {
        None
    }
}

/// RFC 6154 role from attribute names.
pub fn role_from_names(names: &[String]) -> (r: FolderRole)
    ensures
        r == role_from_names_spec(strings_view(names@)),
{
    let ghost all = strings_view(names@);
    let mut i: usize = 0;
    assert(all.skip(0) =~= all);
    while i < names.len()
        invariant
            i <= names@.len(),
            all == strings_view(names@),
            role_from_names_spec(all) == role_from_names_spec(all.skip(i as int)),
        decreases names@.len() - i,
    {
        let cs = chars_of(names[i].as_str());
        let t = trim_chars(cs.as_slice());
        assert(all.skip(i as int)[0] == names@[i as int]@);
        if let Some(role) = role_of_attribute_exec(t.as_slice()) {
            return role;
        }
        assert(all.skip(i as int).drop_first() =~= all.skip(i + 1));
        i += 1;
    }
    FolderRole::Other
}

/// A LIST entry as character sequences: the mailbox name and its attributes.
pub open spec fn entry_view(e: (String, Vec<String>)) -> (Seq<char>, Seq<Seq<char>>) {
    (e.0@, strings_view(e.1@))
}

pub open spec fn entries_view(v: Seq<(String, Vec<String>)>) -> Seq<(Seq<char>, Seq<Seq<char>>)> {
    v.map_values(|e: (String, Vec<String>)| entry_view(e))
}

/// The attribute list holds `attr`, ASCII case-insensitively.
pub open spec fn has_attribute(attrs: Seq<Seq<char>>, attr: Seq<char>) -> bool {
    exists|i: int| 0 <= i < attrs.len() && eq_ci(#[trigger] attrs[i], attr)
}

/// The first entry carrying `attr`.
pub open spec fn first_with_attribute(entries: Seq<(Seq<char>, Seq<Seq<char>>)>, attr: Seq<char>) -> Option<Seq<char>>
    decreases entries.len(),
{
    if entries.len() == 0 {
        None
    } else if has_attribute(entries[0].1, attr) {
        Some(entries[0].0)
    } else {
        first_with_attribute(entries.drop_first(), attr)
    }
}

/// The first entry whose ASCII-lowercased name is one of `names`.
pub open spec fn first_named(entries: Seq<(Seq<char>, Seq<Seq<char>>)>, names: Seq<Seq<char>>) -> Option<Seq<char>>
    decreases entries.len(),
{
    if entries.len() == 0 {
        None
    } else if names.contains(lower_seq(entries[0].0)) {
        Some(entries[0].0)
    } else {
        first_named(entries.drop_first(), names)
    }
}

/// The mailbox for a role: the first carrying the RFC 6154 attribute, else
/// the first with one of the role's conventional names.
pub open spec fn pick_folder_spec(
    entries: Seq<(Seq<char>, Seq<Seq<char>>)>,
    attr: Seq<char>,
    names: Seq<Seq<char>>,
) -> Option<Seq<char>> {
    match first_with_attribute(entries, attr) {
        Some(n) => Some(n),
        None => first_named(entries, names),
    }
}

/// Conventional Sent mailbox names.
pub open spec fn sent_names() -> Seq<Seq<char>> {
    seq!["sent"@, "sent items"@, "sent messages"@, "inbox.sent"@]
}

/// Conventional Trash mailbox names.
pub open spec fn trash_names() -> Seq<Seq<char>> {
    seq!["trash"@, "deleted"@, "deleted items"@, "bin"@, "inbox.trash"@]
}

/// Conventional Drafts mailbox names.
pub open spec fn drafts_names() -> Seq<Seq<char>> {
    seq!["drafts"@, "inbox.drafts"@]
}

fn any_attribute(attrs: &Vec<String>, attr: &[char]) -> (r: bool)
    ensures
        r == has_attribute(strings_view(attrs@), attr@),
{
    let mut i: usize = 0;
    while i < attrs.len()
        invariant
            i <= attrs@.len(),
            forall|k: int| 0 <= k < i ==> !eq_ci(#[trigger] strings_view(attrs@)[k], attr@),
        decreases attrs@.len() - i,
    {
        let a = chars_of(attrs[i].as_str());
        if eq_ci_chars(a.as_slice(), attr) {
            assert(eq_ci(strings_view(attrs@)[i as int], attr@));
            return true;
        }
        i += 1;
    }
    false
}

fn name_listed(name: &[char], names: &[&str]) -> (r: bool)
    ensures
        r == names@.map_values(|n: &str| n@).contains(lower_seq(name@)),
{
    let lowered = lower_chars(name);
    let ghost listed = names@.map_values(|n: &str| n@);
    let mut i: usize = 0;
    while i < names.len()
        invariant
            i <= names@.len(),
            listed == names@.map_values(|n: &str| n@),
            lowered@ == lower_seq(name@),
            forall|k: int| 0 <= k < i ==> #[trigger] listed[k] != lower_seq(name@),
        decreases names@.len() - i,
    {
        let n = chars_of(names[i]);
        if eq_chars(lowered.as_slice(), n.as_slice()) {
            assert(listed[i as int] == lower_seq(name@));
            return true;
        }
        i += 1;
    }
    false
}

fn pick_folder(folders: &[(String, Vec<String>)], attr: &str, names: &[&str]) -> (r: Option<String>)
    ensures
        opt_view(r) == pick_folder_spec(entries_view(folders@), attr@, names@.map_values(|n: &str| n@)),
{
    let ghost es = entries_view(folders@);
    let a = chars_of(attr);
    let mut i: usize = 0;
    assert(es.skip(0) =~= es);
    while i < folders.len()
        invariant
            i <= folders@.len(),
            es == entries_view(folders@),
            a@ == attr@,
            first_with_attribute(es, attr@) == first_with_attribute(es.skip(i as int), attr@),
        decreases folders@.len() - i,
    {
        assert(es.skip(i as int)[0] == entry_view(folders@[i as int]));
        if any_attribute(&folders[i].1, a.as_slice()) {
            return Some(folders[i].0.clone());
        }
        assert(es.skip(i as int).drop_first() =~= es.skip(i + 1));
        i += 1;
    }
    let ghost listed = names@.map_values(|n: &str| n@);
    let mut j: usize = 0;
    while j < folders.len()
        invariant
            j <= folders@.len(),
            es == entries_view(folders@),
            listed == names@.map_values(|n: &str| n@),
            first_with_attribute(es, attr@) is None,
            first_named(es, listed) == first_named(es.skip(j as int), listed),
        decreases folders@.len() - j,
    {
        assert(es.skip(j as int)[0] == entry_view(folders@[j as int]));
        let n = chars_of(folders[j].0.as_str());
        if name_listed(n.as_slice(), names) {
            return Some(folders[j].0.clone());
        }
        assert(es.skip(j as int).drop_first() =~= es.skip(j + 1));
        j += 1;
    }
    None
}

/// Choose the Sent mailbox from LIST results, preferring the RFC 6154
/// `\Sent` attribute over localized or historical names.
pub fn pick_sent_folder(folders: &[(String, Vec<String>)]) -> (r: Option<String>)
    ensures
        opt_view(r) == pick_folder_spec(entries_view(folders@), "\\Sent"@, sent_names()),
{
    let names = ["sent", "sent items", "sent messages", "inbox.sent"];
    let r = pick_folder(folders, "\\Sent", names.as_slice());
    assert(names@.map_values(|n: &str| n@) =~= sent_names());
    r
}

/// Choose the Trash mailbox from LIST results, preferring the RFC 6154
/// `\Trash` attribute over localized or historical names.
pub fn pick_trash_folder(folders: &[(String, Vec<String>)]) -> (r: Option<String>)
    ensures
        opt_view(r) == pick_folder_spec(entries_view(folders@), "\\Trash"@, trash_names()),
{
    let names = ["trash", "deleted", "deleted items", "bin", "inbox.trash"];
    let r = pick_folder(folders, "\\Trash", names.as_slice());
    assert(names@.map_values(|n: &str| n@) =~= trash_names());
    r
}

/// Choose the Drafts mailbox from LIST results, preferring the RFC 6154
/// `\Drafts` attribute over localized or historical names.
pub fn pick_drafts_folder(folders: &[(String, Vec<String>)]) -> (r: Option<String>)
    ensures
        opt_view(r) == pick_folder_spec(entries_view(folders@), "\\Drafts"@, drafts_names()),
{
    let names = ["drafts", "inbox.drafts"];
    let r = pick_folder(folders, "\\Drafts", names.as_slice());
    assert(names@.map_values(|n: &str| n@) =~= drafts_names());
    r
}

/// The role a mailbox's conventional name suggests, compared in ASCII
/// lowercase against the Sent, Trash, and Drafts names.
pub open spec fn role_from_name_spec(name: Seq<char>) -> FolderRole {
    let n = lower_seq(name);
    if sent_names().contains(n) {
        FolderRole::Sent
    } else if trash_names().contains(n) {
        FolderRole::Trash
    } else if drafts_names().contains(n) {
        FolderRole::Drafts
    } else {
        FolderRole::Other
    }
}

impl FolderRole {
    /// The role a mailbox name conventionally plays on servers without
    /// SPECIAL-USE.
    pub fn from_name(name: &str) -> (r: FolderRole)
        ensures
            r == role_from_name_spec(name@),
    {
        let n = chars_of(name);
        let sent = ["sent", "sent items", "sent messages", "inbox.sent"];
        let trash = ["trash", "deleted", "deleted items", "bin", "inbox.trash"];
        let drafts = ["drafts", "inbox.drafts"];
        assert(sent@.map_values(|n: &str| n@) =~= sent_names());
        assert(trash@.map_values(|n: &str| n@) =~= trash_names());
        assert(drafts@.map_values(|n: &str| n@) =~= drafts_names());
        if name_listed(n.as_slice(), sent.as_slice()) {
            FolderRole::Sent
        } else if name_listed(n.as_slice(), trash.as_slice()) {
            FolderRole::Trash
        } else if name_listed(n.as_slice(), drafts.as_slice()) {
            FolderRole::Drafts
        } else {
            FolderRole::Other
        }
    }
}

/// The first folder whose listed role is `role`.
pub open spec fn first_with_role(folders: Seq<Folder>, role: FolderRole) -> Option<Seq<char>>
    decreases folders.len(),
{
    if folders.len() == 0 {
        None
    } else if folders[0].role == role {
        Some(folders[0].name@)
    } else {
        first_with_role(folders.drop_first(), role)
    }
}

/// The first folder whose name conventionally plays `role`.
pub open spec fn first_named_for(folders: Seq<Folder>, role: FolderRole) -> Option<Seq<char>>
    decreases folders.len(),
{
    if folders.len() == 0 {
        None
    } else if role_from_name_spec(folders[0].name@) == role {
        Some(folders[0].name@)
    } else {
        first_named_for(folders.drop_first(), role)
    }
}

/// Choose a role's mailbox, preferring the RFC 6154 attribute over localized or
/// historical names, which is how servers without SPECIAL-USE are handled.
pub fn pick_role_folder(folders: &[Folder], role: FolderRole) -> (r: Option<String>)
    ensures
        opt_view(r) == match first_with_role(folders@, role) {
            Some(n) => Some(n),
            None => first_named_for(folders@, role),
        },
{
    let mut i: usize = 0;
    assert(folders@.skip(0) =~= folders@);
    while i < folders.len()
        invariant
            i <= folders@.len(),
            first_with_role(folders@, role) == first_with_role(folders@.skip(i as int), role),
        decreases folders@.len() - i,
    {
        assert(folders@.skip(i as int)[0] == folders@[i as int]);
        if folders[i].role == role {
            return Some(folders[i].name.clone());
        }
        assert(folders@.skip(i as int).drop_first() =~= folders@.skip(i + 1));
        i += 1;
    }
    let mut j: usize = 0;
    while j < folders.len()
        invariant
            j <= folders@.len(),
            first_with_role(folders@, role) is None,
            first_named_for(folders@, role) == first_named_for(folders@.skip(j as int), role),
        decreases folders@.len() - j,
    {
        assert(folders@.skip(j as int)[0] == folders@[j as int]);
        if FolderRole::from_name(folders[j].name.as_str()) == role {
            return Some(folders[j].name.clone());
        }
        assert(folders@.skip(j as int).drop_first() =~= folders@.skip(j + 1));
        j += 1;
    }
    None
}

/// What deleting a message from a folder does.
#[derive(Debug, Clone, PartialEq, Eq)]
pub enum Deletion {
    /// The folder is the trash: flag the message deleted and expunge it.
    Expunge,
    /// Move the message to the trash folder of this name.
    MoveToTrash(String),
}

/// Deleting from the trash (the trash mailbox the server lists, else
/// `Trash`, compared ASCII case-insensitively) removes the message for good;
/// deleting anywhere else moves it to the trash.
pub fn deletion_for(folder: &str, trash: Option<String>) -> (r: Deletion)
    ensures
        ({
            let t = match trash {
                Some(t) => t@,
                None => "Trash"@,
            };
            if eq_ci(folder@, t) {
                r == Deletion::Expunge
            } else {
                r matches Deletion::MoveToTrash(name) && name@ == t
            }
        }),
{
    let trash = match trash {
        Some(t) => t,
        None => crate::text::string_of(chars_of("Trash").as_slice()),
    };
    let f = chars_of(folder);
    let t = chars_of(trash.as_str());
    if eq_ci_chars(f.as_slice(), t.as_slice()) {
        Deletion::Expunge
    } else {
        Deletion::MoveToTrash(trash)
    }
}


proof fn lemma_first_with_attribute_at(es: Seq<(Seq<char>, Seq<Seq<char>>)>, attr: Seq<char>, i: int)
    requires
        0 <= i < es.len(),
        has_attribute(es[i].1, attr),
        forall|k: int| 0 <= k < i ==> !has_attribute(#[trigger] es[k].1, attr),
    ensures
        first_with_attribute(es, attr) == Some(es[i].0),
    decreases i,
{
    if i > 0 {
        assert(!has_attribute(es[0].1, attr));
        let t = es.drop_first();
        assert forall|k: int| 0 <= k < i - 1 implies !has_attribute(#[trigger] t[k].1, attr) by {
            assert(t[k] == es[k + 1]);
        }
        assert(t[i - 1] == es[i]);
        lemma_first_with_attribute_at(t, attr, i - 1);
    }
}

proof fn lemma_no_attribute(es: Seq<(Seq<char>, Seq<Seq<char>>)>, attr: Seq<char>)
    requires
        forall|k: int| 0 <= k < es.len() ==> !has_attribute(#[trigger] es[k].1, attr),
    ensures
        first_with_attribute(es, attr) is None,
    decreases es.len(),
{
    if es.len() > 0 {
        assert(!has_attribute(es[0].1, attr));
        let t = es.drop_first();
        assert forall|k: int| 0 <= k < t.len() implies !has_attribute(#[trigger] t[k].1, attr) by {
            assert(t[k] == es[k + 1]);
        }
        lemma_no_attribute(t, attr);
    }
}

proof fn lemma_first_named_at(es: Seq<(Seq<char>, Seq<Seq<char>>)>, names: Seq<Seq<char>>, i: int)
    requires
        0 <= i < es.len(),
        names.contains(lower_seq(es[i].0)),
        forall|k: int| 0 <= k < i ==> !names.contains(lower_seq(#[trigger] es[k].0)),
    ensures
        first_named(es, names) == Some(es[i].0),
    decreases i,
{
    if i > 0 {
        assert(!names.contains(lower_seq(es[0].0)));
        let t = es.drop_first();
        assert forall|k: int| 0 <= k < i - 1 implies !names.contains(lower_seq(#[trigger] t[k].0)) by {
            assert(t[k] == es[k + 1]);
        }
        assert(t[i - 1] == es[i]);
        lemma_first_named_at(t, names, i - 1);
    }
}

proof fn lemma_none_named(es: Seq<(Seq<char>, Seq<Seq<char>>)>, names: Seq<Seq<char>>)
    requires
        forall|k: int| 0 <= k < es.len() ==> !names.contains(lower_seq(#[trigger] es[k].0)),
    ensures
        first_named(es, names) is None,
    decreases es.len(),
{
    if es.len() > 0 {
        assert(!names.contains(lower_seq(es[0].0)));
        let t = es.drop_first();
        assert forall|k: int| 0 <= k < t.len() implies !names.contains(lower_seq(#[trigger] t[k].0)) by {
            assert(t[k] == es[k + 1]);
        }
        lemma_none_named(t, names);
    }
}

/// A name that, in ASCII lowercase, is one a server without SPECIAL-USE
/// conventionally gives its trash: `trash`, `deleted`, `deleted items`,
/// `bin` or `inbox.trash`.
pub open spec fn conventional_trash_name(n: Seq<char>) -> bool {
    let l = lower_seq(n);
    l == "trash"@ || l == "deleted"@ || l == "deleted items"@ || l == "bin"@ || l == "inbox.trash"@
}

proof fn lemma_trash_names(n: Seq<char>)
    ensures
        trash_names().contains(lower_seq(n)) <==> conventional_trash_name(n),
{
    let l = lower_seq(n);
    let t = trash_names();
    if conventional_trash_name(n) {
        if l == "trash"@ {
            assert(t[0] == l);
        } else if l == "deleted"@ {
            assert(t[1] == l);
        } else if l == "deleted items"@ {
            assert(t[2] == l);
        } else if l == "bin"@ {
            assert(t[3] == l);
        } else {
            assert(t[4] == l);
        }
    }
    if t.contains(l) {
        let k = choose|k: int| 0 <= k < t.len() && t[k] == l;
        assert(0 <= k < 5);
    }
}

/// The trash a mailbox listing offers: the first mailbox carrying the RFC
/// 6154 `\Trash` attribute (in any ASCII case); where none carries it, the
/// first whose name is conventionally the trash (`trash`, `deleted`,
/// `deleted items`, `bin` or `inbox.trash`, in any ASCII case); where there
/// is neither, none. A server without SPECIAL-USE whose trash is the usual
/// `Trash` mailbox thus gets it as its trash.
pub proof fn law_trash_folder_choice(es: Seq<(Seq<char>, Seq<Seq<char>>)>, i: int)
    ensures
        0 <= i < es.len() && has_attribute(es[i].1, "\\Trash"@)
            && (forall|k: int| 0 <= k < i ==> !has_attribute(#[trigger] es[k].1, "\\Trash"@))
            ==> pick_folder_spec(es, "\\Trash"@, trash_names()) == Some(es[i].0),
        0 <= i < es.len() && conventional_trash_name(es[i].0)
            && (forall|k: int| 0 <= k < es.len() ==> !has_attribute(#[trigger] es[k].1, "\\Trash"@))
            && (forall|k: int| 0 <= k < i ==> !conventional_trash_name(#[trigger] es[k].0))
            ==> pick_folder_spec(es, "\\Trash"@, trash_names()) == Some(es[i].0),
        (forall|k: int| 0 <= k < es.len() ==> !has_attribute(#[trigger] es[k].1, "\\Trash"@))
            && (forall|k: int| 0 <= k < es.len() ==> !conventional_trash_name(#[trigger] es[k].0))
            ==> pick_folder_spec(es, "\\Trash"@, trash_names()) is None,
{
    let attr = "\\Trash"@;
    let names = trash_names();
    if 0 <= i < es.len() && has_attribute(es[i].1, attr)
        && (forall|k: int| 0 <= k < i ==> !has_attribute(#[trigger] es[k].1, attr)) {
        lemma_first_with_attribute_at(es, attr, i);
    }
    if forall|k: int| 0 <= k < es.len() ==> !has_attribute(#[trigger] es[k].1, attr) {
        lemma_no_attribute(es, attr);
        if 0 <= i < es.len() && conventional_trash_name(es[i].0)
            && (forall|k: int| 0 <= k < i ==> !conventional_trash_name(#[trigger] es[k].0)) {
            lemma_trash_names(es[i].0);
            assert forall|k: int| 0 <= k < i implies !names.contains(lower_seq(#[trigger] es[k].0)) by {
                lemma_trash_names(es[k].0);
            }
            lemma_first_named_at(es, names, i);
        }
        if forall|k: int| 0 <= k < es.len() ==> !conventional_trash_name(#[trigger] es[k].0) {
            assert forall|k: int| 0 <= k < es.len() implies !names.contains(lower_seq(#[trigger] es[k].0)) by {
                lemma_trash_names(es[k].0);
            }
            lemma_none_named(es, names);
        }
    }
}

/// A mailbox whose name is conventionally the trash plays the Trash role.
pub proof fn law_conventional_trash_name_is_trash(n: Seq<char>)
    requires
        conventional_trash_name(n),
    ensures
        role_from_name_spec(n) == FolderRole::Trash,
{
    lemma_trash_names(n);
    let l = lower_seq(n);
    let s = sent_names();
    reveal_strlit("trash");
    reveal_strlit("deleted");
    reveal_strlit("deleted items");
    reveal_strlit("bin");
    reveal_strlit("inbox.trash");
    reveal_strlit("sent");
    reveal_strlit("sent items");
    reveal_strlit("sent messages");
    reveal_strlit("inbox.sent");
    if s.contains(l) {
        let k = choose|k: int| 0 <= k < s.len() && s[k] == l;
        assert(0 <= k < 4);
        assert(l.len() == 5 || l.len() == 7 || l.len() == 13 || l.len() == 3 || l.len() == 11);
        assert(l.len() == 13 ==> l[0] == 'd');
        assert(s[k].len() == 4 || s[k].len() == 10 || s[k].len() == 13);
        assert(s[k].len() == 13 ==> s[k][0] == 's');
    }
}

} // verus!
