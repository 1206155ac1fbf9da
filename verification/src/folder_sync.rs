//! Folder synchronization: the delta a server reports since a stored anchor,
//! and what applying it does to the cached copy of the folder.
use vstd::prelude::*;
use crate::text::clone_strings;

use crate::errors::MailError;
use crate::errors::is_offline;
use crate::errors::is_transport_kind;
use crate::mailbox::MailboxStatus;
use crate::mailbox::SelectState;
use crate::mailbox::SyncAnchor;
use crate::text::strings_view;
use crate::mailbox::pair_view;
use crate::mailbox::pairs_view;
use crate::text::chars_of;
use crate::text::decimal;
use crate::text::push_decimal;
use crate::text::eq_chars;
use crate::text::eq_ci;
use crate::text::eq_ignore_ascii_case;

verus! {

/// What changed in a folder since an anchor, or that a full listing is due.
#[derive(Debug, Clone, PartialEq, Eq)]
pub struct FolderDelta {
    /// The cached listing cannot be patched; list the folder again.
    pub full_resync: bool,
    pub uid_validity: Option<u32>,
    pub uid_next: Option<u32>,
    pub highest_modseq: Option<u64>,
    /// UIDs removed from the folder.
    pub vanished: Vec<u32>,
    /// UIDs whose flags changed, with their flags now.
    pub changed_flags: Vec<(u32, Vec<String>)>,
}

impl Default for FolderDelta {
    /// Nothing changed, and no listing is due.
    fn default() -> (r: Self)
        ensures
            !r.full_resync,
            r.uid_validity is None,
            r.uid_next is None,
            r.highest_modseq is None,
            r.vanished@.len() == 0,
            r.changed_flags@.len() == 0,
    {
        FolderDelta {
            full_resync: false,
            uid_validity: None,
            uid_next: None,
            highest_modseq: None,
            vanished: Vec::new(),
            changed_flags: Vec::new(),
        }
    }
}

/// The delta when a full listing is due and STATUS is all the server said.
pub fn resync_from_status(status: &MailboxStatus) -> (r: FolderDelta)
    ensures
        r.full_resync,
        r.uid_validity == status.uid_validity,
        r.uid_next == status.uid_next,
        r.highest_modseq is None,
        r.vanished@.len() == 0,
        r.changed_flags@.len() == 0,
{
    FolderDelta {
        full_resync: true,
        uid_validity: status.uid_validity,
        uid_next: status.uid_next,
        highest_modseq: None,
        vanished: Vec::new(),
        changed_flags: Vec::new(),
    }
}

/// How a delta request goes on when SELECT with CONDSTORE or QRESYNC failed.
#[derive(Debug, Clone)]
pub enum SelectRecovery {
    /// Report the error.
    Fail(MailError),
    /// The server refused the parameters: SELECT plainly, ask STATUS, and
    /// report that a full listing is due.
    ListWithStatus,
}

/// The recovery from a failed SELECT: a transport failure is reported as it
/// is, so a dropped connection is never taken for "nothing changed"; any
/// other failure means the server does not support the parameters.
pub fn after_select_error(error: MailError) -> (r: SelectRecovery)
    ensures
        is_transport_kind(error.kind) ==> (r matches SelectRecovery::Fail(e) && e.kind == error.kind
            && e.message@ == error.message@),
        !is_transport_kind(error.kind) ==> r is ListWithStatus,
{
    if error.is_transport() {
        SelectRecovery::Fail(error)
    } else {
        SelectRecovery::ListWithStatus
    }
}

/// What a synchronization does once SELECT answered.
#[derive(Debug, Clone, PartialEq, Eq)]
pub enum DeltaStep {
    /// The delta is complete.
    Done(FolderDelta),
    /// Fetch the flags that changed since `since`, then add them to `delta`.
    FetchChanged { delta: FolderDelta, since: u64 },
}

/// Decide, from what SELECT reported, whether the delta is complete. Without
/// an anchor, or when the server ignored QRESYNC (no HIGHESTMODSEQ), only a
/// full listing is safe; otherwise the vanished UIDs are known and the
/// changed flags are still to be fetched.
pub fn delta_after_select(state: SelectState, anchor: Option<SyncAnchor>) -> (r: DeltaStep)
    ensures
        match r {
            DeltaStep::Done(d) => (anchor is None || state.highest_modseq is None) && d.full_resync
                && d.uid_validity == state.uid_validity && d.uid_next == state.uid_next
                && d.highest_modseq == state.highest_modseq && d.vanished@.len() == 0 && d.changed_flags@.len() == 0,
            DeltaStep::FetchChanged { delta: d, since } => anchor matches Some(a) && state.highest_modseq is Some
                && since == a.highest_modseq && !d.full_resync
                && d.uid_validity == state.uid_validity && d.uid_next == state.uid_next
                && d.highest_modseq == state.highest_modseq && d.vanished@ == state.vanished@
                && d.changed_flags@.len() == 0,
        },
{
    let full = anchor.is_none() || state.highest_modseq.is_none();
    let mut delta = FolderDelta {
        full_resync: full,
        uid_validity: state.uid_validity,
        uid_next: state.uid_next,
        highest_modseq: state.highest_modseq,
        vanished: Vec::new(),
        changed_flags: Vec::new(),
    };
    match anchor {
        Some(a) if !full => {
            delta.vanished = state.vanished;
            DeltaStep::FetchChanged { delta, since: a.highest_modseq }
        },
        _ => DeltaStep::Done(delta),
    }
}

/// The delta with the changed flags the server reported.
pub fn with_changed_flags(delta: FolderDelta, changed: Vec<(u32, Vec<String>)>) -> (r: FolderDelta)
    ensures
        r.full_resync == delta.full_resync,
        r.uid_validity == delta.uid_validity,
        r.uid_next == delta.uid_next,
        r.highest_modseq == delta.highest_modseq,
        r.vanished@ == delta.vanished@,
        r.changed_flags@ == changed@,
{
    FolderDelta { changed_flags: changed, ..delta }
}

/// What to do after asking the server for a delta.
#[derive(Debug, Clone, Copy, PartialEq, Eq, Structural)]
pub enum SyncNext {
    /// Patch the cache with the delta and serve the listing from it.
    ApplyDelta,
    /// The server is unreachable: serve the cached listing as it is.
    ServeCache,
    /// List the folder again.
    FullListing,
    /// Report the error.
    Fail,
}

/// How a synchronization goes on after a delta request answered `outcome`.
pub fn after_delta(outcome: &Result<FolderDelta, MailError>) -> (r: SyncNext)
    ensures
        r == match outcome {
            Ok(d) => if d.full_resync { SyncNext::FullListing } else { SyncNext::ApplyDelta },
            Err(e) => if crate::errors::is_transport_kind(e.kind) || e.kind == crate::errors::MailErrorKind::BackendUnavailable {
                SyncNext::ServeCache
            } else {
                SyncNext::Fail
            },
        },
{
    match outcome {
        Ok(d) => if d.full_resync { SyncNext::FullListing } else { SyncNext::ApplyDelta },
        Err(e) => if is_offline(e) { SyncNext::ServeCache } else { SyncNext::Fail },
    }
}

// ---------------------------------------------------------------------------
// The cached folder.
// ---------------------------------------------------------------------------
/// A cached message: its UID (as the store keys it, in decimal) and flags.
#[derive(Debug, Clone, PartialEq, Eq)]
pub struct CachedMessage {
    pub uid: String,
    pub flags: Vec<String>,
}

/// Where the cache of a folder stands with the server.
#[derive(Debug, Clone, Copy, PartialEq, Eq, Structural)]
pub struct SyncCursor {
    pub uid_validity: Option<u32>,
    pub uid_next: Option<u32>,
    pub highest_modseq: Option<u64>,
}

/// The anchor a delta can resume from: only when both UIDVALIDITY and
/// HIGHESTMODSEQ are known.
pub fn stored_anchor(cursor: Option<SyncCursor>) -> (r: Option<SyncAnchor>)
    ensures
        match cursor {
            Some(SyncCursor { uid_validity: Some(v), highest_modseq: Some(m), .. }) => r == Some(SyncAnchor { uid_validity: v, highest_modseq: m }),
            _ => r is None,
        },
{
    match cursor {
        Some(SyncCursor { uid_validity: Some(v), highest_modseq: Some(m), .. }) => Some(SyncAnchor { uid_validity: v, highest_modseq: m }),
        _ => None,
    }
}

/// The cache is stale as a whole: the server reports a UIDVALIDITY other than
/// the one the cache was filled under, so cached UIDs name other messages.
pub open spec fn validity_changed(cursor: Option<SyncCursor>, reported: Option<u32>) -> bool {
    match (cursor, reported) {
        (Some(c), Some(r)) => match c.uid_validity {
            Some(v) => v != r,
            None => false,
        },
        _ => false,
    }
}

/// The store key of a UID.
pub open spec fn uid_key(uid: u32) -> Seq<char> {
    decimal(uid as nat)
}

/// The delta names `key` as vanished.
pub open spec fn is_vanished(vanished: Seq<u32>, key: Seq<char>) -> bool {
    exists|i: int| 0 <= i < vanished.len() && uid_key(#[trigger] vanished[i]) == key
}

/// The flags the last change for `key` sets, if the delta changes it.
pub open spec fn last_change(changed: Seq<(u32, Seq<Seq<char>>)>, key: Seq<char>) -> Option<Seq<Seq<char>>>
    decreases changed.len(),
{
    if changed.len() == 0 {
        None
    } else if uid_key(changed.last().0) == key {
        Some(changed.last().1)
    } else {
        last_change(changed.drop_last(), key)
    }
}

/// The view of a cached message.
pub open spec fn message_view(m: CachedMessage) -> (Seq<char>, Seq<Seq<char>>) {
    (m.uid@, strings_view(m.flags@))
}

/// The cached messages after a delta: none if the UIDVALIDITY changed;
/// otherwise each message that did not vanish stays in its place, with the
/// flags of the last change the delta reports for it, or its own.
pub open spec fn patched(messages: Seq<CachedMessage>, clear: bool, vanished: Seq<u32>, changed: Seq<(u32, Seq<Seq<char>>)>) -> Seq<(Seq<char>, Seq<Seq<char>>)>
    decreases messages.len(),
{
    if messages.len() == 0 || clear {
        seq![]
    } else {
        let before = patched(messages.drop_last(), clear, vanished, changed);
        let m = messages.last();
        if is_vanished(vanished, m.uid@) {
            before
        } else {
            before.push((m.uid@, match last_change(changed, m.uid@) {
                Some(f) => f,
                None => strings_view(m.flags@),
            }))
        }
    }
}

/// The cursor after a delta: each value the delta reports, else the old one.
pub open spec fn advanced(cursor: Option<SyncCursor>, d: FolderDelta) -> SyncCursor {
    SyncCursor {
        uid_validity: match d.uid_validity {
            Some(v) => Some(v),
            None => match cursor { Some(c) => c.uid_validity, None => None },
        },
        uid_next: match d.uid_next {
            Some(v) => Some(v),
            None => match cursor { Some(c) => c.uid_next, None => None },
        },
        highest_modseq: match d.highest_modseq {
            Some(v) => Some(v),
            None => match cursor { Some(c) => c.highest_modseq, None => None },
        },
    }
}

/// The views of cached messages.
pub open spec fn messages_view(v: Seq<CachedMessage>) -> Seq<(Seq<char>, Seq<Seq<char>>)> {
    Seq::new(v.len(), |i: int| message_view(v[i]))
}

fn uid_text(uid: u32) -> (r: Vec<char>)
    ensures
        r@ == uid_key(uid),
{
    let mut v: Vec<char> = Vec::new();
    push_decimal(&mut v, uid as u64);
    assert(v@ =~= uid_key(uid));
    v
}

fn vanished_contains(vanished: &Vec<u32>, key: &[char]) -> (r: bool)
    ensures
        r == is_vanished(vanished@, key@),
{
    let mut i: usize = 0;
    while i < vanished.len()
        invariant
            i <= vanished@.len(),
            forall|j: int| 0 <= j < i ==> uid_key(#[trigger] vanished@[j]) != key@,
        decreases vanished@.len() - i,
    {
        let t = uid_text(vanished[i]);
        if eq_chars(t.as_slice(), key) {
            return true;
        }
        i += 1;
    }
    false
}

fn find_last_change(changed: &Vec<(u32, Vec<String>)>, key: &[char]) -> (r: Option<Vec<String>>)
    ensures
        match r {
            Some(f) => last_change(pairs_view(changed@), key@) == Some(strings_view(f@)),
            None => last_change(pairs_view(changed@), key@) is None,
        },
{
    let mut i: usize = changed.len();
    assert(pairs_view(changed@).take(i as int) =~= pairs_view(changed@));
    while i > 0
        invariant
            i <= changed@.len(),
            last_change(pairs_view(changed@), key@) == last_change(pairs_view(changed@).take(i as int), key@),
        decreases i,
    {
        let t = uid_text(changed[i - 1].0);
        assert(pairs_view(changed@).take(i as int).last() == pair_view(changed@[i - 1]));
        assert(pairs_view(changed@).take(i as int).drop_last() =~= pairs_view(changed@).take(i - 1));
        if eq_chars(t.as_slice(), key) {
            return Some(clone_strings(&changed[i - 1].1));
        }
        i -= 1;
    }
    None
}

/// Apply a delta to the cached messages and cursor of a folder.
pub fn apply_folder_delta(messages: Vec<CachedMessage>, cursor: Option<SyncCursor>, delta: &FolderDelta) -> (r: (Vec<CachedMessage>, SyncCursor))
    ensures
        messages_view(r.0@) == patched(messages@, validity_changed(cursor, delta.uid_validity), delta.vanished@, pairs_view(delta.changed_flags@)),
        r.1 == advanced(cursor, *delta),
{
    let clear = match (cursor, delta.uid_validity) {
        (Some(c), Some(reported)) => match c.uid_validity {
            Some(v) => v != reported,
            None => false,
        },
        _ => false,
    };
    let ghost changed = pairs_view(delta.changed_flags@);
    let mut out: Vec<CachedMessage> = Vec::new();
    if !clear {
        let mut i: usize = 0;
        while i < messages.len()
            invariant
                i <= messages@.len(),
                !clear,
                clear == validity_changed(cursor, delta.uid_validity),
                messages_view(out@) == patched(messages@.take(i as int), clear, delta.vanished@, pairs_view(delta.changed_flags@)),
            decreases messages@.len() - i,
        {
            assert(messages@.take(i + 1).drop_last() =~= messages@.take(i as int));
            assert(messages@.take(i + 1).last() == messages@[i as int]);
            let uid = chars_of(messages[i].uid.as_str());
            if !vanished_contains(&delta.vanished, uid.as_slice()) {
                let flags = match find_last_change(&delta.changed_flags, uid.as_slice()) {
                    Some(f) => f,
                    None => clone_strings(&messages[i].flags),
                };
                let m = CachedMessage { uid: messages[i].uid.clone(), flags };
                let ghost before = out@;
                out.push(m);
                assert(messages_view(out@) =~= messages_view(before).push(message_view(m)));
            }
            i += 1;
        }
        assert(messages@.take(i as int) =~= messages@);
    } else {
        assert(messages_view(out@) =~= Seq::<(Seq<char>, Seq<Seq<char>>)>::empty());
    }
    let next = SyncCursor {
        uid_validity: match delta.uid_validity {
            Some(v) => Some(v),
            None => match cursor { Some(c) => c.uid_validity, None => None },
        },
        uid_next: match delta.uid_next {
            Some(v) => Some(v),
            None => match cursor { Some(c) => c.uid_next, None => None },
        },
        highest_modseq: match delta.highest_modseq {
            Some(v) => Some(v),
            None => match cursor { Some(c) => c.highest_modseq, None => None },
        },
    };
    (out, next)
}

/// The flags to store with a message that was just read: its cached flags,
/// with `Seen` added unless some flag already says so.
pub open spec fn read_flags(flags: Seq<Seq<char>>) -> Seq<Seq<char>> {
    if exists|i: int| 0 <= i < flags.len() && eq_ci(#[trigger] flags[i], "seen"@) {
        flags
    } else {
        flags.push("Seen"@)
    }
}

/// Mark cached flags as read.
pub fn mark_seen(flags: Vec<String>) -> (r: Vec<String>)
    ensures
        strings_view(r@) == read_flags(strings_view(flags@)),
{
    let mut out = flags;
    let ghost orig = out@;
    let mut i: usize = 0;
    while i < out.len()
        invariant
            out@ == orig,
            orig == flags@,
            i <= out@.len(),
            forall|j: int| 0 <= j < i ==> !eq_ci(#[trigger] strings_view(out@)[j], "seen"@),
        decreases out@.len() - i,
    {
        if eq_ignore_ascii_case(out[i].as_str(), "seen") {
            assert(eq_ci(strings_view(out@)[i as int], "seen"@));
            return out;
        }
        i += 1;
    }
    let seen = crate::text::string_of(chars_of("Seen").as_slice());
    out.push(seen);
    assert(strings_view(out@) =~= strings_view(orig).push("Seen"@));
    out
}

// ---------------------------------------------------------------------------
// Laws of a delta.
// ---------------------------------------------------------------------------
/// After a delta, no message that the delta names as vanished is cached.
pub proof fn law_vanished_messages_are_gone(messages: Seq<CachedMessage>, clear: bool, vanished: Seq<u32>, changed: Seq<(u32, Seq<Seq<char>>)>)
    ensures
        forall|k: int| 0 <= k < patched(messages, clear, vanished, changed).len()
            ==> !is_vanished(vanished, (#[trigger] patched(messages, clear, vanished, changed)[k]).0),
    decreases messages.len(),
{
    if messages.len() > 0 && !clear {
        let p = messages.drop_last();
        law_vanished_messages_are_gone(p, clear, vanished, changed);
        let before = patched(p, clear, vanished, changed);
        let after = patched(messages, clear, vanished, changed);
        assert forall|k: int| 0 <= k < after.len() implies !is_vanished(vanished, (#[trigger] after[k]).0) by {
            if k < before.len() {
                assert(after[k] == before[k]);
            }
        }
    }
}

/// A delta never adds a message: every cached message afterwards was cached
/// before, under the same UID, and there are no more of them.
pub proof fn law_delta_adds_no_message(messages: Seq<CachedMessage>, clear: bool, vanished: Seq<u32>, changed: Seq<(u32, Seq<Seq<char>>)>)
    ensures
        patched(messages, clear, vanished, changed).len() <= messages.len(),
        forall|k: int| 0 <= k < patched(messages, clear, vanished, changed).len()
            ==> exists|i: int| 0 <= i < messages.len() && (#[trigger] messages[i]).uid@ == (#[trigger] patched(messages, clear, vanished, changed)[k]).0,
    decreases messages.len(),
{
    if messages.len() > 0 && !clear {
        let p = messages.drop_last();
        law_delta_adds_no_message(p, clear, vanished, changed);
        let before = patched(p, clear, vanished, changed);
        assert forall|k: int| 0 <= k < patched(messages, clear, vanished, changed).len()
            implies exists|i: int| 0 <= i < messages.len() && (#[trigger] messages[i]).uid@ == (#[trigger] patched(messages, clear, vanished, changed)[k]).0 by {
            if k < before.len() {
                let i = choose|i: int| 0 <= i < p.len() && (#[trigger] p[i]).uid@ == before[k].0;
                assert(messages[i] == p[i]);
            } else {
                assert(messages[messages.len() - 1] == messages.last());
            }
        }
    }
}

/// When the server's UIDVALIDITY differs from the cache's, the delta leaves
/// no cached message.
pub proof fn law_new_uid_validity_clears_the_cache(messages: Seq<CachedMessage>, cursor: Option<SyncCursor>, reported: Option<u32>, vanished: Seq<u32>, changed: Seq<(u32, Seq<Seq<char>>)>)
    requires
        validity_changed(cursor, reported),
    ensures
        patched(messages, validity_changed(cursor, reported), vanished, changed).len() == 0,
{
}

/// A message that neither vanished nor changed keeps its flags.
pub proof fn law_untouched_message_keeps_its_flags(messages: Seq<CachedMessage>, vanished: Seq<u32>, changed: Seq<(u32, Seq<Seq<char>>)>, i: int)
    requires
        0 <= i < messages.len(),
        !is_vanished(vanished, messages[i].uid@),
        last_change(changed, messages[i].uid@) is None,
    ensures
        patched(messages, false, vanished, changed).contains(message_view(messages[i])),
    decreases messages.len(),
{
    let p = messages.drop_last();
    if i < messages.len() - 1 {
        assert(p[i] == messages[i]);
        law_untouched_message_keeps_its_flags(p, vanished, changed, i);
        let before = patched(p, false, vanished, changed);
        let k = choose|k: int| 0 <= k < before.len() && before[k] == message_view(messages[i]);
        let after = patched(messages, false, vanished, changed);
        assert(after[k] == before[k]);
    } else {
        let after = patched(messages, false, vanished, changed);
        assert(messages.last() == messages[i]);
        assert(after[after.len() - 1] == message_view(messages[i]));
    }
}


/// After a delta the cursor holds every value the server reported: its
/// UIDVALIDITY, UIDNEXT and HIGHESTMODSEQ, where it reported them, whatever
/// the cursor held before; a value the server did not report stays as the
/// cursor had it. Applying the same delta again changes the cursor no more.
pub proof fn law_cursor_takes_what_the_server_reports(cursor: Option<SyncCursor>, d: FolderDelta)
    ensures
        d.uid_validity is Some ==> advanced(cursor, d).uid_validity == d.uid_validity,
        d.uid_next is Some ==> advanced(cursor, d).uid_next == d.uid_next,
        d.highest_modseq is Some ==> advanced(cursor, d).highest_modseq == d.highest_modseq,
        d.uid_validity is None ==> advanced(cursor, d).uid_validity == (match cursor { Some(c) => c.uid_validity, None => None }),
        d.uid_next is None ==> advanced(cursor, d).uid_next == (match cursor { Some(c) => c.uid_next, None => None }),
        d.highest_modseq is None ==> advanced(cursor, d).highest_modseq == (match cursor { Some(c) => c.highest_modseq, None => None }),
        advanced(Some(advanced(cursor, d)), d) == advanced(cursor, d),
{
}

} // verus!
