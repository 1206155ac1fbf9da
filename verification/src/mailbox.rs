//! What IMAP servers report about a mailbox (SELECT with CONDSTORE/QRESYNC,
//! STATUS, COPYUID, APPENDUID, changed flags) and the delta a folder
//! synchronization derives from it.
use vstd::prelude::*;
use crate::text::strings_view;
use crate::text::clone_strings;
use crate::errors::{MailError, MailErrorKind, MailResult};

verus! {

broadcast use vstd::seq_lib::to_multiset_build, vstd::seq_lib::to_multiset_insert;

/// What SELECT reports about a mailbox, including QRESYNC deltas.
#[derive(Debug, Clone, PartialEq, Eq)]
pub struct SelectState {
    pub exists: Option<u32>,
    pub uid_validity: Option<u32>,
    pub uid_next: Option<u32>,
    pub highest_modseq: Option<u64>,
    /// UIDs removed since the modseq given to QRESYNC.
    pub vanished: Vec<u32>,
    /// UIDs whose flags changed since the modseq given to QRESYNC.
    pub changed: Vec<u32>,
}

impl Default for SelectState {
    /// Nothing reported yet.
    fn default() -> (r: Self)
        ensures
            r.exists is None,
            r.uid_validity is None,
            r.uid_next is None,
            r.highest_modseq is None,
            r.vanished@ == Seq::<u32>::empty(),
            r.changed@ == Seq::<u32>::empty(),
    {
        SelectState {
            exists: None,
            uid_validity: None,
            uid_next: None,
            highest_modseq: None,
            vanished: Vec::new(),
            changed: Vec::new(),
        }
    }
}

/// The anchor a client must remember to re-synchronize a mailbox.
#[derive(Debug, Clone, Copy, PartialEq, Eq, Structural)]
pub struct SyncAnchor {
    pub uid_validity: u32,
    pub highest_modseq: u64,
}

/// How a SELECT asks for change tracking: CONDSTORE alone, or QRESYNC from
/// a remembered anchor (both numbers known to be non-zero).
#[derive(Debug, Clone, Copy, PartialEq, Eq, Structural)]
pub enum SelectTracking {
    CondStore,
    QResync { uid_validity: u32, mod_sequence: u64 },
}

/// The change tracking a SELECT asks for: QRESYNC from `anchor` when there
/// is one, CONDSTORE otherwise. A UIDVALIDITY or change sequence of zero
/// cannot anchor a resync and is invalid input.
pub fn select_tracking(anchor: Option<SyncAnchor>) -> (r: MailResult<SelectTracking>)
    ensures
        match anchor {
            None => r == Ok::<SelectTracking, MailError>(SelectTracking::CondStore),
            Some(a) => if a.uid_validity == 0 {
                r matches Err(e) && e.kind == MailErrorKind::InvalidInput
                    && e.message@ == "a UIDVALIDITY of zero is not valid"@
            } else if a.highest_modseq == 0 {
                r matches Err(e) && e.kind == MailErrorKind::InvalidInput
                    && e.message@ == "a change sequence of zero is not valid"@
            } else {
                r == Ok::<SelectTracking, MailError>(
                    SelectTracking::QResync { uid_validity: a.uid_validity, mod_sequence: a.highest_modseq },
                )
            },
        },
{
    match anchor {
        None => Ok(SelectTracking::CondStore),
        Some(a) => {
            if a.uid_validity == 0 {
                return Err(MailError::invalid_input("a UIDVALIDITY of zero is not valid"));
            }
            if a.highest_modseq == 0 {
                return Err(MailError::invalid_input("a change sequence of zero is not valid"));
            }
            Ok(SelectTracking::QResync { uid_validity: a.uid_validity, mod_sequence: a.highest_modseq })
        },
    }
}

/// The CHANGEDSINCE modifier of a flag-change FETCH: a change sequence of
/// zero is invalid input.
pub fn changed_since(modseq: u64) -> (r: MailResult<u64>)
    ensures
        modseq == 0 ==> (r matches Err(e) && e.kind == MailErrorKind::InvalidInput
            && e.message@ == "a change sequence of zero is not valid"@),
        modseq != 0 ==> r == Ok::<u64, MailError>(modseq),
{
    if modseq == 0 {
        return Err(MailError::invalid_input("a change sequence of zero is not valid"));
    }
    Ok(modseq)
}

/// The first body among `bodies` that came back (`None` for a nil one).
pub open spec fn first_body_spec(bodies: Seq<Option<Vec<u8>>>) -> Option<Seq<u8>>
    decreases bodies.len(),
{
    if bodies.len() == 0 {
        None
    } else {
        match bodies[0] {
            Some(b) => Some(b@),
            None => first_body_spec(bodies.drop_first()),
        }
    }
}

/// The bytes of a message from the body sections a FETCH returned, in order:
/// the first one that is not nil; with none the server did not return the
/// message.
pub fn body_from_fetch(bodies: Vec<Option<Vec<u8>>>) -> (r: MailResult<Vec<u8>>)
    ensures
        match first_body_spec(bodies@) {
            Some(b) => r matches Ok(v) && v@ == b,
            None => r matches Err(e) && e.kind == MailErrorKind::Other
                && e.message@ == "message body was not returned by the server"@,
        },
{
    let ghost all = bodies@;
    let mut rest = bodies;
    let ghost mut k: int = 0;
    assert(all.skip(0) =~= all);
    while rest.len() > 0
        invariant
            0 <= k <= all.len(),
            all == bodies@,
            rest@ == all.skip(k),
            first_body_spec(all) == first_body_spec(all.skip(k)),
        decreases rest@.len(),
    {
        let item = rest.remove(0);
        assert(all.skip(k)[0] == item);
        match item {
            Some(b) => {
                return Ok(b);
            },
            None => {},
        }
        assert(all.skip(k).drop_first() =~= all.skip(k + 1));
        proof {
            k = k + 1;
        }
        assert(rest@ =~= all.skip(k));
    }
    Err(MailError::other("message body was not returned by the server"))
}

/// The status items needed to seed sync cursors and unread counts.
#[derive(Debug, Clone, Copy, PartialEq, Eq, Structural)]
pub struct MailboxStatus {
    pub messages: Option<u32>,
    pub unseen: Option<u32>,
    pub uid_validity: Option<u32>,
    pub uid_next: Option<u32>,
}

impl Default for MailboxStatus {
    /// Nothing reported yet.
    fn default() -> (r: Self)
        ensures
            r == (MailboxStatus { messages: None, unseen: None, uid_validity: None, uid_next: None }),
    {
        MailboxStatus { messages: None, unseen: None, uid_validity: None, uid_next: None }
    }
}

/// How a flag change combines with the flags already on a message.
#[derive(Debug, Clone, Copy, PartialEq, Eq, Structural)]
pub enum FlagChange {
    Replace,
    Add,
    Remove,
}

/// A COPYUID or APPENDUID code, naming the UIDs a server assigned.
#[derive(Debug, Clone, PartialEq, Eq)]
pub struct CopyResult {
    pub uid_validity: u32,
    pub source: Vec<u32>,
    pub destination: Vec<u32>,
}

/// The UID a server assigned to an appended message, when it reports one.
#[derive(Debug, Clone, Copy, PartialEq, Eq, Structural)]
pub struct AppendResult {
    pub uid_validity: u32,
    pub uid: u32,
}

// ---------------------------------------------------------------------------
// UID sets.
// ---------------------------------------------------------------------------
/// One element of a sequence or UID set; `None` stands for `*`, which names
/// no particular number.
#[derive(Debug, Clone, Copy, PartialEq, Eq, Structural)]
pub enum SetItem {
    Single(Option<u32>),
    Range(Option<u32>, Option<u32>),
}

/// The numbers `from..=to`, in increasing order (none when `from > to`).
pub open spec fn span(from: u32, to: u32) -> Seq<u32> {
    Seq::new(if from <= to { (to - from + 1) as nat } else { 0 }, |i: int| (from + i) as u32)
}

/// The numbers an element of a set names.
pub open spec fn item_uids(item: SetItem) -> Seq<u32> {
    match item {
        SetItem::Single(Some(v)) => seq![v],
        SetItem::Range(Some(a), Some(b)) => span(a, b),
        _ => seq![],
    }
}

/// The numbers a set names, element after element.
pub open spec fn set_uids(items: Seq<SetItem>) -> Seq<u32>
    decreases items.len(),
{
    if items.len() == 0 {
        seq![]
    } else {
        set_uids(items.drop_last()) + item_uids(items.last())
    }
}

fn push_span(out: &mut Vec<u32>, from: u32, to: u32)
    ensures
        final(out)@ == old(out)@ + span(from, to),
{
    if from > to {
        assert(span(from, to) =~= Seq::<u32>::empty());
        assert(old(out)@ + span(from, to) =~= old(out)@);
        return;
    }
    let ghost start = out@;
    let mut v: u32 = from;
    out.push(v);
    assert(out@ =~= start + span(from, v));
    while v < to
        invariant
            from <= v <= to,
            out@ == start + span(from, v),
        decreases to - v,
    {
        v = v + 1;
        out.push(v);
        assert(out@ =~= start + span(from, v));
    }
}

/// Expand a set into the numbers it names (`*` is dropped).
pub fn expand_uids(items: &[SetItem]) -> (r: Vec<u32>)
    ensures
        r@ == set_uids(items@),
{
    let mut out: Vec<u32> = Vec::new();
    let mut i: usize = 0;
    while i < items.len()
        invariant
            i <= items@.len(),
            out@ == set_uids(items@.take(i as int)),
        decreases items@.len() - i,
    {
        assert(items@.take(i + 1).drop_last() =~= items@.take(i as int));
        match items[i] {
            SetItem::Single(Some(v)) => {
                out.push(v);
            },
            SetItem::Range(Some(a), Some(b)) => {
                push_span(&mut out, a, b);
            },
            _ => {},
        }
        i += 1;
        assert(out@ =~= set_uids(items@.take(i as int)));
    }
    assert(items@.take(i as int) =~= items@);
    out
}

/// The mapping a COPYUID code reports.
pub fn copy_result(uid_validity: u32, source: &[SetItem], destination: &[SetItem]) -> (r: CopyResult)
    ensures
        r.uid_validity == uid_validity,
        r.source@ == set_uids(source@),
        r.destination@ == set_uids(destination@),
{
    CopyResult { uid_validity, source: expand_uids(source), destination: expand_uids(destination) }
}

// ---------------------------------------------------------------------------
// What SELECT and STATUS report.
// ---------------------------------------------------------------------------
/// An untagged response to SELECT that carries mailbox state.
#[derive(Debug, Clone, PartialEq, Eq)]
pub enum SelectData {
    /// `* n EXISTS`.
    Exists(u32),
    /// `* VANISHED (EARLIER) set`.
    Vanished(Vec<SetItem>),
    /// A FETCH response; the UIDs it carries, in order.
    Fetch(Vec<u32>),
    /// Anything else.
    Other,
}

/// A response code that carries mailbox state.
#[derive(Debug, Clone, Copy, PartialEq, Eq, Structural)]
pub enum StateCode {
    UidValidity(u32),
    UidNext(u32),
    HighestModSeq(u64),
    Other,
}

/// The mathematical content of a SELECT state.
pub struct SelectModel {
    pub exists: Option<u32>,
    pub uid_validity: Option<u32>,
    pub uid_next: Option<u32>,
    pub highest_modseq: Option<u64>,
    pub vanished: Seq<u32>,
    pub changed: Seq<u32>,
}

/// The model of a state.
pub open spec fn select_model(s: SelectState) -> SelectModel {
    SelectModel {
        exists: s.exists,
        uid_validity: s.uid_validity,
        uid_next: s.uid_next,
        highest_modseq: s.highest_modseq,
        vanished: s.vanished@,
        changed: s.changed@,
    }
}

/// The state after one response.
pub open spec fn after_data(m: SelectModel, d: SelectData) -> SelectModel {
    match d {
        SelectData::Exists(n) => SelectModel { exists: Some(n), ..m },
        SelectData::Vanished(set) => SelectModel { vanished: m.vanished + set_uids(set@), ..m },
        SelectData::Fetch(uids) => SelectModel { changed: m.changed + uids@, ..m },
        SelectData::Other => m,
    }
}

/// The state after one response code.
pub open spec fn after_code(m: SelectModel, c: StateCode) -> SelectModel {
    match c {
        StateCode::UidValidity(v) => SelectModel { uid_validity: Some(v), ..m },
        StateCode::UidNext(v) => SelectModel { uid_next: Some(v), ..m },
        StateCode::HighestModSeq(v) => SelectModel { highest_modseq: Some(v), ..m },
        StateCode::Other => m,
    }
}

/// The state after a run of responses, in order.
pub open spec fn fold_data(m: SelectModel, ds: Seq<SelectData>) -> SelectModel
    decreases ds.len(),
{
    if ds.len() == 0 {
        m
    } else {
        after_data(fold_data(m, ds.drop_last()), ds.last())
    }
}

/// The state after a run of response codes, in order.
pub open spec fn fold_codes(m: SelectModel, cs: Seq<StateCode>) -> SelectModel
    decreases cs.len(),
{
    if cs.len() == 0 {
        m
    } else {
        after_code(fold_codes(m, cs.drop_last()), cs.last())
    }
}

/// Nothing reported.
pub open spec fn empty_model() -> SelectModel {
    SelectModel {
        exists: None,
        uid_validity: None,
        uid_next: None,
        highest_modseq: None,
        vanished: seq![],
        changed: seq![],
    }
}

/// The state a SELECT reported: its untagged data in order, then its response
/// codes in order (those of the untagged status lines, then that of the
/// tagged completion); a later report of the same item wins.
pub fn select_state(data: &[SelectData], codes: &[StateCode]) -> (r: SelectState)
    ensures
        select_model(r) == fold_codes(fold_data(empty_model(), data@), codes@),
{
    let mut state = SelectState::default();
    assert(select_model(state) == empty_model()) by {
        assert(state.vanished@ =~= Seq::<u32>::empty());
        assert(state.changed@ =~= Seq::<u32>::empty());
    }
    let mut i: usize = 0;
    while i < data.len()
        invariant
            i <= data@.len(),
            select_model(state) == fold_data(empty_model(), data@.take(i as int)),
        decreases data@.len() - i,
    {
        assert(data@.take(i + 1).drop_last() =~= data@.take(i as int));
        let ghost before = select_model(state);
        match &data[i] {
            SelectData::Exists(n) => {
                state.exists = Some(*n);
            },
            SelectData::Vanished(set) => {
                let uids = expand_uids(set.as_slice());
                let mut k: usize = 0;
                let ghost start = state.vanished@;
                while k < uids.len()
                    invariant
                        k <= uids@.len(),
                        state.vanished@ == start + uids@.take(k as int),
                        state.exists == before.exists,
                        state.uid_validity == before.uid_validity,
                        state.uid_next == before.uid_next,
                        state.highest_modseq == before.highest_modseq,
                        state.changed@ == before.changed,
                    decreases uids@.len() - k,
                {
                    state.vanished.push(uids[k]);
                    k += 1;
                    assert(state.vanished@ =~= start + uids@.take(k as int));
                }
                assert(uids@.take(k as int) =~= uids@);
            },
            SelectData::Fetch(uids) => {
                let mut k: usize = 0;
                let ghost start = state.changed@;
                while k < uids.len()
                    invariant
                        k <= uids@.len(),
                        state.changed@ == start + uids@.take(k as int),
                        state.exists == before.exists,
                        state.uid_validity == before.uid_validity,
                        state.uid_next == before.uid_next,
                        state.highest_modseq == before.highest_modseq,
                        state.vanished@ == before.vanished,
                    decreases uids@.len() - k,
                {
                    state.changed.push(uids[k]);
                    k += 1;
                    assert(state.changed@ =~= start + uids@.take(k as int));
                }
                assert(uids@.take(k as int) =~= uids@);
            },
            SelectData::Other => {},
        }
        i += 1;
        assert(select_model(state) =~= fold_data(empty_model(), data@.take(i as int)));
    }
    assert(data@.take(i as int) =~= data@);
    let ghost base = select_model(state);
    let mut j: usize = 0;
    while j < codes.len()
        invariant
            j <= codes@.len(),
            select_model(state) == fold_codes(base, codes@.take(j as int)),
        decreases codes@.len() - j,
    {
        assert(codes@.take(j + 1).drop_last() =~= codes@.take(j as int));
        match codes[j] {
            StateCode::UidValidity(v) => {
                state.uid_validity = Some(v);
            },
            StateCode::UidNext(v) => {
                state.uid_next = Some(v);
            },
            StateCode::HighestModSeq(v) => {
                state.highest_modseq = Some(v);
            },
            StateCode::Other => {},
        }
        j += 1;
        assert(select_model(state) =~= fold_codes(base, codes@.take(j as int)));
    }
    assert(codes@.take(j as int) =~= codes@);
    state
}

/// One item of a STATUS response.
#[derive(Debug, Clone, Copy, PartialEq, Eq, Structural)]
pub enum StatusItem {
    Messages(u32),
    Unseen(u32),
    UidValidity(u32),
    UidNext(u32),
    Other,
}

/// The status after one more item; a later report of the same item wins.
pub open spec fn after_status_item(s: MailboxStatus, item: StatusItem) -> MailboxStatus {
    match item {
        StatusItem::Messages(v) => MailboxStatus { messages: Some(v), ..s },
        StatusItem::Unseen(v) => MailboxStatus { unseen: Some(v), ..s },
        StatusItem::UidValidity(v) => MailboxStatus { uid_validity: Some(v), ..s },
        StatusItem::UidNext(v) => MailboxStatus { uid_next: Some(v), ..s },
        StatusItem::Other => s,
    }
}

/// The status a run of items reports.
pub open spec fn status_of(items: Seq<StatusItem>) -> MailboxStatus
    decreases items.len(),
{
    if items.len() == 0 {
        MailboxStatus { messages: None, unseen: None, uid_validity: None, uid_next: None }
    } else {
        after_status_item(status_of(items.drop_last()), items.last())
    }
}

/// The status that the items of STATUS responses report, in order.
pub fn mailbox_status(items: &[StatusItem]) -> (r: MailboxStatus)
    ensures
        r == status_of(items@),
{
    let mut status = MailboxStatus::default();
    let mut i: usize = 0;
    while i < items.len()
        invariant
            i <= items@.len(),
            status == status_of(items@.take(i as int)),
        decreases items@.len() - i,
    {
        assert(items@.take(i + 1).drop_last() =~= items@.take(i as int));
        match items[i] {
            StatusItem::Messages(v) => {
                status.messages = Some(v);
            },
            StatusItem::Unseen(v) => {
                status.unseen = Some(v);
            },
            StatusItem::UidValidity(v) => {
                status.uid_validity = Some(v);
            },
            StatusItem::UidNext(v) => {
                status.uid_next = Some(v);
            },
            StatusItem::Other => {},
        }
        i += 1;
    }
    assert(items@.take(i as int) =~= items@);
    status
}

// ---------------------------------------------------------------------------
// Flags that changed since a modification sequence.
// ---------------------------------------------------------------------------
/// One item of a FETCH response that flag synchronization reads.
#[derive(Debug, Clone, PartialEq, Eq)]
pub enum FetchItem {
    Uid(u32),
    /// The flags, already named as the application names them.
    Flags(Vec<String>),
    Other,
}

/// The UID and flags one FETCH response reports: the last of each item wins,
/// and flags default to none.
pub open spec fn fetch_report(items: Seq<FetchItem>) -> (Option<u32>, Seq<Seq<char>>)
    decreases items.len(),
{
    if items.len() == 0 {
        (None, seq![])
    } else {
        let before = fetch_report(items.drop_last());
        match items.last() {
            FetchItem::Uid(u) => (Some(u), before.1),
            FetchItem::Flags(f) => (before.0, strings_view(f@)),
            FetchItem::Other => before,
        }
    }
}

/// The (UID, flags) pairs of the FETCH responses that carry a UID, in order.
pub open spec fn changed_pairs(fetches: Seq<Vec<FetchItem>>) -> Seq<(u32, Seq<Seq<char>>)>
    decreases fetches.len(),
{
    if fetches.len() == 0 {
        seq![]
    } else {
        let before = changed_pairs(fetches.drop_last());
        let r = fetch_report(fetches.last()@);
        match r.0 {
            Some(u) => before.push((u, r.1)),
            None => before,
        }
    }
}

/// The view of a (UID, flags) pair.
pub open spec fn pair_view(p: (u32, Vec<String>)) -> (u32, Seq<Seq<char>>) {
    (p.0, strings_view(p.1@))
}

/// The views of a list of (UID, flags) pairs.
pub open spec fn pairs_view(v: Seq<(u32, Vec<String>)>) -> Seq<(u32, Seq<Seq<char>>)> {
    Seq::new(v.len(), |i: int| pair_view(v[i]))
}

/// The UIDs and flags that a `UID FETCH ... (CHANGEDSINCE ...)` reported.
pub fn changed_flags(fetches: &[Vec<FetchItem>]) -> (r: Vec<(u32, Vec<String>)>)
    ensures
        pairs_view(r@) == changed_pairs(fetches@),
{
    let mut out: Vec<(u32, Vec<String>)> = Vec::new();
    let mut i: usize = 0;
    while i < fetches.len()
        invariant
            i <= fetches@.len(),
            pairs_view(out@) == changed_pairs(fetches@.take(i as int)),
        decreases fetches@.len() - i,
    {
        assert(fetches@.take(i + 1).drop_last() =~= fetches@.take(i as int));
        let items = &fetches[i];
        let mut uid: Option<u32> = None;
        let mut flags: Vec<String> = Vec::new();
        let mut k: usize = 0;
        while k < items.len()
            invariant
                k <= items@.len(),
                (uid, strings_view(flags@)) == fetch_report(items@.take(k as int)),
            decreases items@.len() - k,
        {
            assert(items@.take(k + 1).drop_last() =~= items@.take(k as int));
            match &items[k] {
                FetchItem::Uid(u) => {
                    uid = Some(*u);
                },
                FetchItem::Flags(f) => {
                    flags = clone_strings(f);
                },
                FetchItem::Other => {},
            }
            k += 1;
        }
        assert(items@.take(k as int) =~= items@);
        match uid {
            Some(u) => {
                out.push((u, flags));
                assert(pairs_view(out@) =~= changed_pairs(fetches@.take(i as int)).push((u, fetch_report(items@).1)));
            },
            None => {},
        }
        i += 1;
    }
    assert(fetches@.take(i as int) =~= fetches@);
    out
}

// ---------------------------------------------------------------------------
// Pages of a listing.
// ---------------------------------------------------------------------------
/// Highest first.
pub open spec fn descending(s: Seq<u32>) -> bool {
    forall|i: int, j: int| 0 <= i < j < s.len() ==> s[i] >= s[j]
}

/// The first place of page `page` (counted from 1; page 0 is page 1) of
/// `size` entries.
pub open spec fn page_start(page: nat, size: nat) -> nat {
    (if page > 0 { (page - 1) as nat } else { 0 }) * size
}

fn slice_u32(v: &Vec<u32>, from: usize, to: usize) -> (r: Vec<u32>)
    requires
        from <= to <= v@.len(),
    ensures
        r@ == v@.subrange(from as int, to as int),
{
    let mut r: Vec<u32> = Vec::new();
    let mut i: usize = from;
    while i < to
        invariant
            from <= i <= to,
            to <= v@.len(),
            r@ == v@.subrange(from as int, i as int),
        decreases to - i,
    {
        r.push(v[i]);
        i += 1;
        assert(r@ =~= v@.subrange(from as int, i as int));
    }
    r
}

/// The entries of `s` from `start` on, at most `size` of them.
pub open spec fn page_slice(s: Seq<u32>, start: nat, size: nat) -> Seq<u32> {
    if start >= s.len() {
        seq![]
    } else if start + size <= s.len() {
        s.subrange(start as int, (start + size) as int)
    } else {
        s.subrange(start as int, s.len() as int)
    }
}

/// The UIDs of one page of a search answer, newest (highest UID) first: the
/// answer sorted from the highest UID down, then `page_size` of them from the
/// start of page `page`.
pub fn page_of_uids(uids: Vec<u32>, page: usize, page_size: usize) -> (r: Vec<u32>)
    requires
        page_start(page as nat, page_size as nat) <= usize::MAX,
    ensures
        exists|sorted: Seq<u32>| {
            &&& sorted.to_multiset() == uids@.to_multiset()
            &&& descending(sorted)
            &&& r@ == page_slice(sorted, page_start(page as nat, page_size as nat), page_size as nat)
        },
{
    let mut src = uids;
    let ghost orig = src@;
    let mut out: Vec<u32> = Vec::new();
    let ghost mut k: int = 0;
    assert(orig.take(0) =~= Seq::<u32>::empty());
    assert(orig.skip(0) =~= orig);
    while src.len() > 0
        invariant
            0 <= k <= orig.len(),
            orig == uids@,
            src@ == orig.skip(k),
            out@.to_multiset() == orig.take(k).to_multiset(),
            descending(out@),
        decreases src.len(),
    {
        let x = src.remove(0);
        let mut p: usize = 0;
        while p < out.len() && out[p] >= x
            invariant
                p <= out.len(),
                forall|i: int| 0 <= i < p ==> #[trigger] out@[i] >= x,
            decreases out.len() - p,
        {
            p = p + 1;
        }
        let ghost before = out@;
        out.insert(p, x);
        proof {
            assert(out@ =~= before.insert(p as int, x));
            assert forall|i: int, j: int| 0 <= i < j < out@.len() implies out@[i] >= out@[j] by {
                if j < p {
                } else if j == p {
                } else if i < p {
                    assert(out@[j] == before[j - 1]);
                } else if i == p {
                    assert(out@[j] == before[j - 1]);
                    assert(before[p as int] >= before[j - 1]);
                } else {
                    assert(out@[j] == before[j - 1]);
                    assert(out@[i] == before[i - 1]);
                }
            }
            assert(orig.take(k + 1) =~= orig.take(k).push(orig[k]));
            assert(orig.skip(k + 1) =~= orig.skip(k).drop_first());
            k = k + 1;
        }
    }
    assert(orig.take(k) =~= orig);
    let start: usize = if page > 0 { (page - 1) * page_size } else { 0 };
    assert(start as nat == page_start(page as nat, page_size as nat));
    let n = out.len();
    if start >= n {
        let empty: Vec<u32> = Vec::new();
        assert(empty@ =~= page_slice(out@, start as nat, page_size as nat));
        return empty;
    }
    let end: usize = if page_size <= n - start { start + page_size } else { n };
    let r = slice_u32(&out, start, end);
    assert(r@ =~= page_slice(out@, start as nat, page_size as nat));
    r
}

// ---------------------------------------------------------------------------
// SEARCH and SORT answers.
// ---------------------------------------------------------------------------
/// An untagged response to SEARCH or SORT.
#[derive(Debug, Clone, PartialEq, Eq)]
pub enum SearchData {
    /// `* SEARCH` with its numbers.
    Search(Vec<u32>),
    /// `* SORT` with its numbers.
    Sort(Vec<u32>),
    Other,
}

/// The numbers of the SEARCH and SORT responses, in order.
pub open spec fn search_numbers(rs: Seq<SearchData>) -> Seq<u32>
    decreases rs.len(),
{
    if rs.len() == 0 {
        seq![]
    } else {
        search_numbers(rs.drop_last()) + match rs.last() {
            SearchData::Search(ids) => ids@,
            SearchData::Sort(ids) => ids@,
            SearchData::Other => seq![],
        }
    }
}

/// The UIDs a SEARCH or SORT command returned.
pub fn uids_from_search(responses: &[SearchData]) -> (r: Vec<u32>)
    ensures
        r@ == search_numbers(responses@),
{
    let mut out: Vec<u32> = Vec::new();
    let mut i: usize = 0;
    while i < responses.len()
        invariant
            i <= responses@.len(),
            out@ == search_numbers(responses@.take(i as int)),
        decreases responses@.len() - i,
    {
        assert(responses@.take(i + 1).drop_last() =~= responses@.take(i as int));
        let ghost before = out@;
        match &responses[i] {
            SearchData::Search(ids) | SearchData::Sort(ids) => {
                let mut k: usize = 0;
                while k < ids.len()
                    invariant
                        k <= ids@.len(),
                        out@ == before + ids@.take(k as int),
                    decreases ids@.len() - k,
                {
                    out.push(ids[k]);
                    k += 1;
                    assert(out@ =~= before + ids@.take(k as int));
                }
                assert(ids@.take(k as int) =~= ids@);
            },
            SearchData::Other => {
                assert(out@ =~= before + Seq::<u32>::empty());
            },
        }
        i += 1;
    }
    assert(responses@.take(i as int) =~= responses@);
    out
}

} // verus!
