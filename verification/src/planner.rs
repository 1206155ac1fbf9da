//! Handing a message's calendar invitation to Planner123, which owns
//! calendars and scheduling: the command lines of its CLI and what its
//! reports mean. Running the CLI and reading its JSON is the caller's part.
use vstd::prelude::*;
use crate::text::strings_view;

use crate::errors::MailError;
use crate::errors::MailErrorKind;
use crate::errors::MailResult;
use crate::text::chars_of;
use crate::text::string_of;
use crate::text::push_all;
use crate::text::push_decimal;
use crate::text::decimal;
use crate::text::lines;
use crate::text::lines_chars;
use crate::text::seq_of_pieces;
use crate::text::trim;
use crate::text::trim_chars;
use crate::text::str_eq;

verus! {

/// What Planner123 reported about an import.
#[derive(Debug, Clone, PartialEq, Eq)]
pub struct ImportReport {
    pub calendar_name: String,
    pub imported: usize,
    pub skipped: usize,
    /// Events Planner123 imported with reservations, e.g. unsupported data.
    pub warnings: Vec<String>,
}

/// The one-line summary of a report.
pub open spec fn summary_text(r: ImportReport) -> Seq<char> {
    let head = "Added "@ + decimal(r.imported as nat) + " event(s) to Planner123 ("@ + r.calendar_name@ + ")."@;
    let with_skipped = if r.skipped > 0 { head + " "@ + decimal(r.skipped as nat) + " skipped."@ } else { head };
    if r.warnings@.len() > 0 { with_skipped + " "@ + r.warnings@[0]@ } else { with_skipped }
}

impl ImportReport {
    /// A one-line summary for the status bar: how many events were added to
    /// which calendar, how many were skipped, and the first warning.
    pub fn summary(&self) -> (r: String)
        ensures
            r@ == summary_text(*self),
    {
        let mut t = chars_of("Added ");
        push_decimal(&mut t, self.imported as u64);
        push_all(&mut t, chars_of(" event(s) to Planner123 (").as_slice());
        push_all(&mut t, chars_of(self.calendar_name.as_str()).as_slice());
        push_all(&mut t, chars_of(").").as_slice());
        if self.skipped > 0 {
            push_all(&mut t, chars_of(" ").as_slice());
            push_decimal(&mut t, self.skipped as u64);
            push_all(&mut t, chars_of(" skipped.").as_slice());
        }
        if self.warnings.len() > 0 {
            push_all(&mut t, chars_of(" ").as_slice());
            push_all(&mut t, chars_of(self.warnings[0].as_str()).as_slice());
        }
        string_of(t.as_slice())
    }
}

/// The first line of `ls` that is not blank, trimmed.
pub open spec fn first_nonblank(ls: Seq<Seq<char>>) -> Option<Seq<char>>
    decreases ls.len(),
{
    if ls.len() == 0 {
        None
    } else if trim(ls[0]).len() > 0 {
        Some(trim(ls[0]))
    } else {
        first_nonblank(ls.drop_first())
    }
}

/// The first line of `text` that is not blank, trimmed; `text` trimmed when
/// every line is blank.
pub open spec fn first_line_spec(text: Seq<char>) -> Seq<char> {
    match first_nonblank(lines(text)) {
        Some(l) => l,
        None => trim(text),
    }
}

/// The first non-empty line of a command's output.
pub fn first_line(text: &str) -> (r: String)
    ensures
        r@ == first_line_spec(text@),
{
    let cs = chars_of(text);
    let ls = lines_chars(cs.as_slice());
    let mut i: usize = 0;
    assert(lines(text@).skip(0) =~= lines(text@));
    while i < ls.len()
        invariant
            i <= ls@.len(),
            seq_of_pieces(ls@) == lines(text@),
            cs@ == text@,
            first_nonblank(lines(text@)) == first_nonblank(lines(text@).skip(i as int)),
        decreases ls@.len() - i,
    {
        let t = trim_chars(ls[i].as_slice());
        assert(seq_of_pieces(ls@)[i as int] == ls@[i as int]@);
        assert(lines(text@).skip(i as int)[0] == ls@[i as int]@);
        if t.len() > 0 {
            return string_of(t.as_slice());
        }
        assert(lines(text@).skip(i as int).drop_first() =~= lines(text@).skip(i + 1));
        i += 1;
    }
    let t = trim_chars(cs.as_slice());
    string_of(t.as_slice())
}

/// The import report Planner123's `ical import` envelope carries: its data
/// when the status is `ok`, else the error it reports.
pub fn import_report_from(status: &str, data: Option<ImportReport>, error: Option<String>) -> (r: MailResult<ImportReport>)
    ensures
        status@ != "ok"@ ==> (r matches Err(e) && e.kind == MailErrorKind::Other
            && e.message@ == "Planner123 reported "@ + status@ + ": "@ + match error { Some(t) => t@, None => Seq::<char>::empty() }),
        status@ == "ok"@ ==> match data {
            Some(d) => r == Ok::<ImportReport, MailError>(d),
            None => r matches Err(e) && e.kind == MailErrorKind::Other && e.message@ == "Planner123 reported no import data"@,
        },
{
    if !str_eq(status, "ok") {
        let mut m = chars_of("Planner123 reported ");
        push_all(&mut m, chars_of(status).as_slice());
        push_all(&mut m, chars_of(": ").as_slice());
        match &error {
            Some(t) => push_all(&mut m, chars_of(t.as_str()).as_slice()),
            None => {
                assert(m@ + Seq::<char>::empty() =~= m@);
            },
        }
        return Err(MailError::new(MailErrorKind::Other, string_of(m.as_slice())));
    }
    match data {
        Some(d) => Ok(d),
        None => Err(MailError::other("Planner123 reported no import data")),
    }
}

/// The calendar to import into from Planner123's `calendars list`, given as
/// (id, is default) pairs: the default one, else the first.
pub fn default_calendar_from(calendars: &[(String, bool)]) -> (r: MailResult<String>)
    ensures
        match r {
            Ok(id) => exists|k: int| 0 <= k < calendars@.len() && id@ == (#[trigger] calendars@[k]).0@
                && (calendars@[k].1 || ((forall|j: int| 0 <= j < calendars@.len() ==> !(#[trigger] calendars@[j]).1) && k == 0))
                && forall|j: int| 0 <= j < k ==> !(#[trigger] calendars@[j]).1,
            Err(e) => calendars@.len() == 0 && e.kind == MailErrorKind::Other
                && e.message@ == "Planner123 has no calendar to import into"@,
        },
{
    let mut i: usize = 0;
    while i < calendars.len()
        invariant
            i <= calendars@.len(),
            forall|j: int| 0 <= j < i ==> !(#[trigger] calendars@[j]).1,
        decreases calendars@.len() - i,
    {
        if calendars[i].1 {
            return Ok(calendars[i].0.clone());
        }
        i += 1;
    }
    if calendars.len() > 0 {
        Ok(calendars[0].0.clone())
    } else {
        Err(MailError::other("Planner123 has no calendar to import into"))
    }
}

/// The Planner123 command-line client.
#[derive(Debug, Clone)]
pub struct Planner123 {
    binary: String,
    /// Calendar to import into; `None` asks Planner123 for its default.
    calendar_id: Option<String>,
    /// Default timezone for events that do not carry one.
    timezone: String,
}

fn text(s: &str) -> (r: String)
    ensures
        r@ == s@,
{
    string_of(chars_of(s).as_slice())
}

impl Planner123 {
    /// The path of the CLI.
    pub closed spec fn binary_view(&self) -> Seq<char> {
        self.binary@
    }

    /// The calendar chosen for imports, if one was.
    pub closed spec fn calendar_view(&self) -> Option<String> {
        self.calendar_id
    }

    /// The timezone for events without one.
    pub closed spec fn timezone_view(&self) -> Seq<char> {
        self.timezone@
    }

    /// A client for the CLI at `binary`.
    pub fn new(binary: String, calendar_id: Option<String>, timezone: String) -> (r: Self)
        ensures
            r.binary_view() == binary@,
            r.calendar_view() == calendar_id,
            r.timezone_view() == timezone@,
    {
        Planner123 { binary, calendar_id, timezone }
    }

    /// The path of the CLI.
    pub fn binary(&self) -> (r: &str)
        ensures
            r@ == self.binary_view(),
    {
        self.binary.as_str()
    }

    /// The calendar chosen for imports, if one was.
    pub fn calendar_id(&self) -> (r: Option<String>)
        ensures
            r == self.calendar_view(),
    {
        self.calendar_id.clone()
    }

    /// The arguments of an import of the file at `path` into `calendar_id`.
    pub fn import_arguments(&self, calendar_id: &str, path: &str) -> (r: Vec<String>)
        ensures
            strings_view(r@) == seq!["ical"@, "import"@, "--calendar-id"@, calendar_id@, "--path"@, path@, "--timezone"@, self.timezone_view()],
    {
        let mut v: Vec<String> = Vec::new();
        v.push(text("ical"));
        v.push(text("import"));
        v.push(text("--calendar-id"));
        v.push(text(calendar_id));
        v.push(text("--path"));
        v.push(text(path));
        v.push(text("--timezone"));
        v.push(self.timezone.clone());
        assert(strings_view(v@) =~= seq!["ical"@, "import"@, "--calendar-id"@, calendar_id@, "--path"@, path@, "--timezone"@, self.timezone@]);
        v
    }
}

/// The arguments that list Planner123's calendars.
pub fn calendars_arguments() -> (r: Vec<String>)
    ensures
        strings_view(r@) == seq!["calendars"@, "list"@],
{
    let mut v: Vec<String> = Vec::new();
    v.push(text("calendars"));
    v.push(text("list"));
    assert(strings_view(v@) =~= seq!["calendars"@, "list"@]);
    v
}

/// The error for a CLI run that failed, naming the first line it printed on
/// its error stream.
pub fn refused(what: &str, stderr: &str) -> (r: MailError)
    ensures
        r.kind == MailErrorKind::Other,
        r.message@ == what@ + first_line_spec(stderr@),
{
    let line = first_line(stderr);
    let mut m = chars_of(what);
    push_all(&mut m, chars_of(line.as_str()).as_slice());
    MailError::new(MailErrorKind::Other, string_of(m.as_slice()))
}

} // verus!
