//! What a run tells the operator: the lines for the console and the log, the
//! summary and the exit code.

use vstd::prelude::*;
use vstd::string::StringExecFns;

use crate::paths::PathError;
use crate::search::{Decision, DecisionView};

verus! {

/// Something that happened during a run. Paths are given as the caller shows
/// them.
#[derive(Clone, Debug, PartialEq, Eq)]
pub enum Event {
    /// The search began.
    Started,
    /// A candidate holds the keyword.
    Found { path: String },
    /// A candidate does not hold the keyword.
    NoMatch { path: String },
    /// A candidate could not be read.
    Unreadable { path: String },
    /// A candidate's bytes are not text.
    NotText { path: String },
    /// A match was copied to `destination`.
    Copied { destination: String },
    /// A match could not be copied; `error` says why.
    CopyFailed { path: String, error: String },
    /// The run ended with these counts.
    Summarized { summary: Summary },
    /// The search and the copying ended after `elapsed`.
    Finished { elapsed: String },
}

/// How a candidate ended.
#[derive(Clone, Copy, Debug, PartialEq, Eq, Structural)]
pub enum FileResult {
    /// Its text does not hold the keyword.
    NoMatch,
    /// It could not be read, or its bytes are not text.
    ScanFailed,
    /// It matched and was copied.
    Copied,
    /// It matched and could not be copied.
    CopyFailed,
}

/// The line that the console shows for an event.
pub open spec fn console_text(event: Event) -> Seq<char> {
    match event {
        Event::Started => "Started the search..."@,
        Event::Found { path } => "Found matching email at "@ + path@,
        Event::NoMatch { path } => "No matching email found at "@ + path@,
        Event::Unreadable { path } => "Could not read "@ + path@,
        Event::NotText { path } => "Could not decode as text "@ + path@,
        Event::Copied { destination } => "Successfully copied to "@ + destination@,
        Event::CopyFailed { path, error } => "Failed to copy "@ + path@ + ": "@ + error@,
        Event::Summarized { summary } => summary_text(summary),
        Event::Finished { elapsed } => "Search and copy took "@ + elapsed@ + " to complete"@,
    }
}

/// The message that the log holds for an event. It is the console's line but
/// for a candidate without the keyword.
pub open spec fn log_text(event: Event) -> Seq<char> {
    match event {
        Event::NoMatch { path } => "No matching keyword at "@ + path@,
        _ => console_text(event),
    }
}

/// A line of the log: the time of the event, a space, and the message.
pub open spec fn log_line_text(timestamp: Seq<char>, event: Event) -> Seq<char> {
    timestamp + " "@ + log_text(event)
}

impl Event {
    /// The line that the console shows for the event.
    pub fn console_line(&self) -> (line: String)
        ensures
            line@ == console_text(*self),
    {
        match self {
            Event::Started => "Started the search...".to_owned(),
            Event::Found { path } => "Found matching email at ".to_owned().concat(path.as_str()),
            Event::NoMatch { path } => "No matching email found at ".to_owned().concat(
                path.as_str(),
            ),
            Event::Unreadable { path } => "Could not read ".to_owned().concat(path.as_str()),
            Event::NotText { path } => "Could not decode as text ".to_owned().concat(
                path.as_str(),
            ),
            Event::Copied { destination } => "Successfully copied to ".to_owned().concat(
                destination.as_str(),
            ),
            Event::CopyFailed { path, error } => "Failed to copy ".to_owned().concat(
                path.as_str(),
            ).concat(": ").concat(error.as_str()),
            Event::Summarized { summary } => summary.line(),
            Event::Finished { elapsed } => "Search and copy took ".to_owned().concat(
                elapsed.as_str(),
            ).concat(" to complete"),
        }
    }

    /// The message that the log holds for the event.
    pub fn log_message(&self) -> (message: String)
        ensures
            message@ == log_text(*self),
    {
        match self {
            Event::NoMatch { path } => "No matching keyword at ".to_owned().concat(path.as_str()),
            _ => self.console_line(),
        }
    }

    /// The line of the log for the event at the time `timestamp`.
    pub fn log_line(&self, timestamp: &str) -> (line: String)
        ensures
            line@ == log_line_text(timestamp@, *self),
    {
        let message = self.log_message();
        timestamp.to_owned().concat(" ").concat(message.as_str())
    }
}

/// Whether `event` is what the decision `decision` on the file shown as
/// `shown` is announced with. Nothing is said of a file that is skipped; a
/// match is announced as found before it is copied; a match outside the source
/// root is announced as a copy that failed.
pub open spec fn announces(event: Option<Event>, decision: DecisionView, shown: Seq<char>) -> bool {
    match decision {
        DecisionView::Skip => event is None,
        DecisionView::Unreadable => event matches Some(Event::Unreadable { path }) && path@ == shown,
        DecisionView::NotText => event matches Some(Event::NotText { path }) && path@ == shown,
        DecisionView::NoMatch => event matches Some(Event::NoMatch { path }) && path@ == shown,
        DecisionView::Copy(_) => event matches Some(Event::Found { path }) && path@ == shown,
        DecisionView::OutsideRoot => event matches Some(Event::CopyFailed { path, error }) && path@
            == shown && error@ == "the path does not lie under the source directory"@,
    }
}

/// How a candidate ends when nothing is copied for it; nothing for a file
/// that is skipped, and nothing yet for a match that is still to be copied.
pub open spec fn settled(decision: DecisionView) -> Option<FileResult> {
    match decision {
        DecisionView::Skip => None,
        DecisionView::Unreadable => Some(FileResult::ScanFailed),
        DecisionView::NotText => Some(FileResult::ScanFailed),
        DecisionView::NoMatch => Some(FileResult::NoMatch),
        DecisionView::Copy(_) => None,
        DecisionView::OutsideRoot => Some(FileResult::CopyFailed),
    }
}

/// The event that the decision on the file shown as `shown` is announced
/// with.
pub fn announce(decision: &Decision, shown: &str) -> (event: Option<Event>)
    ensures
        announces(event, decision@, shown@),
{
    match decision {
        Decision::Skip => None,
        Decision::Unreadable => Some(Event::Unreadable { path: shown.to_owned() }),
        Decision::NotText => Some(Event::NotText { path: shown.to_owned() }),
        Decision::NoMatch => Some(Event::NoMatch { path: shown.to_owned() }),
        Decision::Copy(_) => Some(Event::Found { path: shown.to_owned() }),
        Decision::OutsideRoot => Some(
            Event::CopyFailed { path: shown.to_owned(), error: PathError::NotUnderRoot.message() },
        ),
    }
}

/// How a candidate ends when nothing is copied for it.
pub fn settle(decision: &Decision) -> (result: Option<FileResult>)
    ensures
        result == settled(decision@),
{
    match decision {
        Decision::Skip => None,
        Decision::Unreadable => Some(FileResult::ScanFailed),
        Decision::NotText => Some(FileResult::ScanFailed),
        Decision::NoMatch => Some(FileResult::NoMatch),
        Decision::Copy(_) => None,
        Decision::OutsideRoot => Some(FileResult::CopyFailed),
    }
}

/// The event and the result for a match after the attempt to copy it:
/// `failure` is what went wrong, or nothing where the copy was made.
pub fn copy_report(source: &str, destination: &str, failure: Option<&str>) -> (report: (
    Event,
    FileResult,
))
    ensures
        match failure {
            None => {
                &&& report.0 matches Event::Copied { destination: to }
                &&& to@ == destination@
                &&& report.1 == FileResult::Copied
            },
            Some(why) => {
                &&& report.0 matches Event::CopyFailed { path, error }
                &&& path@ == source@
                &&& error@ == why@
                &&& report.1 == FileResult::CopyFailed
            },
        },
{
    match failure {
        None => (Event::Copied { destination: destination.to_owned() }, FileResult::Copied),
        Some(why) => (
            Event::CopyFailed { path: source.to_owned(), error: why.to_owned() },
            FileResult::CopyFailed,
        ),
    }
}

/// The log tells a candidate without the keyword, a candidate that could not
/// be scanned and a match that could not be copied apart, whatever their
/// paths.
pub proof fn lemma_log_tells_failures_apart(
    unmatched: String,
    unread: String,
    undecoded: String,
    uncopied: String,
    error: String,
)
    ensures
        log_text(Event::NoMatch { path: unmatched }) != log_text(Event::Unreadable { path: unread }),
        log_text(Event::NoMatch { path: unmatched }) != log_text(
            Event::NotText { path: undecoded },
        ),
        log_text(Event::NoMatch { path: unmatched }) != log_text(
            Event::CopyFailed { path: uncopied, error },
        ),
        log_text(Event::Unreadable { path: unread }) != log_text(
            Event::CopyFailed { path: uncopied, error },
        ),
        log_text(Event::NotText { path: undecoded }) != log_text(
            Event::CopyFailed { path: uncopied, error },
        ),
{
    reveal_strlit("No matching keyword at ");
    reveal_strlit("Could not read ");
    reveal_strlit("Could not decode as text ");
    reveal_strlit("Failed to copy ");
    let no_match = log_text(Event::NoMatch { path: unmatched });
    let unreadable = log_text(Event::Unreadable { path: unread });
    let not_text = log_text(Event::NotText { path: undecoded });
    let copy_failed = log_text(Event::CopyFailed { path: uncopied, error });
    assert(no_match[0] == 'N');
    assert(unreadable[0] == 'C');
    assert(not_text[0] == 'C');
    assert(copy_failed[0] == 'F');
}

/// How many of `results` are `which`.
pub open spec fn count_of(results: Seq<FileResult>, which: FileResult) -> nat
    decreases results.len(),
{
    if results.len() == 0 {
        0
    } else {
        count_of(results.drop_last(), which) + if results.last() == which {
            1nat
        } else {
            0nat
        }
    }
}

/// The four kinds of result share the candidates among them.
pub proof fn lemma_counts_add_up(results: Seq<FileResult>)
    ensures
        count_of(results, FileResult::NoMatch) + count_of(results, FileResult::ScanFailed)
            + count_of(results, FileResult::Copied) + count_of(results, FileResult::CopyFailed)
            == results.len(),
    decreases results.len(),
{
    if results.len() > 0 {
        lemma_counts_add_up(results.drop_last());
    }
}

/// The counts of a run.
#[derive(Clone, Copy, Debug, PartialEq, Eq, Structural)]
pub struct Summary {
    /// The candidates that were gone through.
    pub candidates: usize,
    /// The candidates that hold the keyword.
    pub matches: usize,
    /// The matches that were copied.
    pub copied: usize,
    /// The matches that could not be copied.
    pub copy_failures: usize,
    /// The candidates that could not be read or are not text.
    pub scan_failures: usize,
}

/// The exit code of a run in which every match was copied.
pub const EXIT_SUCCESS: i32 = 0;

/// The exit code of a run that could not be set up.
pub const EXIT_SETUP_FAILURE: i32 = 1;

/// The exit code of a run in which a match could not be copied.
pub const EXIT_PARTIAL_FAILURE: i32 = 2;

/// The counts of the results of a run.
pub open spec fn summary_of(results: Seq<FileResult>) -> Summary {
    Summary {
        candidates: results.len() as usize,
        matches: (count_of(results, FileResult::Copied) + count_of(
            results,
            FileResult::CopyFailed,
        )) as usize,
        copied: count_of(results, FileResult::Copied) as usize,
        copy_failures: count_of(results, FileResult::CopyFailed) as usize,
        scan_failures: count_of(results, FileResult::ScanFailed) as usize,
    }
}

/// The decimal digit of value `d`.
pub open spec fn digit(d: nat) -> char
    recommends
        d < 10,
{
    seq!['0', '1', '2', '3', '4', '5', '6', '7', '8', '9'][d as int]
}

/// The decimal numeral of `n`, without leading zeros.
pub open spec fn decimal(n: nat) -> Seq<char>
    decreases n,
{
    if n < 10 {
        seq![digit(n)]
    } else {
        decimal(n / 10).push(digit(n % 10))
    }
}

/// The summary line of a run.
pub open spec fn summary_text(summary: Summary) -> Seq<char> {
    "Found "@ + decimal(summary.matches as nat) + " matching emails among "@ + decimal(
        summary.candidates as nat,
    ) + " candidates: "@ + decimal(summary.copied as nat) + " copied, "@ + decimal(
        summary.copy_failures as nat,
    ) + " not copied, "@ + decimal(summary.scan_failures as nat) + " not scanned"@
}

/// The numeral of one decimal digit.
fn digit_str(d: usize) -> (numeral: &'static str)
    requires
        d < 10,
    ensures
        numeral@ == seq![digit(d as nat)],
{
    proof {
        reveal_strlit("0");
        reveal_strlit("1");
        reveal_strlit("2");
        reveal_strlit("3");
        reveal_strlit("4");
        reveal_strlit("5");
        reveal_strlit("6");
        reveal_strlit("7");
        reveal_strlit("8");
        reveal_strlit("9");
    }
    let numeral = if d == 0 {
        "0"
    } else if d == 1 {
        "1"
    } else if d == 2 {
        "2"
    } else if d == 3 {
        "3"
    } else if d == 4 {
        "4"
    } else if d == 5 {
        "5"
    } else if d == 6 {
        "6"
    } else if d == 7 {
        "7"
    } else if d == 8 {
        "8"
    } else {
        "9"
    };
    assert(numeral@ =~= seq![digit(d as nat)]);
    numeral
}

/// Puts the decimal numeral of `n` at the end of `out`.
fn push_decimal(out: &mut String, n: usize)
    ensures
        final(out)@ == old(out)@ + decimal(n as nat),
    decreases n,
{
    if n >= 10 {
        push_decimal(out, n / 10);
    }
    out.append(digit_str(n % 10));
    assert(out@ =~= old(out)@ + decimal(n as nat));
}

/// The counts of the results of a run.
pub fn summarize(results: &Vec<FileResult>) -> (summary: Summary)
    ensures
        summary == summary_of(results@),
{
    let n = results.len();
    let mut copied: usize = 0;
    let mut copy_failures: usize = 0;
    let mut scan_failures: usize = 0;
    let mut i: usize = 0;
    assert(results@.take(0) =~= Seq::<FileResult>::empty());
    while i < n
        invariant
            n == results@.len(),
            i <= n,
            copied == count_of(results@.take(i as int), FileResult::Copied),
            copy_failures == count_of(results@.take(i as int), FileResult::CopyFailed),
            scan_failures == count_of(results@.take(i as int), FileResult::ScanFailed),
        decreases n - i,
    {
        proof {
            lemma_counts_add_up(results@.take(i as int));
            assert(results@.take(i + 1).drop_last() =~= results@.take(i as int));
            assert(results@.take(i + 1).last() == results@[i as int]);
        }
        match results[i] {
            FileResult::Copied => {
                copied += 1;
            },
            FileResult::CopyFailed => {
                copy_failures += 1;
            },
            FileResult::ScanFailed => {
                scan_failures += 1;
            },
            FileResult::NoMatch => {},
        }
        i += 1;
    }
    proof {
        assert(results@.take(n as int) =~= results@);
        lemma_counts_add_up(results@);
    }
    Summary { candidates: n, matches: copied + copy_failures, copied, copy_failures, scan_failures }
}

impl Summary {
    /// The summary line of the run.
    pub fn line(&self) -> (line: String)
        ensures
            line@ == summary_text(*self),
    {
        let mut line = "Found ".to_owned();
        push_decimal(&mut line, self.matches);
        line.append(" matching emails among ");
        push_decimal(&mut line, self.candidates);
        line.append(" candidates: ");
        push_decimal(&mut line, self.copied);
        line.append(" copied, ");
        push_decimal(&mut line, self.copy_failures);
        line.append(" not copied, ");
        push_decimal(&mut line, self.scan_failures);
        line.append(" not scanned");
        line
    }

    /// The exit code of the run: `EXIT_PARTIAL_FAILURE` where a match could
    /// not be copied, `EXIT_SUCCESS` otherwise.
    pub fn exit_code(&self) -> (code: i32)
        ensures
            code == if self.copy_failures > 0 {
                EXIT_PARTIAL_FAILURE
            } else {
                EXIT_SUCCESS
            },
    {
        if self.copy_failures > 0 {
            EXIT_PARTIAL_FAILURE
        } else {
            EXIT_SUCCESS
        }
    }
}

} // verus!
