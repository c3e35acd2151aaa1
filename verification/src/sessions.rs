//! Transfers step by step: what is read next, what is told of them on the way,
//! and how they end.

use vstd::prelude::*;
use crate::json;
use crate::server;
use crate::server::{failure_answer, Answer, UploadPlan, DONE_BODY, INCOMPLETE_BODY};
use crate::streams;
use crate::streams::{Download, UploadReceiver};
use crate::transfer::{wants_report, REPORT_INTERVAL_MS, RUNNING};

verus! {

/// The state of a transfer whose package is being made.
pub const PACKING: &'static str = "packing";

/// The state of a transfer whose package is being unpacked.
pub const EXTRACTING: &'static str = "extracting";

/// The state of a transfer whose application is being entered in the catalogue.
pub const INSTALLING: &'static str = "installing";

/// The state of a transfer that failed.
pub const FAILED: &'static str = "error";

/// The state of a transfer that is done.
pub const FINISHED: &'static str = "done";

/// How long a client that waits for a package lets pass between two questions
/// about its progress, in milliseconds.
pub const POLL_INTERVAL_MS: u128 = 500;

/// What is told of a transfer.
#[derive(Debug)]
pub struct Report {
    pub transferred: u64,
    pub total: u64,
    pub status: &'static str,
}

/// The report tells of so many bytes of so many, in that state.
pub open spec fn tells(r: Report, transferred: int, total: int, status: Seq<char>) -> bool {
    r.transferred == transferred && r.total == total && r.status@ == status
}

// ---------------------------------------------------------------------------
// A package that comes in
// ---------------------------------------------------------------------------

/// How a transfer to the server ends: whether the package and its metadata file
/// are removed, what is told of it, and what the client is answered.
#[derive(Debug)]
pub struct Ending {
    pub remove_package: bool,
    pub remove_metadata: bool,
    pub report: Report,
    pub answer: Answer,
}

#[verifier::ext_equal]
pub ghost struct EndingView {
    pub remove_package: bool,
    pub remove_metadata: bool,
    pub status: Seq<char>,
    pub code: u16,
    pub body: Seq<char>,
}

/// How a package ends of which `kept` of `expected` bytes came in, and which
/// was entered in the catalogue or could not be: one that is not whole is
/// removed, one that could not be entered is left for a look at it, and one
/// that was entered is no longer needed, nor is its metadata file.
pub open spec fn ending_of(kept: nat, expected: nat, entered: Result<(), Seq<char>>) -> EndingView {
    if kept != expected {
        EndingView {
            remove_package: true,
            remove_metadata: false,
            status: FAILED@,
            code: 400,
            body: INCOMPLETE_BODY@,
        }
    } else {
        match entered {
            Err(e) => EndingView {
                remove_package: false,
                remove_metadata: false,
                status: FAILED@,
                code: 500,
                body: json::error_text(e),
            },
            Ok(_) => EndingView {
                remove_package: true,
                remove_metadata: true,
                status: FINISHED@,
                code: 200,
                body: DONE_BODY@,
            },
        }
    }
}

/// The ending is the given one, with the counts of the transfer.
pub open spec fn ends(e: Ending, kept: int, expected: int, view: EndingView) -> bool {
    &&& e.remove_package == view.remove_package
    &&& e.remove_metadata == view.remove_metadata
    &&& tells(e.report, kept, expected, view.status)
    &&& server::is_answer(e.answer, view.code, view.body)
}

/// The problem, if there was one.
pub open spec fn problem_view(r: Result<(), String>) -> Result<(), Seq<char>> {
    match r {
        Ok(_) => Ok(()),
        Err(e) => Err(e@),
    }
}

/// A package that a client sends, as far as it has come in.
#[derive(Debug)]
pub struct UploadSession {
    receiver: UploadReceiver,
}

impl UploadSession {
    /// The length of the whole package.
    pub closed spec fn expected(self) -> usize {
        self.receiver.expected()
    }

    /// The length of what was kept.
    pub closed spec fn kept(self) -> usize {
        self.receiver.kept()
    }

    /// No more is kept than expected.
    pub closed spec fn wf(self) -> bool {
        self.receiver.wf()
    }

    /// Nothing came in yet.
    pub fn new(plan: &UploadPlan) -> (r: Self)
        ensures
            r.wf(),
            r.expected() == plan.content_length,
            r.kept() == 0,
    {
        UploadSession { receiver: UploadReceiver::new(plan.content_length) }
    }

    /// What is told of the transfer in the given state.
    pub fn report(&self, status: &'static str) -> (r: Report)
        requires
            self.wf(),
        ensures
            tells(r, self.kept() as int, self.expected() as int, status@),
    {
        let written: usize = self.receiver.written();
        let total: usize = self.receiver.whole();
        Report { transferred: written as u64, total: total as u64, status }
    }

    /// Takes in what came together with the request, and tells of it where it
    /// is not empty. How much of it is to be kept is returned.
    pub fn first(&mut self, length: usize) -> (r: (usize, Option<Report>))
        requires
            old(self).wf(),
        ensures
            final(self).wf(),
            final(self).expected() == old(self).expected(),
            r.0 == streams::least(old(self).expected() - old(self).kept(), length as int),
            final(self).kept() == old(self).kept() + r.0,
            streams::keeps(
                old(self).expected() as nat,
                old(self).kept() as nat,
                length as nat,
                r.0 as int,
            ),
            match r.1 {
                Some(report) => length > 0 && tells(
                    report,
                    final(self).kept() as int,
                    final(self).expected() as int,
                    RUNNING@,
                ),
                None => length == 0,
            },
    {
        let taken: usize = self.receiver.accept(length);
        if length == 0 {
            (taken, None)
        } else {
            (taken, Some(self.report(RUNNING)))
        }
    }

    /// Takes in a piece, and tells of it where it is time for that. How much of
    /// it is to be kept is returned.
    pub fn next(&mut self, length: usize, elapsed_ms: u128) -> (r: (usize, Option<Report>))
        requires
            old(self).wf(),
        ensures
            final(self).wf(),
            final(self).expected() == old(self).expected(),
            r.0 == streams::least(old(self).expected() - old(self).kept(), length as int),
            final(self).kept() == old(self).kept() + r.0,
            streams::keeps(
                old(self).expected() as nat,
                old(self).kept() as nat,
                length as nat,
                r.0 as int,
            ),
            ({
                let due = elapsed_ms > REPORT_INTERVAL_MS || old(self).kept() + r.0
                    == old(self).expected();
                match r.1 {
                    Some(report) => due && tells(
                        report,
                        old(self).kept() + r.0,
                        old(self).expected() as int,
                        RUNNING@,
                    ),
                    None => !due,
                }
            }),
    {
        let taken: usize = self.receiver.accept(length);
        let report = self.report(RUNNING);
        if wants_report(elapsed_ms, report.transferred, report.total) {
            (taken, Some(report))
        } else {
            (taken, None)
        }
    }

    /// How much is to be read next; nothing where the package is whole.
    pub fn wanted(&self) -> (r: usize)
        requires
            self.wf(),
        ensures
            r == streams::least(
                self.expected() - self.kept(),
                streams::CHUNK_SIZE as int,
            ),
    {
        self.receiver.wanted()
    }

    /// Whether the package is whole, so that it can be entered in the
    /// catalogue.
    pub fn is_whole(&self) -> (r: bool)
        requires
            self.wf(),
        ensures
            r == (self.kept() == self.expected()),
    {
        self.receiver.finish().is_ok()
    }

    /// How the transfer ends. Whether the package was entered in the catalogue
    /// counts only where it is whole.
    pub fn ending(&self, entered: &Result<(), String>) -> (r: Ending)
        requires
            self.wf(),
        ensures
            ends(
                r,
                self.kept() as int,
                self.expected() as int,
                ending_of(self.kept() as nat, self.expected() as nat, problem_view(*entered)),
            ),
    {
        match self.receiver.finish() {
            Err(answer) => Ending {
                remove_package: true,
                remove_metadata: false,
                report: self.report(FAILED),
                answer,
            },
            Ok(_) => match entered {
                Err(e) => Ending {
                    remove_package: false,
                    remove_metadata: false,
                    report: self.report(FAILED),
                    answer: failure_answer(e.as_str()),
                },
                Ok(_) => Ending {
                    remove_package: true,
                    remove_metadata: true,
                    report: self.report(FINISHED),
                    answer: Answer { status: 200, body: DONE_BODY.to_string() },
                },
            },
        }
    }
}

/// A client is told that its package arrived exactly where the whole package
/// came in and was entered in the catalogue; else it is told of a failure, and
/// so is the window.
pub proof fn law_only_whole_packages_arrive(
    kept: nat,
    expected: nat,
    entered: Result<(), Seq<char>>,
)
    ensures
        (ending_of(kept, expected, entered).code == 200) == (kept == expected && entered is Ok),
        (ending_of(kept, expected, entered).status == FINISHED@) == (kept == expected
            && entered is Ok),
        ending_of(kept, expected, entered).status == FINISHED@ || ending_of(
            kept,
            expected,
            entered,
        ).status == FAILED@,
{
    reveal_strlit("done");
    reveal_strlit("error");
    assert(FINISHED@.len() != FAILED@.len());
}

// ---------------------------------------------------------------------------
// A package that is fetched
// ---------------------------------------------------------------------------

/// What a client does that has read nothing for a while.
#[derive(Clone, Copy, PartialEq, Eq, Structural, Debug)]
pub enum Silence {
    /// Ask the server how far the package has come, and wait on.
    Ask,
    /// Wait on.
    Wait,
    /// Give up.
    GiveUp,
}

/// A server that is silent before its answer began is packing, and is asked
/// about that now and then; one that falls silent in its answer has failed.
pub open spec fn on_silence_of(answer_began: bool, since_asked: Option<u128>) -> Silence {
    if answer_began {
        Silence::GiveUp
    } else if since_asked matches Some(ms) && ms < POLL_INTERVAL_MS {
        Silence::Wait
    } else {
        Silence::Ask
    }
}

/// What a client does that has read nothing for a while. The time since it last
/// asked about the progress is given, if it ever did.
pub fn on_silence(download: &Download, since_asked_ms: Option<u128>) -> (r: Silence)
    requires
        download.wf(),
    ensures
        r == on_silence_of(streams::head_at(download.seen()) is Some, since_asked_ms),
{
    if download.head().is_some() {
        return Silence::GiveUp;
    }
    match since_asked_ms {
        Some(ms) => if ms < POLL_INTERVAL_MS {
            Silence::Wait
        } else {
            Silence::Ask
        },
        None => Silence::Ask,
    }
}

/// What is told of a package that is under way; nothing before its answer
/// began.
pub fn download_report(download: &Download, status: &'static str) -> (r: Option<Report>)
    requires
        download.wf(),
    ensures
        match r {
            Some(report) => streams::head_at(download.seen()) is Some && tells(
                report,
                streams::body_of(download.seen()).len() as int,
                streams::total_of(download.seen()) as int,
                status@,
            ),
            None => streams::head_at(download.seen()) is None,
        },
{
    match download.head() {
        Some(head) => Some(
            Report { transferred: download.transferred(), total: head.total, status },
        ),
        None => None,
    }
}

/// How a package that was fetched ends: what is told of it, and the problem of
/// one that did not come in whole and is removed.
#[derive(Debug)]
pub struct DownloadEnding {
    pub report: Option<Report>,
    pub problem: Option<String>,
}

/// How a package that was fetched ends.
pub fn download_ending(download: &Download) -> (r: DownloadEnding)
    requires
        download.wf(),
    ensures
        ({
            let seen = download.seen();
            let status = if streams::completeness(seen) is Ok {
                RUNNING@
            } else {
                FAILED@
            };
            &&& match streams::completeness(seen) {
                Ok(_) => r.problem is None,
                Err(e) => r.problem matches Some(p) && p@ == e,
            }
            &&& match r.report {
                Some(report) => streams::head_at(seen) is Some && tells(
                    report,
                    streams::body_of(seen).len() as int,
                    streams::total_of(seen) as int,
                    status,
                ),
                None => streams::head_at(seen) is None,
            }
        }),
{
    match download.finish() {
        Ok(_) => DownloadEnding { report: download_report(download, RUNNING), problem: None },
        Err(e) => DownloadEnding { report: download_report(download, FAILED), problem: Some(e) },
    }
}

/// A server is asked about its progress at once, and from then on no more often
/// than the interval allows; never after its answer began.
pub proof fn law_silence(answer_began: bool, since_asked: Option<u128>)
    ensures
        (on_silence_of(answer_began, since_asked) == Silence::Ask) == (!answer_began && (
        since_asked is None || since_asked->0 >= POLL_INTERVAL_MS)),
        (on_silence_of(answer_began, since_asked) == Silence::GiveUp) == answer_began,
{
}

/// How the receiving of a package ends. One that did not come whole is removed
/// and refused; one that could not be entered is kept and the reason told; one
/// that was entered is removed together with its metadata.
pub proof fn law_ending(kept: nat, expected: nat, entered: Result<(), Seq<char>>)
    ensures
        ({
            let e = ending_of(kept, expected, entered);
            &&& kept != expected ==> e.remove_package && !e.remove_metadata && e.code == 400
                && e.status == "error"@ && e.body == "{\"error\":\"incomplete upload\"}"@
            &&& kept == expected ==> (match entered {
                Err(message) => !e.remove_package && !e.remove_metadata && e.code == 500 && e.status
                    == "error"@ && e.body == json::error_text(message),
                Ok(_) => e.remove_package && e.remove_metadata && e.code == 200 && e.status
                    == "done"@ && e.body == "{\"ok\":true}"@,
            })
        }),
{
}

/// An ending does what it says.
pub proof fn law_ends(e: Ending, kept: int, expected: int, view: EndingView)
    requires
        ends(e, kept, expected, view),
    ensures
        e.remove_package == view.remove_package,
        e.remove_metadata == view.remove_metadata,
        e.report.transferred == kept,
        e.report.total == expected,
        e.report.status@ == view.status,
        e.answer.status == view.code,
        e.answer.body@ == view.body,
{
}

/// While the server is silent it is asked every half second how far it is, until
/// its answer begins.
pub proof fn law_silence_times(since_asked: u128)
    ensures
        on_silence_of(false, None) == Silence::Ask,
        since_asked < 500 ==> on_silence_of(false, Some(since_asked)) == Silence::Wait,
        since_asked >= 500 ==> on_silence_of(false, Some(since_asked)) == Silence::Ask,
        on_silence_of(true, Some(since_asked)) == Silence::GiveUp,
        on_silence_of(true, None) == Silence::GiveUp,
{
}

} // verus!
