//! Running instrumented binaries and ingesting their coverage.
//!
//! This module decides what the outcome of each step means; starting
//! processes and looking at files is left to the program.
use crate::profile::{CoverageReport, CoverageView, ParseError};
use crate::text::{
    before_suffix, chars_of, pieces, split, string_of, strip_suffix, texts, trim, trimmed,
};
use vstd::prelude::*;
use vstd::slice::slice_subrange;
use vstd::string::*;

pub mod laws;

verus! {

/// Error from any runner operation.
#[derive(Debug, Clone)]
pub struct RunnerError {
    /// Which step produced the failure.
    pub stage: &'static str,
    /// Human-readable message.
    pub message: String,
}

/// The model of a [`RunnerError`].
pub struct RunnerErrorView {
    pub stage: Seq<char>,
    pub message: Seq<char>,
}

impl DeepView for RunnerError {
    type V = RunnerErrorView;

    open spec fn deep_view(&self) -> RunnerErrorView {
        RunnerErrorView { stage: self.stage@, message: self.message@ }
    }
}

impl RunnerError {
    /// The error as text.
    pub fn to_string(&self) -> (r: String)
        ensures
            r@ == "runner error ("@ + self.stage@ + "): "@ + self.message@,
    {
        let mut out = String::new();
        out.append("runner error (");
        out.append(self.stage);
        out.append("): ");
        out.append(self.message.as_str());
        assert(out@ =~= "runner error ("@ + self.stage@ + "): "@ + self.message@);
        out
    }
}

/// What became of a process that was run.
#[derive(Debug, Clone)]
pub enum ProcessOutcome {
    /// It could not be started.
    NotStarted {
        /// Why.
        detail: String,
    },
    /// It ended with a failure.
    Failed {
        /// Its exit status, as text.
        status: String,
        /// What it printed to its error stream.
        stderr: String,
    },
    /// It succeeded.
    Succeeded {
        /// What it printed.
        stdout: String,
        /// What it printed to its error stream.
        stderr: String,
    },
}

/// Four pieces of text in a row.
fn joined(a: &str, b: &str, c: &str, d: &str) -> (r: String)
    ensures
        r@ == a@ + b@ + c@ + d@,
{
    let mut out = String::new();
    out.append(a);
    out.append(b);
    out.append(c);
    out.append(d);
    assert(out@ =~= a@ + b@ + c@ + d@);
    out
}

// ---------------------------------------------------------------------------
// Tools
// ---------------------------------------------------------------------------

/// The sysroot that `rustc --print=sysroot` names, or the error.
pub open spec fn sysroot_result(outcome: ProcessOutcome) -> Result<Seq<char>, RunnerErrorView> {
    match outcome {
        ProcessOutcome::NotStarted { detail } => Err(
            RunnerErrorView {
                stage: "rustc --print=sysroot"@,
                message: "could not exec: "@ + detail@,
            },
        ),
        ProcessOutcome::Failed { status, .. } => Err(
            RunnerErrorView {
                stage: "rustc --print=sysroot"@,
                message: "exit status "@ + status@,
            },
        ),
        ProcessOutcome::Succeeded { stdout, .. } => Ok(trimmed(stdout@)),
    }
}

/// Reads the sysroot out of what `rustc --print=sysroot` gave.
pub fn sysroot(outcome: ProcessOutcome) -> (r: Result<String, RunnerError>)
    ensures
        match r {
            Ok(s) => sysroot_result(outcome) == Ok::<Seq<char>, RunnerErrorView>(s@),
            Err(e) => sysroot_result(outcome) == Err::<Seq<char>, RunnerErrorView>(e.deep_view()),
        },
{
    let stage: &'static str = "rustc --print=sysroot";
    match outcome {
        ProcessOutcome::NotStarted { detail } => Err(
            RunnerError { stage, message: prefixed("could not exec: ", detail.as_str()) },
        ),
        ProcessOutcome::Failed { status, .. } => Err(
            RunnerError { stage, message: prefixed("exit status ", status.as_str()) },
        ),
        ProcessOutcome::Succeeded { stdout, .. } => {
            let chars = chars_of(stdout.as_str());
            Ok(string_of(trim(chars.as_slice())))
        },
    }
}

/// Text behind a prefix.
fn prefixed(prefix: &str, text: &str) -> (r: String)
    ensures
        r@ == prefix@ + text@,
{
    let mut out = String::new();
    out.append(prefix);
    out.append(text);
    assert(out@ =~= prefix@ + text@);
    out
}

/// The first of some paths at which a tool was found.
pub open spec fn first_found(candidates: Seq<(Seq<char>, bool)>) -> Option<Seq<char>>
    decreases candidates.len(),
{
    if candidates.len() == 0 {
        None
    } else if candidates[0].1 {
        Some(candidates[0].0)
    } else {
        first_found(candidates.skip(1))
    }
}

/// Picks the path of an LLVM tool: the first of the candidates that exists.
/// Where none does, the error says how to install it.
pub fn llvm_tool(name: &str, rustlib: &str, candidates: &Vec<(String, bool)>) -> (r: Result<
    String,
    RunnerError,
>)
    ensures
        match r {
            Ok(path) => first_found(candidates.deep_view()) == Some(path@),
            Err(e) => first_found(candidates.deep_view()) is None && e.stage@ == "find_llvm_tool"@
                && e.message@ == name@ + " not found under "@ + rustlib@
                + "; install with: rustup component add llvm-tools-preview --toolchain nightly"@,
        },
{
    let ghost all = candidates.deep_view();
    let mut i: usize = 0;
    assert(all.skip(0) =~= all);
    while i < candidates.len()
        invariant
            i <= candidates@.len(),
            all == candidates.deep_view(),
            first_found(all) == first_found(all.skip(i as int)),
        decreases candidates@.len() - i,
    {
        assert(all.skip(i as int)[0] == candidates@[i as int].deep_view());
        assert(all.skip(i as int).skip(1) =~= all.skip(i + 1));
        if candidates[i].1 {
            return Ok(candidates[i].0.clone());
        }
        i += 1;
    }
    Err(
        RunnerError {
            stage: "find_llvm_tool",
            message: joined(
                name,
                " not found under ",
                rustlib,
                "; install with: rustup component add llvm-tools-preview --toolchain nightly",
            ),
        },
    )
}

/// The error of a toolchain directory that cannot be listed.
pub fn rustlib_unreadable(rustlib: &str, detail: &str) -> (r: RunnerError)
    ensures
        r.stage@ == "find_llvm_tool"@,
        r.message@ == "read "@ + rustlib@ + ": "@ + detail@,
{
    RunnerError { stage: "find_llvm_tool", message: joined("read ", rustlib, ": ", detail) }
}

// ---------------------------------------------------------------------------
// Tests
// ---------------------------------------------------------------------------

/// Line `i` of a text that was split at its line feeds. A line feed takes
/// the carriage return before it along; a bare one stays.
pub open spec fn line_at(parts: Seq<Seq<char>>, i: int) -> Seq<char> {
    if i + 1 < parts.len() && parts[i].len() > 0 && parts[i].last() == '\r' {
        parts[i].drop_last()
    } else {
        parts[i]
    }
}

/// The test names that the first `n` lines of a listing give, in order: those
/// of lines of the form `<name>: test`.
pub open spec fn tests_upto(parts: Seq<Seq<char>>, n: int) -> Seq<Seq<char>>
    decreases n,
{
    if n <= 0 {
        seq![]
    } else {
        let rest = tests_upto(parts, n - 1);
        match before_suffix(line_at(parts, n - 1), ": test"@) {
            Some(name) => rest.push(name),
            None => rest,
        }
    }
}

/// The test names that a listing gives.
pub open spec fn tests_in(text: Seq<char>) -> Seq<Seq<char>> {
    tests_upto(pieces(text, '\n'), pieces(text, '\n').len() as int)
}

/// Reads the tests out of what a test binary prints for
/// `--list --format=terse`: one `<name>: test` line per test. Other lines
/// (benchmarks, the summary) are skipped.
pub fn parse_test_list(text: &str) -> (r: Vec<String>)
    ensures
        r.deep_view() == tests_in(text@),
{
    let chars = chars_of(text);
    let lines = split(chars.as_slice(), '\n');
    let count: usize = lines.len();
    let ghost all = texts(lines@);
    let mut tests: Vec<String> = Vec::new();
    let mut i: usize = 0;
    assert(tests.deep_view() =~= seq![]);
    while i < count
        invariant
            i <= count,
            count == lines@.len(),
            all == texts(lines@),
            tests.deep_view() == tests_upto(all, i as int),
        decreases count - i,
    {
        assert(all[i as int] == lines@[i as int]@);
        let raw = lines[i];
        let n: usize = raw.len();
        let line = if i + 1 < count && n > 0 && raw[n - 1] == '\r' {
            assert(raw@.subrange(0, n - 1) =~= raw@.drop_last());
            slice_subrange(raw, 0, n - 1)
        } else {
            raw
        };
        assert(line@ == line_at(all, i as int));
        if let Some(name) = strip_suffix(line, ": test") {
            let ghost before = tests.deep_view();
            let name = string_of(name);
            tests.push(name);
            assert(tests.deep_view() =~= before.push(name@));
        }
        i += 1;
    }
    tests
}

/// The tests that a test binary lists, or the error.
pub open spec fn listing_result(binary: Seq<char>, outcome: ProcessOutcome) -> Result<
    Seq<Seq<char>>,
    RunnerErrorView,
> {
    match outcome {
        ProcessOutcome::NotStarted { detail } => Err(
            RunnerErrorView {
                stage: "list_tests"@,
                message: "could not exec "@ + binary + ": "@ + detail@,
            },
        ),
        ProcessOutcome::Failed { status, stderr } => Err(
            RunnerErrorView {
                stage: "list_tests"@,
                message: "binary exited with status "@ + status@ + "; stderr:\n"@ + stderr@,
            },
        ),
        ProcessOutcome::Succeeded { stdout, .. } => Ok(tests_in(stdout@)),
    }
}

/// Reads the `#[test]` functions of an instrumented test binary out of what
/// it gave for `--list --format=terse`.
pub fn list_tests(binary: &str, outcome: ProcessOutcome) -> (r: Result<Vec<String>, RunnerError>)
    ensures
        match r {
            Ok(tests) => listing_result(binary@, outcome) == Ok::<
                Seq<Seq<char>>,
                RunnerErrorView,
            >(tests.deep_view()),
            Err(e) => listing_result(binary@, outcome) == Err::<Seq<Seq<char>>, RunnerErrorView>(
                e.deep_view(),
            ),
        },
{
    let stage: &'static str = "list_tests";
    match outcome {
        ProcessOutcome::NotStarted { detail } => Err(
            RunnerError { stage, message: joined("could not exec ", binary, ": ", detail.as_str()) },
        ),
        ProcessOutcome::Failed { status, stderr } => Err(
            RunnerError {
                stage,
                message: joined(
                    "binary exited with status ",
                    status.as_str(),
                    "; stderr:\n",
                    stderr.as_str(),
                ),
            },
        ),
        ProcessOutcome::Succeeded { stdout, .. } => Ok(parse_test_list(stdout.as_str())),
    }
}

/// What a process printed to its error stream, if it was started.
pub open spec fn error_output(outcome: ProcessOutcome) -> Seq<char> {
    match outcome {
        ProcessOutcome::NotStarted { .. } => seq![],
        ProcessOutcome::Failed { stderr, .. } => stderr@,
        ProcessOutcome::Succeeded { stderr, .. } => stderr@,
    }
}

/// Judges the run of a single test. Its exit status does not count: a failing
/// test still writes its coverage. The run fails only if the binary could not
/// be started or no coverage was `produced`.
pub fn run_test_isolated(
    binary: &str,
    test_name: &str,
    profraw: &str,
    outcome: ProcessOutcome,
    produced: bool,
) -> (r: Result<(), RunnerError>)
    ensures
        match outcome {
            ProcessOutcome::NotStarted { detail } => r matches Err(e) && e.stage@
                == "run_test_isolated"@ && e.message@ == "could not exec "@ + binary@ + ": "@
                + detail@,
            _ => if produced {
                r is Ok
            } else {
                r matches Err(e) && e.stage@ == "run_test_isolated"@ && e.message@
                    == "no profraw produced at "@ + profraw@ + " for test "@ + test_name@
                    + "; binary stderr:\n"@ + error_output(outcome)
            },
        },
{
    let stage: &'static str = "run_test_isolated";
    let stderr = match outcome {
        ProcessOutcome::NotStarted { detail } => {
            return Err(
                RunnerError {
                    stage,
                    message: joined("could not exec ", binary, ": ", detail.as_str()),
                },
            );
        },
        ProcessOutcome::Failed { stderr, .. } => stderr,
        ProcessOutcome::Succeeded { stderr, .. } => stderr,
    };
    if produced {
        return Ok(());
    }
    let mut message = joined("no profraw produced at ", profraw, " for test ", test_name);
    message.append("; binary stderr:\n");
    message.append(stderr.as_str());
    Err(RunnerError { stage, message })
}

/// Judges one run of an instrumented binary. Its exit status does not count;
/// the run fails only if the binary could not be started or no coverage was
/// `produced`.
pub fn run(binary: &str, profraw: &str, outcome: ProcessOutcome, produced: bool) -> (r: Result<
    (),
    RunnerError,
>)
    ensures
        match outcome {
            ProcessOutcome::NotStarted { detail } => r matches Err(e) && e.stage@ == "run binary"@
                && e.message@ == "could not exec "@ + binary@ + ": "@ + detail@,
            _ => if produced {
                r is Ok
            } else {
                r matches Err(e) && e.stage@ == "run binary"@ && e.message@
                    == "no profraw produced at "@ + profraw@ + "; binary stderr:\n"@
                    + error_output(outcome)
            },
        },
{
    let stage: &'static str = "run binary";
    let stderr = match outcome {
        ProcessOutcome::NotStarted { detail } => {
            return Err(
                RunnerError {
                    stage,
                    message: joined("could not exec ", binary, ": ", detail.as_str()),
                },
            );
        },
        ProcessOutcome::Failed { stderr, .. } => stderr,
        ProcessOutcome::Succeeded { stderr, .. } => stderr,
    };
    if produced {
        return Ok(());
    }
    Err(
        RunnerError {
            stage,
            message: joined(
                "no profraw produced at ",
                profraw,
                "; binary stderr:\n",
                stderr.as_str(),
            ),
        },
    )
}

// ---------------------------------------------------------------------------
// Coverage
// ---------------------------------------------------------------------------

/// The name of the merged profile of a raw one, by the raw one's stem.
pub fn profdata_name(stem: Option<&str>) -> (r: String)
    ensures
        r@ == match stem {
            Some(s) => s@ + ".profdata"@,
            None => "merged.profdata"@,
        },
{
    match stem {
        Some(s) => prefixed(s, ".profdata"),
        None => "merged.profdata".to_owned(),
    }
}

/// The conversion of a raw profile into a coverage report: the profile is
/// merged, the merged one exported as JSON, the JSON read.
pub enum Ingestion {
    /// The profile is to be merged.
    Merging,
    /// The merged profile is to be exported.
    Exporting,
    /// The JSON is to be read.
    Reading {
        /// What the export printed.
        json: String,
    },
    /// The report is there.
    Done {
        /// The report.
        report: CoverageReport,
    },
    /// A step failed.
    Failed {
        /// The error.
        error: RunnerError,
    },
}

/// What happened in the course of a conversion.
pub enum IngestionEvent {
    /// A tool was run.
    ToolRan {
        /// What became of it.
        outcome: ProcessOutcome,
    },
    /// A tool succeeded, but what it printed is no text.
    NotText {
        /// Why.
        detail: String,
    },
    /// The JSON was read.
    Read {
        /// The report, or the error.
        report: Result<CoverageReport, ParseError>,
    },
}

/// The model of an [`Ingestion`].
pub enum IngestionView {
    Merging,
    Exporting,
    Reading { json: Seq<char> },
    Done { report: CoverageView },
    Failed { error: RunnerErrorView },
}

impl DeepView for Ingestion {
    type V = IngestionView;

    open spec fn deep_view(&self) -> IngestionView {
        match *self {
            Ingestion::Merging => IngestionView::Merging,
            Ingestion::Exporting => IngestionView::Exporting,
            Ingestion::Reading { json } => IngestionView::Reading { json: json@ },
            Ingestion::Done { report } => IngestionView::Done { report: report.deep_view() },
            Ingestion::Failed { error } => IngestionView::Failed { error: error.deep_view() },
        }
    }
}

/// The failure of a stage.
pub open spec fn failed_at(stage: Seq<char>, message: Seq<char>) -> IngestionView {
    IngestionView::Failed { error: RunnerErrorView { stage, message } }
}

/// The conversion after an event. What the merge prints does not matter, so
/// it may be no text. An event that does not belong to the state changes
/// nothing.
pub open spec fn ingested(state: IngestionView, event: IngestionEvent) -> IngestionView {
    match (state, event) {
        (IngestionView::Merging, IngestionEvent::ToolRan { outcome }) => match outcome {
            ProcessOutcome::NotStarted { detail } => failed_at(
                "llvm-profdata merge"@,
                "could not exec: "@ + detail@,
            ),
            ProcessOutcome::Failed { stderr, .. } => failed_at("llvm-profdata merge"@, stderr@),
            ProcessOutcome::Succeeded { .. } => IngestionView::Exporting,
        },
        (IngestionView::Merging, IngestionEvent::NotText { .. }) => IngestionView::Exporting,
        (IngestionView::Exporting, IngestionEvent::ToolRan { outcome }) => match outcome {
            ProcessOutcome::NotStarted { detail } => failed_at(
                "llvm-cov export"@,
                "could not exec: "@ + detail@,
            ),
            ProcessOutcome::Failed { stderr, .. } => failed_at("llvm-cov export"@, stderr@),
            ProcessOutcome::Succeeded { stdout, .. } => IngestionView::Reading { json: stdout@ },
        },
        (IngestionView::Exporting, IngestionEvent::NotText { detail }) => failed_at(
            "llvm-cov export"@,
            "utf8: "@ + detail@,
        ),
        (IngestionView::Reading { .. }, IngestionEvent::Read { report }) => match report {
            Ok(r) => IngestionView::Done { report: r.deep_view() },
            Err(e) => failed_at("parse coverage"@, "coverage parse error: "@ + e.message@),
        },
        _ => state,
    }
}

/// A failed conversion.
fn failure(stage: &'static str, message: String) -> (r: Ingestion)
    ensures
        r.deep_view() == failed_at(stage@, message@),
{
    Ingestion::Failed { error: RunnerError { stage, message } }
}

/// Takes the conversion of a raw profile one event further.
pub fn profraw_to_coverage(state: Ingestion, event: IngestionEvent) -> (r: Ingestion)
    ensures
        r.deep_view() == ingested(state.deep_view(), event),
{
    match (state, event) {
        (Ingestion::Merging, IngestionEvent::ToolRan { outcome }) => match outcome {
            ProcessOutcome::NotStarted { detail } => failure(
                "llvm-profdata merge",
                prefixed("could not exec: ", detail.as_str()),
            ),
            ProcessOutcome::Failed { stderr, .. } => failure("llvm-profdata merge", stderr),
            ProcessOutcome::Succeeded { .. } => Ingestion::Exporting,
        },
        (Ingestion::Merging, IngestionEvent::NotText { .. }) => Ingestion::Exporting,
        (Ingestion::Exporting, IngestionEvent::ToolRan { outcome }) => match outcome {
            ProcessOutcome::NotStarted { detail } => failure(
                "llvm-cov export",
                prefixed("could not exec: ", detail.as_str()),
            ),
            ProcessOutcome::Failed { stderr, .. } => failure("llvm-cov export", stderr),
            ProcessOutcome::Succeeded { stdout, .. } => Ingestion::Reading { json: stdout },
        },
        (Ingestion::Exporting, IngestionEvent::NotText { detail }) => failure(
            "llvm-cov export",
            prefixed("utf8: ", detail.as_str()),
        ),
        (Ingestion::Reading { json }, IngestionEvent::Read { report }) => match report {
            Ok(report) => Ingestion::Done { report },
            Err(e) => failure("parse coverage", e.to_string()),
        },
        (state, _) => state,
    }
}

/// A finished conversion stays as it is.
pub proof fn finished_ingestion_stays(state: IngestionView, event: IngestionEvent)
    requires
        state is Done || state is Failed,
    ensures
        ingested(state, event) == state,
{
}

/// A report is there only after both tools succeeded and the JSON was read:
/// no other course of events ends in one.
pub proof fn report_needs_every_step(
    first: IngestionEvent,
    second: IngestionEvent,
    third: IngestionEvent,
)
    ensures
        ({
            let merged = ingested(IngestionView::Merging, first);
            let exported = ingested(merged, second);
            let done = ingested(exported, third);
            done is Done ==> {
                &&& first is NotText || (first matches IngestionEvent::ToolRan { outcome }
                    && outcome is Succeeded)
                &&& second matches IngestionEvent::ToolRan { outcome } && outcome is Succeeded
                &&& third matches IngestionEvent::Read { report } && report is Ok
            }
        }),
{
}

} // verus!
