//! What holds of every run of a tool.
use crate::profile::{CoverageReport, ParseError};
use crate::runner::{
    error_output, first_found, ingested, line_at, listing_result, sysroot_result, tests_in,
    tests_upto, IngestionEvent, IngestionView, ProcessOutcome, RunnerErrorView,
};
use crate::text::laws::prefix_and_suffix_come_off;
use crate::text::{ends_in, pieces, pieces_of_joined, pieces_of_one, trimmed};
use vstd::prelude::*;

verus! {

/// A tool is found at the first path where it exists, wherever that stands,
/// and nowhere only if it exists at none.
pub proof fn tool_is_found_where_it_is(candidates: Seq<(Seq<char>, bool)>, i: int)
    requires
        0 <= i <= candidates.len(),
        i < candidates.len() ==> candidates[i].1,
        forall|j: int| 0 <= j < i ==> !(#[trigger] candidates[j]).1,
    ensures
        first_found(candidates) == (if i < candidates.len() {
            Some(candidates[i].0)
        } else {
            None
        }),
    decreases i,
{
    if i > 0 {
        assert(!candidates[0].1);
        assert forall|j: int| 0 <= j < i - 1 implies !(#[trigger] candidates.skip(1)[j]).1 by {
            assert(!candidates[j + 1].1);
        }
        tool_is_found_where_it_is(candidates.skip(1), i - 1);
    }
}

// ---------------------------------------------------------------------------
// Test lists
// ---------------------------------------------------------------------------

proof fn tests_of_joined_parts(a: Seq<char>, rest: Seq<Seq<char>>, n: int)
    requires
        0 <= n <= rest.len(),
    ensures
        tests_upto(seq![a] + rest, n + 1) == tests_upto(seq![a] + rest, 1) + tests_upto(rest, n),
    decreases n,
{
    let all = seq![a] + rest;
    if n > 0 {
        tests_of_joined_parts(a, rest, n - 1);
        assert(all[n] == rest[n - 1]);
        assert(line_at(all, n) == line_at(rest, n - 1));
        assert(tests_upto(all, n + 1) =~= tests_upto(all, 1) + tests_upto(rest, n));
    } else {
        assert(tests_upto(rest, 0) =~= seq![]);
        assert(tests_upto(all, 1) + tests_upto(rest, 0) =~= tests_upto(all, 1));
    }
}

proof fn tests_of_first_line(line: Seq<char>, rest: Seq<char>)
    requires
        !line.contains('\n'),
    ensures
        ({
            let parts = seq![line] + pieces(rest, '\n');
            &&& tests_in(line.push('\n') + rest) == tests_upto(parts, 1) + tests_in(rest)
            &&& parts.len() >= 2
        }),
{
    pieces_of_joined(line, '\n', rest);
    pieces_of_one(line, '\n', 0);
    crate::text::laws::splitting_is_undone_by_joining(rest, '\n');
    let parts = pieces(rest, '\n');
    tests_of_joined_parts(line, parts, parts.len() as int);
    some_piece(rest);
}

proof fn some_piece(s: Seq<char>)
    ensures
        pieces(s, '\n').len() > 0,
{
    if pieces(s, '\n').len() == 0 {
        crate::text::laws::splitting_is_undone_by_joining(s, '\n');
        assert(s =~= seq![]);
        pieces_of_one(s, '\n', 0);
    }
}

/// Every line of the form `<name>: test` lists a test, wherever it stands,
/// with a line feed, a carriage return and a line feed, or nothing behind it.
/// The tests are listed in the order of their lines.
pub proof fn every_test_line_lists_its_test(name: Seq<char>, rest: Seq<char>)
    requires
        !name.contains('\n'),
    ensures
        tests_in((name + ": test"@).push('\n') + rest) == seq![name] + tests_in(rest),
        tests_in((name + ": test"@).push('\r').push('\n') + rest) == seq![name] + tests_in(rest),
        tests_in(name + ": test"@) == seq![name],
{
    reveal_strlit(": test");
    let line = name + ": test"@;
    let returned = line.push('\r');
    prefix_and_suffix_come_off(": test"@, name);
    assert(!line.contains('\n')) by {
        if line.contains('\n') {
            let i = choose|i: int| 0 <= i < line.len() && line[i] == '\n';
            if i < name.len() {
                assert(name[i] == '\n');
            }
        }
    }
    assert(!returned.contains('\n')) by {
        if returned.contains('\n') {
            let i = choose|i: int| 0 <= i < returned.len() && returned[i] == '\n';
            if i < line.len() {
                assert(line[i] == '\n');
            }
        }
    }
    reveal_with_fuel(tests_upto, 2);
    tests_of_first_line(line, rest);
    tests_of_first_line(returned, rest);
    assert(line.last() == 't');
    let a = seq![line] + pieces(rest, '\n');
    let b = seq![returned] + pieces(rest, '\n');
    assert(a[0] == line && b[0] == returned);
    assert(line_at(a, 0) == line);
    assert(returned.drop_last() =~= line);
    assert(line_at(b, 0) == line);
    assert(tests_upto(a, 1) =~= seq![name]);
    assert(tests_upto(b, 1) =~= seq![name]);
    pieces_of_one(line, '\n', 0);
    assert(line_at(seq![line], 0) == line);
    assert(tests_upto(seq![line], 1) =~= seq![name]);
}

/// Any other line lists nothing: benchmarks, the summary, blank lines.
pub proof fn other_lines_list_nothing(line: Seq<char>, rest: Seq<char>)
    requires
        !line.contains('\n'),
        line.len() > 0 ==> line.last() != '\r',
        !ends_in(line, ": test"@),
    ensures
        tests_in(line.push('\n') + rest) == tests_in(rest),
        tests_in(line) == Seq::<Seq<char>>::empty(),
{
    reveal_with_fuel(tests_upto, 2);
    tests_of_first_line(line, rest);
    let a = seq![line] + pieces(rest, '\n');
    assert(a[0] == line);
    assert(tests_upto(a, 1) =~= seq![]);
    assert(tests_upto(a, 1) + tests_in(rest) =~= tests_in(rest));
    pieces_of_one(line, '\n', 0);
    assert(tests_upto(seq![line], 1) =~= seq![]);
}

/// The tests of a binary are those that it lists, where it could be started
/// and succeeded, and an error otherwise.
pub proof fn listing_needs_success(binary: Seq<char>, outcome: ProcessOutcome)
    ensures
        listing_result(binary, outcome) is Ok <==> outcome is Succeeded,
        outcome matches ProcessOutcome::Succeeded { stdout, .. } ==> listing_result(binary, outcome)
            == Ok::<Seq<Seq<char>>, RunnerErrorView>(tests_in(stdout@)),
{
}

// ---------------------------------------------------------------------------
// Ingestion
// ---------------------------------------------------------------------------

/// Where both tools succeed and what the second printed is read, the report
/// that was read is there; what is read is what the second tool printed.
pub proof fn ingestion_gives_the_report(
    merged: ProcessOutcome,
    exported: ProcessOutcome,
    report: CoverageReport,
)
    requires
        merged is Succeeded,
        exported is Succeeded,
    ensures
        ({
            let a = ingested(IngestionView::Merging, IngestionEvent::ToolRan { outcome: merged });
            let b = ingested(a, IngestionEvent::ToolRan { outcome: exported });
            let c = ingested(b, IngestionEvent::Read { report: Ok(report) });
            &&& b == (IngestionView::Reading { json: exported->Succeeded_stdout@ })
            &&& c == (IngestionView::Done { report: report.deep_view() })
        }),
{
}

/// A tool that fails, or cannot be started, ends the ingestion with what it
/// said, at either step.
pub proof fn failed_tool_ends_ingestion(state: IngestionView, outcome: ProcessOutcome)
    requires
        state is Merging || state is Exporting,
        !(outcome is Succeeded),
    ensures
        ingested(state, IngestionEvent::ToolRan { outcome }) matches IngestionView::Failed { error }
            && (outcome matches ProcessOutcome::Failed { stderr, .. } ==> error.message == stderr@)
            && (outcome matches ProcessOutcome::NotStarted { detail } ==> error.message
            == "could not exec: "@ + detail@) && error.stage == (if state is Merging {
            "llvm-profdata merge"@
        } else {
            "llvm-cov export"@
        }),
{
}

/// The errors of the tools say why: the sysroot is what rustc names, without
/// the white space around it, and every failure names its stage.
pub proof fn runner_errors_say_why(
    binary: Seq<char>,
    detail: String,
    status: String,
    stdout: String,
    stderr: String,
)
    ensures
        sysroot_result(ProcessOutcome::Succeeded { stdout, stderr }) == Ok::<
            Seq<char>,
            RunnerErrorView,
        >(trimmed(stdout@)),
        sysroot_result(ProcessOutcome::Failed { status, stderr }) matches Err(e) && e.stage
            == "rustc --print=sysroot"@ && e.message == "exit status "@ + status@,
        sysroot_result(ProcessOutcome::NotStarted { detail }) matches Err(e) && e.stage
            == "rustc --print=sysroot"@ && e.message == "could not exec: "@ + detail@,
        listing_result(binary, ProcessOutcome::NotStarted { detail }) matches Err(e) && e.stage
            == "list_tests"@ && e.message == "could not exec "@ + binary + ": "@ + detail@,
        listing_result(binary, ProcessOutcome::Failed { status, stderr }) matches Err(e)
            && e.message == "binary exited with status "@ + status@ + "; stderr:\n"@ + stderr@,
        error_output(ProcessOutcome::Failed { status, stderr }) == stderr@,
        error_output(ProcessOutcome::Succeeded { stdout, stderr }) == stderr@,
{
}

/// What the export prints has to be text, and the JSON has to be a report:
/// otherwise the ingestion ends with what is wrong.
pub proof fn unreadable_export_ends_ingestion(
    json: Seq<char>,
    detail: String,
    error: ParseError,
)
    ensures
        ingested(IngestionView::Exporting, IngestionEvent::NotText { detail })
            matches IngestionView::Failed { error: e } && e.stage == "llvm-cov export"@ && e.message
            == "utf8: "@ + detail@,
        ingested(IngestionView::Reading { json }, IngestionEvent::Read { report: Err(error) })
            matches IngestionView::Failed { error: e } && e.stage == "parse coverage"@ && e.message
            == "coverage parse error: "@ + error.message@,
{
}

} // verus!
