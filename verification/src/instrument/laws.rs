//! What holds of every build of a cargo project.
use crate::instrument::{
    artifacts_upto, build_result, candidate_of, candidates_from, cargo_step, coverage_steps,
    emission_result, inside, json_flag, json_text, lib_mir_step, metadata_result, reported_binary,
    run_error, test_target_steps, ArtifactView, CandidateView, CargoBuildView, CargoEvent,
    InstrumentErrorView, ToolOutcome,
};
use crate::paths::mir_beside;
use vstd::prelude::*;

verus! {

// ---------------------------------------------------------------------------
// Messages
// ---------------------------------------------------------------------------

proof fn candidates_behind(x: Seq<u8>, y: Seq<u8>, start: int, i: int)
    requires
        0 <= start <= i <= y.len(),
    ensures
        ({
            let n = x.len() + 1;
            candidates_from(x.push(10) + y, n + start, n + i) == candidates_from(y, start, i)
        }),
    decreases y.len() - i,
{
    let s = x.push(10) + y;
    let n = x.len() + 1;
    if i >= y.len() {
        assert(s.subrange(n + start, s.len() as int) =~= y.subrange(start, y.len() as int));
    } else {
        assert(s[n + i] == y[i]);
        if y[i] == 10 {
            assert(s.subrange(n + start, n + i) =~= y.subrange(start, i));
            candidates_behind(x, y, i + 1, i + 1);
        } else {
            candidates_behind(x, y, start, i + 1);
        }
    }
}

proof fn candidates_around(x: Seq<u8>, y: Seq<u8>, start: int, i: int)
    requires
        0 <= start <= i <= x.len(),
    ensures
        candidates_from(x.push(10) + y, start, i) == candidates_from(x, start, i)
            + candidates_from(y, 0, 0),
    decreases x.len() - i,
{
    let s = x.push(10) + y;
    let rest = candidates_from(y, 0, 0);
    if i >= x.len() {
        assert(s[i] == 10);
        assert(s.subrange(start, i) =~= x.subrange(start, x.len() as int));
        candidates_behind(x, y, 0, 0);
        assert(Seq::<CandidateView>::empty() + rest =~= rest);
    } else {
        assert(s[i] == x[i]);
        if x[i] == 10 {
            assert(s.subrange(start, i) =~= x.subrange(start, i));
            candidates_around(x, y, i + 1, i + 1);
            let more = candidates_from(x, i + 1, i + 1);
            if let Some(c) = candidate_of(x.subrange(start, i)) {
                assert(seq![c] + (more + rest) =~= (seq![c] + more) + rest);
            }
        } else {
            candidates_around(x, y, start, i + 1);
        }
    }
}

proof fn one_line(line: Seq<u8>, i: int)
    requires
        0 <= i <= line.len(),
        !line.contains(10),
    ensures
        candidates_from(line, 0, i) == (match candidate_of(line) {
            Some(c) => seq![c],
            None => seq![],
        }),
    decreases line.len() - i,
{
    if i < line.len() {
        assert(line.contains(line[i]));
        one_line(line, i + 1);
    } else {
        assert(line.subrange(0, line.len() as int) =~= line);
    }
}

/// Every line of cargo's messages that reports a test binary gives it,
/// wherever it stands, and in the order of the lines; other lines give
/// nothing.
pub proof fn every_line_reports_its_binary(line: Seq<u8>, x: Seq<u8>, y: Seq<u8>)
    requires
        !line.contains(10),
    ensures
        candidates_from(x.push(10) + y, 0, 0) == candidates_from(x, 0, 0) + candidates_from(
            y,
            0,
            0,
        ),
        candidates_from(line, 0, 0) == (match candidate_of(line) {
            Some(c) => seq![c],
            None => seq![],
        }),
{
    candidates_around(x, y, 0, 0);
    one_line(line, 0);
}

/// A message reports a test binary exactly if it is about a compiled
/// artifact, of a test target, with an executable; the binary is that
/// executable, under its package's id or `?`.
pub proof fn message_reports_a_test_binary(
    reason: Option<Seq<char>>,
    is_test: Option<bool>,
    executable: Option<Seq<char>>,
    package_id: Option<Seq<char>>,
)
    ensures
        reported_binary(reason, is_test, executable, package_id) is Some <==> reason == Some(
            "compiler-artifact"@,
        ) && is_test == Some(true) && executable is Some,
        reported_binary(reason, is_test, executable, package_id) matches Some(c) ==> {
            &&& Some(c.binary_path) == executable
            &&& package_id is Some ==> Some(c.package_name) == package_id
            &&& package_id is None ==> c.package_name == "?"@
        },
{
}

// ---------------------------------------------------------------------------
// Artifacts
// ---------------------------------------------------------------------------

/// The artifacts of two lists of binaries, one behind the other, are those of
/// the first and then those of the second; a single binary gives one, with
/// the MIR file beside it, exactly if that file was found.
pub proof fn artifacts_of_joined_binaries(
    s: Seq<CandidateView>,
    t: Seq<CandidateView>,
    a: Seq<bool>,
    b: Seq<bool>,
)
    requires
        s.len() == a.len(),
        t.len() == b.len(),
    ensures
        artifacts_upto(s + t, a + b, (s + t).len() as int) == artifacts_upto(s, a, s.len() as int)
            + artifacts_upto(t, b, t.len() as int),
        s.len() == 1 ==> artifacts_upto(s, a, 1) == (if a[0] {
            seq![
                ArtifactView {
                    binary_path: s[0].binary_path,
                    mir_path: mir_beside(s[0].binary_path),
                    package_name: s[0].package_name,
                },
            ]
        } else {
            seq![]
        }),
{
    artifacts_front(s, t, a, b, s.len() as int);
    artifacts_behind(s, t, a, b, t.len() as int);
    if s.len() == 1 {
        assert(artifacts_upto(s, a, 0) =~= seq![]);
        assert(artifacts_upto(s, a, 1) =~= (if a[0] {
            seq![
                ArtifactView {
                    binary_path: s[0].binary_path,
                    mir_path: mir_beside(s[0].binary_path),
                    package_name: s[0].package_name,
                },
            ]
        } else {
            seq![]
        }));
    }
}

proof fn artifacts_front(
    s: Seq<CandidateView>,
    t: Seq<CandidateView>,
    a: Seq<bool>,
    b: Seq<bool>,
    n: int,
)
    requires
        s.len() == a.len(),
        0 <= n <= s.len(),
    ensures
        artifacts_upto(s + t, a + b, n) == artifacts_upto(s, a, n),
    decreases n,
{
    if n > 0 {
        artifacts_front(s, t, a, b, n - 1);
    }
}

proof fn artifacts_behind(
    s: Seq<CandidateView>,
    t: Seq<CandidateView>,
    a: Seq<bool>,
    b: Seq<bool>,
    n: int,
)
    requires
        s.len() == a.len(),
        t.len() == b.len(),
        0 <= n <= t.len(),
    ensures
        artifacts_upto(s + t, a + b, s.len() + n) == artifacts_upto(s, a, s.len() as int)
            + artifacts_upto(t, b, n),
    decreases n,
{
    if n > 0 {
        artifacts_behind(s, t, a, b, n - 1);
        assert((s + t)[s.len() + n - 1] == t[n - 1]);
        assert((a + b)[s.len() + n - 1] == b[n - 1]);
        assert(artifacts_upto(s + t, a + b, s.len() + n) =~= artifacts_upto(
            s,
            a,
            s.len() as int,
        ) + artifacts_upto(t, b, n));
    } else {
        artifacts_front(s, t, a, b, s.len() as int);
        assert(artifacts_upto(s, a, s.len() as int) + artifacts_upto(t, b, 0) =~= artifacts_upto(
            s,
            a,
            s.len() as int,
        ));
    }
}

// ---------------------------------------------------------------------------
// The build
// ---------------------------------------------------------------------------

/// A build that goes well takes its four steps in turn: the manifest is
/// there, cargo names the workspace root, cargo reports the binaries, and
/// those with a MIR file are the artifacts, under that root.
pub proof fn build_takes_its_steps(
    shown: String,
    metadata: ToolOutcome,
    build: ToolOutcome,
    found: Vec<bool>,
)
    requires
        metadata_result(metadata) is Ok,
        build_result(build) is Ok,
        found@.len() == (build_result(build)->Ok_0).len(),
    ensures
        ({
            let root = metadata_result(metadata)->Ok_0;
            let candidates = build_result(build)->Ok_0;
            let a = cargo_step(
                CargoBuildView::Checking,
                CargoEvent::Manifest { exists: true, shown },
            );
            let b = cargo_step(a, CargoEvent::CargoRan { outcome: metadata });
            let c = cargo_step(b, CargoEvent::CargoRan { outcome: build });
            let d = cargo_step(c, CargoEvent::Looked { found });
            let artifacts = artifacts_upto(candidates, found@, candidates.len() as int);
            &&& c == (CargoBuildView::Pairing { workspace_root: root, candidates })
            &&& artifacts.len() > 0 ==> (d matches CargoBuildView::Done { build }
                && build.workspace_root == root && build.test_artifacts == artifacts)
            &&& artifacts.len() == 0 ==> d is Failed
        }),
{
}

/// A step that fails ends the build with its error.
pub proof fn failed_step_ends_the_build(
    shown: String,
    outcome: ToolOutcome,
    workspace_root: Seq<char>,
)
    ensures
        cargo_step(CargoBuildView::Checking, CargoEvent::Manifest { exists: false, shown }) is Failed,
        metadata_result(outcome) matches Err(e) ==> cargo_step(
            CargoBuildView::Probing,
            CargoEvent::CargoRan { outcome },
        ) == (CargoBuildView::Failed { error: e }),
        build_result(outcome) matches Err(e) ==> cargo_step(
            CargoBuildView::Building { workspace_root },
            CargoEvent::CargoRan { outcome },
        ) == (CargoBuildView::Failed { error: e }),
        !(outcome is Succeeded) ==> metadata_result(outcome) is Err && build_result(outcome) is Err,
        outcome is Succeeded ==> build_result(outcome) is Ok,
        outcome matches ToolOutcome::Failed { stderr } ==> (metadata_result(outcome)->Err_0).stderr
            == stderr@ && (build_result(outcome)->Err_0).stderr == stderr@,
{
}

/// A build gives the binaries that cargo's output reports.
pub proof fn build_reports_its_binaries(stdout: Vec<u8>)
    ensures
        build_result(ToolOutcome::Succeeded { stdout }) == Ok::<
            Seq<CandidateView>,
            InstrumentErrorView,
        >(candidates_from(stdout@, 0, 0)),
{
}

// ---------------------------------------------------------------------------
// Single files
// ---------------------------------------------------------------------------

/// A run of rustc counts exactly if it succeeded; otherwise the error names
/// the stage and holds what rustc said.
pub proof fn run_counts_if_it_succeeded(stage: Seq<char>, outcome: ToolOutcome)
    ensures
        run_error(stage, outcome) is None <==> outcome is Succeeded,
        run_error(stage, outcome) matches Some(e) ==> e.stage == stage && (
        outcome matches ToolOutcome::Failed { stderr } ==> e.stderr == stderr@),
{
}

/// A file inside a directory is named by the directory and the file, with one
/// separator between them.
pub proof fn file_inside_is_behind_one_separator(dir: Seq<char>, file: Seq<char>)
    ensures
        dir.len() > 0 && dir.last() != '/' ==> inside(dir, file) == dir + "/"@ + file,
        dir.len() > 0 ==> inside(dir.push('/'), file) == dir + "/"@ + file,
        inside(Seq::empty(), file) == file,
{
    reveal_strlit("/");
    assert(dir.push('/') + file =~= dir + "/"@ + file);
    assert(Seq::<char>::empty() + file =~= file);
}

/// The outputs of a source file are named after its stem: the MIR with `.mir`
/// behind it, the binary without; a file without a stem gives `out`.
pub proof fn outputs_are_named_after_the_source(stem: Seq<char>)
    ensures
        lib_mir_step(Some(stem)).output == stem + ".mir"@,
        test_target_steps(Some(stem)).0.output == stem + ".mir"@,
        test_target_steps(Some(stem)).1.output == stem,
        coverage_steps(Some(stem)).0.output == stem + ".mir"@,
        coverage_steps(Some(stem)).1.output == stem,
        lib_mir_step(None).output == "out"@ + ".mir"@,
        test_target_steps(None).1.output == "out"@,
{
}

/// What rustc is told does not depend on the source file. Every run names the
/// edition and the crate type; the first run of a pair writes MIR with spans,
/// the second a binary with branch and condition coverage; `--test` is there
/// exactly for test targets.
pub proof fn flags_do_not_depend_on_the_source(stem: Option<Seq<char>>)
    ensures
        lib_mir_step(stem).flags == seq![
            "--edition"@,
            "2021"@,
            "--crate-type"@,
            "lib"@,
            "--emit=mir"@,
            "-Zmir-include-spans"@,
        ],
        coverage_steps(stem).0.flags == lib_mir_step(stem).flags.update(3, "bin"@),
        coverage_steps(stem).1.flags == lib_mir_step(stem).flags.take(3) + seq![
            "bin"@,
            "-Cinstrument-coverage"@,
            "-Zcoverage-options=branch,condition"@,
        ],
        test_target_steps(stem).0.flags == coverage_steps(stem).0.flags.insert(4, "--test"@),
        test_target_steps(stem).1.flags == coverage_steps(stem).1.flags.insert(4, "--test"@),
{
    let lib = lib_mir_step(stem).flags;
    let (mir, binary) = coverage_steps(stem);
    let (test_mir, test_binary) = test_target_steps(stem);
    assert(mir.flags =~= lib.update(3, "bin"@));
    assert(binary.flags =~= lib.take(3) + seq![
        "bin"@,
        "-Cinstrument-coverage"@,
        "-Zcoverage-options=branch,condition"@,
    ]);
    assert(test_mir.flags =~= mir.flags.insert(4, "--test"@));
    assert(test_binary.flags =~= binary.flags.insert(4, "--test"@));
}

/// The messages of a build that fails: what was not found, why cargo could
/// not be started, that the root was not named, that there are no tests.
pub proof fn build_errors_say_why(
    shown: String,
    detail: String,
    stdout: Vec<u8>,
    workspace_root: Seq<char>,
    found: Vec<bool>,
)
    ensures
        cargo_step(CargoBuildView::Checking, CargoEvent::Manifest { exists: false, shown })
            matches CargoBuildView::Failed { error } && error.stage == "cargo project"@
            && error.stderr == "Cargo.toml not found at "@ + shown@,
        metadata_result(ToolOutcome::NotStarted { detail }) matches Err(error) && error.stage
            == "cargo metadata"@ && error.stderr == "could not exec cargo: "@ + detail@,
        build_result(ToolOutcome::NotStarted { detail }) matches Err(error) && error.stage
            == "cargo build --tests"@ && error.stderr == "could not exec cargo: "@ + detail@,
        metadata_result(ToolOutcome::Succeeded { stdout }) matches Err(error) ==> error.stderr
            == "could not parse workspace_root"@,
        run_error("rustc"@, ToolOutcome::NotStarted { detail }) matches Some(error)
            && error.stderr == "could not exec rustc: "@ + detail@,
{
}

/// What of cargo's output counts: of a message its `reason`, its target's
/// `test`, its `executable` and its `package_id`; of the metadata the
/// `workspace_root`. An empty line is no message.
pub proof fn fields_of_the_output_count(line: Seq<u8>, stdout: Vec<u8>)
    ensures
        line.len() == 0 ==> candidate_of(line) is None,
        candidate_of(line) matches Some(c) ==> {
            &&& json_text(line, "/reason"@) == Some("compiler-artifact"@)
            &&& json_flag(line, "/target/test"@) == Some(true)
            &&& json_text(line, "/executable"@) == Some(c.binary_path)
            &&& json_text(line, "/package_id"@) matches Some(p) ==> c.package_name == p
        },
        line.len() > 0 && json_text(line, "/reason"@) == Some("compiler-artifact"@) && json_flag(
            line,
            "/target/test"@,
        ) == Some(true) && json_text(line, "/executable"@) is Some ==> candidate_of(line) is Some,
        metadata_result(ToolOutcome::Succeeded { stdout }) is Ok <==> json_text(
            stdout@,
            "/workspace_root"@,
        ) is Some,
        metadata_result(ToolOutcome::Succeeded { stdout }) matches Ok(root) ==> json_text(
            stdout@,
            "/workspace_root"@,
        ) == Some(root),
{
}

/// The emission of MIR gives the file inside the work directory where rustc
/// succeeded, and its error otherwise.
pub proof fn emission_gives_the_mir_file(workdir: Seq<char>, stem: Seq<char>, outcome: ToolOutcome)
    ensures
        emission_result(workdir, Some(stem), outcome) is Ok <==> outcome is Succeeded,
        outcome is Succeeded ==> emission_result(workdir, Some(stem), outcome) == Ok::<
            Seq<char>,
            InstrumentErrorView,
        >(inside(workdir, stem + ".mir"@)),
        outcome matches ToolOutcome::Failed { stderr } ==> (emission_result(
            workdir,
            Some(stem),
            outcome,
        )->Err_0).stderr == stderr@,
{
}

} // verus!
