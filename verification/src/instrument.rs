//! Compiling Rust sources with coverage and MIR instrumentation.
//!
//! This module decides what is run and what comes of it; running the
//! compiler is left to the program. A [`Compilation`] asks for one rustc
//! invocation after the other, and the functions on cargo's output find the
//! test binaries of a project.
use crate::paths::{mir_beside, mir_path_of};
use crate::text::{chars_of, same_text};
use vstd::prelude::*;
use vstd::slice::slice_subrange;
use vstd::string::*;

pub mod laws;

verus! {

/// Result of a successful [`compile_with_coverage`] or
/// [`compile_test_target`].
#[derive(Debug, Clone)]
pub struct InstrumentResult {
    /// Path to the emitted MIR text dump (`-Zmir-include-spans` form).
    pub mir_path: String,
    /// Path to the instrumented executable.
    pub binary_path: String,
}

/// The model of an [`InstrumentResult`].
pub struct InstrumentView {
    pub mir_path: Seq<char>,
    pub binary_path: Seq<char>,
}

impl DeepView for InstrumentResult {
    type V = InstrumentView;

    open spec fn deep_view(&self) -> InstrumentView {
        InstrumentView { mir_path: self.mir_path@, binary_path: self.binary_path@ }
    }
}

/// Error returned when one of the compiler invocations fails.
#[derive(Debug, Clone)]
pub struct InstrumentError {
    /// Which compilation step produced the failure.
    pub stage: &'static str,
    /// Captured `stderr` (or a message describing the exec failure).
    pub stderr: String,
}

/// The model of an [`InstrumentError`].
pub struct InstrumentErrorView {
    pub stage: Seq<char>,
    pub stderr: Seq<char>,
}

impl DeepView for InstrumentError {
    type V = InstrumentErrorView;

    open spec fn deep_view(&self) -> InstrumentErrorView {
        InstrumentErrorView { stage: self.stage@, stderr: self.stderr@ }
    }
}

impl InstrumentError {
    /// The error as text: the stage on the first line, then what the tool
    /// said.
    pub fn to_string(&self) -> (r: String)
        ensures
            r@ == "instrument error ("@ + self.stage@ + "):\n"@ + self.stderr@,
    {
        let mut out = String::new();
        out.append("instrument error (");
        out.append(self.stage);
        out.append("):\n");
        out.append(self.stderr.as_str());
        assert(out@ =~= "instrument error ("@ + self.stage@ + "):\n"@ + self.stderr@);
        out
    }
}

/// What became of a tool that was run.
#[derive(Debug, Clone)]
pub enum ToolOutcome {
    /// It could not be started.
    NotStarted {
        /// Why.
        detail: String,
    },
    /// It ended with a failure.
    Failed {
        /// What it printed to its error stream.
        stderr: String,
    },
    /// It succeeded.
    Succeeded {
        /// What it printed.
        stdout: Vec<u8>,
    },
}

// ---------------------------------------------------------------------------
// Single source files
// ---------------------------------------------------------------------------

/// One rustc invocation: `rustc +nightly <flags> -o <output> <source>`.
#[derive(Debug, Clone)]
pub struct RustcStep {
    /// The name of the step in error messages.
    pub stage: &'static str,
    /// The flags, in order.
    pub flags: Vec<&'static str>,
    /// The file that is written, inside the work directory.
    pub output: String,
}

/// The model of a [`RustcStep`].
#[verifier::ext_equal]
pub struct StepView {
    pub stage: Seq<char>,
    pub flags: Seq<Seq<char>>,
    pub output: Seq<char>,
}

impl DeepView for RustcStep {
    type V = StepView;

    open spec fn deep_view(&self) -> StepView {
        StepView {
            stage: self.stage@,
            flags: Seq::new(self.flags@.len(), |i: int| self.flags@[i]@),
            output: self.output@,
        }
    }
}

/// The name that the outputs of a source file are given: its stem, or `out`
/// where it has none.
pub open spec fn output_stem(stem: Option<Seq<char>>) -> Seq<char> {
    match stem {
        Some(s) => s,
        None => "out"@,
    }
}

/// The step that emits MIR for a `lib` crate.
pub open spec fn lib_mir_step(stem: Option<Seq<char>>) -> StepView {
    StepView {
        stage: "rustc --emit=mir (lib)"@,
        flags: seq![
            "--edition"@,
            "2021"@,
            "--crate-type"@,
            "lib"@,
            "--emit=mir"@,
            "-Zmir-include-spans"@,
        ],
        output: output_stem(stem) + ".mir"@,
    }
}

/// The steps that emit MIR and build a test binary with coverage.
pub open spec fn test_target_steps(stem: Option<Seq<char>>) -> (StepView, StepView) {
    (
        StepView {
            stage: "rustc --test --emit=mir"@,
            flags: seq![
                "--edition"@,
                "2021"@,
                "--crate-type"@,
                "bin"@,
                "--test"@,
                "--emit=mir"@,
                "-Zmir-include-spans"@,
            ],
            output: output_stem(stem) + ".mir"@,
        },
        StepView {
            stage: "rustc --test -Cinstrument-coverage"@,
            flags: seq![
                "--edition"@,
                "2021"@,
                "--crate-type"@,
                "bin"@,
                "--test"@,
                "-Cinstrument-coverage"@,
                "-Zcoverage-options=branch,condition"@,
            ],
            output: output_stem(stem),
        },
    )
}

/// The steps that emit MIR and build a binary with coverage.
pub open spec fn coverage_steps(stem: Option<Seq<char>>) -> (StepView, StepView) {
    (
        StepView {
            stage: "rustc --emit=mir"@,
            flags: seq![
                "--edition"@,
                "2021"@,
                "--crate-type"@,
                "bin"@,
                "--emit=mir"@,
                "-Zmir-include-spans"@,
            ],
            output: output_stem(stem) + ".mir"@,
        },
        StepView {
            stage: "rustc -Cinstrument-coverage"@,
            flags: seq![
                "--edition"@,
                "2021"@,
                "--crate-type"@,
                "bin"@,
                "-Cinstrument-coverage"@,
                "-Zcoverage-options=branch,condition"@,
            ],
            output: output_stem(stem),
        },
    )
}

/// The name of an output.
fn output_name(stem: Option<&str>, extension: &str) -> (r: String)
    ensures
        r@ == output_stem(stem.deep_view()) + extension@,
{
    let mut out = String::new();
    match stem {
        Some(s) => out.append(s),
        None => out.append("out"),
    }
    out.append(extension);
    assert(out@ =~= output_stem(stem.deep_view()) + extension@);
    out
}

/// The name of an output without extension.
fn binary_name(stem: Option<&str>) -> (r: String)
    ensures
        r@ == output_stem(stem.deep_view()),
{
    match stem {
        Some(s) => s.to_owned(),
        None => "out".to_owned(),
    }
}

/// Plans the emission of MIR for a single `.rs` source file as a `lib` crate,
/// given the file's stem: static analysis needs no binary.
pub fn emit_mir(stem: Option<&str>) -> (r: RustcStep)
    ensures
        r.deep_view() == lib_mir_step(stem.deep_view()),
{
    let step = RustcStep {
        stage: "rustc --emit=mir (lib)",
        flags: vec![
            "--edition",
            "2021",
            "--crate-type",
            "lib",
            "--emit=mir",
            "-Zmir-include-spans",
        ],
        output: output_name(stem, ".mir"),
    };
    assert(step.deep_view() =~= lib_mir_step(stem.deep_view()));
    step
}

/// Plans the runs of a *test* crate with both MIR emission and coverage
/// instrumentation. The first writes the MIR, the second the binary, whose
/// `#[test]` functions can be run one by one with `--exact <name>`.
pub fn plan_test_target(stem: Option<&str>) -> (r: (RustcStep, RustcStep))
    ensures
        (r.0.deep_view(), r.1.deep_view()) == test_target_steps(stem.deep_view()),
{
    let mir = RustcStep {
        stage: "rustc --test --emit=mir",
        flags: vec![
            "--edition",
            "2021",
            "--crate-type",
            "bin",
            "--test",
            "--emit=mir",
            "-Zmir-include-spans",
        ],
        output: output_name(stem, ".mir"),
    };
    let binary = RustcStep {
        stage: "rustc --test -Cinstrument-coverage",
        flags: vec![
            "--edition",
            "2021",
            "--crate-type",
            "bin",
            "--test",
            "-Cinstrument-coverage",
            "-Zcoverage-options=branch,condition",
        ],
        output: binary_name(stem),
    };
    assert(mir.deep_view() =~= test_target_steps(stem.deep_view()).0);
    assert(binary.deep_view() =~= test_target_steps(stem.deep_view()).1);
    (mir, binary)
}

/// Plans the runs with both MIR emission and coverage instrumentation. The
/// first writes the MIR, the second the executable.
pub fn plan_with_coverage(stem: Option<&str>) -> (r: (RustcStep, RustcStep))
    ensures
        (r.0.deep_view(), r.1.deep_view()) == coverage_steps(stem.deep_view()),
{
    let mir = RustcStep {
        stage: "rustc --emit=mir",
        flags: vec![
            "--edition",
            "2021",
            "--crate-type",
            "bin",
            "--emit=mir",
            "-Zmir-include-spans",
        ],
        output: output_name(stem, ".mir"),
    };
    let binary = RustcStep {
        stage: "rustc -Cinstrument-coverage",
        flags: vec![
            "--edition",
            "2021",
            "--crate-type",
            "bin",
            "-Cinstrument-coverage",
            "-Zcoverage-options=branch,condition",
        ],
        output: binary_name(stem),
    };
    assert(mir.deep_view() =~= coverage_steps(stem.deep_view()).0);
    assert(binary.deep_view() =~= coverage_steps(stem.deep_view()).1);
    (mir, binary)
}

/// The text of a failure to start a tool.
fn not_started(prefix: &str, detail: &String) -> (r: String)
    ensures
        r@ == prefix@ + detail@,
{
    let mut out = String::new();
    out.append(prefix);
    out.append(detail.as_str());
    assert(out@ =~= prefix@ + detail@);
    out
}

/// The error of a rustc invocation that did not succeed: it names the stage
/// and holds what rustc said, or why it could not be started.
pub open spec fn run_error(stage: Seq<char>, outcome: ToolOutcome) -> Option<
    InstrumentErrorView,
> {
    match outcome {
        ToolOutcome::Succeeded { .. } => None,
        ToolOutcome::NotStarted { detail } => Some(
            InstrumentErrorView { stage, stderr: "could not exec rustc: "@ + detail@ },
        ),
        ToolOutcome::Failed { stderr } => Some(InstrumentErrorView { stage, stderr: stderr@ }),
    }
}

/// Judges a rustc invocation: it counts if it succeeded; otherwise the error
/// names the stage and holds what rustc said, or why it could not be started.
pub fn rustc_result(stage: &'static str, outcome: ToolOutcome) -> (r: Result<(), InstrumentError>)
    ensures
        match r {
            Ok(()) => run_error(stage@, outcome) is None,
            Err(e) => run_error(stage@, outcome) == Some(e.deep_view()),
        },
{
    match outcome {
        ToolOutcome::Succeeded { .. } => Ok(()),
        ToolOutcome::NotStarted { detail } => Err(
            InstrumentError { stage, stderr: not_started("could not exec rustc: ", &detail) },
        ),
        ToolOutcome::Failed { stderr } => Err(InstrumentError { stage, stderr }),
    }
}

/// A file inside a directory, as a path.
pub open spec fn inside(dir: Seq<char>, file: Seq<char>) -> Seq<char> {
    if dir.len() == 0 || dir.last() == '/' {
        dir + file
    } else {
        dir + "/"@ + file
    }
}

/// The path of a file inside a directory.
fn path_inside(dir: &str, file: &str) -> (r: String)
    ensures
        r@ == inside(dir@, file@),
{
    let chars = chars_of(dir);
    let n: usize = chars.len();
    let mut out = String::new();
    out.append(dir);
    if n > 0 && chars[n - 1] != '/' {
        out.append("/");
    }
    out.append(file);
    assert(out@ =~= inside(dir@, file@));
    out
}

/// What the run of [`emit_mir`] gives: the path of the MIR file, or the
/// error.
pub open spec fn emission_result(
    workdir: Seq<char>,
    stem: Option<Seq<char>>,
    outcome: ToolOutcome,
) -> Result<Seq<char>, InstrumentErrorView> {
    match run_error(lib_mir_step(stem).stage, outcome) {
        Some(error) => Err(error),
        None => Ok(inside(workdir, lib_mir_step(stem).output)),
    }
}

/// Judges the run of [`emit_mir`]: the path of the MIR file, or the error.
pub fn emitted_mir(workdir: &str, stem: Option<&str>, outcome: ToolOutcome) -> (r: Result<
    String,
    InstrumentError,
>)
    ensures
        match r {
            Ok(path) => emission_result(workdir@, stem.deep_view(), outcome) == Ok::<
                Seq<char>,
                InstrumentErrorView,
            >(path@),
            Err(e) => emission_result(workdir@, stem.deep_view(), outcome) == Err::<
                Seq<char>,
                InstrumentErrorView,
            >(e.deep_view()),
        },
{
    let step = emit_mir(stem);
    match rustc_result(step.stage, outcome) {
        Ok(()) => Ok(path_inside(workdir, step.output.as_str())),
        Err(e) => Err(e),
    }
}

/// The compilation of a source file: one run of rustc writes the MIR, then
/// another the binary.
#[derive(Debug, Clone)]
pub enum Compilation {
    /// The MIR is to be written.
    EmittingMir {
        /// The run that writes it.
        mir: RustcStep,
        /// The run that writes the binary.
        binary: RustcStep,
        /// What both write.
        paths: InstrumentResult,
    },
    /// The binary is to be written.
    Building {
        /// The run that writes it.
        binary: RustcStep,
        /// What both runs write.
        paths: InstrumentResult,
    },
    /// Both are written.
    Done {
        /// Where.
        paths: InstrumentResult,
    },
    /// A run failed.
    Failed {
        /// The error.
        error: InstrumentError,
    },
}

/// The model of a [`Compilation`].
pub enum CompilationView {
    EmittingMir { mir: StepView, binary: StepView, paths: InstrumentView },
    Building { binary: StepView, paths: InstrumentView },
    Done { paths: InstrumentView },
    Failed { error: InstrumentErrorView },
}

impl DeepView for Compilation {
    type V = CompilationView;

    open spec fn deep_view(&self) -> CompilationView {
        match *self {
            Compilation::EmittingMir { mir, binary, paths } => CompilationView::EmittingMir {
                mir: mir.deep_view(),
                binary: binary.deep_view(),
                paths: paths.deep_view(),
            },
            Compilation::Building { binary, paths } => CompilationView::Building {
                binary: binary.deep_view(),
                paths: paths.deep_view(),
            },
            Compilation::Done { paths } => CompilationView::Done { paths: paths.deep_view() },
            Compilation::Failed { error } => CompilationView::Failed { error: error.deep_view() },
        }
    }
}

/// The compilation that two runs make up, before the first of them. Both
/// write into the work directory.
pub open spec fn planned(workdir: Seq<char>, steps: (StepView, StepView)) -> CompilationView {
    CompilationView::EmittingMir {
        mir: steps.0,
        binary: steps.1,
        paths: InstrumentView {
            mir_path: inside(workdir, steps.0.output),
            binary_path: inside(workdir, steps.1.output),
        },
    }
}

/// The compilation after the run that it asked for. A failed run ends it.
pub open spec fn compiled(state: CompilationView, outcome: ToolOutcome) -> CompilationView {
    match state {
        CompilationView::EmittingMir { mir, binary, paths } => match run_error(
            mir.stage,
            outcome,
        ) {
            Some(error) => CompilationView::Failed { error },
            None => CompilationView::Building { binary, paths },
        },
        CompilationView::Building { binary, paths } => match run_error(binary.stage, outcome) {
            Some(error) => CompilationView::Failed { error },
            None => CompilationView::Done { paths },
        },
        _ => state,
    }
}

/// The run that a compilation asks for next.
pub open spec fn asked_run(state: CompilationView) -> Option<StepView> {
    match state {
        CompilationView::EmittingMir { mir, .. } => Some(mir),
        CompilationView::Building { binary, .. } => Some(binary),
        _ => None,
    }
}

/// The compilation that two runs make up.
fn start_compilation(workdir: &str, mir: RustcStep, binary: RustcStep) -> (r: Compilation)
    ensures
        r.deep_view() == planned(workdir@, (mir.deep_view(), binary.deep_view())),
{
    let paths = InstrumentResult {
        mir_path: path_inside(workdir, mir.output.as_str()),
        binary_path: path_inside(workdir, binary.output.as_str()),
    };
    Compilation::EmittingMir { mir, binary, paths }
}

/// Starts the compilation of a single `.rs` source file, given by its stem,
/// as a *test* crate with both MIR emission and coverage instrumentation.
pub fn compile_test_target(workdir: &str, stem: Option<&str>) -> (r: Compilation)
    ensures
        r.deep_view() == planned(workdir@, test_target_steps(stem.deep_view())),
{
    let (mir, binary) = plan_test_target(stem);
    start_compilation(workdir, mir, binary)
}

/// Starts the compilation of a single `.rs` source file, given by its stem,
/// with both MIR emission and coverage instrumentation.
pub fn compile_with_coverage(workdir: &str, stem: Option<&str>) -> (r: Compilation)
    ensures
        r.deep_view() == planned(workdir@, coverage_steps(stem.deep_view())),
{
    let (mir, binary) = plan_with_coverage(stem);
    start_compilation(workdir, mir, binary)
}

impl Compilation {
    /// The run that is to be made next, if there is one.
    pub fn next_run(&self) -> (r: Option<&RustcStep>)
        ensures
            r.deep_view() == asked_run(self.deep_view()),
    {
        match self {
            Compilation::EmittingMir { mir, .. } => Some(mir),
            Compilation::Building { binary, .. } => Some(binary),
            _ => None,
        }
    }

    /// Takes the compilation further by what became of the run it asked for.
    pub fn step(self, outcome: ToolOutcome) -> (r: Compilation)
        ensures
            r.deep_view() == compiled(self.deep_view(), outcome),
    {
        match self {
            Compilation::EmittingMir { mir, binary, paths } => match rustc_result(
                mir.stage,
                outcome,
            ) {
                Ok(()) => Compilation::Building { binary, paths },
                Err(error) => Compilation::Failed { error },
            },
            Compilation::Building { binary, paths } => match rustc_result(binary.stage, outcome) {
                Ok(()) => Compilation::Done { paths },
                Err(error) => Compilation::Failed { error },
            },
            state => state,
        }
    }
}

/// What becomes of a compilation: where both runs succeed, both files are
/// there; where the first fails, its error is the result and the second is
/// never asked for; where the second fails, its error is the result.
pub proof fn compilation_ends_as_its_runs_do(
    workdir: Seq<char>,
    steps: (StepView, StepView),
    first: ToolOutcome,
    second: ToolOutcome,
)
    ensures
        ({
            let start = planned(workdir, steps);
            let middle = compiled(start, first);
            let end = compiled(middle, second);
            &&& asked_run(start) == Some(steps.0)
            &&& match run_error(steps.0.stage, first) {
                Some(error) => middle == (CompilationView::Failed { error }) && asked_run(middle)
                    is None && end == middle,
                None => asked_run(middle) == Some(steps.1) && asked_run(end) is None && match run_error(
                    steps.1.stage,
                    second,
                ) {
                    Some(error) => end == (CompilationView::Failed { error }),
                    None => end == (CompilationView::Done {
                        paths: InstrumentView {
                            mir_path: inside(workdir, steps.0.output),
                            binary_path: inside(workdir, steps.1.output),
                        },
                    }),
                },
            }
        }),
{
}

// ---------------------------------------------------------------------------
// Cargo projects
// ---------------------------------------------------------------------------

/// One test artifact of a cargo project.
#[derive(Debug, Clone)]
pub struct TestArtifact {
    /// Path to the instrumented `#[test]` binary that responds to `--list`
    /// and `--exact <name>`.
    pub binary_path: String,
    /// Path to the span-annotated MIR text dump emitted alongside the binary.
    pub mir_path: String,
    /// Cargo package name the artifact came from (for diagnostics).
    pub package_name: String,
}

/// The model of a [`TestArtifact`].
pub struct ArtifactView {
    pub binary_path: Seq<char>,
    pub mir_path: Seq<char>,
    pub package_name: Seq<char>,
}

impl DeepView for TestArtifact {
    type V = ArtifactView;

    open spec fn deep_view(&self) -> ArtifactView {
        ArtifactView {
            binary_path: self.binary_path@,
            mir_path: self.mir_path@,
            package_name: self.package_name@,
        }
    }
}

/// Result of a successful cargo build.
#[derive(Debug, Clone)]
pub struct CargoBuildResult {
    /// Workspace root from `cargo metadata`.
    pub workspace_root: String,
    /// One [`TestArtifact`] per cargo test target that produced both a binary
    /// and a MIR file.
    pub test_artifacts: Vec<TestArtifact>,
}

/// The model of a [`CargoBuildResult`].
pub struct BuildView {
    pub workspace_root: Seq<char>,
    pub test_artifacts: Seq<ArtifactView>,
}

impl DeepView for CargoBuildResult {
    type V = BuildView;

    open spec fn deep_view(&self) -> BuildView {
        BuildView {
            workspace_root: self.workspace_root@,
            test_artifacts: self.test_artifacts.deep_view(),
        }
    }
}

/// A test binary that cargo reports, before its MIR file is looked for.
#[derive(Debug, Clone)]
pub struct TestCandidate {
    /// Path to the binary.
    pub binary_path: String,
    /// Cargo package the binary came from.
    pub package_name: String,
}

/// The model of a [`TestCandidate`].
pub struct CandidateView {
    pub binary_path: Seq<char>,
    pub package_name: Seq<char>,
}

impl DeepView for TestCandidate {
    type V = CandidateView;

    open spec fn deep_view(&self) -> CandidateView {
        CandidateView { binary_path: self.binary_path@, package_name: self.package_name@ }
    }
}

/// The compiler flags under which a project's tests are built.
pub fn coverage_rustflags() -> (r: &'static str)
    ensures
        r@
            == "-Cinstrument-coverage -Zcoverage-options=branch,condition -Zmir-include-spans --emit=mir,link"@,
{
    "-Cinstrument-coverage -Zcoverage-options=branch,condition -Zmir-include-spans --emit=mir,link"
}

/// The string at a place in a JSON document.
pub uninterp spec fn json_text(json: Seq<u8>, pointer: Seq<char>) -> Option<Seq<char>>;

/// `serde_json::from_slice` into a `serde_json::Value`, then `Value::pointer`
/// and `Value::as_str`: the string that stands at the given JSON pointer, or
/// nothing where the bytes are no JSON document, the pointer leads nowhere or
/// to something other than a string. It depends on the bytes and the pointer
/// alone; the contract names it and claims nothing more of it.
#[verifier::external_body]
fn json_text_at(json: &[u8], pointer: &str) -> (r: Option<String>)
    ensures
        r.deep_view() == json_text(json@, pointer@),
{
    match serde_json::from_slice::<serde_json::Value>(json) {
        Ok(value) => match value.pointer(pointer) {
            Some(found) => match found.as_str() {
                Some(text) => Some(String::from(text)),
                None => None,
            },
            None => None,
        },
        Err(_) => None,
    }
}

/// The boolean at a place in a JSON document.
pub uninterp spec fn json_flag(json: Seq<u8>, pointer: Seq<char>) -> Option<bool>;

/// `serde_json::from_slice` into a `serde_json::Value`, then `Value::pointer`
/// and `Value::as_bool`: the boolean that stands at the given JSON pointer,
/// or nothing where the bytes are no JSON document, the pointer leads nowhere
/// or to something other than a boolean. It depends on the bytes and the
/// pointer alone; the contract names it and claims nothing more of it.
#[verifier::external_body]
fn json_flag_at(json: &[u8], pointer: &str) -> (r: Option<bool>)
    ensures
        r == json_flag(json@, pointer@),
{
    match serde_json::from_slice::<serde_json::Value>(json) {
        Ok(value) => match value.pointer(pointer) {
            Some(found) => found.as_bool(),
            None => None,
        },
        Err(_) => None,
    }
}

/// Whether a project's manifest is there to be built.
fn check_manifest(exists: bool, shown: &str) -> (r: Result<(), InstrumentError>)
    ensures
        exists ==> r is Ok,
        !exists ==> (r matches Err(e) && e.stage@ == "cargo project"@ && e.stderr@
            == "Cargo.toml not found at "@ + shown@),
{
    if exists {
        Ok(())
    } else {
        let mut stderr = String::new();
        stderr.append("Cargo.toml not found at ");
        stderr.append(shown);
        assert(stderr@ =~= "Cargo.toml not found at "@ + shown@);
        Err(InstrumentError { stage: "cargo project", stderr })
    }
}

/// What a run of `cargo metadata` gives: the workspace root, or the error.
pub open spec fn metadata_result(outcome: ToolOutcome) -> Result<Seq<char>, InstrumentErrorView> {
    match outcome {
        ToolOutcome::NotStarted { detail } => Err(
            InstrumentErrorView {
                stage: "cargo metadata"@,
                stderr: "could not exec cargo: "@ + detail@,
            },
        ),
        ToolOutcome::Failed { stderr } => Err(
            InstrumentErrorView { stage: "cargo metadata"@, stderr: stderr@ },
        ),
        ToolOutcome::Succeeded { stdout } => match json_text(stdout@, "/workspace_root"@) {
            Some(root) => Ok(root),
            None => Err(
                InstrumentErrorView {
                    stage: "cargo metadata"@,
                    stderr: "could not parse workspace_root"@,
                },
            ),
        },
    }
}

/// Reads the workspace root out of what a run of `cargo metadata` gave.
pub fn workspace_root(outcome: ToolOutcome) -> (r: Result<String, InstrumentError>)
    ensures
        match r {
            Ok(root) => metadata_result(outcome) == Ok::<Seq<char>, InstrumentErrorView>(root@),
            Err(e) => metadata_result(outcome) == Err::<Seq<char>, InstrumentErrorView>(
                e.deep_view(),
            ),
        },
{
    let stage: &'static str = "cargo metadata";
    match outcome {
        ToolOutcome::NotStarted { detail } => Err(
            InstrumentError { stage, stderr: not_started("could not exec cargo: ", &detail) },
        ),
        ToolOutcome::Failed { stderr } => Err(InstrumentError { stage, stderr }),
        ToolOutcome::Succeeded { stdout } => match json_text_at(
            stdout.as_slice(),
            "/workspace_root",
        ) {
            Some(root) => Ok(root),
            None => Err(
                InstrumentError { stage, stderr: "could not parse workspace_root".to_owned() },
            ),
        },
    }
}

/// The test binary that a cargo message reports, by the message's `reason`,
/// its `target.test`, its `executable` and its `package_id`.
pub open spec fn reported_binary(
    reason: Option<Seq<char>>,
    is_test: Option<bool>,
    executable: Option<Seq<char>>,
    package_id: Option<Seq<char>>,
) -> Option<CandidateView> {
    if reason == Some("compiler-artifact"@) && is_test == Some(true) && executable is Some {
        Some(
            CandidateView {
                binary_path: executable->0,
                package_name: match package_id {
                    Some(p) => p,
                    None => "?"@,
                },
            },
        )
    } else {
        None
    }
}

/// The test binary that a cargo message reports, by the parts of the message
/// that matter.
pub fn candidate_from(
    reason: Option<String>,
    is_test: Option<bool>,
    executable: Option<String>,
    package_id: Option<String>,
) -> (r: Option<TestCandidate>)
    ensures
        r.deep_view() == reported_binary(
            reason.deep_view(),
            is_test,
            executable.deep_view(),
            package_id.deep_view(),
        ),
{
    let is_artifact = match &reason {
        Some(text) => same_text(text.as_str(), "compiler-artifact"),
        None => false,
    };
    let tested = match is_test {
        Some(b) => b,
        None => false,
    };
    if !is_artifact || !tested {
        return None;
    }
    match executable {
        Some(binary_path) => {
            let package_name = match package_id {
                Some(p) => p,
                None => "?".to_owned(),
            };
            Some(TestCandidate { binary_path, package_name })
        },
        None => None,
    }
}

/// The test binary that one line of cargo's message stream reports.
pub open spec fn candidate_of(line: Seq<u8>) -> Option<CandidateView> {
    if line.len() == 0 {
        None
    } else {
        reported_binary(
            json_text(line, "/reason"@),
            json_flag(line, "/target/test"@),
            json_text(line, "/executable"@),
            json_text(line, "/package_id"@),
        )
    }
}

/// The test binaries that a message stream reports from position `i` on,
/// where the current line began at `start`.
pub open spec fn candidates_from(stream: Seq<u8>, start: int, i: int) -> Seq<CandidateView>
    decreases stream.len() - i,
{
    if i >= stream.len() {
        match candidate_of(stream.subrange(start, stream.len() as int)) {
            Some(c) => seq![c],
            None => seq![],
        }
    } else if stream[i] == 10 {
        let rest = candidates_from(stream, i + 1, i + 1);
        match candidate_of(stream.subrange(start, i)) {
            Some(c) => seq![c] + rest,
            None => rest,
        }
    } else {
        candidates_from(stream, start, i + 1)
    }
}

/// The test binary that one line of cargo's message stream reports.
fn read_candidate(line: &[u8]) -> (r: Option<TestCandidate>)
    ensures
        r.deep_view() == candidate_of(line@),
{
    if line.len() == 0 {
        return None;
    }
    candidate_from(
        json_text_at(line, "/reason"),
        json_flag_at(line, "/target/test"),
        json_text_at(line, "/executable"),
        json_text_at(line, "/package_id"),
    )
}

/// The test binaries that cargo's message stream reports, one JSON message
/// per line. Lines that are no message of a test binary are skipped.
pub fn test_candidates(stream: &[u8]) -> (r: Vec<TestCandidate>)
    ensures
        r.deep_view() == candidates_from(stream@, 0, 0),
{
    let mut out: Vec<TestCandidate> = Vec::new();
    let mut start: usize = 0;
    let mut i: usize = 0;
    assert(out.deep_view() + candidates_from(stream@, 0, 0) =~= candidates_from(stream@, 0, 0));
    while i < stream.len()
        invariant
            start <= i <= stream@.len(),
            candidates_from(stream@, 0, 0) == out.deep_view() + candidates_from(
                stream@,
                start as int,
                i as int,
            ),
        decreases stream@.len() - i,
    {
        if stream[i] == 10 {
            let ghost before = out.deep_view();
            let ghost rest = candidates_from(stream@, i + 1, i + 1);
            if let Some(c) = read_candidate(slice_subrange(stream, start, i)) {
                out.push(c);
                assert(out.deep_view() =~= before.push(c.deep_view()));
                assert(before + (seq![c.deep_view()] + rest) =~= out.deep_view() + rest);
            }
            start = i + 1;
        }
        i += 1;
    }
    let ghost before = out.deep_view();
    if let Some(c) = read_candidate(slice_subrange(stream, start, stream.len())) {
        out.push(c);
        assert(out.deep_view() =~= before + seq![c.deep_view()]);
    } else {
        assert(before + seq![] =~= before);
    }
    out
}

/// What a run of `cargo build --tests` gives: the test binaries that it
/// reports, or the error.
pub open spec fn build_result(outcome: ToolOutcome) -> Result<
    Seq<CandidateView>,
    InstrumentErrorView,
> {
    match outcome {
        ToolOutcome::NotStarted { detail } => Err(
            InstrumentErrorView {
                stage: "cargo build --tests"@,
                stderr: "could not exec cargo: "@ + detail@,
            },
        ),
        ToolOutcome::Failed { stderr } => Err(
            InstrumentErrorView { stage: "cargo build --tests"@, stderr: stderr@ },
        ),
        ToolOutcome::Succeeded { stdout } => Ok(candidates_from(stdout@, 0, 0)),
    }
}

/// Reads the test binaries out of what a run of `cargo build --tests` gave.
pub fn built_candidates(outcome: ToolOutcome) -> (r: Result<Vec<TestCandidate>, InstrumentError>)
    ensures
        match r {
            Ok(found) => build_result(outcome) == Ok::<Seq<CandidateView>, InstrumentErrorView>(
                found.deep_view(),
            ),
            Err(e) => build_result(outcome) == Err::<Seq<CandidateView>, InstrumentErrorView>(
                e.deep_view(),
            ),
        },
{
    let stage: &'static str = "cargo build --tests";
    match outcome {
        ToolOutcome::NotStarted { detail } => Err(
            InstrumentError { stage, stderr: not_started("could not exec cargo: ", &detail) },
        ),
        ToolOutcome::Failed { stderr } => Err(InstrumentError { stage, stderr }),
        ToolOutcome::Succeeded { stdout } => Ok(test_candidates(stdout.as_slice())),
    }
}

/// The artifacts of the first `n` candidates: those beside which a MIR file
/// was found.
pub open spec fn artifacts_upto(
    candidates: Seq<CandidateView>,
    found: Seq<bool>,
    n: int,
) -> Seq<ArtifactView>
    decreases n,
{
    if n <= 0 {
        seq![]
    } else {
        let rest = artifacts_upto(candidates, found, n - 1);
        if found[n - 1] {
            rest.push(
                ArtifactView {
                    binary_path: candidates[n - 1].binary_path,
                    mir_path: mir_beside(candidates[n - 1].binary_path),
                    package_name: candidates[n - 1].package_name,
                },
            )
        } else {
            rest
        }
    }
}

/// Pairs each test binary with its MIR file, where that was found; a build
/// without any such pair is an error.
fn collect_artifacts(
    workspace_root: String,
    candidates: &Vec<TestCandidate>,
    found: &Vec<bool>,
) -> (r: Result<CargoBuildResult, InstrumentError>)
    requires
        candidates@.len() == found@.len(),
    ensures
        ({
            let artifacts = artifacts_upto(
                candidates.deep_view(),
                found@,
                candidates@.len() as int,
            );
            match r {
                Ok(build) => artifacts.len() > 0 && build.workspace_root@ == workspace_root@
                    && build.test_artifacts.deep_view() == artifacts,
                Err(e) => artifacts.len() == 0 && e.stage@ == "cargo build --tests"@ && e.stderr@
                    == "no test artifacts produced; does the project have any #[test] functions?"@,
            }
        }),
{
    let ghost all = candidates.deep_view();
    let mut test_artifacts: Vec<TestArtifact> = Vec::new();
    let mut i: usize = 0;
    assert(test_artifacts.deep_view() =~= seq![]);
    while i < candidates.len()
        invariant
            i <= candidates@.len(),
            candidates@.len() == found@.len(),
            all == candidates.deep_view(),
            test_artifacts.deep_view() == artifacts_upto(all, found@, i as int),
        decreases candidates@.len() - i,
    {
        assert(all[i as int] == candidates@[i as int].deep_view());
        if found[i] {
            let ghost before = test_artifacts.deep_view();
            let artifact = TestArtifact {
                binary_path: candidates[i].binary_path.clone(),
                mir_path: mir_path_of(candidates[i].binary_path.as_str()),
                package_name: candidates[i].package_name.clone(),
            };
            test_artifacts.push(artifact);
            assert(test_artifacts.deep_view() =~= before.push(artifact.deep_view()));
        }
        i += 1;
    }
    assert(test_artifacts.deep_view().len() == test_artifacts@.len());
    if test_artifacts.len() == 0 {
        return Err(
            InstrumentError {
                stage: "cargo build --tests",
                stderr:
                    "no test artifacts produced; does the project have any #[test] functions?".to_owned(),
            },
        );
    }
    Ok(CargoBuildResult { workspace_root, test_artifacts })
}

/// The build of a cargo project's test targets: the manifest is looked for,
/// `cargo metadata` names the workspace root, `cargo build --tests` reports
/// the test binaries, and the MIR file beside each is looked for.
#[derive(Debug, Clone)]
pub enum CargoBuild {
    /// The manifest is to be looked for.
    Checking,
    /// `cargo metadata` is to be run.
    Probing,
    /// `cargo build --tests` is to be run.
    Building {
        /// The workspace root.
        workspace_root: String,
    },
    /// The MIR file beside each binary is to be looked for.
    Pairing {
        /// The workspace root.
        workspace_root: String,
        /// The binaries.
        candidates: Vec<TestCandidate>,
    },
    /// The artifacts are there.
    Done {
        /// What was built.
        build: CargoBuildResult,
    },
    /// A step failed.
    Failed {
        /// The error.
        error: InstrumentError,
    },
}

/// What happened in the course of a build.
#[derive(Debug, Clone)]
pub enum CargoEvent {
    /// The manifest was looked for.
    Manifest {
        /// Whether it exists.
        exists: bool,
        /// Its path, as text.
        shown: String,
    },
    /// Cargo was run.
    CargoRan {
        /// What became of it.
        outcome: ToolOutcome,
    },
    /// The MIR files were looked for.
    Looked {
        /// Whether the MIR file beside each binary exists, at the path that
        /// [`mir_path_of`] gives.
        found: Vec<bool>,
    },
}

/// The model of a [`CargoBuild`].
pub enum CargoBuildView {
    Checking,
    Probing,
    Building { workspace_root: Seq<char> },
    Pairing { workspace_root: Seq<char>, candidates: Seq<CandidateView> },
    Done { build: BuildView },
    Failed { error: InstrumentErrorView },
}

impl DeepView for CargoBuild {
    type V = CargoBuildView;

    open spec fn deep_view(&self) -> CargoBuildView {
        match *self {
            CargoBuild::Checking => CargoBuildView::Checking,
            CargoBuild::Probing => CargoBuildView::Probing,
            CargoBuild::Building { workspace_root } => CargoBuildView::Building {
                workspace_root: workspace_root@,
            },
            CargoBuild::Pairing { workspace_root, candidates } => CargoBuildView::Pairing {
                workspace_root: workspace_root@,
                candidates: candidates.deep_view(),
            },
            CargoBuild::Done { build } => CargoBuildView::Done { build: build.deep_view() },
            CargoBuild::Failed { error } => CargoBuildView::Failed { error: error.deep_view() },
        }
    }
}

/// The build after an event. An event that does not belong to the state
/// changes nothing.
pub open spec fn cargo_step(state: CargoBuildView, event: CargoEvent) -> CargoBuildView {
    match (state, event) {
        (CargoBuildView::Checking, CargoEvent::Manifest { exists, shown }) => if exists {
            CargoBuildView::Probing
        } else {
            CargoBuildView::Failed {
                error: InstrumentErrorView {
                    stage: "cargo project"@,
                    stderr: "Cargo.toml not found at "@ + shown@,
                },
            }
        },
        (CargoBuildView::Probing, CargoEvent::CargoRan { outcome }) => match metadata_result(
            outcome,
        ) {
            Ok(workspace_root) => CargoBuildView::Building { workspace_root },
            Err(error) => CargoBuildView::Failed { error },
        },
        (CargoBuildView::Building { workspace_root }, CargoEvent::CargoRan { outcome }) =>
            match build_result(outcome) {
                Ok(candidates) => CargoBuildView::Pairing { workspace_root, candidates },
                Err(error) => CargoBuildView::Failed { error },
            },
        (
            CargoBuildView::Pairing { workspace_root, candidates },
            CargoEvent::Looked { found },
        ) => if found@.len() != candidates.len() {
            state
        } else {
            let test_artifacts = artifacts_upto(candidates, found@, candidates.len() as int);
            if test_artifacts.len() > 0 {
                CargoBuildView::Done { build: BuildView { workspace_root, test_artifacts } }
            } else {
                CargoBuildView::Failed {
                    error: InstrumentErrorView {
                        stage: "cargo build --tests"@,
                        stderr:
                            "no test artifacts produced; does the project have any #[test] functions?"@,
                    },
                }
            }
        },
        _ => state,
    }
}

/// Takes the build of a cargo project one event further.
pub fn compile_cargo_project(state: CargoBuild, event: CargoEvent) -> (r: CargoBuild)
    ensures
        r.deep_view() == cargo_step(state.deep_view(), event),
{
    match (state, event) {
        (CargoBuild::Checking, CargoEvent::Manifest { exists, shown }) => match check_manifest(
            exists,
            shown.as_str(),
        ) {
            Ok(()) => CargoBuild::Probing,
            Err(error) => CargoBuild::Failed { error },
        },
        (CargoBuild::Probing, CargoEvent::CargoRan { outcome }) => match workspace_root(outcome) {
            Ok(workspace_root) => CargoBuild::Building { workspace_root },
            Err(error) => CargoBuild::Failed { error },
        },
        (CargoBuild::Building { workspace_root }, CargoEvent::CargoRan { outcome }) =>
            match built_candidates(outcome) {
                Ok(candidates) => CargoBuild::Pairing { workspace_root, candidates },
                Err(error) => CargoBuild::Failed { error },
            },
        (CargoBuild::Pairing { workspace_root, candidates }, CargoEvent::Looked { found }) => {
            if found.len() != candidates.len() {
                return CargoBuild::Pairing { workspace_root, candidates };
            }
            match collect_artifacts(workspace_root, &candidates, &found) {
                Ok(build) => CargoBuild::Done { build },
                Err(error) => CargoBuild::Failed { error },
            }
        },
        (state, _) => state,
    }
}

/// A finished build stays as it is.
pub proof fn finished_build_stays(state: CargoBuildView, event: CargoEvent)
    requires
        state is Done || state is Failed,
    ensures
        cargo_step(state, event) == state,
{
}

/// Every artifact of a finished pairing is a binary that cargo reported, with
/// the path of the MIR file beside it.
pub proof fn artifacts_pair_binary_and_mir(
    workspace_root: Seq<char>,
    candidates: Seq<CandidateView>,
    event: CargoEvent,
    i: int,
)
    ensures
        cargo_step(
            CargoBuildView::Pairing { workspace_root, candidates },
            event,
        ) matches CargoBuildView::Done { build } ==> build.workspace_root == workspace_root && (0
            <= i < build.test_artifacts.len() ==> {
            let a = build.test_artifacts[i];
            &&& a.mir_path == mir_beside(a.binary_path)
            &&& candidates.contains(
                CandidateView { binary_path: a.binary_path, package_name: a.package_name },
            )
        }),
{
    if let CargoEvent::Looked { found } = event {
        if found@.len() == candidates.len() {
            let n = candidates.len() as int;
            artifacts_are_candidates(candidates, found@, n, i);
        }
    }
}

proof fn artifacts_are_candidates(
    candidates: Seq<CandidateView>,
    found: Seq<bool>,
    n: int,
    i: int,
)
    requires
        n <= candidates.len(),
    ensures
        0 <= i < artifacts_upto(candidates, found, n).len() ==> {
            let a = artifacts_upto(candidates, found, n)[i];
            &&& a.mir_path == mir_beside(a.binary_path)
            &&& candidates.contains(
                CandidateView { binary_path: a.binary_path, package_name: a.package_name },
            )
        },
    decreases n,
{
    if n > 0 {
        artifacts_are_candidates(candidates, found, n - 1, i);
        let c = candidates[n - 1];
        assert(candidates.contains(c));
        assert(c == CandidateView { binary_path: c.binary_path, package_name: c.package_name });
    }
}

/// A build that is done has at least one artifact.
pub proof fn done_build_has_artifacts(state: CargoBuildView, event: CargoEvent)
    requires
        state matches CargoBuildView::Done { build } ==> build.test_artifacts.len() > 0,
    ensures
        cargo_step(state, event) matches CargoBuildView::Done { build }
            ==> build.test_artifacts.len() > 0,
{
}

} // verus!
