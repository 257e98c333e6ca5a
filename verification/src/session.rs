//! The course of a runtime analysis.
//!
//! A [`Session`] says what is to be done next, as an [`Action`], and is taken
//! further by what came of it, as an [`Event`]. Tests are built, the LLVM
//! tools found, and then, artifact by artifact, the MIR is read, the tests
//! are listed, and each test is run on its own and its coverage ingested.
use crate::correlate::{observation_from_coverage, observation_of};
use crate::decision::{decisions_of, decompose, DecisionTree, DecisionTreeView};
use crate::masking::{
    analyze_with_runtime, enumerable, matrix_of, statuses, ConditionObservation, ObservationView,
    RuntimeAnalysis, Variant,
};
use crate::mir::{mir_of_text, parse_text, Mir, MirView};
use crate::ordered::name_seq;
use crate::profile::CoverageReport;
use crate::text::{decimal, push_decimal};
use vstd::prelude::*;
use vstd::string::*;

pub mod laws;

verus! {

/// What is analysed.
#[derive(Debug, Copy, Clone, PartialEq, Eq, Structural)]
pub enum Mode {
    /// A single source file: whatever goes wrong ends the analysis.
    Single,
    /// A cargo project: an artifact without readable decisions is passed
    /// over.
    Project,
}

/// What is to be done next. Artifacts are meant by their position.
#[derive(Debug, Clone)]
pub enum Action {
    /// Build the tests.
    Build,
    /// Find an LLVM tool.
    FindTool {
        /// The tool's name.
        name: &'static str,
    },
    /// Read the MIR of an artifact.
    ReadMir {
        /// The artifact.
        artifact: usize,
    },
    /// List the tests of an artifact.
    ListTests {
        /// The artifact.
        artifact: usize,
    },
    /// Run a test on its own.
    RunTest {
        /// The artifact.
        artifact: usize,
        /// The test.
        test: String,
        /// The file that takes the test's raw profile.
        profraw: String,
    },
    /// Ingest the coverage of a test.
    Ingest {
        /// The artifact.
        artifact: usize,
        /// The file that holds the test's raw profile.
        profraw: String,
    },
    /// Report the analysis.
    Report,
    /// Give up.
    Stop {
        /// Why.
        message: String,
    },
}

/// The model of an [`Action`].
pub enum ActionView {
    Build,
    FindTool { name: Seq<char> },
    ReadMir { artifact: nat },
    ListTests { artifact: nat },
    RunTest { artifact: nat, test: Seq<char>, profraw: Seq<char> },
    Ingest { artifact: nat, profraw: Seq<char> },
    Report,
    Stop { message: Seq<char> },
}

impl DeepView for Action {
    type V = ActionView;

    open spec fn deep_view(&self) -> ActionView {
        match *self {
            Action::Build => ActionView::Build,
            Action::FindTool { name } => ActionView::FindTool { name: name@ },
            Action::ReadMir { artifact } => ActionView::ReadMir { artifact: artifact as nat },
            Action::ListTests { artifact } => ActionView::ListTests { artifact: artifact as nat },
            Action::RunTest { artifact, test, profraw } => ActionView::RunTest {
                artifact: artifact as nat,
                test: test@,
                profraw: profraw@,
            },
            Action::Ingest { artifact, profraw } => ActionView::Ingest {
                artifact: artifact as nat,
                profraw: profraw@,
            },
            Action::Report => ActionView::Report,
            Action::Stop { message } => ActionView::Stop { message: message@ },
        }
    }
}

/// What came of an action.
#[derive(Debug, Clone)]
pub enum Event {
    /// The tests were built.
    Built {
        /// How many artifacts there are.
        artifacts: usize,
    },
    /// The tool was found.
    ToolFound,
    /// The MIR was read.
    MirRead {
        /// Its text.
        text: String,
    },
    /// The MIR could not be read.
    MirUnreadable {
        /// Why.
        detail: String,
    },
    /// The tests were listed.
    Listed {
        /// Their names.
        tests: Vec<String>,
    },
    /// The test was run.
    Ran,
    /// The coverage was ingested.
    Covered {
        /// The coverage of that test alone.
        coverage: CoverageReport,
    },
    /// The action failed.
    Failed {
        /// Why.
        message: String,
    },
}

/// How far an analysis has come.
pub enum StageView {
    Building,
    FindingProfdata,
    FindingCov,
    Reading { artifact: nat },
    Listing { artifact: nat, mir: MirView, tree: DecisionTreeView },
    Running {
        artifact: nat,
        mir: MirView,
        tree: DecisionTreeView,
        names: Seq<Seq<char>>,
        next: nat,
    },
    Ingesting {
        artifact: nat,
        mir: MirView,
        tree: DecisionTreeView,
        names: Seq<Seq<char>>,
        next: nat,
    },
    Finished,
    Failed { message: Seq<char> },
}

/// The model of a [`Session`].
pub struct SessionView {
    pub mode: Mode,
    pub source: Seq<char>,
    pub artifacts: nat,
    pub stage: StageView,
    pub chosen: Option<DecisionTreeView>,
    pub tests: Seq<Seq<char>>,
    pub observations: Seq<ObservationView>,
}

/// The session before anything was done.
pub open spec fn fresh_session(mode: Mode, source: Seq<char>) -> SessionView {
    SessionView {
        mode,
        source,
        artifacts: 0,
        stage: StageView::Building,
        chosen: None,
        tests: seq![],
        observations: seq![],
    }
}

/// A session that has failed.
pub open spec fn failed(s: SessionView, message: Seq<char>) -> SessionView {
    SessionView { stage: StageView::Failed { message }, ..s }
}

/// What is said of a project in which no decision was found.
pub open spec fn no_decisions_message() -> Seq<char> {
    "no recognised decisions in any test target. The engine currently supports `&&`, `||`, `!`, and nested combinations; `if let`, `?`, and `match` patterns are not yet implemented."@
}

/// The session at the start of an artifact. Behind the last artifact it is
/// finished, unless no decision was found.
pub open spec fn at_artifact(s: SessionView, artifact: nat) -> SessionView {
    if artifact < s.artifacts {
        SessionView { stage: StageView::Reading { artifact }, ..s }
    } else if s.chosen is Some {
        SessionView { stage: StageView::Finished, ..s }
    } else {
        failed(s, no_decisions_message())
    }
}

/// The session after the MIR of an artifact was read. The decision that is
/// analysed is that of the first artifact that is not passed over.
pub open spec fn after_mir(s: SessionView, artifact: nat, text: Seq<char>) -> SessionView {
    match mir_of_text(text) {
        Ok(mir) => {
            let tree = DecisionTreeView { decisions: decisions_of(mir.functions) };
            if s.mode == Mode::Project && tree.decisions.len() == 0 {
                at_artifact(s, artifact + 1)
            } else {
                SessionView {
                    stage: StageView::Listing { artifact, mir, tree },
                    chosen: if s.chosen is Some {
                        s.chosen
                    } else {
                        Some(tree)
                    },
                    ..s
                }
            }
        },
        Err(e) => if s.mode == Mode::Project {
            at_artifact(s, artifact + 1)
        } else {
            failed(
                s,
                "parse MIR: "@ + "MIR parse error at line "@ + decimal(e.line) + ": "@ + e.message,
            )
        },
    }
}

/// The session at a test of an artifact. Behind the last test the next
/// artifact begins.
pub open spec fn at_test(
    s: SessionView,
    artifact: nat,
    mir: MirView,
    tree: DecisionTreeView,
    names: Seq<Seq<char>>,
    next: nat,
) -> SessionView {
    if next < names.len() {
        SessionView { stage: StageView::Running { artifact, mir, tree, names, next }, ..s }
    } else {
        at_artifact(s, artifact + 1)
    }
}

/// The session with a test and, if its coverage gives one, its observation.
pub open spec fn with_test(
    s: SessionView,
    name: Seq<char>,
    observation: Option<ObservationView>,
) -> SessionView {
    SessionView {
        tests: s.tests.push(name),
        observations: match observation {
            Some(o) => s.observations.push(o),
            None => s.observations,
        },
        ..s
    }
}

/// The session after an event. An event that does not belong to the stage
/// changes nothing.
pub open spec fn stepped(s: SessionView, event: Event) -> SessionView {
    match (s.stage, event) {
        (StageView::Building, Event::Built { artifacts }) => SessionView {
            artifacts: artifacts as nat,
            stage: StageView::FindingProfdata,
            ..s
        },
        (StageView::FindingProfdata, Event::ToolFound) => SessionView {
            stage: StageView::FindingCov,
            ..s
        },
        (StageView::FindingCov, Event::ToolFound) => at_artifact(s, 0),
        (StageView::Reading { artifact }, Event::MirRead { text }) => after_mir(
            s,
            artifact,
            text@,
        ),
        (StageView::Reading { artifact }, Event::MirUnreadable { detail }) => if s.mode
            == Mode::Project {
            at_artifact(s, artifact + 1)
        } else {
            failed(s, "read MIR: "@ + detail@)
        },
        (StageView::Listing { artifact, mir, tree }, Event::Listed { tests }) => if s.mode
            == Mode::Single && tests@.len() == 0 {
            failed(s, "no #[test] functions found in "@ + s.source)
        } else {
            at_test(s, artifact, mir, tree, name_seq(tests@), 0)
        },
        (StageView::Running { artifact, mir, tree, names, next }, Event::Ran) => SessionView {
            stage: StageView::Ingesting { artifact, mir, tree, names, next },
            ..s
        },
        (
            StageView::Ingesting { artifact, mir, tree, names, next },
            Event::Covered { coverage },
        ) => at_test(
            with_test(
                s,
                names[next as int],
                observation_of(Some(names[next as int]), mir, coverage.deep_view(), tree),
            ),
            artifact,
            mir,
            tree,
            names,
            next + 1,
        ),
        (StageView::Finished, _) => s,
        (StageView::Failed { .. }, _) => s,
        (StageView::Reading { .. }, Event::Failed { .. }) => s,
        (_, Event::Failed { message }) => failed(s, message@),
        _ => s,
    }
}

/// A number with at least three digits.
pub open spec fn three_digits(n: nat) -> Seq<char> {
    if n < 10 {
        "00"@ + decimal(n)
    } else if n < 100 {
        "0"@ + decimal(n)
    } else {
        decimal(n)
    }
}

/// The file that takes the raw profile of a test.
pub open spec fn profraw_file(mode: Mode, artifact: nat, test: nat) -> Seq<char> {
    match mode {
        Mode::Single => "cov-"@ + three_digits(test) + ".profraw"@,
        Mode::Project => "cov-"@ + three_digits(artifact) + "-"@ + three_digits(test)
            + ".profraw"@,
    }
}

/// What a session asks for next.
pub open spec fn next_action(s: SessionView) -> ActionView {
    match s.stage {
        StageView::Building => ActionView::Build,
        StageView::FindingProfdata => ActionView::FindTool { name: "llvm-profdata"@ },
        StageView::FindingCov => ActionView::FindTool { name: "llvm-cov"@ },
        StageView::Reading { artifact } => ActionView::ReadMir { artifact },
        StageView::Listing { artifact, .. } => ActionView::ListTests { artifact },
        StageView::Running { artifact, names, next, .. } => ActionView::RunTest {
            artifact,
            test: names[next as int],
            profraw: profraw_file(s.mode, artifact, next),
        },
        StageView::Ingesting { artifact, next, .. } => ActionView::Ingest {
            artifact,
            profraw: profraw_file(s.mode, artifact, next),
        },
        StageView::Finished => ActionView::Report,
        StageView::Failed { message } => ActionView::Stop { message },
    }
}

// ---------------------------------------------------------------------------
// The session
// ---------------------------------------------------------------------------

/// How far an analysis has come.
enum Stage {
    Building,
    FindingProfdata,
    FindingCov,
    Reading { artifact: usize },
    Listing { artifact: usize, mir: Mir, tree: DecisionTree },
    Running { artifact: usize, mir: Mir, tree: DecisionTree, names: Vec<String>, next: usize },
    Ingesting { artifact: usize, mir: Mir, tree: DecisionTree, names: Vec<String>, next: usize },
    Finished,
    Failed { message: String },
}

impl DeepView for Stage {
    type V = StageView;

    closed spec fn deep_view(&self) -> StageView {
        match *self {
            Stage::Building => StageView::Building,
            Stage::FindingProfdata => StageView::FindingProfdata,
            Stage::FindingCov => StageView::FindingCov,
            Stage::Reading { artifact } => StageView::Reading { artifact: artifact as nat },
            Stage::Listing { artifact, mir, tree } => StageView::Listing {
                artifact: artifact as nat,
                mir: mir.deep_view(),
                tree: tree.deep_view(),
            },
            Stage::Running { artifact, mir, tree, names, next } => StageView::Running {
                artifact: artifact as nat,
                mir: mir.deep_view(),
                tree: tree.deep_view(),
                names: name_seq(names@),
                next: next as nat,
            },
            Stage::Ingesting { artifact, mir, tree, names, next } => StageView::Ingesting {
                artifact: artifact as nat,
                mir: mir.deep_view(),
                tree: tree.deep_view(),
                names: name_seq(names@),
                next: next as nat,
            },
            Stage::Finished => StageView::Finished,
            Stage::Failed { message } => StageView::Failed { message: message@ },
        }
    }
}

/// The position of a stage lies within the artifacts and tests.
spec fn stage_in_range(stage: Stage, artifacts: usize) -> bool {
    match stage {
        Stage::Reading { artifact } => artifact < artifacts,
        Stage::Listing { artifact, .. } => artifact < artifacts,
        Stage::Running { artifact, names, next, .. } => artifact < artifacts && next < names@.len(),
        Stage::Ingesting { artifact, names, next, .. } => artifact < artifacts && next
            < names@.len(),
        _ => true,
    }
}

/// What a session has gathered: the decision that is analysed, the tests that
/// were run, and their observations.
struct Gathered {
    chosen: Option<DecisionTree>,
    tests: Vec<String>,
    observations: Vec<ConditionObservation>,
}

/// A runtime analysis in its course.
pub struct Session {
    mode: Mode,
    source: String,
    artifacts: usize,
    stage: Stage,
    gathered: Gathered,
}

impl DeepView for Session {
    type V = SessionView;

    closed spec fn deep_view(&self) -> SessionView {
        SessionView {
            mode: self.mode,
            source: self.source@,
            artifacts: self.artifacts as nat,
            stage: self.stage.deep_view(),
            chosen: self.gathered.chosen.deep_view(),
            tests: name_seq(self.gathered.tests@),
            observations: self.gathered.observations.deep_view(),
        }
    }
}

/// Text behind a prefix.
fn prefixed(prefix: &str, text: &str) -> (r: String)
    ensures
        r@ == prefix@ + text@,
{
    let mut out = String::new();
    out.append(prefix);
    out.append(text);
    assert(out@ =~= prefix@ + text@);
    out
}

/// Appends a number with at least three digits.
fn push_three_digits(out: &mut String, n: usize)
    ensures
        final(out)@ == old(out)@ + three_digits(n as nat),
{
    if n < 10 {
        out.append("00");
    } else if n < 100 {
        out.append("0");
    }
    push_decimal(out, n as u128);
    assert(out@ =~= old(out)@ + three_digits(n as nat));
}

/// The file that takes the raw profile of a test.
fn profraw_name(mode: Mode, artifact: usize, test: usize) -> (r: String)
    ensures
        r@ == profraw_file(mode, artifact as nat, test as nat),
{
    let mut out = String::new();
    out.append("cov-");
    match mode {
        Mode::Single => {},
        Mode::Project => {
            push_three_digits(&mut out, artifact);
            out.append("-");
        },
    }
    push_three_digits(&mut out, test);
    out.append(".profraw");
    assert(out@ =~= profraw_file(mode, artifact as nat, test as nat));
    out
}

/// The stage at the start of an artifact.
fn artifact_stage(artifact: usize, artifacts: usize, chosen: bool) -> (r: Stage)
    ensures
        stage_in_range(r, artifacts),
        r.deep_view() == (if artifact < artifacts {
            StageView::Reading { artifact: artifact as nat }
        } else if chosen {
            StageView::Finished
        } else {
            StageView::Failed { message: no_decisions_message() }
        }),
{
    if artifact < artifacts {
        Stage::Reading { artifact }
    } else if chosen {
        Stage::Finished
    } else {
        Stage::Failed {
            message:
                "no recognised decisions in any test target. The engine currently supports `&&`, `||`, `!`, and nested combinations; `if let`, `?`, and `match` patterns are not yet implemented.".to_owned(),
        }
    }
}

/// The stage at a test of an artifact.
fn test_stage(
    artifact: usize,
    artifacts: usize,
    chosen: bool,
    mir: Mir,
    tree: DecisionTree,
    names: Vec<String>,
    next: usize,
) -> (r: Stage)
    requires
        artifact < artifacts,
    ensures
        stage_in_range(r, artifacts),
        r.deep_view() == (if next < names@.len() {
            StageView::Running {
                artifact: artifact as nat,
                mir: mir.deep_view(),
                tree: tree.deep_view(),
                names: name_seq(names@),
                next: next as nat,
            }
        } else if artifact + 1 < artifacts {
            StageView::Reading { artifact: (artifact + 1) as nat }
        } else if chosen {
            StageView::Finished
        } else {
            StageView::Failed { message: no_decisions_message() }
        }),
{
    if next < names.len() {
        Stage::Running { artifact, mir, tree, names, next }
    } else {
        artifact_stage(artifact + 1, artifacts, chosen)
    }
}

impl Session {
    /// The position of the stage lies within the artifacts and tests.
    #[verifier::type_invariant]
    closed spec fn in_range(self) -> bool {
        stage_in_range(self.stage, self.artifacts)
    }

    /// A session before anything was done. `source` is what is analysed, as
    /// text.
    pub fn new(mode: Mode, source: String) -> (r: Session)
        ensures
            r.deep_view() == fresh_session(mode, source@),
    {
        let r = Session {
            mode,
            source,
            artifacts: 0,
            stage: Stage::Building,
            gathered: Gathered { chosen: None, tests: Vec::new(), observations: Vec::new() },
        };
        assert(name_seq(r.gathered.tests@) =~= seq![]);
        assert(r.gathered.observations.deep_view() =~= seq![]);
        r
    }

    /// What is to be done next.
    pub fn action(&self) -> (r: Action)
        ensures
            r.deep_view() == next_action(self.deep_view()),
    {
        proof {
            use_type_invariant(self);
        }
        match &self.stage {
            Stage::Building => Action::Build,
            Stage::FindingProfdata => Action::FindTool { name: "llvm-profdata" },
            Stage::FindingCov => Action::FindTool { name: "llvm-cov" },
            Stage::Reading { artifact } => Action::ReadMir { artifact: *artifact },
            Stage::Listing { artifact, .. } => Action::ListTests { artifact: *artifact },
            Stage::Running { artifact, names, next, .. } => Action::RunTest {
                artifact: *artifact,
                test: names[*next].clone(),
                profraw: profraw_name(self.mode, *artifact, *next),
            },
            Stage::Ingesting { artifact, next, .. } => Action::Ingest {
                artifact: *artifact,
                profraw: profraw_name(self.mode, *artifact, *next),
            },
            Stage::Finished => Action::Report,
            Stage::Failed { message } => Action::Stop { message: message.clone() },
        }
    }

    /// Takes the session further by what came of its last action.
    pub fn step(self, event: Event) -> (r: Session)
        ensures
            r.deep_view() == stepped(self.deep_view(), event),
    {
        proof {
            use_type_invariant(&self);
        }
        let ghost before = self.deep_view();
        let Session { mode, source, artifacts, stage, gathered } = self;
        let has_chosen = gathered.chosen.is_some();
        match (stage, event) {
            (Stage::Building, Event::Built { artifacts }) => Session {
                mode,
                source,
                artifacts,
                stage: Stage::FindingProfdata,
                gathered,
            },
            (Stage::FindingProfdata, Event::ToolFound) => Session {
                mode,
                source,
                artifacts,
                stage: Stage::FindingCov,
                gathered,
            },
            (Stage::FindingCov, Event::ToolFound) => {
                let stage = artifact_stage(0, artifacts, has_chosen);
                Session { mode, source, artifacts, stage, gathered }
            },
            (Stage::Reading { artifact }, Event::MirRead { text }) => {
                let (stage, gathered) = read_mir(mode, artifact, artifacts, text, gathered);
                let r = Session { mode, source, artifacts, stage, gathered };
                assert(r.deep_view() == after_mir(before, artifact as nat, text@));
                r
            },
            (Stage::Reading { artifact }, Event::MirUnreadable { detail }) => {
                let stage = match mode {
                    Mode::Project => artifact_stage(artifact + 1, artifacts, has_chosen),
                    Mode::Single => Stage::Failed {
                        message: prefixed("read MIR: ", detail.as_str()),
                    },
                };
                Session { mode, source, artifacts, stage, gathered }
            },
            (Stage::Listing { artifact, mir, tree }, Event::Listed { tests }) => {
                let stage = if mode == Mode::Single && tests.len() == 0 {
                    Stage::Failed {
                        message: prefixed("no #[test] functions found in ", source.as_str()),
                    }
                } else {
                    test_stage(artifact, artifacts, has_chosen, mir, tree, tests, 0)
                };
                Session { mode, source, artifacts, stage, gathered }
            },
            (Stage::Running { artifact, mir, tree, names, next }, Event::Ran) => Session {
                mode,
                source,
                artifacts,
                stage: Stage::Ingesting { artifact, mir, tree, names, next },
                gathered,
            },
            (
                Stage::Ingesting { artifact, mir, tree, names, next },
                Event::Covered { coverage },
            ) => {
                let count: usize = names.len();
                assert(next < count);
                let Gathered { chosen, tests, observations } = gathered;
                let ghost old_tests = name_seq(tests@);
                let ghost old_observations = observations.deep_view();
                let mut tests = tests;
                let mut observations = observations;
                let name = names[next].clone();
                let label = names[next].clone();
                assert(name_seq(names@)[next as int] == name@);
                let observation = observation_from_coverage(Some(label), &mir, &coverage, &tree);
                tests.push(name);
                assert(name_seq(tests@) =~= old_tests.push(name@));
                if let Some(o) = observation {
                    observations.push(o);
                    assert(observations.deep_view() =~= old_observations.push(o.deep_view()));
                }
                let stage = test_stage(
                    artifact,
                    artifacts,
                    has_chosen,
                    mir,
                    tree,
                    names,
                    next + 1,
                );
                Session {
                    mode,
                    source,
                    artifacts,
                    stage,
                    gathered: Gathered { chosen, tests, observations },
                }
            },
            (Stage::Building, Event::Failed { message }) => Session {
                mode,
                source,
                artifacts,
                stage: Stage::Failed { message },
                gathered,
            },
            (Stage::FindingProfdata, Event::Failed { message }) => Session {
                mode,
                source,
                artifacts,
                stage: Stage::Failed { message },
                gathered,
            },
            (Stage::FindingCov, Event::Failed { message }) => Session {
                mode,
                source,
                artifacts,
                stage: Stage::Failed { message },
                gathered,
            },
            (Stage::Listing { .. }, Event::Failed { message }) => Session {
                mode,
                source,
                artifacts,
                stage: Stage::Failed { message },
                gathered,
            },
            (Stage::Running { .. }, Event::Failed { message }) => Session {
                mode,
                source,
                artifacts,
                stage: Stage::Failed { message },
                gathered,
            },
            (Stage::Ingesting { .. }, Event::Failed { message }) => Session {
                mode,
                source,
                artifacts,
                stage: Stage::Failed { message },
                gathered,
            },
            (stage, _) => Session { mode, source, artifacts, stage, gathered },
        }
    }

    /// The tests that were run, in order.
    pub fn tests(&self) -> (r: &Vec<String>)
        ensures
            name_seq(r@) == self.deep_view().tests,
    {
        &self.gathered.tests
    }

    /// The observations of the tests that gave one, in order.
    pub fn observations(&self) -> (r: &Vec<ConditionObservation>)
        ensures
            r.deep_view() == self.deep_view().observations,
    {
        &self.gathered.observations
    }

    /// The decision that is analysed, if one was found.
    pub fn chosen(&self) -> (r: Option<&DecisionTree>)
        ensures
            r.deep_view() == self.deep_view().chosen,
    {
        match &self.gathered.chosen {
            Some(tree) => Some(tree),
            None => None,
        }
    }

    /// Analyses what was gathered, if a decision was found.
    pub fn analysis(&self) -> (r: Option<RuntimeAnalysis>)
        requires
            self.deep_view().chosen matches Some(tree) ==> enumerable(tree),
        ensures
            match self.deep_view().chosen {
                Some(tree) => r matches Some(a) && a.deep_view().matrix == matrix_of(
                    tree.decisions,
                    Variant::Masking,
                ) && a.deep_view().condition_status == statuses(
                    a.deep_view().matrix,
                    self.deep_view().observations,
                ),
                None => r is None,
            },
    {
        match &self.gathered.chosen {
            Some(tree) => Some(
                analyze_with_runtime(
                    tree,
                    self.gathered.observations.as_slice(),
                    Variant::Masking,
                ),
            ),
            None => None,
        }
    }
}

/// Takes up the MIR of an artifact.
fn read_mir(
    mode: Mode,
    artifact: usize,
    artifacts: usize,
    text: String,
    gathered: Gathered,
) -> (r: (Stage, Gathered))
    requires
        artifact < artifacts,
    ensures
        stage_in_range(r.0, artifacts),
        r.1.tests == gathered.tests,
        r.1.observations == gathered.observations,
        forall|s: SessionView|
            #![trigger after_mir(s, artifact as nat, text@)]
            s.mode == mode && s.artifacts == artifacts && s.chosen == gathered.chosen.deep_view()
                ==> after_mir(s, artifact as nat, text@) == (SessionView {
                stage: r.0.deep_view(),
                chosen: r.1.chosen.deep_view(),
                ..s
            }),
{
    let has_chosen = gathered.chosen.is_some();
    match parse_text(text.as_str()) {
        Ok(mir) => {
            let tree = decompose(&mir);
            assert(tree.deep_view() == (DecisionTreeView {
                decisions: decisions_of(mir.deep_view().functions),
            }));
            assert(tree.deep_view().decisions.len() == tree.decisions@.len());
            if mode == Mode::Project && tree.decisions.len() == 0 {
                return (artifact_stage(artifact + 1, artifacts, has_chosen), gathered);
            }
            let Gathered { chosen, tests, observations } = gathered;
            let chosen = match chosen {
                Some(t) => Some(t),
                None => Some(tree.duplicate()),
            };
            (Stage::Listing { artifact, mir, tree }, Gathered { chosen, tests, observations })
        },
        Err(e) => match mode {
            Mode::Project => (artifact_stage(artifact + 1, artifacts, has_chosen), gathered),
            Mode::Single => {
                let message = prefixed("parse MIR: ", e.to_string().as_str());
                assert(message@ =~= "parse MIR: "@ + "MIR parse error at line "@ + decimal(
                    e.line as nat,
                ) + ": "@ + e.message@);
                (Stage::Failed { message }, gathered)
            },
        },
    }
}

// ---------------------------------------------------------------------------
// Laws
// ---------------------------------------------------------------------------

/// A session that is finished or has failed stays as it is.
pub proof fn ended_session_stays(s: SessionView, event: Event)
    requires
        s.stage is Finished || s.stage is Failed,
    ensures
        stepped(s, event) == s,
{
}

/// Once a decision is chosen it stays.
pub proof fn chosen_decision_stays(s: SessionView, event: Event)
    requires
        s.chosen is Some,
    ensures
        stepped(s, event).chosen == s.chosen,
{
}

/// What was gathered is kept: tests and observations are only ever added at
/// the end, a test at a time, and never more observations than tests.
pub proof fn gathered_is_kept(s: SessionView, event: Event)
    requires
        s.observations.len() <= s.tests.len(),
    ensures
        s.tests.is_prefix_of(stepped(s, event).tests),
        s.observations.is_prefix_of(stepped(s, event).observations),
        stepped(s, event).tests.len() <= s.tests.len() + 1,
        stepped(s, event).observations.len() <= stepped(s, event).tests.len(),
{
}

/// A project's decision is never empty, and a finished session has one.
pub proof fn project_decision_is_not_empty(s: SessionView, event: Event)
    requires
        s.mode == Mode::Project,
        s.chosen matches Some(t) ==> t.decisions.len() > 0,
        s.stage is Finished ==> s.chosen is Some,
    ensures
        stepped(s, event).chosen matches Some(t) ==> t.decisions.len() > 0,
        stepped(s, event).stage is Finished ==> stepped(s, event).chosen is Some,
{
}

/// In a project an artifact whose MIR cannot be read is passed over: the
/// session neither fails on it nor loses what it has.
pub proof fn unreadable_artifact_is_passed_over(s: SessionView, artifact: nat, detail: String)
    requires
        s.mode == Mode::Project,
        s.stage == (StageView::Reading { artifact }),
        artifact + 1 < s.artifacts,
    ensures
        stepped(s, Event::MirUnreadable { detail }) == (SessionView {
            stage: StageView::Reading { artifact: artifact + 1 },
            ..s
        }),
{
}

} // verus!
