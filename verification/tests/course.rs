use floyd::inspection::{inspect, recover_decisions, Inspection};
use floyd::masking::{is_enumerable, ConditionStatus};
use floyd::cli::Format;
use floyd::profile::{Branch, CoverageReport, FunctionCoverage};
use floyd::mir::SourceSpan;
use floyd::session::{Action, Event, Mode, Session};

const AND: &str = r#"
fn decide(_1: bool, _2: bool) -> bool {
    debug a => _1;
    debug b => _2;
    let mut _0: bool;

    bb0: {
        switchInt(copy _1) -> [0: bb2, otherwise: bb1]; // scope 0 at x.rs:2:5: 2:6
    }

    bb1: {
        _0 = copy _2; // scope 0 at x.rs:2:10: 2:11
        goto -> bb3;
    }

    bb2: {
        _0 = const false;
        goto -> bb3;
    }

    bb3: {
        return;
    }
}
"#;

const NO_DECISION: &str = "fn f() {\n    bb0: {\n        return;\n    }\n}\n";

fn branch(col: u32, true_count: u64, false_count: u64) -> Branch {
    Branch {
        span: SourceSpan {
            file: "x.rs".to_string(),
            start_line: 2,
            start_col: col,
            end_line: 2,
            end_col: col + 1,
        },
        true_count,
        false_count,
        kind: Branch::KIND_BRANCH,
    }
}

fn coverage(a: (u64, u64), b: (u64, u64)) -> CoverageReport {
    CoverageReport {
        functions: vec![FunctionCoverage {
            name: "decide".to_string(),
            count: 1,
            filenames: vec!["x.rs".to_string()],
            branches: vec![branch(5, a.0, a.1), branch(10, b.0, b.1)],
        }],
    }
}

fn tooled(mode: Mode, artifacts: usize) -> Session {
    Session::new(mode, "src".to_string())
        .step(Event::Built { artifacts })
        .step(Event::ToolFound)
        .step(Event::ToolFound)
}

fn listed(names: &[&str]) -> Event {
    Event::Listed { tests: names.iter().map(|n| n.to_string()).collect() }
}

fn read(text: &str) -> Event {
    Event::MirRead { text: text.to_string() }
}

fn failed(message: &str) -> Event {
    Event::Failed { message: message.to_string() }
}

fn stopped(session: &Session) -> String {
    match session.action() {
        Action::Stop { message } => message,
        other => panic!("{other:?}"),
    }
}

#[test]
fn session_of_a_file_runs_to_its_report() {
    let s = Session::new(Mode::Single, "src".to_string());
    assert!(matches!(s.action(), Action::Build));
    let s = s.step(Event::Built { artifacts: 1 });
    assert!(matches!(s.action(), Action::FindTool { name: "llvm-profdata" }));
    let s = s.step(Event::ToolFound);
    assert!(matches!(s.action(), Action::FindTool { name: "llvm-cov" }));
    let s = s.step(Event::ToolFound);
    assert!(matches!(s.action(), Action::ReadMir { artifact: 0 }));
    let s = s.step(read(AND));
    assert!(matches!(s.action(), Action::ListTests { artifact: 0 }));
    let s = s.step(listed(&["ff", "tt"]));
    match s.action() {
        Action::RunTest { artifact, test, profraw } => {
            assert_eq!(artifact, 0);
            assert_eq!(test, "ff");
            assert_eq!(profraw, "cov-000.profraw");
        }
        other => panic!("{other:?}"),
    }
    let s = s.step(Event::Ran);
    assert!(matches!(s.action(), Action::Ingest { artifact: 0, profraw } if profraw == "cov-000.profraw"));
    let s = s.step(Event::Covered { coverage: coverage((0, 1), (0, 0)) });
    assert!(matches!(s.action(), Action::RunTest { test, profraw, .. } if test == "tt" && profraw == "cov-001.profraw"));
    let s = s.step(Event::Ran).step(Event::Covered { coverage: coverage((1, 0), (1, 0)) });
    assert!(matches!(s.action(), Action::Report));
    assert_eq!(s.tests(), &vec!["ff".to_string(), "tt".to_string()]);
    assert_eq!(s.observations().len(), 2);
    assert_eq!(s.observations()[0].inputs.len(), 1);
    assert_eq!(s.observations()[0].inputs.get("a"), Some(&false));
    assert!(!s.observations()[0].result);
    assert!(s.observations()[1].result);
    assert!(is_enumerable(s.chosen().expect("tree")));
    let analysis = s.analysis().expect("analysis");
    assert!(matches!(analysis.condition_status.get("a"), Some(ConditionStatus::Exercised(_))));
    assert!(matches!(analysis.condition_status.get("b"), Some(ConditionStatus::Unexercised)));
}

#[test]
fn session_of_a_file_stops_where_something_is_wrong() {
    assert_eq!(
        stopped(&Session::new(Mode::Single, "src".to_string()).step(failed("no build"))),
        "no build"
    );
    let s = tooled(Mode::Single, 1);
    assert_eq!(
        stopped(&s.step(Event::MirUnreadable { detail: "gone".to_string() })),
        "read MIR: gone"
    );
    assert_eq!(
        stopped(&tooled(Mode::Single, 1).step(read("fn x {\n"))),
        "parse MIR: MIR parse error at line 1: expected fn header, got: fn x {"
    );
    assert_eq!(
        stopped(&tooled(Mode::Single, 1).step(read(AND)).step(listed(&[]))),
        "no #[test] functions found in src"
    );
    assert_eq!(
        stopped(&tooled(Mode::Single, 1).step(read(AND)).step(listed(&["t"])).step(failed("no run"))),
        "no run"
    );
    assert_eq!(
        stopped(
            &tooled(Mode::Single, 1)
                .step(read(AND))
                .step(listed(&["t"]))
                .step(Event::Ran)
                .step(failed("no coverage"))
        ),
        "no coverage"
    );
}

#[test]
fn session_of_a_project_passes_over_what_it_cannot_use() {
    let s = tooled(Mode::Project, 4)
        .step(Event::MirUnreadable { detail: "gone".to_string() })
        .step(read("fn x {\n"))
        .step(read(NO_DECISION));
    assert!(matches!(s.action(), Action::ReadMir { artifact: 3 }));
    assert!(s.chosen().is_none());
    let s = s.step(read(AND)).step(listed(&["t"]));
    assert!(matches!(s.action(), Action::RunTest { artifact: 3, profraw, .. } if profraw == "cov-003-000.profraw"));
    let s = s.step(Event::Ran).step(Event::Covered { coverage: CoverageReport { functions: Vec::new() } });
    assert!(matches!(s.action(), Action::Report));
    assert_eq!(s.tests().len(), 1);
    assert!(s.observations().is_empty());
    assert!(s.analysis().is_some());
}

#[test]
fn project_without_decisions_stops() {
    let s = tooled(Mode::Project, 1).step(read(NO_DECISION));
    assert!(stopped(&s).starts_with("no recognised decisions in any test target. The engine"));
    assert!(s.analysis().is_none());
}

#[test]
fn artifact_without_tests_is_followed_by_the_next() {
    let s = tooled(Mode::Project, 2).step(read(AND)).step(listed(&[]));
    assert!(matches!(s.action(), Action::ReadMir { artifact: 1 }));
}

#[test]
fn file_without_decisions_is_analysed_all_the_same() {
    let s = tooled(Mode::Single, 1).step(read(NO_DECISION)).step(listed(&["t"]));
    assert!(matches!(s.action(), Action::RunTest { .. }));
    assert_eq!(s.chosen().expect("tree").decisions.len(), 0);
}

#[test]
fn ended_sessions_stay_and_stray_events_change_nothing() {
    let s = Session::new(Mode::Single, "src".to_string()).step(failed("x")).step(Event::ToolFound);
    assert_eq!(stopped(&s), "x");
    let s = tooled(Mode::Single, 1).step(Event::Ran).step(failed("x"));
    assert!(matches!(s.action(), Action::ReadMir { artifact: 0 }));
}

#[test]
fn static_analysis_is_shown_in_its_format() {
    let tree = recover_decisions(AND).expect("tree");
    match inspect("x.rs", &tree, Format::Text) {
        Inspection::Text(text) => assert!(text.starts_with("floyd  static MC/DC analysis of x.rs\n")),
        other => panic!("{other:?}"),
    }
    match inspect("x.rs", &tree, Format::Json) {
        Inspection::Matrix(m) => assert_eq!(m.conditions, vec!["a", "b"]),
        other => panic!("{other:?}"),
    }
    match inspect("x.rs", &tree, Format::Junit) {
        Inspection::Refused { message } => assert_eq!(
            message,
            "--format=junit is only meaningful in runtime mode (use `cargo floyd test`). Static analysis has no test verdicts to render."
        ),
        other => panic!("{other:?}"),
    }
    assert_eq!(
        recover_decisions("fn x {\n").unwrap_err(),
        "parse MIR: MIR parse error at line 1: expected fn header, got: fn x {"
    );
}
