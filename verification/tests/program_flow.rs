use floyd::cli::{choose_task, parse_args, resolve_source, Format, Place, Source, Task};
use floyd::command::{
    build_args, exact_args, export_args, list_args, merge_args, metadata_args, rustc_args,
    sysroot_args, Argument,
};
use floyd::instrument::{
    candidate_from, compile_cargo_project, compile_test_target, compile_with_coverage,
    coverage_rustflags, emit_mir, emitted_mir, plan_test_target, plan_with_coverage, rustc_result,
    test_candidates, CargoBuild, CargoEvent, Compilation, ToolOutcome,
};
use floyd::paths::mir_path_of;
use floyd::profile::{CoverageReport, ParseError};
use floyd::runner::{
    list_tests, llvm_tool, parse_test_list, profdata_name, profraw_to_coverage, run,
    run_test_isolated, rustlib_unreadable, sysroot, Ingestion, IngestionEvent, ProcessOutcome,
};

fn args(words: &[&str]) -> Vec<String> {
    words.iter().map(|w| w.to_string()).collect()
}

fn succeeded(stdout: &str) -> ProcessOutcome {
    ProcessOutcome::Succeeded { stdout: stdout.to_string(), stderr: "noise".to_string() }
}

fn crashed(stderr: &str) -> ProcessOutcome {
    ProcessOutcome::Failed { status: "exit status: 1".to_string(), stderr: stderr.to_string() }
}

fn missing(detail: &str) -> ProcessOutcome {
    ProcessOutcome::NotStarted { detail: detail.to_string() }
}

#[test]
fn command_line_is_read() {
    let i = parse_args(&args(&["floyd", "test", "--format=json", "x"])).expect("ok");
    assert!(i.test_mode);
    assert_eq!(i.format, Format::Json);
    assert_eq!(i.path.as_deref(), Some("x"));
    let i = parse_args(&args(&[])).expect("ok");
    assert!(!i.test_mode);
    assert_eq!(i.format, Format::Text);
    assert!(i.path.is_none());
    let i = parse_args(&args(&["a.rs", "--format", "junit"])).expect("ok");
    assert_eq!(i.format, Format::Junit);
    assert_eq!(i.path.as_deref(), Some("a.rs"));
}

#[test]
fn last_format_option_counts() {
    let i = parse_args(&args(&["--format=json", "test", "--format=text"])).expect("ok");
    assert_eq!(i.format, Format::Text);
    assert!(i.test_mode);
}

#[test]
fn wrong_format_options_are_errors() {
    assert_eq!(
        parse_args(&args(&["--format=xml"])).unwrap_err(),
        "unknown --format value: xml (expected text, json, or junit)"
    );
    assert_eq!(
        parse_args(&args(&["test", "--format", "xml"])).unwrap_err(),
        "unknown --format value: xml (expected text, json, or junit)"
    );
    assert_eq!(
        parse_args(&args(&["test", "--format"])).unwrap_err(),
        "--format requires a value"
    );
}

fn place(exists: bool, is_dir: bool, has_manifest: bool, is_manifest: bool, is_rust: bool) -> Place {
    Place::Path {
        shown: "p".to_string(),
        exists,
        is_dir,
        manifest: "p/Cargo.toml".to_string(),
        has_manifest,
        is_manifest,
        is_rust,
    }
}

#[test]
fn places_are_resolved() {
    let cwd = |has_manifest: bool| Place::CurrentDir {
        shown: "/w".to_string(),
        manifest: "/w/Cargo.toml".to_string(),
        has_manifest,
    };
    assert!(matches!(resolve_source(cwd(true)), Ok(Source::Cargo(p)) if p == "/w/Cargo.toml"));
    assert_eq!(
        resolve_source(cwd(false)).unwrap_err(),
        "no Cargo.toml in /w and no path argument given; specify a source file or run from a cargo project"
    );
    assert_eq!(
        resolve_source(place(false, false, false, false, true)).unwrap_err(),
        "source not found: p"
    );
    assert!(matches!(
        resolve_source(place(true, true, true, false, false)),
        Ok(Source::Cargo(p)) if p == "p/Cargo.toml"
    ));
    assert_eq!(
        resolve_source(place(true, true, false, false, false)).unwrap_err(),
        "directory p has no Cargo.toml"
    );
    assert!(matches!(
        resolve_source(place(true, false, false, true, false)),
        Ok(Source::Cargo(p)) if p == "p"
    ));
    assert!(matches!(
        resolve_source(place(true, false, false, false, true)),
        Ok(Source::SingleFile(p)) if p == "p"
    ));
    assert_eq!(
        resolve_source(place(true, false, false, false, false)).unwrap_err(),
        "unsupported source: p (expected a .rs file, a Cargo.toml, or a directory containing one)"
    );
}

#[test]
fn tasks_follow_mode_and_source() {
    let file = || Source::SingleFile("a.rs".to_string());
    let project = || Source::Cargo("Cargo.toml".to_string());
    assert!(matches!(choose_task(true, file()), Task::TestFile(p) if p == "a.rs"));
    assert!(matches!(choose_task(false, file()), Task::Static(p) if p == "a.rs"));
    assert!(matches!(choose_task(true, project()), Task::TestProject(p) if p == "Cargo.toml"));
    assert!(matches!(choose_task(false, project()), Task::Unsupported));
}

#[test]
fn compilations_are_planned() {
    let step = emit_mir(Some("decide"));
    assert_eq!(step.stage, "rustc --emit=mir (lib)");
    assert_eq!(
        step.flags,
        vec!["--edition", "2021", "--crate-type", "lib", "--emit=mir", "-Zmir-include-spans"]
    );
    assert_eq!(step.output, "decide.mir");
    assert_eq!(emit_mir(None).output, "out.mir");

    let (mir, binary) = plan_test_target(Some("decide"));
    assert_eq!(mir.stage, "rustc --test --emit=mir");
    assert_eq!(mir.output, "decide.mir");
    assert!(mir.flags.contains(&"--test"));
    assert_eq!(binary.stage, "rustc --test -Cinstrument-coverage");
    assert_eq!(binary.output, "decide");
    assert!(binary.flags.contains(&"-Zcoverage-options=branch,condition"));

    let (mir, binary) = plan_with_coverage(None);
    assert_eq!(mir.stage, "rustc --emit=mir");
    assert_eq!(mir.output, "out.mir");
    assert_eq!(binary.stage, "rustc -Cinstrument-coverage");
    assert_eq!(binary.output, "out");
    assert!(!binary.flags.contains(&"--test"));
    assert!(coverage_rustflags().contains("--emit=mir,link"));
}

fn fine() -> ToolOutcome {
    ToolOutcome::Succeeded { stdout: Vec::new() }
}

fn broken(stderr: &str) -> ToolOutcome {
    ToolOutcome::Failed { stderr: stderr.to_string() }
}

#[test]
fn compilations_make_both_runs_in_order() {
    for (start, first, second) in [
        (
            compile_test_target("/w", Some("decide")),
            "rustc --test --emit=mir",
            "rustc --test -Cinstrument-coverage",
        ),
        (
            compile_with_coverage("/w", Some("decide")),
            "rustc --emit=mir",
            "rustc -Cinstrument-coverage",
        ),
    ] {
        assert_eq!(start.next_run().expect("a run").stage, first);
        let middle = start.step(fine());
        assert_eq!(middle.next_run().expect("a run").stage, second);
        let end = middle.step(fine());
        assert!(end.next_run().is_none());
        match end {
            Compilation::Done { paths } => {
                assert_eq!(paths.mir_path, "/w/decide.mir");
                assert_eq!(paths.binary_path, "/w/decide");
            }
            other => panic!("{other:?}"),
        }
    }
}

#[test]
fn compilations_end_at_the_first_failure() {
    let first = compile_test_target("/w/", None).step(broken("boom"));
    assert!(first.next_run().is_none());
    match first.step(fine()) {
        Compilation::Failed { error } => {
            assert_eq!((error.stage, error.stderr.as_str()), ("rustc --test --emit=mir", "boom"));
        }
        other => panic!("{other:?}"),
    }
    match compile_with_coverage("", None).step(fine()).step(broken("late")) {
        Compilation::Failed { error } => {
            assert_eq!((error.stage, error.stderr.as_str()), ("rustc -Cinstrument-coverage", "late"));
        }
        other => panic!("{other:?}"),
    }
}

#[test]
fn emitted_mir_is_in_the_work_directory() {
    assert_eq!(emitted_mir("/w", Some("a"), fine()).expect("path"), "/w/a.mir");
    assert_eq!(emitted_mir("/w/", None, fine()).expect("path"), "/w/out.mir");
    let e = emitted_mir("/w", None, broken("boom")).unwrap_err();
    assert_eq!((e.stage, e.stderr.as_str()), ("rustc --emit=mir (lib)", "boom"));
}

#[test]
fn rustc_outcomes_are_judged() {
    assert!(rustc_result("s", ToolOutcome::Succeeded { stdout: Vec::new() }).is_ok());
    let e = rustc_result("s", ToolOutcome::Failed { stderr: "boom".to_string() }).unwrap_err();
    assert_eq!((e.stage, e.stderr.as_str()), ("s", "boom"));
    let e = rustc_result("s", ToolOutcome::NotStarted { detail: "gone".to_string() }).unwrap_err();
    assert_eq!(e.stderr, "could not exec rustc: gone");
    assert_eq!(e.to_string(), "instrument error (s):\ncould not exec rustc: gone");
}

const MESSAGES: &str = "not json\n\
     {\"reason\":\"build-script-executed\",\"package_id\":\"p\"}\n\
     {\"reason\":\"compiler-artifact\",\"target\":{\"test\":false},\"executable\":\"/t/lib\"}\n\
     {\"reason\":\"compiler-artifact\",\"target\":{\"test\":true},\"executable\":null}\n\
     \n\
     {\"reason\":\"compiler-artifact\",\"target\":{\"test\":true},\"executable\":\"/t/one\",\"package_id\":\"one 0.1\"}\n\
     {\"reason\":\"compiler-artifact\",\"target\":{\"test\":true},\"executable\":\"/t/two\"}";

#[test]
fn test_binaries_are_found_in_cargo_messages() {
    let found = test_candidates(MESSAGES.as_bytes());
    assert_eq!(found.len(), 2);
    assert_eq!(found[0].binary_path, "/t/one");
    assert_eq!(found[0].package_name, "one 0.1");
    assert_eq!(found[1].binary_path, "/t/two");
    assert_eq!(found[1].package_name, "?");
    assert!(test_candidates(b"").is_empty());
}

#[test]
fn candidates_need_reason_test_and_executable() {
    let text = |s: &str| Some(s.to_string());
    let c = candidate_from(text("compiler-artifact"), Some(true), text("/b"), None).expect("one");
    assert_eq!((c.binary_path.as_str(), c.package_name.as_str()), ("/b", "?"));
    assert!(candidate_from(text("other"), Some(true), text("/b"), None).is_none());
    assert!(candidate_from(None, Some(true), text("/b"), None).is_none());
    assert!(candidate_from(text("compiler-artifact"), Some(false), text("/b"), None).is_none());
    assert!(candidate_from(text("compiler-artifact"), None, text("/b"), None).is_none());
    assert!(candidate_from(text("compiler-artifact"), Some(true), None, text("p")).is_none());
}

fn ran(stdout: &str) -> CargoEvent {
    CargoEvent::CargoRan { outcome: ToolOutcome::Succeeded { stdout: stdout.as_bytes().to_vec() } }
}

fn manifest(exists: bool) -> CargoEvent {
    CargoEvent::Manifest { exists, shown: "x/Cargo.toml".to_string() }
}

fn built() -> CargoBuild {
    let state = compile_cargo_project(CargoBuild::Checking, manifest(true));
    let state = compile_cargo_project(state, ran("{\"workspace_root\":\"/ws\"}"));
    compile_cargo_project(state, ran(MESSAGES))
}

#[test]
fn project_build_runs_to_its_artifacts() {
    match compile_cargo_project(built(), CargoEvent::Looked { found: vec![false, true] }) {
        CargoBuild::Done { build } => {
            assert_eq!(build.workspace_root, "/ws");
            assert_eq!(build.test_artifacts.len(), 1);
            assert_eq!(build.test_artifacts[0].binary_path, "/t/two");
            assert_eq!(build.test_artifacts[0].mir_path, "/t/two.mir");
            assert_eq!(build.test_artifacts[0].package_name, "?");
        }
        other => panic!("{other:?}"),
    }
}

fn failure(state: CargoBuild) -> (String, String) {
    match state {
        CargoBuild::Failed { error } => (error.stage.to_string(), error.stderr),
        other => panic!("{other:?}"),
    }
}

#[test]
fn project_build_fails_where_a_step_fails() {
    let state = compile_cargo_project(CargoBuild::Checking, manifest(false));
    assert_eq!(
        failure(state),
        ("cargo project".to_string(), "Cargo.toml not found at x/Cargo.toml".to_string())
    );
    let state = compile_cargo_project(CargoBuild::Probing, ran("{}"));
    assert_eq!(
        failure(state),
        ("cargo metadata".to_string(), "could not parse workspace_root".to_string())
    );
    let state = compile_cargo_project(
        CargoBuild::Probing,
        CargoEvent::CargoRan { outcome: ToolOutcome::NotStarted { detail: "gone".to_string() } },
    );
    assert_eq!(
        failure(state),
        ("cargo metadata".to_string(), "could not exec cargo: gone".to_string())
    );
    let state = compile_cargo_project(
        CargoBuild::Building { workspace_root: "/ws".to_string() },
        CargoEvent::CargoRan { outcome: ToolOutcome::Failed { stderr: "boom".to_string() } },
    );
    assert_eq!(failure(state), ("cargo build --tests".to_string(), "boom".to_string()));
    let state =
        compile_cargo_project(built(), CargoEvent::Looked { found: vec![false, false] });
    assert_eq!(
        failure(state),
        (
            "cargo build --tests".to_string(),
            "no test artifacts produced; does the project have any #[test] functions?".to_string()
        )
    );
}

#[test]
fn events_out_of_place_change_nothing() {
    assert!(matches!(
        compile_cargo_project(CargoBuild::Checking, ran("{}")),
        CargoBuild::Checking
    ));
    let state = compile_cargo_project(built(), CargoEvent::Looked { found: vec![true] });
    assert!(matches!(state, CargoBuild::Pairing { .. }));
    assert!(matches!(
        profraw_to_coverage(
            Ingestion::Merging,
            IngestionEvent::Read { report: Err(ParseError::json("eof")) }
        ),
        Ingestion::Merging
    ));
    assert!(matches!(
        profraw_to_coverage(
            Ingestion::Reading { json: "{}".to_string() },
            IngestionEvent::NotText { detail: "x".to_string() }
        ),
        Ingestion::Reading { .. }
    ));
}

#[test]
fn what_the_merge_prints_does_not_matter() {
    let text = profraw_to_coverage(Ingestion::Merging, tool_ran(succeeded("merged")));
    assert!(matches!(text, Ingestion::Exporting));
    let bytes = profraw_to_coverage(
        Ingestion::Merging,
        IngestionEvent::NotText { detail: "bad byte".to_string() },
    );
    assert!(matches!(bytes, Ingestion::Exporting));
}

#[test]
fn sysroot_is_trimmed_or_an_error() {
    assert_eq!(sysroot(succeeded("/root \n")).expect("ok"), "/root");
    assert_eq!(sysroot(missing("gone")).unwrap_err().message, "could not exec: gone");
    assert_eq!(sysroot(crashed("x")).unwrap_err().message, "exit status exit status: 1");
}

#[test]
fn first_tool_that_exists_is_taken() {
    let candidates = vec![("/a".to_string(), false), ("/b".to_string(), true), ("/c".to_string(), true)];
    assert_eq!(llvm_tool("llvm-cov", "/lib", &candidates).expect("found"), "/b");
    let e = llvm_tool("llvm-cov", "/lib", &candidates[..1].to_vec()).unwrap_err();
    assert_eq!(
        e.to_string(),
        "runner error (find_llvm_tool): llvm-cov not found under /lib; install with: rustup component add llvm-tools-preview --toolchain nightly"
    );
    assert_eq!(rustlib_unreadable("/lib", "denied").message, "read /lib: denied");
}

#[test]
fn test_listings_are_read() {
    assert_eq!(
        parse_test_list("tests::a: test\r\ntests::b: test\nbench: benchmark\n2 tests, 1 benchmark\n"),
        vec!["tests::a", "tests::b"]
    );
    assert_eq!(parse_test_list("x: test"), vec!["x"]);
    assert!(parse_test_list("x: test\r").is_empty());
    assert!(parse_test_list("").is_empty());
    assert_eq!(list_tests("/b", succeeded("x: test\n")).expect("ok"), vec!["x"]);
    assert_eq!(
        list_tests("/b", missing("gone")).unwrap_err().message,
        "could not exec /b: gone"
    );
    assert_eq!(
        list_tests("/b", crashed("boom")).unwrap_err().message,
        "binary exited with status exit status: 1; stderr:\nboom"
    );
}

#[test]
fn runs_count_if_they_leave_a_profile() {
    assert!(run_test_isolated("/b", "t", "/p", crashed("assertion"), true).is_ok());
    assert_eq!(
        run_test_isolated("/b", "t", "/p", crashed("boom"), false).unwrap_err().message,
        "no profraw produced at /p for test t; binary stderr:\nboom"
    );
    assert_eq!(
        run_test_isolated("/b", "t", "/p", missing("gone"), true).unwrap_err().message,
        "could not exec /b: gone"
    );
    assert!(run("/b", "/p", succeeded(""), true).is_ok());
    assert_eq!(
        run("/b", "/p", succeeded(""), false).unwrap_err().message,
        "no profraw produced at /p; binary stderr:\nnoise"
    );
    assert_eq!(
        run("/b", "/p", missing("gone"), false).unwrap_err().message,
        "could not exec /b: gone"
    );
}

fn tool_ran(outcome: ProcessOutcome) -> IngestionEvent {
    IngestionEvent::ToolRan { outcome }
}

fn ingestion_error(state: Ingestion) -> String {
    match state {
        Ingestion::Failed { error } => error.to_string(),
        _ => panic!("not failed"),
    }
}

#[test]
fn ingestion_goes_step_by_step() {
    let state = profraw_to_coverage(Ingestion::Merging, tool_ran(succeeded("")));
    let state = profraw_to_coverage(state, tool_ran(succeeded("{}")));
    match &state {
        Ingestion::Reading { json } => assert_eq!(json, "{}"),
        _ => panic!("not reading"),
    }
    let report = CoverageReport { functions: Vec::new() };
    let state = profraw_to_coverage(state, IngestionEvent::Read { report: Ok(report) });
    assert!(matches!(&state, Ingestion::Done { report } if report.functions.is_empty()));
    assert!(matches!(
        profraw_to_coverage(state, tool_ran(crashed("late"))),
        Ingestion::Done { .. }
    ));
}

#[test]
fn ingestion_fails_where_a_step_fails() {
    let merge = |o: ProcessOutcome| profraw_to_coverage(Ingestion::Merging, tool_ran(o));
    assert_eq!(
        ingestion_error(merge(missing("gone"))),
        "runner error (llvm-profdata merge): could not exec: gone"
    );
    assert_eq!(
        ingestion_error(merge(crashed("boom"))),
        "runner error (llvm-profdata merge): boom"
    );
    let export = |e: IngestionEvent| profraw_to_coverage(Ingestion::Exporting, e);
    assert_eq!(
        ingestion_error(export(tool_ran(missing("gone")))),
        "runner error (llvm-cov export): could not exec: gone"
    );
    assert_eq!(
        ingestion_error(export(tool_ran(crashed("boom")))),
        "runner error (llvm-cov export): boom"
    );
    assert_eq!(
        ingestion_error(export(IngestionEvent::NotText { detail: "bad byte".to_string() })),
        "runner error (llvm-cov export): utf8: bad byte"
    );
    let read = profraw_to_coverage(
        Ingestion::Reading { json: "{".to_string() },
        IngestionEvent::Read { report: Err(ParseError::json("eof")) },
    );
    assert_eq!(
        ingestion_error(read),
        "runner error (parse coverage): coverage parse error: JSON: eof"
    );
}

#[test]
fn merged_profiles_are_named_after_raw_ones() {
    assert_eq!(profdata_name(Some("cov-001")), "cov-001.profdata");
    assert_eq!(profdata_name(None), "merged.profdata");
}

#[test]
fn mir_files_stand_beside_their_binaries() {
    assert_eq!(mir_path_of("/t/deps/one-0a1b"), "/t/deps/one-0a1b.mir");
    assert_eq!(mir_path_of("/t/deps/one.exe"), "/t/deps/one.mir");
    assert_eq!(mir_path_of("/t.d/one"), "/t.d/one.mir");
    assert_eq!(mir_path_of("one.two.exe"), "one.two.mir");
    assert_eq!(mir_path_of("/t/.hidden"), "/t/.hidden.mir");
    assert_eq!(mir_path_of("/t/.hidden.exe"), "/t/.hidden.mir");
    assert_eq!(mir_path_of("/t/one."), "/t/one.mir");
    assert_eq!(mir_path_of("/t/one.exe/"), "/t/one.mir");
    assert_eq!(mir_path_of("/t/one/./"), "/t/one.mir");
    for unnamed in ["", "/", ".", "..", "/t/..", "./.", "/."] {
        assert_eq!(mir_path_of(unnamed), unnamed);
    }
}

#[test]
fn mir_paths_are_those_of_the_path_type() {
    for path in [
        "/t/deps/one-0a1b", "/t/deps/one.exe", "/t.d/one", "a.b.c", ".a", ".a.b", "a.", "a.b/",
        "a.b//", "a/./", "a/.", "", "/", ".", "..", "/t/..", "./.", "/.", "...", "a/...", "a..b",
    ] {
        let expected = std::path::Path::new(path).with_extension("mir");
        assert_eq!(mir_path_of(path), expected.to_str().expect("text"), "{path}");
    }
}

fn spelled(list: Vec<Argument<&str>>) -> Vec<String> {
    list.into_iter()
        .map(|a| match a {
            Argument::Word(word) => word.to_string(),
            Argument::Given(value) => format!("<{value}>"),
        })
        .collect()
}

#[test]
fn tools_are_run_with_their_arguments() {
    assert_eq!(
        spelled(rustc_args(&emit_mir(Some("a")), "w/a.mir", "a.rs")),
        [
            "+nightly", "--edition", "2021", "--crate-type", "lib", "--emit=mir",
            "-Zmir-include-spans", "-o", "<w/a.mir>", "<a.rs>",
        ]
    );
    assert_eq!(
        spelled(metadata_args("Cargo.toml")),
        [
            "+nightly", "metadata", "--no-deps", "--format-version=1", "--manifest-path",
            "<Cargo.toml>",
        ]
    );
    assert_eq!(
        spelled(build_args("Cargo.toml")),
        [
            "+nightly", "build", "--tests", "--message-format=json", "--manifest-path",
            "<Cargo.toml>",
        ]
    );
    assert_eq!(spelled(sysroot_args()), ["+nightly", "--print=sysroot"]);
    assert_eq!(spelled(list_args()), ["--list", "--format=terse"]);
    assert_eq!(spelled(exact_args("m::t")), ["--exact", "<m::t>"]);
    assert_eq!(
        spelled(merge_args("t.profraw", "t.profdata")),
        ["merge", "-sparse", "<t.profraw>", "-o", "<t.profdata>"]
    );
    assert_eq!(
        spelled(export_args("t.profdata", "bin")),
        ["export", "--format=text", "--instr-profile", "<t.profdata>", "<bin>"]
    );
}
