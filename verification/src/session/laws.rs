//! What holds of every course of a runtime analysis.
use crate::correlate::observation_of;
use crate::decision::decisions_of;
use crate::mir::mir_of_text;
use crate::ordered::name_seq;
use crate::session::{
    fresh_session, next_action, profraw_file, stepped, three_digits, ActionView, Event, Mode,
    SessionView, StageView,
};
use crate::text::{
    all_digits, cut_first_at, decimal, decimal_digits, digits_value, is_digit, occurs_at,
};
use vstd::prelude::*;

verus! {

// ---------------------------------------------------------------------------
// Tests
// ---------------------------------------------------------------------------

/// The tests of the current artifact that are still to be run or ingested.
pub open spec fn pending(stage: StageView) -> Seq<Seq<char>> {
    match stage {
        StageView::Running { names, next, .. } => names.skip(next as int),
        StageView::Ingesting { names, next, .. } => names.skip(next as int),
        _ => seq![],
    }
}

/// The tests that an event lists for the current artifact.
pub open spec fn listed(s: SessionView, event: Event) -> Seq<Seq<char>> {
    match (s.stage, event) {
        (StageView::Listing { .. }, Event::Listed { tests }) => name_seq(tests@),
        _ => seq![],
    }
}

/// Whether the test that a session is at is one of those listed.
pub open spec fn at_a_test(s: SessionView) -> bool {
    match s.stage {
        StageView::Running { names, next, .. } => next < names.len(),
        StageView::Ingesting { names, next, .. } => next < names.len(),
        _ => true,
    }
}

/// No test is lost or run twice: what was run and what is still to be run is,
/// after every event, what it was before, with the tests that the event
/// lists, unless the session fails.
pub proof fn no_test_is_lost(s: SessionView, event: Event)
    requires
        at_a_test(s),
    ensures
        at_a_test(stepped(s, event)),
        !(stepped(s, event).stage is Failed) ==> stepped(s, event).tests + pending(
            stepped(s, event).stage,
        ) == s.tests + pending(s.stage) + listed(s, event),
{
    let n = stepped(s, event);
    if !(n.stage is Failed) {
        match (s.stage, event) {
            (StageView::Ingesting { names, next, .. }, Event::Covered { coverage }) => {
                assert(names.skip(next as int) =~= seq![names[next as int]] + names.skip((next + 1) as int));
                if next + 1 >= names.len() {
                    assert(names.skip((next + 1) as int) =~= seq![]);
                }
                assert(n.tests + pending(n.stage) =~= s.tests + pending(s.stage) + listed(
                    s,
                    event,
                ));
            },
            (StageView::Listing { .. }, Event::Listed { tests }) => {
                let names = name_seq(tests@);
                assert(names.skip(0) =~= names);
                assert(n.tests + pending(n.stage) =~= s.tests + pending(s.stage) + listed(
                    s,
                    event,
                ));
            },
            _ => {
                assert(n.tests + pending(n.stage) =~= s.tests + pending(s.stage) + listed(
                    s,
                    event,
                ));
            },
        }
    }
}

/// After the coverage of a test is ingested, the next test of the artifact is
/// run, if there is one, in both modes.
pub proof fn next_test_follows(
    s: SessionView,
    event: Event,
    names: Seq<Seq<char>>,
    next: nat,
)
    requires
        s.stage matches StageView::Ingesting { names: n, next: k, .. } && n == names && k == next,
        event is Covered,
        next + 1 < names.len(),
    ensures
        stepped(s, event).stage matches StageView::Running {
            artifact,
            mir,
            tree,
            names: n,
            next: k,
        } && n == names && k == next + 1 && artifact == s.stage->Ingesting_artifact && mir
            == s.stage->Ingesting_mir && tree == s.stage->Ingesting_tree,
        stepped(s, event).tests == s.tests.push(names[next as int]),
{
}

/// The session after some events.
pub open spec fn after(s: SessionView, events: Seq<Event>) -> SessionView
    decreases events.len(),
{
    if events.len() == 0 {
        s
    } else {
        stepped(after(s, events.drop_last()), events.last())
    }
}

/// The tests that some events list, artifact after artifact.
pub open spec fn all_listed(s: SessionView, events: Seq<Event>) -> Seq<Seq<char>>
    decreases events.len(),
{
    if events.len() == 0 {
        seq![]
    } else {
        all_listed(s, events.drop_last()) + listed(after(s, events.drop_last()), events.last())
    }
}

proof fn failure_stays(s: SessionView, event: Event)
    requires
        s.stage is Failed,
    ensures
        stepped(s, event) == s,
{
}

proof fn listed_tests_are_run_or_pending(mode: Mode, source: Seq<char>, events: Seq<Event>)
    ensures
        ({
            let s = fresh_session(mode, source);
            let e = after(s, events);
            at_a_test(e) && (!(e.stage is Failed) ==> e.tests + pending(e.stage) == all_listed(
                s,
                events,
            ))
        }),
    decreases events.len(),
{
    let s = fresh_session(mode, source);
    if events.len() > 0 {
        let before = after(s, events.drop_last());
        listed_tests_are_run_or_pending(mode, source, events.drop_last());
        no_test_is_lost(before, events.last());
        if before.stage is Failed {
            failure_stays(before, events.last());
        }
    } else {
        assert(after(s, events) == s);
        assert(s.tests + pending(s.stage) =~= seq![]);
    }
}

/// A session is finished only when every test was run that was listed for
/// any artifact: its tests are the listed ones, artifact after artifact.
pub proof fn finished_session_ran_every_test(mode: Mode, source: Seq<char>, events: Seq<Event>)
    ensures
        ({
            let s = fresh_session(mode, source);
            after(s, events).stage is Finished ==> after(s, events).tests == all_listed(s, events)
        }),
{
    let s = fresh_session(mode, source);
    listed_tests_are_run_or_pending(mode, source, events);
    let e = after(s, events);
    if e.stage is Finished {
        assert(e.tests + pending(e.stage) =~= e.tests);
    }
}

// ---------------------------------------------------------------------------
// Artifacts
// ---------------------------------------------------------------------------

/// The artifact whose turn it is; behind the last one, how many there are.
pub open spec fn turn(s: SessionView) -> nat {
    match s.stage {
        StageView::Reading { artifact } => artifact,
        StageView::Listing { artifact, .. } => artifact,
        StageView::Running { artifact, .. } => artifact,
        StageView::Ingesting { artifact, .. } => artifact,
        StageView::Finished => s.artifacts,
        _ => 0,
    }
}

/// Whether an event ends the work on an artifact: the artifact of a project
/// cannot be read or has no decision, no tests are listed for it, or its last
/// test is ingested.
pub open spec fn ends_artifact(s: SessionView, event: Event) -> bool {
    match (s.stage, event) {
        (StageView::Reading { .. }, Event::MirUnreadable { .. }) => s.mode == Mode::Project,
        (StageView::Reading { .. }, Event::MirRead { text }) => s.mode == Mode::Project && (
        mir_of_text(text@) matches Ok(mir) ==> decisions_of(mir.functions).len() == 0),
        (StageView::Listing { .. }, Event::Listed { tests }) => tests@.len() == 0,
        (StageView::Ingesting { names, next, .. }, Event::Covered { .. }) => next + 1 == names.len(),
        _ => false,
    }
}

/// Whether the artifact of a session is one of those that were built.
pub open spec fn at_an_artifact(s: SessionView) -> bool {
    (s.stage is Reading || s.stage is Listing || s.stage is Running || s.stage is Ingesting)
        ==> turn(s) < s.artifacts
}

/// The artifacts take their turns one after the other, from the first to the
/// last: as long as the session does not fail, the turn goes on by one where
/// the work on an artifact ends, and stays otherwise. Behind the last
/// artifact the session is finished, and not before.
pub proof fn artifacts_take_turns(s: SessionView, event: Event)
    requires
        at_a_test(s),
        at_an_artifact(s),
        s.stage is Reading || s.stage is Listing || s.stage is Running || s.stage is Ingesting,
    ensures
        at_an_artifact(stepped(s, event)),
        stepped(s, event).artifacts == s.artifacts,
        !(stepped(s, event).stage is Failed) ==> {
            &&& turn(stepped(s, event)) == turn(s) + if ends_artifact(s, event) {
                1nat
            } else {
                0nat
            }
            &&& stepped(s, event).stage is Finished <==> turn(stepped(s, event)) == s.artifacts
            &&& ends_artifact(s, event) && turn(s) + 1 < s.artifacts ==> stepped(s, event).stage
                == (StageView::Reading { artifact: turn(s) + 1 })
        },
{
}

/// The work on an artifact fails only by a failed action, in a project only
/// besides at the end where no decision was found at all. A single file
/// fails, too, where its MIR is not readable or it has no tests.
pub proof fn failures_have_a_reason(s: SessionView, event: Event)
    requires
        at_a_test(s),
        !(s.stage is Failed),
        stepped(s, event).stage is Failed,
    ensures
        event is Failed || (s.mode == Mode::Single && (event is MirUnreadable || (
        event matches Event::MirRead { text } && mir_of_text(text@) is Err) || (
        event matches Event::Listed { tests } && tests@.len() == 0))) || (s.chosen is None
            && stepped(s, event).chosen is None && (event is ToolFound || ends_artifact(s, event))),
{
}

/// A failed action ends the session with its message, whatever was being
/// done; what was gathered is kept.
pub proof fn failed_action_ends_the_session(s: SessionView, message: String)
    requires
        !(s.stage is Finished),
        !(s.stage is Failed),
        !(s.stage is Reading),
    ensures
        stepped(s, Event::Failed { message }) == (SessionView {
            stage: StageView::Failed { message: message@ },
            ..s
        }),
{
}

// ---------------------------------------------------------------------------
// What is done
// ---------------------------------------------------------------------------

/// The tests are built and both tools are found before the first artifact is
/// read.
pub proof fn first_artifact_is_read_after_the_tools(
    mode: Mode,
    source: Seq<char>,
    artifacts: usize,
)
    requires
        artifacts > 0,
    ensures
        ({
            let events = seq![Event::Built { artifacts }, Event::ToolFound, Event::ToolFound];
            let e = after(fresh_session(mode, source), events);
            &&& e.artifacts == artifacts
            &&& e.stage == (StageView::Reading { artifact: 0 })
            &&& e.tests.len() == 0 && e.observations.len() == 0 && e.chosen is None
        }),
{
    let s = fresh_session(mode, source);
    let events = seq![Event::Built { artifacts }, Event::ToolFound, Event::ToolFound];
    reveal_with_fuel(after, 4);
    assert(events.drop_last() =~= seq![Event::Built { artifacts }, Event::ToolFound]);
    assert(events.drop_last().drop_last() =~= seq![Event::Built { artifacts }]);
    assert(events.drop_last().drop_last().drop_last() =~= seq![]);
}

/// The tests of an artifact are run against its own MIR and decisions: those
/// are what its text gives, and they stay until its last test is ingested.
/// The first decisions that are taken up are those that are analysed.
pub proof fn artifact_is_analysed_by_its_own_mir(s: SessionView, text: String, artifact: nat)
    requires
        s.stage == (StageView::Reading { artifact }),
        mir_of_text(text@) is Ok,
        s.mode == Mode::Single || decisions_of((mir_of_text(text@)->Ok_0).functions).len() > 0,
    ensures
        ({
            let mir = mir_of_text(text@)->Ok_0;
            let n = stepped(s, Event::MirRead { text });
            &&& n.stage matches StageView::Listing { artifact: a, mir: m, tree } && a == artifact
                && m == mir && tree.decisions == decisions_of(mir.functions)
            &&& s.chosen is None ==> (n.chosen matches Some(t) && t.decisions
                == decisions_of(mir.functions))
            &&& s.chosen is Some ==> n.chosen == s.chosen
            &&& n.tests == s.tests && n.observations == s.observations
        }),
{
}

/// Listing and running the tests of an artifact keeps what they are run
/// against.
pub proof fn work_on_an_artifact_is_kept(s: SessionView, event: Event)
    requires
        at_a_test(s),
    ensures
        (s.stage, stepped(s, event).stage) matches (
            StageView::Listing { artifact, mir, tree },
            StageView::Running { artifact: a, mir: m, tree: t, .. },
        ) ==> artifact == a && mir == m && tree == t && (event matches Event::Listed { tests }
            && stepped(s, event).stage->Running_names == name_seq(tests@)
            && stepped(s, event).stage->Running_next == 0),
        (s.stage, stepped(s, event).stage) matches (
            StageView::Running { artifact, mir, tree, names, next },
            StageView::Ingesting { artifact: a, mir: m, tree: t, names: n, next: k },
        ) ==> artifact == a && mir == m && tree == t && names == n && next == k,
        s.stage is Running && event is Ran ==> stepped(s, event).stage is Ingesting,
{
}

/// The observation of a test is that of its coverage alone, under its name:
/// it is added where the coverage gives one, and nothing is added otherwise.
pub proof fn observation_is_that_of_the_test(s: SessionView, event: Event)
    requires
        at_a_test(s),
        s.stage is Ingesting,
    ensures
        event matches Event::Covered { coverage } ==> {
            let name = s.stage->Ingesting_names[s.stage->Ingesting_next as int];
            let o = observation_of(
                Some(name),
                s.stage->Ingesting_mir,
                coverage.deep_view(),
                s.stage->Ingesting_tree,
            );
            &&& stepped(s, event).tests == s.tests.push(name)
            &&& stepped(s, event).observations == s.observations + (match o {
                Some(o) => seq![o],
                None => seq![],
            })
        },
        !(event is Covered) ==> stepped(s, event).observations == s.observations && stepped(
            s,
            event,
        ).tests == s.tests,
{
    if let Event::Covered { coverage } = event {
        let name = s.stage->Ingesting_names[s.stage->Ingesting_next as int];
        let o = observation_of(
            Some(name),
            s.stage->Ingesting_mir,
            coverage.deep_view(),
            s.stage->Ingesting_tree,
        );
        assert(stepped(s, event).observations =~= s.observations + (match o {
            Some(o) => seq![o],
            None => seq![],
        }));
    }
}

/// What is asked for is what the stage needs: the test whose turn it is is
/// run, and its coverage is taken from the file that its run wrote.
pub proof fn test_is_run_and_its_file_ingested(s: SessionView)
    requires
        s.stage is Running,
    ensures
        ({
            let ingest = next_action(stepped(s, Event::Ran));
            next_action(s) matches ActionView::RunTest { artifact, test, profraw } && artifact
                == turn(s) && test == s.stage->Running_names[s.stage->Running_next as int]
                && ingest == (ActionView::Ingest { artifact, profraw })
        }),
{
}

/// The other actions: building, finding the two tools, reading the MIR and
/// listing the tests of the artifact whose turn it is, reporting, giving up.
pub proof fn actions_follow_the_stage(s: SessionView)
    ensures
        s.stage is Building <==> next_action(s) is Build,
        s.stage is FindingProfdata <==> next_action(s) == (ActionView::FindTool {
            name: "llvm-profdata"@,
        }),
        s.stage is FindingCov ==> next_action(s) == (ActionView::FindTool { name: "llvm-cov"@ }),
        s.stage is Reading ==> next_action(s) == (ActionView::ReadMir { artifact: turn(s) }),
        s.stage is Listing ==> next_action(s) == (ActionView::ListTests { artifact: turn(s) }),
        s.stage is Finished <==> next_action(s) is Report,
        s.stage matches StageView::Failed { message } ==> next_action(s) == (ActionView::Stop {
            message,
        }),
{
    reveal_strlit("llvm-profdata");
    reveal_strlit("llvm-cov");
    assert("llvm-profdata"@.len() != "llvm-cov"@.len());
}

// ---------------------------------------------------------------------------
// Files
// ---------------------------------------------------------------------------

proof fn zero_in_front(d: Seq<char>)
    requires
        d.len() > 0,
    ensures
        digits_value(seq!['0'] + d) == digits_value(d),
    decreases d.len(),
{
    let s = seq!['0'] + d;
    assert(s.last() == d.last());
    if d.len() == 1 {
        assert(s.drop_last() =~= seq!['0']);
        assert(seq!['0'].drop_last() =~= seq![]);
        assert(digits_value(seq![]) == 0);
        assert(digits_value(seq!['0']) == 0) by {
            assert(seq!['0'].last() == '0');
        }
        assert(d.drop_last() =~= seq![]);
    } else {
        assert(s.drop_last() =~= seq!['0'] + d.drop_last());
        zero_in_front(d.drop_last());
    }
}

/// A number with at least three digits spells that number, and has no more
/// than three where three suffice.
pub proof fn three_digits_spell(n: nat)
    ensures
        all_digits(three_digits(n)),
        digits_value(three_digits(n)) == n,
        three_digits(n).len() >= 3,
        n < 1000 ==> three_digits(n).len() == 3,
{
    reveal_with_fuel(decimal, 4);
    reveal_strlit("0");
    reveal_strlit("00");
    decimal_digits(n);
    let d = decimal(n);
    if n < 10 {
        assert("00"@ + d =~= seq!['0'] + (seq!['0'] + d));
        zero_in_front(d);
        zero_in_front(seq!['0'] + d);
        assert forall|i: int| 0 <= i < ("00"@ + d).len() implies is_digit(#[trigger] ("00"@ + d)[i]) by {
            if i >= 2 {
                assert(is_digit(d[i - 2]));
            }
        }
    } else if n < 100 {
        assert("0"@ + d =~= seq!['0'] + d);
        zero_in_front(d);
        assert forall|i: int| 0 <= i < ("0"@ + d).len() implies is_digit(#[trigger] ("0"@ + d)[i]) by {
            if i >= 1 {
                assert(is_digit(d[i - 1]));
            }
        }
    }
}

/// Each test of an analysis has a file of its own: in a project tests with
/// different artifacts or positions have different files, in a single source
/// file tests with different positions.
pub proof fn each_test_has_its_own_file(mode: Mode, a: nat, i: nat, b: nat, j: nat)
    requires
        profraw_file(mode, a, i) == profraw_file(mode, b, j),
    ensures
        i == j,
        mode == Mode::Project ==> a == b,
{
    three_digits_spell(a);
    three_digits_spell(b);
    three_digits_spell(i);
    three_digits_spell(j);
    let (head, tail) = ("cov-"@, ".profraw"@);
    let s = profraw_file(mode, a, i);
    let t = profraw_file(mode, b, j);
    let inner = s.subrange(head.len() as int, s.len() - tail.len());
    match mode {
        Mode::Single => {
            assert(inner =~= three_digits(i));
            assert(t.subrange(head.len() as int, t.len() - tail.len()) =~= three_digits(j));
        },
        Mode::Project => {
            let x = three_digits(a) + "-"@ + three_digits(i);
            let y = three_digits(b) + "-"@ + three_digits(j);
            assert(inner =~= x);
            assert(t.subrange(head.len() as int, t.len() - tail.len()) =~= y);
            digits_before_dash(three_digits(a), three_digits(i));
            digits_before_dash(three_digits(b), three_digits(j));
        },
    }
}

proof fn digits_before_dash(d: Seq<char>, rest: Seq<char>)
    requires
        all_digits(d),
    ensures
        crate::text::cut_first(d + "-"@ + rest, "-"@) == Some((d, rest)),
{
    reveal_strlit("-");
    let s = d + "-"@ + rest;
    assert forall|j: int| 0 <= j < d.len() implies !#[trigger] occurs_at(s, "-"@, j) by {
        if occurs_at(s, "-"@, j) {
            assert(s.subrange(j, j + 1)[0] == s[j]);
            assert(is_digit(d[j]));
        }
    }
    cut_first_at(d, "-"@, rest);
}

/// A session that fails of itself says why: what of the MIR could not be read
/// or parsed, that the source has no tests, or that no decision was found.
pub proof fn failures_say_why(
    s: SessionView,
    artifact: nat,
    detail: String,
    text: String,
    tests: Vec<String>,
)
    requires
        s.mode == Mode::Single,
    ensures
        s.stage == (StageView::Reading { artifact }) ==> stepped(
            s,
            Event::MirUnreadable { detail },
        ).stage == (StageView::Failed { message: "read MIR: "@ + detail@ }),
        s.stage == (StageView::Reading { artifact }) ==> (mir_of_text(text@) matches Err(e)
            ==> stepped(s, Event::MirRead { text }).stage == (StageView::Failed {
            message: "parse MIR: "@ + "MIR parse error at line "@ + decimal(e.line) + ": "@
                + e.message,
        })),
        s.stage is Listing && tests@.len() == 0 ==> stepped(s, Event::Listed { tests }).stage == (
        StageView::Failed { message: "no #[test] functions found in "@ + s.source }),
{
}

} // verus!
