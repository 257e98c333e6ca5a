//! What the reports say of every analysis.
use crate::masking::search::MinimumView;
use crate::masking::{MatrixView, ObservationView, PairView, RowView, RuntimeView, StatusView};
use crate::report::{
    coverage_text, escaped, escaped_char, escaped_text_is_plain, exercised_of, exercised_upto,
    glyph, input_parts, joined, joined_upto, junit_case, junit_cases, junit_counts, junit_text,
    left_aligned, needed, observation_line, observation_lines, observation_parts, pair_line,
    pair_lines, right_aligned, runtime_text, shown_inputs, shown_pair, spaces, static_head,
    static_tail, status_line, status_lines, table_header, table_line, table_lines, test_lines,
};
use crate::text::{begins_with, decimal, occurs_at};
use vstd::prelude::*;
use vstd::set_lib::{lemma_int_range, lemma_len_subset, lemma_subset_equality, set_int_range};

verus! {

// ---------------------------------------------------------------------------
// Counts
// ---------------------------------------------------------------------------

/// The positions of the conditions whose status is that some pair exercises
/// them.
pub open spec fn exercised_positions(a: RuntimeView) -> Set<int> {
    set_int_range(0, a.matrix.conditions.len() as int).filter(
        |i: int|
            a.condition_status.contains_key(a.matrix.conditions[i])
                && a.condition_status[a.matrix.conditions[i]] is Exercised,
    )
}

/// The positions among the first `n` of the conditions that are exercised.
spec fn exercised_before(a: RuntimeView, n: int) -> Set<int> {
    exercised_positions(a).intersect(set_int_range(0, n))
}

proof fn counted_before(a: RuntimeView, n: int)
    requires
        0 <= n <= a.matrix.conditions.len(),
    ensures
        exercised_before(a, n).finite(),
        exercised_before(a, n).len() == exercised_upto(a, n),
    decreases n,
{
    if n == 0 {
        assert(exercised_before(a, 0) =~= Set::empty());
    } else {
        counted_before(a, n - 1);
        let fewer = exercised_before(a, n - 1);
        assert(!fewer.contains(n - 1));
        if exercised_positions(a).contains(n - 1) {
            assert(exercised_before(a, n) =~= fewer.insert(n - 1));
        } else {
            assert(exercised_before(a, n) =~= fewer);
        }
    }
}

/// The number of exercised conditions is how many positions hold one. It is
/// the number of conditions exactly if every condition is exercised, and 0
/// exactly if none is.
pub proof fn exercised_conditions_are_counted(a: RuntimeView)
    ensures
        exercised_positions(a).finite(),
        exercised_of(a) == exercised_positions(a).len(),
        exercised_of(a) == a.matrix.conditions.len() <==> (forall|i: int|
            0 <= i < a.matrix.conditions.len() ==> a.condition_status.contains_key(
                #[trigger] a.matrix.conditions[i],
            ) && a.condition_status[a.matrix.conditions[i]] is Exercised),
        exercised_of(a) == 0 <==> (forall|i: int|
            0 <= i < a.matrix.conditions.len() ==> !(a.condition_status.contains_key(
                #[trigger] a.matrix.conditions[i],
            ) && a.condition_status[a.matrix.conditions[i]] is Exercised)),
{
    let n = a.matrix.conditions.len() as int;
    let all = set_int_range(0, n);
    let found = exercised_positions(a);
    counted_before(a, n);
    assert(exercised_before(a, n) =~= found);
    lemma_int_range(0, n);
    lemma_len_subset(found, all);
    if found.len() == n {
        lemma_subset_equality(found, all);
        assert forall|i: int| 0 <= i < n implies a.condition_status.contains_key(
            #[trigger] a.matrix.conditions[i],
        ) && a.condition_status[a.matrix.conditions[i]] is Exercised by {
            assert(all.contains(i));
            assert(found.contains(i));
        }
    }
    if forall|i: int|
        0 <= i < n ==> a.condition_status.contains_key(#[trigger] a.matrix.conditions[i])
            && a.condition_status[a.matrix.conditions[i]] is Exercised {
        assert(found =~= all);
    }
    if found.len() == 0 {
        assert(found =~= Set::empty());
        assert forall|i: int| 0 <= i < n implies !(a.condition_status.contains_key(
            #[trigger] a.matrix.conditions[i],
        ) && a.condition_status[a.matrix.conditions[i]] is Exercised) by {
            assert(!found.contains(i));
        }
    }
    if forall|i: int|
        0 <= i < n ==> !(a.condition_status.contains_key(#[trigger] a.matrix.conditions[i])
            && a.condition_status[a.matrix.conditions[i]] is Exercised) {
        assert(found =~= Set::empty());
    }
}

/// The text report states how many positions hold an exercised condition, of
/// how many conditions.
pub proof fn reported_coverage_is_the_count(a: RuntimeView, percent: Seq<char>)
    requires
        a.matrix.conditions.len() > 0,
    ensures
        coverage_text(a, percent) == "\nMC/DC coverage: "@ + decimal(exercised_positions(a).len())
            + " of "@ + decimal(a.matrix.conditions.len()) + " conditions exercised ("@ + percent
            + "%)\n"@,
{
    exercised_conditions_are_counted(a);
}

/// Whether a text stands in another.
pub open spec fn holds(s: Seq<char>, p: Seq<char>) -> bool {
    exists|k: int| occurs_at(s, p, k)
}

/// The positions of the conditions whose test case has a `<failure`.
pub open spec fn failing_positions(a: RuntimeView) -> Set<int> {
    set_int_range(0, a.matrix.conditions.len() as int).filter(
        |i: int| holds(junit_case(a, a.matrix.conditions[i]), "<failure"@),
    )
}

/// A test case has a `<failure` exactly if its condition is not exercised,
/// and is one `<testcase` with the escaped name either way.
pub proof fn case_fails_unless_exercised(a: RuntimeView, name: Seq<char>)
    ensures
        holds(junit_case(a, name), "<failure"@) <==> !(a.condition_status.contains_key(name)
            && a.condition_status[name] is Exercised),
        begins_with(junit_case(a, name), "    <testcase name=\""@ + escaped(name)),
{
    let open = "    <testcase name=\""@;
    let class = "\" classname=\"floyd.mcdc\""@;
    let head = open + escaped(name) + class;
    let case = junit_case(a, name);
    assert(case.take((open + escaped(name)).len() as int) =~= open + escaped(name));
    reveal_strlit("<failure");
    reveal_strlit("    <testcase name=\"");
    reveal_strlit("\" classname=\"floyd.mcdc\"");
    reveal_strlit("/>\n");
    if a.condition_status.contains_key(name) && a.condition_status[name] is Exercised {
        assert forall|k: int| !occurs_at(case, "<failure"@, k) by {
            if occurs_at(case, "<failure"@, k) {
                let p = case.subrange(k, k + 8);
                assert(p[0] == case[k] && p[1] == case[k + 1]);
                if open.len() <= k < open.len() + escaped(name).len() {
                    escaped_text_is_plain(name, k - open.len());
                    assert(case[k] == escaped(name)[k - open.len()]);
                }
                if k < open.len() {
                    assert(case[k] == open[k]);
                }
            }
        }
    } else {
        let before = head + ">\n"@ + "      "@;
        reveal_strlit("      ");
        reveal_strlit(">\n");
        reveal_strlit("      <failure message=\"");
        let k = before.len() as int;
        assert(case.subrange(k, k + 8) =~= "<failure"@);
        assert(occurs_at(case, "<failure"@, k));
    }
}

/// The failures that a JUnit report counts are the test cases in it that have
/// a `<failure`, and the tests are its conditions.
pub proof fn junit_counts_its_failures(a: RuntimeView)
    ensures
        failing_positions(a).finite(),
        junit_counts(a) == "\" tests=\""@ + decimal(a.matrix.conditions.len())
            + "\" failures=\""@ + decimal(failing_positions(a).len()) + "\">\n"@,
{
    let n = a.matrix.conditions.len() as int;
    let all = set_int_range(0, n);
    let found = exercised_positions(a);
    let failing = failing_positions(a);
    exercised_conditions_are_counted(a);
    lemma_int_range(0, n);
    assert forall|i: int| failing.contains(i) <==> all.difference(found).contains(i) by {
        if all.contains(i) {
            case_fails_unless_exercised(a, a.matrix.conditions[i]);
        }
    }
    assert(failing =~= all.difference(found));
    lemma_len_subset(found, all);
    assert(all.difference(found).finite());
    vstd::set_lib::lemma_set_disjoint_lens(found, all.difference(found));
    assert(found + all.difference(found) =~= all);
}

// ---------------------------------------------------------------------------
// Lists of lines
// ---------------------------------------------------------------------------

/// A report lists one line per row of the table, in order.
pub proof fn table_has_one_line_per_row(names: Seq<Seq<char>>, table: Seq<RowView>, n: int)
    requires
        0 <= n <= table.len(),
    ensures
        table_lines(names, table, n) == table.take(n).map_values(
            |row: RowView| table_line(names, row),
        ).flatten(),
    decreases n,
{
    let line = |row: RowView| table_line(names, row);
    let lines = table.take(n).map_values(line);
    if n > 0 {
        table_has_one_line_per_row(names, table, n - 1);
        assert(lines =~= table.take(n - 1).map_values(line).push(table_line(names, table[n - 1])));
        table.take(n - 1).map_values(line).lemma_flatten_push(table_line(names, table[n - 1]));
    } else {
        assert(lines =~= seq![]);
        assert(table_lines(names, table, 0) =~= Seq::<Seq<char>>::empty().flatten());
    }
}

/// A report lists one line per condition with its pair, in order.
pub proof fn one_pair_line_per_condition(
    names: Seq<Seq<char>>,
    chosen: Map<Seq<char>, PairView>,
    n: int,
)
    requires
        0 <= n <= names.len(),
    ensures
        pair_lines(names, chosen, n) == names.take(n).map_values(
            |name: Seq<char>| pair_line(names, chosen, name),
        ).flatten(),
    decreases n,
{
    let line = |name: Seq<char>| pair_line(names, chosen, name);
    if n > 0 {
        one_pair_line_per_condition(names, chosen, n - 1);
        let last = pair_line(names, chosen, names[n - 1]);
        assert(names.take(n).map_values(line) =~= names.take(n - 1).map_values(line).push(last));
        names.take(n - 1).map_values(line).lemma_flatten_push(last);
    } else {
        assert(names.take(0).map_values(line) =~= seq![]);
        assert(pair_lines(names, chosen, 0) =~= Seq::<Seq<char>>::empty().flatten());
    }
}

/// A report lists one line per test of a set, in order: its inputs and its
/// result.
pub proof fn one_line_per_test(names: Seq<Seq<char>>, tests: Seq<RowView>, n: int)
    requires
        0 <= n <= tests.len(),
    ensures
        test_lines(names, tests, n) == tests.take(n).map_values(
            |row: RowView|
                "  ("@ + shown_inputs(names, row) + ") -> "@ + (if row.result {
                    "T"@
                } else {
                    "F"@
                }) + "\n"@,
        ).flatten(),
    decreases n,
{
    let line = |row: RowView|
        "  ("@ + shown_inputs(names, row) + ") -> "@ + (if row.result {
            "T"@
        } else {
            "F"@
        }) + "\n"@;
    if n > 0 {
        one_line_per_test(names, tests, n - 1);
        let row = tests[n - 1];
        let last = line(row);
        assert(tests.take(n).map_values(line) =~= tests.take(n - 1).map_values(line).push(last));
        tests.take(n - 1).map_values(line).lemma_flatten_push(last);
        assert(test_lines(names, tests, n) =~= test_lines(names, tests, n - 1) + last);
    } else {
        assert(tests.take(0).map_values(line) =~= seq![]);
        assert(test_lines(names, tests, 0) =~= Seq::<Seq<char>>::empty().flatten());
    }
}

/// A report lists one line per observation, in order.
pub proof fn one_line_per_observation(
    names: Seq<Seq<char>>,
    observations: Seq<ObservationView>,
    n: int,
)
    requires
        0 <= n <= observations.len(),
    ensures
        observation_lines(names, observations, n) == observations.take(n).map_values(
            |o: ObservationView| observation_line(names, o),
        ).flatten(),
    decreases n,
{
    let line = |o: ObservationView| observation_line(names, o);
    if n > 0 {
        one_line_per_observation(names, observations, n - 1);
        let last = observation_line(names, observations[n - 1]);
        assert(observations.take(n).map_values(line) =~= observations.take(n - 1).map_values(
            line,
        ).push(last));
        observations.take(n - 1).map_values(line).lemma_flatten_push(last);
    } else {
        assert(observations.take(0).map_values(line) =~= seq![]);
        assert(observation_lines(names, observations, 0) =~= Seq::<Seq<char>>::empty().flatten());
    }
}

/// A report lists one line per condition with its status, in order.
pub proof fn one_status_line_per_condition(a: RuntimeView, n: int)
    requires
        0 <= n <= a.matrix.conditions.len(),
    ensures
        status_lines(a, n) == a.matrix.conditions.take(n).map_values(
            |name: Seq<char>| status_line(a, name),
        ).flatten(),
    decreases n,
{
    let names = a.matrix.conditions;
    let line = |name: Seq<char>| status_line(a, name);
    if n > 0 {
        one_status_line_per_condition(a, n - 1);
        let last = status_line(a, names[n - 1]);
        assert(names.take(n).map_values(line) =~= names.take(n - 1).map_values(line).push(last));
        names.take(n - 1).map_values(line).lemma_flatten_push(last);
    } else {
        assert(names.take(0).map_values(line) =~= seq![]);
        assert(status_lines(a, 0) =~= Seq::<Seq<char>>::empty().flatten());
    }
}

/// A JUnit report has one test case per condition, in order.
pub proof fn one_case_per_condition(a: RuntimeView, n: int)
    requires
        0 <= n <= a.matrix.conditions.len(),
    ensures
        junit_cases(a, n) == a.matrix.conditions.take(n).map_values(
            |name: Seq<char>| junit_case(a, name),
        ).flatten(),
    decreases n,
{
    let names = a.matrix.conditions;
    let line = |name: Seq<char>| junit_case(a, name);
    if n > 0 {
        one_case_per_condition(a, n - 1);
        let last = junit_case(a, names[n - 1]);
        assert(names.take(n).map_values(line) =~= names.take(n - 1).map_values(line).push(last));
        names.take(n - 1).map_values(line).lemma_flatten_push(last);
    } else {
        assert(names.take(0).map_values(line) =~= seq![]);
        assert(junit_cases(a, 0) =~= Seq::<Seq<char>>::empty().flatten());
    }
}

/// The whole of a JUnit report: the heading, the counts twice, the escaped
/// name of the source, one case per condition, and the two closing elements.
pub proof fn junit_report_is_whole(source: Seq<char>, a: RuntimeView)
    ensures
        junit_text(source, a) == "<?xml version=\"1.0\" encoding=\"UTF-8\"?>\n"@
            + "<testsuites name=\"floyd"@ + junit_counts(a) + "  <testsuite name=\""@ + escaped(source)
            + junit_counts(a) + a.matrix.conditions.map_values(
            |name: Seq<char>| junit_case(a, name),
        ).flatten() + "  </testsuite>\n"@ + "</testsuites>\n"@,
{
    one_case_per_condition(a, a.matrix.conditions.len() as int);
    assert(a.matrix.conditions.take(a.matrix.conditions.len() as int) =~= a.matrix.conditions);
}

// ---------------------------------------------------------------------------
// Single lines
// ---------------------------------------------------------------------------

/// Texts are joined one after the other: a further text stands behind those
/// before it and one separator, and a single text stands alone.
pub proof fn joining_appends(parts: Seq<Seq<char>>, sep: Seq<char>, last: Seq<char>)
    ensures
        joined(seq![], sep) == Seq::<char>::empty(),
        parts.len() == 0 ==> joined(parts.push(last), sep) == last,
        parts.len() > 0 ==> joined(parts.push(last), sep) == joined(parts, sep) + sep + last,
{
    joined_depends_on_front(parts.push(last), parts, sep, parts.len() as int);
}

proof fn joined_depends_on_front(
    x: Seq<Seq<char>>,
    y: Seq<Seq<char>>,
    sep: Seq<char>,
    n: int,
)
    requires
        n <= x.len(),
        n <= y.len(),
        forall|i: int| 0 <= i < n ==> x[i] == y[i],
    ensures
        joined_upto(x, sep, n) == joined_upto(y, sep, n),
    decreases n,
{
    if n > 0 {
        joined_depends_on_front(x, y, sep, n - 1);
    }
}

/// Padding brings a text to a width and no further, on one side: what is
/// added are spaces, and the text stays as it is.
pub proof fn padding_is_spaces(s: Seq<char>, width: int)
    requires
        0 <= width,
    ensures
        right_aligned(s, width).len() == (if s.len() < width {
            width as nat
        } else {
            s.len()
        }),
        left_aligned(s, width).len() == right_aligned(s, width).len(),
        right_aligned(s, width).skip(right_aligned(s, width).len() - s.len()) == s,
        left_aligned(s, width).take(s.len() as int) == s,
        forall|i: int|
            0 <= i < right_aligned(s, width).len() - s.len() ==> #[trigger] right_aligned(
                s,
                width,
            )[i] == ' ',
        forall|i: int|
            s.len() <= i < left_aligned(s, width).len() ==> #[trigger] left_aligned(s, width)[i]
                == ' ',
{
    spaces_are_spaces(width - s.len());
    let r = right_aligned(s, width);
    assert(r.skip(r.len() - s.len()) =~= s);
    assert(left_aligned(s, width).take(s.len() as int) =~= s);
}

proof fn spaces_are_spaces(n: int)
    ensures
        spaces(n).len() == (if n <= 0 {
            0
        } else {
            n
        }),
        forall|i: int| 0 <= i < spaces(n).len() ==> #[trigger] spaces(n)[i] == ' ',
    decreases n,
{
    if n > 0 {
        spaces_are_spaces(n - 1);
    }
}

/// The inputs of a row are shown condition by condition, each with `T` where
/// it is true and `F` where it is false.
pub proof fn inputs_are_shown_one_by_one(names: Seq<Seq<char>>, last: Seq<char>, row: RowView)
    ensures
        names.len() == 0 ==> shown_inputs(names.push(last), row) == last + "="@ + (
        if row.inputs[last] {
            "T"@
        } else {
            "F"@
        }),
        names.len() > 0 ==> shown_inputs(names.push(last), row) == shown_inputs(names, row) + ", "@
            + (last + "="@ + (if row.inputs[last] {
            "T"@
        } else {
            "F"@
        })),
{
    let value = last + "="@ + glyph(row.inputs[last]);
    assert(input_parts(names.push(last), row) =~= input_parts(names, row).push(value));
    joining_appends(input_parts(names, row), ", "@, value);
}

/// A pair is shown by the inputs and the outcome of both rows.
pub proof fn pair_shows_both_rows(names: Seq<Seq<char>>, a: RowView, b: RowView)
    ensures
        shown_pair(names, PairView { test_1: a, test_2: b }) == "("@ + shown_inputs(names, a)
            + ") -> "@ + (if a.result {
            "T"@
        } else {
            "F"@
        }) + "   vs   ("@ + shown_inputs(names, b) + ") -> "@ + (if b.result {
            "T"@
        } else {
            "F"@
        }),
{
}

proof fn cells_stand_in_columns(cells: Seq<Seq<char>>, sep: Seq<char>, n: int)
    requires
        0 <= n <= cells.len(),
        sep.len() == 1,
        forall|i: int| 0 <= i < cells.len() ==> (#[trigger] cells[i]).len() == 3,
    ensures
        n > 0 ==> joined_upto(cells, sep, n).len() == 4 * n - 1,
        forall|i: int, k: int|
            #![trigger cells[i][k]]
            0 <= i < n && 0 <= k < 3 ==> joined_upto(cells, sep, n)[4 * i + k] == cells[i][k],
    decreases n,
{
    if n > 1 {
        cells_stand_in_columns(cells, sep, n - 1);
        let rest = joined_upto(cells, sep, n - 1);
        let all = joined_upto(cells, sep, n);
        assert(all =~= rest + sep + cells[n - 1]);
        assert forall|i: int, k: int|
            #![trigger cells[i][k]]
            0 <= i < n && 0 <= k < 3 implies all[4 * i + k] == cells[i][k] by {
            if i < n - 1 {
                assert(rest[4 * i + k] == cells[i][k]);
            }
        }
    }
}

/// A line of the truth table shows each condition in a column of its own, `T`
/// where it is true and `F` where it is false, and the outcome at its end.
pub proof fn table_line_shows_the_row(names: Seq<Seq<char>>, row: RowView, i: int)
    requires
        names.len() > 0,
        0 <= i < names.len(),
    ensures
        table_line(names, row).len() == 4 * names.len() + 11,
        table_line(names, row)[4 * i + 6] == (if row.inputs[names[i]] {
            'T'
        } else {
            'F'
        }),
        table_line(names, row)[(4 * names.len() + 9) as int] == (if row.result {
            'T'
        } else {
            'F'
        }),
        table_line(names, row).last() == '\n',
{
    reveal_strlit("    ");
    reveal_strlit(" ");
    reveal_strlit("  |   ");
    reveal_strlit("\n");
    reveal_strlit("T");
    reveal_strlit("F");
    let cells = names.map_values(|c: Seq<char>| right_aligned(glyph(row.inputs[c]), 3));
    assert forall|k: int| 0 <= k < cells.len() implies (#[trigger] cells[k]).len() == 3 by {
        padding_is_spaces(glyph(row.inputs[names[k]]), 3);
    }
    cells_stand_in_columns(cells, " "@, cells.len() as int);
    let g = glyph(row.inputs[names[i]]);
    padding_is_spaces(g, 3);
    assert(right_aligned(g, 3).skip(2)[0] == right_aligned(g, 3)[2]);
    assert(cells[i][2] == g[0]);
    assert(joined(cells, " "@)[4 * i + 2] == g[0]);
}

/// The line of a condition says which pair exercises it, or what is missing:
/// its mark tells whether it is exercised.
pub proof fn status_line_tells_the_status(a: RuntimeView, name: Seq<char>)
    requires
        a.condition_status.contains_key(name),
    ensures
        a.condition_status[name] matches StatusView::Exercised(p) ==> status_line(a, name)
            == "  ✓ "@ + name + ": EXERCISED  via "@ + shown_pair(a.matrix.conditions, p) + "\n"@,
        a.condition_status[name] is Unexercised ==> begins_with(
            status_line(a, name),
            "  ✗ "@ + name + ": UNEXERCISED"@,
        ),
        a.condition_status[name] is Unexercised && a.matrix.independence_pairs.contains_key(name)
            && a.matrix.independence_pairs[name].len() > 0 ==> ({
            let p = a.matrix.independence_pairs[name][0];
            status_line(a, name) == "  ✗ "@ + name
                + ": UNEXERCISED — needs a test exercising ("@ + shown_inputs(
                a.matrix.conditions,
                p.test_1,
            ) + ") or ("@ + shown_inputs(a.matrix.conditions, p.test_2) + ")\n"@
        }),
{
    if a.condition_status[name] is Unexercised {
        let line = status_line(a, name);
        let head = "  ✗ "@ + name + ": UNEXERCISED"@;
        reveal_strlit(": UNEXERCISED");
        reveal_strlit(": UNEXERCISED — needs a test exercising (");
        reveal_strlit(": UNEXERCISED (no valid pair available)\n");
        assert(line.take(head.len() as int) =~= head);
    }
}

/// The line of a condition in the static report shows its chosen pair, or
/// says that there is none.
pub proof fn pair_line_shows_the_chosen_pair(
    names: Seq<Seq<char>>,
    chosen: Map<Seq<char>, PairView>,
    name: Seq<char>,
)
    ensures
        chosen.contains_key(name) ==> pair_line(names, chosen, name) == "  "@ + name + ": "@
            + shown_pair(names, chosen[name]) + "\n"@,
        !chosen.contains_key(name) ==> pair_line(names, chosen, name) == "  "@ + name
            + ": no valid independence pair found\n"@,
{
}

/// The static report claims a minimum only where one was proven, and counts
/// the tests that it lists.
pub proof fn static_report_claims_what_is_proven(m: MatrixView, minimum: MinimumView)
    ensures
        static_tail(m, minimum) == "Independence pairs ("@ + crate::report::variant_name(m.variant)
            + " variant):\n"@ + m.conditions.map_values(
            |name: Seq<char>| pair_line(m.conditions, minimum.chosen_pairs, name),
        ).flatten() + "\n"@ + (if minimum.proven_minimal {
            "Minimum test set"@
        } else {
            "Smallest test set found (search budget exhausted; upper bound)"@
        }) + ": "@ + decimal(minimum.tests.len()) + " test(s)\n"@ + minimum.tests.map_values(
            |row: RowView|
                "  ("@ + shown_inputs(m.conditions, row) + ") -> "@ + (if row.result {
                    "T"@
                } else {
                    "F"@
                }) + "\n"@,
        ).flatten(),
{
    one_pair_line_per_condition(m.conditions, minimum.chosen_pairs, m.conditions.len() as int);
    assert(m.conditions.take(m.conditions.len() as int) =~= m.conditions);
    one_line_per_test(m.conditions, minimum.tests, minimum.tests.len() as int);
    assert(minimum.tests.take(minimum.tests.len() as int) =~= minimum.tests);
}

/// The runtime report counts tests and observations, lists the conditions,
/// the observations and the status of each condition, and ends in the
/// coverage.
pub proof fn runtime_report_is_whole(
    tests: nat,
    observations: Seq<ObservationView>,
    a: RuntimeView,
    percent: Seq<char>,
)
    requires
        a.matrix.conditions.len() > 0,
        observations.len() > 0,
    ensures
        runtime_text(tests, observations, a, percent) == "Tests discovered: "@ + decimal(tests)
            + "\nObservations:     "@ + decimal(observations.len()) + "\nConditions:       "@ + joined(
            a.matrix.conditions,
            ", "@,
        ) + "\n\n"@ + ("Per-test observations:\n"@ + observations.map_values(
            |o: ObservationView| observation_line(a.matrix.conditions, o),
        ).flatten() + "\n"@) + "Per-condition MC/DC status:\n"@ + a.matrix.conditions.map_values(
            |name: Seq<char>| status_line(a, name),
        ).flatten() + coverage_text(a, percent),
{
    one_status_line_per_condition(a, a.matrix.conditions.len() as int);
    assert(a.matrix.conditions.take(a.matrix.conditions.len() as int) =~= a.matrix.conditions);
    one_line_per_observation(a.matrix.conditions, observations, observations.len() as int);
    assert(observations.take(observations.len() as int) =~= observations);
}

/// The line of an observation shows each condition with the value that was
/// seen, or `-` where it was not evaluated, and the result behind them.
pub proof fn observation_parts_show_what_was_seen(
    names: Seq<Seq<char>>,
    o: ObservationView,
    i: int,
)
    requires
        0 <= i < names.len(),
    ensures
        observation_parts(names, o).len() == names.len() + 1,
        observation_parts(names, o)[i] == names[i] + "="@ + (if !o.inputs.contains_key(names[i]) {
            "-"@
        } else if o.inputs[names[i]] {
            "T"@
        } else {
            "F"@
        }),
        observation_parts(names, o).last() == "result="@ + (if o.result {
            "T"@
        } else {
            "F"@
        }),
{
}

// ---------------------------------------------------------------------------
// XML
// ---------------------------------------------------------------------------

/// Text is escaped character by character.
pub proof fn escaping_joins(s: Seq<char>, t: Seq<char>)
    ensures
        escaped(s + t) == escaped(s) + escaped(t),
    decreases t.len(),
{
    if t.len() == 0 {
        assert(s + t =~= s);
        assert(escaped(s) + escaped(t) =~= escaped(s));
    } else {
        assert((s + t).drop_last() =~= s + t.drop_last());
        assert((s + t).last() == t.last());
        escaping_joins(s, t.drop_last());
        assert(escaped(s + t) =~= escaped(s) + escaped(t));
    }
}

proof fn escapes_differ(c: char, d: char, x: Seq<char>, y: Seq<char>)
    requires
        escaped_char(c) + x == escaped_char(d) + y,
    ensures
        c == d,
        x == y,
{
    reveal_strlit("&amp;");
    reveal_strlit("&lt;");
    reveal_strlit("&gt;");
    reveal_strlit("&quot;");
    reveal_strlit("&apos;");
    let s = escaped_char(c) + x;
    let t = escaped_char(d) + y;
    assert(s[0] == t[0]);
    if c != d {
        assert(escaped_char(c)[0] == s[0]);
        assert(escaped_char(d)[0] == t[0]);
        assert(escaped_char(c).len() > 1 && escaped_char(d).len() > 1);
        assert(escaped_char(c)[1] == s[1] && escaped_char(d)[1] == t[1]);
        assert(escaped_char(c)[2] == s[2] && escaped_char(d)[2] == t[2]);
        assert(false);
    }
    let n = escaped_char(c).len() as int;
    assert(x =~= s.skip(n));
    assert(y =~= t.skip(n));
}

proof fn escaped_front(s: Seq<char>)
    requires
        s.len() > 0,
    ensures
        escaped(s) == escaped_char(s[0]) + escaped(s.skip(1)),
{
    let first = seq![s[0]];
    assert(s =~= first + s.skip(1));
    escaping_joins(first, s.skip(1));
    assert(first.drop_last() =~= seq![]);
    assert(escaped(seq![]) =~= seq![]);
    assert(escaped(first) =~= escaped_char(s[0]));
}

/// Nothing is lost by escaping: different texts have different escaped forms.
pub proof fn escaping_loses_nothing(s: Seq<char>, t: Seq<char>)
    requires
        escaped(s) == escaped(t),
    ensures
        s == t,
    decreases s.len(),
{
    reveal_strlit("&amp;");
    reveal_strlit("&lt;");
    reveal_strlit("&gt;");
    reveal_strlit("&quot;");
    reveal_strlit("&apos;");
    if s.len() > 0 {
        escaped_front(s);
    }
    if t.len() > 0 {
        escaped_front(t);
    }
    if s.len() == 0 {
        assert(escaped(s).len() == 0);
        if t.len() > 0 {
            assert(escaped_char(t[0]).len() > 0);
        }
        assert(s =~= t);
    } else if t.len() == 0 {
        assert(escaped(t).len() == 0);
        assert(escaped_char(s[0]).len() > 0);
    } else {
        escapes_differ(s[0], t[0], escaped(s.skip(1)), escaped(t.skip(1)));
        escaping_loses_nothing(s.skip(1), t.skip(1));
        assert(s =~= seq![s[0]] + s.skip(1));
        assert(t =~= seq![t[0]] + t.skip(1));
    }
}

/// The five characters that are special in XML are written as their entities.
pub proof fn special_characters_are_entities()
    ensures
        escaped(seq!['&']) == "&amp;"@,
        escaped(seq!['<']) == "&lt;"@,
        escaped(seq!['>']) == "&gt;"@,
        escaped(seq!['"']) == "&quot;"@,
        escaped(seq!['\'']) == "&apos;"@,
{
    assert forall|c: char| escaped(seq![c]) == #[trigger] escaped_char(c) by {
        assert(seq![c].drop_last() =~= seq![]);
        assert(escaped(seq![]) =~= seq![]);
        assert(escaped(seq![c]) =~= escaped_char(c));
    }
    assert(escaped(seq!['&']) == escaped_char('&'));
    assert(escaped(seq!['<']) == escaped_char('<'));
    assert(escaped(seq!['>']) == escaped_char('>'));
    assert(escaped(seq!['"']) == escaped_char('"'));
    assert(escaped(seq!['\'']) == escaped_char('\''));
}

// ---------------------------------------------------------------------------
// Heads and details
// ---------------------------------------------------------------------------

/// The head of a static report names the source, counts the decisions, lists
/// the conditions, counts the rows and shows each of them.
pub proof fn static_head_is_whole(source: Seq<char>, decisions: nat, m: MatrixView)
    requires
        m.conditions.len() > 0,
    ensures
        static_head(source, decisions, m) == "floyd  static MC/DC analysis of "@ + source
            + "\n\n"@ + "Decisions recovered: "@ + decimal(decisions) + "\n"@ + (
        "Conditions:          "@ + joined(m.conditions, ", "@) + "\n"@) + "\n"@
            + "Truth table ("@ + decimal(m.truth_table.len()) + " rows):\n"@ + table_header(
            m.conditions,
        ) + m.truth_table.map_values(|row: RowView| table_line(m.conditions, row)).flatten()
            + "\n"@,
{
    table_has_one_line_per_row(m.conditions, m.truth_table, m.truth_table.len() as int);
    assert(m.truth_table.take(m.truth_table.len() as int) =~= m.truth_table);
}

/// The heading of a truth table has a column for each condition, in order.
pub proof fn header_names_the_columns(names: Seq<Seq<char>>, i: int)
    requires
        0 <= i < names.len(),
        forall|k: int| 0 <= k < names.len() ==> (#[trigger] names[k]).len() <= 3,
    ensures
        forall|k: int|
            0 <= k < names[i].len() ==> table_header(names)[4 * i + 7 - names[i].len() + k]
                == #[trigger] names[i][k],
{
    reveal_strlit("    ");
    reveal_strlit(" ");
    let cells = names.map_values(|c: Seq<char>| right_aligned(c, 3));
    assert forall|k: int| 0 <= k < cells.len() implies (#[trigger] cells[k]).len() == 3 by {
        padding_is_spaces(names[k], 3);
    }
    cells_stand_in_columns(cells, " "@, cells.len() as int);
    padding_is_spaces(names[i], 3);
    let line = joined(cells, " "@);
    assert forall|k: int| 0 <= k < names[i].len() implies table_header(names)[4 * i + 7
        - names[i].len() + k] == #[trigger] names[i][k] by {
        let c = right_aligned(names[i], 3);
        let j = 3 - names[i].len() + k;
        assert(c.skip(c.len() - names[i].len())[k] == c[j]);
        assert(cells[i][j] == names[i][k]);
        assert(line[4 * i + j] == cells[i][j]);
        assert(table_header(names)[4 + (4 * i + j)] == line[4 * i + j]);
    }
}

/// The line of an observation names the test, or `?` where it has no name,
/// and shows its parts.
pub proof fn observation_line_names_the_test(names: Seq<Seq<char>>, o: ObservationView)
    ensures
        o.test_name matches Some(name) ==> observation_line(names, o) == "  "@ + left_aligned(
            name,
            30,
        ) + "  "@ + joined(observation_parts(names, o), "  "@) + "\n"@,
        o.test_name is None ==> observation_line(names, o) == "  "@ + left_aligned("?"@, 30)
            + "  "@ + joined(observation_parts(names, o), "  "@) + "\n"@,
{
}

/// What a condition needs is what its first pair shows: the inputs and the
/// outcomes of both rows; one without a pair cannot be exercised.
pub proof fn needed_is_the_first_pair(m: MatrixView, name: Seq<char>)
    ensures
        m.independence_pairs.contains_key(name) && m.independence_pairs[name].len() > 0 ==> ({
            let p = m.independence_pairs[name][0];
            needed(m, name) == "needs a test exercising ("@ + shown_inputs(m.conditions, p.test_1)
                + ") -> "@ + (if p.test_1.result {
                "T"@
            } else {
                "F"@
            }) + " or ("@ + shown_inputs(m.conditions, p.test_2) + ") -> "@ + (
            if p.test_2.result {
                "T"@
            } else {
                "F"@
            })
        }),
        !(m.independence_pairs.contains_key(name) && m.independence_pairs[name].len() > 0)
            ==> needed(m, name) == "no valid independence pair available for this condition"@,
{
}

/// The test case of a condition that is not exercised says what it needs.
pub proof fn failing_case_says_what_is_needed(a: RuntimeView, name: Seq<char>)
    requires
        !(a.condition_status.contains_key(name) && a.condition_status[name] is Exercised),
    ensures
        junit_case(a, name) == "    <testcase name=\""@ + escaped(name)
            + "\" classname=\"floyd.mcdc\""@ + ">\n"@ + "      <failure message=\""@ + escaped(
            needed(a.matrix, name),
        ) + "\" type=\"UnexercisedCondition\"/>\n"@ + "    </testcase>\n"@,
{
}

} // verus!
