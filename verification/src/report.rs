//! Reports as text.
//!
//! Each report is a function of the analysis it shows; printing it is left to
//! the program.
use crate::decision::NodeView;
use crate::masking::laws::{listed_pair_differs, matrix_lists_every_condition};
use crate::masking::search::{
    chosen_upto, minimum_of, minimum_test_set, rows_upto, search_space, searched, MinimumTestSet,
    MinimumView, SEARCH_BUDGET,
};
use crate::masking::{
    independence_pairs, matrix_of, ConditionObservation, ConditionStatus, IndependenceMatrix,
    IndependencePair, MatrixView, ObservationView, PairView, RowView, RuntimeAnalysis,
    RuntimeView, StatusView, TruthTableRow, Variant,
};
use crate::ordered::name_seq;
use crate::text::{chars_of, decimal, push_decimal};
use vstd::prelude::*;
use vstd::string::*;

pub mod laws;

verus! {

// ---------------------------------------------------------------------------
// Pieces of text
// ---------------------------------------------------------------------------

/// The letter of a truth value.
pub open spec fn glyph(v: bool) -> Seq<char> {
    if v {
        "T"@
    } else {
        "F"@
    }
}

/// The letter of a truth value.
pub fn bool_glyph(v: bool) -> (r: &'static str)
    ensures
        r@ == glyph(v),
{
    if v {
        "T"
    } else {
        "F"
    }
}

/// The first `n` of some texts, with a separator between them.
pub open spec fn joined_upto(parts: Seq<Seq<char>>, sep: Seq<char>, n: int) -> Seq<char>
    decreases n,
{
    if n <= 0 {
        seq![]
    } else if n == 1 {
        parts[0]
    } else {
        joined_upto(parts, sep, n - 1) + sep + parts[n - 1]
    }
}

/// Texts with a separator between them.
pub open spec fn joined(parts: Seq<Seq<char>>, sep: Seq<char>) -> Seq<char> {
    joined_upto(parts, sep, parts.len() as int)
}

/// Appends texts with a separator between them.
fn push_joined(out: &mut String, parts: &Vec<String>, sep: &str)
    ensures
        final(out)@ == old(out)@ + joined(name_seq(parts@), sep@),
{
    let ghost start = out@;
    let ghost all = name_seq(parts@);
    let mut i: usize = 0;
    assert(start + joined_upto(all, sep@, 0) =~= start);
    while i < parts.len()
        invariant
            i <= parts@.len(),
            all == name_seq(parts@),
            out@ == start + joined_upto(all, sep@, i as int),
        decreases parts@.len() - i,
    {
        let ghost before = joined_upto(all, sep@, i as int);
        if i > 0 {
            out.append(sep);
        }
        out.append(parts[i].as_str());
        assert(all[i as int] == parts@[i as int]@);
        assert(out@ =~= start + joined_upto(all, sep@, i + 1));
        i += 1;
    }
}

/// `n` spaces.
pub open spec fn spaces(n: int) -> Seq<char>
    decreases n,
{
    if n <= 0 {
        seq![]
    } else {
        spaces(n - 1).push(' ')
    }
}

/// A text padded on the left to a width.
pub open spec fn right_aligned(s: Seq<char>, width: int) -> Seq<char> {
    spaces(width - s.len()) + s
}

/// A text padded on the right to a width.
pub open spec fn left_aligned(s: Seq<char>, width: int) -> Seq<char> {
    s + spaces(width - s.len())
}

/// Appends `n` spaces.
fn push_spaces(out: &mut String, n: usize)
    ensures
        final(out)@ == old(out)@ + spaces(n as int),
{
    let ghost start = out@;
    let mut i: usize = 0;
    assert(start + spaces(0) =~= start);
    while i < n
        invariant
            i <= n,
            out@ == start + spaces(i as int),
        decreases n - i,
    {
        out.push(' ');
        assert(out@ =~= start + spaces(i + 1));
        i += 1;
    }
}

/// How many spaces pad a text to a width.
fn padding(s: &str, width: usize) -> (n: usize)
    ensures
        spaces(n as int) == spaces(width - s@.len()),
{
    let len: usize = chars_of(s).len();
    if len < width {
        width - len
    } else {
        0
    }
}

/// A text padded on the left to a width.
fn align_right(s: &str, width: usize) -> (r: String)
    ensures
        r@ == right_aligned(s@, width as int),
{
    let mut out = String::new();
    push_spaces(&mut out, padding(s, width));
    out.append(s);
    assert(out@ =~= right_aligned(s@, width as int));
    out
}

// ---------------------------------------------------------------------------
// Rows and pairs
// ---------------------------------------------------------------------------

/// Whether a row gives each condition a value.
pub open spec fn complete_row(names: Seq<Seq<char>>, row: RowView) -> bool {
    forall|i: int| 0 <= i < names.len() ==> row.inputs.contains_key(#[trigger] names[i])
}

/// Whether both rows of a pair give each condition a value.
pub open spec fn complete_pair(names: Seq<Seq<char>>, pair: PairView) -> bool {
    complete_row(names, pair.test_1) && complete_row(names, pair.test_2)
}

/// Whether every row and pair of a matrix gives each condition a value.
pub open spec fn complete_matrix(m: MatrixView) -> bool {
    &&& forall|i: int|
        0 <= i < m.truth_table.len() ==> complete_row(m.conditions, #[trigger] m.truth_table[i])
    &&& forall|name: Seq<char>, i: int|
        m.independence_pairs.contains_key(name) && 0 <= i < m.independence_pairs[name].len()
            ==> complete_pair(m.conditions, #[trigger] m.independence_pairs[name][i])
}

/// Whether, besides, every pair that a status shows gives each condition a
/// value.
pub open spec fn complete_analysis(a: RuntimeView) -> bool {
    &&& complete_matrix(a.matrix)
    &&& forall|name: Seq<char>| #[trigger]
        a.condition_status.contains_key(name) ==> (a.condition_status[name] matches
            StatusView::Exercised(p) ==> complete_pair(a.matrix.conditions, p))
}

/// The values of the conditions in a row, one by one.
pub open spec fn input_parts(names: Seq<Seq<char>>, row: RowView) -> Seq<Seq<char>> {
    names.map_values(|c: Seq<char>| c + "="@ + glyph(row.inputs[c]))
}

/// The values of the conditions in a row: `a=T, b=F`.
pub open spec fn shown_inputs(names: Seq<Seq<char>>, row: RowView) -> Seq<char> {
    joined(input_parts(names, row), ", "@)
}

/// Renders the values of the conditions in a row.
pub fn format_inputs(conditions: &Vec<String>, row: &TruthTableRow) -> (r: String)
    requires
        complete_row(name_seq(conditions@), row.deep_view()),
    ensures
        r@ == shown_inputs(name_seq(conditions@), row.deep_view()),
{
    let ghost names = name_seq(conditions@);
    let ghost expected = input_parts(names, row.deep_view());
    let mut parts: Vec<String> = Vec::new();
    let mut i: usize = 0;
    while i < conditions.len()
        invariant
            i <= conditions@.len(),
            names == name_seq(conditions@),
            expected == input_parts(names, row.deep_view()),
            complete_row(names, row.deep_view()),
            parts@.len() == i,
            forall|k: int| 0 <= k < i ==> (#[trigger] parts@[k])@ == expected[k],
        decreases conditions@.len() - i,
    {
        assert(names[i as int] == conditions@[i as int]@);
        let value = match row.inputs.get(conditions[i].as_str()) {
            Some(v) => *v,
            None => false,
        };
        let mut part = conditions[i].clone();
        part.append("=");
        part.append(bool_glyph(value));
        parts.push(part);
        i += 1;
    }
    assert(name_seq(parts@) =~= expected);
    let mut out = String::new();
    push_joined(&mut out, &parts, ", ");
    assert(out@ =~= joined(expected, ", "@));
    out
}

/// The two rows of a pair with their results.
pub open spec fn shown_pair(names: Seq<Seq<char>>, pair: PairView) -> Seq<char> {
    "("@ + shown_inputs(names, pair.test_1) + ") -> "@ + glyph(pair.test_1.result) + "   vs   ("@
        + shown_inputs(names, pair.test_2) + ") -> "@ + glyph(pair.test_2.result)
}

/// Appends the two rows of a pair with their results.
fn push_pair(out: &mut String, conditions: &Vec<String>, pair: &IndependencePair)
    requires
        complete_pair(name_seq(conditions@), pair.deep_view()),
    ensures
        final(out)@ == old(out)@ + shown_pair(name_seq(conditions@), pair.deep_view()),
{
    let t1 = format_inputs(conditions, &pair.test_1);
    let t2 = format_inputs(conditions, &pair.test_2);
    out.append("(");
    out.append(t1.as_str());
    out.append(") -> ");
    out.append(bool_glyph(pair.test_1.result));
    out.append("   vs   (");
    out.append(t2.as_str());
    out.append(") -> ");
    out.append(bool_glyph(pair.test_2.result));
    assert(out@ =~= old(out)@ + shown_pair(name_seq(conditions@), pair.deep_view()));
}

// ---------------------------------------------------------------------------
// The static report
// ---------------------------------------------------------------------------

/// The heading of a truth table.
pub open spec fn table_header(names: Seq<Seq<char>>) -> Seq<char> {
    "    "@ + joined(names.map_values(|c: Seq<char>| right_aligned(c, 3)), " "@) + "  | result\n"@
        + "    "@ + joined(names.map_values(|c: Seq<char>| "---"@), "-"@) + "--+-------\n"@
}

/// A row of a truth table.
pub open spec fn table_line(names: Seq<Seq<char>>, row: RowView) -> Seq<char> {
    "    "@ + joined(
        names.map_values(|c: Seq<char>| right_aligned(glyph(row.inputs[c]), 3)),
        " "@,
    ) + "  |   "@ + glyph(row.result) + "\n"@
}

/// The first `n` rows of a truth table.
pub open spec fn table_lines(names: Seq<Seq<char>>, table: Seq<RowView>, n: int) -> Seq<char>
    decreases n,
{
    if n <= 0 {
        seq![]
    } else {
        table_lines(names, table, n - 1) + table_line(names, table[n - 1])
    }
}

/// The chosen pair of a condition, or that there is none.
pub open spec fn pair_line(
    names: Seq<Seq<char>>,
    chosen: Map<Seq<char>, PairView>,
    name: Seq<char>,
) -> Seq<char> {
    if chosen.contains_key(name) {
        "  "@ + name + ": "@ + shown_pair(names, chosen[name]) + "\n"@
    } else {
        "  "@ + name + ": no valid independence pair found\n"@
    }
}

/// The chosen pairs of the first `n` conditions.
pub open spec fn pair_lines(
    names: Seq<Seq<char>>,
    chosen: Map<Seq<char>, PairView>,
    n: int,
) -> Seq<char>
    decreases n,
{
    if n <= 0 {
        seq![]
    } else {
        pair_lines(names, chosen, n - 1) + pair_line(names, chosen, names[n - 1])
    }
}

/// The first `n` tests of a set.
pub open spec fn test_lines(names: Seq<Seq<char>>, tests: Seq<RowView>, n: int) -> Seq<char>
    decreases n,
{
    if n <= 0 {
        seq![]
    } else {
        test_lines(names, tests, n - 1) + "  ("@ + shown_inputs(names, tests[n - 1]) + ") -> "@
            + glyph(tests[n - 1].result) + "\n"@
    }
}

/// The name of a variant.
pub open spec fn variant_name(v: Variant) -> Seq<char> {
    match v {
        Variant::Masking => "Masking"@,
        Variant::UniqueCause => "UniqueCause"@,
    }
}

/// What a test set is called: the minimum only where that was proven.
pub open spec fn set_label(proven_minimal: bool) -> Seq<char> {
    if proven_minimal {
        "Minimum test set"@
    } else {
        "Smallest test set found (search budget exhausted; upper bound)"@
    }
}

/// The first part of a static report: what was found, and the truth table.
pub open spec fn static_head(source: Seq<char>, decisions: nat, m: MatrixView) -> Seq<char> {
    "floyd  static MC/DC analysis of "@ + source + "\n\n"@ + "Decisions recovered: "@ + decimal(
        decisions,
    ) + "\n"@ + (if m.conditions.len() > 0 {
        "Conditions:          "@ + joined(m.conditions, ", "@) + "\n"@
    } else {
        seq![]
    }) + "\n"@ + "Truth table ("@ + decimal(m.truth_table.len()) + " rows):\n"@ + table_header(
        m.conditions,
    ) + table_lines(m.conditions, m.truth_table, m.truth_table.len() as int) + "\n"@
}

/// The second part of a static report: the pairs of the minimum test set, and
/// its tests.
pub open spec fn static_tail(m: MatrixView, minimum: MinimumView) -> Seq<char> {
    "Independence pairs ("@ + variant_name(m.variant) + " variant):\n"@ + pair_lines(
        m.conditions,
        minimum.chosen_pairs,
        m.conditions.len() as int,
    ) + "\n"@ + set_label(minimum.proven_minimal) + ": "@ + decimal(minimum.tests.len())
        + " test(s)\n"@ + test_lines(m.conditions, minimum.tests, minimum.tests.len() as int)
}

/// The static report of a matrix.
pub open spec fn static_text(source: Seq<char>, decisions: nat, m: MatrixView) -> Seq<char> {
    static_head(source, decisions, m) + static_tail(m, minimum_of(m, SEARCH_BUDGET as nat))
}

/// Appends the heading of a truth table.
fn push_table_header(out: &mut String, conditions: &Vec<String>)
    ensures
        final(out)@ == old(out)@ + table_header(name_seq(conditions@)),
{
    let ghost names = name_seq(conditions@);
    let mut cells: Vec<String> = Vec::new();
    let mut rules: Vec<String> = Vec::new();
    let mut i: usize = 0;
    while i < conditions.len()
        invariant
            i <= conditions@.len(),
            names == name_seq(conditions@),
            cells@.len() == i,
            rules@.len() == i,
            forall|k: int| 0 <= k < i ==> (#[trigger] cells@[k])@ == right_aligned(names[k], 3),
            forall|k: int| 0 <= k < i ==> (#[trigger] rules@[k])@ == "---"@,
        decreases conditions@.len() - i,
    {
        assert(names[i as int] == conditions@[i as int]@);
        cells.push(align_right(conditions[i].as_str(), 3));
        rules.push("---".to_owned());
        i += 1;
    }
    assert(name_seq(cells@) =~= names.map_values(|c: Seq<char>| right_aligned(c, 3)));
    assert(name_seq(rules@) =~= names.map_values(|c: Seq<char>| "---"@));
    out.append("    ");
    push_joined(out, &cells, " ");
    out.append("  | result\n");
    out.append("    ");
    push_joined(out, &rules, "-");
    out.append("--+-------\n");
    assert(out@ =~= old(out)@ + table_header(names));
}

/// Appends a row of a truth table.
fn push_table_row(out: &mut String, conditions: &Vec<String>, row: &TruthTableRow)
    requires
        complete_row(name_seq(conditions@), row.deep_view()),
    ensures
        final(out)@ == old(out)@ + table_line(name_seq(conditions@), row.deep_view()),
{
    let ghost names = name_seq(conditions@);
    let ghost r = row.deep_view();
    let mut cells: Vec<String> = Vec::new();
    let mut i: usize = 0;
    while i < conditions.len()
        invariant
            i <= conditions@.len(),
            names == name_seq(conditions@),
            r == row.deep_view(),
            complete_row(names, r),
            cells@.len() == i,
            forall|k: int|
                0 <= k < i ==> (#[trigger] cells@[k])@ == right_aligned(
                    glyph(r.inputs[names[k]]),
                    3,
                ),
        decreases conditions@.len() - i,
    {
        assert(names[i as int] == conditions@[i as int]@);
        let value = match row.inputs.get(conditions[i].as_str()) {
            Some(v) => *v,
            None => false,
        };
        cells.push(align_right(bool_glyph(value), 3));
        i += 1;
    }
    assert(name_seq(cells@) =~= names.map_values(
        |c: Seq<char>| right_aligned(glyph(r.inputs[c]), 3),
    ));
    out.append("    ");
    push_joined(out, &cells, " ");
    out.append("  |   ");
    out.append(bool_glyph(row.result));
    out.append("\n");
    assert(out@ =~= old(out)@ + table_line(names, r));
}

/// The first part of a static report.
fn write_static_head(source: &str, decisions: usize, matrix: &IndependenceMatrix) -> (out: String)
    requires
        complete_matrix(matrix.deep_view()),
    ensures
        out@ == static_head(source@, decisions as nat, matrix.deep_view()),
{
    let ghost m = matrix.deep_view();
    let mut out = String::new();
    out.append("floyd  static MC/DC analysis of ");
    out.append(source);
    out.append("\n\n");
    out.append("Decisions recovered: ");
    push_decimal(&mut out, decisions as u128);
    out.append("\n");
    let ghost a = out@;
    if matrix.conditions.len() > 0 {
        out.append("Conditions:          ");
        push_joined(&mut out, &matrix.conditions, ", ");
        out.append("\n");
    }
    let ghost conditions_line = if m.conditions.len() > 0 {
        "Conditions:          "@ + joined(m.conditions, ", "@) + "\n"@
    } else {
        seq![]
    };
    assert(out@ =~= a + conditions_line);
    out.append("\n");
    out.append("Truth table (");
    push_decimal(&mut out, matrix.truth_table.len() as u128);
    out.append(" rows):\n");
    push_table_header(&mut out, &matrix.conditions);
    let ghost head = out@;
    let mut i: usize = 0;
    assert(head + table_lines(m.conditions, m.truth_table, 0) =~= head);
    while i < matrix.truth_table.len()
        invariant
            i <= matrix.truth_table@.len(),
            m == matrix.deep_view(),
            complete_matrix(m),
            out@ == head + table_lines(m.conditions, m.truth_table, i as int),
        decreases matrix.truth_table@.len() - i,
    {
        assert(m.truth_table[i as int] == matrix.truth_table@[i as int].deep_view());
        push_table_row(&mut out, &matrix.conditions, &matrix.truth_table[i]);
        assert(out@ =~= head + table_lines(m.conditions, m.truth_table, i + 1));
        i += 1;
    }
    out.append("\n");
    assert(out@ =~= static_head(source@, decisions as nat, m));
    out
}

/// The pairs and tests of a minimum set give each condition a value where the
/// matrix does.
proof fn minimum_is_complete(m: MatrixView, budget: nat)
    requires
        complete_matrix(m),
    ensures
        forall|name: Seq<char>| #[trigger]
            minimum_of(m, budget).chosen_pairs.contains_key(name) ==> complete_pair(
                m.conditions,
                minimum_of(m, budget).chosen_pairs[name],
            ),
        forall|i: int|
            0 <= i < minimum_of(m, budget).tests.len() ==> complete_row(
                m.conditions,
                #[trigger] minimum_of(m, budget).tests[i],
            ),
{
    let choices = search_space(m);
    if let Some(best) = searched(choices, budget).best {
        chosen_are_complete(m, best.chosen, choices.len() as int);
        tests_are_complete(m, best.rows, m.truth_table.len() as int);
    }
}

proof fn chosen_are_complete(m: MatrixView, chosen: Seq<usize>, n: int)
    requires
        complete_matrix(m),
    ensures
        forall|name: Seq<char>| #[trigger]
            chosen_upto(m, search_space(m), chosen, n).contains_key(name) ==> complete_pair(
                m.conditions,
                chosen_upto(m, search_space(m), chosen, n)[name],
            ),
    decreases n,
{
    if n > 0 {
        chosen_are_complete(m, chosen, n - 1);
        let rest = chosen_upto(m, search_space(m), chosen, n - 1);
        assert forall|name: Seq<char>| #[trigger]
            chosen_upto(m, search_space(m), chosen, n).contains_key(name) implies complete_pair(
            m.conditions,
            chosen_upto(m, search_space(m), chosen, n)[name],
        ) by {
            assert(rest.contains_key(name) ==> complete_pair(m.conditions, rest[name]));
        }
    }
}

proof fn tests_are_complete(m: MatrixView, rows: Set<usize>, n: int)
    requires
        complete_matrix(m),
        n <= m.truth_table.len(),
    ensures
        forall|i: int|
            0 <= i < rows_upto(m.truth_table, rows, n).len() ==> complete_row(
                m.conditions,
                #[trigger] rows_upto(m.truth_table, rows, n)[i],
            ),
    decreases n,
{
    if n > 0 {
        tests_are_complete(m, rows, n - 1);
        let rest = rows_upto(m.truth_table, rows, n - 1);
        assert forall|i: int| 0 <= i < rows_upto(m.truth_table, rows, n).len() implies complete_row(
            m.conditions,
            #[trigger] rows_upto(m.truth_table, rows, n)[i],
        ) by {
            if i < rest.len() {
                assert(rows_upto(m.truth_table, rows, n)[i] == rest[i]);
            } else {
                assert(complete_row(m.conditions, m.truth_table[n - 1]));
            }
        }
    }
}

/// The second part of a static report.
fn write_static_tail(matrix: &IndependenceMatrix, minimum: &MinimumTestSet) -> (out: String)
    requires
        forall|name: Seq<char>| #[trigger]
            minimum.deep_view().chosen_pairs.contains_key(name) ==> complete_pair(
                matrix.deep_view().conditions,
                minimum.deep_view().chosen_pairs[name],
            ),
        forall|i: int|
            0 <= i < minimum.deep_view().tests.len() ==> complete_row(
                matrix.deep_view().conditions,
                #[trigger] minimum.deep_view().tests[i],
            ),
    ensures
        out@ == static_tail(matrix.deep_view(), minimum.deep_view()),
{
    let ghost m = matrix.deep_view();
    let ghost set = minimum.deep_view();
    let mut out = String::new();
    out.append("Independence pairs (");
    match matrix.variant {
        Variant::Masking => out.append("Masking"),
        Variant::UniqueCause => out.append("UniqueCause"),
    }
    out.append(" variant):\n");
    let ghost head = out@;
    let mut i: usize = 0;
    assert(head + pair_lines(m.conditions, set.chosen_pairs, 0) =~= head);
    while i < matrix.conditions.len()
        invariant
            i <= matrix.conditions@.len(),
            m == matrix.deep_view(),
            set == minimum.deep_view(),
            forall|name: Seq<char>| #[trigger]
                set.chosen_pairs.contains_key(name) ==> complete_pair(
                    m.conditions,
                    set.chosen_pairs[name],
                ),
            out@ == head + pair_lines(m.conditions, set.chosen_pairs, i as int),
        decreases matrix.conditions@.len() - i,
    {
        let name = &matrix.conditions[i];
        assert(m.conditions[i as int] == name@);
        out.append("  ");
        out.append(name.as_str());
        match minimum.chosen_pairs.get(name.as_str()) {
            Some(pair) => {
                assert(set.chosen_pairs.contains_key(name@));
                assert(set.chosen_pairs[name@] == pair.deep_view());
                out.append(": ");
                push_pair(&mut out, &matrix.conditions, pair);
                out.append("\n");
            },
            None => {
                assert(!set.chosen_pairs.contains_key(name@));
                out.append(": no valid independence pair found\n");
            },
        }
        assert(out@ =~= head + pair_lines(m.conditions, set.chosen_pairs, i + 1));
        i += 1;
    }
    out.append("\n");
    if minimum.proven_minimal {
        out.append("Minimum test set");
    } else {
        out.append("Smallest test set found (search budget exhausted; upper bound)");
    }
    out.append(": ");
    push_decimal(&mut out, minimum.tests.len() as u128);
    out.append(" test(s)\n");
    let ghost middle = out@;
    assert(set.tests.len() == minimum.tests@.len());
    let mut k: usize = 0;
    assert(middle + test_lines(m.conditions, set.tests, 0) =~= middle);
    while k < minimum.tests.len()
        invariant
            k <= minimum.tests@.len(),
            m == matrix.deep_view(),
            set == minimum.deep_view(),
            forall|i: int|
                0 <= i < set.tests.len() ==> complete_row(m.conditions, #[trigger] set.tests[i]),
            out@ == middle + test_lines(m.conditions, set.tests, k as int),
        decreases minimum.tests@.len() - k,
    {
        let row = &minimum.tests[k];
        assert(set.tests[k as int] == row.deep_view());
        out.append("  (");
        out.append(format_inputs(&matrix.conditions, row).as_str());
        out.append(") -> ");
        out.append(bool_glyph(row.result));
        out.append("\n");
        assert(out@ =~= middle + test_lines(m.conditions, set.tests, k + 1));
        k += 1;
    }
    assert(out@ =~= static_tail(m, set));
    out
}

/// Renders the static report of a matrix: the truth table, the pairs of its
/// minimum test set and the tests of that set.
pub fn static_report(source: &str, decisions: usize, matrix: &IndependenceMatrix) -> (out: String)
    requires
        complete_matrix(matrix.deep_view()),
    ensures
        out@ == static_text(source@, decisions as nat, matrix.deep_view()),
{
    let minimum = minimum_test_set(matrix);
    proof {
        minimum_is_complete(matrix.deep_view(), SEARCH_BUDGET as nat);
    }
    let mut out = write_static_head(source, decisions, matrix);
    let tail = write_static_tail(matrix, &minimum);
    out.append(tail.as_str());
    out
}

// ---------------------------------------------------------------------------
// The runtime report
// ---------------------------------------------------------------------------

/// The observed value of a condition: `T`, `F`, or `-` if it was not
/// evaluated.
pub open spec fn observed_glyph(o: ObservationView, name: Seq<char>) -> Seq<char> {
    match o.inputs.get(name) {
        Some(v) => glyph(v),
        None => "-"@,
    }
}

/// The observed values of the conditions, and the result.
pub open spec fn observation_parts(names: Seq<Seq<char>>, o: ObservationView) -> Seq<Seq<char>> {
    names.map_values(|c: Seq<char>| c + "="@ + observed_glyph(o, c)).push(
        "result="@ + glyph(o.result),
    )
}

/// One observation.
pub open spec fn observation_line(names: Seq<Seq<char>>, o: ObservationView) -> Seq<char> {
    let label = match o.test_name {
        Some(n) => n,
        None => "?"@,
    };
    "  "@ + left_aligned(label, 30) + "  "@ + joined(observation_parts(names, o), "  "@) + "\n"@
}

/// The first `n` observations.
pub open spec fn observation_lines(
    names: Seq<Seq<char>>,
    observations: Seq<ObservationView>,
    n: int,
) -> Seq<char>
    decreases n,
{
    if n <= 0 {
        seq![]
    } else {
        observation_lines(names, observations, n - 1) + observation_line(
            names,
            observations[n - 1],
        )
    }
}

/// The status of a condition: the pair that exercises it, or the inputs that
/// a test would need.
pub open spec fn status_line(a: RuntimeView, name: Seq<char>) -> Seq<char> {
    let names = a.matrix.conditions;
    if !a.condition_status.contains_key(name) {
        "  ? "@ + name + ": unknown\n"@
    } else {
        match a.condition_status[name] {
            StatusView::Exercised(pair) => "  ✓ "@ + name + ": EXERCISED  via "@ + shown_pair(
                names,
                pair,
            ) + "\n"@,
            StatusView::Unexercised => if a.matrix.independence_pairs.contains_key(name)
                && a.matrix.independence_pairs[name].len() > 0 {
                let pair = a.matrix.independence_pairs[name][0];
                "  ✗ "@ + name + ": UNEXERCISED — needs a test exercising ("@ + shown_inputs(
                    names,
                    pair.test_1,
                ) + ") or ("@ + shown_inputs(names, pair.test_2) + ")\n"@
            } else {
                "  ✗ "@ + name + ": UNEXERCISED (no valid pair available)\n"@
            },
        }
    }
}

/// The status of the first `n` conditions.
pub open spec fn status_lines(a: RuntimeView, n: int) -> Seq<char>
    decreases n,
{
    if n <= 0 {
        seq![]
    } else {
        status_lines(a, n - 1) + status_line(a, a.matrix.conditions[n - 1])
    }
}

/// Whether a condition is exercised.
pub open spec fn is_exercised(a: RuntimeView, name: Seq<char>) -> bool {
    a.condition_status.contains_key(name) && a.condition_status[name] is Exercised
}

/// How many of the first `n` conditions are exercised.
pub open spec fn exercised_upto(a: RuntimeView, n: int) -> nat
    decreases n,
{
    if n <= 0 {
        0
    } else {
        exercised_upto(a, n - 1) + if is_exercised(a, a.matrix.conditions[n - 1]) {
            1nat
        } else {
            0nat
        }
    }
}

/// How many conditions are exercised.
pub open spec fn exercised_of(a: RuntimeView) -> nat {
    exercised_upto(a, a.matrix.conditions.len() as int)
}

/// The observations, if there are any.
pub open spec fn observations_text(
    names: Seq<Seq<char>>,
    observations: Seq<ObservationView>,
) -> Seq<char> {
    if observations.len() == 0 {
        seq![]
    } else {
        "Per-test observations:\n"@ + observation_lines(
            names,
            observations,
            observations.len() as int,
        ) + "\n"@
    }
}

/// The coverage, if there are conditions; `percent` is the exercised share in
/// percent.
pub open spec fn coverage_text(a: RuntimeView, percent: Seq<char>) -> Seq<char> {
    if a.matrix.conditions.len() == 0 {
        seq![]
    } else {
        "\nMC/DC coverage: "@ + decimal(exercised_of(a)) + " of "@ + decimal(
            a.matrix.conditions.len(),
        ) + " conditions exercised ("@ + percent + "%)\n"@
    }
}

/// The runtime report of an analysis, behind its heading.
pub open spec fn runtime_text(
    tests: nat,
    observations: Seq<ObservationView>,
    a: RuntimeView,
    percent: Seq<char>,
) -> Seq<char> {
    "Tests discovered: "@ + decimal(tests) + "\nObservations:     "@ + decimal(observations.len())
        + "\nConditions:       "@ + (if a.matrix.conditions.len() == 0 {
        "(none — no decision recovered)"@
    } else {
        joined(a.matrix.conditions, ", "@)
    }) + "\n\n"@ + observations_text(a.matrix.conditions, observations)
        + "Per-condition MC/DC status:\n"@ + status_lines(a, a.matrix.conditions.len() as int)
        + coverage_text(a, percent)
}

/// The number of conditions that are exercised.
pub fn exercised_count(analysis: &RuntimeAnalysis) -> (n: usize)
    ensures
        n == exercised_of(analysis.deep_view()),
        n <= analysis.deep_view().matrix.conditions.len(),
{
    let ghost a = analysis.deep_view();
    let mut n: usize = 0;
    let mut i: usize = 0;
    while i < analysis.matrix.conditions.len()
        invariant
            i <= analysis.matrix.conditions@.len(),
            a == analysis.deep_view(),
            n <= i,
            n == exercised_upto(a, i as int),
        decreases analysis.matrix.conditions@.len() - i,
    {
        let name = &analysis.matrix.conditions[i];
        assert(a.matrix.conditions[i as int] == name@);
        if let Some(ConditionStatus::Exercised(_)) = analysis.condition_status.get(name.as_str()) {
            n += 1;
        }
        i += 1;
    }
    n
}

/// Appends one observation.
fn push_observation(out: &mut String, conditions: &Vec<String>, o: &ConditionObservation)
    ensures
        final(out)@ == old(out)@ + observation_line(name_seq(conditions@), o.deep_view()),
{
    let ghost names = name_seq(conditions@);
    let ghost view = o.deep_view();
    let ghost expected = observation_parts(names, view);
    let mut parts: Vec<String> = Vec::new();
    let mut i: usize = 0;
    while i < conditions.len()
        invariant
            i <= conditions@.len(),
            names == name_seq(conditions@),
            view == o.deep_view(),
            expected == observation_parts(names, view),
            parts@.len() == i,
            forall|k: int| 0 <= k < i ==> (#[trigger] parts@[k])@ == expected[k],
        decreases conditions@.len() - i,
    {
        assert(names[i as int] == conditions@[i as int]@);
        let mut part = conditions[i].clone();
        part.append("=");
        match o.inputs.get(conditions[i].as_str()) {
            Some(v) => part.append(bool_glyph(*v)),
            None => part.append("-"),
        }
        parts.push(part);
        i += 1;
    }
    let mut result = String::new();
    result.append("result=");
    result.append(bool_glyph(o.result));
    assert(result@ =~= "result="@ + glyph(view.result));
    parts.push(result);
    assert(name_seq(parts@) =~= expected);
    out.append("  ");
    match &o.test_name {
        Some(name) => {
            out.append(name.as_str());
            push_spaces(out, padding(name.as_str(), 30));
        },
        None => {
            out.append("?");
            push_spaces(out, padding("?", 30));
        },
    }
    out.append("  ");
    push_joined(out, &parts, "  ");
    out.append("\n");
    assert(out@ =~= old(out)@ + observation_line(names, view));
}

/// Appends the observations, if there are any.
fn push_observations(out: &mut String, conditions: &Vec<String>, observations: &[ConditionObservation])
    ensures
        final(out)@ == old(out)@ + observations_text(
            name_seq(conditions@),
            observations.deep_view(),
        ),
{
    let ghost names = name_seq(conditions@);
    let ghost all = observations.deep_view();
    if observations.len() == 0 {
        assert(old(out)@ + observations_text(names, all) =~= old(out)@);
        return;
    }
    out.append("Per-test observations:\n");
    let ghost head = out@;
    let mut i: usize = 0;
    assert(head + observation_lines(names, all, 0) =~= head);
    while i < observations.len()
        invariant
            i <= observations@.len(),
            names == name_seq(conditions@),
            all == observations.deep_view(),
            out@ == head + observation_lines(names, all, i as int),
        decreases observations@.len() - i,
    {
        assert(all[i as int] == observations@[i as int].deep_view());
        push_observation(out, conditions, &observations[i]);
        assert(out@ =~= head + observation_lines(names, all, i + 1));
        i += 1;
    }
    out.append("\n");
    assert(out@ =~= old(out)@ + observations_text(names, all));
}

/// Appends the status of a condition.
fn push_status(out: &mut String, analysis: &RuntimeAnalysis, name: &String)
    requires
        complete_analysis(analysis.deep_view()),
    ensures
        final(out)@ == old(out)@ + status_line(analysis.deep_view(), name@),
{
    let ghost a = analysis.deep_view();
    let conditions = &analysis.matrix.conditions;
    match analysis.condition_status.get(name.as_str()) {
        Some(ConditionStatus::Exercised(pair)) => {
            assert(a.condition_status.contains_key(name@));
            assert(a.condition_status[name@] == StatusView::Exercised(pair.deep_view()));
            out.append("  ✓ ");
            out.append(name.as_str());
            out.append(": EXERCISED  via ");
            push_pair(out, conditions, pair);
            out.append("\n");
        },
        Some(ConditionStatus::Unexercised) => {
            assert(a.condition_status[name@] == StatusView::Unexercised);
            out.append("  ✗ ");
            out.append(name.as_str());
            match first_pair(&analysis.matrix, name) {
                Some(pair) => {
                    assert(complete_pair(
                        a.matrix.conditions,
                        a.matrix.independence_pairs[name@][0],
                    ));
                    out.append(": UNEXERCISED — needs a test exercising (");
                    out.append(format_inputs(conditions, &pair.test_1).as_str());
                    out.append(") or (");
                    out.append(format_inputs(conditions, &pair.test_2).as_str());
                    out.append(")\n");
                },
                None => {
                    out.append(": UNEXERCISED (no valid pair available)\n");
                },
            }
        },
        None => {
            assert(!a.condition_status.contains_key(name@));
            out.append("  ? ");
            out.append(name.as_str());
            out.append(": unknown\n");
        },
    }
    assert(out@ =~= old(out)@ + status_line(a, name@));
}

/// The first pair of a condition, if it has one.
fn first_pair<'a>(matrix: &'a IndependenceMatrix, name: &String) -> (r: Option<
    &'a IndependencePair,
>)
    ensures
        ({
            let m = matrix.deep_view();
            match r {
                Some(pair) => m.independence_pairs.contains_key(name@)
                    && m.independence_pairs[name@].len() > 0 && m.independence_pairs[name@][0]
                    == pair.deep_view(),
                None => !(m.independence_pairs.contains_key(name@)
                    && m.independence_pairs[name@].len() > 0),
            }
        }),
{
    match matrix.independence_pairs.get(name.as_str()) {
        Some(pairs) => {
            assert(matrix.deep_view().independence_pairs[name@] == pairs.deep_view());
            if pairs.len() > 0 {
                Some(&pairs[0])
            } else {
                None
            }
        },
        None => None,
    }
}

/// Renders the runtime report of an analysis, behind its heading. `percent`
/// is the exercised share of the conditions in percent.
pub fn runtime_report_body(
    tests: usize,
    observations: &[ConditionObservation],
    analysis: &RuntimeAnalysis,
    percent: &str,
) -> (out: String)
    requires
        complete_analysis(analysis.deep_view()),
    ensures
        out@ == runtime_text(
            tests as nat,
            observations.deep_view(),
            analysis.deep_view(),
            percent@,
        ),
{
    let ghost a = analysis.deep_view();
    let conditions = &analysis.matrix.conditions;
    let mut out = String::new();
    out.append("Tests discovered: ");
    push_decimal(&mut out, tests as u128);
    out.append("\nObservations:     ");
    push_decimal(&mut out, observations.len() as u128);
    out.append("\nConditions:       ");
    let ghost start = out@;
    if conditions.len() == 0 {
        out.append("(none — no decision recovered)");
    } else {
        push_joined(&mut out, conditions, ", ");
    }
    let ghost listed = if a.matrix.conditions.len() == 0 {
        "(none — no decision recovered)"@
    } else {
        joined(a.matrix.conditions, ", "@)
    };
    assert(out@ =~= start + listed);
    out.append("\n\n");
    push_observations(&mut out, conditions, observations);
    out.append("Per-condition MC/DC status:\n");
    let ghost head = out@;
    let mut i: usize = 0;
    assert(head + status_lines(a, 0) =~= head);
    while i < conditions.len()
        invariant
            i <= conditions@.len(),
            conditions == &analysis.matrix.conditions,
            a == analysis.deep_view(),
            complete_analysis(a),
            out@ == head + status_lines(a, i as int),
        decreases conditions@.len() - i,
    {
        assert(a.matrix.conditions[i as int] == conditions@[i as int]@);
        push_status(&mut out, analysis, &conditions[i]);
        assert(out@ =~= head + status_lines(a, i + 1));
        i += 1;
    }
    let ghost body = out@;
    if conditions.len() > 0 {
        out.append("\nMC/DC coverage: ");
        push_decimal(&mut out, exercised_count(analysis) as u128);
        out.append(" of ");
        push_decimal(&mut out, conditions.len() as u128);
        out.append(" conditions exercised (");
        out.append(percent);
        out.append("%)\n");
    }
    assert(out@ =~= body + coverage_text(a, percent@));
    assert(out@ =~= runtime_text(tests as nat, observations.deep_view(), a, percent@));
    out
}

/// The heading of a runtime report.
pub fn runtime_heading(source: &str) -> (out: String)
    ensures
        out@ == "floyd  runtime MC/DC analysis of "@ + source@ + "\n\n"@,
{
    let mut out = String::new();
    out.append("floyd  runtime MC/DC analysis of ");
    out.append(source);
    out.append("\n\n");
    assert(out@ =~= "floyd  runtime MC/DC analysis of "@ + source@ + "\n\n"@);
    out
}

/// Renders the runtime report of a single source file.
pub fn runtime_report(
    source: &str,
    tests: usize,
    observations: &[ConditionObservation],
    analysis: &RuntimeAnalysis,
    percent: &str,
) -> (out: String)
    requires
        complete_analysis(analysis.deep_view()),
    ensures
        out@ == "floyd  runtime MC/DC analysis of "@ + source@ + "\n\n"@ + runtime_text(
            tests as nat,
            observations.deep_view(),
            analysis.deep_view(),
            percent@,
        ),
{
    let mut out = runtime_heading(source);
    out.append(runtime_report_body(tests, observations, analysis, percent).as_str());
    out
}

/// Renders the runtime report of a cargo project with a number of test
/// targets.
pub fn project_report(
    manifest: &str,
    targets: usize,
    tests: usize,
    observations: &[ConditionObservation],
    analysis: &RuntimeAnalysis,
    percent: &str,
) -> (out: String)
    requires
        complete_analysis(analysis.deep_view()),
    ensures
        out@ == "floyd  runtime MC/DC analysis of "@ + manifest@ + "\n\n"@ + "Test targets: "@
            + decimal(targets as nat) + "\n"@ + runtime_text(
            tests as nat,
            observations.deep_view(),
            analysis.deep_view(),
            percent@,
        ),
{
    let mut out = runtime_heading(manifest);
    out.append("Test targets: ");
    push_decimal(&mut out, targets as u128);
    out.append("\n");
    out.append(runtime_report_body(tests, observations, analysis, percent).as_str());
    out
}

// ---------------------------------------------------------------------------
// JUnit XML
// ---------------------------------------------------------------------------

/// A character as it stands in XML text and attributes.
pub open spec fn escaped_char(c: char) -> Seq<char> {
    if c == '&' {
        "&amp;"@
    } else if c == '<' {
        "&lt;"@
    } else if c == '>' {
        "&gt;"@
    } else if c == '"' {
        "&quot;"@
    } else if c == '\'' {
        "&apos;"@
    } else {
        seq![c]
    }
}

/// A text with the five XML special characters replaced.
pub open spec fn escaped(s: Seq<char>) -> Seq<char>
    decreases s.len(),
{
    if s.len() == 0 {
        seq![]
    } else {
        escaped(s.drop_last()) + escaped_char(s.last())
    }
}

/// Escapes the five XML special characters so condition names like
/// `speed > 50` survive intact in attribute and text positions.
pub fn xml_escape(s: &str) -> (out: String)
    ensures
        out@ == escaped(s@),
{
    let chars = chars_of(s);
    let mut out = String::new();
    let mut i: usize = 0;
    assert(s@.take(0) =~= seq![]);
    assert(out@ =~= seq![]);
    while i < chars.len()
        invariant
            i <= chars@.len(),
            chars@ == s@,
            out@ == escaped(s@.take(i as int)),
        decreases chars@.len() - i,
    {
        let c: char = chars[i];
        let ghost before = out@;
        if c == '&' {
            out.append("&amp;");
        } else if c == '<' {
            out.append("&lt;");
        } else if c == '>' {
            out.append("&gt;");
        } else if c == '"' {
            out.append("&quot;");
        } else if c == '\'' {
            out.append("&apos;");
        } else {
            out.push(c);
        }
        assert(out@ =~= before + escaped_char(c));
        assert(s@.take(i + 1).drop_last() =~= s@.take(i as int));
        assert(s@.take(i + 1).last() == c);
        i += 1;
    }
    assert(s@.take(i as int) =~= s@);
    out
}

/// What a condition that is not exercised would need.
pub open spec fn needed(m: MatrixView, name: Seq<char>) -> Seq<char> {
    if m.independence_pairs.contains_key(name) && m.independence_pairs[name].len() > 0 {
        let pair = m.independence_pairs[name][0];
        "needs a test exercising ("@ + shown_inputs(m.conditions, pair.test_1) + ") -> "@ + glyph(
            pair.test_1.result,
        ) + " or ("@ + shown_inputs(m.conditions, pair.test_2) + ") -> "@ + glyph(
            pair.test_2.result,
        )
    } else {
        "no valid independence pair available for this condition"@
    }
}

/// The test case of a condition: it passes if the condition is exercised.
pub open spec fn junit_case(a: RuntimeView, name: Seq<char>) -> Seq<char> {
    let head = "    <testcase name=\""@ + escaped(name) + "\" classname=\"floyd.mcdc\""@;
    if is_exercised(a, name) {
        head + "/>\n"@
    } else {
        head + ">\n"@ + "      <failure message=\""@ + escaped(needed(a.matrix, name))
            + "\" type=\"UnexercisedCondition\"/>\n"@ + "    </testcase>\n"@
    }
}

/// The test cases of the first `n` conditions.
pub open spec fn junit_cases(a: RuntimeView, n: int) -> Seq<char>
    decreases n,
{
    if n <= 0 {
        seq![]
    } else {
        junit_cases(a, n - 1) + junit_case(a, a.matrix.conditions[n - 1])
    }
}

/// The counts of a JUnit element.
pub open spec fn junit_counts(a: RuntimeView) -> Seq<char> {
    "\" tests=\""@ + decimal(a.matrix.conditions.len()) + "\" failures=\""@ + decimal(
        (a.matrix.conditions.len() - exercised_of(a)) as nat,
    ) + "\">\n"@
}

/// The JUnit report of an analysis: one suite, one test case per condition.
pub open spec fn junit_text(source: Seq<char>, a: RuntimeView) -> Seq<char> {
    "<?xml version=\"1.0\" encoding=\"UTF-8\"?>\n"@ + "<testsuites name=\"floyd"@ + junit_counts(a)
        + "  <testsuite name=\""@ + escaped(source) + junit_counts(a) + junit_cases(
        a,
        a.matrix.conditions.len() as int,
    ) + "  </testsuite>\n"@ + "</testsuites>\n"@
}

/// Renders what a condition that is not exercised would need.
fn needed_text(matrix: &IndependenceMatrix, name: &String) -> (out: String)
    requires
        complete_matrix(matrix.deep_view()),
    ensures
        out@ == needed(matrix.deep_view(), name@),
{
    let ghost m = matrix.deep_view();
    match first_pair(matrix, name) {
        Some(pair) => {
            assert(complete_pair(m.conditions, m.independence_pairs[name@][0]));
            let mut out = String::new();
            out.append("needs a test exercising (");
            out.append(format_inputs(&matrix.conditions, &pair.test_1).as_str());
            out.append(") -> ");
            out.append(bool_glyph(pair.test_1.result));
            out.append(" or (");
            out.append(format_inputs(&matrix.conditions, &pair.test_2).as_str());
            out.append(") -> ");
            out.append(bool_glyph(pair.test_2.result));
            assert(out@ =~= needed(m, name@));
            out
        },
        None => "no valid independence pair available for this condition".to_owned(),
    }
}

/// Appends the test case of a condition.
fn push_junit_case(out: &mut String, analysis: &RuntimeAnalysis, name: &String)
    requires
        complete_matrix(analysis.deep_view().matrix),
    ensures
        final(out)@ == old(out)@ + junit_case(analysis.deep_view(), name@),
{
    let ghost a = analysis.deep_view();
    let exercised = match analysis.condition_status.get(name.as_str()) {
        Some(ConditionStatus::Exercised(_)) => true,
        _ => false,
    };
    assert(exercised == is_exercised(a, name@));
    out.append("    <testcase name=\"");
    out.append(xml_escape(name.as_str()).as_str());
    out.append("\" classname=\"floyd.mcdc\"");
    if exercised {
        out.append("/>\n");
    } else {
        out.append(">\n");
        out.append("      <failure message=\"");
        out.append(xml_escape(needed_text(&analysis.matrix, name).as_str()).as_str());
        out.append("\" type=\"UnexercisedCondition\"/>\n");
        out.append("    </testcase>\n");
    }
    assert(out@ =~= old(out)@ + junit_case(a, name@));
}

/// Appends the counts of a JUnit element.
fn push_junit_counts(out: &mut String, analysis: &RuntimeAnalysis)
    ensures
        final(out)@ == old(out)@ + junit_counts(analysis.deep_view()),
{
    let total: usize = analysis.matrix.conditions.len();
    let failures: usize = total - exercised_count(analysis);
    out.append("\" tests=\"");
    push_decimal(out, total as u128);
    out.append("\" failures=\"");
    push_decimal(out, failures as u128);
    out.append("\">\n");
    assert(out@ =~= old(out)@ + junit_counts(analysis.deep_view()));
}

/// Renders the JUnit XML report of a runtime analysis: one `<testsuite>`, one
/// `<testcase>` per condition. Exercised conditions pass; the others fail
/// with a message that names the inputs a test would need.
pub fn runtime_junit(source: &str, analysis: &RuntimeAnalysis) -> (out: String)
    requires
        complete_matrix(analysis.deep_view().matrix),
    ensures
        out@ == junit_text(source@, analysis.deep_view()),
{
    let ghost a = analysis.deep_view();
    let mut out = String::new();
    out.append("<?xml version=\"1.0\" encoding=\"UTF-8\"?>\n");
    out.append("<testsuites name=\"floyd");
    push_junit_counts(&mut out, analysis);
    out.append("  <testsuite name=\"");
    out.append(xml_escape(source).as_str());
    push_junit_counts(&mut out, analysis);
    let ghost head = out@;
    let mut i: usize = 0;
    assert(head + junit_cases(a, 0) =~= head);
    while i < analysis.matrix.conditions.len()
        invariant
            i <= analysis.matrix.conditions@.len(),
            a == analysis.deep_view(),
            complete_matrix(a.matrix),
            out@ == head + junit_cases(a, i as int),
        decreases analysis.matrix.conditions@.len() - i,
    {
        assert(a.matrix.conditions[i as int] == analysis.matrix.conditions@[i as int]@);
        push_junit_case(&mut out, analysis, &analysis.matrix.conditions[i]);
        assert(out@ =~= head + junit_cases(a, i + 1));
        i += 1;
    }
    out.append("  </testsuite>\n");
    out.append("</testsuites>\n");
    assert(out@ =~= junit_text(source@, a));
    out
}

// ---------------------------------------------------------------------------
// Checks
// ---------------------------------------------------------------------------

/// Whether a row gives each condition a value.
fn row_is_complete(conditions: &Vec<String>, row: &TruthTableRow) -> (r: bool)
    ensures
        r == complete_row(name_seq(conditions@), row.deep_view()),
{
    let ghost names = name_seq(conditions@);
    let mut i: usize = 0;
    while i < conditions.len()
        invariant
            i <= conditions@.len(),
            names == name_seq(conditions@),
            forall|k: int| 0 <= k < i ==> row.inputs@.contains_key(#[trigger] names[k]),
        decreases conditions@.len() - i,
    {
        assert(names[i as int] == conditions@[i as int]@);
        if !row.inputs.contains_key(conditions[i].as_str()) {
            assert(!row.deep_view().inputs.contains_key(names[i as int]));
            return false;
        }
        i += 1;
    }
    true
}

/// Whether every row and pair of a matrix gives each condition a value, so
/// that the matrix can be rendered.
pub fn matrix_is_complete(matrix: &IndependenceMatrix) -> (r: bool)
    ensures
        r == complete_matrix(matrix.deep_view()),
{
    let ghost m = matrix.deep_view();
    let mut i: usize = 0;
    while i < matrix.truth_table.len()
        invariant
            i <= matrix.truth_table@.len(),
            m == matrix.deep_view(),
            forall|k: int| 0 <= k < i ==> complete_row(m.conditions, #[trigger] m.truth_table[k]),
        decreases matrix.truth_table@.len() - i,
    {
        assert(m.truth_table[i as int] == matrix.truth_table@[i as int].deep_view());
        if !row_is_complete(&matrix.conditions, &matrix.truth_table[i]) {
            return false;
        }
        i += 1;
    }
    let n: usize = matrix.independence_pairs.len();
    let ghost names = matrix.independence_pairs.order();
    let mut k: usize = 0;
    while k < n
        invariant
            k <= n,
            n == names.len(),
            names == matrix.independence_pairs.order(),
            m == matrix.deep_view(),
            forall|j: int, q: int|
                0 <= j < k && 0 <= q < m.independence_pairs[names[j]].len() ==> complete_pair(
                    m.conditions,
                    #[trigger] m.independence_pairs[names[j]][q],
                ),
        decreases n - k,
    {
        let name = matrix.independence_pairs.name_at(k);
        let pairs = matrix.independence_pairs.value_at(k);
        assert(m.independence_pairs[names[k as int]] == pairs.deep_view());
        if !pairs_are_complete(&matrix.conditions, pairs) {
            assert(m.independence_pairs.contains_key(names[k as int]));
            return false;
        }
        k += 1;
    }
    assert forall|name: Seq<char>, q: int|
        m.independence_pairs.contains_key(name) && 0 <= q
            < m.independence_pairs[name].len() implies complete_pair(
        m.conditions,
        #[trigger] m.independence_pairs[name][q],
    ) by {
        assert(names.to_set().contains(name));
        let j = choose|j: int| 0 <= j < names.len() && names[j] == name;
        assert(m.independence_pairs[names[j]][q] == m.independence_pairs[name][q]);
    }
    true
}

/// Whether both rows of each of some pairs give each condition a value.
fn pairs_are_complete(conditions: &Vec<String>, pairs: &Vec<IndependencePair>) -> (r: bool)
    ensures
        r == forall|q: int|
            0 <= q < pairs.deep_view().len() ==> complete_pair(
                name_seq(conditions@),
                #[trigger] pairs.deep_view()[q],
            ),
{
    let ghost all = pairs.deep_view();
    let mut i: usize = 0;
    while i < pairs.len()
        invariant
            i <= pairs@.len(),
            all == pairs.deep_view(),
            forall|q: int|
                0 <= q < i ==> complete_pair(name_seq(conditions@), #[trigger] all[q]),
        decreases pairs@.len() - i,
    {
        assert(all[i as int] == pairs@[i as int].deep_view());
        if !row_is_complete(conditions, &pairs[i].test_1) || !row_is_complete(
            conditions,
            &pairs[i].test_2,
        ) {
            assert(!complete_pair(name_seq(conditions@), all[i as int]));
            return false;
        }
        i += 1;
    }
    true
}

/// Whether an analysis can be rendered.
pub fn analysis_is_complete(analysis: &RuntimeAnalysis) -> (r: bool)
    ensures
        r == complete_analysis(analysis.deep_view()),
{
    let ghost a = analysis.deep_view();
    if !matrix_is_complete(&analysis.matrix) {
        return false;
    }
    let n: usize = analysis.condition_status.len();
    let ghost names = analysis.condition_status.order();
    let mut i: usize = 0;
    while i < n
        invariant
            i <= n,
            n == names.len(),
            names == analysis.condition_status.order(),
            a == analysis.deep_view(),
            forall|k: int|
                #![trigger names[k]]
                0 <= k < i ==> (a.condition_status[names[k]] matches StatusView::Exercised(p)
                    ==> complete_pair(a.matrix.conditions, p)),
        decreases n - i,
    {
        let name = analysis.condition_status.name_at(i);
        let status = analysis.condition_status.value_at(i);
        assert(a.condition_status[names[i as int]] == status.deep_view());
        if let ConditionStatus::Exercised(pair) = status {
            if !row_is_complete(&analysis.matrix.conditions, &pair.test_1) || !row_is_complete(
                &analysis.matrix.conditions,
                &pair.test_2,
            ) {
                assert(a.condition_status.contains_key(names[i as int]));
                assert(!complete_pair(a.matrix.conditions, pair.deep_view()));
                return false;
            }
        }
        i += 1;
    }
    assert forall|name: Seq<char>| #[trigger] a.condition_status.contains_key(name) implies (
    a.condition_status[name] matches StatusView::Exercised(p) ==> complete_pair(
        a.matrix.conditions,
        p,
    )) by {
        assert(names.to_set().contains(name));
        let j = choose|j: int| 0 <= j < names.len() && names[j] == name;
        assert(names[j] == name);
    }
    true
}

// ---------------------------------------------------------------------------
// Laws
// ---------------------------------------------------------------------------

/// Escaped text holds none of the characters that end an attribute or open
/// an element.
pub proof fn escaped_text_is_plain(s: Seq<char>, i: int)
    requires
        0 <= i < escaped(s).len(),
    ensures
        escaped(s)[i] != '<',
        escaped(s)[i] != '>',
        escaped(s)[i] != '"',
        escaped(s)[i] != '\'',
    decreases s.len(),
{
    reveal_strlit("&amp;");
    reveal_strlit("&lt;");
    reveal_strlit("&gt;");
    reveal_strlit("&quot;");
    reveal_strlit("&apos;");
    let rest = escaped(s.drop_last());
    if i < rest.len() {
        escaped_text_is_plain(s.drop_last(), i);
    } else {
        assert(escaped(s)[i] == escaped_char(s.last())[i - rest.len()]);
    }
}

/// Text without special characters is escaped to itself.
pub proof fn plain_text_is_kept(s: Seq<char>)
    requires
        forall|i: int|
            0 <= i < s.len() ==> #[trigger] s[i] != '&' && s[i] != '<' && s[i] != '>' && s[i] != '"'
                && s[i] != '\'',
    ensures
        escaped(s) == s,
    decreases s.len(),
{
    if s.len() > 0 {
        let front = s.drop_last();
        assert forall|i: int| 0 <= i < front.len() implies #[trigger] front[i] != '&' && front[i]
            != '<' && front[i] != '>' && front[i] != '"' && front[i] != '\'' by {
            assert(front[i] == s[i]);
        }
        plain_text_is_kept(front);
        assert(s[s.len() - 1] == s.last());
        assert(escaped(s) =~= s);
    } else {
        assert(escaped(s) =~= s);
    }
}

/// Every matrix that the analysis produces can be rendered.
pub proof fn analysed_matrix_is_complete(decisions: Seq<NodeView>, variant: Variant)
    ensures
        complete_matrix(matrix_of(decisions, variant)),
{
    let m = matrix_of(decisions, variant);
    if decisions.len() > 0 {
        matrix_lists_every_condition(decisions, variant);
        assert forall|i: int| 0 <= i < m.truth_table.len() implies complete_row(
            m.conditions,
            #[trigger] m.truth_table[i],
        ) by {
            assert forall|k: int| 0 <= k < m.conditions.len() implies m.truth_table[i].inputs.contains_key(
            #[trigger] m.conditions[k]) by {
                assert(m.conditions.contains(m.conditions[k]));
            }
        }
        assert forall|name: Seq<char>, i: int|
            m.independence_pairs.contains_key(name) && 0 <= i
                < m.independence_pairs[name].len() implies complete_pair(
            m.conditions,
            #[trigger] m.independence_pairs[name][i],
        ) by {
            let pairs = independence_pairs(name, m.truth_table, variant);
            assert(pairs.contains(pairs[i]));
            listed_pair_differs(name, m.truth_table, variant, pairs[i]);
            let a = choose|a: int|
                0 <= a < m.truth_table.len() && m.truth_table[a] == pairs[i].test_1;
            let b = choose|b: int|
                0 <= b < m.truth_table.len() && m.truth_table[b] == pairs[i].test_2;
            assert(complete_row(m.conditions, m.truth_table[a]));
            assert(complete_row(m.conditions, m.truth_table[b]));
        }
    }
}

/// Every runtime analysis can be rendered.
pub proof fn runtime_analysis_is_complete(
    decisions: Seq<NodeView>,
    variant: Variant,
    observations: Seq<ObservationView>,
)
    ensures
        complete_analysis(
            RuntimeView {
                matrix: matrix_of(decisions, variant),
                condition_status: crate::masking::statuses(
                    matrix_of(decisions, variant),
                    observations,
                ),
            },
        ),
{
    analysed_matrix_is_complete(decisions, variant);
    let m = matrix_of(decisions, variant);
    let statuses = crate::masking::statuses(m, observations);
    assert forall|name: Seq<char>| #[trigger] statuses.contains_key(name) implies (
    statuses[name] matches StatusView::Exercised(p) ==> complete_pair(m.conditions, p)) by {
        let pairs = m.independence_pairs[name];
        crate::masking::laws::exercised_means_a_pair_was_observed(pairs, observations);
        if let StatusView::Exercised(p) = statuses[name] {
            let i = choose|i: int| 0 <= i < pairs.len() && pairs[i] == p;
            assert(complete_pair(m.conditions, m.independence_pairs[name][i]));
        }
    }
}

} // verus!
