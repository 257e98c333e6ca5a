//! What holds of every analysis.
use crate::decision::{
    conditions, conditions_are_finite, evaluation_is_monotone, total_assignment_settles, value_of, NodeView,
};
use crate::masking::{
    assignment, bit, covers, flipped, independence_pairs, is_pair, masked, matrix_of, observed,
    other_allowed, pairs_before, pairs_of_row, status_of, truth_table, value_in, MatrixView,
    ObservationView, PairView, RowView, StatusView, Variant,
};
use crate::ordered::{in_order, order_exists, strictly_sorted};
use vstd::arithmetic::power2::{lemma_pow2_unfold, pow2};
use vstd::prelude::*;

verus! {

// ---------------------------------------------------------------------------
// The truth table
// ---------------------------------------------------------------------------

/// Whether the bits of `k` are the values of names in an assignment.
spec fn spells(names: Seq<Seq<char>>, m: Map<Seq<char>, bool>, k: nat) -> bool {
    forall|i: int| 0 <= i < names.len() ==> m[#[trigger] names[i]] == bit(k, i as nat)
}

/// The number whose bits are the values of names in an assignment.
spec fn number_of(names: Seq<Seq<char>>, m: Map<Seq<char>, bool>) -> nat
    decreases names.len(),
{
    if names.len() == 0 {
        0
    } else {
        2 * number_of(names.skip(1), m) + if m[names[0]] {
            1nat
        } else {
            0nat
        }
    }
}

proof fn number_spells(names: Seq<Seq<char>>, m: Map<Seq<char>, bool>)
    ensures
        number_of(names, m) < pow2(names.len()),
        spells(names, m, number_of(names, m)),
    decreases names.len(),
{
    if names.len() == 0 {
        vstd::arithmetic::power2::lemma2_to64();
    } else {
        let rest = names.skip(1);
        let k = number_of(names, m);
        let half = number_of(rest, m);
        number_spells(rest, m);
        lemma_pow2_unfold(names.len());
        assert(k / 2 == half);
        assert forall|i: int| 0 <= i < names.len() implies m[#[trigger] names[i]] == bit(
            k,
            i as nat,
        ) by {
            if i > 0 {
                assert(names[i] == rest[i - 1]);
                assert(bit(k, i as nat) == bit(half, (i - 1) as nat));
            }
        }
    }
}

proof fn spelling_is_unique(names: Seq<Seq<char>>, m: Map<Seq<char>, bool>, j: nat, k: nat)
    requires
        j < pow2(names.len()),
        k < pow2(names.len()),
        spells(names, m, j),
        spells(names, m, k),
    ensures
        j == k,
    decreases names.len(),
{
    if names.len() == 0 {
        vstd::arithmetic::power2::lemma2_to64();
    } else {
        let rest = names.skip(1);
        lemma_pow2_unfold(names.len());
        assert forall|i: int| 0 <= i < rest.len() implies m[#[trigger] rest[i]] == bit(
            j / 2,
            i as nat,
        ) by {
            assert(rest[i] == names[i + 1]);
            assert(bit(j, (i + 1) as nat) == bit(j / 2, i as nat));
        }
        assert forall|i: int| 0 <= i < rest.len() implies m[#[trigger] rest[i]] == bit(
            k / 2,
            i as nat,
        ) by {
            assert(rest[i] == names[i + 1]);
            assert(bit(k, (i + 1) as nat) == bit(k / 2, i as nat));
        }
        spelling_is_unique(rest, m, j / 2, k / 2);
        assert(m[names[0]] == bit(j, 0));
        assert(m[names[0]] == bit(k, 0));
    }
}

proof fn assignment_spells(names: Seq<Seq<char>>, k: nat)
    requires
        names.no_duplicates(),
    ensures
        spells(names, assignment(names, k), k),
        assignment(names, k).dom() == names.to_set(),
{
    assert forall|i: int| 0 <= i < names.len() implies assignment(names, k)[#[trigger] names[i]]
        == bit(k, i as nat) by {
        assert(names.contains(names[i]));
        assert(names.index_of(names[i]) == i);
    }
    assert(assignment(names, k).dom() =~= names.to_set());
}

/// The truth table has `2^n` rows, and every assignment of the conditions is
/// the input of exactly one of them.
pub proof fn every_assignment_has_one_row(
    node: NodeView,
    names: Seq<Seq<char>>,
    inputs: Map<Seq<char>, bool>,
)
    requires
        names.no_duplicates(),
        inputs.dom() == names.to_set(),
    ensures
        truth_table(node, names).len() == pow2(names.len()),
        exists|k: int|
            0 <= k < truth_table(node, names).len() && (#[trigger] truth_table(node, names)[k]).inputs
                == inputs,
        forall|j: int, k: int|
            0 <= j < truth_table(node, names).len() && 0 <= k < truth_table(node, names).len() && (
            #[trigger] truth_table(node, names)[j]).inputs == inputs && (#[trigger] truth_table(
                node,
                names,
            )[k]).inputs == inputs ==> j == k,
{
    let table = truth_table(node, names);
    let k = number_of(names, inputs);
    number_spells(names, inputs);
    assignment_spells(names, k);
    assert forall|n: Seq<char>| inputs.contains_key(n) implies assignment(names, k)[n]
        == inputs[n] by {
        assert(names.to_set().contains(n));
        let i = choose|i: int| 0 <= i < names.len() && names[i] == n;
        assert(assignment(names, k)[names[i]] == bit(k, i as nat));
    }
    assert(assignment(names, k) =~= inputs);
    assert(table[k as int].inputs == inputs);
    assert forall|a: int, b: int|
        0 <= a < table.len() && 0 <= b < table.len() && (#[trigger] table[a]).inputs == inputs && (
        #[trigger] table[b]).inputs == inputs implies a == b by {
        assignment_spells(names, a as nat);
        assignment_spells(names, b as nat);
        spelling_is_unique(names, inputs, a as nat, b as nat);
    }
}

/// No two rows of a truth table have the same inputs.
pub proof fn rows_are_distinct(node: NodeView, names: Seq<Seq<char>>, j: int, k: int)
    requires
        names.no_duplicates(),
        0 <= j < k < truth_table(node, names).len(),
    ensures
        truth_table(node, names)[j].inputs != truth_table(node, names)[k].inputs,
{
    assignment_spells(names, j as nat);
    every_assignment_has_one_row(node, names, assignment(names, j as nat));
}

/// The result of a row is the value of the decision under its inputs.
pub proof fn row_result_is_value(node: NodeView, names: Seq<Seq<char>>, k: int)
    requires
        names.no_duplicates(),
        conditions(node).subset_of(names.to_set()),
        0 <= k < truth_table(node, names).len(),
    ensures
        value_of(node, truth_table(node, names)[k].inputs) == Some(
            truth_table(node, names)[k].result,
        ),
{
    assignment_spells(names, k as nat);
    total_assignment_settles(node, assignment(names, k as nat));
}

// ---------------------------------------------------------------------------
// Independence pairs
// ---------------------------------------------------------------------------

/// Whether a pair is made of the rows `i` and `j` of a table.
pub open spec fn pair_at(table: Seq<RowView>, pair: PairView, i: int, j: int) -> bool {
    0 <= i < j < table.len() && pair == (PairView { test_1: table[i], test_2: table[j] })
}

proof fn row_pairs_are_valid(
    name: Seq<char>,
    table: Seq<RowView>,
    variant: Variant,
    i: int,
    n: int,
    pair: PairView,
)
    requires
        0 <= i < table.len(),
        n <= table.len(),
    ensures
        pairs_of_row(name, table, variant, i, n).contains(pair) <==> exists|j: int|
            j < n && #[trigger] pair_at(table, pair, i, j) && is_pair(
                name,
                table[i],
                table[j],
                table,
                variant,
            ),
    decreases n - i,
{
    let here = pairs_of_row(name, table, variant, i, n);
    if n > i + 1 {
        let rest = pairs_of_row(name, table, variant, i, n - 1);
        row_pairs_are_valid(name, table, variant, i, n - 1, pair);
        let last = PairView { test_1: table[i], test_2: table[n - 1] };
        if here.contains(pair) && !rest.contains(pair) {
            let p = choose|p: int| 0 <= p < here.len() && here[p] == pair;
            if p < rest.len() {
                assert(rest[p] == pair);
            }
            assert(pair == last);
            assert(pair_at(table, pair, i, n - 1));
        }
        if exists|j: int|
            j < n && #[trigger] pair_at(table, pair, i, j) && is_pair(
                name,
                table[i],
                table[j],
                table,
                variant,
            ) {
            let j = choose|j: int|
                j < n && #[trigger] pair_at(table, pair, i, j) && is_pair(
                    name,
                    table[i],
                    table[j],
                    table,
                    variant,
                );
            if j == n - 1 {
                assert(here[here.len() - 1] == pair);
            } else {
                assert(rest.contains(pair));
                let p = choose|p: int| 0 <= p < rest.len() && rest[p] == pair;
                assert(here[p] == pair);
            }
        }
    }
}

proof fn pairs_before_are_valid(
    name: Seq<char>,
    table: Seq<RowView>,
    variant: Variant,
    n: int,
    pair: PairView,
)
    requires
        n <= table.len(),
    ensures
        pairs_before(name, table, variant, n).contains(pair) <==> exists|i: int, j: int|
            i < n && #[trigger] pair_at(table, pair, i, j) && is_pair(
                name,
                table[i],
                table[j],
                table,
                variant,
            ),
    decreases n,
{
    if n > 0 {
        let here = pairs_before(name, table, variant, n);
        let rest = pairs_before(name, table, variant, n - 1);
        let last = pairs_of_row(name, table, variant, n - 1, table.len() as int);
        pairs_before_are_valid(name, table, variant, n - 1, pair);
        row_pairs_are_valid(name, table, variant, n - 1, table.len() as int, pair);
        if here.contains(pair) {
            let p = choose|p: int| 0 <= p < here.len() && here[p] == pair;
            if p < rest.len() {
                assert(rest[p] == pair);
            } else {
                assert(last[p - rest.len()] == pair);
            }
        }
        if rest.contains(pair) {
            let p = choose|p: int| 0 <= p < rest.len() && rest[p] == pair;
            assert(here[p] == pair);
        }
        if last.contains(pair) {
            let p = choose|p: int| 0 <= p < last.len() && last[p] == pair;
            assert(here[p + rest.len()] == pair);
        }
    }
}

/// The pairs listed for a condition are all the valid ones and no others:
/// two rows of the table, in order, that are an independence pair of the
/// condition.
pub proof fn pairs_are_exactly_the_valid_ones(
    name: Seq<char>,
    table: Seq<RowView>,
    variant: Variant,
    pair: PairView,
)
    ensures
        independence_pairs(name, table, variant).contains(pair) <==> exists|i: int, j: int|
            #[trigger] pair_at(table, pair, i, j) && is_pair(
                name,
                table[i],
                table[j],
                table,
                variant,
            ),
{
    pairs_before_are_valid(name, table, variant, table.len() as int, pair);
}

/// In every listed pair the condition has different values and the outcomes
/// differ.
pub proof fn listed_pair_differs(
    name: Seq<char>,
    table: Seq<RowView>,
    variant: Variant,
    pair: PairView,
)
    requires
        independence_pairs(name, table, variant).contains(pair),
    ensures
        value_in(pair.test_1, name) != value_in(pair.test_2, name),
        pair.test_1.result != pair.test_2.result,
        table.contains(pair.test_1),
        table.contains(pair.test_2),
{
    pairs_are_exactly_the_valid_ones(name, table, variant, pair);
    let (i, j) = choose|i: int, j: int|
        #[trigger] pair_at(table, pair, i, j) && is_pair(name, table[i], table[j], table, variant);
    assert(table[i] == pair.test_1);
    assert(table[j] == pair.test_2);
}

/// Every unique-cause pair is a masking pair.
pub proof fn unique_cause_pairs_are_masking_pairs(
    name: Seq<char>,
    table: Seq<RowView>,
    pair: PairView,
)
    requires
        independence_pairs(name, table, Variant::UniqueCause).contains(pair),
    ensures
        independence_pairs(name, table, Variant::Masking).contains(pair),
{
    pairs_are_exactly_the_valid_ones(name, table, Variant::UniqueCause, pair);
    pairs_are_exactly_the_valid_ones(name, table, Variant::Masking, pair);
    let (i, j) = choose|i: int, j: int|
        #[trigger] pair_at(table, pair, i, j) && is_pair(
            name,
            table[i],
            table[j],
            table,
            Variant::UniqueCause,
        );
    let a = table[i];
    let b = table[j];
    assert forall|other: Seq<char>|
        a.inputs.contains_key(other) && other != name implies #[trigger] other_allowed(
        other,
        a,
        b,
        table,
        Variant::Masking,
    ) by {
        assert(other_allowed(other, a, b, table, Variant::UniqueCause));
    }
    assert(is_pair(name, a, b, table, Variant::Masking));
}

/// The unique-cause pairs are exactly the masking pairs whose rows agree on
/// every other condition.
pub proof fn unique_cause_pairs_are_the_agreeing_ones(
    name: Seq<char>,
    table: Seq<RowView>,
    pair: PairView,
)
    ensures
        independence_pairs(name, table, Variant::UniqueCause).contains(pair) <==> {
            &&& independence_pairs(name, table, Variant::Masking).contains(pair)
            &&& forall|other: Seq<char>| #[trigger]
                pair.test_1.inputs.contains_key(other) && other != name
                    ==> pair.test_1.inputs[other] == value_in(pair.test_2, other)
        },
{
    pairs_are_exactly_the_valid_ones(name, table, Variant::UniqueCause, pair);
    pairs_are_exactly_the_valid_ones(name, table, Variant::Masking, pair);
    let (a, b) = (pair.test_1, pair.test_2);
    if independence_pairs(name, table, Variant::UniqueCause).contains(pair) {
        unique_cause_pairs_are_masking_pairs(name, table, pair);
        assert forall|other: Seq<char>| #[trigger]
            a.inputs.contains_key(other) && other != name implies a.inputs[other] == value_in(
            b,
            other,
        ) by {
            assert(other_allowed(other, a, b, table, Variant::UniqueCause));
        }
    }
    if independence_pairs(name, table, Variant::Masking).contains(pair) && (forall|
        other: Seq<char>,
    | #[trigger]
        a.inputs.contains_key(other) && other != name ==> a.inputs[other] == value_in(b, other)) {
        let (i, j) = choose|i: int, j: int|
            #[trigger] pair_at(table, pair, i, j) && is_pair(
                name,
                table[i],
                table[j],
                table,
                Variant::Masking,
            );
        assert(is_pair(name, table[i], table[j], table, Variant::UniqueCause));
    }
}

/// In a unique-cause pair no other condition differs.
pub proof fn unique_cause_pair_differs_nowhere_else(
    node: NodeView,
    names: Seq<Seq<char>>,
    name: Seq<char>,
    other: Seq<char>,
    pair: PairView,
)
    requires
        names.no_duplicates(),
        independence_pairs(name, truth_table(node, names), Variant::UniqueCause).contains(pair),
        names.contains(other),
        other != name,
    ensures
        pair.test_1.inputs[other] == pair.test_2.inputs[other],
{
    let table = truth_table(node, names);
    pairs_are_exactly_the_valid_ones(name, table, Variant::UniqueCause, pair);
    let (i, j) = choose|i: int, j: int|
        #[trigger] pair_at(table, pair, i, j) && is_pair(
            name,
            table[i],
            table[j],
            table,
            Variant::UniqueCause,
        );
    assignment_spells(names, i as nat);
    assignment_spells(names, j as nat);
    assert(names.to_set().contains(other));
    assert(other_allowed(other, table[i], table[j], table, Variant::UniqueCause));
}

/// A condition is masked in a row exactly if flipping it there would not
/// change the value of the decision.
pub proof fn masked_means_flipping_changes_nothing(
    node: NodeView,
    names: Seq<Seq<char>>,
    k: int,
    name: Seq<char>,
)
    requires
        names.no_duplicates(),
        conditions(node).subset_of(names.to_set()),
        0 <= k < truth_table(node, names).len(),
    ensures
        masked(name, truth_table(node, names)[k], truth_table(node, names)) <==> value_of(
            node,
            flipped(truth_table(node, names)[k].inputs, name),
        ) == Some(truth_table(node, names)[k].result),
{
    let table = truth_table(node, names);
    let row = table[k];
    let other = flipped(row.inputs, name);
    assignment_spells(names, k as nat);
    assert(other.dom() =~= names.to_set());
    every_assignment_has_one_row(node, names, other);
    let j = choose|j: int| 0 <= j < table.len() && (#[trigger] table[j]).inputs == other;
    row_result_is_value(node, names, j);
    if masked(name, row, table) {
        let i = choose|i: int|
            0 <= i < table.len() && (#[trigger] table[i]).inputs == other && table[i].result
                == row.result;
        assert(i == j);
    }
}

// ---------------------------------------------------------------------------
// Runtime evidence
// ---------------------------------------------------------------------------

/// A condition is exercised if and only if both rows of one of its pairs
/// were observed; the pair reported is one of its pairs, with both rows
/// observed.
pub proof fn exercised_means_a_pair_was_observed(
    pairs: Seq<PairView>,
    observations: Seq<ObservationView>,
)
    ensures
        status_of(pairs, observations) is Exercised <==> exists|i: int|
            0 <= i < pairs.len() && observed(observations, (#[trigger] pairs[i]).test_1)
                && observed(observations, pairs[i].test_2),
        status_of(pairs, observations) matches StatusView::Exercised(p) ==> pairs.contains(p)
            && observed(observations, p.test_1) && observed(observations, p.test_2),
    decreases pairs.len(),
{
    if pairs.len() > 0 {
        let rest = pairs.skip(1);
        exercised_means_a_pair_was_observed(rest, observations);
        if observed(observations, pairs[0].test_1) && observed(observations, pairs[0].test_2) {
            assert(pairs.contains(pairs[0]));
        } else {
            if status_of(rest, observations) is Exercised {
                let i = choose|i: int|
                    0 <= i < rest.len() && observed(observations, (#[trigger] rest[i]).test_1)
                        && observed(observations, rest[i].test_2);
                assert(pairs[i + 1] == rest[i]);
                let p = status_of(rest, observations)->Exercised_0;
                let q = choose|q: int| 0 <= q < rest.len() && rest[q] == p;
                assert(pairs[q + 1] == p);
            }
            if exists|i: int|
                0 <= i < pairs.len() && observed(observations, (#[trigger] pairs[i]).test_1)
                    && observed(observations, pairs[i].test_2) {
                let i = choose|i: int|
                    0 <= i < pairs.len() && observed(observations, (#[trigger] pairs[i]).test_1)
                        && observed(observations, pairs[i].test_2);
                assert(rest[i - 1] == pairs[i]);
            }
        }
    }
}

/// More observations never take a demonstration back.
pub proof fn evidence_is_monotone(
    pairs: Seq<PairView>,
    observations: Seq<ObservationView>,
    more: Seq<ObservationView>,
)
    requires
        forall|i: int|
            0 <= i < observations.len() ==> more.contains(#[trigger] observations[i]),
        status_of(pairs, observations) is Exercised,
    ensures
        status_of(pairs, more) is Exercised,
{
    exercised_means_a_pair_was_observed(pairs, observations);
    exercised_means_a_pair_was_observed(pairs, more);
    let p = status_of(pairs, observations)->Exercised_0;
    assert forall|row: RowView| observed(observations, row) implies observed(more, row) by {
        let i = choose|i: int| 0 <= i < observations.len() && covers(#[trigger] observations[i], row);
        let j = choose|j: int| 0 <= j < more.len() && more[j] == observations[i];
        assert(covers(more[j], row));
    }
    let k = choose|k: int| 0 <= k < pairs.len() && pairs[k] == p;
    assert(observed(more, pairs[k].test_1));
}

/// An observation whose inputs settle the decision stands for every row that
/// extends it: the conditions that were short-circuited may have any value.
pub proof fn observation_covers_extending_rows(
    node: NodeView,
    names: Seq<Seq<char>>,
    o: ObservationView,
    k: int,
)
    requires
        names.no_duplicates(),
        conditions(node).subset_of(names.to_set()),
        value_of(node, o.inputs) == Some(o.result),
        0 <= k < truth_table(node, names).len(),
        o.inputs.submap_of(truth_table(node, names)[k].inputs),
    ensures
        covers(o, truth_table(node, names)[k]),
{
    row_result_is_value(node, names, k);
    evaluation_is_monotone(node, o.inputs, truth_table(node, names)[k].inputs);
}

// ---------------------------------------------------------------------------
// Matrices
// ---------------------------------------------------------------------------

/// Whether a matrix fits together: its rows have distinct inputs, the rows of
/// its pairs are rows of its table, and those of one pair are distinct.
pub open spec fn coherent(matrix: MatrixView) -> bool {
    &&& forall|j: int, k: int|
        0 <= j < k < matrix.truth_table.len() ==> (#[trigger] matrix.truth_table[j]).inputs != (
        #[trigger] matrix.truth_table[k]).inputs
    &&& forall|name: Seq<char>, i: int|
        matrix.independence_pairs.contains_key(name) && 0 <= i
            < matrix.independence_pairs[name].len() ==> {
            let pair = #[trigger] matrix.independence_pairs[name][i];
            &&& matrix.truth_table.contains(pair.test_1)
            &&& matrix.truth_table.contains(pair.test_2)
            &&& pair.test_1.inputs != pair.test_2.inputs
        }
    &&& matrix.independence_pairs.dom().finite()
}

/// Every matrix that the analysis produces is coherent.
pub proof fn analysis_is_coherent(decisions: Seq<NodeView>, variant: Variant)
    ensures
        coherent(matrix_of(decisions, variant)),
{
    if decisions.len() > 0 {
        decision_matrix_is_coherent(decisions, variant);
    }
}

/// The conditions of a matrix are those of the decision, sorted, each once,
/// and each has its list of pairs.
pub proof fn matrix_lists_every_condition(decisions: Seq<NodeView>, variant: Variant)
    requires
        decisions.len() > 0,
    ensures
        strictly_sorted(matrix_of(decisions, variant).conditions),
        matrix_of(decisions, variant).conditions.to_set() == conditions(decisions[0]),
        matrix_of(decisions, variant).independence_pairs.dom() == conditions(decisions[0]),
{
    conditions_are_finite(decisions[0]);
    order_exists(conditions(decisions[0]));
    let names = in_order(conditions(decisions[0]));
    assert(matrix_of(decisions, variant).independence_pairs.dom() =~= names.to_set());
}

/// The analysis depends on the boolean function alone: decisions that have
/// the same conditions, and the same value under every assignment of them,
/// have the same matrix, however they are written.
pub proof fn equal_functions_have_equal_matrices(
    a: Seq<NodeView>,
    b: Seq<NodeView>,
    variant: Variant,
)
    requires
        a.len() > 0,
        b.len() > 0,
        conditions(a[0]) == conditions(b[0]),
        forall|inputs: Map<Seq<char>, bool>|
            inputs.dom() == conditions(a[0]) ==> #[trigger] value_of(a[0], inputs) == value_of(
                b[0],
                inputs,
            ),
    ensures
        matrix_of(a, variant) == matrix_of(b, variant),
{
    conditions_are_finite(a[0]);
    order_exists(conditions(a[0]));
    let names = in_order(conditions(a[0]));
    let (s, t) = (truth_table(a[0], names), truth_table(b[0], names));
    assert forall|k: int| 0 <= k < s.len() implies s[k] == t[k] by {
        assignment_spells(names, k as nat);
        let inputs = assignment(names, k as nat);
        assert(value_of(a[0], inputs) == value_of(b[0], inputs));
    }
    assert(s =~= t);
}

proof fn decision_matrix_is_coherent(decisions: Seq<NodeView>, variant: Variant)
    requires
        decisions.len() > 0,
    ensures
        coherent(matrix_of(decisions, variant)),
{
    let matrix = matrix_of(decisions, variant);
    let names = in_order(conditions(decisions[0]));
    conditions_are_finite(decisions[0]);
    order_exists(conditions(decisions[0]));
    let table = truth_table(decisions[0], names);
    assert(matrix.truth_table == table);
    assert forall|j: int, k: int| 0 <= j < k < table.len() implies (#[trigger] table[j]).inputs != (
    #[trigger] table[k]).inputs by {
        rows_are_distinct(decisions[0], names, j, k);
    }
    assert forall|name: Seq<char>, i: int|
        matrix.independence_pairs.contains_key(name) && 0 <= i
            < matrix.independence_pairs[name].len() implies {
        let pair = #[trigger] matrix.independence_pairs[name][i];
        &&& table.contains(pair.test_1)
        &&& table.contains(pair.test_2)
        &&& pair.test_1.inputs != pair.test_2.inputs
    } by {
        let pairs = independence_pairs(name, table, variant);
        assert(pairs.contains(pairs[i]));
        listed_pair_differs(name, table, variant, pairs[i]);
    }
    assert(matrix.independence_pairs.dom() =~= names.to_set());
}

} // verus!
