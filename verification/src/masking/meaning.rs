//! What the analysis means for the boolean function of a decision.
//!
//! The laws here speak of the values that a decision has under assignments of
//! its conditions, and of tests that were run, but not of how pairs are found.
use crate::decision::{
    conditions, conditions_are_finite, total_assignment_settles, value_of, DecisionTreeView,
    NodeView,
};
use crate::masking::laws::{
    every_assignment_has_one_row, masked_means_flipping_changes_nothing, pair_at,
    pairs_are_exactly_the_valid_ones, row_result_is_value,
};
use crate::masking::{
    assignment, bit, enumerable, flipped, independence_pairs, is_pair, masked, matrix_of, observed,
    other_allowed, pairs_before, pairs_of_row, status_of, statuses, truth_table, value_in,
    ObservationView, PairView, RowView, StatusView, Variant,
};
use crate::ordered::{in_order, order_exists};
use vstd::arithmetic::div_mod::lemma_div_denominator;
use vstd::arithmetic::power2::{lemma_pow2_pos, lemma_pow2_unfold, pow2};
use vstd::prelude::*;

verus! {

// ---------------------------------------------------------------------------
// Independence pairs
// ---------------------------------------------------------------------------

/// Whether a row is a full assignment of the conditions of a decision,
/// together with the value that the decision has under it.
pub open spec fn is_row_of(node: NodeView, row: RowView) -> bool {
    row.inputs.dom() == conditions(node) && value_of(node, row.inputs) == Some(row.result)
}

/// Whether flipping one condition, and no other, keeps the value of a
/// decision.
pub open spec fn flip_keeps_value(
    node: NodeView,
    inputs: Map<Seq<char>, bool>,
    name: Seq<char>,
) -> bool {
    value_of(node, inputs.insert(name, !inputs[name])) == value_of(node, inputs)
}

/// Whether two rows show that a condition affects a decision on its own: the
/// condition and the outcome differ, and each other condition has the same
/// value in both or, for masking, does not affect the outcome of either.
pub open spec fn shows_effect(
    node: NodeView,
    name: Seq<char>,
    a: RowView,
    b: RowView,
    variant: Variant,
) -> bool {
    &&& is_row_of(node, a)
    &&& is_row_of(node, b)
    &&& a.inputs[name] != b.inputs[name]
    &&& a.result != b.result
    &&& forall|other: Seq<char>| #[trigger]
        conditions(node).contains(other) && other != name ==> {
            ||| a.inputs[other] == b.inputs[other]
            ||| variant == Variant::Masking && flip_keeps_value(node, a.inputs, other)
                && flip_keeps_value(node, b.inputs, other)
        }
}

/// The row of a full assignment stands in the truth table, and every row of
/// the table is one.
proof fn rows_are_the_assignments(node: NodeView, names: Seq<Seq<char>>, row: RowView)
    requires
        names.no_duplicates(),
        names.to_set() == conditions(node),
    ensures
        is_row_of(node, row) <==> truth_table(node, names).contains(row),
{
    let table = truth_table(node, names);
    if is_row_of(node, row) {
        every_assignment_has_one_row(node, names, row.inputs);
        let k = choose|k: int| 0 <= k < table.len() && (#[trigger] table[k]).inputs == row.inputs;
        row_result_is_value(node, names, k);
        assert(table[k] == row);
    }
    if table.contains(row) {
        let k = choose|k: int| 0 <= k < table.len() && table[k] == row;
        row_result_is_value(node, names, k);
        assert(row.inputs.dom() =~= names.to_set());
    }
}

proof fn masked_in_row(node: NodeView, names: Seq<Seq<char>>, row: RowView, other: Seq<char>)
    requires
        names.no_duplicates(),
        names.to_set() == conditions(node),
        truth_table(node, names).contains(row),
        conditions(node).contains(other),
    ensures
        masked(other, row, truth_table(node, names)) <==> flip_keeps_value(node, row.inputs, other),
{
    let table = truth_table(node, names);
    let k = choose|k: int| 0 <= k < table.len() && table[k] == row;
    masked_means_flipping_changes_nothing(node, names, k, other);
    row_result_is_value(node, names, k);
    assert(row.inputs.dom() =~= names.to_set());
    assert(flipped(row.inputs, other) == row.inputs.insert(other, !row.inputs[other]));
}

proof fn valid_pair_shows_effect(
    node: NodeView,
    names: Seq<Seq<char>>,
    name: Seq<char>,
    a: RowView,
    b: RowView,
    variant: Variant,
)
    requires
        names.no_duplicates(),
        names.to_set() == conditions(node),
        conditions(node).contains(name),
        truth_table(node, names).contains(a),
        truth_table(node, names).contains(b),
    ensures
        is_pair(name, a, b, truth_table(node, names), variant) <==> shows_effect(
            node,
            name,
            a,
            b,
            variant,
        ),
{
    let table = truth_table(node, names);
    rows_are_the_assignments(node, names, a);
    rows_are_the_assignments(node, names, b);
    assert forall|other: Seq<char>| conditions(node).contains(other) implies (other_allowed(
        other,
        a,
        b,
        table,
        variant,
    ) <==> {
        ||| a.inputs[other] == b.inputs[other]
        ||| variant == Variant::Masking && flip_keeps_value(node, a.inputs, other)
            && flip_keeps_value(node, b.inputs, other)
    }) by {
        masked_in_row(node, names, a, other);
        masked_in_row(node, names, b, other);
        assert(b.inputs.contains_key(other));
    }
    assert(a.inputs.contains_key(name) && b.inputs.contains_key(name));
    if is_pair(name, a, b, table, variant) {
        assert forall|other: Seq<char>| #[trigger]
            conditions(node).contains(other) && other != name implies {
            ||| a.inputs[other] == b.inputs[other]
            ||| variant == Variant::Masking && flip_keeps_value(node, a.inputs, other)
                && flip_keeps_value(node, b.inputs, other)
        } by {
            assert(a.inputs.contains_key(other));
            assert(other_allowed(other, a, b, table, variant));
        }
    }
    if shows_effect(node, name, a, b, variant) {
        assert forall|other: Seq<char>|
            a.inputs.contains_key(other) && other != name implies #[trigger] other_allowed(
            other,
            a,
            b,
            table,
            variant,
        ) by {
            assert(conditions(node).contains(other));
        }
    }
}

/// The pairs listed for a condition are those whose rows show that it affects
/// the decision on its own, each in one of its two orders: no other pair is
/// listed, and none is missing.
pub proof fn listed_pairs_show_effect(
    decisions: Seq<NodeView>,
    variant: Variant,
    name: Seq<char>,
    a: RowView,
    b: RowView,
)
    requires
        decisions.len() > 0,
        conditions(decisions[0]).contains(name),
    ensures
        ({
            let pairs = matrix_of(decisions, variant).independence_pairs[name];
            shows_effect(decisions[0], name, a, b, variant) <==> pairs.contains(
                PairView { test_1: a, test_2: b },
            ) || pairs.contains(PairView { test_1: b, test_2: a })
        }),
{
    let node = decisions[0];
    conditions_are_finite(node);
    order_exists(conditions(node));
    let names = in_order(conditions(node));
    let table = truth_table(node, names);
    assert(names.to_set().contains(name));
    assert(matrix_of(decisions, variant).independence_pairs[name] == independence_pairs(
        name,
        table,
        variant,
    ));
    let ab = PairView { test_1: a, test_2: b };
    let ba = PairView { test_1: b, test_2: a };
    pairs_are_exactly_the_valid_ones(name, table, variant, ab);
    pairs_are_exactly_the_valid_ones(name, table, variant, ba);
    rows_are_the_assignments(node, names, a);
    rows_are_the_assignments(node, names, b);
    let pairs = independence_pairs(name, table, variant);
    if shows_effect(node, name, a, b, variant) {
        let i = choose|i: int| 0 <= i < table.len() && table[i] == a;
        let j = choose|j: int| 0 <= j < table.len() && table[j] == b;
        assert(shows_effect(node, name, b, a, variant));
        valid_pair_shows_effect(node, names, name, a, b, variant);
        valid_pair_shows_effect(node, names, name, b, a, variant);
        if i < j {
            assert(pair_at(table, ab, i, j));
        } else {
            assert(pair_at(table, ba, j, i));
        }
    }
    if pairs.contains(ab) {
        let (i, j) = choose|i: int, j: int|
            #[trigger] pair_at(table, ab, i, j) && is_pair(name, table[i], table[j], table, variant);
        assert(table[i] == a && table[j] == b);
        valid_pair_shows_effect(node, names, name, a, b, variant);
    }
    if pairs.contains(ba) {
        let (i, j) = choose|i: int, j: int|
            #[trigger] pair_at(table, ba, i, j) && is_pair(name, table[i], table[j], table, variant);
        assert(table[i] == b && table[j] == a);
        valid_pair_shows_effect(node, names, name, b, a, variant);
        assert(shows_effect(node, name, a, b, variant));
    }
}

/// Every row of a matrix is a full assignment of the conditions with the
/// value of the first decision under it, and every such assignment has its
/// row.
pub proof fn table_holds_every_assignment(
    decisions: Seq<NodeView>,
    variant: Variant,
    row: RowView,
)
    requires
        decisions.len() > 0,
    ensures
        matrix_of(decisions, variant).truth_table.contains(row) <==> is_row_of(decisions[0], row),
        matrix_of(decisions, variant).truth_table.len() == pow2(conditions(decisions[0]).len()),
        matrix_of(decisions, variant).variant == variant,
{
    let node = decisions[0];
    conditions_are_finite(node);
    order_exists(conditions(node));
    let names = in_order(conditions(node));
    rows_are_the_assignments(node, names, row);
    names.unique_seq_to_set();
}

proof fn bit_is_digit(n: nat, i: nat)
    ensures
        bit(n, i) == ((n as int / pow2(i) as int) % 2 == 1),
    decreases i,
{
    lemma_pow2_pos(i);
    if i == 0 {
        vstd::arithmetic::power2::lemma2_to64();
        assert(n as int / 1 == n);
    } else {
        let h = (i - 1) as nat;
        bit_is_digit(n / 2, h);
        lemma_pow2_unfold(i);
        lemma_pow2_pos(h);
        lemma_div_denominator(n as int, 2, pow2(h) as int);
        assert((n as int / 2) / (pow2(h) as int) == n as int / (2 * pow2(h) as int));
    }
}

/// The rows of a truth table count in binary: in row `k` condition `i`, in
/// the order of names, has the value of the binary digit of weight `2^i`.
pub proof fn rows_count_in_binary(decisions: Seq<NodeView>, variant: Variant, k: int, i: int)
    requires
        decisions.len() > 0,
        0 <= k < matrix_of(decisions, variant).truth_table.len(),
        0 <= i < matrix_of(decisions, variant).conditions.len(),
    ensures
        ({
            let m = matrix_of(decisions, variant);
            m.truth_table[k].inputs[m.conditions[i]] == ((k / pow2(i as nat) as int) % 2 == 1)
        }),
{
    let node = decisions[0];
    conditions_are_finite(node);
    order_exists(conditions(node));
    let names = in_order(conditions(node));
    assert(names.contains(names[i]));
    assert(names.index_of(names[i]) == i);
    assert(assignment(names, k as nat)[names[i]] == bit(k as nat, i as nat));
    bit_is_digit(k as nat, i as nat);
}

/// The positions of two pairs in the order of listing: by the first row, then
/// by the second.
pub open spec fn stands_before(
    table: Seq<RowView>,
    p: PairView,
    q: PairView,
) -> bool {
    exists|i: int, j: int, k: int, l: int|
        #![trigger table[i], table[j], table[k], table[l]]
        0 <= i < j < table.len() && 0 <= k < l < table.len() && p == (PairView {
            test_1: table[i],
            test_2: table[j],
        }) && q == (PairView { test_1: table[k], test_2: table[l] }) && (i < k || (i == k && j < l))
}

spec fn at(table: Seq<RowView>, p: PairView, i: int, j: int) -> bool {
    0 <= i < j < table.len() && p == (PairView { test_1: table[i], test_2: table[j] })
}

proof fn row_pairs_in_order(
    name: Seq<char>,
    table: Seq<RowView>,
    variant: Variant,
    i: int,
    n: int,
    p: int,
)
    requires
        0 <= i < table.len(),
        n <= table.len(),
        0 <= p < pairs_of_row(name, table, variant, i, n).len(),
    ensures
        exists|j: int|
            i < j < n && #[trigger] at(
                table,
                pairs_of_row(name, table, variant, i, n)[p],
                i,
                j,
            ),
        forall|q: int|
            p < q < pairs_of_row(name, table, variant, i, n).len() ==> stands_before(
                table,
                pairs_of_row(name, table, variant, i, n)[p],
                #[trigger] pairs_of_row(name, table, variant, i, n)[q],
            ),
    decreases n - i,
{
    let here = pairs_of_row(name, table, variant, i, n);
    let rest = pairs_of_row(name, table, variant, i, n - 1);
    if p < rest.len() {
        row_pairs_in_order(name, table, variant, i, n - 1, p);
        let j = choose|j: int| i < j < n - 1 && #[trigger] at(table, rest[p], i, j);
        assert(at(table, here[p], i, j));
        assert forall|q: int| p < q < here.len() implies stands_before(
            table,
            here[p],
            #[trigger] here[q],
        ) by {
            if q < rest.len() {
                assert(here[q] == rest[q]);
            } else {
                assert(here[q] == (PairView { test_1: table[i], test_2: table[n - 1] }));
                assert(table[i] == here[p].test_1 && table[j] == here[p].test_2 && table[n - 1]
                    == here[q].test_2);
            }
        }
    } else {
        assert(at(table, here[p], i, n - 1));
    }
}

proof fn pairs_before_in_order(
    name: Seq<char>,
    table: Seq<RowView>,
    variant: Variant,
    n: int,
    p: int,
)
    requires
        n <= table.len(),
        0 <= p < pairs_before(name, table, variant, n).len(),
    ensures
        exists|i: int, j: int|
            i < n && #[trigger] at(table, pairs_before(name, table, variant, n)[p], i, j),
        forall|q: int|
            p < q < pairs_before(name, table, variant, n).len() ==> stands_before(
                table,
                pairs_before(name, table, variant, n)[p],
                #[trigger] pairs_before(name, table, variant, n)[q],
            ),
    decreases n,
{
    let here = pairs_before(name, table, variant, n);
    let rest = pairs_before(name, table, variant, n - 1);
    let last = pairs_of_row(name, table, variant, n - 1, table.len() as int);
    if p < rest.len() {
        pairs_before_in_order(name, table, variant, n - 1, p);
        let (i, j) = choose|i: int, j: int| i < n - 1 && #[trigger] at(table, rest[p], i, j);
        assert(at(table, here[p], i, j));
        assert forall|q: int| p < q < here.len() implies stands_before(
            table,
            here[p],
            #[trigger] here[q],
        ) by {
            if q < rest.len() {
                assert(here[q] == rest[q]);
            } else {
                let r = q - rest.len();
                row_pairs_in_order(name, table, variant, n - 1, table.len() as int, r);
                let l = choose|l: int|
                    n - 1 < l < table.len() && #[trigger] at(table, last[r], n - 1, l);
                assert(here[q] == last[r]);
                assert(table[i] == here[p].test_1 && table[j] == here[p].test_2 && table[n - 1]
                    == here[q].test_1 && table[l] == here[q].test_2);
            }
        }
    } else {
        let r = p - rest.len();
        row_pairs_in_order(name, table, variant, n - 1, table.len() as int, r);
        let l = choose|l: int| n - 1 < l < table.len() && #[trigger] at(table, last[r], n - 1, l);
        assert(at(table, here[p], n - 1, l));
        assert forall|q: int| p < q < here.len() implies stands_before(
            table,
            here[p],
            #[trigger] here[q],
        ) by {
            assert(here[q] == last[q - rest.len()]);
        }
    }
}

/// The pairs of a condition are listed in the order of the truth table, by
/// the first row and then by the second, and the first row of a pair stands
/// before its second.
pub proof fn pairs_are_listed_in_order(
    decisions: Seq<NodeView>,
    variant: Variant,
    name: Seq<char>,
    p: int,
    q: int,
)
    requires
        decisions.len() > 0,
        conditions(decisions[0]).contains(name),
        0 <= p < q < matrix_of(decisions, variant).independence_pairs[name].len(),
    ensures
        ({
            let m = matrix_of(decisions, variant);
            stands_before(
                m.truth_table,
                m.independence_pairs[name][p],
                m.independence_pairs[name][q],
            )
        }),
{
    let node = decisions[0];
    conditions_are_finite(node);
    order_exists(conditions(node));
    let names = in_order(conditions(node));
    let table = truth_table(node, names);
    assert(names.to_set().contains(name));
    pairs_before_in_order(name, table, variant, table.len() as int, p);
}

// ---------------------------------------------------------------------------
// Runtime evidence
// ---------------------------------------------------------------------------

/// Whether a test that was run stands for a row: it had the row's outcome,
/// and every condition that it evaluated had the row's value.
pub open spec fn was_run(observations: Seq<ObservationView>, row: RowView) -> bool {
    exists|i: int|
        0 <= i < observations.len() && (#[trigger] observations[i]).result == row.result && (forall|
            name: Seq<char>,
        | #[trigger]
            observations[i].inputs.contains_key(name) ==> row.inputs.contains_key(name)
                && row.inputs[name] == observations[i].inputs[name])
}

proof fn run_means_observed(observations: Seq<ObservationView>, row: RowView)
    ensures
        observed(observations, row) <==> was_run(observations, row),
{
    if observed(observations, row) {
        let i = choose|i: int|
            0 <= i < observations.len() && crate::masking::covers(#[trigger] observations[i], row);
        assert(observations[i].inputs.submap_of(row.inputs));
    }
    if was_run(observations, row) {
        let i = choose|i: int|
            0 <= i < observations.len() && (#[trigger] observations[i]).result == row.result && (
            forall|name: Seq<char>| #[trigger]
                observations[i].inputs.contains_key(name) ==> row.inputs.contains_key(name)
                    && row.inputs[name] == observations[i].inputs[name]);
        assert(observations[i].inputs.submap_of(row.inputs));
    }
}

proof fn status_is_first(pairs: Seq<PairView>, observations: Seq<ObservationView>)
    ensures
        match status_of(pairs, observations) {
            StatusView::Exercised(p) => exists|k: int|
                0 <= k < pairs.len() && #[trigger] pairs[k] == p && observed(
                    observations,
                    p.test_1,
                ) && observed(observations, p.test_2) && (forall|j: int|
                    0 <= j < k ==> !(observed(observations, (#[trigger] pairs[j]).test_1)
                        && observed(observations, pairs[j].test_2))),
            StatusView::Unexercised => forall|j: int|
                0 <= j < pairs.len() ==> !(observed(observations, (#[trigger] pairs[j]).test_1)
                    && observed(observations, pairs[j].test_2)),
        },
    decreases pairs.len(),
{
    if pairs.len() > 0 {
        let rest = pairs.skip(1);
        status_is_first(rest, observations);
        if observed(observations, pairs[0].test_1) && observed(observations, pairs[0].test_2) {
            assert(pairs[0] == pairs[0]);
        } else {
            match status_of(rest, observations) {
                StatusView::Exercised(p) => {
                    let k = choose|k: int|
                        0 <= k < rest.len() && #[trigger] rest[k] == p && observed(
                            observations,
                            p.test_1,
                        ) && observed(observations, p.test_2) && (forall|j: int|
                            0 <= j < k ==> !(observed(observations, (#[trigger] rest[j]).test_1)
                                && observed(observations, rest[j].test_2)));
                    assert(pairs[k + 1] == p);
                    assert forall|j: int| 0 <= j < k + 1 implies !(observed(
                        observations,
                        (#[trigger] pairs[j]).test_1,
                    ) && observed(observations, pairs[j].test_2)) by {
                        if j > 0 {
                            assert(rest[j - 1] == pairs[j]);
                        }
                    }
                },
                StatusView::Unexercised => {
                    assert forall|j: int| 0 <= j < pairs.len() implies !(observed(
                        observations,
                        (#[trigger] pairs[j]).test_1,
                    ) && observed(observations, pairs[j].test_2)) by {
                        if j > 0 {
                            assert(rest[j - 1] == pairs[j]);
                        }
                    }
                },
            }
        }
    }
}

/// A condition is exercised by the first of its pairs of which both rows were
/// run, and by none only if there is no such pair.
pub proof fn status_is_the_first_pair_that_was_run(
    decisions: Seq<NodeView>,
    variant: Variant,
    observations: Seq<ObservationView>,
    name: Seq<char>,
)
    requires
        decisions.len() > 0,
        conditions(decisions[0]).contains(name),
    ensures
        ({
            let m = matrix_of(decisions, variant);
            let pairs = m.independence_pairs[name];
            &&& statuses(m, observations).dom() == conditions(decisions[0])
            &&& match statuses(m, observations)[name] {
                StatusView::Exercised(p) => exists|k: int|
                    0 <= k < pairs.len() && #[trigger] pairs[k] == p && was_run(
                        observations,
                        p.test_1,
                    ) && was_run(observations, p.test_2) && (forall|j: int|
                        0 <= j < k ==> !(was_run(observations, (#[trigger] pairs[j]).test_1)
                            && was_run(observations, pairs[j].test_2))),
                StatusView::Unexercised => forall|j: int|
                    0 <= j < pairs.len() ==> !(was_run(observations, (#[trigger] pairs[j]).test_1)
                        && was_run(observations, pairs[j].test_2)),
            }
        }),
{
    let node = decisions[0];
    crate::masking::laws::matrix_lists_every_condition(decisions, variant);
    let m = matrix_of(decisions, variant);
    let pairs = m.independence_pairs[name];
    assert(statuses(m, observations).dom() =~= conditions(node));
    status_is_first(pairs, observations);
    assert forall|row: RowView| #[trigger] observed(observations, row) <==> was_run(
        observations,
        row,
    ) by {
        run_means_observed(observations, row);
    }
    match status_of(pairs, observations) {
        StatusView::Exercised(p) => {
            run_means_observed(observations, p.test_1);
            run_means_observed(observations, p.test_2);
            let k = choose|k: int|
                0 <= k < pairs.len() && #[trigger] pairs[k] == p && observed(
                    observations,
                    p.test_1,
                ) && observed(observations, p.test_2) && (forall|j: int|
                    0 <= j < k ==> !(observed(observations, (#[trigger] pairs[j]).test_1)
                        && observed(observations, pairs[j].test_2)));
            assert forall|j: int| 0 <= j < k implies !(was_run(
                observations,
                (#[trigger] pairs[j]).test_1,
            ) && was_run(observations, pairs[j].test_2)) by {
                run_means_observed(observations, pairs[j].test_1);
                run_means_observed(observations, pairs[j].test_2);
            }
            assert(pairs[k] == p);
        },
        StatusView::Unexercised => {
            assert forall|j: int| 0 <= j < pairs.len() implies !(was_run(
                observations,
                (#[trigger] pairs[j]).test_1,
            ) && was_run(observations, pairs[j].test_2)) by {
                run_means_observed(observations, pairs[j].test_1);
                run_means_observed(observations, pairs[j].test_2);
            }
        },
    }
}

/// A condition whose flip alone changes the outcome of some assignment has a
/// pair, under either variant.
pub proof fn condition_that_matters_has_a_pair(
    decisions: Seq<NodeView>,
    variant: Variant,
    name: Seq<char>,
    inputs: Map<Seq<char>, bool>,
)
    requires
        decisions.len() > 0,
        conditions(decisions[0]).contains(name),
        inputs.dom() == conditions(decisions[0]),
        !flip_keeps_value(decisions[0], inputs, name),
    ensures
        matrix_of(decisions, variant).independence_pairs[name].len() > 0,
{
    let node = decisions[0];
    let other = inputs.insert(name, !inputs[name]);
    assert(other.dom() =~= inputs.dom());
    total_assignment_settles(node, inputs);
    total_assignment_settles(node, other);
    let a = RowView { inputs, result: value_of(node, inputs)->0 };
    let b = RowView { inputs: other, result: value_of(node, other)->0 };
    assert(shows_effect(node, name, a, b, variant));
    listed_pairs_show_effect(decisions, variant, name, a, b);
}

/// Only the first decision is analysed; without a decision there is nothing
/// to analyse. Every decision of fewer than 64 conditions can be analysed.
pub proof fn first_decision_is_analysed(tree: DecisionTreeView, variant: Variant)
    ensures
        tree.decisions.len() > 0 ==> matrix_of(tree.decisions, variant) == matrix_of(
            seq![tree.decisions[0]],
            variant,
        ),
        tree.decisions.len() == 0 ==> ({
            let m = matrix_of(tree.decisions, variant);
            m.conditions.len() == 0 && m.truth_table.len() == 0 && m.variant == variant
                && m.independence_pairs.dom() == Set::<Seq<char>>::empty()
        }),
        enumerable(tree) <==> tree.decisions.len() == 0 || conditions(tree.decisions[0]).len() < 64,
{
    assert(Map::<Seq<char>, Seq<PairView>>::empty().dom() =~= Set::empty());
}

} // verus!
