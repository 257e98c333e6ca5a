//! What holds of every minimum test set.
use crate::decision::{conditions, conditions_are_finite, NodeView};
use crate::masking::laws::{
    analysis_is_coherent, coherent, exercised_means_a_pair_was_observed,
    matrix_lists_every_condition,
};
use crate::masking::search::{
    by_constraint, choice_of, choices_upto, chosen_upto, explored, explored_pairs, floor_of,
    indexed, insert_choice, minimum_of, no_better, no_test_set, nothing_selected, at_floor,
    row_position, row_position_from, rows_upto, search_space, searched, with_pair, ChoiceView,
    SearchView, SelectionView, SEARCH_BUDGET,
};
use crate::masking::{
    covers, matrix_of, observed, pairs_before, pairs_of_row, status_of, MatrixView,
    ObservationView, PairView, RowView, Variant,
};
use crate::ordered::{in_order, order_exists, strictly_sorted};
use crate::text::name_lt;
use vstd::prelude::*;

verus! {

// ---------------------------------------------------------------------------
// Selections
// ---------------------------------------------------------------------------

/// Whether `picks` names a pair for each of the first conditions of a search
/// space.
pub open spec fn picks_pairs(choices: Seq<ChoiceView>, picks: Seq<int>) -> bool {
    picks.len() <= choices.len() && forall|i: int|
        0 <= i < picks.len() ==> 0 <= #[trigger] picks[i] < choices[i].pairs.len()
}

/// The selection of the pairs that `picks` names.
pub open spec fn selection(choices: Seq<ChoiceView>, picks: Seq<int>) -> SelectionView
    decreases picks.len(),
{
    if picks.len() == 0 {
        nothing_selected()
    } else {
        with_pair(
            selection(choices, picks.drop_last()),
            choices[picks.len() - 1].pairs[picks.last()],
        )
    }
}

/// Whether `picks` names a pair for every condition.
pub open spec fn complete(choices: Seq<ChoiceView>, picks: Seq<int>) -> bool {
    picks_pairs(choices, picks) && picks.len() == choices.len()
}

/// Whether the best selection of a search is one that picks name.
spec fn sound(choices: Seq<ChoiceView>, best: Option<SelectionView>) -> bool {
    best matches Some(b) ==> exists|picks: Seq<int>|
        #[trigger] complete(choices, picks) && b == selection(choices, picks)
}

/// Whether a selection is no larger than any completion of `prefix` whose
/// next pick is at least `from`.
spec fn beats(
    choices: Seq<ChoiceView>,
    prefix: Seq<int>,
    from: int,
    best: Option<SelectionView>,
) -> bool {
    forall|picks: Seq<int>|
        #[trigger] complete(choices, picks) && picks.take(prefix.len() as int) == prefix && (
        prefix.len() < picks.len() ==> picks[prefix.len() as int] >= from) ==> best is Some
            && (best->0).rows.len() <= selection(choices, picks).rows.len()
}

/// Whether the best selection of one search is no larger than that of
/// another.
spec fn no_larger(a: Option<SelectionView>, b: Option<SelectionView>) -> bool {
    b is Some ==> a is Some && (a->0).rows.len() <= (b->0).rows.len()
}

proof fn selection_is_finite(choices: Seq<ChoiceView>, picks: Seq<int>)
    ensures
        selection(choices, picks).rows.finite(),
        selection(choices, picks).chosen.len() == picks.len(),
    decreases picks.len(),
{
    if picks.len() > 0 {
        selection_is_finite(choices, picks.drop_last());
    }
}

proof fn prefix_is_no_larger(choices: Seq<ChoiceView>, picks: Seq<int>, n: int)
    requires
        0 <= n <= picks.len(),
    ensures
        selection(choices, picks.take(n)).rows.subset_of(selection(choices, picks).rows),
        selection(choices, picks.take(n)).rows.len() <= selection(choices, picks).rows.len(),
    decreases picks.len(),
{
    selection_is_finite(choices, picks);
    if n == picks.len() {
        assert(picks.take(n) =~= picks);
    } else {
        prefix_is_no_larger(choices, picks.drop_last(), n);
        assert(picks.drop_last().take(n) =~= picks.take(n));
        vstd::set_lib::lemma_len_subset(
            selection(choices, picks.take(n)).rows,
            selection(choices, picks).rows,
        );
    }
}

/// What a search below a node does: it keeps the best selection sound and no
/// larger, and unless it runs out of budget, nothing below the node is
/// smaller, or the floor is reached.
proof fn exploration(
    choices: Seq<ChoiceView>,
    prefix: Seq<int>,
    floor: nat,
    s: SearchView,
)
    requires
        picks_pairs(choices, prefix),
        sound(choices, s.best),
    ensures
        ({
            let r = explored(choices, prefix.len(), selection(choices, prefix), floor, s);
            &&& sound(choices, r.best)
            &&& no_larger(r.best, s.best)
            &&& s.exhausted ==> r.exhausted
            &&& !r.exhausted ==> at_floor(r.best, floor) || beats(choices, prefix, 0, r.best)
        }),
    decreases choices.len() - prefix.len(), choices[prefix.len() as int].pairs.len() + 1,
{
    let current = selection(choices, prefix);
    let r = explored(choices, prefix.len(), current, floor, s);
    if s.remaining > 0 {
        let t = SearchView { remaining: (s.remaining - 1) as nat, ..s };
        if no_better(current, t.best) {
            assert forall|picks: Seq<int>|
                #[trigger] complete(choices, picks) && picks.take(prefix.len() as int)
                    == prefix implies (r.best->0).rows.len() <= selection(
                choices,
                picks,
            ).rows.len() by {
                prefix_is_no_larger(choices, picks, prefix.len() as int);
            }
        } else if prefix.len() >= choices.len() {
            assert(complete(choices, prefix));
            assert(r.best == Some(current));
            assert forall|picks: Seq<int>|
                #[trigger] complete(choices, picks) && picks.take(prefix.len() as int)
                    == prefix implies (r.best->0).rows.len() <= selection(
                choices,
                picks,
            ).rows.len() by {
                assert(picks.take(prefix.len() as int) =~= picks);
            }
        } else {
            exploration_of_pairs(choices, prefix, 0, floor, t);
        }
    }
}

/// What a search of the pairs of one condition, from `k` on, does.
proof fn exploration_of_pairs(
    choices: Seq<ChoiceView>,
    prefix: Seq<int>,
    k: nat,
    floor: nat,
    s: SearchView,
)
    requires
        picks_pairs(choices, prefix),
        prefix.len() < choices.len(),
        k <= choices[prefix.len() as int].pairs.len(),
        sound(choices, s.best),
    ensures
        ({
            let r = explored_pairs(
                choices,
                prefix.len(),
                k,
                selection(choices, prefix),
                floor,
                s,
            );
            &&& sound(choices, r.best)
            &&& no_larger(r.best, s.best)
            &&& s.exhausted ==> r.exhausted
            &&& !r.exhausted ==> at_floor(r.best, floor) || beats(
                choices,
                prefix,
                k as int,
                r.best,
            )
        }),
    decreases choices.len() - prefix.len(), choices[prefix.len() as int].pairs.len() - k,
{
    let depth = prefix.len();
    let current = selection(choices, prefix);
    let r = explored_pairs(choices, depth, k, current, floor, s);
    if k >= choices[depth as int].pairs.len() {
        assert(beats(choices, prefix, k as int, r.best)) by {
            assert forall|picks: Seq<int>|
                #[trigger] complete(choices, picks) && picks.take(prefix.len() as int) == prefix
                    && (prefix.len() < picks.len() ==> picks[prefix.len() as int]
                    >= k) implies false by {
                assert(picks[depth as int] < choices[depth as int].pairs.len());
            }
        }
    } else {
        let longer = prefix.push(k as int);
        assert(longer.drop_last() =~= prefix);
        assert(picks_pairs(choices, longer));
        let next = explored(
            choices,
            depth + 1,
            with_pair(current, choices[depth as int].pairs[k as int]),
            floor,
            s,
        );
        assert(selection(choices, longer) == with_pair(
            current,
            choices[depth as int].pairs[k as int],
        ));
        exploration(choices, longer, floor, s);
        if !at_floor(next.best, floor) {
            exploration_of_pairs(choices, prefix, k + 1, floor, next);
            if !r.exhausted && !at_floor(r.best, floor) {
                assert(!next.exhausted);
                assert forall|picks: Seq<int>|
                    #[trigger] complete(choices, picks) && picks.take(prefix.len() as int) == prefix
                        && (prefix.len() < picks.len() ==> picks[prefix.len() as int]
                        >= k) implies r.best is Some && (r.best->0).rows.len() <= selection(
                    choices,
                    picks,
                ).rows.len() by {
                    if picks[depth as int] == k {
                        assert(picks.take(longer.len() as int) =~= longer);
                        assert(beats(choices, longer, 0, next.best));
                        if longer.len() < picks.len() {
                            assert(0 <= picks[longer.len() as int]);
                        }
                    } else {
                        assert(beats(choices, prefix, (k + 1) as int, r.best));
                    }
                }
            }
        }
    }
}

/// With more nodes than conditions a search finds a selection.
proof fn first_dive_completes(
    choices: Seq<ChoiceView>,
    prefix: Seq<int>,
    floor: nat,
    s: SearchView,
)
    requires
        picks_pairs(choices, prefix),
        forall|i: int| 0 <= i < choices.len() ==> (#[trigger] choices[i]).pairs.len() > 0,
        sound(choices, s.best),
        s.best is Some || s.remaining > choices.len() - prefix.len(),
    ensures
        explored(choices, prefix.len(), selection(choices, prefix), floor, s).best is Some,
    decreases choices.len() - prefix.len(),
{
    exploration(choices, prefix, floor, s);
    if s.best is None {
        let t = SearchView { remaining: (s.remaining - 1) as nat, ..s };
        if prefix.len() < choices.len() {
            let depth = prefix.len() as int;
            assert(choices[depth].pairs.len() > 0);
            let longer = prefix.push(0);
            assert(longer.drop_last() =~= prefix);
            assert(picks_pairs(choices, longer));
            first_dive_completes(choices, longer, floor, t);
            exploration(choices, longer, floor, t);
            let current = selection(choices, prefix);
            let next = explored(
                choices,
                prefix.len() + 1,
                with_pair(current, choices[depth].pairs[0]),
                floor,
                t,
            );
            assert(next.best is Some);
            if !at_floor(next.best, floor) {
                exploration_of_pairs(choices, prefix, 1, floor, next);
            }
            assert(explored_pairs(choices, prefix.len(), 0, current, floor, t).best is Some);
        }
    }
}

// ---------------------------------------------------------------------------
// The search space
// ---------------------------------------------------------------------------

/// Sorting keeps the choices.
proof fn insertion_keeps(sorted: Seq<ChoiceView>, choice: ChoiceView, c: ChoiceView)
    ensures
        insert_choice(sorted, choice).contains(c) <==> c == choice || sorted.contains(c),
    decreases sorted.len(),
{
    let r = insert_choice(sorted, choice);
    if sorted.len() == 0 || sorted.last().pairs.len() <= choice.pairs.len() {
        if sorted.contains(c) {
            let k = choose|k: int| 0 <= k < sorted.len() && sorted[k] == c;
            assert(r[k] == c);
        }
        if c == choice {
            assert(r[sorted.len() as int] == c);
        }
        if r.contains(c) && c != choice {
            let k = choose|k: int| 0 <= k < r.len() && r[k] == c;
            assert(sorted[k] == c);
        }
    } else {
        let front = sorted.drop_last();
        let inner = insert_choice(front, choice);
        insertion_keeps(front, choice, c);
        if r.contains(c) {
            let k = choose|k: int| 0 <= k < r.len() && r[k] == c;
            if k < inner.len() {
                assert(inner[k] == c);
                if c != choice {
                    let q = choose|q: int| 0 <= q < front.len() && front[q] == c;
                    assert(sorted[q] == c);
                }
            } else {
                assert(sorted[sorted.len() - 1] == c);
            }
        }
        if inner.contains(c) {
            let k = choose|k: int| 0 <= k < inner.len() && inner[k] == c;
            assert(r[k] == c);
        }
        if sorted.contains(c) {
            let k = choose|k: int| 0 <= k < sorted.len() && sorted[k] == c;
            if k < front.len() {
                assert(front[k] == c);
            } else {
                assert(r[inner.len() as int] == c);
            }
        }
    }
}

proof fn sorting_keeps(choices: Seq<ChoiceView>, c: ChoiceView)
    ensures
        by_constraint(choices).contains(c) <==> choices.contains(c),
    decreases choices.len(),
{
    if choices.len() > 0 {
        let front = choices.drop_last();
        sorting_keeps(front, c);
        insertion_keeps(by_constraint(front), choices.last(), c);
        if choices.contains(c) {
            let k = choose|k: int| 0 <= k < choices.len() && choices[k] == c;
            if k < front.len() {
                assert(front[k] == c);
            }
        }
        if front.contains(c) {
            let k = choose|k: int| 0 <= k < front.len() && front[k] == c;
            assert(choices[k] == c);
        }
        if c == choices.last() {
            assert(choices[choices.len() - 1] == c);
        }
    }
}

/// The candidates listed are those of the conditions that have some.
proof fn listed_choices(matrix: MatrixView, names: Seq<Seq<char>>, n: int, c: ChoiceView)
    requires
        n <= names.len(),
    ensures
        choices_upto(matrix, names, n).contains(c) <==> exists|i: int|
            0 <= i < n && c == choice_of(matrix, #[trigger] names[i]) && c.pairs.len() > 0,
    decreases n,
{
    if n > 0 {
        let all = choices_upto(matrix, names, n);
        let rest = choices_upto(matrix, names, n - 1);
        listed_choices(matrix, names, n - 1, c);
        if all.contains(c) && !rest.contains(c) {
            let k = choose|k: int| 0 <= k < all.len() && all[k] == c;
            if k < rest.len() {
                assert(rest[k] == c);
            }
            assert(c == choice_of(matrix, names[n - 1]));
        }
        if rest.contains(c) {
            let k = choose|k: int| 0 <= k < rest.len() && rest[k] == c;
            assert(all[k] == c);
        }
        if c == choice_of(matrix, names[n - 1]) && c.pairs.len() > 0 {
            assert(all[all.len() - 1] == c);
        }
    }
}

/// The search space holds the candidates of each condition that has some.
proof fn space_holds_choices(matrix: MatrixView, c: ChoiceView)
    requires
        matrix.independence_pairs.dom().finite(),
    ensures
        search_space(matrix).contains(c) <==> (matrix.independence_pairs.contains_key(c.condition)
            && c == choice_of(matrix, c.condition) && c.pairs.len() > 0),
{
    let names = in_order(matrix.independence_pairs.dom());
    order_exists(matrix.independence_pairs.dom());
    sorting_keeps(choices_upto(matrix, names, names.len() as int), c);
    listed_choices(matrix, names, names.len() as int, c);
    if matrix.independence_pairs.contains_key(c.condition) {
        assert(names.to_set().contains(c.condition));
        let i = choose|i: int| 0 <= i < names.len() && names[i] == c.condition;
        assert(names[i] == c.condition);
    }
    if exists|i: int|
        0 <= i < names.len() && c == choice_of(matrix, #[trigger] names[i]) && c.pairs.len() > 0 {
        let i = choose|i: int|
            0 <= i < names.len() && c == choice_of(matrix, #[trigger] names[i]) && c.pairs.len()
                > 0;
        assert(names.to_set().contains(names[i]));
    }
}

/// A row found by its inputs is the first with them.
proof fn found_row(table: Seq<RowView>, inputs: Map<Seq<char>, bool>, i: int)
    requires
        0 <= i,
        table.len() <= usize::MAX,
    ensures
        match row_position_from(table, inputs, i) {
            Some(k) => i <= k < table.len() && table[k as int].inputs == inputs,
            None => forall|k: int|
                i <= k < table.len() ==> (#[trigger] table[k]).inputs != inputs,
        },
    decreases table.len() - i,
{
    if i < table.len() && table[i].inputs != inputs {
        found_row(table, inputs, i + 1);
    }
}

/// In a coherent matrix every pair is found by the positions of its rows.
proof fn indexed_pairs(matrix: MatrixView, name: Seq<char>, n: int)
    requires
        coherent(matrix),
        matrix.truth_table.len() <= usize::MAX,
        matrix.independence_pairs.contains_key(name),
        matrix.independence_pairs[name].len() <= usize::MAX,
        0 <= n <= matrix.independence_pairs[name].len(),
    ensures
        ({
            let found = indexed(matrix.truth_table, matrix.independence_pairs[name], n);
            &&& found.len() == n
            &&& forall|k: int|
                0 <= k < n ==> {
                    let (index, a, b) = #[trigger] found[k];
                    &&& index == k
                    &&& a < matrix.truth_table.len()
                    &&& b < matrix.truth_table.len()
                    &&& a != b
                    &&& matrix.truth_table[a as int] == matrix.independence_pairs[name][k].test_1
                    &&& matrix.truth_table[b as int] == matrix.independence_pairs[name][k].test_2
                }
        }),
    decreases n,
{
    if n > 0 {
        indexed_pairs(matrix, name, n - 1);
        let table = matrix.truth_table;
        let pair = matrix.independence_pairs[name][n - 1];
        assert(table.contains(pair.test_1));
        let i = choose|i: int| 0 <= i < table.len() && table[i] == pair.test_1;
        let j = choose|j: int| 0 <= j < table.len() && table[j] == pair.test_2;
        found_row(table, pair.test_1.inputs, 0);
        found_row(table, pair.test_2.inputs, 0);
        assert(table[i].inputs == pair.test_1.inputs);
        assert(table[j].inputs == pair.test_2.inputs);
        let a = row_position(table, pair.test_1)->0;
        let b = row_position(table, pair.test_2)->0;
        assert(a == i);
        assert(b == j);
    }
}

/// Whether a matrix is small enough for its rows and pairs to be counted.
pub open spec fn countable(matrix: MatrixView) -> bool {
    &&& matrix.truth_table.len() <= usize::MAX
    &&& forall|name: Seq<char>|
        matrix.independence_pairs.contains_key(name) ==> (
        #[trigger] matrix.independence_pairs[name]).len() <= usize::MAX
}

/// Whether a condition can be demonstrated at all.
pub open spec fn demonstrable(matrix: MatrixView, name: Seq<char>) -> bool {
    matrix.independence_pairs.contains_key(name) && matrix.independence_pairs[name].len() > 0
}

/// In a coherent matrix the search space holds each condition that can be
/// demonstrated, with its pairs by their rows.
proof fn space_of_coherent_matrix(matrix: MatrixView)
    requires
        coherent(matrix),
        countable(matrix),
    ensures
        forall|i: int|
            0 <= i < search_space(matrix).len() ==> {
                let c = #[trigger] search_space(matrix)[i];
                &&& demonstrable(matrix, c.condition)
                &&& c == choice_of(matrix, c.condition)
                &&& c.pairs.len() == matrix.independence_pairs[c.condition].len()
                &&& forall|k: int|
                    0 <= k < c.pairs.len() ==> {
                        let (index, a, b) = #[trigger] c.pairs[k];
                        &&& index == k
                        &&& a < matrix.truth_table.len()
                        &&& b < matrix.truth_table.len()
                        &&& a != b
                        &&& matrix.truth_table[a as int]
                            == matrix.independence_pairs[c.condition][k].test_1
                        &&& matrix.truth_table[b as int]
                            == matrix.independence_pairs[c.condition][k].test_2
                    }
            },
        forall|name: Seq<char>| #[trigger]
            demonstrable(matrix, name) ==> exists|i: int|
                0 <= i < search_space(matrix).len() && (
                #[trigger] search_space(matrix)[i]).condition == name,
{
    let space = search_space(matrix);
    assert forall|i: int| 0 <= i < space.len() implies {
        let c = #[trigger] space[i];
        &&& demonstrable(matrix, c.condition)
        &&& c == choice_of(matrix, c.condition)
        &&& c.pairs.len() == matrix.independence_pairs[c.condition].len()
        &&& forall|k: int|
            0 <= k < c.pairs.len() ==> {
                let (index, a, b) = #[trigger] c.pairs[k];
                &&& index == k
                &&& a < matrix.truth_table.len()
                &&& b < matrix.truth_table.len()
                &&& a != b
                &&& matrix.truth_table[a as int]
                    == matrix.independence_pairs[c.condition][k].test_1
                &&& matrix.truth_table[b as int]
                    == matrix.independence_pairs[c.condition][k].test_2
            }
    } by {
        let c = space[i];
        assert(space.contains(c));
        space_holds_choices(matrix, c);
        indexed_pairs(
            matrix,
            c.condition,
            matrix.independence_pairs[c.condition].len() as int,
        );
    }
    assert forall|name: Seq<char>| #[trigger] demonstrable(matrix, name) implies exists|i: int|
        0 <= i < space.len() && (#[trigger] space[i]).condition == name by {
        let c = choice_of(matrix, name);
        indexed_pairs(matrix, name, matrix.independence_pairs[name].len() as int);
        space_holds_choices(matrix, c);
        let i = choose|i: int| 0 <= i < space.len() && space[i] == c;
        assert(space[i].condition == name);
    }
}

// ---------------------------------------------------------------------------
// Rows of a selection
// ---------------------------------------------------------------------------

/// The pairs that picks name have their rows in the selection.
proof fn picked_rows(choices: Seq<ChoiceView>, picks: Seq<int>, i: int)
    requires
        picks_pairs(choices, picks),
        0 <= i < picks.len(),
    ensures
        selection(choices, picks).rows.contains(choices[i].pairs[picks[i]].1),
        selection(choices, picks).rows.contains(choices[i].pairs[picks[i]].2),
        selection(choices, picks).chosen[i] == choices[i].pairs[picks[i]].0,
    decreases picks.len(),
{
    selection_is_finite(choices, picks.drop_last());
    if i < picks.len() - 1 {
        picked_rows(choices, picks.drop_last(), i);
    }
}

/// A set that holds the rows of the picked pairs holds the selection.
proof fn selection_within(choices: Seq<ChoiceView>, picks: Seq<int>, rows: Set<usize>)
    requires
        picks_pairs(choices, picks),
        forall|i: int|
            0 <= i < picks.len() ==> rows.contains(choices[i].pairs[#[trigger] picks[i]].1)
                && rows.contains(choices[i].pairs[picks[i]].2),
    ensures
        selection(choices, picks).rows.subset_of(rows),
    decreases picks.len(),
{
    if picks.len() > 0 {
        let front = picks.drop_last();
        assert forall|i: int| 0 <= i < front.len() implies rows.contains(
            choices[i].pairs[#[trigger] front[i]].1,
        ) && rows.contains(choices[i].pairs[front[i]].2) by {
            assert(front[i] == picks[i]);
        }
        selection_within(choices, front, rows);
        assert(picks[picks.len() - 1] == picks.last());
    }
}

/// The rows listed for a set of indices are as many as the indices.
proof fn rows_upto_counts(table: Seq<RowView>, rows: Set<usize>, n: int)
    requires
        0 <= n <= table.len(),
        table.len() <= usize::MAX,
        rows.finite(),
    ensures
        rows_upto(table, rows, n).len() == rows.filter(|r: usize| r < n).len(),
        forall|r: usize|
            rows.contains(r) && r < n ==> rows_upto(table, rows, n).contains(
                #[trigger] table[r as int],
            ),
        forall|i: int|
            0 <= i < rows_upto(table, rows, n).len() ==> table.contains(
                #[trigger] rows_upto(table, rows, n)[i],
            ),
    decreases n,
{
    let listed = rows_upto(table, rows, n);
    if n == 0 {
        assert(rows.filter(|r: usize| r < n) =~= Set::empty());
    } else {
        let rest = rows_upto(table, rows, n - 1);
        let last = (n - 1) as usize;
        rows_upto_counts(table, rows, n - 1);
        let before = rows.filter(|r: usize| r < n - 1);
        let now = rows.filter(|r: usize| r < n);
        if rows.contains(last) {
            assert(now =~= before.insert(last));
        } else {
            assert(now =~= before);
        }
        assert forall|r: usize| rows.contains(r) && r < n implies listed.contains(
            #[trigger] table[r as int],
        ) by {
            if r == last {
                assert(listed[listed.len() - 1] == table[r as int]);
            } else {
                assert(rest.contains(table[r as int]));
                let k = choose|k: int| 0 <= k < rest.len() && rest[k] == table[r as int];
                assert(listed[k] == table[r as int]);
            }
        }
        assert forall|i: int| 0 <= i < listed.len() implies table.contains(#[trigger] listed[i]) by {
            if i < rest.len() {
                assert(listed[i] == rest[i]);
                assert(table.contains(rest[i]));
            } else {
                assert(table[n - 1] == listed[i]);
            }
        }
    }
}

/// What a finished search holds: a complete selection, unless it was refused
/// its first nodes.
proof fn search_result(matrix: MatrixView, budget: nat) -> (picks: Seq<int>)
    requires
        searched(search_space(matrix), budget).best is Some,
    ensures
        complete(search_space(matrix), picks),
        searched(search_space(matrix), budget).best == Some(
            selection(search_space(matrix), picks),
        ),
{
    let choices = search_space(matrix);
    let s = SearchView { remaining: budget, exhausted: false, best: None };
    assert(selection(choices, seq![]) == nothing_selected());
    exploration(choices, seq![], floor_of(choices), s);
    choose|picks: Seq<int>|
        #[trigger] complete(choices, picks) && searched(choices, budget).best->0 == selection(
            choices,
            picks,
        )
}

/// The selection's rows are rows of the table, and the tests are as many.
proof fn tests_are_the_rows(matrix: MatrixView, picks: Seq<int>)
    requires
        coherent(matrix),
        countable(matrix),
        complete(search_space(matrix), picks),
    ensures
        ({
            let rows = selection(search_space(matrix), picks).rows;
            let tests = rows_upto(matrix.truth_table, rows, matrix.truth_table.len() as int);
            &&& tests.len() == rows.len()
            &&& forall|r: usize|
                rows.contains(r) ==> r < matrix.truth_table.len() && tests.contains(
                    #[trigger] matrix.truth_table[r as int],
                )
            &&& forall|i: int|
                0 <= i < tests.len() ==> matrix.truth_table.contains(#[trigger] tests[i])
        }),
{
    let choices = search_space(matrix);
    let n = matrix.truth_table.len() as int;
    let rows = selection(choices, picks).rows;
    let inside = Set::new(|r: usize| r < n);
    space_of_coherent_matrix(matrix);
    assert forall|i: int| 0 <= i < picks.len() implies inside.contains(
        choices[i].pairs[#[trigger] picks[i]].1,
    ) && inside.contains(choices[i].pairs[picks[i]].2) by {
        let c = choices[i];
        let pair = c.pairs[picks[i]];
    }
    selection_within(choices, picks, inside);
    selection_is_finite(choices, picks);
    rows_upto_counts(matrix.truth_table, rows, n);
    assert(rows.filter(|r: usize| r < n) =~= rows);
    assert forall|r: usize| rows.contains(r) implies r < n by {
        assert(inside.contains(r));
    }
}

// ---------------------------------------------------------------------------
// Laws
// ---------------------------------------------------------------------------

/// With no budget nothing is claimed.
pub proof fn no_budget_claims_nothing(matrix: MatrixView)
    ensures
        minimum_of(matrix, 0) == no_test_set(),
{
}

/// With more budget than conditions that can be demonstrated a test set is
/// found.
pub proof fn enough_budget_finds_a_set(matrix: MatrixView, budget: nat)
    requires
        coherent(matrix),
        countable(matrix),
        budget > search_space(matrix).len(),
    ensures
        searched(search_space(matrix), budget).best is Some,
{
    let choices = search_space(matrix);
    let s = SearchView { remaining: budget, exhausted: false, best: None };
    space_of_coherent_matrix(matrix);
    assert(selection(choices, seq![]) == nothing_selected());
    assert forall|i: int| 0 <= i < choices.len() implies (#[trigger] choices[i]).pairs.len() > 0 by {
        let c = choices[i];
    }
    first_dive_completes(choices, seq![], floor_of(choices), s);
}

/// The pairs that a choice of the first `n` conditions contributes.
proof fn chosen_upto_holds(matrix: MatrixView, picks: Seq<int>, n: int)
    requires
        coherent(matrix),
        countable(matrix),
        complete(search_space(matrix), picks),
        0 <= n <= picks.len(),
    ensures
        ({
            let choices = search_space(matrix);
            let sel = selection(choices, picks);
            let m = chosen_upto(matrix, choices, sel.chosen, n);
            &&& forall|name: Seq<char>|
                m.contains_key(name) <==> exists|i: int|
                    0 <= i < n && (#[trigger] choices[i]).condition == name
            &&& forall|name: Seq<char>| #[trigger]
                m.contains_key(name) ==> exists|i: int|
                    0 <= i < n && (#[trigger] choices[i]).condition == name && m[name]
                        == matrix.independence_pairs[name][picks[i]]
        }),
    decreases n,
{
    let choices = search_space(matrix);
    let sel = selection(choices, picks);
    let m = chosen_upto(matrix, choices, sel.chosen, n);
    if n > 0 {
        let rest = chosen_upto(matrix, choices, sel.chosen, n - 1);
        chosen_upto_holds(matrix, picks, n - 1);
        space_of_coherent_matrix(matrix);
        picked_rows(choices, picks, n - 1);
        selection_is_finite(choices, picks);
        let c = choices[n - 1];
        let pair = c.pairs[picks[n - 1]];
        assert(pair.0 == picks[n - 1]);
        assert(m == rest.insert(c.condition, matrix.independence_pairs[c.condition][picks[n - 1]]));
        assert forall|name: Seq<char>| m.contains_key(name) implies exists|i: int|
            0 <= i < n && (#[trigger] choices[i]).condition == name by {
            if name == c.condition {
                assert(choices[n - 1].condition == name);
            } else {
                assert(rest.contains_key(name));
                let i = choose|i: int| 0 <= i < n - 1 && (#[trigger] choices[i]).condition == name;
                assert(choices[i].condition == name);
            }
        }
        assert forall|name: Seq<char>| #[trigger] m.contains_key(name) implies exists|i: int|
            0 <= i < n && (#[trigger] choices[i]).condition == name && m[name]
                == matrix.independence_pairs[name][picks[i]] by {
            if name == c.condition {
                assert(choices[n - 1].condition == name);
            } else {
                assert(rest.contains_key(name));
                let i = choose|i: int|
                    0 <= i < n - 1 && (#[trigger] choices[i]).condition == name && rest[name]
                        == matrix.independence_pairs[name][picks[i]];
                assert(choices[i].condition == name);
            }
        }
    }
}

/// Where a test set is found, exactly the conditions that can be demonstrated
/// have a chosen pair; it is one of their pairs, and both its rows are among
/// the tests.
pub proof fn chosen_pairs_are_tested(matrix: MatrixView, budget: nat, name: Seq<char>)
    requires
        coherent(matrix),
        countable(matrix),
        searched(search_space(matrix), budget).best is Some,
    ensures
        minimum_of(matrix, budget).chosen_pairs.contains_key(name) <==> demonstrable(matrix, name),
        demonstrable(matrix, name) ==> {
            let pair = minimum_of(matrix, budget).chosen_pairs[name];
            &&& matrix.independence_pairs[name].contains(pair)
            &&& minimum_of(matrix, budget).tests.contains(pair.test_1)
            &&& minimum_of(matrix, budget).tests.contains(pair.test_2)
        },
{
    let choices = search_space(matrix);
    let picks = search_result(matrix, budget);
    let sel = selection(choices, picks);
    let m = chosen_upto(matrix, choices, sel.chosen, choices.len() as int);
    assert(minimum_of(matrix, budget).chosen_pairs == m);
    chosen_upto_holds(matrix, picks, choices.len() as int);
    space_of_coherent_matrix(matrix);
    tests_are_the_rows(matrix, picks);
    if m.contains_key(name) {
        let i = choose|i: int|
            0 <= i < choices.len() && (#[trigger] choices[i]).condition == name && m[name]
                == matrix.independence_pairs[name][picks[i]];
        let c = choices[i];
        picked_rows(choices, picks, i);
        let pair = c.pairs[picks[i]];
        assert(matrix.independence_pairs[name][picks[i]] == m[name]);
        assert(sel.rows.contains(pair.1));
        assert(sel.rows.contains(pair.2));
        assert(matrix.truth_table[pair.1 as int] == m[name].test_1);
        assert(matrix.truth_table[pair.2 as int] == m[name].test_2);
    }
    if demonstrable(matrix, name) {
        let i = choose|i: int| 0 <= i < choices.len() && (#[trigger] choices[i]).condition == name;
        assert(choices[i].condition == name);
    }
}

/// The tests are rows of the truth table.
pub proof fn tests_are_rows_of_the_table(matrix: MatrixView, budget: nat, i: int)
    requires
        coherent(matrix),
        countable(matrix),
        0 <= i < minimum_of(matrix, budget).tests.len(),
    ensures
        matrix.truth_table.contains(minimum_of(matrix, budget).tests[i]),
{
    if searched(search_space(matrix), budget).best is Some {
        let picks = search_result(matrix, budget);
        tests_are_the_rows(matrix, picks);
    }
}

/// Whether a set of truth-table rows, by their indices, demonstrates every
/// condition that can be demonstrated: for each it holds both rows of one of
/// the condition's pairs.
pub open spec fn demonstrates_all(matrix: MatrixView, rows: Set<usize>) -> bool {
    forall|name: Seq<char>| #[trigger]
        demonstrable(matrix, name) ==> exists|k: int|
            0 <= k < matrix.independence_pairs[name].len() && holds_pair(
                matrix,
                rows,
                #[trigger] matrix.independence_pairs[name][k],
            )
}

/// Whether a set of row indices holds both rows of a pair.
pub open spec fn holds_pair(matrix: MatrixView, rows: Set<usize>, pair: PairView) -> bool {
    exists|a: usize, b: usize|
        #![trigger matrix.truth_table[a as int], matrix.truth_table[b as int]]
        rows.contains(a) && rows.contains(b) && a < matrix.truth_table.len() && b
            < matrix.truth_table.len() && matrix.truth_table[a as int] == pair.test_1
            && matrix.truth_table[b as int] == pair.test_2
}

/// A set that demonstrates everything holds the rows of some selection.
proof fn demonstration_selects(matrix: MatrixView, rows: Set<usize>) -> (picks: Seq<int>)
    requires
        coherent(matrix),
        countable(matrix),
        demonstrates_all(matrix, rows),
    ensures
        complete(search_space(matrix), picks),
        selection(search_space(matrix), picks).rows.subset_of(rows),
{
    let choices = search_space(matrix);
    space_of_coherent_matrix(matrix);
    let picks = Seq::new(
        choices.len(),
        |i: int|
            choose|k: int|
                0 <= k < matrix.independence_pairs[choices[i].condition].len() && holds_pair(
                    matrix,
                    rows,
                    #[trigger] matrix.independence_pairs[choices[i].condition][k],
                ),
    );
    assert forall|i: int| 0 <= i < picks.len() implies 0 <= #[trigger] picks[i]
        < choices[i].pairs.len() && rows.contains(choices[i].pairs[picks[i]].1) && rows.contains(
        choices[i].pairs[picks[i]].2,
    ) by {
        let c = choices[i];
        assert(demonstrable(matrix, c.condition));
        let k = picks[i];
        assert(0 <= k < matrix.independence_pairs[c.condition].len() && holds_pair(
            matrix,
            rows,
            matrix.independence_pairs[c.condition][k],
        ));
        let pair = matrix.independence_pairs[c.condition][k];
        let (a, b) = choose|a: usize, b: usize|
            #![trigger matrix.truth_table[a as int], matrix.truth_table[b as int]]
            rows.contains(a) && rows.contains(b) && a < matrix.truth_table.len() && b
                < matrix.truth_table.len() && matrix.truth_table[a as int] == pair.test_1
                && matrix.truth_table[b as int] == pair.test_2;
        let found = c.pairs[k];
        assert(matrix.truth_table[found.1 as int] == pair.test_1);
        assert(matrix.truth_table[found.2 as int] == pair.test_2);
        same_row(matrix, a as int, found.1 as int);
        same_row(matrix, b as int, found.2 as int);
    }
    assert(picks_pairs(choices, picks));
    selection_within(choices, picks, rows);
    picks
}

proof fn same_row(matrix: MatrixView, a: int, b: int)
    requires
        coherent(matrix),
        0 <= a < matrix.truth_table.len(),
        0 <= b < matrix.truth_table.len(),
        matrix.truth_table[a] == matrix.truth_table[b],
    ensures
        a == b,
{
    if a < b {
        assert(matrix.truth_table[a].inputs != matrix.truth_table[b].inputs);
    } else if b < a {
        assert(matrix.truth_table[b].inputs != matrix.truth_table[a].inputs);
    }
}

/// A test set that is reported as proven minimal is minimal: no set of
/// truth-table rows that demonstrates every condition that can be
/// demonstrated is smaller.
pub proof fn proven_set_is_minimal(matrix: MatrixView, budget: nat, rows: Set<usize>)
    requires
        coherent(matrix),
        countable(matrix),
        minimum_of(matrix, budget).proven_minimal,
        rows.finite(),
        demonstrates_all(matrix, rows),
    ensures
        minimum_of(matrix, budget).tests.len() <= rows.len(),
{
    let choices = search_space(matrix);
    let floor = floor_of(choices);
    let s = SearchView { remaining: budget, exhausted: false, best: None };
    let r = searched(choices, budget);
    assert(r.best is Some);
    let found = search_result(matrix, budget);
    tests_are_the_rows(matrix, found);
    let best = r.best->0;
    let other = demonstration_selects(matrix, rows);
    let other_rows = selection(choices, other).rows;
    vstd::set_lib::lemma_len_subset(other_rows, rows);
    assert(selection(choices, seq![]) == nothing_selected());
    exploration(choices, seq![], floor, s);
    if r.exhausted || at_floor(r.best, floor) {
        assert(best.rows.len() <= floor);
        if choices.len() > 0 {
            space_of_coherent_matrix(matrix);
            picked_rows(choices, other, 0);
            selection_is_finite(choices, other);
            let c = choices[0];
            let pair = c.pairs[other[0]];
            let two = Set::<usize>::empty().insert(pair.1).insert(pair.2);
            assert(two.len() == 2);
            assert(two.subset_of(other_rows));
            vstd::set_lib::lemma_len_subset(two, other_rows);
        }
    } else {
        assert(other.take(0) =~= seq![]);
        assert(beats(choices, seq![], 0, r.best));
        assert(best.rows.len() <= other_rows.len()) by {
            assert(complete(choices, other));
            if 0 < other.len() {
                assert(other[0] >= 0);
            }
        }
    }
}

/// What holds of coherent matrices holds of every analysis: a minimum test
/// set of an analysed decision that is reported as proven is minimal.
pub proof fn analysed_set_is_minimal(
    decisions: Seq<NodeView>,
    variant: Variant,
    budget: nat,
    rows: Set<usize>,
)
    requires
        countable(matrix_of(decisions, variant)),
        minimum_of(matrix_of(decisions, variant), budget).proven_minimal,
        rows.finite(),
        demonstrates_all(matrix_of(decisions, variant), rows),
    ensures
        minimum_of(matrix_of(decisions, variant), budget).tests.len() <= rows.len(),
{
    analysis_is_coherent(decisions, variant);
    proven_set_is_minimal(matrix_of(decisions, variant), budget, rows);
}

/// The observations of running each test of a set once.
pub open spec fn runs_of(tests: Seq<RowView>) -> Seq<ObservationView> {
    Seq::new(
        tests.len(),
        |i: int|
            ObservationView { test_name: None, inputs: tests[i].inputs, result: tests[i].result },
    )
}

/// Running the tests of a minimum set demonstrates every condition that can
/// be demonstrated.
pub proof fn minimum_set_exercises_everything(matrix: MatrixView, budget: nat, name: Seq<char>)
    requires
        coherent(matrix),
        countable(matrix),
        searched(search_space(matrix), budget).best is Some,
        demonstrable(matrix, name),
    ensures
        status_of(
            matrix.independence_pairs[name],
            runs_of(minimum_of(matrix, budget).tests),
        ) is Exercised,
{
    chosen_pairs_are_tested(matrix, budget, name);
    let tests = minimum_of(matrix, budget).tests;
    let runs = runs_of(tests);
    let pairs = matrix.independence_pairs[name];
    let pair = minimum_of(matrix, budget).chosen_pairs[name];
    assert forall|row: RowView| tests.contains(row) implies observed(runs, row) by {
        let i = choose|i: int| 0 <= i < tests.len() && tests[i] == row;
        assert(covers(runs[i], row));
    }
    let k = choose|k: int| 0 <= k < pairs.len() && pairs[k] == pair;
    assert(observed(runs, pairs[k].test_1));
    exercised_means_a_pair_was_observed(pairs, runs);
}

proof fn choices_are_no_more(matrix: MatrixView, names: Seq<Seq<char>>, n: int)
    requires
        0 <= n,
    ensures
        choices_upto(matrix, names, n).len() <= n,
    decreases n,
{
    if n > 0 {
        choices_are_no_more(matrix, names, n - 1);
    }
}

proof fn insertion_adds_one(sorted: Seq<ChoiceView>, choice: ChoiceView)
    ensures
        insert_choice(sorted, choice).len() == sorted.len() + 1,
    decreases sorted.len(),
{
    if sorted.len() > 0 && sorted.last().pairs.len() > choice.pairs.len() {
        insertion_adds_one(sorted.drop_last(), choice);
    }
}

proof fn sorting_keeps_length(choices: Seq<ChoiceView>)
    ensures
        by_constraint(choices).len() == choices.len(),
    decreases choices.len(),
{
    if choices.len() > 0 {
        sorting_keeps_length(choices.drop_last());
        insertion_adds_one(by_constraint(choices.drop_last()), choices.last());
    }
}

/// Within its budget the search always finds a test set for an analysed
/// decision, and running its tests demonstrates every condition that can be
/// demonstrated.
pub proof fn analysed_set_exercises_everything(
    decisions: Seq<NodeView>,
    variant: Variant,
    name: Seq<char>,
)
    requires
        decisions.len() > 0,
        conditions(decisions[0]).len() < 64,
        countable(matrix_of(decisions, variant)),
    ensures
        searched(
            search_space(matrix_of(decisions, variant)),
            SEARCH_BUDGET as nat,
        ).best is Some,
        demonstrable(matrix_of(decisions, variant), name) ==> status_of(
            matrix_of(decisions, variant).independence_pairs[name],
            runs_of(minimum_of(matrix_of(decisions, variant), SEARCH_BUDGET as nat).tests),
        ) is Exercised,
{
    let matrix = matrix_of(decisions, variant);
    analysis_is_coherent(decisions, variant);
    matrix_lists_every_condition(decisions, variant);
    conditions_are_finite(decisions[0]);
    order_exists(conditions(decisions[0]));
    let names = in_order(matrix.independence_pairs.dom());
    let listed = choices_upto(matrix, names, names.len() as int);
    choices_are_no_more(matrix, names, names.len() as int);
    sorting_keeps_length(listed);
    enough_budget_finds_a_set(matrix, SEARCH_BUDGET as nat);
    if demonstrable(matrix, name) {
        minimum_set_exercises_everything(matrix, SEARCH_BUDGET as nat, name);
    }
}

// ---------------------------------------------------------------------------
// Budgets
// ---------------------------------------------------------------------------

/// A search only improves its best selection, and that it was refused a node
/// is not forgotten.
proof fn search_improves(
    choices: Seq<ChoiceView>,
    depth: nat,
    current: SelectionView,
    floor: nat,
    s: SearchView,
)
    requires
        s.exhausted ==> s.remaining == 0,
    ensures
        ({
            let r = explored(choices, depth, current, floor, s);
            &&& no_larger(r.best, s.best)
            &&& s.exhausted ==> r.exhausted
            &&& r.exhausted ==> r.remaining == 0
        }),
    decreases choices.len() - depth, choices[depth as int].pairs.len() + 1,
{
    if s.remaining > 0 {
        let t = SearchView { remaining: (s.remaining - 1) as nat, ..s };
        if !no_better(current, t.best) && depth < choices.len() {
            search_of_pairs_improves(choices, depth, 0, current, floor, t);
        }
    }
}

proof fn search_of_pairs_improves(
    choices: Seq<ChoiceView>,
    depth: nat,
    k: nat,
    current: SelectionView,
    floor: nat,
    s: SearchView,
)
    requires
        s.exhausted ==> s.remaining == 0,
    ensures
        ({
            let r = explored_pairs(choices, depth, k, current, floor, s);
            &&& no_larger(r.best, s.best)
            &&& s.exhausted ==> r.exhausted
            &&& r.exhausted ==> r.remaining == 0
        }),
    decreases choices.len() - depth, choices[depth as int].pairs.len() - k,
{
    if depth < choices.len() && k < choices[depth as int].pairs.len() {
        let longer = with_pair(current, choices[depth as int].pairs[k as int]);
        let next = explored(choices, depth + 1, longer, floor, s);
        search_improves(choices, depth + 1, longer, floor, s);
        if !at_floor(next.best, floor) {
            search_of_pairs_improves(choices, depth, k + 1, current, floor, next);
        }
    }
}

/// A search without budget finds nothing new.
proof fn spent_search_is_stuck(
    choices: Seq<ChoiceView>,
    depth: nat,
    k: nat,
    current: SelectionView,
    floor: nat,
    s: SearchView,
)
    requires
        s.remaining == 0,
    ensures
        explored_pairs(choices, depth, k, current, floor, s).best == s.best,
    decreases choices[depth as int].pairs.len() - k,
{
    if depth < choices.len() && k < choices[depth as int].pairs.len() {
        let longer = with_pair(current, choices[depth as int].pairs[k as int]);
        let next = explored(choices, depth + 1, longer, floor, s);
        assert(next == (SearchView { exhausted: true, ..s }));
        if !at_floor(next.best, floor) {
            spent_search_is_stuck(choices, depth, k + 1, current, floor, next);
        }
    }
}

/// A search with more budget.
spec fn with_more(s: SearchView, more: nat) -> SearchView {
    SearchView { remaining: s.remaining + more, ..s }
}

/// What more budget changes: nothing where the smaller one suffices, and
/// nothing for the worse where it does not.
spec fn no_worse(r: SearchView, richer: SearchView, more: nat) -> bool {
    if r.exhausted {
        no_larger(richer.best, r.best)
    } else {
        richer == with_more(r, more)
    }
}

proof fn searches_in_step(
    choices: Seq<ChoiceView>,
    depth: nat,
    current: SelectionView,
    floor: nat,
    s: SearchView,
    more: nat,
)
    requires
        !s.exhausted,
    ensures
        no_worse(
            explored(choices, depth, current, floor, s),
            explored(choices, depth, current, floor, with_more(s, more)),
            more,
        ),
    decreases choices.len() - depth, choices[depth as int].pairs.len() + 1,
{
    let richer = with_more(s, more);
    if s.remaining == 0 {
        search_improves(choices, depth, current, floor, richer);
    } else {
        let t = SearchView { remaining: (s.remaining - 1) as nat, ..s };
        assert(with_more(t, more) == (SearchView {
            remaining: (richer.remaining - 1) as nat,
            ..richer
        }));
        if !no_better(current, t.best) && depth < choices.len() {
            searches_of_pairs_in_step(choices, depth, 0, current, floor, t, more);
        }
    }
}

proof fn searches_of_pairs_in_step(
    choices: Seq<ChoiceView>,
    depth: nat,
    k: nat,
    current: SelectionView,
    floor: nat,
    s: SearchView,
    more: nat,
)
    requires
        !s.exhausted,
    ensures
        no_worse(
            explored_pairs(choices, depth, k, current, floor, s),
            explored_pairs(choices, depth, k, current, floor, with_more(s, more)),
            more,
        ),
    decreases choices.len() - depth, choices[depth as int].pairs.len() - k,
{
    if depth < choices.len() && k < choices[depth as int].pairs.len() {
        let longer = with_pair(current, choices[depth as int].pairs[k as int]);
        let next = explored(choices, depth + 1, longer, floor, s);
        let richer = explored(choices, depth + 1, longer, floor, with_more(s, more));
        searches_in_step(choices, depth + 1, longer, floor, s, more);
        search_improves(choices, depth + 1, longer, floor, s);
        search_improves(choices, depth + 1, longer, floor, with_more(s, more));
        if next.exhausted {
            if !at_floor(next.best, floor) {
                spent_search_is_stuck(choices, depth, k + 1, current, floor, next);
                search_of_pairs_improves(choices, depth, k + 1, current, floor, next);
            }
            if !at_floor(richer.best, floor) {
                search_of_pairs_improves(choices, depth, k + 1, current, floor, richer);
            }
        } else if !at_floor(next.best, floor) {
            searches_of_pairs_in_step(choices, depth, k + 1, current, floor, next, more);
        }
    }
}

/// A search that was refused a node has not reached the floor.
proof fn refused_search_is_above_floor(
    choices: Seq<ChoiceView>,
    depth: nat,
    current: SelectionView,
    floor: nat,
    s: SearchView,
)
    requires
        !s.exhausted,
        !at_floor(s.best, floor),
    ensures
        ({
            let r = explored(choices, depth, current, floor, s);
            r.exhausted ==> !at_floor(r.best, floor)
        }),
    decreases choices.len() - depth, choices[depth as int].pairs.len() + 1,
{
    if s.remaining > 0 {
        let t = SearchView { remaining: (s.remaining - 1) as nat, ..s };
        if !no_better(current, t.best) && depth < choices.len() {
            refused_search_of_pairs_is_above_floor(choices, depth, 0, current, floor, t);
        }
    }
}

proof fn refused_search_of_pairs_is_above_floor(
    choices: Seq<ChoiceView>,
    depth: nat,
    k: nat,
    current: SelectionView,
    floor: nat,
    s: SearchView,
)
    requires
        !s.exhausted,
        !at_floor(s.best, floor),
    ensures
        ({
            let r = explored_pairs(choices, depth, k, current, floor, s);
            r.exhausted ==> !at_floor(r.best, floor)
        }),
    decreases choices.len() - depth, choices[depth as int].pairs.len() - k,
{
    if depth < choices.len() && k < choices[depth as int].pairs.len() {
        let longer = with_pair(current, choices[depth as int].pairs[k as int]);
        let next = explored(choices, depth + 1, longer, floor, s);
        refused_search_is_above_floor(choices, depth + 1, longer, floor, s);
        search_improves(choices, depth + 1, longer, floor, s);
        if !at_floor(next.best, floor) {
            if next.exhausted {
                spent_search_is_stuck(choices, depth, k + 1, current, floor, next);
            } else {
                refused_search_of_pairs_is_above_floor(
                    choices,
                    depth,
                    k + 1,
                    current,
                    floor,
                    next,
                );
            }
        }
    }
}

/// Every pair is listed by rows of the table.
proof fn indexed_rows_are_in_range(table: Seq<RowView>, pairs: Seq<PairView>, n: int)
    requires
        table.len() <= usize::MAX,
    ensures
        n >= 0 ==> indexed(table, pairs, n).len() <= n,
        forall|k: int|
            0 <= k < indexed(table, pairs, n).len() ==> {
                let (index, a, b) = #[trigger] indexed(table, pairs, n)[k];
                a < table.len() && b < table.len()
            },
    decreases n,
{
    if n > 0 {
        let rest = indexed(table, pairs, n - 1);
        indexed_rows_are_in_range(table, pairs, n - 1);
        found_row(table, pairs[n - 1].test_1.inputs, 0);
        found_row(table, pairs[n - 1].test_2.inputs, 0);
        assert forall|k: int| 0 <= k < indexed(table, pairs, n).len() implies {
            let (index, a, b) = #[trigger] indexed(table, pairs, n)[k];
            a < table.len() && b < table.len()
        } by {
            if k < rest.len() {
                assert(indexed(table, pairs, n)[k] == rest[k]);
            }
        }
    }
}

/// The tests of a selection are as many as its rows.
proof fn tests_count_rows(matrix: MatrixView, picks: Seq<int>)
    requires
        matrix.truth_table.len() <= usize::MAX,
        matrix.independence_pairs.dom().finite(),
        complete(search_space(matrix), picks),
    ensures
        ({
            let rows = selection(search_space(matrix), picks).rows;
            rows_upto(matrix.truth_table, rows, matrix.truth_table.len() as int).len() == rows.len()
        }),
{
    let choices = search_space(matrix);
    let n = matrix.truth_table.len() as int;
    let rows = selection(choices, picks).rows;
    let inside = Set::new(|r: usize| r < n);
    assert forall|i: int| 0 <= i < picks.len() implies inside.contains(
        choices[i].pairs[#[trigger] picks[i]].1,
    ) && inside.contains(choices[i].pairs[picks[i]].2) by {
        let c = choices[i];
        assert(choices.contains(c));
        space_holds_choices(matrix, c);
        let pairs = matrix.independence_pairs[c.condition];
        indexed_rows_are_in_range(matrix.truth_table, pairs, pairs.len() as int);
        let pair = c.pairs[picks[i]];
        assert(pair == indexed(matrix.truth_table, pairs, pairs.len() as int)[picks[i]]);
    }
    selection_within(choices, picks, inside);
    selection_is_finite(choices, picks);
    rows_upto_counts(matrix.truth_table, rows, n);
    assert(rows.filter(|r: usize| r < n) =~= rows);
}

/// A larger budget keeps a proven result and worsens none: what is proven
/// stays the same, tests and pairs alike, and where a set was found one is
/// found that is no larger.
pub proof fn larger_budget_is_no_worse(matrix: MatrixView, budget: nat, larger: nat)
    requires
        budget <= larger,
        matrix.truth_table.len() <= usize::MAX,
        matrix.independence_pairs.dom().finite(),
    ensures
        minimum_of(matrix, budget).proven_minimal ==> minimum_of(matrix, larger) == minimum_of(
            matrix,
            budget,
        ),
        minimum_of(matrix, budget).tests.len() > 0 ==> 0 < minimum_of(matrix, larger).tests.len()
            <= minimum_of(matrix, budget).tests.len(),
{
    let choices = search_space(matrix);
    let floor = floor_of(choices);
    let start = SearchView { remaining: budget, exhausted: false, best: None };
    let more = (larger - budget) as nat;
    let r = searched(choices, budget);
    let richer = searched(choices, larger);
    assert(with_more(start, more) == (SearchView {
        remaining: larger,
        exhausted: false,
        best: None,
    }));
    searches_in_step(choices, 0, nothing_selected(), floor, start, more);
    refused_search_is_above_floor(choices, 0, nothing_selected(), floor, start);
    assert(no_worse(r, richer, more));
    if minimum_of(matrix, budget).proven_minimal {
        assert(!r.exhausted);
    }
    if minimum_of(matrix, budget).tests.len() > 0 {
        assert(no_larger(richer.best, r.best));
        let picks = search_result(matrix, budget);
        let others = search_result(matrix, larger);
        tests_count_rows(matrix, picks);
        tests_count_rows(matrix, others);
        if choices.len() == 0 {
            assert(picks.len() == 0);
            assert(selection(choices, picks).rows.len() == 0);
        }
        picked_rows(choices, others, 0);
        selection_is_finite(choices, others);
        let rows = selection(choices, others).rows;
        assert(rows.contains(choices[0].pairs[others[0]].1));
        if rows.len() == 0 {
            assert(rows =~= Set::empty());
        }
    }
}

/// How many nodes a search below a node visits at most.
spec fn nodes_below(choices: Seq<ChoiceView>, depth: nat) -> nat
    decreases choices.len() - depth,
{
    if depth >= choices.len() {
        1
    } else {
        1 + choices[depth as int].pairs.len() * nodes_below(choices, depth + 1)
    }
}

proof fn enough_nodes_suffice(
    choices: Seq<ChoiceView>,
    depth: nat,
    current: SelectionView,
    floor: nat,
    s: SearchView,
)
    requires
        depth <= choices.len(),
        s.remaining >= nodes_below(choices, depth),
    ensures
        ({
            let r = explored(choices, depth, current, floor, s);
            &&& r.exhausted == s.exhausted
            &&& r.remaining >= s.remaining - nodes_below(choices, depth)
        }),
    decreases choices.len() - depth, choices[depth as int].pairs.len() + 1,
{
    let t = SearchView { remaining: (s.remaining - 1) as nat, ..s };
    if depth < choices.len() {
        let pairs = choices[depth as int].pairs.len();
        let below = nodes_below(choices, depth + 1);
        assert(nodes_below(choices, depth) == 1 + pairs * below);
        assert((pairs - 0) * below == pairs * below);
        assert(pairs * below >= 0) by (nonlinear_arith)
            requires
                pairs >= 0,
                below >= 0,
        ;
        if !no_better(current, t.best) {
            enough_nodes_suffice_for_pairs(choices, depth, 0, current, floor, t);
        }
    }
}

proof fn enough_nodes_suffice_for_pairs(
    choices: Seq<ChoiceView>,
    depth: nat,
    k: nat,
    current: SelectionView,
    floor: nat,
    s: SearchView,
)
    requires
        depth < choices.len(),
        k <= choices[depth as int].pairs.len(),
        s.remaining >= (choices[depth as int].pairs.len() - k) * nodes_below(choices, depth + 1),
    ensures
        ({
            let r = explored_pairs(choices, depth, k, current, floor, s);
            &&& r.exhausted == s.exhausted
            &&& r.remaining >= s.remaining - (choices[depth as int].pairs.len() - k) * nodes_below(
                choices,
                depth + 1,
            )
        }),
    decreases choices.len() - depth, choices[depth as int].pairs.len() - k,
{
    let pairs = choices[depth as int].pairs.len();
    let below = nodes_below(choices, depth + 1);
    if k < pairs {
        let longer = with_pair(current, choices[depth as int].pairs[k as int]);
        let next = explored(choices, depth + 1, longer, floor, s);
        assert((pairs - k) * below == below + (pairs - (k + 1)) * below) by (nonlinear_arith);
        assert((pairs - (k + 1)) * below >= 0) by (nonlinear_arith)
            requires
                pairs - (k + 1) >= 0,
                below >= 0,
        ;
        enough_nodes_suffice(choices, depth + 1, longer, floor, s);
        if !at_floor(next.best, floor) {
            enough_nodes_suffice_for_pairs(choices, depth, k + 1, current, floor, next);
        }
    } else {
        assert((pairs - k) * below == 0) by (nonlinear_arith)
            requires
                pairs == k,
        ;
    }
}

/// What bounds the nodes below a node with up to three conditions of up to 64
/// pairs each.
spec fn node_bound(conditions: nat) -> nat {
    if conditions == 0 {
        1
    } else if conditions == 1 {
        65
    } else if conditions == 2 {
        4161
    } else {
        266305
    }
}

proof fn few_nodes(choices: Seq<ChoiceView>, depth: nat)
    requires
        depth <= choices.len() <= 3,
        forall|i: int| 0 <= i < choices.len() ==> (#[trigger] choices[i]).pairs.len() <= 64,
    ensures
        nodes_below(choices, depth) <= node_bound((choices.len() - depth) as nat),
    decreases choices.len() - depth,
{
    if depth < choices.len() {
        few_nodes(choices, depth + 1);
        let pairs = choices[depth as int].pairs.len();
        let below = nodes_below(choices, depth + 1);
        let bound = node_bound((choices.len() - depth - 1) as nat);
        assert(pairs * below <= 64 * bound) by (nonlinear_arith)
            requires
                0 <= pairs <= 64,
                0 <= below <= bound,
        ;
    }
}

proof fn pairs_of_row_are_few(
    name: Seq<char>,
    table: Seq<RowView>,
    variant: Variant,
    i: int,
    j: int,
)
    requires
        0 <= i,
        j <= table.len(),
    ensures
        pairs_of_row(name, table, variant, i, j).len() <= table.len(),
        i < j ==> pairs_of_row(name, table, variant, i, j).len() <= j - i,
    decreases j - i,
{
    if j > i + 1 {
        pairs_of_row_are_few(name, table, variant, i, j - 1);
    }
}

proof fn pairs_are_few(name: Seq<char>, table: Seq<RowView>, variant: Variant, i: int)
    requires
        0 <= i <= table.len(),
    ensures
        pairs_before(name, table, variant, i).len() <= i * table.len(),
    decreases i,
{
    if i > 0 {
        pairs_are_few(name, table, variant, i - 1);
        pairs_of_row_are_few(name, table, variant, i - 1, table.len() as int);
        let n = table.len() as int;
        assert((i - 1) * n + n == i * n) by (nonlinear_arith);
    } else {
        assert(0 * table.len() == 0);
    }
}

/// Every decision of up to three conditions is searched to the end within the
/// budget: its minimum test set is proven minimal.
pub proof fn small_decision_is_proven(decisions: Seq<NodeView>, variant: Variant)
    requires
        decisions.len() > 0,
        conditions(decisions[0]).len() <= 3,
    ensures
        minimum_of(matrix_of(decisions, variant), SEARCH_BUDGET as nat).proven_minimal,
{
    let matrix = matrix_of(decisions, variant);
    let choices = search_space(matrix);
    let table = matrix.truth_table;
    analysis_is_coherent(decisions, variant);
    matrix_lists_every_condition(decisions, variant);
    conditions_are_finite(decisions[0]);
    order_exists(conditions(decisions[0]));
    vstd::arithmetic::power2::lemma2_to64();
    assert(table.len() <= 8);
    assert forall|name: Seq<char>| matrix.independence_pairs.contains_key(name) implies (
    #[trigger] matrix.independence_pairs[name]).len() <= 64 by {
        pairs_are_few(name, table, variant, table.len() as int);
        let n = table.len();
        assert(n * n <= 64) by (nonlinear_arith)
            requires
                0 <= n <= 8,
        ;
    }
    let names = in_order(matrix.independence_pairs.dom());
    let listed = choices_upto(matrix, names, names.len() as int);
    choices_are_no_more(matrix, names, names.len() as int);
    sorting_keeps_length(listed);
    assert forall|i: int| 0 <= i < choices.len() implies (#[trigger] choices[i]).pairs.len() <= 64 by {
        let c = choices[i];
        assert(choices.contains(c));
        space_holds_choices(matrix, c);
        let pairs = matrix.independence_pairs[c.condition];
        indexed_rows_are_in_range(table, pairs, pairs.len() as int);
    }
    few_nodes(choices, 0);
    let start = SearchView { remaining: SEARCH_BUDGET as nat, exhausted: false, best: None };
    enough_nodes_suffice(choices, 0, nothing_selected(), floor_of(choices), start);
    enough_budget_finds_a_set(matrix, SEARCH_BUDGET as nat);
}

// ---------------------------------------------------------------------------
// No test without a pair
// ---------------------------------------------------------------------------

/// Whether no two choices are of the same condition.
spec fn distinct_conditions(choices: Seq<ChoiceView>) -> bool {
    forall|i: int, j: int|
        0 <= i < j < choices.len() ==> (#[trigger] choices[i]).condition != (
        #[trigger] choices[j]).condition
}

proof fn listed_conditions_are_distinct(matrix: MatrixView, names: Seq<Seq<char>>, n: int)
    requires
        names.no_duplicates(),
        n <= names.len(),
    ensures
        distinct_conditions(choices_upto(matrix, names, n)),
    decreases n,
{
    if n > 0 {
        let all = choices_upto(matrix, names, n);
        let rest = choices_upto(matrix, names, n - 1);
        listed_conditions_are_distinct(matrix, names, n - 1);
        assert forall|i: int, j: int| 0 <= i < j < all.len() implies (
        #[trigger] all[i]).condition != (#[trigger] all[j]).condition by {
            assert(rest.contains(rest[i]));
            listed_choices(matrix, names, n - 1, rest[i]);
            let k = choose|k: int|
                0 <= k < n - 1 && rest[i] == choice_of(matrix, #[trigger] names[k])
                    && rest[i].pairs.len() > 0;
            assert(names[k] != names[n - 1]);
            if j < rest.len() {
                assert(all[j] == rest[j]);
            }
        }
    }
}

proof fn insertion_keeps_distinct(sorted: Seq<ChoiceView>, choice: ChoiceView)
    requires
        distinct_conditions(sorted),
        forall|i: int|
            0 <= i < sorted.len() ==> (#[trigger] sorted[i]).condition != choice.condition,
    ensures
        distinct_conditions(insert_choice(sorted, choice)),
    decreases sorted.len(),
{
    let r = insert_choice(sorted, choice);
    if sorted.len() > 0 && sorted.last().pairs.len() > choice.pairs.len() {
        let front = sorted.drop_last();
        let inner = insert_choice(front, choice);
        assert forall|i: int| 0 <= i < front.len() implies (#[trigger] front[i]).condition
            != choice.condition by {
            assert(front[i] == sorted[i]);
        }
        assert(distinct_conditions(front)) by {
            assert forall|i: int, j: int| 0 <= i < j < front.len() implies (
            #[trigger] front[i]).condition != (#[trigger] front[j]).condition by {
                assert(sorted[i].condition != sorted[j].condition);
            }
        }
        insertion_keeps_distinct(front, choice);
        assert forall|i: int, j: int| 0 <= i < j < r.len() implies (#[trigger] r[i]).condition != (
        #[trigger] r[j]).condition by {
            if j == inner.len() {
                assert(inner.contains(inner[i]));
                insertion_keeps(front, choice, inner[i]);
                let last = sorted[sorted.len() - 1];
                if inner[i] != choice {
                    let k = choose|k: int| 0 <= k < front.len() && front[k] == inner[i];
                    assert(sorted[k].condition != last.condition);
                } else {
                    assert(last.condition != choice.condition);
                }
            } else {
                assert(inner[i].condition != inner[j].condition);
            }
        }
    }
}

proof fn sorting_keeps_distinct(choices: Seq<ChoiceView>)
    requires
        distinct_conditions(choices),
    ensures
        distinct_conditions(by_constraint(choices)),
    decreases choices.len(),
{
    if choices.len() > 0 {
        let front = choices.drop_last();
        let sorted = by_constraint(front);
        assert(distinct_conditions(front)) by {
            assert forall|i: int, j: int| 0 <= i < j < front.len() implies (
            #[trigger] front[i]).condition != (#[trigger] front[j]).condition by {
                assert(choices[i].condition != choices[j].condition);
            }
        }
        sorting_keeps_distinct(front);
        assert forall|i: int| 0 <= i < sorted.len() implies (#[trigger] sorted[i]).condition
            != choices.last().condition by {
            assert(sorted.contains(sorted[i]));
            sorting_keeps(front, sorted[i]);
            let k = choose|k: int| 0 <= k < front.len() && front[k] == sorted[i];
            assert(choices[k].condition != choices[choices.len() - 1].condition);
        }
        insertion_keeps_distinct(sorted, choices.last());
    }
}

/// Every row of a selection belongs to a pair that was picked.
proof fn selected_row_is_picked(choices: Seq<ChoiceView>, picks: Seq<int>, row: usize) -> (i: int)
    requires
        picks_pairs(choices, picks),
        selection(choices, picks).rows.contains(row),
    ensures
        0 <= i < picks.len(),
        row == choices[i].pairs[picks[i]].1 || row == choices[i].pairs[picks[i]].2,
    decreases picks.len(),
{
    let last = picks.len() - 1;
    if row == choices[last].pairs[picks[last]].1 || row == choices[last].pairs[picks[last]].2 {
        last as int
    } else {
        selected_row_is_picked(choices, picks.drop_last(), row)
    }
}

/// Every row that is listed has its index in the set.
proof fn listed_row_has_index(table: Seq<RowView>, rows: Set<usize>, n: int, i: int) -> (r: usize)
    requires
        n <= table.len() <= usize::MAX,
        0 <= i < rows_upto(table, rows, n).len(),
    ensures
        rows.contains(r),
        r < table.len(),
        table[r as int] == rows_upto(table, rows, n)[i],
    decreases n,
{
    let rest = rows_upto(table, rows, n - 1);
    if i < rest.len() {
        listed_row_has_index(table, rows, n - 1, i)
    } else {
        (n - 1) as usize
    }
}

/// No row is tested for nothing: every test ends a chosen pair.
pub proof fn tests_end_chosen_pairs(matrix: MatrixView, budget: nat, i: int)
    requires
        coherent(matrix),
        countable(matrix),
        0 <= i < minimum_of(matrix, budget).tests.len(),
    ensures
        exists|name: Seq<char>|
            #[trigger] minimum_of(matrix, budget).chosen_pairs.contains_key(name) && (minimum_of(
                matrix,
                budget,
            ).chosen_pairs[name].test_1 == minimum_of(matrix, budget).tests[i] || minimum_of(
                matrix,
                budget,
            ).chosen_pairs[name].test_2 == minimum_of(matrix, budget).tests[i]),
{
    let choices = search_space(matrix);
    let set = minimum_of(matrix, budget);
    let picks = search_result(matrix, budget);
    let sel = selection(choices, picks);
    let row = listed_row_has_index(
        matrix.truth_table,
        sel.rows,
        matrix.truth_table.len() as int,
        i,
    );
    let q = selected_row_is_picked(choices, picks, row);
    space_of_coherent_matrix(matrix);
    chosen_upto_holds(matrix, picks, choices.len() as int);
    order_exists(matrix.independence_pairs.dom());
    let names = in_order(matrix.independence_pairs.dom());
    listed_conditions_are_distinct(matrix, names, names.len() as int);
    sorting_keeps_distinct(choices_upto(matrix, names, names.len() as int));
    let c = choices[q];
    let name = c.condition;
    assert(set.chosen_pairs.contains_key(name));
    let k = choose|k: int|
        0 <= k < choices.len() && (#[trigger] choices[k]).condition == name && set.chosen_pairs[name]
            == matrix.independence_pairs[name][picks[k]];
    if k < q {
        assert(choices[k].condition != choices[q].condition);
    } else if q < k {
        assert(choices[q].condition != choices[k].condition);
    }
    let pair = c.pairs[picks[q]];
    assert(matrix.truth_table[pair.1 as int] == matrix.independence_pairs[name][picks[q]].test_1);
    assert(matrix.truth_table[pair.2 as int] == matrix.independence_pairs[name][picks[q]].test_2);
}

// ---------------------------------------------------------------------------
// Enough budget
// ---------------------------------------------------------------------------

/// With enough budget the search comes to its end, whatever the decision:
/// from some budget on every test set is proven minimal.
pub proof fn enough_budget_proves_the_minimum(matrix: MatrixView) -> (budget: nat)
    requires
        coherent(matrix),
        countable(matrix),
    ensures
        forall|larger: nat|
            budget <= larger ==> (#[trigger] minimum_of(matrix, larger)).proven_minimal,
{
    let choices = search_space(matrix);
    let bound = nodes_below(choices, 0) + choices.len() + 1;
    assert forall|larger: nat| bound <= larger implies (#[trigger] minimum_of(
        matrix,
        larger,
    )).proven_minimal by {
        let start = SearchView { remaining: larger, exhausted: false, best: None };
        enough_nodes_suffice(choices, 0, nothing_selected(), floor_of(choices), start);
        enough_budget_finds_a_set(matrix, larger);
    }
    bound
}

/// Whether a row stands in a table behind position `p` and before `n`.
spec fn stands_behind(table: Seq<RowView>, row: RowView, p: int, n: int) -> bool {
    exists|q: int| p < q < n && #[trigger] table[q] == row
}

proof fn rows_are_in_order(table: Seq<RowView>, rows: Set<usize>, n: int, i: int) -> (p: int)
    requires
        0 <= n <= table.len(),
        0 <= i < rows_upto(table, rows, n).len(),
    ensures
        0 <= p < n,
        table[p] == rows_upto(table, rows, n)[i],
        forall|j: int|
            i < j < rows_upto(table, rows, n).len() ==> stands_behind(
                table,
                #[trigger] rows_upto(table, rows, n)[j],
                p,
                n,
            ),
    decreases n,
{
    let all = rows_upto(table, rows, n);
    let rest = rows_upto(table, rows, n - 1);
    if i < rest.len() {
        let p = rows_are_in_order(table, rows, n - 1, i);
        assert(all[i] == rest[i]);
        assert forall|j: int| i < j < all.len() implies stands_behind(
            table,
            #[trigger] all[j],
            p,
            n,
        ) by {
            if j < rest.len() {
                assert(all[j] == rest[j]);
                assert(stands_behind(table, rest[j], p, n - 1));
                let q = choose|q: int| p < q < n - 1 && #[trigger] table[q] == rest[j];
                assert(table[q] == all[j]);
            } else {
                assert(table[n - 1] == all[j]);
            }
        }
        p
    } else {
        n - 1
    }
}

/// The tests of a set stand in the order of the truth table, and no row is
/// tested twice.
pub proof fn tests_stand_in_table_order(matrix: MatrixView, budget: nat, i: int, j: int)
    requires
        0 <= i < j < minimum_of(matrix, budget).tests.len(),
    ensures
        exists|p: int, q: int|
            0 <= p < q < matrix.truth_table.len() && #[trigger] matrix.truth_table[p] == minimum_of(
                matrix,
                budget,
            ).tests[i] && #[trigger] matrix.truth_table[q] == minimum_of(matrix, budget).tests[j],
{
    let table = matrix.truth_table;
    let best = searched(search_space(matrix), budget).best->0;
    let n = table.len() as int;
    let tests = rows_upto(table, best.rows, n);
    let p = rows_are_in_order(table, best.rows, n, i);
    assert(stands_behind(table, tests[j], p, n));
    let q = choose|q: int| p < q < n && #[trigger] table[q] == tests[j];
    assert(table[p] == tests[i] && table[q] == tests[j]);
}

// ---------------------------------------------------------------------------
// The order of the search
// ---------------------------------------------------------------------------

/// Whether one choice comes before another: it has fewer pairs, or as many
/// and a lesser name.
pub open spec fn comes_before(a: ChoiceView, b: ChoiceView) -> bool {
    a.pairs.len() < b.pairs.len() || (a.pairs.len() == b.pairs.len() && name_lt(
        a.condition,
        b.condition,
    ))
}

/// Whether choices stand in order.
pub open spec fn choices_in_order(choices: Seq<ChoiceView>) -> bool {
    forall|i: int, j: int|
        0 <= i < j < choices.len() ==> comes_before(#[trigger] choices[i], #[trigger] choices[j])
}

proof fn inserted_in_order(sorted: Seq<ChoiceView>, choice: ChoiceView)
    requires
        choices_in_order(sorted),
        forall|i: int|
            0 <= i < sorted.len() ==> name_lt((#[trigger] sorted[i]).condition, choice.condition),
    ensures
        choices_in_order(insert_choice(sorted, choice)),
        insert_choice(sorted, choice).len() == sorted.len() + 1,
        forall|i: int|
            0 <= i < insert_choice(sorted, choice).len() ==> (#[trigger] insert_choice(
                sorted,
                choice,
            )[i]) == choice || sorted.contains(insert_choice(sorted, choice)[i]),
    decreases sorted.len(),
{
    let all = insert_choice(sorted, choice);
    if sorted.len() == 0 || sorted.last().pairs.len() <= choice.pairs.len() {
        assert(all == sorted.push(choice));
        assert forall|i: int, j: int| 0 <= i < j < all.len() implies comes_before(
            #[trigger] all[i],
            #[trigger] all[j],
        ) by {
            assert(all[i] == sorted[i]);
            if j < sorted.len() {
                assert(all[j] == sorted[j]);
            } else if i < sorted.len() - 1 {
                assert(comes_before(sorted[i], sorted[sorted.len() - 1]));
            }
        }
        assert forall|i: int| 0 <= i < all.len() implies (#[trigger] all[i]) == choice
            || sorted.contains(all[i]) by {
            if i < sorted.len() {
                assert(all[i] == sorted[i]);
            }
        }
    } else {
        let front = sorted.drop_last();
        let rest = insert_choice(front, choice);
        let last = sorted.last();
        assert(sorted[sorted.len() - 1] == last);
        assert forall|i: int, j: int| 0 <= i < j < front.len() implies comes_before(
            #[trigger] front[i],
            #[trigger] front[j],
        ) by {
            assert(comes_before(sorted[i], sorted[j]));
        }
        assert forall|i: int| 0 <= i < front.len() implies name_lt(
            (#[trigger] front[i]).condition,
            choice.condition,
        ) by {
            assert(front[i] == sorted[i]);
        }
        inserted_in_order(front, choice);
        assert(all == rest.push(last));
        assert forall|i: int| 0 <= i < rest.len() implies comes_before(#[trigger] rest[i], last) by {
            if rest[i] != choice {
                assert(front.contains(rest[i]));
                let k = choose|k: int| 0 <= k < front.len() && front[k] == rest[i];
                assert(comes_before(sorted[k], sorted[sorted.len() - 1]));
            }
        }
        assert forall|i: int, j: int| 0 <= i < j < all.len() implies comes_before(
            #[trigger] all[i],
            #[trigger] all[j],
        ) by {
            assert(all[i] == rest[i]);
            if j < rest.len() {
                assert(all[j] == rest[j]);
            }
        }
        assert forall|i: int| 0 <= i < all.len() implies (#[trigger] all[i]) == choice
            || sorted.contains(all[i]) by {
            if i < rest.len() {
                assert(all[i] == rest[i]);
                if rest[i] != choice {
                    let k = choose|k: int| 0 <= k < front.len() && front[k] == rest[i];
                    assert(sorted[k] == all[i]);
                }
            } else {
                assert(all[i] == sorted[sorted.len() - 1]);
            }
        }
    }
}

proof fn constrained_in_order(choices: Seq<ChoiceView>)
    requires
        forall|i: int, j: int|
            0 <= i < j < choices.len() ==> name_lt(
                (#[trigger] choices[i]).condition,
                (#[trigger] choices[j]).condition,
            ),
    ensures
        choices_in_order(by_constraint(choices)),
        by_constraint(choices).len() == choices.len(),
        forall|i: int|
            0 <= i < by_constraint(choices).len() ==> choices.contains(
                #[trigger] by_constraint(choices)[i],
            ),
    decreases choices.len(),
{
    if choices.len() > 0 {
        let front = choices.drop_last();
        let sorted = by_constraint(front);
        let last = choices.last();
        assert(choices[choices.len() - 1] == last);
        assert forall|i: int, j: int| 0 <= i < j < front.len() implies name_lt(
            (#[trigger] front[i]).condition,
            (#[trigger] front[j]).condition,
        ) by {
            assert(name_lt(choices[i].condition, choices[j].condition));
        }
        constrained_in_order(front);
        assert forall|i: int| 0 <= i < sorted.len() implies name_lt(
            (#[trigger] sorted[i]).condition,
            last.condition,
        ) by {
            let k = choose|k: int| 0 <= k < front.len() && front[k] == sorted[i];
            assert(name_lt(choices[k].condition, choices[choices.len() - 1].condition));
        }
        inserted_in_order(sorted, last);
        let all = insert_choice(sorted, last);
        assert forall|i: int| 0 <= i < all.len() implies choices.contains(#[trigger] all[i]) by {
            if all[i] != last {
                assert(sorted.contains(all[i]));
                let k = choose|k: int| 0 <= k < sorted.len() && sorted[k] == all[i];
                assert(front.contains(sorted[k]));
                let q = choose|q: int| 0 <= q < front.len() && front[q] == sorted[k];
                assert(choices[q] == all[i]);
            }
        }
    }
}

proof fn choices_by_name(matrix: MatrixView, names: Seq<Seq<char>>, n: int)
    requires
        strictly_sorted(names),
        0 <= n <= names.len(),
    ensures
        forall|i: int, j: int|
            0 <= i < j < choices_upto(matrix, names, n).len() ==> name_lt(
                (#[trigger] choices_upto(matrix, names, n)[i]).condition,
                (#[trigger] choices_upto(matrix, names, n)[j]).condition,
            ),
        forall|i: int|
            0 <= i < choices_upto(matrix, names, n).len() ==> exists|k: int|
                0 <= k < n && (#[trigger] choices_upto(matrix, names, n)[i]).condition
                    == #[trigger] names[k],
    decreases n,
{
    if n > 0 {
        choices_by_name(matrix, names, n - 1);
        let all = choices_upto(matrix, names, n);
        let rest = choices_upto(matrix, names, n - 1);
        assert forall|i: int| 0 <= i < all.len() implies exists|k: int|
            0 <= k < n && (#[trigger] all[i]).condition == #[trigger] names[k] by {
            if i < rest.len() {
                assert(all[i] == rest[i]);
                let k = choose|k: int| 0 <= k < n - 1 && rest[i].condition == #[trigger] names[k];
                assert(all[i].condition == names[k]);
            } else {
                assert(all[i].condition == names[n - 1]);
            }
        }
        assert forall|i: int, j: int| 0 <= i < j < all.len() implies name_lt(
            (#[trigger] all[i]).condition,
            (#[trigger] all[j]).condition,
        ) by {
            assert(all[i] == rest[i]);
            if j < rest.len() {
                assert(all[j] == rest[j]);
            } else {
                let k = choose|k: int| 0 <= k < n - 1 && rest[i].condition == #[trigger] names[k];
                assert(name_lt(names[k], names[n - 1]));
            }
        }
    }
}

/// The search takes the most constrained conditions first: those with fewer
/// pairs, and among those with as many the lesser name.
pub proof fn most_constrained_conditions_come_first(matrix: MatrixView)
    requires
        matrix.independence_pairs.dom().finite(),
    ensures
        choices_in_order(search_space(matrix)),
{
    let names = in_order(matrix.independence_pairs.dom());
    order_exists(matrix.independence_pairs.dom());
    choices_by_name(matrix, names, names.len() as int);
    constrained_in_order(choices_upto(matrix, names, names.len() as int));
}

// ---------------------------------------------------------------------------
// The first of the smallest
// ---------------------------------------------------------------------------

/// Whether picks come before others: at the first condition where they
/// differ they name an earlier pair.
pub open spec fn picked_before(a: Seq<int>, b: Seq<int>) -> bool {
    exists|d: int|
        0 <= d < a.len() && d < b.len() && #[trigger] a.take(d) == b.take(d) && a[d] < b[d]
}

/// Whether picks complete a prefix with a next pick of at least `from`.
spec fn below(choices: Seq<ChoiceView>, prefix: Seq<int>, from: int, picks: Seq<int>) -> bool {
    complete(choices, picks) && picks.take(prefix.len() as int) == prefix && (prefix.len()
        < picks.len() ==> picks[prefix.len() as int] >= from)
}

/// Whether a selection is that of picks below a node, and all picks below the
/// node that come before them need more rows.
spec fn first_below(
    choices: Seq<ChoiceView>,
    prefix: Seq<int>,
    from: int,
    best: Option<SelectionView>,
    picks: Seq<int>,
) -> bool {
    &&& below(choices, prefix, from, picks)
    &&& best == Some(selection(choices, picks))
    &&& forall|q: Seq<int>| #[trigger]
        below(choices, prefix, from, q) && picked_before(q, picks) ==> selection(
            choices,
            picks,
        ).rows.len() < selection(choices, q).rows.len()
}

/// Whether a search kept its best selection, or found the first of those
/// below a node that are smaller.
spec fn kept_or_first(
    choices: Seq<ChoiceView>,
    prefix: Seq<int>,
    from: int,
    before: Option<SelectionView>,
    after: Option<SelectionView>,
) -> bool {
    after == before || ((before is Some ==> (after->0).rows.len() < (before->0).rows.len())
        && exists|picks: Seq<int>| #[trigger] first_below(choices, prefix, from, after, picks))
}

proof fn exploration_finds_the_first(
    choices: Seq<ChoiceView>,
    prefix: Seq<int>,
    floor: nat,
    s: SearchView,
)
    requires
        picks_pairs(choices, prefix),
        sound(choices, s.best),
        !explored(choices, prefix.len(), selection(choices, prefix), floor, s).exhausted,
    ensures
        kept_or_first(
            choices,
            prefix,
            0,
            s.best,
            explored(choices, prefix.len(), selection(choices, prefix), floor, s).best,
        ),
    decreases choices.len() - prefix.len(), choices[prefix.len() as int].pairs.len() + 1,
{
    let current = selection(choices, prefix);
    let r = explored(choices, prefix.len(), current, floor, s);
    if s.remaining > 0 {
        let t = SearchView { remaining: (s.remaining - 1) as nat, ..s };
        if !no_better(current, t.best) {
            if prefix.len() >= choices.len() {
                assert(prefix.take(prefix.len() as int) =~= prefix);
                assert(below(choices, prefix, 0, prefix));
                assert forall|q: Seq<int>| #[trigger] below(choices, prefix, 0, q) && picked_before(
                    q,
                    prefix,
                ) implies current.rows.len() < selection(choices, q).rows.len() by {
                    assert(q.take(prefix.len() as int) =~= q);
                    let d = choose|d: int|
                        0 <= d < q.len() && d < prefix.len() && #[trigger] q.take(d) == prefix.take(
                            d,
                        ) && q[d] < prefix[d];
                    assert(q == prefix);
                }
                assert(first_below(choices, prefix, 0, r.best, prefix));
            } else {
                exploration_of_pairs_finds_the_first(choices, prefix, 0, floor, t);
            }
        }
    }
}

proof fn exploration_of_pairs_finds_the_first(
    choices: Seq<ChoiceView>,
    prefix: Seq<int>,
    k: nat,
    floor: nat,
    s: SearchView,
)
    requires
        picks_pairs(choices, prefix),
        prefix.len() < choices.len(),
        k <= choices[prefix.len() as int].pairs.len(),
        sound(choices, s.best),
        !explored_pairs(
            choices,
            prefix.len(),
            k,
            selection(choices, prefix),
            floor,
            s,
        ).exhausted,
    ensures
        kept_or_first(
            choices,
            prefix,
            k as int,
            s.best,
            explored_pairs(
                choices,
                prefix.len(),
                k,
                selection(choices, prefix),
                floor,
                s,
            ).best,
        ),
    decreases choices.len() - prefix.len(), choices[prefix.len() as int].pairs.len() - k,
{
    let depth = prefix.len();
    let n = depth as int;
    let current = selection(choices, prefix);
    let r = explored_pairs(choices, depth, k, current, floor, s);
    if k < choices[n].pairs.len() {
        let longer = prefix.push(k as int);
        assert(longer.drop_last() =~= prefix);
        assert(picks_pairs(choices, longer));
        let next = explored(
            choices,
            depth + 1,
            with_pair(current, choices[n].pairs[k as int]),
            floor,
            s,
        );
        assert(selection(choices, longer) == with_pair(current, choices[n].pairs[k as int]));
        exploration(choices, longer, floor, s);
        if at_floor(next.best, floor) {
            exploration_finds_the_first(choices, longer, floor, s);
            first_stays_first(choices, prefix, k as int, s.best, next.best);
        } else {
            exploration_of_pairs(choices, prefix, k + 1, floor, next);
            assert(!next.exhausted);
            exploration_finds_the_first(choices, longer, floor, s);
            exploration_of_pairs_finds_the_first(choices, prefix, k + 1, floor, next);
            if r.best == next.best {
                first_stays_first(choices, prefix, k as int, s.best, next.best);
            } else {
                let picks = choose|picks: Seq<int>| #[trigger]
                    first_below(choices, prefix, (k + 1) as int, r.best, picks);
                assert(below(choices, prefix, k as int, picks));
                assert forall|q: Seq<int>| #[trigger] below(choices, prefix, k as int, q)
                    && picked_before(q, picks) implies selection(choices, picks).rows.len()
                    < selection(choices, q).rows.len() by {
                    if q[n] == k {
                        assert(q.take(n + 1) =~= longer);
                        assert(beats(choices, longer, 0, next.best));
                        if longer.len() < q.len() {
                            assert(0 <= q[longer.len() as int]);
                        }
                        assert(next.best is Some);
                    } else {
                        assert(below(choices, prefix, (k + 1) as int, q));
                    }
                }
                assert(first_below(choices, prefix, k as int, r.best, picks));
            }
        }
    }
}

/// What is first below the first pair of a node is first below the node.
proof fn first_stays_first(
    choices: Seq<ChoiceView>,
    prefix: Seq<int>,
    k: int,
    before: Option<SelectionView>,
    after: Option<SelectionView>,
)
    requires
        prefix.len() < choices.len(),
        kept_or_first(choices, prefix.push(k), 0, before, after),
    ensures
        kept_or_first(choices, prefix, k, before, after),
{
    let longer = prefix.push(k);
    let n = prefix.len() as int;
    if after != before {
        let picks = choose|picks: Seq<int>| #[trigger]
            first_below(choices, longer, 0, after, picks);
        assert(picks.take(n) =~= picks.take(n + 1).take(n));
        assert(longer.take(n) =~= prefix);
        assert(picks.take(n + 1)[n] == k);
        assert(below(choices, prefix, k, picks));
        assert forall|q: Seq<int>| #[trigger] below(choices, prefix, k, q) && picked_before(
            q,
            picks,
        ) implies selection(choices, picks).rows.len() < selection(choices, q).rows.len() by {
            let d = choose|d: int|
                0 <= d < q.len() && d < picks.len() && #[trigger] q.take(d) == picks.take(d)
                    && q[d] < picks[d];
            if d < n {
                assert(q.take(n)[d] == q[d]);
                assert(picks.take(n)[d] == picks[d]);
            }
            assert(d > n) by {
                if d == n {
                    assert(q[n] >= k);
                }
            }
            assert(q.take(d)[n] == q[n]);
            assert(picks.take(d)[n] == picks[n]);
            assert(q.take(n + 1) =~= longer) by {
                assert(q.take(n + 1) =~= q.take(n).push(q[n]));
            }
            if longer.len() < q.len() {
                assert(0 <= q[longer.len() as int]);
            }
            assert(below(choices, longer, 0, q));
        }
        assert(first_below(choices, prefix, k, after, picks));
    }
}

/// Of all smallest test sets the first in the order of the search is taken:
/// where the search comes to its end, every choice of pairs that names an
/// earlier pair for the first condition where it differs needs more tests.
pub proof fn first_of_the_smallest_is_taken(matrix: MatrixView, budget: nat) -> (picks: Seq<int>)
    requires
        searched(search_space(matrix), budget).best is Some,
        !searched(search_space(matrix), budget).exhausted,
    ensures
        complete(search_space(matrix), picks),
        searched(search_space(matrix), budget).best == Some(
            selection(search_space(matrix), picks),
        ),
        forall|other: Seq<int>| #[trigger]
            complete(search_space(matrix), other) && picked_before(other, picks) ==> selection(
                search_space(matrix),
                picks,
            ).rows.len() < selection(search_space(matrix), other).rows.len(),
{
    let choices = search_space(matrix);
    let s = SearchView { remaining: budget, exhausted: false, best: None };
    assert(selection(choices, seq![]) == nothing_selected());
    exploration_finds_the_first(choices, seq![], floor_of(choices), s);
    let best = searched(choices, budget).best;
    let picks = choose|picks: Seq<int>| #[trigger] first_below(choices, seq![], 0, best, picks);
    assert forall|other: Seq<int>| #[trigger] complete(choices, other) && picked_before(
        other,
        picks,
    ) implies selection(choices, picks).rows.len() < selection(choices, other).rows.len() by {
        assert(other.take(0) =~= seq![]);
        if other.len() > 0 {
            assert(0 <= other[0]);
        }
        assert(below(choices, seq![], 0, other));
    }
    picks
}

} // verus!
