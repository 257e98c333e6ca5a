//! The smallest test set that demonstrates MC/DC.
//!
//! Each condition that can be demonstrated contributes one of its
//! independence pairs; the tests are the rows of the chosen pairs. A bounded
//! depth-first search looks for the choice whose pairs share the most rows.
use crate::masking::{IndependenceMatrix, IndependencePair, MatrixView, PairView, RowView, TruthTableRow};
use crate::ordered::{in_order, same_values, NameMap};
use std::collections::BTreeSet;
use vstd::prelude::*;

verus! {

broadcast use vstd::std_specs::btree::group_btree_axioms;

/// A smallest set of test vectors that demonstrates MC/DC for every condition
/// of one decision, with the pair chosen for each condition.
#[derive(Debug, Clone)]
pub struct MinimumTestSet {
    /// The chosen test vectors, in truth-table order.
    pub tests: Vec<TruthTableRow>,
    /// The independence pair selected for each condition. Every endpoint of
    /// every selected pair appears in [`Self::tests`]. Conditions with no
    /// valid pair are absent: no choice of tests demonstrates them.
    pub chosen_pairs: NameMap<IndependencePair>,
    /// Whether minimality was *proven*, either by exhausting the selection
    /// space or by reaching the floor below which no valid set exists. False
    /// means [`Self::tests`] is the smallest set found within the budget.
    pub proven_minimal: bool,
}

/// The model of a [`MinimumTestSet`].
#[verifier::ext_equal]
pub struct MinimumView {
    pub tests: Seq<RowView>,
    pub chosen_pairs: Map<Seq<char>, PairView>,
    pub proven_minimal: bool,
}

impl DeepView for MinimumTestSet {
    type V = MinimumView;

    open spec fn deep_view(&self) -> MinimumView {
        MinimumView {
            tests: self.tests.deep_view(),
            chosen_pairs: self.chosen_pairs@.map_values(|p: IndependencePair| p.deep_view()),
            proven_minimal: self.proven_minimal,
        }
    }
}

/// The test set that claims nothing.
pub open spec fn no_test_set() -> MinimumView {
    MinimumView { tests: seq![], chosen_pairs: Map::empty(), proven_minimal: false }
}

impl Default for MinimumTestSet {
    fn default() -> (r: Self)
        ensures
            r.deep_view() == no_test_set(),
    {
        let r = MinimumTestSet {
            tests: Vec::new(),
            chosen_pairs: NameMap::new(),
            proven_minimal: false,
        };
        assert(r.deep_view() =~= no_test_set());
        r
    }
}

/// Ceiling on the nodes that [`minimum_test_set`] explores.
///
/// Selecting one pair per condition is exponential in the condition count in
/// the worst case. Exceeding the ceiling is reported through
/// [`MinimumTestSet::proven_minimal`].
pub const SEARCH_BUDGET: usize = 1048576;

// ---------------------------------------------------------------------------
// The search space
// ---------------------------------------------------------------------------

/// The candidate pairs of one condition: the position of each in the
/// condition's pair list, and the truth-table indices of its two rows.
#[verifier::ext_equal]
pub struct ChoiceView {
    pub condition: Seq<char>,
    pub pairs: Seq<(usize, usize, usize)>,
}

/// The first row, from position `i` on, with the given assignment.
pub open spec fn row_position_from(
    table: Seq<RowView>,
    inputs: Map<Seq<char>, bool>,
    i: int,
) -> Option<usize>
    decreases table.len() - i,
{
    if i >= table.len() {
        None
    } else if table[i].inputs == inputs {
        Some(i as usize)
    } else {
        row_position_from(table, inputs, i + 1)
    }
}

/// The position of a row in the truth table, by its assignment.
pub open spec fn row_position(table: Seq<RowView>, row: RowView) -> Option<usize> {
    row_position_from(table, row.inputs, 0)
}

/// The first `n` pairs by the positions of their rows. A pair with a row that
/// is not in the table is dropped.
pub open spec fn indexed(table: Seq<RowView>, pairs: Seq<PairView>, n: int) -> Seq<
    (usize, usize, usize),
>
    decreases n,
{
    if n <= 0 {
        seq![]
    } else {
        let rest = indexed(table, pairs, n - 1);
        match (row_position(table, pairs[n - 1].test_1), row_position(table, pairs[n - 1].test_2)) {
            (Some(a), Some(b)) => rest.push(((n - 1) as usize, a, b)),
            _ => rest,
        }
    }
}

/// The candidates of one condition.
pub open spec fn choice_of(matrix: MatrixView, name: Seq<char>) -> ChoiceView {
    let pairs = matrix.independence_pairs[name];
    ChoiceView { condition: name, pairs: indexed(matrix.truth_table, pairs, pairs.len() as int) }
}

/// The candidates of the first `n` of some conditions, without those that
/// have none.
pub open spec fn choices_upto(matrix: MatrixView, names: Seq<Seq<char>>, n: int) -> Seq<ChoiceView>
    decreases n,
{
    if n <= 0 {
        seq![]
    } else {
        let rest = choices_upto(matrix, names, n - 1);
        let choice = choice_of(matrix, names[n - 1]);
        if choice.pairs.len() == 0 {
            rest
        } else {
            rest.push(choice)
        }
    }
}

/// Inserts a choice behind those that have no more pairs.
pub open spec fn insert_choice(sorted: Seq<ChoiceView>, choice: ChoiceView) -> Seq<ChoiceView>
    decreases sorted.len(),
{
    if sorted.len() == 0 || sorted.last().pairs.len() <= choice.pairs.len() {
        sorted.push(choice)
    } else {
        insert_choice(sorted.drop_last(), choice).push(sorted.last())
    }
}

/// The choices sorted by their number of pairs; those with equally many keep
/// their order.
pub open spec fn by_constraint(choices: Seq<ChoiceView>) -> Seq<ChoiceView>
    decreases choices.len(),
{
    if choices.len() == 0 {
        seq![]
    } else {
        insert_choice(by_constraint(choices.drop_last()), choices.last())
    }
}

/// The search space of a matrix: the most constrained conditions first, ties
/// in the order of names.
pub open spec fn search_space(matrix: MatrixView) -> Seq<ChoiceView> {
    let names = in_order(matrix.independence_pairs.dom());
    by_constraint(choices_upto(matrix, names, names.len() as int))
}

/// Candidate pairs for one condition.
struct ConditionChoices {
    condition: String,
    pairs: Vec<(usize, usize, usize)>,
}

impl DeepView for ConditionChoices {
    type V = ChoiceView;

    closed spec fn deep_view(&self) -> ChoiceView {
        ChoiceView { condition: self.condition@, pairs: self.pairs@ }
    }
}

/// Locates a row in the truth table by its condition assignment.
fn find_row(table: &Vec<TruthTableRow>, row: &TruthTableRow) -> (r: Option<usize>)
    ensures
        r == row_position(table.deep_view(), row.deep_view()),
{
    let ghost all = table.deep_view();
    let mut i: usize = 0;
    while i < table.len()
        invariant
            i <= table@.len(),
            all == table.deep_view(),
            row_position(all, row.deep_view()) == row_position_from(all, row.inputs@, i as int),
        decreases table@.len() - i,
    {
        assert(all[i as int] == table@[i as int].deep_view());
        if same_values(&table[i].inputs, &row.inputs) {
            return Some(i);
        }
        i += 1;
    }
    None
}

/// Maps each pair to the truth-table indices of its two endpoints.
fn indexed_endpoints(table: &Vec<TruthTableRow>, pairs: &Vec<IndependencePair>) -> (r: Vec<
    (usize, usize, usize),
>)
    ensures
        r@ == indexed(table.deep_view(), pairs.deep_view(), pairs@.len() as int),
{
    let ghost all = pairs.deep_view();
    let mut out: Vec<(usize, usize, usize)> = Vec::new();
    let mut i: usize = 0;
    while i < pairs.len()
        invariant
            i <= pairs@.len(),
            all == pairs.deep_view(),
            out@ == indexed(table.deep_view(), all, i as int),
        decreases pairs@.len() - i,
    {
        assert(all[i as int] == pairs@[i as int].deep_view());
        let first = find_row(table, &pairs[i].test_1);
        let second = find_row(table, &pairs[i].test_2);
        if let (Some(a), Some(b)) = (first, second) {
            out.push((i, a, b));
        }
        i += 1;
    }
    out
}

/// Inserts a choice behind those that have no more pairs.
fn insert_sorted(choices: &mut Vec<ConditionChoices>, choice: ConditionChoices)
    ensures
        final(choices).deep_view() == insert_choice(old(choices).deep_view(), choice.deep_view()),
    decreases old(choices)@.len(),
{
    let ghost before = choices.deep_view();
    let n: usize = choices.len();
    if n == 0 {
        choices.push(choice);
        assert(choices.deep_view() =~= before.push(choice.deep_view()));
        return;
    }
    assert(before.last() == choices@[n - 1].deep_view());
    if choices[n - 1].pairs.len() <= choice.pairs.len() {
        choices.push(choice);
        assert(choices.deep_view() =~= before.push(choice.deep_view()));
        return;
    }
    match choices.pop() {
        Some(last) => {
            assert(choices.deep_view() =~= before.drop_last());
            insert_sorted(choices, choice);
            let ghost inserted = choices.deep_view();
            choices.push(last);
            assert(choices.deep_view() =~= inserted.push(last.deep_view()));
        },
        None => {},
    }
}

/// Reduces a matrix to the per-condition search space, most constrained
/// first.
fn condition_choices(matrix: &IndependenceMatrix) -> (r: Vec<ConditionChoices>)
    ensures
        r.deep_view() == search_space(matrix.deep_view()),
{
    let ghost m = matrix.deep_view();
    let n: usize = matrix.independence_pairs.len();
    let ghost names = matrix.independence_pairs.order();
    assert(m.independence_pairs.dom() =~= matrix.independence_pairs@.dom());
    assert(names == in_order(m.independence_pairs.dom()));
    let mut sorted: Vec<ConditionChoices> = Vec::new();
    let mut i: usize = 0;
    assert(sorted.deep_view() =~= seq![]);
    while i < n
        invariant
            i <= n,
            n == names.len(),
            m == matrix.deep_view(),
            names == matrix.independence_pairs.order(),
            sorted.deep_view() == by_constraint(choices_upto(m, names, i as int)),
        decreases n - i,
    {
        let name = matrix.independence_pairs.name_at(i);
        let list = matrix.independence_pairs.value_at(i);
        let pairs = indexed_endpoints(&matrix.truth_table, list);
        assert(m.independence_pairs[names[i as int]] == list.deep_view());
        if pairs.len() > 0 {
            let choice = ConditionChoices { condition: name.clone(), pairs };
            assert(choice.deep_view() == choice_of(m, names[i as int]));
            insert_sorted(&mut sorted, choice);
            assert(choices_upto(m, names, i + 1).drop_last() =~= choices_upto(m, names, i as int));
        }
        i += 1;
    }
    sorted
}

// ---------------------------------------------------------------------------
// The search
// ---------------------------------------------------------------------------

/// One pair chosen per condition, in the order of the search space, with the
/// union of their rows.
#[verifier::ext_equal]
pub struct SelectionView {
    pub chosen: Seq<usize>,
    pub rows: Set<usize>,
}

/// The selection with one more pair.
pub open spec fn with_pair(s: SelectionView, pair: (usize, usize, usize)) -> SelectionView {
    SelectionView { chosen: s.chosen.push(pair.0), rows: s.rows.insert(pair.1).insert(pair.2) }
}

/// The search between two nodes: how many nodes it may still visit, whether
/// it was refused one, and the smallest complete selection it has seen.
#[verifier::ext_equal]
pub struct SearchView {
    pub remaining: nat,
    pub exhausted: bool,
    pub best: Option<SelectionView>,
}

/// Whether a selection has as many rows as the best one, so that no
/// completion of it is smaller.
pub open spec fn no_better(s: SelectionView, best: Option<SelectionView>) -> bool {
    match best {
        Some(b) => s.rows.len() >= b.rows.len(),
        None => false,
    }
}

/// Whether the best selection has no more rows than `floor`.
pub open spec fn at_floor(best: Option<SelectionView>, floor: nat) -> bool {
    match best {
        Some(b) => b.rows.len() <= floor,
        None => false,
    }
}

/// The search after the node that completes `current` from condition `depth`
/// on, and all nodes below it.
pub open spec fn explored(
    choices: Seq<ChoiceView>,
    depth: nat,
    current: SelectionView,
    floor: nat,
    s: SearchView,
) -> SearchView
    decreases choices.len() - depth, choices[depth as int].pairs.len() + 1,
{
    if s.remaining == 0 {
        SearchView { exhausted: true, ..s }
    } else {
        let s = SearchView { remaining: (s.remaining - 1) as nat, ..s };
        if no_better(current, s.best) {
            s
        } else if depth >= choices.len() {
            SearchView { best: Some(current), ..s }
        } else {
            explored_pairs(choices, depth, 0, current, floor, s)
        }
    }
}

/// The search after the pairs of condition `depth` from `k` on, one after the
/// other, up to the first that brings the best selection to the floor.
pub open spec fn explored_pairs(
    choices: Seq<ChoiceView>,
    depth: nat,
    k: nat,
    current: SelectionView,
    floor: nat,
    s: SearchView,
) -> SearchView
    decreases choices.len() - depth, choices[depth as int].pairs.len() - k,
{
    if depth >= choices.len() || k >= choices[depth as int].pairs.len() {
        s
    } else {
        let next = explored(
            choices,
            depth + 1,
            with_pair(current, choices[depth as int].pairs[k as int]),
            floor,
            s,
        );
        if at_floor(next.best, floor) {
            next
        } else {
            explored_pairs(choices, depth, k + 1, current, floor, next)
        }
    }
}

/// The size below which no test set exists: a condition needs two rows.
pub open spec fn floor_of(choices: Seq<ChoiceView>) -> nat {
    if choices.len() == 0 {
        0
    } else {
        2
    }
}

/// The selection of nothing.
pub open spec fn nothing_selected() -> SelectionView {
    SelectionView { chosen: seq![], rows: Set::empty() }
}

/// The search of the whole space with the given budget.
pub open spec fn searched(choices: Seq<ChoiceView>, budget: nat) -> SearchView {
    explored(
        choices,
        0,
        nothing_selected(),
        floor_of(choices),
        SearchView { remaining: budget, exhausted: false, best: None },
    )
}

/// One pair chosen per condition, with the union of their rows.
struct Selection {
    chosen: Vec<usize>,
    rows: BTreeSet<usize>,
}

impl DeepView for Selection {
    type V = SelectionView;

    closed spec fn deep_view(&self) -> SelectionView {
        SelectionView { chosen: self.chosen@, rows: self.rows@ }
    }
}

/// State threaded through the recursion.
struct SearchState {
    floor: usize,
    remaining: usize,
    exhausted: bool,
    current: Selection,
    best: Option<Selection>,
}

impl SearchState {
    /// The search that the state stands for.
    closed spec fn search(&self) -> SearchView {
        SearchView {
            remaining: self.remaining as nat,
            exhausted: self.exhausted,
            best: self.best.deep_view(),
        }
    }

    /// Consumes one node, or records exhaustion and refuses.
    fn consume(&mut self) -> (granted: bool)
        ensures
            granted == (old(self).remaining > 0),
            final(self).remaining == if granted {
                old(self).remaining - 1
            } else {
                0
            },
            final(self).exhausted == (old(self).exhausted || !granted),
            final(self).floor == old(self).floor,
            final(self).current == old(self).current,
            final(self).best == old(self).best,
    {
        if self.remaining == 0 {
            self.exhausted = true;
            return false;
        }
        self.remaining -= 1;
        true
    }

    /// Whether no completion of the running selection can beat the best.
    fn cannot_beat_incumbent(&self) -> (r: bool)
        ensures
            r == no_better(self.current.deep_view(), self.best.deep_view()),
    {
        match &self.best {
            Some(best) => self.current.rows.len() >= best.rows.len(),
            None => false,
        }
    }

    /// Whether the best selection has reached the floor.
    fn reached_floor(&self) -> (r: bool)
        ensures
            r == at_floor(self.best.deep_view(), self.floor as nat),
    {
        match &self.best {
            Some(best) => best.rows.len() <= self.floor,
            None => false,
        }
    }

    /// Accepts the running selection as the best if it is smaller.
    fn record(&mut self)
        ensures
            final(self).best.deep_view() == if no_better(
                old(self).current.deep_view(),
                old(self).best.deep_view(),
            ) {
                old(self).best.deep_view()
            } else {
                Some(old(self).current.deep_view())
            },
            final(self).floor == old(self).floor,
            final(self).remaining == old(self).remaining,
            final(self).exhausted == old(self).exhausted,
            final(self).current == old(self).current,
    {
        if self.cannot_beat_incumbent() {
            return;
        }
        let chosen = self.current.chosen.clone();
        let rows = self.current.rows.clone();
        assert(chosen@ =~= self.current.chosen@);
        self.best = Some(Selection { chosen, rows });
    }
}

/// Branch and bound over one pair per condition, keeping the selection whose
/// union of rows is smallest.
fn explore(choices: &Vec<ConditionChoices>, depth: usize, state: &mut SearchState)
    requires
        depth <= choices@.len(),
    ensures
        final(state).search() == explored(
            choices.deep_view(),
            depth as nat,
            old(state).current.deep_view(),
            old(state).floor as nat,
            old(state).search(),
        ),
        final(state).current.deep_view() == old(state).current.deep_view(),
        final(state).floor == old(state).floor,
    decreases choices@.len() - depth, choices@[depth as int].pairs@.len() + 1,
{
    if !state.consume() || state.cannot_beat_incumbent() {
        return;
    }
    if depth >= choices.len() {
        state.record();
        return;
    }
    assert(choices.deep_view()[depth as int] == choices@[depth as int].deep_view());
    explore_pairs(choices, depth, 0, state);
}

/// Takes the pairs of condition `depth` from `k` on, one after the other.
fn explore_pairs(choices: &Vec<ConditionChoices>, depth: usize, k: usize, state: &mut SearchState)
    requires
        depth < choices@.len(),
        k <= choices@[depth as int].pairs@.len(),
    ensures
        final(state).search() == explored_pairs(
            choices.deep_view(),
            depth as nat,
            k as nat,
            old(state).current.deep_view(),
            old(state).floor as nat,
            old(state).search(),
        ),
        final(state).current.deep_view() == old(state).current.deep_view(),
        final(state).floor == old(state).floor,
    decreases choices@.len() - depth, choices@[depth as int].pairs@.len() - k,
{
    assert(choices.deep_view()[depth as int] == choices@[depth as int].deep_view());
    if k >= choices[depth].pairs.len() {
        return;
    }
    try_pair(choices, depth, choices[depth].pairs[k], state);
    if state.reached_floor() {
        return;
    }
    explore_pairs(choices, depth, k + 1, state);
}

/// Takes one pair at `depth`, explores what follows, then undoes the
/// selection. Only rows that the selection did not hold before are removed.
fn try_pair(
    choices: &Vec<ConditionChoices>,
    depth: usize,
    pair: (usize, usize, usize),
    state: &mut SearchState,
)
    requires
        depth < choices@.len(),
    ensures
        final(state).search() == explored(
            choices.deep_view(),
            (depth + 1) as nat,
            with_pair(old(state).current.deep_view(), pair),
            old(state).floor as nat,
            old(state).search(),
        ),
        final(state).current.deep_view() == old(state).current.deep_view(),
        final(state).floor == old(state).floor,
    decreases choices@.len() - depth, 0nat,
{
    let ghost before = state.current.deep_view();
    let count: usize = choices.len();
    assert(depth < count);
    let (index, first, second) = pair;
    let added_first = state.current.rows.insert(first);
    let added_second = state.current.rows.insert(second);
    state.current.chosen.push(index);
    assert(state.current.deep_view() =~= with_pair(before, pair));
    explore(choices, depth + 1, state);
    state.current.chosen.pop();
    if added_second {
        state.current.rows.remove(&second);
    }
    if added_first {
        state.current.rows.remove(&first);
    }
    assert(state.current.deep_view() =~= before);
}

// ---------------------------------------------------------------------------
// The result
// ---------------------------------------------------------------------------

/// The pairs that the first `n` conditions of the search space contribute.
pub open spec fn chosen_upto(
    matrix: MatrixView,
    choices: Seq<ChoiceView>,
    chosen: Seq<usize>,
    n: int,
) -> Map<Seq<char>, PairView>
    decreases n,
{
    if n <= 0 {
        Map::empty()
    } else {
        let rest = chosen_upto(matrix, choices, chosen, n - 1);
        let name = choices[n - 1].condition;
        if n - 1 < chosen.len() && matrix.independence_pairs.contains_key(name) && chosen[n - 1]
            < matrix.independence_pairs[name].len() {
            rest.insert(name, matrix.independence_pairs[name][chosen[n - 1] as int])
        } else {
            rest
        }
    }
}

/// The rows of the table before `n` whose index is in a set, in order.
pub open spec fn rows_upto(table: Seq<RowView>, rows: Set<usize>, n: int) -> Seq<RowView>
    decreases n,
{
    if n <= 0 {
        seq![]
    } else {
        let rest = rows_upto(table, rows, n - 1);
        if rows.contains((n - 1) as usize) {
            rest.push(table[n - 1])
        } else {
            rest
        }
    }
}

/// The test set that a search found.
pub open spec fn minimum_of(matrix: MatrixView, budget: nat) -> MinimumView {
    let choices = search_space(matrix);
    let s = searched(choices, budget);
    match s.best {
        Some(best) => MinimumView {
            tests: rows_upto(matrix.truth_table, best.rows, matrix.truth_table.len() as int),
            chosen_pairs: chosen_upto(matrix, choices, best.chosen, choices.len() as int),
            proven_minimal: !s.exhausted || best.rows.len() <= floor_of(choices),
        },
        None => no_test_set(),
    }
}

/// Rebuilds a [`MinimumTestSet`] from the winning selection.
fn assemble(
    matrix: &IndependenceMatrix,
    choices: &Vec<ConditionChoices>,
    selection: &Selection,
    proven_minimal: bool,
) -> (r: MinimumTestSet)
    ensures
        r.deep_view() == (MinimumView {
            tests: rows_upto(
                matrix.deep_view().truth_table,
                selection.deep_view().rows,
                matrix.deep_view().truth_table.len() as int,
            ),
            chosen_pairs: chosen_upto(
                matrix.deep_view(),
                choices.deep_view(),
                selection.deep_view().chosen,
                choices.deep_view().len() as int,
            ),
            proven_minimal,
        }),
{
    let ghost m = matrix.deep_view();
    let ghost all = choices.deep_view();
    let ghost sel = selection.deep_view();
    let mut chosen_pairs: NameMap<IndependencePair> = NameMap::new();
    let mut i: usize = 0;
    assert(chosen_pairs@.map_values(|p: IndependencePair| p.deep_view()) =~= Map::empty());
    while i < choices.len()
        invariant
            i <= choices@.len(),
            m == matrix.deep_view(),
            all == choices.deep_view(),
            sel == selection.deep_view(),
            chosen_pairs@.map_values(|p: IndependencePair| p.deep_view()) == chosen_upto(
                m,
                all,
                sel.chosen,
                i as int,
            ),
        decreases choices@.len() - i,
    {
        assert(all[i as int] == choices@[i as int].deep_view());
        if i < selection.chosen.len() {
            let index: usize = selection.chosen[i];
            if let Some(pairs) = matrix.independence_pairs.get(choices[i].condition.as_str()) {
                assert(m.independence_pairs[all[i as int].condition] == pairs.deep_view());
                if index < pairs.len() {
                    let ghost before = chosen_pairs@.map_values(
                        |p: IndependencePair| p.deep_view(),
                    );
                    let pair = pairs[index].duplicate();
                    assert(pairs.deep_view()[index as int] == pair.deep_view());
                    chosen_pairs.insert(choices[i].condition.clone(), pair);
                    assert(chosen_pairs@.map_values(|p: IndependencePair| p.deep_view())
                        =~= before.insert(all[i as int].condition, pair.deep_view()));
                }
            }
        }
        i += 1;
    }
    let mut tests: Vec<TruthTableRow> = Vec::new();
    let mut k: usize = 0;
    assert(tests.deep_view() =~= seq![]);
    while k < matrix.truth_table.len()
        invariant
            k <= matrix.truth_table@.len(),
            m == matrix.deep_view(),
            sel == selection.deep_view(),
            tests.deep_view() == rows_upto(m.truth_table, sel.rows, k as int),
        decreases matrix.truth_table@.len() - k,
    {
        assert(m.truth_table[k as int] == matrix.truth_table@[k as int].deep_view());
        if selection.rows.contains(&k) {
            let ghost before = tests.deep_view();
            let row = matrix.truth_table[k].duplicate();
            tests.push(row);
            assert(tests.deep_view() =~= before.push(row.deep_view()));
        }
        k += 1;
    }
    MinimumTestSet { tests, chosen_pairs, proven_minimal }
}

/// Computes a minimum MC/DC test set under an explicit node ceiling.
pub fn minimum_test_set_within(matrix: &IndependenceMatrix, budget: usize) -> (r: MinimumTestSet)
    ensures
        r.deep_view() == minimum_of(matrix.deep_view(), budget as nat),
{
    let choices = condition_choices(matrix);
    let floor: usize = if choices.len() == 0 {
        0
    } else {
        2
    };
    let mut state = SearchState {
        floor,
        remaining: budget,
        exhausted: false,
        current: Selection { chosen: Vec::new(), rows: BTreeSet::new() },
        best: None,
    };
    assert(state.current.deep_view() =~= nothing_selected());
    explore(&choices, 0, &mut state);
    assert(state.search() == searched(choices.deep_view(), budget as nat));
    match &state.best {
        Some(selection) => {
            let proven_minimal = !state.exhausted || selection.rows.len() <= state.floor;
            assemble(matrix, &choices, selection, proven_minimal)
        },
        None => MinimumTestSet::default(),
    }
}

/// Computes a minimum-cardinality MC/DC test set for an analysed decision.
///
/// Every condition that has at least one valid independence pair contributes
/// exactly one pair, and the result is the smallest union of those pairs'
/// rows that the search finds within [`SEARCH_BUDGET`]. Pairs are taken in
/// the order of the matrix and the first of equally small selections stays,
/// so a given matrix always yields the same set.
pub fn minimum_test_set(matrix: &IndependenceMatrix) -> (r: MinimumTestSet)
    ensures
        r.deep_view() == minimum_of(matrix.deep_view(), SEARCH_BUDGET as nat),
{
    minimum_test_set_within(matrix, SEARCH_BUDGET)
}

} // verus!
