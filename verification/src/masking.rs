//! Masking analysis.
//!
//! From a decision the analysis enumerates the truth table and, for each
//! condition, the independence pairs: pairs of rows that show that the
//! condition alone decides the outcome. Two variants of MC/DC are supported:
//!
//! - **masking** (the default): the other conditions of a pair may differ, as
//!   long as each one that does is *masked* in both rows, that is, flipping
//!   it there would not change the result.
//! - **unique-cause**: all other conditions must be the same in both rows.
use crate::decision::{
    conditions, evaluate_partial, total_assignment_settles, value_of, DecisionTree,
    DecisionTreeView, Node, NodeView,
};
use crate::ordered::{in_order, name_seq, same_values, strictly_sorted, NameMap};
use crate::text::same_text;
use vstd::arithmetic::power2::{lemma_pow2_unfold, pow2};
use vstd::prelude::*;

pub mod laws;
pub mod meaning;
pub mod minimality;
pub mod search;

pub use crate::masking::search::{
    minimum_test_set, minimum_test_set_within, MinimumTestSet, SEARCH_BUDGET,
};

verus! {

/// Which MC/DC variant to compute.
#[derive(Debug, Copy, Clone, Eq, PartialEq, Structural)]
pub enum Variant {
    /// Masking MC/DC.
    Masking,
    /// Strict unique-cause MC/DC.
    UniqueCause,
}

impl Default for Variant {
    fn default() -> (r: Self)
        ensures
            r == Variant::Masking,
    {
        Variant::Masking
    }
}

/// One row of an enumerated truth table.
#[derive(Debug, Clone, PartialEq, Eq)]
pub struct TruthTableRow {
    /// Assignment of each condition to its boolean value.
    pub inputs: NameMap<bool>,
    /// Resulting decision outcome under this assignment.
    pub result: bool,
}

/// The model of a [`TruthTableRow`].
#[verifier::ext_equal]
pub struct RowView {
    pub inputs: Map<Seq<char>, bool>,
    pub result: bool,
}

impl DeepView for TruthTableRow {
    type V = RowView;

    open spec fn deep_view(&self) -> RowView {
        RowView { inputs: self.inputs@, result: self.result }
    }
}

impl TruthTableRow {
    /// A copy of the row.
    pub fn duplicate(&self) -> (r: TruthTableRow)
        ensures
            r.deep_view() == self.deep_view(),
    {
        TruthTableRow { inputs: self.inputs.duplicate(), result: self.result }
    }
}

/// A pair of truth-table rows that together demonstrate that a single
/// condition independently affects the decision outcome.
#[derive(Debug, Clone, PartialEq, Eq)]
pub struct IndependencePair {
    /// First test case.
    pub test_1: TruthTableRow,
    /// Second test case (differs in the named condition; outcome differs).
    pub test_2: TruthTableRow,
}

/// The model of an [`IndependencePair`].
#[verifier::ext_equal]
pub struct PairView {
    pub test_1: RowView,
    pub test_2: RowView,
}

impl DeepView for IndependencePair {
    type V = PairView;

    open spec fn deep_view(&self) -> PairView {
        PairView { test_1: self.test_1.deep_view(), test_2: self.test_2.deep_view() }
    }
}

impl IndependencePair {
    /// A copy of the pair.
    pub fn duplicate(&self) -> (r: IndependencePair)
        ensures
            r.deep_view() == self.deep_view(),
    {
        IndependencePair { test_1: self.test_1.duplicate(), test_2: self.test_2.duplicate() }
    }
}

/// The truth table and per-condition independence pairs of one decision.
#[derive(Debug, Clone)]
pub struct IndependenceMatrix {
    /// Which variant the analysis was computed under.
    pub variant: Variant,
    /// Atomic conditions referenced in the decision, sorted by name.
    pub conditions: Vec<String>,
    /// Full truth table (`2^n` rows for `n` conditions).
    pub truth_table: Vec<TruthTableRow>,
    /// Map from condition name to all valid independence pairs that
    /// demonstrate its MC/DC independence under [`Self::variant`].
    pub independence_pairs: NameMap<Vec<IndependencePair>>,
}

/// The model of an [`IndependenceMatrix`].
#[verifier::ext_equal]
pub struct MatrixView {
    pub variant: Variant,
    pub conditions: Seq<Seq<char>>,
    pub truth_table: Seq<RowView>,
    pub independence_pairs: Map<Seq<char>, Seq<PairView>>,
}

impl DeepView for IndependenceMatrix {
    type V = MatrixView;

    open spec fn deep_view(&self) -> MatrixView {
        MatrixView {
            variant: self.variant,
            conditions: name_seq(self.conditions@),
            truth_table: self.truth_table.deep_view(),
            independence_pairs: self.independence_pairs@.map_values(
                |v: Vec<IndependencePair>| v.deep_view(),
            ),
        }
    }
}

/// The matrix of no decision.
pub open spec fn empty_matrix(variant: Variant) -> MatrixView {
    MatrixView {
        variant,
        conditions: seq![],
        truth_table: seq![],
        independence_pairs: Map::empty(),
    }
}

impl IndependenceMatrix {
    /// The matrix of no decision.
    fn empty(variant: Variant) -> (r: Self)
        ensures
            r.deep_view() == empty_matrix(variant),
    {
        let r = IndependenceMatrix {
            variant,
            conditions: Vec::new(),
            truth_table: Vec::new(),
            independence_pairs: NameMap::new(),
        };
        assert(r.deep_view() =~= empty_matrix(variant));
        r
    }
}

impl Default for IndependenceMatrix {
    fn default() -> (r: Self)
        ensures
            r.deep_view() == empty_matrix(Variant::Masking),
    {
        IndependenceMatrix::empty(Variant::Masking)
    }
}

/// One condition assignment observed in a single test execution.
#[derive(Debug, Clone)]
pub struct ConditionObservation {
    /// Optional test identifier, preserved for diagnostic output.
    pub test_name: Option<String>,
    /// Values observed for each named condition. Short-circuited conditions
    /// are absent.
    pub inputs: NameMap<bool>,
    /// The decision outcome under these inputs.
    pub result: bool,
}

/// The model of a [`ConditionObservation`].
pub struct ObservationView {
    pub test_name: Option<Seq<char>>,
    pub inputs: Map<Seq<char>, bool>,
    pub result: bool,
}

impl DeepView for ConditionObservation {
    type V = ObservationView;

    open spec fn deep_view(&self) -> ObservationView {
        ObservationView {
            test_name: self.test_name.deep_view(),
            inputs: self.inputs@,
            result: self.result,
        }
    }
}

/// Whether the test suite as observed demonstrates MC/DC independence for
/// one condition.
#[derive(Debug, Clone)]
pub enum ConditionStatus {
    /// At least one valid independence pair had both rows observed.
    Exercised(IndependencePair),
    /// No valid independence pair had both rows observed.
    Unexercised,
}

/// The model of a [`ConditionStatus`].
pub enum StatusView {
    Exercised(PairView),
    Unexercised,
}

impl DeepView for ConditionStatus {
    type V = StatusView;

    open spec fn deep_view(&self) -> StatusView {
        match *self {
            ConditionStatus::Exercised(p) => StatusView::Exercised(p.deep_view()),
            ConditionStatus::Unexercised => StatusView::Unexercised,
        }
    }
}

/// Static MC/DC analysis combined with runtime evidence: which conditions had
/// their independence demonstrated by the observed test runs.
#[derive(Debug, Clone)]
pub struct RuntimeAnalysis {
    /// The static analysis (truth table + all valid pairs).
    pub matrix: IndependenceMatrix,
    /// Per-condition status under the observed tests.
    pub condition_status: NameMap<ConditionStatus>,
}

/// The model of a [`RuntimeAnalysis`].
#[verifier::ext_equal]
pub struct RuntimeView {
    pub matrix: MatrixView,
    pub condition_status: Map<Seq<char>, StatusView>,
}

impl DeepView for RuntimeAnalysis {
    type V = RuntimeView;

    open spec fn deep_view(&self) -> RuntimeView {
        RuntimeView {
            matrix: self.matrix.deep_view(),
            condition_status: self.condition_status@.map_values(
                |s: ConditionStatus| s.deep_view(),
            ),
        }
    }
}

// ---------------------------------------------------------------------------
// Conditions
// ---------------------------------------------------------------------------

/// Adds the conditions of a decision to a set of names.
fn walk_conditions(node: &Node, names: &mut NameMap<bool>)
    ensures
        final(names)@.dom() == old(names)@.dom().union(conditions(node.deep_view())),
    decreases node,
{
    let ghost before = names@.dom();
    match node {
        Node::Condition { name } => {
            names.insert(name.clone(), true);
        },
        Node::Const { .. } => {},
        Node::Ite { cond, then_branch, else_branch } => {
            names.insert(cond.clone(), true);
            walk_conditions(then_branch, names);
            walk_conditions(else_branch, names);
        },
    }
    assert(names@.dom() =~= before.union(conditions(node.deep_view())));
}

/// Collects the atomic condition names referenced in a [`Node`], in sorted
/// order.
pub fn collect_conditions(node: &Node) -> (r: Vec<String>)
    ensures
        name_seq(r@) == in_order(conditions(node.deep_view())),
        strictly_sorted(name_seq(r@)),
        name_seq(r@).no_duplicates(),
        name_seq(r@).to_set() == conditions(node.deep_view()),
        r@.len() == conditions(node.deep_view()).len(),
{
    let mut names: NameMap<bool> = NameMap::new();
    walk_conditions(node, &mut names);
    assert(names@.dom() =~= conditions(node.deep_view()));
    let n: usize = names.len();
    let mut out: Vec<String> = Vec::new();
    let mut i: usize = 0;
    while i < n
        invariant
            i <= n,
            n == names.order().len(),
            out@.len() == i,
            forall|k: int| 0 <= k < i ==> (#[trigger] out@[k])@ == names.order()[k],
        decreases n - i,
    {
        out.push(names.name_at(i).clone());
        i += 1;
    }
    assert(name_seq(out@) =~= names.order());
    out
}

// ---------------------------------------------------------------------------
// The truth table
// ---------------------------------------------------------------------------

/// Bit `i` of `n`.
pub open spec fn bit(n: nat, i: nat) -> bool
    decreases i,
{
    if i == 0 {
        n % 2 == 1
    } else {
        bit(n / 2, (i - 1) as nat)
    }
}

/// The assignment of row `k`: condition `i` has the value of bit `i`.
pub open spec fn assignment(names: Seq<Seq<char>>, k: nat) -> Map<Seq<char>, bool> {
    Map::new(|n: Seq<char>| names.contains(n), |n: Seq<char>| bit(k, names.index_of(n) as nat))
}

/// Row `k` of the truth table of a decision.
pub open spec fn table_row(node: NodeView, names: Seq<Seq<char>>, k: nat) -> RowView {
    RowView {
        inputs: assignment(names, k),
        result: value_of(node, assignment(names, k)) == Some(true),
    }
}

/// The truth table of a decision: one row for each number below `2^n`.
pub open spec fn truth_table(node: NodeView, names: Seq<Seq<char>>) -> Seq<RowView> {
    Seq::new(pow2(names.len()), |k: int| table_row(node, names, k as nat))
}

/// Builds the assignment of row `k`.
fn make_assignment(names: &Vec<String>, k: u64) -> (r: NameMap<bool>)
    requires
        name_seq(names@).no_duplicates(),
    ensures
        r@ == assignment(name_seq(names@), k as nat),
{
    let ghost all = name_seq(names@);
    let mut out: NameMap<bool> = NameMap::new();
    let mut rest: u64 = k;
    let mut i: usize = 0;
    while i < names.len()
        invariant
            i <= names@.len(),
            all == name_seq(names@),
            all.no_duplicates(),
            forall|j: nat| bit(k as nat, (i + j) as nat) == #[trigger] bit(rest as nat, j),
            forall|n: Seq<char>|
                #[trigger] out@.contains_key(n) <==> exists|j: int|
                    0 <= j < i && #[trigger] all[j] == n,
            forall|j: int|
                0 <= j < i ==> out@.contains_key(#[trigger] all[j]) && out@[all[j]] == bit(
                    k as nat,
                    j as nat,
                ),
        decreases names@.len() - i,
    {
        let ghost before = out@;
        let value = rest % 2 == 1;
        assert(value == bit(k as nat, (i + 0) as nat)) by {
            assert(bit(k as nat, (i + 0nat) as nat) == bit(rest as nat, 0nat));
        }
        out.insert(names[i].clone(), value);
        assert(all[i as int] == names@[i as int]@);
        assert forall|j: int| 0 <= j < i + 1 implies out@.contains_key(#[trigger] all[j])
            && out@[all[j]] == bit(k as nat, j as nat) by {
            if j < i {
                assert(all[j] != all[i as int]);
            }
        }
        assert forall|n: Seq<char>| #[trigger] out@.contains_key(n) <==> exists|j: int|
            0 <= j < i + 1 && #[trigger] all[j] == n by {
            if before.contains_key(n) {
                let j = choose|j: int| 0 <= j < i && #[trigger] all[j] == n;
                assert(all[j] == n);
            }
            if out@.contains_key(n) && !before.contains_key(n) {
                assert(all[i as int] == n);
            }
        }
        assert forall|j: nat| bit(k as nat, (i + 1 + j) as nat) == #[trigger] bit(
            (rest / 2) as nat,
            j,
        ) by {
            assert(bit(rest as nat, j + 1) == bit(rest as nat / 2, j));
        }
        rest = rest / 2;
        i += 1;
    }
    assert forall|n: Seq<char>| out@.contains_key(n) implies out@[n] == assignment(
        all,
        k as nat,
    )[n] by {
        let j = choose|j: int| 0 <= j < i && #[trigger] all[j] == n;
        assert(all.contains(n));
        assert(all.index_of(n) == j);
    }
    assert forall|n: Seq<char>| all.contains(n) implies out@.contains_key(n) by {
        let j = choose|j: int| 0 <= j < all.len() && all[j] == n;
        assert(out@.contains_key(all[j]));
    }
    assert(out@ =~= assignment(all, k as nat));
    out
}

/// Evaluates a [`Node`] under an assignment of all its conditions.
fn evaluate(node: &Node, env: &NameMap<bool>) -> (r: bool)
    requires
        conditions(node.deep_view()).subset_of(env@.dom()),
    ensures
        value_of(node.deep_view(), env@) == Some(r),
{
    proof {
        total_assignment_settles(node.deep_view(), env@);
    }
    match evaluate_partial(node, env) {
        Some(v) => v,
        None => false,
    }
}

/// `2^n` for less than 64 conditions.
fn row_count(n: usize) -> (r: u64)
    requires
        n < 64,
    ensures
        r == pow2(n as nat),
{
    let mut r: u64 = 1;
    let mut i: usize = 0;
    proof {
        vstd::arithmetic::power2::lemma2_to64();
    }
    while i < n
        invariant
            i <= n < 64,
            r == pow2(i as nat),
        decreases n - i,
    {
        proof {
            lemma_pow2_unfold((i + 1) as nat);
            vstd::bits::lemma_u64_pow2_no_overflow((i + 1) as nat);
        }
        r = r * 2;
        i += 1;
    }
    r
}

/// Enumerates the full `2^n`-row truth table for a decision and its sorted
/// condition list.
fn enumerate_truth_table(decision: &Node, names: &Vec<String>) -> (r: Vec<TruthTableRow>)
    requires
        names@.len() < 64,
        name_seq(names@).no_duplicates(),
        name_seq(names@).to_set() == conditions(decision.deep_view()),
    ensures
        r.deep_view() == truth_table(decision.deep_view(), name_seq(names@)),
{
    let ghost all = name_seq(names@);
    let ghost node = decision.deep_view();
    let count: u64 = row_count(names.len());
    let mut table: Vec<TruthTableRow> = Vec::new();
    let mut k: u64 = 0;
    while k < count
        invariant
            k <= count,
            count == pow2(all.len()),
            all == name_seq(names@),
            node == decision.deep_view(),
            all.no_duplicates(),
            all.to_set() == conditions(node),
            table@.len() == k,
            forall|j: int|
                0 <= j < k ==> (#[trigger] table@[j]).deep_view() == table_row(
                    node,
                    all,
                    j as nat,
                ),
        decreases count - k,
    {
        let inputs = make_assignment(names, k);
        assert(conditions(node).subset_of(inputs@.dom())) by {
            assert forall|n: Seq<char>| conditions(node).contains(n) implies inputs@.dom().contains(
                n,
            ) by {
                assert(all.to_set().contains(n));
                assert(all.contains(n));
            }
        }
        let result = evaluate(decision, &inputs);
        table.push(TruthTableRow { inputs, result });
        k += 1;
    }
    assert(table.deep_view() =~= truth_table(node, all));
    table
}

// ---------------------------------------------------------------------------
// Independence pairs
// ---------------------------------------------------------------------------

/// The value of a condition in a row; a condition that is absent counts as
/// false.
pub open spec fn value_in(row: RowView, name: Seq<char>) -> bool {
    row.inputs.get(name) == Some(true)
}

/// An assignment with one condition flipped.
pub open spec fn flipped(inputs: Map<Seq<char>, bool>, name: Seq<char>) -> Map<Seq<char>, bool> {
    if inputs.contains_key(name) {
        inputs.insert(name, !inputs[name])
    } else {
        inputs
    }
}

/// Whether a condition does not affect the result in a row: the row that
/// differs from it in that condition alone has the same result.
pub open spec fn masked(name: Seq<char>, row: RowView, table: Seq<RowView>) -> bool {
    exists|k: int|
        0 <= k < table.len() && (#[trigger] table[k]).inputs == flipped(row.inputs, name)
            && table[k].result == row.result
}

/// Whether another condition may have the values it has in two rows of a
/// pair.
pub open spec fn other_allowed(
    other: Seq<char>,
    a: RowView,
    b: RowView,
    table: Seq<RowView>,
    variant: Variant,
) -> bool {
    a.inputs[other] == value_in(b, other) || (variant == Variant::Masking && masked(
        other,
        a,
        table,
    ) && masked(other, b, table))
}

/// Whether two rows are an independence pair of a condition: the condition
/// and the result differ, and each other condition has values it may have.
pub open spec fn is_pair(
    name: Seq<char>,
    a: RowView,
    b: RowView,
    table: Seq<RowView>,
    variant: Variant,
) -> bool {
    &&& value_in(a, name) != value_in(b, name)
    &&& a.result != b.result
    &&& forall|other: Seq<char>|
        a.inputs.contains_key(other) && other != name ==> #[trigger] other_allowed(
            other,
            a,
            b,
            table,
            variant,
        )
}

/// The pairs of row `i` with the rows after it and before `j`, in order.
pub open spec fn pairs_of_row(
    name: Seq<char>,
    table: Seq<RowView>,
    variant: Variant,
    i: int,
    j: int,
) -> Seq<PairView>
    decreases j - i,
{
    if j <= i + 1 {
        seq![]
    } else {
        let rest = pairs_of_row(name, table, variant, i, j - 1);
        if is_pair(name, table[i], table[j - 1], table, variant) {
            rest.push(PairView { test_1: table[i], test_2: table[j - 1] })
        } else {
            rest
        }
    }
}

/// The pairs whose first row is before `i`, in order.
pub open spec fn pairs_before(
    name: Seq<char>,
    table: Seq<RowView>,
    variant: Variant,
    i: int,
) -> Seq<PairView>
    decreases i,
{
    if i <= 0 {
        seq![]
    } else {
        pairs_before(name, table, variant, i - 1) + pairs_of_row(
            name,
            table,
            variant,
            i - 1,
            table.len() as int,
        )
    }
}

/// All independence pairs of a condition, in the order of their rows.
pub open spec fn independence_pairs(
    name: Seq<char>,
    table: Seq<RowView>,
    variant: Variant,
) -> Seq<PairView> {
    pairs_before(name, table, variant, table.len() as int)
}

/// The value of a condition in a row, or false.
fn row_value(row: &TruthTableRow, name: &str) -> (r: bool)
    ensures
        r == value_in(row.deep_view(), name@),
{
    match row.inputs.get(name) {
        Some(v) => *v,
        None => false,
    }
}

/// Whether `condition` does not affect the result in `row`'s assignment.
fn is_masked_in(condition: &str, row: &TruthTableRow, table: &Vec<TruthTableRow>) -> (r: bool)
    ensures
        r == masked(condition@, row.deep_view(), table.deep_view()),
{
    let mut inputs = row.inputs.duplicate();
    if let Some(v) = row.inputs.get(condition) {
        inputs.insert(crate::text::owned(condition), !*v);
    }
    let ghost all = table.deep_view();
    let mut k: usize = 0;
    while k < table.len()
        invariant
            k <= table@.len(),
            all == table.deep_view(),
            inputs@ == flipped(row.deep_view().inputs, condition@),
            forall|j: int|
                0 <= j < k ==> !((#[trigger] all[j]).inputs == inputs@ && all[j].result
                    == row.result),
        decreases table@.len() - k,
    {
        assert(all[k as int] == table@[k as int].deep_view());
        if table[k].result == row.result && same_values(&table[k].inputs, &inputs) {
            return true;
        }
        k += 1;
    }
    false
}

/// Checks the constraint that the variant puts on the other conditions of a
/// candidate pair.
fn pair_satisfies_variant(
    condition: &str,
    a: &TruthTableRow,
    b: &TruthTableRow,
    table: &Vec<TruthTableRow>,
    variant: Variant,
) -> (r: bool)
    ensures
        r == forall|other: Seq<char>|
            a.deep_view().inputs.contains_key(other) && other != condition@
                ==> #[trigger] other_allowed(
                other,
                a.deep_view(),
                b.deep_view(),
                table.deep_view(),
                variant,
            ),
{
    let n: usize = a.inputs.len();
    let mut i: usize = 0;
    while i < n
        invariant
            i <= n,
            n == a.inputs.order().len(),
            a.inputs.order().to_set() == a.inputs@.dom(),
            forall|k: int|
                0 <= k < i && #[trigger] a.inputs.order()[k] != condition@ ==> other_allowed(
                    a.inputs.order()[k],
                    a.deep_view(),
                    b.deep_view(),
                    table.deep_view(),
                    variant,
                ),
        decreases n - i,
    {
        let other = a.inputs.name_at(i);
        if !same_text(other.as_str(), condition) && *a.inputs.value_at(i) != row_value(
            b,
            other.as_str(),
        ) {
            if variant == Variant::UniqueCause || !is_masked_in(other.as_str(), a, table)
                || !is_masked_in(other.as_str(), b, table) {
                assert(!other_allowed(
                    other@,
                    a.deep_view(),
                    b.deep_view(),
                    table.deep_view(),
                    variant,
                ));
                return false;
            }
        }
        i += 1;
    }
    assert forall|other: Seq<char>|
        a.deep_view().inputs.contains_key(other) && other != condition@ implies #[trigger] other_allowed(
        other,
        a.deep_view(),
        b.deep_view(),
        table.deep_view(),
        variant,
    ) by {
        assert(a.inputs.order().to_set().contains(other));
        let k = choose|k: int| 0 <= k < a.inputs.order().len() && a.inputs.order()[k] == other;
        assert(a.inputs.order()[k] == other);
    }
    true
}

/// Finds all valid independence pairs for `condition` under the given
/// variant.
fn find_pairs(condition: &str, table: &Vec<TruthTableRow>, variant: Variant) -> (r: Vec<
    IndependencePair,
>)
    ensures
        r.deep_view() == independence_pairs(condition@, table.deep_view(), variant),
{
    let ghost all = table.deep_view();
    let count: usize = table.len();
    let mut pairs: Vec<IndependencePair> = Vec::new();
    let mut i: usize = 0;
    assert(pairs.deep_view() =~= seq![]);
    while i < count
        invariant
            i <= count,
            count == table@.len(),
            all == table.deep_view(),
            pairs.deep_view() == pairs_before(condition@, all, variant, i as int),
        decreases count - i,
    {
        let ghost before = pairs.deep_view();
        let mut j: usize = i + 1;
        assert(before + seq![] =~= before);
        while j < count
            invariant
                i < j <= count,
                count == table@.len(),
                all == table.deep_view(),
                pairs.deep_view() == before + pairs_of_row(
                    condition@,
                    all,
                    variant,
                    i as int,
                    j as int,
                ),
            decreases count - j,
        {
            let a = &table[i];
            let b = &table[j];
            assert(all[i as int] == a.deep_view());
            assert(all[j as int] == b.deep_view());
            if row_value(a, condition) != row_value(b, condition) && a.result != b.result
                && pair_satisfies_variant(condition, a, b, table, variant) {
                let ghost now = pairs.deep_view();
                let pair = IndependencePair { test_1: a.duplicate(), test_2: b.duplicate() };
                pairs.push(pair);
                assert(pairs.deep_view() =~= now.push(pair.deep_view()));
                assert(now.push(pair.deep_view()) =~= before + pairs_of_row(
                    condition@,
                    all,
                    variant,
                    i as int,
                    j as int,
                ).push(pair.deep_view()));
            }
            j += 1;
        }
        i += 1;
    }
    pairs
}

// ---------------------------------------------------------------------------
// Analysis
// ---------------------------------------------------------------------------

/// The independence pairs of each of the given conditions.
pub open spec fn pairs_by_name(
    names: Seq<Seq<char>>,
    table: Seq<RowView>,
    variant: Variant,
) -> Map<Seq<char>, Seq<PairView>> {
    Map::new(
        |n: Seq<char>| names.contains(n),
        |n: Seq<char>| independence_pairs(n, table, variant),
    )
}

/// The matrix of the first of some decisions.
pub open spec fn matrix_of(decisions: Seq<NodeView>, variant: Variant) -> MatrixView {
    if decisions.len() == 0 {
        empty_matrix(variant)
    } else {
        let names = in_order(conditions(decisions[0]));
        let table = truth_table(decisions[0], names);
        MatrixView {
            variant,
            conditions: names,
            truth_table: table,
            independence_pairs: pairs_by_name(names, table, variant),
        }
    }
}

/// Whether the first decision has few enough conditions for its truth table
/// to be enumerated by a 64-bit number.
pub open spec fn enumerable(tree: DecisionTreeView) -> bool {
    tree.decisions.len() > 0 ==> conditions(tree.decisions[0]).len() < 64
}

/// Whether the first decision has few enough conditions for its truth table
/// to be enumerated.
pub fn is_enumerable(tree: &DecisionTree) -> (r: bool)
    ensures
        r == enumerable(tree.deep_view()),
{
    if tree.decisions.len() == 0 {
        return true;
    }
    assert(tree.deep_view().decisions[0] == tree.decisions@[0].deep_view());
    collect_conditions(&tree.decisions[0]).len() < 64
}

/// Computes the MC/DC independence matrix for a decision tree under an
/// explicit variant. The first decision in `tree` is analysed.
pub fn analyze_with_variant(tree: &DecisionTree, variant: Variant) -> (r: IndependenceMatrix)
    requires
        enumerable(tree.deep_view()),
    ensures
        r.deep_view() == matrix_of(tree.deep_view().decisions, variant),
{
    if tree.decisions.len() == 0 {
        return IndependenceMatrix::empty(variant);
    }
    let decision = &tree.decisions[0];
    assert(tree.deep_view().decisions[0] == decision.deep_view());
    let names = collect_conditions(decision);
    let ghost all = name_seq(names@);
    let table = enumerate_truth_table(decision, &names);
    let ghost rows = table.deep_view();
    let mut pairs: NameMap<Vec<IndependencePair>> = NameMap::new();
    let mut i: usize = 0;
    while i < names.len()
        invariant
            i <= names@.len(),
            all == name_seq(names@),
            rows == table.deep_view(),
            forall|n: Seq<char>|
                #[trigger] pairs@.contains_key(n) <==> exists|j: int|
                    0 <= j < i && #[trigger] all[j] == n,
            forall|n: Seq<char>| #[trigger]
                pairs@.contains_key(n) ==> pairs@[n].deep_view() == independence_pairs(
                    n,
                    rows,
                    variant,
                ),
        decreases names@.len() - i,
    {
        let ghost before = pairs@;
        let found = find_pairs(names[i].as_str(), &table, variant);
        pairs.insert(names[i].clone(), found);
        assert(all[i as int] == names@[i as int]@);
        assert forall|n: Seq<char>| #[trigger] pairs@.contains_key(n) <==> exists|j: int|
            0 <= j < i + 1 && #[trigger] all[j] == n by {
            if before.contains_key(n) {
                let j = choose|j: int| 0 <= j < i && #[trigger] all[j] == n;
                assert(all[j] == n);
            }
            if pairs@.contains_key(n) && !before.contains_key(n) {
                assert(all[i as int] == n);
            }
        }
        i += 1;
    }
    let r = IndependenceMatrix {
        variant,
        conditions: names,
        truth_table: table,
        independence_pairs: pairs,
    };
    proof {
        let expected = pairs_by_name(all, rows, variant);
        let got = r.deep_view().independence_pairs;
        assert forall|n: Seq<char>| expected.contains_key(n) == got.contains_key(n) by {
            if all.contains(n) {
                let j = choose|j: int| 0 <= j < all.len() && all[j] == n;
                assert(all[j] == n);
                assert(pairs@.contains_key(n));
            }
        }
        assert(got =~= expected);
    }
    r
}

/// Computes the MC/DC independence matrix for a decision tree, under the
/// default [`Variant::Masking`] variant.
pub fn analyze(tree: &DecisionTree) -> (r: IndependenceMatrix)
    requires
        enumerable(tree.deep_view()),
    ensures
        r.deep_view() == matrix_of(tree.deep_view().decisions, Variant::Masking),
{
    analyze_with_variant(tree, Variant::Masking)
}

// ---------------------------------------------------------------------------
// Runtime evidence
// ---------------------------------------------------------------------------

/// Whether an observation is compatible with a row: the results match and
/// every condition that was observed has the row's value. A condition that
/// was short-circuited did not affect the result and may have any value.
pub open spec fn covers(o: ObservationView, row: RowView) -> bool {
    o.result == row.result && o.inputs.submap_of(row.inputs)
}

/// Whether some observation covers a row.
pub open spec fn observed(observations: Seq<ObservationView>, row: RowView) -> bool {
    exists|i: int| 0 <= i < observations.len() && covers(#[trigger] observations[i], row)
}

/// The status of a condition with the given pairs: the first pair of which
/// both rows were observed, if there is one.
pub open spec fn status_of(
    pairs: Seq<PairView>,
    observations: Seq<ObservationView>,
) -> StatusView
    decreases pairs.len(),
{
    if pairs.len() == 0 {
        StatusView::Unexercised
    } else if observed(observations, pairs[0].test_1) && observed(observations, pairs[0].test_2) {
        StatusView::Exercised(pairs[0])
    } else {
        status_of(pairs.skip(1), observations)
    }
}

/// The status of each condition of a matrix.
pub open spec fn statuses(
    matrix: MatrixView,
    observations: Seq<ObservationView>,
) -> Map<Seq<char>, StatusView> {
    matrix.independence_pairs.map_values(|pairs: Seq<PairView>| status_of(pairs, observations))
}

/// Whether an observation is compatible with a row.
fn observation_covers_row(observation: &ConditionObservation, row: &TruthTableRow) -> (r: bool)
    ensures
        r == covers(observation.deep_view(), row.deep_view()),
{
    if observation.result != row.result {
        return false;
    }
    let n: usize = observation.inputs.len();
    let mut i: usize = 0;
    while i < n
        invariant
            i <= n,
            n == observation.inputs.order().len(),
            observation.result == row.result,
            forall|k: int|
                0 <= k < i ==> row.inputs@.contains_key(#[trigger] observation.inputs.order()[k])
                    && row.inputs@[observation.inputs.order()[k]]
                    == observation.inputs@[observation.inputs.order()[k]],
        decreases n - i,
    {
        let name = observation.inputs.name_at(i);
        match row.inputs.get(name.as_str()) {
            Some(v) => if *v != *observation.inputs.value_at(i) {
                assert(!observation.inputs@.submap_of(row.inputs@));
                return false;
            },
            None => {
                assert(!observation.inputs@.submap_of(row.inputs@));
                return false;
            },
        }
        i += 1;
    }
    assert forall|name: Seq<char>| observation.inputs@.dom().contains(name) implies
        row.inputs@.dom().contains(name) && row.inputs@[name] == observation.inputs@[name] by {
        assert(observation.inputs.order().to_set().contains(name));
        let k = choose|k: int|
            0 <= k < observation.inputs.order().len() && observation.inputs.order()[k] == name;
        assert(row.inputs@.contains_key(observation.inputs.order()[k]));
    }
    true
}

/// Whether some observation covers a row.
fn row_observed(observations: &[ConditionObservation], row: &TruthTableRow) -> (r: bool)
    ensures
        r == observed(observations.deep_view(), row.deep_view()),
{
    let ghost all = observations.deep_view();
    let mut i: usize = 0;
    while i < observations.len()
        invariant
            i <= observations@.len(),
            all == observations.deep_view(),
            forall|k: int| 0 <= k < i ==> !covers(#[trigger] all[k], row.deep_view()),
        decreases observations@.len() - i,
    {
        assert(all[i as int] == observations@[i as int].deep_view());
        if observation_covers_row(&observations[i], row) {
            return true;
        }
        i += 1;
    }
    false
}

/// The first pair of which both rows were observed.
pub fn classify_condition(
    pairs: &[IndependencePair],
    observations: &[ConditionObservation],
) -> (r: ConditionStatus)
    ensures
        r.deep_view() == status_of(pairs.deep_view(), observations.deep_view()),
{
    let ghost all = pairs.deep_view();
    let mut i: usize = 0;
    assert(all.skip(0) =~= all);
    while i < pairs.len()
        invariant
            i <= pairs@.len(),
            all == pairs.deep_view(),
            status_of(all, observations.deep_view()) == status_of(
                all.skip(i as int),
                observations.deep_view(),
            ),
        decreases pairs@.len() - i,
    {
        assert(all.skip(i as int)[0] == pairs@[i as int].deep_view());
        assert(all.skip(i as int).skip(1) =~= all.skip(i + 1));
        let t1 = row_observed(observations, &pairs[i].test_1);
        let t2 = row_observed(observations, &pairs[i].test_2);
        if t1 && t2 {
            return ConditionStatus::Exercised(pairs[i].duplicate());
        }
        i += 1;
    }
    ConditionStatus::Unexercised
}

/// Combines static MC/DC analysis with observed test runs.
///
/// A condition is [`ConditionStatus::Exercised`] if and only if one of its
/// valid independence pairs had both rows observed; the first such pair is
/// returned. An observation stands for every row that agrees with the
/// conditions it saw and with its result.
pub fn analyze_with_runtime(
    tree: &DecisionTree,
    observations: &[ConditionObservation],
    variant: Variant,
) -> (r: RuntimeAnalysis)
    requires
        enumerable(tree.deep_view()),
    ensures
        r.deep_view().matrix == matrix_of(tree.deep_view().decisions, variant),
        r.deep_view().condition_status == statuses(
            r.deep_view().matrix,
            observations.deep_view(),
        ),
{
    let matrix = analyze_with_variant(tree, variant);
    let mut condition_status: NameMap<ConditionStatus> = NameMap::new();
    let n: usize = matrix.independence_pairs.len();
    let ghost names = matrix.independence_pairs.order();
    let ghost obs = observations.deep_view();
    let mut i: usize = 0;
    while i < n
        invariant
            i <= n,
            n == names.len(),
            names == matrix.independence_pairs.order(),
            obs == observations.deep_view(),
            forall|s: Seq<char>|
                #[trigger] condition_status@.contains_key(s) <==> exists|j: int|
                    0 <= j < i && #[trigger] names[j] == s,
            forall|s: Seq<char>| #[trigger]
                condition_status@.contains_key(s) ==> condition_status@[s].deep_view()
                    == status_of(matrix.independence_pairs@[s].deep_view(), obs),
        decreases n - i,
    {
        let ghost before = condition_status@;
        let name = matrix.independence_pairs.name_at(i);
        let status = classify_condition(
            matrix.independence_pairs.value_at(i).as_slice(),
            observations,
        );
        condition_status.insert(name.clone(), status);
        assert forall|s: Seq<char>| #[trigger] condition_status@.contains_key(s) <==> exists|j: int|
            0 <= j < i + 1 && #[trigger] names[j] == s by {
            if before.contains_key(s) {
                let j = choose|j: int| 0 <= j < i && #[trigger] names[j] == s;
                assert(names[j] == s);
            }
            if condition_status@.contains_key(s) && !before.contains_key(s) {
                assert(names[i as int] == s);
            }
        }
        i += 1;
    }
    let r = RuntimeAnalysis { matrix, condition_status };
    proof {
        let expected = statuses(r.deep_view().matrix, obs);
        let got = r.deep_view().condition_status;
        assert forall|s: Seq<char>| expected.contains_key(s) == got.contains_key(s) by {
            if expected.contains_key(s) {
                assert(names.to_set().contains(s));
                let j = choose|j: int| 0 <= j < names.len() && names[j] == s;
                assert(names[j] == s);
            }
            if got.contains_key(s) {
                let j = choose|j: int| 0 <= j < i && #[trigger] names[j] == s;
                assert(names.to_set().contains(s));
            }
        }
        assert(got =~= expected);
    }
    r
}

} // verus!
