use floyd::decision::Node;
use floyd::masking::{
    analyze, analyze_with_runtime, analyze_with_variant, minimum_test_set,
    minimum_test_set_within, ConditionObservation, ConditionStatus, IndependenceMatrix,
    IndependencePair, MinimumTestSet, TruthTableRow, Variant,
};
use floyd::ordered::NameMap;
use floyd::DecisionTree;

fn values(inputs: &[(&str, bool)]) -> NameMap<bool> {
    let mut map = NameMap::new();
    for (name, value) in inputs {
        map.insert(name.to_string(), *value);
    }
    map
}

fn cond(name: &str) -> Node {
    Node::Condition {
        name: name.to_string(),
    }
}
fn const_(value: bool) -> Node {
    Node::Const { value }
}
fn ite(c: &str, t: Node, e: Node) -> Node {
    Node::Ite {
        cond: c.to_string(),
        then_branch: Box::new(t),
        else_branch: Box::new(e),
    }
}
fn row(inputs: &[(&str, bool)], result: bool) -> TruthTableRow {
    TruthTableRow {
        inputs: values(inputs),
        result,
    }
}

fn and_tree() -> DecisionTree {
    DecisionTree {
        decisions: vec![ite("a", cond("b"), const_(false))],
    }
}

fn or_tree() -> DecisionTree {
    DecisionTree {
        decisions: vec![ite("a", const_(true), cond("b"))],
    }
}

fn nested_tree() -> DecisionTree {
    DecisionTree {
        decisions: vec![ite("a", ite("b", const_(true), cond("c")), cond("c"))],
    }
}

#[test]
fn and_truth_table_correct() {
    let m = analyze(&and_tree());
    assert_eq!(m.conditions, vec!["a", "b"]);
    assert_eq!(m.truth_table.len(), 4);
    assert!(m
        .truth_table
        .contains(&row(&[("a", false), ("b", false)], false)));
    assert!(m
        .truth_table
        .contains(&row(&[("a", false), ("b", true)], false)));
    assert!(m
        .truth_table
        .contains(&row(&[("a", true), ("b", false)], false)));
    assert!(m
        .truth_table
        .contains(&row(&[("a", true), ("b", true)], true)));
}

#[test]
fn or_truth_table_correct() {
    let m = analyze(&or_tree());
    assert_eq!(m.conditions, vec!["a", "b"]);
    assert_eq!(m.truth_table.len(), 4);
    assert!(m
        .truth_table
        .contains(&row(&[("a", false), ("b", false)], false)));
    assert!(m
        .truth_table
        .contains(&row(&[("a", false), ("b", true)], true)));
    assert!(m
        .truth_table
        .contains(&row(&[("a", true), ("b", false)], true)));
    assert!(m
        .truth_table
        .contains(&row(&[("a", true), ("b", true)], true)));
}

#[test]
fn nested_truth_table_correct() {
    let m = analyze(&nested_tree());
    assert_eq!(m.conditions, vec!["a", "b", "c"]);
    assert_eq!(m.truth_table.len(), 8);
    assert!(m
        .truth_table
        .contains(&row(&[("a", false), ("b", false), ("c", false)], false)));
    assert!(m
        .truth_table
        .contains(&row(&[("a", false), ("b", false), ("c", true)], true)));
    assert!(m
        .truth_table
        .contains(&row(&[("a", false), ("b", true), ("c", false)], false)));
    assert!(m
        .truth_table
        .contains(&row(&[("a", true), ("b", false), ("c", false)], false)));
    assert!(m
        .truth_table
        .contains(&row(&[("a", true), ("b", true), ("c", false)], true)));
    assert!(m
        .truth_table
        .contains(&row(&[("a", true), ("b", true), ("c", true)], true)));
}

#[test]
fn and_independence_pairs_match_corpus_001() {
    let m = analyze(&and_tree());
    let a_pair = IndependencePair {
        test_1: row(&[("a", false), ("b", true)], false),
        test_2: row(&[("a", true), ("b", true)], true),
    };
    let b_pair = IndependencePair {
        test_1: row(&[("a", true), ("b", false)], false),
        test_2: row(&[("a", true), ("b", true)], true),
    };
    assert!(
        m.independence_pairs.get("a").unwrap().contains(&a_pair),
        "expected a-pair in {:?}",
        m.independence_pairs.get("a").unwrap()
    );
    assert!(
        m.independence_pairs.get("b").unwrap().contains(&b_pair),
        "expected b-pair in {:?}",
        m.independence_pairs.get("b").unwrap()
    );
}

#[test]
fn or_independence_pairs_match_corpus_002() {
    let m = analyze(&or_tree());
    let a_pair = IndependencePair {
        test_1: row(&[("a", false), ("b", false)], false),
        test_2: row(&[("a", true), ("b", false)], true),
    };
    let b_pair = IndependencePair {
        test_1: row(&[("a", false), ("b", false)], false),
        test_2: row(&[("a", false), ("b", true)], true),
    };
    assert!(
        m.independence_pairs.get("a").unwrap().contains(&a_pair),
        "expected a-pair in {:?}",
        m.independence_pairs.get("a").unwrap()
    );
    assert!(
        m.independence_pairs.get("b").unwrap().contains(&b_pair),
        "expected b-pair in {:?}",
        m.independence_pairs.get("b").unwrap()
    );
}

#[test]
fn nested_independence_pairs_match_corpus_003() {
    let m = analyze(&nested_tree());
    let a_pair = IndependencePair {
        test_1: row(&[("a", false), ("b", true), ("c", false)], false),
        test_2: row(&[("a", true), ("b", true), ("c", false)], true),
    };
    let b_pair = IndependencePair {
        test_1: row(&[("a", true), ("b", false), ("c", false)], false),
        test_2: row(&[("a", true), ("b", true), ("c", false)], true),
    };
    let c_pair = IndependencePair {
        test_1: row(&[("a", true), ("b", false), ("c", false)], false),
        test_2: row(&[("a", true), ("b", false), ("c", true)], true),
    };
    assert!(
        m.independence_pairs.get("a").unwrap().contains(&a_pair),
        "expected a-pair in {:?}",
        m.independence_pairs.get("a").unwrap()
    );
    assert!(
        m.independence_pairs.get("b").unwrap().contains(&b_pair),
        "expected b-pair in {:?}",
        m.independence_pairs.get("b").unwrap()
    );
    assert!(
        m.independence_pairs.get("c").unwrap().contains(&c_pair),
        "expected c-pair in {:?}",
        m.independence_pairs.get("c").unwrap()
    );
}

fn obs(name: &str, inputs: &[(&str, bool)], result: bool) -> ConditionObservation {
    ConditionObservation {
        test_name: Some(name.to_string()),
        inputs: values(inputs),
        result,
    }
}

#[test]
fn and_with_ff_tt_masking_exercises_a_only() {
    let obs_list = [
        obs("ff", &[("a", false)], false),
        obs("tt", &[("a", true), ("b", true)], true),
    ];
    let r = analyze_with_runtime(&and_tree(), &obs_list, Variant::Masking);
    assert!(matches!(
        r.condition_status.get("a").unwrap(),
        ConditionStatus::Exercised(_)
    ));
    assert!(matches!(
        r.condition_status.get("b").unwrap(),
        ConditionStatus::Unexercised
    ));
}

#[test]
fn and_with_full_corpus_min_set_exercises_both() {
    let obs_list = [
        obs("ft", &[("a", false), ("b", true)], false),
        obs("tf", &[("a", true), ("b", false)], false),
        obs("tt", &[("a", true), ("b", true)], true),
    ];
    let r = analyze_with_runtime(&and_tree(), &obs_list, Variant::Masking);
    assert!(matches!(
        r.condition_status.get("a").unwrap(),
        ConditionStatus::Exercised(_)
    ));
    assert!(matches!(
        r.condition_status.get("b").unwrap(),
        ConditionStatus::Exercised(_)
    ));
}

#[test]
fn and_with_only_a_pair_leaves_b_unexercised() {
    let obs_list = [
        obs("ft", &[("a", false), ("b", true)], false),
        obs("tt", &[("a", true), ("b", true)], true),
    ];
    let r = analyze_with_runtime(&and_tree(), &obs_list, Variant::Masking);
    assert!(matches!(
        r.condition_status.get("a").unwrap(),
        ConditionStatus::Exercised(_)
    ));
    assert!(matches!(
        r.condition_status.get("b").unwrap(),
        ConditionStatus::Unexercised
    ));
}

#[test]
fn or_with_partial_observations_exercises_a_only() {
    let obs_list = [
        obs("ff", &[("a", false), ("b", false)], false),
        obs("tt", &[("a", true)], true),
    ];
    let r = analyze_with_runtime(&or_tree(), &obs_list, Variant::Masking);
    assert!(matches!(
        r.condition_status.get("a").unwrap(),
        ConditionStatus::Exercised(_)
    ));
    assert!(matches!(
        r.condition_status.get("b").unwrap(),
        ConditionStatus::Unexercised
    ));
}

#[test]
fn nested_full_min_set_exercises_all_three() {
    let obs_list = [
        obs("1", &[("a", false), ("b", true), ("c", false)], false),
        obs("2", &[("a", true), ("b", true), ("c", false)], true),
        obs("3", &[("a", true), ("b", false), ("c", false)], false),
        obs("4", &[("a", true), ("b", false), ("c", true)], true),
    ];
    let r = analyze_with_runtime(&nested_tree(), &obs_list, Variant::Masking);
    for c in ["a", "b", "c"] {
        assert!(
            matches!(r.condition_status.get(c).unwrap(), ConditionStatus::Exercised(_)),
            "{c} should be exercised; status={:?}",
            r.condition_status.get(c).unwrap()
        );
    }
}

fn exercises_every_condition(tree: &DecisionTree, set: &MinimumTestSet) -> bool {
    let observations: Vec<ConditionObservation> = set
        .tests
        .iter()
        .map(|row| ConditionObservation {
            test_name: None,
            inputs: row.inputs.clone(),
            result: row.result,
        })
        .collect();
    let analysis = analyze_with_runtime(tree, &observations, Variant::Masking);
    analysis
        .matrix
        .conditions
        .iter()
        .all(|c| matches!(analysis.condition_status.get(c).unwrap(), ConditionStatus::Exercised(_)))
}

#[test]
fn and_minimum_test_set_matches_corpus_001() {
    let tree = and_tree();
    let set = minimum_test_set(&analyze(&tree));
    assert_eq!(set.tests.len(), 3, "set={:?}", set.tests);
    assert!(set.proven_minimal);
    assert!(exercises_every_condition(&tree, &set));
}

#[test]
fn or_minimum_test_set_matches_corpus_002() {
    let tree = or_tree();
    let set = minimum_test_set(&analyze(&tree));
    assert_eq!(set.tests.len(), 3, "set={:?}", set.tests);
    assert!(set.proven_minimal);
    assert!(exercises_every_condition(&tree, &set));
}

#[test]
fn nested_minimum_test_set_matches_corpus_003() {
    let tree = nested_tree();
    let set = minimum_test_set(&analyze(&tree));
    assert_eq!(set.tests.len(), 4, "set={:?}", set.tests);
    assert!(set.proven_minimal);
    assert!(exercises_every_condition(&tree, &set));
}

#[test]
fn minimum_test_set_shares_endpoints_instead_of_taking_each_first_pair() {
    let matrix = analyze(&nested_tree());
    let mut independent: Vec<&NameMap<bool>> = Vec::new();
    for i in 0..matrix.independence_pairs.len() {
        if let Some(p) = matrix.independence_pairs.value_at(i).first() {
            for inputs in [&p.test_1.inputs, &p.test_2.inputs] {
                if !independent.contains(&inputs) {
                    independent.push(inputs);
                }
            }
        }
    }
    let set = minimum_test_set(&matrix);
    assert_eq!(independent.len(), 5, "first-pair union should be 5");
    assert!(
        set.tests.len() < independent.len(),
        "minimum {} should beat first-pair union {}",
        set.tests.len(),
        independent.len()
    );
}

#[test]
fn minimum_test_set_reports_a_pair_for_every_covered_condition() {
    for tree in [and_tree(), or_tree(), nested_tree()] {
        let matrix = analyze(&tree);
        let set = minimum_test_set(&matrix);
        for cond in &matrix.conditions {
            let pair = set.chosen_pairs.get(cond).unwrap();
            for row in [&pair.test_1, &pair.test_2] {
                assert!(
                    set.tests.iter().any(|t| t.inputs == row.inputs),
                    "{cond}: chosen endpoint {:?} absent from the test set",
                    row.inputs
                );
            }
        }
    }
}

#[test]
fn an_exhausted_budget_reports_an_upper_bound_instead_of_claiming_a_minimum() {
    let tree = nested_tree();
    let matrix = analyze(&tree);
    let unproven: Vec<MinimumTestSet> = (1..64)
        .map(|ceiling| minimum_test_set_within(&matrix, ceiling))
        .filter(|set| !set.proven_minimal && !set.tests.is_empty())
        .collect();
    assert!(
        !unproven.is_empty(),
        "no ceiling in 1..64 produced an unproven non-empty set"
    );
    let proven = minimum_test_set(&matrix).tests.len();
    for set in &unproven {
        assert!(set.tests.len() >= proven);
        assert!(exercises_every_condition(&tree, set));
    }
}

#[test]
fn a_zero_budget_returns_nothing_and_claims_nothing() {
    let set = minimum_test_set_within(&analyze(&nested_tree()), 0);
    assert!(set.tests.is_empty());
    assert!(!set.proven_minimal, "an unsearched space is not proven");
}

#[test]
fn the_production_budget_proves_every_corpus_pattern() {
    for tree in [and_tree(), or_tree(), nested_tree()] {
        assert!(minimum_test_set(&analyze(&tree)).proven_minimal);
    }
}

fn function_of_three(mask: u32) -> DecisionTree {
    let leaf = |a: u32, b: u32, c: u32| const_(mask >> (a | (b << 1) | (c << 2)) & 1 == 1);
    let branch_on_c = |a: u32, b: u32| ite("c", leaf(a, b, 1), leaf(a, b, 0));
    let branch_on_b = |a: u32| ite("b", branch_on_c(a, 1), branch_on_c(a, 0));
    DecisionTree {
        decisions: vec![ite("a", branch_on_b(1), branch_on_b(0))],
    }
}

fn brute_force_minimum(matrix: &IndependenceMatrix) -> Option<usize> {
    let rows = matrix.truth_table.len();
    let covered: Vec<&Vec<IndependencePair>> = (0..matrix.independence_pairs.len())
        .map(|i| matrix.independence_pairs.value_at(i))
        .filter(|pairs| !pairs.is_empty())
        .collect();
    (0..(1u32 << rows))
        .filter(|subset| {
            covered.iter().all(|pairs| {
                pairs.iter().any(|pair| {
                    [&pair.test_1, &pair.test_2].iter().all(|row| {
                        matrix
                            .truth_table
                            .iter()
                            .position(|r| r.inputs == row.inputs)
                            .is_some_and(|index| subset >> index & 1 == 1)
                    })
                })
            })
        })
        .map(|subset| subset.count_ones() as usize)
        .min()
}

#[test]
fn branch_and_bound_agrees_with_brute_force_on_every_three_condition_function() {
    let mut checked = 0;
    for mask in 0..256u32 {
        let tree = function_of_three(mask);
        let matrix = analyze(&tree);
        let set = minimum_test_set(&matrix);
        let Some(expected) = brute_force_minimum(&matrix) else {
            continue;
        };
        assert!(set.proven_minimal, "mask {mask:#04x}: not proven");
        assert_eq!(
            set.tests.len(),
            expected,
            "mask {mask:#04x}: branch and bound gave {}, brute force {expected}",
            set.tests.len()
        );
        let all_demonstrable = matrix
            .conditions
            .iter()
            .all(|c| !matrix.independence_pairs.get(c).unwrap().is_empty());
        if all_demonstrable {
            assert!(exercises_every_condition(&tree, &set), "mask {mask:#04x}");
        }
        checked += 1;
    }
    assert!(checked > 200, "only {checked} functions were checkable");
}

#[test]
fn a_decision_with_no_conditions_yields_an_empty_proven_set() {
    let tree = DecisionTree {
        decisions: vec![const_(true)],
    };
    let set = minimum_test_set(&analyze(&tree));
    assert!(set.tests.is_empty());
    assert!(set.chosen_pairs.len() == 0);
    assert!(set.proven_minimal);
}

#[test]
fn unique_cause_subset_of_masking() {
    for tree in [and_tree(), or_tree(), nested_tree()] {
        let masking = analyze_with_variant(&tree, Variant::Masking);
        let unique = analyze_with_variant(&tree, Variant::UniqueCause);
        for i in 0..unique.independence_pairs.len() {
            let c = unique.independence_pairs.name_at(i);
            let unique_pairs = unique.independence_pairs.value_at(i);
            let masking_pairs = masking.independence_pairs.get(c).unwrap();
            for p in unique_pairs {
                assert!(
                    masking_pairs.contains(p),
                    "{c}: unique-cause pair missing from masking set: {p:?}"
                );
            }
        }
    }
}
