use floyd::correlate::{correlate, observation_from_coverage, symbol_matches};
use floyd::corpus::{
    alarm_hysteresis, closure_with_capture, command_validation, enum_match_no_binding,
    if_let_some, inline_comparison, match_int_literal, match_with_downstream_and, nested_and_or,
    not_and, safety_interlock, simple_and, simple_or, try_with_and,
};
use floyd::decision::{evaluate_partial, Node};
use floyd::masking::{
    analyze, analyze_with_runtime, analyze_with_variant, collect_conditions, is_enumerable,
    minimum_test_set, minimum_test_set_within, ConditionObservation, ConditionStatus, Variant,
    SEARCH_BUDGET,
};
use floyd::mir::{parse_text, SourceSpan};
use floyd::ordered::{same_values, NameMap};
use floyd::profile::{Branch, CoverageReport, FunctionCoverage};
use floyd::{DecisionTree, Mir};

fn cond(name: &str) -> Node {
    Node::Condition { name: name.to_string() }
}

fn constant(value: bool) -> Node {
    Node::Const { value }
}

fn ite(c: &str, yes: Node, no: Node) -> Node {
    Node::Ite { cond: c.to_string(), then_branch: Box::new(yes), else_branch: Box::new(no) }
}

fn majority() -> DecisionTree {
    DecisionTree {
        decisions: vec![ite(
            "a",
            ite("b", constant(true), cond("c")),
            ite("b", cond("c"), constant(false)),
        )],
    }
}

fn map(values: &[(&str, bool)]) -> NameMap<bool> {
    let mut out = NameMap::new();
    for (n, v) in values {
        out.insert(n.to_string(), *v);
    }
    out
}

#[test]
fn names_are_kept_in_order_and_once() {
    let m = map(&[("b", true), ("a", false), ("c", true), ("a", true)]);
    assert_eq!(m.len(), 3);
    assert_eq!(m.name_at(0), "a");
    assert_eq!(m.name_at(1), "b");
    assert_eq!(m.name_at(2), "c");
    assert_eq!(m.get("a"), Some(&true));
    assert_eq!(m.get("d"), None);
    assert!(m.contains_key("c"));
    assert!(same_values(&m, &map(&[("c", true), ("b", true), ("a", true)])));
    assert!(!same_values(&m, &map(&[("c", true), ("b", true), ("a", false)])));
    assert!(!same_values(&m, &map(&[("c", true), ("b", true), ("d", true)])));
    assert!(!same_values(&m, &map(&[("c", true)])));
    assert_eq!(m.duplicate(), m);
    assert_eq!(m.clone(), m);
}

#[test]
fn every_assignment_is_the_input_of_one_row() {
    let tree = majority();
    let matrix = analyze(&tree);
    assert_eq!(matrix.conditions, vec!["a", "b", "c"]);
    assert_eq!(matrix.truth_table.len(), 8);
    for bits in 0..8u32 {
        let inputs = map(&[("a", bits & 1 == 1), ("b", bits & 2 == 2), ("c", bits & 4 == 4)]);
        let rows: Vec<_> = matrix.truth_table.iter().filter(|r| r.inputs == inputs).collect();
        assert_eq!(rows.len(), 1);
        assert_eq!(evaluate_partial(&tree.decisions[0], &inputs), Some(rows[0].result));
    }
}

#[test]
fn listed_pairs_differ_in_condition_and_outcome() {
    for variant in [Variant::Masking, Variant::UniqueCause] {
        let matrix = analyze_with_variant(&majority(), variant);
        assert_eq!(matrix.variant, variant);
        for c in &matrix.conditions {
            let pairs = matrix.independence_pairs.get(c).expect("listed");
            assert!(!pairs.is_empty());
            for p in pairs {
                assert_ne!(p.test_1.inputs.get(c), p.test_2.inputs.get(c));
                assert_ne!(p.test_1.result, p.test_2.result);
                assert!(matrix.truth_table.contains(&p.test_1));
                assert!(matrix.truth_table.contains(&p.test_2));
                if variant == Variant::UniqueCause {
                    for other in matrix.conditions.iter().filter(|o| *o != c) {
                        assert_eq!(p.test_1.inputs.get(other), p.test_2.inputs.get(other));
                    }
                }
            }
        }
    }
}

#[test]
fn masking_admits_pairs_that_unique_cause_does_not() {
    let tree = DecisionTree { decisions: vec![ite("a", ite("b", constant(true), cond("c")), cond("c"))] };
    let masking = analyze_with_variant(&tree, Variant::Masking);
    let unique = analyze_with_variant(&tree, Variant::UniqueCause);
    assert!(masking.independence_pairs.get("c").unwrap().len() > unique.independence_pairs.get("c").unwrap().len());
}

fn runs(tree: &DecisionTree, budget: usize) -> Vec<ConditionObservation> {
    minimum_test_set_within(&analyze(tree), budget)
        .tests
        .iter()
        .map(|t| ConditionObservation { test_name: None, inputs: t.inputs.duplicate(), result: t.result })
        .collect()
}

#[test]
fn minimum_set_of_the_majority_demonstrates_every_condition() {
    let tree = majority();
    let set = minimum_test_set(&analyze(&tree));
    assert!(set.proven_minimal);
    assert_eq!(set.tests.len(), 2);
    let analysis = analyze_with_runtime(&tree, &runs(&tree, SEARCH_BUDGET), Variant::Masking);
    for c in ["a", "b", "c"] {
        assert!(matches!(analysis.condition_status.get(c), Some(ConditionStatus::Exercised(_))));
    }
}

#[test]
fn more_nodes_than_conditions_find_a_set() {
    let tree = majority();
    let matrix = analyze(&tree);
    assert!(minimum_test_set_within(&matrix, 3).tests.is_empty());
    let set = minimum_test_set_within(&matrix, 4);
    assert!(!set.tests.is_empty());
    assert_eq!(set.chosen_pairs.len(), 3);
}

#[test]
fn more_evidence_never_takes_a_demonstration_back() {
    let tree = majority();
    let mut observations = runs(&tree, SEARCH_BUDGET);
    observations.push(ConditionObservation { test_name: None, inputs: map(&[("a", true)]), result: false });
    let analysis = analyze_with_runtime(&tree, &observations, Variant::Masking);
    for c in ["a", "b", "c"] {
        assert!(matches!(analysis.condition_status.get(c), Some(ConditionStatus::Exercised(_))));
    }
}

#[test]
fn search_budget_is_two_to_the_twentieth() {
    assert_eq!(SEARCH_BUDGET, 1 << 20);
}

#[test]
fn decisions_with_many_conditions_are_not_enumerable() {
    let mut node = constant(true);
    for i in 0..64 {
        node = ite(&format!("c{i:02}"), node, constant(false));
    }
    assert_eq!(collect_conditions(&node).len(), 64);
    assert!(!is_enumerable(&DecisionTree { decisions: vec![node] }));
    assert!(is_enumerable(&majority()));
    assert!(is_enumerable(&DecisionTree { decisions: Vec::new() }));
}

const AND: &str = r#"
fn handle(_1: bool, _2: bool) -> bool {
    debug a => _1;
    debug b => _2;
    bb0: {
        switchInt(copy _1) -> [0: bb2, otherwise: bb1]; // scope 0 at x.rs:2:5: 2:6
    }
    bb1: {
        _0 = copy _2; // scope 0 at x.rs:2:10: 2:11
        _0 = copy _1; // scope 0 at x.rs:9:9: 9:9
        return;
    }
    bb2: {
        _0 = const false;
        return;
    }
}
"#;

fn branch(col: u32, true_count: u64, false_count: u64) -> Branch {
    Branch {
        span: SourceSpan {
            file: "x.rs".to_string(),
            start_line: 2,
            start_col: col,
            end_line: 2,
            end_col: col + 1,
        },
        true_count,
        false_count,
        kind: Branch::KIND_BRANCH,
    }
}

fn report(name: &str, branches: Vec<Branch>) -> CoverageReport {
    CoverageReport {
        functions: vec![FunctionCoverage {
            name: name.to_string(),
            count: 1,
            filenames: vec!["x.rs".to_string()],
            branches,
        }],
    }
}

fn and_decision() -> (Mir, DecisionTree) {
    let mir = parse_text(AND).expect("parses");
    let tree = DecisionTree { decisions: vec![ite("a", cond("b"), constant(false))] };
    (mir, tree)
}

#[test]
fn symbols_match_by_name_tail_or_segment() {
    assert!(symbol_matches("decide", "decide"));
    assert!(symbol_matches("krate::decide", "decide"));
    assert!(symbol_matches("krate[0123456789abcdef]::m::decide", "m::decide"));
    assert!(symbol_matches("krate::decide::h0123456789abcdef", "decide"));
    assert!(symbol_matches("krate::handle", "handle"));
    assert!(symbol_matches("krate::helpers::decide", "decide"));
    assert!(symbol_matches("foo::decide::h0123456789abcdef.exit", "decide"));
    assert!(symbol_matches("foo::decide::h0123456789ABCDEF.llvm.42", "decide"));
    assert!(symbol_matches("foo::decide::h0123456789abcdef0", "decide"));
    assert!(symbol_matches("krate::decide::h0123", "decide"));
    assert!(symbol_matches("krate::decide::h0123.llvm.42", "decide"));
    assert!(symbol_matches("krate::head", "head"));
    assert!(symbol_matches("krate::h", "h"));
    assert!(!symbol_matches("krate::undecide", "decide"));
    assert!(!symbol_matches("krate::decide::handle", "decide"));
    assert!(!symbol_matches("krate::decide::h0123x", "decide"));
    assert!(!symbol_matches("krate::decide::h", "decide"));
    assert!(!symbol_matches("krate::other", "decide"));
}

#[test]
fn mangled_symbols_are_read() {
    let (mir, _) = and_decision();
    let branches = || vec![branch(5, 1, 0), branch(10, 0, 1)];
    for symbol in [
        "handle",
        "_ZN5krate6handle17h0123456789abcdefE",
        "_RNvCsb6BSQ92hH2b_19floyd_runtime_scout6handle",
    ] {
        let map = correlate(&mir, &report(symbol, branches()));
        assert_eq!(map.functions[0].conditions.len(), 2, "{symbol}");
        let a = map.functions[0].conditions.get("a").expect("a");
        assert_eq!((a.true_count, a.false_count, a.span.start_col), (1, 0, 5));
    }
    let map = correlate(&mir, &report("_ZN5krate5other17h0123456789abcdefE", branches()));
    assert_eq!(map.functions.len(), 1);
    assert_eq!(map.functions[0].name, "handle");
    assert_eq!(map.functions[0].conditions.len(), 0);
}

#[test]
fn observations_hold_what_was_evaluated() {
    let (mir, tree) = and_decision();
    let name = || Some("t".to_string());
    let o = observation_from_coverage(name(), &mir, &report("handle", vec![branch(5, 0, 1), branch(10, 0, 0)]), &tree)
        .expect("settled");
    assert_eq!(o.test_name.as_deref(), Some("t"));
    assert_eq!(o.inputs, map(&[("a", false)]));
    assert!(!o.result);
    let o = observation_from_coverage(name(), &mir, &report("handle", vec![branch(5, 2, 1), branch(10, 1, 0)]), &tree)
        .expect("settled");
    assert_eq!(o.inputs, map(&[("a", true), ("b", true)]));
    assert!(o.result);
    let unsettled = report("handle", vec![branch(5, 1, 0), branch(10, 0, 0)]);
    assert!(observation_from_coverage(name(), &mir, &unsettled, &tree).is_none());
    let none = DecisionTree { decisions: Vec::new() };
    assert!(observation_from_coverage(None, &mir, &unsettled, &none).is_none());
}

#[test]
fn corpus_functions_compute_their_decisions() {
    for a in [false, true] {
        for b in [false, true] {
            assert_eq!(simple_and::decide(a, b), a && b);
            assert_eq!(simple_or::decide(a, b), a || b);
            assert_eq!(not_and::decide(a, b), !a && b);
            assert_eq!(closure_with_capture::outer(a, b), a && b);
            assert_eq!(try_with_and::decide(Some(a), b), Some(a && b));
            assert_eq!(command_validation::accept_command(Some(a), b), a && b);
            assert_eq!(inline_comparison::decide(if a { 51 } else { 50 }, b), a && b);
            assert_eq!(match_with_downstream_and::classify(if a { 0 } else { 7 }, b), a && b);
            for c in [false, true] {
                assert_eq!(nested_and_or::decide(a, b, c), (a && b) || c);
                assert_eq!(safety_interlock::allow_actuation(a, b, c), a && b && c);
                assert_eq!(alarm_hysteresis::raise_alarm(a, b, c), a || (b && c));
            }
        }
        assert_eq!(if_let_some::decide(Some(a)), a);
    }
    assert!(!if_let_some::decide(None));
    assert_eq!(try_with_and::decide(None, true), None);
    assert!(!command_validation::accept_command(None, true));
    assert!(!match_int_literal::decide(0));
    assert!(match_int_literal::decide(-1));
    assert!(enum_match_no_binding::is_active(enum_match_no_binding::Mode::On));
    assert!(!enum_match_no_binding::is_active(enum_match_no_binding::Mode::Off));
}

#[test]
fn recovered_tree_computes_what_the_blocks_compute() {
    let (mir, tree) = and_decision();
    let found = floyd::decision::decompose(&mir);
    assert_eq!(found.decisions.len(), 1);
    for a in [false, true] {
        for b in [false, true] {
            let inputs = map(&[("a", a), ("b", b)]);
            assert_eq!(evaluate_partial(&tree.decisions[0], &inputs), Some(simple_and::decide(a, b)));
            assert_eq!(evaluate_partial(&found.decisions[0], &inputs), Some(simple_and::decide(a, b)));
        }
    }
}

#[test]
fn larger_budgets_keep_what_is_proven_and_worsen_nothing() {
    let matrix = analyze(&DecisionTree {
        decisions: vec![ite("a", ite("b", constant(true), cond("c")), cond("c"))],
    });
    let sets: Vec<_> = (0..64).map(|b| minimum_test_set_within(&matrix, b)).collect();
    for small in 0..sets.len() {
        for large in small..sets.len() {
            let (r1, r2) = (&sets[small], &sets[large]);
            if r1.proven_minimal {
                assert!(r2.proven_minimal);
                assert_eq!(r1.tests, r2.tests);
                assert_eq!(r1.chosen_pairs, r2.chosen_pairs);
            }
            if !r1.tests.is_empty() {
                assert!(!r2.tests.is_empty());
                assert!(r2.tests.len() <= r1.tests.len());
            }
        }
    }
}

#[test]
fn every_test_ends_a_chosen_pair() {
    for tree in [majority(), and_decision().1] {
        let set = minimum_test_set(&analyze(&tree));
        assert!(set.proven_minimal);
        for t in &set.tests {
            assert!((0..set.chosen_pairs.len()).any(|i| {
                let pair = set.chosen_pairs.value_at(i);
                pair.test_1 == *t || pair.test_2 == *t
            }));
        }
    }
}

#[test]
fn unique_cause_pairs_are_the_agreeing_masking_pairs() {
    let nested = DecisionTree {
        decisions: vec![ite("a", constant(true), ite("b", cond("c"), constant(false)))],
    };
    for tree in [majority(), nested] {
        let masking = analyze_with_variant(&tree, Variant::Masking);
        let unique = analyze_with_variant(&tree, Variant::UniqueCause);
        for name in ["a", "b", "c"] {
            let agreeing: Vec<_> = masking
                .independence_pairs
                .get(name)
                .expect("listed")
                .iter()
                .filter(|p| {
                    ["a", "b", "c"].iter().all(|o| {
                        *o == name || p.test_1.inputs.get(o) == p.test_2.inputs.get(o)
                    })
                })
                .collect();
            let listed: Vec<_> = unique.independence_pairs.get(name).expect("listed").iter().collect();
            assert_eq!(format!("{listed:?}"), format!("{agreeing:?}"));
            assert!(!listed.is_empty());
        }
    }
}

#[test]
fn equal_functions_have_equal_matrices() {
    let tree = |n: Node| DecisionTree { decisions: vec![n] };
    let a_first = tree(ite("a", cond("b"), constant(false)));
    let b_first = tree(ite("b", ite("a", constant(true), constant(false)), constant(false)));
    let or = tree(ite("a", constant(true), cond("b")));
    for variant in [Variant::Masking, Variant::UniqueCause] {
        let of = |t: &DecisionTree| format!("{:?}", analyze_with_variant(t, variant));
        assert_eq!(of(&a_first), of(&b_first));
        assert_ne!(of(&a_first), of(&or));
    }
}
