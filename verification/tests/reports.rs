use floyd::decision::Node;
use floyd::masking::{
    analyze, analyze_with_runtime, ConditionObservation, IndependenceMatrix, TruthTableRow, Variant,
};
use floyd::ordered::NameMap;
use floyd::report::{
    analysis_is_complete, exercised_count, format_inputs, matrix_is_complete, project_report,
    runtime_junit, runtime_report, static_report, xml_escape,
};
use floyd::DecisionTree;

fn and_tree(first: &str, second: &str) -> DecisionTree {
    DecisionTree {
        decisions: vec![Node::Ite {
            cond: first.to_string(),
            then_branch: Box::new(Node::Condition { name: second.to_string() }),
            else_branch: Box::new(Node::Const { value: false }),
        }],
    }
}

fn observation(name: Option<&str>, values: &[(&str, bool)], result: bool) -> ConditionObservation {
    let mut inputs = NameMap::new();
    for (n, v) in values {
        inputs.insert(n.to_string(), *v);
    }
    ConditionObservation { test_name: name.map(String::from), inputs, result }
}

#[test]
fn static_report_of_a_conjunction() {
    let matrix = analyze(&and_tree("a", "b"));
    assert!(matrix_is_complete(&matrix));
    let expected = "floyd  static MC/DC analysis of x.rs

Decisions recovered: 1
Conditions:          a, b

Truth table (4 rows):
      a   b  | result
    ---------+-------
      F   F  |   F
      T   F  |   F
      F   T  |   F
      T   T  |   T

Independence pairs (Masking variant):
  a: (a=F, b=T) -> F   vs   (a=T, b=T) -> T
  b: (a=T, b=F) -> F   vs   (a=T, b=T) -> T

Minimum test set: 3 test(s)
  (a=T, b=F) -> F
  (a=F, b=T) -> F
  (a=T, b=T) -> T
";
    assert_eq!(static_report("x.rs", 1, &matrix), expected);
}

#[test]
fn static_report_without_a_decision() {
    let matrix = analyze(&DecisionTree { decisions: Vec::new() });
    let expected = "floyd  static MC/DC analysis of x.rs

Decisions recovered: 0

Truth table (0 rows):
      | result
    --+-------

Independence pairs (Masking variant):

Minimum test set: 0 test(s)
";
    assert_eq!(static_report("x.rs", 0, &matrix), expected);
}

#[test]
fn condition_without_a_pair_is_reported_as_such() {
    let tree = DecisionTree {
        decisions: vec![Node::Ite {
            cond: "a".to_string(),
            then_branch: Box::new(Node::Const { value: true }),
            else_branch: Box::new(Node::Const { value: true }),
        }],
    };
    let text = static_report("x.rs", 1, &analyze(&tree));
    assert!(text.contains("  a: no valid independence pair found\n"));
    let analysis = analyze_with_runtime(&tree, &[], Variant::Masking);
    assert!(analysis_is_complete(&analysis));
    let text = runtime_report("x.rs", 0, &[], &analysis, "0");
    assert!(text.contains("  ✗ a: UNEXERCISED (no valid pair available)\n"));
    let xml = runtime_junit("x.rs", &analysis);
    assert!(xml.contains("no valid independence pair available for this condition"));
}

#[test]
fn runtime_report_of_a_conjunction() {
    let observations = [
        observation(Some("ff"), &[("a", false)], false),
        observation(None, &[("a", true), ("b", true)], true),
    ];
    let analysis = analyze_with_runtime(&and_tree("a", "b"), &observations, Variant::Masking);
    assert_eq!(exercised_count(&analysis), 1);
    let body = "Tests discovered: 3
Observations:     2
Conditions:       a, b

Per-test observations:
  ff                              a=F  b=-  result=F
  ?                               a=T  b=T  result=T

Per-condition MC/DC status:
  ✓ a: EXERCISED  via (a=F, b=T) -> F   vs   (a=T, b=T) -> T
  ✗ b: UNEXERCISED — needs a test exercising (a=T, b=F) or (a=T, b=T)

MC/DC coverage: 1 of 2 conditions exercised (50%)
";
    assert_eq!(
        runtime_report("x.rs", 3, &observations, &analysis, "50"),
        format!("floyd  runtime MC/DC analysis of x.rs\n\n{body}")
    );
    assert_eq!(
        project_report("Cargo.toml", 2, 3, &observations, &analysis, "50"),
        format!("floyd  runtime MC/DC analysis of Cargo.toml\n\nTest targets: 2\n{body}")
    );
}

#[test]
fn runtime_report_without_a_decision() {
    let tree = DecisionTree { decisions: Vec::new() };
    let analysis = analyze_with_runtime(&tree, &[], Variant::Masking);
    assert_eq!(
        runtime_report("x.rs", 0, &[], &analysis, "0"),
        "floyd  runtime MC/DC analysis of x.rs

Tests discovered: 0
Observations:     0
Conditions:       (none — no decision recovered)

Per-condition MC/DC status:
"
    );
}

#[test]
fn junit_report_has_one_case_per_condition() {
    let observations = [
        observation(Some("ff"), &[("speed > 50", false)], false),
        observation(Some("tt"), &[("speed > 50", true), ("brake", true)], true),
    ];
    let tree = and_tree("speed > 50", "brake");
    let analysis = analyze_with_runtime(&tree, &observations, Variant::Masking);
    let expected = r#"<?xml version="1.0" encoding="UTF-8"?>
<testsuites name="floyd" tests="2" failures="1">
  <testsuite name="a&amp;b.rs" tests="2" failures="1">
    <testcase name="brake" classname="floyd.mcdc">
      <failure message="needs a test exercising (brake=F, speed &gt; 50=T) -&gt; F or (brake=T, speed &gt; 50=T) -&gt; T" type="UnexercisedCondition"/>
    </testcase>
    <testcase name="speed &gt; 50" classname="floyd.mcdc"/>
  </testsuite>
</testsuites>
"#;
    assert_eq!(runtime_junit("a&b.rs", &analysis), expected);
}

#[test]
fn escaping_leaves_no_special_character() {
    let escaped = xml_escape("<a href=\"x\">'&amp;'</a>");
    assert_eq!(
        escaped,
        "&lt;a href=&quot;x&quot;&gt;&apos;&amp;amp;&apos;&lt;/a&gt;"
    );
    assert!(!escaped.contains(['<', '>', '"', '\'']));
    assert_eq!(xml_escape("plain text"), "plain text");
}

#[test]
fn rows_that_leave_a_condition_out_are_found() {
    let mut inputs = NameMap::new();
    inputs.insert("a".to_string(), true);
    let row = TruthTableRow { inputs, result: true };
    assert_eq!(format_inputs(&vec!["a".to_string()], &row), "a=T");
    let matrix = IndependenceMatrix {
        variant: Variant::Masking,
        conditions: vec!["a".to_string(), "b".to_string()],
        truth_table: vec![row],
        independence_pairs: NameMap::new(),
    };
    assert!(!matrix_is_complete(&matrix));
}
