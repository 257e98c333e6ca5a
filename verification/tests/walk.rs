use floyd::decision::{decompose, evaluate_partial, Node};
use floyd::mir::parse_text;
use floyd::ordered::NameMap;

fn cond(name: &str) -> Node {
    Node::Condition { name: name.to_string() }
}

fn constant(value: bool) -> Node {
    Node::Const { value }
}

fn ite(c: &str, yes: Node, no: Node) -> Node {
    Node::Ite { cond: c.to_string(), then_branch: Box::new(yes), else_branch: Box::new(no) }
}

fn decisions(text: &str) -> Vec<Node> {
    decompose(&parse_text(text).expect("parses")).decisions
}

fn inputs(values: &[(&str, bool)]) -> NameMap<bool> {
    let mut map = NameMap::new();
    for (name, value) in values {
        map.insert(name.to_string(), *value);
    }
    map
}

const MATCH_THEN_AND: &str = r#"
fn classify(_1: i32, _2: bool) -> bool {
    debug n => _1;
    debug b => _2;
    let mut _0: bool;
    let _3: bool;
    scope 1 {
        debug lit => _3;
    }

    bb0: {
        switchInt(copy _1) -> [0: bb2, otherwise: bb1];
    }

    bb1: {
        _3 = const false;
        goto -> bb3;
    }

    bb2: {
        _3 = const true;
        goto -> bb3;
    }

    bb3: {
        switchInt(copy _3) -> [0: bb5, otherwise: bb4];
    }

    bb4: {
        _0 = copy _2;
        goto -> bb6;
    }

    bb5: {
        _0 = const false;
        goto -> bb6;
    }

    bb6: {
        return;
    }
}
"#;

#[test]
fn intermediate_constant_is_followed_downstream() {
    assert_eq!(decisions(MATCH_THEN_AND), vec![ite("n == 0", cond("b"), constant(false))]);
}

#[test]
fn intermediate_condition_is_followed_downstream() {
    let text = r#"
fn f(_1: bool, _2: bool, _3: bool) -> bool {
    debug a => _1;
    debug b => _2;
    debug c => _3;
    bb0: {
        switchInt(copy _1) -> [0: bb2, otherwise: bb1];
    }
    bb1: {
        _4 = copy _2;
        goto -> bb3;
    }
    bb2: {
        _4 = const false;
        goto -> bb3;
    }
    bb3: {
        switchInt(move _4) -> [0: bb5, otherwise: bb4];
    }
    bb4: {
        _0 = const true;
        return;
    }
    bb5: {
        _0 = copy _3;
        return;
    }
}
"#;
    assert_eq!(
        decisions(text),
        vec![ite("a", ite("b", constant(true), cond("c")), cond("c"))]
    );
}

#[test]
fn graph_with_a_circle_yields_no_decision() {
    let text = r#"
fn f(_1: bool) -> bool {
    debug a => _1;
    bb0: {
        switchInt(copy _1) -> [0: bb0, otherwise: bb1];
    }
    bb1: {
        _0 = const true;
        return;
    }
}
"#;
    assert!(decisions(text).is_empty());
}

#[test]
fn exhaustive_match_ends_in_its_last_arm() {
    let text = r#"
fn f(_1: u8) -> bool {
    debug n => _1;
    bb0: {
        switchInt(copy _1) -> [7: bb1, 340282366920938463463374607431768211455: bb2, otherwise: bb3];
    }
    bb1: {
        _0 = const true;
        return;
    }
    bb2: {
        _0 = const false;
        return;
    }
    bb3: {
        unreachable;
    }
}
"#;
    assert_eq!(decisions(text), vec![ite("n == 7", constant(true), constant(false))]);
}

#[test]
fn local_without_a_name_is_shown_by_its_number() {
    let text = r#"
fn f(_1: i64) -> bool {
    bb0: {
        switchInt(copy _1) -> [340282366920938463463374607431768211455: bb1, otherwise: bb2];
    }
    bb1: {
        _0 = const true;
        return;
    }
    bb2: {
        _0 = const false;
        return;
    }
}
"#;
    assert_eq!(
        decisions(text),
        vec![ite(
            "_1 == 340282366920938463463374607431768211455",
            constant(true),
            constant(false)
        )]
    );
}

#[test]
fn closure_body_is_named_after_its_capture() {
    let text = r#"
fn outer::{closure#0}(_1: &{closure@src.rs:1:1: 1:2}, _2: bool) -> bool {
    debug x => _2;
    debug b => (*((*_1).0: &bool));
    let mut _0: bool;
    let mut _3: &bool;
    bb0: {
        switchInt(copy _2) -> [0: bb2, otherwise: bb1];
    }
    bb1: {
        _3 = no_retag copy ((*_1).0: &bool);
        _0 = copy (*_3);
        goto -> bb3;
    }
    bb2: {
        _0 = const false;
        goto -> bb3;
    }
    bb3: {
        return;
    }
}
"#;
    assert_eq!(decisions(text), vec![ite("x", cond("b"), constant(false))]);
}

#[test]
fn function_without_blocks_contributes_nothing() {
    let text = "fn f() -> bool {\n}\nfn g() -> bool {\n    bb0: {\n        _0 = const true;\n    }\n}\n";
    assert_eq!(decisions(text), vec![constant(true)]);
}

#[test]
fn evaluation_needs_only_the_path_it_takes() {
    let and = ite("a", cond("b"), constant(false));
    assert_eq!(evaluate_partial(&and, &inputs(&[("a", false)])), Some(false));
    assert_eq!(evaluate_partial(&and, &inputs(&[("a", false), ("b", true)])), Some(false));
    assert_eq!(evaluate_partial(&and, &inputs(&[("a", true)])), None);
    assert_eq!(evaluate_partial(&and, &inputs(&[("b", true)])), None);
    assert_eq!(evaluate_partial(&and, &inputs(&[("a", true), ("b", true)])), Some(true));
    assert_eq!(evaluate_partial(&constant(true), &inputs(&[])), Some(true));
}

#[test]
fn copies_of_trees_are_equal() {
    let and = ite("a", cond("b"), constant(false));
    assert_eq!(and.duplicate(), and);
    assert_eq!(and.clone(), and);
}

const LET_THEN_ACT: &str = r#"
fn f(_1: bool, _2: bool) -> () {
    debug a => _1;
    debug b => _2;
    bb0: {
        switchInt(copy _1) -> [0: bb1, otherwise: bb2];
    }
    bb1: {
        _3 = const false;
        goto -> bb3;
    }
    bb2: {
        _3 = copy _2;
        goto -> bb3;
    }
    bb3: {
        switchInt(copy _3) -> [0: bb6, otherwise: bb4];
    }
    bb4: {
        _4 = act() -> [return: bb5, unwind continue];
    }
    bb5: {
        return;
    }
    bb6: {
        return;
    }
}
"#;

#[test]
fn intermediate_value_stands_where_it_decides_no_decision() {
    assert_eq!(decisions(LET_THEN_ACT), vec![ite("a", cond("b"), constant(false))]);
}

#[test]
fn intermediate_values_are_followed_all_or_none() {
    let text = LET_THEN_ACT.replace("    bb6: {\n        return;", "    bb6: {\n        _0 = copy _1;");
    assert_eq!(decisions(&text), vec![ite("a", cond("b"), constant(false))]);
}

fn call_then_match(function: &str) -> String {
    format!(
        "fn f(_1: Option<bool>, _2: bool) -> Option<bool> {{
    debug b => _2;
    bb0: {{
        _3 = {function}(copy _1) -> [return: bb1, unwind continue];
    }}
    bb1: {{
        _4 = discriminant(_3);
        switchInt(move _4) -> [0: bb3, 1: bb2, otherwise: bb4];
    }}
    bb2: {{
        return;
    }}
    bb3: {{
        _5 = copy ((_3 as Continue).0: bool);
        _0 = copy _2;
        return;
    }}
    bb4: {{
        unreachable;
    }}
}}
"
    )
}

#[test]
fn only_calls_of_try_branch_are_passed_over() {
    for function in [
        "<Option<bool> as Try>::branch",
        "<Result<bool, ()> as std::ops::Try>::branch",
        "Try::branch",
    ] {
        assert_eq!(decisions(&call_then_match(function)), vec![cond("b")], "{function}");
    }
    for function in ["step", "branch", "<T as Retry>::step"] {
        assert!(decisions(&call_then_match(function)).is_empty(), "{function}");
    }
}

#[test]
fn walk_that_comes_back_yields_no_decision() {
    let text = r#"
fn f(_1: bool, _2: bool) -> bool {
    debug a => _1;
    debug b => _2;
    bb0: {
        switchInt(copy _1) -> [0: bb2, otherwise: bb1];
    }
    bb1: {
        switchInt(copy _2) -> [0: bb0, otherwise: bb2];
    }
    bb2: {
        _0 = const true;
        return;
    }
}
"#;
    assert!(decisions(text).is_empty());
}

#[test]
fn return_place_is_no_intermediate_value() {
    let text = r#"
fn f(_1: bool, _2: bool) -> bool {
    debug a => _1;
    debug b => _2;
    let mut _0: bool;

    bb0: {
        switchInt(copy _1) -> [0: bb2, otherwise: bb1];
    }

    bb1: {
        _0 = copy _2;
        goto -> bb3;
    }

    bb2: {
        _0 = const false;
        goto -> bb3;
    }

    bb3: {
        switchInt(copy _0) -> [0: bb5, otherwise: bb4];
    }

    bb4: {
        _0 = const true;
        return;
    }

    bb5: {
        _0 = const false;
        return;
    }
}
"#;
    assert_eq!(decisions(text), vec![ite("a", cond("b"), constant(false))]);
}

#[test]
fn decision_foretells_what_the_switches_do() {
    let tree = decisions(MATCH_THEN_AND).remove(0);
    for n in [0, 1, 7] {
        for b in [false, true] {
            let told = inputs(&[("n == 0", n == 0), ("b", b)]);
            let goes_on = match n {
                0 => true,
                _ => false,
            };
            assert_eq!(evaluate_partial(&tree, &told), Some(goes_on && b));
        }
    }
}
