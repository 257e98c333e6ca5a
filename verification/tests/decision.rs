use floyd::decision::{decompose, Node};
use floyd::mir;
use floyd::Mir;


const DECIDE_AND_MIR: &str = r#"
fn decide(_1: bool, _2: bool) -> bool {
    debug a => _1;
    debug b => _2;
    let mut _0: bool;

    bb0: {
        switchInt(copy _1) -> [0: bb2, otherwise: bb1];
    }

    bb1: {
        _0 = copy _2;
        goto -> bb3;
    }

    bb2: {
        _0 = const false;
        goto -> bb3;
    }

    bb3: {
        return;
    }
}
"#;

const DECIDE_OR_MIR: &str = r#"
fn decide(_1: bool, _2: bool) -> bool {
    debug a => _1;
    debug b => _2;
    let mut _0: bool;

    bb0: {
        switchInt(copy _1) -> [0: bb2, otherwise: bb1];
    }

    bb1: {
        _0 = const true;
        goto -> bb3;
    }

    bb2: {
        _0 = copy _2;
        goto -> bb3;
    }

    bb3: {
        return;
    }
}
"#;

const DECIDE_NOT_AND_MIR: &str = r#"
fn decide(_1: bool, _2: bool) -> bool {
    debug a => _1;
    debug b => _2;
    let mut _0: bool;

    bb0: {
        switchInt(copy _1) -> [0: bb1, otherwise: bb2];
    }

    bb1: {
        _0 = copy _2;
        goto -> bb3;
    }

    bb2: {
        _0 = const false;
        goto -> bb3;
    }

    bb3: {
        return;
    }
}
"#;

const DECIDE_NESTED_AND_OR_MIR: &str = r#"
fn decide(_1: bool, _2: bool, _3: bool) -> bool {
    debug a => _1;
    debug b => _2;
    debug c => _3;
    let mut _0: bool;

    bb0: {
        switchInt(copy _1) -> [0: bb3, otherwise: bb1];
    }

    bb1: {
        switchInt(copy _2) -> [0: bb3, otherwise: bb2];
    }

    bb2: {
        _0 = const true;
        goto -> bb4;
    }

    bb3: {
        _0 = copy _3;
        goto -> bb4;
    }

    bb4: {
        return;
    }
}
"#;

fn cond(name: &str) -> Node {
    Node::Condition {
        name: name.to_string(),
    }
}

fn const_(value: bool) -> Node {
    Node::Const { value }
}

fn ite(c: &str, t: Node, e: Node) -> Node {
    Node::Ite {
        cond: c.to_string(),
        then_branch: Box::new(t),
        else_branch: Box::new(e),
    }
}

#[test]
fn decompose_empty_mir_yields_empty_tree() {
    let mir = Mir::default();
    let tree = decompose(&mir);
    assert!(tree.decisions.is_empty());
}

#[test]
fn decompose_recognises_and_pattern_as_ite() {
    let mir = mir::parse_text(DECIDE_AND_MIR).expect("MIR parses");
    let tree = decompose(&mir);
    assert_eq!(tree.decisions.len(), 1);
    assert_eq!(tree.decisions[0], ite("a", cond("b"), const_(false)));
}

#[test]
fn decompose_recognises_or_pattern_as_ite() {
    let mir = mir::parse_text(DECIDE_OR_MIR).expect("MIR parses");
    let tree = decompose(&mir);
    assert_eq!(tree.decisions.len(), 1);
    assert_eq!(tree.decisions[0], ite("a", const_(true), cond("b")));
}

#[test]
fn decompose_recognises_not_and_pattern_as_ite() {
    let mir = mir::parse_text(DECIDE_NOT_AND_MIR).expect("MIR parses");
    let tree = decompose(&mir);
    assert_eq!(tree.decisions.len(), 1);
    assert_eq!(tree.decisions[0], ite("a", const_(false), cond("b")));
}

const DECIDE_IF_LET_SIMPLE_MIR: &str = r#"
fn decide(_1: Option<bool>) -> bool {
    debug opt => _1;
    let mut _0: bool;
    let mut _2: isize;
    scope 1 {
        debug x => _3;
        let _3: bool;
    }

    bb0: {
        _2 = discriminant(_1);
        switchInt(move _2) -> [1: bb1, 0: bb2, otherwise: bb4];
    }

    bb1: {
        _3 = copy ((_1 as Some).0: bool);
        _0 = copy _3;
        goto -> bb3;
    }

    bb2: {
        _0 = const false;
        goto -> bb3;
    }

    bb3: {
        return;
    }

    bb4: {
        unreachable;
    }
}
"#;

const DECIDE_IF_LET_WITH_AND_MIR: &str = r#"
fn decide(_1: Option<bool>, _2: bool) -> bool {
    debug opt => _1;
    debug b => _2;
    let mut _0: bool;
    let mut _3: isize;
    scope 1 {
        debug x => _4;
        let _4: bool;
    }

    bb0: {
        _3 = discriminant(_1);
        switchInt(move _3) -> [1: bb1, 0: bb4, otherwise: bb6];
    }

    bb1: {
        _4 = copy ((_1 as Some).0: bool);
        switchInt(copy _4) -> [0: bb3, otherwise: bb2];
    }

    bb2: {
        _0 = copy _2;
        goto -> bb5;
    }

    bb3: {
        _0 = const false;
        goto -> bb5;
    }

    bb4: {
        _0 = const false;
        goto -> bb5;
    }

    bb5: {
        return;
    }

    bb6: {
        unreachable;
    }
}
"#;

const DECIDE_IF_LET_RESULT_MIR: &str = r#"
fn decide(_1: Result<bool, ()>) -> bool {
    debug r => _1;
    let mut _0: bool;
    let mut _2: isize;
    scope 1 {
        debug v => _3;
        let _3: bool;
    }

    bb0: {
        _2 = discriminant(_1);
        switchInt(move _2) -> [0: bb1, 1: bb2, otherwise: bb4];
    }

    bb1: {
        _3 = copy ((_1 as Ok).0: bool);
        _0 = copy _3;
        goto -> bb3;
    }

    bb2: {
        _0 = const false;
        goto -> bb3;
    }

    bb3: {
        return;
    }

    bb4: {
        unreachable;
    }
}
"#;

const DECIDE_IF_LET_THREE_VARIANT_MIR: &str = r#"
fn decide(_1: Three) -> bool {
    debug t => _1;
    let mut _0: bool;
    let mut _2: isize;
    scope 1 {
        debug v => _3;
        let _3: bool;
    }

    bb0: {
        _2 = discriminant(_1);
        switchInt(move _2) -> [0: bb1, otherwise: bb2];
    }

    bb1: {
        _3 = copy ((_1 as A).0: bool);
        _0 = copy _3;
        goto -> bb3;
    }

    bb2: {
        _0 = const false;
        goto -> bb3;
    }

    bb3: {
        return;
    }
}
"#;

const DECIDE_IF_LET_NO_BINDING_MIR: &str = r#"
fn decide(_1: Option<bool>) -> bool {
    debug opt => _1;
    let mut _0: bool;
    let mut _2: isize;
    scope 1 {
    }

    bb0: {
        _2 = discriminant(_1);
        switchInt(move _2) -> [1: bb1, 0: bb2, otherwise: bb4];
    }

    bb1: {
        _0 = const true;
        goto -> bb3;
    }

    bb2: {
        _0 = const false;
        goto -> bb3;
    }

    bb3: {
        return;
    }

    bb4: {
        unreachable;
    }
}
"#;

#[test]
fn decompose_recognises_if_let_some_as_ite() {
    let mir = mir::parse_text(DECIDE_IF_LET_SIMPLE_MIR).expect("MIR parses");
    let tree = decompose(&mir);
    assert_eq!(tree.decisions.len(), 1);
    assert_eq!(
        tree.decisions[0],
        ite("opt is Some", cond("x"), const_(false))
    );
}

#[test]
fn decompose_recognises_if_let_combined_with_and() {
    let mir = mir::parse_text(DECIDE_IF_LET_WITH_AND_MIR).expect("MIR parses");
    let tree = decompose(&mir);
    assert_eq!(tree.decisions.len(), 1);
    assert_eq!(
        tree.decisions[0],
        ite(
            "opt is Some",
            ite("x", cond("b"), const_(false)),
            const_(false),
        )
    );
}

#[test]
fn decompose_handles_result_variant_ordering() {
    let mir = mir::parse_text(DECIDE_IF_LET_RESULT_MIR).expect("MIR parses");
    let tree = decompose(&mir);
    assert_eq!(tree.decisions.len(), 1);
    assert_eq!(tree.decisions[0], ite("r is Ok", cond("v"), const_(false)));
}

#[test]
fn decompose_handles_if_let_with_otherwise_unmatched() {
    let mir = mir::parse_text(DECIDE_IF_LET_THREE_VARIANT_MIR).expect("MIR parses");
    let tree = decompose(&mir);
    assert_eq!(tree.decisions.len(), 1);
    assert_eq!(tree.decisions[0], ite("t is A", cond("v"), const_(false)));
}

#[test]
fn decompose_declines_no_binding_if_let() {
    let mir = mir::parse_text(DECIDE_IF_LET_NO_BINDING_MIR).expect("MIR parses");
    let tree = decompose(&mir);
    assert!(tree.decisions.is_empty());
}

const DECIDE_INLINE_CMP_AND_MIR: &str = r#"
fn decide(_1: i32, _2: bool) -> bool {
    debug speed => _1;
    debug brake => _2;
    let mut _0: bool;
    let mut _3: bool;

    bb0: {
        _3 = Gt(copy _1, const 50_i32);
        switchInt(move _3) -> [0: bb2, otherwise: bb1];
    }

    bb1: {
        _0 = copy _2;
        goto -> bb3;
    }

    bb2: {
        _0 = const false;
        goto -> bb3;
    }

    bb3: {
        return;
    }
}
"#;

const DECIDE_DIRECT_EQ_MIR: &str = r#"
fn decide(_1: u8) -> bool {
    debug code => _1;
    let mut _0: bool;

    bb0: {
        _0 = Eq(copy _1, const 1_u8);
        return;
    }
}
"#;

const DECIDE_NE_OR_MIR: &str = r#"
fn decide(_1: u32, _2: bool) -> bool {
    debug state => _1;
    debug ovr => _2;
    let mut _0: bool;
    let mut _3: bool;

    bb0: {
        _3 = Ne(copy _1, const 0_u32);
        switchInt(move _3) -> [0: bb2, otherwise: bb1];
    }

    bb1: {
        _0 = const true;
        goto -> bb3;
    }

    bb2: {
        _0 = copy _2;
        goto -> bb3;
    }

    bb3: {
        return;
    }
}
"#;

const DECIDE_RANGE_MIR: &str = r#"
fn decide(_1: i32) -> bool {
    debug value => _1;
    let mut _0: bool;
    let mut _2: bool;

    bb0: {
        _2 = Ge(copy _1, const 0_i32);
        switchInt(move _2) -> [0: bb2, otherwise: bb1];
    }

    bb1: {
        _0 = Le(copy _1, const 100_i32);
        goto -> bb3;
    }

    bb2: {
        _0 = const false;
        goto -> bb3;
    }

    bb3: {
        return;
    }
}
"#;

const DECIDE_VAR_VAR_MIR: &str = r#"
fn decide(_1: i32, _2: i32) -> bool {
    debug a => _1;
    debug b => _2;
    let mut _0: bool;

    bb0: {
        _0 = Lt(copy _1, copy _2);
        return;
    }
}
"#;

#[test]
fn decompose_recovers_inline_comparison_with_and() {
    let mir = mir::parse_text(DECIDE_INLINE_CMP_AND_MIR).expect("MIR parses");
    let tree = decompose(&mir);
    assert_eq!(tree.decisions.len(), 1);
    assert_eq!(
        tree.decisions[0],
        ite("speed > 50", cond("brake"), const_(false))
    );
}

#[test]
fn decompose_recovers_direct_comparison_as_condition() {
    let mir = mir::parse_text(DECIDE_DIRECT_EQ_MIR).expect("MIR parses");
    let tree = decompose(&mir);
    assert_eq!(tree.decisions.len(), 1);
    assert_eq!(tree.decisions[0], cond("code == 1"));
}

#[test]
fn decompose_recovers_ne_paired_with_or() {
    let mir = mir::parse_text(DECIDE_NE_OR_MIR).expect("MIR parses");
    let tree = decompose(&mir);
    assert_eq!(tree.decisions.len(), 1);
    assert_eq!(
        tree.decisions[0],
        ite("state != 0", const_(true), cond("ovr"))
    );
}

#[test]
fn decompose_recovers_two_comparisons_in_one_decision() {
    let mir = mir::parse_text(DECIDE_RANGE_MIR).expect("MIR parses");
    let tree = decompose(&mir);
    assert_eq!(tree.decisions.len(), 1);
    assert_eq!(
        tree.decisions[0],
        ite("value >= 0", cond("value <= 100"), const_(false))
    );
}

#[test]
fn decompose_recovers_variable_to_variable_comparison() {
    let mir = mir::parse_text(DECIDE_VAR_VAR_MIR).expect("MIR parses");
    let tree = decompose(&mir);
    assert_eq!(tree.decisions.len(), 1);
    assert_eq!(tree.decisions[0], cond("a < b"));
}

const DECIDE_MATCH_INT_TWO_MIR: &str = r#"
fn decide(_1: i32) -> bool {
    debug n => _1;
    let mut _0: bool;

    bb0: {
        switchInt(copy _1) -> [0: bb2, otherwise: bb1];
    }

    bb1: {
        _0 = const true;
        goto -> bb3;
    }

    bb2: {
        _0 = const false;
        goto -> bb3;
    }

    bb3: {
        return;
    }
}
"#;

const DECIDE_MATCH_INT_THREE_MIR: &str = r#"
fn decide(_1: i32) -> bool {
    debug n => _1;
    let mut _0: bool;

    bb0: {
        switchInt(copy _1) -> [0: bb3, 1: bb2, otherwise: bb1];
    }

    bb1: {
        _0 = const false;
        goto -> bb4;
    }

    bb2: {
        _0 = const true;
        goto -> bb4;
    }

    bb3: {
        _0 = const false;
        goto -> bb4;
    }

    bb4: {
        return;
    }
}
"#;

const DECIDE_MATCH_BOOL_MIR: &str = r#"
fn decide(_1: bool) -> bool {
    debug b => _1;
    let mut _0: bool;

    bb0: {
        switchInt(copy _1) -> [0: bb1, otherwise: bb2];
    }

    bb1: {
        _0 = const false;
        goto -> bb3;
    }

    bb2: {
        _0 = const true;
        goto -> bb3;
    }

    bb3: {
        return;
    }
}
"#;

const DECIDE_MATCH_ENUM_NO_BINDING_MIR: &str = r#"
fn decide(_1: Mode) -> bool {
    debug m => _1;
    let mut _0: bool;
    let mut _2: isize;

    bb0: {
        _2 = discriminant(_1);
        switchInt(move _2) -> [0: bb3, 1: bb2, otherwise: bb1];
    }

    bb1: {
        unreachable;
    }

    bb2: {
        _0 = const false;
        goto -> bb4;
    }

    bb3: {
        _0 = const true;
        goto -> bb4;
    }

    bb4: {
        return;
    }
}
"#;

#[test]
fn decompose_recognises_match_two_arm_int() {
    let mir = mir::parse_text(DECIDE_MATCH_INT_TWO_MIR).expect("MIR parses");
    let tree = decompose(&mir);
    assert_eq!(tree.decisions.len(), 1);
    assert_eq!(
        tree.decisions[0],
        ite("n == 0", const_(false), const_(true))
    );
}

#[test]
fn decompose_recognises_match_three_arm_int_as_nested_ite() {
    let mir = mir::parse_text(DECIDE_MATCH_INT_THREE_MIR).expect("MIR parses");
    let tree = decompose(&mir);
    assert_eq!(tree.decisions.len(), 1);
    assert_eq!(
        tree.decisions[0],
        ite(
            "n == 0",
            const_(false),
            ite("n == 1", const_(true), const_(false)),
        )
    );
}

#[test]
fn decompose_match_bool_keeps_bool_naming() {
    let mir = mir::parse_text(DECIDE_MATCH_BOOL_MIR).expect("MIR parses");
    let tree = decompose(&mir);
    assert_eq!(tree.decisions.len(), 1);
    assert_eq!(tree.decisions[0], ite("b", const_(true), const_(false)));
}

#[test]
fn decompose_declines_enum_match_without_binding() {
    let mir = mir::parse_text(DECIDE_MATCH_ENUM_NO_BINDING_MIR).expect("MIR parses");
    let tree = decompose(&mir);
    assert!(tree.decisions.is_empty());
}

const DECIDE_TRY_PLAIN_MIR: &str = r#"
fn decide(_1: Option<bool>) -> Option<bool> {
    debug opt => _1;
    let mut _0: std::option::Option<bool>;
    let mut _2: std::ops::ControlFlow<std::option::Option<std::convert::Infallible>, bool>;
    let mut _3: isize;
    let _4: bool;
    scope 1 {
        debug x => _4;
    }

    bb0: {
        _2 = <Option<bool> as Try>::branch(copy _1) -> [return: bb1, unwind continue];
    }

    bb1: {
        _3 = discriminant(_2);
        switchInt(move _3) -> [0: bb3, 1: bb4, otherwise: bb2];
    }

    bb2: {
        unreachable;
    }

    bb3: {
        _4 = copy ((_2 as Continue).0: bool);
        _0 = Option::<bool>::Some(copy _4);
        goto -> bb5;
    }

    bb4: {
        _0 = <Option<bool> as FromResidual<Option<Infallible>>>::from_residual(const Option::<Infallible>::None) -> [return: bb5, unwind continue];
    }

    bb5: {
        return;
    }
}
"#;

const DECIDE_TRY_WITH_AND_MIR: &str = r#"
fn decide(_1: Option<bool>, _2: bool) -> Option<bool> {
    debug opt => _1;
    debug b => _2;
    let mut _0: std::option::Option<bool>;
    let mut _3: std::ops::ControlFlow<std::option::Option<std::convert::Infallible>, bool>;
    let mut _4: isize;
    let _5: bool;
    let mut _6: bool;
    scope 1 {
        debug x => _5;
    }

    bb0: {
        _3 = <Option<bool> as Try>::branch(copy _1) -> [return: bb1, unwind continue];
    }

    bb1: {
        _4 = discriminant(_3);
        switchInt(move _4) -> [0: bb3, 1: bb4, otherwise: bb2];
    }

    bb2: {
        unreachable;
    }

    bb3: {
        _5 = copy ((_3 as Continue).0: bool);
        switchInt(copy _5) -> [0: bb6, otherwise: bb5];
    }

    bb4: {
        _0 = <Option<bool> as FromResidual<Option<Infallible>>>::from_residual(const Option::<Infallible>::None) -> [return: bb8, unwind continue];
    }

    bb5: {
        _6 = copy _2;
        goto -> bb7;
    }

    bb6: {
        _6 = const false;
        goto -> bb7;
    }

    bb7: {
        _0 = Option::<bool>::Some(move _6);
        goto -> bb8;
    }

    bb8: {
        return;
    }
}
"#;

#[test]
fn decompose_declines_plain_try() {
    let mir = mir::parse_text(DECIDE_TRY_PLAIN_MIR).expect("MIR parses");
    let tree = decompose(&mir);
    assert!(tree.decisions.is_empty());
}

#[test]
fn decompose_looks_through_try_to_find_inner_and() {
    let mir = mir::parse_text(DECIDE_TRY_WITH_AND_MIR).expect("MIR parses");
    let tree = decompose(&mir);
    assert_eq!(tree.decisions.len(), 1);
    assert_eq!(tree.decisions[0], ite("x", cond("b"), const_(false)));
}

#[test]
fn decompose_recognises_nested_and_or_as_ite() {
    let mir = mir::parse_text(DECIDE_NESTED_AND_OR_MIR).expect("MIR parses");
    let tree = decompose(&mir);
    assert_eq!(tree.decisions.len(), 1);
    assert_eq!(
        tree.decisions[0],
        ite("a", ite("b", const_(true), cond("c")), cond("c"),)
    );
}
