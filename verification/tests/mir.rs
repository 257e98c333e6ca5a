use floyd::mir::lines::{extract_span_from_comment, parse_span_literal};
use floyd::mir::{parse_text, CompareOp, MirStatement, MirTerminator, Operand};

const DECIDE_AND_MIR_NO_SPANS: &str = r#"
fn decide(_1: bool, _2: bool) -> bool {
    debug a => _1;
    debug b => _2;
    let mut _0: bool;

    bb0: {
        switchInt(copy _1) -> [0: bb2, otherwise: bb1];
    }

    bb1: {
        _0 = copy _2;
        goto -> bb3;
    }

    bb2: {
        _0 = const false;
        goto -> bb3;
    }

    bb3: {
        return;
    }
}
"#;

const DECIDE_AND_MIR_WITH_SPANS: &str = r#"
fn decide(_1: bool, _2: bool) -> bool {
    debug a => _1;                       // in scope 0 at /tmp/floyd-span-scout.rs:1:15: 1:16
    debug b => _2;                       // in scope 0 at /tmp/floyd-span-scout.rs:1:24: 1:25
    let mut _0: bool;                    // return place in scope 0 at /tmp/floyd-span-scout.rs:1:36: 1:40

    bb0: {
        switchInt(copy _1) -> [0: bb2, otherwise: bb1]; // scope 0 at /tmp/floyd-span-scout.rs:2:5: 2:6
    }

    bb1: {
        _0 = copy _2;                    // scope 0 at /tmp/floyd-span-scout.rs:2:10: 2:11
        goto -> bb3;                     // scope 0 at /tmp/floyd-span-scout.rs:2:5: 2:11
    }

    bb2: {
        _0 = const false;                // scope 0 at /tmp/floyd-span-scout.rs:2:5: 2:11
        goto -> bb3;                     // scope 0 at /tmp/floyd-span-scout.rs:2:5: 2:11
    }

    bb3: {
        return;                          // scope 0 at /tmp/floyd-span-scout.rs:3:2: 3:2
    }
}
"#;

#[test]
fn parses_decide_fn() {
    let mir = parse_text(DECIDE_AND_MIR_NO_SPANS).expect("parse ok");
    assert_eq!(mir.functions.len(), 1);
    let f = &mir.functions[0];
    assert_eq!(f.name, "decide");
    assert_eq!(f.args.len(), 2);
    assert_eq!(f.args[0].local, 1);
    assert_eq!(f.args[0].ty, "bool");
    assert_eq!(f.return_ty, "bool");
}

#[test]
fn captures_debug_names() {
    let mir = parse_text(DECIDE_AND_MIR_NO_SPANS).expect("parse ok");
    let names = &mir.functions[0].debug_names;
    assert_eq!(names.get(&1), Some(&"a".to_string()));
    assert_eq!(names.get(&2), Some(&"b".to_string()));
}

#[test]
fn parses_all_four_blocks() {
    let mir = parse_text(DECIDE_AND_MIR_NO_SPANS).expect("parse ok");
    let blocks = &mir.functions[0].blocks;
    assert_eq!(blocks.len(), 4);
    assert_eq!(blocks[0].id, 0);
    assert_eq!(blocks[3].id, 3);
}

#[test]
fn recognises_switchint_in_bb0() {
    let mir = parse_text(DECIDE_AND_MIR_NO_SPANS).expect("parse ok");
    match &mir.functions[0].blocks[0].terminator {
        MirTerminator::SwitchInt {
            discr,
            targets,
            otherwise,
            span,
        } => {
            assert_eq!(*discr, 1);
            assert_eq!(targets, &[(0u128, 2u32)]);
            assert_eq!(*otherwise, 1);
            assert_eq!(*span, None);
        }
        other => panic!("bb0 terminator not SwitchInt: {other:?}"),
    }
}

#[test]
fn recognises_short_circuit_const_false_in_bb2() {
    let mir = parse_text(DECIDE_AND_MIR_NO_SPANS).expect("parse ok");
    let bb2 = mir.functions[0]
        .blocks
        .iter()
        .find(|b| b.id == 2)
        .expect("bb2 present");
    assert!(matches!(
        bb2.statements[0],
        MirStatement::AssignConstBool {
            dst: 0,
            value: false,
            ..
        }
    ));
}

#[test]
fn recognises_copy_b_in_bb1() {
    let mir = parse_text(DECIDE_AND_MIR_NO_SPANS).expect("parse ok");
    let bb1 = mir.functions[0]
        .blocks
        .iter()
        .find(|b| b.id == 1)
        .expect("bb1 present");
    assert!(matches!(
        bb1.statements[0],
        MirStatement::AssignCopy { dst: 0, src: 2, .. }
    ));
}

#[test]
fn span_literal_parses() {
    let s = parse_span_literal("/tmp/floyd-span-scout.rs:2:5: 2:6").expect("span parses");
    assert_eq!(s.file, "/tmp/floyd-span-scout.rs");
    assert_eq!(s.start_line, 2);
    assert_eq!(s.start_col, 5);
    assert_eq!(s.end_line, 2);
    assert_eq!(s.end_col, 6);
}

#[test]
fn span_literal_tolerates_windows_paths_with_colons() {
    let s = parse_span_literal(r"C:\src\decide.rs:2:5: 2:6").expect("span parses");
    assert_eq!(s.file, r"C:\src\decide.rs");
    assert_eq!(s.start_line, 2);
    assert_eq!(s.end_col, 6);
}

#[test]
fn comment_extraction_finds_span() {
    let s = extract_span_from_comment("scope 0 at /tmp/x.rs:2:5: 2:6").expect("ok");
    assert_eq!(s.start_line, 2);
    let s = extract_span_from_comment("in scope 0 at /tmp/x.rs:2:5: 2:6").expect("ok");
    assert_eq!(s.start_line, 2);
    let s = extract_span_from_comment("return place in scope 0 at /tmp/x.rs:1:36: 1:40")
        .expect("ok");
    assert_eq!(s.start_line, 1);
    assert_eq!(s.end_col, 40);
}

#[test]
fn switchint_span_captured_from_spanned_mir() {
    let mir = parse_text(DECIDE_AND_MIR_WITH_SPANS).expect("parse ok");
    match &mir.functions[0].blocks[0].terminator {
        MirTerminator::SwitchInt { span: Some(s), .. } => {
            assert_eq!(s.start_line, 2);
            assert_eq!(s.start_col, 5);
            assert_eq!(s.end_line, 2);
            assert_eq!(s.end_col, 6);
        }
        other => panic!("expected SwitchInt with span, got {other:?}"),
    }
}

const IF_LET_SIMPLE_MIR: &str = r#"
fn decide(_1: Option<bool>) -> bool {
    debug opt => _1;
    let mut _0: bool;
    let mut _2: isize;
    scope 1 {
        debug x => _3;
        let _3: bool;
    }

    bb0: {
        _2 = discriminant(_1);
        switchInt(move _2) -> [1: bb1, 0: bb2, otherwise: bb4];
    }

    bb1: {
        _3 = copy ((_1 as Some).0: bool);
        _0 = copy _3;
        goto -> bb3;
    }

    bb2: {
        _0 = const false;
        goto -> bb3;
    }

    bb3: {
        return;
    }

    bb4: {
        unreachable;
    }
}
"#;

const CLOSURE_BY_REF_BODY: &str = r#"
fn outer::{closure#0}(_1: &{closure}, _2: bool) -> bool {
    debug x => _2;
    debug b => (*((*_1).0: &bool));
    let mut _0: bool;
    let mut _3: &bool;

    bb0: {
        switchInt(copy _2) -> [0: bb2, otherwise: bb1];
    }

    bb1: {
        _3 = no_retag copy ((*_1).0: &bool);
        _0 = copy (*_3);
        goto -> bb3;
    }

    bb2: {
        _0 = const false;
        goto -> bb3;
    }

    bb3: {
        return;
    }
}
"#;

const CLOSURE_BY_VALUE_BODY: &str = r#"
fn outer::{closure#0}(_1: &{closure}, _2: bool) -> bool {
    debug x => _2;
    debug b => ((*_1).0: bool);
    let mut _0: bool;

    bb0: {
        switchInt(copy _2) -> [0: bb2, otherwise: bb1];
    }

    bb1: {
        _0 = copy ((*_1).0: bool);
        goto -> bb3;
    }

    bb2: {
        _0 = const false;
        goto -> bb3;
    }

    bb3: {
        return;
    }
}
"#;

const CLOSURE_TWO_CAPTURES_BODY: &str = r#"
fn outer::{closure#0}(_1: &{closure}, _2: bool) -> bool {
    debug x => _2;
    debug b => (*((*_1).0: &bool));
    debug c => (*((*_1).1: &bool));
    let mut _0: bool;
    let mut _3: bool;
    let mut _4: &bool;
    let mut _5: &bool;

    bb0: {
        switchInt(copy _2) -> [0: bb3, otherwise: bb1];
    }

    bb1: {
        _4 = no_retag copy ((*_1).0: &bool);
        _3 = copy (*_4);
        switchInt(move _3) -> [0: bb3, otherwise: bb2];
    }

    bb2: {
        _5 = no_retag copy ((*_1).1: &bool);
        _0 = copy (*_5);
        goto -> bb4;
    }

    bb3: {
        _0 = const false;
        goto -> bb4;
    }

    bb4: {
        return;
    }
}
"#;

#[test]
fn parses_by_ref_capture_annotation() {
    let mir = parse_text(CLOSURE_BY_REF_BODY).expect("parse ok");
    let f = &mir.functions[0];
    assert_eq!(f.captures.len(), 1);
    let c = &f.captures[0];
    assert_eq!(c.name, "b");
    assert_eq!(c.env_local, 1);
    assert_eq!(c.field, 0);
    assert!(c.by_ref);
}

#[test]
fn parses_by_value_capture_annotation() {
    let mir = parse_text(CLOSURE_BY_VALUE_BODY).expect("parse ok");
    let f = &mir.functions[0];
    assert_eq!(f.captures.len(), 1);
    let c = &f.captures[0];
    assert_eq!(c.name, "b");
    assert_eq!(c.env_local, 1);
    assert_eq!(c.field, 0);
    assert!(!c.by_ref);
}

#[test]
fn propagates_by_ref_capture_through_deref() {
    let mir = parse_text(CLOSURE_BY_REF_BODY).expect("parse ok");
    let names = &mir.functions[0].debug_names;
    assert_eq!(names.get(&0), Some(&"b".to_string()));
    assert_eq!(names.get(&2), Some(&"x".to_string()));
}

#[test]
fn propagates_by_value_capture_directly() {
    let mir = parse_text(CLOSURE_BY_VALUE_BODY).expect("parse ok");
    let names = &mir.functions[0].debug_names;
    assert_eq!(names.get(&0), Some(&"b".to_string()));
    assert_eq!(names.get(&2), Some(&"x".to_string()));
}

#[test]
fn propagates_two_captures_independently() {
    let mir = parse_text(CLOSURE_TWO_CAPTURES_BODY).expect("parse ok");
    let names = &mir.functions[0].debug_names;
    let propagated: std::collections::BTreeSet<&str> =
        names.values().map(String::as_str).collect();
    assert!(propagated.contains("b"));
    assert!(propagated.contains("c"));
    assert!(propagated.contains("x"));
}

#[test]
fn parses_assign_discriminant() {
    let mir = parse_text(IF_LET_SIMPLE_MIR).expect("parse ok");
    let bb0 = mir.functions[0]
        .blocks
        .iter()
        .find(|b| b.id == 0)
        .expect("bb0");
    match &bb0.statements[0] {
        MirStatement::AssignDiscriminant { dst, src, .. } => {
            assert_eq!(*dst, 2);
            assert_eq!(*src, 1);
        }
        other => panic!("expected AssignDiscriminant, got {other:?}"),
    }
}

#[test]
fn parses_assign_downcast() {
    let mir = parse_text(IF_LET_SIMPLE_MIR).expect("parse ok");
    let bb1 = mir.functions[0]
        .blocks
        .iter()
        .find(|b| b.id == 1)
        .expect("bb1");
    match &bb1.statements[0] {
        MirStatement::AssignDowncast {
            dst,
            src,
            variant,
            field,
            ..
        } => {
            assert_eq!(*dst, 3);
            assert_eq!(*src, 1);
            assert_eq!(variant, "Some");
            assert_eq!(*field, 0);
        }
        other => panic!("expected AssignDowncast, got {other:?}"),
    }
}

#[test]
fn parses_unreachable_terminator() {
    let mir = parse_text(IF_LET_SIMPLE_MIR).expect("parse ok");
    let bb4 = mir.functions[0]
        .blocks
        .iter()
        .find(|b| b.id == 4)
        .expect("bb4");
    assert!(matches!(bb4.terminator, MirTerminator::Unreachable { .. }));
}

const TRY_OPTION_MIR: &str = r#"
fn decide(_1: Option<bool>) -> Option<bool> {
    debug opt => _1;
    let mut _0: std::option::Option<bool>;
    let mut _2: std::ops::ControlFlow<std::option::Option<std::convert::Infallible>, bool>;
    let mut _3: isize;
    let _4: bool;
    scope 1 {
        debug x => _4;
    }

    bb0: {
        _2 = <Option<bool> as Try>::branch(copy _1) -> [return: bb1, unwind continue];
    }

    bb1: {
        _3 = discriminant(_2);
        switchInt(move _3) -> [0: bb3, 1: bb4, otherwise: bb2];
    }

    bb2: {
        unreachable;
    }

    bb3: {
        _4 = copy ((_2 as Continue).0: bool);
        _0 = Option::<bool>::Some(copy _4);
        goto -> bb5;
    }

    bb4: {
        _0 = <Option<bool> as FromResidual<Option<Infallible>>>::from_residual(const Option::<Infallible>::None) -> [return: bb5, unwind continue];
    }

    bb5: {
        return;
    }
}
"#;

#[test]
fn parses_call_terminator() {
    let mir = parse_text(TRY_OPTION_MIR).expect("parse ok");
    let bb0 = mir.functions[0]
        .blocks
        .iter()
        .find(|b| b.id == 0)
        .expect("bb0");
    match &bb0.terminator {
        MirTerminator::Call {
            dst,
            func_text,
            target,
            ..
        } => {
            assert_eq!(*dst, 2);
            assert_eq!(func_text, "<Option<bool> as Try>::branch");
            assert_eq!(*target, 1);
        }
        other => panic!("expected Call, got {other:?}"),
    }
}

const FIRST_WINS_DEBUG_MIR: &str = r#"
fn decide(_1: Option<bool>) -> Option<bool> {
    debug opt => _1;
    let _4: bool;
    scope 1 {
        debug x => _4;
    }
    scope 4 {
        debug val => _4;
    }

    bb0: {
        return;
    }
}
"#;

const COMPARE_GT_AND_MIR: &str = r#"
fn decide(_1: i32, _2: bool) -> bool {
    debug speed => _1;
    debug brake => _2;
    let mut _0: bool;
    let mut _3: bool;

    bb0: {
        _3 = Gt(copy _1, const 50_i32);
        switchInt(move _3) -> [0: bb2, otherwise: bb1];
    }

    bb1: {
        _0 = copy _2;
        goto -> bb3;
    }

    bb2: {
        _0 = const false;
        goto -> bb3;
    }

    bb3: {
        return;
    }
}
"#;

#[test]
fn parses_assign_binary_compare_gt() {
    let mir = parse_text(COMPARE_GT_AND_MIR).expect("parse ok");
    let bb0 = mir.functions[0]
        .blocks
        .iter()
        .find(|b| b.id == 0)
        .expect("bb0");
    match &bb0.statements[0] {
        MirStatement::AssignBinaryCompare {
            dst, op, lhs, rhs, ..
        } => {
            assert_eq!(*dst, 3);
            assert_eq!(*op, CompareOp::Gt);
            assert_eq!(lhs, &Operand::Copy(1));
            assert_eq!(rhs, &Operand::Const("50_i32".to_string()));
        }
        other => panic!("expected AssignBinaryCompare, got {other:?}"),
    }
}

#[test]
fn compare_op_as_source_str_covers_all_six() {
    assert_eq!(CompareOp::Eq.as_source_str(), "==");
    assert_eq!(CompareOp::Ne.as_source_str(), "!=");
    assert_eq!(CompareOp::Lt.as_source_str(), "<");
    assert_eq!(CompareOp::Le.as_source_str(), "<=");
    assert_eq!(CompareOp::Gt.as_source_str(), ">");
    assert_eq!(CompareOp::Ge.as_source_str(), ">=");
}

#[test]
fn parses_compare_with_two_var_operands() {
    let src = r#"
fn decide(_1: i32, _2: i32) -> bool {
    debug a => _1;
    debug b => _2;
    let mut _0: bool;

    bb0: {
        _0 = Lt(copy _1, copy _2);
        return;
    }
}
"#;
    let mir = parse_text(src).expect("parse ok");
    let bb0 = &mir.functions[0].blocks[0];
    match &bb0.statements[0] {
        MirStatement::AssignBinaryCompare {
            dst, op, lhs, rhs, ..
        } => {
            assert_eq!(*dst, 0);
            assert_eq!(*op, CompareOp::Lt);
            assert_eq!(lhs, &Operand::Copy(1));
            assert_eq!(rhs, &Operand::Copy(2));
        }
        other => panic!("expected AssignBinaryCompare, got {other:?}"),
    }
}

#[test]
fn parses_all_six_compare_ops() {
    for (op_str, expected_op) in [
        ("Eq", CompareOp::Eq),
        ("Ne", CompareOp::Ne),
        ("Lt", CompareOp::Lt),
        ("Le", CompareOp::Le),
        ("Gt", CompareOp::Gt),
        ("Ge", CompareOp::Ge),
    ] {
        let src = format!(
            "fn f(_1: i32) -> bool {{
let mut _0: bool;
bb0: {{
    _0 = {op_str}(copy _1, const 0_i32);
    return;
}}
}}\n"
        );
        let mir = parse_text(&src).expect("parse ok");
        match &mir.functions[0].blocks[0].statements[0] {
            MirStatement::AssignBinaryCompare { op, .. } => assert_eq!(*op, expected_op),
            other => panic!("op {op_str}: expected AssignBinaryCompare, got {other:?}"),
        }
    }
}

#[test]
fn operand_const_display_strips_type_suffix() {
    assert_eq!(
        Operand::Const("50_i32".to_string()).const_display_value(),
        "50"
    );
    assert_eq!(
        Operand::Const("0_u32".to_string()).const_display_value(),
        "0"
    );
    assert_eq!(
        Operand::Const("1_u8".to_string()).const_display_value(),
        "1"
    );
    assert_eq!(
        Operand::Const("true".to_string()).const_display_value(),
        "true"
    );
}

#[test]
fn debug_name_first_wins_when_local_aliased() {
    let mir = parse_text(FIRST_WINS_DEBUG_MIR).expect("parse ok");
    assert_eq!(mir.functions[0].debug_names.get(&4), Some(&"x".to_string()));
}

#[test]
fn debug_names_inside_scope_blocks_are_captured() {
    let mir = parse_text(IF_LET_SIMPLE_MIR).expect("parse ok");
    let names = &mir.functions[0].debug_names;
    assert_eq!(names.get(&1), Some(&"opt".to_string()));
    assert_eq!(names.get(&3), Some(&"x".to_string()));
}

#[test]
fn fn_header_with_nested_parens_in_arg_type() {
    let src = "fn decide(_1: Result<bool, ()>) -> bool {\n    bb0: { return; }\n}\n";
    let mir = parse_text(src).expect("parse ok");
    assert_eq!(mir.functions.len(), 1);
    let f = &mir.functions[0];
    assert_eq!(f.name, "decide");
    assert_eq!(f.args.len(), 1);
    assert_eq!(f.args[0].local, 1);
    assert_eq!(f.args[0].ty, "Result<bool, ()>");
    assert_eq!(f.return_ty, "bool");
}

#[test]
fn parses_switchint_with_three_arms() {
    let mir = parse_text(IF_LET_SIMPLE_MIR).expect("parse ok");
    let bb0 = mir.functions[0]
        .blocks
        .iter()
        .find(|b| b.id == 0)
        .expect("bb0");
    match &bb0.terminator {
        MirTerminator::SwitchInt {
            discr,
            targets,
            otherwise,
            ..
        } => {
            assert_eq!(*discr, 2);
            assert_eq!(targets, &[(1u128, 1u32), (0u128, 2u32)]);
            assert_eq!(*otherwise, 4);
        }
        other => panic!("expected SwitchInt, got {other:?}"),
    }
}

#[test]
fn statement_span_captured_from_spanned_mir() {
    let mir = parse_text(DECIDE_AND_MIR_WITH_SPANS).expect("parse ok");
    let bb1 = mir.functions[0]
        .blocks
        .iter()
        .find(|b| b.id == 1)
        .expect("bb1");
    match &bb1.statements[0] {
        MirStatement::AssignCopy {
            dst: 0,
            src: 2,
            span: Some(s),
        } => {
            assert_eq!(s.start_line, 2);
            assert_eq!(s.start_col, 10);
            assert_eq!(s.end_col, 11);
        }
        other => panic!("expected AssignCopy{{dst:0,src:2,span:Some}}, got {other:?}"),
    }
}
