use floyd::mir::lines::{extract_span_from_comment, parse_span_literal};
use floyd::mir::{parse_text, MirStatement, MirTerminator, Operand};
use floyd::text::{
    chars_of, find_matching_close, is_whitespace, name_before, parse_u128, parse_u32,
    push_decimal, rsplit_once, split, split_once, split_top_level, string_of, strip_prefix,
    strip_suffix, take_word, trim,
};

fn owned(parts: Vec<&[char]>) -> Vec<String> {
    parts.into_iter().map(string_of).collect()
}

#[test]
fn header_that_is_none_is_an_error_with_its_line() {
    let e = parse_text("\n// note\nfn broken {\n").unwrap_err();
    assert_eq!(e.line, 3);
    assert_eq!(e.message, "expected fn header, got: fn broken {");
    assert_eq!(
        e.to_string(),
        "MIR parse error at line 3: expected fn header, got: fn broken {"
    );
}

#[test]
fn block_label_that_is_none_is_an_error_with_its_line() {
    let e = parse_text("fn f() -> bool {\n    block: {\n").unwrap_err();
    assert_eq!(e.line, 2);
    assert_eq!(e.message, "expected bb header, got: block: {");
}

#[test]
fn other_items_are_skipped() {
    let text = "const X: i32 = {\n    bb0: {\n        return;\n    }\n}\nfn f() {\n    bb4 (cleanup): {\n        return;\n    }\n}\n";
    let mir = parse_text(text).expect("parses");
    assert_eq!(mir.functions.len(), 1);
    assert_eq!(mir.functions[0].name, "f");
    assert_eq!(mir.functions[0].return_ty, "");
    assert_eq!(mir.functions[0].blocks[0].id, 4);
}

#[test]
fn function_that_is_not_closed_is_dropped() {
    let mir = parse_text("fn f() {\n    bb0: {\n        return;\n").expect("parses");
    assert!(mir.functions.is_empty());
}

#[test]
fn unknown_lines_are_kept_as_text() {
    let text = "fn f() {\n    bb0: {\n        StorageLive(_3);\n        _2 = Len(_1); // scope 0 at a.rs:1:2: 3:4\n        nop\n    }\n}\n";
    let mir = parse_text(text).expect("parses");
    let block = &mir.functions[0].blocks[0];
    assert_eq!(block.statements.len(), 3);
    match &block.statements[1] {
        MirStatement::Other { text, span } => {
            assert_eq!(text, "_2 = Len(_1);");
            let span = span.as_ref().expect("span");
            assert_eq!((span.start_line, span.start_col), (1, 2));
            assert_eq!((span.end_line, span.end_col), (3, 4));
        }
        other => panic!("{other:?}"),
    }
    match &block.terminator {
        MirTerminator::Other { text, span } => {
            assert_eq!(text, "(missing)");
            assert!(span.is_none());
        }
        other => panic!("{other:?}"),
    }
}

#[test]
fn dump_without_comments_carries_no_span() {
    let text = "fn f(_1: bool) -> bool {\n    let mut _0: bool;\n    bb0: {\n        _0 = copy _1;\n        return;\n    }\n}\n";
    let mir = parse_text(text).expect("parses");
    let f = &mir.functions[0];
    assert!(f.locals[0].span.is_none());
    assert!(matches!(f.blocks[0].statements[0], MirStatement::AssignCopy { span: None, .. }));
    assert!(matches!(f.blocks[0].terminator, MirTerminator::Return { span: None }));
}

fn only_block(lines: &str) -> floyd::mir::MirBlock {
    let text = format!("fn f(_1: bool) -> bool {{\nbb0: {{\n{lines}\n}}\n}}\n");
    parse_text(&text).expect("parses").functions[0].blocks[0].clone()
}

#[test]
fn terminators_of_other_shapes_are_kept_as_terminators() {
    for line in [
        "drop(_1) -> [return: bb1, unwind continue];",
        "drop(_1) -> bb3;",
        "switchInt(copy _1) -> [0: bb1, 1: bb2];",
        "assert(move _2, \"overflow\") -> [success: bb1, unwind continue];",
        "_3 = core::panicking::panic(const \"x\") -> unwind continue;",
        "falseEdge -> [real: bb1, imaginary: bb2];",
        "resume;",
        "terminate(cleanup);",
    ] {
        let block = only_block(line);
        assert!(block.statements.is_empty(), "{line}");
        match &block.terminator {
            MirTerminator::Other { text, span } => {
                assert_eq!(text, line);
                assert!(span.is_none());
            }
            other => panic!("{other:?}"),
        }
    }
}

#[test]
fn arrows_in_types_make_no_terminator() {
    for line in [
        "_2 = decide as fn(bool) -> bool (PointerCoercion(ReifyFnPointer, Implicit));",
        "_2 = decide as fn() -> [u8; 4] (PointerCoercion(ReifyFnPointer, Implicit));",
        "_2 = [copy _1 as fn() -> [u8; 4]];",
        "StorageDead(_2);",
    ] {
        let block = only_block(line);
        assert_eq!(block.statements.len(), 1, "{line}");
        assert!(matches!(&block.statements[0], MirStatement::Other { text, .. } if text == line));
        assert!(matches!(&block.terminator, MirTerminator::Other { text, .. } if text == "(missing)"));
    }
}

#[test]
fn capture_reads_of_references_with_paths_hold_references() {
    for (rhs, expected) in [
        ("no_retag copy ((*_1).0: &core::cell::Cell<bool>)", true),
        ("no_retag copy ((*_1).0: &mut std::vec::Vec<bool>)", true),
        ("copy ((*_1).0: core::cell::Cell<&bool>)", false),
        ("copy ((*_1).0: bool)", false),
    ] {
        let block = only_block(&format!("_3 = {rhs};"));
        match &block.statements[0] {
            MirStatement::AssignCaptureRead { dst, env, field, holds_ref, .. } => {
                assert_eq!((*dst, *env, *field), (3, 1, 0));
                assert_eq!(*holds_ref, expected, "{rhs}");
            }
            other => panic!("{other:?}"),
        }
    }
}

#[test]
fn function_pointer_arguments_are_read() {
    let mir = parse_text("fn f(_1: fn(bool) -> bool, _2: bool) -> bool {\n}\n").expect("parses");
    let f = &mir.functions[0];
    assert_eq!(f.args.len(), 2);
    assert_eq!(f.args[0].ty, "fn(bool) -> bool");
    assert_eq!(f.args[1].local, 2);
    assert_eq!(f.return_ty, "bool");
}

#[test]
fn function_text_ends_at_the_argument_list() {
    let block =
        only_block("_2 = <Result<bool, ()> as Try>::branch(copy _1) -> [return: bb1, unwind continue];");
    assert!(matches!(
        &block.terminator,
        MirTerminator::Call { func_text, .. } if func_text == "<Result<bool, ()> as Try>::branch"
    ));
}

#[test]
fn span_literals_of_other_shapes_are_none() {
    assert!(parse_span_literal("a.rs:1:2").is_none());
    assert!(parse_span_literal("a.rs:1:x: 3:4").is_none());
    assert!(parse_span_literal("a.rs:1:2: 3:4294967296").is_none());
    assert!(extract_span_from_comment("scope 0").is_none());
    let span = parse_span_literal("a.rs:+1:2: 3:4294967295").expect("span");
    assert_eq!(span.start_line, 1);
    assert_eq!(span.end_col, 4294967295);
}

#[test]
fn constants_lose_their_type_suffix_only() {
    assert_eq!(Operand::Const("1_000_u64".to_string()).const_display_value(), "1_000");
    assert_eq!(Operand::Const("1_000".to_string()).const_display_value(), "1_000");
    assert_eq!(Operand::Const("x_".to_string()).const_display_value(), "x_");
    assert_eq!(Operand::Const("MAX_SPEED".to_string()).const_display_value(), "MAX_SPEED");
    assert_eq!(Operand::Const("1_i7".to_string()).const_display_value(), "1_i7");
    for ty in [
        "i8", "i16", "i32", "i64", "i128", "isize", "u8", "u16", "u32", "u64", "u128", "usize",
        "f16", "f32", "f64", "f128", "bool", "char",
    ] {
        assert_eq!(Operand::Const(format!("7_{ty}")).const_display_value(), "7");
    }
    assert_eq!(Operand::Const("true".to_string()).const_display_value(), "true");
    assert_eq!(Operand::Copy(3).const_display_value(), "");
    assert_eq!(Operand::Move(3).local_id(), Some(3));
    assert_eq!(Operand::Const("1".to_string()).local_id(), None);
}

#[test]
fn numbers_are_read_up_to_their_bound() {
    let read = |s: &str| parse_u32(&chars_of(s));
    assert_eq!(read("0"), Some(0));
    assert_eq!(read("007"), Some(7));
    assert_eq!(read("+5"), Some(5));
    assert_eq!(read("4294967295"), Some(4294967295));
    assert_eq!(read("4294967296"), None);
    assert_eq!(read(""), None);
    assert_eq!(read("+"), None);
    assert_eq!(read("-1"), None);
    assert_eq!(read("1 "), None);
    let wide = |s: &str| parse_u128(&chars_of(s));
    assert_eq!(wide("340282366920938463463374607431768211455"), Some(u128::MAX));
    assert_eq!(wide("340282366920938463463374607431768211456"), None);
    assert_eq!(wide("99999999999999999999999999999999999999999x"), None);
}

#[test]
fn numbers_are_written_and_read_back() {
    for n in [0u128, 9, 10, 1048576, u128::MAX] {
        let mut out = String::new();
        push_decimal(&mut out, n);
        assert_eq!(out, n.to_string());
        assert_eq!(parse_u128(&chars_of(&out)), Some(n));
    }
}

#[test]
fn white_space_is_that_of_unicode() {
    for c in ['\t', '\n', '\r', ' ', '\u{85}', '\u{a0}', '\u{2003}', '\u{3000}'] {
        assert!(is_whitespace(c));
        assert!(c.is_whitespace());
    }
    for c in ['a', '\u{200b}', '\u{feff}', '\u{0}'] {
        assert!(!is_whitespace(c));
        assert!(!c.is_whitespace());
    }
    for n in 0..0x110000u32 {
        if let Some(c) = char::from_u32(n) {
            assert_eq!(is_whitespace(c), c.is_whitespace());
        }
    }
    assert_eq!(string_of(trim(&chars_of("\u{3000} a b\r"))), "a b");
}

#[test]
fn words_prefixes_and_cuts() {
    let s = chars_of("  bb7 (cleanup)");
    assert_eq!(take_word(&s).map(string_of), Some("bb7".to_string()));
    assert!(take_word(&chars_of(" \t")).is_none());
    let t = chars_of("a::b::c");
    let (head, tail) = split_once(&t, "::").expect("cut");
    assert_eq!((string_of(head), string_of(tail)), ("a".to_string(), "b::c".to_string()));
    let (head, tail) = rsplit_once(&t, "::").expect("cut");
    assert_eq!((string_of(head), string_of(tail)), ("a::b".to_string(), "c".to_string()));
    assert!(split_once(&t, "->").is_none());
    assert_eq!(strip_prefix(&t, "a:").map(string_of), Some(":b::c".to_string()));
    assert!(strip_prefix(&t, "b").is_none());
    assert_eq!(strip_suffix(&t, "::c").map(string_of), Some("a::b".to_string()));
    assert!(strip_suffix(&t, "a::b::c::d").is_none());
}

#[test]
fn separators_inside_brackets_do_not_count_at_top_level() {
    let s = chars_of("_1: Result<bool, ()>, _2: [u8; 4]");
    assert_eq!(owned(split_top_level(&s, ',')), vec!["_1: Result<bool, ()>", " _2: [u8; 4]"]);
    assert_eq!(owned(split(&s, ',')).len(), 3);
    assert_eq!(owned(split(&chars_of(""), ',')), vec![""]);
    assert_eq!(find_matching_close(&chars_of("a(b)c)d")), Some(5));
    assert_eq!(find_matching_close(&chars_of("a(b")), None);
}

#[test]
fn names_are_ordered_as_strings_are() {
    let names = ["", "a", "ab", "b", "B", "\u{e9}", "\u{10ffff}", "a b"];
    for x in names {
        for y in names {
            assert_eq!(name_before(x, y), x < y);
        }
    }
}

#[test]
fn written_spans_are_read_back() {
    for file in ["src/lib.rs", "a b.rs", "odd: name.rs", "C:/x:1:2: 3.rs", ""] {
        for (sl, sc, el, ec) in [(1, 2, 3, 4), (0, 0, 0, 0), (4294967295, 10, 7, 4294967295)] {
            let text = format!("{file}:{sl}:{sc}: {el}:{ec}");
            let span = parse_span_literal(&text).expect("span");
            assert_eq!(span.file, file);
            assert_eq!(
                (span.start_line, span.start_col, span.end_line, span.end_col),
                (sl, sc, el, ec)
            );
        }
    }
}

#[test]
fn blank_and_comment_lines_change_nothing() {
    let dump = "fn f(_1: bool) -> bool {\n    debug a => _1;\n    bb0: {\n        \
                _0 = copy _1; // scope 0 at a.rs:1:2: 1:3\n        return;\n    }\n}";
    let lines: Vec<&str> = dump.split('\n').collect();
    let plain = format!("{:?}", parse_text(dump).expect("parses"));
    let broken = format!("{dump}\nfn broken {{");
    assert_eq!(parse_text(&broken).unwrap_err().line, 8);
    for at in 0..=lines.len() {
        for extra in ["", "   \t", "// note", "    // fn broken {", "//"] {
            let mut more = lines.clone();
            more.insert(at, extra);
            let mir = parse_text(&more.join("\n")).expect("parses");
            assert_eq!(format!("{mir:?}"), plain);
            more.push("fn broken {");
            let e = parse_text(&more.join("\n")).unwrap_err();
            assert_eq!((e.line, e.message.as_str()), (9, "expected fn header, got: fn broken {"));
        }
    }
}
