//! What a dump declares is what is read: headers, declarations, blocks and
//! the lines between them.
use crate::mir::grammar::{self, block_text, is_trim, lacks, local_text};
use crate::mir::laws::{span_text, written_span_is_read_back};
use crate::mir::lines::{
    argument, arguments, block_label, capture_expr, debug_line, enclosed, function_header,
    local_line, numbered, span_literal, span_of_comment, without_comment, DebugView,
};
use crate::mir::names::with_capture_names;
use crate::mir::{
    empty_function, mir_of_text, read_line, read_lines, with_body_line, with_declaration, ArgView, BlockId,
    BlockView, CaptureView, FunctionView, LocalId, LocalView, MirView, ParseErrorView, PlaceView,
    ReaderView, SpanView,
};
use crate::text::laws::{
    all_space, closing_is_the_first_outside, cuts_are_around_occurrences, depth_of_front,
    depths_add_up, first_word_ends_at_white_space, outer_pieces_of_joined,
    prefix_and_suffix_come_off, prefix_and_suffix_were_there, separates,
    trimming_keeps_the_rest,
};
use crate::text::{
    after_prefix, before_suffix, begins_with, closing_from, cut_first, cut_first_at, cut_last,
    cut_last_at, decimal, depth_before, ends_in, first_word, is_space, nesting_at, number_u32,
    occurs_at, outer_pieces, pieces, trimmed,
};
use vstd::prelude::*;

verus! {

// ---------------------------------------------------------------------------
// Declarations
// ---------------------------------------------------------------------------

/// An argument or a local with its type, as it is written.
pub open spec fn typed_text(local: LocalId, ty: Seq<char>) -> Seq<char> {
    local_text(local) + ": "@ + ty
}

/// An argument is read back, whatever its type.
pub proof fn argument_is_read(local: LocalId, ty: Seq<char>)
    requires
        is_trim(ty),
    ensures
        argument(typed_text(local, ty)) == Some(ArgView { local, ty }),
        is_trim(typed_text(local, ty)),
{
    reveal_strlit(": ");
    reveal_strlit(":");
    grammar::local_is_read(local);
    grammar::trim_stays(local_text(local));
    grammar::trim_stays(ty);
    let s = typed_text(local, ty);
    assert(s =~= local_text(local) + ":"@ + (seq![' '] + ty));
    grammar::cut_behind(local_text(local), ":"@, seq![' '] + ty);
    assert(s[0] == local_text(local)[0]);
    assert(s.last() == ty.last());
}

/// A `let` is read back: the local, its type, whether it is mutable.
pub proof fn let_is_read(local: LocalId, ty: Seq<char>, mutable: bool, span: Option<SpanView>)
    requires
        is_trim(ty),
    ensures
        local_line(
            "let "@ + (if mutable {
                "mut "@
            } else {
                ""@
            }) + typed_text(local, ty) + ";"@,
            span,
        ) == Some(LocalView { local, ty, mutable, span }),
{
    reveal_strlit("mut ");
    reveal_strlit("");
    reveal_strlit("_");
    argument_is_read(local, ty);
    grammar::local_is_read(local);
    let plain = typed_text(local, ty);
    let decl = (if mutable {
        "mut "@
    } else {
        ""@
    }) + plain;
    let line = "let "@ + (if mutable {
        "mut "@
    } else {
        ""@
    }) + plain + ";"@;
    assert(line =~= "let "@ + (decl + ";"@));
    prefix_and_suffix_come_off("let "@, decl + ";"@);
    prefix_and_suffix_come_off(";"@, decl);
    if mutable {
        prefix_and_suffix_come_off("mut "@, plain);
    } else {
        assert(decl =~= plain);
        assert(plain[0] == '_');
        grammar::other_beginning(plain, "mut "@, 0);
    }
}

/// The name of a local is read back.
pub proof fn debug_name_is_read(name: Seq<char>, local: LocalId)
    requires
        is_trim(name),
        lacks(name, '='),
    ensures
        debug_line("debug "@ + name + " => "@ + local_text(local) + ";"@) == Some(
            DebugView::Local { name, local },
        ),
{
    let expr = local_text(local);
    grammar::local_is_read(local);
    grammar::trim_stays(expr);
    debug_is_split(name, expr);
}

proof fn debug_is_split(name: Seq<char>, expr: Seq<char>)
    requires
        is_trim(name),
        lacks(name, '='),
        is_trim(expr),
    ensures
        enclosed("debug "@ + name + " => "@ + expr + ";"@, "debug "@, ";"@) == Some(
            name + " => "@ + expr,
        ),
        cut_first(name + " => "@ + expr, "=>"@) == Some((name + seq![' '], seq![' '] + expr)),
        trimmed(name + seq![' ']) == name,
        trimmed(seq![' '] + expr) == expr,
{
    reveal_strlit(" => ");
    reveal_strlit("=>");
    let s = name + " => "@ + expr;
    assert("debug "@ + name + " => "@ + expr + ";"@ =~= "debug "@ + (s + ";"@));
    prefix_and_suffix_come_off("debug "@, s + ";"@);
    prefix_and_suffix_come_off(";"@, s);
    let a = name + seq![' '];
    assert(s =~= a + "=>"@ + (seq![' '] + expr));
    assert forall|i: int| 0 <= i < a.len() implies #[trigger] a[i] != '=' by {
        if i < name.len() {
            assert(a[i] == name[i]);
        }
    }
    grammar::cut_behind(a, "=>"@, seq![' '] + expr);
    let one = seq![' '];
    let none = Seq::<char>::empty();
    assert(all_space(one)) by {
        assert(is_space(one[0]));
    }
    trimming_keeps_the_rest(none, name, one);
    assert(none + name + one =~= a);
    grammar::trim_stays(expr);
}

/// A captured variable is read back: its name, the environment, the field and
/// whether it is captured by reference.
pub proof fn capture_is_read(
    name: Seq<char>,
    env_local: LocalId,
    field: u32,
    by_ref: bool,
    ty: Seq<char>,
)
    requires
        is_trim(name),
        lacks(name, '='),
        is_trim(ty),
    ensures
        ({
            let place = "(*"@ + local_text(env_local) + ")."@ + decimal(field as nat) + ": "@ + ty;
            let expr = if by_ref {
                "(*("@ + (place + "))"@)
            } else {
                "("@ + (place + ")"@)
            };
            debug_line("debug "@ + name + " => "@ + expr + ";"@) == Some(
                DebugView::Capture(CaptureView { name, env_local, field, by_ref }),
            )
        }),
{
    reveal_strlit("(*(");
    reveal_strlit("))");
    reveal_strlit("(");
    reveal_strlit(")");
    reveal_strlit("(*");
    reveal_strlit("_");
    let place = "(*"@ + local_text(env_local) + ")."@ + decimal(field as nat) + ": "@ + ty;
    let expr = if by_ref {
        "(*("@ + (place + "))"@)
    } else {
        "("@ + (place + ")"@)
    };
    grammar::env_field_is_read(env_local, field, ty);
    assert(expr[0] == '(');
    assert(expr.last() == ')');
    debug_is_split(name, expr);
    grammar::other_beginning(expr, "_"@, 0);
    if by_ref {
        prefix_and_suffix_come_off("(*("@, place + "))"@);
        prefix_and_suffix_come_off("))"@, place);
    } else {
        prefix_and_suffix_come_off("("@, place + ")"@);
        prefix_and_suffix_come_off(")"@, place);
        assert(place[0] == '(');
        assert(expr[1] == place[0]);
        grammar::other_beginning(expr, "(*("@, 1);
    }
    assert(capture_expr(expr, name) == Some(CaptureView { name, env_local, field, by_ref }));
}

/// The label of a block is read back, with or without an annotation behind
/// its name.
pub proof fn block_label_is_read(id: BlockId, annotation: Seq<char>)
    requires
        is_trim(annotation),
    ensures
        block_label(block_text(id) + ": {"@) == Some(id),
        block_label(block_text(id) + " "@ + annotation + ": {"@) == Some(id),
{
    label_is_read(id, Seq::empty());
    reveal_strlit(" ");
    assert(block_text(id) + Seq::<char>::empty() + ": {"@ =~= block_text(id) + ": {"@);
    label_is_read(id, " "@ + annotation);
    assert(block_text(id) + (" "@ + annotation) + ": {"@ =~= block_text(id) + " "@ + annotation
        + ": {"@);
}

proof fn label_is_read(id: BlockId, rest: Seq<char>)
    requires
        rest.len() > 0 ==> is_space(rest[0]) && !is_space(rest.last()),
    ensures
        block_label(block_text(id) + rest + ": {"@) == Some(id),
{
    reveal_strlit(": {");
    reveal_strlit("{");
    reveal_strlit(":");
    grammar::block_is_read(id);
    let label = block_text(id) + rest;
    let head = label + ":"@;
    let line = label + ": {"@;
    assert(line =~= head + seq![' '] + "{"@);
    prefix_and_suffix_come_off("{"@, head + seq![' ']);
    let one = seq![' '];
    let none = Seq::<char>::empty();
    assert(all_space(one)) by {
        assert(is_space(one[0]));
    }
    assert(head[0] == block_text(id)[0]);
    trimming_keeps_the_rest(none, head, one);
    assert(none + head + one =~= head + one);
    prefix_and_suffix_come_off(":"@, label);
    assert(label[0] == block_text(id)[0]);
    assert(label.last() == if rest.len() > 0 {
        rest.last()
    } else {
        block_text(id).last()
    });
    grammar::trim_stays(label);
    first_word_ends_at_white_space(none, block_text(id), rest);
    assert(none + block_text(id) + rest =~= label);
}

// ---------------------------------------------------------------------------
// Function headers
// ---------------------------------------------------------------------------

/// Whether a type can stand in a list of arguments: its brackets close, none
/// closes that it did not open, and no comma in it stands outside them.
pub open spec fn is_listed_type(ty: Seq<char>) -> bool {
    &&& is_trim(ty)
    &&& ty.last() != '-'
    &&& depth_before(ty, ty.len() as int) == 0
    &&& forall|i: int| 0 <= i < ty.len() ==> !(#[trigger] ty[i] == ')' && depth_before(ty, i) == 0)
    &&& forall|j: int| !#[trigger] separates(ty, ',', j)
}

/// Arguments as they are written.
pub open spec fn args_text(args: Seq<ArgView>) -> Seq<char>
    decreases args.len(),
{
    if args.len() == 0 {
        seq![]
    } else if args.len() == 1 {
        typed_text(args[0].local, args[0].ty)
    } else {
        typed_text(args[0].local, args[0].ty) + ", "@ + args_text(args.skip(1))
    }
}

proof fn typed_is_listable(local: LocalId, ty: Seq<char>)
    requires
        is_listed_type(ty),
    ensures
        ({
            let s = typed_text(local, ty);
            &&& depth_before(s, s.len() as int) == 0
            &&& s.last() != '-'
            &&& forall|j: int| !#[trigger] separates(s, ',', j)
            &&& forall|i: int|
                0 <= i < s.len() ==> !(#[trigger] s[i] == ')' && depth_before(s, i) == 0)
        }),
{
    reveal_strlit(": ");
    reveal_strlit("_");
    grammar::local_is_read(local);
    grammar::digits_of(local as nat);
    let p = local_text(local) + ": "@;
    let d = decimal(local as nat);
    let s = typed_text(local, ty);
    assert(s == p + ty);
    assert forall|k: int| 0 <= k < p.len() implies nesting_at(p, k) == 0 && #[trigger] p[k] != ','
        && p[k] != ')' by {
        if 0 < k < 1 + d.len() {
            assert(p[k] == d[k - 1]);
        }
    }
    grammar::no_brackets_no_depth(p, p.len() as int);
    assert(p.last() == ' ');
    depths_add_up(p, ty, ty.len() as int);
    assert(s.last() == ty.last());
    assert forall|j: int| !#[trigger] separates(s, ',', j) by {
        if separates(s, ',', j) {
            if j < p.len() {
                assert(s[j] == p[j]);
            } else {
                let k = j - p.len();
                assert(s[j] == ty[k]);
                depths_add_up(p, ty, k);
                if k > 0 {
                    assert(s[j - 1] == ty[k - 1]);
                }
                assert(nesting_at(ty, k) == 0);
                assert(separates(ty, ',', k));
            }
        }
    }
    assert forall|i: int| 0 <= i < s.len() implies !(#[trigger] s[i] == ')' && depth_before(s, i)
        == 0) by {
        if i < p.len() {
            assert(s[i] == p[i]);
        } else {
            depths_add_up(p, ty, i - p.len());
            assert(s[i] == ty[i - p.len()]);
        }
    }
}

spec fn all_listed(args: Seq<ArgView>) -> bool {
    forall|i: int| 0 <= i < args.len() ==> is_listed_type(#[trigger] args[i].ty)
}

proof fn args_are_read(pad: Seq<char>, args: Seq<ArgView>, before: Seq<ArgView>)
    requires
        pad == Seq::<char>::empty() || pad == seq![' '],
        all_listed(args),
    ensures
        arguments(outer_pieces(pad + args_text(args), ','), before) == Some(before + args),
    decreases args.len(),
{
    reveal_with_fuel(arguments, 2);
    let none = Seq::<char>::empty();
    assert(nesting_at(seq![','], 0) == 0);
    if args.len() == 0 {
        let s = pad + args_text(args);
        assert(s =~= pad);
        assert forall|k: int| 0 <= k < s.len() implies nesting_at(s, k) == 0 by {}
        grammar::no_brackets_no_depth(s, s.len() as int);
        assert forall|j: int| !#[trigger] separates(s, ',', j) by {}
        outer_pieces_of_joined(s, ',', none);
        let parts = seq![s];
        assert(all_space(s)) by {
            assert forall|i: int| 0 <= i < s.len() implies is_space(#[trigger] s[i]) by {}
        }
        trimming_keeps_the_rest(s, none, none);
        assert(s + none + none =~= s);
        assert(trimmed(parts[0]) == none);
        assert(parts.skip(1) =~= seq![]);
        assert(before + args =~= before);
    } else {
        let a = args[0];
        assert(is_listed_type(args[0].ty));
        let text = typed_text(a.local, a.ty);
        let first = pad + text;
        typed_is_listable(a.local, a.ty);
        argument_is_read(a.local, a.ty);
        grammar::trim_stays(text);
        if pad == none {
            assert(first =~= text);
        } else {
            grammar::spaced_is_one_piece(text);
        }
        assert(trimmed(first) == text);
        assert(depth_before(first, first.len() as int) == 0);
        if args.len() == 1 {
            outer_pieces_of_joined(first, ',', none);
            let parts = seq![first];
            assert(parts.skip(1) =~= seq![]);
            assert(before.push(a) =~= before + args);
        } else {
            reveal_strlit(", ");
            let rest = args_text(args.skip(1));
            assert(pad + args_text(args) =~= first.push(',') + (seq![' '] + rest));
            outer_pieces_of_joined(first, ',', seq![' '] + rest);
            let others = outer_pieces(seq![' '] + rest, ',');
            let parts = seq![first] + others;
            assert(parts.skip(1) =~= others);
            assert(parts[0] == first);
            assert forall|i: int| 0 <= i < args.skip(1).len() implies is_listed_type(
                #[trigger] args.skip(1)[i].ty,
            ) by {
                assert(is_listed_type(args[i + 1].ty));
            }
            args_are_read(seq![' '], args.skip(1), before.push(a));
            assert(before.push(a) + args.skip(1) =~= before + args);
        }
    }
}

proof fn args_close(args: Seq<ArgView>)
    requires
        all_listed(args),
    ensures
        ({
            let s = args_text(args);
            &&& depth_before(s, s.len() as int) == 0
            &&& s.len() > 0 ==> s.last() != '-'
            &&& forall|i: int|
                0 <= i < s.len() ==> !(#[trigger] s[i] == ')' && depth_before(s, i) == 0)
        }),
    decreases args.len(),
{
    if args.len() > 0 {
        let a = args[0];
        assert(is_listed_type(args[0].ty));
        let text = typed_text(a.local, a.ty);
        typed_is_listable(a.local, a.ty);
        if args.len() > 1 {
            reveal_strlit(", ");
            let rest = args_text(args.skip(1));
            assert forall|i: int| 0 <= i < args.skip(1).len() implies is_listed_type(
                #[trigger] args.skip(1)[i].ty,
            ) by {
                assert(is_listed_type(args[i + 1].ty));
            }
            args_close(args.skip(1));
            let comma = ", "@;
            assert forall|k: int| 0 <= k < comma.len() implies nesting_at(comma, k) == 0 by {}
            grammar::no_brackets_no_depth(comma, 2);
            let front = text + comma;
            depths_add_up(text, comma, 2);
            assert(front.last() == ' ');
            let s = front + rest;
            assert(s == args_text(args));
            depths_add_up(front, rest, rest.len() as int);
            if rest.len() > 0 {
                assert(s.last() == rest.last());
            } else {
                assert(s =~= front);
            }
            assert forall|i: int| 0 <= i < s.len() implies !(#[trigger] s[i] == ')'
                && depth_before(s, i) == 0) by {
                if i < text.len() {
                    assert(s =~= text + (comma + rest));
                    depth_of_front(text, comma + rest, i);
                    assert(s[i] == text[i]);
                } else if i < front.len() {
                    assert(s[i] == comma[i - text.len()]);
                } else {
                    depths_add_up(front, rest, i - front.len());
                    assert(s[i] == rest[i - front.len()]);
                }
            }
        }
    }
}

proof fn arguments_end_at_parenthesis(args: Seq<ArgView>, tail: Seq<char>)
    requires
        all_listed(args),
    ensures
        closing_from(args_text(args) + ")"@ + tail, 0, 1) == Some(args_text(args).len() as int),
{
    reveal_strlit(")");
    let a = args_text(args);
    let s = a + ")"@ + tail;
    let n = a.len() as int;
    args_close(args);
    assert(s =~= a + (")"@ + tail));
    assert(depth_before(s, 0) == 0);
    closing_is_the_first_outside(s, 0);
    depth_of_front(a, ")"@ + tail, n);
    assert(s[n] == ')');
    assert forall|j: int| 0 <= j < n implies !(#[trigger] s[j] == ')' && depth_before(s, j) == 0) by {
        depth_of_front(a, ")"@ + tail, j);
        assert(s[j] == a[j]);
    }
    match closing_from(s, 0, 1) {
        Some(k) => {
            if k > n {
                assert(!(s[n] == ')' && depth_before(s, n) == 0));
            }
            if k < n {
                assert(!(s[k] == ')' && depth_before(s, k) == 0));
            }
        },
        None => {
            assert(!(s[n] == ')' && depth_before(s, n) == 0));
        },
    }
}

/// The header of a function is read back: its name, all its arguments in
/// order, however many there are, and its return type, if it has one.
pub proof fn header_is_read(name: Seq<char>, args: Seq<ArgView>, return_ty: Seq<char>)
    requires
        is_trim(name),
        lacks(name, '('),
        forall|i: int| 0 <= i < args.len() ==> is_listed_type(#[trigger] args[i].ty),
        return_ty.len() > 0 ==> is_trim(return_ty),
    ensures
        function_header(
            "fn "@ + name + "("@ + args_text(args) + ")"@ + (if return_ty.len() > 0 {
                " -> "@ + return_ty
            } else {
                seq![]
            }) + " {"@,
        ) == Some(FunctionView { name, args, return_ty, ..empty_function() }),
{
    reveal_strlit("(");
    reveal_strlit(")");
    reveal_strlit("->");
    reveal_strlit(" -> ");
    let none = Seq::<char>::empty();
    let tail = if return_ty.len() > 0 {
        " -> "@ + return_ty
    } else {
        none
    };
    let after = args_text(args) + ")"@ + tail;
    let body = name + "("@ + after;
    assert("fn "@ + name + "("@ + args_text(args) + ")"@ + tail + " {"@ =~= "fn "@ + (body
        + " {"@));
    prefix_and_suffix_come_off("fn "@, body + " {"@);
    prefix_and_suffix_come_off(" {"@, body);
    assert(body[0] == name[0]);
    if return_ty.len() > 0 {
        assert(body.last() == return_ty.last());
    } else {
        assert(after =~= args_text(args) + ")"@);
        assert(body.last() == ')');
    }
    grammar::trim_stays(body);
    grammar::cut_behind(name, "("@, after);
    grammar::trim_stays(name);
    arguments_end_at_parenthesis(args, tail);
    let n = args_text(args).len() as int;
    assert(after.take(n) =~= args_text(args));
    assert(after.skip(n + 1) =~= tail);
    assert(none + args_text(args) =~= args_text(args));
    args_are_read(none, args, seq![]);
    assert(Seq::<ArgView>::empty() + args =~= args);
    return_type_is_read(return_ty);
    assert(tail =~= if return_ty.len() > 0 {
        " -> "@ + return_ty
    } else {
        none
    });
}

proof fn return_type_is_read(return_ty: Seq<char>)
    requires
        return_ty.len() > 0 ==> is_trim(return_ty),
    ensures
        return_ty.len() > 0 ==> after_prefix(trimmed(" -> "@ + return_ty), "->"@) == Some(
            seq![' '] + return_ty,
        ) && trimmed(seq![' '] + return_ty) == return_ty,
        return_ty.len() == 0 ==> after_prefix(trimmed(Seq::empty()), "->"@) is None && return_ty
            == Seq::<char>::empty(),
{
    reveal_strlit("->");
    reveal_strlit(" -> ");
    let none = Seq::<char>::empty();
    if return_ty.len() > 0 {
        let s = "->"@ + (seq![' '] + return_ty);
        assert(s.last() == return_ty.last());
        assert(" -> "@ + return_ty =~= seq![' '] + s);
        grammar::trim_stays(s);
        grammar::trim_stays(return_ty);
        prefix_and_suffix_come_off("->"@, seq![' '] + return_ty);
    } else {
        trimming_keeps_the_rest(none, none, none);
        assert(none + none + none =~= none);
        grammar::other_beginning(none, "->"@, 0);
        assert(return_ty =~= none);
    }
}

// ---------------------------------------------------------------------------
// Lines
// ---------------------------------------------------------------------------

/// Whether a text is code: it has no white space at its ends and holds no
/// comment.
pub open spec fn is_code(code: Seq<char>) -> bool {
    is_trim(code) && forall|j: int| !#[trigger] occurs_at(code, "//"@, j)
}

/// The comment that gives a span.
pub open spec fn span_comment(scope: nat, span: SpanView) -> Seq<char> {
    "scope "@ + decimal(scope) + " at "@ + span_text(span)
}

/// The span of a comment is read back, whatever the scope; the name of the
/// file neither begins with `at ` nor holds ` at `.
pub proof fn span_comment_is_read(scope: nat, span: SpanView)
    requires
        forall|j: int| !#[trigger] occurs_at(seq![' '] + span_text(span), " at "@, j),
        is_trim(span_text(span)),
    ensures
        span_of_comment(span_comment(scope, span)) == Some(span),
{
    reveal_strlit(" at ");
    let head = "scope "@ + decimal(scope);
    let text = span_text(span);
    let spaced = seq![' '] + text;
    assert forall|j: int| 0 < j implies !#[trigger] occurs_at(" at "@ + text, " at "@, j) by {
        let s = " at "@ + text;
        if occurs_at(s, " at "@, j) {
            if j >= 3 {
                assert(spaced.subrange(j - 3, j + 1) =~= s.subrange(j, j + 4));
                assert(occurs_at(spaced, " at "@, j - 3));
            } else {
                assert(s.subrange(j, j + 4)[0] == s[j]);
            }
        }
    }
    cut_last_at(head, " at "@, text);
    grammar::trim_stays(text);
    written_span_is_read_back(span);
}

proof fn plain_line(pad: Seq<char>, code: Seq<char>)
    requires
        all_space(pad),
        is_code(code),
    ensures
        trimmed(pad + code) == code,
        !begins_with(code, "//"@),
        without_comment(code) == (code, None::<Seq<char>>),
{
    let none = Seq::<char>::empty();
    trimming_keeps_the_rest(pad, code, none);
    assert(pad + code + none =~= pad + code);
    reveal_strlit("//");
    if begins_with(code, "//"@) {
        assert(code.subrange(0, 2) =~= code.take(2));
        assert(occurs_at(code, "//"@, 0));
    }
    cuts_are_around_occurrences(code, "//"@);
    if let Some((a, b)) = cut_first(code, "//"@) {
        assert(code.subrange(a.len() as int, (a.len() + 2) as int) =~= "//"@);
        assert(occurs_at(code, "//"@, a.len() as int));
    }
}

proof fn commented_line(pad: Seq<char>, code: Seq<char>, comment: Seq<char>)
    requires
        all_space(pad),
        is_code(code),
        code.last() != '/',
        is_trim(comment),
    ensures
        ({
            let line = code + " // "@ + comment;
            &&& trimmed(pad + line) == line
            &&& !begins_with(line, "//"@)
            &&& without_comment(line) == (code, Some(comment))
        }),
{
    reveal_strlit("//");
    reveal_strlit(" // ");
    let line = code + " // "@ + comment;
    let none = Seq::<char>::empty();
    assert(line[0] == code[0]);
    assert(line.last() == comment.last());
    trimming_keeps_the_rest(pad, line, none);
    assert(pad + line + none =~= pad + line);
    if begins_with(line, "//"@) {
        let t = line.take(2);
        assert(t[0] == line[0] && t[1] == line[1]);
        if code.len() > 1 {
            assert(code.subrange(0, 2) =~= "//"@);
            assert(occurs_at(code, "//"@, 0));
        } else {
            assert(code.last() == line[0]);
        }
    }
    let front = code + seq![' '];
    let rest = seq![' '] + comment;
    assert(line =~= front + "//"@ + rest);
    assert forall|j: int| 0 <= j < front.len() implies !#[trigger] occurs_at(
        front + "//"@ + rest,
        "//"@,
        j,
    ) by {
        if occurs_at(line, "//"@, j) {
            let t = line.subrange(j, j + 2);
            assert(t[0] == line[j] && t[1] == line[j + 1]);
            if j + 1 < code.len() {
                assert(code.subrange(j, j + 2) =~= t);
                assert(occurs_at(code, "//"@, j));
            } else if j + 1 == code.len() {
                assert(code.last() == line[j]);
            }
        }
    }
    cut_first_at(front, "//"@, rest);
    grammar::trim_stays(code);
    grammar::trim_stays(comment);
    assert(trimmed(rest) == comment);
}

/// A line of a block adds what it says, with the span of its comment or, if
/// it has none, without; the rest of what was read stays.
pub proof fn body_line_is_added(
    r: ReaderView,
    function: FunctionView,
    block: BlockView,
    scopes: nat,
    pad: Seq<char>,
    code: Seq<char>,
    comment: Seq<char>,
)
    requires
        r.skipped == 0,
        r.place == (PlaceView::InBlock { function, block, scopes }),
        all_space(pad),
        is_code(code),
        code.last() != '/',
        code != "}"@,
        is_trim(comment),
    ensures
        read_line(r, pad + code) == Ok::<ReaderView, Seq<char>>(
            ReaderView {
                place: PlaceView::InBlock {
                    function,
                    block: with_body_line(block, code, None),
                    scopes,
                },
                ..r
            },
        ),
        read_line(r, pad + (code + " // "@ + comment)) == Ok::<ReaderView, Seq<char>>(
            ReaderView {
                place: PlaceView::InBlock {
                    function,
                    block: with_body_line(block, code, span_of_comment(comment)),
                    scopes,
                },
                ..r
            },
        ),
{
    plain_line(pad, code);
    commented_line(pad, code, comment);
}

/// A declaration of a function adds what it says, with the span of its
/// comment.
pub proof fn declaration_is_added(
    r: ReaderView,
    function: FunctionView,
    scopes: nat,
    pad: Seq<char>,
    code: Seq<char>,
    comment: Seq<char>,
)
    requires
        r.skipped == 0,
        r.place == (PlaceView::InFunction { function, scopes }),
        all_space(pad),
        is_code(code),
        code.last() != '/',
        code.last() != '{',
        code != "}"@,
        is_trim(comment),
    ensures
        read_line(r, pad + code) == Ok::<ReaderView, Seq<char>>(
            ReaderView {
                place: PlaceView::InFunction {
                    function: with_declaration(function, code, None),
                    scopes,
                },
                ..r
            },
        ),
        read_line(r, pad + (code + " // "@ + comment)) == Ok::<ReaderView, Seq<char>>(
            ReaderView {
                place: PlaceView::InFunction {
                    function: with_declaration(function, code, span_of_comment(comment)),
                    scopes,
                },
                ..r
            },
        ),
{
    reveal_strlit("{");
    plain_line(pad, code);
    commented_line(pad, code, comment);
    if ends_in(code, "{"@) {
        assert(code.skip(code.len() - 1)[0] == code.last());
    }
}

proof fn closing_brace()
    ensures
        is_code("}"@),
        !ends_in("}"@, "{"@),
{
    reveal_strlit("}");
    reveal_strlit("{");
    reveal_strlit("//");
    assert("}"@.skip(0)[0] == '}');
}

/// A closing brace ends a block, which stands behind those before it, then a
/// scope, then the function, which stands behind those before it with the
/// names of its captures.
pub proof fn closing_brace_ends_what_is_open(
    r: ReaderView,
    function: FunctionView,
    block: BlockView,
    scopes: nat,
    pad: Seq<char>,
)
    requires
        r.skipped == 0,
        all_space(pad),
    ensures
        r.place == (PlaceView::InBlock { function, block, scopes }) ==> read_line(r, pad + "}"@)
            == Ok::<ReaderView, Seq<char>>(
            ReaderView {
                place: PlaceView::InFunction {
                    function: FunctionView { blocks: function.blocks.push(block), ..function },
                    scopes,
                },
                ..r
            },
        ),
        r.place == (PlaceView::InFunction { function, scopes }) && scopes > 0 ==> read_line(
            r,
            pad + "}"@,
        ) == Ok::<ReaderView, Seq<char>>(
            ReaderView {
                place: PlaceView::InFunction { function, scopes: (scopes - 1) as nat },
                ..r
            },
        ),
        r.place == (PlaceView::InFunction { function, scopes: 0 }) ==> read_line(r, pad + "}"@)
            == Ok::<ReaderView, Seq<char>>(
            ReaderView {
                functions: r.functions.push(with_capture_names(function)),
                place: PlaceView::Outside,
                ..r
            },
        ),
{
    closing_brace();
    plain_line(pad, "}"@);
}

/// An opening brace begins what its line says: a function with the header
/// that is read, a scope, or an empty block with its label. What begins
/// nothing known outside a function is skipped.
pub proof fn opening_brace_begins_what_is_said(
    r: ReaderView,
    function: FunctionView,
    scopes: nat,
    pad: Seq<char>,
    code: Seq<char>,
)
    requires
        r.skipped == 0,
        all_space(pad),
        is_code(code),
        code.last() == '{',
    ensures
        r.place is Outside && begins_with(code, "fn "@) && function_header(code) == Some(function)
            ==> read_line(r, pad + code) == Ok::<ReaderView, Seq<char>>(
            ReaderView { place: PlaceView::InFunction { function, scopes: 0 }, ..r },
        ),
        r.place is Outside && begins_with(code, "fn "@) && function_header(code) is None
            ==> read_line(r, pad + code) is Err,
        r.place is Outside && !begins_with(code, "fn "@) ==> read_line(r, pad + code) == Ok::<
            ReaderView,
            Seq<char>,
        >(ReaderView { skipped: 1, ..r }),
        r.place == (PlaceView::InFunction { function, scopes }) && begins_with(code, "scope "@)
            ==> read_line(r, pad + code) == Ok::<ReaderView, Seq<char>>(
            ReaderView { place: PlaceView::InFunction { function, scopes: scopes + 1 }, ..r },
        ),
        r.place == (PlaceView::InFunction { function, scopes }) && !begins_with(code, "scope "@) ==> (
        match block_label(code) {
            Some(id) => read_line(r, pad + code) matches Ok(next) && next.functions == r.functions
                && next.skipped == 0 && (next.place matches PlaceView::InBlock {
                function: f,
                block,
                scopes: n,
            } && f == function && n == scopes && block.id == id && block.statements.len() == 0),
            None => read_line(r, pad + code) is Err,
        }),
{
    reveal_strlit("{");
    plain_line(pad, code);
    assert(code.skip(code.len() - 1) =~= "{"@);
}

/// What is skipped is skipped up to the brace that closes it: an opening
/// brace inside needs a closing one more, and nothing else counts.
pub proof fn skipped_item_ends_at_its_brace(r: ReaderView, pad: Seq<char>, code: Seq<char>)
    requires
        r.skipped > 0,
        all_space(pad),
        is_code(code),
    ensures
        read_line(r, pad + code) == Ok::<ReaderView, Seq<char>>(
            ReaderView {
                skipped: if code.last() == '{' {
                    r.skipped + 1
                } else if code == "}"@ {
                    (r.skipped - 1) as nat
                } else {
                    r.skipped
                },
                ..r
            },
        ),
{
    reveal_strlit("{");
    plain_line(pad, code);
    if code.last() == '{' {
        assert(code.skip(code.len() - 1) =~= "{"@);
    } else if ends_in(code, "{"@) {
        assert(code.skip(code.len() - 1)[0] == code.last());
    }
}

/// The lines of a dump are read one after the other: the first line takes the
/// reader on, or ends the reading with its number; behind the last line
/// stand the functions that are complete.
pub proof fn lines_are_read_in_order(
    r: ReaderView,
    line: Seq<char>,
    rest: Seq<Seq<char>>,
    line_no: nat,
)
    ensures
        read_lines(r, seq![], line_no) == Ok::<MirView, ParseErrorView>(
            MirView { functions: r.functions },
        ),
        match read_line(r, line) {
            Ok(next) => read_lines(r, seq![line] + rest, line_no) == read_lines(
                next,
                rest,
                line_no + 1,
            ),
            Err(message) => read_lines(r, seq![line] + rest, line_no) == Err::<
                MirView,
                ParseErrorView,
            >(ParseErrorView { line: line_no, message }),
        },
{
    assert((seq![line] + rest).skip(1) =~= rest);
}

/// A name that is declared for a local is its name from then on, unless it
/// has one; a capture is listed behind those before it; a `let` is listed
/// behind those before it. Nothing else of the function changes.
pub proof fn declarations_add_what_they_say(
    f: FunctionView,
    name: Seq<char>,
    local: LocalId,
    ty: Seq<char>,
    mutable: bool,
    span: Option<SpanView>,
)
    requires
        is_trim(name),
        lacks(name, '='),
        is_trim(ty),
    ensures
        with_declaration(f, "debug "@ + name + " => "@ + local_text(local) + ";"@, span) == (
        if f.debug_names.contains_key(local) {
            f
        } else {
            FunctionView { debug_names: f.debug_names.insert(local, name), ..f }
        }),
        with_declaration(
            f,
            "let "@ + (if mutable {
                "mut "@
            } else {
                ""@
            }) + typed_text(local, ty) + ";"@,
            span,
        ) == (FunctionView {
            locals: f.locals.push(LocalView { local, ty, mutable, span }),
            ..f
        }),
{
    debug_name_is_read(name, local);
    let_is_read(local, ty, mutable, span);
    reveal_strlit("debug ");
    reveal_strlit("let ");
    let d = "debug "@ + name + " => "@ + local_text(local) + ";"@;
    assert(d =~= "debug "@ + (name + " => "@ + local_text(local) + ";"@));
    prefix_and_suffix_come_off("debug "@, name + " => "@ + local_text(local) + ";"@);
    let how = if mutable {
        "mut "@
    } else {
        ""@
    };
    let l = "let "@ + how + typed_text(local, ty) + ";"@;
    assert(l =~= "let "@ + (how + typed_text(local, ty) + ";"@));
    prefix_and_suffix_come_off("let "@, how + typed_text(local, ty) + ";"@);
    grammar::other_beginning(l, "debug "@, 0);
}

/// A captured variable that is declared is listed behind those before it.
pub proof fn captures_are_listed(
    f: FunctionView,
    name: Seq<char>,
    env_local: LocalId,
    field: u32,
    by_ref: bool,
    ty: Seq<char>,
    span: Option<SpanView>,
)
    requires
        is_trim(name),
        lacks(name, '='),
        is_trim(ty),
    ensures
        ({
            let place = "(*"@ + local_text(env_local) + ")."@ + decimal(field as nat) + ": "@ + ty;
            let expr = if by_ref {
                "(*("@ + (place + "))"@)
            } else {
                "("@ + (place + ")"@)
            };
            with_declaration(f, "debug "@ + name + " => "@ + expr + ";"@, span) == (FunctionView {
                captures: f.captures.push(CaptureView { name, env_local, field, by_ref }),
                ..f
            })
        }),
{
    capture_is_read(name, env_local, field, by_ref, ty);
    let place = "(*"@ + local_text(env_local) + ")."@ + decimal(field as nat) + ": "@ + ty;
    let expr = if by_ref {
        "(*("@ + (place + "))"@)
    } else {
        "("@ + (place + ")"@)
    };
    let d = "debug "@ + name + " => "@ + expr + ";"@;
    assert(d =~= "debug "@ + (name + " => "@ + expr + ";"@));
    prefix_and_suffix_come_off("debug "@, name + " => "@ + expr + ";"@);
}

/// A line that should begin a function or a block and does not is an error
/// that quotes the line.
pub proof fn error_quotes_the_line(
    r: ReaderView,
    function: FunctionView,
    scopes: nat,
    pad: Seq<char>,
    code: Seq<char>,
)
    requires
        r.skipped == 0,
        all_space(pad),
        is_code(code),
        code.last() == '{',
    ensures
        r.place is Outside && begins_with(code, "fn "@) && function_header(code) is None
            ==> read_line(r, pad + code) == Err::<ReaderView, Seq<char>>(
            "expected fn header, got: "@ + code,
        ),
        r.place == (PlaceView::InFunction { function, scopes }) && !begins_with(code, "scope "@)
            && block_label(code) is None ==> read_line(r, pad + code) == Err::<
            ReaderView,
            Seq<char>,
        >("expected bb header, got: "@ + code),
{
    reveal_strlit("{");
    plain_line(pad, code);
    assert(code.skip(code.len() - 1) =~= "{"@);
}

// ---------------------------------------------------------------------------
// What is read was written
// ---------------------------------------------------------------------------

/// A span is read only from its notation: the file, and the numbers between
/// the colons.
pub proof fn span_was_written(s: Seq<char>)
    requires
        span_literal(s) is Some,
    ensures
        ({
            let span = span_literal(s)->0;
            exists|sl: Seq<char>, sc: Seq<char>, end: Seq<char>|
                {
                    &&& s == #[trigger] (span.file + ":"@ + sl + ":"@ + sc + ": "@ + end)
                    &&& number_u32(sl) == Some(span.start_line)
                    &&& number_u32(sc) == Some(span.start_col)
                    &&& cut_first(trimmed(end), ":"@) matches Some((el, ec)) && number_u32(el) == Some(
                        span.end_line,
                    ) && number_u32(ec) == Some(span.end_col)
                }
        }),
{
    reveal_strlit(":");
    reveal_strlit(": ");
    let (start, end) = cut_last(s, ": "@)->0;
    cuts_are_around_occurrences(s, ": "@);
    let (place, sc) = cut_last(start, ":"@)->0;
    cuts_are_around_occurrences(start, ":"@);
    let (file, sl) = cut_last(place, ":"@)->0;
    cuts_are_around_occurrences(place, ":"@);
    let span = span_literal(s)->0;
    assert(span.file == file);
    assert(s == span.file + ":"@ + sl + ":"@ + sc + ": "@ + end);
}

/// A comment gives a span only behind its last ` at `.
pub proof fn span_stands_behind_at(comment: Seq<char>)
    requires
        span_of_comment(comment) is Some,
    ensures
        exists|a: Seq<char>, b: Seq<char>|
            comment == #[trigger] (a + " at "@ + b) && span_of_comment(comment) == span_literal(
                trimmed(b),
            ) && (forall|j: int| a.len() < j ==> !#[trigger] occurs_at(comment, " at "@, j)),
{
    reveal_strlit(" at ");
    let (a, b) = cut_last(comment, " at "@)->0;
    cuts_are_around_occurrences(comment, " at "@);
    assert(comment == a + " at "@ + b);
}

/// A name is declared only by `debug <name> => <place>`: for the local that
/// the place is, or for a field of an environment, by reference exactly if
/// the place is read through one.
pub proof fn declared_name_was_written(line: Seq<char>)
    requires
        debug_line(line) is Some,
    ensures
        exists|a: Seq<char>, b: Seq<char>|
            {
                &&& line == #[trigger] ("debug "@ + (a + "=>"@ + b + ";"@))
                &&& match debug_line(line)->0 {
                    DebugView::Local { name, local } => name == trimmed(a) && numbered(
                        trimmed(b),
                        "_"@,
                    ) == Some(local),
                    DebugView::Capture(c) => c.name == trimmed(a) && begins_with(trimmed(b), "("@)
                        && (c.by_ref ==> begins_with(trimmed(b), "(*("@)),
                }
            },
{
    reveal_strlit("=>");
    reveal_strlit("(");
    reveal_strlit("(*(");
    let s = enclosed(line, "debug "@, ";"@)->0;
    let rest = after_prefix(line, "debug "@)->0;
    prefix_and_suffix_were_there(line, "debug "@);
    prefix_and_suffix_were_there(rest, ";"@);
    let (a, b) = cut_first(s, "=>"@)->0;
    cuts_are_around_occurrences(s, "=>"@);
    assert(line == "debug "@ + (a + "=>"@ + b + ";"@));
    let expr = trimmed(b);
    if begins_with(expr, "(*("@) {
        assert(expr.take(3)[0] == expr[0]);
        assert(expr.take(1) =~= "("@);
    }
}

/// What stands before a mutable local, and nothing before another.
pub open spec fn mut_text(mutable: bool) -> Seq<char> {
    if mutable {
        "mut "@
    } else {
        seq![]
    }
}

/// A local is declared only by a `let`, mutable exactly if it says `mut`.
pub proof fn declared_local_was_written(line: Seq<char>, span: Option<SpanView>)
    requires
        local_line(line, span) is Some,
    ensures
        ({
            let l = local_line(line, span)->0;
            exists|a: Seq<char>, ty: Seq<char>|
                {
                    &&& line == #[trigger] ("let "@ + (mut_text(l.mutable) + (a + ":"@ + ty)
                        + ";"@))
                    &&& numbered(trimmed(a), "_"@) == Some(l.local)
                    &&& l.ty == trimmed(ty)
                    &&& l.span == span
                }
        }),
{
    reveal_strlit(":");
    let rest = after_prefix(line, "let "@)->0;
    prefix_and_suffix_were_there(line, "let "@);
    let decl = before_suffix(rest, ";"@)->0;
    prefix_and_suffix_were_there(rest, ";"@);
    let mutable = begins_with(decl, "mut "@);
    let plain = if mutable {
        after_prefix(decl, "mut "@)->0
    } else {
        decl
    };
    prefix_and_suffix_were_there(decl, "mut "@);
    let (a, ty) = cut_first(plain, ":"@)->0;
    cuts_are_around_occurrences(plain, ":"@);
    let how = mut_text(mutable);
    assert(decl =~= how + plain);
    let l = local_line(line, span)->0;
    assert(l.mutable == mutable);
    assert(line == "let "@ + (mut_text(l.mutable) + (a + ":"@ + ty) + ";"@));
}

/// A block has only the label that is written: the number in its first word.
pub proof fn label_was_written(line: Seq<char>)
    requires
        block_label(line) is Some,
    ensures
        exists|head: Seq<char>|
            line == #[trigger] (head + "{"@) && (before_suffix(trimmed(head), ":"@) matches Some(
                label,
            ) && (first_word(trimmed(label)) matches Some(word) && numbered(word, "bb"@)
                == block_label(line))),
{
    let head = before_suffix(line, "{"@)->0;
    prefix_and_suffix_were_there(line, "{"@);
    assert(line == head + "{"@);
}

/// A function has only the name that is written: what stands between `fn`
/// and the first parenthesis.
pub proof fn function_name_was_written(line: Seq<char>)
    requires
        function_header(line) is Some,
    ensures
        exists|body: Seq<char>|
            line == #[trigger] ("fn "@ + (body + " {"@)) && (cut_first(trimmed(body), "("@) matches Some(
                (name, _),
            ) && (function_header(line)->0).name == trimmed(name)),
        (function_header(line)->0).blocks.len() == 0,
        (function_header(line)->0).locals.len() == 0,
        (function_header(line)->0).captures.len() == 0,
        (function_header(line)->0).debug_names == Map::<LocalId, Seq<char>>::empty(),
{
    let rest = after_prefix(line, "fn "@)->0;
    prefix_and_suffix_were_there(line, "fn "@);
    let body = before_suffix(rest, " {"@)->0;
    prefix_and_suffix_were_there(rest, " {"@);
    assert(line == "fn "@ + (body + " {"@));
}

/// A dump is read line by line from its first line, outside of any function.
pub proof fn dump_is_read_from_its_first_line(text: Seq<char>)
    ensures
        mir_of_text(text) == read_lines(
            ReaderView { functions: seq![], skipped: 0, place: PlaceView::Outside },
            pieces(text, '\n'),
            1,
        ),
{
}

} // verus!
