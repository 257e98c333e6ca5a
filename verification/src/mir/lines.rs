//! The shapes of single MIR lines.
//!
//! For each shape there is a spec function on the text of the line that says
//! what the line stands for, if it has that shape, and a reader that returns
//! exactly that.
use crate::mir::{
    empty_function, ArgView, BlockId, CaptureView, CompareOp, FunctionView, LocalId, LocalView,
    MirArg, MirCapture, MirFunction, MirLocal, MirStatement, MirTerminator, Operand, OperandView,
    SourceSpan, SpanView, StatementView, TerminatorView,
};
use crate::text::{
    after_prefix, before_suffix, begins_with, chars_of, closing_from, cut_first, cut_last,
    depth_before, ends_in, ends_with, find_outer, nesting_of, occurs_at, outer_from, stands_at,
    find_matching_close, first_word, is_text, number_u128, number_u32, outer_pieces, parse_u128,
    parse_u32, pieces, rfind, rsplit_once, split, split_once, split_top_level, starts_with,
    string_of, strip_prefix, strip_suffix, take_word, texts, trim, trim_end, trimmed, trimmed_back,
};
use vstd::prelude::*;
use vstd::slice::slice_subrange;
use vstd::string::*;

verus! {

// ---------------------------------------------------------------------------
// Comments and spans
// ---------------------------------------------------------------------------

/// A line as the code before its first `//` and the comment after it.
pub open spec fn without_comment(line: Seq<char>) -> (Seq<char>, Option<Seq<char>>) {
    match cut_first(line, "//"@) {
        Some((code, comment)) => (trimmed_back(code), Some(trimmed(comment))),
        None => (line, None),
    }
}

/// Splits a line into the code before `//`, without trailing white space, and
/// the comment after it.
pub fn split_off_trailing_comment(line: &[char]) -> (r: (&[char], Option<&[char]>))
    ensures
        r.0@ == without_comment(line@).0,
        r.1 is Some == without_comment(line@).1 is Some,
        r.1 matches Some(c) ==> c@ == without_comment(line@).1->0,
{
    match split_once(line, "//") {
        Some((code, comment)) => (trim_end(code), Some(trim(comment))),
        None => (line, None),
    }
}

/// `<file>:<L1>:<C1>: <L2>:<C2>`, where the file may itself hold colons.
pub open spec fn span_literal(s: Seq<char>) -> Option<SpanView> {
    match cut_last(s, ": "@) {
        Some((start, end)) => match (cut_first(trimmed(end), ":"@), cut_last(start, ":"@)) {
            (Some((end_line, end_col)), Some((place, start_col))) => match cut_last(place, ":"@) {
                Some((file, start_line)) => match (
                    number_u32(start_line),
                    number_u32(start_col),
                    number_u32(end_line),
                    number_u32(end_col),
                ) {
                    (Some(sl), Some(sc), Some(el), Some(ec)) => Some(
                        SpanView {
                            file,
                            start_line: sl,
                            start_col: sc,
                            end_line: el,
                            end_col: ec,
                        },
                    ),
                    _ => None,
                },
                None => None,
            },
            _ => None,
        },
        None => None,
    }
}

/// Reads a `<file>:<L1>:<C1>: <L2>:<C2>` literal.
pub fn read_span_literal(s: &[char]) -> (r: Option<SourceSpan>)
    ensures
        r.deep_view() == span_literal(s@),
{
    let (start, end) = match rsplit_once(s, ": ") {
        Some(t) => t,
        None => return None,
    };
    let (end_line_text, end_col_text) = match split_once(trim(end), ":") {
        Some(t) => t,
        None => return None,
    };
    let end_line: u32 = match parse_u32(end_line_text) {
        Some(n) => n,
        None => return None,
    };
    let end_col: u32 = match parse_u32(end_col_text) {
        Some(n) => n,
        None => return None,
    };
    let (place, start_col_text) = match rsplit_once(start, ":") {
        Some(t) => t,
        None => return None,
    };
    let start_col: u32 = match parse_u32(start_col_text) {
        Some(n) => n,
        None => return None,
    };
    let (file, start_line_text) = match rsplit_once(place, ":") {
        Some(t) => t,
        None => return None,
    };
    let start_line: u32 = match parse_u32(start_line_text) {
        Some(n) => n,
        None => return None,
    };
    Some(SourceSpan { file: string_of(file), start_line, start_col, end_line, end_col })
}

/// Parses a `<file>:<L1>:<C1>: <L2>:<C2>` literal into a [`SourceSpan`].
pub fn parse_span_literal(s: &str) -> (r: Option<SourceSpan>)
    ensures
        r.deep_view() == span_literal(s@),
{
    let chars = chars_of(s);
    read_span_literal(chars.as_slice())
}

/// The span that a comment such as `scope <N> at <span>` gives: what follows
/// the last ` at `.
pub open spec fn span_of_comment(comment: Seq<char>) -> Option<SpanView> {
    match cut_last(comment, " at "@) {
        Some((_, span)) => span_literal(trimmed(span)),
        None => None,
    }
}

/// Reads the span out of a comment.
pub fn read_span_comment(comment: &[char]) -> (r: Option<SourceSpan>)
    ensures
        r.deep_view() == span_of_comment(comment@),
{
    match rsplit_once(comment, " at ") {
        Some((_, span)) => read_span_literal(trim(span)),
        None => None,
    }
}

/// Extracts a [`SourceSpan`] from an MIR comment of the form
/// `scope <N> at <file>:<L>:<C>: <L>:<C>` (or variants beginning with
/// `in scope`, `return place in scope`, etc.).
pub fn extract_span_from_comment(comment: &str) -> (r: Option<SourceSpan>)
    ensures
        r.deep_view() == span_of_comment(comment@),
{
    let chars = chars_of(comment);
    read_span_comment(chars.as_slice())
}

// ---------------------------------------------------------------------------
// Locals and headers
// ---------------------------------------------------------------------------

/// A number behind a fixed prefix.
pub open spec fn numbered(s: Seq<char>, prefix: Seq<char>) -> Option<u32> {
    match after_prefix(s, prefix) {
        Some(digits) => number_u32(digits),
        None => None,
    }
}

/// Reads a number behind a fixed prefix.
fn read_numbered(s: &[char], prefix: &str) -> (r: Option<u32>)
    ensures
        r == numbered(s@, prefix@),
{
    match strip_prefix(s, prefix) {
        Some(digits) => parse_u32(digits),
        None => None,
    }
}

/// `_<local>: <ty>`.
pub open spec fn argument(s: Seq<char>) -> Option<ArgView> {
    match cut_first(s, ":"@) {
        Some((local, ty)) => match numbered(trimmed(local), "_"@) {
            Some(local) => Some(ArgView { local, ty: trimmed(ty) }),
            None => None,
        },
        None => None,
    }
}

/// The arguments that `parts` spell, behind those already in `args`; blank
/// parts count for nothing.
pub open spec fn arguments(parts: Seq<Seq<char>>, args: Seq<ArgView>) -> Option<Seq<ArgView>>
    decreases parts.len(),
{
    if parts.len() == 0 {
        Some(args)
    } else if trimmed(parts[0]).len() == 0 {
        arguments(parts.skip(1), args)
    } else {
        match argument(trimmed(parts[0])) {
            Some(arg) => arguments(parts.skip(1), args.push(arg)),
            None => None,
        }
    }
}

/// Reads the arguments of a function header.
fn read_arguments(text: &[char]) -> (r: Option<Vec<MirArg>>)
    ensures
        r.deep_view() == arguments(outer_pieces(text@, ','), seq![]),
{
    let parts = split_top_level(text, ',');
    let ghost all = texts(parts@);
    let mut args: Vec<MirArg> = Vec::new();
    let mut i: usize = 0;
    assert(args.deep_view() =~= seq![]);
    assert(all.skip(0) =~= all);
    while i < parts.len()
        invariant
            i <= parts@.len(),
            all == texts(parts@),
            all == outer_pieces(text@, ','),
            arguments(all, seq![]) == arguments(all.skip(i as int), args.deep_view()),
        decreases parts@.len() - i,
    {
        let part = trim(parts[i]);
        assert(all.skip(i as int)[0] == parts@[i as int]@);
        assert(all.skip(i as int).skip(1) =~= all.skip(i + 1));
        if part.len() > 0 {
            let (local_text, ty) = match split_once(part, ":") {
                Some(t) => t,
                None => return None,
            };
            let local: u32 = match read_numbered(trim(local_text), "_") {
                Some(n) => n,
                None => return None,
            };
            let arg = MirArg { local, ty: string_of(trim(ty)) };
            let ghost before = args.deep_view();
            args.push(arg);
            assert(args.deep_view() =~= before.push(arg.deep_view()));
        }
        i += 1;
    }
    assert(all.skip(i as int) =~= seq![]);
    Some(args)
}

/// `fn <name>(<args>)[ -> <ty>] {`.
pub open spec fn function_header(line: Seq<char>) -> Option<FunctionView> {
    match after_prefix(line, "fn "@) {
        Some(rest) => match before_suffix(rest, " {"@) {
            Some(body) => match cut_first(trimmed(body), "("@) {
                Some((name, after)) => match closing_from(after, 0, 1) {
                    Some(close) => match arguments(outer_pieces(after.take(close), ','), seq![]) {
                        Some(args) => Some(
                            FunctionView {
                                name: trimmed(name),
                                args,
                                return_ty: match after_prefix(
                                    trimmed(after.skip(close + 1)),
                                    "->"@,
                                ) {
                                    Some(ty) => trimmed(ty),
                                    None => seq![],
                                },
                                ..empty_function()
                            },
                        ),
                        None => None,
                    },
                    None => None,
                },
                None => None,
            },
            None => None,
        },
        None => None,
    }
}

/// Reads a function header.
pub fn parse_fn_header(line: &[char]) -> (r: Option<MirFunction>)
    ensures
        r.deep_view() == function_header(line@),
{
    let rest = match strip_prefix(line, "fn ") {
        Some(t) => t,
        None => return None,
    };
    let body = match strip_suffix(rest, " {") {
        Some(t) => t,
        None => return None,
    };
    let (name, after) = match split_once(trim(body), "(") {
        Some(t) => t,
        None => return None,
    };
    let close: usize = match find_matching_close(after) {
        Some(i) => i,
        None => return None,
    };
    let len: usize = after.len();
    let tail = trim(slice_subrange(after, close + 1, len));
    let return_ty = match strip_prefix(tail, "->") {
        Some(ty) => string_of(trim(ty)),
        None => String::new(),
    };
    let args = match read_arguments(slice_subrange(after, 0, close)) {
        Some(a) => a,
        None => return None,
    };
    assert(after@.subrange(close + 1, after@.len() as int) =~= after@.skip(close + 1));
    assert(after@.subrange(0, close as int) =~= after@.take(close as int));
    let mut f = MirFunction::default();
    f.name = string_of(trim(name));
    f.args = args;
    f.return_ty = return_ty;
    Some(f)
}

/// `bb<N>: {`, with or without an annotation such as `(cleanup)` behind the
/// block's name.
pub open spec fn block_label(line: Seq<char>) -> Option<BlockId> {
    match before_suffix(line, "{"@) {
        Some(head) => match before_suffix(trimmed(head), ":"@) {
            Some(label) => match first_word(trimmed(label)) {
                Some(word) => numbered(word, "bb"@),
                None => None,
            },
            None => None,
        },
        None => None,
    }
}

/// Reads a block header.
pub fn parse_bb_header(line: &[char]) -> (r: Option<BlockId>)
    ensures
        r == block_label(line@),
{
    let head = match strip_suffix(line, "{") {
        Some(t) => t,
        None => return None,
    };
    let label = match strip_suffix(trim(head), ":") {
        Some(t) => t,
        None => return None,
    };
    match take_word(trim(label)) {
        Some(word) => read_numbered(word, "bb"),
        None => None,
    }
}

/// `let [mut ]_<local>: <ty>;`, with the given span.
pub open spec fn local_line(line: Seq<char>, span: Option<SpanView>) -> Option<LocalView> {
    match after_prefix(line, "let "@) {
        Some(rest) => match before_suffix(rest, ";"@) {
            Some(decl) => {
                let mutable = begins_with(decl, "mut "@);
                let plain = if mutable {
                    after_prefix(decl, "mut "@)->0
                } else {
                    decl
                };
                match argument(plain) {
                    Some(arg) => Some(LocalView { local: arg.local, ty: arg.ty, mutable, span }),
                    None => None,
                }
            },
            None => None,
        },
        None => None,
    }
}

/// Reads a `let` declaration.
pub fn parse_let(line: &[char], span: Option<SourceSpan>) -> (r: Option<MirLocal>)
    ensures
        r.deep_view() == local_line(line@, span.deep_view()),
{
    let rest = match strip_prefix(line, "let ") {
        Some(t) => t,
        None => return None,
    };
    let decl = match strip_suffix(rest, ";") {
        Some(t) => t,
        None => return None,
    };
    let (mutable, plain) = match strip_prefix(decl, "mut ") {
        Some(r) => (true, r),
        None => (false, decl),
    };
    let (local_text, ty) = match split_once(plain, ":") {
        Some(t) => t,
        None => return None,
    };
    let local: u32 = match read_numbered(trim(local_text), "_") {
        Some(n) => n,
        None => return None,
    };
    Some(MirLocal { local, ty: string_of(trim(ty)), mutable, span })
}

// ---------------------------------------------------------------------------
// Debug annotations and captures
// ---------------------------------------------------------------------------

/// What a `debug` annotation declares.
pub enum DebugAnnotation {
    /// `debug name => _N;`: a local binding.
    Local { name: String, local: LocalId },
    /// `debug name => <capture-expr>;`: a closure capture, by value or by
    /// reference.
    Capture(MirCapture),
}

/// The model of a [`DebugAnnotation`].
pub enum DebugView {
    Local { name: Seq<char>, local: LocalId },
    Capture(CaptureView),
}

impl DeepView for DebugAnnotation {
    type V = DebugView;

    open spec fn deep_view(&self) -> DebugView {
        match *self {
            DebugAnnotation::Local { name, local } => DebugView::Local { name: name@, local },
            DebugAnnotation::Capture(c) => DebugView::Capture(c.deep_view()),
        }
    }
}

/// `(*_<env>).<field>: <Ty>` as environment, field and type.
pub open spec fn env_field(s: Seq<char>) -> Option<(LocalId, u32, Seq<char>)> {
    match after_prefix(s, "(*_"@) {
        Some(rest) => match cut_first(rest, ")"@) {
            Some((env, after)) => match after_prefix(after, "."@) {
                Some(access) => match cut_first(access, ":"@) {
                    Some((field, ty)) => match (number_u32(env), number_u32(field)) {
                        (Some(e), Some(f)) => Some((e, f, trimmed(ty))),
                        _ => None,
                    },
                    None => None,
                },
                None => None,
            },
            None => None,
        },
        None => None,
    }
}

/// Reads the `(*_N).F: <Ty>` core of a capture expression as its environment
/// local, field and type.
fn parse_env_field(s: &[char]) -> (r: Option<(LocalId, u32, &[char])>)
    ensures
        r is Some == env_field(s@) is Some,
        r matches Some(t) ==> (t.0, t.1, t.2@) == env_field(s@)->0,
{
    let rest = match strip_prefix(s, "(*_") {
        Some(t) => t,
        None => return None,
    };
    let (env_text, after) = match split_once(rest, ")") {
        Some(t) => t,
        None => return None,
    };
    let env: u32 = match parse_u32(env_text) {
        Some(n) => n,
        None => return None,
    };
    let access = match strip_prefix(after, ".") {
        Some(t) => t,
        None => return None,
    };
    let (field_text, ty) = match split_once(access, ":") {
        Some(t) => t,
        None => return None,
    };
    match parse_u32(field_text) {
        Some(field) => Some((env, field, trim(ty))),
        None => None,
    }
}

/// What stands between a prefix and a suffix.
pub open spec fn enclosed(s: Seq<char>, prefix: Seq<char>, suffix: Seq<char>) -> Option<Seq<char>> {
    match after_prefix(s, prefix) {
        Some(rest) => before_suffix(rest, suffix),
        None => None,
    }
}

/// Takes a prefix and a suffix off `s`.
fn strip_around<'a>(s: &'a [char], prefix: &str, suffix: &str) -> (r: Option<&'a [char]>)
    ensures
        r is Some == enclosed(s@, prefix@, suffix@) is Some,
        r matches Some(t) ==> t@ == enclosed(s@, prefix@, suffix@)->0,
{
    match strip_prefix(s, prefix) {
        Some(rest) => strip_suffix(rest, suffix),
        None => None,
    }
}

/// A capture by reference, `(*((*_N).F: &T))` or `(*((*_N).F: &mut T))`, or
/// by value, `((*_N).F: T)`.
pub open spec fn capture_expr(rhs: Seq<char>, name: Seq<char>) -> Option<CaptureView> {
    let by_ref = enclosed(rhs, "(*("@, "))"@);
    let core = if by_ref is Some {
        by_ref
    } else {
        enclosed(rhs, "("@, ")"@)
    };
    match core {
        Some(inner) => match env_field(inner) {
            Some((env_local, field, _)) => Some(
                CaptureView { name, env_local, field, by_ref: by_ref is Some },
            ),
            None => None,
        },
        None => None,
    }
}

/// Reads a closure-capture expression.
fn parse_capture_expr(rhs: &[char], name: String) -> (r: Option<MirCapture>)
    ensures
        r.deep_view() == capture_expr(rhs@, name@),
{
    if let Some(inner) = strip_around(rhs, "(*(", "))") {
        return match parse_env_field(inner) {
            Some((env_local, field, _ty)) => Some(
                MirCapture { name, env_local, field, by_ref: true },
            ),
            None => None,
        };
    }
    if let Some(inner) = strip_around(rhs, "(", ")") {
        return match parse_env_field(inner) {
            Some((env_local, field, _ty)) => Some(
                MirCapture { name, env_local, field, by_ref: false },
            ),
            None => None,
        };
    }
    None
}

/// `debug <name> => <expr>;`, where the expression is a local or a capture.
pub open spec fn debug_line(line: Seq<char>) -> Option<DebugView> {
    match enclosed(line, "debug "@, ";"@) {
        Some(s) => match cut_first(s, "=>"@) {
            Some((name, expr)) => match numbered(trimmed(expr), "_"@) {
                Some(local) => Some(DebugView::Local { name: trimmed(name), local }),
                None => match capture_expr(trimmed(expr), trimmed(name)) {
                    Some(c) => Some(DebugView::Capture(c)),
                    None => None,
                },
            },
            None => None,
        },
        None => None,
    }
}

/// Reads a `debug` annotation.
pub fn parse_debug(line: &[char]) -> (r: Option<DebugAnnotation>)
    ensures
        r.deep_view() == debug_line(line@),
{
    let s = match strip_around(line, "debug ", ";") {
        Some(t) => t,
        None => return None,
    };
    let (name_text, expr) = match split_once(s, "=>") {
        Some(t) => t,
        None => return None,
    };
    let name = string_of(trim(name_text));
    let rhs = trim(expr);
    if let Some(local) = read_numbered(rhs, "_") {
        return Some(DebugAnnotation::Local { name, local });
    }
    match parse_capture_expr(rhs, name) {
        Some(c) => Some(DebugAnnotation::Capture(c)),
        None => None,
    }
}

// ---------------------------------------------------------------------------
// Right-hand sides
// ---------------------------------------------------------------------------

/// `copy _<N>`, or a copy through a reference, `copy (*_<N>)`.
pub open spec fn copied_local(rhs: Seq<char>) -> Option<LocalId> {
    match numbered(rhs, "copy _"@) {
        Some(src) => Some(src),
        None => match after_prefix(rhs, "copy (*_"@) {
            Some(inner) => match cut_first(inner, ")"@) {
                Some((digits, _)) => number_u32(digits),
                None => None,
            },
            None => None,
        },
    }
}

/// Reads a copied local.
fn parse_copied_local(rhs: &[char]) -> (r: Option<LocalId>)
    ensures
        r == copied_local(rhs@),
{
    if let Some(src) = read_numbered(rhs, "copy _") {
        return Some(src);
    }
    match strip_prefix(rhs, "copy (*_") {
        Some(inner) => match split_once(inner, ")") {
            Some((digits, _rest)) => parse_u32(digits),
            None => None,
        },
        None => None,
    }
}

/// `[no_retag ]copy ((*_N).<F>: <Ty>)` as environment, field, and whether the
/// type is a reference.
pub open spec fn capture_read(rhs: Seq<char>) -> Option<(LocalId, u32, bool)> {
    let copied = match after_prefix(rhs, "no_retag copy "@) {
        Some(rest) => Some(rest),
        None => after_prefix(rhs, "copy "@),
    };
    match copied {
        Some(place) => match enclosed(place, "("@, ")"@) {
            Some(inner) => match env_field(inner) {
                Some((env, field, ty)) => Some((env, field, begins_with(ty, "&"@))),
                None => None,
            },
            None => None,
        },
        None => None,
    }
}

/// Reads a capture read.
fn parse_capture_read_rhs(rhs: &[char]) -> (r: Option<(LocalId, u32, bool)>)
    ensures
        r == capture_read(rhs@),
{
    let copied = match strip_prefix(rhs, "no_retag copy ") {
        Some(rest) => Some(rest),
        None => strip_prefix(rhs, "copy "),
    };
    let place = match copied {
        Some(t) => t,
        None => return None,
    };
    let inner = match strip_around(place, "(", ")") {
        Some(t) => t,
        None => return None,
    };
    match parse_env_field(inner) {
        Some((env, field, ty)) => Some((env, field, starts_with(ty, "&"))),
        None => None,
    }
}

/// `const true` or `const false`.
pub open spec fn const_bool(rhs: Seq<char>) -> Option<bool> {
    match after_prefix(rhs, "const "@) {
        Some(value) => if value == "true"@ {
            Some(true)
        } else if value == "false"@ {
            Some(false)
        } else {
            None
        },
        None => None,
    }
}

/// Reads a boolean constant.
fn parse_const_bool(rhs: &[char]) -> (r: Option<bool>)
    ensures
        r == const_bool(rhs@),
{
    match strip_prefix(rhs, "const ") {
        Some(value) => if is_text(value, "true") {
            Some(true)
        } else if is_text(value, "false") {
            Some(false)
        } else {
            None
        },
        None => None,
    }
}

/// `_<N>`, with or without `copy` or `move` before it.
pub open spec fn local_token(s: Seq<char>) -> Option<LocalId> {
    match after_prefix(s, "copy _"@) {
        Some(digits) => number_u32(digits),
        None => match after_prefix(s, "move _"@) {
            Some(digits) => number_u32(digits),
            None => numbered(s, "_"@),
        },
    }
}

/// Reads a local token that may carry a `copy` or `move` prefix.
fn parse_local_token(s: &[char]) -> (r: Option<LocalId>)
    ensures
        r == local_token(s@),
{
    match strip_prefix(s, "copy _") {
        Some(digits) => parse_u32(digits),
        None => match strip_prefix(s, "move _") {
            Some(digits) => parse_u32(digits),
            None => read_numbered(s, "_"),
        },
    }
}

/// `discriminant(<local>)`.
pub open spec fn discriminant_of(rhs: Seq<char>) -> Option<LocalId> {
    match enclosed(rhs, "discriminant("@, ")"@) {
        Some(arg) => local_token(trimmed(arg)),
        None => None,
    }
}

/// Reads a discriminant read.
fn parse_discriminant(rhs: &[char]) -> (r: Option<LocalId>)
    ensures
        r == discriminant_of(rhs@),
{
    match strip_around(rhs, "discriminant(", ")") {
        Some(arg) => parse_local_token(trim(arg)),
        None => None,
    }
}

/// `copy ((_<src> as <Variant>).<field>: <Ty>)` as source, variant and field.
pub open spec fn downcast(rhs: Seq<char>) -> Option<(LocalId, Seq<char>, u32)> {
    match enclosed(rhs, "copy (("@, ")"@) {
        Some(body) => match cut_first(body, ")"@) {
            Some((head, tail)) => match (cut_first(head, " as "@), after_prefix(tail, "."@)) {
                (Some((src, variant)), Some(access)) => match cut_first(access, ":"@) {
                    Some((field, _)) => match (
                        numbered(trimmed(src), "_"@),
                        number_u32(trimmed(field)),
                    ) {
                        (Some(s), Some(f)) => if trimmed(variant).len() > 0 {
                            Some((s, trimmed(variant), f))
                        } else {
                            None
                        },
                        _ => None,
                    },
                    None => None,
                },
                _ => None,
            },
            None => None,
        },
        None => None,
    }
}

/// Reads a downcast.
fn parse_downcast_rhs(rhs: &[char]) -> (r: Option<(LocalId, String, u32)>)
    ensures
        match r {
            Some(t) => downcast(rhs@) == Some((t.0, t.1@, t.2)),
            None => downcast(rhs@) is None,
        },
{
    let body = match strip_around(rhs, "copy ((", ")") {
        Some(t) => t,
        None => return None,
    };
    let (head, tail) = match split_once(body, ")") {
        Some(t) => t,
        None => return None,
    };
    let (src_text, variant_text) = match split_once(head, " as ") {
        Some(t) => t,
        None => return None,
    };
    let src: u32 = match read_numbered(trim(src_text), "_") {
        Some(n) => n,
        None => return None,
    };
    let variant = trim(variant_text);
    if variant.len() == 0 {
        return None;
    }
    let access = match strip_prefix(tail, ".") {
        Some(t) => t,
        None => return None,
    };
    let (field_text, _ty) = match split_once(access, ":") {
        Some(t) => t,
        None => return None,
    };
    match parse_u32(trim(field_text)) {
        Some(field) => Some((src, string_of(variant), field)),
        None => None,
    }
}

/// `copy _<N>`, `move _<N>` or `const <literal>`.
pub open spec fn operand(s: Seq<char>) -> Option<OperandView> {
    match after_prefix(s, "copy _"@) {
        Some(digits) => match number_u32(digits) {
            Some(n) => Some(OperandView::Copy(n)),
            None => None,
        },
        None => match after_prefix(s, "move _"@) {
            Some(digits) => match number_u32(digits) {
                Some(n) => Some(OperandView::Move(n)),
                None => None,
            },
            None => match after_prefix(s, "const "@) {
                Some(literal) => Some(OperandView::Const(literal)),
                None => None,
            },
        },
    }
}

/// Reads a single operand.
fn parse_operand(s: &[char]) -> (r: Option<Operand>)
    ensures
        r.deep_view() == operand(s@),
{
    match strip_prefix(s, "copy _") {
        Some(digits) => match parse_u32(digits) {
            Some(n) => Some(Operand::Copy(n)),
            None => None,
        },
        None => match strip_prefix(s, "move _") {
            Some(digits) => match parse_u32(digits) {
                Some(n) => Some(Operand::Move(n)),
                None => None,
            },
            None => match strip_prefix(s, "const ") {
                Some(literal) => Some(Operand::Const(string_of(literal))),
                None => None,
            },
        },
    }
}

/// The operator that a right-hand side names, and what follows its opening
/// parenthesis.
pub open spec fn comparison_head(rhs: Seq<char>) -> Option<(CompareOp, Seq<char>)> {
    if begins_with(rhs, "Eq("@) {
        Some((CompareOp::Eq, after_prefix(rhs, "Eq("@)->0))
    } else if begins_with(rhs, "Ne("@) {
        Some((CompareOp::Ne, after_prefix(rhs, "Ne("@)->0))
    } else if begins_with(rhs, "Le("@) {
        Some((CompareOp::Le, after_prefix(rhs, "Le("@)->0))
    } else if begins_with(rhs, "Lt("@) {
        Some((CompareOp::Lt, after_prefix(rhs, "Lt("@)->0))
    } else if begins_with(rhs, "Ge("@) {
        Some((CompareOp::Ge, after_prefix(rhs, "Ge("@)->0))
    } else if begins_with(rhs, "Gt("@) {
        Some((CompareOp::Gt, after_prefix(rhs, "Gt("@)->0))
    } else {
        None
    }
}

/// `<Op>(<operand>, <operand>)`.
pub open spec fn comparison(rhs: Seq<char>) -> Option<(CompareOp, OperandView, OperandView)> {
    match comparison_head(rhs) {
        Some((op, rest)) => match before_suffix(rest, ")"@) {
            Some(inner) => {
                let parts = outer_pieces(inner, ',');
                if parts.len() == 2 {
                    match (operand(trimmed(parts[0])), operand(trimmed(parts[1]))) {
                        (Some(a), Some(b)) => Some((op, a, b)),
                        _ => None,
                    }
                } else {
                    None
                }
            },
            None => None,
        },
        None => None,
    }
}

/// Reads the operator of a comparison.
fn parse_comparison_head(rhs: &[char]) -> (r: Option<(CompareOp, &[char])>)
    ensures
        r is Some == comparison_head(rhs@) is Some,
        r matches Some(t) ==> (t.0, t.1@) == comparison_head(rhs@)->0,
{
    if let Some(rest) = strip_prefix(rhs, "Eq(") {
        Some((CompareOp::Eq, rest))
    } else if let Some(rest) = strip_prefix(rhs, "Ne(") {
        Some((CompareOp::Ne, rest))
    } else if let Some(rest) = strip_prefix(rhs, "Le(") {
        Some((CompareOp::Le, rest))
    } else if let Some(rest) = strip_prefix(rhs, "Lt(") {
        Some((CompareOp::Lt, rest))
    } else if let Some(rest) = strip_prefix(rhs, "Ge(") {
        Some((CompareOp::Ge, rest))
    } else if let Some(rest) = strip_prefix(rhs, "Gt(") {
        Some((CompareOp::Gt, rest))
    } else {
        None
    }
}

/// Reads a comparison.
fn parse_compare_rhs(rhs: &[char]) -> (r: Option<(CompareOp, Operand, Operand)>)
    ensures
        match r {
            Some(t) => comparison(rhs@) == Some((t.0, t.1.deep_view(), t.2.deep_view())),
            None => comparison(rhs@) is None,
        },
{
    let (op, rest) = match parse_comparison_head(rhs) {
        Some(t) => t,
        None => return None,
    };
    let inner = match strip_suffix(rest, ")") {
        Some(t) => t,
        None => return None,
    };
    let parts = split_top_level(inner, ',');
    assert(texts(parts@).len() == parts@.len());
    if parts.len() != 2 {
        return None;
    }
    assert(texts(parts@)[0] == parts@[0]@);
    assert(texts(parts@)[1] == parts@[1]@);
    let lhs = match parse_operand(trim(parts[0])) {
        Some(o) => o,
        None => return None,
    };
    match parse_operand(trim(parts[1])) {
        Some(rhs) => Some((op, lhs, rhs)),
        None => None,
    }
}

// ---------------------------------------------------------------------------
// Statements
// ---------------------------------------------------------------------------

/// The assignment of `rhs` to `dst`. The shapes are tried in this order.
pub open spec fn assignment(dst: LocalId, rhs: Seq<char>, span: Option<SpanView>) -> Option<
    StatementView,
> {
    if copied_local(rhs) is Some {
        Some(StatementView::AssignCopy { dst, src: copied_local(rhs)->0, span })
    } else if capture_read(rhs) is Some {
        let (env, field, holds_ref) = capture_read(rhs)->0;
        Some(StatementView::AssignCaptureRead { dst, env, field, holds_ref, span })
    } else if const_bool(rhs) is Some {
        Some(StatementView::AssignConstBool { dst, value: const_bool(rhs)->0, span })
    } else if discriminant_of(rhs) is Some {
        Some(StatementView::AssignDiscriminant { dst, src: discriminant_of(rhs)->0, span })
    } else if downcast(rhs) is Some {
        let (src, variant, field) = downcast(rhs)->0;
        Some(StatementView::AssignDowncast { dst, src, variant, field, span })
    } else if comparison(rhs) is Some {
        let (op, a, b) = comparison(rhs)->0;
        Some(StatementView::AssignBinaryCompare { dst, op, lhs: a, rhs: b, span })
    } else {
        None
    }
}

/// `_<dst> = <rhs>;` where the right-hand side has a known shape.
pub open spec fn statement_line(line: Seq<char>, span: Option<SpanView>) -> Option<StatementView> {
    match before_suffix(line, ";"@) {
        Some(s) => match cut_first(s, " = "@) {
            Some((place, rhs)) => match numbered(trimmed(place), "_"@) {
                Some(dst) => assignment(dst, trimmed(rhs), span),
                None => None,
            },
            None => None,
        },
        None => None,
    }
}

/// Reads a statement.
pub fn parse_statement(line: &[char], span: Option<SourceSpan>) -> (r: Option<MirStatement>)
    ensures
        r.deep_view() == statement_line(line@, span.deep_view()),
{
    let s = match strip_suffix(line, ";") {
        Some(t) => t,
        None => return None,
    };
    let (place, rhs_text) = match split_once(s, " = ") {
        Some(t) => t,
        None => return None,
    };
    let dst: u32 = match read_numbered(trim(place), "_") {
        Some(n) => n,
        None => return None,
    };
    let rhs = trim(rhs_text);
    if let Some(src) = parse_copied_local(rhs) {
        return Some(MirStatement::AssignCopy { dst, src, span });
    }
    if let Some((env, field, holds_ref)) = parse_capture_read_rhs(rhs) {
        return Some(MirStatement::AssignCaptureRead { dst, env, field, holds_ref, span });
    }
    if let Some(value) = parse_const_bool(rhs) {
        return Some(MirStatement::AssignConstBool { dst, value, span });
    }
    if let Some(src) = parse_discriminant(rhs) {
        return Some(MirStatement::AssignDiscriminant { dst, src, span });
    }
    if let Some((src, variant, field)) = parse_downcast_rhs(rhs) {
        return Some(MirStatement::AssignDowncast { dst, src, variant, field, span });
    }
    if let Some((op, a, b)) = parse_compare_rhs(rhs) {
        return Some(MirStatement::AssignBinaryCompare { dst, op, lhs: a, rhs: b, span });
    }
    None
}

// ---------------------------------------------------------------------------
// Terminators
// ---------------------------------------------------------------------------

/// The block that the first `return:` arm leads to. Other arms (`unwind`)
/// are not followed.
pub open spec fn return_target(arms: Seq<Seq<char>>) -> Option<BlockId>
    decreases arms.len(),
{
    if arms.len() == 0 {
        None
    } else {
        match after_prefix(trimmed(arms[0]), "return:"@) {
            Some(rest) => numbered(trimmed(rest), "bb"@),
            None => return_target(arms.skip(1)),
        }
    }
}

/// Reads the target of the first `return:` arm.
fn parse_return_target(arms_text: &[char]) -> (r: Option<BlockId>)
    ensures
        r == return_target(outer_pieces(arms_text@, ',')),
{
    let arms = split_top_level(arms_text, ',');
    let ghost all = texts(arms@);
    let mut i: usize = 0;
    assert(all.skip(0) =~= all);
    while i < arms.len()
        invariant
            i <= arms@.len(),
            all == texts(arms@),
            all == outer_pieces(arms_text@, ','),
            return_target(all) == return_target(all.skip(i as int)),
        decreases arms@.len() - i,
    {
        assert(all.skip(i as int)[0] == arms@[i as int]@);
        assert(all.skip(i as int).skip(1) =~= all.skip(i + 1));
        if let Some(rest) = strip_prefix(trim(arms[i]), "return:") {
            return read_numbered(trim(rest), "bb");
        }
        i += 1;
    }
    None
}

/// `_<dst> = <func-expr>(<args>) -> [<arms>]` as destination, function
/// expression and return target. The last `) -> [` separates the call from
/// the arms; the function expression ends at the parenthesis that opens the
/// argument list, the first outside all brackets.
pub open spec fn call_terminator(s: Seq<char>) -> Option<(LocalId, Seq<char>, BlockId)> {
    match cut_last(s, ") -> ["@) {
        Some((before, after)) => match (
            before_suffix(after, "]"@),
            cut_first(before.push(')'), " = "@),
        ) {
            (Some(arms), Some((place, call))) => match (
                numbered(trimmed(place), "_"@),
                return_target(outer_pieces(arms, ',')),
            ) {
                (Some(dst), Some(target)) => {
                    let call = trimmed(call);
                    let func = match outer_from(call, '(', 0) {
                        Some(i) => trimmed(call.take(i)),
                        None => call,
                    };
                    Some((dst, func, target))
                },
                _ => None,
            },
            _ => None,
        },
        None => None,
    }
}

/// Reads a function-call terminator, its `;` already taken off.
fn parse_call_terminator(s: &[char]) -> (r: Option<(LocalId, String, BlockId)>)
    ensures
        match r {
            Some(t) => call_terminator(s@) == Some((t.0, t.1@, t.2)),
            None => call_terminator(s@) is None,
        },
{
    let arrow: usize = match rfind(s, ") -> [") {
        Some(i) => i,
        None => return None,
    };
    proof {
        reveal_strlit(") -> [");
        crate::text::last_upto_is_last(s@, ") -> ["@, s@.len() as int);
        assert(s@.subrange(arrow as int, arrow + 6)[0] == s@[arrow as int]);
        assert(s@[arrow as int] == ')');
        assert(s@.subrange(0, arrow + 1) =~= s@.take(arrow as int).push(')'));
        assert(s@.subrange(arrow + 6, s@.len() as int) =~= s@.skip(arrow + 6));
    }
    let len: usize = s.len();
    let lhs = slice_subrange(s, 0, arrow + 1);
    let arms = match strip_suffix(slice_subrange(s, arrow + 6, len), "]") {
        Some(t) => t,
        None => return None,
    };
    let (place, call_text) = match split_once(lhs, " = ") {
        Some(t) => t,
        None => return None,
    };
    let dst: u32 = match read_numbered(trim(place), "_") {
        Some(n) => n,
        None => return None,
    };
    let call = trim(call_text);
    let func = match find_outer(call, '(') {
        Some(i) => {
            assert(call@.subrange(0, i as int) =~= call@.take(i as int));
            string_of(trim(slice_subrange(call, 0, i)))
        },
        None => string_of(call),
    };
    match parse_return_target(arms) {
        Some(target) => Some((dst, func, target)),
        None => None,
    }
}

/// The arms of a `switchInt`, behind those already in `targets` and
/// `otherwise`. An arm whose key is no number is followed only if it is
/// `otherwise`.
pub open spec fn switch_arms(
    arms: Seq<Seq<char>>,
    targets: Seq<(u128, BlockId)>,
    otherwise: Option<BlockId>,
) -> Option<(Seq<(u128, BlockId)>, Option<BlockId>)>
    decreases arms.len(),
{
    if arms.len() == 0 {
        Some((targets, otherwise))
    } else {
        match cut_first(trimmed(arms[0]), ":"@) {
            Some((key, block)) => match numbered(trimmed(block), "bb"@) {
                Some(target) => if trimmed(key) == "otherwise"@ {
                    switch_arms(arms.skip(1), targets, Some(target))
                } else {
                    match number_u128(trimmed(key)) {
                        Some(v) => switch_arms(arms.skip(1), targets.push((v, target)), otherwise),
                        None => switch_arms(arms.skip(1), targets, otherwise),
                    }
                },
                None => None,
            },
            None => None,
        }
    }
}

/// Reads the arms of a `switchInt`.
fn parse_switch_arms(arms_text: &[char]) -> (r: Option<(Vec<(u128, BlockId)>, Option<BlockId>)>)
    ensures
        match r {
            Some(t) => switch_arms(pieces(arms_text@, ','), seq![], None) == Some((t.0@, t.1)),
            None => switch_arms(pieces(arms_text@, ','), seq![], None) is None,
        },
{
    let arms = split(arms_text, ',');
    let ghost all = texts(arms@);
    let mut targets: Vec<(u128, BlockId)> = Vec::new();
    let mut otherwise: Option<BlockId> = None;
    let mut i: usize = 0;
    assert(all.skip(0) =~= all);
    assert(targets@ =~= seq![]);
    while i < arms.len()
        invariant
            i <= arms@.len(),
            all == texts(arms@),
            all == pieces(arms_text@, ','),
            switch_arms(all, seq![], None) == switch_arms(all.skip(i as int), targets@, otherwise),
        decreases arms@.len() - i,
    {
        assert(all.skip(i as int)[0] == arms@[i as int]@);
        assert(all.skip(i as int).skip(1) =~= all.skip(i + 1));
        let (key_text, block) = match split_once(trim(arms[i]), ":") {
            Some(t) => t,
            None => return None,
        };
        let key = trim(key_text);
        let target: u32 = match read_numbered(trim(block), "bb") {
            Some(n) => n,
            None => return None,
        };
        if is_text(key, "otherwise") {
            otherwise = Some(target);
        } else if let Some(v) = parse_u128(key) {
            targets.push((v, target));
        }
        i += 1;
    }
    assert(all.skip(i as int) =~= seq![]);
    Some((targets, otherwise))
}

/// `switchInt(<local>) -> [<arms>]`, from behind the opening parenthesis, as
/// the local, its arms and the `otherwise` block, which must be there.
pub open spec fn switch_terminator(s: Seq<char>) -> Option<
    (LocalId, Seq<(u128, BlockId)>, BlockId),
> {
    match cut_first(s, ") -> ["@) {
        Some((discr, after)) => match (local_token(discr), before_suffix(after, "]"@)) {
            (Some(discr), Some(arms)) => match switch_arms(pieces(arms, ','), seq![], None) {
                Some((targets, Some(otherwise))) => Some((discr, targets, otherwise)),
                _ => None,
            },
            _ => None,
        },
        None => None,
    }
}

/// Reads a `switchInt` from behind its opening parenthesis.
fn parse_switch_terminator(s: &[char]) -> (r: Option<(LocalId, Vec<(u128, BlockId)>, BlockId)>)
    ensures
        match r {
            Some(t) => switch_terminator(s@) == Some((t.0, t.1@, t.2)),
            None => switch_terminator(s@) is None,
        },
{
    let (discr_text, after) = match split_once(s, ") -> [") {
        Some(t) => t,
        None => return None,
    };
    let discr: u32 = match parse_local_token(discr_text) {
        Some(n) => n,
        None => return None,
    };
    let arms = match strip_suffix(after, "]") {
        Some(t) => t,
        None => return None,
    };
    match parse_switch_arms(arms) {
        Some((targets, Some(otherwise))) => Some((discr, targets, otherwise)),
        _ => None,
    }
}

/// A terminator of a known shape.
pub open spec fn terminator_line(line: Seq<char>, span: Option<SpanView>) -> Option<
    TerminatorView,
> {
    match before_suffix(line, ";"@) {
        Some(s) => if s == "return"@ {
            Some(TerminatorView::Return { span })
        } else if s == "unreachable"@ {
            Some(TerminatorView::Unreachable { span })
        } else if begins_with(s, "goto -> bb"@) {
            match numbered(s, "goto -> bb"@) {
                Some(target) => Some(TerminatorView::Goto { target, span }),
                None => None,
            }
        } else if call_terminator(s) is Some {
            let (dst, func_text, target) = call_terminator(s)->0;
            Some(TerminatorView::Call { dst, func_text, target, span })
        } else {
            match after_prefix(s, "switchInt("@) {
                Some(rest) => match switch_terminator(rest) {
                    Some((discr, targets, otherwise)) => Some(
                        TerminatorView::SwitchInt { discr, targets, otherwise, span },
                    ),
                    None => None,
                },
                None => None,
            }
        },
        None => None,
    }
}

/// Reads a terminator.
pub fn parse_terminator(line: &[char], span: Option<SourceSpan>) -> (r: Option<MirTerminator>)
    ensures
        r.deep_view() == terminator_line(line@, span.deep_view()),
{
    let s = match strip_suffix(line, ";") {
        Some(t) => t,
        None => return None,
    };
    if is_text(s, "return") {
        return Some(MirTerminator::Return { span });
    }
    if is_text(s, "unreachable") {
        return Some(MirTerminator::Unreachable { span });
    }
    if let Some(digits) = strip_prefix(s, "goto -> bb") {
        return match parse_u32(digits) {
            Some(target) => Some(MirTerminator::Goto { target, span }),
            None => None,
        };
    }
    if let Some((dst, func_text, target)) = parse_call_terminator(s) {
        return Some(MirTerminator::Call { dst, func_text, target, span });
    }
    match strip_prefix(s, "switchInt(") {
        Some(rest) => match parse_switch_terminator(rest) {
            Some((discr, targets, otherwise)) => Some(
                MirTerminator::SwitchInt { discr, targets, otherwise, span },
            ),
            None => None,
        },
        None => None,
    }
}

// ---------------------------------------------------------------------------
// Terminators of other shapes
// ---------------------------------------------------------------------------

/// Where control may go behind an arrow: a list of arms, a block, or an
/// unwind action.
pub open spec fn arrow_target(s: Seq<char>) -> bool {
    (begins_with(s, "["@) && ends_in(s, "]"@)) || numbered(s, "bb"@) is Some || begins_with(
        s,
        "unwind "@,
    )
}

/// Whether an arrow at `i`, outside all brackets, leads somewhere.
pub open spec fn leads_on_at(s: Seq<char>, i: int) -> bool {
    occurs_at(s, " -> "@, i) && depth_before(s, i) == 0 && arrow_target(s.skip(i + 4))
}

/// Whether an arrow outside all brackets leads somewhere.
pub open spec fn leads_on(s: Seq<char>) -> bool {
    exists|i: int| 0 <= i < s.len() && #[trigger] leads_on_at(s, i)
}

/// The terminators that lead nowhere in the function, besides `return` and
/// `unreachable`.
pub open spec fn ends_function(s: Seq<char>) -> bool {
    s == "resume"@ || s == "abort"@ || s == "coroutine_drop"@ || enclosed(
        s,
        "terminate("@,
        ")"@,
    ) is Some || begins_with(s, "tailcall "@)
}

/// Whether a line has the shape of a terminator: it says where control goes,
/// or ends the function.
pub open spec fn terminator_shape(line: Seq<char>) -> bool {
    match before_suffix(line, ";"@) {
        Some(s) => ends_function(s) || leads_on(s),
        None => false,
    }
}

/// Whether control may go where a text says.
fn is_arrow_target(s: &[char]) -> (r: bool)
    ensures
        r == arrow_target(s@),
{
    (starts_with(s, "[") && ends_with(s, "]")) || read_numbered(s, "bb").is_some() || starts_with(
        s,
        "unwind ",
    )
}

/// Whether an arrow outside all brackets leads somewhere.
fn has_outer_arrow(s: &[char]) -> (r: bool)
    ensures
        r == leads_on(s@),
{
    let arrow = chars_of(" -> ");
    proof {
        reveal_strlit(" -> ");
    }
    let len: usize = s.len();
    let mut i: usize = 0;
    let mut depth: i128 = 0;
    while i < len
        invariant
            i <= len,
            len == s@.len(),
            arrow@ == " -> "@,
            arrow@.len() == 4,
            -i <= depth <= i,
            depth == depth_before(s@, i as int),
            forall|k: int| 0 <= k < i ==> !#[trigger] leads_on_at(s@, k),
        decreases len - i,
    {
        if depth == 0 && len - i >= 4 && stands_at(s, arrow.as_slice(), i) {
            let target = slice_subrange(s, i + 4, len);
            assert(target@ =~= s@.skip(i + 4));
            if is_arrow_target(target) {
                assert(leads_on_at(s@, i as int));
                return true;
            }
        }
        assert(!leads_on_at(s@, i as int));
        depth = depth + nesting_of(s, i);
        i += 1;
    }
    false
}

/// Whether a line has the shape of a terminator.
pub fn looks_like_terminator(line: &[char]) -> (r: bool)
    ensures
        r == terminator_shape(line@),
{
    match strip_suffix(line, ";") {
        Some(s) => is_text(s, "resume") || is_text(s, "abort") || is_text(s, "coroutine_drop")
            || strip_around(s, "terminate(", ")").is_some() || starts_with(s, "tailcall ")
            || has_outer_arrow(s),
        None => false,
    }
}

} // verus!
