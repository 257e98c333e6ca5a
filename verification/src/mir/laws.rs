//! What holds of every dump that is read.
use crate::mir::lines::{span_literal, statement_line, terminator_line, terminator_shape};
use crate::mir::names::with_capture_names;
use crate::mir::{
    initial_reader, mir_of_text, read_line, read_lines, with_body_line, with_declaration, BlockView,
    FunctionView, LocalId, MirView, ParseErrorView, PlaceView, ReaderView, SpanView,
    StatementView, TerminatorView,
};
use crate::text::{
    begins_with, cut_first, cut_first_at, cut_last_at, decimal, decimal_digits,
    decimal_reads_back, is_digit, is_space, occurs_at, pieces, pieces_of_joined, pieces_of_one,
    trimmed,
};
use vstd::prelude::*;

verus! {

/// The span of a statement.
pub open spec fn statement_span(s: StatementView) -> Option<SpanView> {
    match s {
        StatementView::AssignCopy { span, .. } => span,
        StatementView::AssignConstBool { span, .. } => span,
        StatementView::AssignDiscriminant { span, .. } => span,
        StatementView::AssignDowncast { span, .. } => span,
        StatementView::AssignCaptureRead { span, .. } => span,
        StatementView::AssignBinaryCompare { span, .. } => span,
        StatementView::Other { span, .. } => span,
    }
}

/// The span of a terminator.
pub open spec fn terminator_span(t: TerminatorView) -> Option<SpanView> {
    match t {
        TerminatorView::Return { span } => span,
        TerminatorView::Goto { span, .. } => span,
        TerminatorView::SwitchInt { span, .. } => span,
        TerminatorView::Unreachable { span } => span,
        TerminatorView::Call { span, .. } => span,
        TerminatorView::Other { span, .. } => span,
    }
}

/// Whether a block has no span.
pub open spec fn spanless_block(b: BlockView) -> bool {
    terminator_span(b.terminator) is None && forall|i: int|
        0 <= i < b.statements.len() ==> statement_span(#[trigger] b.statements[i]) is None
}

/// Whether a function has no span.
pub open spec fn spanless_function(f: FunctionView) -> bool {
    &&& forall|i: int| 0 <= i < f.locals.len() ==> (#[trigger] f.locals[i]).span is None
    &&& forall|i: int| 0 <= i < f.blocks.len() ==> spanless_block(#[trigger] f.blocks[i])
}

/// Whether functions have no span.
pub open spec fn spanless(functions: Seq<FunctionView>) -> bool {
    forall|i: int| 0 <= i < functions.len() ==> spanless_function(#[trigger] functions[i])
}

/// Whether what a reader holds has no span.
spec fn spanless_reader(r: ReaderView) -> bool {
    spanless(r.functions) && match r.place {
        PlaceView::Outside => true,
        PlaceView::InFunction { function, .. } => spanless_function(function),
        PlaceView::InBlock { function, block, .. } => spanless_function(function)
            && spanless_block(block),
    }
}

proof fn body_line_adds_no_span(b: BlockView, code: Seq<char>)
    requires
        spanless_block(b),
    ensures
        spanless_block(with_body_line(b, code, None)),
{
    let next = with_body_line(b, code, None);
    match terminator_line(code, None) {
        Some(_) => {},
        None => {
            assert forall|i: int| 0 <= i < next.statements.len() implies statement_span(
                #[trigger] next.statements[i],
            ) is None by {
                if i < b.statements.len() {
                    assert(next.statements[i] == b.statements[i]);
                }
            }
        },
    }
}

proof fn declaration_adds_no_span(f: FunctionView, code: Seq<char>)
    requires
        spanless_function(f),
    ensures
        spanless_function(with_declaration(f, code, None)),
{
    let next = with_declaration(f, code, None);
    assert(next.blocks == f.blocks);
    assert forall|i: int| 0 <= i < next.locals.len() implies (
    #[trigger] next.locals[i]).span is None by {
        if i < f.locals.len() {
            assert(next.locals[i] == f.locals[i]);
        }
    }
}

proof fn line_adds_no_span(r: ReaderView, raw: Seq<char>)
    requires
        spanless_reader(r),
        cut_first(trimmed(raw), "//"@) is None,
    ensures
        read_line(r, raw) matches Ok(next) ==> spanless_reader(next),
{
    let line = trimmed(raw);
    if line.len() > 0 && !begins_with(line, "//"@) && r.skipped == 0 {
        match r.place {
            PlaceView::Outside => {},
            PlaceView::InFunction { function, scopes } => {
                declaration_adds_no_span(function, line);
                let named = with_capture_names(function);
                assert(named.blocks == function.blocks);
                assert(named.locals == function.locals);
                let done = r.functions.push(named);
                assert(spanless(done)) by {
                    assert forall|i: int| 0 <= i < done.len() implies spanless_function(
                        #[trigger] done[i],
                    ) by {
                        if i < r.functions.len() {
                            assert(done[i] == r.functions[i]);
                        }
                    }
                }
            },
            PlaceView::InBlock { function, block, scopes } => {
                body_line_adds_no_span(block, line);
                let blocks = function.blocks.push(block);
                assert forall|i: int| 0 <= i < blocks.len() implies spanless_block(
                    #[trigger] blocks[i],
                ) by {
                    if i < function.blocks.len() {
                        assert(blocks[i] == function.blocks[i]);
                    }
                }
            },
        }
    }
}

proof fn lines_add_no_span(r: ReaderView, lines: Seq<Seq<char>>, line_no: nat)
    requires
        spanless_reader(r),
        forall|i: int|
            0 <= i < lines.len() ==> cut_first(trimmed(#[trigger] lines[i]), "//"@) is None,
    ensures
        read_lines(r, lines, line_no) matches Ok(mir) ==> spanless(mir.functions),
    decreases lines.len(),
{
    if lines.len() > 0 {
        line_adds_no_span(r, lines[0]);
        if let Ok(next) = read_line(r, lines[0]) {
            let rest = lines.skip(1);
            assert forall|i: int| 0 <= i < rest.len() implies cut_first(
                trimmed(#[trigger] rest[i]),
                "//"@,
            ) is None by {
                assert(rest[i] == lines[i + 1]);
            }
            lines_add_no_span(next, rest, line_no + 1);
        }
    }
}

/// A dump without comments is read all the same, and without any span.
pub proof fn dump_without_comments_has_no_spans(input: Seq<char>)
    requires
        forall|i: int|
            0 <= i < pieces(input, '\n').len() ==> cut_first(
                trimmed(#[trigger] pieces(input, '\n')[i]),
                "//"@,
            ) is None,
    ensures
        mir_of_text(input) matches Ok(mir) ==> spanless(mir.functions),
{
    lines_add_no_span(initial_reader(), pieces(input, '\n'), 1);
}

/// The first name that is declared for a local stays.
pub proof fn first_name_stays(
    f: FunctionView,
    code: Seq<char>,
    span: Option<SpanView>,
    local: LocalId,
)
    requires
        f.debug_names.contains_key(local),
    ensures
        with_declaration(f, code, span).debug_names.contains_key(local),
        with_declaration(f, code, span).debug_names[local] == f.debug_names[local],
{
}

/// No line of a block's body is lost: it is the block's terminator, or it
/// adds one statement. What is not recognised is kept as text: as terminator
/// where it has the shape of one, else as statement. Statements that are
/// there stay.
pub proof fn body_lines_are_kept(b: BlockView, code: Seq<char>, span: Option<SpanView>)
    ensures
        ({
            let next = with_body_line(b, code, span);
            let known = terminator_line(code, span);
            let other = known is None && statement_line(code, span) is None;
            &&& next.id == b.id
            &&& if known is Some || (other && terminator_shape(code)) {
                &&& next.statements == b.statements
                &&& known is Some ==> Some(next.terminator) == known
                &&& other ==> next.terminator == (TerminatorView::Other { text: code, span })
            } else {
                &&& next.terminator == b.terminator
                &&& next.statements.len() == b.statements.len() + 1
                &&& next.statements.drop_last() == b.statements
                &&& other ==> next.statements.last() == (StatementView::Other { text: code, span })
                &&& !other ==> Some(next.statements.last()) == statement_line(code, span)
            }
        }),
{
    let next = with_body_line(b, code, span);
    if next.statements != b.statements {
        assert(next.statements.drop_last() =~= b.statements);
    }
}

/// Functions that are complete stay: reading on only adds behind them.
pub proof fn complete_functions_stay(r: ReaderView, lines: Seq<Seq<char>>, line_no: nat)
    ensures
        read_lines(r, lines, line_no) matches Ok(mir) ==> r.functions.is_prefix_of(mir.functions),
    decreases lines.len(),
{
    if lines.len() > 0 {
        if let Ok(next) = read_line(r, lines[0]) {
            assert(r.functions.is_prefix_of(next.functions));
            complete_functions_stay(next, lines.skip(1), line_no + 1);
        }
    }
}

// ---------------------------------------------------------------------------
// Lines that are ignored
// ---------------------------------------------------------------------------

/// Whether a line is blank or holds a comment only.
pub open spec fn is_ignored(raw: Seq<char>) -> bool {
    trimmed(raw).len() == 0 || begins_with(trimmed(raw), "//"@)
}

/// What is read with a line more before the line with the given number: the
/// same, but for the number of the line where an error stands.
pub open spec fn moved_on(r: Result<MirView, ParseErrorView>, from: nat) -> Result<
    MirView,
    ParseErrorView,
> {
    match r {
        Ok(mir) => Ok(mir),
        Err(e) => Err(
            ParseErrorView {
                line: if e.line < from {
                    e.line
                } else {
                    e.line + 1
                },
                message: e.message,
            },
        ),
    }
}

proof fn later_lines_read_alike(r: ReaderView, lines: Seq<Seq<char>>, line_no: nat)
    ensures
        read_lines(r, lines, line_no + 1) == moved_on(read_lines(r, lines, line_no), 0),
        read_lines(r, lines, line_no) matches Err(e) ==> e.line >= line_no,
    decreases lines.len(),
{
    if lines.len() > 0 {
        if let Ok(next) = read_line(r, lines[0]) {
            later_lines_read_alike(next, lines.skip(1), line_no + 1);
        }
    }
}

proof fn ignored_line_changes_nothing(
    r: ReaderView,
    before: Seq<Seq<char>>,
    line: Seq<char>,
    after: Seq<Seq<char>>,
    line_no: nat,
)
    requires
        is_ignored(line),
    ensures
        read_lines(r, before + seq![line] + after, line_no) == moved_on(
            read_lines(r, before + after, line_no),
            line_no + before.len(),
        ),
    decreases before.len(),
{
    let with = before + seq![line] + after;
    let without = before + after;
    if before.len() == 0 {
        assert(with.skip(1) =~= after);
        assert(without =~= after);
        assert(read_line(r, with[0]) == Ok::<ReaderView, Seq<char>>(r));
        later_lines_read_alike(r, after, line_no);
    } else {
        assert(with.skip(1) =~= before.skip(1) + seq![line] + after);
        assert(without.skip(1) =~= before.skip(1) + after);
        assert(with[0] == without[0]);
        if let Ok(next) = read_line(r, before[0]) {
            ignored_line_changes_nothing(next, before.skip(1), line, after, line_no + 1);
        }
    }
}

/// Blank lines and lines that hold a comment only are ignored: one more of
/// them between two lines of a dump, before the first or behind the last,
/// changes nothing but the number of the line where an error stands.
pub proof fn blank_and_comment_lines_are_ignored(
    before: Seq<char>,
    line: Seq<char>,
    after: Seq<char>,
)
    requires
        !line.contains('\n'),
        is_ignored(line),
    ensures
        mir_of_text(before.push('\n') + line.push('\n') + after) == moved_on(
            mir_of_text(before.push('\n') + after),
            1 + pieces(before, '\n').len(),
        ),
        mir_of_text(line.push('\n') + after) == moved_on(mir_of_text(after), 1),
        mir_of_text(before.push('\n') + line) == moved_on(
            mir_of_text(before),
            1 + pieces(before, '\n').len(),
        ),
{
    let x = pieces(before, '\n');
    let y = pieces(after, '\n');
    let tail = line.push('\n') + after;
    assert(before.push('\n') + line.push('\n') + after =~= before.push('\n') + tail);
    pieces_of_joined(before, '\n', tail);
    pieces_of_joined(line, '\n', after);
    pieces_of_joined(before, '\n', after);
    pieces_of_one(line, '\n', 0);
    assert(x + (seq![line] + y) =~= x + seq![line] + y);
    ignored_line_changes_nothing(initial_reader(), x, line, y, 1);
    assert(Seq::<Seq<char>>::empty() + seq![line] + y =~= seq![line] + y);
    assert(Seq::<Seq<char>>::empty() + y =~= y);
    ignored_line_changes_nothing(initial_reader(), seq![], line, y, 1);
    pieces_of_joined(before, '\n', line);
    assert(x + seq![line] + Seq::<Seq<char>>::empty() =~= x + seq![line]);
    assert(x + Seq::<Seq<char>>::empty() =~= x);
    ignored_line_changes_nothing(initial_reader(), x, line, seq![], 1);
}

// ---------------------------------------------------------------------------
// Spans
// ---------------------------------------------------------------------------

/// The notation of a span: file, line and column where it starts, line and
/// column where it ends.
pub open spec fn span_text(span: SpanView) -> Seq<char> {
    span.file + ":"@ + decimal(span.start_line as nat) + ":"@ + decimal(span.start_col as nat)
        + ": "@ + (decimal(span.end_line as nat) + ":"@ + decimal(span.end_col as nat))
}

/// Behind a colon, digits hold no other colon.
proof fn colon_before_digits(n: nat)
    ensures
        forall|j: int| 0 < j ==> !#[trigger] occurs_at(":"@ + decimal(n), ":"@, j),
{
    reveal_strlit(":");
    decimal_digits(n);
    let s = ":"@ + decimal(n);
    assert forall|j: int| 0 < j implies !#[trigger] occurs_at(s, ":"@, j) by {
        if occurs_at(s, ":"@, j) {
            assert(s.subrange(j, j + 1)[0] == s[j]);
            assert(is_digit(decimal(n)[j - 1]));
        }
    }
}

/// What is written is read back: the notation of a span is read as that span,
/// whatever the name of the file.
pub proof fn written_span_is_read_back(span: SpanView)
    ensures
        span_literal(span_text(span)) == Some(span),
{
    let (sl, sc) = (decimal(span.start_line as nat), decimal(span.start_col as nat));
    let (el, ec) = (decimal(span.end_line as nat), decimal(span.end_col as nat));
    let end = el + ":"@ + ec;
    reveal_strlit(":");
    reveal_strlit(": ");
    decimal_digits(span.end_line as nat);
    decimal_digits(span.end_col as nat);
    assert forall|j: int| 0 < j implies !#[trigger] occurs_at(": "@ + end, ": "@, j) by {
        let s = ": "@ + end;
        if occurs_at(s, ": "@, j) {
            assert(s.subrange(j, j + 2)[1] == s[j + 1]);
            let k = j - 1;
            if k < el.len() {
                assert(is_digit(el[k]));
            } else if k > el.len() {
                assert(is_digit(ec[k - el.len() - 1]));
            }
        }
    }
    cut_last_at(span.file + ":"@ + sl + ":"@ + sc, ": "@, end);
    colon_before_digits(span.start_col as nat);
    cut_last_at(span.file + ":"@ + sl, ":"@, sc);
    colon_before_digits(span.start_line as nat);
    cut_last_at(span.file, ":"@, sl);
    assert(is_digit(end[0])) by {
        assert(is_digit(el[0]));
    }
    assert(is_digit(end.last())) by {
        assert(is_digit(ec.last()));
    }
    assert(!is_space(end[0]) && !is_space(end.last()));
    assert(trimmed(end) == end);
    assert forall|j: int| 0 <= j < el.len() implies !#[trigger] occurs_at(end, ":"@, j) by {
        if occurs_at(end, ":"@, j) {
            assert(end.subrange(j, j + 1)[0] == end[j]);
            assert(is_digit(el[j]));
        }
    }
    cut_first_at(el, ":"@, ec);
    decimal_reads_back(span.start_line as nat);
    decimal_reads_back(span.start_col as nat);
    decimal_reads_back(span.end_line as nat);
    decimal_reads_back(span.end_col as nat);
}

} // verus!
