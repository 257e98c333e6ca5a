//! MIR input to the decision walk.
//!
//! [`parse_text`] reads the text that rustc prints for `--emit=mir`, with or
//! without the source spans of `-Zmir-include-spans`, into a [`Mir`]. Only
//! the shapes that boolean decisions compile to are given a meaning; every
//! other statement or terminator is kept as text.
//!
//! Each type has a model, reached by `deep_view`, in which strings are
//! sequences of characters and the map of names is a mathematical map.
use crate::mir::lines::{
    block_label, debug_line, function_header, local_line, looks_like_terminator, parse_bb_header,
    parse_debug,
    parse_fn_header, parse_let, parse_statement, parse_terminator, read_span_comment,
    span_of_comment, split_off_trailing_comment, statement_line, terminator_line, terminator_shape,
    without_comment,
    DebugAnnotation, DebugView,
};
use crate::mir::names::{propagate_capture_names, set_name_once, with_capture_names};
use crate::text::{
    begins_with, chars_of, cut_last, decimal, ends_in, ends_with, is_text, pieces, push_decimal,
    rfind, split, starts_with, string_of, texts, trim, trimmed,
};
use std::collections::BTreeMap;
use vstd::prelude::*;
use vstd::slice::slice_subrange;
use vstd::string::*;

pub mod captures;
pub mod grammar;
pub mod laws;
pub mod lines;
pub mod names;
pub mod reading;

verus! {

/// MIR local identifier (`_0`, `_1`, ...).
pub type LocalId = u32;

/// MIR basic block identifier (`bb0`, `bb1`, ...).
pub type BlockId = u32;

/// A source location range, in the `(start_line, start_col, end_line,
/// end_col)` shape that both rustc's span comments and `llvm-cov export` use.
#[derive(Debug, Clone, PartialEq, Eq)]
pub struct SourceSpan {
    /// Source file path as rustc reports it.
    pub file: String,
    /// Inclusive 1-based start line.
    pub start_line: u32,
    /// Inclusive 1-based start column.
    pub start_col: u32,
    /// End line (1-based; semantics follow rustc).
    pub end_line: u32,
    /// End column (1-based; semantics follow rustc).
    pub end_col: u32,
}

/// The model of a [`SourceSpan`].
pub struct SpanView {
    pub file: Seq<char>,
    pub start_line: u32,
    pub start_col: u32,
    pub end_line: u32,
    pub end_col: u32,
}

impl DeepView for SourceSpan {
    type V = SpanView;

    open spec fn deep_view(&self) -> SpanView {
        SpanView {
            file: self.file@,
            start_line: self.start_line,
            start_col: self.start_col,
            end_line: self.end_line,
            end_col: self.end_col,
        }
    }
}

/// A copy of a span.
pub fn copy_span(span: &Option<SourceSpan>) -> (r: Option<SourceSpan>)
    ensures
        r == *span,
{
    match span {
        Some(s) => Some(
            SourceSpan {
                file: s.file.clone(),
                start_line: s.start_line,
                start_col: s.start_col,
                end_line: s.end_line,
                end_col: s.end_col,
            },
        ),
        None => None,
    }
}

/// Parsed MIR for one or more functions.
#[derive(Debug, Clone)]
pub struct Mir {
    /// Top-level functions in source order.
    pub functions: Vec<MirFunction>,
}

/// The model of a [`Mir`].
pub struct MirView {
    pub functions: Seq<FunctionView>,
}

impl DeepView for Mir {
    type V = MirView;

    open spec fn deep_view(&self) -> MirView {
        MirView { functions: self.functions.deep_view() }
    }
}

impl Default for Mir {
    fn default() -> (r: Self)
        ensures
            r.functions@ == Seq::<MirFunction>::empty(),
    {
        Mir { functions: Vec::new() }
    }
}

/// One function's MIR.
#[derive(Debug, Clone)]
pub struct MirFunction {
    /// Function name as it appears in the MIR dump.
    pub name: String,
    /// Typed arguments, in declaration order.
    pub args: Vec<MirArg>,
    /// Raw return type text.
    pub return_ty: String,
    /// `let`-declared locals (excluding arguments).
    pub locals: Vec<MirLocal>,
    /// Map from `LocalId` to its source name when the `debug` annotation
    /// declares one.
    pub debug_names: BTreeMap<LocalId, String>,
    /// Captured variables when this function is a closure body.
    pub captures: Vec<MirCapture>,
    /// Basic blocks in source order.
    pub blocks: Vec<MirBlock>,
}

/// The model of a [`MirFunction`].
pub struct FunctionView {
    pub name: Seq<char>,
    pub args: Seq<ArgView>,
    pub return_ty: Seq<char>,
    pub locals: Seq<LocalView>,
    pub debug_names: Map<LocalId, Seq<char>>,
    pub captures: Seq<CaptureView>,
    pub blocks: Seq<BlockView>,
}

/// The characters of each name in a map of names.
pub open spec fn name_map(m: Map<LocalId, String>) -> Map<LocalId, Seq<char>> {
    m.map_values(|s: String| s@)
}

impl DeepView for MirFunction {
    type V = FunctionView;

    open spec fn deep_view(&self) -> FunctionView {
        FunctionView {
            name: self.name@,
            args: self.args.deep_view(),
            return_ty: self.return_ty@,
            locals: self.locals.deep_view(),
            debug_names: name_map(self.debug_names@),
            captures: self.captures.deep_view(),
            blocks: self.blocks.deep_view(),
        }
    }
}

/// The function with no name, no argument and no block.
pub open spec fn empty_function() -> FunctionView {
    FunctionView {
        name: seq![],
        args: seq![],
        return_ty: seq![],
        locals: seq![],
        debug_names: Map::empty(),
        captures: seq![],
        blocks: seq![],
    }
}

impl Default for MirFunction {
    fn default() -> (r: Self)
        ensures
            r.deep_view() == empty_function(),
    {
        let r = MirFunction {
            name: String::new(),
            args: Vec::new(),
            return_ty: String::new(),
            locals: Vec::new(),
            debug_names: BTreeMap::new(),
            captures: Vec::new(),
            blocks: Vec::new(),
        };
        assert(r.name@ =~= seq![]);
        assert(r.return_ty@ =~= seq![]);
        assert(name_map(r.debug_names@) =~= Map::empty());
        assert(r.args.deep_view() =~= seq![]);
        assert(r.locals.deep_view() =~= seq![]);
        assert(r.captures.deep_view() =~= seq![]);
        assert(r.blocks.deep_view() =~= seq![]);
        r
    }
}

/// A captured variable from a closure's environment.
#[derive(Debug, Clone)]
pub struct MirCapture {
    /// Source-level name of the captured variable.
    pub name: String,
    /// Local id of the closure environment (typically `_1`).
    pub env_local: LocalId,
    /// Field index inside the closure environment.
    pub field: u32,
    /// `true` when the capture is held by reference (`&T` or `&mut T`);
    /// `false` when held by value (move closure).
    pub by_ref: bool,
}

/// The model of a [`MirCapture`].
pub struct CaptureView {
    pub name: Seq<char>,
    pub env_local: LocalId,
    pub field: u32,
    pub by_ref: bool,
}

impl DeepView for MirCapture {
    type V = CaptureView;

    open spec fn deep_view(&self) -> CaptureView {
        CaptureView {
            name: self.name@,
            env_local: self.env_local,
            field: self.field,
            by_ref: self.by_ref,
        }
    }
}

/// A function argument: `_<n>: <ty>`.
#[derive(Debug, Clone)]
pub struct MirArg {
    /// The local identifier (e.g. `1` for `_1`).
    pub local: LocalId,
    /// Raw type text.
    pub ty: String,
}

/// The model of a [`MirArg`].
pub struct ArgView {
    pub local: LocalId,
    pub ty: Seq<char>,
}

impl DeepView for MirArg {
    type V = ArgView;

    open spec fn deep_view(&self) -> ArgView {
        ArgView { local: self.local, ty: self.ty@ }
    }
}

/// A `let`-declared local: `let [mut] _<n>: <ty>;`.
#[derive(Debug, Clone)]
pub struct MirLocal {
    /// The local identifier.
    pub local: LocalId,
    /// Raw type text.
    pub ty: String,
    /// Whether the local was declared `mut`.
    pub mutable: bool,
    /// Source span of this local's declaration, if present in the MIR.
    pub span: Option<SourceSpan>,
}

/// The model of a [`MirLocal`].
pub struct LocalView {
    pub local: LocalId,
    pub ty: Seq<char>,
    pub mutable: bool,
    pub span: Option<SpanView>,
}

impl DeepView for MirLocal {
    type V = LocalView;

    open spec fn deep_view(&self) -> LocalView {
        LocalView {
            local: self.local,
            ty: self.ty@,
            mutable: self.mutable,
            span: self.span.deep_view(),
        }
    }
}

/// One basic block.
#[derive(Debug, Clone)]
pub struct MirBlock {
    /// Block identifier (e.g. `0` for `bb0`).
    pub id: BlockId,
    /// Body statements in source order.
    pub statements: Vec<MirStatement>,
    /// The block-terminating instruction.
    pub terminator: MirTerminator,
}

/// The model of a [`MirBlock`].
pub struct BlockView {
    pub id: BlockId,
    pub statements: Seq<StatementView>,
    pub terminator: TerminatorView,
}

impl DeepView for MirBlock {
    type V = BlockView;

    open spec fn deep_view(&self) -> BlockView {
        BlockView {
            id: self.id,
            statements: self.statements.deep_view(),
            terminator: self.terminator.deep_view(),
        }
    }
}

/// A non-terminating statement inside a block.
#[derive(Debug, Clone)]
pub enum MirStatement {
    /// `_<dst> = copy _<src>;`
    AssignCopy {
        /// Destination local.
        dst: LocalId,
        /// Source local.
        src: LocalId,
        /// Source span, if present in the MIR.
        span: Option<SourceSpan>,
    },
    /// `_<dst> = const <bool>;`
    AssignConstBool {
        /// Destination local.
        dst: LocalId,
        /// Constant value.
        value: bool,
        /// Source span, if present in the MIR.
        span: Option<SourceSpan>,
    },
    /// `_<dst> = discriminant(_<src>);`
    ///
    /// Reads the enum tag of `src` into `dst`: the first statement of an
    /// `if let` / `match` decision block.
    AssignDiscriminant {
        /// Destination local (holds the discriminant integer).
        dst: LocalId,
        /// Source local (the enum being matched).
        src: LocalId,
        /// Source span, if present in the MIR.
        span: Option<SourceSpan>,
    },
    /// `_<dst> = copy ((_<src> as <Variant>).<field>: <Ty>);`
    ///
    /// Reads field `field` of the downcast view of `src` as `Variant`. At the
    /// head of an arm block it tells the matched arm from the others.
    AssignDowncast {
        /// Destination local.
        dst: LocalId,
        /// Scrutinee local being downcast.
        src: LocalId,
        /// Enum variant name (e.g. `Some`, `Ok`, `Err`, or a user variant).
        variant: String,
        /// Field index inside the variant.
        field: u32,
        /// Source span, if present in the MIR.
        span: Option<SourceSpan>,
    },
    /// `_<dst> = [no_retag ]copy ((*_<env>).<field>: <Ty>);`
    ///
    /// A closure body reading a captured variable.
    AssignCaptureRead {
        /// Destination local: the captured value (`holds_ref` false) or a
        /// reference to it (true).
        dst: LocalId,
        /// Closure environment local (typically `_1`).
        env: LocalId,
        /// Field index inside the closure environment.
        field: u32,
        /// `true` when the field's type starts with `&`.
        holds_ref: bool,
        /// Source span, if present in the MIR.
        span: Option<SourceSpan>,
    },
    /// `_<dst> = <CompareOp>(<lhs>, <rhs>);`
    AssignBinaryCompare {
        /// Destination local (always bool-typed).
        dst: LocalId,
        /// Comparison operator.
        op: CompareOp,
        /// Left-hand operand.
        lhs: Operand,
        /// Right-hand operand.
        rhs: Operand,
        /// Source span, if present in the MIR.
        span: Option<SourceSpan>,
    },
    /// A statement of another shape, preserved verbatim.
    Other {
        /// The text of the statement.
        text: String,
        /// Source span, if present in the MIR.
        span: Option<SourceSpan>,
    },
}

/// The model of a [`MirStatement`].
pub enum StatementView {
    AssignCopy { dst: LocalId, src: LocalId, span: Option<SpanView> },
    AssignConstBool { dst: LocalId, value: bool, span: Option<SpanView> },
    AssignDiscriminant { dst: LocalId, src: LocalId, span: Option<SpanView> },
    AssignDowncast {
        dst: LocalId,
        src: LocalId,
        variant: Seq<char>,
        field: u32,
        span: Option<SpanView>,
    },
    AssignCaptureRead {
        dst: LocalId,
        env: LocalId,
        field: u32,
        holds_ref: bool,
        span: Option<SpanView>,
    },
    AssignBinaryCompare {
        dst: LocalId,
        op: CompareOp,
        lhs: OperandView,
        rhs: OperandView,
        span: Option<SpanView>,
    },
    Other { text: Seq<char>, span: Option<SpanView> },
}

impl DeepView for MirStatement {
    type V = StatementView;

    open spec fn deep_view(&self) -> StatementView {
        match *self {
            MirStatement::AssignCopy { dst, src, span } => StatementView::AssignCopy {
                dst,
                src,
                span: span.deep_view(),
            },
            MirStatement::AssignConstBool { dst, value, span } => StatementView::AssignConstBool {
                dst,
                value,
                span: span.deep_view(),
            },
            MirStatement::AssignDiscriminant { dst, src, span } =>
                StatementView::AssignDiscriminant { dst, src, span: span.deep_view() },
            MirStatement::AssignDowncast { dst, src, variant, field, span } =>
                StatementView::AssignDowncast {
                dst,
                src,
                variant: variant@,
                field,
                span: span.deep_view(),
            },
            MirStatement::AssignCaptureRead { dst, env, field, holds_ref, span } =>
                StatementView::AssignCaptureRead {
                dst,
                env,
                field,
                holds_ref,
                span: span.deep_view(),
            },
            MirStatement::AssignBinaryCompare { dst, op, lhs, rhs, span } =>
                StatementView::AssignBinaryCompare {
                dst,
                op,
                lhs: lhs.deep_view(),
                rhs: rhs.deep_view(),
                span: span.deep_view(),
            },
            MirStatement::Other { text, span } => StatementView::Other {
                text: text@,
                span: span.deep_view(),
            },
        }
    }
}

/// Comparison operator recognised by the MIR parser.
#[derive(Debug, Clone, Copy, PartialEq, Eq)]
pub enum CompareOp {
    /// `==`
    Eq,
    /// `!=`
    Ne,
    /// `<`
    Lt,
    /// `<=`
    Le,
    /// `>`
    Gt,
    /// `>=`
    Ge,
}

impl CompareOp {
    /// The operator as it is written in source code.
    pub open spec fn spelling(self) -> Seq<char> {
        match self {
            CompareOp::Eq => "=="@,
            CompareOp::Ne => "!="@,
            CompareOp::Lt => "<"@,
            CompareOp::Le => "<="@,
            CompareOp::Gt => ">"@,
            CompareOp::Ge => ">="@,
        }
    }

    /// The source-level spelling, used when synthesizing condition names for
    /// inline comparisons.
    pub fn as_source_str(self) -> (r: &'static str)
        ensures
            r@ == self.spelling(),
    {
        match self {
            CompareOp::Eq => "==",
            CompareOp::Ne => "!=",
            CompareOp::Lt => "<",
            CompareOp::Le => "<=",
            CompareOp::Gt => ">",
            CompareOp::Ge => ">=",
        }
    }
}

/// An operand of a MIR rvalue: a copy or move of a local, or a constant
/// literal.
#[derive(Debug, Clone, PartialEq, Eq)]
pub enum Operand {
    /// `copy _<N>`: reads a local without moving it.
    Copy(LocalId),
    /// `move _<N>`: reads a local and consumes it.
    Move(LocalId),
    /// `const <literal>`: a constant value in its MIR textual form (e.g.
    /// `50_i32`, `0_u32`).
    Const(String),
}

/// The model of an [`Operand`].
pub enum OperandView {
    Copy(LocalId),
    Move(LocalId),
    Const(Seq<char>),
}

impl DeepView for Operand {
    type V = OperandView;

    open spec fn deep_view(&self) -> OperandView {
        match *self {
            Operand::Copy(id) => OperandView::Copy(id),
            Operand::Move(id) => OperandView::Move(id),
            Operand::Const(s) => OperandView::Const(s@),
        }
    }
}

/// Whether `s` is the name of a primitive type that a literal can carry.
pub open spec fn is_literal_type(s: Seq<char>) -> bool {
    ||| s == "i8"@
    ||| s == "i16"@
    ||| s == "i32"@
    ||| s == "i64"@
    ||| s == "i128"@
    ||| s == "isize"@
    ||| s == "u8"@
    ||| s == "u16"@
    ||| s == "u32"@
    ||| s == "u64"@
    ||| s == "u128"@
    ||| s == "usize"@
    ||| s == "f16"@
    ||| s == "f32"@
    ||| s == "f64"@
    ||| s == "f128"@
    ||| s == "bool"@
    ||| s == "char"@
}

/// A literal without its trailing `_<type>` suffix, if it has one.
pub open spec fn without_type_suffix(s: Seq<char>) -> Seq<char> {
    match cut_last(s, "_"@) {
        Some((value, ty)) => if is_literal_type(ty) {
            value
        } else {
            s
        },
        None => s,
    }
}

impl OperandView {
    /// The literal of a constant without its type suffix; nothing for a
    /// local.
    pub open spec fn display_value(self) -> Seq<char> {
        match self {
            OperandView::Const(s) => without_type_suffix(s),
            _ => seq![],
        }
    }

    /// The local of a copy or move.
    pub open spec fn local(self) -> Option<LocalId> {
        match self {
            OperandView::Copy(id) => Some(id),
            OperandView::Move(id) => Some(id),
            OperandView::Const(_) => None,
        }
    }
}

/// Whether `s` is the name of a primitive type that a literal can carry.
fn names_literal_type(s: &[char]) -> (b: bool)
    ensures
        b == is_literal_type(s@),
{
    is_text(s, "i8") || is_text(s, "i16") || is_text(s, "i32") || is_text(s, "i64") || is_text(
        s,
        "i128",
    ) || is_text(s, "isize") || is_text(s, "u8") || is_text(s, "u16") || is_text(s, "u32")
        || is_text(s, "u64") || is_text(s, "u128") || is_text(s, "usize") || is_text(s, "f16")
        || is_text(s, "f32") || is_text(s, "f64") || is_text(s, "f128") || is_text(s, "bool")
        || is_text(s, "char")
}

impl Operand {
    /// For a `Const(...)` operand, the literal value without its trailing
    /// `_<type>` suffix (so `50_i32` renders as `50`), or the operand text
    /// unchanged when no recognisable type suffix is present. Empty for a
    /// local.
    pub fn const_display_value(&self) -> (r: &str)
        ensures
            r@ == self.deep_view().display_value(),
    {
        match self {
            Operand::Const(s) => {
                let text = s.as_str();
                let chars = chars_of(text);
                proof {
                    reveal_strlit("_");
                }
                match rfind(chars.as_slice(), "_") {
                    Some(i) => {
                        let len: usize = chars.len();
                        let ty = slice_subrange(chars.as_slice(), i + 1, len);
                        assert(ty@ =~= s@.skip(i + 1));
                        if names_literal_type(ty) {
                            text.substring_char(0, i)
                        } else {
                            text
                        }
                    },
                    None => text,
                }
            },
            _ => {
                proof {
                    reveal_strlit("");
                }
                ""
            },
        }
    }

    /// For a `Copy` or `Move` operand, the [`LocalId`] of the referenced
    /// local; `None` for `Const`.
    pub fn local_id(&self) -> (r: Option<LocalId>)
        ensures
            r == self.deep_view().local(),
    {
        match self {
            Operand::Copy(id) => Some(*id),
            Operand::Move(id) => Some(*id),
            Operand::Const(_) => None,
        }
    }
}

/// A block terminator.
#[derive(Debug, Clone)]
pub enum MirTerminator {
    /// `return;`
    Return {
        /// Source span, if present in the MIR.
        span: Option<SourceSpan>,
    },
    /// `goto -> bb<target>;`
    Goto {
        /// Successor block.
        target: BlockId,
        /// Source span, if present in the MIR.
        span: Option<SourceSpan>,
    },
    /// `switchInt(copy _<discr>) -> [<value>: bb<target>, ..., otherwise: bb<id>];`
    ///
    /// The `span` is the source location of the condition test.
    SwitchInt {
        /// Local whose value is being switched on.
        discr: LocalId,
        /// Specific-value arms (value, target).
        targets: Vec<(u128, BlockId)>,
        /// The `otherwise` (fallthrough) target.
        otherwise: BlockId,
        /// Source span, if present in the MIR.
        span: Option<SourceSpan>,
    },
    /// `unreachable;`
    ///
    /// Compiler-inserted catch-all for impossible control flow.
    Unreachable {
        /// Source span, if present in the MIR.
        span: Option<SourceSpan>,
    },
    /// `_<dst> = <func-expr>(<args>) -> [return: bb<target>, unwind ...];`
    ///
    /// A function-call terminator. The unwind path is not represented.
    Call {
        /// Local that receives the function's return value.
        dst: LocalId,
        /// Verbatim text of the function expression, up to its argument list.
        func_text: String,
        /// Successor block reached on normal return.
        target: BlockId,
        /// Source span, if present in the MIR.
        span: Option<SourceSpan>,
    },
    /// A terminator of another shape, preserved verbatim.
    Other {
        /// The text of the terminator.
        text: String,
        /// Source span, if present in the MIR.
        span: Option<SourceSpan>,
    },
}

/// The model of a [`MirTerminator`].
pub enum TerminatorView {
    Return { span: Option<SpanView> },
    Goto { target: BlockId, span: Option<SpanView> },
    SwitchInt {
        discr: LocalId,
        targets: Seq<(u128, BlockId)>,
        otherwise: BlockId,
        span: Option<SpanView>,
    },
    Unreachable { span: Option<SpanView> },
    Call { dst: LocalId, func_text: Seq<char>, target: BlockId, span: Option<SpanView> },
    Other { text: Seq<char>, span: Option<SpanView> },
}

impl DeepView for MirTerminator {
    type V = TerminatorView;

    open spec fn deep_view(&self) -> TerminatorView {
        match *self {
            MirTerminator::Return { span } => TerminatorView::Return { span: span.deep_view() },
            MirTerminator::Goto { target, span } => TerminatorView::Goto {
                target,
                span: span.deep_view(),
            },
            MirTerminator::SwitchInt { discr, targets, otherwise, span } =>
                TerminatorView::SwitchInt {
                discr,
                targets: targets@,
                otherwise,
                span: span.deep_view(),
            },
            MirTerminator::Unreachable { span } => TerminatorView::Unreachable {
                span: span.deep_view(),
            },
            MirTerminator::Call { dst, func_text, target, span } => TerminatorView::Call {
                dst,
                func_text: func_text@,
                target,
                span: span.deep_view(),
            },
            MirTerminator::Other { text, span } => TerminatorView::Other {
                text: text@,
                span: span.deep_view(),
            },
        }
    }
}

/// A parser error.
#[derive(Debug, Clone)]
pub struct ParseError {
    /// 1-indexed line number where the error was detected.
    pub line: usize,
    /// Human-readable description.
    pub message: String,
}

/// The model of a [`ParseError`].
pub struct ParseErrorView {
    pub line: nat,
    pub message: Seq<char>,
}

impl DeepView for ParseError {
    type V = ParseErrorView;

    open spec fn deep_view(&self) -> ParseErrorView {
        ParseErrorView { line: self.line as nat, message: self.message@ }
    }
}

impl ParseError {
    /// The error as one line of text.
    pub fn to_string(&self) -> (r: String)
        ensures
            r@ == "MIR parse error at line "@ + decimal(self.line as nat) + ": "@ + self.message@,
    {
        let mut out = String::new();
        out.append("MIR parse error at line ");
        push_decimal(&mut out, self.line as u128);
        out.append(": ");
        out.append(self.message.as_str());
        assert(out@ =~= "MIR parse error at line "@ + decimal(self.line as nat) + ": "@
            + self.message@);
        out
    }
}

// ---------------------------------------------------------------------------
// Reading a dump
// ---------------------------------------------------------------------------

/// Where a reader stands. Inside a function it counts the `scope` regions
/// that are open.
pub enum PlaceView {
    Outside,
    InFunction { function: FunctionView, scopes: nat },
    InBlock { function: FunctionView, block: BlockView, scopes: nat },
}

/// A reader between two lines: the functions that are complete, how many
/// braces of a skipped item are open, and where it stands.
pub struct ReaderView {
    pub functions: Seq<FunctionView>,
    pub skipped: nat,
    pub place: PlaceView,
}

/// The reader before the first line.
pub open spec fn initial_reader() -> ReaderView {
    ReaderView { functions: seq![], skipped: 0, place: PlaceView::Outside }
}

/// The block that a header opens.
pub open spec fn open_block(id: BlockId) -> BlockView {
    BlockView {
        id,
        statements: seq![],
        terminator: TerminatorView::Other { text: "(missing)"@, span: None },
    }
}

/// A line outside any function: a function header opens a function, any
/// other opening brace an item that is skipped.
pub open spec fn read_outside(r: ReaderView, code: Seq<char>) -> Result<ReaderView, Seq<char>> {
    if !ends_in(code, "{"@) {
        Ok(r)
    } else if !begins_with(code, "fn "@) {
        Ok(ReaderView { skipped: 1, ..r })
    } else {
        match function_header(code) {
            Some(function) => Ok(
                ReaderView { place: PlaceView::InFunction { function, scopes: 0 }, ..r },
            ),
            None => Err("expected fn header, got: "@ + code),
        }
    }
}

/// The function with what a declaration adds. The first name declared for a
/// local stays; a line that declares nothing known adds nothing.
pub open spec fn with_declaration(
    f: FunctionView,
    code: Seq<char>,
    span: Option<SpanView>,
) -> FunctionView {
    if begins_with(code, "debug "@) {
        match debug_line(code) {
            Some(DebugView::Local { name, local }) => if f.debug_names.contains_key(local) {
                f
            } else {
                FunctionView { debug_names: f.debug_names.insert(local, name), ..f }
            },
            Some(DebugView::Capture(c)) => FunctionView { captures: f.captures.push(c), ..f },
            None => f,
        }
    } else if begins_with(code, "let "@) {
        match local_line(code, span) {
            Some(local) => FunctionView { locals: f.locals.push(local), ..f },
            None => f,
        }
    } else {
        f
    }
}

/// A line of a function outside its blocks.
pub open spec fn read_in_function(
    r: ReaderView,
    f: FunctionView,
    scopes: nat,
    code: Seq<char>,
    span: Option<SpanView>,
) -> Result<ReaderView, Seq<char>> {
    if ends_in(code, "{"@) {
        if begins_with(code, "scope "@) {
            Ok(ReaderView { place: PlaceView::InFunction { function: f, scopes: scopes + 1 }, ..r })
        } else {
            match block_label(code) {
                Some(id) => Ok(
                    ReaderView {
                        place: PlaceView::InBlock { function: f, block: open_block(id), scopes },
                        ..r
                    },
                ),
                None => Err("expected bb header, got: "@ + code),
            }
        }
    } else if code == "}"@ {
        if scopes > 0 {
            Ok(
                ReaderView {
                    place: PlaceView::InFunction { function: f, scopes: (scopes - 1) as nat },
                    ..r
                },
            )
        } else {
            Ok(
                ReaderView {
                    functions: r.functions.push(with_capture_names(f)),
                    place: PlaceView::Outside,
                    ..r
                },
            )
        }
    } else {
        Ok(
            ReaderView {
                place: PlaceView::InFunction { function: with_declaration(f, code, span), scopes },
                ..r
            },
        )
    }
}

/// The block with what a body line adds: a terminator or a statement; one of
/// another shape is kept as text.
pub open spec fn with_body_line(
    b: BlockView,
    code: Seq<char>,
    span: Option<SpanView>,
) -> BlockView {
    match terminator_line(code, span) {
        Some(terminator) => BlockView { terminator, ..b },
        None => match statement_line(code, span) {
            Some(s) => BlockView { statements: b.statements.push(s), ..b },
            None => if terminator_shape(code) {
                BlockView { terminator: TerminatorView::Other { text: code, span }, ..b }
            } else {
                BlockView {
                    statements: b.statements.push(StatementView::Other { text: code, span }),
                    ..b
                }
            },
        },
    }
}

/// A line of a block.
pub open spec fn read_in_block(
    r: ReaderView,
    f: FunctionView,
    b: BlockView,
    scopes: nat,
    code: Seq<char>,
    span: Option<SpanView>,
) -> ReaderView {
    if code == "}"@ {
        ReaderView {
            place: PlaceView::InFunction {
                function: FunctionView { blocks: f.blocks.push(b), ..f },
                scopes,
            },
            ..r
        }
    } else {
        ReaderView {
            place: PlaceView::InBlock { function: f, block: with_body_line(b, code, span), scopes },
            ..r
        }
    }
}

/// The reader after one line, or what is wrong with the line. Blank lines
/// and lines that are all comment count for nothing.
pub open spec fn read_line(r: ReaderView, raw: Seq<char>) -> Result<ReaderView, Seq<char>> {
    let line = trimmed(raw);
    if line.len() == 0 || begins_with(line, "//"@) {
        Ok(r)
    } else {
        let (code, comment) = without_comment(line);
        let span = match comment {
            Some(c) => span_of_comment(c),
            None => None,
        };
        if r.skipped > 0 {
            Ok(
                ReaderView {
                    skipped: if ends_in(code, "{"@) {
                        r.skipped + 1
                    } else if code == "}"@ {
                        (r.skipped - 1) as nat
                    } else {
                        r.skipped
                    },
                    ..r
                },
            )
        } else {
            match r.place {
                PlaceView::Outside => read_outside(r, code),
                PlaceView::InFunction { function, scopes } => read_in_function(
                    r,
                    function,
                    scopes,
                    code,
                    span,
                ),
                PlaceView::InBlock { function, block, scopes } => Ok(
                    read_in_block(r, function, block, scopes, code, span),
                ),
            }
        }
    }
}

/// What the lines give from a reader on, where the first has the number
/// `line_no`: the complete functions, or the first error.
pub open spec fn read_lines(r: ReaderView, lines: Seq<Seq<char>>, line_no: nat) -> Result<
    MirView,
    ParseErrorView,
>
    decreases lines.len(),
{
    if lines.len() == 0 {
        Ok(MirView { functions: r.functions })
    } else {
        match read_line(r, lines[0]) {
            Ok(next) => read_lines(next, lines.skip(1), line_no + 1),
            Err(message) => Err(ParseErrorView { line: line_no, message }),
        }
    }
}

/// The MIR that a dump spells.
pub open spec fn mir_of_text(input: Seq<char>) -> Result<MirView, ParseErrorView> {
    read_lines(initial_reader(), pieces(input, '\n'), 1)
}

/// Where a reader stands.
enum Place {
    Outside,
    InFunction { function: MirFunction, scopes: usize },
    InBlock { function: MirFunction, block: MirBlock, scopes: usize },
}

/// A reader between two lines.
struct Reader {
    functions: Vec<MirFunction>,
    skipped: usize,
    place: Place,
}

impl DeepView for Place {
    type V = PlaceView;

    closed spec fn deep_view(&self) -> PlaceView {
        match *self {
            Place::Outside => PlaceView::Outside,
            Place::InFunction { function, scopes } => PlaceView::InFunction {
                function: function.deep_view(),
                scopes: scopes as nat,
            },
            Place::InBlock { function, block, scopes } => PlaceView::InBlock {
                function: function.deep_view(),
                block: block.deep_view(),
                scopes: scopes as nat,
            },
        }
    }
}

impl DeepView for Reader {
    type V = ReaderView;

    closed spec fn deep_view(&self) -> ReaderView {
        ReaderView {
            functions: self.functions.deep_view(),
            skipped: self.skipped as nat,
            place: self.place.deep_view(),
        }
    }
}

/// The number of open braces that a reader counts.
spec fn open_braces(r: Reader) -> int {
    r.skipped + match r.place {
        Place::Outside => 0,
        Place::InFunction { function, scopes } => scopes as int,
        Place::InBlock { function, block, scopes } => scopes as int,
    }
}

/// An error message about a line.
fn about(message: &str, code: &[char]) -> (r: String)
    ensures
        r@ == message@ + code@,
{
    let mut out = String::new();
    out.append(message);
    out.append(string_of(code).as_str());
    assert(out@ =~= message@ + code@);
    out
}

/// Adds what a declaration adds.
fn add_declaration(f: &mut MirFunction, code: &[char], span: Option<SourceSpan>)
    ensures
        final(f).deep_view() == with_declaration(old(f).deep_view(), code@, span.deep_view()),
{
    let ghost before = f.deep_view();
    if starts_with(code, "debug ") {
        match parse_debug(code) {
            Some(DebugAnnotation::Local { name, local }) => {
                set_name_once(&mut f.debug_names, local, name);
            },
            Some(DebugAnnotation::Capture(c)) => {
                f.captures.push(c);
                assert(f.captures.deep_view() =~= before.captures.push(c.deep_view()));
            },
            None => {},
        }
    } else if starts_with(code, "let ") {
        if let Some(local) = parse_let(code, span) {
            f.locals.push(local);
            assert(f.locals.deep_view() =~= before.locals.push(local.deep_view()));
        }
    }
}

/// Adds what a body line adds.
fn add_body_line(b: &mut MirBlock, code: &[char], span: Option<SourceSpan>)
    ensures
        final(b).deep_view() == with_body_line(old(b).deep_view(), code@, span.deep_view()),
{
    let ghost before = b.deep_view();
    if let Some(t) = parse_terminator(code, copy_span(&span)) {
        b.terminator = t;
        return;
    }
    let s = match parse_statement(code, copy_span(&span)) {
        Some(s) => s,
        None => {
            let text = string_of(code);
            if looks_like_terminator(code) {
                b.terminator = MirTerminator::Other { text, span };
                return;
            }
            MirStatement::Other { text, span }
        },
    };
    b.statements.push(s);
    assert(b.statements.deep_view() =~= before.statements.push(s.deep_view()));
}

impl Reader {
    /// Reads a line outside any function.
    fn outside(self, code: &[char]) -> (next: Result<Reader, String>)
        requires
            self.skipped == 0,
            self.place is Outside,
        ensures
            match next {
                Ok(r) => read_outside(self.deep_view(), code@) == Ok::<ReaderView, Seq<char>>(
                    r.deep_view(),
                ) && open_braces(r) <= open_braces(self) + 1,
                Err(e) => read_outside(self.deep_view(), code@) == Err::<ReaderView, Seq<char>>(e@),
            },
    {
        if !ends_with(code, "{") {
            return Ok(self);
        }
        if !starts_with(code, "fn ") {
            return Ok(Reader { functions: self.functions, skipped: 1, place: self.place });
        }
        match parse_fn_header(code) {
            Some(function) => Ok(
                Reader {
                    functions: self.functions,
                    skipped: self.skipped,
                    place: Place::InFunction { function, scopes: 0 },
                },
            ),
            None => Err(about("expected fn header, got: ", code)),
        }
    }

    /// Reads a line of a function outside its blocks.
    fn in_function(
        functions: Vec<MirFunction>,
        function: MirFunction,
        scopes: usize,
        code: &[char],
        span: Option<SourceSpan>,
    ) -> (next: Result<Reader, String>)
        requires
            scopes < usize::MAX,
        ensures
            ({
                let before = ReaderView {
                    functions: functions.deep_view(),
                    skipped: 0,
                    place: PlaceView::InFunction {
                        function: function.deep_view(),
                        scopes: scopes as nat,
                    },
                };
                let after = read_in_function(
                    before,
                    function.deep_view(),
                    scopes as nat,
                    code@,
                    span.deep_view(),
                );
                match next {
                    Ok(r) => after == Ok::<ReaderView, Seq<char>>(r.deep_view()) && open_braces(r)
                        <= scopes + 1,
                    Err(e) => after == Err::<ReaderView, Seq<char>>(e@),
                }
            }),
    {
        let mut function = function;
        let mut functions = functions;
        let ghost done = functions.deep_view();
        if ends_with(code, "{") {
            if starts_with(code, "scope ") {
                return Ok(
                    Reader {
                        functions,
                        skipped: 0,
                        place: Place::InFunction { function, scopes: scopes + 1 },
                    },
                );
            }
            return match parse_bb_header(code) {
                Some(id) => {
                    let block = MirBlock {
                        id,
                        statements: Vec::new(),
                        terminator: MirTerminator::Other {
                            text: "(missing)".to_owned(),
                            span: None,
                        },
                    };
                    assert(block.statements.deep_view() =~= seq![]);
                    Ok(
                        Reader {
                            functions,
                            skipped: 0,
                            place: Place::InBlock { function, block, scopes },
                        },
                    )
                },
                None => Err(about("expected bb header, got: ", code)),
            };
        }
        if is_text(code, "}") {
            if scopes > 0 {
                return Ok(
                    Reader {
                        functions,
                        skipped: 0,
                        place: Place::InFunction { function, scopes: scopes - 1 },
                    },
                );
            }
            propagate_capture_names(&mut function);
            functions.push(function);
            assert(functions.deep_view() =~= done.push(function.deep_view()));
            return Ok(Reader { functions, skipped: 0, place: Place::Outside });
        }
        add_declaration(&mut function, code, span);
        Ok(Reader { functions, skipped: 0, place: Place::InFunction { function, scopes } })
    }

    /// Reads a line of a block.
    fn in_block(
        functions: Vec<MirFunction>,
        function: MirFunction,
        block: MirBlock,
        scopes: usize,
        code: &[char],
        span: Option<SourceSpan>,
    ) -> (next: Reader)
        ensures
            ({
                let before = ReaderView {
                    functions: functions.deep_view(),
                    skipped: 0,
                    place: PlaceView::InBlock {
                        function: function.deep_view(),
                        block: block.deep_view(),
                        scopes: scopes as nat,
                    },
                };
                next.deep_view() == read_in_block(
                    before,
                    function.deep_view(),
                    block.deep_view(),
                    scopes as nat,
                    code@,
                    span.deep_view(),
                )
            }),
            open_braces(next) == scopes,
    {
        let mut function = function;
        let mut block = block;
        let ghost blocks = function.blocks.deep_view();
        if is_text(code, "}") {
            function.blocks.push(block);
            assert(function.blocks.deep_view() =~= blocks.push(block.deep_view()));
            Reader { functions, skipped: 0, place: Place::InFunction { function, scopes } }
        } else {
            add_body_line(&mut block, code, span);
            Reader { functions, skipped: 0, place: Place::InBlock { function, block, scopes } }
        }
    }

    /// Reads one line.
    fn line(self, raw: &[char]) -> (next: Result<Reader, String>)
        requires
            open_braces(self) < usize::MAX,
        ensures
            match next {
                Ok(r) => read_line(self.deep_view(), raw@) == Ok::<ReaderView, Seq<char>>(
                    r.deep_view(),
                ) && open_braces(r) <= open_braces(self) + 1,
                Err(e) => read_line(self.deep_view(), raw@) == Err::<ReaderView, Seq<char>>(e@),
            },
    {
        let line = trim(raw);
        if line.len() == 0 || starts_with(line, "//") {
            return Ok(self);
        }
        let (code, comment) = split_off_trailing_comment(line);
        let span = match comment {
            Some(c) => read_span_comment(c),
            None => None,
        };
        if self.skipped > 0 {
            let skipped: usize = if ends_with(code, "{") {
                self.skipped + 1
            } else if is_text(code, "}") {
                self.skipped - 1
            } else {
                self.skipped
            };
            return Ok(Reader { functions: self.functions, skipped, place: self.place });
        }
        let Reader { functions, skipped, place } = self;
        match place {
            Place::Outside => (Reader { functions, skipped, place: Place::Outside }).outside(code),
            Place::InFunction { function, scopes } => Reader::in_function(
                functions,
                function,
                scopes,
                code,
                span,
            ),
            Place::InBlock { function, block, scopes } => Ok(
                Reader::in_block(functions, function, block, scopes, code, span),
            ),
        }
    }
}

/// Parses an `--emit=mir` text dump into a [`Mir`].
///
/// Recognised are function headers, `debug` annotations, `let` locals and
/// blocks; other top-level items are skipped. When the dump carries span
/// comments they are attached to the declaration, statement or terminator
/// they stand behind; otherwise the `span` fields are `None`.
pub fn parse_text(input: &str) -> (r: Result<Mir, ParseError>)
    ensures
        match r {
            Ok(mir) => mir_of_text(input@) == Ok::<MirView, ParseErrorView>(mir.deep_view()),
            Err(e) => mir_of_text(input@) == Err::<MirView, ParseErrorView>(e.deep_view()),
        },
{
    let chars = chars_of(input);
    let lines = split(chars.as_slice(), '\n');
    let count: usize = lines.len();
    let ghost all = texts(lines@);
    let mut reader = Reader { functions: Vec::new(), skipped: 0, place: Place::Outside };
    assert(reader.functions.deep_view() =~= seq![]);
    assert(all.skip(0) =~= all);
    let mut i: usize = 0;
    while i < count
        invariant
            i <= lines@.len(),
            count == lines@.len(),
            all == texts(lines@),
            all == pieces(input@, '\n'),
            open_braces(reader) <= i,
            mir_of_text(input@) == read_lines(
                reader.deep_view(),
                all.skip(i as int),
                (i + 1) as nat,
            ),
        decreases lines@.len() - i,
    {
        assert(all.skip(i as int)[0] == lines@[i as int]@);
        assert(all.skip(i as int).skip(1) =~= all.skip(i + 1));
        match reader.line(lines[i]) {
            Ok(next) => {
                reader = next;
            },
            Err(message) => {
                return Err(ParseError { line: i + 1, message });
            },
        }
        i += 1;
    }
    assert(all.skip(i as int) =~= seq![]);
    Ok(Mir { functions: reader.functions })
}

} // verus!
